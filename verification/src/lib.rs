//! A tree-walking evaluator for a minimal Lisp-like expression language:
//! parenthesized S-expressions over numeric atoms, symbols and nested lists,
//! with mutable lexically-scoped variables and closures that capture by
//! reference.  Shared mutable cells are realized as an arena of cells owned
//! by the evaluation context; a `Ref` expression is an index into that arena.

pub mod error;
pub mod evaluator;
pub mod forms;
pub mod laws;
pub mod lexer;
pub mod parser;
pub mod semantics;
pub mod sexpr;
