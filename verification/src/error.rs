use vstd::prelude::*;

verus! {

/// The failure kinds of the language pipeline.  Every error is fatal to the
/// evaluation in progress: the first error anywhere in a recursive
/// evaluation aborts the whole evaluation and propagates to the caller.
///
/// `DepthLimit` reports that the evaluation depth budget (the `fuel`
/// argument of the evaluator) ran out; it is the analogue of stack
/// exhaustion in an unbounded tree walker, the one fatal condition that a
/// bounded interpreter must surface as a value.
#[derive(Clone, Copy, PartialEq, Eq, Structural, Debug)]
pub enum Error {
    /// A bad escape sequence or an out-of-range numeral in the source text.
    LexError,
    /// An unclosed list, or an empty token stream.
    ParseError,
    /// A lookup or an assignment on a name with no binding.
    UnboundVariable,
    /// A wrong arity, or a wrong operand shape for a special form.
    InvalidForm,
    /// A list headed by a symbol that names no special form.
    UnknownForm,
    /// A numeric read was requested and no input was left.
    IOError,
    /// The evaluation depth budget ran out.
    DepthLimit,
}

} // verus!
