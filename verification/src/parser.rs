use vstd::prelude::*;

use crate::error::Error;
use crate::forms::kw_list;
use crate::forms::kw_list_vec;
use crate::lexer::Token;
use crate::lexer::TokenV;
use crate::lexer::tokens_view;
use crate::sexpr::Atom;
use crate::sexpr::SExpr;
use crate::sexpr::Val;
use crate::sexpr::clone_bytes;
use crate::sexpr::val_wf;
use crate::sexpr::views_of_seq;

verus! {

/// A string literal is rewritten into an equivalent `(list c1 c2 ...)`
/// expression over its byte codes before the evaluator ever sees it.
pub open spec fn desugar_text(bytes: Seq<u8>) -> Val {
    Val::List(seq![Val::Sym(kw_list())] + Seq::new(bytes.len(), |i: int| Val::Num(bytes[i] as int)))
}

/// One expression parsed from `toks[pos..]`, with the position just past
/// it; `None` when a closing parenthesis or the end of the tokens comes
/// first.  A list that is opened and never closed is a parse error.
pub open spec fn spec_parse_expr(toks: Seq<TokenV>, pos: nat) -> Result<
    Option<(Val, nat)>,
    Error,
>
    decreases toks.len() - pos, 0nat,
{
    if pos >= toks.len() {
        Ok(None)
    } else {
        match toks[pos as int] {
            TokenV::LeftParen => match spec_parse_list(toks, pos + 1) {
                Ok((items, p2)) => if p2 < toks.len() && toks[p2 as int] is RightParen {
                    Ok(Some((Val::List(items), p2 + 1)))
                } else {
                    Err(Error::ParseError)
                },
                Err(e) => Err(e),
            },
            TokenV::RightParen => Ok(None),
            TokenV::Number(n) => Ok(Some((Val::Num(n), pos + 1))),
            TokenV::Symbol(s) => Ok(Some((Val::Sym(s), pos + 1))),
            TokenV::Text(t) => Ok(Some((desugar_text(t), pos + 1))),
        }
    }
}

/// The run of expressions parsed from `toks[pos..]` up to (not including) a
/// closing parenthesis or the end of the tokens.
pub open spec fn spec_parse_list(toks: Seq<TokenV>, pos: nat) -> Result<(Seq<Val>, nat), Error>
    decreases toks.len() - pos, 1nat,
{
    match spec_parse_expr(toks, pos) {
        Ok(Some((v, p2))) => if pos < p2 <= toks.len() {
            match spec_parse_list(toks, p2) {
                Ok((items, p3)) => Ok((seq![v] + items, p3)),
                Err(e) => Err(e),
            }
        } else {
            // parsing one expression always advances; see
            // `lemma_parse_expr_props`
            Ok((seq![v], p2))
        },
        Ok(None) => Ok((Seq::empty(), pos)),
        Err(e) => Err(e),
    }
}

/// Exactly one expression: the program is a single top-level form.  An
/// empty token stream is a parse error.  Tokens after the first form are
/// ignored.
pub open spec fn spec_parse(toks: Seq<TokenV>) -> Result<Val, Error> {
    match spec_parse_expr(toks, 0) {
        Ok(Some((v, _))) => Ok(v),
        Ok(None) => Err(Error::ParseError),
        Err(e) => Err(e),
    }
}

/// Parsing one expression consumes at least one token and stays in bounds,
/// and a parsed expression holds no `Ref` node.
pub proof fn lemma_parse_expr_props(toks: Seq<TokenV>, pos: nat)
    requires
        pos <= toks.len(),
    ensures
        spec_parse_expr(toks, pos) matches Ok(Some((v, p))) ==> pos < p <= toks.len() && val_wf(
            v,
            0,
        ),
        spec_parse_list(toks, pos) matches Ok((items, p)) ==> pos <= p <= toks.len() && forall|
            i: int,
        | 0 <= i < items.len() ==> val_wf(#[trigger] items[i], 0),
    decreases toks.len() - pos,
{
    if pos < toks.len() {
        match toks[pos as int] {
            TokenV::LeftParen => {
                lemma_parse_expr_props(toks, pos + 1);
            },
            TokenV::Text(t) => {
                assert(val_wf(desugar_text(t), 0)) by {
                    let items = seq![Val::Sym(kw_list())] + Seq::new(
                        t.len(),
                        |i: int| Val::Num(t[i] as int),
                    );
                    assert(forall|i: int| 0 <= i < items.len() ==> val_wf(#[trigger] items[i], 0));
                }
            },
            _ => {},
        }
    }
    match spec_parse_expr(toks, pos) {
        Ok(Some((v, p2))) => {
            if pos < p2 <= toks.len() {
                lemma_parse_expr_props(toks, p2);
            }
        },
        _ => {},
    }
}

/// One expression parsed from `input[pos..]`; `None` when a closing
/// parenthesis or the end of the input comes first.
fn parse_expr(input: &Vec<Token>, pos: usize) -> (r: Result<Option<(SExpr, usize)>, Error>)
    requires
        pos <= input@.len(),
    ensures
        match (r, spec_parse_expr(tokens_view(input@), pos as nat)) {
            (Ok(Some((e, p))), Ok(Some((v, sp)))) => e@ == v && p as nat == sp,
            (Ok(None), Ok(None)) => true,
            (Err(e1), Err(e2)) => e1 == e2,
            _ => false,
        },
    decreases input@.len() - pos,
{
    let ghost toks = tokens_view(input@);
    if pos >= input.len() {
        return Ok(None);
    }
    match &input[pos] {
        Token::LeftParen => {
            let ghost start = (pos + 1) as nat;
            let mut items: Vec<SExpr> = Vec::new();
            let mut p: usize = pos + 1;
            loop
                invariant_except_break
                    pos + 1 <= p <= input@.len(),
                    toks == tokens_view(input@),
                    pos < input@.len(),
                    start == pos + 1,
                    toks[pos as int] is LeftParen,
                    spec_parse_list(toks, start) == list_combine(
                        views_of_seq(items@),
                        spec_parse_list(toks, p as nat),
                    ),
                ensures
                    pos + 1 <= p <= input@.len(),
                    toks == tokens_view(input@),
                    spec_parse_list(toks, start) matches Ok((vs, sp)) && vs == views_of_seq(
                        items@,
                    ) && sp == p as nat,
                decreases input@.len() - p,
            {
                proof {
                    lemma_parse_expr_props(toks, p as nat);
                }
                match parse_expr(input, p) {
                    Ok(Some((e, p2))) => {
                        let ghost itemsold = items@;
                        items.push(e);
                        proof {
                            assert(views_of_seq(items@) =~= views_of_seq(itemsold) + seq![e@]);
                            lemma_list_combine_shift(
                                views_of_seq(itemsold),
                                e@,
                                spec_parse_list(toks, p2 as nat),
                            );
                        }
                        p = p2;
                    },
                    Ok(None) => {
                        proof {
                            assert(views_of_seq(items@) + Seq::<Val>::empty() =~= views_of_seq(
                                items@,
                            ));
                        }
                        break;
                    },
                    Err(e) => {
                        return Err(e);
                    },
                }
            }
            if p < input.len() {
                let closed = match &input[p] {
                    Token::RightParen => true,
                    _ => false,
                };
                if closed {
                    return Ok(Some((SExpr::List(items), p + 1)));
                }
            }
            Err(Error::ParseError)
        },
        Token::RightParen => Ok(None),
        Token::Number(n) => Ok(Some((SExpr::Atom(Atom::Number(*n)), pos + 1))),
        Token::Symbol(s) => Ok(Some((SExpr::Atom(Atom::Symbol(clone_bytes(s))), pos + 1))),
        Token::Text(t) => {
            let mut items: Vec<SExpr> = Vec::new();
            items.push(SExpr::Atom(Atom::Symbol(kw_list_vec())));
            let mut i: usize = 0;
            while i < t.len()
                invariant
                    i <= t@.len(),
                    items@.len() == i + 1,
                    items@[0]@ == Val::Sym(kw_list()),
                    forall|j: int| 1 <= j <= i ==> items@[j]@ == Val::Num(t@[j - 1] as int),
                decreases t@.len() - i,
            {
                items.push(SExpr::Atom(Atom::Number(t[i] as i64)));
                i = i + 1;
            }
            let e = SExpr::List(items);
            proof {
                assert(e@ matches Val::List(vs) && vs =~= (seq![Val::Sym(kw_list())] + Seq::new(
                    t@.len(),
                    |j: int| Val::Num(t@[j] as int),
                )));
            }
            Ok(Some((e, pos + 1)))
        },
    }
}

/// Append a finished prefix of parsed expressions in front of a list-parse
/// result.
pub open spec fn list_combine(done: Seq<Val>, rest: Result<(Seq<Val>, nat), Error>) -> Result<
    (Seq<Val>, nat),
    Error,
> {
    match rest {
        Ok((items, p)) => Ok((done + items, p)),
        Err(e) => Err(e),
    }
}

proof fn lemma_list_combine_shift(done: Seq<Val>, v: Val, rest: Result<(Seq<Val>, nat), Error>)
    ensures
        list_combine(done, match rest {
            Ok((items, p)) => Ok((seq![v] + items, p)),
            Err(e) => Err(e),
        }) == list_combine(done + seq![v], rest),
{
    match rest {
        Ok((items, p)) => {
            assert(done + (seq![v] + items) =~= (done + seq![v]) + items);
        },
        Err(_) => {},
    }
}

/// Construct the single expression tree of a program from its token
/// sequence.  The result never holds a `Ref` node: references only come
/// into being during evaluation.
pub fn parse(input: &Vec<Token>) -> (r: Result<SExpr, Error>)
    ensures
        match (r, spec_parse(tokens_view(input@))) {
            (Ok(e), Ok(v)) => e@ == v && val_wf(e@, 0),
            (Err(e1), Err(e2)) => e1 == e2,
            _ => false,
        },
{
    proof {
        lemma_parse_expr_props(tokens_view(input@), 0);
    }
    match parse_expr(input, 0) {
        Ok(Some((e, _))) => Ok(e),
        Ok(None) => Err(Error::ParseError),
        Err(e) => Err(e),
    }
}

} // verus!
