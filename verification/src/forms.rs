use vstd::prelude::*;

use crate::sexpr::bytes_eq;

verus! {

/// The closed set of special forms.  A list whose head is a symbol is
/// dispatched over this enum; `Unknown` is the fallback for a head symbol
/// that names no form.
#[derive(Clone, Copy, PartialEq, Eq, Structural, Debug)]
pub enum Form {
    Let,
    Assign,
    If,
    While,
    Lambda,
    LambdaCaptured,
    Call,
    Quote,
    ListForm,
    Print,
    ReadNum,
    Plus,
    Greater,
    Less,
    GreaterEqual,
    LessEqual,
    Equal,
    Unknown,
}

pub open spec fn kw_let() -> Seq<u8> {
    seq!['l' as u8, 'e' as u8, 't' as u8]
}

pub open spec fn kw_set() -> Seq<u8> {
    seq!['s' as u8, 'e' as u8, 't' as u8]
}

pub open spec fn kw_if() -> Seq<u8> {
    seq!['i' as u8, 'f' as u8]
}

pub open spec fn kw_while() -> Seq<u8> {
    seq!['w' as u8, 'h' as u8, 'i' as u8, 'l' as u8, 'e' as u8]
}

pub open spec fn kw_lambda() -> Seq<u8> {
    seq!['l' as u8, 'a' as u8, 'm' as u8, 'b' as u8, 'd' as u8, 'a' as u8]
}

pub open spec fn kw_lambda_captured() -> Seq<u8> {
    kw_lambda() + seq!['-' as u8] + seq!['c' as u8, 'a' as u8, 'p' as u8, 't' as u8, 'u' as u8, 'r' as u8, 'e' as u8, 'd' as u8]
}

pub open spec fn kw_call() -> Seq<u8> {
    seq!['c' as u8, 'a' as u8, 'l' as u8, 'l' as u8]
}

pub open spec fn kw_quote() -> Seq<u8> {
    seq!['q' as u8, 'u' as u8, 'o' as u8, 't' as u8, 'e' as u8]
}

pub open spec fn kw_list() -> Seq<u8> {
    seq!['l' as u8, 'i' as u8, 's' as u8, 't' as u8]
}

pub open spec fn kw_print() -> Seq<u8> {
    seq!['p' as u8, 'r' as u8, 'i' as u8, 'n' as u8, 't' as u8]
}

pub open spec fn kw_readnum() -> Seq<u8> {
    seq!['r' as u8, 'e' as u8, 'a' as u8, 'd' as u8, 'n' as u8, 'u' as u8, 'm' as u8]
}

pub open spec fn kw_plus() -> Seq<u8> {
    seq!['+' as u8]
}

pub open spec fn kw_greater() -> Seq<u8> {
    seq!['>' as u8]
}

pub open spec fn kw_less() -> Seq<u8> {
    seq!['<' as u8]
}

pub open spec fn kw_greater_equal() -> Seq<u8> {
    seq!['>' as u8, '=' as u8]
}

pub open spec fn kw_less_equal() -> Seq<u8> {
    seq!['<' as u8, '=' as u8]
}

pub open spec fn kw_equal() -> Seq<u8> {
    seq!['=' as u8]
}

/// Which special form a head symbol selects.
pub open spec fn spec_form_of(name: Seq<u8>) -> Form {
    if name == kw_let() {
        Form::Let
    } else if name == kw_set() {
        Form::Assign
    } else if name == kw_if() {
        Form::If
    } else if name == kw_while() {
        Form::While
    } else if name == kw_lambda() {
        Form::Lambda
    } else if name == kw_lambda_captured() {
        Form::LambdaCaptured
    } else if name == kw_call() {
        Form::Call
    } else if name == kw_quote() {
        Form::Quote
    } else if name == kw_list() {
        Form::ListForm
    } else if name == kw_print() {
        Form::Print
    } else if name == kw_readnum() {
        Form::ReadNum
    } else if name == kw_plus() {
        Form::Plus
    } else if name == kw_greater() {
        Form::Greater
    } else if name == kw_less() {
        Form::Less
    } else if name == kw_greater_equal() {
        Form::GreaterEqual
    } else if name == kw_less_equal() {
        Form::LessEqual
    } else if name == kw_equal() {
        Form::Equal
    } else {
        Form::Unknown
    }
}

pub fn kw_let_vec() -> (r: Vec<u8>)
    ensures
        r@ == kw_let(),
{
    let mut v: Vec<u8> = Vec::new();
    v.push('l' as u8);
    v.push('e' as u8);
    v.push('t' as u8);
    proof {
        assert(v@ =~= kw_let());
    }
    v
}

pub fn kw_set_vec() -> (r: Vec<u8>)
    ensures
        r@ == kw_set(),
{
    let mut v: Vec<u8> = Vec::new();
    v.push('s' as u8);
    v.push('e' as u8);
    v.push('t' as u8);
    proof {
        assert(v@ =~= kw_set());
    }
    v
}

pub fn kw_if_vec() -> (r: Vec<u8>)
    ensures
        r@ == kw_if(),
{
    let mut v: Vec<u8> = Vec::new();
    v.push('i' as u8);
    v.push('f' as u8);
    proof {
        assert(v@ =~= kw_if());
    }
    v
}

pub fn kw_while_vec() -> (r: Vec<u8>)
    ensures
        r@ == kw_while(),
{
    let mut v: Vec<u8> = Vec::new();
    v.push('w' as u8);
    v.push('h' as u8);
    v.push('i' as u8);
    v.push('l' as u8);
    v.push('e' as u8);
    proof {
        assert(v@ =~= kw_while());
    }
    v
}

pub fn kw_lambda_vec() -> (r: Vec<u8>)
    ensures
        r@ == kw_lambda(),
{
    let mut v: Vec<u8> = Vec::new();
    v.push('l' as u8);
    v.push('a' as u8);
    v.push('m' as u8);
    v.push('b' as u8);
    v.push('d' as u8);
    v.push('a' as u8);
    proof {
        assert(v@ =~= kw_lambda());
    }
    v
}

pub fn kw_lambda_captured_vec() -> (r: Vec<u8>)
    ensures
        r@ == kw_lambda_captured(),
{
    let mut v = kw_lambda_vec();
    v.push('-' as u8);
    v.push('c' as u8);
    v.push('a' as u8);
    v.push('p' as u8);
    v.push('t' as u8);
    v.push('u' as u8);
    v.push('r' as u8);
    v.push('e' as u8);
    v.push('d' as u8);
    proof {
        assert(v@ =~= kw_lambda_captured());
    }
    v
}

pub fn kw_call_vec() -> (r: Vec<u8>)
    ensures
        r@ == kw_call(),
{
    let mut v: Vec<u8> = Vec::new();
    v.push('c' as u8);
    v.push('a' as u8);
    v.push('l' as u8);
    v.push('l' as u8);
    proof {
        assert(v@ =~= kw_call());
    }
    v
}

pub fn kw_quote_vec() -> (r: Vec<u8>)
    ensures
        r@ == kw_quote(),
{
    let mut v: Vec<u8> = Vec::new();
    v.push('q' as u8);
    v.push('u' as u8);
    v.push('o' as u8);
    v.push('t' as u8);
    v.push('e' as u8);
    proof {
        assert(v@ =~= kw_quote());
    }
    v
}

pub fn kw_list_vec() -> (r: Vec<u8>)
    ensures
        r@ == kw_list(),
{
    let mut v: Vec<u8> = Vec::new();
    v.push('l' as u8);
    v.push('i' as u8);
    v.push('s' as u8);
    v.push('t' as u8);
    proof {
        assert(v@ =~= kw_list());
    }
    v
}

pub fn kw_print_vec() -> (r: Vec<u8>)
    ensures
        r@ == kw_print(),
{
    let mut v: Vec<u8> = Vec::new();
    v.push('p' as u8);
    v.push('r' as u8);
    v.push('i' as u8);
    v.push('n' as u8);
    v.push('t' as u8);
    proof {
        assert(v@ =~= kw_print());
    }
    v
}

pub fn kw_readnum_vec() -> (r: Vec<u8>)
    ensures
        r@ == kw_readnum(),
{
    let mut v: Vec<u8> = Vec::new();
    v.push('r' as u8);
    v.push('e' as u8);
    v.push('a' as u8);
    v.push('d' as u8);
    v.push('n' as u8);
    v.push('u' as u8);
    v.push('m' as u8);
    proof {
        assert(v@ =~= kw_readnum());
    }
    v
}

pub fn kw_plus_vec() -> (r: Vec<u8>)
    ensures
        r@ == kw_plus(),
{
    let mut v: Vec<u8> = Vec::new();
    v.push('+' as u8);
    proof {
        assert(v@ =~= kw_plus());
    }
    v
}

pub fn kw_greater_vec() -> (r: Vec<u8>)
    ensures
        r@ == kw_greater(),
{
    let mut v: Vec<u8> = Vec::new();
    v.push('>' as u8);
    proof {
        assert(v@ =~= kw_greater());
    }
    v
}

pub fn kw_less_vec() -> (r: Vec<u8>)
    ensures
        r@ == kw_less(),
{
    let mut v: Vec<u8> = Vec::new();
    v.push('<' as u8);
    proof {
        assert(v@ =~= kw_less());
    }
    v
}

pub fn kw_greater_equal_vec() -> (r: Vec<u8>)
    ensures
        r@ == kw_greater_equal(),
{
    let mut v: Vec<u8> = Vec::new();
    v.push('>' as u8);
    v.push('=' as u8);
    proof {
        assert(v@ =~= kw_greater_equal());
    }
    v
}

pub fn kw_less_equal_vec() -> (r: Vec<u8>)
    ensures
        r@ == kw_less_equal(),
{
    let mut v: Vec<u8> = Vec::new();
    v.push('<' as u8);
    v.push('=' as u8);
    proof {
        assert(v@ =~= kw_less_equal());
    }
    v
}

pub fn kw_equal_vec() -> (r: Vec<u8>)
    ensures
        r@ == kw_equal(),
{
    let mut v: Vec<u8> = Vec::new();
    v.push('=' as u8);
    proof {
        assert(v@ =~= kw_equal());
    }
    v
}

/// Resolve a head symbol to its special form.
pub fn form_of(name: &Vec<u8>) -> (f: Form)
    ensures
        f == spec_form_of(name@),
{
    if bytes_eq(name, &kw_let_vec()) {
        Form::Let
    } else if bytes_eq(name, &kw_set_vec()) {
        Form::Assign
    } else if bytes_eq(name, &kw_if_vec()) {
        Form::If
    } else if bytes_eq(name, &kw_while_vec()) {
        Form::While
    } else if bytes_eq(name, &kw_lambda_vec()) {
        Form::Lambda
    } else if bytes_eq(name, &kw_lambda_captured_vec()) {
        Form::LambdaCaptured
    } else if bytes_eq(name, &kw_call_vec()) {
        Form::Call
    } else if bytes_eq(name, &kw_quote_vec()) {
        Form::Quote
    } else if bytes_eq(name, &kw_list_vec()) {
        Form::ListForm
    } else if bytes_eq(name, &kw_print_vec()) {
        Form::Print
    } else if bytes_eq(name, &kw_readnum_vec()) {
        Form::ReadNum
    } else if bytes_eq(name, &kw_plus_vec()) {
        Form::Plus
    } else if bytes_eq(name, &kw_greater_vec()) {
        Form::Greater
    } else if bytes_eq(name, &kw_less_vec()) {
        Form::Less
    } else if bytes_eq(name, &kw_greater_equal_vec()) {
        Form::GreaterEqual
    } else if bytes_eq(name, &kw_less_equal_vec()) {
        Form::LessEqual
    } else if bytes_eq(name, &kw_equal_vec()) {
        Form::Equal
    } else {
        Form::Unknown
    }
}

} // verus!
