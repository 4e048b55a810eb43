use vstd::prelude::*;

use crate::error::Error;

verus! {

/// A token of the surface syntax, produced by `lex`.
#[derive(Debug, PartialEq, Eq)]
pub enum Token {
    LeftParen,
    RightParen,
    Number(i64),
    Symbol(Vec<u8>),
    Text(Vec<u8>),
}

/// The mathematical shape of a token.
pub enum TokenV {
    LeftParen,
    RightParen,
    Number(int),
    Symbol(Seq<u8>),
    Text(Seq<u8>),
}

impl View for Token {
    type V = TokenV;

    open spec fn view(&self) -> TokenV {
        match self {
            Token::LeftParen => TokenV::LeftParen,
            Token::RightParen => TokenV::RightParen,
            Token::Number(n) => TokenV::Number(*n as int),
            Token::Symbol(s) => TokenV::Symbol(s@),
            Token::Text(s) => TokenV::Text(s@),
        }
    }
}

/// The token sequence as the parser's contracts see it.
pub open spec fn tokens_view(ts: Seq<Token>) -> Seq<TokenV> {
    Seq::new(ts.len(), |i: int| ts[i]@)
}

pub open spec fn is_digit(b: u8) -> bool {
    '0' as u8 <= b <= '9' as u8
}

/// The characters a symbol may consist of: letters, `_` and the operator
/// characters.
pub open spec fn is_symbol_byte(b: u8) -> bool {
    ||| 'a' as u8 <= b <= 'z' as u8
    ||| 'A' as u8 <= b <= 'Z' as u8
    ||| b == '_' as u8
    ||| b == '+' as u8
    ||| b == '-' as u8
    ||| b == '*' as u8
    ||| b == '/' as u8
    ||| b == '>' as u8
    ||| b == '<' as u8
    ||| b == '=' as u8
}

/// The first position at or after `pos` that does not hold a digit.
pub open spec fn digit_run_end(s: Seq<u8>, pos: nat) -> nat
    decreases s.len() - pos,
{
    if pos >= s.len() {
        pos
    } else if is_digit(s[pos as int]) {
        digit_run_end(s, pos + 1)
    } else {
        pos
    }
}

/// The first position at or after `pos` that does not hold a symbol byte.
pub open spec fn symbol_run_end(s: Seq<u8>, pos: nat) -> nat
    decreases s.len() - pos,
{
    if pos >= s.len() {
        pos
    } else if is_symbol_byte(s[pos as int]) {
        symbol_run_end(s, pos + 1)
    } else {
        pos
    }
}

/// The numeric value of the digits `s[pos .. end]`, most significant first.
pub open spec fn digits_value(s: Seq<u8>, pos: nat, end: nat) -> int
    decreases end - pos,
{
    if pos >= end {
        0
    } else {
        digits_value(s, pos, (end - 1) as nat) * 10 + (s[end - 1] - '0' as u8)
    }
}

/// What one escape character stands for, if it is a recognized escape.
pub open spec fn escape_byte(b: u8) -> Option<u8> {
    if b == 'n' as u8 {
        Some('\n' as u8)
    } else if b == 'r' as u8 {
        Some('\r' as u8)
    } else if b == 't' as u8 {
        Some('\t' as u8)
    } else if b == '"' as u8 {
        Some('"' as u8)
    } else {
        None
    }
}

/// The decoded content of a string literal whose opening quote stands just
/// before `pos`, together with the position just past the closing quote.
/// An unrecognized escape, or text that ends before the closing quote, is a
/// lexing error.
pub open spec fn spec_scan_text(s: Seq<u8>, pos: nat) -> Result<(Seq<u8>, nat), Error>
    decreases s.len() - pos,
{
    if pos >= s.len() {
        Err(Error::LexError)
    } else if s[pos as int] == '"' as u8 {
        Ok((Seq::empty(), pos + 1))
    } else if s[pos as int] == '\\' as u8 {
        if pos + 1 >= s.len() {
            Err(Error::LexError)
        } else {
            match escape_byte(s[pos + 1int]) {
                Some(c) => match spec_scan_text(s, pos + 2) {
                    Ok((t, p)) => Ok((seq![c] + t, p)),
                    Err(e) => Err(e),
                },
                None => Err(Error::LexError),
            }
        }
    } else {
        match spec_scan_text(s, pos + 1) {
            Ok((t, p)) => Ok((seq![s[pos as int]] + t, p)),
            Err(e) => Err(e),
        }
    }
}

/// Prepend one token to a lexing result.
pub open spec fn lex_cons(t: TokenV, rest: Result<Seq<TokenV>, Error>) -> Result<
    Seq<TokenV>,
    Error,
> {
    match rest {
        Ok(ts) => Ok(seq![t] + ts),
        Err(e) => Err(e),
    }
}

/// The tokens of `s[pos..]`.  Parentheses are single tokens; a digit run is
/// one number (out of `i64` range is a lexing error); a symbol-byte run is
/// one symbol; `"` opens a string literal; any other byte is skipped.
pub open spec fn spec_lex_from(s: Seq<u8>, pos: nat) -> Result<Seq<TokenV>, Error>
    decreases s.len() - pos,
{
    if pos >= s.len() {
        Ok(Seq::empty())
    } else {
        let b = s[pos as int];
        if b == '(' as u8 {
            lex_cons(TokenV::LeftParen, spec_lex_from(s, pos + 1))
        } else if b == ')' as u8 {
            lex_cons(TokenV::RightParen, spec_lex_from(s, pos + 1))
        } else if is_digit(b) {
            let end = digit_run_end(s, pos);
            let next = if pos < end <= s.len() {
                end
            } else {
                pos + 1
            };
            let v = digits_value(s, pos, next);
            if v > i64::MAX as int {
                Err(Error::LexError)
            } else {
                lex_cons(TokenV::Number(v), spec_lex_from(s, next))
            }
        } else if is_symbol_byte(b) {
            let end = symbol_run_end(s, pos);
            let next = if pos < end <= s.len() {
                end
            } else {
                pos + 1
            };
            lex_cons(TokenV::Symbol(s.subrange(pos as int, next as int)), spec_lex_from(s, next))
        } else if b == '"' as u8 {
            match spec_scan_text(s, pos + 1) {
                Ok((txt, p2)) => {
                    let next = if pos < p2 <= s.len() {
                        p2
                    } else {
                        pos + 1
                    };
                    lex_cons(TokenV::Text(txt), spec_lex_from(s, next))
                },
                Err(e) => Err(e),
            }
        } else {
            spec_lex_from(s, pos + 1)
        }
    }
}

/// The token sequence of a whole source text.
pub open spec fn spec_lex(s: Seq<u8>) -> Result<Seq<TokenV>, Error> {
    spec_lex_from(s, 0)
}

/// Append a finished prefix of tokens in front of a lexing result.
pub open spec fn lex_combine(done: Seq<TokenV>, rest: Result<Seq<TokenV>, Error>) -> Result<
    Seq<TokenV>,
    Error,
> {
    match rest {
        Ok(ts) => Ok(done + ts),
        Err(e) => Err(e),
    }
}

pub proof fn lemma_digit_run_end(s: Seq<u8>, pos: nat)
    requires
        pos <= s.len(),
    ensures
        pos <= digit_run_end(s, pos) <= s.len(),
        forall|i: int| pos <= i < digit_run_end(s, pos) ==> is_digit(#[trigger] s[i]),
        digit_run_end(s, pos) < s.len() ==> !is_digit(s[digit_run_end(s, pos) as int]),
        pos < s.len() && is_digit(s[pos as int]) ==> digit_run_end(s, pos) > pos,
    decreases s.len() - pos,
{
    if pos < s.len() && is_digit(s[pos as int]) {
        lemma_digit_run_end(s, pos + 1);
    }
}

pub proof fn lemma_symbol_run_end(s: Seq<u8>, pos: nat)
    requires
        pos <= s.len(),
    ensures
        pos <= symbol_run_end(s, pos) <= s.len(),
        forall|i: int| pos <= i < symbol_run_end(s, pos) ==> is_symbol_byte(#[trigger] s[i]),
        symbol_run_end(s, pos) < s.len() ==> !is_symbol_byte(s[symbol_run_end(s, pos) as int]),
        pos < s.len() && is_symbol_byte(s[pos as int]) ==> symbol_run_end(s, pos) > pos,
    decreases s.len() - pos,
{
    if pos < s.len() && is_symbol_byte(s[pos as int]) {
        lemma_symbol_run_end(s, pos + 1);
    }
}

pub proof fn lemma_scan_text_bounds(s: Seq<u8>, pos: nat)
    requires
        pos <= s.len(),
    ensures
        spec_scan_text(s, pos) matches Ok((t, p)) ==> pos < p <= s.len(),
    decreases s.len() - pos,
{
    if pos < s.len() && s[pos as int] != '"' as u8 {
        if s[pos as int] == '\\' as u8 {
            if pos + 2 <= s.len() {
                lemma_scan_text_bounds(s, pos + 2);
            }
        } else {
            lemma_scan_text_bounds(s, pos + 1);
        }
    }
}

/// The value of a digit run is never negative.
pub proof fn lemma_digits_value_nonneg(s: Seq<u8>, pos: nat, i: nat)
    requires
        pos <= i,
        forall|k: int| pos <= k < i ==> is_digit(#[trigger] s[k]),
    ensures
        digits_value(s, pos, i) >= 0,
    decreases i - pos,
{
    if pos < i {
        lemma_digits_value_nonneg(s, pos, (i - 1) as nat);
    }
}

/// The digits of a run never shrink the value as the run extends.
pub proof fn lemma_digits_value_mono(s: Seq<u8>, pos: nat, i: nat, j: nat)
    requires
        pos <= i <= j,
        forall|k: int| pos <= k < j ==> is_digit(#[trigger] s[k]),
    ensures
        digits_value(s, pos, i) <= digits_value(s, pos, j),
    decreases j - i,
{
    if i < j {
        lemma_digits_value_mono(s, pos, i, (j - 1) as nat);
        lemma_digits_value_nonneg(s, pos, (j - 1) as nat);
    }
}

fn is_digit_b(b: u8) -> (r: bool)
    ensures
        r == is_digit(b),
{
    '0' as u8 <= b && b <= '9' as u8
}

fn is_symbol_b(b: u8) -> (r: bool)
    ensures
        r == is_symbol_byte(b),
{
    ('a' as u8 <= b && b <= 'z' as u8) || ('A' as u8 <= b && b <= 'Z' as u8) || b == '_' as u8
        || b == '+' as u8 || b == '-' as u8 || b == '*' as u8 || b == '/' as u8 || b == '>' as u8
        || b == '<' as u8 || b == '=' as u8
}

/// Convert raw source bytes into the flat ordered token sequence: the whole
/// result of `spec_lex`, or its error.
#[verifier::loop_isolation(false)]
pub fn lex(input: &Vec<u8>) -> (r: Result<Vec<Token>, Error>)
    ensures
        match (r, spec_lex(input@)) {
            (Ok(ts), Ok(tvs)) => tokens_view(ts@) == tvs,
            (Err(e1), Err(e2)) => e1 == e2,
            _ => false,
        },
{
    let mut tokens: Vec<Token> = Vec::new();
    let mut pos: usize = 0;
    while pos < input.len()
        invariant
            pos <= input.len(),
            spec_lex(input@) == lex_combine(tokens_view(tokens@), spec_lex_from(input@, pos as nat)),
        decreases input.len() - pos,
    {
        let ghost done = tokens_view(tokens@);
        let ghost pos0 = pos as nat;
        let b = input[pos];
        if b == '(' as u8 {
            tokens.push(Token::LeftParen);
            pos = pos + 1;
            proof {
                assert(tokens_view(tokens@) =~= done + seq![TokenV::LeftParen]);
                lemma_lex_combine_shift(done, TokenV::LeftParen, spec_lex_from(input@, pos as nat));
            }
        } else if b == ')' as u8 {
            tokens.push(Token::RightParen);
            pos = pos + 1;
            proof {
                assert(tokens_view(tokens@) =~= done + seq![TokenV::RightParen]);
                lemma_lex_combine_shift(done, TokenV::RightParen, spec_lex_from(input@, pos as nat));
            }
        } else if is_digit_b(b) {
            let ghost end = digit_run_end(input@, pos0);
            proof {
                lemma_digit_run_end(input@, pos0);
            }
            let ghost start = pos0;
            let mut val: i64 = 0;
            while pos < input.len() && is_digit_b(input[pos])
                invariant
                    start <= pos as nat <= end,
                    val == digits_value(input@, start, pos as nat),
                    val >= 0,
                decreases input.len() - pos,
            {
                let d = input[pos] - '0' as u8;
                if val > (i64::MAX - d as i64) / 10 {
                    proof {
                        let m = i64::MAX as int - d;
                        assert(m == 10 * (m / 10) + m % 10) by {
                            vstd::arithmetic::div_mod::lemma_fundamental_div_mod(m, 10);
                        }
                        assert(val * 10 + d > i64::MAX as int);
                        assert(digits_value(input@, start, (pos + 1) as nat) == val * 10 + d);
                        lemma_digits_value_mono(input@, start, (pos + 1) as nat, end);
                        assert(digits_value(input@, start, end) > i64::MAX as int);
                    }
                    return Err(Error::LexError);
                }
                val = val * 10 + d as i64;
                pos = pos + 1;
            }
            proof {
                assert(pos as nat == end);
                lemma_digits_value_mono(input@, start, end, end);
            }
            tokens.push(Token::Number(val));
            proof {
                assert(tokens_view(tokens@) =~= done + seq![TokenV::Number(val as int)]);
                lemma_lex_combine_shift(
                    done,
                    TokenV::Number(val as int),
                    spec_lex_from(input@, pos as nat),
                );
            }
        } else if is_symbol_b(b) {
            let ghost end = symbol_run_end(input@, pos0);
            proof {
                lemma_symbol_run_end(input@, pos0);
            }
            let ghost start = pos0;
            let mut sym: Vec<u8> = Vec::new();
            while pos < input.len() && is_symbol_b(input[pos])
                invariant
                    start <= pos as nat <= end,
                    sym@ == input@.subrange(start as int, pos as int),
                decreases input.len() - pos,
            {
                sym.push(input[pos]);
                pos = pos + 1;
                proof {
                    assert(sym@ =~= input@.subrange(start as int, pos as int));
                }
            }
            proof {
                assert(pos as nat == end);
            }
            let ghost tok = TokenV::Symbol(input@.subrange(start as int, end as int));
            tokens.push(Token::Symbol(sym));
            proof {
                assert(tokens_view(tokens@) =~= done + seq![tok]);
                lemma_lex_combine_shift(done, tok, spec_lex_from(input@, pos as nat));
            }
        } else if b == '"' as u8 {
            pos = pos + 1;
            let ghost spos = pos as nat;
            let mut buf: Vec<u8> = Vec::new();
            #[verifier::loop_isolation(true)]
            loop
                invariant_except_break
                    spos <= pos as nat <= input.len(),
                    spec_scan_text(input@, spos) == scan_combine(
                        buf@,
                        spec_scan_text(input@, pos as nat),
                    ),
                    pos0 < input@.len() && input@[pos0 as int] == '"' as u8,
                    spos == pos0 + 1,
                    !is_digit(input@[pos0 as int]) && !is_symbol_byte(input@[pos0 as int]),
                    spec_lex(input@) == lex_combine(
                        tokens_view(tokens@),
                        spec_lex_from(input@, pos0),
                    ),
                ensures
                    spec_scan_text(input@, spos) matches Ok((t, p))
                        && t == buf@
                        && p == pos as nat,
                decreases input.len() - pos,
            {
                if pos >= input.len() {
                    proof {
                        assert(spec_scan_text(input@, pos as nat) == Err::<(Seq<u8>, nat), Error>(Error::LexError));
                        assert(spec_scan_text(input@, spos) == Err::<(Seq<u8>, nat), Error>(Error::LexError));
                        assert(spec_lex_from(input@, pos0) == Err::<Seq<TokenV>, Error>(Error::LexError));
                        assert(spec_lex(input@) == Err::<Seq<TokenV>, Error>(Error::LexError));
                    }
                    return Err(Error::LexError);
                }
                let c = input[pos];
                if c == '"' as u8 {
                    pos = pos + 1;
                    proof {
                        assert(buf@ + Seq::<u8>::empty() =~= buf@);
                    }
                    break;
                }
                if c == '\\' as u8 {
                    if pos + 1 >= input.len() {
                        proof {
                        assert(spec_scan_text(input@, pos as nat) == Err::<(Seq<u8>, nat), Error>(Error::LexError));
                        assert(spec_scan_text(input@, spos) == Err::<(Seq<u8>, nat), Error>(Error::LexError));
                        assert(spec_lex_from(input@, pos0) == Err::<Seq<TokenV>, Error>(Error::LexError));
                        assert(spec_lex(input@) == Err::<Seq<TokenV>, Error>(Error::LexError));
                        }
                        return Err(Error::LexError);
                    }
                    let e = input[pos + 1];
                    let dec: u8 = if e == 'n' as u8 {
                        '\n' as u8
                    } else if e == 'r' as u8 {
                        '\r' as u8
                    } else if e == 't' as u8 {
                        '\t' as u8
                    } else if e == '"' as u8 {
                        '"' as u8
                    } else {
                        proof {
                        assert(spec_scan_text(input@, pos as nat) == Err::<(Seq<u8>, nat), Error>(Error::LexError));
                        assert(spec_scan_text(input@, spos) == Err::<(Seq<u8>, nat), Error>(Error::LexError));
                        assert(spec_lex_from(input@, pos0) == Err::<Seq<TokenV>, Error>(Error::LexError));
                        assert(spec_lex(input@) == Err::<Seq<TokenV>, Error>(Error::LexError));
                        }
                        return Err(Error::LexError);
                    };
                    let ghost bufold = buf@;
                    buf.push(dec);
                    pos = pos + 2;
                    proof {
                        assert(buf@ =~= bufold + seq![dec]);
                        lemma_scan_combine_shift(bufold, dec, spec_scan_text(input@, pos as nat));
                    }
                } else {
                    let ghost bufold = buf@;
                    buf.push(c);
                    pos = pos + 1;
                    proof {
                        assert(buf@ =~= bufold + seq![c]);
                        lemma_scan_combine_shift(bufold, c, spec_scan_text(input@, pos as nat));
                    }
                }
            }
            proof {
                lemma_scan_text_bounds(input@, spos);
            }
            let ghost tok = TokenV::Text(buf@);
            tokens.push(Token::Text(buf));
            proof {
                assert(tokens_view(tokens@) =~= done + seq![tok]);
                lemma_lex_combine_shift(done, tok, spec_lex_from(input@, pos as nat));
            }
        } else {
            pos = pos + 1;
        }
    }
    proof {
        assert(tokens_view(tokens@) + Seq::<TokenV>::empty() =~= tokens_view(tokens@));
    }
    Ok(tokens)
}

/// Finishing one token and appending it to the done prefix commutes with
/// `lex_cons`.
proof fn lemma_lex_combine_shift(done: Seq<TokenV>, t: TokenV, rest: Result<Seq<TokenV>, Error>)
    ensures
        lex_combine(done, lex_cons(t, rest)) == lex_combine(done + seq![t], rest),
{
    match rest {
        Ok(ts) => {
            assert(done + (seq![t] + ts) =~= (done + seq![t]) + ts);
        },
        Err(_) => {},
    }
}

/// Append a finished prefix of text in front of a string-scan result.
pub open spec fn scan_combine(done: Seq<u8>, rest: Result<(Seq<u8>, nat), Error>) -> Result<
    (Seq<u8>, nat),
    Error,
> {
    match rest {
        Ok((t, p)) => Ok((done + t, p)),
        Err(e) => Err(e),
    }
}

proof fn lemma_scan_combine_shift(done: Seq<u8>, c: u8, rest: Result<(Seq<u8>, nat), Error>)
    ensures
        scan_combine(done, match rest {
            Ok((t, p)) => Ok((seq![c] + t, p)),
            Err(e) => Err(e),
        }) == scan_combine(done + seq![c], rest),
{
    match rest {
        Ok((ts, p)) => {
            assert(done + (seq![c] + ts) =~= (done + seq![c]) + ts);
        },
        Err(_) => {},
    }
}

} // verus!
