use minilisp::error::Error;
use minilisp::evaluator::EvalContext;
use minilisp::evaluator::eval;
use minilisp::evaluator::resolve_reference;
use minilisp::lexer::Token;
use minilisp::lexer::lex;
use minilisp::parser::parse;
use minilisp::sexpr::Atom;
use minilisp::sexpr::SExpr;
use minilisp::sexpr::expr_fits;

const FUEL: u64 = 1_000_000;

fn atom_num(n: i64) -> SExpr {
    SExpr::Atom(Atom::Number(n))
}

fn atom_sym(s: &str) -> SExpr {
    SExpr::Atom(Atom::Symbol(s.as_bytes().to_vec()))
}

/// Lex, parse and evaluate a whole program; return the resolved result
/// and the printed bytes.
fn run_program(source: &str) -> (Result<SExpr, Error>, Vec<u8>) {
    let tokens = match lex(&source.as_bytes().to_vec()) {
        Ok(ts) => ts,
        Err(e) => {
            return (Err(e), Vec::new());
        },
    };
    let expr = match parse(&tokens) {
        Ok(e) => e,
        Err(e) => {
            return (Err(e), Vec::new());
        },
    };
    assert!(expr_fits(&expr, 0));
    let mut ctx = EvalContext::new();
    let r = match eval(&expr, &mut ctx, FUEL) {
        Ok(v) => resolve_reference(&v, &ctx, FUEL),
        Err(e) => Err(e),
    };
    (r, ctx.output_bytes().clone())
}

#[test]
fn lex_produces_the_token_sequence() {
    let ts = lex(&b"(+ 1 23)".to_vec()).unwrap();
    assert_eq!(
        ts,
        vec![
            Token::LeftParen,
            Token::Symbol(b"+".to_vec()),
            Token::Number(1),
            Token::Number(23),
            Token::RightParen,
        ]
    );
}

#[test]
fn lex_skips_unknown_characters() {
    let ts = lex(&b"( # 1 )".to_vec()).unwrap();
    assert_eq!(ts, vec![Token::LeftParen, Token::Number(1), Token::RightParen]);
}

#[test]
fn lex_decodes_string_escapes() {
    let ts = lex(&br#""a\n\t\r\"b""#.to_vec()).unwrap();
    assert_eq!(ts, vec![Token::Text(b"a\n\t\r\"b".to_vec())]);
}

#[test]
fn lex_rejects_a_bad_escape() {
    assert_eq!(lex(&br#""a\x""#.to_vec()), Err(Error::LexError));
}

#[test]
fn lex_rejects_an_unterminated_string() {
    assert_eq!(lex(&br#""abc"#.to_vec()), Err(Error::LexError));
}

#[test]
fn lex_rejects_an_out_of_range_numeral() {
    assert_eq!(lex(&b"99999999999999999999".to_vec()), Err(Error::LexError));
    // the largest representable numeral still lexes
    assert_eq!(lex(&b"9223372036854775807".to_vec()), Ok(vec![Token::Number(i64::MAX)]));
    assert_eq!(lex(&b"9223372036854775808".to_vec()), Err(Error::LexError));
}

#[test]
fn lex_handles_trailing_runs() {
    assert_eq!(lex(&b"42".to_vec()), Ok(vec![Token::Number(42)]));
    assert_eq!(lex(&b"foo".to_vec()), Ok(vec![Token::Symbol(b"foo".to_vec())]));
}

#[test]
fn minus_is_a_symbol_character() {
    // a leading minus lexes as a symbol, not as part of a numeral
    let ts = lex(&b"-1".to_vec()).unwrap();
    assert_eq!(ts, vec![Token::Symbol(b"-".to_vec()), Token::Number(1)]);
}

#[test]
fn parse_builds_the_expression_tree() {
    let ts = lex(&b"(+ 1 (list 2))".to_vec()).unwrap();
    let e = parse(&ts).unwrap();
    assert_eq!(
        e,
        SExpr::List(vec![
            atom_sym("+"),
            atom_num(1),
            SExpr::List(vec![atom_sym("list"), atom_num(2)]),
        ])
    );
}

#[test]
fn parse_desugars_a_string_into_character_codes() {
    let ts = lex(&br#""Hi""#.to_vec()).unwrap();
    let e = parse(&ts).unwrap();
    assert_eq!(e, SExpr::List(vec![atom_sym("list"), atom_num(72), atom_num(105)]));
}

#[test]
fn parse_rejects_an_unclosed_list() {
    let ts = lex(&b"(list 1".to_vec()).unwrap();
    assert_eq!(parse(&ts), Err(Error::ParseError));
}

#[test]
fn parse_rejects_an_empty_token_stream() {
    let ts: Vec<Token> = Vec::new();
    assert_eq!(parse(&ts), Err(Error::ParseError));
    let ts2 = lex(&b")".to_vec()).unwrap();
    assert_eq!(parse(&ts2), Err(Error::ParseError));
}

#[test]
fn parse_takes_the_first_form_only() {
    let ts = lex(&b"1 2 3".to_vec()).unwrap();
    assert_eq!(parse(&ts), Ok(atom_num(1)));
}

#[test]
fn program_prints_text_through_the_string_desugaring() {
    // character codes 72, 105, 10 come out as the text again
    let (r, out) = run_program("(print \"Hi\\n\")");
    assert_eq!(r, Ok(SExpr::List(vec![])));
    assert_eq!(out, b"Hi\n".to_vec());
}

#[test]
fn program_arithmetic_prints_its_result() {
    let (r, out) = run_program("(print (+ 2 5))");
    assert_eq!(r, Ok(SExpr::List(vec![])));
    assert_eq!(out, b"7".to_vec());
}

#[test]
fn program_adding_a_string_fails() {
    let (r, _) = run_program("(+ 1 \"a\")");
    assert_eq!(r, Err(Error::InvalidForm));
}

#[test]
fn program_with_let_set_and_sharing() {
    let (r, out) = run_program(
        "
        (let
            (a 3)
            (b 9)
            (
                (print a)
                (set a 4)
                (print a)
                (set a b)
                (print a)
                (set b 7)
                (print a)
                a
            )
        )",
    );
    // (set a b) stores the reference that the symbol b evaluates to, so
    // a aliases b's cell from then on and sees the final (set b 7)
    assert_eq!(r, Ok(atom_num(7)));
    assert_eq!(out, b"3497".to_vec());
}

#[test]
fn program_with_branches_prints_the_chosen_arm() {
    let (r, out) = run_program(
        "
        (let
            (a 4)
            (
                (print
                    (if (>= a 5)
                        ((print \"yes\\n\") (+ a 3))
                        ((print \"no\\n\") (+ a 8))
                    )
                    \"\\n\"
                )
            )
        )",
    );
    assert_eq!(r, Ok(SExpr::List(vec![])));
    assert_eq!(out, b"no\n12\n".to_vec());
}

#[test]
fn program_calls_a_closure_twice() {
    let (r, out) = run_program(
        "
        (let
            (myfun (lambda () ()
                (
                    (print \"Hello, lambda!\\n\")
                    72
                )))
            (
                (call myfun)
                (call myfun)
            )
        )",
    );
    assert_eq!(r, Ok(atom_num(72)));
    assert_eq!(out, b"Hello, lambda!\nHello, lambda!\n".to_vec());
}

#[test]
fn program_quote_survives_unbound_names() {
    let (r, _) = run_program("(quote (frob nicate))");
    assert_eq!(r, Ok(SExpr::List(vec![atom_sym("frob"), atom_sym("nicate")])));
}

#[test]
fn program_guessing_loop_consumes_input() {
    let source = "
        (let
            (selected 72)
            (guess 0)
            (counter 0)
            (
                (while (
                    (set guess (readnum))
                    (set counter (+ counter 1 0))
                    (if (> guess selected)
                        1
                        (if (< guess selected) 1 0)
                    )
                ) ())
                counter
            )
        )";
    let tokens = lex(&source.as_bytes().to_vec()).unwrap();
    let expr = parse(&tokens).unwrap();
    assert!(expr_fits(&expr, 0));
    let mut ctx = EvalContext::new();
    ctx.push_input(10);
    ctx.push_input(100);
    ctx.push_input(72);
    let v = eval(&expr, &mut ctx, FUEL).unwrap();
    let r = resolve_reference(&v, &ctx, FUEL).unwrap();
    assert_eq!(r, atom_num(3));
}
