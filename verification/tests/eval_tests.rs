use minilisp::error::Error;
use minilisp::evaluator::EvalContext;
use minilisp::evaluator::eval;
use minilisp::evaluator::resolve_reference;
use minilisp::evaluator::value_is_true;
use minilisp::sexpr::Atom;
use minilisp::sexpr::SExpr;
use minilisp::sexpr::clone_sexpr;

const FUEL: u64 = 1_000_000;

fn num(n: i64) -> SExpr {
    SExpr::Atom(Atom::Number(n))
}

fn sym(s: &str) -> SExpr {
    SExpr::Atom(Atom::Symbol(s.as_bytes().to_vec()))
}

fn list(items: Vec<SExpr>) -> SExpr {
    SExpr::List(items)
}

/// Evaluate in a fresh context and return the raw result.
fn run(e: &SExpr) -> Result<SExpr, Error> {
    let mut ctx = EvalContext::new();
    eval(e, &mut ctx, FUEL)
}

/// Evaluate in a fresh context and resolve the result to a plain value.
fn run_resolved(e: &SExpr) -> Result<SExpr, Error> {
    let mut ctx = EvalContext::new();
    let v = eval(e, &mut ctx, FUEL)?;
    resolve_reference(&v, &ctx, FUEL)
}

#[test]
fn number_evaluates_to_itself() {
    assert_eq!(run(&num(0)), Ok(num(0)));
    assert_eq!(run(&num(42)), Ok(num(42)));
    assert_eq!(run(&num(-7)), Ok(num(-7)));
    assert_eq!(run(&num(i64::MAX)), Ok(num(i64::MAX)));
}

#[test]
fn empty_list_evaluates_to_empty_list() {
    assert_eq!(run(&list(vec![])), Ok(list(vec![])));
}

#[test]
fn unbound_symbol_fails() {
    assert_eq!(run(&sym("x")), Err(Error::UnboundVariable));
}

#[test]
fn let_binds_a_value() {
    // (let (x 5) x)
    let e = list(vec![sym("let"), list(vec![sym("x"), num(5)]), sym("x")]);
    assert_eq!(run_resolved(&e), Ok(num(5)));
}

#[test]
fn let_inner_binding_shadows_outer() {
    // (let (x 1) (let (x 2) x))
    let inner = list(vec![sym("let"), list(vec![sym("x"), num(2)]), sym("x")]);
    let e = list(vec![sym("let"), list(vec![sym("x"), num(1)]), inner]);
    assert_eq!(run_resolved(&e), Ok(num(2)));
}

#[test]
fn let_outer_binding_outlives_inner() {
    // (let (x 1) ((let (x 2) x) x)) -- after the inner let returns, x is
    // the outer one again
    let inner = list(vec![sym("let"), list(vec![sym("x"), num(2)]), sym("x")]);
    let body = list(vec![inner, sym("x")]);
    let e = list(vec![sym("let"), list(vec![sym("x"), num(1)]), body]);
    assert_eq!(run_resolved(&e), Ok(num(1)));
}

#[test]
fn let_later_pair_sees_earlier_pair() {
    // (let (x 2) (y (+ x 1)) y)
    let e = list(vec![
        sym("let"),
        list(vec![sym("x"), num(2)]),
        list(vec![sym("y"), list(vec![sym("+"), sym("x"), num(1)])]),
        sym("y"),
    ]);
    assert_eq!(run_resolved(&e), Ok(num(3)));
}

#[test]
fn let_malformed_pair_fails() {
    // (let x 1) -- the pair is not a list
    let e = list(vec![sym("let"), sym("x"), num(1)]);
    assert_eq!(run(&e), Err(Error::InvalidForm));
    // (let (x) x) -- the pair has one element
    let e2 = list(vec![sym("let"), list(vec![sym("x")]), sym("x")]);
    assert_eq!(run(&e2), Err(Error::InvalidForm));
    // (let (1 2) 3) -- the pair does not start with a symbol
    let e3 = list(vec![sym("let"), list(vec![num(1), num(2)]), num(3)]);
    assert_eq!(run(&e3), Err(Error::InvalidForm));
    // (let (x 1)) -- no body
    let e4 = list(vec![sym("let"), list(vec![sym("x"), num(1)])]);
    assert_eq!(run(&e4), Err(Error::InvalidForm));
}

#[test]
fn set_mutation_is_visible() {
    // (let (x 1) ((set x 9) x))
    let body = list(vec![list(vec![sym("set"), sym("x"), num(9)]), sym("x")]);
    let e = list(vec![sym("let"), list(vec![sym("x"), num(1)]), body]);
    assert_eq!(run_resolved(&e), Ok(num(9)));
}

#[test]
fn set_returns_the_assigned_value() {
    // (let (x 1) (set x 9))
    let e = list(vec![
        sym("let"),
        list(vec![sym("x"), num(1)]),
        list(vec![sym("set"), sym("x"), num(9)]),
    ]);
    assert_eq!(run_resolved(&e), Ok(num(9)));
}

#[test]
fn set_unbound_name_fails() {
    // (set x 9) with nothing bound
    let e = list(vec![sym("set"), sym("x"), num(9)]);
    assert_eq!(run(&e), Err(Error::UnboundVariable));
    // (let (y 1) (set x 9)) -- only y is bound
    let e2 = list(vec![
        sym("let"),
        list(vec![sym("y"), num(1)]),
        list(vec![sym("set"), sym("x"), num(9)]),
    ]);
    assert_eq!(run(&e2), Err(Error::UnboundVariable));
}

#[test]
fn if_zero_is_false() {
    let e = list(vec![sym("if"), num(0), num(1), num(2)]);
    assert_eq!(run(&e), Ok(num(2)));
}

#[test]
fn if_nonzero_is_true() {
    let e = list(vec![sym("if"), num(5), num(1), num(2)]);
    assert_eq!(run(&e), Ok(num(1)));
}

#[test]
fn if_empty_list_is_false() {
    let e = list(vec![sym("if"), list(vec![]), num(1), num(2)]);
    assert_eq!(run(&e), Ok(num(2)));
}

#[test]
fn if_nonempty_list_is_true() {
    let e = list(vec![sym("if"), list(vec![sym("list"), num(1)]), num(1), num(2)]);
    assert_eq!(run(&e), Ok(num(1)));
}

#[test]
fn if_without_else_yields_empty_list() {
    let e = list(vec![sym("if"), num(0), num(1)]);
    assert_eq!(run(&e), Ok(list(vec![])));
    let e2 = list(vec![sym("if"), num(7), num(1)]);
    assert_eq!(run(&e2), Ok(num(1)));
}

#[test]
fn if_wrong_arity_fails() {
    let e = list(vec![sym("if"), num(1)]);
    assert_eq!(run(&e), Err(Error::InvalidForm));
    let e2 = list(vec![sym("if"), num(1), num(2), num(3), num(4)]);
    assert_eq!(run(&e2), Err(Error::InvalidForm));
}

#[test]
fn while_counts_down_and_returns_last_body_value() {
    // (let (x 3) (while (> x 0) (set x (+ x -1))))
    // body values are 2, 1, 0; the loop returns the last one
    let cond = list(vec![sym(">"), sym("x"), num(0)]);
    let body = list(vec![sym("set"), sym("x"), list(vec![sym("+"), sym("x"), num(-1)])]);
    let e = list(vec![
        sym("let"),
        list(vec![sym("x"), num(3)]),
        list(vec![sym("while"), cond, body]),
    ]);
    assert_eq!(run_resolved(&e), Ok(num(0)));
}

#[test]
fn while_initially_false_yields_empty_list() {
    // (let (x 0) (while (> x 0) (set x 9)))
    let cond = list(vec![sym(">"), sym("x"), num(0)]);
    let body = list(vec![sym("set"), sym("x"), num(9)]);
    let e = list(vec![
        sym("let"),
        list(vec![sym("x"), num(0)]),
        list(vec![sym("while"), cond, body]),
    ]);
    assert_eq!(run_resolved(&e), Ok(list(vec![])));
}

#[test]
fn while_that_never_stops_runs_out_of_depth() {
    // (while 1 2)
    let e = list(vec![sym("while"), num(1), num(2)]);
    let mut ctx = EvalContext::new();
    assert_eq!(eval(&e, &mut ctx, 10_000), Err(Error::DepthLimit));
}

#[test]
fn closure_capture_is_by_reference() {
    // (let (x 1) (let (f (lambda (x) () x)) ((set x 2) (call f))))
    let lambda = list(vec![sym("lambda"), list(vec![sym("x")]), list(vec![]), sym("x")]);
    let body = list(vec![
        list(vec![sym("set"), sym("x"), num(2)]),
        list(vec![sym("call"), sym("f")]),
    ]);
    let inner = list(vec![sym("let"), list(vec![sym("f"), lambda]), body]);
    let e = list(vec![sym("let"), list(vec![sym("x"), num(1)]), inner]);
    assert_eq!(run_resolved(&e), Ok(num(2)));
}

#[test]
fn mutation_inside_closure_is_visible_outside() {
    // (let (x 1) (let (f (lambda (x) () (set x 5))) ((call f) x)))
    let lambda = list(vec![
        sym("lambda"),
        list(vec![sym("x")]),
        list(vec![]),
        list(vec![sym("set"), sym("x"), num(5)]),
    ]);
    let body = list(vec![list(vec![sym("call"), sym("f")]), sym("x")]);
    let inner = list(vec![sym("let"), list(vec![sym("f"), lambda]), body]);
    let e = list(vec![sym("let"), list(vec![sym("x"), num(1)]), inner]);
    assert_eq!(run_resolved(&e), Ok(num(5)));
}

#[test]
fn lambda_with_unbound_capture_fails() {
    // (lambda (y) () y) with y unbound
    let e = list(vec![sym("lambda"), list(vec![sym("y")]), list(vec![]), sym("y")]);
    assert_eq!(run(&e), Err(Error::UnboundVariable));
}

#[test]
fn lambda_with_bad_capture_list_fails() {
    // (lambda 5 () 1)
    let e = list(vec![sym("lambda"), num(5), list(vec![]), num(1)]);
    assert_eq!(run(&e), Err(Error::InvalidForm));
    // (lambda (5) () 1) -- capture entry is not a symbol
    let e2 = list(vec![sym("lambda"), list(vec![num(5)]), list(vec![]), num(1)]);
    assert_eq!(run(&e2), Err(Error::InvalidForm));
}

#[test]
fn call_of_a_non_closure_fails() {
    // (call 5)
    let e = list(vec![sym("call"), num(5)]);
    assert_eq!(run(&e), Err(Error::InvalidForm));
    // (call (quote (foo))) -- a list, but not a closure
    let e2 = list(vec![sym("call"), list(vec![sym("quote"), list(vec![sym("foo")])])]);
    assert_eq!(run(&e2), Err(Error::InvalidForm));
}

#[test]
fn call_ignores_extra_arguments() {
    // (let (x 7) (let (f (lambda (x) () x)) (call f 1 2)))
    let lambda = list(vec![sym("lambda"), list(vec![sym("x")]), list(vec![]), sym("x")]);
    let body = list(vec![sym("call"), sym("f"), num(1), num(2)]);
    let inner = list(vec![sym("let"), list(vec![sym("f"), lambda]), body]);
    let e = list(vec![sym("let"), list(vec![sym("x"), num(7)]), inner]);
    assert_eq!(run_resolved(&e), Ok(num(7)));
}

#[test]
fn lambda_captured_evaluates_to_itself() {
    let e = list(vec![sym("lambda-captured"), num(1), num(2), num(3)]);
    assert_eq!(run(&e), Ok(list(vec![sym("lambda-captured"), num(1), num(2), num(3)])));
}

#[test]
fn quote_returns_operand_unevaluated() {
    // (quote zzz) -- zzz is unbound, still fine
    let e = list(vec![sym("quote"), sym("zzz")]);
    assert_eq!(run(&e), Ok(sym("zzz")));
    // (quote (foo 1 2))
    let inner = list(vec![sym("foo"), num(1), num(2)]);
    let e2 = list(vec![sym("quote"), clone_sexpr(&inner)]);
    assert_eq!(run(&e2), Ok(inner));
}

#[test]
fn quote_wrong_arity_fails() {
    let e = list(vec![sym("quote")]);
    assert_eq!(run(&e), Err(Error::InvalidForm));
    let e2 = list(vec![sym("quote"), num(1), num(2)]);
    assert_eq!(run(&e2), Err(Error::InvalidForm));
}

#[test]
fn plus_sums_its_operands() {
    let e = list(vec![sym("+"), num(1), num(2), num(3)]);
    assert_eq!(run(&e), Ok(num(6)));
}

#[test]
fn plus_on_a_non_number_fails() {
    // (+ 1 (list 97)) -- the desugared form of a one-character string
    let e = list(vec![sym("+"), num(1), list(vec![sym("list"), num(97)])]);
    assert_eq!(run(&e), Err(Error::InvalidForm));
}

#[test]
fn plus_needs_two_operands() {
    let e = list(vec![sym("+"), num(1)]);
    assert_eq!(run(&e), Err(Error::InvalidForm));
}

#[test]
fn plus_wraps_in_the_ring() {
    let e = list(vec![sym("+"), num(i64::MAX), num(1)]);
    assert_eq!(run(&e), Ok(num(i64::MIN)));
}

#[test]
fn comparisons_yield_one_or_zero() {
    let cases: Vec<(&str, i64, i64, i64)> = vec![
        (">", 2, 1, 1),
        (">", 1, 2, 0),
        ("<", 1, 2, 1),
        ("<", 2, 1, 0),
        (">=", 2, 2, 1),
        (">=", 1, 2, 0),
        ("<=", 2, 2, 1),
        ("<=", 3, 2, 0),
        ("=", 5, 5, 1),
        ("=", 5, 6, 0),
    ];
    for (op, a, b, expect) in cases {
        let e = list(vec![sym(op), num(a), num(b)]);
        assert_eq!(run(&e), Ok(num(expect)), "operator {}", op);
    }
}

#[test]
fn comparison_of_a_non_number_fails() {
    let e = list(vec![sym(">"), num(1), list(vec![sym("list")])]);
    assert_eq!(run(&e), Err(Error::InvalidForm));
}

#[test]
fn list_form_collects_values() {
    let e = list(vec![sym("list"), num(1), num(2)]);
    assert_eq!(run(&e), Ok(list(vec![num(1), num(2)])));
    let e2 = list(vec![sym("list")]);
    assert_eq!(run(&e2), Ok(list(vec![])));
}

#[test]
fn sequence_form_yields_the_last_value() {
    // ((list 1) (list 2 3))
    let e = list(vec![
        list(vec![sym("list"), num(1)]),
        list(vec![sym("list"), num(2), num(3)]),
    ]);
    assert_eq!(run(&e), Ok(list(vec![num(2), num(3)])));
}

#[test]
fn list_headed_by_a_number_fails() {
    let e = list(vec![num(1), num(2)]);
    assert_eq!(run(&e), Err(Error::InvalidForm));
}

#[test]
fn unknown_head_symbol_fails() {
    let e = list(vec![sym("frobnicate"), num(1)]);
    assert_eq!(run(&e), Err(Error::UnknownForm));
}

#[test]
fn readnum_reads_queued_numbers_in_order() {
    let mut ctx = EvalContext::new();
    ctx.push_input(7);
    ctx.push_input(-3);
    let e = list(vec![
        sym("+"),
        list(vec![sym("readnum")]),
        list(vec![sym("readnum")]),
        num(0),
    ]);
    assert_eq!(eval(&e, &mut ctx, FUEL), Ok(num(4)));
}

#[test]
fn readnum_without_input_fails() {
    let e = list(vec![sym("readnum")]);
    assert_eq!(run(&e), Err(Error::IOError));
}

#[test]
fn print_writes_decimal_numbers() {
    let mut ctx = EvalContext::new();
    let e = list(vec![sym("print"), num(12), num(-5), num(0)]);
    assert_eq!(eval(&e, &mut ctx, FUEL), Ok(list(vec![])));
    assert_eq!(ctx.output_bytes().as_slice(), b"12-50");
}

#[test]
fn print_writes_character_codes() {
    let mut ctx = EvalContext::new();
    let e = list(vec![sym("print"), list(vec![sym("list"), num(72), num(105), num(10)])]);
    assert_eq!(eval(&e, &mut ctx, FUEL), Ok(list(vec![])));
    assert_eq!(ctx.output_bytes().as_slice(), b"Hi\n");
}

#[test]
fn print_flushes_codes_before_a_bad_element() {
    // (print (list 72 (quote a))) writes the H, then fails
    let mut ctx = EvalContext::new();
    let e = list(vec![
        sym("print"),
        list(vec![sym("list"), num(72), list(vec![sym("quote"), sym("a")])]),
    ]);
    assert_eq!(eval(&e, &mut ctx, FUEL), Err(Error::InvalidForm));
    assert_eq!(ctx.output_bytes().as_slice(), b"H");
}

#[test]
fn print_of_a_symbol_fails() {
    let e = list(vec![sym("print"), list(vec![sym("quote"), sym("a")])]);
    assert_eq!(run(&e), Err(Error::InvalidForm));
}

#[test]
fn print_needs_an_operand() {
    let e = list(vec![sym("print")]);
    assert_eq!(run(&e), Err(Error::InvalidForm));
}

#[test]
fn evaluation_without_fuel_reports_the_depth_limit() {
    let mut ctx = EvalContext::new();
    assert_eq!(eval(&num(1), &mut ctx, 0), Err(Error::DepthLimit));
}

#[test]
fn value_is_true_follows_truthiness() {
    let ctx = EvalContext::new();
    assert_eq!(value_is_true(&num(0), &ctx, FUEL), Ok(false));
    assert_eq!(value_is_true(&num(3), &ctx, FUEL), Ok(true));
    assert_eq!(value_is_true(&num(-3), &ctx, FUEL), Ok(true));
    assert_eq!(value_is_true(&list(vec![]), &ctx, FUEL), Ok(false));
    assert_eq!(value_is_true(&list(vec![num(1)]), &ctx, FUEL), Ok(true));
    assert_eq!(value_is_true(&sym("x"), &ctx, FUEL), Ok(false));
}

#[test]
fn resolve_reference_follows_cells() {
    // (let (x 5) x) evaluates to a reference; resolving it gives 5
    let e = list(vec![sym("let"), list(vec![sym("x"), num(5)]), sym("x")]);
    let mut ctx = EvalContext::new();
    let v = eval(&e, &mut ctx, FUEL).unwrap();
    assert!(matches!(v, SExpr::Ref(_)));
    assert_eq!(resolve_reference(&v, &ctx, FUEL), Ok(num(5)));
}

#[test]
fn list_of_variables_holds_references() {
    // (let (x 7) (list x))
    let e = list(vec![
        sym("let"),
        list(vec![sym("x"), num(7)]),
        list(vec![sym("list"), sym("x")]),
    ]);
    let mut ctx = EvalContext::new();
    let v = eval(&e, &mut ctx, FUEL).unwrap();
    match &v {
        SExpr::List(items) => {
            assert_eq!(items.len(), 1);
            assert_eq!(resolve_reference(&items[0], &ctx, FUEL), Ok(num(7)));
        },
        _ => panic!("expected a list"),
    }
}
