use vstd::prelude::*;

use crate::error::Error;
use crate::forms::Form;
use crate::forms::kw_lambda_captured;
use crate::forms::spec_form_of;
use crate::sexpr::Val;
use crate::sexpr::val_wf;

verus! {

/// One variable binding: a name and the arena index of its cell.
pub struct BindingV {
    pub name: Seq<u8>,
    pub cell: nat,
}

/// The mutable part of an evaluation: the cell arena, the numbers still to
/// be read, and the bytes printed so far.
pub struct StoreV {
    pub cells: Seq<Val>,
    pub input: Seq<int>,
    pub output: Seq<u8>,
}

/// What one evaluation step yields: a value or an error, and the store as
/// it stands afterwards.  Errors are fatal, but the store they leave
/// behind still records every effect that happened before them.
pub struct Outcome {
    pub res: Result<Val, Error>,
    pub store: StoreV,
}

pub open spec fn ok_of(v: Val, st: StoreV) -> Outcome {
    Outcome { res: Ok(v), store: st }
}

pub open spec fn fail_of(e: Error, st: StoreV) -> Outcome {
    Outcome { res: Err(e), store: st }
}

/// Every binding of the environment points into the arena.
pub open spec fn env_wf(env: Seq<BindingV>, bound: nat) -> bool {
    forall|i: int| 0 <= i < env.len() ==> (#[trigger] env[i]).cell < bound
}

/// Every cell of the arena holds a value that stays inside the arena.
pub open spec fn store_wf(st: StoreV) -> bool {
    forall|i: int| 0 <= i < st.cells.len() ==> val_wf(#[trigger] st.cells[i], st.cells.len())
}

/// The cell of the most recently added binding with a matching name:
/// the binding sequence is searched from the end, so the innermost
/// (last-declared) binding wins.
pub open spec fn lookup(env: Seq<BindingV>, name: Seq<u8>) -> Option<nat>
    decreases env.len(),
{
    if env.len() == 0 {
        None
    } else if env.last().name == name {
        Some(env.last().cell)
    } else {
        lookup(env.drop_last(), name)
    }
}

/// A successful lookup lands inside any arena the environment fits.
pub proof fn lemma_lookup_in_env(env: Seq<BindingV>, name: Seq<u8>, bound: nat)
    requires
        env_wf(env, bound),
        lookup(env, name) is Some,
    ensures
        lookup(env, name) matches Some(c) ==> c < bound,
    decreases env.len(),
{
    if env.len() > 0 && env.last().name != name {
        assert(env_wf(env.drop_last(), bound)) by {
            assert(forall|i: int|
                0 <= i < env.drop_last().len() ==> (#[trigger] env.drop_last()[i]) == env[i]);
        }
        lemma_lookup_in_env(env.drop_last(), name, bound);
    }
}

/// Follow `Ref` handles until a non-reference value appears.  A chain can
/// be circular, so each step costs fuel.
pub open spec fn resolve_spec(v: Val, cells: Seq<Val>, fuel: nat) -> Result<Val, Error>
    decreases fuel,
{
    match v {
        Val::Ref(i) => if fuel == 0 {
            Err(Error::DepthLimit)
        } else {
            resolve_spec(cells[i as int], cells, (fuel - 1) as nat)
        },
        _ => Ok(v),
    }
}

/// Truthiness of a resolved value: a number is true iff nonzero, a list is
/// true iff non-empty, anything else is false.
pub open spec fn is_truthy(v: Val) -> bool {
    match v {
        Val::Num(n) => n != 0,
        Val::List(items) => items.len() != 0,
        _ => false,
    }
}

/// Addition in the 64-bit two's-complement ring.
pub open spec fn wrap_add_int(x: int, y: int) -> int {
    let s = x + y;
    if s > i64::MAX {
        s - 0x1_0000_0000_0000_0000
    } else if s < i64::MIN {
        s + 0x1_0000_0000_0000_0000
    } else {
        s
    }
}

/// The decimal digits of a nonnegative number, most significant first.
pub open spec fn dec_digits(n: nat) -> Seq<u8>
    decreases n,
{
    if n < 10 {
        seq![(48 + n) as u8]
    } else {
        dec_digits(n / 10) + seq![(48 + n % 10) as u8]
    }
}

/// The decimal notation of an integer, with a leading minus sign when it
/// is negative.
pub open spec fn dec_repr(n: int) -> Seq<u8> {
    if n < 0 {
        seq!['-' as u8] + dec_digits((-n) as nat)
    } else {
        dec_digits(n as nat)
    }
}

/// A number printed as one character code: its low byte.
pub open spec fn byte_of_num(n: int) -> u8 {
    (n % 256) as u8
}

/// Whether every element of a printed list is a number atom.
pub open spec fn all_nums(items: Seq<Val>) -> bool {
    forall|i: int| 0 <= i < items.len() ==> (#[trigger] items[i]) is Num
}

/// The index of the first element that is not a number atom (the length
/// when every element is one).
pub open spec fn first_non_num(items: Seq<Val>) -> int
    decreases items.len(),
{
    if items.len() == 0 {
        0
    } else if items[0] is Num {
        1 + first_non_num(items.drop_first())
    } else {
        0
    }
}

pub proof fn lemma_first_non_num(items: Seq<Val>, i: int)
    requires
        0 <= i <= items.len(),
        forall|j: int| 0 <= j < i ==> (#[trigger] items[j]) is Num,
        i < items.len() ==> !(items[i] is Num),
    ensures
        first_non_num(items) == i,
    decreases items.len(),
{
    if items.len() > 0 && i > 0 {
        assert(items[0] is Num);
        lemma_first_non_num(items.drop_first(), i - 1);
    }
}

/// The bytes a list of character codes prints as.
pub open spec fn codes_bytes(items: Seq<Val>) -> Seq<u8> {
    Seq::new(
        items.len(),
        |i: int| match items[i] {
            Val::Num(n) => byte_of_num(n),
            _ => 0,
        },
    )
}

/// The closure value built for given capture pairs, parameter list and
/// body: a 4-element list tagged with the `lambda-captured` sentinel.
pub open spec fn closure_of(pairs: Seq<Val>, params: Val, body: Val) -> Val {
    Val::List(seq![Val::Sym(kw_lambda_captured()), Val::List(pairs), params, body])
}

/// The capture pairs of a lambda: each capture-list entry must be a symbol
/// already bound in the defining environment, and captures the cell itself,
/// not a copy of its value.
pub open spec fn captures_spec(capts: Seq<Val>, idx: int, env: Seq<BindingV>) -> Result<
    Seq<Val>,
    Error,
>
    decreases capts.len() - idx,
{
    if idx < 0 || idx >= capts.len() {
        Ok(Seq::empty())
    } else {
        match capts[idx] {
            Val::Sym(name) => match lookup(env, name) {
                Some(cell) => match captures_spec(capts, idx + 1, env) {
                    Ok(rest) => Ok(
                        seq![Val::List(seq![Val::Sym(name), Val::Ref(cell)])] + rest,
                    ),
                    Err(e) => Err(e),
                },
                None => Err(Error::UnboundVariable),
            },
            _ => Err(Error::InvalidForm),
        }
    }
}

/// The fresh environment a closure call runs in: exactly the captured
/// bindings, nothing of the caller's own scope.
pub open spec fn call_env_spec(pairs: Seq<Val>, idx: int) -> Result<Seq<BindingV>, Error>
    decreases pairs.len() - idx,
{
    if idx < 0 || idx >= pairs.len() {
        Ok(Seq::empty())
    } else {
        match pairs[idx] {
            Val::List(pair) => if pair.len() == 2 {
                match (pair[0], pair[1]) {
                    (Val::Sym(name), Val::Ref(cell)) => match call_env_spec(pairs, idx + 1) {
                        Ok(rest) => Ok(seq![BindingV { name, cell }] + rest),
                        Err(e) => Err(e),
                    },
                    _ => Err(Error::InvalidForm),
                }
            } else {
                Err(Error::InvalidForm)
            },
            _ => Err(Error::InvalidForm),
        }
    }
}

/// Evaluate one expression in an environment against a store.
///
/// Every recursive step costs one unit of fuel; exhausted fuel is the
/// `DepthLimit` failure, the analogue of stack exhaustion in an unbounded
/// tree walker.  The environment is handed down by value: evaluation never
/// changes the caller's bindings, only the store.
pub open spec fn eval_spec(e: Val, env: Seq<BindingV>, st: StoreV, fuel: nat) -> Outcome
    decreases fuel,
{
    if fuel == 0 {
        fail_of(Error::DepthLimit, st)
    } else {
        let f = (fuel - 1) as nat;
        match e {
            Val::Num(n) => ok_of(Val::Num(n), st),
            Val::Sym(name) => match lookup(env, name) {
                Some(cell) => ok_of(Val::Ref(cell), st),
                None => fail_of(Error::UnboundVariable, st),
            },
            Val::Ref(i) => eval_spec(st.cells[i as int], env, st, f),
            Val::List(items) => if items.len() == 0 {
                ok_of(Val::List(Seq::empty()), st)
            } else {
                match items[0] {
                    Val::List(_) => eval_seq_spec(items, 0, env, st, f),
                    Val::Sym(name) => eval_form_spec(spec_form_of(name), items, env, st, f),
                    _ => fail_of(Error::InvalidForm, st),
                }
            },
        }
    }
}

/// A sequence form: a list whose head is itself a list.  Every element is
/// evaluated in order for effect and the last value is the result.
pub open spec fn eval_seq_spec(
    items: Seq<Val>,
    idx: int,
    env: Seq<BindingV>,
    st: StoreV,
    fuel: nat,
) -> Outcome
    decreases fuel,
{
    if fuel == 0 {
        fail_of(Error::DepthLimit, st)
    } else {
        let f = (fuel - 1) as nat;
        let o = eval_spec(items[idx], env, st, f);
        match o.res {
            Ok(v) => if idx + 1 < items.len() {
                eval_seq_spec(items, idx + 1, env, o.store, f)
            } else {
                o
            },
            Err(_) => o,
        }
    }
}

/// The binding pairs of a `let`, processed left to right: each pair's value
/// is evaluated in the environment accumulated so far (so later bindings
/// may use earlier ones), and a fresh cell is appended for it; the last
/// element is the body, evaluated in the fully extended environment.
pub open spec fn eval_let_spec(
    items: Seq<Val>,
    idx: int,
    env: Seq<BindingV>,
    st: StoreV,
    fuel: nat,
) -> Outcome
    decreases fuel,
{
    if fuel == 0 {
        fail_of(Error::DepthLimit, st)
    } else {
        let f = (fuel - 1) as nat;
        if idx >= items.len() - 1 {
            eval_spec(items[items.len() - 1], env, st, f)
        } else {
            match items[idx] {
                Val::List(pair) => if pair.len() == 2 {
                    match pair[0] {
                        Val::Sym(name) => {
                            let o = eval_spec(pair[1], env, st, f);
                            match o.res {
                                Ok(v) => {
                                    let cell = o.store.cells.len();
                                    let st2 = StoreV {
                                        cells: o.store.cells.push(v),
                                        input: o.store.input,
                                        output: o.store.output,
                                    };
                                    let env2 = env.push(BindingV { name, cell });
                                    eval_let_spec(items, idx + 1, env2, st2, f)
                                },
                                Err(e) => o,
                            }
                        },
                        _ => fail_of(Error::InvalidForm, st),
                    }
                } else {
                    fail_of(Error::InvalidForm, st)
                },
                _ => fail_of(Error::InvalidForm, st),
            }
        }
    }
}

/// A `while` loop: evaluate the condition, stop when it is falsy, else
/// evaluate the body, keep its value as the running result and start over.
/// `prev` is the value of the last body evaluation so far, initially the
/// empty list.
pub open spec fn eval_while_spec(
    cond: Val,
    body: Val,
    prev: Val,
    env: Seq<BindingV>,
    st: StoreV,
    fuel: nat,
) -> Outcome
    decreases fuel,
{
    if fuel == 0 {
        fail_of(Error::DepthLimit, st)
    } else {
        let f = (fuel - 1) as nat;
        let oc = eval_spec(cond, env, st, f);
        match oc.res {
            Ok(cv) => match resolve_spec(cv, oc.store.cells, f) {
                Ok(rv) => if !is_truthy(rv) {
                    ok_of(prev, oc.store)
                } else {
                    let ob = eval_spec(body, env, oc.store, f);
                    match ob.res {
                        Ok(bv) => eval_while_spec(cond, body, bv, env, ob.store, f),
                        Err(_) => ob,
                    }
                },
                Err(e) => fail_of(e, oc.store),
            },
            Err(_) => oc,
        }
    }
}

/// The operands of a `list` form, each evaluated in order, collected
/// unresolved.
pub open spec fn eval_args_spec(
    items: Seq<Val>,
    idx: int,
    acc: Seq<Val>,
    env: Seq<BindingV>,
    st: StoreV,
    fuel: nat,
) -> Outcome
    decreases fuel,
{
    if fuel == 0 {
        fail_of(Error::DepthLimit, st)
    } else {
        let f = (fuel - 1) as nat;
        if idx >= items.len() {
            ok_of(Val::List(acc), st)
        } else {
            let o = eval_spec(items[idx], env, st, f);
            match o.res {
                Ok(v) => eval_args_spec(items, idx + 1, acc.push(v), env, o.store, f),
                Err(_) => o,
            }
        }
    }
}

/// The operands of a `+`, each evaluated, resolved and required to be a
/// number; the sum is accumulated in the 64-bit ring.
pub open spec fn eval_plus_spec(
    items: Seq<Val>,
    idx: int,
    acc: int,
    env: Seq<BindingV>,
    st: StoreV,
    fuel: nat,
) -> Outcome
    decreases fuel,
{
    if fuel == 0 {
        fail_of(Error::DepthLimit, st)
    } else {
        let f = (fuel - 1) as nat;
        if idx >= items.len() {
            ok_of(Val::Num(acc), st)
        } else {
            let o = eval_spec(items[idx], env, st, f);
            match o.res {
                Ok(v) => match resolve_spec(v, o.store.cells, f) {
                    Ok(Val::Num(n)) => eval_plus_spec(
                        items,
                        idx + 1,
                        wrap_add_int(acc, n),
                        env,
                        o.store,
                        f,
                    ),
                    Ok(_) => fail_of(Error::InvalidForm, o.store),
                    Err(e) => fail_of(e, o.store),
                },
                Err(_) => o,
            }
        }
    }
}

/// The operands of a `print`, each evaluated, resolved and written to the
/// output: a number prints as decimal text, a list prints each element as
/// one character code, anything else is an invalid form.  The result is
/// the empty list.
pub open spec fn eval_print_spec(
    items: Seq<Val>,
    idx: int,
    env: Seq<BindingV>,
    st: StoreV,
    fuel: nat,
) -> Outcome
    decreases fuel,
{
    if fuel == 0 {
        fail_of(Error::DepthLimit, st)
    } else {
        let f = (fuel - 1) as nat;
        if idx >= items.len() {
            ok_of(Val::List(Seq::empty()), st)
        } else {
            let o = eval_spec(items[idx], env, st, f);
            match o.res {
                Ok(v) => match resolve_spec(v, o.store.cells, f) {
                    Ok(rv) => match rv {
                        Val::Num(n) => {
                            let st2 = StoreV {
                                cells: o.store.cells,
                                input: o.store.input,
                                output: o.store.output + dec_repr(n),
                            };
                            eval_print_spec(items, idx + 1, env, st2, f)
                        },
                        Val::List(elems) => if all_nums(elems) {
                            let st2 = StoreV {
                                cells: o.store.cells,
                                input: o.store.input,
                                output: o.store.output + codes_bytes(elems),
                            };
                            eval_print_spec(items, idx + 1, env, st2, f)
                        } else {
                            // character codes are written one by one, so
                            // everything before the offending element is
                            // already out
                            fail_of(
                                Error::InvalidForm,
                                StoreV {
                                    cells: o.store.cells,
                                    input: o.store.input,
                                    output: o.store.output + codes_bytes(
                                        elems.take(first_non_num(elems)),
                                    ),
                                },
                            )
                        },
                        _ => fail_of(Error::InvalidForm, o.store),
                    },
                    Err(e) => fail_of(e, o.store),
                },
                Err(_) => o,
            }
        }
    }
}

/// Dispatch of a non-empty list headed by a symbol over the special forms.
pub open spec fn eval_form_spec(
    form: Form,
    items: Seq<Val>,
    env: Seq<BindingV>,
    st: StoreV,
    fuel: nat,
) -> Outcome
    decreases fuel,
{
    if fuel == 0 {
        fail_of(Error::DepthLimit, st)
    } else {
        let f = (fuel - 1) as nat;
        match form {
            Form::Let => if items.len() >= 3 {
                eval_let_spec(items, 1, env, st, f)
            } else {
                fail_of(Error::InvalidForm, st)
            },
            Form::Assign => if items.len() == 3 {
                match items[1] {
                    Val::Sym(name) => {
                        let o = eval_spec(items[2], env, st, f);
                        match o.res {
                            Ok(v) => match lookup(env, name) {
                                Some(cell) => ok_of(
                                    v,
                                    StoreV {
                                        cells: o.store.cells.update(cell as int, v),
                                        input: o.store.input,
                                        output: o.store.output,
                                    },
                                ),
                                None => fail_of(Error::UnboundVariable, o.store),
                            },
                            Err(_) => o,
                        }
                    },
                    _ => fail_of(Error::InvalidForm, st),
                }
            } else {
                fail_of(Error::InvalidForm, st)
            },
            Form::If => if items.len() == 3 || items.len() == 4 {
                let oc = eval_spec(items[1], env, st, f);
                match oc.res {
                    Ok(cv) => match resolve_spec(cv, oc.store.cells, f) {
                        Ok(rv) => if is_truthy(rv) {
                            eval_spec(items[2], env, oc.store, f)
                        } else if items.len() == 4 {
                            eval_spec(items[3], env, oc.store, f)
                        } else {
                            ok_of(Val::List(Seq::empty()), oc.store)
                        },
                        Err(e) => fail_of(e, oc.store),
                    },
                    Err(_) => oc,
                }
            } else {
                fail_of(Error::InvalidForm, st)
            },
            Form::While => if items.len() == 3 {
                eval_while_spec(items[1], items[2], Val::List(Seq::empty()), env, st, f)
            } else {
                fail_of(Error::InvalidForm, st)
            },
            Form::Lambda => if items.len() == 4 {
                match items[1] {
                    Val::List(capts) => match captures_spec(capts, 0, env) {
                        Ok(pairs) => ok_of(closure_of(pairs, items[2], items[3]), st),
                        Err(e) => fail_of(e, st),
                    },
                    _ => fail_of(Error::InvalidForm, st),
                }
            } else {
                fail_of(Error::InvalidForm, st)
            },
            Form::LambdaCaptured => ok_of(Val::List(items), st),
            Form::Call => if items.len() >= 2 {
                let o = eval_spec(items[1], env, st, f);
                match o.res {
                    Ok(v) => match resolve_spec(v, o.store.cells, f) {
                        Ok(Val::List(clos)) => if clos.len() >= 1 && clos[0] == Val::Sym(
                            kw_lambda_captured(),
                        ) {
                            if clos.len() >= 4 {
                                match clos[1] {
                                    Val::List(pairs) => match call_env_spec(pairs, 0) {
                                        Ok(env2) => eval_spec(clos[3], env2, o.store, f),
                                        Err(e) => fail_of(e, o.store),
                                    },
                                    _ => fail_of(Error::InvalidForm, o.store),
                                }
                            } else {
                                fail_of(Error::InvalidForm, o.store)
                            }
                        } else {
                            fail_of(Error::InvalidForm, o.store)
                        },
                        Ok(_) => fail_of(Error::InvalidForm, o.store),
                        Err(e) => fail_of(e, o.store),
                    },
                    Err(_) => o,
                }
            } else {
                fail_of(Error::InvalidForm, st)
            },
            Form::Quote => if items.len() == 2 {
                ok_of(items[1], st)
            } else {
                fail_of(Error::InvalidForm, st)
            },
            Form::ListForm => eval_args_spec(items, 1, Seq::empty(), env, st, f),
            Form::Print => if items.len() >= 2 {
                eval_print_spec(items, 1, env, st, f)
            } else {
                fail_of(Error::InvalidForm, st)
            },
            Form::ReadNum => if st.input.len() > 0 {
                ok_of(
                    Val::Num(st.input[0]),
                    StoreV { cells: st.cells, input: st.input.drop_first(), output: st.output },
                )
            } else {
                fail_of(Error::IOError, st)
            },
            Form::Plus => if items.len() > 2 {
                eval_plus_spec(items, 1, 0, env, st, f)
            } else {
                fail_of(Error::InvalidForm, st)
            },
            Form::Greater | Form::Less | Form::GreaterEqual | Form::LessEqual | Form::Equal => if items.len() == 3 {
                let o1 = eval_spec(items[1], env, st, f);
                match o1.res {
                    Ok(v1) => match resolve_spec(v1, o1.store.cells, f) {
                        Ok(r1) => {
                            let o2 = eval_spec(items[2], env, o1.store, f);
                            match o2.res {
                                Ok(v2) => match resolve_spec(v2, o2.store.cells, f) {
                                    Ok(r2) => match (r1, r2) {
                                        (Val::Num(n1), Val::Num(n2)) => ok_of(
                                            Val::Num(
                                                if compare_spec(form, n1, n2) {
                                                    1
                                                } else {
                                                    0
                                                },
                                            ),
                                            o2.store,
                                        ),
                                        _ => fail_of(Error::InvalidForm, o2.store),
                                    },
                                    Err(e) => fail_of(e, o2.store),
                                },
                                Err(_) => o2,
                            }
                        },
                        Err(e) => fail_of(e, o1.store),
                    },
                    Err(_) => o1,
                }
            } else {
                fail_of(Error::InvalidForm, st)
            },
            Form::Unknown => fail_of(Error::UnknownForm, st),
        }
    }
}

/// What a comparison operator says of two numbers.
pub open spec fn compare_spec(form: Form, n1: int, n2: int) -> bool {
    match form {
        Form::Greater => n1 > n2,
        Form::Less => n1 < n2,
        Form::GreaterEqual => n1 >= n2,
        Form::LessEqual => n1 <= n2,
        Form::Equal => n1 == n2,
        _ => false,
    }
}

} // verus!
