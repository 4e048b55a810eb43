use vstd::prelude::*;

use crate::error::Error;
use crate::forms::Form;
use crate::forms::kw_quote;
use crate::forms::kw_set;
use crate::forms::kw_while;
use crate::forms::spec_form_of;
use crate::semantics::BindingV;
use crate::semantics::StoreV;
use crate::semantics::call_env_spec;
use crate::semantics::captures_spec;
use crate::semantics::eval_form_spec;
use crate::semantics::eval_spec;
use crate::semantics::eval_while_spec;
use crate::semantics::is_truthy;
use crate::semantics::lookup;
use crate::semantics::ok_of;
use crate::semantics::resolve_spec;
use crate::sexpr::Val;

verus! {

/// Every number evaluates to itself, in any environment, against any
/// store, which it leaves untouched.
pub proof fn lemma_number_self_evaluates(n: int, env: Seq<BindingV>, st: StoreV, fuel: nat)
    requires
        fuel >= 1,
    ensures
        eval_spec(Val::Num(n), env, st, fuel) == ok_of(Val::Num(n), st),
{
}

/// `quote` returns its operand unevaluated, whatever the operand holds —
/// unbound symbols included — and leaves the store as it was.
pub proof fn lemma_quote_returns_operand(x: Val, env: Seq<BindingV>, st: StoreV, fuel: nat)
    requires
        fuel >= 2,
    ensures
        eval_spec(Val::List(seq![Val::Sym(kw_quote()), x]), env, st, fuel) == ok_of(x, st),
{
    assert(spec_form_of(kw_quote()) == Form::Quote);
    let items = seq![Val::Sym(kw_quote()), x];
    assert(items[0] == Val::Sym(kw_quote()));
    assert(items[1] == x);
    let o1 = eval_form_spec(Form::Quote, items, env, st, (fuel - 1) as nat);
    assert(o1 == ok_of(x, st));
    assert(eval_spec(Val::List(items), env, st, fuel) == o1);
}

/// `set` on a name with no binding fails with `UnboundVariable`, whenever
/// the value expression itself evaluates to a value.
pub proof fn lemma_set_unbound_fails(
    name: Seq<u8>,
    vexpr: Val,
    env: Seq<BindingV>,
    st: StoreV,
    fuel: nat,
)
    requires
        fuel >= 2,
        lookup(env, name) is None,
        eval_spec(vexpr, env, st, (fuel - 2) as nat).res is Ok,
    ensures
        eval_spec(Val::List(seq![Val::Sym(kw_set()), Val::Sym(name), vexpr]), env, st, fuel).res
            == Err::<Val, Error>(Error::UnboundVariable),
{
    assert(spec_form_of(kw_set()) == Form::Assign);
    let items = seq![Val::Sym(kw_set()), Val::Sym(name), vexpr];
    assert(items[0] == Val::Sym(kw_set()));
    assert(items[1] == Val::Sym(name));
    assert(items[2] == vexpr);
    let o1 = eval_form_spec(Form::Assign, items, env, st, (fuel - 1) as nat);
    assert(o1.res == Err::<Val, Error>(Error::UnboundVariable));
    assert(eval_spec(Val::List(items), env, st, fuel) == o1);
}

/// A `while` whose condition is falsy at the start runs no body at all:
/// the result is the empty list, and the store is whatever evaluating the
/// condition once left behind.
pub proof fn lemma_while_initially_false(
    cond: Val,
    body: Val,
    env: Seq<BindingV>,
    st: StoreV,
    fuel: nat,
)
    requires
        fuel >= 3,
        ({
            let oc = eval_spec(cond, env, st, (fuel - 3) as nat);
            &&& oc.res is Ok
            &&& resolve_spec(oc.res->Ok_0, oc.store.cells, (fuel - 3) as nat) is Ok
            &&& !is_truthy(resolve_spec(oc.res->Ok_0, oc.store.cells, (fuel - 3) as nat)->Ok_0)
        }),
    ensures
        eval_spec(Val::List(seq![Val::Sym(kw_while()), cond, body]), env, st, fuel) == ok_of(
            Val::List(Seq::empty()),
            eval_spec(cond, env, st, (fuel - 3) as nat).store,
        ),
{
    assert(spec_form_of(kw_while()) == Form::While);
    let items = seq![Val::Sym(kw_while()), cond, body];
    assert(items[0] == Val::Sym(kw_while()));
    assert(items[1] == cond);
    assert(items[2] == body);
    let o1 = eval_form_spec(Form::While, items, env, st, (fuel - 1) as nat);
    let o2 = eval_while_spec(cond, body, Val::List(Seq::empty()), env, st, (fuel - 2) as nat);
    assert(o1 == o2);
    assert(o2 == ok_of(Val::List(Seq::empty()), eval_spec(cond, env, st, (fuel - 3) as nat).store));
    assert(eval_spec(Val::List(items), env, st, fuel) == o1);
}

/// One true turn of a `while` loop: when the condition comes out truthy
/// and the body yields a value, the loop goes on with that value as its
/// running result — so the value of a loop that stops later is the value
/// of its last body evaluation.
pub proof fn lemma_while_step(
    cond: Val,
    body: Val,
    prev: Val,
    env: Seq<BindingV>,
    st: StoreV,
    fuel: nat,
)
    requires
        fuel >= 1,
        ({
            let oc = eval_spec(cond, env, st, (fuel - 1) as nat);
            &&& oc.res is Ok
            &&& resolve_spec(oc.res->Ok_0, oc.store.cells, (fuel - 1) as nat) is Ok
            &&& is_truthy(resolve_spec(oc.res->Ok_0, oc.store.cells, (fuel - 1) as nat)->Ok_0)
            &&& eval_spec(body, env, oc.store, (fuel - 1) as nat).res is Ok
        }),
    ensures
        ({
            let oc = eval_spec(cond, env, st, (fuel - 1) as nat);
            let ob = eval_spec(body, env, oc.store, (fuel - 1) as nat);
            eval_while_spec(cond, body, prev, env, st, fuel) == eval_while_spec(
                cond,
                body,
                ob.res->Ok_0,
                env,
                ob.store,
                (fuel - 1) as nat,
            )
        }),
{
}

/// Closure capture is by reference: the pair a `lambda` builds for a name
/// stores the very cell the name resolves to in the defining environment,
/// never a copy of its value.  A later mutation of that cell is therefore
/// seen through the closure, and a mutation from inside the closure is
/// seen outside.
pub proof fn lemma_capture_is_by_reference(capts: Seq<Val>, idx: int, env: Seq<BindingV>)
    requires
        0 <= idx <= capts.len(),
        captures_spec(capts, idx, env) is Ok,
    ensures
        ({
            let pairs = captures_spec(capts, idx, env)->Ok_0;
            &&& pairs.len() == capts.len() - idx
            &&& forall|i: int|
                idx <= i < capts.len() ==> {
                    &&& (#[trigger] capts[i]) matches Val::Sym(nm)
                    &&& lookup(env, capts[i]->Sym_0) is Some
                    &&& pairs[i - idx] == Val::List(
                        seq![
                            Val::Sym(capts[i]->Sym_0),
                            Val::Ref(lookup(env, capts[i]->Sym_0)->Some_0),
                        ],
                    )
                }
        }),
    decreases capts.len() - idx,
{
    if idx < capts.len() {
        lemma_capture_is_by_reference(capts, idx + 1, env);
        let pairs = captures_spec(capts, idx, env)->Ok_0;
        let rest = captures_spec(capts, idx + 1, env)->Ok_0;
        assert forall|i: int| idx <= i < capts.len() implies {
            &&& (#[trigger] capts[i]) matches Val::Sym(nm)
            &&& lookup(env, capts[i]->Sym_0) is Some
            &&& pairs[i - idx] == Val::List(
                seq![Val::Sym(capts[i]->Sym_0), Val::Ref(lookup(env, capts[i]->Sym_0)->Some_0)],
            )
        } by {
            if i > idx {
                assert(pairs[i - idx] == rest[i - (idx + 1)]);
            }
        }
    }
}

/// The environment a closure call runs in rebinds each captured name to
/// exactly the cell its capture pair carries: the callee reads and writes
/// the very cells of the defining scope.
pub proof fn lemma_call_rebinds_captured_cells(pairs: Seq<Val>, idx: int)
    requires
        0 <= idx <= pairs.len(),
        call_env_spec(pairs, idx) is Ok,
    ensures
        ({
            let env2 = call_env_spec(pairs, idx)->Ok_0;
            &&& env2.len() == pairs.len() - idx
            &&& forall|i: int|
                idx <= i < pairs.len() ==> {
                    &&& pairs[i] == Val::List(
                        #[trigger] seq![
                            Val::Sym(env2[i - idx].name),
                            Val::Ref(env2[i - idx].cell),
                        ],
                    )
                }
        }),
    decreases pairs.len() - idx,
{
    if idx < pairs.len() {
        lemma_call_rebinds_captured_cells(pairs, idx + 1);
        let env2 = call_env_spec(pairs, idx)->Ok_0;
        let rest = call_env_spec(pairs, idx + 1)->Ok_0;
        assert forall|i: int| idx <= i < pairs.len() implies {
            pairs[i] == Val::List(
                #[trigger] seq![Val::Sym(env2[i - idx].name), Val::Ref(env2[i - idx].cell)],
            )
        } by {
            if i > idx {
                assert(env2[i - idx] == rest[i - (idx + 1)]);
            } else {
                let pv = pairs[idx]->List_0;
                assert(pv =~= seq![Val::Sym(env2[0].name), Val::Ref(env2[0].cell)]);
            }
        }
    }
}

/// A successful `set` writes the assigned value into the very cell that
/// the name resolves to, and into nothing else: the mutation is visible
/// through every binding and every capture that shares the cell.
pub proof fn lemma_set_updates_the_cell(
    name: Seq<u8>,
    vexpr: Val,
    env: Seq<BindingV>,
    st: StoreV,
    fuel: nat,
)
    requires
        fuel >= 2,
        lookup(env, name) is Some,
        eval_spec(vexpr, env, st, (fuel - 2) as nat).res is Ok,
    ensures
        ({
            let ov = eval_spec(vexpr, env, st, (fuel - 2) as nat);
            let o = eval_spec(
                Val::List(seq![Val::Sym(kw_set()), Val::Sym(name), vexpr]),
                env,
                st,
                fuel,
            );
            let cell = lookup(env, name)->Some_0;
            &&& o.res == Ok::<Val, Error>(ov.res->Ok_0)
            &&& o.store.cells == ov.store.cells.update(cell as int, ov.res->Ok_0)
            &&& o.store.input == ov.store.input
            &&& o.store.output == ov.store.output
        }),
{
    assert(spec_form_of(kw_set()) == Form::Assign);
    let items = seq![Val::Sym(kw_set()), Val::Sym(name), vexpr];
    assert(items[0] == Val::Sym(kw_set()));
    assert(items[1] == Val::Sym(name));
    assert(items[2] == vexpr);
    let o1 = eval_form_spec(Form::Assign, items, env, st, (fuel - 1) as nat);
    assert(eval_spec(Val::List(items), env, st, fuel) == o1);
}

} // verus!
