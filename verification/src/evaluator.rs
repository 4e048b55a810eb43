use vstd::prelude::*;

use crate::error::Error;
use crate::forms::Form;
use crate::forms::form_of;
use crate::forms::kw_lambda_captured;
use crate::forms::kw_lambda_captured_vec;
use crate::semantics::BindingV;
use crate::semantics::Outcome;
use crate::semantics::StoreV;
use crate::semantics::all_nums;
use crate::semantics::byte_of_num;
use crate::semantics::call_env_spec;
use crate::semantics::captures_spec;
use crate::semantics::closure_of;
use crate::semantics::compare_spec;
use crate::semantics::eval_args_spec;
use crate::semantics::eval_form_spec;
use crate::semantics::eval_let_spec;
use crate::semantics::eval_plus_spec;
use crate::semantics::eval_print_spec;
use crate::semantics::eval_seq_spec;
use crate::semantics::eval_spec;
use crate::semantics::eval_while_spec;
use crate::semantics::codes_bytes;
use crate::semantics::dec_digits;
use crate::semantics::dec_repr;
use crate::semantics::env_wf;
use crate::semantics::first_non_num;
use crate::semantics::is_truthy;
use crate::semantics::lemma_first_non_num;
use crate::semantics::lemma_lookup_in_env;
use crate::semantics::lookup;
use crate::semantics::resolve_spec;
use crate::semantics::store_wf;
use crate::semantics::wrap_add_int;
use crate::sexpr::Atom;
use crate::sexpr::SExpr;
use crate::sexpr::Val;
use crate::sexpr::bytes_eq;
use crate::sexpr::clone_bytes;
use crate::sexpr::clone_exprs;
use crate::sexpr::clone_sexpr;
use crate::sexpr::lemma_val_wf_mono;
use crate::sexpr::val_wf;
use crate::sexpr::vals_wf;
use crate::sexpr::views_of_seq;

verus! {

/// One variable binding: a name and the arena index of its shared cell.
/// Two bindings may share one cell; that is how mutation becomes visible
/// through captures.
pub(crate) struct Binding {
    pub(crate) name: Vec<u8>,
    pub(crate) cell: usize,
}

/// The binding as the semantics sees it.
pub(crate) open spec fn binding_view(b: Binding) -> BindingV {
    BindingV { name: b.name@, cell: b.cell as nat }
}

/// The state an evaluation runs in: the bindings in scope, the arena of
/// shared mutable cells, the numbers available to `readnum`, and the bytes
/// written by `print`.  Standard input and output are injected as plain
/// queues so that evaluation itself stays a pure function of its state.
pub struct EvalContext {
    pub(crate) vars: Vec<Binding>,
    pub(crate) cells: Vec<SExpr>,
    pub(crate) input: Vec<i64>,
    pub(crate) next_in: usize,
    pub(crate) output: Vec<u8>,
}

impl EvalContext {
    /// The bindings in scope, innermost last.
    pub open(crate) spec fn env(&self) -> Seq<BindingV> {
        Seq::new(self.vars@.len(), |i: int| binding_view(self.vars@[i]))
    }

    /// The mutable state as the semantics sees it.
    pub open(crate) spec fn store(&self) -> StoreV {
        StoreV {
            cells: views_of_seq(self.cells@),
            input: self.input@.skip(self.next_in as int).map_values(|x: i64| x as int),
            output: self.output@,
        }
    }

    /// Bindings and cells all point inside the arena, and the input cursor
    /// is in bounds.
    pub open(crate) spec fn wf(&self) -> bool {
        &&& env_wf(self.env(), self.cells@.len() as nat)
        &&& store_wf(self.store())
        &&& self.next_in <= self.input@.len()
    }

    /// A fresh context: no bindings, no cells, no input, no output.
    pub fn new() -> (r: EvalContext)
        ensures
            r.env() == Seq::<BindingV>::empty(),
            r.store().cells == Seq::<Val>::empty(),
            r.store().input == Seq::<int>::empty(),
            r.store().output == Seq::<u8>::empty(),
            r.wf(),
    {
        let r = EvalContext {
            vars: Vec::new(),
            cells: Vec::new(),
            input: Vec::new(),
            next_in: 0,
            output: Vec::new(),
        };
        proof {
            assert(r.env() =~= Seq::<BindingV>::empty());
            assert(r.store().cells =~= Seq::<Val>::empty());
            assert(r.store().input =~= Seq::<int>::empty());
        }
        r
    }

    /// Append one number to the queue that `readnum` reads from.
    pub fn push_input(&mut self, n: i64)
        requires
            old(self).wf(),
        ensures
            final(self).wf(),
            final(self).env() == old(self).env(),
            final(self).store().cells == old(self).store().cells,
            final(self).store().output == old(self).store().output,
            final(self).store().input == old(self).store().input.push(n as int),
    {
        self.input.push(n);
        proof {
            assert(self.env() =~= old(self).env());
            assert(self.store().cells =~= old(self).store().cells);
            assert(self.store().input =~= old(self).store().input.push(n as int));
        }
    }

    /// The bytes printed so far.
    pub fn output_bytes(&self) -> (r: &Vec<u8>)
        ensures
            r@ == self.store().output,
    {
        &self.output
    }
}

/// The cell index of the most recently added binding with this name, if
/// any: the innermost binding wins.
fn lookup_cell(ctx: &EvalContext, name: &Vec<u8>) -> (r: Option<usize>)
    ensures
        match (r, lookup(ctx.env(), name@)) {
            (Some(c), Some(sc)) => c as nat == sc,
            (None, None) => true,
            _ => false,
        },
{
    let ghost env = ctx.env();
    let mut i: usize = ctx.vars.len();
    proof {
        assert(env.take(i as int) =~= env);
    }
    while i > 0
        invariant
            i <= ctx.vars@.len(),
            env == ctx.env(),
            lookup(env, name@) == lookup(env.take(i as int), name@),
        decreases i,
    {
        i = i - 1;
        if bytes_eq(&ctx.vars[i].name, name) {
            proof {
                let t = env.take(i as int + 1);
                assert(t.last() == env[i as int]);
                assert(t.last().name == name@);
            }
            return Some(ctx.vars[i].cell);
        }
        proof {
            let t = env.take(i as int + 1);
            assert(t.last() == env[i as int]);
            assert(t.last().name != name@);
            assert(t.drop_last() =~= env.take(i as int));
        }
    }
    proof {
        assert(env.take(0) =~= Seq::<BindingV>::empty());
    }
    None
}

/// Follow `Ref` handles until a non-reference value appears, reading each
/// cell's current content.  Resolution is iterative, not recursive, so a
/// long indirection chain costs fuel, never stack.
pub fn resolve_reference(value: &SExpr, ctx: &EvalContext, fuel: u64) -> (r: Result<SExpr, Error>)
    requires
        ctx.wf(),
        val_wf(value@, ctx.store().cells.len()),
    ensures
        match (r, resolve_spec(value@, ctx.store().cells, fuel as nat)) {
            (Ok(e), Ok(v)) => e@ == v && val_wf(e@, ctx.store().cells.len()),
            (Err(e1), Err(e2)) => e1 == e2,
            _ => false,
        },
{
    let mut cur: SExpr = clone_sexpr(value);
    let mut left: u64 = fuel;
    loop
        invariant_except_break
            ctx.wf(),
            val_wf(cur@, ctx.cells@.len() as nat),
            left <= fuel,
            resolve_spec(value@, ctx.store().cells, fuel as nat) == resolve_spec(
                cur@,
                ctx.store().cells,
                left as nat,
            ),
        ensures
            resolve_spec(value@, ctx.store().cells, fuel as nat) matches Ok(v) && cur@ == v
                && val_wf(cur@, ctx.cells@.len() as nat),
        decreases left,
    {
        let is_ref = match &cur {
            SExpr::Ref(_) => true,
            _ => false,
        };
        if !is_ref {
            break;
        }
        if left == 0 {
            return Err(Error::DepthLimit);
        }
        let idx = match &cur {
            SExpr::Ref(i) => *i,
            _ => 0,
        };
        cur = clone_sexpr(&ctx.cells[idx]);
        left = left - 1;
    }
    Ok(cur)
}

/// Truthiness of a value, resolving references first: a number is true iff
/// nonzero, a list is true iff non-empty, anything else is false.
pub fn value_is_true(value: &SExpr, ctx: &EvalContext, fuel: u64) -> (r: Result<bool, Error>)
    requires
        ctx.wf(),
        val_wf(value@, ctx.store().cells.len()),
    ensures
        match (r, resolve_spec(value@, ctx.store().cells, fuel as nat)) {
            (Ok(b), Ok(v)) => b == is_truthy(v),
            (Err(e1), Err(e2)) => e1 == e2,
            _ => false,
        },
{
    let resolved = match resolve_reference(value, ctx, fuel) {
        Ok(v) => v,
        Err(e) => {
            return Err(e);
        },
    };
    match &resolved {
        SExpr::Atom(crate::sexpr::Atom::Number(n)) => Ok(*n != 0),
        SExpr::List(items) => Ok(items.len() != 0),
        _ => Ok(false),
    }
}

/// An exact copy of the bindings in scope: forking an environment copies
/// the binding list, while the cells stay shared.
fn clone_bindings(vars: &Vec<Binding>) -> (r: Vec<Binding>)
    ensures
        r@.len() == vars@.len(),
        forall|i: int| 0 <= i < vars@.len() ==> binding_view(r@[i]) == binding_view(vars@[i]),
{
    let mut out: Vec<Binding> = Vec::new();
    let mut i: usize = 0;
    while i < vars.len()
        invariant
            i <= vars@.len(),
            out@.len() == i,
            forall|j: int| 0 <= j < i ==> binding_view(out@[j]) == binding_view(vars@[j]),
        decreases vars@.len() - i,
    {
        out.push(Binding { name: clone_bytes(&vars[i].name), cell: vars[i].cell });
        i = i + 1;
    }
    out
}


/// What the exec evaluator promises against one spec-level outcome: the
/// caller's bindings are untouched, the store is exactly the outcome's,
/// the arena only grew, well-formedness is kept, and the returned value or
/// error is the outcome's.
pub open(crate) spec fn eval_post(
    o: Outcome,
    c0: EvalContext,
    c1: EvalContext,
    r: Result<SExpr, Error>,
) -> bool {
    &&& c1.env() == c0.env()
    &&& c1.store() == o.store
    &&& c1.wf()
    &&& c0.store().cells.len() <= c1.store().cells.len()
    &&& match (r, o.res) {
        (Ok(v), Ok(w)) => v@ == w && val_wf(v@, c1.store().cells.len()),
        (Err(e1), Err(e2)) => e1 == e2,
        _ => false,
    }
}

/// Write the decimal digits of a nonnegative number, most significant
/// first.
fn append_dec_u(out: &mut Vec<u8>, m: u64)
    ensures
        final(out)@ == old(out)@ + dec_digits(m as nat),
    decreases m,
{
    if m < 10 {
        out.push(48 + m as u8);
        proof {
            assert(out@ =~= old(out)@ + dec_digits(m as nat));
        }
    } else {
        append_dec_u(out, m / 10);
        out.push(48 + (m % 10) as u8);
        proof {
            assert(out@ =~= old(out)@ + dec_digits(m as nat));
        }
    }
}

/// Write the decimal notation of a number, with a minus sign when it is
/// negative.
fn append_dec(out: &mut Vec<u8>, n: i64)
    ensures
        final(out)@ == old(out)@ + dec_repr(n as int),
{
    if n < 0 {
        out.push('-' as u8);
        let m: u64 = (-(n as i128)) as u64;
        append_dec_u(out, m);
        proof {
            assert(out@ =~= old(out)@ + dec_repr(n as int));
        }
    } else {
        append_dec_u(out, n as u64);
    }
}

/// The low byte of a number, as `print` writes a character code.
fn byte_of_num_exec(n: i64) -> (b: u8)
    ensures
        b == byte_of_num(n as int),
{
    let m: i64 = n % 256;
    if m < 0 {
        (m + 256) as u8
    } else {
        m as u8
    }
}

/// Write a list of character codes; stops at the first element that is
/// not a number and reports whether all of them were.
fn append_codes(out: &mut Vec<u8>, elems: &Vec<SExpr>) -> (ok: bool)
    ensures
        ({
            let evs = views_of_seq(elems@);
            &&& ok == all_nums(evs)
            &&& ok ==> final(out)@ == old(out)@ + codes_bytes(evs)
            &&& !ok ==> final(out)@ == old(out)@ + codes_bytes(evs.take(first_non_num(evs)))
        }),
{
    let ghost evs = views_of_seq(elems@);
    let mut i: usize = 0;
    proof {
        assert(out@ =~= old(out)@ + codes_bytes(evs.take(0)));
    }
    while i < elems.len()
        invariant
            i <= elems@.len(),
            evs == views_of_seq(elems@),
            forall|j: int| 0 <= j < i ==> (#[trigger] evs[j]) is Num,
            out@ == old(out)@ + codes_bytes(evs.take(i as int)),
        decreases elems@.len() - i,
    {
        match &elems[i] {
            SExpr::Atom(Atom::Number(n)) => {
                out.push(byte_of_num_exec(*n));
                i = i + 1;
                proof {
                    assert(codes_bytes(evs.take(i as int)) =~= codes_bytes(
                        evs.take(i - 1),
                    ).push(byte_of_num(evs[i - 1]->Num_0)));
                    assert(out@ =~= old(out)@ + codes_bytes(evs.take(i as int)));
                }
            },
            _ => {
                proof {
                    lemma_first_non_num(evs, i as int);
                }
                return false;
            },
        }
    }
    proof {
        lemma_first_non_num(evs, evs.len() as int);
        assert(evs.take(evs.len() as int) =~= evs);
    }
    true
}

/// Build the capture pairs of a lambda from the entries of its capture
/// list at and after `idx`.
fn eval_captures_from(capts: &Vec<SExpr>, idx: usize, ctx: &EvalContext) -> (r: Result<
    Vec<SExpr>,
    Error,
>)
    requires
        ctx.wf(),
        idx <= capts@.len(),
    ensures
        match (r, captures_spec(views_of_seq(capts@), idx as int, ctx.env())) {
            (Ok(ps), Ok(sps)) => views_of_seq(ps@) == sps && vals_wf(
                sps,
                ctx.store().cells.len(),
            ),
            (Err(e1), Err(e2)) => e1 == e2,
            _ => false,
        },
    decreases capts@.len() - idx,
{
    if idx >= capts.len() {
        let r: Vec<SExpr> = Vec::new();
        proof {
            assert(views_of_seq(r@) =~= Seq::<Val>::empty());
        }
        return Ok(r);
    }
    match &capts[idx] {
        SExpr::Atom(Atom::Symbol(name)) => {
            match lookup_cell(ctx, name) {
                Some(cell) => {
                    let mut rest = match eval_captures_from(capts, idx + 1, ctx) {
                        Ok(ps) => ps,
                        Err(e) => {
                            return Err(e);
                        },
                    };
                    let mut pair_items: Vec<SExpr> = Vec::new();
                    pair_items.push(SExpr::Atom(Atom::Symbol(clone_bytes(name))));
                    pair_items.push(SExpr::Ref(cell));
                    proof {
                        lemma_lookup_in_env(ctx.env(), name@, ctx.cells@.len() as nat);
                        assert(views_of_seq(pair_items@) =~= seq![
                            Val::Sym(name@),
                            Val::Ref(cell as nat),
                        ]);
                    }
                    let pair = SExpr::List(pair_items);
                    proof {
                        assert(pair@ == Val::List(
                            seq![Val::Sym(name@), Val::Ref(cell as nat)],
                        ));
                    }
                    let ghost restv = rest@;
                    let ghost pairv = pair@;
                    let mut out: Vec<SExpr> = Vec::new();
                    out.push(pair);
                    out.append(&mut rest);
                    proof {
                        let cvs = views_of_seq(capts@);
                        let sps = captures_spec(cvs, idx as int, ctx.env());
                        assert(views_of_seq(out@) =~= seq![pairv] + views_of_seq(restv));
                        assert(views_of_seq(out@) =~= sps->Ok_0);
                        let bound = ctx.store().cells.len();
                        let es = seq![Val::Sym(name@), Val::Ref(cell as nat)];
                        assert(val_wf(es[0], bound));
                        assert(val_wf(es[1], bound));
                        assert(val_wf(pairv, bound)) by {
                            assert(forall|i: int|
                                0 <= i < es.len() ==> val_wf(#[trigger] es[i], bound));
                        }
                        assert(vals_wf(sps->Ok_0, bound)) by {
                            assert(forall|i: int|
                                0 <= i < views_of_seq(out@).len() ==> val_wf(
                                    #[trigger] views_of_seq(out@)[i],
                                    bound,
                                ));
                        }
                    }
                    Ok(out)
                },
                None => Err(Error::UnboundVariable),
            }
        },
        _ => Err(Error::InvalidForm),
    }
}

/// Build the fresh environment of a closure call from its capture pairs
/// at and after `idx`.
fn build_call_env(pairs: &Vec<SExpr>, idx: usize, ghost_bound: Ghost<nat>) -> (r: Result<
    Vec<Binding>,
    Error,
>)
    requires
        idx <= pairs@.len(),
        vals_wf(views_of_seq(pairs@), ghost_bound@),
    ensures
        match (r, call_env_spec(views_of_seq(pairs@), idx as int)) {
            (Ok(bs), Ok(sbs)) => Seq::new(bs@.len(), |i: int| binding_view(bs@[i])) == sbs
                && env_wf(sbs, ghost_bound@),
            (Err(e1), Err(e2)) => e1 == e2,
            _ => false,
        },
    decreases pairs@.len() - idx,
{
    if idx >= pairs.len() {
        let r: Vec<Binding> = Vec::new();
        proof {
            assert(Seq::new(r@.len(), |i: int| binding_view(r@[i])) =~= Seq::<
                BindingV,
            >::empty());
        }
        return Ok(r);
    }
    match &pairs[idx] {
        SExpr::List(pair) => {
            if pair.len() != 2 {
                return Err(Error::InvalidForm);
            }
            match (&pair[0], &pair[1]) {
                (SExpr::Atom(Atom::Symbol(name)), SExpr::Ref(c)) => {
                    let cell: usize = *c;
                    proof {
                        let pvs = views_of_seq(pairs@);
                        assert(pvs[idx as int] == pairs@[idx as int]@);
                        let pv = pvs[idx as int]->List_0;
                        assert(pv =~= views_of_seq(pair@));
                        assert(pv[0] == Val::Sym(name@));
                        assert(pv[1] == Val::Ref(cell as nat));
                        assert(val_wf(pvs[idx as int], ghost_bound@));
                        assert(pvs[idx as int] == Val::List(pv));
                        assert(val_wf(pv[1], ghost_bound@));
                        assert((cell as nat) < ghost_bound@);
                    }
                    let mut rest = match build_call_env(pairs, idx + 1, ghost_bound) {
                        Ok(bs) => bs,
                        Err(e) => {
                            return Err(e);
                        },
                    };
                    let b = Binding { name: clone_bytes(name), cell };
                    let ghost bv = binding_view(b);
                    let ghost restv = rest@;
                    let mut out: Vec<Binding> = Vec::new();
                    out.push(b);
                    out.append(&mut rest);
                    proof {
                        let pvs = views_of_seq(pairs@);
                        let sbs = call_env_spec(pvs, idx as int);
                        assert(Seq::new(out@.len(), |i: int| binding_view(out@[i]))
                            =~= seq![bv] + Seq::new(
                            restv.len(),
                            |i: int| binding_view(restv[i]),
                        ));
                        assert(Seq::new(out@.len(), |i: int| binding_view(out@[i]))
                            =~= sbs->Ok_0);
                        assert(env_wf(sbs->Ok_0, ghost_bound@)) by {
                            let full = Seq::new(out@.len(), |i: int| binding_view(out@[i]));
                            assert(forall|i: int|
                                0 <= i < full.len() ==> (#[trigger] full[i]).cell
                                    < ghost_bound@);
                        }
                    }
                    Ok(out)
                },
                _ => {
                    proof {
                        let pvs = views_of_seq(pairs@);
                        assert(pvs[idx as int] == pairs@[idx as int]@);
                        let pv = pvs[idx as int]->List_0;
                        assert(pv =~= views_of_seq(pair@));
                    }
                    Err(Error::InvalidForm)
                },
            }
        },
        _ => Err(Error::InvalidForm),
    }
}


/// Evaluate one expression against the context: the executable form of
/// `eval_spec`.  The caller's bindings are never changed; the store is
/// advanced exactly as the semantics says; the result is the semantics'
/// value or error.
pub fn eval(sexpr: &SExpr, ctx: &mut EvalContext, fuel: u64) -> (r: Result<SExpr, Error>)
    requires
        old(ctx).wf(),
        val_wf(sexpr@, old(ctx).store().cells.len()),
    ensures
        eval_post(
            eval_spec(sexpr@, old(ctx).env(), old(ctx).store(), fuel as nat),
            *old(ctx),
            *final(ctx),
            r,
        ),
    decreases fuel,
{
    if fuel == 0 {
        return Err(Error::DepthLimit);
    }
    match sexpr {
        SExpr::Atom(Atom::Number(n)) => Ok(SExpr::Atom(Atom::Number(*n))),
        SExpr::Atom(Atom::Symbol(name)) => match lookup_cell(ctx, name) {
            Some(cell) => {
                proof {
                    lemma_lookup_in_env(ctx.env(), name@, ctx.cells@.len() as nat);
                }
                Ok(SExpr::Ref(cell))
            },
            None => Err(Error::UnboundVariable),
        },
        SExpr::Ref(i) => {
            let inner = clone_sexpr(&ctx.cells[*i]);
            proof {
                assert(inner@ == ctx.store().cells[*i as int]);
                assert(val_wf(inner@, ctx.store().cells.len()));
            }
            eval(&inner, ctx, fuel - 1)
        },
        SExpr::List(items) => {
            let ghost vs = views_of_seq(items@);
            proof {
                assert(sexpr@ == Val::List(vs));
                assert(vals_wf(vs, old(ctx).store().cells.len()));
            }
            if items.len() == 0 {
                let empty: Vec<SExpr> = Vec::new();
                proof {
                    assert(views_of_seq(empty@) =~= Seq::<Val>::empty());
                }
                Ok(SExpr::List(empty))
            } else {
                proof {
                    assert(vs[0] == items@[0]@);
                }
                match &items[0] {
                    SExpr::List(_) => eval_seq(items, 0, ctx, fuel - 1),
                    SExpr::Atom(Atom::Symbol(name)) => {
                        let form = form_of(name);
                        eval_form(form, items, ctx, fuel - 1)
                    },
                    _ => Err(Error::InvalidForm),
                }
            }
        },
    }
}

/// A sequence form: evaluate the elements from `start` on in order and
/// return the last value.
#[verifier::loop_isolation(false)]
fn eval_seq(items: &Vec<SExpr>, start: usize, ctx: &mut EvalContext, fuel: u64) -> (r: Result<
    SExpr,
    Error,
>)
    requires
        old(ctx).wf(),
        vals_wf(views_of_seq(items@), old(ctx).store().cells.len()),
        start < items@.len(),
    ensures
        eval_post(
            eval_seq_spec(
                views_of_seq(items@),
                start as int,
                old(ctx).env(),
                old(ctx).store(),
                fuel as nat,
            ),
            *old(ctx),
            *final(ctx),
            r,
        ),
    decreases fuel,
{
    let ghost vs = views_of_seq(items@);
    let ghost env0 = old(ctx).env();
    let ghost st0 = old(ctx).store();
    let ghost n0 = old(ctx).store().cells.len();
    let mut idx: usize = start;
    let mut f: u64 = fuel;
    loop
        invariant
            ctx.wf(),
            ctx.env() == env0,
            n0 <= ctx.store().cells.len(),
            vals_wf(vs, n0),
            vs == views_of_seq(items@),
            start <= idx < items@.len(),
            f <= fuel,
            eval_seq_spec(vs, start as int, env0, st0, fuel as nat) == eval_seq_spec(
                vs,
                idx as int,
                env0,
                ctx.store(),
                f as nat,
            ),
        decreases f,
    {
        if f == 0 {
            return Err(Error::DepthLimit);
        }
        proof {
            assert(vs[idx as int] == items@[idx as int]@);
            lemma_val_wf_mono(vs[idx as int], n0, ctx.store().cells.len());
        }
        let v = match eval(&items[idx], ctx, f - 1) {
            Ok(v) => v,
            Err(e) => {
                return Err(e);
            },
        };
        let len = items.len();
        if idx < len - 1 {
            idx = idx + 1;
            f = f - 1;
        } else {
            return Ok(v);
        }
    }
}

/// The binding pairs of a `let`, then its body, with the bindings made by
/// the pairs left in place for the caller to drop.
#[verifier::loop_isolation(false)]
fn eval_let_inner(items: &Vec<SExpr>, ctx: &mut EvalContext, fuel: u64) -> (r: Result<
    SExpr,
    Error,
>)
    requires
        old(ctx).wf(),
        vals_wf(views_of_seq(items@), old(ctx).store().cells.len()),
        items@.len() >= 3,
    ensures
        ({
            let o = eval_let_spec(
                views_of_seq(items@),
                1,
                old(ctx).env(),
                old(ctx).store(),
                fuel as nat,
            );
            &&& final(ctx).wf()
            &&& final(ctx).store() == o.store
            &&& old(ctx).store().cells.len() <= final(ctx).store().cells.len()
            &&& final(ctx).env().len() >= old(ctx).env().len()
            &&& final(ctx).env().take(old(ctx).env().len() as int) == old(ctx).env()
            &&& match (r, o.res) {
                (Ok(v), Ok(w)) => v@ == w && val_wf(v@, final(ctx).store().cells.len()),
                (Err(e1), Err(e2)) => e1 == e2,
                _ => false,
            }
        }),
    decreases fuel, 0nat,
{
    let ghost vs = views_of_seq(items@);
    let ghost env0 = old(ctx).env();
    let ghost st0 = old(ctx).store();
    let ghost n0 = old(ctx).store().cells.len();
    let mut idx: usize = 1;
    let mut f: u64 = fuel;
    while idx < items.len() - 1
        invariant
            ctx.wf(),
            n0 <= ctx.store().cells.len(),
            vals_wf(vs, n0),
            vs == views_of_seq(items@),
            items@.len() >= 3,
            1 <= idx <= items@.len() - 1,
            f <= fuel,
            ctx.env().len() >= env0.len(),
            ctx.env().take(env0.len() as int) == env0,
            eval_let_spec(vs, 1, env0, st0, fuel as nat) == eval_let_spec(
                vs,
                idx as int,
                ctx.env(),
                ctx.store(),
                f as nat,
            ),
        decreases items@.len() - idx,
    {
        if f == 0 {
            return Err(Error::DepthLimit);
        }
        proof {
            assert(vs[idx as int] == items@[idx as int]@);
        }
        match &items[idx] {
            SExpr::List(pair) => {
                if pair.len() != 2 {
                    return Err(Error::InvalidForm);
                }
                match &pair[0] {
                    SExpr::Atom(Atom::Symbol(name)) => {
                        proof {
                            let pv = vs[idx as int]->List_0;
                            assert(pv =~= views_of_seq(pair@));
                            assert(val_wf(vs[idx as int], n0));
                            assert(vs[idx as int] == Val::List(pv));
                            assert(val_wf(pv[1], n0));
                            lemma_val_wf_mono(pv[1], n0, ctx.store().cells.len());
                        }
                        let v = match eval(&pair[1], ctx, f - 1) {
                            Ok(v) => v,
                            Err(e) => {
                                return Err(e);
                            },
                        };
                        let ghost env_mid = ctx.env();
                        let ghost cells_mid = ctx.store().cells;
                        let cell = ctx.cells.len();
                        ctx.cells.push(v);
                        ctx.vars.push(Binding { name: clone_bytes(name), cell });
                        proof {
                            assert(ctx.store().cells =~= cells_mid.push(
                                views_of_seq(ctx.cells@)[cell as int],
                            ));
                            assert(ctx.env() =~= env_mid.push(
                                BindingV { name: name@, cell: cell as nat },
                            ));
                            assert(ctx.env().take(env0.len() as int) =~= env0);
                            assert(ctx.wf()) by {
                                assert(env_wf(ctx.env(), ctx.cells@.len() as nat)) by {
                                    assert(forall|i: int|
                                        0 <= i < ctx.env().len() ==> (
                                        #[trigger] ctx.env()[i]).cell
                                            < ctx.cells@.len() as nat);
                                };
                                assert(store_wf(ctx.store())) by {
                                    assert(forall|i: int|
                                        0 <= i < ctx.store().cells.len() ==> val_wf(
                                            #[trigger] ctx.store().cells[i],
                                            ctx.store().cells.len(),
                                        )) by {
                                        assert forall|i: int|
                                            0 <= i < ctx.store().cells.len() implies val_wf(
                                            ctx.store().cells[i],
                                            ctx.store().cells.len(),
                                        ) by {
                                            lemma_val_wf_mono(
                                                ctx.store().cells[i],
                                                cells_mid.len(),
                                                ctx.store().cells.len(),
                                            );
                                        }
                                    };
                                };
                            };
                        }
                        idx = idx + 1;
                        f = f - 1;
                    },
                    _ => {
                        return Err(Error::InvalidForm);
                    },
                }
            },
            _ => {
                return Err(Error::InvalidForm);
            },
        }
    }
    if f == 0 {
        return Err(Error::DepthLimit);
    }
    proof {
        assert(vs[items@.len() - 1] == items@[items@.len() - 1]@);
        lemma_val_wf_mono(vs[items@.len() - 1], n0, ctx.store().cells.len());
    }
    eval(&items[items.len() - 1], ctx, f - 1)
}

/// A `let`: bind the pairs, evaluate the body in the extended scope, and
/// let the new bindings go out of scope again.
fn eval_let(items: &Vec<SExpr>, ctx: &mut EvalContext, fuel: u64) -> (r: Result<SExpr, Error>)
    requires
        old(ctx).wf(),
        vals_wf(views_of_seq(items@), old(ctx).store().cells.len()),
        items@.len() >= 3,
    ensures
        eval_post(
            eval_let_spec(
                views_of_seq(items@),
                1,
                old(ctx).env(),
                old(ctx).store(),
                fuel as nat,
            ),
            *old(ctx),
            *final(ctx),
            r,
        ),
    decreases fuel, 1nat,
{
    let nvars = ctx.vars.len();
    let ghost env0 = ctx.env();
    let r = eval_let_inner(items, ctx, fuel);
    ctx.vars.truncate(nvars);
    proof {
        assert(ctx.env() =~= env0);
        assert(env_wf(ctx.env(), ctx.cells@.len() as nat)) by {
            assert(forall|i: int|
                0 <= i < env0.len() ==> (#[trigger] env0[i]).cell < ctx.cells@.len() as nat);
        }
    }
    r
}

/// A `while` loop: evaluate the condition, stop when it is falsy, else
/// evaluate the body, remember its value, and start over.
#[verifier::loop_isolation(false)]
fn eval_while(cond: &SExpr, body: &SExpr, ctx: &mut EvalContext, fuel: u64) -> (r: Result<
    SExpr,
    Error,
>)
    requires
        old(ctx).wf(),
        val_wf(cond@, old(ctx).store().cells.len()),
        val_wf(body@, old(ctx).store().cells.len()),
    ensures
        eval_post(
            eval_while_spec(
                cond@,
                body@,
                Val::List(Seq::empty()),
                old(ctx).env(),
                old(ctx).store(),
                fuel as nat,
            ),
            *old(ctx),
            *final(ctx),
            r,
        ),
    decreases fuel,
{
    let ghost env0 = old(ctx).env();
    let ghost st0 = old(ctx).store();
    let ghost n0 = old(ctx).store().cells.len();
    let mut prev = SExpr::List(Vec::new());
    proof {
        assert(views_of_seq(Seq::<SExpr>::empty()) =~= Seq::<Val>::empty());
        assert(prev@ == Val::List(Seq::<Val>::empty()));
    }
    let mut f: u64 = fuel;
    loop
        invariant
            ctx.wf(),
            ctx.env() == env0,
            n0 <= ctx.store().cells.len(),
            val_wf(cond@, n0),
            val_wf(body@, n0),
            val_wf(prev@, ctx.store().cells.len()),
            f <= fuel,
            eval_while_spec(cond@, body@, Val::List(Seq::empty()), env0, st0, fuel as nat)
                == eval_while_spec(cond@, body@, prev@, env0, ctx.store(), f as nat),
        decreases f,
    {
        if f == 0 {
            return Err(Error::DepthLimit);
        }
        let ghost len_head = ctx.store().cells.len();
        proof {
            lemma_val_wf_mono(cond@, n0, len_head);
        }
        let cv = match eval(cond, ctx, f - 1) {
            Ok(v) => v,
            Err(e) => {
                return Err(e);
            },
        };
        let t = match value_is_true(&cv, ctx, f - 1) {
            Ok(b) => b,
            Err(e) => {
                return Err(e);
            },
        };
        if !t {
            proof {
                lemma_val_wf_mono(prev@, len_head, ctx.store().cells.len());
            }
            return Ok(prev);
        }
        proof {
            lemma_val_wf_mono(body@, n0, ctx.store().cells.len());
        }
        let bv = match eval(body, ctx, f - 1) {
            Ok(v) => v,
            Err(e) => {
                return Err(e);
            },
        };
        prev = bv;
        f = f - 1;
    }
}

/// The operands of a `list` form, evaluated in order and collected.
#[verifier::loop_isolation(false)]
fn eval_args(items: &Vec<SExpr>, ctx: &mut EvalContext, fuel: u64) -> (r: Result<SExpr, Error>)
    requires
        old(ctx).wf(),
        vals_wf(views_of_seq(items@), old(ctx).store().cells.len()),
        items@.len() >= 1,
    ensures
        eval_post(
            eval_args_spec(
                views_of_seq(items@),
                1,
                Seq::empty(),
                old(ctx).env(),
                old(ctx).store(),
                fuel as nat,
            ),
            *old(ctx),
            *final(ctx),
            r,
        ),
    decreases fuel,
{
    let ghost vs = views_of_seq(items@);
    let ghost env0 = old(ctx).env();
    let ghost st0 = old(ctx).store();
    let ghost n0 = old(ctx).store().cells.len();
    let mut acc: Vec<SExpr> = Vec::new();
    let mut idx: usize = 1;
    let mut f: u64 = fuel;
    proof {
        assert(views_of_seq(acc@) =~= Seq::<Val>::empty());
    }
    loop
        invariant
            ctx.wf(),
            ctx.env() == env0,
            n0 <= ctx.store().cells.len(),
            vals_wf(vs, n0),
            vs == views_of_seq(items@),
            vals_wf(views_of_seq(acc@), ctx.store().cells.len()),
            1 <= idx <= items@.len(),
            f <= fuel,
            eval_args_spec(vs, 1, Seq::empty(), env0, st0, fuel as nat) == eval_args_spec(
                vs,
                idx as int,
                views_of_seq(acc@),
                env0,
                ctx.store(),
                f as nat,
            ),
        decreases f,
    {
        if f == 0 {
            return Err(Error::DepthLimit);
        }
        if idx >= items.len() {
            let r = SExpr::List(acc);
            proof {
                assert(r@ == Val::List(views_of_seq(acc@)));
            }
            return Ok(r);
        }
        proof {
            assert(vs[idx as int] == items@[idx as int]@);
            lemma_val_wf_mono(vs[idx as int], n0, ctx.store().cells.len());
        }
        let ghost cells_mid = ctx.store().cells;
        let v = match eval(&items[idx], ctx, f - 1) {
            Ok(v) => v,
            Err(e) => {
                return Err(e);
            },
        };
        let ghost accv = views_of_seq(acc@);
        acc.push(v);
        proof {
            assert(views_of_seq(acc@) =~= accv.push(views_of_seq(acc@)[acc@.len() - 1]));
            assert(vals_wf(views_of_seq(acc@), ctx.store().cells.len())) by {
                assert forall|i: int|
                    0 <= i < views_of_seq(acc@).len() implies val_wf(
                    #[trigger] views_of_seq(acc@)[i],
                    ctx.store().cells.len(),
                ) by {
                    if i < accv.len() {
                        lemma_val_wf_mono(accv[i], cells_mid.len(), ctx.store().cells.len());
                    }
                }
            };
        }
        idx = idx + 1;
        f = f - 1;
    }
}

/// The operands of a `+`, summed in the 64-bit ring.
#[verifier::loop_isolation(false)]
fn eval_plus(items: &Vec<SExpr>, ctx: &mut EvalContext, fuel: u64) -> (r: Result<SExpr, Error>)
    requires
        old(ctx).wf(),
        vals_wf(views_of_seq(items@), old(ctx).store().cells.len()),
        items@.len() >= 1,
    ensures
        eval_post(
            eval_plus_spec(
                views_of_seq(items@),
                1,
                0,
                old(ctx).env(),
                old(ctx).store(),
                fuel as nat,
            ),
            *old(ctx),
            *final(ctx),
            r,
        ),
    decreases fuel,
{
    let ghost vs = views_of_seq(items@);
    let ghost env0 = old(ctx).env();
    let ghost st0 = old(ctx).store();
    let ghost n0 = old(ctx).store().cells.len();
    let mut acc: i64 = 0;
    let mut idx: usize = 1;
    let mut f: u64 = fuel;
    loop
        invariant
            ctx.wf(),
            ctx.env() == env0,
            n0 <= ctx.store().cells.len(),
            vals_wf(vs, n0),
            vs == views_of_seq(items@),
            1 <= idx <= items@.len(),
            f <= fuel,
            eval_plus_spec(vs, 1, 0, env0, st0, fuel as nat) == eval_plus_spec(
                vs,
                idx as int,
                acc as int,
                env0,
                ctx.store(),
                f as nat,
            ),
        decreases f,
    {
        if f == 0 {
            return Err(Error::DepthLimit);
        }
        if idx >= items.len() {
            return Ok(SExpr::Atom(Atom::Number(acc)));
        }
        proof {
            assert(vs[idx as int] == items@[idx as int]@);
            lemma_val_wf_mono(vs[idx as int], n0, ctx.store().cells.len());
        }
        let v = match eval(&items[idx], ctx, f - 1) {
            Ok(v) => v,
            Err(e) => {
                return Err(e);
            },
        };
        let rv = match resolve_reference(&v, ctx, f - 1) {
            Ok(v) => v,
            Err(e) => {
                return Err(e);
            },
        };
        match &rv {
            SExpr::Atom(Atom::Number(n)) => {
                let acc2 = acc.wrapping_add(*n);
                proof {
                    assert(acc2 as int == wrap_add_int(acc as int, *n as int));
                }
                acc = acc2;
                idx = idx + 1;
                f = f - 1;
            },
            _ => {
                return Err(Error::InvalidForm);
            },
        }
    }
}

/// The operands of a `print`, written to the output one by one.
#[verifier::loop_isolation(false)]
#[verifier::rlimit(50)]
fn eval_print(items: &Vec<SExpr>, ctx: &mut EvalContext, fuel: u64) -> (r: Result<SExpr, Error>)
    requires
        old(ctx).wf(),
        vals_wf(views_of_seq(items@), old(ctx).store().cells.len()),
        items@.len() >= 1,
    ensures
        eval_post(
            eval_print_spec(
                views_of_seq(items@),
                1,
                old(ctx).env(),
                old(ctx).store(),
                fuel as nat,
            ),
            *old(ctx),
            *final(ctx),
            r,
        ),
    decreases fuel,
{
    let ghost vs = views_of_seq(items@);
    let ghost env0 = old(ctx).env();
    let ghost st0 = old(ctx).store();
    let ghost n0 = old(ctx).store().cells.len();
    let mut idx: usize = 1;
    let mut f: u64 = fuel;
    loop
        invariant
            ctx.wf(),
            ctx.env() == env0,
            n0 <= ctx.store().cells.len(),
            vals_wf(vs, n0),
            vs == views_of_seq(items@),
            1 <= idx <= items@.len(),
            f <= fuel,
            eval_print_spec(vs, 1, env0, st0, fuel as nat) == eval_print_spec(
                vs,
                idx as int,
                env0,
                ctx.store(),
                f as nat,
            ),
        decreases f,
    {
        if f == 0 {
            return Err(Error::DepthLimit);
        }
        if idx >= items.len() {
            let empty: Vec<SExpr> = Vec::new();
            proof {
                assert(views_of_seq(empty@) =~= Seq::<Val>::empty());
            }
            return Ok(SExpr::List(empty));
        }
        proof {
            assert(vs[idx as int] == items@[idx as int]@);
            lemma_val_wf_mono(vs[idx as int], n0, ctx.store().cells.len());
        }
        let v = match eval(&items[idx], ctx, f - 1) {
            Ok(v) => v,
            Err(e) => {
                return Err(e);
            },
        };
        let rv = match resolve_reference(&v, ctx, f - 1) {
            Ok(v) => v,
            Err(e) => {
                return Err(e);
            },
        };
        let ghost st_mid = ctx.store();
        match &rv {
            SExpr::Atom(Atom::Number(n)) => {
                append_dec(&mut ctx.output, *n);
                proof {
                    assert(ctx.store() == StoreV {
                        cells: st_mid.cells,
                        input: st_mid.input,
                        output: st_mid.output + dec_repr(*n as int),
                    });
                }
            },
            SExpr::List(elems) => {
                let okk = append_codes(&mut ctx.output, elems);
                if !okk {
                    return Err(Error::InvalidForm);
                }
            },
            _ => {
                return Err(Error::InvalidForm);
            },
        }
        idx = idx + 1;
        f = f - 1;
    }
}

/// Dispatch a non-empty list headed by a symbol over the special forms.
#[verifier::rlimit(100)]
fn eval_form(form: Form, items: &Vec<SExpr>, ctx: &mut EvalContext, fuel: u64) -> (r: Result<
    SExpr,
    Error,
>)
    requires
        old(ctx).wf(),
        vals_wf(views_of_seq(items@), old(ctx).store().cells.len()),
        items@.len() >= 1,
    ensures
        eval_post(
            eval_form_spec(
                form,
                views_of_seq(items@),
                old(ctx).env(),
                old(ctx).store(),
                fuel as nat,
            ),
            *old(ctx),
            *final(ctx),
            r,
        ),
    decreases fuel,
{
    if fuel == 0 {
        return Err(Error::DepthLimit);
    }
    let ghost vs = views_of_seq(items@);
    let ghost n0 = old(ctx).store().cells.len();
    match form {
        Form::Let => {
            if items.len() >= 3 {
                eval_let(items, ctx, fuel - 1)
            } else {
                Err(Error::InvalidForm)
            }
        },
        Form::Assign => {
            if items.len() != 3 {
                return Err(Error::InvalidForm);
            }
            proof {
                assert(vs[1] == items@[1]@);
                assert(vs[2] == items@[2]@);
            }
            match &items[1] {
                SExpr::Atom(Atom::Symbol(name)) => {
                    let v = match eval(&items[2], ctx, fuel - 1) {
                        Ok(v) => v,
                        Err(e) => {
                            return Err(e);
                        },
                    };
                    match lookup_cell(ctx, name) {
                        Some(cell) => {
                            proof {
                                lemma_lookup_in_env(
                                    ctx.env(),
                                    name@,
                                    ctx.cells@.len() as nat,
                                );
                            }
                            let v2 = clone_sexpr(&v);
                            let ghost cells_mid = ctx.store().cells;
                            ctx.cells.set(cell, v2);
                            proof {
                                assert(ctx.store().cells =~= cells_mid.update(
                                    cell as int,
                                    v@,
                                ));
                                assert(store_wf(ctx.store())) by {
                                    assert(forall|i: int|
                                        0 <= i < ctx.store().cells.len() ==> val_wf(
                                            #[trigger] ctx.store().cells[i],
                                            ctx.store().cells.len(),
                                        ));
                                };
                            }
                            Ok(v)
                        },
                        None => Err(Error::UnboundVariable),
                    }
                },
                _ => Err(Error::InvalidForm),
            }
        },
        Form::If => {
            if !(items.len() == 3 || items.len() == 4) {
                return Err(Error::InvalidForm);
            }
            proof {
                assert(vs[1] == items@[1]@);
            }
            let cv = match eval(&items[1], ctx, fuel - 1) {
                Ok(v) => v,
                Err(e) => {
                    return Err(e);
                },
            };
            let t = match value_is_true(&cv, ctx, fuel - 1) {
                Ok(b) => b,
                Err(e) => {
                    return Err(e);
                },
            };
            if t {
                proof {
                    assert(vs[2] == items@[2]@);
                    lemma_val_wf_mono(vs[2], n0, ctx.store().cells.len());
                }
                eval(&items[2], ctx, fuel - 1)
            } else if items.len() == 4 {
                proof {
                    assert(vs[3] == items@[3]@);
                    lemma_val_wf_mono(vs[3], n0, ctx.store().cells.len());
                }
                eval(&items[3], ctx, fuel - 1)
            } else {
                let empty: Vec<SExpr> = Vec::new();
                proof {
                    assert(views_of_seq(empty@) =~= Seq::<Val>::empty());
                }
                Ok(SExpr::List(empty))
            }
        },
        Form::While => {
            if items.len() != 3 {
                return Err(Error::InvalidForm);
            }
            proof {
                assert(vs[1] == items@[1]@);
                assert(vs[2] == items@[2]@);
            }
            eval_while(&items[1], &items[2], ctx, fuel - 1)
        },
        Form::Lambda => {
            if items.len() != 4 {
                return Err(Error::InvalidForm);
            }
            proof {
                assert(vs[1] == items@[1]@);
                assert(vs[2] == items@[2]@);
                assert(vs[3] == items@[3]@);
            }
            match &items[1] {
                SExpr::List(capts) => {
                    match eval_captures_from(capts, 0, ctx) {
                        Ok(pairs) => {
                            proof {
                                assert(vs[1]->List_0 =~= views_of_seq(capts@));
                            }
                            let ghost pairsv = views_of_seq(pairs@);
                            let mut clos: Vec<SExpr> = Vec::new();
                            clos.push(SExpr::Atom(Atom::Symbol(kw_lambda_captured_vec())));
                            clos.push(SExpr::List(pairs));
                            clos.push(clone_sexpr(&items[2]));
                            clos.push(clone_sexpr(&items[3]));
                            let r = SExpr::List(clos);
                            proof {
                                assert(clos@.len() == 4);
                                assert(clos@[0]@ == Val::Sym(kw_lambda_captured()));
                                assert(clos@[1]@ == Val::List(pairsv));
                                assert(clos@[2]@ == vs[2]);
                                assert(clos@[3]@ == vs[3]);
                                assert(r@->List_0 =~= seq![
                                    Val::Sym(kw_lambda_captured()),
                                    Val::List(pairsv),
                                    vs[2],
                                    vs[3],
                                ]);
                                assert(r@ == closure_of(pairsv, vs[2], vs[3]));
                                let bound = ctx.store().cells.len();
                                assert(val_wf(r@, bound)) by {
                                    let es = r@->List_0;
                                    assert(val_wf(es[0], bound));
                                    assert(val_wf(es[1], bound));
                                    assert(val_wf(es[2], bound)) by {
                                        lemma_val_wf_mono(vs[2], n0, bound);
                                    }
                                    assert(val_wf(es[3], bound)) by {
                                        lemma_val_wf_mono(vs[3], n0, bound);
                                    }
                                    assert(forall|i: int|
                                        0 <= i < es.len() ==> val_wf(
                                            #[trigger] es[i],
                                            bound,
                                        ));
                                };
                            }
                            Ok(r)
                        },
                        Err(e) => Err(e),
                    }
                },
                _ => Err(Error::InvalidForm),
            }
        },
        Form::LambdaCaptured => {
            let copy = clone_exprs(items);
            let r = SExpr::List(copy);
            proof {
                assert(r@ == Val::List(vs));
            }
            Ok(r)
        },
        Form::Call => {
            if items.len() < 2 {
                return Err(Error::InvalidForm);
            }
            proof {
                assert(vs[1] == items@[1]@);
            }
            let cv = match eval(&items[1], ctx, fuel - 1) {
                Ok(v) => v,
                Err(e) => {
                    return Err(e);
                },
            };
            let rv = match resolve_reference(&cv, ctx, fuel - 1) {
                Ok(v) => v,
                Err(e) => {
                    return Err(e);
                },
            };
            match &rv {
                SExpr::List(clos) => {
                    proof {
                        assert(rv@->List_0 =~= views_of_seq(clos@));
                    }
                    if clos.len() == 0 {
                        return Err(Error::InvalidForm);
                    }
                    let tag_ok = match &clos[0] {
                        SExpr::Atom(Atom::Symbol(tag)) => bytes_eq(
                            tag,
                            &kw_lambda_captured_vec(),
                        ),
                        _ => false,
                    };
                    if !tag_ok {
                        return Err(Error::InvalidForm);
                    }
                    if clos.len() < 4 {
                        return Err(Error::InvalidForm);
                    }
                    match &clos[1] {
                        SExpr::List(pairs) => {
                            let ghost cvs = views_of_seq(clos@);
                            proof {
                                assert(cvs[1] == clos@[1]@);
                                assert(cvs[1]->List_0 =~= views_of_seq(pairs@));
                                let bound = ctx.store().cells.len();
                                assert(val_wf(rv@, bound));
                                assert(val_wf(cvs[1], bound));
                                assert(val_wf(cvs[3], bound));
                                assert(vals_wf(views_of_seq(pairs@), bound));
                            }
                            let new_vars = match build_call_env(
                                pairs,
                                0,
                                Ghost(ctx.store().cells.len()),
                            ) {
                                Ok(bs) => bs,
                                Err(e) => {
                                    return Err(e);
                                },
                            };
                            let saved = clone_bindings(&ctx.vars);
                            let ghost env_before = ctx.env();
                            let ghost n_before = ctx.store().cells.len();
                            let body = clone_sexpr(&clos[3]);
                            ctx.vars = new_vars;
                            proof {
                                assert(ctx.env() =~= call_env_spec(
                                    views_of_seq(pairs@),
                                    0,
                                )->Ok_0);
                                assert(ctx.wf());
                            }
                            let r = eval(&body, ctx, fuel - 1);
                            ctx.vars = saved;
                            proof {
                                assert(ctx.env() =~= env_before);
                                assert(env_wf(ctx.env(), ctx.cells@.len() as nat)) by {
                                    assert(forall|i: int|
                                        0 <= i < env_before.len() ==> (
                                        #[trigger] env_before[i]).cell
                                            < ctx.cells@.len() as nat);
                                };
                            }
                            r
                        },
                        _ => Err(Error::InvalidForm),
                    }
                },
                _ => Err(Error::InvalidForm),
            }
        },
        Form::Quote => {
            if items.len() != 2 {
                return Err(Error::InvalidForm);
            }
            proof {
                assert(vs[1] == items@[1]@);
            }
            let r = clone_sexpr(&items[1]);
            Ok(r)
        },
        Form::ListForm => eval_args(items, ctx, fuel - 1),
        Form::Print => {
            if items.len() >= 2 {
                eval_print(items, ctx, fuel - 1)
            } else {
                Err(Error::InvalidForm)
            }
        },
        Form::ReadNum => {
            if ctx.next_in < ctx.input.len() {
                let n = ctx.input[ctx.next_in];
                let ghost st_mid = ctx.store();
                ctx.next_in = ctx.next_in + 1;
                proof {
                    assert(st_mid.input.len() > 0);
                    assert(n as int == st_mid.input[0]);
                    assert(ctx.store().input =~= st_mid.input.drop_first());
                    assert(ctx.store().cells =~= st_mid.cells);
                }
                Ok(SExpr::Atom(Atom::Number(n)))
            } else {
                proof {
                    assert(ctx.store().input.len() == 0);
                }
                Err(Error::IOError)
            }
        },
        Form::Plus => {
            if items.len() > 2 {
                eval_plus(items, ctx, fuel - 1)
            } else {
                Err(Error::InvalidForm)
            }
        },
        Form::Greater | Form::Less | Form::GreaterEqual | Form::LessEqual | Form::Equal => {
            if items.len() != 3 {
                return Err(Error::InvalidForm);
            }
            proof {
                assert(vs[1] == items@[1]@);
            }
            let v1 = match eval(&items[1], ctx, fuel - 1) {
                Ok(v) => v,
                Err(e) => {
                    return Err(e);
                },
            };
            let r1 = match resolve_reference(&v1, ctx, fuel - 1) {
                Ok(v) => v,
                Err(e) => {
                    return Err(e);
                },
            };
            proof {
                assert(vs[2] == items@[2]@);
                lemma_val_wf_mono(vs[2], n0, ctx.store().cells.len());
            }
            let v2 = match eval(&items[2], ctx, fuel - 1) {
                Ok(v) => v,
                Err(e) => {
                    return Err(e);
                },
            };
            let r2 = match resolve_reference(&v2, ctx, fuel - 1) {
                Ok(v) => v,
                Err(e) => {
                    return Err(e);
                },
            };
            match (&r1, &r2) {
                (SExpr::Atom(Atom::Number(n1)), SExpr::Atom(Atom::Number(n2))) => {
                    let b: bool = match form {
                        Form::Greater => *n1 > *n2,
                        Form::Less => *n1 < *n2,
                        Form::GreaterEqual => *n1 >= *n2,
                        Form::LessEqual => *n1 <= *n2,
                        _ => *n1 == *n2,
                    };
                    proof {
                        assert(b == compare_spec(form, *n1 as int, *n2 as int));
                    }
                    Ok(SExpr::Atom(Atom::Number(if b { 1 } else { 0 })))
                },
                _ => Err(Error::InvalidForm),
            }
        },
        Form::Unknown => Err(Error::UnknownForm),
    }
}

} // verus!
