use vstd::prelude::*;
use vstd::std_specs::cmp::PartialEqSpec;

verus! {

broadcast use vstd::std_specs::vec::group_vec_axioms;

/// A leaf value: a 64-bit integer or a symbol (an identifier name, used both
/// as a variable reference and as a special-form tag in head position).
#[derive(Debug, PartialEq, Eq)]
pub enum Atom {
    Number(i64),
    Symbol(Vec<u8>),
}

/// An expression tree node.  `Ref` is a handle to a shared mutable cell
/// holding an expression: an index into the cell arena of the evaluation
/// context.  The parser never produces a `Ref`; only evaluation does
/// (variable lookup and closure capture).
#[derive(Debug, PartialEq, Eq)]
pub enum SExpr {
    Atom(Atom),
    List(Vec<SExpr>),
    Ref(usize),
}

/// The mathematical shape of an expression, used by every contract.
pub enum Val {
    Num(int),
    Sym(Seq<u8>),
    List(Seq<Val>),
    Ref(nat),
}

pub open spec fn sexpr_view(e: SExpr) -> Val
    decreases e, 1int,
    via sexpr_view_decreases
{
    match e {
        SExpr::Atom(Atom::Number(n)) => Val::Num(n as int),
        SExpr::Atom(Atom::Symbol(s)) => Val::Sym(s@),
        SExpr::List(items) => Val::List(views_of_seq(items@)),
        SExpr::Ref(idx) => Val::Ref(idx as nat),
    }
}

/// The views of a sequence of expressions, element by element.
pub open spec fn views_of_seq(s: Seq<SExpr>) -> Seq<Val>
    decreases s, 0int,
{
    Seq::new(
        s.len(),
        |i: int|
            if 0 <= i < s.len() {
                sexpr_view(s[i])
            } else {
                Val::Num(0)
            },
    )
}

#[via_fn]
proof fn sexpr_view_decreases(e: SExpr) {
    match e {
        SExpr::List(items) => {
            assert(decreases_to!(e => items));
            assert(decreases_to!(items => items@));
        },
        _ => {},
    }
}

impl View for SExpr {
    type V = Val;

    open spec fn view(&self) -> Val {
        sexpr_view(*self)
    }
}

/// Every `Ref` inside the value points below `bound`: the value cannot reach
/// outside an arena of `bound` cells.
pub open spec fn val_wf(v: Val, bound: nat) -> bool
    decreases v,
{
    match v {
        Val::Num(_) => true,
        Val::Sym(_) => true,
        Val::List(items) => forall|i: int| 0 <= i < items.len() ==> val_wf(#[trigger] items[i], bound),
        Val::Ref(idx) => idx < bound,
    }
}

/// Every value of the sequence fits an arena of `bound` cells.
pub open spec fn vals_wf(s: Seq<Val>, bound: nat) -> bool {
    forall|i: int| 0 <= i < s.len() ==> val_wf(#[trigger] s[i], bound)
}

/// A value that fits an arena keeps fitting when the arena grows.
pub proof fn lemma_val_wf_mono(v: Val, bound: nat, larger: nat)
    requires
        val_wf(v, bound),
        bound <= larger,
    ensures
        val_wf(v, larger),
    decreases v,
{
    match v {
        Val::List(items) => {
            assert forall|i: int| 0 <= i < items.len() implies val_wf(#[trigger] items[i], larger) by {
                lemma_val_wf_mono(items[i], bound, larger);
            }
        },
        _ => {},
    }
}

/// An owned copy of a byte string.
pub fn clone_bytes(s: &Vec<u8>) -> (r: Vec<u8>)
    ensures
        r@ == s@,
{
    let mut name: Vec<u8> = Vec::new();
    let mut i: usize = 0;
    while i < s.len()
        invariant
            i <= s.len(),
            name@ == s@.subrange(0, i as int),
        decreases s.len() - i,
    {
        name.push(s[i]);
        i = i + 1;
        proof {
            assert(name@ =~= s@.subrange(0, i as int));
        }
    }
    proof {
        assert(name@ =~= s@);
    }
    name
}

/// Whether every `Ref` inside the value points below `bound`.  An
/// expression fresh from the parser fits any arena: it holds no `Ref` at
/// all.
#[verifier::loop_isolation(false)]
pub fn expr_fits(e: &SExpr, bound: usize) -> (r: bool)
    ensures
        r == val_wf(e@, bound as nat),
    decreases e,
{
    match e {
        SExpr::Atom(_) => true,
        SExpr::Ref(idx) => *idx < bound,
        SExpr::List(items) => {
            let mut i: usize = 0;
            while i < items.len()
                invariant
                    i <= items.len(),
                    forall|j: int|
                        0 <= j < i ==> val_wf(#[trigger] views_of_seq(items@)[j], bound as nat),
                    *e == SExpr::List(*items),
                decreases items.len() - i,
            {
                proof {
                    assert(decreases_to!(*e => *items));
                    assert(decreases_to!(*items => items@));
                    assert(decreases_to!(items@ => items@[i as int]));
                }
                if !expr_fits(&items[i], bound) {
                    proof {
                        assert(e@ == Val::List(views_of_seq(items@)));
                        assert(!val_wf(views_of_seq(items@)[i as int], bound as nat));
                        assert(!val_wf(e@, bound as nat)) by {
                            if val_wf(e@, bound as nat) {
                                let s2 = e@->List_0;
                                assert(s2 == views_of_seq(items@));
                                assert(val_wf(s2[i as int], bound as nat));
                            }
                        }
                    }
                    return false;
                }
                i = i + 1;
            }
            proof {
                assert(e@ == Val::List(views_of_seq(items@)));
                assert(forall|j: int|
                    0 <= j < views_of_seq(items@).len() ==> val_wf(
                        #[trigger] views_of_seq(items@)[j],
                        bound as nat,
                    ));
                assert(val_wf(e@, bound as nat));
            }
            true
        },
    }
}

/// An exact structural copy of a whole sequence of expressions.
pub fn clone_exprs(items: &Vec<SExpr>) -> (r: Vec<SExpr>)
    ensures
        r@.len() == items@.len(),
        views_of_seq(r@) == views_of_seq(items@),
{
    let mut copy: Vec<SExpr> = Vec::new();
    let mut i: usize = 0;
    while i < items.len()
        invariant
            i <= items.len(),
            copy@.len() == i,
            forall|j: int| 0 <= j < i ==> copy@[j]@ == items@[j]@,
        decreases items.len() - i,
    {
        let c = clone_sexpr(&items[i]);
        copy.push(c);
        i = i + 1;
    }
    proof {
        assert(views_of_seq(copy@) =~= views_of_seq(items@));
    }
    copy
}

/// Whether two byte strings hold the same bytes.
pub fn bytes_eq(a: &Vec<u8>, b: &Vec<u8>) -> (r: bool)
    ensures
        r == (a@ == b@),
{
    let r = *a == *b;
    proof {
        assert(<Vec<u8> as vstd::std_specs::cmp::PartialEqSpec>::obeys_eq_spec());
        if r {
            assert(a.eq_spec(b));
            assert forall|i: int| 0 <= i < a@.len() implies a@[i] == b@[i] by {
                assert(a[i].eq_spec(&b[i]));
            }
            assert(a@ =~= b@);
        } else {
            if a@ == b@ {
                assert(a.eq_spec(b));
            }
        }
    }
    r
}

/// An exact structural copy; an expression tree is shared data, so the
/// evaluator duplicates nodes instead of borrowing them out of the arena.
#[verifier::loop_isolation(false)]
pub fn clone_sexpr(e: &SExpr) -> (r: SExpr)
    ensures
        r@ == e@,
    decreases e,
{
    match e {
        SExpr::Atom(Atom::Number(n)) => SExpr::Atom(Atom::Number(*n)),
        SExpr::Atom(Atom::Symbol(s)) => SExpr::Atom(Atom::Symbol(clone_bytes(s))),
        SExpr::List(items) => {
            let mut copy: Vec<SExpr> = Vec::new();
            let mut i: usize = 0;
            while i < items.len()
                invariant
                    i <= items.len(),
                    copy@.len() == i,
                    forall|j: int| 0 <= j < i ==> copy@[j]@ == items@[j]@,
                    *e == SExpr::List(*items),
                decreases items.len() - i,
            {
                proof {
                    assert(decreases_to!(*e => *items));
                    assert(decreases_to!(*items => items@));
                    assert(decreases_to!(items@ => items@[i as int]));
                }
                let c = clone_sexpr(&items[i]);
                copy.push(c);
                i = i + 1;
            }
            let r = SExpr::List(copy);
            proof {
                assert(views_of_seq(copy@) =~= views_of_seq(items@));
            }
            r
        },
        SExpr::Ref(idx) => SExpr::Ref(*idx),
    }
}

} // verus!
