//! The mathematical model of types and of the unification store.
use vstd::prelude::*;

use super::tvar::{TVar, TVarKind};
use crate::common::spec_decimal;

verus! {

/// A type as a mathematical value.
pub enum Ty {
    Unknown,
    UVar(nat),
    NumericUVar(nat),
    Var(TVar),
    NamedVar(TVar, Seq<char>),
    Tuple(Seq<Ty>),
    Array(nat, Box<Ty>),
    Fun(Seq<Ty>, Box<Ty>),
    Ptr(Box<Ty>),
    MutPtr(Box<Ty>),
    TypeApp(TVar, Seq<char>, Seq<Ty>),
}

/// What the store holds for one unification variable.
pub enum Entry {
    /// Not yet known; the number is the variable's printed id.
    Unresolved(nat),
    /// The same variable as the given unresolved one.
    Link(nat),
    /// Known to be the given type.
    Resolved(Ty),
}

/// Every unification variable that occurs in `t` satisfies `p`.
pub open spec fn all_uvars(t: Ty, p: spec_fn(nat) -> bool) -> bool
    decreases t,
{
    match t {
        Ty::UVar(i) => p(i),
        Ty::NumericUVar(i) => p(i),
        Ty::Tuple(ts) => forall|k: int| 0 <= k < ts.len() ==> all_uvars(#[trigger] ts[k], p),
        Ty::Array(_, b) => all_uvars(*b, p),
        Ty::Fun(ts, r) => all_uvars(*r, p) && forall|k: int|
            0 <= k < ts.len() ==> all_uvars(#[trigger] ts[k], p),
        Ty::Ptr(b) => all_uvars(*b, p),
        Ty::MutPtr(b) => all_uvars(*b, p),
        Ty::TypeApp(_, _, ts) => forall|k: int| 0 <= k < ts.len() ==> all_uvars(#[trigger] ts[k], p),
        _ => true,
    }
}

/// The unification variable `k` occurs in `t`.
pub open spec fn occurs(k: nat, t: Ty) -> bool {
    !all_uvars(t, pred_ne(k))
}

pub open spec fn pred_ne(k: nat) -> spec_fn(nat) -> bool {
    |i: nat| i != k
}

pub open spec fn pred_below(n: nat) -> spec_fn(nat) -> bool {
    |i: nat| i < n
}

pub open spec fn pred_unres(m: Seq<Entry>) -> spec_fn(nat) -> bool {
    |i: nat| is_unres(m, i)
}

/// The number of nodes of a type.
pub open spec fn size(t: Ty) -> nat
    decreases t,
{
    match t {
        Ty::Tuple(ts) => 1 + size_seq(ts),
        Ty::Array(_, b) => 1 + size(*b),
        Ty::Fun(ts, r) => 1 + size_seq(ts) + size(*r),
        Ty::Ptr(b) => 1 + size(*b),
        Ty::MutPtr(b) => 1 + size(*b),
        Ty::TypeApp(_, _, ts) => 1 + size_seq(ts),
        _ => 1,
    }
}

pub open spec fn size_seq(ts: Seq<Ty>) -> nat
    decreases ts,
{
    if ts.len() == 0 {
        0
    } else {
        size(ts[0]) + size_seq(ts.drop_first())
    }
}

/// The type of `t` with the unification variable `k` replaced as the entry `e` says:
/// renamed for a link, replaced for a resolution.
pub open spec fn subst(t: Ty, k: nat, e: Entry) -> Ty
    decreases t,
{
    match t {
        Ty::UVar(i) => if i == k {
            match e {
                Entry::Link(j) => Ty::UVar(j),
                Entry::Resolved(r) => r,
                Entry::Unresolved(_) => t,
            }
        } else {
            t
        },
        Ty::NumericUVar(i) => if i == k {
            match e {
                Entry::Link(j) => Ty::NumericUVar(j),
                Entry::Resolved(r) => r,
                Entry::Unresolved(_) => t,
            }
        } else {
            t
        },
        Ty::Tuple(ts) => Ty::Tuple(
            Seq::new(ts.len(), |j: int| if 0 <= j < ts.len() { subst(ts[j], k, e) } else { Ty::Unknown }),
        ),
        Ty::Array(n, b) => Ty::Array(n, Box::new(subst(*b, k, e))),
        Ty::Fun(ts, r) => Ty::Fun(
            Seq::new(ts.len(), |j: int| if 0 <= j < ts.len() { subst(ts[j], k, e) } else { Ty::Unknown }),
            Box::new(subst(*r, k, e)),
        ),
        Ty::Ptr(b) => Ty::Ptr(Box::new(subst(*b, k, e))),
        Ty::MutPtr(b) => Ty::MutPtr(Box::new(subst(*b, k, e))),
        Ty::TypeApp(v, n, ts) => Ty::TypeApp(
            v,
            n,
            Seq::new(ts.len(), |j: int| if 0 <= j < ts.len() { subst(ts[j], k, e) } else { Ty::Unknown }),
        ),
        _ => t,
    }
}

/// The variable `i` is known to the store and still unresolved.
pub open spec fn is_unres(m: Seq<Entry>, i: nat) -> bool {
    i < m.len() && m[i as int] is Unresolved
}

/// Every unification variable of `t` is known to the store.
pub open spec fn in_range(m: Seq<Entry>, t: Ty) -> bool {
    all_uvars(t, pred_below(m.len()))
}

/// Every unification variable of `t` is unresolved in the store.
pub open spec fn clean(m: Seq<Entry>, t: Ty) -> bool {
    all_uvars(t, pred_unres(m))
}

pub open spec fn entry_ok(m: Seq<Entry>, e: Entry) -> bool {
    match e {
        Entry::Unresolved(_) => true,
        Entry::Link(j) => is_unres(m, j),
        Entry::Resolved(r) => clean(m, r),
    }
}

/// Well-formed store: links and resolutions only mention unresolved variables.
pub open spec fn store_wf(m: Seq<Entry>) -> bool {
    forall|i: int| 0 <= i < m.len() ==> entry_ok(m, #[trigger] m[i])
}

/// The type that stands for `t` at its top node once the store is taken into account.
pub open spec fn top(m: Seq<Entry>, t: Ty) -> Ty {
    match t {
        Ty::UVar(i) => if i < m.len() {
            match m[i as int] {
                Entry::Unresolved(_) => t,
                Entry::Link(j) => Ty::UVar(j),
                Entry::Resolved(r) => r,
            }
        } else {
            t
        },
        Ty::NumericUVar(i) => if i < m.len() {
            match m[i as int] {
                Entry::Unresolved(_) => t,
                Entry::Link(j) => Ty::NumericUVar(j),
                Entry::Resolved(r) => r,
            }
        } else {
            t
        },
        _ => t,
    }
}

/// The type `t` with every unification variable replaced by what the store knows of it.
pub open spec fn zonk(m: Seq<Entry>, t: Ty) -> Ty
    decreases t,
{
    match t {
        Ty::UVar(_) => top(m, t),
        Ty::NumericUVar(_) => top(m, t),
        Ty::Tuple(ts) => Ty::Tuple(
            Seq::new(ts.len(), |j: int| if 0 <= j < ts.len() { zonk(m, ts[j]) } else { Ty::Unknown }),
        ),
        Ty::Array(n, b) => Ty::Array(n, Box::new(zonk(m, *b))),
        Ty::Fun(ts, r) => Ty::Fun(
            Seq::new(ts.len(), |j: int| if 0 <= j < ts.len() { zonk(m, ts[j]) } else { Ty::Unknown }),
            Box::new(zonk(m, *r)),
        ),
        Ty::Ptr(b) => Ty::Ptr(Box::new(zonk(m, *b))),
        Ty::MutPtr(b) => Ty::MutPtr(Box::new(zonk(m, *b))),
        Ty::TypeApp(v, n, ts) => Ty::TypeApp(
            v,
            n,
            Seq::new(ts.len(), |j: int| if 0 <= j < ts.len() { zonk(m, ts[j]) } else { Ty::Unknown }),
        ),
        _ => t,
    }
}

/// The size of a type once the store is taken into account.
pub open spec fn zsize(m: Seq<Entry>, t: Ty) -> nat {
    size(zonk(m, t))
}

/// The number of unresolved variables of the store.
pub open spec fn count_unres(m: Seq<Entry>) -> nat
    decreases m.len(),
{
    if m.len() == 0 {
        0
    } else {
        count_unres(m.drop_last()) + if m.last() is Unresolved {
            1nat
        } else {
            0nat
        }
    }
}

/// The store after variable `k` became `e`, with every mention of `k` updated.
pub open spec fn update(m: Seq<Entry>, k: nat, e: Entry) -> Seq<Entry> {
    Seq::new(
        m.len(),
        |i: int|
            if i == k {
                e
            } else {
                match m[i] {
                    Entry::Unresolved(x) => Entry::Unresolved(x),
                    Entry::Link(j) => if j == k {
                        e
                    } else {
                        Entry::Link(j)
                    },
                    Entry::Resolved(r) => Entry::Resolved(subst(r, k, e)),
                }
            },
    )
}

/// `e` is an admissible new value for the unresolved variable `k`.
pub open spec fn update_ok(m: Seq<Entry>, k: nat, e: Entry) -> bool {
    &&& store_wf(m)
    &&& is_unres(m, k)
    &&& match e {
        Entry::Unresolved(_) => false,
        Entry::Link(j) => is_unres(m, j) && j != k,
        Entry::Resolved(r) => clean(m, r) && !occurs(k, r),
    }
}

/// The type variable of `t` is the never type.
pub open spec fn is_never(t: Ty) -> bool {
    match t {
        Ty::Var(v) => v.id == 0,
        Ty::NamedVar(v, _) => v.id == 0,
        _ => false,
    }
}

/// A value of type `a` may be used where `e` is expected: the never type goes anywhere,
/// a mutable pointer goes where a pointer is expected, and otherwise the types agree.
pub open spec fn coerces(e: Ty, a: Ty) -> bool
    decreases e,
{
    is_never(a) || e == a || match (e, a) {
        (Ty::Tuple(xs), Ty::Tuple(ys)) => xs.len() == ys.len() && forall|k: int|
            0 <= k < xs.len() ==> coerces(#[trigger] xs[k], ys[k]),
        (Ty::Array(n1, x), Ty::Array(n2, y)) => n1 == n2 && coerces(*x, *y),
        (Ty::Fun(xs, r1), Ty::Fun(ys, r2)) => xs.len() == ys.len() && coerces(*r1, *r2) && forall|k: int|
            0 <= k < xs.len() ==> coerces(#[trigger] xs[k], ys[k]),
        (Ty::Ptr(x), Ty::Ptr(y)) => coerces(*x, *y),
        (Ty::Ptr(x), Ty::MutPtr(y)) => coerces(*x, *y),
        (Ty::MutPtr(x), Ty::MutPtr(y)) => coerces(*x, *y),
        (Ty::TypeApp(v1, _, xs), Ty::TypeApp(v2, _, ys)) => v1 == v2 && xs.len() == ys.len()
            && forall|k: int| 0 <= k < xs.len() ==> coerces(#[trigger] xs[k], ys[k]),
        (Ty::NamedVar(v1, _), Ty::NamedVar(v2, _)) => v1 == v2,
        _ => false,
    }
}

/// The later store keeps every agreement of the earlier one.
pub open spec fn preserves(m1: Seq<Entry>, m2: Seq<Entry>) -> bool {
    &&& m1.len() == m2.len()
    &&& forall|a: Ty, b: Ty|
        #![trigger zonk(m1, a), zonk(m1, b), zonk(m2, a), zonk(m2, b)]
        in_range(m1, a) && in_range(m1, b) && zonk(m1, a) == zonk(m1, b) ==> zonk(m2, a) == zonk(m2, b)
    &&& forall|a: Ty, b: Ty|
        #![trigger coerces(zonk(m2, a), zonk(m2, b))]
        in_range(m1, a) && in_range(m1, b) && coerces(zonk(m1, a), zonk(m1, b)) ==> coerces(
            zonk(m2, a),
            zonk(m2, b),
        )
}

// ==== Lemmas ==================================================================

pub proof fn lemma_all_uvars_mono(t: Ty, p: spec_fn(nat) -> bool, q: spec_fn(nat) -> bool)
    requires
        all_uvars(t, p),
        forall|i: nat| #[trigger] p(i) ==> q(i),
    ensures
        all_uvars(t, q),
    decreases t,
{
    match t {
        Ty::Tuple(ts) => {
            assert forall|k: int| 0 <= k < ts.len() implies all_uvars(#[trigger] ts[k], q) by {
                lemma_all_uvars_mono(ts[k], p, q);
            }
        },
        Ty::Array(_, b) => lemma_all_uvars_mono(*b, p, q),
        Ty::Fun(ts, r) => {
            lemma_all_uvars_mono(*r, p, q);
            assert forall|k: int| 0 <= k < ts.len() implies all_uvars(#[trigger] ts[k], q) by {
                lemma_all_uvars_mono(ts[k], p, q);
            }
        },
        Ty::Ptr(b) => lemma_all_uvars_mono(*b, p, q),
        Ty::MutPtr(b) => lemma_all_uvars_mono(*b, p, q),
        Ty::TypeApp(_, _, ts) => {
            assert forall|k: int| 0 <= k < ts.len() implies all_uvars(#[trigger] ts[k], q) by {
                lemma_all_uvars_mono(ts[k], p, q);
            }
        },
        _ => {},
    }
}

pub proof fn lemma_size_seq(ts: Seq<Ty>, k: int)
    requires
        0 <= k < ts.len(),
    ensures
        size(ts[k]) <= size_seq(ts),
    decreases ts.len(),
{
    if k > 0 {
        lemma_size_seq(ts.drop_first(), k - 1);
        assert(ts.drop_first()[k - 1] == ts[k]);
    }
}

/// A clean type is left as it is by the store.
pub proof fn lemma_zonk_clean(m: Seq<Entry>, t: Ty)
    requires
        clean(m, t),
    ensures
        zonk(m, t) == t,
    decreases t,
{
    match t {
        Ty::Tuple(ts) => {
            let zs = zonk(m, t)->Tuple_0;
            assert forall|k: int| 0 <= k < ts.len() implies zs[k] == ts[k] by {
                lemma_zonk_clean(m, ts[k]);
            }
            assert(zs =~= ts);
        },
        Ty::Array(_, b) => lemma_zonk_clean(m, *b),
        Ty::Fun(ts, r) => {
            lemma_zonk_clean(m, *r);
            let zs = zonk(m, t)->Fun_0;
            assert forall|k: int| 0 <= k < ts.len() implies zs[k] == ts[k] by {
                lemma_zonk_clean(m, ts[k]);
            }
            assert(zs =~= ts);
        },
        Ty::Ptr(b) => lemma_zonk_clean(m, *b),
        Ty::MutPtr(b) => lemma_zonk_clean(m, *b),
        Ty::TypeApp(_, _, ts) => {
            let zs = zonk(m, t)->TypeApp_2;
            assert forall|k: int| 0 <= k < ts.len() implies zs[k] == ts[k] by {
                lemma_zonk_clean(m, ts[k]);
            }
            assert(zs =~= ts);
        },
        _ => {},
    }
}

/// What the store makes of a type is clean.
pub proof fn lemma_zonk_is_clean(m: Seq<Entry>, t: Ty)
    requires
        store_wf(m),
        in_range(m, t),
    ensures
        clean(m, zonk(m, t)),
    decreases t,
{
    match t {
        Ty::UVar(i) => {
            assert(entry_ok(m, m[i as int]));
        },
        Ty::NumericUVar(i) => {
            assert(entry_ok(m, m[i as int]));
        },
        Ty::Tuple(ts) => {
            let zs = zonk(m, t)->Tuple_0;
            assert forall|k: int| 0 <= k < zs.len() implies clean(m, #[trigger] zs[k]) by {
                assert(in_range(m, ts[k]));
                lemma_zonk_is_clean(m, ts[k]);
            }
        },
        Ty::Array(_, b) => lemma_zonk_is_clean(m, *b),
        Ty::Fun(ts, r) => {
            lemma_zonk_is_clean(m, *r);
            let zs = zonk(m, t)->Fun_0;
            assert forall|k: int| 0 <= k < zs.len() implies clean(m, #[trigger] zs[k]) by {
                assert(in_range(m, ts[k]));
                lemma_zonk_is_clean(m, ts[k]);
            }
        },
        Ty::Ptr(b) => lemma_zonk_is_clean(m, *b),
        Ty::MutPtr(b) => lemma_zonk_is_clean(m, *b),
        Ty::TypeApp(_, _, ts) => {
            let zs = zonk(m, t)->TypeApp_2;
            assert forall|k: int| 0 <= k < zs.len() implies clean(m, #[trigger] zs[k]) by {
                assert(in_range(m, ts[k]));
                lemma_zonk_is_clean(m, ts[k]);
            }
        },
        _ => {},
    }
}

/// A clean type mentions only variables of the store.
pub proof fn lemma_clean_in_range(m: Seq<Entry>, t: Ty)
    requires
        clean(m, t),
    ensures
        in_range(m, t),
{
    lemma_all_uvars_mono(t, pred_unres(m), pred_below(m.len()));
}

/// The top node of a type stands for the same type.
pub proof fn lemma_top(m: Seq<Entry>, t: Ty)
    requires
        store_wf(m),
        in_range(m, t),
    ensures
        zonk(m, top(m, t)) == zonk(m, t),
        in_range(m, top(m, t)),
        top(m, t) matches Ty::UVar(i) ==> is_unres(m, i),
        top(m, t) matches Ty::NumericUVar(i) ==> is_unres(m, i),
        !(t is UVar || t is NumericUVar) ==> top(m, t) == t,
        (t is UVar || t is NumericUVar) ==> clean(m, top(m, t)),
{
    match t {
        Ty::UVar(i) => {
            assert(entry_ok(m, m[i as int]));
            match m[i as int] {
                Entry::Resolved(r) => {
                    lemma_zonk_clean(m, r);
                    lemma_clean_in_range(m, r);
                },
                _ => {},
            }
        },
        Ty::NumericUVar(i) => {
            assert(entry_ok(m, m[i as int]));
            match m[i as int] {
                Entry::Resolved(r) => {
                    lemma_zonk_clean(m, r);
                    lemma_clean_in_range(m, r);
                },
                _ => {},
            }
        },
        _ => {},
    }
}


pub proof fn lemma_all_uvars_and(
    t: Ty,
    p: spec_fn(nat) -> bool,
    q: spec_fn(nat) -> bool,
    r: spec_fn(nat) -> bool,
)
    requires
        all_uvars(t, p),
        all_uvars(t, q),
        forall|i: nat| #[trigger] r(i) <== p(i) && q(i),
    ensures
        all_uvars(t, r),
    decreases t,
{
    match t {
        Ty::Tuple(ts) => {
            assert forall|k: int| 0 <= k < ts.len() implies all_uvars(#[trigger] ts[k], r) by {
                lemma_all_uvars_and(ts[k], p, q, r);
            }
        },
        Ty::Array(_, b) => lemma_all_uvars_and(*b, p, q, r),
        Ty::Fun(ts, x) => {
            lemma_all_uvars_and(*x, p, q, r);
            assert forall|k: int| 0 <= k < ts.len() implies all_uvars(#[trigger] ts[k], r) by {
                lemma_all_uvars_and(ts[k], p, q, r);
            }
        },
        Ty::Ptr(b) => lemma_all_uvars_and(*b, p, q, r),
        Ty::MutPtr(b) => lemma_all_uvars_and(*b, p, q, r),
        Ty::TypeApp(_, _, ts) => {
            assert forall|k: int| 0 <= k < ts.len() implies all_uvars(#[trigger] ts[k], r) by {
                lemma_all_uvars_and(ts[k], p, q, r);
            }
        },
        _ => {},
    }
}

/// What a substitution leaves of the variables of a type.
pub proof fn lemma_subst_uvars(t: Ty, k: nat, e: Entry, p: spec_fn(nat) -> bool)
    requires
        all_uvars(t, |i: nat| i == k || p(i)),
        e matches Entry::Link(j) ==> p(j),
        e matches Entry::Resolved(r) ==> all_uvars(r, p),
        !(e is Unresolved),
    ensures
        all_uvars(subst(t, k, e), p),
    decreases t,
{
    match t {
        Ty::Tuple(ts) => {
            let zs = subst(t, k, e)->Tuple_0;
            assert forall|j: int| 0 <= j < zs.len() implies all_uvars(#[trigger] zs[j], p) by {
                lemma_subst_uvars(ts[j], k, e, p);
            }
        },
        Ty::Array(_, b) => lemma_subst_uvars(*b, k, e, p),
        Ty::Fun(ts, r) => {
            lemma_subst_uvars(*r, k, e, p);
            let zs = subst(t, k, e)->Fun_0;
            assert forall|j: int| 0 <= j < zs.len() implies all_uvars(#[trigger] zs[j], p) by {
                lemma_subst_uvars(ts[j], k, e, p);
            }
        },
        Ty::Ptr(b) => lemma_subst_uvars(*b, k, e, p),
        Ty::MutPtr(b) => lemma_subst_uvars(*b, k, e, p),
        Ty::TypeApp(_, _, ts) => {
            let zs = subst(t, k, e)->TypeApp_2;
            assert forall|j: int| 0 <= j < zs.len() implies all_uvars(#[trigger] zs[j], p) by {
                lemma_subst_uvars(ts[j], k, e, p);
            }
        },
        _ => {},
    }
}

/// Changing one unresolved variable leaves what the store makes of a type changed
/// by exactly that substitution.
pub proof fn lemma_zonk_update(m: Seq<Entry>, k: nat, e: Entry, t: Ty)
    requires
        update_ok(m, k, e),
        in_range(m, t),
    ensures
        zonk(update(m, k, e), t) == subst(zonk(m, t), k, e),
    decreases t,
{
    let m2 = update(m, k, e);
    match t {
        Ty::UVar(i) => {
            assert(entry_ok(m, m[i as int]));
        },
        Ty::NumericUVar(i) => {
            assert(entry_ok(m, m[i as int]));
        },
        Ty::Tuple(ts) => {
            let a = zonk(m2, t)->Tuple_0;
            let b = subst(zonk(m, t), k, e)->Tuple_0;
            assert forall|j: int| 0 <= j < ts.len() implies a[j] == b[j] by {
                lemma_zonk_update(m, k, e, ts[j]);
            }
            assert(a =~= b);
        },
        Ty::Array(_, x) => lemma_zonk_update(m, k, e, *x),
        Ty::Fun(ts, r) => {
            lemma_zonk_update(m, k, e, *r);
            let a = zonk(m2, t)->Fun_0;
            let b = subst(zonk(m, t), k, e)->Fun_0;
            assert forall|j: int| 0 <= j < ts.len() implies a[j] == b[j] by {
                lemma_zonk_update(m, k, e, ts[j]);
            }
            assert(a =~= b);
        },
        Ty::Ptr(x) => lemma_zonk_update(m, k, e, *x),
        Ty::MutPtr(x) => lemma_zonk_update(m, k, e, *x),
        Ty::TypeApp(_, _, ts) => {
            let a = zonk(m2, t)->TypeApp_2;
            let b = subst(zonk(m, t), k, e)->TypeApp_2;
            assert forall|j: int| 0 <= j < ts.len() implies a[j] == b[j] by {
                lemma_zonk_update(m, k, e, ts[j]);
            }
            assert(a =~= b);
        },
        _ => {},
    }
}

proof fn lemma_clean_after_update(m: Seq<Entry>, k: nat, e: Entry, r: Ty)
    requires
        update_ok(m, k, e),
        clean(m, r),
        !occurs(k, r),
    ensures
        clean(update(m, k, e), r),
{
    let m2 = update(m, k, e);
    lemma_all_uvars_and(r, pred_unres(m), pred_ne(k), pred_unres(m2));
}

/// An admissible change keeps the store well-formed.
pub proof fn lemma_update_wf(m: Seq<Entry>, k: nat, e: Entry)
    requires
        update_ok(m, k, e),
    ensures
        store_wf(update(m, k, e)),
{
    let m2 = update(m, k, e);
    let pe = pred_unres(m2);
    assert(entry_ok(m2, e)) by {
        if let Entry::Resolved(r) = e {
            lemma_clean_after_update(m, k, e, r);
        }
    }
    assert forall|i: int| 0 <= i < m2.len() implies entry_ok(m2, #[trigger] m2[i]) by {
        assert(entry_ok(m, m[i]));
        if i != k {
            match m[i] {
                Entry::Resolved(r) => {
                    lemma_all_uvars_mono(r, pred_unres(m), |x: nat| x == k || pe(x));
                    if let Entry::Resolved(r2) = e {
                        assert(clean(m2, r2));
                    }
                    lemma_subst_uvars(r, k, e, pe);
                },
                _ => {},
            }
        }
    }
}

proof fn lemma_count_same(m1: Seq<Entry>, m2: Seq<Entry>)
    requires
        m1.len() == m2.len(),
        forall|i: int| 0 <= i < m1.len() ==> (#[trigger] m1[i] is Unresolved) == (m2[i] is Unresolved),
    ensures
        count_unres(m1) == count_unres(m2),
    decreases m1.len(),
{
    if m1.len() > 0 {
        assert forall|i: int| 0 <= i < m1.drop_last().len() implies (#[trigger] m1.drop_last()[i] is Unresolved)
            == (m2.drop_last()[i] is Unresolved) by {
            assert(m1[i] is Unresolved == m2[i] is Unresolved);
        }
        lemma_count_same(m1.drop_last(), m2.drop_last());
        assert(m1.last() is Unresolved == m2.last() is Unresolved) by {
            assert(m1[m1.len() - 1] is Unresolved == m2[m1.len() - 1] is Unresolved);
        }
    }
}

proof fn lemma_count_one_less(m1: Seq<Entry>, m2: Seq<Entry>, k: int)
    requires
        m1.len() == m2.len(),
        0 <= k < m1.len(),
        m1[k] is Unresolved,
        !(m2[k] is Unresolved),
        forall|i: int| 0 <= i < m1.len() && i != k ==> (#[trigger] m1[i] is Unresolved) == (m2[i] is Unresolved),
    ensures
        count_unres(m2) + 1 == count_unres(m1),
    decreases m1.len(),
{
    let a = m1.drop_last();
    let b = m2.drop_last();
    if k == m1.len() - 1 {
        assert forall|i: int| 0 <= i < a.len() implies (#[trigger] a[i] is Unresolved) == (b[i] is Unresolved) by {
            assert(m1[i] is Unresolved == m2[i] is Unresolved);
        }
        lemma_count_same(a, b);
    } else {
        assert forall|i: int| 0 <= i < a.len() && i != k implies (#[trigger] a[i] is Unresolved) == (b[i] is Unresolved) by {
            assert(m1[i] is Unresolved == m2[i] is Unresolved);
        }
        assert(a[k] == m1[k]);
        assert(b[k] == m2[k]);
        lemma_count_one_less(a, b, k);
        assert(m1.last() is Unresolved == m2.last() is Unresolved) by {
            assert(m1[m1.len() - 1] is Unresolved == m2[m1.len() - 1] is Unresolved);
        }
    }
}

/// An admissible change resolves exactly one more variable.
pub proof fn lemma_update_count(m: Seq<Entry>, k: nat, e: Entry)
    requires
        update_ok(m, k, e),
    ensures
        count_unres(update(m, k, e)) + 1 == count_unres(m),
{
    let m2 = update(m, k, e);
    assert forall|i: int| 0 <= i < m.len() && i != k implies (#[trigger] m[i] is Unresolved) == (m2[i] is Unresolved) by {
        assert(entry_ok(m, m[i]));
    }
    lemma_count_one_less(m, m2, k as int);
}

/// The coercion relation survives any substitution.
pub proof fn lemma_coerces_subst(a: Ty, b: Ty, k: nat, e: Entry)
    requires
        coerces(a, b),
    ensures
        coerces(subst(a, k, e), subst(b, k, e)),
    decreases a,
{
    if is_never(b) || a == b {
    } else {
        match (a, b) {
            (Ty::Tuple(xs), Ty::Tuple(ys)) => {
                let sx = subst(a, k, e)->Tuple_0;
                let sy = subst(b, k, e)->Tuple_0;
                assert forall|j: int| 0 <= j < sx.len() implies coerces(#[trigger] sx[j], sy[j]) by {
                    lemma_coerces_subst(xs[j], ys[j], k, e);
                }
            },
            (Ty::Array(_, x), Ty::Array(_, y)) => lemma_coerces_subst(*x, *y, k, e),
            (Ty::Fun(xs, r1), Ty::Fun(ys, r2)) => {
                lemma_coerces_subst(*r1, *r2, k, e);
                let sx = subst(a, k, e)->Fun_0;
                let sy = subst(b, k, e)->Fun_0;
                assert forall|j: int| 0 <= j < sx.len() implies coerces(#[trigger] sx[j], sy[j]) by {
                    lemma_coerces_subst(xs[j], ys[j], k, e);
                }
            },
            (Ty::Ptr(x), Ty::Ptr(y)) => lemma_coerces_subst(*x, *y, k, e),
            (Ty::Ptr(x), Ty::MutPtr(y)) => lemma_coerces_subst(*x, *y, k, e),
            (Ty::MutPtr(x), Ty::MutPtr(y)) => lemma_coerces_subst(*x, *y, k, e),
            (Ty::TypeApp(_, _, xs), Ty::TypeApp(_, _, ys)) => {
                let sx = subst(a, k, e)->TypeApp_2;
                let sy = subst(b, k, e)->TypeApp_2;
                assert forall|j: int| 0 <= j < sx.len() implies coerces(#[trigger] sx[j], sy[j]) by {
                    lemma_coerces_subst(xs[j], ys[j], k, e);
                }
            },
            _ => {},
        }
    }
}

/// An admissible change keeps every agreement of the store.
pub proof fn lemma_update_preserves(m: Seq<Entry>, k: nat, e: Entry)
    requires
        update_ok(m, k, e),
    ensures
        preserves(m, update(m, k, e)),
{
    let m2 = update(m, k, e);
    assert forall|a: Ty, b: Ty|
        in_range(m, a) && in_range(m, b) && coerces(zonk(m, a), zonk(m, b)) implies coerces(
            #[trigger] zonk(m2, a),
            #[trigger] zonk(m2, b),
        ) by {
        lemma_zonk_update(m, k, e, a);
        lemma_zonk_update(m, k, e, b);
        lemma_coerces_subst(zonk(m, a), zonk(m, b), k, e);
    }
    assert forall|a: Ty, b: Ty|
        in_range(m, a) && in_range(m, b) && zonk(m, a) == zonk(m, b) implies #[trigger] zonk(m2, a) == #[trigger] zonk(m2, b) by {
        lemma_zonk_update(m, k, e, a);
        lemma_zonk_update(m, k, e, b);
    }
}

pub proof fn lemma_preserves_refl(m: Seq<Entry>)
    ensures
        preserves(m, m),
{
}

pub proof fn lemma_preserves_trans(m1: Seq<Entry>, m2: Seq<Entry>, m3: Seq<Entry>)
    requires
        preserves(m1, m2),
        preserves(m2, m3),
    ensures
        preserves(m1, m3),
{
    assert forall|a: Ty, b: Ty|
        in_range(m1, a) && in_range(m1, b) && coerces(zonk(m1, a), zonk(m1, b)) implies coerces(
            #[trigger] zonk(m3, a),
            #[trigger] zonk(m3, b),
        ) by {
        assert(coerces(zonk(m2, a), zonk(m2, b)));
    }
    assert forall|a: Ty, b: Ty|
        in_range(m1, a) && in_range(m1, b) && zonk(m1, a) == zonk(m1, b) implies #[trigger] zonk(m3, a) == #[trigger] zonk(m3, b) by {
        assert(zonk(m2, a) == zonk(m2, b));
    }
}


/// The types of a sequence as the store makes them.
pub open spec fn zonk_seq(m: Seq<Entry>, ts: Seq<Ty>) -> Seq<Ty> {
    Seq::new(ts.len(), |j: int| if 0 <= j < ts.len() { zonk(m, ts[j]) } else { Ty::Unknown })
}

pub open spec fn zsize_seq(m: Seq<Entry>, ts: Seq<Ty>) -> nat {
    size_seq(zonk_seq(m, ts))
}

/// A store that only grew keeps what it made of every type it knew.
pub proof fn lemma_zonk_extend(m: Seq<Entry>, x: Entry, t: Ty)
    requires
        in_range(m, t),
    ensures
        zonk(m.push(x), t) == zonk(m, t),
    decreases t,
{
    let m2 = m.push(x);
    match t {
        Ty::UVar(i) => {
            assert(m2[i as int] == m[i as int]);
        },
        Ty::NumericUVar(i) => {
            assert(m2[i as int] == m[i as int]);
        },
        Ty::Tuple(ts) => {
            assert forall|j: int| 0 <= j < ts.len() implies zonk(m2, ts[j]) == zonk(m, ts[j]) by {
                lemma_zonk_extend(m, x, ts[j]);
            }
            assert(zonk(m2, t)->Tuple_0 =~= zonk(m, t)->Tuple_0);
        },
        Ty::Array(_, b) => lemma_zonk_extend(m, x, *b),
        Ty::Fun(ts, r) => {
            lemma_zonk_extend(m, x, *r);
            assert forall|j: int| 0 <= j < ts.len() implies zonk(m2, ts[j]) == zonk(m, ts[j]) by {
                lemma_zonk_extend(m, x, ts[j]);
            }
            assert(zonk(m2, t)->Fun_0 =~= zonk(m, t)->Fun_0);
        },
        Ty::Ptr(b) => lemma_zonk_extend(m, x, *b),
        Ty::MutPtr(b) => lemma_zonk_extend(m, x, *b),
        Ty::TypeApp(_, _, ts) => {
            assert forall|j: int| 0 <= j < ts.len() implies zonk(m2, ts[j]) == zonk(m, ts[j]) by {
                lemma_zonk_extend(m, x, ts[j]);
            }
            assert(zonk(m2, t)->TypeApp_2 =~= zonk(m, t)->TypeApp_2);
        },
        _ => {},
    }
}

/// Adding an unresolved variable keeps the store well-formed.
pub proof fn lemma_push_wf(m: Seq<Entry>, id: nat)
    requires
        store_wf(m),
    ensures
        store_wf(m.push(Entry::Unresolved(id))),
{
    let m2 = m.push(Entry::Unresolved(id));
    assert forall|i: int| 0 <= i < m2.len() implies entry_ok(m2, #[trigger] m2[i]) by {
        if i < m.len() {
            assert(entry_ok(m, m[i]));
            if let Entry::Resolved(r) = m[i] {
                lemma_all_uvars_mono(r, pred_unres(m), pred_unres(m2));
            }
        }
    }
}

/// A substitution of a variable that does not occur changes nothing.
pub proof fn lemma_subst_absent(t: Ty, k: nat, e: Entry)
    requires
        !occurs(k, t),
    ensures
        subst(t, k, e) == t,
    decreases t,
{
    match t {
        Ty::Tuple(ts) => {
            assert forall|j: int| 0 <= j < ts.len() implies subst(ts[j], k, e) == ts[j] by {
                assert(all_uvars(ts[j], pred_ne(k)));
                lemma_subst_absent(ts[j], k, e);
            }
            assert(subst(t, k, e)->Tuple_0 =~= ts);
        },
        Ty::Array(_, b) => lemma_subst_absent(*b, k, e),
        Ty::Fun(ts, r) => {
            lemma_subst_absent(*r, k, e);
            assert forall|j: int| 0 <= j < ts.len() implies subst(ts[j], k, e) == ts[j] by {
                assert(all_uvars(ts[j], pred_ne(k)));
                lemma_subst_absent(ts[j], k, e);
            }
            assert(subst(t, k, e)->Fun_0 =~= ts);
        },
        Ty::Ptr(b) => lemma_subst_absent(*b, k, e),
        Ty::MutPtr(b) => lemma_subst_absent(*b, k, e),
        Ty::TypeApp(_, _, ts) => {
            assert forall|j: int| 0 <= j < ts.len() implies subst(ts[j], k, e) == ts[j] by {
                assert(all_uvars(ts[j], pred_ne(k)));
                lemma_subst_absent(ts[j], k, e);
            }
            assert(subst(t, k, e)->TypeApp_2 =~= ts);
        },
        _ => {},
    }
}


/// The top nodes of two types are such that unification may succeed on them.
pub open spec fn heads_agree(e: Ty, a: Ty) -> bool {
    is_never(a) || match (e, a) {
        (Ty::NamedVar(v1, _), Ty::NamedVar(v2, _)) => v1 == v2,
        (Ty::Var(v1), Ty::Var(v2)) => v1 == v2,
        (Ty::NumericUVar(_), Ty::NumericUVar(_)) => true,
        (Ty::UVar(_), _) => true,
        (_, Ty::UVar(_)) => true,
        (Ty::TypeApp(v1, _, xs), Ty::TypeApp(v2, _, ys)) => v1 == v2 && xs.len() == ys.len(),
        (Ty::Array(n1, _), Ty::Array(n2, _)) => n1 == n2,
        (Ty::Tuple(xs), Ty::Tuple(ys)) => xs.len() == ys.len(),
        (Ty::NumericUVar(_), Ty::Var(v)) => 2 < v.id < 32,
        (Ty::NumericUVar(_), Ty::NamedVar(v, _)) => 2 < v.id < 32,
        (Ty::Var(v), Ty::NumericUVar(_)) => 2 < v.id < 32,
        (Ty::NamedVar(v, _), Ty::NumericUVar(_)) => 2 < v.id < 32,
        (Ty::Ptr(_), Ty::Ptr(_)) => true,
        (Ty::Ptr(_), Ty::MutPtr(_)) => true,
        (Ty::MutPtr(_), Ty::MutPtr(_)) => true,
        (Ty::Fun(xs, _), Ty::Fun(ys, _)) => xs.len() == ys.len(),
        _ => false,
    }
}


/// The heads on which unification succeeds at once: the never type goes anywhere, a type
/// variable matches itself, and two unification variables of one kind are joined.
pub open spec fn heads_match(e: Ty, a: Ty) -> bool {
    is_never(a) || match (e, a) {
        (Ty::NamedVar(v1, _), Ty::NamedVar(v2, _)) => v1 == v2,
        (Ty::Var(v1), Ty::Var(v2)) => v1 == v2,
        (Ty::NumericUVar(_), Ty::NumericUVar(_)) => true,
        (Ty::UVar(_), Ty::UVar(_)) => true,
        _ => false,
    }
}

/// Adding variables to a store does not change how it looks through a type it knew.
pub proof fn lemma_top_prefix(m0: Seq<Entry>, m1: Seq<Entry>, t: Ty)
    requires
        m0.len() <= m1.len(),
        m1.subrange(0, m0.len() as int) == m0,
        in_range(m0, t),
    ensures
        top(m1, t) == top(m0, t),
{
    match t {
        Ty::UVar(i) => {
            assert(m1[i as int] == m1.subrange(0, m0.len() as int)[i as int]);
        },
        Ty::NumericUVar(i) => {
            assert(m1[i as int] == m1.subrange(0, m0.len() as int)[i as int]);
        },
        _ => {},
    }
}

/// A numeric unification variable occurs in `t`.
pub open spec fn has_numeric(t: Ty) -> bool
    decreases t,
{
    match t {
        Ty::NumericUVar(_) => true,
        Ty::Tuple(ts) => exists|k: int| 0 <= k < ts.len() && has_numeric(#[trigger] ts[k]),
        Ty::Array(_, b) => has_numeric(*b),
        Ty::Fun(ts, r) => has_numeric(*r) || exists|k: int| 0 <= k < ts.len() && has_numeric(#[trigger] ts[k]),
        Ty::Ptr(b) => has_numeric(*b),
        Ty::MutPtr(b) => has_numeric(*b),
        Ty::TypeApp(_, _, ts) => exists|k: int| 0 <= k < ts.len() && has_numeric(#[trigger] ts[k]),
        _ => false,
    }
}

/// A numeric unification variable meets a numeric type variable, on either side.
pub open spec fn numeric_meets(e: Ty, a: Ty) -> bool {
    match (e, a) {
        (Ty::NumericUVar(_), Ty::Var(v)) => 2 < v.id < 32,
        (Ty::NumericUVar(_), Ty::NamedVar(v, _)) => 2 < v.id < 32,
        (Ty::Var(v), Ty::NumericUVar(_)) => 2 < v.id < 32,
        (Ty::NamedVar(v, _), Ty::NumericUVar(_)) => 2 < v.id < 32,
        _ => false,
    }
}

/// A type with nothing left to infer: no unification variable and no unknown part.
pub open spec fn is_rigid(t: Ty) -> bool
    decreases t,
{
    match t {
        Ty::Unknown => false,
        Ty::UVar(_) => false,
        Ty::NumericUVar(_) => false,
        Ty::Var(_) => true,
        Ty::NamedVar(_, _) => true,
        Ty::Tuple(ts) => forall|k: int| 0 <= k < ts.len() ==> is_rigid(#[trigger] ts[k]),
        Ty::Array(_, b) => is_rigid(*b),
        Ty::Fun(ts, r) => is_rigid(*r) && forall|k: int| 0 <= k < ts.len() ==> is_rigid(#[trigger] ts[k]),
        Ty::Ptr(b) => is_rigid(*b),
        Ty::MutPtr(b) => is_rigid(*b),
        Ty::TypeApp(_, _, ts) => forall|k: int| 0 <= k < ts.len() ==> is_rigid(#[trigger] ts[k]),
    }
}

/// The type the first binding of `v` in `s` gives, if any.
pub open spec fn lookup_tvar(s: Seq<(TVar, Ty)>, v: TVar) -> Option<Ty>
    decreases s.len(),
{
    if s.len() == 0 {
        None
    } else if s[0].0 == v {
        Some(s[0].1)
    } else {
        lookup_tvar(s.drop_first(), v)
    }
}

/// The type with its type variables replaced as `s` says.
pub open spec fn tsubst(t: Ty, s: Seq<(TVar, Ty)>) -> Ty
    decreases t,
{
    match t {
        Ty::Var(v) => match lookup_tvar(s, v) {
            Some(r) => r,
            None => t,
        },
        Ty::NamedVar(v, _) => match lookup_tvar(s, v) {
            Some(r) => r,
            None => t,
        },
        Ty::Tuple(ts) => Ty::Tuple(
            Seq::new(ts.len(), |j: int| if 0 <= j < ts.len() { tsubst(ts[j], s) } else { Ty::Unknown }),
        ),
        Ty::Array(n, b) => Ty::Array(n, Box::new(tsubst(*b, s))),
        Ty::Fun(ts, r) => Ty::Fun(
            Seq::new(ts.len(), |j: int| if 0 <= j < ts.len() { tsubst(ts[j], s) } else { Ty::Unknown }),
            Box::new(tsubst(*r, s)),
        ),
        Ty::Ptr(b) => Ty::Ptr(Box::new(tsubst(*b, s))),
        Ty::MutPtr(b) => Ty::MutPtr(Box::new(tsubst(*b, s))),
        Ty::TypeApp(v, n, ts) => Ty::TypeApp(
            v,
            n,
            Seq::new(ts.len(), |j: int| if 0 <= j < ts.len() { tsubst(ts[j], s) } else { Ty::Unknown }),
        ),
        _ => t,
    }
}

/// No variable satisfies it.
pub open spec fn pred_none() -> spec_fn(nat) -> bool {
    |i: nat| false
}

/// The size of values of `t` depends on the size of values of `v`: pointers break
/// the dependency, and type parameters are left out.
pub open spec fn in_deps(t: Ty, v: TVar) -> bool
    decreases t,
{
    match t {
        Ty::Var(w) => w == v && !(w.kind is Parameter),
        Ty::NamedVar(w, _) => w == v && !(w.kind is Parameter),
        Ty::TypeApp(w, _, _) => w == v && !(w.kind is Parameter),
        Ty::Tuple(ts) => exists|k: int| 0 <= k < ts.len() && in_deps(#[trigger] ts[k], v),
        Ty::Array(_, b) => in_deps(*b, v),
        _ => false,
    }
}

/// The printed id of an unresolved variable.
pub open spec fn uvar_id(m: Seq<Entry>, i: nat) -> nat {
    if i < m.len() {
        match m[i as int] {
            Entry::Unresolved(id) => id,
            _ => 0,
        }
    } else {
        0
    }
}

/// How a type is printed.
pub open spec fn show(m: Seq<Entry>, t: Ty) -> Seq<char>
    decreases t,
{
    match t {
        Ty::Var(v) => "T#"@ + spec_decimal(v.id as nat),
        Ty::NamedVar(_, n) => n,
        Ty::Fun(ts, r) => "fn("@ + show_list(m, ts) + ") -> "@ + show(m, *r),
        Ty::UVar(i) => "U?#"@ + spec_decimal(uvar_id(m, i)),
        Ty::Ptr(b) => "*"@ + show(m, *b),
        Ty::MutPtr(b) => "*mut "@ + show(m, *b),
        Ty::Unknown => "{unknown}"@,
        Ty::NumericUVar(i) => "NU?#"@ + spec_decimal(uvar_id(m, i)),
        Ty::Tuple(ts) => "("@ + show_list(m, ts) + ")"@,
        Ty::Array(n, b) => "["@ + spec_decimal(n) + "]"@ + show(m, *b),
        Ty::TypeApp(_, n, ts) => n + "<"@ + show_list(m, ts) + ">"@,
    }
}

/// How a list of types is printed: separated by commas.
pub open spec fn show_list(m: Seq<Entry>, ts: Seq<Ty>) -> Seq<char>
    decreases ts,
{
    if ts.len() == 0 {
        seq![]
    } else if ts.len() == 1 {
        show(m, ts[0])
    } else {
        show_list(m, ts.drop_last()) + ", "@ + show(m, ts.last())
    }
}

/// A later store keeps what an earlier one knew: it may have more variables, and what
/// it makes of the types the earlier one knew agrees with it, equalities and coercions kept.
pub open spec fn refines(m1: Seq<Entry>, m2: Seq<Entry>) -> bool {
    &&& m1.len() <= m2.len()
    &&& forall|a: Ty, b: Ty|
        #![trigger zonk(m2, a), zonk(m2, b)]
        in_range(m1, a) && in_range(m1, b) && zonk(m1, a) == zonk(m1, b) ==> zonk(m2, a) == zonk(m2, b)
    &&& forall|a: Ty, b: Ty|
        #![trigger coerces(zonk(m2, a), zonk(m2, b))]
        in_range(m1, a) && in_range(m1, b) && coerces(zonk(m1, a), zonk(m1, b)) ==> coerces(zonk(m2, a), zonk(m2, b))
}

pub proof fn lemma_refines_refl(m: Seq<Entry>)
    ensures
        refines(m, m),
{
}

pub proof fn lemma_refines_trans(m1: Seq<Entry>, m2: Seq<Entry>, m3: Seq<Entry>)
    requires
        refines(m1, m2),
        refines(m2, m3),
    ensures
        refines(m1, m3),
{
    assert forall|a: Ty, b: Ty|
        in_range(m1, a) && in_range(m1, b) && coerces(zonk(m1, a), zonk(m1, b)) implies coerces(
            #[trigger] zonk(m3, a),
            #[trigger] zonk(m3, b),
        ) by {
        lemma_in_range_mono(m1, m2, a);
        lemma_in_range_mono(m1, m2, b);
        assert(coerces(zonk(m2, a), zonk(m2, b)));
    }
    assert forall|a: Ty, b: Ty|
        in_range(m1, a) && in_range(m1, b) && zonk(m1, a) == zonk(m1, b) implies #[trigger] zonk(m3, a) == #[trigger] zonk(m3, b) by {
        lemma_in_range_mono(m1, m2, a);
        lemma_in_range_mono(m1, m2, b);
        assert(zonk(m2, a) == zonk(m2, b));
    }
}

/// A type known to a store is known to a larger one.
pub proof fn lemma_in_range_mono(m1: Seq<Entry>, m2: Seq<Entry>, t: Ty)
    requires
        in_range(m1, t),
        m1.len() <= m2.len(),
    ensures
        in_range(m2, t),
{
    lemma_all_uvars_mono(t, pred_below(m1.len()), pred_below(m2.len()));
}

pub proof fn lemma_preserves_refines(m1: Seq<Entry>, m2: Seq<Entry>)
    requires
        preserves(m1, m2),
    ensures
        refines(m1, m2),
{
}

/// A store that only grew refines the one it grew from.
pub proof fn lemma_extend_refines(m1: Seq<Entry>, m2: Seq<Entry>)
    requires
        m1.len() <= m2.len(),
        forall|t: Ty| in_range(m1, t) ==> #[trigger] zonk(m2, t) == zonk(m1, t),
    ensures
        refines(m1, m2),
{
}

pub broadcast proof fn lemma_refines_refl_auto(m: Seq<Entry>)
    ensures
        #[trigger] refines(m, m),
{
}

pub broadcast proof fn lemma_refines_trans_auto(m1: Seq<Entry>, m2: Seq<Entry>, m3: Seq<Entry>)
    requires
        #[trigger] refines(m1, m2),
        #[trigger] refines(m2, m3),
    ensures
        refines(m1, m3),
{
    lemma_refines_trans(m1, m2, m3);
}

pub proof fn lemma_lookup_in_range(m: Seq<Entry>, s: Seq<(TVar, Ty)>, v: TVar)
    requires
        forall|i: int| 0 <= i < s.len() ==> in_range(m, (#[trigger] s[i]).1),
    ensures
        lookup_tvar(s, v) matches Some(r) ==> in_range(m, r),
    decreases s.len(),
{
    if s.len() > 0 && s[0].0 != v {
        assert forall|i: int| 0 <= i < s.drop_first().len() implies in_range(m, (#[trigger] s.drop_first()[i]).1) by {
            assert(s.drop_first()[i] == s[i + 1]);
        }
        lemma_lookup_in_range(m, s.drop_first(), v);
    }
}

/// Replacing type variables by types known to the store keeps a type known to it.
pub proof fn lemma_tsubst_in_range(m: Seq<Entry>, t: Ty, s: Seq<(TVar, Ty)>)
    requires
        in_range(m, t),
        forall|i: int| 0 <= i < s.len() ==> in_range(m, (#[trigger] s[i]).1),
    ensures
        in_range(m, tsubst(t, s)),
    decreases t,
{
    match t {
        Ty::Var(v) => lemma_lookup_in_range(m, s, v),
        Ty::NamedVar(v, _) => lemma_lookup_in_range(m, s, v),
        Ty::Tuple(ts) => {
            assert forall|k: int| 0 <= k < ts.len() implies all_uvars(#[trigger] tsubst(t, s)->Tuple_0[k], pred_below(m.len())) by {
                lemma_tsubst_in_range(m, ts[k], s);
            }
        },
        Ty::Array(_, b) => lemma_tsubst_in_range(m, *b, s),
        Ty::Fun(ts, r) => {
            lemma_tsubst_in_range(m, *r, s);
            assert forall|k: int| 0 <= k < ts.len() implies all_uvars(#[trigger] tsubst(t, s)->Fun_0[k], pred_below(m.len())) by {
                lemma_tsubst_in_range(m, ts[k], s);
            }
        },
        Ty::Ptr(b) => lemma_tsubst_in_range(m, *b, s),
        Ty::MutPtr(b) => lemma_tsubst_in_range(m, *b, s),
        Ty::TypeApp(_, _, ts) => {
            assert forall|k: int| 0 <= k < ts.len() implies all_uvars(#[trigger] tsubst(t, s)->TypeApp_2[k], pred_below(m.len())) by {
                lemma_tsubst_in_range(m, ts[k], s);
            }
        },
        _ => {},
    }
}

pub proof fn lemma_coerces_refl(t: Ty)
    ensures
        coerces(t, t),
{
}

} // verus!
