//! The state of type checking a function: the types of its local variables, scope by
//! scope, the type it returns, and the unification variables it made.
use vstd::prelude::*;

use crate::common::maps::NameMap;
use crate::common::Position;
use crate::error::context::{spec_reported_after, Context};
use crate::error::diagnostic::spec_labelled_error;
use crate::tp::model::{has_numeric, in_range, is_unres, lemma_in_range_mono, refines, top, zonk, Entry, Ty};
use crate::tp::uvar::{root, UVarStore};
use crate::tp::{Type, TypeView};
use crate::typecheck::error;

verus! {

pub struct Env {
    pub expected_ret: Type,
    pub scopes: Vec<NameMap<(bool, Type)>>,
    pub uvars: Vec<(Type, Position)>,
}

/// What a local name is bound to, in the innermost scope that binds it.
pub open spec fn spec_lookup(scopes: Seq<NameMap<(bool, Type)>>, name: Seq<char>) -> Option<(bool, Type)>
    decreases scopes.len(),
{
    if scopes.len() == 0 {
        None
    } else if scopes.last().has(name) {
        Some(scopes.last().value(name))
    } else {
        spec_lookup(scopes.drop_last(), name)
    }
}

/// Every name bound in `s0` is still bound in `s1`.
pub open spec fn spec_binds_more(s0: Seq<NameMap<(bool, Type)>>, s1: Seq<NameMap<(bool, Type)>>) -> bool {
    forall|n: Seq<char>| #[trigger] spec_lookup(s0, n) is Some ==> spec_lookup(s1, n) is Some
}

/// The names bound in the scopes `s`.
pub open spec fn spec_bound_names(s: Seq<NameMap<(bool, Type)>>) -> Set<Seq<char>> {
    Set::new(|n: Seq<char>| spec_lookup(s, n) is Some)
}

impl Env {
    /// Every type the environment holds is known to the store.
    pub open spec fn in_store(self, m: Seq<Entry>) -> bool {
        &&& in_range(m, self.expected_ret.ty())
        &&& forall|i: int, n: Seq<char>| 0 <= i < self.scopes@.len() && #[trigger] self.scopes@[i].has(n)
            ==> in_range(m, self.scopes@[i].value(n).1.ty())
        &&& forall|i: int| 0 <= i < self.uvars@.len() ==> in_range(m, (#[trigger] self.uvars@[i]).0.ty())
    }

    pub open spec fn wf(self, m: Seq<Entry>) -> bool {
        &&& self.in_store(m)
        &&& self.scopes@.len() > 0
        &&& forall|i: int| 0 <= i < self.scopes@.len() ==> (#[trigger] self.scopes@[i]).keys_unique()
    }

    pub proof fn lemma_wf_mono(self, m1: Seq<Entry>, m2: Seq<Entry>)
        requires
            self.wf(m1),
            m1.len() <= m2.len(),
        ensures
            self.wf(m2),
    {
        lemma_in_range_mono(m1, m2, self.expected_ret.ty());
        assert forall|i: int, n: Seq<char>| 0 <= i < self.scopes@.len() && #[trigger] self.scopes@[i].has(n)
            implies in_range(m2, self.scopes@[i].value(n).1.ty()) by {
            lemma_in_range_mono(m1, m2, self.scopes@[i].value(n).1.ty());
        }
        assert forall|i: int| 0 <= i < self.uvars@.len() implies in_range(m2, (#[trigger] self.uvars@[i]).0.ty()) by {
            lemma_in_range_mono(m1, m2, self.uvars@[i].0.ty());
        }
    }

    /// A function returning `expected_ret` starts with one empty scope.
    pub fn new(expected_ret: Type) -> (res: Self)
        ensures
            res.expected_ret == expected_ret,
            res.scopes@.len() == 1,
            forall|n: Seq<char>| !(#[trigger] res.scopes@[0].has(n)),
            res.uvars@.len() == 0,
            forall|m: Seq<Entry>| in_range(m, expected_ret.ty()) ==> #[trigger] res.wf(m),
    {
        let mut scopes: Vec<NameMap<(bool, Type)>> = Vec::new();
        scopes.push(NameMap::new());
        Env { expected_ret, scopes, uvars: Vec::new() }
    }

    /// A fresh unification variable, remembered so that it can be checked at the end.
    pub fn fresh_uvar(&mut self, store: &mut UVarStore, pos: &Position) -> (res: Type)
        requires
            old(store).wf(),
            old(self).wf(old(store).model()),
        ensures
            final(store).wf(),
            final(self).wf(final(store).model()),
            refines(old(store).model(), final(store).model()),
            res.ty() == Ty::UVar(old(store).model().len()),
            is_unres(final(store).model(), old(store).model().len()),
            in_range(final(store).model(), res.ty()),
            final(self).expected_ret == old(self).expected_ret,
            final(self).scopes@ == old(self).scopes@,
            final(self).uvars@.len() == old(self).uvars@.len() + 1,
            final(self).uvars@.drop_last() == old(self).uvars@,
            final(self).uvars@.last().0.ty() == res.ty(),
            final(self).uvars@.last().1 == *pos,
            final(store).model() == old(store).model().push(
                Entry::Unresolved(crate::tp::uvar::spec_uvar_id(old(store).model().len() as usize) as nat),
            ),
    {
        let ghost m = store.model();
        let tp = Type::fresh_uvar(store);
        proof {
            crate::tp::model::lemma_extend_refines(m, store.model());
            self.lemma_wf_mono(m, store.model());
        }
        self.uvars.push((tp.clone(), pos.clone()));
        tp
    }

    /// A fresh unification variable standing for a number.
    pub fn numeric_uvar(&mut self, store: &mut UVarStore, pos: &Position) -> (res: Type)
        requires
            old(store).wf(),
            old(self).wf(old(store).model()),
        ensures
            final(store).wf(),
            final(self).wf(final(store).model()),
            refines(old(store).model(), final(store).model()),
            res.ty() == Ty::NumericUVar(old(store).model().len()),
            in_range(final(store).model(), res.ty()),
            is_unres(final(store).model(), old(store).model().len()),
            final(store).model().len() == old(store).model().len() + 1,
            final(store).model().subrange(0, old(store).model().len() as int) == old(store).model(),
            final(self).expected_ret == old(self).expected_ret,
            final(self).scopes@ == old(self).scopes@,
    {
        let ghost m = store.model();
        let tp = Type::numeric_uvar(store);
        proof {
            crate::tp::model::lemma_extend_refines(m, store.model());
            self.lemma_wf_mono(m, store.model());
        }
        self.uvars.push((tp.clone(), pos.clone()));
        tp
    }

    /// Binds a local variable in the innermost scope.
    pub fn add_var(&mut self, name: String, is_mut: bool, tp: Type, m: Ghost<Seq<Entry>>)
        requires
            old(self).wf(m@),
            in_range(m@, tp.ty()),
        ensures
            final(self).wf(m@),
            final(self).expected_ret == old(self).expected_ret,
            final(self).scopes@.len() == old(self).scopes@.len(),
            final(self).scopes@.drop_last() == old(self).scopes@.drop_last(),
            spec_lookup(final(self).scopes@, name@) == Some((is_mut, tp)),
            spec_binds_more(old(self).scopes@, final(self).scopes@),
    {
        let ghost nm = name@;
        let mut scope = self.scopes.pop().unwrap();
        let ghost old_scope = scope;
        let _ = scope.insert(name, (is_mut, tp));
        self.scopes.push(scope);
        proof {
            assert(self.scopes@.drop_last() =~= old(self).scopes@.drop_last());
            let k = self.scopes@.len() - 1;
            assert forall|i: int, n: Seq<char>| 0 <= i < self.scopes@.len() && #[trigger] self.scopes@[i].has(n)
                implies in_range(m@, self.scopes@[i].value(n).1.ty()) by {
                if i < k {
                    assert(self.scopes@[i] == old(self).scopes@[i]);
                } else if n != nm {
                    assert(old(self).scopes@[k].has(n));
                }
            }
            assert forall|n: Seq<char>| #[trigger] spec_lookup(old(self).scopes@, n) is Some implies spec_lookup(
                self.scopes@,
                n,
            ) is Some by {
                if n != nm && !old(self).scopes@.last().has(n) {
                    assert(!self.scopes@.last().has(n));
                }
            }
        }
    }

    /// What a local name is bound to: whether it is mutable, and its type.
    pub fn lookup(&self, name: &str) -> (res: Option<(bool, &Type)>)
        requires
            forall|i: int| 0 <= i < self.scopes@.len() ==> (#[trigger] self.scopes@[i]).keys_unique(),
        ensures
            match spec_lookup(self.scopes@, name@) {
                Some((b, t)) => res == Some((b, &t)),
                None => res is None,
            },
    {
        let n = self.scopes.len();
        let mut i = n;
        assert(self.scopes@.subrange(0, n as int) =~= self.scopes@);
        while i > 0
            invariant
                n == self.scopes@.len(),
                i <= n,
                forall|k: int| 0 <= k < self.scopes@.len() ==> (#[trigger] self.scopes@[k]).keys_unique(),
                spec_lookup(self.scopes@, name@) == spec_lookup(self.scopes@.subrange(0, i as int), name@),
            decreases i,
        {
            let ghost pre = self.scopes@.subrange(0, i as int);
            assert(pre.last() == self.scopes@[i - 1]);
            assert(pre.drop_last() =~= self.scopes@.subrange(0, i - 1));
            match self.scopes[i - 1].index_of(name) {
                Some(j) => {
                    proof {
                        self.scopes@[i - 1].lemma_value(j as int);
                    }
                    let entry = &self.scopes[i - 1].entries[j].1;
                    return Some((entry.0, &entry.1));
                },
                None => {},
            }
            i = i - 1;
        }
        None
    }

    pub fn new_scope(&mut self, m: Ghost<Seq<Entry>>)
        requires
            old(self).wf(m@),
        ensures
            final(self).wf(m@),
            final(self).expected_ret == old(self).expected_ret,
            final(self).scopes@.len() == old(self).scopes@.len() + 1,
            final(self).scopes@.drop_last() == old(self).scopes@,
            forall|n: Seq<char>| !(#[trigger] final(self).scopes@.last().has(n)),
            final(self).uvars@ == old(self).uvars@,
    {
        self.scopes.push(NameMap::new());
        assert(self.scopes@.drop_last() =~= old(self).scopes@);
    }

    /// Closes the innermost scope; the first scope of a function is never closed.
    pub fn leave_scope(&mut self, m: Ghost<Seq<Entry>>)
        requires
            old(self).wf(m@),
            old(self).scopes@.len() > 1,
        ensures
            final(self).wf(m@),
            final(self).expected_ret == old(self).expected_ret,
            final(self).scopes@ == old(self).scopes@.drop_last(),
            final(self).uvars@ == old(self).uvars@,
    {
        let _ = self.scopes.pop();
    }

    /// Checks that every unification variable made for the function was determined.
    pub fn finish(self, ctx: &mut Context, store: &mut UVarStore)
        requires
            old(store).wf(),
            self.wf(old(store).model()),
        ensures
            final(store).wf(),
            refines(old(store).model(), final(store).model()),
            spec_reported_after(*old(ctx), *final(ctx)),
            (forall|i: int| 0 <= i < self.uvars@.len() ==> !has_numeric(zonk(old(store).model(), #[trigger] self.uvars@[i].0.ty())))
                ==> final(store).model() == old(store).model() && forall|i: int|
                0 <= i < self.uvars@.len() && (zonk(old(store).model(), #[trigger] self.uvars@[i].0.ty()) is UVar) ==> exists|j: int|
                    old(ctx).diagnostics@.len() <= j < final(ctx).diagnostics@.len() && spec_labelled_error(
                        #[trigger] final(ctx).diagnostics@[j],
                        self.uvars@[i].1,
                        "cannot infer type, please annotate"@,
                    ),
    {
        let ghost m0 = store.model();
        proof {
            crate::tp::model::lemma_refines_refl(m0);
            crate::error::context::lemma_reported_refl(*ctx);
        }
        let n = self.uvars.len();
        let mut i: usize = 0;
        while i < n
            invariant
                n == self.uvars@.len(),
                i <= n,
                store.wf(),
                store.model().len() == m0.len(),
                refines(m0, store.model()),
                self.wf(m0),
                spec_reported_after(*old(ctx), *ctx),
                (forall|x: int| 0 <= x < self.uvars@.len() ==> !has_numeric(zonk(m0, #[trigger] self.uvars@[x].0.ty())))
                    ==> store.model() == m0 && forall|x: int|
                    0 <= x < i && (zonk(m0, #[trigger] self.uvars@[x].0.ty()) is UVar) ==> exists|j: int|
                        old(ctx).diagnostics@.len() <= j < ctx.diagnostics@.len() && spec_labelled_error(
                            #[trigger] ctx.diagnostics@[j],
                            self.uvars@[x].1,
                            "cannot infer type, please annotate"@,
                        ),
            decreases n - i,
        {
            let ghost m1 = store.model();
            let ghost c1 = *ctx;
            proof {
                lemma_in_range_mono(m0, m1, self.uvars@[i as int].0.ty());
            }
            check_resolved(ctx, store, &self.uvars[i].0, &self.uvars[i].1);
            proof {
                if forall|x: int| 0 <= x < self.uvars@.len() ==> !has_numeric(zonk(m0, #[trigger] self.uvars@[x].0.ty())) {
                    assert(!has_numeric(zonk(m0, self.uvars@[i as int].0.ty())));
                    assert forall|x: int|
                        0 <= x < i + 1 && (zonk(m0, #[trigger] self.uvars@[x].0.ty()) is UVar) implies exists|j: int|
                        old(ctx).diagnostics@.len() <= j < ctx.diagnostics@.len() && spec_labelled_error(
                            #[trigger] ctx.diagnostics@[j],
                            self.uvars@[x].1,
                            "cannot infer type, please annotate"@,
                        ) by {
                        if x < i {
                            let j = choose|j: int|
                                old(ctx).diagnostics@.len() <= j < c1.diagnostics@.len() && spec_labelled_error(
                                    #[trigger] c1.diagnostics@[j],
                                    self.uvars@[x].1,
                                    "cannot infer type, please annotate"@,
                                );
                            assert(ctx.diagnostics@[j] == c1.diagnostics@[j]);
                        } else {
                            let j = ctx.diagnostics@.len() - 1;
                            assert(ctx.diagnostics@[j] == ctx.diagnostics@.last());
                        }
                    }
                }
                crate::tp::model::lemma_refines_trans(m0, m1, store.model());
                crate::error::context::lemma_reported_trans(*old(ctx), c1, *ctx);
            }
            i = i + 1;
        }
    }

    pub fn expected_ret(&self) -> (res: Type)
        ensures
            res.ty() == self.expected_ret.ty(),
    {
        self.expected_ret.clone()
    }
}

/// Reports a unification variable that nothing determined, and makes a number whose type
/// nothing determined an `i32`; the type is walked as the store made it.
pub fn check_resolved(ctx: &mut Context, store: &mut UVarStore, tp: &Type, pos: &Position)
    requires
        old(store).wf(),
        in_range(old(store).model(), tp.ty()),
    ensures
        final(store).wf(),
        refines(old(store).model(), final(store).model()),
        final(store).model().len() == old(store).model().len(),
        spec_reported_after(*old(ctx), *final(ctx)),
        !has_numeric(zonk(old(store).model(), tp.ty())) ==> final(store).model() == old(store).model(),
        zonk(old(store).model(), tp.ty()) is UVar ==> final(ctx).diagnostics@ == old(ctx).diagnostics@.push(
            final(ctx).diagnostics@.last(),
        ) && spec_labelled_error(final(ctx).diagnostics@.last(), *pos, "cannot infer type, please annotate"@),
{
    let z = tp.zonk_with(store);
    proof {
        crate::tp::model::lemma_zonk_is_clean(store.model(), tp.ty());
        crate::tp::model::lemma_clean_in_range(store.model(), zonk(store.model(), tp.ty()));
    }
    walk_resolved(ctx, store, &z, pos);
}

fn walk_resolved(ctx: &mut Context, store: &mut UVarStore, tp: &Type, pos: &Position)
    requires
        old(store).wf(),
        in_range(old(store).model(), tp.ty()),
    ensures
        final(store).wf(),
        refines(old(store).model(), final(store).model()),
        final(store).model().len() == old(store).model().len(),
        spec_reported_after(*old(ctx), *final(ctx)),
        !has_numeric(tp.ty()) && crate::tp::model::clean(old(store).model(), tp.ty()) ==> final(store).model()
            == old(store).model(),
        tp.ty() is UVar && top(old(store).model(), tp.ty()) is UVar ==> final(ctx).diagnostics@ == old(ctx).diagnostics@.push(
            final(ctx).diagnostics@.last(),
        ) && spec_labelled_error(final(ctx).diagnostics@.last(), *pos, "cannot infer type, please annotate"@),
    decreases tp,
{
    let ghost m0 = store.model();
    proof {
        crate::tp::model::lemma_refines_refl(m0);
        crate::error::context::lemma_reported_refl(*ctx);
    }
    match &tp.0 {
        TypeView::UVar(_) | TypeView::NumericUVar(_) => {
            proof {
                crate::tp::lemma_view_measure(m0, tp.ty());
            }
            let v = tp.view(store);
            match v {
                TypeView::UVar(_) => {
                    ctx.report(error::cannot_infer_type(pos));
                },
                TypeView::NumericUVar(u) => {
                    let i32_tp = Type::builtin("i32");
                    proof {
                        reveal_strlit("i32");
                        assert(store.model()[u.idx as int] is Unresolved);
                        assert(!crate::tp::model::occurs(u.idx as nat, zonk(store.model(), i32_tp.ty())));
                    }
                    u.resolve(store, &i32_tp);
                    proof {
                        crate::tp::model::lemma_preserves_refines(m0, store.model());
                    }
                },
                _ => {},
            }
        },
        TypeView::Tuple(items) => {
            assert forall|k: int| 0 <= k < items@.len() implies in_range(m0, (#[trigger] items@[k]).ty()) by {
                assert(tp.ty()->Tuple_0[k] == items@[k].ty());
            }
            proof {
                if !has_numeric(tp.ty()) && crate::tp::model::clean(m0, tp.ty()) {
                    assert forall|k: int| 0 <= k < items@.len() implies !has_numeric(#[trigger] items@[k].ty())
                        && crate::tp::model::clean(m0, items@[k].ty()) by {
                        assert(tp.ty()->Tuple_0[k] == items@[k].ty());
                    }
                }
            }
            walk_all(ctx, store, items, tp, pos);
        },
        TypeView::TypeApp(_, _, items) => {
            assert forall|k: int| 0 <= k < items@.len() implies in_range(m0, (#[trigger] items@[k]).ty()) by {
                assert(tp.ty()->TypeApp_2[k] == items@[k].ty());
            }
            proof {
                if !has_numeric(tp.ty()) && crate::tp::model::clean(m0, tp.ty()) {
                    assert forall|k: int| 0 <= k < items@.len() implies !has_numeric(#[trigger] items@[k].ty())
                        && crate::tp::model::clean(m0, items@[k].ty()) by {
                        assert(tp.ty()->TypeApp_2[k] == items@[k].ty());
                    }
                }
            }
            walk_all(ctx, store, items, tp, pos);
        },
        TypeView::Fun(items, ret) => {
            assert forall|k: int| 0 <= k < items@.len() implies in_range(m0, (#[trigger] items@[k]).ty()) by {
                assert(tp.ty()->Fun_0[k] == items@[k].ty());
            }
            proof {
                if !has_numeric(tp.ty()) && crate::tp::model::clean(m0, tp.ty()) {
                    assert forall|k: int| 0 <= k < items@.len() implies !has_numeric(#[trigger] items@[k].ty())
                        && crate::tp::model::clean(m0, items@[k].ty()) by {
                        assert(tp.ty()->Fun_0[k] == items@[k].ty());
                    }
                }
            }
            walk_all(ctx, store, items, tp, pos);
            let ghost m1 = store.model();
            let ghost c1 = *ctx;
            walk_resolved(ctx, store, ret, pos);
            proof {
                crate::tp::model::lemma_refines_trans(m0, m1, store.model());
                crate::error::context::lemma_reported_trans(*old(ctx), c1, *ctx);
            }
        },
        TypeView::Array(_, b) | TypeView::Ptr(b) | TypeView::MutPtr(b) => {
            walk_resolved(ctx, store, b, pos);
        },
        _ => {},
    }
}

fn walk_all(ctx: &mut Context, store: &mut UVarStore, items: &Vec<Type>, parent: &Type, pos: &Position)
    requires
        old(store).wf(),
        decreases_to!(*parent => *items),
        forall|k: int| 0 <= k < items@.len() ==> in_range(old(store).model(), (#[trigger] items@[k]).ty()),
    ensures
        final(store).wf(),
        refines(old(store).model(), final(store).model()),
        final(store).model().len() == old(store).model().len(),
        spec_reported_after(*old(ctx), *final(ctx)),
        (forall|k: int|
            0 <= k < items@.len() ==> !has_numeric(#[trigger] items@[k].ty()) && crate::tp::model::clean(
                old(store).model(),
                items@[k].ty(),
            )) ==> final(store).model() == old(store).model(),
    decreases *parent, 0nat,
{
    let ghost m0 = store.model();
    proof {
        crate::tp::model::lemma_refines_refl(m0);
        crate::error::context::lemma_reported_refl(*ctx);
    }
    let n = items.len();
    let mut i: usize = 0;
    while i < n
        invariant
            n == items@.len(),
            i <= n,
            store.wf(),
            store.model().len() == m0.len(),
            refines(m0, store.model()),
            decreases_to!(*parent => *items),
            forall|k: int| 0 <= k < items@.len() ==> in_range(m0, (#[trigger] items@[k]).ty()),
            spec_reported_after(*old(ctx), *ctx),
            (forall|k: int|
                0 <= k < items@.len() ==> !has_numeric(#[trigger] items@[k].ty()) && crate::tp::model::clean(
                    m0,
                    items@[k].ty(),
                )) ==> store.model() == m0,
        decreases n - i,
    {
        assert(decreases_to!(*items => items@[i as int])) by {
            assert(decreases_to!(*items => items@));
        }
        let ghost m1 = store.model();
        let ghost c1 = *ctx;
        proof {
            crate::tp::model::lemma_in_range_mono(m0, m1, items@[i as int].ty());
        }
        walk_resolved(ctx, store, &items[i], pos);
        proof {
            crate::tp::model::lemma_refines_trans(m0, m1, store.model());
            crate::error::context::lemma_reported_trans(*old(ctx), c1, *ctx);
        }
        i = i + 1;
    }
}

} // verus!
