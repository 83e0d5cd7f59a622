//! Types, unification variables and unification.
use vstd::prelude::*;

pub mod error;
pub mod model;
pub mod tvar;
pub mod uvar;

pub use tvar::{TVar, TVarKind};
pub use uvar::{UVar, UVarData, UVarStore};

use model::{
    coerces, count_unres, heads_agree, heads_match, numeric_meets, is_rigid, in_range, is_never, is_unres, lemma_preserves_trans, lemma_size_seq,
    lemma_top, lemma_zonk_is_clean, occurs, preserves, store_wf, subst, top, zonk, zonk_seq,
    zsize, zsize_seq, Entry, Ty, lookup_tvar, tsubst, in_deps, pred_none, all_uvars, show, show_list,
    uvar_id, lemma_all_uvars_mono, pred_below, pred_ne, update,
};
use crate::common::{spec_decimal, usize_to_string, string_of};
use uvar::root;
use crate::common::node_id::spec_builtin_type_id;
use crate::common::Position;
use crate::error::diagnostic::{spec_labelled_error, Diagnostic};
use error::{spec_type_params_mismatch_msg, type_params_mismatch};

verus! {

/// The abstract type representation.
///
/// Use [Type::view] to see the actual type.
pub struct Type(pub TypeView);

pub enum TypeView {
    Unknown,
    UVar(UVar),
    NumericUVar(UVar),
    Var(TVar),
    NamedVar(TVar, String),
    Tuple(Vec<Type>),
    Array(usize, Box<Type>),
    Fun(Vec<Type>, Box<Type>),
    Ptr(Box<Type>),
    MutPtr(Box<Type>),
    TypeApp(TVar, String, Vec<Type>),
}

/// The types of a sequence of types.
pub open spec fn tys(ts: Seq<Type>) -> Seq<Ty> {
    Seq::new(ts.len(), |j: int| if 0 <= j < ts.len() { ts[j].ty() } else { Ty::Unknown })
}

/// The measure of the children of the top node of a type.
pub proof fn lemma_view_measure(m: Seq<Entry>, t: Ty)
    requires
        store_wf(m),
        in_range(m, t),
    ensures
        in_range(m, top(m, t)),
        match top(m, t) {
            Ty::Tuple(ts) => zsize_seq(m, ts) + 1 == zsize(m, t) && forall|j: int|
                0 <= j < ts.len() ==> in_range(m, #[trigger] ts[j]),
            Ty::TypeApp(_, _, ts) => zsize_seq(m, ts) + 1 == zsize(m, t) && forall|j: int|
                0 <= j < ts.len() ==> in_range(m, #[trigger] ts[j]),
            Ty::Fun(ts, r) => zsize_seq(m, ts) + zsize(m, *r) + 1 == zsize(m, t) && in_range(m, *r)
                && forall|j: int| 0 <= j < ts.len() ==> in_range(m, #[trigger] ts[j]),
            Ty::Array(_, b) => zsize(m, *b) + 1 == zsize(m, t) && in_range(m, *b),
            Ty::Ptr(b) => zsize(m, *b) + 1 == zsize(m, t) && in_range(m, *b),
            Ty::MutPtr(b) => zsize(m, *b) + 1 == zsize(m, t) && in_range(m, *b),
            _ => true,
        },
{
    lemma_top(m, t);
    let x = top(m, t);
    match x {
        Ty::Tuple(ts) => {
            assert(zonk(m, x)->Tuple_0 =~= zonk_seq(m, ts));
        },
        Ty::TypeApp(_, _, ts) => {
            assert(zonk(m, x)->TypeApp_2 =~= zonk_seq(m, ts));
        },
        Ty::Fun(ts, r) => {
            assert(zonk(m, x)->Fun_0 =~= zonk_seq(m, ts));
        },
        _ => {},
    }
}

/// One element of a sequence weighs no more than the whole.
proof fn lemma_elem_measure(m: Seq<Entry>, ts: Seq<Ty>, j: int)
    requires
        0 <= j < ts.len(),
    ensures
        zsize(m, ts[j]) <= zsize_seq(m, ts),
{
    lemma_size_seq(zonk_seq(m, ts), j);
}

impl Type {
    /// The mathematical type this value represents.
    pub open spec fn ty(self) -> Ty
        decreases self,
    {
        match self.0 {
            TypeView::Unknown => Ty::Unknown,
            TypeView::UVar(u) => Ty::UVar(u.idx as nat),
            TypeView::NumericUVar(u) => Ty::NumericUVar(u.idx as nat),
            TypeView::Var(v) => Ty::Var(v),
            TypeView::NamedVar(v, s) => Ty::NamedVar(v, s@),
            TypeView::Tuple(ts) => Ty::Tuple(
                Seq::new(ts@.len(), |j: int| if 0 <= j < ts@.len() { ts@[j].ty() } else { Ty::Unknown }),
            ),
            TypeView::Array(n, b) => Ty::Array(n as nat, Box::new((*b).ty())),
            TypeView::Fun(ts, r) => Ty::Fun(
                Seq::new(ts@.len(), |j: int| if 0 <= j < ts@.len() { ts@[j].ty() } else { Ty::Unknown }),
                Box::new((*r).ty()),
            ),
            TypeView::Ptr(b) => Ty::Ptr(Box::new((*b).ty())),
            TypeView::MutPtr(b) => Ty::MutPtr(Box::new((*b).ty())),
            TypeView::TypeApp(v, s, ts) => Ty::TypeApp(
                v,
                s@,
                Seq::new(ts@.len(), |j: int| if 0 <= j < ts@.len() { ts@[j].ty() } else { Ty::Unknown }),
            ),
        }
    }
}


impl Clone for Type {
    fn clone(&self) -> (res: Self)
        ensures
            res.ty() == self.ty(),
    {
        self.clone_type()
    }
}

impl Type {
    /// A copy of the type.
    pub fn clone_type(&self) -> (res: Type)
        ensures
            res.ty() == self.ty(),
        decreases self,
    {
        match &self.0 {
            TypeView::Unknown => Type(TypeView::Unknown),
            TypeView::UVar(u) => Type(TypeView::UVar(*u)),
            TypeView::NumericUVar(u) => Type(TypeView::NumericUVar(*u)),
            TypeView::Var(v) => Type(TypeView::Var(*v)),
            TypeView::NamedVar(v, s) => Type(TypeView::NamedVar(*v, s.clone())),
            TypeView::Tuple(ts) => {
                let vs = clone_vec(ts);
                let r = Type(TypeView::Tuple(vs));
                assert(r.ty()->Tuple_0 =~= self.ty()->Tuple_0);
                r
            },
            TypeView::Array(n, b) => Type(TypeView::Array(*n, Box::new((**b).clone_type()))),
            TypeView::Fun(ts, b) => {
                let vs = clone_vec(ts);
                let r = Type(TypeView::Fun(vs, Box::new((**b).clone_type())));
                assert(r.ty()->Fun_0 =~= self.ty()->Fun_0);
                r
            },
            TypeView::Ptr(b) => Type(TypeView::Ptr(Box::new((**b).clone_type()))),
            TypeView::MutPtr(b) => Type(TypeView::MutPtr(Box::new((**b).clone_type()))),
            TypeView::TypeApp(v, s, ts) => {
                let vs = clone_vec(ts);
                let r = Type(TypeView::TypeApp(*v, s.clone(), vs));
                assert(r.ty()->TypeApp_2 =~= self.ty()->TypeApp_2);
                r
            },
        }
    }

    /// The type with the unification variable `k` replaced as `e` says.
    pub fn subst_uvar(&self, k: usize, e: &UVarData) -> (res: Type)
        ensures
            res.ty() == subst(self.ty(), k as nat, e.entry()),
        decreases self,
    {
        match &self.0 {
            TypeView::UVar(u) => {
                if u.idx == k {
                    match e {
                        UVarData::Link(j) => Type(TypeView::UVar(*j)),
                        UVarData::Resolved(r) => r.clone_type(),
                        UVarData::Unresolved(_) => self.clone_type(),
                    }
                } else {
                    self.clone_type()
                }
            },
            TypeView::NumericUVar(u) => {
                if u.idx == k {
                    match e {
                        UVarData::Link(j) => Type(TypeView::NumericUVar(*j)),
                        UVarData::Resolved(r) => r.clone_type(),
                        UVarData::Unresolved(_) => self.clone_type(),
                    }
                } else {
                    self.clone_type()
                }
            },
            TypeView::Tuple(ts) => {
                let vs = subst_vec(ts, k, e);
                let r = Type(TypeView::Tuple(vs));
                assert(r.ty()->Tuple_0 =~= subst(self.ty(), k as nat, e.entry())->Tuple_0);
                r
            },
            TypeView::Array(n, b) => Type(TypeView::Array(*n, Box::new((**b).subst_uvar(k, e)))),
            TypeView::Fun(ts, b) => {
                let vs = subst_vec(ts, k, e);
                let r = Type(TypeView::Fun(vs, Box::new((**b).subst_uvar(k, e))));
                assert(r.ty()->Fun_0 =~= subst(self.ty(), k as nat, e.entry())->Fun_0);
                r
            },
            TypeView::Ptr(b) => Type(TypeView::Ptr(Box::new((**b).subst_uvar(k, e)))),
            TypeView::MutPtr(b) => Type(TypeView::MutPtr(Box::new((**b).subst_uvar(k, e)))),
            TypeView::TypeApp(v, s, ts) => {
                let vs = subst_vec(ts, k, e);
                let r = Type(TypeView::TypeApp(*v, s.clone(), vs));
                assert(r.ty()->TypeApp_2 =~= subst(self.ty(), k as nat, e.entry())->TypeApp_2);
                r
            },
            _ => self.clone_type(),
        }
    }

    /// The type with every unification variable replaced by what the store knows of it.
    pub fn zonk_with(&self, store: &UVarStore) -> (res: Type)
        requires
            store.wf(),
            in_range(store.model(), self.ty()),
        ensures
            res.ty() == zonk(store.model(), self.ty()),
        decreases self,
    {
        match &self.0 {
            TypeView::UVar(u) => {
                match &store.data[u.idx] {
                    UVarData::Unresolved(_) => Type(TypeView::UVar(*u)),
                    UVarData::Link(j) => Type(TypeView::UVar(*j)),
                    UVarData::Resolved(r) => r.clone_type(),
                }
            },
            TypeView::NumericUVar(u) => {
                match &store.data[u.idx] {
                    UVarData::Unresolved(_) => Type(TypeView::NumericUVar(*u)),
                    UVarData::Link(j) => Type(TypeView::NumericUVar(*j)),
                    UVarData::Resolved(r) => r.clone_type(),
                }
            },
            TypeView::Tuple(ts) => {
                assert forall|j: int| 0 <= j < ts@.len() implies in_range(store.model(), #[trigger] ts@[j].ty()) by {
                    assert(self.ty()->Tuple_0[j] == ts@[j].ty());
                }
                let vs = zonk_vec(ts, store);
                let r = Type(TypeView::Tuple(vs));
                assert(r.ty()->Tuple_0 =~= zonk(store.model(), self.ty())->Tuple_0);
                r
            },
            TypeView::Array(n, b) => Type(TypeView::Array(*n, Box::new((**b).zonk_with(store)))),
            TypeView::Fun(ts, b) => {
                assert forall|j: int| 0 <= j < ts@.len() implies in_range(store.model(), #[trigger] ts@[j].ty()) by {
                    assert(self.ty()->Fun_0[j] == ts@[j].ty());
                }
                let vs = zonk_vec(ts, store);
                let r = Type(TypeView::Fun(vs, Box::new((**b).zonk_with(store))));
                assert(r.ty()->Fun_0 =~= zonk(store.model(), self.ty())->Fun_0);
                r
            },
            TypeView::Ptr(b) => Type(TypeView::Ptr(Box::new((**b).zonk_with(store)))),
            TypeView::MutPtr(b) => Type(TypeView::MutPtr(Box::new((**b).zonk_with(store)))),
            TypeView::TypeApp(v, s, ts) => {
                assert forall|j: int| 0 <= j < ts@.len() implies in_range(store.model(), #[trigger] ts@[j].ty()) by {
                    assert(self.ty()->TypeApp_2[j] == ts@[j].ty());
                }
                let vs = zonk_vec(ts, store);
                let r = Type(TypeView::TypeApp(*v, s.clone(), vs));
                assert(r.ty()->TypeApp_2 =~= zonk(store.model(), self.ty())->TypeApp_2);
                r
            },
            _ => self.clone_type(),
        }
    }
}

pub fn clone_vec(ts: &Vec<Type>) -> (res: Vec<Type>)
    ensures
        res@.len() == ts@.len(),
        forall|j: int| 0 <= j < ts@.len() ==> (#[trigger] res@[j]).ty() == ts@[j].ty(),
    decreases ts,
{
    let mut vs: Vec<Type> = Vec::new();
    let n = ts.len();
    let mut i: usize = 0;
    while i < n
        invariant
            n == ts@.len(),
            i <= n,
            vs@.len() == i,
            forall|j: int| 0 <= j < i ==> (#[trigger] vs@[j]).ty() == ts@[j].ty(),
        decreases n - i,
    {
        assert(decreases_to!(ts => ts@[i as int]));
        vs.push(ts[i].clone_type());
        i = i + 1;
    }
    vs
}

fn subst_vec(ts: &Vec<Type>, k: usize, e: &UVarData) -> (res: Vec<Type>)
    ensures
        res@.len() == ts@.len(),
        forall|j: int| 0 <= j < ts@.len() ==> (#[trigger] res@[j]).ty() == subst(ts@[j].ty(), k as nat, e.entry()),
    decreases ts,
{
    let mut vs: Vec<Type> = Vec::new();
    let n = ts.len();
    let mut i: usize = 0;
    while i < n
        invariant
            n == ts@.len(),
            i <= n,
            vs@.len() == i,
            forall|j: int| 0 <= j < i ==> (#[trigger] vs@[j]).ty() == subst(ts@[j].ty(), k as nat, e.entry()),
        decreases n - i,
    {
        assert(decreases_to!(ts => ts@[i as int]));
        vs.push(ts[i].subst_uvar(k, e));
        i = i + 1;
    }
    vs
}

fn zonk_vec(ts: &Vec<Type>, store: &UVarStore) -> (res: Vec<Type>)
    requires
        store.wf(),
        forall|j: int| 0 <= j < ts@.len() ==> in_range(store.model(), #[trigger] ts@[j].ty()),
    ensures
        res@.len() == ts@.len(),
        forall|j: int| 0 <= j < ts@.len() ==> (#[trigger] res@[j]).ty() == zonk(store.model(), ts@[j].ty()),
    decreases ts,
{
    let mut vs: Vec<Type> = Vec::new();
    let n = ts.len();
    let mut i: usize = 0;
    while i < n
        invariant
            n == ts@.len(),
            i <= n,
            vs@.len() == i,
            store.wf(),
            forall|j: int| 0 <= j < ts@.len() ==> in_range(store.model(), #[trigger] ts@[j].ty()),
            forall|j: int| 0 <= j < i ==> (#[trigger] vs@[j]).ty() == zonk(store.model(), ts@[j].ty()),
        decreases n - i,
    {
        assert(decreases_to!(ts => ts@[i as int]));
        vs.push(ts[i].zonk_with(store));
        i = i + 1;
    }
    vs
}


impl Type {
    /// View the underlying type.
    ///
    /// It never shows a resolved unification variable: it shows what the variable stands for.
    pub fn view(&self, store: &UVarStore) -> (res: TypeView)
        requires
            store.wf(),
            in_range(store.model(), self.ty()),
        ensures
            Type(res).ty() == top(store.model(), self.ty()),
    {
        match &self.0 {
            TypeView::UVar(u) => match &store.data[u.idx] {
                UVarData::Unresolved(_) => TypeView::UVar(*u),
                UVarData::Link(j) => TypeView::UVar(*j),
                UVarData::Resolved(r) => {
                    let c = r.clone_type();
                    c.0
                },
            },
            TypeView::NumericUVar(u) => match &store.data[u.idx] {
                UVarData::Unresolved(_) => TypeView::NumericUVar(*u),
                UVarData::Link(j) => TypeView::NumericUVar(*j),
                UVarData::Resolved(r) => {
                    let c = r.clone_type();
                    c.0
                },
            },
            _ => {
                let c = self.clone_type();
                c.0
            },
        }
    }
}

impl UVar {
    /// Checks if unification variable occurs inside of a given type.
    pub fn occurs(&self, store: &UVarStore, other: &Type) -> (res: bool)
        requires
            store.wf(),
            is_unres(store.model(), self.idx as nat),
            in_range(store.model(), other.ty()),
        ensures
            res == occurs(self.idx as nat, zonk(store.model(), other.ty())),
        decreases 2 * zsize(store.model(), other.ty()),
    {
        let ghost m = store.model();
        let v = other.view(store);
        proof {
            lemma_view_measure(m, other.ty());
            lemma_top(m, other.ty());
        }
        let ghost x = Type(v).ty();
        assert(zonk(m, x) == zonk(m, other.ty()));
        match &v {
            TypeView::UVar(u) => u.idx == self.idx,
            TypeView::NumericUVar(u) => u.idx == self.idx,
            TypeView::Fun(args, ret) => {
                assert(tys(args@) =~= x->Fun_0);
                let r1 = self.occurs_any(store, args);
                let r2 = self.occurs(store, ret);
                assert(zonk(m, x)->Fun_0 =~= zonk_seq(m, tys(args@)));
                r1 || r2
            },
            TypeView::Ptr(tp) => self.occurs(store, tp),
            TypeView::MutPtr(tp) => self.occurs(store, tp),
            TypeView::Array(_, tp) => self.occurs(store, tp),
            TypeView::Tuple(items) => {
                assert(tys(items@) =~= x->Tuple_0);
                assert(zonk(m, x)->Tuple_0 =~= zonk_seq(m, tys(items@)));
                self.occurs_any(store, items)
            },
            TypeView::TypeApp(_, _, items) => {
                assert(tys(items@) =~= x->TypeApp_2);
                assert(zonk(m, x)->TypeApp_2 =~= zonk_seq(m, tys(items@)));
                self.occurs_any(store, items)
            },
            _ => false,
        }
    }

    fn occurs_any(&self, store: &UVarStore, items: &Vec<Type>) -> (res: bool)
        requires
            store.wf(),
            is_unres(store.model(), self.idx as nat),
            forall|j: int| 0 <= j < items@.len() ==> in_range(store.model(), #[trigger] tys(items@)[j]),
        ensures
            res == exists|j: int|
                0 <= j < items@.len() && occurs(self.idx as nat, #[trigger] zonk_seq(store.model(), tys(items@))[j]),
        decreases 2 * zsize_seq(store.model(), tys(items@)) + 1,
    {
        let ghost m = store.model();
        let ghost zs = zonk_seq(m, tys(items@));
        let n = items.len();
        let mut i: usize = 0;
        while i < n
            invariant
                n == items@.len(),
                i <= n,
                store.wf(),
                m == store.model(),
                zs == zonk_seq(m, tys(items@)),
                is_unres(m, self.idx as nat),
                forall|j: int| 0 <= j < items@.len() ==> in_range(m, #[trigger] tys(items@)[j]),
                forall|j: int| 0 <= j < i ==> !occurs(self.idx as nat, #[trigger] zs[j]),
            decreases n - i,
        {
            proof {
                lemma_elem_measure(m, tys(items@), i as int);
                assert(tys(items@)[i as int] == items@[i as int].ty());
            }
            if self.occurs(store, &items[i]) {
                assert(occurs(self.idx as nat, zs[i as int]));
                return true;
            }
            i = i + 1;
        }
        false
    }
}


proof fn lemma_follow(m: Seq<Entry>, mf: Seq<Entry>, t: Ty, x: Ty)
    requires
        preserves(m, mf),
        in_range(m, t),
        in_range(m, x),
        zonk(m, t) == zonk(m, x),
    ensures
        zonk(mf, t) == zonk(mf, x),
{
    assert(zonk(mf, t) == zonk(mf, x));
}

/// The store only changed by resolving variables.
pub open spec fn progressed(m1: Seq<Entry>, m2: Seq<Entry>) -> bool {
    &&& preserves(m1, m2)
    &&& (m2 == m1 || count_unres(m2) < count_unres(m1))
}

proof fn lemma_progressed_trans(m1: Seq<Entry>, m2: Seq<Entry>, m3: Seq<Entry>)
    requires
        progressed(m1, m2),
        progressed(m2, m3),
    ensures
        progressed(m1, m3),
{
    lemma_preserves_trans(m1, m2, m3);
}

/// The type of a slice of `elem`: a pointer to the data, mutable or not, and its length in
/// elements, as a `usize`.
pub open spec fn spec_slice_ty(elem: Ty, mutable: bool) -> Ty {
    Ty::Tuple(
        seq![
            if mutable {
                Ty::MutPtr(Box::new(elem))
            } else {
                Ty::Ptr(Box::new(elem))
            },
            Ty::NamedVar(TVar { id: 7, kind: TVarKind::Type }, "usize"@),
        ],
    )
}

/// Unify two types, coercing `act_tp` to `exp_tp` if needed.
///
/// In terms of subtyping relation, `act_tp <: exp_tp` must be satisfied.
#[verifier::rlimit(100)]
#[verifier::spinoff_prover]
pub fn unify(store: &mut UVarStore, exp_tp: &Type, act_tp: &Type) -> (res: bool)
    requires
        old(store).wf(),
        in_range(old(store).model(), exp_tp.ty()),
        in_range(old(store).model(), act_tp.ty()),
    ensures
        final(store).wf(),
        progressed(old(store).model(), final(store).model()),
        res ==> coerces(zonk(final(store).model(), exp_tp.ty()), zonk(final(store).model(), act_tp.ty())),
        !heads_agree(top(old(store).model(), exp_tp.ty()), top(old(store).model(), act_tp.ty())) ==> !res,
        heads_match(top(old(store).model(), exp_tp.ty()), top(old(store).model(), act_tp.ty())) ==> res,
        is_rigid(exp_tp.ty()) && exp_tp.ty() == act_tp.ty() ==> res,
        is_rigid(exp_tp.ty()) && is_rigid(act_tp.ty()) && coerces(exp_tp.ty(), act_tp.ty()) ==> res,
        is_never(top(old(store).model(), act_tp.ty())) ==> final(store).model() == old(store).model(),
        numeric_meets(top(old(store).model(), exp_tp.ty()), top(old(store).model(), act_tp.ty())) ==> res,
        numeric_meets(top(old(store).model(), exp_tp.ty()), top(old(store).model(), act_tp.ty())) ==> zonk(
            final(store).model(),
            exp_tp.ty(),
        ) == zonk(final(store).model(), act_tp.ty()),
        top(old(store).model(), exp_tp.ty()) is UVar && top(old(store).model(), act_tp.ty()) is UVar ==> {
            &&& res
            &&& zonk(final(store).model(), exp_tp.ty()) == zonk(final(store).model(), act_tp.ty())
            &&& top(final(store).model(), top(old(store).model(), exp_tp.ty())) is UVar
            &&& top(final(store).model(), top(old(store).model(), act_tp.ty())) is UVar
            &&& ({
                let m = old(store).model();
                let r1 = root(m, top(m, exp_tp.ty())->UVar_0);
                let r2 = root(m, top(m, act_tp.ty())->UVar_0);
                if r1 == r2 {
                    final(store).model() == m
                } else {
                    final(store).model() == update(m, r1, Entry::Link(r2))
                }
            })
        },
        top(old(store).model(), exp_tp.ty()) is NumericUVar && top(old(store).model(), act_tp.ty()) is NumericUVar ==> {
            &&& res
            &&& zonk(final(store).model(), exp_tp.ty()) == zonk(final(store).model(), act_tp.ty())
            &&& top(final(store).model(), top(old(store).model(), exp_tp.ty())) is NumericUVar
            &&& ({
                let m = old(store).model();
                let r1 = root(m, top(m, exp_tp.ty())->NumericUVar_0);
                let r2 = root(m, top(m, act_tp.ty())->NumericUVar_0);
                if r1 == r2 {
                    final(store).model() == m
                } else {
                    final(store).model() == update(m, r1, Entry::Link(r2))
                }
            })
        },
        top(old(store).model(), exp_tp.ty()) is NumericUVar && !(top(old(store).model(), act_tp.ty()) is UVar) && !(top(
            old(store).model(),
            act_tp.ty(),
        ) is NumericUVar) && !numeric_meets(top(old(store).model(), exp_tp.ty()), top(old(store).model(), act_tp.ty()))
            && !is_never(top(old(store).model(), act_tp.ty())) ==> !res && final(store).model() == old(store).model(),
        top(old(store).model(), act_tp.ty()) is NumericUVar && !(top(old(store).model(), exp_tp.ty()) is UVar) && !(top(
            old(store).model(),
            exp_tp.ty(),
        ) is NumericUVar) && !numeric_meets(top(old(store).model(), exp_tp.ty()), top(old(store).model(), act_tp.ty()))
            ==> !res && final(store).model() == old(store).model(),
        top(old(store).model(), exp_tp.ty()) is UVar && !(top(old(store).model(), act_tp.ty()) is UVar)
            && !is_never(top(old(store).model(), act_tp.ty())) ==> {
            &&& res <==> !occurs(top(old(store).model(), exp_tp.ty())->UVar_0, zonk(old(store).model(), act_tp.ty()))
            &&& res ==> zonk(final(store).model(), top(old(store).model(), exp_tp.ty())) == zonk(
                final(store).model(),
                act_tp.ty(),
            )
            &&& res ==> final(store).model() == update(
                old(store).model(),
                top(old(store).model(), exp_tp.ty())->UVar_0,
                Entry::Resolved(zonk(old(store).model(), act_tp.ty())),
            )
            &&& !res ==> final(store).model() == old(store).model()
        },
        top(old(store).model(), act_tp.ty()) is UVar && !(top(old(store).model(), exp_tp.ty()) is UVar) ==> {
            &&& res <==> !occurs(top(old(store).model(), act_tp.ty())->UVar_0, zonk(old(store).model(), exp_tp.ty()))
            &&& res ==> zonk(final(store).model(), top(old(store).model(), act_tp.ty())) == zonk(
                final(store).model(),
                exp_tp.ty(),
            )
            &&& res ==> final(store).model() == update(
                old(store).model(),
                top(old(store).model(), act_tp.ty())->UVar_0,
                Entry::Resolved(zonk(old(store).model(), exp_tp.ty())),
            )
            &&& !res ==> final(store).model() == old(store).model()
        },
    decreases count_unres(old(store).model()), 2 * (zsize(old(store).model(), exp_tp.ty()) + zsize(
        old(store).model(),
        act_tp.ty(),
    )),
{
    let ghost m = store.model();
    let e = exp_tp.view(store);
    let a = act_tp.view(store);
    let ghost xe = Type(e).ty();
    let ghost xa = Type(a).ty();
    proof {
        lemma_view_measure(m, exp_tp.ty());
        lemma_view_measure(m, act_tp.ty());
        lemma_top(m, exp_tp.ty());
        lemma_top(m, act_tp.ty());
    }
    match &a {
        TypeView::NamedVar(tv, _) => {
            if tv.is_never() {
                return true;
            }
        },
        TypeView::Var(tv) => {
            if tv.is_never() {
                return true;
            }
        },
        _ => {},
    }
    let r = match (&e, &a) {
        (TypeView::NamedVar(tv1, _), TypeView::NamedVar(tv2, _)) => *tv1 == *tv2,
        (TypeView::Var(tv1), TypeView::Var(tv2)) => *tv1 == *tv2,
        (TypeView::NumericUVar(uv1), TypeView::NumericUVar(uv2)) => {
            uv1.union(store, uv2);
            assert(coerces(zonk(store.model(), xe), zonk(store.model(), xa)));
            true
        },
        (TypeView::UVar(uv1), TypeView::UVar(uv2)) => {
            uv1.union(store, uv2);
            assert(coerces(zonk(store.model(), xe), zonk(store.model(), xa)));
            true
        },
        (TypeView::UVar(uvar), _) => {
            if uvar.occurs(store, act_tp) {
                false
            } else {
                uvar.resolve(store, act_tp);
                proof {
                    lemma_follow(m, store.model(), act_tp.ty(), xa);
                }
                assert(coerces(zonk(store.model(), xe), zonk(store.model(), xa)));
                true
            }
        },
        (_, TypeView::UVar(uvar)) => {
            if uvar.occurs(store, exp_tp) {
                false
            } else {
                uvar.resolve(store, exp_tp);
                proof {
                    lemma_follow(m, store.model(), exp_tp.ty(), xe);
                }
                assert(coerces(zonk(store.model(), xe), zonk(store.model(), xa)));
                true
            }
        },
        (TypeView::TypeApp(tv1, _, tps1), TypeView::TypeApp(tv2, _, tps2)) => {
            assert(tys(tps1@) =~= xe->TypeApp_2);
            assert(tys(tps2@) =~= xa->TypeApp_2);
            let ret = *tv1 == *tv2;
            let tps = unify_all(store, tps1, tps2);
            proof {
                let m2 = store.model();
                assert(zonk(m2, xe)->TypeApp_2 =~= zonk_seq(m2, tys(tps1@)));
                assert(zonk(m2, xa)->TypeApp_2 =~= zonk_seq(m2, tys(tps2@)));
                if ret && tps1.len() == tps2.len() && tps {
                    assert(coerces(zonk(store.model(), xe), zonk(store.model(), xa)));
                }
            }
            ret && tps1.len() == tps2.len() && tps
        },
        (TypeView::Array(s1, tp1), TypeView::Array(s2, tp2)) => {
            if *s1 != *s2 {
                false
            } else {
                let r = unify(store, tp1, tp2);
                assert(r ==> coerces(zonk(store.model(), xe), zonk(store.model(), xa)));
                r
            }
        },
        (TypeView::Tuple(items1), TypeView::Tuple(items2)) => {
            assert(tys(items1@) =~= xe->Tuple_0);
            assert(tys(items2@) =~= xa->Tuple_0);
            let all = unify_all(store, items1, items2);
            proof {
                let m2 = store.model();
                assert(zonk(m2, xe)->Tuple_0 =~= zonk_seq(m2, tys(items1@)));
                assert(zonk(m2, xa)->Tuple_0 =~= zonk_seq(m2, tys(items2@)));
                if all && items1.len() == items2.len() {
                    assert(coerces(zonk(store.model(), xe), zonk(store.model(), xa)));
                }
            }
            all && items1.len() == items2.len()
        },
        (TypeView::NumericUVar(uvar), TypeView::Var(tv)) => {
            if !uvar.occurs(store, act_tp) && tv.is_numeric() {
                uvar.resolve(store, act_tp);
                proof {
                    lemma_follow(m, store.model(), act_tp.ty(), xa);
                }
                assert(coerces(zonk(store.model(), xe), zonk(store.model(), xa)));
                true
            } else {
                false
            }
        },
        (TypeView::NumericUVar(uvar), TypeView::NamedVar(tv, _)) => {
            if !uvar.occurs(store, act_tp) && tv.is_numeric() {
                uvar.resolve(store, act_tp);
                proof {
                    lemma_follow(m, store.model(), act_tp.ty(), xa);
                }
                assert(coerces(zonk(store.model(), xe), zonk(store.model(), xa)));
                true
            } else {
                false
            }
        },
        (TypeView::Var(tv), TypeView::NumericUVar(uvar)) => {
            if !uvar.occurs(store, exp_tp) && tv.is_numeric() {
                uvar.resolve(store, exp_tp);
                proof {
                    lemma_follow(m, store.model(), exp_tp.ty(), xe);
                }
                assert(coerces(zonk(store.model(), xe), zonk(store.model(), xa)));
                true
            } else {
                false
            }
        },
        (TypeView::NamedVar(tv, _), TypeView::NumericUVar(uvar)) => {
            if !uvar.occurs(store, exp_tp) && tv.is_numeric() {
                uvar.resolve(store, exp_tp);
                proof {
                    lemma_follow(m, store.model(), exp_tp.ty(), xe);
                }
                assert(coerces(zonk(store.model(), xe), zonk(store.model(), xa)));
                true
            } else {
                false
            }
        },
        (TypeView::Ptr(tp1), TypeView::Ptr(tp2)) => {
            let r = unify(store, tp1, tp2);
            assert(r ==> coerces(zonk(store.model(), xe), zonk(store.model(), xa)));
            r
        },
        (TypeView::Ptr(tp1), TypeView::MutPtr(tp2)) => {
            let r = unify(store, tp1, tp2);
            assert(r ==> coerces(zonk(store.model(), xe), zonk(store.model(), xa)));
            r
        },
        (TypeView::MutPtr(tp1), TypeView::MutPtr(tp2)) => {
            let r = unify(store, tp1, tp2);
            assert(r ==> coerces(zonk(store.model(), xe), zonk(store.model(), xa)));
            r
        },
        (TypeView::Fun(items1, ret1), TypeView::Fun(items2, ret2)) => {
            assert(tys(items1@) =~= xe->Fun_0);
            assert(tys(items2@) =~= xa->Fun_0);
            // unify the results even when the arities differ, to learn as much as possible
            let mut ret = items1.len() == items2.len();
            let ret_ok = unify(store, ret1, ret2);
            if !ret_ok {
                ret = false;
            }
            let ghost m1 = store.model();
            let items = unify_all(store, items1, items2);
            proof {
                let m2 = store.model();
                lemma_progressed_trans(m, m1, m2);
                assert(zonk(m2, xe)->Fun_0 =~= zonk_seq(m2, tys(items1@)));
                assert(zonk(m2, xa)->Fun_0 =~= zonk_seq(m2, tys(items2@)));
                if ret && items {
                    assert(coerces(zonk(m1, ret1.ty()), zonk(m1, ret2.ty())));
                    assert(coerces(zonk(m2, ret1.ty()), zonk(m2, ret2.ty())));
                    assert(coerces(zonk(store.model(), xe), zonk(store.model(), xa)));
                }
            }
            ret && items
        },
        _ => false,
    };
    proof {
        let mf = store.model();
        lemma_follow(m, mf, exp_tp.ty(), xe);
        lemma_follow(m, mf, act_tp.ty(), xa);
    }
    r
}

/// Unifies the types of two sequences pairwise, stopping at the first failure.
fn unify_all(store: &mut UVarStore, xs: &Vec<Type>, ys: &Vec<Type>) -> (res: bool)
    requires
        old(store).wf(),
        forall|j: int| 0 <= j < xs@.len() ==> in_range(old(store).model(), #[trigger] tys(xs@)[j]),
        forall|j: int| 0 <= j < ys@.len() ==> in_range(old(store).model(), #[trigger] tys(ys@)[j]),
    ensures
        final(store).wf(),
        progressed(old(store).model(), final(store).model()),
        res ==> forall|j: int|
            0 <= j < xs@.len() && j < ys@.len() ==> coerces(
                #[trigger] zonk(final(store).model(), tys(xs@)[j]),
                zonk(final(store).model(), tys(ys@)[j]),
            ),
        xs@.len() == ys@.len() && (forall|j: int|
            0 <= j < xs@.len() ==> #[trigger] tys(xs@)[j] == tys(ys@)[j] && is_rigid(tys(xs@)[j])) ==> res,
        xs@.len() == ys@.len() && (forall|j: int|
            0 <= j < xs@.len() ==> is_rigid(#[trigger] tys(xs@)[j]) && is_rigid(tys(ys@)[j]) && coerces(
                tys(xs@)[j],
                tys(ys@)[j],
            )) ==> res,
    decreases count_unres(old(store).model()), 2 * (zsize_seq(old(store).model(), tys(xs@)) + zsize_seq(
        old(store).model(),
        tys(ys@),
    )) + 1,
{
    let ghost m0 = store.model();
    let n = if xs.len() < ys.len() {
        xs.len()
    } else {
        ys.len()
    };
    let mut i: usize = 0;
    while i < n
        invariant
            n <= xs@.len(),
            n <= ys@.len(),
            n == xs@.len() || n == ys@.len(),
            i <= n,
            store.wf(),
            m0 == old(store).model(),
            progressed(m0, store.model()),
            forall|j: int| 0 <= j < xs@.len() ==> in_range(m0, #[trigger] tys(xs@)[j]),
            forall|j: int| 0 <= j < ys@.len() ==> in_range(m0, #[trigger] tys(ys@)[j]),
            forall|j: int|
                0 <= j < i ==> coerces(
                    #[trigger] zonk(store.model(), tys(xs@)[j]),
                    zonk(store.model(), tys(ys@)[j]),
                ),
        decreases n - i,
    {
        let ghost mp = store.model();
        proof {
            lemma_elem_measure(m0, tys(xs@), i as int);
            lemma_elem_measure(m0, tys(ys@), i as int);
            assert(tys(xs@)[i as int] == xs@[i as int].ty());
            assert(tys(ys@)[i as int] == ys@[i as int].ty());
        }
        if !unify(store, &xs[i], &ys[i]) {
            proof {
                lemma_progressed_trans(m0, mp, store.model());
            }
            return false;
        }
        proof {
            let mn = store.model();
            lemma_progressed_trans(m0, mp, mn);
            assert forall|j: int| 0 <= j < i + 1 implies coerces(
                #[trigger] zonk(mn, tys(xs@)[j]),
                zonk(mn, tys(ys@)[j]),
            ) by {
                if j < i {
                    assert(coerces(zonk(mp, tys(xs@)[j]), zonk(mp, tys(ys@)[j])));
                }
            }
        }
        i = i + 1;
    }
    true
}


impl Type {
    pub fn tuple(vec: Vec<Type>) -> (res: Type)
        ensures
            res.0 == TypeView::Tuple(vec),
    {
        Type(TypeView::Tuple(vec))
    }

    /// The unit type, the empty tuple.
    pub fn unit() -> (res: Type)
        ensures
            res.ty() == Ty::Tuple(Seq::empty()),
    {
        let r = Type::tuple(Vec::new());
        assert(r.ty()->Tuple_0 =~= Seq::<Ty>::empty());
        r
    }

    /// The type standing for a type variable.
    pub fn tvar(p: TVar) -> (res: Type)
        ensures
            res.ty() == Ty::Var(p),
    {
        Type(TypeView::Var(p))
    }

    pub fn ptr(tp: Type) -> (res: Type)
        ensures
            res.ty() == Ty::Ptr(Box::new(tp.ty())),
    {
        Type(TypeView::Ptr(Box::new(tp)))
    }

    pub fn mut_ptr(tp: Type) -> (res: Type)
        ensures
            res.ty() == Ty::MutPtr(Box::new(tp.ty())),
    {
        Type(TypeView::MutPtr(Box::new(tp)))
    }

    /// The type named `name` standing for `tvar`; a type constructor needs parameters.
    pub fn named_var(tvar: TVar, name: &str, pos: &Position) -> (res: Result<Type, Diagnostic>)
        ensures
            match tvar.kind {
                TVarKind::TypeCons(n) => res matches Err(d) && spec_labelled_error(
                    d,
                    *pos,
                    spec_type_params_mismatch_msg(n, 0),
                ),
                _ => res matches Ok(t) && t.ty() == Ty::NamedVar(tvar, name@),
            },
    {
        if let TVarKind::TypeCons(n) = tvar.kind() {
            return Err(type_params_mismatch(pos, n, 0));
        }
        Ok(Type(TypeView::NamedVar(tvar, String::from_str(name))))
    }

    pub fn fun(args: Vec<Type>, ret: Type) -> (res: Type)
        ensures
            res.0 == TypeView::Fun(args, Box::new(ret)),
    {
        Type(TypeView::Fun(args, Box::new(ret)))
    }

    pub fn unknown() -> (res: Type)
        ensures
            res.ty() == Ty::Unknown,
    {
        Type(TypeView::Unknown)
    }

    /// A fresh unification variable.
    pub fn fresh_uvar(store: &mut UVarStore) -> (res: Type)
        requires
            old(store).wf(),
        ensures
            final(store).wf(),
            res.ty() == Ty::UVar(old(store).model().len()),
            is_unres(final(store).model(), old(store).model().len()),
            final(store).model().len() == old(store).model().len() + 1,
            final(store).model() == old(store).model().push(Entry::Unresolved(uvar::spec_uvar_id(old(store).model().len() as usize) as nat)),
            final(store).model().subrange(0, old(store).model().len() as int) == old(store).model(),
            forall|t: Ty| in_range(old(store).model(), t) ==> #[trigger] zonk(final(store).model(), t) == zonk(old(store).model(), t),
            forall|t: Ty| #[trigger] in_range(old(store).model(), t) ==> !occurs(old(store).model().len(), t),
    {
        let ghost n = store.model().len();
        proof {
            assert forall|t: Ty| #[trigger] in_range(store.model(), t) implies !occurs(n, t) by {
                lemma_all_uvars_mono(t, pred_below(n), pred_ne(n));
            }
        }
        Type(TypeView::UVar(UVar::new(store)))
    }

    /// A fresh unification variable that may only stand for a numeric type.
    pub fn numeric_uvar(store: &mut UVarStore) -> (res: Type)
        requires
            old(store).wf(),
        ensures
            final(store).wf(),
            res.ty() == Ty::NumericUVar(old(store).model().len()),
            is_unres(final(store).model(), old(store).model().len()),
            final(store).model().len() == old(store).model().len() + 1,
            final(store).model() == old(store).model().push(Entry::Unresolved(uvar::spec_uvar_id(old(store).model().len() as usize) as nat)),
            final(store).model().subrange(0, old(store).model().len() as int) == old(store).model(),
            forall|t: Ty| in_range(old(store).model(), t) ==> #[trigger] zonk(final(store).model(), t) == zonk(old(store).model(), t),
    {
        Type(TypeView::NumericUVar(UVar::new(store)))
    }

    pub fn array(size: usize, tp: Type) -> (res: Type)
        ensures
            res.ty() == Ty::Array(size as nat, Box::new(tp.ty())),
    {
        Type(TypeView::Array(size, Box::new(tp)))
    }

    /// The builtin type of the given name.
    pub fn builtin(name: &str) -> (res: Type)
        requires
            spec_builtin_type_id(name@) is Some,
        ensures
            res.ty() == Ty::NamedVar(
                TVar { id: spec_builtin_type_id(name@)->Some_0, kind: TVarKind::Type },
                name@,
            ),
    {
        let tv = TVar::of_builtin(name);
        Type(TypeView::NamedVar(tv, String::from_str(name)))
    }

    /// The type of a slice of `elem`: a fat pointer, made of a pointer (mutable or not) to the
    /// first element and the number of elements as a `usize`.
    pub fn slice(elem: Type, mutable: bool) -> (res: Type)
        ensures
            res.ty() == spec_slice_ty(elem.ty(), mutable),
    {
        let ghost et = elem.ty();
        let p = if mutable {
            Type::mut_ptr(elem)
        } else {
            Type::ptr(elem)
        };
        assert(p.ty() == spec_slice_ty(et, mutable)->Tuple_0[0]);
        let count = Type(TypeView::NamedVar(TVar { id: 7, kind: TVarKind::Type }, String::from_str("usize")));
        assert(count.ty() == Ty::NamedVar(TVar { id: 7, kind: TVarKind::Type }, "usize"@));
        let ghost pt = p.ty();
        let ghost ct = count.ty();
        let res = Type::tuple(vec![p, count]);
        assert(res.ty()->Tuple_0 =~= seq![pt, ct]);
        res
    }

    /// The type constructor `tvar` applied to `tps`; the number of parameters must match.
    pub fn type_app(tvar: TVar, name: &str, tps: Vec<Type>, pos: &Position) -> (res: Result<Type, Diagnostic>)
        ensures
            match tvar.kind {
                TVarKind::TypeCons(n) => if tps@.len() == n {
                    res matches Ok(t) && t.0 == TypeView::TypeApp(tvar, t.0->TypeApp_1, tps) && t.0->TypeApp_1@ == name@
                } else {
                    res matches Err(d) && spec_labelled_error(d, *pos, spec_type_params_mismatch_msg(n, tps@.len() as usize))
                },
                _ => res matches Err(d) && spec_labelled_error(d, *pos, spec_type_params_mismatch_msg(0, tps@.len() as usize)),
            },
    {
        if let TVarKind::TypeCons(n) = tvar.kind() {
            if tps.len() != n {
                return Err(type_params_mismatch(pos, n, tps.len()));
            }
            Ok(Type(TypeView::TypeApp(tvar, String::from_str(name), tps)))
        } else {
            return Err(type_params_mismatch(pos, 0, tps.len()));
        }
    }
}


/// The bindings of a substitution as mathematical types.
pub open spec fn tv_map(s: Seq<(TVar, Type)>) -> Seq<(TVar, Ty)> {
    Seq::new(s.len(), |j: int| (s[j].0, s[j].1.ty()))
}

/// The first binding of `v` in `subst`.
fn lookup_subst<'a>(subst: &'a Vec<(TVar, Type)>, v: TVar) -> (res: Option<&'a Type>)
    ensures
        match lookup_tvar(tv_map(subst@), v) {
            Some(t) => res matches Some(r) && r.ty() == t,
            None => res is None,
        },
{
    let n = subst.len();
    let mut i: usize = 0;
    assert(tv_map(subst@).subrange(0, n as int) =~= tv_map(subst@));
    while i < n
        invariant
            n == subst@.len(),
            i <= n,
            lookup_tvar(tv_map(subst@), v) == lookup_tvar(tv_map(subst@).subrange(i as int, n as int), v),
        decreases n - i,
    {
        let ghost rest = tv_map(subst@).subrange(i as int, n as int);
        assert(rest.drop_first() =~= tv_map(subst@).subrange(i + 1, n as int));
        assert(rest[0] == (subst@[i as int].0, subst@[i as int].1.ty()));
        if subst[i].0 == v {
            return Some(&subst[i].1);
        }
        i = i + 1;
    }
    None
}

impl Type {
    /// The type with its type variables replaced as `subst` says.
    pub fn substitute(&self, store: &UVarStore, subst: &Vec<(TVar, Type)>) -> (res: Type)
        requires
            store.wf(),
            in_range(store.model(), self.ty()),
        ensures
            res.ty() == tsubst(zonk(store.model(), self.ty()), tv_map(subst@)),
        decreases 2 * zsize(store.model(), self.ty()),
    {
        let ghost m = store.model();
        let v = self.view(store);
        proof {
            lemma_view_measure(m, self.ty());
            lemma_top(m, self.ty());
        }
        let ghost x = Type(v).ty();
        assert(zonk(m, x) == zonk(m, self.ty()));
        match v {
            TypeView::NamedVar(tvar, name) => match lookup_subst(subst, tvar) {
                Some(tp) => tp.clone_type(),
                None => Type(TypeView::NamedVar(tvar, name)),
            },
            TypeView::Var(tvar) => match lookup_subst(subst, tvar) {
                Some(tp) => tp.clone_type(),
                None => Type(TypeView::Var(tvar)),
            },
            TypeView::Tuple(items) => {
                assert(tys(items@) =~= x->Tuple_0);
                let tps = substitute_vec(&items, store, subst);
                let r = Type::tuple(tps);
                assert(zonk(m, x)->Tuple_0 =~= zonk_seq(m, tys(items@)));
                assert(r.ty()->Tuple_0 =~= tsubst(zonk(m, x), tv_map(subst@))->Tuple_0);
                r
            },
            TypeView::Array(size, tp) => {
                let tp = tp.substitute(store, subst);
                Type::array(size, tp)
            },
            TypeView::Fun(items, ret) => {
                assert(tys(items@) =~= x->Fun_0);
                let tps = substitute_vec(&items, store, subst);
                let ret = ret.substitute(store, subst);
                let r = Type::fun(tps, ret);
                assert(zonk(m, x)->Fun_0 =~= zonk_seq(m, tys(items@)));
                assert(r.ty()->Fun_0 =~= tsubst(zonk(m, x), tv_map(subst@))->Fun_0);
                r
            },
            TypeView::Ptr(tp) => {
                let tp = tp.substitute(store, subst);
                Type::ptr(tp)
            },
            TypeView::MutPtr(tp) => {
                let tp = tp.substitute(store, subst);
                Type::mut_ptr(tp)
            },
            TypeView::TypeApp(tvar, name, items) => {
                assert(tys(items@) =~= x->TypeApp_2);
                let tps = substitute_vec(&items, store, subst);
                let r = Type(TypeView::TypeApp(tvar, name, tps));
                assert(zonk(m, x)->TypeApp_2 =~= zonk_seq(m, tys(items@)));
                assert(r.ty()->TypeApp_2 =~= tsubst(zonk(m, x), tv_map(subst@))->TypeApp_2);
                r
            },
            v => Type(v),
        }
    }

    /// Returns all type variables that the size of this type depends on.
    ///
    /// The type must be fully known: it may not contain unresolved unification variables.
    pub fn get_size_dependencies(&self, store: &UVarStore) -> (res: Vec<TVar>)
        requires
            store.wf(),
            in_range(store.model(), self.ty()),
            all_uvars(zonk(store.model(), self.ty()), pred_none()),
        ensures
            res@.no_duplicates(),
            forall|v: TVar| res@.contains(v) <==> in_deps(zonk(store.model(), self.ty()), v),
        decreases 2 * zsize(store.model(), self.ty()),
    {
        let ghost m = store.model();
        let v = self.view(store);
        proof {
            lemma_view_measure(m, self.ty());
            lemma_top(m, self.ty());
        }
        let ghost x = Type(v).ty();
        assert(zonk(m, x) == zonk(m, self.ty()));
        match &v {
            TypeView::TypeApp(tvar, _, _) | TypeView::Var(tvar) | TypeView::NamedVar(tvar, _) => {
                let mut set: Vec<TVar> = Vec::new();
                match tvar.kind() {
                    // parameters are left out: they get the unsized treatment
                    TVarKind::Parameter => {
                        assert(set@ =~= Seq::<TVar>::empty());
                        return set;
                    },
                    _ => {},
                }
                set.push(*tvar);
                assert forall|w: TVar| set@.contains(w) <==> in_deps(zonk(m, self.ty()), w) by {
                    if w == *tvar {
                        assert(set@[0] == w);
                    }
                }
                set
            },
            TypeView::Tuple(items) => {
                assert(tys(items@) =~= x->Tuple_0);
                assert(zonk(m, x)->Tuple_0 =~= zonk_seq(m, tys(items@)));
                let zs = Ghost(zonk_seq(m, tys(items@)));
                let mut set: Vec<TVar> = Vec::new();
                let n = items.len();
                let mut i: usize = 0;
                while i < n
                    invariant
                        n == items@.len(),
                        i <= n,
                        store.wf(),
                        m == store.model(),
                        zs@ == zonk_seq(m, tys(items@)),
                        zs@ == zonk(m, self.ty())->Tuple_0,
                        zonk(m, self.ty()) is Tuple,
                        all_uvars(zonk(m, self.ty()), pred_none()),
                        forall|j: int| 0 <= j < items@.len() ==> in_range(m, #[trigger] tys(items@)[j]),
                        zsize_seq(m, tys(items@)) + 1 == zsize(m, self.ty()),
                        set@.no_duplicates(),
                        forall|w: TVar| set@.contains(w) <==> exists|k: int| 0 <= k < i && in_deps(#[trigger] zs@[k], w),
                    decreases n - i,
                {
                    proof {
                        lemma_elem_measure(m, tys(items@), i as int);
                        assert(tys(items@)[i as int] == items@[i as int].ty());
                        assert(all_uvars(zs@[i as int], pred_none()));
                        assert(zs@[i as int] == zonk(m, items@[i as int].ty()));
                    }
                    let deps = items[i].get_size_dependencies(store);
                    let ghost old_set = set@;
                    add_all(&mut set, &deps);
                    proof {
                        assert forall|w: TVar| set@.contains(w) <==> exists|k: int| 0 <= k < i + 1 && in_deps(#[trigger] zs@[k], w) by {
                            if old_set.contains(w) {
                                let k = choose|k: int| 0 <= k < i && in_deps(#[trigger] zs@[k], w);
                                assert(in_deps(zs@[k], w));
                            }
                            if set@.contains(w) && !old_set.contains(w) {
                                assert(deps@.contains(w));
                                assert(in_deps(zonk(m, items@[i as int].ty()), w));
                                assert(in_deps(zs@[i as int], w));
                            }
                            if exists|k: int| 0 <= k < i + 1 && in_deps(#[trigger] zs@[k], w) {
                                let k = choose|k: int| 0 <= k < i + 1 && in_deps(#[trigger] zs@[k], w);
                                if k == i {
                                    assert(deps@.contains(w));
                                }
                            }
                            if exists|k: int| 0 <= k < i + 1 && in_deps(#[trigger] zs@[k], w) {
                                let k = choose|k: int| 0 <= k < i + 1 && in_deps(#[trigger] zs@[k], w);
                                if k < i {
                                    assert(old_set.contains(w));
                                }
                            }
                        }
                    }
                    i = i + 1;
                }
                set
            },
            TypeView::Array(_, tp) => tp.get_size_dependencies(store),
            _ => {
                let set: Vec<TVar> = Vec::new();
                assert(set@ =~= Seq::<TVar>::empty());
                set
            },
        }
    }
}

/// Whether `x` is in `set`.
fn contains_tvar(set: &Vec<TVar>, x: TVar) -> (res: bool)
    ensures
        res == set@.contains(x),
{
    let n = set.len();
    let mut j: usize = 0;
    while j < n
        invariant
            n == set@.len(),
            j <= n,
            forall|k: int| 0 <= k < j ==> set@[k] != x,
        decreases n - j,
    {
        if set[j] == x {
            assert(set@[j as int] == x);
            return true;
        }
        j = j + 1;
    }
    false
}

/// Adds to `set` the variables of `items` that it lacks.
fn add_all(set: &mut Vec<TVar>, items: &Vec<TVar>)
    requires
        old(set)@.no_duplicates(),
    ensures
        final(set)@.no_duplicates(),
        forall|w: TVar| final(set)@.contains(w) <==> old(set)@.contains(w) || items@.contains(w),
{
    let n = items.len();
    let mut i: usize = 0;
    while i < n
        invariant
            n == items@.len(),
            i <= n,
            set@.no_duplicates(),
            forall|w: TVar| set@.contains(w) <==> old(set)@.contains(w) || exists|k: int| 0 <= k < i && items@[k] == w,
        decreases n - i,
    {
        let x = items[i];
        let ghost before = set@;
        if !contains_tvar(set, x) {
            set.push(x);
            proof {
                assert forall|a: int, b: int| 0 <= a < b < set@.len() implies set@[a] != set@[b] by {
                    if b == set@.len() - 1 {
                        assert(before[a] == set@[a]);
                        assert(before.contains(set@[a]));
                    }
                }
            }
        }
        proof {
            assert forall|w: TVar| set@.contains(w) <==> old(set)@.contains(w) || exists|k: int| 0 <= k < i + 1 && items@[k] == w by {
                if set@.contains(w) && !before.contains(w) {
                    assert(items@[i as int] == w);
                }
                if before.contains(w) {
                    let k = choose|k: int| 0 <= k < before.len() && #[trigger] before[k] == w;
                    assert(set@[k] == w);
                }
                if exists|k: int| 0 <= k < i + 1 && items@[k] == w {
                    let k = choose|k: int| 0 <= k < i + 1 && #[trigger] items@[k] == w;
                    if k == i {
                        if !before.contains(w) {
                            assert(set@[set@.len() - 1] == w);
                        }
                    }
                }
            }
        }
        i = i + 1;
    }
    assert forall|w: TVar| items@.contains(w) <==> exists|k: int| 0 <= k < n && items@[k] == w by {
        if items@.contains(w) {
            let k = choose|k: int| 0 <= k < items@.len() && #[trigger] items@[k] == w;
        }
    }
}

fn substitute_vec(items: &Vec<Type>, store: &UVarStore, subst: &Vec<(TVar, Type)>) -> (res: Vec<Type>)
    requires
        store.wf(),
        forall|j: int| 0 <= j < items@.len() ==> in_range(store.model(), #[trigger] tys(items@)[j]),
    ensures
        res@.len() == items@.len(),
        forall|j: int| 0 <= j < items@.len() ==> (#[trigger] res@[j]).ty() == tsubst(
            zonk_seq(store.model(), tys(items@))[j],
            tv_map(subst@),
        ),
    decreases 2 * zsize_seq(store.model(), tys(items@)) + 1,
{
    let ghost m = store.model();
    let mut vs: Vec<Type> = Vec::new();
    let n = items.len();
    let mut i: usize = 0;
    while i < n
        invariant
            n == items@.len(),
            i <= n,
            vs@.len() == i,
            store.wf(),
            m == store.model(),
            forall|j: int| 0 <= j < items@.len() ==> in_range(m, #[trigger] tys(items@)[j]),
            forall|j: int| 0 <= j < i ==> (#[trigger] vs@[j]).ty() == tsubst(
                zonk_seq(m, tys(items@))[j],
                tv_map(subst@),
            ),
        decreases n - i,
    {
        proof {
            lemma_elem_measure(m, tys(items@), i as int);
            assert(tys(items@)[i as int] == items@[i as int].ty());
        }
        vs.push(items[i].substitute(store, subst));
        i = i + 1;
    }
    vs
}


impl Type {
    /// How the type is printed in messages.
    pub fn to_string(&self, store: &UVarStore) -> (res: String)
        requires
            store.wf(),
            in_range(store.model(), self.ty()),
        ensures
            res@ == show(store.model(), zonk(store.model(), self.ty())),
        decreases 2 * zsize(store.model(), self.ty()),
    {
        let ghost m = store.model();
        let v = self.view(store);
        proof {
            lemma_view_measure(m, self.ty());
            lemma_top(m, self.ty());
        }
        let ghost x = Type(v).ty();
        assert(zonk(m, x) == zonk(m, self.ty()));
        match &v {
            TypeView::Var(tv) => {
                let mut s = string_of("T#");
                s.append(usize_to_string(tv.id()).as_str());
                s
            },
            TypeView::NamedVar(_, name) => name.clone(),
            TypeView::Fun(items, ret) => {
                assert(tys(items@) =~= x->Fun_0);
                assert(zonk(m, x)->Fun_0 =~= zonk_seq(m, tys(items@)));
                let mut s = string_of("fn(");
                s.append(show_vec(items, store).as_str());
                s.append(") -> ");
                s.append(ret.to_string(store).as_str());
                s
            },
            TypeView::UVar(uvar) => {
                let mut s = string_of("U?#");
                let id = match uvar.id(store) {
                    Some(id) => id,
                    None => 0,
                };
                s.append(usize_to_string(id).as_str());
                s
            },
            TypeView::Ptr(tp) => {
                let mut s = string_of("*");
                s.append(tp.to_string(store).as_str());
                s
            },
            TypeView::MutPtr(tp) => {
                let mut s = string_of("*mut ");
                s.append(tp.to_string(store).as_str());
                s
            },
            TypeView::Unknown => string_of("{unknown}"),
            TypeView::NumericUVar(uvar) => {
                let mut s = string_of("NU?#");
                let id = match uvar.id(store) {
                    Some(id) => id,
                    None => 0,
                };
                s.append(usize_to_string(id).as_str());
                s
            },
            TypeView::Tuple(items) => {
                assert(tys(items@) =~= x->Tuple_0);
                assert(zonk(m, x)->Tuple_0 =~= zonk_seq(m, tys(items@)));
                let mut s = string_of("(");
                s.append(show_vec(items, store).as_str());
                s.append(")");
                s
            },
            TypeView::Array(size, tp) => {
                let mut s = string_of("[");
                s.append(usize_to_string(*size).as_str());
                s.append("]");
                s.append(tp.to_string(store).as_str());
                s
            },
            TypeView::TypeApp(_, name, items) => {
                assert(tys(items@) =~= x->TypeApp_2);
                assert(zonk(m, x)->TypeApp_2 =~= zonk_seq(m, tys(items@)));
                let mut s = name.clone();
                s.append("<");
                s.append(show_vec(items, store).as_str());
                s.append(">");
                s
            },
        }
    }
}

fn show_vec(items: &Vec<Type>, store: &UVarStore) -> (res: String)
    requires
        store.wf(),
        forall|j: int| 0 <= j < items@.len() ==> in_range(store.model(), #[trigger] tys(items@)[j]),
    ensures
        res@ == show_list(store.model(), zonk_seq(store.model(), tys(items@))),
    decreases 2 * zsize_seq(store.model(), tys(items@)) + 1,
{
    let ghost m = store.model();
    let ghost zs = zonk_seq(m, tys(items@));
    let mut s = String::new();
    let n = items.len();
    let mut i: usize = 0;
    while i < n
        invariant
            n == items@.len(),
            i <= n,
            store.wf(),
            m == store.model(),
            zs == zonk_seq(m, tys(items@)),
            forall|j: int| 0 <= j < items@.len() ==> in_range(m, #[trigger] tys(items@)[j]),
            s@ == show_list(m, zs.subrange(0, i as int)),
        decreases n - i,
    {
        proof {
            lemma_elem_measure(m, tys(items@), i as int);
            assert(tys(items@)[i as int] == items@[i as int].ty());
            assert(zs.subrange(0, i + 1).drop_last() =~= zs.subrange(0, i as int));
        }
        if i > 0 {
            s.append(", ");
        }
        s.append(items[i].to_string(store).as_str());
        i = i + 1;
    }
    assert(zs.subrange(0, n as int) =~= zs);
    s
}

impl Type {
    /// Whether every unification variable of the type is one the store has.
    pub fn is_within(&self, store: &UVarStore) -> (res: bool)
        ensures
            res == in_range(store.model(), self.ty()),
        decreases self,
    {
        match &self.0 {
            TypeView::UVar(u) => u.idx < store.len(),
            TypeView::NumericUVar(u) => u.idx < store.len(),
            TypeView::Tuple(ts) => {
                assert(self.ty()->Tuple_0 =~= tys(ts@));
                all_within(ts, store, self)
            },
            TypeView::Array(_, b) => b.is_within(store),
            TypeView::Fun(ts, r) => {
                assert(self.ty()->Fun_0 =~= tys(ts@));
                let a = all_within(ts, store, self);
                a && r.is_within(store)
            },
            TypeView::Ptr(b) => b.is_within(store),
            TypeView::MutPtr(b) => b.is_within(store),
            TypeView::TypeApp(_, _, ts) => {
                assert(self.ty()->TypeApp_2 =~= tys(ts@));
                all_within(ts, store, self)
            },
            _ => true,
        }
    }
}

fn all_within(ts: &Vec<Type>, store: &UVarStore, parent: &Type) -> (res: bool)
    requires
        decreases_to!(*parent => *ts),
    ensures
        res == forall|k: int| 0 <= k < ts@.len() ==> in_range(store.model(), #[trigger] tys(ts@)[k]),
    decreases *parent, 0nat,
{
    let n = ts.len();
    let mut i: usize = 0;
    while i < n
        invariant
            n == ts@.len(),
            i <= n,
            decreases_to!(*parent => *ts),
            forall|k: int| 0 <= k < i ==> in_range(store.model(), #[trigger] tys(ts@)[k]),
        decreases n - i,
    {
        assert(decreases_to!(*ts => ts@[i as int])) by {
            assert(decreases_to!(*ts => ts@));
        }
        if !ts[i].is_within(store) {
            assert(tys(ts@)[i as int] == ts@[i as int].ty());
            return false;
        }
        i = i + 1;
    }
    true
}

} // verus!
