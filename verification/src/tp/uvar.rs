//! Unification variables and the store that knows what they stand for.
use vstd::prelude::*;

use super::model::{
    clean, count_unres, in_range, is_unres, lemma_push_wf, lemma_subst_absent,
    lemma_update_count, lemma_update_preserves, lemma_update_wf, lemma_zonk_extend,
    lemma_zonk_is_clean, occurs, preserves, store_wf, subst, update, update_ok, zonk, Entry, Ty,
};
use super::{Type, TypeView};

verus! {

/// Unification variable that can be substituted by some concrete type.
#[derive(Debug, Clone, Copy, PartialEq, Eq, Structural)]
pub struct UVar {
    pub idx: usize,
}

/// What the store holds for one unification variable.
pub enum UVarData {
    Unresolved(usize),
    Link(UVar),
    Resolved(Type),
}

impl UVarData {
    pub open spec fn entry(self) -> Entry {
        match self {
            UVarData::Unresolved(id) => Entry::Unresolved(id as nat),
            UVarData::Link(u) => Entry::Link(u.idx as nat),
            UVarData::Resolved(t) => Entry::Resolved(t.ty()),
        }
    }

    fn clone_data(&self) -> (res: UVarData)
        ensures
            res.entry() == self.entry(),
    {
        match self {
            UVarData::Unresolved(id) => UVarData::Unresolved(*id),
            UVarData::Link(u) => UVarData::Link(*u),
            UVarData::Resolved(t) => UVarData::Resolved(t.clone()),
        }
    }
}

/// The first printed id of a unification variable.
pub const FIRST_UVAR_ID: usize = 65;

/// The printed id of the variable at index `idx`.
pub open spec fn spec_uvar_id(idx: usize) -> usize {
    if idx < usize::MAX - FIRST_UVAR_ID {
        (idx + FIRST_UVAR_ID) as usize
    } else {
        usize::MAX
    }
}

/// All unification variables of a compilation, by index.
pub struct UVarStore {
    pub data: Vec<UVarData>,
}

impl UVarStore {
    pub open spec fn model(self) -> Seq<Entry> {
        Seq::new(self.data@.len(), |i: int| self.data@[i].entry())
    }

    pub open spec fn wf(self) -> bool {
        store_wf(self.model())
    }

    /// A store with no variables.
    pub fn new() -> (res: Self)
        ensures
            res.wf(),
            res.model().len() == 0,
    {
        let res = UVarStore { data: Vec::new() };
        assert(res.model() =~= Seq::<Entry>::empty());
        res
    }

    /// The number of variables of the store.
    pub fn len(&self) -> (res: usize)
        ensures
            res == self.model().len(),
    {
        self.data.len()
    }

    /// Replaces `k` by `e` and every mention of `k` accordingly.
    fn update(&mut self, k: usize, e: UVarData)
        requires
            old(self).wf(),
            update_ok(old(self).model(), k as nat, e.entry()),
        ensures
            final(self).model() == update(old(self).model(), k as nat, e.entry()),
            final(self).wf(),
            preserves(old(self).model(), final(self).model()),
            count_unres(final(self).model()) + 1 == count_unres(old(self).model()),
    {
        let ghost m = self.model();
        let ghost ee = e.entry();
        let n = self.data.len();
        let mut i: usize = 0;
        while i < n
            invariant
                n == self.data@.len(),
                n == m.len(),
                i <= n,
                k < n,
                update_ok(m, k as nat, ee),
                e.entry() == ee,
                forall|j: int| 0 <= j < i ==> #[trigger] self.data@[j].entry() == update(m, k as nat, ee)[j],
                forall|j: int| i <= j < n ==> #[trigger] self.data@[j].entry() == m[j],
            decreases n - i,
        {
            if i == k {
                self.data.set(i, e.clone_data());
            } else {
                let new_entry = match &self.data[i] {
                    UVarData::Unresolved(x) => UVarData::Unresolved(*x),
                    UVarData::Link(u) => if u.idx == k {
                        e.clone_data()
                    } else {
                        UVarData::Link(*u)
                    },
                    UVarData::Resolved(r) => UVarData::Resolved(r.subst_uvar(k, &e)),
                };
                self.data.set(i, new_entry);
            }
            i = i + 1;
        }
        proof {
            assert(self.model() =~= update(m, k as nat, ee));
            lemma_update_wf(m, k as nat, ee);
            lemma_update_preserves(m, k as nat, ee);
            lemma_update_count(m, k as nat, ee);
        }
    }
}


/// The representative of variable `i`: the variable it is linked to, or itself.
pub open spec fn root(m: Seq<Entry>, i: nat) -> nat {
    if i < m.len() {
        match m[i as int] {
            Entry::Link(j) => j,
            _ => i,
        }
    } else {
        i
    }
}

impl UVar {
    /// Create a fresh unification variable.
    pub fn new(store: &mut UVarStore) -> (res: Self)
        requires
            old(store).wf(),
        ensures
            final(store).wf(),
            res.idx == old(store).model().len(),
            final(store).model() == old(store).model().push(Entry::Unresolved(spec_uvar_id(res.idx) as nat)),
            forall|t: Ty| in_range(old(store).model(), t) ==> #[trigger] zonk(final(store).model(), t) == zonk(old(store).model(), t),
    {
        let ghost m = store.model();
        let idx = store.data.len();
        let id = if idx < usize::MAX - FIRST_UVAR_ID { idx + FIRST_UVAR_ID } else { usize::MAX };
        store.data.push(UVarData::Unresolved(id));
        proof {
            let x = Entry::Unresolved(id as nat);
            assert(store.model() =~= m.push(x));
            lemma_push_wf(m, id as nat);
            assert forall|t: Ty| in_range(m, t) implies #[trigger] zonk(store.model(), t) == zonk(m, t) by {
                lemma_zonk_extend(m, x, t);
            }
        }
        UVar { idx }
    }

    /// Returns id of unresolved unification variable.
    pub fn id(&self, store: &UVarStore) -> (res: Option<usize>)
        requires
            store.wf(),
            self.idx < store.model().len(),
        ensures
            match store.model()[root(store.model(), self.idx as nat) as int] {
                Entry::Unresolved(id) => res == Some(id as usize),
                _ => res is None,
            },
    {
        match &store.data[self.idx] {
            UVarData::Unresolved(id) => Some(*id),
            UVarData::Link(u) => {
                assert(is_unres(store.model(), u.idx as nat));
                match &store.data[u.idx] {
                    UVarData::Unresolved(id) => Some(*id),
                    _ => None,
                }
            },
            UVarData::Resolved(_) => None,
        }
    }

    /// Find representative of a unification variable.
    pub fn find(&self, store: &UVarStore) -> (res: UVar)
        requires
            store.wf(),
            self.idx < store.model().len(),
        ensures
            res.idx == root(store.model(), self.idx as nat),
            store.model()[self.idx as int] is Resolved ==> res == *self,
            !(store.model()[self.idx as int] is Resolved) ==> is_unres(store.model(), res.idx as nat),
    {
        match &store.data[self.idx] {
            UVarData::Link(u) => *u,
            _ => *self,
        }
    }

    /// Union two unification variables; both must still be unresolved.
    pub fn union(&self, store: &mut UVarStore, other: &UVar)
        requires
            old(store).wf(),
            self.idx < old(store).model().len(),
            other.idx < old(store).model().len(),
            is_unres(old(store).model(), root(old(store).model(), self.idx as nat)),
            is_unres(old(store).model(), root(old(store).model(), other.idx as nat)),
        ensures
            final(store).wf(),
            preserves(old(store).model(), final(store).model()),
            ({
                let m = old(store).model();
                let r1 = root(m, self.idx as nat);
                let r2 = root(m, other.idx as nat);
                if r1 == r2 {
                    final(store).model() == m
                } else {
                    &&& final(store).model() == update(m, r1, Entry::Link(r2))
                    &&& count_unres(final(store).model()) + 1 == count_unres(m)
                }
            }),
            zonk(final(store).model(), Ty::UVar(self.idx as nat)) == zonk(final(store).model(), Ty::UVar(other.idx as nat)),
            zonk(final(store).model(), Ty::NumericUVar(self.idx as nat)) == zonk(
                final(store).model(),
                Ty::NumericUVar(other.idx as nat),
            ),
    {
        let ghost m = store.model();
        let root1 = self.find(store);
        let root2 = other.find(store);
        if root1.idx != root2.idx {
            store.update(root1.idx, UVarData::Link(root2));
            proof {
                let m2 = store.model();
                assert(m2[root1.idx as int] == Entry::Link(root2.idx as nat));
                assert(m2[root2.idx as int] == m[root2.idx as int]);
            }
        }
    }

    /// Resolve unification variable to a given type.
    ///
    /// The variable must be the representative of its class (neither resolved nor linked to
    /// another variable), and must not occur in the type.
    pub fn resolve(&self, store: &mut UVarStore, tp: &Type)
        requires
            old(store).wf(),
            self.idx < old(store).model().len(),
            is_unres(old(store).model(), self.idx as nat),
            in_range(old(store).model(), tp.ty()),
            !occurs(root(old(store).model(), self.idx as nat), zonk(old(store).model(), tp.ty())),
        ensures
            final(store).wf(),
            preserves(old(store).model(), final(store).model()),
            final(store).model() == update(
                old(store).model(),
                root(old(store).model(), self.idx as nat),
                Entry::Resolved(zonk(old(store).model(), tp.ty())),
            ),
            count_unres(final(store).model()) + 1 == count_unres(old(store).model()),
            zonk(final(store).model(), Ty::UVar(self.idx as nat)) == zonk(final(store).model(), tp.ty()),
            zonk(final(store).model(), Ty::NumericUVar(self.idx as nat)) == zonk(final(store).model(), tp.ty()),
            zonk(final(store).model(), tp.ty()) == zonk(old(store).model(), tp.ty()),
    {
        let ghost m = store.model();
        let u = self.find(store);
        let z = tp.zonk_with(store);
        proof {
            lemma_zonk_is_clean(m, tp.ty());
        }
        store.update(u.idx, UVarData::Resolved(z));
        proof {
            let e = Entry::Resolved(zonk(m, tp.ty()));
            super::model::lemma_zonk_update(m, u.idx as nat, e, tp.ty());
            lemma_subst_absent(zonk(m, tp.ty()), u.idx as nat, e);
        }
    }

    /// Returns type of resolved unification variable.
    pub fn try_resolved(&self, store: &UVarStore) -> (res: Option<Type>)
        requires
            store.wf(),
            self.idx < store.model().len(),
        ensures
            match store.model()[self.idx as int] {
                Entry::Resolved(t) => res matches Some(r) && r.ty() == t,
                _ => res is None,
            },
    {
        match &store.data[self.idx] {
            UVarData::Resolved(t) => Some(t.clone_type()),
            _ => None,
        }
    }
}

} // verus!
