//! The names of the local variables of the function being lowered.
use vstd::prelude::*;

use crate::common::maps::{IdMap, NameMap};
use crate::mir::ast::{VarID, VarSpawner};

verus! {

/// The number each local name stands for, and the source of new numbers.
pub struct Env {
    pub vars: NameMap<VarID>,
    pub var_gen: VarSpawner,
}

impl Env {
    /// The names that have numbers.
    pub open spec fn names(self) -> Set<Seq<char>> {
        Set::new(|n: Seq<char>| self.vars.has(n))
    }

    pub open spec fn wf(self) -> bool {
        &&& self.vars.keys_unique()
        &&& forall|n: Seq<char>| self.vars.has(n) ==> (#[trigger] self.vars.value(n)).0 <= self.var_gen.0
    }

    /// Whether a fresh number can still be handed out.
    pub open spec fn can_fresh(self) -> bool {
        self.var_gen.0 < usize::MAX
    }

    pub fn has_fresh(&self) -> (res: bool)
        ensures
            res == self.can_fresh(),
    {
        self.var_gen.0 < usize::MAX
    }

    /// A number for a variable with no name.
    pub fn fresh_var(&mut self) -> (res: VarID)
        requires
            old(self).can_fresh(),
        ensures
            final(self).vars == old(self).vars,
            final(self).var_gen.0 == old(self).var_gen.0 + 1,
            res.0 == final(self).var_gen.0,
            old(self).wf() ==> final(self).wf(),
            old(self).wf() ==> forall|n: Seq<char>| old(self).vars.has(n) ==> (#[trigger] old(self).vars.value(n)).0 < res.0,
    {
        self.var_gen.fresh()
    }

    /// A fresh number for `name`, which now stands for it.
    pub fn add_var(&mut self, name: String) -> (res: VarID)
        requires
            old(self).wf(),
            old(self).can_fresh(),
        ensures
            final(self).wf(),
            final(self).var_gen.0 == old(self).var_gen.0 + 1,
            res.0 == final(self).var_gen.0,
            final(self).vars.has(name@),
            final(self).vars.value(name@) == res,
            forall|n: Seq<char>| n != name@ ==> (#[trigger] final(self).vars.has(n) == old(self).vars.has(n)),
            forall|n: Seq<char>| n != name@ && old(self).vars.has(n) ==> #[trigger] final(self).vars.value(n) == old(self).vars.value(n),
            final(self).names() == old(self).names().insert(name@),
    {
        let id = self.var_gen.fresh();
        let ghost nm = name@;
        let _ = self.vars.insert(name, id);
        assert(self.names() =~= old(self).names().insert(nm));
        assert forall|n: Seq<char>| self.vars.has(n) implies (#[trigger] self.vars.value(n)).0 <= self.var_gen.0 by {
            if n != nm {
                assert(old(self).vars.has(n));
            }
        }
        id
    }

    pub fn new() -> (res: Self)
        ensures
            res.wf(),
            res.var_gen.0 == 0,
            forall|n: Seq<char>| !res.vars.has(n),
    {
        Env { vars: NameMap::new(), var_gen: VarSpawner::new() }
    }

    /// The number `name` stands for; it must have one.
    pub fn lookup(&self, name: &str) -> (res: VarID)
        requires
            self.wf(),
            self.vars.has(name@),
        ensures
            res == self.vars.value(name@),
    {
        *self.vars.get(name).unwrap()
    }
}

/// A variable number is never handed out twice: `fresh_var` and `add_var` hand out the
/// counter's next value, the counter only grows, so every number handed out from a state
/// `env` on is above every number handed out before it.
pub proof fn lemma_fresh_is_new(earlier: VarID, env: Env, e1: Env, next: VarID)
    requires
        earlier.0 <= env.var_gen.0,
        env.var_gen.0 <= e1.var_gen.0,
        next.0 == e1.var_gen.0 + 1,
    ensures
        earlier != next,
        earlier.0 < next.0,
{
}

/// Every variable marked is one already numbered.
pub open spec fn spec_marks_below(env: Env, vns: IdMap<bool>) -> bool {
    forall|k: usize| #[trigger] vns.has(k) ==> k <= env.var_gen.0
}

/// Numbers were only added, and the marks of the variables numbered before are kept.
pub open spec fn spec_marks_kept(env0: Env, vns0: IdMap<bool>, env1: Env, vns1: IdMap<bool>) -> bool {
    &&& env0.var_gen.0 <= env1.var_gen.0
    &&& forall|k: usize|
        k <= env0.var_gen.0 ==> (#[trigger] vns1.has(k) == vns0.has(k) && (vns0.has(k) ==> vns1.value(k) == vns0.value(k)))
}

pub broadcast proof fn lemma_marks_kept_refl(env: Env, vns: IdMap<bool>)
    ensures
        #[trigger] spec_marks_kept(env, vns, env, vns),
{
}

pub broadcast proof fn lemma_marks_kept_trans(e0: Env, v0: IdMap<bool>, e1: Env, v1: IdMap<bool>, e2: Env, v2: IdMap<bool>)
    requires
        #[trigger] spec_marks_kept(e0, v0, e1, v1),
        #[trigger] spec_marks_kept(e1, v1, e2, v2),
    ensures
        spec_marks_kept(e0, v0, e2, v2),
{
}

} // verus!
