//! The numbers of the local names of the function being flattened.
use vstd::prelude::*;

use crate::common::maps::NameMap;
use crate::flatten::ast::{VarID, VarSpawner};

verus! {

pub struct Env {
    pub vars: NameMap<VarID>,
    pub var_gen: VarSpawner,
}

impl Env {
    pub open spec fn wf(self) -> bool {
        self.vars.keys_unique()
    }

    pub fn new() -> (res: Self)
        ensures
            res.wf(),
            res.var_gen.0 == 0,
            forall|n: Seq<char>| !res.vars.has(n),
    {
        Env { vars: NameMap::new(), var_gen: VarSpawner::new() }
    }

    /// A fresh number for `name`, which now stands for it.
    pub fn add_var(&mut self, name: String) -> (res: VarID)
        requires
            old(self).wf(),
            old(self).var_gen.0 < usize::MAX,
        ensures
            final(self).wf(),
            final(self).var_gen.0 == old(self).var_gen.0 + 1,
            res.0 == final(self).var_gen.0,
            final(self).vars.has(name@),
            final(self).vars.value(name@) == res,
    {
        let id = self.var_gen.fresh();
        let _ = self.vars.insert(name, id);
        id
    }
}

} // verus!
