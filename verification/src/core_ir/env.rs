//! The numbers the variables of the middle representation get in the core one.
use vstd::prelude::*;

use crate::common::maps::IdMap;
use crate::core_ir::ast::{VarID, VarSpawner};

verus! {

pub struct Env {
    /// For each variable of the middle representation, by number, its number here.
    pub map: IdMap<VarID>,
    pub var_gen: VarSpawner,
}

impl Env {
    pub open spec fn wf(self) -> bool {
        self.map.keys_unique()
    }

    /// Whether a fresh number can still be handed out.
    pub open spec fn can_fresh(self) -> bool {
        self.var_gen.0 < usize::MAX
    }

    pub fn has_fresh(&self) -> (res: bool)
        ensures
            res == self.can_fresh(),
    {
        self.var_gen.0 < usize::MAX
    }

    /// A number for a variable of this representation alone.
    pub fn fresh_var(&mut self) -> (res: VarID)
        requires
            old(self).can_fresh(),
        ensures
            final(self).map == old(self).map,
            final(self).var_gen.0 == old(self).var_gen.0 + 1,
            res.0 == final(self).var_gen.0,
    {
        self.var_gen.fresh()
    }

    /// A fresh number for the variable `id` of the middle representation.
    pub fn add_var(&mut self, id: crate::mir::ast::VarID) -> (res: VarID)
        requires
            old(self).wf(),
            old(self).can_fresh(),
        ensures
            final(self).wf(),
            final(self).var_gen.0 == old(self).var_gen.0 + 1,
            res.0 == final(self).var_gen.0,
            final(self).map.has(id.0),
            final(self).map.value(id.0) == res,
            final(self).map.as_map() == old(self).map.as_map().insert(id.0, res),
    {
        let new_id = self.var_gen.fresh();
        let ghost before = self.map;
        let _ = self.map.insert(id.get(), new_id);
        assert(self.map.as_map() =~= before.as_map().insert(id.0, new_id));
        new_id
    }

    pub fn new() -> (res: Self)
        ensures
            res.wf(),
            res.var_gen.0 == 0,
            forall|k: usize| !res.map.has(k),
    {
        Env { map: IdMap::new(), var_gen: VarSpawner::new() }
    }

    /// The number of the variable `id`; it must have one.
    pub fn lookup(&self, var_id: crate::mir::ast::VarID) -> (res: VarID)
        requires
            self.wf(),
            self.map.has(var_id.0),
        ensures
            res == self.map.value(var_id.0),
    {
        *self.map.get(var_id.get()).unwrap()
    }
}

} // verus!
