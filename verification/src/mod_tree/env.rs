//! The state kept while the module tree is built: where in the tree we are, the
//! scopes built so far, and the parsed files not yet placed in the tree.
use vstd::prelude::*;

use crate::common::maps::NameMap;
use crate::common::{Ident, NodeID};
use crate::error::diagnostic::{spec_labelled_error, Diagnostic};
use crate::mod_tree::error;
use crate::mod_tree::scope::{spec_parent, Binding, Import, Scope, ScopeKind, Symbol};
use crate::mod_tree::ScopeInfo;
use crate::parser::ast::{spec_path_names, FileMap, Module};

verus! {

pub struct Env {
    pub current_namespace_id: NodeID,
    pub current_namespace_path: Vec<String>,
    pub scope_info: ScopeInfo,
    pub file_map: FileMap,
}

/// The imports of a module all name something: none has an empty path.
pub open spec fn spec_imports_named(k: ScopeKind) -> bool {
    k matches ScopeKind::Module { imports, .. } ==> forall|i: int|
        0 <= i < imports@.len() ==> (#[trigger] imports@[i]).path.data@.len() > 0
}

/// Every scope is well formed, and the imports of modules all name something.
pub open spec fn spec_scopes_wf(info: ScopeInfo) -> bool {
    &&& info.wf()
    &&& forall|id: usize| #[trigger] info.has_scope(id) ==> spec_imports_named(info.scope(id).kind)
}

impl Env {
    pub open spec fn wf(self) -> bool {
        &&& spec_scopes_wf(self.scope_info)
        &&& self.scope_info.has_scope(self.current_namespace_id.id)
    }

    /// The scope we are in.
    pub open spec fn current(self) -> Scope {
        self.scope_info.scope(self.current_namespace_id.id)
    }

    /// The scopes are the same, but the current one has `name` bound to `b`.
    pub open spec fn spec_bound(old_env: Env, new_env: Env, name: Seq<char>, b: Binding) -> bool {
        let id = old_env.current_namespace_id.id;
        &&& new_env.current_namespace_id == old_env.current_namespace_id
        &&& new_env.current_namespace_path@ == old_env.current_namespace_path@
        &&& new_env.file_map == old_env.file_map
        &&& forall|j: usize| (#[trigger] new_env.scope_info.has_scope(j)) == old_env.scope_info.has_scope(j)
        &&& forall|j: usize| j != id && old_env.scope_info.has_scope(j)
            ==> #[trigger] new_env.scope_info.scope(j) == old_env.scope_info.scope(j)
        &&& new_env.current().kind == old_env.current().kind
        &&& new_env.current().items.has(name)
        &&& new_env.current().items.value(name) == b
        &&& forall|n: Seq<char>| n != name ==> (#[trigger] new_env.current().items.has(n)) == old_env.current().items.has(n)
        &&& forall|n: Seq<char>| n != name && old_env.current().items.has(n)
            ==> #[trigger] new_env.current().items.value(n) == old_env.current().items.value(n)
    }

    /// Starts at the root scope, with the parsed files still to place.
    pub fn init(mod_map: FileMap) -> (res: Self)
        ensures
            res.wf(),
            res.current_namespace_id.id == 0,
            res.current_namespace_path@.len() == 0,
            res.file_map == mod_map,
            res.scope_info.has_scope(0),
            res.current().kind is Root,
            forall|n: Seq<char>| !res.current().items.has(n),
            forall|j: usize| j != 0 ==> !res.scope_info.has_scope(j),
    {
        let mut name_tree = ScopeInfo::new();
        let root_info = Scope { items: NameMap::new(), kind: ScopeKind::Root };
        name_tree.insert(NodeID::of_root(), root_info);
        Env {
            current_namespace_id: NodeID::of_root(),
            current_namespace_path: Vec::new(),
            scope_info: name_tree,
            file_map: mod_map,
        }
    }

    /// Goes into the namespace that the current scope declares under `name`.
    pub fn enter(&mut self, name: String)
        requires
            old(self).wf(),
            old(self).current().items.has(name@),
            old(self).current().items.value(name@).sym is Local,
            old(self).scope_info.has_scope(old(self).current().items.value(name@).sym->Local_0.id),
        ensures
            final(self).wf(),
            final(self).current_namespace_id == old(self).current().items.value(name@).sym->Local_0,
            final(self).current_namespace_path@ == old(self).current_namespace_path@.push(name),
            final(self).scope_info == old(self).scope_info,
            final(self).file_map == old(self).file_map,
    {
        let mod_info = self.scope_info.get(self.current_namespace_id).unwrap();
        let binding = mod_info.items.get(name.as_str()).unwrap();
        match &binding.sym {
            Symbol::Local(node_id) => {
                self.current_namespace_id = *node_id;
                self.current_namespace_path.push(name);
            },
            _ => {},
        }
    }

    /// Goes back to the parent namespace.
    pub fn leave(&mut self)
        requires
            old(self).wf(),
            !(old(self).current().kind is Root),
        ensures
            final(self).wf(),
            Some(final(self).current_namespace_id) == spec_parent(old(self).current().kind),
            old(self).current_namespace_path@.len() > 0 ==> final(self).current_namespace_path@
                == old(self).current_namespace_path@.drop_last(),
            old(self).current_namespace_path@.len() == 0 ==> final(self).current_namespace_path@
                == old(self).current_namespace_path@,
            final(self).scope_info == old(self).scope_info,
            final(self).file_map == old(self).file_map,
    {
        let mod_info = self.scope_info.get(self.current_namespace_id).unwrap();
        if let Some(id) = mod_info.parent() {
            self.current_namespace_id = id;
        }
        let _ = self.current_namespace_path.pop();
    }

    /// Takes out the parsed file of the module with the given path.
    pub fn remove_module(&mut self, path: &Vec<String>) -> (res: Option<Module>)
        ensures
            old(self).file_map.has(spec_path_names(path@)) <==> res is Some,
            final(self).current_namespace_id == old(self).current_namespace_id,
            final(self).current_namespace_path@ == old(self).current_namespace_path@,
            final(self).scope_info == old(self).scope_info,
            res is Some ==> final(self).file_map.entries@.len() == old(self).file_map.entries@.len() - 1,
            res is Some ==> exists|i: int|
                0 <= i < old(self).file_map.entries@.len()
                && #[trigger] old(self).file_map.paths()[i] == spec_path_names(path@)
                && res == Some(old(self).file_map.entries@[i].1)
                && final(self).file_map.entries@ == old(self).file_map.entries@.remove(i),
            res is None ==> final(self).file_map.entries@ == old(self).file_map.entries@,
            old(self).file_map.wf() ==> final(self).file_map.wf() && !final(self).file_map.has(spec_path_names(path@)),
    {
        let res = self.file_map.remove(path);
        proof {
            if res is Some {
                let i = choose|i: int|
                    0 <= i < old(self).file_map.entries@.len()
                    && #[trigger] old(self).file_map.paths()[i] == spec_path_names(path@)
                    && res == Some(old(self).file_map.entries@[i].1)
                    && final(self).file_map.entries@ == old(self).file_map.entries@.remove(i);
            }
        }
        res
    }

    /// Binds `name` in the current scope; a name can be bound only once.
    pub fn add_item(&mut self, name: Ident, binding: Binding) -> (res: Result<(), Diagnostic>)
        requires
            old(self).wf(),
            name.data@ != "super"@,
            name.data@ != "self"@,
            name.data@ != "Self"@,
            old(self).scope_info.binding_ok(binding),
        ensures
            final(self).wf(),
            old(self).current().items.has(name.data@) <==> res is Err,
            res matches Err(d) ==> spec_labelled_error(d, name.pos, name.data@ + " is already bound"@)
                && *final(self) == *old(self),
            res is Ok ==> Self::spec_bound(*old(self), *final(self), name.data@, binding),
    {
        let name_s = name.name_str();
        let id = self.current_namespace_id;
        if self.scope_info.get(id).unwrap().items.contains_key(name_s.as_str()) {
            return Err(error::already_bound(&name.pos, name_s));
        }
        let ghost old_info = self.scope_info;
        let mut scope = self.scope_info.remove(id).unwrap();
        let _ = scope.items.insert(name_s, binding);
        self.scope_info.insert(id, scope);
        proof {
            assert forall|j: usize| #[trigger] self.scope_info.has_scope(j) implies self.scope_info.scope_ok(j)
                && spec_imports_named(self.scope_info.scope(j).kind) by {
                if j != id.id {
                    assert(old_info.has_scope(j));
                    assert(old_info.scope_ok(j));
                    assert forall|n: Seq<char>| #[trigger] self.scope_info.scope(j).items.has(n) implies
                        self.scope_info.binding_ok(self.scope_info.scope(j).items.value(n)) by {
                        assert(old_info.binding_ok(old_info.scope(j).items.value(n)));
                    }
                } else {
                    assert forall|n: Seq<char>| #[trigger] self.scope_info.scope(j).items.has(n) implies
                        self.scope_info.binding_ok(self.scope_info.scope(j).items.value(n)) by {
                        if n != name.data@ {
                            assert(old_info.scope(j).items.has(n));
                            assert(old_info.binding_ok(old_info.scope(j).items.value(n)));
                        }
                    }
                }
            }
        }
        Ok(())
    }

    /// Resolves the imports of all modules, and hands out the finished scopes.
    pub fn solve_imports(self, ctx: &mut crate::error::context::Context) -> (res: Result<ScopeInfo, crate::error::InternalError>)
        requires
            self.wf(),
        ensures
            res matches Ok(t) ==> {
                &&& spec_scopes_wf(t)
                &&& crate::mod_tree::import_solve::spec_same_shape(self.scope_info, t)
                &&& crate::mod_tree::import_solve::spec_fixpoint(t)
                &&& crate::mod_tree::import_solve::spec_imports_reported(t, *old(ctx), *final(ctx))
            },
            res matches Err(e) ==> e matches crate::error::InternalError::AnyMsg(m) && m@ == "imports did not settle"@,
            crate::mod_tree::import_solve::spec_fixpoint(self.scope_info) ==> res is Ok,
            crate::mod_tree::spec_reported_after(*old(ctx), *final(ctx)),
    {
        crate::mod_tree::import_solve::solve(ctx, self.scope_info)
    }

    pub fn get_current_module_id(&self) -> (res: NodeID)
        ensures
            res == self.current_namespace_id,
    {
        self.current_namespace_id
    }

    /// Registers the scope of a new namespace.
    pub fn add_mod_info(&mut self, id: NodeID, mod_info: Scope)
        requires
            old(self).wf(),
            !old(self).scope_info.has_scope(id.id),
            mod_info.items.keys_unique(),
            forall|n: Seq<char>| #[trigger] mod_info.items.has(n) ==> old(self).scope_info.binding_ok(mod_info.items.value(n)),
            spec_imports_named(mod_info.kind),
            spec_parent(mod_info.kind) matches Some(p) ==> old(self).scope_info.has_scope(p.id),
        ensures
            final(self).wf(),
            final(self).current_namespace_id == old(self).current_namespace_id,
            final(self).current_namespace_path@ == old(self).current_namespace_path@,
            final(self).file_map == old(self).file_map,
            final(self).scope_info.has_scope(id.id),
            final(self).scope_info.scope(id.id) == mod_info,
            forall|j: usize| j != id.id ==> (#[trigger] final(self).scope_info.has_scope(j)) == old(self).scope_info.has_scope(j),
            forall|j: usize| j != id.id && old(self).scope_info.has_scope(j)
                ==> #[trigger] final(self).scope_info.scope(j) == old(self).scope_info.scope(j),
    {
        let ghost old_info = self.scope_info;
        self.scope_info.insert(id, mod_info);
        proof {
            assert forall|j: usize| #[trigger] self.scope_info.has_scope(j) implies self.scope_info.scope_ok(j)
                && spec_imports_named(self.scope_info.scope(j).kind) by {
                if j != id.id {
                    assert(old_info.has_scope(j));
                    assert(old_info.scope_ok(j));
                    assert forall|n: Seq<char>| #[trigger] self.scope_info.scope(j).items.has(n) implies
                        self.scope_info.binding_ok(self.scope_info.scope(j).items.value(n)) by {
                        assert(old_info.binding_ok(old_info.scope(j).items.value(n)));
                    }
                } else {
                    assert forall|n: Seq<char>| #[trigger] self.scope_info.scope(j).items.has(n) implies
                        self.scope_info.binding_ok(self.scope_info.scope(j).items.value(n)) by {
                        assert(mod_info.items.has(n));
                    }
                }
            }
        }
    }

    pub fn get_current_name_path(&self) -> (res: &Vec<String>)
        ensures
            res@ == self.current_namespace_path@,
    {
        &self.current_namespace_path
    }

    /// Records an import written in the current module.
    pub fn add_import(&mut self, import: Import)
        requires
            old(self).wf(),
            import.path.data@.len() > 0,
            old(self).current().kind is Module,
        ensures
            final(self).wf(),
            final(self).current_namespace_id == old(self).current_namespace_id,
            final(self).current_namespace_path@ == old(self).current_namespace_path@,
            final(self).file_map == old(self).file_map,
            final(self).current().items == old(self).current().items,
            final(self).current().kind matches ScopeKind::Module { imports, parent }
                && old(self).current().kind matches ScopeKind::Module { imports: old_imports, parent: old_parent }
                && imports@ == old_imports@.push(import) && parent == old_parent,
            forall|j: usize| (#[trigger] final(self).scope_info.has_scope(j)) == old(self).scope_info.has_scope(j),
            forall|j: usize| j != old(self).current_namespace_id.id && old(self).scope_info.has_scope(j)
                ==> #[trigger] final(self).scope_info.scope(j) == old(self).scope_info.scope(j),
    {
        let id = self.current_namespace_id;
        let ghost old_info = self.scope_info;
        let mut scope = self.scope_info.remove(id).unwrap();
        match &mut scope.kind {
            ScopeKind::Module { imports, .. } => imports.push(import),
            _ => {},
        }
        self.scope_info.insert(id, scope);
        proof {
            assert forall|j: usize| #[trigger] self.scope_info.has_scope(j) implies self.scope_info.scope_ok(j)
                && spec_imports_named(self.scope_info.scope(j).kind) by {
                if j != id.id {
                    assert(old_info.has_scope(j));
                    assert(old_info.scope_ok(j));
                    assert forall|n: Seq<char>| #[trigger] self.scope_info.scope(j).items.has(n) implies
                        self.scope_info.binding_ok(self.scope_info.scope(j).items.value(n)) by {
                        assert(old_info.binding_ok(old_info.scope(j).items.value(n)));
                    }
                } else {
                    assert forall|n: Seq<char>| #[trigger] self.scope_info.scope(j).items.has(n) implies
                        self.scope_info.binding_ok(self.scope_info.scope(j).items.value(n)) by {
                        assert(old_info.scope(j).items.has(n));
                        assert(old_info.binding_ok(old_info.scope(j).items.value(n)));
                    }
                }
            }
        }
    }
}

} // verus!
