use vstd::prelude::*;

use crate::common::maps::IdMap;
use crate::common::{concat, str_eq, Ident, NodeID, Path, Position, Visibility};
use crate::error::diagnostic::{spec_labelled_error, Diagnostic};
use crate::mod_tree::error;
use crate::mod_tree::scope::{spec_parent, Binding, Kind, Scope, Symbol};

verus! {

/// All scopes of a program, by the id of the item that opens them.
pub struct ScopeInfo {
    pub data: IdMap<Scope>,
}

/// Why a path could not be followed.
pub enum PathError {
    /// The path named nothing.
    Empty,
    /// The name is private where it is used.
    Private(Ident),
    /// The name was brought in by more than one import.
    Ambiguous(Ident),
    /// The name is neither a module nor a type, so the path cannot go on through it.
    NotNamespace(Ident, Kind),
    /// Nothing is bound to the name.
    Unbound(Ident),
}

/// The binding `super` stands for: the parent module.
pub open spec fn spec_super_binding(parent: NodeID) -> Binding {
    Binding { vis: Visibility::Private, kind: Kind::Module, sym: Symbol::Imported(parent) }
}

/// What following the path `names` from scope `scope_id` gives.
///
/// The guard allows one private step: it is set when the lookup starts in the current
/// module, and after going through a type.
pub open spec fn spec_find_path(info: ScopeInfo, scope_id: usize, names: Seq<Ident>, guard: bool) -> Result<
    Binding,
    PathError,
>
    decreases 2 * names.len() + if guard {
        1int
    } else {
        0int
    },
{
    if names.len() == 0 {
        Err(PathError::Empty)
    } else {
        let name = names[0];
        let rest = names.drop_first();
        let scope = info.scope(scope_id);
        if scope.items.has(name.data@) {
            let b = scope.items.value(name.data@);
            if b.vis == Visibility::Private && !guard {
                Err(PathError::Private(name))
            } else if rest.len() == 0 {
                if b.sym is Ambiguous {
                    Err(PathError::Ambiguous(name))
                } else {
                    Ok(b)
                }
            } else {
                match b.kind {
                    Kind::Module => if b.sym is Ambiguous {
                        Err(PathError::Ambiguous(name))
                    } else {
                        spec_find_path(info, b.sym.target().id, rest, false)
                    },
                    Kind::Struct | Kind::Enum => if b.sym is Ambiguous {
                        Err(PathError::Ambiguous(name))
                    } else {
                        spec_find_path(info, b.sym.target().id, rest, true)
                    },
                    _ => Err(PathError::NotNamespace(name, b.kind)),
                }
            }
        } else if guard {
            if name.data@ == "super"@ {
                match spec_parent(scope.kind) {
                    None => Err(PathError::Unbound(name)),
                    Some(parent) => if rest.len() == 0 {
                        Ok(spec_super_binding(parent))
                    } else {
                        spec_find_path(info, parent.id, rest, guard)
                    },
                }
            } else {
                spec_find_path(info, 0, names, false)
            }
        } else {
            Err(PathError::Unbound(name))
        }
    }
}

/// The diagnostic reports the error.
pub open spec fn spec_path_diag(e: PathError, d: Diagnostic) -> bool {
    match e {
        PathError::Empty => true,
        PathError::Private(n) => spec_labelled_error(d, n.pos, n.data@ + " is private"@),
        PathError::Ambiguous(n) => spec_labelled_error(d, n.pos, n.data@ + " is ambiguous"@),
        PathError::Unbound(n) => spec_labelled_error(d, n.pos, "unbound variable: "@ + n.data@),
        PathError::NotNamespace(n, k) => {
            &&& d.severity == crate::error::diagnostic::Severity::Error
            &&& d.pos == n.pos
            &&& d.labels@.len() == 1
            &&& d.labels@[0].pos == n.pos
            &&& d.labels@[0].msg@ == "cannot import from "@ + n.data@
            &&& k == Kind::Func ==> d.notes@.len() == 1 && d.notes@[0]@ == n.data@ + " is a function"@
            &&& k == Kind::Cons ==> d.notes@.len() == 1 && d.notes@[0]@ == n.data@ + " is an enum constructor"@
        },
    }
}

impl ScopeInfo {
    pub open spec fn has_scope(self, id: usize) -> bool {
        self.data.has(id)
    }

    pub open spec fn scope(self, id: usize) -> Scope {
        self.data.value(id)
    }

    /// A binding that lookups can follow: types and modules it names have scopes.
    pub open spec fn binding_ok(self, b: Binding) -> bool {
        &&& b.kind != Kind::BuiltinType
        &&& (b.kind == Kind::Module || b.kind == Kind::Struct || b.kind == Kind::Enum) && !(b.sym is Ambiguous)
            ==> self.has_scope(b.sym.target().id)
    }

    pub open spec fn scope_ok(self, id: usize) -> bool {
        &&& self.scope(id).items.keys_unique()
        &&& (spec_parent(self.scope(id).kind) matches Some(p) ==> self.has_scope(p.id))
        &&& forall|n: Seq<char>| #[trigger] self.scope(id).items.has(n) ==> self.binding_ok(self.scope(id).items.value(n))
    }

    pub open spec fn wf(self) -> bool {
        &&& self.data.keys_unique()
        &&& self.has_scope(0)
        &&& forall|id: usize| #[trigger] self.has_scope(id) ==> self.scope_ok(id)
    }

    /// Create a new scope context.
    pub fn new() -> (res: Self)
        ensures
            res.data.keys_unique(),
            forall|id: usize| !res.has_scope(id),
    {
        ScopeInfo { data: IdMap::new() }
    }

    /// Insert a new scope.
    pub fn insert(&mut self, scope_id: NodeID, scope: Scope)
        requires
            old(self).data.keys_unique(),
        ensures
            final(self).data.keys_unique(),
            final(self).has_scope(scope_id.id),
            final(self).scope(scope_id.id) == scope,
            forall|j: usize| j != scope_id.id ==> (final(self).has_scope(j) == old(self).has_scope(j)),
            forall|j: usize| j != scope_id.id && old(self).has_scope(j) ==> final(self).scope(j) == old(self).scope(j),
    {
        let _ = self.data.insert(scope_id.id, scope);
    }

    /// Get scope with `scope_id`.
    pub fn get(&self, scope_id: NodeID) -> (res: Option<&Scope>)
        requires
            self.data.keys_unique(),
        ensures
            self.has_scope(scope_id.id) ==> res == Some(&self.scope(scope_id.id)),
            !self.has_scope(scope_id.id) ==> res is None,
    {
        self.data.get(scope_id.id)
    }

    /// Take the scope with `scope_id` out, to change it and put it back.
    pub fn remove(&mut self, scope_id: NodeID) -> (res: Option<Scope>)
        requires
            old(self).data.keys_unique(),
        ensures
            final(self).data.keys_unique(),
            !final(self).has_scope(scope_id.id),
            old(self).has_scope(scope_id.id) ==> res == Some(old(self).scope(scope_id.id)),
            !old(self).has_scope(scope_id.id) ==> res is None,
            forall|j: usize| j != scope_id.id ==> (final(self).has_scope(j) == old(self).has_scope(j)),
            forall|j: usize| j != scope_id.id && old(self).has_scope(j) ==> final(self).scope(j) == old(self).scope(j),
    {
        self.data.remove(scope_id.id)
    }

    /// Returns binding of variable in scope with `scope_id`.
    ///
    /// It will never return ambiguous bindings, returning `Diagnostic` instead.
    ///
    /// Private guard will allow for one private access in the path,
    /// used for accessing items in the same module or parent.
    pub fn find_path(&self, scope_id: NodeID, path: Path, private_guard: &mut bool) -> (res: Result<
        Binding,
        Diagnostic,
    >)
        requires
            self.wf(),
            self.has_scope(scope_id.id),
            path.data@.len() > 0,
        ensures
            *final(private_guard) == *old(private_guard),
            match spec_find_path(*self, scope_id.id, path.data@, *old(private_guard)) {
                Ok(b) => res == Ok::<Binding, Diagnostic>(b),
                Err(e) => res matches Err(d) && spec_path_diag(e, d),
            },
        decreases 2 * path.data@.len() + if *old(private_guard) {
            1int
        } else {
            0int
        },
    {
        let ghost names = path.data@;
        let mut path = path;
        let name = match path.pop_front_inplace() {
            Some(n) => n,
            None => {
                return Err(error::unbound_variable(&Position::nowhere(), String::new()));
            },
        };
        assert(path.data@ == names.drop_first());
        let namespace = self.get(scope_id).unwrap();
        assert(self.scope_ok(scope_id.id));
        match namespace.items.get(name.data.as_str()) {
            Some(binding) => {
                assert(self.binding_ok(*binding));
                if binding.vis == Visibility::Private && !*private_guard {
                    return Err(error::private_item(&name.pos, name.data));
                }
                if path.data.len() == 0 {
                    if let Symbol::Ambiguous(_) = binding.sym {
                        return Err(error::ambiguous_symbol(&name.pos, name.data));
                    }
                    return Ok(binding.clone_binding());
                }
                let mut private_guard = false;
                let id = match binding.kind {
                    Kind::Module => match &binding.sym {
                        Symbol::Local(node_id) | Symbol::Imported(node_id) | Symbol::GlobImported(node_id) => *node_id,
                        Symbol::Ambiguous(_) => {
                            return Err(error::ambiguous_symbol(&name.pos, name.data));
                        },
                    },
                    Kind::Struct | Kind::Enum => match &binding.sym {
                        Symbol::Local(node_id) | Symbol::Imported(node_id) | Symbol::GlobImported(node_id) => {
                            private_guard = true;
                            *node_id
                        },
                        Symbol::Ambiguous(_) => {
                            return Err(error::ambiguous_symbol(&name.pos, name.data));
                        },
                    },
                    Kind::Func => {
                        let note = concat(name.data.as_str(), " is a function");
                        return Err(error::cannot_import_from(&name.pos, name.data.clone()).with_note(note));
                    },
                    Kind::Cons => {
                        let note = concat(name.data.as_str(), " is an enum constructor");
                        return Err(error::cannot_import_from(&name.pos, name.data.clone()).with_note(note));
                    },
                    Kind::BuiltinType => {
                        return Err(error::cannot_import_from(&name.pos, name.data.clone()));
                    },
                };
                self.find_path(id, path, &mut private_guard)
            },
            None => {
                if *private_guard {
                    if str_eq(name.data.as_str(), "super") {
                        let parent = match namespace.parent() {
                            Some(parent) => parent,
                            None => {
                                return Err(error::unbound_variable(&name.pos, name.data));
                            },
                        };
                        if path.data.len() == 0 {
                            let binding = Binding {
                                vis: Visibility::Private,
                                kind: Kind::Module,
                                sym: Symbol::Imported(parent),
                            };
                            return Ok(binding);
                        }
                        self.find_path(parent, path, private_guard)
                    } else {
                        path.push_front_inplace(name);
                        assert(path.data@ =~= names);
                        let mut guard = false;
                        self.find_path(NodeID::of_root(), path, &mut guard)
                    }
                } else {
                    Err(error::unbound_variable(&name.pos, name.data))
                }
            },
        }
    }
}

} // verus!
