use vstd::prelude::*;

use crate::common::maps::NameMap;
use crate::common::{Ident, NodeID, Path, Visibility};

verus! {

/// The names declared or imported in one namespace.
pub struct Scope {
    pub items: NameMap<Binding>,
    pub kind: ScopeKind,
}

impl Scope {
    /// Return the parent (if it exists) of scope.
    ///
    /// The only scope without the parent is root.
    pub fn parent(&self) -> (res: Option<NodeID>)
        ensures
            res == spec_parent(self.kind),
    {
        match &self.kind {
            ScopeKind::Root => None,
            ScopeKind::Module { parent, .. } => Some(*parent),
            ScopeKind::Struct { parent } => Some(*parent),
            ScopeKind::Enum { parent } => Some(*parent),
        }
    }
}

pub open spec fn spec_parent(k: ScopeKind) -> Option<NodeID> {
    match k {
        ScopeKind::Root => None,
        ScopeKind::Module { parent, .. } => Some(parent),
        ScopeKind::Struct { parent } => Some(parent),
        ScopeKind::Enum { parent } => Some(parent),
    }
}

/// The kind of scope.
pub enum ScopeKind {
    Root,
    Module { imports: Vec<Import>, parent: NodeID },
    Enum { parent: NodeID },
    Struct { parent: NodeID },
}

/// An import written in a module: the path it names, how it is bound, and who may see it.
pub struct Import {
    pub path: Path,
    pub alias: Option<Ident>,
    pub is_glob: bool,
    pub vis: Visibility,
}

impl Clone for Import {
    fn clone(&self) -> (res: Self)
        ensures
            res.path.data@ == self.path.data@,
            res.alias == self.alias,
            res.is_glob == self.is_glob,
            res.vis == self.vis,
    {
        Import {
            path: self.path.clone(),
            alias: match &self.alias {
                Some(a) => Some(a.clone()),
                None => None,
            },
            is_glob: self.is_glob,
            vis: self.vis,
        }
    }
}

/// What a name in a scope stands for.
pub struct Binding {
    pub vis: Visibility,
    pub kind: Kind,
    pub sym: Symbol,
}

#[derive(Debug, Clone, Copy, PartialEq, Eq, Structural)]
pub enum Kind {
    Module,
    Func,
    Struct,
    Enum,
    Cons,
    BuiltinType,
}

pub enum Symbol {
    Local(NodeID),
    Imported(NodeID),
    GlobImported(NodeID),
    /// The name was brought in by more than one import; these are the candidates.
    Ambiguous(Vec<NodeID>),
}

impl Symbol {
    /// The declaration an unambiguous symbol refers to.
    pub open spec fn target(self) -> NodeID {
        match self {
            Symbol::Local(id) => id,
            Symbol::Imported(id) => id,
            Symbol::GlobImported(id) => id,
            Symbol::Ambiguous(_) => NodeID { id: 0 },
        }
    }

    /// Both symbols are the same.
    pub open spec fn same(self, other: Symbol) -> bool {
        match (self, other) {
            (Symbol::Ambiguous(a), Symbol::Ambiguous(b)) => a@ == b@,
            (Symbol::Ambiguous(_), _) => false,
            (_, Symbol::Ambiguous(_)) => false,
            _ => self == other,
        }
    }
}

/// A copy of a list of ids.
pub fn clone_ids(ids: &Vec<NodeID>) -> (res: Vec<NodeID>)
    ensures
        res@ == ids@,
{
    let mut v: Vec<NodeID> = Vec::new();
    let n = ids.len();
    let mut i: usize = 0;
    while i < n
        invariant
            n == ids@.len(),
            i <= n,
            v@ == ids@.subrange(0, i as int),
        decreases n - i,
    {
        v.push(ids[i]);
        i = i + 1;
        assert(v@ =~= ids@.subrange(0, i as int));
    }
    assert(ids@.subrange(0, n as int) =~= ids@);
    v
}

impl Binding {
    /// Both bindings are the same.
    pub open spec fn same(self, other: Binding) -> bool {
        self.vis == other.vis && self.kind == other.kind && self.sym.same(other.sym)
    }

    pub fn clone_binding(&self) -> (res: Binding)
        ensures
            res.same(*self),
            !(self.sym is Ambiguous) ==> res == *self,
    {
        let sym = match &self.sym {
            Symbol::Local(id) => Symbol::Local(*id),
            Symbol::Imported(id) => Symbol::Imported(*id),
            Symbol::GlobImported(id) => Symbol::GlobImported(*id),
            Symbol::Ambiguous(ids) => Symbol::Ambiguous(clone_ids(ids)),
        };
        Binding { vis: self.vis, kind: self.kind, sym }
    }
}

} // verus!
