//! The syntax tree after the module tree was built: one tree of modules, each item
//! with an id of its own, and the scopes that name them.
use vstd::prelude::*;

use crate::common::{Ident, NodeID, NodeIdGen, Position, RAttribute, Visibility};
pub use crate::mod_tree::ScopeInfo;
pub use crate::parser::ast::{ExprNode, FnArg, RTypeNode};

verus! {

/// The whole program: its root module and the scopes of all namespaces.
pub struct Program {
    pub scope_info: ScopeInfo,
    pub ast: Module,
}

// ==== Top level ==============================================================

pub struct Module {
    pub attributes: Vec<RAttribute>,
    pub visibility: Visibility,
    pub id: NodeID,
    pub name: Ident,
    pub items: Vec<ModuleItem>,
    pub pos: Position,
}

pub enum ModuleItem {
    Module(Module),
    Func(Func),
    Struct(Struct),
    Enum(Enum),
}

// ==== Module items ===========================================================

pub struct Func {
    pub attributes: Vec<RAttribute>,
    pub visibility: Visibility,
    pub id: NodeID,
    pub name: Ident,
    pub args: Vec<FnArg>,
    pub ret_type: Option<RTypeNode>,
    pub body: Option<ExprNode>,
    pub pos: Position,
}

pub struct Struct {
    pub attributes: Vec<RAttribute>,
    pub visibility: Visibility,
    pub id: NodeID,
    pub name: Ident,
    pub fields: Vec<(Ident, RTypeNode)>,
    pub pos: Position,
    pub methods: Vec<Func>,
}

pub struct Enum {
    pub attributes: Vec<RAttribute>,
    pub visibility: Visibility,
    pub id: NodeID,
    pub name: Ident,
    pub constructors: Vec<Constructor>,
    pub pos: Position,
    pub methods: Vec<Func>,
}

// ==== Others =================================================================

pub enum Constructor {
    Tuple { attributes: Vec<RAttribute>, id: NodeID, name: Ident, pos: Position, params: Vec<RTypeNode> },
    Struct {
        attributes: Vec<RAttribute>,
        id: NodeID,
        name: Ident,
        pos: Position,
        fields: Vec<(Ident, RTypeNode)>,
    },
}

// ==== Utility functions ======================================================

impl Module {
    /// The name given to a module that could not be built.
    pub open spec fn spec_unknown_name() -> Seq<char> {
        "<unknown>"@
    }

    /// An empty private module with a fresh id, standing for one that could not be built.
    pub fn empty(gen: &mut NodeIdGen) -> (res: Self)
        requires
            old(gen).next < usize::MAX,
        ensures
            res.id.id == old(gen).next,
            final(gen).next == old(gen).next + 1,
            res.visibility == Visibility::Private,
            res.name.data@ == Self::spec_unknown_name(),
            res.attributes@.len() == 0,
            res.items@.len() == 0,
            res.pos.filename@ == Position::spec_nowhere_name() && res.pos.start == 0 && res.pos.end == 0,
            res.name.pos.filename@ == Position::spec_nowhere_name() && res.name.pos.start == 0 && res.name.pos.end == 0,
    {
        Module {
            attributes: Vec::new(),
            visibility: Visibility::Private,
            id: NodeID::new_global(gen),
            name: Ident { data: String::from_str("<unknown>"), pos: Position::nowhere() },
            items: Vec::new(),
            pos: Position::nowhere(),
        }
    }
}

} // verus!
