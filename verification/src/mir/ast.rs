//! The middle representation: types are replaced by layouts, local variables by numbers.
use vstd::prelude::*;

use crate::common::maps::IdMap;
use crate::common::NodeID;
use crate::symtable::layout::{Layout, Type};

verus! {

/// A lowered program: its function symbols, by declaration id, and its functions.
pub struct Program {
    pub symbols: IdMap<Symbol>,
    pub functions: Vec<Func>,
}

pub struct Symbol {
    pub name: String,
    pub kind: SymKind,
    pub is_extern: bool,
    pub mangle: bool,
}

/// A function's signature in machine types: what does not fit in a register is passed by
/// address.
pub enum SymKind {
    Func { args: Vec<Type>, returns: Vec<Type> },
}

pub struct Func {
    pub id: NodeID,
    pub args: Vec<(VarID, bool, Type)>,
    pub returns: Vec<Type>,
    pub body: Expr,
    /// For each local variable, by number, whether it must live on the stack.
    pub var_needs_stack: IdMap<bool>,
}

/// A local variable, by number.
#[derive(Debug, Clone, Copy, PartialEq, Eq, Structural, Hash, PartialOrd, Ord)]
pub struct VarID(pub usize);

impl VarID {
    pub fn get(&self) -> (res: usize)
        ensures
            res == self.0,
    {
        self.0
    }
}

/// Hands out the numbers of local variables, from one up.
pub struct VarSpawner(pub usize);

impl VarSpawner {
    pub fn new() -> (res: Self)
        ensures
            res.0 == 0,
    {
        VarSpawner(0)
    }

    /// A number not handed out before.
    pub fn fresh(&mut self) -> (res: VarID)
        requires
            old(self).0 < usize::MAX,
        ensures
            final(self).0 == old(self).0 + 1,
            res.0 == final(self).0,
    {
        self.0 = self.0 + 1;
        VarID(self.0)
    }
}

pub enum VarRef {
    Local(VarID),
    Global(NodeID),
}

pub enum Expr {
    NumLit(usize, Type),
    StringLit(String, Layout),
    Tuple { fields: Vec<Expr>, layout: Layout },
    FunCall { expr: Box<Expr>, args: Vec<Expr>, args_tp: Vec<Layout>, ret_tp: Layout },
    FieldAccess { object: Box<Expr>, field_id: usize, struct_layout: Layout, element_layout: Layout },
    Block { exprs: Vec<Expr>, last_expr: Box<Expr>, block_tp: Layout },
    Return { expr: Box<Expr>, ret_tp: Type },
    Let { id: VarID, layout: Layout, is_mut: bool, expr: Box<Expr> },
    Assign { lval: Box<Expr>, rval: Box<Expr>, assign_tp: Layout },
    Ref { var: VarRef, tp: Type },
    RefMut { var: VarRef, tp: Type },
    Deref { expr: Box<Expr>, in_tp: Layout },
    Char(u8),
    ArrayInitRepeat(Box<Expr>, usize, Layout),
    ArrayInitExact(Vec<Expr>, Layout),
    While { pred: Box<Expr>, block: Box<Expr> },
    IndexAccess { arr: Box<Expr>, index: Box<Expr>, arr_layout: Layout, elem_layout: Layout },
    Var(VarRef),
    Builtin(String, Vec<Expr>),
}

} // verus!
