//! The representation the C emitter prints: statements over variables and places.
use vstd::prelude::*;

use crate::common::NodeID;
use crate::symtable::SymTable;
use crate::tp::Type;

verus! {

pub struct Program {
    pub sym_table: SymTable,
    pub functions: Vec<Func>,
}

pub struct Func {
    pub id: NodeID,
    pub name: String,
    pub args: Vec<(VarID, Type)>,
    pub ret_type: Type,
    pub body: Vec<Stmt>,
}

pub enum Stmt {
    Return { expr: VarRef, ret_tp: Type },
    VarDecl { id: VarID, tp: Type },
    If { pred: VarRef, th: Vec<Stmt>, el: Vec<Stmt>, block_tp: Type },
    Assign { lval: LValue, rval: RValue },
    While { cond: VarRef, body: Vec<Stmt> },
}

pub enum RValue {
    NumLit(usize, Type),
    FunCall { callee: VarRef, args: Vec<VarRef>, ret_tp: Type },
    Ref { var: VarRef, tp: Type },
    StructCons { id: NodeID, initializers: Vec<(String, RValue)>, tp: Type },
    Value(LValue),
    ArrayInit(Vec<RValue>),
    Tuple(Vec<RValue>),
}

pub enum LValue {
    VarRef(VarRef),
    FieldAccess { var: VarRef, field_id: String, field_tp: Type },
    Deref { var: VarRef, in_tp: Type },
}

#[derive(Debug, Clone, Copy, PartialEq, Eq, Structural)]
pub enum VarRef {
    LocalVar { id: VarID },
    GlobalVar { id: NodeID },
}

#[derive(Debug, Clone, Copy, PartialEq, Eq, Structural)]
pub struct VarID(pub usize);

/// Hands out the numbers of local variables, from one up.
pub struct VarSpawner(pub usize);

impl VarSpawner {
    pub fn new() -> (res: Self)
        ensures
            res.0 == 0,
    {
        VarSpawner(0)
    }

    /// A number not handed out before.
    pub fn fresh(&mut self) -> (res: VarID)
        requires
            old(self).0 < usize::MAX,
        ensures
            final(self).0 == old(self).0 + 1,
            res.0 == final(self).0,
    {
        self.0 = self.0 + 1;
        VarID(self.0)
    }
}

} // verus!
