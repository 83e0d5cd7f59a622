//! The core representation: values in machine types, stack slots, loads and stores.
use vstd::prelude::*;

use crate::common::maps::IdMap;
use crate::common::NodeID;

verus! {

/// The machine types.
#[derive(Debug, Clone, Copy, PartialEq, Eq, Structural)]
pub enum Type {
    Tu8,
    Tu16,
    Tu32,
    Tu64,
    Tusize,
    Ti8,
    Ti16,
    Ti32,
    Ti64,
    Tisize,
}

#[derive(Debug)]
pub struct Program {
    pub symbols: IdMap<Symbol>,
    pub functions: Vec<Func>,
}

#[derive(Debug)]
pub struct Symbol {
    pub name: String,
    pub kind: SymKind,
    pub is_extern: bool,
    pub mangle: bool,
}

#[derive(Debug)]
pub enum SymKind {
    Func { args: Vec<Type>, returns: Vec<Type> },
    BuiltinFunc { args: Vec<Type>, returns: Vec<Type>, item_name: String },
}

#[derive(Debug)]
pub struct Func {
    pub id: NodeID,
    pub args: Vec<(VarID, Type)>,
    pub returns: Vec<Type>,
    pub body: Expr,
}

/// A local variable, by number.
#[derive(Debug, Clone, Copy, PartialEq, Eq, Structural, Hash, PartialOrd, Ord)]
pub struct VarID(pub usize);

impl VarID {
    pub fn get(&self) -> (res: usize)
        ensures
            res == self.0,
    {
        self.0
    }
}

/// Hands out the numbers of local variables, from one up.
#[derive(Debug)]
pub struct VarSpawner(pub usize);

impl VarSpawner {
    pub fn new() -> (res: Self)
        ensures
            res.0 == 0,
    {
        VarSpawner(0)
    }

    /// A number not handed out before.
    pub fn fresh(&mut self) -> (res: VarID)
        requires
            old(self).0 < usize::MAX,
        ensures
            final(self).0 == old(self).0 + 1,
            res.0 == final(self).0,
    {
        self.0 = self.0 + 1;
        VarID(self.0)
    }
}

#[derive(Debug, PartialEq, Eq, Structural)]
pub enum VarRef {
    Local(VarID),
    Global(NodeID),
}

#[derive(Debug, PartialEq, Eq, Structural)]
pub enum Value {
    Unit,
    Var(VarRef),
    Const(usize, Type),
}

/// The machine signature of a call.
#[derive(Debug)]
pub struct FnSig {
    pub params: Vec<Type>,
    pub returns: Vec<Type>,
}

#[derive(Debug)]
pub enum Expr {
    Value(Value),
    FunCall { expr: Box<Expr>, args: Vec<Expr>, sig: FnSig },
    Return { expr: Box<Expr> },
    Let { id: VarID, e1: Box<Expr> },
    StackSlot { size: u32 },
    Store { ptr: Box<Expr>, val: Box<Expr>, offset: i32 },
    Load { tp: Type, ptr: Box<Expr>, offset: i32 },
    While { pred: Box<Expr>, block: Box<Expr> },
    Block { exprs: Vec<Expr>, last_expr: Box<Expr> },
    Builtin { name: String, args: Vec<Expr> },
}

impl Value {
    /// A copy of the value.
    pub fn copy(&self) -> (res: Value)
        ensures
            res == *self,
    {
        match self {
            Value::Unit => Value::Unit,
            Value::Var(VarRef::Local(v)) => Value::Var(VarRef::Local(*v)),
            Value::Var(VarRef::Global(id)) => Value::Var(VarRef::Global(*id)),
            Value::Const(n, t) => Value::Const(*n, *t),
        }
    }
}

} // verus!
