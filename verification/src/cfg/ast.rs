//! The control-flow graph: blocks of loads and stores ending in a jump or a return.
use vstd::prelude::*;

use crate::common::NodeID;

verus! {

pub struct Program {
    pub functions: Vec<Func>,
}

#[derive(Debug, Clone, Copy, PartialEq, Eq, Structural)]
pub enum Type {
    Tu8,
    Tu16,
    Tu32,
    Tu64,
    Tusize,
    Ti8,
    Ti16,
    Ti32,
    Ti64,
    Tisize,
}

pub struct Func {
    pub id: NodeID,
    pub name: String,
    pub args: Vec<(RegID, Type)>,
    pub returns: Vec<Type>,
    pub body: Vec<Block>,
}

pub struct Block {
    pub id: BlockID,
    pub body: Vec<Inst>,
    pub term: Terminal,
}

pub enum Inst {
    Load { v_out: RegID, v_in: Operand, offset: usize },
    Store { v_in: RegID, v_out: Operand, offset: usize },
}

pub enum Terminal {
    Return,
    Jump(BlockID),
    JumpCond { cond: Operand, if_false: BlockID, if_true: BlockID },
}

pub enum Operand {
    IConst(usize, Type),
    Global(NodeID),
    Reg(RegID),
}

pub struct RegID(pub usize);

pub struct BlockID(pub usize);

} // verus!
