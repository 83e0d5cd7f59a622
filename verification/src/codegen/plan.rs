//! Object code as a plan: the functions to declare, and for each function body the
//! instructions to build, in order, over numbered values, stack slots, variables and blocks.
//! Replaying a plan into a code generator is one builder call per instruction.
use vstd::prelude::*;

use crate::common::NodeID;
use crate::core_ir::ast::Type;

verus! {

/// How a declared function is visible from outside the object file.
#[derive(Debug, Clone, Copy, PartialEq, Eq, Structural)]
pub enum Linkage {
    Local,
    Export,
}

/// A function to declare: its id, its symbol name, its linkage and its signature.
#[derive(Debug, PartialEq, Eq)]
pub struct FuncDecl {
    pub id: NodeID,
    pub name: String,
    pub link: Linkage,
    pub params: Vec<Type>,
    pub returns: Vec<Type>,
}

/// One builder call. Values, stack slots, variables and blocks are numbered in the order
/// in which the instructions define them, from zero, within one function body.
#[derive(Debug, PartialEq, Eq)]
pub enum Inst {
    /// Creates the entry block with one parameter per function parameter, switches to it and
    /// seals it; the parameters are the values `params`.
    Entry { params: Vec<usize> },
    Iconst { dst: usize, tp: Type, imm: i64 },
    Iadd { dst: usize, lhs: usize, rhs: usize },
    /// The address of a declared function.
    FuncAddr { dst: usize, func: NodeID },
    /// A direct call of a declared function; `dsts` are its results.
    Call { dsts: Vec<usize>, func: NodeID, args: Vec<usize> },
    /// A call through an address, with the given signature; `dsts` are its results.
    CallIndirect { dsts: Vec<usize>, params: Vec<Type>, returns: Vec<Type>, callee: usize, args: Vec<usize> },
    Return { vals: Vec<usize> },
    /// Creates a stack slot of `size` bytes, aligned to `2^align_shift`.
    StackSlot { slot: usize, size: u32, align_shift: u8 },
    StackAddr { dst: usize, slot: usize, offset: i32 },
    StackLoad { dst: usize, tp: Type, slot: usize, offset: i32 },
    StackStore { val: usize, slot: usize, offset: i32 },
    Load { dst: usize, tp: Type, addr: usize, offset: i32 },
    Store { val: usize, addr: usize, offset: i32 },
    DeclareVar { var: usize, tp: Type },
    DefVar { var: usize, val: usize },
    UseVar { dst: usize, var: usize },
    CreateBlock { block: usize },
    SwitchTo { block: usize },
    Seal { block: usize },
    Jump { block: usize },
    /// Branches to `then_block` when `cond` is not zero, else to `else_block`.
    Brif { cond: usize, then_block: usize, else_block: usize },
}

/// An instruction as a mathematical value.
pub enum InstV {
    Entry { params: Seq<usize> },
    Iconst { dst: usize, tp: Type, imm: i64 },
    Iadd { dst: usize, lhs: usize, rhs: usize },
    FuncAddr { dst: usize, func: NodeID },
    Call { dsts: Seq<usize>, func: NodeID, args: Seq<usize> },
    CallIndirect { dsts: Seq<usize>, params: Seq<Type>, returns: Seq<Type>, callee: usize, args: Seq<usize> },
    Return { vals: Seq<usize> },
    StackSlot { slot: usize, size: u32, align_shift: u8 },
    StackAddr { dst: usize, slot: usize, offset: i32 },
    StackLoad { dst: usize, tp: Type, slot: usize, offset: i32 },
    StackStore { val: usize, slot: usize, offset: i32 },
    Load { dst: usize, tp: Type, addr: usize, offset: i32 },
    Store { val: usize, addr: usize, offset: i32 },
    DeclareVar { var: usize, tp: Type },
    DefVar { var: usize, val: usize },
    UseVar { dst: usize, var: usize },
    CreateBlock { block: usize },
    SwitchTo { block: usize },
    Seal { block: usize },
    Jump { block: usize },
    Brif { cond: usize, then_block: usize, else_block: usize },
}

impl View for Inst {
    type V = InstV;

    open spec fn view(&self) -> InstV {
        match *self {
            Inst::Entry { params } => InstV::Entry { params: params@ },
            Inst::Iconst { dst, tp, imm } => InstV::Iconst { dst, tp, imm },
            Inst::Iadd { dst, lhs, rhs } => InstV::Iadd { dst, lhs, rhs },
            Inst::FuncAddr { dst, func } => InstV::FuncAddr { dst, func },
            Inst::Call { dsts, func, args } => InstV::Call { dsts: dsts@, func, args: args@ },
            Inst::CallIndirect { dsts, params, returns: rs, callee, args } => InstV::CallIndirect {
                dsts: dsts@,
                params: params@,
                returns: rs@,
                callee,
                args: args@,
            },
            Inst::Return { vals } => InstV::Return { vals: vals@ },
            Inst::StackSlot { slot, size, align_shift } => InstV::StackSlot { slot, size, align_shift },
            Inst::StackAddr { dst, slot, offset } => InstV::StackAddr { dst, slot, offset },
            Inst::StackLoad { dst, tp, slot, offset } => InstV::StackLoad { dst, tp, slot, offset },
            Inst::StackStore { val, slot, offset } => InstV::StackStore { val, slot, offset },
            Inst::Load { dst, tp, addr, offset } => InstV::Load { dst, tp, addr, offset },
            Inst::Store { val, addr, offset } => InstV::Store { val, addr, offset },
            Inst::DeclareVar { var, tp } => InstV::DeclareVar { var, tp },
            Inst::DefVar { var, val } => InstV::DefVar { var, val },
            Inst::UseVar { dst, var } => InstV::UseVar { dst, var },
            Inst::CreateBlock { block } => InstV::CreateBlock { block },
            Inst::SwitchTo { block } => InstV::SwitchTo { block },
            Inst::Seal { block } => InstV::Seal { block },
            Inst::Jump { block } => InstV::Jump { block },
            Inst::Brif { cond, then_block, else_block } => InstV::Brif { cond, then_block, else_block },
        }
    }
}

/// The instructions of one function body.
#[derive(Debug, PartialEq, Eq)]
pub struct FuncBody {
    pub id: NodeID,
    pub insts: Vec<Inst>,
}

/// A whole object file: the declarations, then the bodies to define, in order.
#[derive(Debug, PartialEq, Eq)]
pub struct ObjectPlan {
    pub decls: Vec<FuncDecl>,
    pub bodies: Vec<FuncBody>,
}

/// The instructions of a function body being built, with the next free numbers of
/// values, stack slots, variables and blocks.
#[derive(Debug)]
pub struct PlanBuilder {
    pub insts: Vec<Inst>,
    pub next_val: usize,
    pub next_slot: usize,
    pub next_var: usize,
    pub next_block: usize,
}

impl PlanBuilder {
    pub fn new() -> (res: Self)
        ensures
            res.insts@.len() == 0,
            res.next_val == 0,
            res.next_slot == 0,
            res.next_var == 0,
            res.next_block == 0,
    {
        PlanBuilder { insts: Vec::new(), next_val: 0, next_slot: 0, next_var: 0, next_block: 0 }
    }

    /// Appends an instruction.
    pub fn push(&mut self, i: Inst)
        ensures
            final(self).insts@ == old(self).insts@.push(i),
            insts_view(final(self).insts@) == insts_view(old(self).insts@).push(i@),
            final(self).next_val == old(self).next_val,
            final(self).next_slot == old(self).next_slot,
            final(self).next_var == old(self).next_var,
            final(self).next_block == old(self).next_block,
    {
        self.insts.push(i);
        assert(insts_view(self.insts@) =~= insts_view(old(self).insts@).push(i@));
    }
}

/// The views of a list of instructions.
pub open spec fn insts_view(is: Seq<Inst>) -> Seq<InstV> {
    Seq::new(is.len(), |i: int| is[i]@)
}

/// The numbers `from`, `from + 1`, ..., `from + n - 1`.
pub open spec fn spec_range(from: usize, n: nat) -> Seq<usize> {
    Seq::new(n, |i: int| (from + i) as usize)
}

/// The numbers `from`, ..., `from + n - 1`, as a list.
pub fn range_vec(from: usize, n: usize) -> (res: Vec<usize>)
    requires
        from + n <= usize::MAX,
    ensures
        res@ == spec_range(from, n as nat),
{
    let mut v: Vec<usize> = Vec::new();
    let mut i: usize = 0;
    while i < n
        invariant
            from + n <= usize::MAX,
            i <= n,
            v@ == spec_range(from, i as nat),
        decreases n - i,
    {
        v.push(from + i);
        i = i + 1;
        assert(v@ =~= spec_range(from, i as nat));
    }
    v
}

/// A copy of a list of machine types.
pub fn copy_types(ts: &Vec<Type>) -> (res: Vec<Type>)
    ensures
        res@ == ts@,
{
    let mut v: Vec<Type> = Vec::new();
    let n = ts.len();
    let mut i: usize = 0;
    while i < n
        invariant
            n == ts@.len(),
            i <= n,
            v@ == ts@.subrange(0, i as int),
        decreases n - i,
    {
        v.push(ts[i]);
        i = i + 1;
        assert(v@ =~= ts@.subrange(0, i as int));
    }
    assert(ts@.subrange(0, n as int) =~= ts@);
    v
}

} // verus!
