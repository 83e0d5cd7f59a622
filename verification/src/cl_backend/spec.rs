//! What lowering the middle representation into an object-code plan does, as functions on
//! a state: the instructions so far, the next free numbers, and where each local variable
//! lives.
use vstd::prelude::*;

use crate::codegen::emit::spec_node_text;
use crate::codegen::plan::{insts_view, spec_range, FuncDecl, InstV, Linkage, PlanBuilder};
use crate::common::NodeID;
use crate::core_ir::{spec_core_type, spec_core_types};
use crate::mir::ast;
use crate::symtable::layout::{Layout, LayoutKind};

verus! {

/// Where a local variable lives: in a register variable, in a function parameter value, or
/// in a stack slot at an offset, with its layout.
pub enum Var {
    Reg(usize),
    FnArg(usize),
    Stack { ss: usize, layout: Layout, offset: usize },
}

/// What lowering an expression yields.
#[derive(Debug)]
pub enum LRes {
    Val(usize),
    Vals(Vec<usize>),
    Func(NodeID),
    Builtin(String),
    StackS(usize),
    Unit,
}

/// What lowering yields, as a mathematical value.
pub enum LResV {
    Val(usize),
    Vals(Seq<usize>),
    Func(NodeID),
    Builtin(Seq<char>),
    StackS(usize),
    Unit,
}

impl View for LRes {
    type V = LResV;

    open spec fn view(&self) -> LResV {
        match *self {
            LRes::Val(v) => LResV::Val(v),
            LRes::Vals(vs) => LResV::Vals(vs@),
            LRes::Func(f) => LResV::Func(f),
            LRes::Builtin(name) => LResV::Builtin(name@),
            LRes::StackS(s) => LResV::StackS(s),
            LRes::Unit => LResV::Unit,
        }
    }
}

pub open spec fn spec_opt_lres(r: Option<LRes>) -> Option<LResV> {
    match r {
        Some(x) => Some(x@),
        None => None,
    }
}

/// The state of lowering a function body.
pub struct ClState {
    pub insts: Seq<InstV>,
    pub next_val: usize,
    pub next_slot: usize,
    pub next_var: usize,
    pub next_block: usize,
    pub vars: Map<usize, Var>,
}

pub open spec fn spec_state(b: PlanBuilder, vars: Map<usize, Var>) -> ClState {
    ClState {
        insts: insts_view(b.insts@),
        next_val: b.next_val,
        next_slot: b.next_slot,
        next_var: b.next_var,
        next_block: b.next_block,
        vars,
    }
}

/// `st` with `i` appended.
pub open spec fn sp_push(st: ClState, i: InstV) -> ClState {
    ClState {
        insts: st.insts.push(i),
        next_val: st.next_val,
        next_slot: st.next_slot,
        next_var: st.next_var,
        next_block: st.next_block,
        vars: st.vars,
    }
}

/// `st` with `i` appended, which defines the next value.
pub open spec fn sp_val(st: ClState, i: InstV) -> ClState {
    ClState {
        insts: st.insts.push(i),
        next_val: (st.next_val + 1) as usize,
        next_slot: st.next_slot,
        next_var: st.next_var,
        next_block: st.next_block,
        vars: st.vars,
    }
}

/// `st` with the variable `id` living in `v`.
pub open spec fn sp_bind(st: ClState, id: usize, v: Var) -> ClState {
    ClState {
        insts: st.insts,
        next_val: st.next_val,
        next_slot: st.next_slot,
        next_var: st.next_var,
        next_block: st.next_block,
        vars: st.vars.insert(id, v),
    }
}

/// An offset moved by a field offset; `None` for a negative field offset or one past the
/// numbers.
pub open spec fn spec_off(off: usize, d: i32) -> Option<usize> {
    if 0 <= d && off + d <= usize::MAX {
        Some((off + d) as usize)
    } else {
        None
    }
}

/// The result of a call with the given result values: nothing, one value, or several.
pub open spec fn spec_vals_to_lres(vals: Seq<usize>) -> LResV {
    if vals.len() == 0 {
        LResV::Unit
    } else if vals.len() == 1 {
        LResV::Val(vals[0])
    } else {
        LResV::Vals(vals)
    }
}

/// A direct call of `f`, whose results are the next values; `None` when `f` is not declared
/// or the numbers run out. `fs` maps each declared function to its numbers of parameters
/// and results.
pub open spec fn spec_call(st: ClState, f: NodeID, args: Seq<usize>, fs: Map<usize, (usize, usize)>) -> Option<
    (Seq<usize>, ClState),
> {
    if fs.contains_key(f.id) && st.next_val + fs[f.id].1 <= usize::MAX {
        let dsts = spec_range(st.next_val, fs[f.id].1 as nat);
        Some(
            (
                dsts,
                ClState {
                    insts: st.insts.push(InstV::Call { dsts, func: f, args }),
                    next_val: (st.next_val + fs[f.id].1) as usize,
                    next_slot: st.next_slot,
                    next_var: st.next_var,
                    next_block: st.next_block,
                    vars: st.vars,
                },
            ),
        )
    } else {
        None
    }
}

/// A lowering result as one value: a value is itself, a function is its address; anything
/// else is an error.
pub open spec fn spec_lres_to_val(r: LResV, st: ClState) -> Option<(usize, ClState)> {
    match r {
        LResV::Val(v) => Some((v, st)),
        LResV::Func(f) => if st.next_val < usize::MAX {
            Some((st.next_val, sp_val(st, InstV::FuncAddr { dst: st.next_val, func: f })))
        } else {
            None
        },
        _ => None,
    }
}

/// Lowering an expression of the middle representation from `st`. The outer `None` is an
/// error; the inner `None` means that the expression ended in a control statement (or a
/// part of it yielded nothing where a value was needed), after which nothing more of the
/// enclosing expression is lowered. `ns` tells, for each local variable, whether it must
/// live on the stack.
pub open spec fn spec_cl_lower(
    e: ast::Expr,
    st: ClState,
    fs: Map<usize, (usize, usize)>,
    ns: Map<usize, bool>,
) -> Option<(Option<LResV>, ClState)>
    decreases e,
{
    match e {
        ast::Expr::NumLit(n, tp) => if st.next_val < usize::MAX {
            Some(
                (
                    Some(LResV::Val(st.next_val)),
                    sp_val(st, InstV::Iconst { dst: st.next_val, tp: spec_core_type(tp), imm: n as i64 }),
                ),
            )
        } else {
            None
        },
        ast::Expr::FunCall { expr, args, .. } => match spec_cl_lower(*expr, st, fs, ns) {
            Some((Some(LResV::Func(f)), st1)) => match spec_cl_args(args@, st1, fs, ns) {
                Some((Some(vals), st2)) => match spec_call(st2, f, vals, fs) {
                    Some((dsts, st3)) => Some((Some(spec_vals_to_lres(dsts)), st3)),
                    None => None,
                },
                Some((None, st2)) => Some((None, st2)),
                None => None,
            },
            Some((Some(LResV::Builtin(name)), st1)) => if name == "i32_add"@ {
                match spec_cl_args(args@, st1, fs, ns) {
                    Some((Some(vals), st2)) => if vals.len() >= 2 && st2.next_val < usize::MAX {
                        Some(
                            (
                                Some(LResV::Val(st2.next_val)),
                                sp_val(st2, InstV::Iadd { dst: st2.next_val, lhs: vals[0], rhs: vals[1] }),
                            ),
                        )
                    } else {
                        None
                    },
                    Some((None, st2)) => Some((None, st2)),
                    None => None,
                }
            } else {
                None
            },
            Some((None, st1)) => Some((None, st1)),
            _ => None,
        },
        ast::Expr::Block { exprs, last_expr, .. } => match spec_cl_block(exprs@, st, fs, ns) {
            Some((true, st1)) => spec_cl_lower(*last_expr, st1, fs, ns),
            Some((false, st1)) => Some((None, st1)),
            None => None,
        },
        ast::Expr::Return { expr, .. } => match spec_cl_lower(*expr, st, fs, ns) {
            Some((Some(LResV::Val(v)), st1)) => Some((None, sp_push(st1, InstV::Return { vals: seq![v] }))),
            Some((Some(LResV::Vals(vs)), st1)) => Some((None, sp_push(st1, InstV::Return { vals: vs }))),
            Some((None, st1)) => Some((None, st1)),
            _ => None,
        },
        ast::Expr::Let { id, layout, expr, .. } => if !ns.contains_key(id.0) {
            None
        } else if ns[id.0] {
            if st.next_slot < usize::MAX {
                let slot = st.next_slot;
                let st1 = ClState {
                    insts: st.insts.push(InstV::StackSlot { slot, size: layout.size, align_shift: layout.align as u8 }),
                    next_val: st.next_val,
                    next_slot: (slot + 1) as usize,
                    next_var: st.next_var,
                    next_block: st.next_block,
                    vars: st.vars,
                };
                match spec_write_to_ss(*expr, slot, 0, st1, fs, ns) {
                    Some((_, st2)) => Some(
                        (Some(LResV::Unit), sp_bind(st2, id.0, Var::Stack { ss: slot, layout, offset: 0 })),
                    ),
                    None => None,
                }
            } else {
                None
            }
        } else {
            match layout.kind {
                LayoutKind::Primitive(tp) => if st.next_var < usize::MAX {
                    let var = st.next_var;
                    let st1 = ClState {
                        insts: st.insts.push(InstV::DeclareVar { var, tp: spec_core_type(tp) }),
                        next_val: st.next_val,
                        next_slot: st.next_slot,
                        next_var: (var + 1) as usize,
                        next_block: st.next_block,
                        vars: st.vars,
                    };
                    match spec_cl_lower(*expr, st1, fs, ns) {
                        Some((Some(r), st2)) => match spec_lres_to_val(r, st2) {
                            Some((v, st3)) => Some(
                                (
                                    Some(LResV::Unit),
                                    sp_bind(sp_push(st3, InstV::DefVar { var, val: v }), id.0, Var::Reg(var)),
                                ),
                            ),
                            None => None,
                        },
                        Some((None, st2)) => Some((None, st2)),
                        None => None,
                    }
                } else {
                    None
                },
                _ => None,
            }
        },
        ast::Expr::Assign { lval, rval, .. } => match spec_cl_lower(*lval, st, fs, ns) {
            Some((Some(LResV::Val(a)), st1)) => match spec_write_to_addr(*rval, a, 0, st1) {
                Some(st2) => Some((Some(LResV::Unit), st2)),
                None => None,
            },
            Some((Some(LResV::StackS(ss)), st1)) => match spec_write_to_ss(*rval, ss, 0, st1, fs, ns) {
                Some((_, st2)) => Some((Some(LResV::Unit), st2)),
                None => None,
            },
            Some((None, st1)) => Some((None, st1)),
            _ => None,
        },
        ast::Expr::Ref { var: ast::VarRef::Local(id), .. } => if st.vars.contains_key(id.0) && st.vars[id.0] is Stack
            && st.next_val < usize::MAX {
            Some(
                (
                    Some(LResV::Val(st.next_val)),
                    sp_val(st, InstV::StackAddr { dst: st.next_val, slot: st.vars[id.0]->ss, offset: 0 }),
                ),
            )
        } else {
            None
        },
        ast::Expr::While { pred, block } => if st.next_block + 3 <= usize::MAX {
            let cond = st.next_block;
            let end = (cond + 1) as usize;
            let start = (cond + 2) as usize;
            let st1 = ClState {
                insts: st.insts.push(InstV::CreateBlock { block: cond }).push(InstV::CreateBlock { block: end }).push(
                    InstV::CreateBlock { block: start },
                ).push(InstV::Jump { block: cond }).push(InstV::SwitchTo { block: cond }),
                next_val: st.next_val,
                next_slot: st.next_slot,
                next_var: st.next_var,
                next_block: (cond + 3) as usize,
                vars: st.vars,
            };
            match spec_cl_lower(*pred, st1, fs, ns) {
                Some((Some(r), st2)) => match spec_lres_to_val(r, st2) {
                    Some((v, st3)) => {
                        let st4 = sp_push(
                            sp_push(
                                sp_push(st3, InstV::Brif { cond: v, then_block: start, else_block: end }),
                                InstV::SwitchTo { block: start },
                            ),
                            InstV::Seal { block: start },
                        );
                        match spec_cl_lower(*block, st4, fs, ns) {
                            Some((Some(_), st5)) => Some(
                                (
                                    Some(LResV::Unit),
                                    sp_push(
                                        sp_push(
                                            sp_push(
                                                sp_push(st5, InstV::Jump { block: cond }),
                                                InstV::SwitchTo { block: end },
                                            ),
                                            InstV::Seal { block: cond },
                                        ),
                                        InstV::Seal { block: end },
                                    ),
                                ),
                            ),
                            Some((None, st5)) => Some((None, st5)),
                            None => None,
                        }
                    },
                    None => None,
                },
                Some((None, st2)) => Some((None, st2)),
                None => None,
            }
        } else {
            None
        },
        ast::Expr::FieldAccess { object, field_id, struct_layout, .. } => match spec_cl_lower(*object, st, fs, ns) {
            Some((Some(LResV::StackS(ss)), st1)) => match struct_layout.kind {
                LayoutKind::Struct(items) => if field_id < items@.len() {
                    match items@[field_id as int].0.kind {
                        LayoutKind::Primitive(tp) => if st1.next_val < usize::MAX {
                            Some(
                                (
                                    Some(LResV::Val(st1.next_val)),
                                    sp_val(
                                        st1,
                                        InstV::StackLoad {
                                            dst: st1.next_val,
                                            tp: spec_core_type(tp),
                                            slot: ss,
                                            offset: items@[field_id as int].1,
                                        },
                                    ),
                                ),
                            )
                        } else {
                            None
                        },
                        _ => None,
                    }
                } else {
                    None
                },
                _ => None,
            },
            Some((None, st1)) => Some((None, st1)),
            _ => None,
        },
        ast::Expr::Var(ast::VarRef::Local(id)) => if st.vars.contains_key(id.0) {
            match st.vars[id.0] {
                Var::Reg(var) => if st.next_val < usize::MAX {
                    Some((Some(LResV::Val(st.next_val)), sp_val(st, InstV::UseVar { dst: st.next_val, var })))
                } else {
                    None
                },
                Var::Stack { ss, .. } => Some((Some(LResV::StackS(ss)), st)),
                Var::FnArg(v) => Some((Some(LResV::Val(v)), st)),
            }
        } else {
            None
        },
        ast::Expr::Var(ast::VarRef::Global(id)) => if fs.contains_key(id.id) {
            Some((Some(LResV::Func(id)), st))
        } else {
            None
        },
        _ => None,
    }
}

/// Lowering call arguments in order, each as one value; `Some(None)` when one of them
/// yields nothing.
pub open spec fn spec_cl_args(
    es: Seq<ast::Expr>,
    st: ClState,
    fs: Map<usize, (usize, usize)>,
    ns: Map<usize, bool>,
) -> Option<(Option<Seq<usize>>, ClState)>
    decreases es,
{
    if es.len() == 0 {
        Some((Some(seq![]), st))
    } else {
        match spec_cl_args(es.subrange(0, es.len() - 1), st, fs, ns) {
            Some((Some(vals), st1)) => match spec_cl_lower(es[es.len() - 1], st1, fs, ns) {
                Some((Some(r), st2)) => match spec_lres_to_val(r, st2) {
                    Some((v, st3)) => Some((Some(vals.push(v)), st3)),
                    None => None,
                },
                Some((None, st2)) => Some((None, st2)),
                None => None,
            },
            Some((None, st1)) => Some((None, st1)),
            None => None,
        }
    }
}

/// Lowering the statements of a block in order; `Some((false, _))` when one of them yields
/// nothing.
pub open spec fn spec_cl_block(
    es: Seq<ast::Expr>,
    st: ClState,
    fs: Map<usize, (usize, usize)>,
    ns: Map<usize, bool>,
) -> Option<(bool, ClState)>
    decreases es,
{
    if es.len() == 0 {
        Some((true, st))
    } else {
        match spec_cl_block(es.subrange(0, es.len() - 1), st, fs, ns) {
            Some((true, st1)) => match spec_cl_lower(es[es.len() - 1], st1, fs, ns) {
                Some((Some(_), st2)) => Some((true, st2)),
                Some((None, st2)) => Some((false, st2)),
                None => None,
            },
            Some((false, st1)) => Some((false, st1)),
            None => None,
        }
    }
}

/// Writing the value of an expression into the stack slot `ss` at `off`: a number is stored
/// there; a tuple writes each field (as many as its layout has) at its offset; a call
/// passes the address of the place as its first argument, then its arguments (a value as
/// it is, a stack value by address), then calls the callee. `Some((false, _))` when a part
/// yields nothing.
pub open spec fn spec_write_to_ss(
    e: ast::Expr,
    ss: usize,
    off: usize,
    st: ClState,
    fs: Map<usize, (usize, usize)>,
    ns: Map<usize, bool>,
) -> Option<(bool, ClState)>
    decreases e,
{
    match e {
        ast::Expr::NumLit(n, tp) => if st.next_val < usize::MAX {
            let v = st.next_val;
            Some(
                (
                    true,
                    sp_push(
                        sp_val(st, InstV::Iconst { dst: v, tp: spec_core_type(tp), imm: n as i64 }),
                        InstV::StackStore { val: v, slot: ss, offset: off as i32 },
                    ),
                ),
            )
        } else {
            None
        },
        ast::Expr::Tuple { fields, layout } => match layout.kind {
            LayoutKind::Struct(items) => match spec_ss_fields(fields@, items@, ss, off, st, fs, ns) {
                Some(st1) => Some((true, st1)),
                None => None,
            },
            _ => None,
        },
        ast::Expr::FunCall { expr, args, .. } => if st.next_val < usize::MAX {
            let ret_addr = st.next_val;
            let st1 = sp_val(st, InstV::StackAddr { dst: ret_addr, slot: ss, offset: off as i32 });
            match spec_ss_args(args@, st1, fs, ns) {
                Some((Some(vals), st2)) => match spec_cl_lower(*expr, st2, fs, ns) {
                    Some((Some(LResV::Func(f)), st3)) => match spec_call(st3, f, seq![ret_addr] + vals, fs) {
                        Some((_, st4)) => Some((true, st4)),
                        None => None,
                    },
                    Some((None, st3)) => Some((false, st3)),
                    _ => None,
                },
                Some((None, st2)) => Some((false, st2)),
                None => None,
            }
        } else {
            None
        },
        _ => None,
    }
}

/// The arguments of a call that writes into a stack slot: a value as it is, a stack value
/// by its address.
pub open spec fn spec_ss_args(
    es: Seq<ast::Expr>,
    st: ClState,
    fs: Map<usize, (usize, usize)>,
    ns: Map<usize, bool>,
) -> Option<(Option<Seq<usize>>, ClState)>
    decreases es,
{
    if es.len() == 0 {
        Some((Some(seq![]), st))
    } else {
        match spec_ss_args(es.subrange(0, es.len() - 1), st, fs, ns) {
            Some((Some(vals), st1)) => match spec_cl_lower(es[es.len() - 1], st1, fs, ns) {
                Some((Some(LResV::Val(x)), st2)) => Some((Some(vals.push(x)), st2)),
                Some((Some(LResV::StackS(s)), st2)) => if st2.next_val < usize::MAX {
                    Some(
                        (
                            Some(vals.push(st2.next_val)),
                            sp_val(st2, InstV::StackAddr { dst: st2.next_val, slot: s, offset: 0 }),
                        ),
                    )
                } else {
                    None
                },
                Some((None, st2)) => Some((None, st2)),
                _ => None,
            },
            Some((None, st1)) => Some((None, st1)),
            None => None,
        }
    }
}

/// The fields of a tuple written into a stack slot, each at the slot offset plus its field
/// offset; fields past those of the layout are left out.
pub open spec fn spec_ss_fields(
    es: Seq<ast::Expr>,
    items: Seq<(Layout, i32)>,
    ss: usize,
    off: usize,
    st: ClState,
    fs: Map<usize, (usize, usize)>,
    ns: Map<usize, bool>,
) -> Option<ClState>
    decreases es,
{
    if es.len() == 0 {
        Some(st)
    } else {
        let i = es.len() - 1;
        match spec_ss_fields(es.subrange(0, i), items, ss, off, st, fs, ns) {
            Some(st1) => if i < items.len() {
                match spec_off(off, items[i].1) {
                    Some(o) => match spec_write_to_ss(es[i], ss, o, st1, fs, ns) {
                        Some((_, st2)) => Some(st2),
                        None => None,
                    },
                    None => None,
                }
            } else {
                Some(st1)
            },
            None => None,
        }
    }
}

/// Writing the value of an expression to the address value `addr` at `off`: a number is
/// stored; a tuple writes each field at its offset; a variable is copied from where it
/// lives.
pub open spec fn spec_write_to_addr(e: ast::Expr, addr: usize, off: usize, st: ClState) -> Option<ClState>
    decreases e,
{
    match e {
        ast::Expr::NumLit(n, tp) => if st.next_val < usize::MAX {
            let v = st.next_val;
            Some(
                sp_push(
                    sp_val(st, InstV::Iconst { dst: v, tp: spec_core_type(tp), imm: n as i64 }),
                    InstV::Store { val: v, addr, offset: off as i32 },
                ),
            )
        } else {
            None
        },
        ast::Expr::Tuple { fields, layout } => match layout.kind {
            LayoutKind::Struct(items) => spec_addr_fields(fields@, items@, addr, off, st),
            _ => None,
        },
        ast::Expr::Var(ast::VarRef::Local(id)) => if st.vars.contains_key(id.0) {
            match st.vars[id.0] {
                Var::Reg(var) => if st.next_val < usize::MAX {
                    let v = st.next_val;
                    Some(
                        sp_push(
                            sp_val(st, InstV::UseVar { dst: v, var }),
                            InstV::Store { val: v, addr, offset: off as i32 },
                        ),
                    )
                } else {
                    None
                },
                Var::Stack { ss, layout, offset } => spec_store_from_layout(addr, off, ss, layout, offset, st),
                Var::FnArg(v) => Some(sp_push(st, InstV::Store { val: v, addr, offset: off as i32 })),
            }
        } else {
            None
        },
        _ => None,
    }
}

/// The fields of a tuple written to an address, each at its field offset.
pub open spec fn spec_addr_fields(
    es: Seq<ast::Expr>,
    items: Seq<(Layout, i32)>,
    addr: usize,
    off: usize,
    st: ClState,
) -> Option<ClState>
    decreases es,
{
    if es.len() == 0 {
        Some(st)
    } else {
        let i = es.len() - 1;
        match spec_addr_fields(es.subrange(0, i), items, addr, off, st) {
            Some(st1) => if i < items.len() {
                match spec_off(off, items[i].1) {
                    Some(o) => spec_write_to_addr(es[i], addr, o, st1),
                    None => None,
                }
            } else {
                Some(st1)
            },
            None => None,
        }
    }
}

/// Copying a value of the given layout from the stack slot `ss` at `ss_offset` to the
/// address `addr` at `off`: a primitive is loaded and stored; a struct copies each field,
/// moving the destination offset by the field offset (the source offset stays).
pub open spec fn spec_store_from_layout(
    addr: usize,
    off: usize,
    ss: usize,
    layout: Layout,
    ss_offset: usize,
    st: ClState,
) -> Option<ClState>
    decreases layout,
{
    match layout.kind {
        LayoutKind::Primitive(tp) => if st.next_val < usize::MAX {
            let v = st.next_val;
            Some(
                sp_push(
                    sp_val(st, InstV::StackLoad { dst: v, tp: spec_core_type(tp), slot: ss, offset: ss_offset as i32 }),
                    InstV::Store { val: v, addr, offset: off as i32 },
                ),
            )
        } else {
            None
        },
        LayoutKind::Struct(items) => spec_store_items(addr, off, ss, items@, ss_offset, st),
        LayoutKind::Union(_) => None,
    }
}

pub open spec fn spec_store_items(
    addr: usize,
    off: usize,
    ss: usize,
    items: Seq<(Layout, i32)>,
    ss_offset: usize,
    st: ClState,
) -> Option<ClState>
    decreases items,
{
    if items.len() == 0 {
        Some(st)
    } else {
        let i = items.len() - 1;
        match spec_store_items(addr, off, ss, items.subrange(0, i), ss_offset, st) {
            Some(st1) => match spec_off(off, items[i].1) {
                Some(o) => spec_store_from_layout(addr, o, ss, items[i].0, ss_offset, st1),
                None => None,
            },
            None => None,
        }
    }
}

} // verus!

verus! {

/// A list of arguments stops at a prefix that fails or yields nothing.
pub proof fn lemma_args_stop(
    es: Seq<ast::Expr>,
    j: int,
    st: ClState,
    fs: Map<usize, (usize, usize)>,
    ns: Map<usize, bool>,
)
    requires
        0 <= j <= es.len(),
        !(spec_cl_args(es.subrange(0, j), st, fs, ns) matches Some((Some(_), _))),
    ensures
        spec_cl_args(es, st, fs, ns) == spec_cl_args(es.subrange(0, j), st, fs, ns),
    decreases es.len() - j,
{
    if j == es.len() {
        assert(es.subrange(0, j) =~= es);
    } else {
        let es1 = es.subrange(0, es.len() - 1);
        assert(es1.subrange(0, j) =~= es.subrange(0, j));
        lemma_args_stop(es1, j, st, fs, ns);
    }
}

/// A block stops at a prefix that fails or yields nothing.
pub proof fn lemma_block_stop(
    es: Seq<ast::Expr>,
    j: int,
    st: ClState,
    fs: Map<usize, (usize, usize)>,
    ns: Map<usize, bool>,
)
    requires
        0 <= j <= es.len(),
        !(spec_cl_block(es.subrange(0, j), st, fs, ns) matches Some((true, _))),
    ensures
        spec_cl_block(es, st, fs, ns) == spec_cl_block(es.subrange(0, j), st, fs, ns),
    decreases es.len() - j,
{
    if j == es.len() {
        assert(es.subrange(0, j) =~= es);
    } else {
        let es1 = es.subrange(0, es.len() - 1);
        assert(es1.subrange(0, j) =~= es.subrange(0, j));
        lemma_block_stop(es1, j, st, fs, ns);
    }
}

/// The arguments of a call into a stack slot stop at a prefix that fails or yields nothing.
pub proof fn lemma_ss_args_stop(
    es: Seq<ast::Expr>,
    j: int,
    st: ClState,
    fs: Map<usize, (usize, usize)>,
    ns: Map<usize, bool>,
)
    requires
        0 <= j <= es.len(),
        !(spec_ss_args(es.subrange(0, j), st, fs, ns) matches Some((Some(_), _))),
    ensures
        spec_ss_args(es, st, fs, ns) == spec_ss_args(es.subrange(0, j), st, fs, ns),
    decreases es.len() - j,
{
    if j == es.len() {
        assert(es.subrange(0, j) =~= es);
    } else {
        let es1 = es.subrange(0, es.len() - 1);
        assert(es1.subrange(0, j) =~= es.subrange(0, j));
        lemma_ss_args_stop(es1, j, st, fs, ns);
    }
}

/// The fields written into a stack slot fail when a prefix does.
pub proof fn lemma_ss_fields_fail(
    es: Seq<ast::Expr>,
    items: Seq<(Layout, i32)>,
    ss: usize,
    off: usize,
    j: int,
    st: ClState,
    fs: Map<usize, (usize, usize)>,
    ns: Map<usize, bool>,
)
    requires
        0 <= j <= es.len(),
        spec_ss_fields(es.subrange(0, j), items, ss, off, st, fs, ns) is None,
    ensures
        spec_ss_fields(es, items, ss, off, st, fs, ns) is None,
    decreases es.len() - j,
{
    if j == es.len() {
        assert(es.subrange(0, j) =~= es);
    } else {
        let es1 = es.subrange(0, es.len() - 1);
        assert(es1.subrange(0, j) =~= es.subrange(0, j));
        lemma_ss_fields_fail(es1, items, ss, off, j, st, fs, ns);
    }
}

/// The fields written to an address fail when a prefix does.
pub proof fn lemma_addr_fields_fail(
    es: Seq<ast::Expr>,
    items: Seq<(Layout, i32)>,
    addr: usize,
    off: usize,
    j: int,
    st: ClState,
)
    requires
        0 <= j <= es.len(),
        spec_addr_fields(es.subrange(0, j), items, addr, off, st) is None,
    ensures
        spec_addr_fields(es, items, addr, off, st) is None,
    decreases es.len() - j,
{
    if j == es.len() {
        assert(es.subrange(0, j) =~= es);
    } else {
        let es1 = es.subrange(0, es.len() - 1);
        assert(es1.subrange(0, j) =~= es.subrange(0, j));
        lemma_addr_fields_fail(es1, items, addr, off, j, st);
    }
}

/// Copying the fields of a struct fails when a prefix does.
pub proof fn lemma_store_items_fail(
    addr: usize,
    off: usize,
    ss: usize,
    items: Seq<(Layout, i32)>,
    ss_offset: usize,
    j: int,
    st: ClState,
)
    requires
        0 <= j <= items.len(),
        spec_store_items(addr, off, ss, items.subrange(0, j), ss_offset, st) is None,
    ensures
        spec_store_items(addr, off, ss, items, ss_offset, st) is None,
    decreases items.len() - j,
{
    if j == items.len() {
        assert(items.subrange(0, j) =~= items);
    } else {
        let it1 = items.subrange(0, items.len() - 1);
        assert(it1.subrange(0, j) =~= items.subrange(0, j));
        lemma_store_items_fail(addr, off, ss, it1, ss_offset, j, st);
    }
}

} // verus!

verus! {

/// Where the arguments of a function live: the `i`-th of the first `n` arguments in the
/// `i`-th parameter value; of two arguments with one variable, the later wins.
pub open spec fn spec_cl_arg_vars(args: Seq<(ast::VarID, bool, crate::symtable::layout::Type)>, n: nat) -> Map<
    usize,
    Var,
>
    decreases n,
{
    if n == 0 || n > args.len() {
        Map::empty()
    } else {
        spec_cl_arg_vars(args, (n - 1) as nat).insert(args[n - 1].0.0, Var::FnArg((n - 1) as usize))
    }
}

/// The instructions of a function body: the entry block with one value per declared
/// parameter, the arguments living in them (as many as there are both), the body lowered,
/// and, unless it ended in a control statement, a return of its value or of nothing.
/// `None` is an error: the function is not declared, its storage decisions name a variable
/// twice, its body has no lowering, or its value is neither one value nor nothing.
pub open spec fn spec_cl_func_insts(f: ast::Func, fs: Map<usize, (usize, usize)>) -> Option<Seq<InstV>> {
    if fs.contains_key(f.id.id) && f.var_needs_stack.keys_unique() {
        let np = fs[f.id.id].0;
        let na = if np < f.args@.len() {
            np as nat
        } else {
            f.args@.len()
        };
        let st0 = ClState {
            insts: seq![InstV::Entry { params: spec_range(0, np as nat) }],
            next_val: np,
            next_slot: 0,
            next_var: 0,
            next_block: 0,
            vars: spec_cl_arg_vars(f.args@, na),
        };
        match spec_cl_lower(f.body, st0, fs, f.var_needs_stack.as_map()) {
            Some((Some(LResV::Val(v)), st)) => Some(st.insts.push(InstV::Return { vals: seq![v] })),
            Some((Some(LResV::Unit), st)) => Some(st.insts.push(InstV::Return { vals: seq![] })),
            Some((None, st)) => Some(st.insts),
            _ => None,
        }
    } else {
        None
    }
}

/// The body of a function that has one.
pub open spec fn spec_cl_body_of(f: ast::Func, fs: Map<usize, (usize, usize)>) -> Seq<InstV> {
    match spec_cl_func_insts(f, fs) {
        Some(is) => is,
        None => seq![],
    }
}

/// `d` declares the symbol `s` under `id`: `id_` and its id when mangled, else its own
/// name; exported when external; its signature in core types.
pub open spec fn spec_cl_decl(id: NodeID, s: ast::Symbol, d: FuncDecl) -> bool {
    &&& d.id == id
    &&& d.name@ == (if s.mangle {
        spec_node_text(id.id)
    } else {
        s.name@
    })
    &&& d.link == (if s.is_extern {
        Linkage::Export
    } else {
        Linkage::Local
    })
    &&& d.params@ == spec_core_types(s.kind->Func_args@)
    &&& d.returns@ == spec_core_types(s.kind->Func_returns@)
}

/// The numbers of parameters and results of each declared function of a program.
pub open spec fn spec_cl_fn_sigs(prog: ast::Program) -> Map<usize, (usize, usize)> {
    Map::new(
        |k: usize| prog.symbols.has(k),
        |k: usize|
            (
                prog.symbols.value(k).kind->Func_args@.len() as usize,
                prog.symbols.value(k).kind->Func_returns@.len() as usize,
            ),
    )
}

} // verus!
