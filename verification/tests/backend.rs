use mustcc::cl_backend;
use mustcc::cl_backend::env::Env;
use mustcc::codegen;
use mustcc::codegen::plan::{FuncDecl, Inst, Linkage};
use mustcc::common::maps::IdMap;
use mustcc::common::NodeID;
use mustcc::core_ir::ast::{
    Expr as CExpr, FnSig, Func as CFunc, Program as CProgram, SymKind as CSymKind, Symbol as CSymbol, Type as CType,
    Value as CValue, VarID as CVarID, VarRef as CVarRef,
};
use mustcc::mir::ast::{
    Expr as MExpr, Func as MFunc, Program as MProgram, SymKind as MSymKind, Symbol as MSymbol, VarID, VarRef as MVarRef,
};
use mustcc::symtable::layout::{Layout, LayoutKind, Type as LType};

fn csym(name: &str, args: Vec<CType>, rets: Vec<CType>, is_extern: bool, mangle: bool) -> CSymbol {
    CSymbol { name: name.to_string(), kind: CSymKind::Func { args, returns: rets }, is_extern, mangle }
}

fn cprog(symbols: Vec<(usize, CSymbol)>, functions: Vec<CFunc>) -> CProgram {
    CProgram { symbols: IdMap { entries: symbols }, functions }
}

fn local(n: usize) -> CExpr {
    CExpr::Value(CValue::Var(CVarRef::Local(CVarID(n))))
}

#[test]
fn codegen_plans_lets_and_returns() {
    let body = CExpr::Block {
        exprs: vec![
            CExpr::Let { id: CVarID(2), e1: Box::new(CExpr::Value(CValue::Const(7, CType::Ti32))) },
            CExpr::Return { expr: Box::new(local(2)) },
        ],
        last_expr: Box::new(CExpr::Value(CValue::Unit)),
    };
    let f = CFunc { id: NodeID { id: 100 }, args: vec![(CVarID(1), CType::Tu32)], returns: vec![CType::Tu32], body };
    let prog = cprog(vec![(100, csym("main", vec![CType::Tu32], vec![CType::Tu32], true, false))], vec![f]);
    let plan = codegen::translate(prog).ok().unwrap();
    assert_eq!(
        plan.decls,
        vec![FuncDecl {
            id: NodeID { id: 100 },
            name: "main".to_string(),
            link: Linkage::Export,
            params: vec![CType::Tu32],
            returns: vec![CType::Tu32],
        }]
    );
    assert_eq!(plan.bodies.len(), 1);
    assert_eq!(
        plan.bodies[0].insts,
        vec![
            Inst::Entry { params: vec![0] },
            Inst::Iconst { dst: 1, tp: CType::Ti32, imm: 7 },
            Inst::Return { vals: vec![1] },
            Inst::Return { vals: vec![] },
        ]
    );
}

#[test]
fn codegen_defines_the_builtin_add_under_a_mangled_name() {
    let sym = CSymbol {
        name: "add".to_string(),
        kind: CSymKind::BuiltinFunc {
            args: vec![CType::Ti32, CType::Ti32],
            returns: vec![CType::Ti32],
            item_name: "i32_add".to_string(),
        },
        is_extern: false,
        mangle: true,
    };
    let plan = codegen::translate(cprog(vec![(101, sym)], vec![])).ok().unwrap();
    assert_eq!(plan.decls[0].name, "id_101");
    assert_eq!(plan.decls[0].link, Linkage::Local);
    assert_eq!(plan.bodies.len(), 1);
    assert_eq!(plan.bodies[0].id, NodeID { id: 101 });
    assert_eq!(
        plan.bodies[0].insts,
        vec![
            Inst::Entry { params: vec![0, 1] },
            Inst::Iadd { dst: 2, lhs: 0, rhs: 1 },
            Inst::Return { vals: vec![2] },
        ]
    );
}

#[test]
fn codegen_calls_through_addresses() {
    let call = CExpr::FunCall {
        expr: Box::new(CExpr::Value(CValue::Var(CVarRef::Global(NodeID { id: 100 })))),
        args: vec![CExpr::Value(CValue::Const(1, CType::Tu32)), CExpr::Value(CValue::Unit)],
        sig: FnSig { params: vec![CType::Tu32], returns: vec![CType::Tu32] },
    };
    let f = CFunc { id: NodeID { id: 100 }, args: vec![], returns: vec![CType::Tu32], body: call };
    let prog = cprog(vec![(100, csym("f", vec![], vec![CType::Tu32], false, false))], vec![f]);
    let plan = codegen::translate(prog).ok().unwrap();
    assert_eq!(
        plan.bodies[0].insts,
        vec![
            Inst::Entry { params: vec![] },
            Inst::Iconst { dst: 0, tp: CType::Tu32, imm: 1 },
            Inst::FuncAddr { dst: 1, func: NodeID { id: 100 } },
            Inst::CallIndirect { dsts: vec![2], params: vec![CType::Tu32], returns: vec![CType::Tu32], callee: 1, args: vec![0] },
            Inst::Return { vals: vec![2] },
        ]
    );
}

#[test]
fn codegen_stack_slots_loads_and_stores() {
    let body = CExpr::Block {
        exprs: vec![
            CExpr::Let { id: CVarID(3), e1: Box::new(CExpr::StackSlot { size: 8 }) },
            CExpr::Store { ptr: Box::new(local(3)), val: Box::new(CExpr::Value(CValue::Const(5, CType::Tu8))), offset: 4 },
            CExpr::Store { ptr: Box::new(local(3)), val: Box::new(CExpr::Value(CValue::Unit)), offset: 0 },
        ],
        last_expr: Box::new(CExpr::Load { tp: CType::Tu8, ptr: Box::new(local(3)), offset: 4 }),
    };
    let f = CFunc { id: NodeID { id: 100 }, args: vec![], returns: vec![CType::Tu8], body };
    let prog = cprog(vec![(100, csym("f", vec![], vec![CType::Tu8], false, false))], vec![f]);
    let plan = codegen::translate(prog).ok().unwrap();
    assert_eq!(
        plan.bodies[0].insts,
        vec![
            Inst::Entry { params: vec![] },
            Inst::StackSlot { slot: 0, size: 8, align_shift: 0 },
            Inst::StackAddr { dst: 0, slot: 0, offset: 0 },
            Inst::Iconst { dst: 1, tp: CType::Tu8, imm: 5 },
            Inst::Store { val: 1, addr: 0, offset: 4 },
            Inst::Load { dst: 2, tp: CType::Tu8, addr: 0, offset: 4 },
            Inst::Return { vals: vec![2] },
        ]
    );
}

#[test]
fn codegen_errors() {
    // a loop has no lowering yet
    let f = CFunc {
        id: NodeID { id: 100 },
        args: vec![],
        returns: vec![],
        body: CExpr::While { pred: Box::new(CExpr::Value(CValue::Unit)), block: Box::new(CExpr::Value(CValue::Unit)) },
    };
    assert!(codegen::translate(cprog(vec![(100, csym("f", vec![], vec![], false, false))], vec![f])).is_err());
    // a function that is not declared
    let g = CFunc { id: NodeID { id: 7 }, args: vec![], returns: vec![], body: CExpr::Value(CValue::Unit) };
    assert!(codegen::translate(cprog(vec![], vec![g])).is_err());
    // an unbound variable
    let h = CFunc { id: NodeID { id: 100 }, args: vec![], returns: vec![], body: local(9) };
    assert!(codegen::translate(cprog(vec![(100, csym("f", vec![], vec![], false, false))], vec![h])).is_err());
    // a builtin with no definition
    let sym = CSymbol {
        name: "sub".to_string(),
        kind: CSymKind::BuiltinFunc { args: vec![CType::Ti32, CType::Ti32], returns: vec![CType::Ti32], item_name: "i32_sub".to_string() },
        is_extern: false,
        mangle: false,
    };
    assert!(codegen::translate(cprog(vec![(5, sym)], vec![])).is_err());
}

fn prim(t: LType, size: u32) -> Layout {
    Layout { size, align: size, kind: LayoutKind::Primitive(t) }
}

fn pair_layout() -> Layout {
    Layout { size: 16, align: 3, kind: LayoutKind::Struct(vec![(prim(LType::Tu8, 1), 0), (prim(LType::Tu64, 8), 8)]) }
}

fn msym(name: &str, args: Vec<LType>, rets: Vec<LType>) -> MSymbol {
    MSymbol { name: name.to_string(), kind: MSymKind::Func { args, returns: rets }, is_extern: false, mangle: true }
}

fn mfunc(args: Vec<(VarID, bool, LType)>, returns: Vec<LType>, body: MExpr, stack: Vec<(usize, bool)>) -> MFunc {
    MFunc { id: NodeID { id: 100 }, args, returns, body, var_needs_stack: IdMap { entries: stack } }
}

fn mprog(f: MFunc) -> MProgram {
    MProgram { symbols: IdMap { entries: vec![(100, msym("f", vec![LType::Tu32], vec![LType::Tu32]))] }, functions: vec![f] }
}

fn mlocal(n: usize) -> MExpr {
    MExpr::Var(MVarRef::Local(VarID(n)))
}

#[test]
fn direct_lowering_keeps_small_values_in_variables() {
    let body = MExpr::Block {
        exprs: vec![MExpr::Let { id: VarID(2), layout: prim(LType::Tu32, 4), is_mut: false, expr: Box::new(MExpr::NumLit(3, LType::Tu32)) }],
        last_expr: Box::new(mlocal(2)),
        block_tp: prim(LType::Tu32, 4),
    };
    let f = mfunc(vec![(VarID(1), false, LType::Tu32)], vec![LType::Tu32], body, vec![(2, false)]);
    let plan = cl_backend::translate(mprog(f)).ok().unwrap();
    assert_eq!(plan.decls[0].name, "id_100");
    assert_eq!(plan.decls[0].params, vec![CType::Tu32]);
    assert_eq!(
        plan.bodies[0].insts,
        vec![
            Inst::Entry { params: vec![0] },
            Inst::DeclareVar { var: 0, tp: CType::Tu32 },
            Inst::Iconst { dst: 1, tp: CType::Tu32, imm: 3 },
            Inst::DefVar { var: 0, val: 1 },
            Inst::UseVar { dst: 2, var: 0 },
            Inst::Return { vals: vec![2] },
        ]
    );
}

#[test]
fn direct_lowering_builds_tuples_in_stack_slots() {
    let body = MExpr::Block {
        exprs: vec![MExpr::Let {
            id: VarID(2),
            layout: pair_layout(),
            is_mut: false,
            expr: Box::new(MExpr::Tuple { fields: vec![MExpr::NumLit(1, LType::Tu8), MExpr::NumLit(2, LType::Tu64)], layout: pair_layout() }),
        }],
        last_expr: Box::new(MExpr::FieldAccess {
            object: Box::new(mlocal(2)),
            field_id: 1,
            struct_layout: pair_layout(),
            element_layout: prim(LType::Tu64, 8),
        }),
        block_tp: prim(LType::Tu64, 8),
    };
    let f = mfunc(vec![], vec![LType::Tu64], body, vec![(2, true)]);
    let plan = cl_backend::translate(mprog(f)).ok().unwrap();
    assert_eq!(
        plan.bodies[0].insts,
        vec![
            Inst::Entry { params: vec![0] },
            Inst::StackSlot { slot: 0, size: 16, align_shift: 3 },
            Inst::Iconst { dst: 1, tp: CType::Tu8, imm: 1 },
            Inst::StackStore { val: 1, slot: 0, offset: 0 },
            Inst::Iconst { dst: 2, tp: CType::Tu64, imm: 2 },
            Inst::StackStore { val: 2, slot: 0, offset: 8 },
            Inst::StackLoad { dst: 3, tp: CType::Tu64, slot: 0, offset: 8 },
            Inst::Return { vals: vec![3] },
        ]
    );
}

#[test]
fn direct_lowering_of_loops_and_calls() {
    let call = MExpr::FunCall {
        expr: Box::new(MExpr::Var(MVarRef::Global(NodeID { id: 100 }))),
        args: vec![mlocal(1)],
        args_tp: vec![prim(LType::Tu32, 4)],
        ret_tp: prim(LType::Tu32, 4),
    };
    let body = MExpr::While { pred: Box::new(mlocal(1)), block: Box::new(call) };
    let f = mfunc(vec![(VarID(1), false, LType::Tu32)], vec![], body, vec![]);
    let plan = cl_backend::translate(mprog(f)).ok().unwrap();
    assert_eq!(
        plan.bodies[0].insts,
        vec![
            Inst::Entry { params: vec![0] },
            Inst::CreateBlock { block: 0 },
            Inst::CreateBlock { block: 1 },
            Inst::CreateBlock { block: 2 },
            Inst::Jump { block: 0 },
            Inst::SwitchTo { block: 0 },
            Inst::Brif { cond: 0, then_block: 2, else_block: 1 },
            Inst::SwitchTo { block: 2 },
            Inst::Seal { block: 2 },
            Inst::Call { dsts: vec![1], func: NodeID { id: 100 }, args: vec![0] },
            Inst::Jump { block: 0 },
            Inst::SwitchTo { block: 1 },
            Inst::Seal { block: 0 },
            Inst::Seal { block: 1 },
            Inst::Return { vals: vec![] },
        ]
    );
}

#[test]
fn direct_lowering_stops_after_a_return() {
    let body = MExpr::Block {
        exprs: vec![MExpr::Return { expr: Box::new(MExpr::NumLit(4, LType::Tu32)), ret_tp: LType::Tu32 }],
        last_expr: Box::new(MExpr::StringLit("never lowered".to_string(), prim(LType::Tu8, 1))),
        block_tp: prim(LType::Tu32, 4),
    };
    let f = mfunc(vec![], vec![LType::Tu32], body, vec![]);
    let plan = cl_backend::translate(mprog(f)).ok().unwrap();
    assert_eq!(
        plan.bodies[0].insts,
        vec![Inst::Entry { params: vec![0] }, Inst::Iconst { dst: 1, tp: CType::Tu32, imm: 4 }, Inst::Return { vals: vec![1] }]
    );
}

#[test]
fn direct_lowering_errors() {
    // a string has no lowering yet
    let f = mfunc(vec![], vec![], MExpr::StringLit("s".to_string(), prim(LType::Tu8, 1)), vec![]);
    assert!(cl_backend::translate(mprog(f)).is_err());
    // a variable without a storage decision
    let g = mfunc(
        vec![],
        vec![],
        MExpr::Let { id: VarID(5), layout: prim(LType::Tu8, 1), is_mut: false, expr: Box::new(MExpr::NumLit(0, LType::Tu8)) },
        vec![],
    );
    assert!(cl_backend::translate(mprog(g)).is_err());
    // a function that is not declared
    let h = mfunc(vec![], vec![], MExpr::Var(MVarRef::Global(NodeID { id: 3 })), vec![]);
    assert!(cl_backend::translate(mprog(h)).is_err());
}

#[test]
fn direct_env_does_not_record_functions_yet() {
    let env = Env::new();
    assert!(env.add_func(NodeID { id: 1 }).is_err());
}
