use mustcc::common::maps::{IdMap, NameMap};
use mustcc::common::{NodeID, Position};
use mustcc::core_ir;
use mustcc::mir;
use mustcc::mir::ast::{Expr as MExpr, SymKind as MSymKind, VarID, VarRef as MVarRef, VarSpawner};
use mustcc::symtable::layout::{Layout, LayoutKind, Type as LType};
use mustcc::symtable::{SymInfo, SymKind, SymTable, TypeInfo, TypeKind};
use mustcc::tp::tvar::{TVar, TVarKind};
use mustcc::tp::uvar::UVarStore;
use mustcc::tp::{Type, TypeView};
use mustcc::typecheck::ast::{Expr as TExpr, Func as TFunc, Program as TProgram};
use mustcc::flatten;

fn named(id: usize, name: &str) -> Type {
    Type(TypeView::NamedVar(TVar { id, kind: TVarKind::Type }, name.to_string()))
}

fn builtin_info(name: &str) -> TypeInfo {
    TypeInfo { name: name.to_string(), pos: Position::nowhere(), kind: TypeKind::Builtin, methods: NameMap::new() }
}

fn table() -> SymTable {
    let mut tm = IdMap::new();
    tm.insert(3, builtin_info("u8"));
    tm.insert(6, builtin_info("u64"));
    let mut fields = NameMap::new();
    fields.insert("a".to_string(), (0, named(3, "u8")));
    fields.insert("b".to_string(), (1, named(6, "u64")));
    tm.insert(
        70,
        TypeInfo { name: "Pair".to_string(), pos: Position::nowhere(), kind: TypeKind::Struct { params: vec![], fields }, methods: NameMap::new() },
    );
    let mut nm = IdMap::new();
    nm.insert(
        100,
        SymInfo::build("f".to_string(), Position::nowhere(), SymKind::Func { params: vec![], args: vec![named(3, "u8"), named(70, "Pair")], ret: named(6, "u64") }),
    );
    nm.insert(
        101,
        SymInfo::build("g".to_string(), Position::nowhere(), SymKind::Func { params: vec![], args: vec![], ret: named(70, "Pair") }),
    );
    nm.insert(102, SymInfo::build("Pair".to_string(), Position::nowhere(), SymKind::Struct(TVar { id: 70, kind: TVarKind::Type })));
    SymTable { node_map: nm, tvar_map: tm }
}

fn func(args: Vec<(&str, Type)>, ret: Type, body: TExpr) -> TFunc {
    TFunc { id: NodeID { id: 100 }, name: "f".to_string(), args: args.into_iter().map(|(n, t)| (n.to_string(), false, t)).collect(), ret_type: ret, body }
}

#[test]
fn var_spawner_counts_from_one() {
    let mut s = VarSpawner::new();
    let a = s.fresh();
    let b = s.fresh();
    assert_eq!(a.get(), 1);
    assert_eq!(b.get(), 2);
    assert_ne!(a, b);
}

#[test]
fn mir_lowers_a_function() {
    let st = table();
    let store = UVarStore::new();
    let body = TExpr::Block {
        exprs: vec![TExpr::Let { name: "x".to_string(), tp: named(3, "u8"), is_mut: false, expr: Box::new(TExpr::NumLit(1, named(3, "u8"))) }],
        last_expr: Box::new(TExpr::LocalVar { name: "p".to_string(), tp: named(6, "u64") }),
        block_tp: named(6, "u64"),
    };
    let f = func(vec![("n", named(3, "u8")), ("p", named(70, "Pair"))], named(6, "u64"), body);
    let g = mir::tr_func(&st, &store, f).ok().unwrap();
    assert_eq!(g.args.len(), 2);
    assert_eq!(g.args[0].0, VarID(1));
    assert!(matches!(g.args[0].2, LType::Tu8));
    // the struct argument is passed by address and lives on the stack
    assert!(matches!(g.args[1].2, LType::Tusize));
    assert_eq!(g.var_needs_stack.get(2), Some(&true));
    assert_eq!(g.var_needs_stack.get(1), None);
    assert_eq!(g.returns.len(), 1);
    match g.body {
        MExpr::Block { exprs, last_expr, .. } => {
            match &exprs[0] {
                MExpr::Let { id, layout, .. } => {
                    assert_eq!(*id, VarID(3));
                    assert_eq!(layout.size, 1);
                }
                _ => panic!("a let stays a let"),
            }
            assert!(matches!(*last_expr, MExpr::Var(MVarRef::Local(VarID(2)))));
        }
        _ => panic!("a block stays a block"),
    }
}

#[test]
fn mir_returns_a_struct_through_a_slot() {
    let st = table();
    let store = UVarStore::new();
    let f = TFunc {
        id: NodeID { id: 101 },
        name: "g".to_string(),
        args: vec![],
        ret_type: named(70, "Pair"),
        body: TExpr::Return { expr: Box::new(TExpr::GlobalVar { id: NodeID { id: 101 }, tp: named(70, "Pair") }), ret_tp: named(70, "Pair") },
    };
    let g = mir::tr_func(&st, &store, f).ok().unwrap();
    assert!(g.returns.is_empty());
    assert_eq!(g.args.len(), 1);
    assert!(!g.args[0].1);
    assert!(matches!(g.body, MExpr::Assign { .. }));
}

#[test]
fn mir_puts_struct_fields_in_index_order() {
    let st = table();
    let store = UVarStore::new();
    let mut inits = NameMap::new();
    inits.insert("b".to_string(), (1, TExpr::NumLit(9, named(6, "u64"))));
    inits.insert("a".to_string(), (0, TExpr::NumLit(4, named(3, "u8"))));
    let f = func(vec![], named(70, "Pair"), TExpr::StructCons { id: NodeID { id: 102 }, initializers: inits, tp: named(70, "Pair") });
    let g = mir::tr_func(&st, &store, f).ok().unwrap();
    match g.body {
        MExpr::Tuple { fields, layout } => {
            assert_eq!(layout.size, 9);
            assert!(matches!(fields[0], MExpr::NumLit(4, LType::Tu8)));
            assert!(matches!(fields[1], MExpr::NumLit(9, LType::Tu64)));
        }
        _ => panic!("a struct value becomes a tuple"),
    }
}

#[test]
fn mir_errors() {
    let st = table();
    let store = UVarStore::new();
    let f = func(vec![], named(3, "u8"), TExpr::Char(7));
    assert!(mir::tr_func(&st, &store, f).is_err());
    let g = func(vec![], named(3, "u8"), TExpr::LocalVar { name: "nope".to_string(), tp: named(3, "u8") });
    assert!(mir::tr_func(&st, &store, g).is_err());
}

#[test]
fn mir_symbols_in_machine_types() {
    let st = table();
    let store = UVarStore::new();
    let syms = mir::make_symtable(&st, &store).ok().unwrap();
    assert_eq!(syms.len(), 2);
    match &syms.get(100).unwrap().kind {
        MSymKind::Func { args, returns } => {
            assert_eq!(args.len(), 2);
            assert!(matches!(args[1], LType::Tusize));
            assert!(matches!(returns[..], [LType::Tu64]));
        }
    }
    match &syms.get(101).unwrap().kind {
        MSymKind::Func { args, returns } => {
            assert!(returns.is_empty());
            assert!(matches!(args[..], [LType::Tusize]));
        }
    }
    let prog = TProgram { functions: vec![], sym_table: st, store };
    let p = mir::translate(prog).ok().unwrap();
    assert!(p.functions.is_empty());
    assert_eq!(p.symbols.len(), 2);
}

fn prim(t: LType, size: u32) -> Layout {
    Layout { size, align: 3, kind: LayoutKind::Primitive(t) }
}

#[test]
fn core_builds_tuples_in_stack_slots() {
    let layout = Layout { size: 2, align: 4, kind: LayoutKind::Struct(vec![(prim(LType::Tu8, 1), 0), (prim(LType::Tu8, 1), 1)]) };
    let e = MExpr::Tuple { fields: vec![MExpr::NumLit(1, LType::Tu8), MExpr::NumLit(2, LType::Tu8)], layout };
    let mut env = core_ir::env::Env::new();
    let o = core_ir::tr_expr(&mut env, e).ok().unwrap();
    match o {
        core_ir::ast::Expr::Block { exprs, last_expr } => {
            assert_eq!(exprs.len(), 3);
            assert!(matches!(exprs[0], core_ir::ast::Expr::Let { e1: _, .. }));
            assert!(matches!(exprs[2], core_ir::ast::Expr::Store { offset: 1, .. }));
            assert!(matches!(*last_expr, core_ir::ast::Expr::Value(_)));
        }
        _ => panic!("a tuple becomes a block"),
    }
}

#[test]
fn core_field_reads_are_loads() {
    let layout = Layout { size: 9, align: 4, kind: LayoutKind::Struct(vec![(prim(LType::Tu8, 1), 0), (prim(LType::Tu64, 8), 1)]) };
    let e = MExpr::FieldAccess {
        object: Box::new(MExpr::Var(MVarRef::Global(NodeID { id: 5 }))),
        field_id: 1,
        struct_layout: layout,
        element_layout: prim(LType::Tu64, 8),
    };
    let mut env = core_ir::env::Env::new();
    match core_ir::tr_expr(&mut env, e).ok().unwrap() {
        core_ir::ast::Expr::Load { tp, offset, .. } => {
            assert_eq!(tp, core_ir::ast::Type::Tu64);
            assert_eq!(offset, 1);
        }
        _ => panic!("a field read becomes a load"),
    }
}

#[test]
fn core_signatures_need_machine_types() {
    let sig = core_ir::make_sig(vec![prim(LType::Tu8, 1)], prim(LType::Ti32, 4)).ok().unwrap();
    assert_eq!(sig.params, vec![core_ir::ast::Type::Tu8]);
    assert_eq!(sig.returns, vec![core_ir::ast::Type::Ti32]);
    let on_stack = Layout { size: 2, align: 4, kind: LayoutKind::Struct(vec![]) };
    assert!(core_ir::make_sig(vec![], on_stack).is_err());
}

#[test]
fn core_numbers_variables_afresh() {
    let mut syms = IdMap::new();
    syms.insert(7, mir::ast::Symbol { name: "h".to_string(), kind: MSymKind::Func { args: vec![LType::Tu8], returns: vec![] }, is_extern: true, mangle: false });
    let f = mir::ast::Func {
        id: NodeID { id: 7 },
        args: vec![(VarID(4), false, LType::Tu16)],
        returns: vec![LType::Tu16],
        body: MExpr::Var(MVarRef::Local(VarID(4))),
        var_needs_stack: IdMap::new(),
    };
    let p = core_ir::translate(mir::ast::Program { symbols: syms, functions: vec![f] }).ok().unwrap();
    assert_eq!(p.functions[0].args[0].0, core_ir::ast::VarID(1));
    assert!(matches!(p.functions[0].body, core_ir::ast::Expr::Value(core_ir::ast::Value::Var(core_ir::ast::VarRef::Local(core_ir::ast::VarID(1))))));
    assert!(p.symbols.get(7).unwrap().is_extern);
}

#[test]
fn flatten_and_cfg_are_not_done() {
    let empty = TProgram { functions: vec![], sym_table: SymTable { node_map: IdMap::new(), tvar_map: IdMap::new() }, store: UVarStore::new() };
    let flat = flatten::translate(empty).ok().unwrap();
    assert!(flat.functions.is_empty());
    let one = TProgram { functions: vec![func(vec![], named(3, "u8"), TExpr::NumLit(1, named(3, "u8")))], sym_table: table(), store: UVarStore::new() };
    assert!(flatten::translate(one).is_err());
    assert!(mustcc::cfg::translate(flat).is_err());
}

#[test]
fn variable_numbers_are_never_handed_out_twice() {
    let mut env = mir::env::Env::new();
    let a = env.fresh_var();
    let b = env.add_var("x".to_string());
    let c = env.fresh_var();
    assert!(a != b && b != c && a != c);
    assert!(a.0 < b.0 && b.0 < c.0);
    assert_eq!(env.lookup("x"), b);
}
