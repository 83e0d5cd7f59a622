use mustcc::codegen::ast::{Func, LValue, Program, RValue, Stmt, VarID, VarRef};
use mustcc::codegen::emit::{block_text, emit_code, rvalue_text, stmt_text};
use mustcc::common::maps::{IdMap, NameMap};
use mustcc::common::{NodeID, Position};
use mustcc::symtable::{SymInfo, SymKind, SymTable, TypeInfo, TypeKind};
use mustcc::tp::tvar::{TVar, TVarKind};
use mustcc::tp::{Type, TypeView};

fn named(id: usize, name: &str) -> Type {
    Type(TypeView::NamedVar(TVar { id, kind: TVarKind::Type }, name.to_string()))
}

#[test]
fn c_declarations_of_types() {
    assert_eq!(named(3, "u8").with_name("x").ok().unwrap(), "tv_3 x");
    assert_eq!(Type::ptr(named(3, "u8")).with_name("p").ok().unwrap(), "tv_3  *p");
    assert_eq!(Type::array(4, named(3, "u8")).with_name("a").ok().unwrap(), "tv_3 a[4]");
    assert_eq!(Type::fun(vec![named(3, "u8")], named(6, "u64")).with_name("f").ok().unwrap(), "tv_6 (*f)(tv_3 )");
    assert_eq!(Type::tuple(vec![named(3, "u8"), named(6, "u64")]).with_name("t").ok().unwrap(), "struct {tv_3 __0;tv_6 __1;}");
    assert!(Type::unknown().with_name("x").is_err());
}

#[test]
fn c_statements() {
    let v1 = VarRef::LocalVar { id: VarID(1) };
    let g = VarRef::GlobalVar { id: NodeID { id: 70 } };
    assert_eq!(stmt_text(&Stmt::Return { expr: v1, ret_tp: named(3, "u8") }).ok().unwrap(), "return v_1");
    assert_eq!(stmt_text(&Stmt::VarDecl { id: VarID(2), tp: named(3, "u8") }).ok().unwrap(), "tv_3 v_2");
    let assign = Stmt::Assign { lval: LValue::VarRef(v1), rval: RValue::NumLit(42, named(3, "u8")) };
    assert_eq!(stmt_text(&assign).ok().unwrap(), "v_1 = 42");
    let w = Stmt::While { cond: g, body: vec![Stmt::Return { expr: v1, ret_tp: named(3, "u8") }] };
    assert_eq!(stmt_text(&w).ok().unwrap(), "while (id_70) {\n    return v_1;\n};\n");
    let i = Stmt::If { pred: v1, th: vec![], el: vec![Stmt::Return { expr: g, ret_tp: named(3, "u8") }], block_tp: named(3, "u8") };
    assert_eq!(stmt_text(&i).ok().unwrap(), "if (v_1) {\n} else {\n    return id_70;\n}\n");
    assert_eq!(block_text(&vec![]).ok().unwrap(), "");
}

#[test]
fn c_values() {
    let t = RValue::Tuple(vec![RValue::NumLit(1, named(3, "u8")), RValue::Value(LValue::VarRef(VarRef::LocalVar { id: VarID(4) }))]);
    assert_eq!(rvalue_text(&t).ok().unwrap(), "{.__0 = 1.__1 = v_4}");
    assert_eq!(rvalue_text(&RValue::ArrayInit(vec![])).ok().unwrap(), "[]");
    let call = RValue::FunCall { callee: VarRef::LocalVar { id: VarID(1) }, args: vec![], ret_tp: named(3, "u8") };
    assert!(rvalue_text(&call).is_err());
    let field = Stmt::Assign {
        lval: LValue::FieldAccess { var: VarRef::LocalVar { id: VarID(1) }, field_id: "a".to_string(), field_tp: named(3, "u8") },
        rval: RValue::NumLit(0, named(3, "u8")),
    };
    assert!(stmt_text(&field).is_err());
}

fn table(mangle: bool) -> SymTable {
    let mut tm = IdMap::new();
    tm.insert(3, TypeInfo { name: "u8".to_string(), pos: Position::nowhere(), kind: TypeKind::Builtin, methods: NameMap::new() });
    let mut fields = NameMap::new();
    fields.insert("a".to_string(), (0, named(3, "u8")));
    tm.insert(70, TypeInfo { name: "Pair".to_string(), pos: Position::nowhere(), kind: TypeKind::Struct { params: vec![], fields }, methods: NameMap::new() });
    let mut nm = IdMap::new();
    let mut info = SymInfo::build("main".to_string(), Position::nowhere(), SymKind::Func { params: vec![], args: vec![named(3, "u8")], ret: named(3, "u8") });
    info.mangle = mangle;
    nm.insert(100, info);
    SymTable { node_map: nm, tvar_map: tm }
}

fn main_func() -> Func {
    Func {
        id: NodeID { id: 100 },
        name: "main".to_string(),
        args: vec![(VarID(1), named(3, "u8"))],
        ret_type: named(3, "u8"),
        body: vec![Stmt::Return { expr: VarRef::LocalVar { id: VarID(1) }, ret_tp: named(3, "u8") }],
    }
}

#[test]
fn c_program() {
    let text = emit_code(Program { sym_table: table(true), functions: vec![main_func()] }).ok().unwrap();
    let expected = "typedef unsigned char tv_3;\n\
                    typedef struct tv_70 tv_70;\n\
                    struct tv_70 {\ntv_3 a;\n};\n\
                    tv_3  id_100(tv_3 );\n\
                    tv_3  main(tv_3 v_1) {\n    return v_1;\n}\n";
    assert_eq!(text, expected);
}

#[test]
fn c_program_unmangled() {
    let text = emit_code(Program { sym_table: table(false), functions: vec![main_func()] }).ok().unwrap();
    assert!(text.contains("tv_3  main(tv_3 );\n"));
}

#[test]
fn c_program_errors() {
    let mut st = table(true);
    st.tvar_map.insert(3, TypeInfo { name: "u16".to_string(), pos: Position::nowhere(), kind: TypeKind::Builtin, methods: NameMap::new() });
    assert!(emit_code(Program { sym_table: st, functions: vec![] }).is_err());
    let f = Func { id: NodeID { id: 555 }, ..main_func() };
    assert!(emit_code(Program { sym_table: table(true), functions: vec![f] }).is_err());
}
