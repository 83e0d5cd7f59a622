use mustcc::common::maps::IdMap;
use mustcc::common::Position;
use mustcc::error::context::Context;
use mustcc::resolve::ast::{ExprData, ExprNode};
use mustcc::symtable::SymTable;
use mustcc::tp::uvar::UVarStore;
use mustcc::tp::Type;
use mustcc::typecheck::ast::Expr;
use mustcc::typecheck::{check_expr, finish_return};
use mustcc::typecheck::env::Env;

fn literal(data: ExprData) -> ExprNode {
    ExprNode { data, pos: Position::nowhere() }
}

#[test]
fn a_number_is_no_bool() {
    let mut ctx = Context::init();
    let st = SymTable::new(IdMap::new(), IdMap::new());
    let mut env = Env::new(Type::unit());
    let mut store = UVarStore::new();
    let res = check_expr(&mut ctx, &st, &mut env, &mut store, literal(ExprData::NumLit(5)), &Type::builtin("bool"), false);
    assert!(matches!(res, Ok(Expr::NumLit(5, _))));
    assert_eq!(ctx.diagnostics.len(), 1);
    let d = &ctx.diagnostics[0];
    let nowhere = Position::nowhere();
    assert_eq!((d.pos.filename.clone(), d.pos.start, d.pos.end), (nowhere.filename, nowhere.start, nowhere.end));
    assert!(d.labels[0].msg.starts_with("Type mismatch. Expected: bool, Got: "));
}

#[test]
fn a_number_takes_the_numeric_type_it_is_expected_to_have() {
    let mut ctx = Context::init();
    let st = SymTable::new(IdMap::new(), IdMap::new());
    let mut env = Env::new(Type::unit());
    let mut store = UVarStore::new();
    let res = check_expr(&mut ctx, &st, &mut env, &mut store, literal(ExprData::NumLit(5)), &Type::builtin("i32"), false);
    match res {
        Ok(Expr::NumLit(5, tp)) => assert_eq!(tp.zonk_with(&store).to_string(&store), "i32"),
        _ => panic!("a number literal checks"),
    }
    assert_eq!(ctx.diagnostics.len(), 0);
}

#[test]
fn a_string_literal_against_its_own_type_adds_nothing() {
    let mut ctx = Context::init();
    let st = SymTable::new(IdMap::new(), IdMap::new());
    let mut env = Env::new(Type::unit());
    let mut store = UVarStore::new();
    let tp = Type::ptr(Type::array(2, Type::builtin("u8")));
    let res = check_expr(&mut ctx, &st, &mut env, &mut store, literal(ExprData::String("hi".to_string())), &tp, false);
    assert!(matches!(res, Ok(Expr::StringLit(_, _))));
    assert_eq!(ctx.diagnostics.len(), 0);
}

#[test]
fn a_return_leaves_the_expected_type_alone() {
    let mut store = UVarStore::new();
    let exp = Type::fresh_uvar(&mut store);
    let res = finish_return(&mut store, &exp, Expr::Error, Type::unit());
    assert!(matches!(res, Expr::Return { .. }));
    assert_eq!(exp.zonk_with(&store).to_string(&store), exp.to_string(&store));
}
