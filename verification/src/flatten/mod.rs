//! Flattening checked functions into statements; no expression has a flattening yet.
use vstd::prelude::*;

pub mod ast;
pub mod env;

use crate::error::InternalError;
use crate::flatten::ast as out_a;
use crate::flatten::env::Env;
use crate::symtable::SymTable;
use crate::typecheck::ast as in_a;

verus! {

/// Flattens the functions of a program; as no expression has a flattening yet, this
/// succeeds exactly for a program without functions.
pub fn translate(prog: in_a::Program) -> (res: Result<out_a::Program, InternalError>)
    ensures
        res is Ok <==> prog.functions@.len() == 0,
        res matches Ok(p) ==> p.functions@.len() == 0 && p.sym_table == prog.sym_table,
{
    let sym_table = prog.sym_table;
    let mut rest = prog.functions;
    let mut functions: Vec<out_a::Func> = Vec::new();
    if rest.len() > 0 {
        let f = rest.remove(0);
        let g = tr_func(&sym_table, f)?;
        functions.push(g);
    }
    Ok(out_a::Program { functions, sym_table })
}

/// Flattens a function: its arguments get numbers from one, in order, then its body is
/// flattened, which always fails.
fn tr_func(sym_table: &SymTable, func: in_a::Func) -> (res: Result<out_a::Func, InternalError>)
    ensures
        res is Err,
{
    let mut env = Env::new();
    let mut args: Vec<(out_a::VarID, crate::tp::Type)> = Vec::new();
    let total = func.args.len();
    let mut rest = func.args;
    while rest.len() > 0
        invariant
            total == func.args@.len(),
            env.wf(),
            env.var_gen.0 == args@.len(),
            args@.len() + rest@.len() == func.args@.len(),
        decreases rest.len(),
    {
        let (name, _, tp) = rest.remove(0);
        let var = env.add_var(name);
        args.push((var, tp));
    }
    let body = tr_expr(&mut env, sym_table, func.body)?;
    Ok(out_a::Func { id: func.id, name: func.name, args, ret_type: func.ret_type, body })
}

/// The statements that compute an expression; no expression has them yet.
fn tr_expr(env: &mut Env, st: &SymTable, body: in_a::Expr) -> (res: Result<Vec<out_a::Stmt>, InternalError>)
    ensures
        res is Err,
{
    Err(InternalError::msg("expressions are not flattened yet"))
}

} // verus!
