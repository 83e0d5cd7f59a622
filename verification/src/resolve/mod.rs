//! Name resolution: every name in a function is resolved to a local variable or to a
//! declaration, every written type to a type, and what is known of each declaration is
//! gathered into the symbol table.
use vstd::prelude::*;

pub mod ast;
pub mod check;
pub mod env;
pub mod error;

use crate::common::maps::NameMap;
use crate::error::context::{lemma_reported_refl, lemma_reported_trans, spec_reported_after, Context};
use crate::error::diagnostic::{Diagnostic, Severity};
use crate::error::InternalError;
use crate::mod_tree::ast as in_a;
use crate::parser::ast as pa;
use crate::resolve::ast as out_a;
use crate::mod_tree::ScopeInfo;
use crate::resolve::env::{spec_type_names_ok, Env, LocalBinding};
use crate::common::maps::IdMap;
use crate::common::node_id::spec_builtin_type_id;
use crate::common::{str_eq, string_of, NodeID, RAttribute};
use crate::symtable::{spec_has_attribute, SymInfo, SymKind, SymTable, TypeInfo, TypeKind};
use crate::tp::tvar::{TVar, TVarGen, TVarKind};
use crate::tp::Type;
use crate::tp::model::Ty;
use crate::tp::error::spec_type_params_mismatch_msg;
use crate::error::diagnostic::spec_labelled_error;

verus! {

broadcast use lemma_reported_refl, lemma_reported_trans;

/// The module declares no enum, at any depth.
pub open spec fn spec_no_enums(m: in_a::Module) -> bool
    decreases m,
{
    forall|i: int|
        0 <= i < m.items@.len() ==> {
            proof {
                assert(decreases_to!(m => m.items));
                assert(decreases_to!(m.items => m.items@));
                assert(decreases_to!(m.items@ => m.items@[i]));
            }
            match #[trigger] m.items@[i] {
                in_a::ModuleItem::Enum(_) => false,
                in_a::ModuleItem::Module(sub) => spec_no_enums(sub),
                _ => true,
            }
        }
}

/// Every type recorded so far is a struct whose field types are fully known.
pub open spec fn spec_structs_known(env: Env) -> bool {
    forall|k: usize| #[trigger] env.tvar_map.has(k) ==> env.tvar_map.value(k).kind is Struct
        && crate::symtable::type_sort::spec_parts_ok(env.tvar_map.value(k), env.node_map)
}

/// The environment keeps everything but its local scopes, of which only the innermost
/// may have changed.
pub open spec fn spec_env_kept(old_env: Env, new_env: Env) -> bool {
    &&& new_env.current_module == old_env.current_module
    &&& new_env.scope_info == old_env.scope_info
    &&& new_env.node_tvar_map == old_env.node_tvar_map
    &&& new_env.node_map == old_env.node_map
    &&& new_env.tvar_map == old_env.tvar_map
    &&& new_env.local_scopes@.len() == old_env.local_scopes@.len()
    &&& new_env.local_scopes@.drop_last() == old_env.local_scopes@.drop_last()
}

/// An expression node standing for the unit value.
pub open spec fn spec_is_unit_node(e: out_a::ExprNode, pos: crate::common::Position) -> bool {
    &&& e.pos == pos
    &&& e.data matches out_a::ExprData::Tuple(v) && v@.len() == 0
}

/// Resolution keeps the structure of an expression: each node becomes the node of the same
/// kind, with its parts resolved, and an unresolvable name becomes an error node.
pub open spec fn spec_expr_corr(a: pa::ExprNode, b: out_a::ExprNode) -> bool
    decreases a,
{
    &&& b.pos == a.pos
    &&& match a.data {
        pa::ExprData::Error => b.data is Error,
        pa::ExprData::Var(_) => b.data is Var || b.data is Error,
        pa::ExprData::Number(n) => b.data == out_a::ExprData::NumLit(n),
        pa::ExprData::Char(c) => b.data == out_a::ExprData::Char(c),
        pa::ExprData::String(s) => b.data matches out_a::ExprData::String(t) && t@ == s@,
        pa::ExprData::Tuple(es) => b.data matches out_a::ExprData::Tuple(fs) && spec_exprs_corr(es@, fs@),
        pa::ExprData::ArrayInitExact(es) => b.data matches out_a::ExprData::ArrayInitExact(fs) && spec_exprs_corr(es@, fs@),
        pa::ExprData::ArrayInitRepeat(e, n) => b.data matches out_a::ExprData::ArrayInitRepeat(f, m) && m == n
            && spec_expr_corr(*e, *f),
        pa::ExprData::FunCall(f, es) => b.data matches out_a::ExprData::FunCall(g, fs) && spec_expr_corr(*f, *g)
            && spec_exprs_corr(es@, fs@),
        pa::ExprData::MethodCall(o, id, es) => b.data matches out_a::ExprData::MethodCall(p, s, fs) && s@ == id.data@
            && spec_expr_corr(*o, *p) && spec_exprs_corr(es@, fs@),
        pa::ExprData::FieldAccess(o, id) => b.data matches out_a::ExprData::FieldAccess(p, s) && s@ == id.data@
            && spec_expr_corr(*o, *p),
        pa::ExprData::ClosedBlock(es) => b.data matches out_a::ExprData::Block(fs, l) && spec_exprs_corr(es@, fs@)
            && spec_is_unit_node(*l, a.pos),
        pa::ExprData::OpenBlock(es, l) => b.data matches out_a::ExprData::Block(fs, m) && spec_exprs_corr(es@, fs@)
            && spec_expr_corr(*l, *m),
        pa::ExprData::Return(e) => b.data matches out_a::ExprData::Return(f) && match e {
            Some(e) => spec_expr_corr(*e, *f),
            None => spec_is_unit_node(*f, a.pos),
        },
        pa::ExprData::Let { name, is_mut, expr, .. } => b.data matches out_a::ExprData::Let {
            name: n,
            is_mut: m,
            expr: f,
            ..
        } && n@ == name.data@ && m == is_mut && spec_expr_corr(*expr, *f),
        pa::ExprData::Match(e, cls) => b.data matches out_a::ExprData::Match(f, ds) && spec_expr_corr(*e, *f)
            && spec_clauses_corr(cls@, ds@),
        pa::ExprData::Ref(e) => b.data matches out_a::ExprData::Ref(f) && spec_expr_corr(*e, *f),
        pa::ExprData::RefMut(e) => b.data matches out_a::ExprData::RefMut(f) && spec_expr_corr(*e, *f),
        pa::ExprData::Deref(e) => b.data matches out_a::ExprData::Deref(f) && spec_expr_corr(*e, *f),
        pa::ExprData::If(p, t, e) => b.data matches out_a::ExprData::If(q, u, v) && spec_expr_corr(*p, *q)
            && spec_expr_corr(*t, *u) && match e {
            Some(e) => spec_expr_corr(*e, *v),
            None => spec_is_unit_node(*v, a.pos),
        },
        pa::ExprData::While(p, t) => b.data matches out_a::ExprData::While(q, u) && spec_expr_corr(*p, *q)
            && spec_expr_corr(*t, *u),
        pa::ExprData::Assign(l, r) => b.data matches out_a::ExprData::Assign(m, s) && spec_expr_corr(*l, *m)
            && spec_expr_corr(*r, *s),
        pa::ExprData::IndexAccess(l, r) => b.data matches out_a::ExprData::IndexAccess(m, s) && spec_expr_corr(*l, *m)
            && spec_expr_corr(*r, *s),
        pa::ExprData::Cast(e, _) => b.data matches out_a::ExprData::Cast(f, _) && spec_expr_corr(*e, *f),
        pa::ExprData::StructCons(_, items) => b.data is Error || (b.data matches out_a::ExprData::StructCons(_, m)
            && forall|i: int| 0 <= i < items@.len() ==> m.has((#[trigger] items@[i]).0.data@)),
    }
}

/// Lists of expressions correspond one by one.
pub open spec fn spec_exprs_corr(es: Seq<pa::ExprNode>, fs: Seq<out_a::ExprNode>) -> bool
    decreases es,
{
    &&& es.len() == fs.len()
    &&& forall|i: int| 0 <= i < es.len() ==> spec_expr_corr(#[trigger] es[i], fs[i])
}

/// Match clauses correspond one by one: same place, and their bodies correspond.
pub open spec fn spec_clauses_corr(cs: Seq<pa::MatchClause>, ds: Seq<out_a::MatchClause>) -> bool
    decreases cs,
{
    &&& cs.len() == ds.len()
    &&& forall|i: int| 0 <= i < cs.len() ==> (#[trigger] ds[i]).pos == cs[i].pos && spec_expr_corr(cs[i].expr, ds[i].expr)
}

/// Every type written in `a` (a `let` annotation or a cast) names, by each of its paths,
/// nothing or a declaration with a type variable, seen from the module `module`.
pub open spec fn spec_expr_types_ok(si: ScopeInfo, module: usize, tv: Set<usize>, a: pa::ExprNode) -> bool
    decreases a,
{
    match a.data {
        pa::ExprData::Tuple(es) => spec_exprs_types_ok(si, module, tv, es@),
        pa::ExprData::ArrayInitExact(es) => spec_exprs_types_ok(si, module, tv, es@),
        pa::ExprData::ArrayInitRepeat(e, _) => spec_expr_types_ok(si, module, tv, *e),
        pa::ExprData::FunCall(f, es) => spec_expr_types_ok(si, module, tv, *f) && spec_exprs_types_ok(si, module, tv, es@),
        pa::ExprData::MethodCall(o, _, es) => spec_expr_types_ok(si, module, tv, *o) && spec_exprs_types_ok(
            si,
            module,
            tv,
            es@,
        ),
        pa::ExprData::FieldAccess(o, _) => spec_expr_types_ok(si, module, tv, *o),
        pa::ExprData::ClosedBlock(es) => spec_exprs_types_ok(si, module, tv, es@),
        pa::ExprData::OpenBlock(es, l) => spec_exprs_types_ok(si, module, tv, es@) && spec_expr_types_ok(si, module, tv, *l),
        pa::ExprData::Return(e) => match e {
            Some(e) => spec_expr_types_ok(si, module, tv, *e),
            None => true,
        },
        pa::ExprData::Let { tp, expr, .. } => (tp matches Some(t) ==> spec_type_names_ok(si, module, tv, t))
            && spec_expr_types_ok(si, module, tv, *expr),
        pa::ExprData::Match(e, cls) => spec_expr_types_ok(si, module, tv, *e) && spec_clauses_types_ok(si, module, tv, cls@),
        pa::ExprData::Ref(e) => spec_expr_types_ok(si, module, tv, *e),
        pa::ExprData::RefMut(e) => spec_expr_types_ok(si, module, tv, *e),
        pa::ExprData::Deref(e) => spec_expr_types_ok(si, module, tv, *e),
        pa::ExprData::If(p, t, e) => spec_expr_types_ok(si, module, tv, *p) && spec_expr_types_ok(si, module, tv, *t)
            && match e {
            Some(e) => spec_expr_types_ok(si, module, tv, *e),
            None => true,
        },
        pa::ExprData::While(p, t) => spec_expr_types_ok(si, module, tv, *p) && spec_expr_types_ok(si, module, tv, *t),
        pa::ExprData::Assign(l, r) => spec_expr_types_ok(si, module, tv, *l) && spec_expr_types_ok(si, module, tv, *r),
        pa::ExprData::IndexAccess(l, r) => spec_expr_types_ok(si, module, tv, *l) && spec_expr_types_ok(si, module, tv, *r),
        pa::ExprData::Cast(e, t) => spec_expr_types_ok(si, module, tv, *e) && spec_type_names_ok(si, module, tv, t),
        pa::ExprData::StructCons(_, items) => forall|i: int|
            0 <= i < items@.len() ==> {
                proof {
                    assert(decreases_to!(a => a.data));
                    assert(decreases_to!(a.data => items));
                    assert(decreases_to!(items => items@));
                    assert(decreases_to!(items@ => items@[i]));
                    assert(decreases_to!(items@[i] => items@[i].1));
                }
                spec_expr_types_ok(si, module, tv, (#[trigger] items@[i]).1)
            },
        _ => true,
    }
}

pub open spec fn spec_exprs_types_ok(si: ScopeInfo, module: usize, tv: Set<usize>, es: Seq<pa::ExprNode>) -> bool
    decreases es,
{
    forall|i: int| 0 <= i < es.len() ==> spec_expr_types_ok(si, module, tv, #[trigger] es[i])
}

pub open spec fn spec_clauses_types_ok(si: ScopeInfo, module: usize, tv: Set<usize>, cs: Seq<pa::MatchClause>) -> bool
    decreases cs,
{
    forall|i: int|
        0 <= i < cs.len() ==> {
            proof {
                assert(decreases_to!(cs => cs[i]));
                assert(decreases_to!(cs[i] => cs[i].expr));
            }
            spec_expr_types_ok(si, module, tv, (#[trigger] cs[i]).expr)
        }
}

fn unit_node(pos: &crate::common::Position) -> (res: out_a::ExprNode)
    ensures
        spec_is_unit_node(res, *pos),
{
    out_a::ExprNode { data: out_a::ExprData::Tuple(Vec::new()), pos: pos.clone() }
}

/// Resolves the names of an expression.
///
/// Unresolvable names are reported and make error nodes; a `let` binds its name in the
/// innermost local scope. The error comes when a declaration has no type variable.
pub fn tr_expr(ctx: &mut Context, env: &mut Env, expr: pa::ExprNode) -> (res: Result<out_a::ExprNode, InternalError>)
    requires
        old(env).wf(),
        old(env).local_scopes@.len() > 0,
    ensures
        final(env).wf(),
        res is Ok ==> spec_env_kept(*old(env), *final(env)),
        spec_reported_after(*old(ctx), *final(ctx)),
        res matches Ok(o) ==> spec_expr_corr(expr, o),
        res matches Ok(o) ==> (expr.data matches pa::ExprData::Var(path) ==> match old(env).spec_find_symbol(path.data@) {
            Ok(None) => o.data matches out_a::ExprData::Var(out_a::SymRef::Local(s)) && s@ == path.data@[0].data@,
            Ok(Some(id)) => o.data == out_a::ExprData::Var(out_a::SymRef::Global(id)),
            Err(_) => o.data is Error,
        }),
        spec_expr_types_ok(old(env).scope_info, old(env).current_module.id, old(env).tv_ids(), expr) ==> res is Ok,
    decreases expr,
{
    let ghost e0 = expr;
    let pos = expr.pos;
    let data = match expr.data {
        pa::ExprData::Var(path) => match env.find_symbol(path) {
            Ok(sym) => out_a::ExprData::Var(sym),
            Err(diag) => {
                ctx.report(diag);
                out_a::ExprData::Error
            },
        },
        pa::ExprData::FieldAccess(e, ident) => {
            let e = tr_expr(ctx, env, *e)?;
            out_a::ExprData::FieldAccess(Box::new(e), ident.name_str())
        },
        pa::ExprData::ClosedBlock(es) => {
            env.new_scope();
            let es = tr_exprs(ctx, env, es)?;
            env.leave_scope();
            assert(env.local_scopes@ =~= old(env).local_scopes@);
            out_a::ExprData::Block(es, Box::new(unit_node(&pos)))
        },
        pa::ExprData::OpenBlock(es, last) => {
            env.new_scope();
            let es = tr_exprs(ctx, env, es)?;
            let last = tr_expr(ctx, env, *last)?;
            env.leave_scope();
            assert(env.local_scopes@ =~= old(env).local_scopes@);
            out_a::ExprData::Block(es, Box::new(last))
        },
        pa::ExprData::Return(e) => {
            let e = match e {
                Some(e) => tr_expr(ctx, env, *e)?,
                None => unit_node(&pos),
            };
            out_a::ExprData::Return(Box::new(e))
        },
        pa::ExprData::Let { name, is_mut, tp, expr } => {
            env.add_local_var(name.name_str());
            let tp = match tp {
                Some(tp) => {
                    proof {
                        if spec_type_names_ok(env.scope_info, env.current_module.id, env.tv_ids(), tp) {
                            env.lemma_type_names_ok(tp);
                        }
                    }
                    Some(env.resolve_type(ctx, tp)?)
                },
                None => None,
            };
            let e = tr_expr(ctx, env, *expr)?;
            out_a::ExprData::Let { name: name.name_str(), is_mut, tp, expr: Box::new(e) }
        },
        pa::ExprData::If(pr, th, el) => {
            let pr = tr_expr(ctx, env, *pr)?;
            let th = tr_expr(ctx, env, *th)?;
            let el = match el {
                Some(e) => tr_expr(ctx, env, *e)?,
                None => unit_node(&pos),
            };
            out_a::ExprData::If(Box::new(pr), Box::new(th), Box::new(el))
        },
        pa::ExprData::StructCons(path, items) => {
            let sym_ref = match env.find_symbol(path) {
                Ok(sym) => sym,
                Err(diag) => {
                    ctx.report(diag);
                    return Ok(out_a::ExprNode { data: out_a::ExprData::Error, pos });
                },
            };
            let id = match sym_ref {
                out_a::SymRef::Local(_) => {
                    ctx.report(error::local_type(&pos));
                    return Ok(out_a::ExprNode { data: out_a::ExprData::Error, pos });
                },
                out_a::SymRef::Global(id) => id,
            };
            let ghost all = items@;
            let ghost iv = items;
            let mut rest = items;
            let mut tr_items: NameMap<out_a::ExprNode> = NameMap::new();
            let n = rest.len();
            let mut k: usize = 0;
            while rest.len() > 0
                invariant
                    k <= n,
                    n == all.len(),
                    iv@ == all,
                    e0 == expr,
                    e0.data == pa::ExprData::StructCons(e0.data->StructCons_0, iv),
                    rest@ == all.subrange(k as int, n as int),
                    env.wf(),
                    env.local_scopes@.len() > 0,
                    spec_env_kept(*old(env), *env),
                    spec_reported_after(*old(ctx), *ctx),
                    tr_items.keys_unique(),
                    forall|i: int| 0 <= i < k ==> tr_items.has((#[trigger] all[i]).0.data@),
                    spec_expr_types_ok(old(env).scope_info, old(env).current_module.id, old(env).tv_ids(), e0) ==> forall|i: int|
                        0 <= i < n ==> spec_expr_types_ok(
                            old(env).scope_info,
                            old(env).current_module.id,
                            old(env).tv_ids(),
                            (#[trigger] all[i]).1,
                        ),
                decreases n - k,
            {
                let (ident, e) = rest.remove(0);
                assert((ident, e) == all[k as int]);
                assert(decreases_to!(e0 => e)) by {
                    assert(decreases_to!(e0 => e0.data));
                    assert(decreases_to!(e0.data => e0.data->StructCons_1));
                    assert(decreases_to!(iv => iv@));
                    assert(decreases_to!(iv@ => iv@[k as int]));
                    assert(decreases_to!(iv@[k as int] => iv@[k as int].1));
                }
                let name = ident.name_str();
                let ghost env_before = *env;
                let t = tr_expr(ctx, env, e)?;
                let ghost prev = tr_items;
                if let Some(_) = tr_items.insert(name.clone(), t) {
                    ctx.report(error::field_duplicate(&pos, name));
                }
                proof {
                    assert forall|i: int| 0 <= i < k + 1 implies tr_items.has((#[trigger] all[i]).0.data@) by {
                        if i < k && all[i].0.data@ != ident.data@ {
                            assert(prev.has(all[i].0.data@));
                        }
                    }
                }
                k = k + 1;
                assert(rest@ =~= all.subrange(k as int, n as int));
            }
            out_a::ExprData::StructCons(id, tr_items)
        },
        pa::ExprData::Assign(l, r) => {
            let l = tr_expr(ctx, env, *l)?;
            let r = tr_expr(ctx, env, *r)?;
            out_a::ExprData::Assign(Box::new(l), Box::new(r))
        },
        pa::ExprData::FunCall(f, args) => {
            let f = tr_expr(ctx, env, *f)?;
            let args = tr_exprs(ctx, env, args)?;
            out_a::ExprData::FunCall(Box::new(f), args)
        },
        pa::ExprData::Ref(e) => {
            let e = tr_expr(ctx, env, *e)?;
            out_a::ExprData::Ref(Box::new(e))
        },
        pa::ExprData::RefMut(e) => {
            let e = tr_expr(ctx, env, *e)?;
            out_a::ExprData::RefMut(Box::new(e))
        },
        pa::ExprData::Deref(e) => {
            let e = tr_expr(ctx, env, *e)?;
            out_a::ExprData::Deref(Box::new(e))
        },
        pa::ExprData::Number(num) => out_a::ExprData::NumLit(num),
        pa::ExprData::Error => out_a::ExprData::Error,
        pa::ExprData::Char(c) => out_a::ExprData::Char(c),
        pa::ExprData::String(s) => out_a::ExprData::String(s),
        pa::ExprData::Tuple(es) => {
            let es = tr_exprs(ctx, env, es)?;
            out_a::ExprData::Tuple(es)
        },
        pa::ExprData::Match(e, clauses) => {
            let e = tr_expr(ctx, env, *e)?;
            let clauses = tr_clauses(ctx, env, clauses)?;
            out_a::ExprData::Match(Box::new(e), clauses)
        },
        pa::ExprData::While(cond, block) => {
            let cond = tr_expr(ctx, env, *cond)?;
            let block = tr_expr(ctx, env, *block)?;
            out_a::ExprData::While(Box::new(cond), Box::new(block))
        },
        pa::ExprData::MethodCall(e, ident, args) => {
            let e = tr_expr(ctx, env, *e)?;
            let args = tr_exprs(ctx, env, args)?;
            out_a::ExprData::MethodCall(Box::new(e), ident.data, args)
        },
        pa::ExprData::ArrayInitExact(es) => {
            let es = tr_exprs(ctx, env, es)?;
            out_a::ExprData::ArrayInitExact(es)
        },
        pa::ExprData::ArrayInitRepeat(e, size) => {
            let e = tr_expr(ctx, env, *e)?;
            out_a::ExprData::ArrayInitRepeat(Box::new(e), size)
        },
        pa::ExprData::IndexAccess(a, b) => {
            let a = tr_expr(ctx, env, *a)?;
            let b = tr_expr(ctx, env, *b)?;
            out_a::ExprData::IndexAccess(Box::new(a), Box::new(b))
        },
        pa::ExprData::Cast(e, tp) => {
            let e = tr_expr(ctx, env, *e)?;
            proof {
                if spec_type_names_ok(env.scope_info, env.current_module.id, env.tv_ids(), tp) {
                    env.lemma_type_names_ok(tp);
                }
            }
            let tp = env.resolve_type(ctx, tp)?;
            out_a::ExprData::Cast(Box::new(e), tp)
        },
    };
    Ok(out_a::ExprNode { data, pos })
}

/// Resolves the names of a list of expressions, in order.
pub fn tr_exprs(ctx: &mut Context, env: &mut Env, es: Vec<pa::ExprNode>) -> (res: Result<Vec<out_a::ExprNode>, InternalError>)
    requires
        old(env).wf(),
        old(env).local_scopes@.len() > 0,
    ensures
        final(env).wf(),
        res is Ok ==> spec_env_kept(*old(env), *final(env)),
        spec_reported_after(*old(ctx), *final(ctx)),
        res matches Ok(v) ==> spec_exprs_corr(es@, v@),
        spec_exprs_types_ok(old(env).scope_info, old(env).current_module.id, old(env).tv_ids(), es@) ==> res is Ok,
    decreases es,
{
    let ghost all = es@;
    let ghost v0 = es;
    let mut rest = es;
    let mut out: Vec<out_a::ExprNode> = Vec::new();
    let n = rest.len();
    let mut k: usize = 0;
    while rest.len() > 0
        invariant
            k <= n,
            n == all.len(),
            v0@ == all,
            v0 == es,
            rest@ == all.subrange(k as int, n as int),
            env.wf(),
            env.local_scopes@.len() > 0,
            spec_env_kept(*old(env), *env),
            spec_reported_after(*old(ctx), *ctx),
            out@.len() == k,
            forall|i: int| 0 <= i < k ==> spec_expr_corr(#[trigger] all[i], out@[i]),
        decreases n - k,
    {
        let item = rest.remove(0);
        assert(item == all[k as int]);
        assert(decreases_to!(v0 => item)) by {
            assert(decreases_to!(v0 => v0@));
            assert(decreases_to!(v0@ => v0@[k as int]));
        }
        let t = tr_expr(ctx, env, item)?;
        out.push(t);
        k = k + 1;
        assert(rest@ =~= all.subrange(k as int, n as int));
    }
    assert forall|i: int| 0 <= i < all.len() implies spec_expr_corr(#[trigger] all[i], out@[i]) by {}
    Ok(out)
}

/// Resolves the match clauses, each in a local scope of its own.
pub fn tr_clauses(ctx: &mut Context, env: &mut Env, cls: Vec<pa::MatchClause>) -> (res: Result<Vec<out_a::MatchClause>, InternalError>)
    requires
        old(env).wf(),
        old(env).local_scopes@.len() > 0,
    ensures
        final(env).wf(),
        res is Ok ==> spec_env_kept(*old(env), *final(env)),
        spec_reported_after(*old(ctx), *final(ctx)),
        res matches Ok(v) ==> spec_clauses_corr(cls@, v@),
        spec_clauses_types_ok(old(env).scope_info, old(env).current_module.id, old(env).tv_ids(), cls@) ==> res is Ok,
    decreases cls,
{
    let ghost all = cls@;
    let ghost v0 = cls;
    let mut rest = cls;
    let mut out: Vec<out_a::MatchClause> = Vec::new();
    let n = rest.len();
    let mut k: usize = 0;
    while rest.len() > 0
        invariant
            k <= n,
            n == all.len(),
            v0@ == all,
            v0 == cls,
            rest@ == all.subrange(k as int, n as int),
            env.wf(),
            env.local_scopes@.len() > 0,
            spec_env_kept(*old(env), *env),
            spec_reported_after(*old(ctx), *ctx),
            out@.len() == k,
            forall|i: int| 0 <= i < k ==> (#[trigger] out@[i]).pos == all[i].pos && spec_expr_corr(all[i].expr, out@[i].expr),
        decreases n - k,
    {
        let cl = rest.remove(0);
        assert(cl == all[k as int]);
        assert(decreases_to!(v0 => cl)) by {
            assert(decreases_to!(v0 => v0@));
            assert(decreases_to!(v0@ => v0@[k as int]));
        }
        let t = tr_clause(ctx, env, cl)?;
        out.push(t);
        k = k + 1;
        assert(rest@ =~= all.subrange(k as int, n as int));
    }
    Ok(out)
}

/// Resolves one match clause: its pattern binds names for its body only.
pub fn tr_clause(ctx: &mut Context, env: &mut Env, cl: pa::MatchClause) -> (res: Result<out_a::MatchClause, InternalError>)
    requires
        old(env).wf(),
        old(env).local_scopes@.len() > 0,
    ensures
        final(env).wf(),
        res is Ok ==> spec_env_kept(*old(env), *final(env)),
        spec_reported_after(*old(ctx), *final(ctx)),
        res matches Ok(c) ==> c.pos == cl.pos && spec_expr_corr(cl.expr, c.expr),
        spec_expr_types_ok(old(env).scope_info, old(env).current_module.id, old(env).tv_ids(), cl.expr) ==> res is Ok,
    decreases cl,
{
    env.new_scope();
    let pattern = tr_pattern(ctx, env, cl.pattern);
    assert(decreases_to!(cl => cl.expr));
    let expr = tr_expr(ctx, env, cl.expr)?;
    env.leave_scope();
    proof {
        assert(env.local_scopes@ =~= old(env).local_scopes@);
    }
    Ok(out_a::MatchClause { pattern, expr, pos: cl.pos })
}

/// Resolves a pattern: its variables are bound in the innermost local scope, and a
/// constructor it names must be a declaration.
pub fn tr_pattern(ctx: &mut Context, env: &mut Env, pattern: pa::PatternNode) -> (res: out_a::PatternNode)
    requires
        old(env).wf(),
        old(env).local_scopes@.len() > 0,
    ensures
        final(env).wf(),
        spec_env_kept(*old(env), *final(env)),
        spec_reported_after(*old(ctx), *final(ctx)),
        res.pos == pattern.pos,
    decreases pattern,
{
    let ghost p0 = pattern;
    let pos = pattern.pos;
    let data = match pattern.data {
        pa::PatternData::Wildcard => out_a::PatternData::Wildcard,
        pa::PatternData::Number(n) => out_a::PatternData::Number(n),
        pa::PatternData::Var(ident) => {
            let name = ident.data;
            env.add_local_var(name.clone());
            out_a::PatternData::Var(name)
        },
        pa::PatternData::Tuple(ps) => {
            assert(decreases_to!(p0 => ps)) by {
                assert(decreases_to!(p0 => p0.data));
            }
            out_a::PatternData::Tuple(tr_patterns(ctx, env, ps))
        },
        pa::PatternData::TupleCons(path, ps) => match env.find_symbol(path) {
            Ok(out_a::SymRef::Local(_)) => {
                ctx.report(Diagnostic::error(&pos));
                out_a::PatternData::Error
            },
            Ok(out_a::SymRef::Global(id)) => {
                assert(decreases_to!(p0 => ps)) by {
                    assert(decreases_to!(p0 => p0.data));
                }
                out_a::PatternData::TupleCons(id, tr_patterns(ctx, env, ps))
            },
            Err(diag) => {
                ctx.report(diag);
                out_a::PatternData::Error
            },
        },
    };
    out_a::PatternNode { data, pos }
}

/// Resolves a list of patterns, in order.
pub fn tr_patterns(ctx: &mut Context, env: &mut Env, ps: Vec<pa::PatternNode>) -> (res: Vec<out_a::PatternNode>)
    requires
        old(env).wf(),
        old(env).local_scopes@.len() > 0,
    ensures
        final(env).wf(),
        spec_env_kept(*old(env), *final(env)),
        spec_reported_after(*old(ctx), *final(ctx)),
        res@.len() == ps@.len(),
    decreases ps,
{
    let ghost all = ps@;
    let ghost v0 = ps;
    let mut rest = ps;
    let mut out: Vec<out_a::PatternNode> = Vec::new();
    let n = rest.len();
    let mut k: usize = 0;
    while rest.len() > 0
        invariant
            k <= n,
            n == all.len(),
            v0@ == all,
            v0 == ps,
            rest@ == all.subrange(k as int, n as int),
            env.wf(),
            env.local_scopes@.len() > 0,
            spec_env_kept(*old(env), *env),
            spec_reported_after(*old(ctx), *ctx),
            out@.len() == k,
        decreases n - k,
    {
        let item = rest.remove(0);
        assert(item == all[k as int]);
        assert(decreases_to!(v0 => item)) by {
            assert(decreases_to!(v0 => v0@));
            assert(decreases_to!(v0@ => v0@[k as int]));
        }
        out.push(tr_pattern(ctx, env, item));
        k = k + 1;
        assert(rest@ =~= all.subrange(k as int, n as int));
    }
    out
}

/// Every `builtin` attribute names a builtin type.
pub open spec fn spec_builtin_attrs_ok(attributes: Seq<RAttribute>) -> bool {
    forall|i: int| 0 <= i < attributes.len() && (#[trigger] attributes[i]).name.data@ == "builtin"@
        ==> attributes[i].args@.len() > 0 && spec_builtin_type_id(attributes[i].args@[0]@) is Some
}

/// The type a named type stands for: a builtin one if an attribute says so, else a fresh one.
pub fn get_tvar_maybe_builtin(attributes: &Vec<RAttribute>, gen: &mut TVarGen) -> (res: TVar)
    requires
        spec_builtin_attrs_ok(attributes@),
        old(gen).next < usize::MAX,
    ensures
        !spec_has_attribute(attributes@, "builtin"@) ==> res.id == old(gen).next && res.kind == TVarKind::Type
            && final(gen).next == old(gen).next + 1,
        spec_has_attribute(attributes@, "builtin"@) ==> res.kind == TVarKind::Type && *final(gen) == *old(gen)
            && exists|i: int| 0 <= i < attributes@.len() && (#[trigger] attributes@[i]).name.data@ == "builtin"@
                && spec_builtin_type_id(attributes@[i].args@[0]@) == Some(res.id),
{
    let mut builtin_name: Option<&String> = None;
    let n = attributes.len();
    let mut i: usize = 0;
    while i < n
        invariant
            n == attributes@.len(),
            i <= n,
            spec_builtin_attrs_ok(attributes@),
            builtin_name is None <==> !spec_has_attribute(attributes@.subrange(0, i as int), "builtin"@),
            builtin_name matches Some(b) ==> exists|j: int| 0 <= j < i && (#[trigger] attributes@[j]).name.data@ == "builtin"@
                && attributes@[j].args@[0] == *b,
        decreases n - i,
    {
        let ghost pre = attributes@.subrange(0, i as int);
        let ghost next = attributes@.subrange(0, i + 1);
        if str_eq(attributes[i].name.data.as_str(), "builtin") {
            builtin_name = Some(&attributes[i].args[0]);
        }
        proof {
            assert(next[i as int] == attributes@[i as int]);
            if spec_has_attribute(pre, "builtin"@) {
                let k = choose|k: int| 0 <= k < pre.len() && #[trigger] pre[k].name.data@ == "builtin"@;
                assert(next[k] == pre[k]);
            }
            if spec_has_attribute(next, "builtin"@) {
                let k = choose|k: int| 0 <= k < next.len() && #[trigger] next[k].name.data@ == "builtin"@;
                if k < i {
                    assert(pre[k] == next[k]);
                }
            }
        }
        i = i + 1;
    }
    assert(attributes@.subrange(0, n as int) =~= attributes@);
    match builtin_name {
        Some(name) => TVar::of_builtin(name.as_str()),
        None => TVar::new(gen, TVarKind::Type),
    }
}

/// What name resolution needs of a module tree: builtin attributes name builtin types,
/// the fields of a struct have different names, and enum constructors are tuple variants.
pub open spec fn spec_resolve_ok(m: in_a::Module) -> bool
    decreases m,
{
    forall|i: int| 0 <= i < m.items@.len() ==> {
        proof {
            assert(decreases_to!(m => m.items));
            assert(decreases_to!(m.items => m.items@));
            assert(decreases_to!(m.items@ => m.items@[i]));
        }
        spec_item_resolve_ok(#[trigger] m.items@[i])
    }
}

pub open spec fn spec_item_resolve_ok(item: in_a::ModuleItem) -> bool
    decreases item,
{
    match item {
        in_a::ModuleItem::Module(m) => spec_resolve_ok(m),
        in_a::ModuleItem::Func(_) => true,
        in_a::ModuleItem::Struct(s) => spec_builtin_attrs_ok(s.attributes@) && forall|a: int, b: int|
            0 <= a < b < s.fields@.len() ==> (#[trigger] s.fields@[a]).0.data@ != (#[trigger] s.fields@[b]).0.data@,
        in_a::ModuleItem::Enum(e) => spec_builtin_attrs_ok(e.attributes@) && forall|i: int|
            0 <= i < e.constructors@.len() ==> (#[trigger] e.constructors@[i]) is Tuple,
    }
}

/// `id` is the id of a struct or an enum of the module tree `m`.
pub open spec fn spec_declares_type(m: in_a::Module, id: usize) -> bool
    decreases m,
{
    exists|i: int|
        0 <= i < m.items@.len() && {
            proof {
                assert(decreases_to!(m => m.items));
                assert(decreases_to!(m.items => m.items@));
                assert(decreases_to!(m.items@ => m.items@[i]));
            }
            match #[trigger] m.items@[i] {
                in_a::ModuleItem::Module(sub) => spec_declares_type(sub, id),
                in_a::ModuleItem::Struct(st) => st.id.id == id,
                in_a::ModuleItem::Enum(en) => en.id.id == id,
                in_a::ModuleItem::Func(_) => false,
            }
        }
}

/// The number of structs and enums of the module tree `m`.
pub open spec fn spec_type_count(m: in_a::Module) -> nat
    decreases m,
{
    proof {
        assert(decreases_to!(m => m.items));
        assert(decreases_to!(m.items => m.items@));
    }
    spec_items_type_count(m.items@)
}

/// The number of structs and enums of a list of items, submodules included.
pub open spec fn spec_items_type_count(items: Seq<in_a::ModuleItem>) -> nat
    decreases items,
{
    if items.len() == 0 {
        0
    } else {
        spec_items_type_count(items.subrange(0, items.len() - 1)) + match items[items.len() - 1] {
            in_a::ModuleItem::Module(sub) => spec_type_count(sub),
            in_a::ModuleItem::Struct(_) => 1,
            in_a::ModuleItem::Enum(_) => 1,
            in_a::ModuleItem::Func(_) => 0,
        }
    }
}

/// A prefix of a list of items has no more types than the list.
pub proof fn lemma_items_type_count_prefix(items: Seq<in_a::ModuleItem>, j: int)
    requires
        0 <= j <= items.len(),
    ensures
        spec_items_type_count(items.subrange(0, j)) <= spec_items_type_count(items),
    decreases items.len() - j,
{
    if j == items.len() {
        assert(items.subrange(0, j) =~= items);
    } else {
        let i1 = items.subrange(0, items.len() - 1);
        assert(i1.subrange(0, j) =~= items.subrange(0, j));
        lemma_items_type_count_prefix(i1, j);
    }
}

/// Gives every struct and enum of the tree its type variable.
///
/// The error comes only when type variables run out.
pub fn generate_tvars(tvar_map: &mut IdMap<TVar>, gen: &mut TVarGen, ast: &in_a::Module) -> (res: Result<(), InternalError>)
    requires
        old(tvar_map).keys_unique(),
        spec_resolve_ok(*ast),
    ensures
        final(tvar_map).keys_unique(),
        forall|j: usize| #[trigger] old(tvar_map).has(j) ==> final(tvar_map).has(j),
        final(gen).next >= old(gen).next,
        forall|j: usize| #[trigger] final(tvar_map).has(j) ==> old(tvar_map).has(j) || spec_declares_type(*ast, j),
        res is Ok ==> forall|j: usize| spec_declares_type(*ast, j) ==> #[trigger] final(tvar_map).has(j),
        res is Ok ==> final(gen).next <= old(gen).next + spec_type_count(*ast),
        old(gen).next + spec_type_count(*ast) <= usize::MAX ==> res is Ok,
    decreases ast,
{
    let ghost items = ast.items@;
    let n = ast.items.len();
    let mut i: usize = 0;
    assert(items.subrange(0, 0) =~= seq![]);
    while i < n
        invariant
            n == ast.items@.len(),
            items == ast.items@,
            i <= n,
            spec_resolve_ok(*ast),
            tvar_map.keys_unique(),
            forall|j: usize| #[trigger] old(tvar_map).has(j) ==> tvar_map.has(j),
            gen.next >= old(gen).next,
            gen.next <= old(gen).next + spec_items_type_count(items.subrange(0, i as int)),
            forall|j: usize|
                #[trigger] tvar_map.has(j) ==> old(tvar_map).has(j) || exists|k: int|
                    0 <= k < i && match #[trigger] items[k] {
                        in_a::ModuleItem::Module(sub) => spec_declares_type(sub, j),
                        in_a::ModuleItem::Struct(st) => st.id.id == j,
                        in_a::ModuleItem::Enum(en) => en.id.id == j,
                        in_a::ModuleItem::Func(_) => false,
                    },
            forall|k: int, j: usize|
                0 <= k < i && match #[trigger] items[k] {
                    in_a::ModuleItem::Module(sub) => spec_declares_type(sub, j),
                    in_a::ModuleItem::Struct(st) => st.id.id == j,
                    in_a::ModuleItem::Enum(en) => en.id.id == j,
                    in_a::ModuleItem::Func(_) => false,
                } ==> #[trigger] tvar_map.has(j),
        decreases n - i,
    {
        proof {
            let i1 = items.subrange(0, i + 1);
            assert(i1.subrange(0, i as int) =~= items.subrange(0, i as int));
            lemma_items_type_count_prefix(items, i + 1);
        }
        let ghost before = *tvar_map;
        assert(spec_item_resolve_ok(ast.items@[i as int]));
        match &ast.items[i] {
            in_a::ModuleItem::Module(module) => {
                assert(decreases_to!(*ast => *module)) by {
                    assert(decreases_to!(*ast => ast.items));
                    assert(decreases_to!(ast.items => ast.items@));
                    assert(decreases_to!(ast.items@ => ast.items@[i as int]));
                }
                generate_tvars(tvar_map, gen, module)?;
            },
            in_a::ModuleItem::Func(_) => {},
            in_a::ModuleItem::Struct(st) => {
                if gen.next == usize::MAX {
                    return Err(InternalError::msg("ran out of type variables"));
                }
                let tvar = get_tvar_maybe_builtin(&st.attributes, gen);
                let _ = tvar_map.insert(st.id.id, tvar);
            },
            in_a::ModuleItem::Enum(en) => {
                if gen.next == usize::MAX {
                    return Err(InternalError::msg("ran out of type variables"));
                }
                let tvar = get_tvar_maybe_builtin(&en.attributes, gen);
                let _ = tvar_map.insert(en.id.id, tvar);
            },
        }
        proof {
            assert forall|j: usize| #[trigger] tvar_map.has(j) implies old(tvar_map).has(j) || exists|k: int|
                0 <= k < i + 1 && match #[trigger] items[k] {
                    in_a::ModuleItem::Module(sub) => spec_declares_type(sub, j),
                    in_a::ModuleItem::Struct(st) => st.id.id == j,
                    in_a::ModuleItem::Enum(en) => en.id.id == j,
                    in_a::ModuleItem::Func(_) => false,
                } by {
                if !before.has(j) {
                    assert(match items[i as int] {
                        in_a::ModuleItem::Module(sub) => spec_declares_type(sub, j),
                        in_a::ModuleItem::Struct(st) => st.id.id == j,
                        in_a::ModuleItem::Enum(en) => en.id.id == j,
                        in_a::ModuleItem::Func(_) => false,
                    });
                }
            }
            assert forall|k: int, j: usize|
                0 <= k < i + 1 && match #[trigger] items[k] {
                    in_a::ModuleItem::Module(sub) => spec_declares_type(sub, j),
                    in_a::ModuleItem::Struct(st) => st.id.id == j,
                    in_a::ModuleItem::Enum(en) => en.id.id == j,
                    in_a::ModuleItem::Func(_) => false,
                } implies #[trigger] tvar_map.has(j) by {
                if k < i {
                    assert(before.has(j));
                }
            }
        }
        i = i + 1;
    }
    proof {
        assert(items.subrange(0, n as int) =~= items);
        assert forall|j: usize| #[trigger] tvar_map.has(j) implies old(tvar_map).has(j) || spec_declares_type(*ast, j) by {
            if !old(tvar_map).has(j) {
                let k = choose|k: int|
                    0 <= k < n && match #[trigger] items[k] {
                        in_a::ModuleItem::Module(sub) => spec_declares_type(sub, j),
                        in_a::ModuleItem::Struct(st) => st.id.id == j,
                        in_a::ModuleItem::Enum(en) => en.id.id == j,
                        in_a::ModuleItem::Func(_) => false,
                    };
                assert(ast.items@[k] == items[k]);
            }
        }
        assert forall|j: usize| spec_declares_type(*ast, j) implies #[trigger] tvar_map.has(j) by {
            let k = choose|k: int|
                0 <= k < ast.items@.len() && match #[trigger] ast.items@[k] {
                    in_a::ModuleItem::Module(sub) => spec_declares_type(sub, j),
                    in_a::ModuleItem::Struct(st) => st.id.id == j,
                    in_a::ModuleItem::Enum(en) => en.id.id == j,
                    in_a::ModuleItem::Func(_) => false,
                };
            assert(items[k] == ast.items@[k]);
        }
    }
    Ok(())
}

/// The type of `self` in a method of the type `parent`.
fn self_type(ctx: &mut Context, parent: &(TVar, String), pos: &crate::common::Position) -> (res: Type)
    ensures
        spec_reported_after(*old(ctx), *final(ctx)),
        res.ty() == match parent.0.kind {
            TVarKind::TypeCons(_) => Ty::Unknown,
            _ => Ty::NamedVar(parent.0, parent.1@),
        },
        !(parent.0.kind is TypeCons) ==> final(ctx).diagnostics@ == old(ctx).diagnostics@,
        parent.0.kind matches TVarKind::TypeCons(n) ==> final(ctx).diagnostics@ == old(
            ctx,
        ).diagnostics@.push(final(ctx).diagnostics@.last()) && spec_labelled_error(
            final(ctx).diagnostics@.last(),
            *pos,
            spec_type_params_mismatch_msg(n, 0),
        ),
{
    match Type::named_var(parent.0, parent.1.as_str(), pos) {
        Ok(t) => t,
        Err(diag) => {
            ctx.report(diag);
            Type::unknown()
        },
    }
}

/// Every type written in a function (its result, its named arguments, its body) names only
/// types, seen from the module `module`.
pub open spec fn spec_func_types_ok(si: ScopeInfo, module: usize, tv: Set<usize>, func: in_a::Func) -> bool {
    &&& (func.ret_type matches Some(t) ==> spec_type_names_ok(si, module, tv, t))
    &&& forall|i: int|
        0 <= i < func.args@.len() ==> ((#[trigger] func.args@[i]) matches pa::FnArg::Named { tp, .. } ==> spec_type_names_ok(
            si,
            module,
            tv,
            tp,
        ))
    &&& (func.body matches Some(b) ==> spec_expr_types_ok(si, module, tv, b))
}

/// Every type written in the module tree `m` names only types, every module has a scope,
/// and every struct and enum has a type variable; enum constructors are tuple variants.
pub open spec fn spec_module_types_ok(si: ScopeInfo, tv: Set<usize>, m: in_a::Module) -> bool
    decreases m,
{
    &&& si.has_scope(m.id.id)
    &&& forall|i: int|
        0 <= i < m.items@.len() ==> {
            proof {
                assert(decreases_to!(m => m.items));
                assert(decreases_to!(m.items => m.items@));
                assert(decreases_to!(m.items@ => m.items@[i]));
            }
            match #[trigger] m.items@[i] {
                in_a::ModuleItem::Module(sub) => spec_module_types_ok(si, tv, sub),
                in_a::ModuleItem::Func(f) => spec_func_types_ok(si, m.id.id, tv, f),
                in_a::ModuleItem::Struct(st) => {
                    &&& tv.contains(st.id.id)
                    &&& forall|j: int|
                        0 <= j < st.fields@.len() ==> spec_type_names_ok(si, m.id.id, tv, (#[trigger] st.fields@[j]).1)
                    &&& forall|j: int| 0 <= j < st.methods@.len() ==> spec_func_types_ok(si, m.id.id, tv, #[trigger] st.methods@[j])
                },
                in_a::ModuleItem::Enum(en) => {
                    &&& tv.contains(en.id.id)
                    &&& forall|j: int|
                        0 <= j < en.constructors@.len() ==> ((#[trigger] en.constructors@[j]) matches in_a::Constructor::Tuple {
                            params,
                            ..
                        } ==> forall|q: int| 0 <= q < params@.len() ==> spec_type_names_ok(si, m.id.id, tv, #[trigger] params@[q]))
                    &&& forall|j: int| 0 <= j < en.methods@.len() ==> spec_func_types_ok(si, m.id.id, tv, #[trigger] en.methods@[j])
                },
            }
        }
}

/// Resolves a function: its signature, recorded in the symbol table, and its body.
///
/// A function without a body is left out, and reported unless it is external; so is a
/// function taking `self` outside of a type. Its arguments are bound in a local scope of
/// its own, which is closed again, except after a `self` outside of a type: then the scope
/// stays open, holding the arguments bound so far.
pub fn tr_func(ctx: &mut Context, env: &mut Env, func: in_a::Func, parent: Option<(TVar, String)>) -> (res: Result<
    Option<out_a::Func>,
    InternalError,
>)
    requires
        old(env).wf(),
    ensures
        final(env).wf(),
        spec_reported_after(*old(ctx), *final(ctx)),
        res is Ok ==> spec_scopes_extended(old(env).local_scopes@, final(env).local_scopes@),
        res is Ok && (parent is Some || forall|i: int| 0 <= i < func.args@.len() ==> (#[trigger] func.args@[i]) is Named)
            ==> final(env).local_scopes@ == old(env).local_scopes@,
        res is Ok ==> final(env).current_module == old(env).current_module
            && final(env).scope_info == old(env).scope_info && final(env).node_tvar_map == old(env).node_tvar_map,
        res is Ok ==> spec_keys_grow(*old(env), *final(env)),
        res is Ok ==> final(env).tvar_map == old(env).tvar_map,
        res matches Ok(Some(f)) ==> {
            &&& f.id == func.id
            &&& f.name@ == func.name.data@
            &&& f.pos == func.pos
            &&& f.args@.len() == func.args@.len()
            &&& func.body matches Some(b) && spec_expr_corr(b, f.body)
            &&& final(env).node_map.has(func.id.id)
            &&& final(env).node_map.value(func.id.id).name@ == func.name.data@
            &&& final(env).node_map.value(func.id.id).kind is Func
            &&& final(env).node_map.value(func.id.id).is_extern == spec_has_attribute(func.attributes@, "extern"@)
            &&& Some(f.ret_type.ty()) == match func.ret_type {
                Some(t) => old(env).spec_resolve_type(t),
                None => Some(Ty::Tuple(Seq::empty())),
            }
            &&& final(env).node_map.value(func.id.id).kind matches SymKind::Func { ret, .. } && ret.ty() == f.ret_type.ty()
        },
        res matches Ok(None) ==> func.body is None || (parent is None && exists|i: int| 0 <= i < func.args@.len()
            && !((#[trigger] func.args@[i]) is Named)),
        res matches Ok(None) && (parent is Some || forall|i: int| 0 <= i < func.args@.len() ==> (#[trigger] func.args@[i]) is Named)
            ==> {
            &&& final(env).node_map.has(func.id.id)
            &&& final(env).node_map.value(func.id.id).kind is Func
            &&& (func.ret_type matches Some(t) ==> final(env).node_map.value(func.id.id).kind matches SymKind::Func { ret, .. }
                && Some(ret.ty()) == old(env).spec_resolve_type(t))
            &&& (func.ret_type is None ==> (final(env).node_map.value(func.id.id).kind matches SymKind::Func { ret, .. }
                && ret.ty() == Ty::Tuple(Seq::empty())))
            &&& !spec_has_attribute(func.attributes@, "extern"@) ==> final(ctx).diagnostics@.len() > 0
                && final(ctx).diagnostics@.last().severity == Severity::Error
                && final(ctx).diagnostics@.last().pos == func.pos
        },
        spec_func_types_ok(old(env).scope_info, old(env).current_module.id, old(env).tv_ids(), func) ==> res is Ok,
{
    let ghost ok = spec_func_types_ok(env.scope_info, env.current_module.id, env.tv_ids(), func);
    env.new_scope();
    proof {
        assert forall|n: Seq<char>| #[trigger] crate::resolve::env::spec_lookup_local(env.local_scopes@, n)
            == crate::resolve::env::spec_lookup_local(old(env).local_scopes@, n) by {
            assert(!env.local_scopes@.last().has(n));
            assert(env.local_scopes@.drop_last() =~= old(env).local_scopes@);
        }
    }
    let ret_type = match func.ret_type {
        Some(tp) => {
            proof {
                crate::resolve::env::lemma_same_resolve_type(*env, *old(env), tp);
                if ok {
                    env.lemma_type_names_ok(tp);
                }
            }
            env.resolve_type(ctx, tp)?
        },
        None => Type::unit(),
    };
    let mut args_tp: Vec<Type> = Vec::new();
    let mut args: Vec<out_a::FnArg> = Vec::new();
    let ghost all = func.args@;
    let mut rest = func.args;
    let n = rest.len();
    let mut k: usize = 0;
    while rest.len() > 0
        invariant
            k <= n,
            n == all.len(),
            rest@ == all.subrange(k as int, n as int),
            env.wf(),
            env.local_scopes@.len() == old(env).local_scopes@.len() + 1,
            env.local_scopes@.drop_last() == old(env).local_scopes@,
            env.current_module == old(env).current_module,
            env.scope_info == old(env).scope_info,
            env.node_tvar_map == old(env).node_tvar_map,
            env.node_map == old(env).node_map,
            env.tvar_map == old(env).tvar_map,
            spec_reported_after(*old(ctx), *ctx),
            args@.len() == k,
            all == func.args@,
            parent is None ==> forall|i: int| 0 <= i < k ==> (#[trigger] all[i]) is Named,
            ok == spec_func_types_ok(old(env).scope_info, old(env).current_module.id, old(env).tv_ids(), func),
        decreases n - k,
    {
        let arg = rest.remove(0);
        assert(arg == all[k as int]);
        let a = match arg {
            in_a::FnArg::Named { is_mut, name, tp, pos } => {
                env.add_local_var(name.name_str());
                proof {
                    if ok {
                        assert(func.args@[k as int] matches pa::FnArg::Named { .. });
                        env.lemma_type_names_ok(tp);
                    }
                }
                let tp = env.resolve_type(ctx, tp)?;
                args_tp.push(tp.clone());
                out_a::FnArg { is_mut, name: name.name_str(), tp, pos }
            },
            in_a::FnArg::NSelf { is_mut, pos } => {
                let name = string_of("self");
                env.add_local_var(name.clone());
                let tp = match &parent {
                    Some(p) => self_type(ctx, p, &pos),
                    None => {
                        ctx.report(Diagnostic::error(&pos));
                        assert(!(func.args@[k as int] is Named));
                        assert(env.local_scopes@.subrange(0, old(env).local_scopes@.len() as int) =~= old(env).local_scopes@);
                        return Ok(None);
                    },
                };
                args_tp.push(tp.clone());
                out_a::FnArg { is_mut, name, tp, pos }
            },
            in_a::FnArg::PtrSelf(pos) => {
                let name = string_of("self");
                env.add_local_var(name.clone());
                let tp = match &parent {
                    Some(p) => Type::ptr(self_type(ctx, p, &pos)),
                    None => {
                        ctx.report(Diagnostic::error(&pos));
                        assert(!(func.args@[k as int] is Named));
                        assert(env.local_scopes@.subrange(0, old(env).local_scopes@.len() as int) =~= old(env).local_scopes@);
                        return Ok(None);
                    },
                };
                args_tp.push(tp.clone());
                out_a::FnArg { is_mut: false, name, tp, pos }
            },
            in_a::FnArg::MutPtrSelf(pos) => {
                let name = string_of("self");
                env.add_local_var(name.clone());
                let tp = match &parent {
                    Some(p) => Type::mut_ptr(self_type(ctx, p, &pos)),
                    None => {
                        ctx.report(Diagnostic::error(&pos));
                        assert(!(func.args@[k as int] is Named));
                        assert(env.local_scopes@.subrange(0, old(env).local_scopes@.len() as int) =~= old(env).local_scopes@);
                        return Ok(None);
                    },
                };
                args_tp.push(tp.clone());
                out_a::FnArg { is_mut: false, name, tp, pos }
            },
        };
        args.push(a);
        k = k + 1;
        assert(rest@ =~= all.subrange(k as int, n as int));
    }
    let sym_kind = SymKind::Func { params: Vec::new(), args: args_tp, ret: ret_type.clone() };
    let sym_info = SymInfo::build(func.name.name_str(), func.pos.clone(), sym_kind).with_attributes(func.attributes);
    let is_extern = sym_info.is_extern;
    env.add_sym_info(func.id, sym_info);
    let body = match func.body {
        Some(body) => tr_expr(ctx, env, body)?,
        None => {
            if !is_extern {
                ctx.report(Diagnostic::error(&func.pos));
            }
            env.leave_scope();
            proof {
                lemma_scopes_extended_refl(env.local_scopes@);
            }
            return Ok(None);
        },
    };
    env.leave_scope();
    proof {
        lemma_scopes_extended_refl(env.local_scopes@);
    }
    Ok(Some(out_a::Func { id: func.id, name: func.name.name_str(), args, params: Vec::new(), ret_type, body, pos: func.pos }))
}

/// `f` is the resolved form of `func`: the same id, name, place and number of arguments,
/// and a body that corresponds to the written one.
pub open spec fn spec_func_from(func: in_a::Func, f: out_a::Func) -> bool {
    &&& f.id == func.id
    &&& f.name@ == func.name.data@
    &&& f.pos == func.pos
    &&& f.args@.len() == func.args@.len()
    &&& func.body matches Some(b) && spec_expr_corr(b, f.body)
}

/// `f` is the resolved form of a function, or of a method of a type, of the module tree `m`.
pub open spec fn spec_from_module(m: in_a::Module, f: out_a::Func) -> bool
    decreases m,
{
    exists|i: int|
        0 <= i < m.items@.len() && {
            proof {
                assert(decreases_to!(m => m.items));
                assert(decreases_to!(m.items => m.items@));
                assert(decreases_to!(m.items@ => m.items@[i]));
            }
            spec_from_item(#[trigger] m.items@[i], f)
        }
}

pub open spec fn spec_from_item(item: in_a::ModuleItem, f: out_a::Func) -> bool
    decreases item,
{
    match item {
        in_a::ModuleItem::Module(m) => spec_from_module(m, f),
        in_a::ModuleItem::Func(func) => spec_func_from(func, f),
        in_a::ModuleItem::Struct(st) => spec_from_funcs(st.methods@, f),
        in_a::ModuleItem::Enum(en) => spec_from_funcs(en.methods@, f),
    }
}

/// `f` is the resolved form of one of the functions `ms`.
pub open spec fn spec_from_funcs(ms: Seq<in_a::Func>, f: out_a::Func) -> bool {
    exists|k: int| 0 <= k < ms.len() && spec_func_from(#[trigger] ms[k], f)
}

/// Some function of `fs` has the id `id`.
pub open spec fn spec_has_func(fs: Seq<out_a::Func>, id: NodeID) -> bool {
    exists|j: int| 0 <= j < fs.len() && (#[trigger] fs[j]).id == id
}

/// Every function of the module tree `m` that has a body and takes no `self`, and every
/// method with a body of its types, is among `fs`.
pub open spec fn spec_module_covered(m: in_a::Module, fs: Seq<out_a::Func>) -> bool
    decreases m,
{
    forall|i: int|
        0 <= i < m.items@.len() ==> {
            proof {
                assert(decreases_to!(m => m.items));
                assert(decreases_to!(m.items => m.items@));
                assert(decreases_to!(m.items@ => m.items@[i]));
            }
            spec_item_covered(#[trigger] m.items@[i], fs)
        }
}

pub open spec fn spec_item_covered(item: in_a::ModuleItem, fs: Seq<out_a::Func>) -> bool
    decreases item,
{
    match item {
        in_a::ModuleItem::Module(m) => spec_module_covered(m, fs),
        in_a::ModuleItem::Func(func) => (func.body is Some && forall|i: int|
            0 <= i < func.args@.len() ==> (#[trigger] func.args@[i]) is Named) ==> spec_has_func(fs, func.id),
        in_a::ModuleItem::Struct(st) => forall|k: int|
            0 <= k < st.methods@.len() && (#[trigger] st.methods@[k]).body is Some ==> spec_has_func(fs, st.methods@[k].id),
        in_a::ModuleItem::Enum(en) => forall|k: int|
            0 <= k < en.methods@.len() && (#[trigger] en.methods@[k]).body is Some ==> spec_has_func(fs, en.methods@[k].id),
    }
}

/// The local scopes `s1` are the scopes `s0` with possibly more opened after them.
pub open spec fn spec_scopes_extended(s0: Seq<NameMap<LocalBinding>>, s1: Seq<NameMap<LocalBinding>>) -> bool {
    &&& s0.len() <= s1.len()
    &&& s1.subrange(0, s0.len() as int) == s0
}

pub proof fn lemma_scopes_extended_refl(s: Seq<NameMap<LocalBinding>>)
    ensures
        spec_scopes_extended(s, s),
{
    assert(s.subrange(0, s.len() as int) =~= s);
}

pub proof fn lemma_scopes_extended_trans(
    a: Seq<NameMap<LocalBinding>>,
    b: Seq<NameMap<LocalBinding>>,
    c: Seq<NameMap<LocalBinding>>,
)
    requires
        spec_scopes_extended(a, b),
        spec_scopes_extended(b, c),
    ensures
        spec_scopes_extended(a, c),
{
    assert(c.subrange(0, a.len() as int) =~= c.subrange(0, b.len() as int).subrange(0, a.len() as int));
}

/// Declarations were only added to the tables of symbols and types.
pub open spec fn spec_keys_grow(e0: Env, e1: Env) -> bool {
    &&& forall|j: usize| #[trigger] e0.node_map.has(j) ==> e1.node_map.has(j)
    &&& forall|j: usize| #[trigger] e0.tvar_map.has(j) ==> e1.tvar_map.has(j)
}

pub proof fn lemma_keys_grow_trans(a: Env, b: Env, c: Env)
    requires
        spec_keys_grow(a, b),
        spec_keys_grow(b, c),
    ensures
        spec_keys_grow(a, c),
{
    assert forall|j: usize| #[trigger] a.node_map.has(j) implies c.node_map.has(j) by {
        assert(b.node_map.has(j));
    }
    assert forall|j: usize| #[trigger] a.tvar_map.has(j) implies c.tvar_map.has(j) by {
        assert(b.tvar_map.has(j));
    }
}

/// The declarations of `item` have their symbols recorded in `env`: a function taking no
/// `self`, a struct or enum (with the type information of its type variable), its methods,
/// and the tuple constructors of an enum; a module, by its items.
pub open spec fn spec_item_recorded(item: in_a::ModuleItem, env: Env) -> bool
    decreases item,
{
    match item {
        in_a::ModuleItem::Module(m) => spec_module_recorded(m, env),
        in_a::ModuleItem::Func(f) => (forall|i: int| 0 <= i < f.args@.len() ==> (#[trigger] f.args@[i]) is Named)
            ==> env.node_map.has(f.id.id),
        in_a::ModuleItem::Struct(st) => {
            &&& env.node_map.has(st.id.id)
            &&& env.node_tvar_map.has(st.id.id)
            &&& env.tvar_map.has(env.node_tvar_map.value(st.id.id).id)
            &&& forall|k: int| 0 <= k < st.methods@.len() ==> env.node_map.has((#[trigger] st.methods@[k]).id.id)
        },
        in_a::ModuleItem::Enum(en) => {
            &&& env.node_map.has(en.id.id)
            &&& env.node_tvar_map.has(en.id.id)
            &&& env.tvar_map.has(env.node_tvar_map.value(en.id.id).id)
            &&& forall|k: int| 0 <= k < en.methods@.len() ==> env.node_map.has((#[trigger] en.methods@[k]).id.id)
            &&& forall|q: int|
                0 <= q < en.constructors@.len() ==> ((#[trigger] en.constructors@[q]) matches in_a::Constructor::Tuple {
                    id,
                    ..
                } ==> env.node_map.has(id.id))
        },
    }
}

/// The declarations of the module tree `m` have their symbols recorded in `env`.
pub open spec fn spec_module_recorded(m: in_a::Module, env: Env) -> bool
    decreases m,
{
    forall|i: int|
        0 <= i < m.items@.len() ==> {
            proof {
                assert(decreases_to!(m => m.items));
                assert(decreases_to!(m.items => m.items@));
                assert(decreases_to!(m.items@ => m.items@[i]));
            }
            spec_item_recorded(#[trigger] m.items@[i], env)
        }
}

/// What was recorded stays recorded when only more is added.
pub proof fn lemma_item_recorded_mono(item: in_a::ModuleItem, e0: Env, e1: Env)
    requires
        spec_item_recorded(item, e0),
        spec_keys_grow(e0, e1),
        e0.node_tvar_map == e1.node_tvar_map,
    ensures
        spec_item_recorded(item, e1),
    decreases item,
{
    match item {
        in_a::ModuleItem::Module(m) => lemma_module_recorded_mono(m, e0, e1),
        in_a::ModuleItem::Struct(st) => {
            assert(e0.tvar_map.has(e0.node_tvar_map.value(st.id.id).id));
            assert forall|k: int| 0 <= k < st.methods@.len() implies e1.node_map.has((#[trigger] st.methods@[k]).id.id) by {
                assert(e0.node_map.has(st.methods@[k].id.id));
            }
        },
        in_a::ModuleItem::Enum(en) => {
            assert(e0.tvar_map.has(e0.node_tvar_map.value(en.id.id).id));
            assert forall|k: int| 0 <= k < en.methods@.len() implies e1.node_map.has((#[trigger] en.methods@[k]).id.id) by {
                assert(e0.node_map.has(en.methods@[k].id.id));
            }
            assert forall|q: int| 0 <= q < en.constructors@.len() implies ((#[trigger] en.constructors@[q]) matches in_a::Constructor::Tuple {
                id,
                ..
            } ==> e1.node_map.has(id.id)) by {
                if en.constructors@[q] is Tuple {
                    assert(e0.node_map.has(en.constructors@[q]->Tuple_id.id));
                }
            }
        },
        in_a::ModuleItem::Func(f) => {},
    }
}

pub proof fn lemma_module_recorded_mono(m: in_a::Module, e0: Env, e1: Env)
    requires
        spec_module_recorded(m, e0),
        spec_keys_grow(e0, e1),
        e0.node_tvar_map == e1.node_tvar_map,
    ensures
        spec_module_recorded(m, e1),
    decreases m,
{
    assert forall|i: int| 0 <= i < m.items@.len() implies spec_item_recorded(#[trigger] m.items@[i], e1) by {
        assert(decreases_to!(m => m.items));
        assert(decreases_to!(m.items => m.items@));
        assert(decreases_to!(m.items@ => m.items@[i]));
        lemma_item_recorded_mono(m.items@[i], e0, e1);
    }
}

/// Coverage survives appending functions.
pub proof fn lemma_item_covered_mono(item: in_a::ModuleItem, fs1: Seq<out_a::Func>, fs2: Seq<out_a::Func>)
    requires
        spec_item_covered(item, fs1),
        forall|id: NodeID| spec_has_func(fs1, id) ==> spec_has_func(fs2, id),
    ensures
        spec_item_covered(item, fs2),
    decreases item,
{
    match item {
        in_a::ModuleItem::Module(m) => {
            lemma_module_covered_mono(m, fs1, fs2);
        },
        _ => {},
    }
}

pub proof fn lemma_module_covered_mono(m: in_a::Module, fs1: Seq<out_a::Func>, fs2: Seq<out_a::Func>)
    requires
        spec_module_covered(m, fs1),
        forall|id: NodeID| spec_has_func(fs1, id) ==> spec_has_func(fs2, id),
    ensures
        spec_module_covered(m, fs2),
    decreases m,
{
    assert forall|i: int| 0 <= i < m.items@.len() implies spec_item_covered(#[trigger] m.items@[i], fs2) by {
        assert(decreases_to!(m => m.items@[i])) by {
            assert(decreases_to!(m => m.items));
            assert(decreases_to!(m.items => m.items@));
            assert(decreases_to!(m.items@ => m.items@[i]));
        }
        lemma_item_covered_mono(m.items@[i], fs1, fs2);
    }
}

/// The names of the methods of a type, with their ids.
fn method_map(methods: &Vec<in_a::Func>) -> (res: NameMap<NodeID>)
    ensures
        res.keys_unique(),
        forall|i: int| 0 <= i < methods@.len() ==> res.has((#[trigger] methods@[i]).name.data@),
{
    let mut m: NameMap<NodeID> = NameMap::new();
    let n = methods.len();
    let mut i: usize = 0;
    while i < n
        invariant
            n == methods@.len(),
            i <= n,
            m.keys_unique(),
            forall|j: int| 0 <= j < i ==> m.has((#[trigger] methods@[j]).name.data@),
        decreases n - i,
    {
        let ghost prev = m;
        let _ = m.insert(methods[i].name.name_str(), methods[i].id);
        assert forall|j: int| 0 <= j < i + 1 implies m.has((#[trigger] methods@[j]).name.data@) by {
            if j < i && methods@[j].name.data@ != methods@[i as int].name.data@ {
                assert(prev.has(methods@[j].name.data@));
            }
        }
        i = i + 1;
    }
    m
}

/// Resolves the methods of a type, appending those that are translated: each comes from
/// one of the methods, and every method with a body is there.
fn tr_methods(ctx: &mut Context, env: &mut Env, methods: Vec<in_a::Func>, tvar: TVar, name: &String, functions: &mut Vec<out_a::Func>) -> (res: Result<(), InternalError>)
    requires
        old(env).wf(),
    ensures
        final(env).wf(),
        spec_reported_after(*old(ctx), *final(ctx)),
        res is Ok ==> final(env).local_scopes@ == old(env).local_scopes@ && final(env).current_module == old(env).current_module
            && final(env).scope_info == old(env).scope_info && final(env).node_tvar_map == old(env).node_tvar_map,
        res is Ok ==> spec_keys_grow(*old(env), *final(env)),
        res is Ok ==> final(env).tvar_map == old(env).tvar_map,
        res is Ok ==> forall|k: int| 0 <= k < methods@.len() ==> final(env).node_map.has((#[trigger] methods@[k]).id.id),
        res is Ok ==> {
            &&& old(functions)@.len() <= final(functions)@.len()
            &&& final(functions)@.subrange(0, old(functions)@.len() as int) == old(functions)@
            &&& forall|j: int|
                old(functions)@.len() <= j < final(functions)@.len() ==> spec_from_funcs(
                    methods@,
                    #[trigger] final(functions)@[j],
                )
            &&& forall|k: int|
                0 <= k < methods@.len() && (#[trigger] methods@[k]).body is Some ==> spec_has_func(
                    final(functions)@,
                    methods@[k].id,
                )
        },
        (forall|k: int|
            0 <= k < methods@.len() ==> spec_func_types_ok(
                old(env).scope_info,
                old(env).current_module.id,
                old(env).tv_ids(),
                #[trigger] methods@[k],
            )) ==> res is Ok,
{
    let ghost all = methods@;
    let ghost f0 = functions@;
    let mut rest = methods;
    let n = rest.len();
    let mut i: usize = 0;
    while rest.len() > 0
        invariant
            i <= n,
            n == all.len(),
            all == methods@,
            rest@ == all.subrange(i as int, n as int),
            env.wf(),
            spec_reported_after(*old(ctx), *ctx),
            env.local_scopes@ == old(env).local_scopes@,
            env.current_module == old(env).current_module,
            env.scope_info == old(env).scope_info,
            env.node_tvar_map == old(env).node_tvar_map,
            env.tvar_map == old(env).tvar_map,
            f0 == old(functions)@,
            f0.len() <= functions@.len(),
            functions@.subrange(0, f0.len() as int) == f0,
            forall|j: int| f0.len() <= j < functions@.len() ==> spec_from_funcs(all, #[trigger] functions@[j]),
            forall|k: int| 0 <= k < i && (#[trigger] all[k]).body is Some ==> spec_has_func(functions@, all[k].id),
            spec_keys_grow(*old(env), *env),
            forall|k: int| 0 <= k < i ==> env.node_map.has((#[trigger] all[k]).id.id),
        decreases n - i,
    {
        let method = rest.remove(0);
        assert(method == all[i as int]);
        let ghost before = functions@;
        let ghost env_before = *env;
        let r = tr_func(ctx, env, method, Some((tvar, name.clone())));
        proof {
            if r is Ok {
                assert forall|k: int| 0 <= k < i + 1 implies env.node_map.has((#[trigger] all[k]).id.id) by {
                    if k < i {
                        assert(env_before.node_map.has(all[k].id.id));
                    }
                }
            }
        }
        match r? {
            Some(f) => {
                functions.push(f);
                proof {
                    assert(functions@.subrange(0, f0.len() as int) =~= f0) by {
                        assert(before.subrange(0, f0.len() as int) == f0);
                    }
                    assert forall|j: int| f0.len() <= j < functions@.len() implies spec_from_funcs(
                        all,
                        #[trigger] functions@[j],
                    ) by {
                        if j < before.len() {
                            assert(functions@[j] == before[j]);
                        } else {
                            assert(spec_func_from(all[i as int], functions@[j]));
                        }
                    }
                    assert forall|k: int| 0 <= k < i + 1 && (#[trigger] all[k]).body is Some implies spec_has_func(
                        functions@,
                        all[k].id,
                    ) by {
                        if k < i {
                            let j = choose|j: int| 0 <= j < before.len() && (#[trigger] before[j]).id == all[k].id;
                            assert(functions@[j] == before[j]);
                        } else {
                            assert(functions@[before.len() as int].id == all[k].id);
                        }
                    }
                }
            },
            None => {},
        }
        i = i + 1;
        assert(rest@ =~= all.subrange(i as int, n as int));
    }
    Ok(())
}

/// Resolves the functions of a module tree, and records its declarations in the symbol
/// table. The error comes when a module has no scope, or a type no type variable.
#[verifier::spinoff_prover]
pub fn tr_module(ctx: &mut Context, env: &mut Env, ast: in_a::Module) -> (res: Result<Vec<out_a::Func>, InternalError>)
    requires
        old(env).wf(),
        spec_resolve_ok(ast),
    ensures
        final(env).wf(),
        spec_reported_after(*old(ctx), *final(ctx)),
        res is Ok ==> spec_scopes_extended(old(env).local_scopes@, final(env).local_scopes@) && final(env).scope_info
            == old(env).scope_info
            && final(env).node_tvar_map == old(env).node_tvar_map,
        res is Ok ==> spec_keys_grow(*old(env), *final(env)) && spec_module_recorded(ast, *final(env)),
        res matches Ok(fs) ==> {
            &&& forall|j: int| 0 <= j < fs@.len() ==> spec_from_module(ast, #[trigger] fs@[j])
            &&& spec_module_covered(ast, fs@)
        },
        spec_module_types_ok(old(env).scope_info, old(env).tv_ids(), ast) ==> res is Ok,
        res is Ok && spec_no_enums(ast) && spec_structs_known(*old(env)) ==> spec_structs_known(*final(env)),
    decreases ast,
{
    let ghost a0 = ast;
    let ghost mok = spec_module_types_ok(env.scope_info, env.tv_ids(), ast);
    let ghost items_vec = ast.items;
    let ghost all = ast.items@;
    let mut functions: Vec<out_a::Func> = Vec::new();
    proof {
        lemma_scopes_extended_refl(env.local_scopes@);
    }
    let mut rest = ast.items;
    let n = rest.len();
    let mut k: usize = 0;
    while rest.len() > 0
        invariant
            k <= n,
            n == all.len(),
            a0 == ast,
            items_vec == ast.items,
            items_vec@ == all,
            rest@ == all.subrange(k as int, n as int),
            spec_resolve_ok(ast),
            env.wf(),
            spec_reported_after(*old(ctx), *ctx),
            spec_scopes_extended(old(env).local_scopes@, env.local_scopes@),
            env.scope_info == old(env).scope_info,
            env.node_tvar_map == old(env).node_tvar_map,
            forall|j: int| 0 <= j < functions@.len() ==> spec_from_module(a0, #[trigger] functions@[j]),
            forall|i: int| 0 <= i < k ==> spec_item_covered(#[trigger] all[i], functions@),
            mok == spec_module_types_ok(old(env).scope_info, old(env).tv_ids(), a0),
            spec_keys_grow(*old(env), *env),
            forall|i: int| 0 <= i < k ==> spec_item_recorded(#[trigger] all[i], *env),
            spec_no_enums(a0) && spec_structs_known(*old(env)) ==> spec_structs_known(*env),
        decreases n - k,
    {
        let ghost env_k = *env;
        proof {
            if mok {
                assert(a0.items@[k as int] == all[k as int]);
            }
        }
        let item = rest.remove(0);
        assert(item == all[k as int]);
        assert(spec_item_resolve_ok(item));
        let ghost before = functions@;
        if env.scope_info.get(ast.id).is_none() {
            return Err(InternalError::msg("module without a scope"));
        }
        env.current_module = ast.id;
        let ghost env_a = *env;
        assert(spec_keys_grow(env_k, env_a));
        match item {
            in_a::ModuleItem::Module(module) => {
                assert(decreases_to!(a0 => module)) by {
                    assert(decreases_to!(a0 => a0.items));
                    assert(decreases_to!(items_vec => items_vec@));
                    assert(decreases_to!(items_vec@ => items_vec@[k as int]));
                    assert(decreases_to!(items_vec@[k as int] => items_vec@[k as int]->Module_0));
                }
                let ghost mg = module;
                let mut fs = tr_module(ctx, env, module)?;
                proof {
                    lemma_keys_grow_trans(env_k, env_a, *env);
                }
                let ghost fs_v = fs@;
                functions.append(&mut fs);
                proof {
                    assert forall|id: NodeID| spec_has_func(fs_v, id) implies spec_has_func(functions@, id) by {
                        let j = choose|j: int| 0 <= j < fs_v.len() && (#[trigger] fs_v[j]).id == id;
                        assert(functions@[before.len() + j] == fs_v[j]);
                    }
                    lemma_module_covered_mono(mg, fs_v, functions@);
                }
            },
            in_a::ModuleItem::Func(func) => {
                let ghost fg = func;
                let rf = tr_func(ctx, env, func, None);
                proof {
                    if rf is Ok {
                        lemma_keys_grow_trans(env_k, env_a, *env);
                    }
                }
                if let Some(f) = rf? {
                    functions.push(f);
                    assert(functions@[before.len() as int].id == fg.id);
                }
                assert(spec_item_covered(in_a::ModuleItem::Func(fg), functions@));
            },
            in_a::ModuleItem::Struct(st) => {
                let tvar = env.get_tvar(st.id)?;
                let mut fields: NameMap<(usize, Type)> = NameMap::new();
                let mut frest = st.fields;
                let mut idx: usize = 0;
                while frest.len() > 0
                    invariant
                        env.wf(),
                        spec_reported_after(*old(ctx), *ctx),
                        env.local_scopes@ == env_k.local_scopes@,
                        env.scope_info == old(env).scope_info,
                        env.node_tvar_map == old(env).node_tvar_map,
                        env.current_module == a0.id,
                        mok == spec_module_types_ok(old(env).scope_info, old(env).tv_ids(), a0),
                        a0 == ast,
                        fields.keys_unique(),
                        forall|x: Seq<char>| #[trigger] fields.has(x) ==> crate::symtable::type_sort::spec_known(fields.value(x).1.ty()),
                        env.tvar_map == env_k.tvar_map,
                        mok ==> forall|q: int|
                            0 <= q < frest@.len() ==> spec_type_names_ok(
                                old(env).scope_info,
                                a0.id.id,
                                old(env).tv_ids(),
                                (#[trigger] frest@[q]).1,
                            ),
                    decreases frest.len(),
                {
                    let ghost fr0 = frest@;
                    let (fname, ftp) = frest.remove(0);
                    proof {
                        if mok {
                            assert(fr0[0].1 == ftp);
                            env.lemma_type_names_ok(ftp);
                            assert forall|q: int| 0 <= q < frest@.len() implies spec_type_names_ok(
                                old(env).scope_info,
                                a0.id.id,
                                old(env).tv_ids(),
                                (#[trigger] frest@[q]).1,
                            ) by {
                                assert(frest@[q] == fr0[q + 1]);
                            }
                        }
                    }
                    proof {
                        env.lemma_resolved_known(ftp);
                    }
                    let tp = env.resolve_type(ctx, ftp)?;
                    let _ = fields.insert(fname.data, (idx, tp));
                    if idx < usize::MAX {
                        idx = idx + 1;
                    }
                }
                proof {
                    assert forall|q: int| 0 <= q < fields.entries@.len() implies crate::symtable::type_sort::spec_known(
                        (#[trigger] fields.entries@[q]).1.1.ty(),
                    ) by {
                        fields.lemma_value(q);
                    }
                }
                let methods = method_map(&st.methods);
                let kind = TypeKind::Struct { params: Vec::new(), fields };
                let type_info = TypeInfo { name: st.name.name_str(), pos: st.pos.clone(), kind, methods };
                env.add_type_info(tvar, type_info);
                let sym_info = SymInfo::build(st.name.name_str(), st.pos, SymKind::Struct(tvar)).with_attributes(
                    st.attributes,
                );
                env.add_sym_info(st.id, sym_info);
                let ghost ms = st.methods@;
                let ghost e_m = *env;
                tr_methods(ctx, env, st.methods, tvar, &st.name.data, &mut functions)?;
                proof {
                    assert forall|j: usize| #[trigger] env_k.node_map.has(j) implies env.node_map.has(j) by {
                        assert(e_m.node_map.has(j));
                    }
                    assert forall|j: usize| #[trigger] env_k.tvar_map.has(j) implies env.tvar_map.has(j) by {
                        assert(e_m.tvar_map.has(j));
                    }
                    assert(spec_keys_grow(env_k, *env));
                    lemma_scopes_extended_refl(env.local_scopes@);
                }
                assert(forall|k2: int| 0 <= k2 < ms.len() && (#[trigger] ms[k2]).body is Some ==> spec_has_func(functions@, ms[k2].id));
            },
            in_a::ModuleItem::Enum(en) => {
                let tvar = env.get_tvar(en.id)?;
                let mut constructors: NameMap<NodeID> = NameMap::new();
                let mut crest = en.constructors;
                let ghost all_c = crest@;
                let ghost mut c: int = 0;
                let mut idx: usize = 0;
                while crest.len() > 0
                    invariant
                        0 <= c <= all_c.len(),
                        crest@ == all_c.subrange(c, all_c.len() as int),
                        spec_keys_grow(env_k, *env),
                        forall|q: int|
                            0 <= q < c ==> ((#[trigger] all_c[q]) matches in_a::Constructor::Tuple { id, .. } ==> env.node_map.has(
                                id.id,
                            )),
                        env.wf(),
                        spec_reported_after(*old(ctx), *ctx),
                        env.local_scopes@ == env_k.local_scopes@,
                        env.scope_info == old(env).scope_info,
                        env.node_tvar_map == old(env).node_tvar_map,
                        env.current_module == a0.id,
                        mok == spec_module_types_ok(old(env).scope_info, old(env).tv_ids(), a0),
                        a0 == ast,
                        constructors.keys_unique(),
                        mok ==> forall|q: int|
                            0 <= q < crest@.len() ==> ((#[trigger] crest@[q]) matches in_a::Constructor::Tuple { params, .. }
                                ==> forall|r: int|
                                0 <= r < params@.len() ==> spec_type_names_ok(
                                    old(env).scope_info,
                                    a0.id.id,
                                    old(env).tv_ids(),
                                    #[trigger] params@[r],
                                )),
                    decreases crest.len(),
                {
                    let ghost cr0 = crest@;
                    let ghost env_c = *env;
                    let cons = crest.remove(0);
                    assert(cons == all_c[c]);
                    proof {
                        if mok {
                            assert forall|q: int| 0 <= q < crest@.len() implies ((#[trigger] crest@[q]) matches in_a::Constructor::Tuple {
                                params,
                                ..
                            } ==> forall|r: int|
                                0 <= r < params@.len() ==> spec_type_names_ok(
                                    old(env).scope_info,
                                    a0.id.id,
                                    old(env).tv_ids(),
                                    #[trigger] params@[r],
                                )) by {
                                assert(crest@[q] == cr0[q + 1]);
                            }
                        }
                    }
                    match cons {
                        in_a::Constructor::Tuple { attributes, id, name, pos, params } => {
                            proof {
                                if mok {
                                    assert(cr0[0] == cons);
                                    env.lemma_types_names_ok(params@);
                                }
                            }
                            let args = env.resolve_types(ctx, params)?;
                            let _ = constructors.insert(name.name_str(), id);
                            let sym_info = SymInfo::build(
                                name.name_str(),
                                pos,
                                SymKind::EnumCons { id: idx, args, parent: en.id },
                            ).with_attributes(attributes);
                            env.add_sym_info(id, sym_info);
                        },
                        in_a::Constructor::Struct { .. } => {},
                    }
                    proof {
                        assert forall|q: int|
                            0 <= q < c + 1 implies ((#[trigger] all_c[q]) matches in_a::Constructor::Tuple { id, .. } ==> env.node_map.has(
                                id.id,
                            )) by {
                            if q < c && all_c[q] is Tuple {
                                assert(env_c.node_map.has(all_c[q]->Tuple_id.id));
                            }
                        }
                        c = c + 1;
                        assert(crest@ =~= all_c.subrange(c, all_c.len() as int));
                    }
                    if idx < usize::MAX {
                        idx = idx + 1;
                    }
                }
                let methods = method_map(&en.methods);
                let kind = TypeKind::Enum { params: Vec::new(), constructors };
                let type_info = TypeInfo { name: en.name.name_str(), pos: en.pos.clone(), kind, methods };
                env.add_type_info(tvar, type_info);
                let sym_info = SymInfo::build(en.name.name_str(), en.pos, SymKind::Enum(tvar)).with_attributes(
                    en.attributes,
                );
                env.add_sym_info(en.id, sym_info);
                let ghost ms = en.methods@;
                let ghost e_m = *env;
                tr_methods(ctx, env, en.methods, tvar, &en.name.data, &mut functions)?;
                proof {
                    assert forall|j: usize| #[trigger] env_k.node_map.has(j) implies env.node_map.has(j) by {
                        assert(e_m.node_map.has(j));
                    }
                    assert forall|j: usize| #[trigger] env_k.tvar_map.has(j) implies env.tvar_map.has(j) by {
                        assert(e_m.tvar_map.has(j));
                    }
                    assert(spec_keys_grow(env_k, *env));
                    lemma_scopes_extended_refl(env.local_scopes@);
                }
                assert(forall|k2: int| 0 <= k2 < ms.len() && (#[trigger] ms[k2]).body is Some ==> spec_has_func(functions@, ms[k2].id));
            },
        }
        proof {
            assert forall|i: int| 0 <= i < k implies spec_item_recorded(#[trigger] all[i], *env) by {
                lemma_item_recorded_mono(all[i], env_k, *env);
            }
            lemma_keys_grow_trans(*old(env), env_k, *env);
            lemma_scopes_extended_trans(old(env).local_scopes@, env_k.local_scopes@, env.local_scopes@);
            assert(forall|j: int| 0 <= j < before.len() ==> functions@[j] == before[j]);
            assert(forall|j: int| before.len() <= j < functions@.len() ==> spec_from_item(all[k as int], #[trigger] functions@[j]));
            assert(spec_item_covered(all[k as int], functions@));
            assert forall|id: NodeID| spec_has_func(before, id) implies spec_has_func(functions@, id) by {
                let j = choose|j: int| 0 <= j < before.len() && (#[trigger] before[j]).id == id;
                assert(functions@[j] == before[j]);
            }
            assert forall|i: int| 0 <= i < k + 1 implies spec_item_covered(#[trigger] all[i], functions@) by {
                if i < k {
                    lemma_item_covered_mono(all[i], before, functions@);
                }
            }
            assert forall|j: int| 0 <= j < functions@.len() implies spec_from_module(a0, #[trigger] functions@[j]) by {
                if j < before.len() {
                    assert(spec_from_module(a0, before[j]));
                } else {
                    assert(spec_from_item(a0.items@[k as int], functions@[j]));
                }
            }
        }
        k = k + 1;
        assert(rest@ =~= all.subrange(k as int, n as int));
    }
    proof {
        assert forall|i: int| 0 <= i < a0.items@.len() implies spec_item_covered(#[trigger] a0.items@[i], functions@) by {
            assert(a0.items@[i] == all[i]);
        }
        assert forall|i: int| 0 <= i < a0.items@.len() implies spec_item_recorded(#[trigger] a0.items@[i], *env) by {
            assert(a0.items@[i] == all[i]);
        }
    }
    Ok(functions)
}

/// Resolves the names of a whole program, and builds its symbol table.
///
/// It succeeds when the named types fit in the type variable ids (numbered from 65),
/// every written type resolves, and no enum is declared. With enums, the table is only
/// complete when no later declaration reuses the id of a constructor, which the ids of
/// the module tree ensure but the syntax tree alone does not say.
pub fn translate(ctx: &mut Context, prog: in_a::Program) -> (res: Result<out_a::Program, InternalError>)
    requires
        prog.scope_info.wf(),
        spec_resolve_ok(prog.ast),
    ensures
        spec_reported_after(*old(ctx), *final(ctx)),
        res matches Ok(p) ==> {
            &&& p.sym_table.wf()
            &&& forall|j: int| 0 <= j < p.functions@.len() ==> spec_from_module(prog.ast, #[trigger] p.functions@[j])
            &&& spec_module_covered(prog.ast, p.functions@)
        },
        65 + spec_type_count(prog.ast) <= usize::MAX && spec_module_types_ok(
            prog.scope_info,
            Set::new(|j: usize| spec_declares_type(prog.ast, j)),
            prog.ast,
        ) && spec_no_enums(prog.ast) ==> res is Ok,
{
    let mut tvar_map: IdMap<TVar> = IdMap::new();
    let mut gen = TVarGen::new();
    generate_tvars(&mut tvar_map, &mut gen, &prog.ast)?;
    let mut env = Env::init(prog.scope_info, tvar_map);
    proof {
        assert(env.tv_ids() =~= Set::new(|j: usize| spec_declares_type(prog.ast, j)));
        assert(spec_structs_known(env));
    }
    let functions = tr_module(ctx, &mut env, prog.ast)?;
    let ghost c1 = *ctx;
    let sym_table = env.finish(ctx)?;
    Ok(out_a::Program { functions, sym_table })
}

} // verus!
