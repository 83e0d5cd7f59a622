//! Type checking: every expression is checked against the type it is expected to have,
//! unification variables standing for what is not yet known.
use vstd::prelude::*;

pub mod ast;
pub mod env;
pub mod error;

use crate::common::maps::NameMap;
use crate::common::node_id::spec_builtin_type_id;
use crate::common::{string_of, NodeID, Position};
use crate::error::context::{lemma_reported_refl, lemma_reported_trans, spec_reported_after, Context};
use crate::error::InternalError;
use crate::error::diagnostic::spec_labelled_error;
use crate::resolve::ast as in_a;
use crate::symtable::{SymKind, SymTable, TypeKind};
use crate::tp::model::{
    coerces, heads_agree, heads_match, numeric_meets, is_rigid, is_unres, in_range, lemma_in_range_mono, top, lemma_refines_refl_auto, lemma_refines_trans_auto, refines, zonk, Entry, Ty,
};
use crate::tp::tvar::{TVar, TVarKind};
use crate::tp::uvar::UVarStore;
use crate::tp::{tys, unify, Type, TypeView};
use crate::typecheck::ast as out_a;
use crate::typecheck::error::spec_shown;
use crate::typecheck::env::{spec_binds_more, spec_bound_names, spec_lookup, Env};

verus! {

broadcast use lemma_reported_refl, lemma_reported_trans, lemma_refines_refl_auto, lemma_refines_trans_auto;

/// The builtin type of the given id and name.
pub open spec fn spec_builtin_ty(id: usize, name: Seq<char>) -> Ty {
    Ty::NamedVar(TVar { id, kind: TVarKind::Type }, name)
}

/// The unit type.
pub open spec fn spec_unit_ty() -> Ty {
    Ty::Tuple(seq![])
}

/// The type an expression was checked to have, if it has one.
pub open spec fn spec_expr_type(e: out_a::Expr) -> Option<Ty> {
    match e {
        out_a::Expr::NumLit(_, t) => Some(t.ty()),
        out_a::Expr::StringLit(_, t) => Some(t.ty()),
        out_a::Expr::LocalVar { tp, .. } => Some(tp.ty()),
        out_a::Expr::GlobalVar { tp, .. } => Some(tp.ty()),
        out_a::Expr::Tuple(_, t) => Some(t.ty()),
        out_a::Expr::FunCall { ret_tp, .. } => Some(ret_tp.ty()),
        out_a::Expr::FieldAccess { field_tp, .. } => Some(field_tp.ty()),
        out_a::Expr::Block { block_tp, .. } => Some(block_tp.ty()),
        out_a::Expr::Return { .. } => Some(spec_builtin_ty(0, "never"@)),
        out_a::Expr::Let { .. } => Some(spec_unit_ty()),
        out_a::Expr::If { block_tp, .. } => Some(block_tp.ty()),
        out_a::Expr::StructCons { tp, .. } => Some(tp.ty()),
        out_a::Expr::Assign { .. } => Some(spec_unit_ty()),
        out_a::Expr::Ref { tp, .. } => Some(tp.ty()),
        out_a::Expr::RefMut { tp, .. } => Some(tp.ty()),
        out_a::Expr::Deref { in_tp, .. } => Some(in_tp.ty()),
        out_a::Expr::Char(_) => Some(spec_builtin_ty(3, "u8"@)),
        out_a::Expr::ArrayInitRepeat(_, n, t) => Some(Ty::Array(n as nat, Box::new(t.ty()))),
        out_a::Expr::ArrayInitExact(es, t) => Some(Ty::Array(es@.len(), Box::new(t.ty()))),
        out_a::Expr::While { .. } => Some(spec_unit_ty()),
        out_a::Expr::IndexAccess { tp, .. } => Some(tp.ty()),
        out_a::Expr::Error => None,
        out_a::Expr::Builtin(_, _) => None,
    }
}

/// The type the expression was checked to have is known to the store, and the expected
/// type coerces from it.
pub open spec fn spec_well_typed(m: Seq<Entry>, exp: Ty, e: out_a::Expr) -> bool {
    match spec_expr_type(e) {
        Some(t) => in_range(m, t) && coerces(zonk(m, exp), zonk(m, t)),
        None => true,
    }
}

/// A string literal's type: a pointer to an array of bytes.
pub open spec fn spec_is_string_ty(t: Ty) -> bool {
    t matches Ty::Ptr(a) && *a matches Ty::Array(_, e) && *e == spec_builtin_ty(3, "u8"@)
}

/// How a literal of type `tp` at `pos` was checked against `exp`: at most one diagnostic was
/// added, a type mismatch at `pos`; there is one when the heads of the two types cannot agree,
/// and none when they match at once, when a number meets a numeric type (which the literal's
/// variable then stands for), or when both types are fully known and `exp` takes `tp`.
pub open spec fn spec_literal_checked(
    c0: Context,
    c1: Context,
    m0: Seq<Entry>,
    store: UVarStore,
    exp: Type,
    tp: Type,
    pos: Position,
) -> bool {
    let m1 = store.model();
    &&& c1.diagnostics@ == c0.diagnostics@ || (c1.diagnostics@ == c0.diagnostics@.push(c1.diagnostics@.last())
        && spec_labelled_error(
        c1.diagnostics@.last(),
        pos,
        "Type mismatch. Expected: "@ + spec_shown(store, exp) + ", Got: "@ + spec_shown(store, tp),
    ))
    &&& !heads_agree(top(m0, exp.ty()), top(m0, tp.ty())) ==> c1.diagnostics@.len() == c0.diagnostics@.len() + 1
    &&& heads_match(top(m0, exp.ty()), top(m0, tp.ty())) ==> c1.diagnostics@ == c0.diagnostics@
    &&& numeric_meets(top(m0, exp.ty()), top(m0, tp.ty())) ==> c1.diagnostics@ == c0.diagnostics@ && zonk(m1, tp.ty())
        == zonk(m1, exp.ty())
    &&& is_rigid(exp.ty()) && is_rigid(tp.ty()) && coerces(exp.ty(), tp.ty()) ==> c1.diagnostics@ == c0.diagnostics@
}

/// The checked expression `o` is the counterpart of `expr`: the same kind of expression, with
/// the same literal, name, symbol, arity or binding, with its parts the counterparts of the
/// written parts (for a block, its last expression; a cast is checked as what it casts), and a
/// return takes the function's result type `ret`. A `match` is not supported and becomes an error node; a call whose callee is not a
/// function, a method that is not found and a field that does not exist become error nodes too,
/// once reported.
pub open spec fn spec_corresponds(expr: in_a::ExprNode, o: out_a::Expr, ret: Ty) -> bool
    decreases expr,
{
    match expr.data {
        in_a::ExprData::Error => o is Error,
        in_a::ExprData::NumLit(n) => o matches out_a::Expr::NumLit(m, _) && m == n,
        in_a::ExprData::Char(c) => o == out_a::Expr::Char(c),
        in_a::ExprData::String(s) => o matches out_a::Expr::StringLit(t, _) && t@ == s@,
        in_a::ExprData::Match(_, _) => o is Error,
        in_a::ExprData::Var(in_a::SymRef::Local(n)) => o matches out_a::Expr::LocalVar { name, .. } && name@ == n@,
        in_a::ExprData::Var(in_a::SymRef::Global(id)) => o matches out_a::Expr::GlobalVar { id: i, .. } && i == id,
        in_a::ExprData::Ref(e) => o matches out_a::Expr::Ref { expr: x, .. } && spec_corresponds(*e, *x, ret),
        in_a::ExprData::RefMut(e) => o matches out_a::Expr::RefMut { expr: x, .. } && spec_corresponds(*e, *x, ret),
        in_a::ExprData::Deref(e) => o matches out_a::Expr::Deref { expr: x, .. } && spec_corresponds(*e, *x, ret),
        in_a::ExprData::Return(e) => o matches out_a::Expr::Return { expr: x, ret_tp } && ret_tp.ty() == ret
            && spec_corresponds(*e, *x, ret),
        in_a::ExprData::ArrayInitRepeat(e, n) => o matches out_a::Expr::ArrayInitRepeat(x, m, _) && m == n
            && spec_corresponds(*e, *x, ret),
        in_a::ExprData::Cast(e, _) => spec_corresponds(*e, o, ret),
        in_a::ExprData::If(p, t, f) => o matches out_a::Expr::If { pred, th, el, .. } && spec_corresponds(*p, *pred, ret)
            && spec_corresponds(*t, *th, ret) && spec_corresponds(*f, *el, ret),
        in_a::ExprData::Assign(l, r) => o matches out_a::Expr::Assign { lval, rval, .. } && spec_corresponds(*l, *lval, ret)
            && spec_corresponds(*r, *rval, ret),
        in_a::ExprData::While(p, b) => o matches out_a::Expr::While { pred, block } && spec_corresponds(*p, *pred, ret)
            && spec_corresponds(*b, *block, ret),
        in_a::ExprData::IndexAccess(a, k) => o matches out_a::Expr::IndexAccess { arr, index, .. } && spec_corresponds(
            *a,
            *arr,
            ret,
        ) && spec_corresponds(*k, *index, ret),
        in_a::ExprData::Block(es, l) => o matches out_a::Expr::Block { exprs, last_expr, .. } && exprs@.len() == es@.len()
            && spec_corresponds(*l, *last_expr, ret),
        in_a::ExprData::Let { name, is_mut, expr: e, .. } => o matches out_a::Expr::Let { name: n, is_mut: m, expr: x, .. }
            && n@ == name@ && m == is_mut && spec_corresponds(*e, *x, ret),
        in_a::ExprData::Tuple(es) => o matches out_a::Expr::Tuple(xs, _) && xs@.len() == es@.len(),
        in_a::ExprData::ArrayInitExact(es) => o matches out_a::Expr::ArrayInitExact(xs, _) && xs@.len() == es@.len(),
        in_a::ExprData::FunCall(f, _) => o is Error || (o matches out_a::Expr::FunCall { expr: g, args, args_tp, .. }
            && args@.len() == args_tp@.len() && spec_corresponds(*f, *g, ret)),
        in_a::ExprData::MethodCall(_, _, _) => o is Error || (o matches out_a::Expr::FunCall { args, args_tp, .. }
            && args@.len() == args_tp@.len()),
        in_a::ExprData::FieldAccess(ob, _) => o is Error || (o matches out_a::Expr::FieldAccess { object, .. }
            && spec_corresponds(*ob, *object, ret)),
        in_a::ExprData::StructCons(id, _) => o matches out_a::Expr::StructCons { id: i, .. } && i == id,
    }
}

/// What checking an expression against `exp` promises: the store only refines, the
/// environment keeps its scopes, diagnostics are only added, and when none was added the
/// expression has a type that `exp` coerces from (a cast has the type of what it casts).
pub open spec fn spec_checked(
    c0: Context,
    c1: Context,
    m0: Seq<Entry>,
    m1: Seq<Entry>,
    e0: Env,
    e1: Env,
    expr: in_a::ExprNode,
    exp: Type,
    res: Result<out_a::Expr, InternalError>,
) -> bool {
    &&& refines(m0, m1)
    &&& e1.wf(m1)
    &&& spec_reported_after(c0, c1)
    &&& res is Ok ==> e1.expected_ret == e0.expected_ret && e1.scopes@.len() == e0.scopes@.len()
        && e1.scopes@.drop_last() == e0.scopes@.drop_last()
    &&& res matches Ok(o) ==> spec_corresponds(expr, o, e0.expected_ret.ty())
    &&& res is Ok ==> spec_binds_more(e0.scopes@, e1.scopes@)
    &&& res is Ok ==> (expr.data matches in_a::ExprData::Let { name, .. } ==> spec_lookup(e1.scopes@, name@) is Some)
    &&& res matches Ok(e) ==> (c1.diagnostics@.len() == c0.diagnostics@.len() && !(expr.data is Cast)
        ==> spec_well_typed(m1, exp.ty(), e))
    &&& expr.data is FunCall ==> (res matches Ok(out_a::Expr::FunCall { args_tp, ret_tp, .. }) ==> zonk(m1, Ty::UVar(m0.len()))
        == zonk(m1, Ty::Fun(tys(args_tp@), Box::new(ret_tp.ty()))))
}

/// The name a `let` binds, if the expression is one.
pub open spec fn spec_let_name(e: in_a::ExprNode) -> Option<Seq<char>> {
    match e.data {
        in_a::ExprData::Let { name, .. } => Some(name@),
        _ => None,
    }
}

/// The names bound by the `let`s among the first `k` expressions of `es`.
pub open spec fn spec_let_names(es: Seq<in_a::ExprNode>, k: int) -> Set<Seq<char>> {
    Set::new(|n: Seq<char>| exists|j: int| 0 <= j < k && #[trigger] spec_let_name(es[j]) == Some(n))
}

/// A symbol that names a function whose signature holds no unification variable.
pub open spec fn spec_plain_function(st: SymTable, id: NodeID) -> bool {
    &&& st.node_map.has(id.id)
    &&& st.node_map.value(id.id).kind matches SymKind::Func { args, ret, .. }
    &&& in_range(Seq::<Entry>::empty(), Ty::Fun(tys(args@), Box::new(ret.ty())))
}

/// A symbol that names a constructor of an enum the table describes fully: the enum's type
/// variable takes as many parameters as the enum has, and no argument type of the constructor
/// holds a unification variable.
pub open spec fn spec_plain_constructor(st: SymTable, id: NodeID) -> bool {
    &&& st.node_map.has(id.id)
    &&& st.node_map.value(id.id).kind matches SymKind::EnumCons { args, parent, .. }
    &&& st.node_map.has(parent.id)
    &&& st.node_map.value(parent.id).kind matches SymKind::Enum(tv)
    &&& st.tvar_map.has(tv.id)
    &&& st.tvar_map.value(tv.id).kind matches TypeKind::Enum { params, .. }
    &&& if params@.len() == 0 {
        !(tv.kind is TypeCons)
    } else {
        tv.kind == TVarKind::TypeCons(params@.len() as usize)
    }
    &&& forall|i: int| 0 <= i < args@.len() ==> in_range(Seq::<Entry>::empty(), #[trigger] args@[i].ty())
}

/// A symbol that names a struct the table describes fully: its type variable takes as many
/// parameters as the struct has, and no field type holds a unification variable.
pub open spec fn spec_plain_struct(st: SymTable, id: NodeID) -> bool {
    &&& st.node_map.has(id.id)
    &&& st.node_map.value(id.id).kind matches SymKind::Struct(tv)
    &&& st.tvar_map.has(tv.id)
    &&& st.tvar_map.value(tv.id).kind matches TypeKind::Struct { params, fields }
    &&& if params@.len() == 0 {
        !(tv.kind is TypeCons)
    } else {
        tv.kind == TVarKind::TypeCons(params@.len() as usize)
    }
    &&& forall|i: int|
        0 <= i < fields.entries@.len() ==> in_range(Seq::<Entry>::empty(), #[trigger] fields.entries@[i].1.1.ty())
}

/// An expression whose check meets no inconsistency of the table or of inference: it is made
/// of literals, local variables among `names`, functions with plain signatures and calls of
/// them, constructors of fully described enums, references, dereferences, returns, repeated arrays, conditionals, assignments, loops,
/// blocks (whose `let`s bind names for what follows them), `let`s without an annotation or
/// with one that holds no unification variable, tuples, arrays, and values of fully described
/// structs with each field given once.
pub open spec fn spec_simple_expr(st: SymTable, names: Set<Seq<char>>, e: in_a::ExprNode) -> bool
    decreases e,
{
    match e.data {
        in_a::ExprData::Error => true,
        in_a::ExprData::NumLit(_) => true,
        in_a::ExprData::String(_) => true,
        in_a::ExprData::Char(_) => true,
        in_a::ExprData::Match(_, _) => true,
        in_a::ExprData::Var(in_a::SymRef::Local(n)) => names.contains(n@),
        in_a::ExprData::Var(in_a::SymRef::Global(id)) => spec_plain_function(st, id) || spec_plain_constructor(st, id),
        in_a::ExprData::Ref(x) => spec_simple_expr(st, names, *x),
        in_a::ExprData::RefMut(x) => spec_simple_expr(st, names, *x),
        in_a::ExprData::Deref(x) => spec_simple_expr(st, names, *x),
        in_a::ExprData::Return(x) => spec_simple_expr(st, names, *x),
        in_a::ExprData::ArrayInitRepeat(x, _) => spec_simple_expr(st, names, *x),
        in_a::ExprData::If(p, t, f) => spec_simple_expr(st, names, *p) && spec_simple_expr(st, names, *t)
            && spec_simple_expr(st, names, *f),
        in_a::ExprData::Assign(l, r) => spec_simple_expr(st, names, *l) && spec_simple_expr(st, names, *r),
        in_a::ExprData::While(p, b) => spec_simple_expr(st, names, *p) && spec_simple_expr(st, names, *b),
        in_a::ExprData::Let { tp, expr, .. } => (tp matches Some(t) ==> in_range(Seq::<Entry>::empty(), t.ty()))
            && spec_simple_expr(st, names, *expr),
        in_a::ExprData::Block(es, last) => spec_simple_block(st, names, es@) && spec_simple_expr(
            st,
            names.union(spec_let_names(es@, es@.len() as int)),
            *last,
        ),
        in_a::ExprData::Tuple(es) => spec_simple_exprs(st, names, es@),
        in_a::ExprData::ArrayInitExact(es) => spec_simple_exprs(st, names, es@),
        in_a::ExprData::FunCall(f, es) => spec_simple_expr(st, names, *f) && spec_simple_exprs(st, names, es@),
        in_a::ExprData::StructCons(id, items) => spec_plain_struct(st, id) && items.keys_unique() && forall|i: int|
            0 <= i < items.entries@.len() ==> {
                proof {
                    assert(decreases_to!(e => e.data));
                    assert(decreases_to!(e.data => items));
                    assert(decreases_to!(items => items.entries));
                    assert(decreases_to!(items.entries => items.entries@));
                    assert(decreases_to!(items.entries@ => items.entries@[i]));
                    assert(decreases_to!(items.entries@[i] => items.entries@[i].1));
                }
                spec_simple_expr(st, names, (#[trigger] items.entries@[i]).1)
            },
        _ => false,
    }
}

/// Every expression of `es` is simple over `names`.
pub open spec fn spec_simple_exprs(st: SymTable, names: Set<Seq<char>>, es: Seq<in_a::ExprNode>) -> bool
    decreases es,
{
    forall|k: int| 0 <= k < es.len() ==> spec_simple_expr(st, names, #[trigger] es[k])
}

/// The statements of a block are simple, each over `names` and the names the `let`s before it
/// bind.
pub open spec fn spec_simple_block(st: SymTable, names: Set<Seq<char>>, es: Seq<in_a::ExprNode>) -> bool
    decreases es,
{
    forall|k: int| 0 <= k < es.len() ==> spec_simple_expr(st, names.union(spec_let_names(es, k)), #[trigger] es[k])
}

/// The check of `expr` succeeds when it is simple over names that `env` binds.
pub open spec fn spec_owed(st: SymTable, env: Env, expr: in_a::ExprNode, res: Result<out_a::Expr, InternalError>) -> bool {
    forall|names: Set<Seq<char>>|
        #[trigger] spec_simple_expr(st, names, expr) && names.subset_of(spec_bound_names(env.scopes@)) ==> res is Ok
}

fn builtin_named(name: &str) -> (res: Type)
    requires
        spec_builtin_type_id(name@) is Some,
    ensures
        res.ty() == spec_builtin_ty(spec_builtin_type_id(name@)->Some_0, name@),
{
    Type::builtin(name)
}

fn never_type() -> (res: Type)
    ensures
        res.ty() == spec_builtin_ty(0, "never"@),
{
    proof {
        reveal_strlit("never");
    }
    builtin_named("never")
}

fn bool_type() -> (res: Type)
    ensures
        res.ty() == spec_builtin_ty(1, "bool"@),
{
    proof {
        reveal_strlit("never");
        reveal_strlit("bool");
        reveal_strlit("order");
        reveal_strlit("u8");
        reveal_strlit("u16");
        reveal_strlit("u32");
        reveal_strlit("u64");
        reveal_strlit("usize");
        assert("bool"@ != "never"@) by {
            assert("bool"@.len() != "never"@.len());
        }
        assert(spec_builtin_type_id("bool"@) == Some(1usize));
    }
    builtin_named("bool")
}

fn u8_type() -> (res: Type)
    ensures
        res.ty() == spec_builtin_ty(3, "u8"@),
{
    proof {
        reveal_strlit("never");
        reveal_strlit("bool");
        reveal_strlit("order");
        reveal_strlit("u8");
        reveal_strlit("u16");
        reveal_strlit("u32");
        reveal_strlit("u64");
        reveal_strlit("usize");
        assert("u8"@ != "never"@) by {
            assert("u8"@.len() != "never"@.len());
        }
        assert("u8"@ != "bool"@) by {
            assert("u8"@.len() != "bool"@.len());
        }
        assert("u8"@ != "order"@) by {
            assert("u8"@.len() != "order"@.len());
        }
        assert(spec_builtin_type_id("u8"@) == Some(3usize));
    }
    builtin_named("u8")
}

fn usize_type() -> (res: Type)
    ensures
        res.ty() == spec_builtin_ty(7, "usize"@),
{
    proof {
        reveal_strlit("never");
        reveal_strlit("bool");
        reveal_strlit("order");
        reveal_strlit("u8");
        reveal_strlit("u16");
        reveal_strlit("u32");
        reveal_strlit("u64");
        reveal_strlit("usize");
        assert("usize"@ != "never"@) by {
            assert("usize"@[0] != "never"@[0]);
        }
        assert("usize"@ != "bool"@) by {
            assert("usize"@.len() != "bool"@.len());
        }
        assert("usize"@ != "order"@) by {
            assert("usize"@[0] != "order"@[0]);
        }
        assert("usize"@ != "u8"@) by {
            assert("usize"@.len() != "u8"@.len());
        }
        assert("usize"@ != "u16"@) by {
            assert("usize"@.len() != "u16"@.len());
        }
        assert("usize"@ != "u32"@) by {
            assert("usize"@.len() != "u32"@.len());
        }
        assert("usize"@ != "u64"@) by {
            assert("usize"@.len() != "u64"@.len());
        }
        assert(spec_builtin_type_id("usize"@) == Some(7usize));
    }
    builtin_named("usize")
}

/// Unifies and reports a mismatch. Tells whether the types agreed.
fn expect(ctx: &mut Context, store: &mut UVarStore, pos: &Position, exp_tp: &Type, tp: &Type) -> (res: bool)
    requires
        old(store).wf(),
        in_range(old(store).model(), exp_tp.ty()),
        in_range(old(store).model(), tp.ty()),
    ensures
        final(store).wf(),
        refines(old(store).model(), final(store).model()),
        final(store).model().len() == old(store).model().len(),
        spec_reported_after(*old(ctx), *final(ctx)),
        res ==> coerces(zonk(final(store).model(), exp_tp.ty()), zonk(final(store).model(), tp.ty())),
        res <==> final(ctx).diagnostics@.len() == old(ctx).diagnostics@.len(),
        res ==> final(ctx).diagnostics@ == old(ctx).diagnostics@,
        !res ==> final(ctx).diagnostics@ == old(ctx).diagnostics@.push(final(ctx).diagnostics@.last()) && spec_labelled_error(
            final(ctx).diagnostics@.last(),
            *pos,
            "Type mismatch. Expected: "@ + spec_shown(*final(store), *exp_tp) + ", Got: "@ + spec_shown(*final(store), *tp),
        ),
        !heads_agree(top(old(store).model(), exp_tp.ty()), top(old(store).model(), tp.ty())) ==> !res,
        heads_match(top(old(store).model(), exp_tp.ty()), top(old(store).model(), tp.ty())) || numeric_meets(
            top(old(store).model(), exp_tp.ty()),
            top(old(store).model(), tp.ty()),
        ) ==> res,
        numeric_meets(top(old(store).model(), exp_tp.ty()), top(old(store).model(), tp.ty())) ==> zonk(
            final(store).model(),
            tp.ty(),
        ) == zonk(final(store).model(), exp_tp.ty()),
        is_rigid(exp_tp.ty()) && is_rigid(tp.ty()) && coerces(exp_tp.ty(), tp.ty()) ==> res,
        spec_literal_checked(*old(ctx), *final(ctx), old(store).model(), *final(store), *exp_tp, *tp, *pos),
{
    let ghost m0 = store.model();
    if unify(store, exp_tp, tp) {
        proof {
            crate::tp::model::lemma_preserves_refines(m0, store.model());
        }
        true
    } else {
        proof {
            crate::tp::model::lemma_preserves_refines(m0, store.model());
        }
        ctx.report(error::type_mismatch(pos, exp_tp, tp, store));
        false
    }
}

/// Checks an expression against the type it is expected to have; `exp_mut` asks for a
/// place that may be assigned to.
///
/// Type mismatches and other mistakes are reported; the error comes for what the checker
/// does not handle yet, and for ids the symbol table does not know.
pub fn check_expr(
    ctx: &mut Context,
    st: &SymTable,
    env: &mut Env,
    store: &mut UVarStore,
    expr: in_a::ExprNode,
    exp_tp: &Type,
    exp_mut: bool,
) -> (res: Result<out_a::Expr, InternalError>)
    requires
        old(store).wf(),
        old(env).wf(old(store).model()),
        in_range(old(store).model(), exp_tp.ty()),
        st.wf(),
    ensures
        final(store).wf(),
        spec_checked(*old(ctx), *final(ctx), old(store).model(), final(store).model(), *old(env), *final(env), expr, *exp_tp, res),
        spec_owed(*st, *old(env), expr, res),
        expr.data matches in_a::ExprData::NumLit(n) ==> (res matches Ok(out_a::Expr::NumLit(k, tp)) && k == n && tp.ty()
            == Ty::NumericUVar(old(store).model().len()) && spec_literal_checked(
            *old(ctx),
            *final(ctx),
            old(store).model(),
            *final(store),
            *exp_tp,
            tp,
            expr.pos,
        )),
        expr.data matches in_a::ExprData::Char(c) ==> (res == Ok::<out_a::Expr, InternalError>(out_a::Expr::Char(c))
            && exists|t: Type|
            t.ty() == spec_builtin_ty(3, "u8"@) && #[trigger] spec_literal_checked(
                *old(ctx),
                *final(ctx),
                old(store).model(),
                *final(store),
                *exp_tp,
                t,
                expr.pos,
            )),
        expr.data matches in_a::ExprData::String(s) ==> (res matches Ok(out_a::Expr::StringLit(t, tp)) && t@ == s@
            && spec_is_string_ty(tp.ty()) && spec_literal_checked(
            *old(ctx),
            *final(ctx),
            old(store).model(),
            *final(store),
            *exp_tp,
            tp,
            expr.pos,
        )),
        expr.data matches in_a::ExprData::Var(in_a::SymRef::Local(n)) ==> match spec_lookup(old(env).scopes@, n@) {
            None => res is Err,
            Some((m, t)) => res matches Ok(out_a::Expr::LocalVar { name, tp }) && name@ == n@ && tp.ty() == t.ty() && if exp_mut
                && !m {
                final(ctx).diagnostics@.len() > old(ctx).diagnostics@.len() && spec_labelled_error(
                    final(ctx).diagnostics@[old(ctx).diagnostics@.len() as int],
                    expr.pos,
                    "cannot assign to immutable variable"@,
                )
            } else {
                spec_literal_checked(*old(ctx), *final(ctx), old(store).model(), *final(store), *exp_tp, tp, expr.pos)
            },
        },
        expr.data is Error ==> res == Ok::<out_a::Expr, InternalError>(out_a::Expr::Error) && *final(ctx) == *old(ctx)
            && final(store).model() == old(store).model(),
        expr.data is Match ==> res == Ok::<out_a::Expr, InternalError>(out_a::Expr::Error) && final(ctx).diagnostics@
            == old(ctx).diagnostics@.push(final(ctx).diagnostics@.last()) && spec_labelled_error(
            final(ctx).diagnostics@.last(),
            expr.pos,
            "not yet supported"@,
        ) && final(store).model() == old(store).model(),
    decreases expr, 3nat,
{
    let ghost m0 = store.model();
    let pos = expr.pos.clone();
    match &expr.data {
        in_a::ExprData::Error => Ok(out_a::Expr::Error),
        in_a::ExprData::NumLit(lit) => {
            let lit = *lit;
            let tp = env.numeric_uvar(store, &pos);
            let ghost m1 = store.model();
            proof {
                lemma_in_range_mono(m0, m1, exp_tp.ty());
                crate::tp::model::lemma_top_prefix(m0, m1, exp_tp.ty());
            }
            let _ = expect(ctx, store, &pos, exp_tp, &tp);
            proof {
                env.lemma_wf_mono(m1, store.model());
            }
            Ok(out_a::Expr::NumLit(lit, tp))
        },
        in_a::ExprData::Char(c) => {
            let c = *c;
            let tp = u8_type();
            let _ = expect(ctx, store, &pos, exp_tp, &tp);
            proof {
                env.lemma_wf_mono(m0, store.model());
            }
            Ok(out_a::Expr::Char(c))
        },
        in_a::ExprData::String(s) => {
            let size = s.as_str().as_bytes().len();
            let elem = u8_type();
            let arr = Type::array(size, elem);
            let tp = Type::ptr(arr);
            assert(in_range(m0, tp.ty())) by {
                reveal_with_fuel(crate::tp::model::all_uvars, 3);
            }
            let _ = expect(ctx, store, &pos, exp_tp, &tp);
            proof {
                env.lemma_wf_mono(m0, store.model());
            }
            Ok(out_a::Expr::StringLit(s.clone(), tp))
        },
        in_a::ExprData::Match(_, _) => {
            ctx.report(error::not_yet_supported(&pos));
            Ok(out_a::Expr::Error)
        },
        in_a::ExprData::Var(_) => check_var(ctx, st, env, store, expr, exp_tp, exp_mut),
        _ => check_compound(ctx, st, env, store, expr, exp_tp, exp_mut),
    }
}

/// The check of a variable: a local one by its binding, a global one by its symbol.
fn check_var(
    ctx: &mut Context,
    st: &SymTable,
    env: &mut Env,
    store: &mut UVarStore,
    expr: in_a::ExprNode,
    exp_tp: &Type,
    exp_mut: bool,
) -> (res: Result<out_a::Expr, InternalError>)
    requires
        old(store).wf(),
        old(env).wf(old(store).model()),
        in_range(old(store).model(), exp_tp.ty()),
        st.wf(),
        expr.data is Var,
    ensures
        final(store).wf(),
        spec_checked(*old(ctx), *final(ctx), old(store).model(), final(store).model(), *old(env), *final(env), expr, *exp_tp, res),
        spec_owed(*st, *old(env), expr, res),
        expr.data matches in_a::ExprData::Var(in_a::SymRef::Local(n)) ==> match spec_lookup(old(env).scopes@, n@) {
            None => res is Err,
            Some((m, t)) => res matches Ok(out_a::Expr::LocalVar { name, tp }) && name@ == n@ && tp.ty() == t.ty() && if exp_mut
                && !m {
                final(ctx).diagnostics@.len() > old(ctx).diagnostics@.len() && spec_labelled_error(
                    final(ctx).diagnostics@[old(ctx).diagnostics@.len() as int],
                    expr.pos,
                    "cannot assign to immutable variable"@,
                )
            } else {
                spec_literal_checked(*old(ctx), *final(ctx), old(store).model(), *final(store), *exp_tp, tp, expr.pos)
            },
        },
    decreases expr, 1nat,
{
    let ghost m0 = store.model();
    let pos = expr.pos.clone();
    let sym_ref = match expr.data {
        in_a::ExprData::Var(s) => s,
        _ => {
            return Err(InternalError::msg("not a variable"));
        },
    };
    match sym_ref {
        in_a::SymRef::Local(name) => {
            let (is_mut, tp) = match env.lookup(name.as_str()) {
                Some((m, t)) => (m, t.clone()),
                None => {
                    return Err(InternalError::msg("unbound local variable"));
                },
            };
            proof {
                lemma_lookup_in_store(env.scopes@, name@, m0);
                assert(in_range(m0, tp.ty()));
            }
            if exp_mut && !is_mut {
                ctx.report(error::expected_mutable(&pos));
            }
            let ghost c1 = *ctx;
            let ok = expect(ctx, store, &pos, exp_tp, &tp);
            proof {
                env.lemma_wf_mono(m0, store.model());
            }
            Ok(out_a::Expr::LocalVar { name, tp })
        },
        in_a::SymRef::Global(node_id) => {
            if !st.node_map.contains_key(node_id.id) {
                return Err(InternalError::msg("unknown symbol"));
            }
            let sym = st.find_sym_info(node_id);
            match &sym.kind {
                SymKind::Func { params, args, ret } => {
                    let subst = fresh_subst(env, store, params, &pos);
                    let ghost m1 = store.model();
                    let f = Type::fun(crate::tp::clone_vec(args), ret.clone());
                    proof {
                        assert(f.ty() == Ty::Fun(tys(args@), Box::new(ret.ty()))) by {
                            assert(f.ty()->Fun_0 =~= tys(args@));
                        }
                        if spec_plain_function(*st, node_id) {
                            lemma_in_range_mono(Seq::<Entry>::empty(), store.model(), f.ty());
                        }
                    }
                    if !f.is_within(store) {
                        return Err(InternalError::msg("a signature holds unknown variables"));
                    }
                    let tp = f.substitute(store, &subst);
                    proof {
                        lemma_in_range_mono(m0, m1, exp_tp.ty());
                        lemma_subst_in_range(store.model(), f.ty(), subst@);
                    }
                    let _ = expect(ctx, store, &pos, exp_tp, &tp);
                    proof {
                        env.lemma_wf_mono(m1, store.model());
                    }
                    Ok(out_a::Expr::GlobalVar { id: node_id, tp })
                },
                SymKind::EnumCons { args, parent, .. } => {
                    if !st.node_map.contains_key(parent.id) {
                        return Err(InternalError::msg("unknown symbol"));
                    }
                    let parent_info = st.find_sym_info(*parent);
                    let tvar = match &parent_info.kind {
                        SymKind::Enum(tvar) => *tvar,
                        _ => {
                            return Err(InternalError::msg("the parent of a constructor is not an enum"));
                        },
                    };
                    if !st.tvar_map.contains_key(tvar.id) {
                        return Err(InternalError::msg("unknown type"));
                    }
                    let type_info = st.find_type_info(tvar);
                    let params = match &type_info.kind {
                        TypeKind::Enum { params, .. } => params,
                        _ => {
                            return Err(InternalError::msg("the parent of a constructor is not an enum"));
                        },
                    };
                    let subst = fresh_subst(env, store, params, &pos);
                    let ghost m1 = store.model();
                    let ghost mut tps_v: Seq<Type> = Seq::empty();
                    let base = if params.len() == 0 {
                        Type::named_var(tvar, type_info.name.as_str(), &pos)
                    } else {
                        let tps = subst_types(&subst);
                        proof {
                            tps_v = tps@;
                        }
                        Type::type_app(tvar, type_info.name.as_str(), tps, &pos)
                    };
                    let base = match base {
                        Ok(t) => t,
                        Err(_) => {
                            return Err(InternalError::msg("wrong number of type parameters"));
                        },
                    };
                    proof {
                        if params.len() > 0 {
                            assert forall|k: int| 0 <= k < base.ty()->TypeApp_2.len() implies crate::tp::model::all_uvars(
                                #[trigger] base.ty()->TypeApp_2[k],
                                crate::tp::model::pred_below(store.model().len()),
                            ) by {
                                assert(base.ty()->TypeApp_2[k] == tps_v[k].ty());
                            }
                        }
                    }
                    if !base.is_within(store) {
                        return Err(InternalError::msg("a signature holds unknown variables"));
                    }
                    let tp = if args.len() == 0 {
                        base
                    } else {
                        let ghost bt = base.ty();
                        let f = Type::fun(crate::tp::clone_vec(args), base);
                        proof {
                            if forall|k: int| 0 <= k < args@.len() ==> in_range(Seq::<Entry>::empty(), #[trigger] args@[k].ty()) {
                                assert forall|k: int| 0 <= k < f.ty()->Fun_0.len() implies crate::tp::model::all_uvars(
                                    #[trigger] f.ty()->Fun_0[k],
                                    crate::tp::model::pred_below(store.model().len()),
                                ) by {
                                    assert(f.ty()->Fun_0[k] == args@[k].ty());
                                    lemma_in_range_mono(Seq::<Entry>::empty(), store.model(), args@[k].ty());
                                }
                                assert(*f.ty()->Fun_1 == bt);
                            }
                        }
                        if !f.is_within(store) {
                            return Err(InternalError::msg("a signature holds unknown variables"));
                        }
                        proof {
                            lemma_subst_in_range(store.model(), f.ty(), subst@);
                        }
                        f.substitute(store, &subst)
                    };
                    proof {
                        lemma_in_range_mono(m0, m1, exp_tp.ty());
                    }
                    let _ = expect(ctx, store, &pos, exp_tp, &tp);
                    proof {
                        env.lemma_wf_mono(m1, store.model());
                    }
                    Ok(out_a::Expr::GlobalVar { id: node_id, tp })
                },
                SymKind::Struct(_) | SymKind::Enum(_) => Err(InternalError::msg("a type used as a value")),
            }
        },
    }
}


proof fn lemma_lookup_in_store(scopes: Seq<NameMap<(bool, Type)>>, name: Seq<char>, m: Seq<Entry>)
    requires
        forall|i: int, n: Seq<char>| 0 <= i < scopes.len() && #[trigger] scopes[i].has(n) ==> in_range(m, scopes[i].value(n).1.ty()),
    ensures
        crate::typecheck::env::spec_lookup(scopes, name) matches Some(x) ==> in_range(m, x.1.ty()),
    decreases scopes.len(),
{
    if scopes.len() > 0 {
        if scopes.last().has(name) {
            assert(scopes[scopes.len() - 1].has(name));
        } else {
            assert forall|i: int, n: Seq<char>| 0 <= i < scopes.drop_last().len() && #[trigger] scopes.drop_last()[i].has(n)
                implies in_range(m, scopes.drop_last()[i].value(n).1.ty()) by {
                assert(scopes.drop_last()[i] == scopes[i]);
            }
            lemma_lookup_in_store(scopes.drop_last(), name, m);
        }
    }
}

proof fn lemma_subst_in_range(m: Seq<Entry>, t: Ty, subst: Seq<(TVar, Type)>)
    requires
        crate::tp::model::store_wf(m),
        in_range(m, t),
        forall|i: int| 0 <= i < subst.len() ==> in_range(m, (#[trigger] subst[i]).1.ty()),
    ensures
        in_range(m, crate::tp::model::tsubst(zonk(m, t), crate::tp::tv_map(subst))),
{
    crate::tp::model::lemma_zonk_is_clean(m, t);
    crate::tp::model::lemma_clean_in_range(m, zonk(m, t));
    let s = crate::tp::tv_map(subst);
    assert forall|i: int| 0 <= i < s.len() implies in_range(m, (#[trigger] s[i]).1) by {
        assert(s[i].1 == subst[i].1.ty());
    }
    crate::tp::model::lemma_tsubst_in_range(m, zonk(m, t), s);
}

/// A fresh unification variable for each type parameter.
fn fresh_subst(env: &mut Env, store: &mut UVarStore, params: &Vec<TVar>, pos: &Position) -> (res: Vec<(TVar, Type)>)
    requires
        old(store).wf(),
        old(env).wf(old(store).model()),
    ensures
        final(store).wf(),
        final(env).wf(final(store).model()),
        refines(old(store).model(), final(store).model()),
        final(env).expected_ret == old(env).expected_ret,
        final(env).scopes@ == old(env).scopes@,
        res@.len() == params@.len(),
        forall|i: int| 0 <= i < res@.len() ==> (#[trigger] res@[i]).0 == params@[i] && in_range(final(store).model(), res@[i].1.ty()),
{
    let mut subst: Vec<(TVar, Type)> = Vec::new();
    let n = params.len();
    let mut i: usize = 0;
    while i < n
        invariant
            n == params@.len(),
            i <= n,
            store.wf(),
            env.wf(store.model()),
            refines(old(store).model(), store.model()),
            env.expected_ret == old(env).expected_ret,
            env.scopes@ == old(env).scopes@,
            subst@.len() == i,
            forall|k: int| 0 <= k < i ==> (#[trigger] subst@[k]).0 == params@[k] && in_range(store.model(), subst@[k].1.ty()),
        decreases n - i,
    {
        let ghost m1 = store.model();
        let tp = env.fresh_uvar(store, pos);
        proof {
            assert forall|k: int| 0 <= k < i implies in_range(store.model(), (#[trigger] subst@[k]).1.ty()) by {
                lemma_in_range_mono(m1, store.model(), subst@[k].1.ty());
            }
        }
        subst.push((params[i], tp));
        i = i + 1;
    }
    subst
}

/// The types of a substitution, in order.
fn subst_types(subst: &Vec<(TVar, Type)>) -> (res: Vec<Type>)
    ensures
        res@.len() == subst@.len(),
        forall|i: int| 0 <= i < res@.len() ==> (#[trigger] res@[i]).ty() == subst@[i].1.ty(),
{
    let mut v: Vec<Type> = Vec::new();
    let n = subst.len();
    let mut i: usize = 0;
    while i < n
        invariant
            n == subst@.len(),
            i <= n,
            v@.len() == i,
            forall|k: int| 0 <= k < i ==> (#[trigger] v@[k]).ty() == subst@[k].1.ty(),
        decreases n - i,
    {
        v.push(subst[i].1.clone());
        i = i + 1;
    }
    v
}

/// The checks of compound expressions, each by its kind.
fn check_compound(
    ctx: &mut Context,
    st: &SymTable,
    env: &mut Env,
    store: &mut UVarStore,
    expr: in_a::ExprNode,
    exp_tp: &Type,
    exp_mut: bool,
) -> (res: Result<out_a::Expr, InternalError>)
    requires
        old(store).wf(),
        old(env).wf(old(store).model()),
        in_range(old(store).model(), exp_tp.ty()),
        st.wf(),
        !(expr.data is Var || expr.data is Error || expr.data is NumLit || expr.data is Char || expr.data is String || expr.data is Match),
    ensures
        final(store).wf(),
        spec_checked(*old(ctx), *final(ctx), old(store).model(), final(store).model(), *old(env), *final(env), expr, *exp_tp, res),
        spec_owed(*st, *old(env), expr, res),
    decreases expr, 2nat,
{
    match &expr.data {
        in_a::ExprData::Ref(_) | in_a::ExprData::RefMut(_) | in_a::ExprData::Deref(_) | in_a::ExprData::Return(_)
        | in_a::ExprData::ArrayInitRepeat(_, _) | in_a::ExprData::Cast(_, _) => check_unary(ctx, st, env, store, expr, exp_tp, exp_mut),
        in_a::ExprData::If(_, _, _) | in_a::ExprData::Assign(_, _) | in_a::ExprData::While(_, _)
        | in_a::ExprData::IndexAccess(_, _) => check_branching(ctx, st, env, store, expr, exp_tp, exp_mut),
        in_a::ExprData::Block(_, _) | in_a::ExprData::Let { .. } => check_scoped(ctx, st, env, store, expr, exp_tp, exp_mut),
        in_a::ExprData::Tuple(_) | in_a::ExprData::ArrayInitExact(_) => check_list(ctx, st, env, store, expr, exp_tp, exp_mut),
        in_a::ExprData::FunCall(_, _) => check_call(ctx, st, env, store, expr, exp_tp, exp_mut),
        in_a::ExprData::MethodCall(_, _, _) => check_method_call(ctx, st, env, store, expr, exp_tp, exp_mut),
        in_a::ExprData::FieldAccess(_, _) => check_field(ctx, st, env, store, expr, exp_tp, exp_mut),
        in_a::ExprData::StructCons(_, _) => check_struct_cons(ctx, st, env, store, expr, exp_tp, exp_mut),
        _ => Err(InternalError::msg("not a compound expression")),
    }
}

/// What a `return` adds once its operand was checked against the function's result type:
/// nothing. A return has type `never`, which every expected type takes, so no diagnostic can
/// come of it (no context is at hand) and the store, with the expected type, is left as it was.
pub fn finish_return(store: &mut UVarStore, exp_tp: &Type, operand: out_a::Expr, ret_tp: Type) -> (res: out_a::Expr)
    requires
        old(store).wf(),
        in_range(old(store).model(), exp_tp.ty()),
    ensures
        final(store).wf(),
        final(store).model() == old(store).model(),
        res == (out_a::Expr::Return { expr: Box::new(operand), ret_tp }),
{
    let never = never_type();
    let _ = unify(store, exp_tp, &never);
    out_a::Expr::Return { expr: Box::new(operand), ret_tp }
}

/// Expressions with one part: references, dereference, return, repeated arrays, casts.
fn check_unary(
    ctx: &mut Context,
    st: &SymTable,
    env: &mut Env,
    store: &mut UVarStore,
    expr: in_a::ExprNode,
    exp_tp: &Type,
    exp_mut: bool,
) -> (res: Result<out_a::Expr, InternalError>)
    requires
        old(store).wf(),
        old(env).wf(old(store).model()),
        in_range(old(store).model(), exp_tp.ty()),
        st.wf(),
        expr.data is Ref || expr.data is RefMut || expr.data is Deref || expr.data is Return || expr.data is ArrayInitRepeat || expr.data is Cast,
    ensures
        final(store).wf(),
        spec_checked(*old(ctx), *final(ctx), old(store).model(), final(store).model(), *old(env), *final(env), expr, *exp_tp, res),
        spec_owed(*st, *old(env), expr, res),
    decreases expr, 1nat,
{
    let ghost e0 = expr;
    let ghost m0 = store.model();
    let pos = expr.pos.clone();
    match expr.data {
        in_a::ExprData::Ref(e) => {
            let tp = env.fresh_uvar(store, &pos);
            let ghost ma = store.model();
            assert(forall|names: Set<Seq<char>>| #[trigger] spec_simple_expr(*st, names, e0) ==> spec_simple_expr(*st, names, *e));
            let inner = check_expr(ctx, st, env, store, *e, &tp, false)?;
            let ghost m1 = store.model();
            proof {
                lemma_in_range_mono(ma, m1, tp.ty());
            }
            let tp = Type::ptr(tp);
            proof {
                lemma_in_range_mono(m0, m1, exp_tp.ty());
            }
            let _ = expect(ctx, store, &pos, exp_tp, &tp);
            proof {
                env.lemma_wf_mono(m1, store.model());
            }
            Ok(out_a::Expr::Ref { expr: Box::new(inner), tp })
        },
        in_a::ExprData::RefMut(e) => {
            let tp = env.fresh_uvar(store, &pos);
            let ghost ma = store.model();
            assert(forall|names: Set<Seq<char>>| #[trigger] spec_simple_expr(*st, names, e0) ==> spec_simple_expr(*st, names, *e));
            let inner = check_expr(ctx, st, env, store, *e, &tp, true)?;
            let ghost m1 = store.model();
            proof {
                lemma_in_range_mono(ma, m1, tp.ty());
            }
            let tp = Type::mut_ptr(tp);
            proof {
                lemma_in_range_mono(m0, m1, exp_tp.ty());
            }
            let _ = expect(ctx, store, &pos, exp_tp, &tp);
            proof {
                env.lemma_wf_mono(m1, store.model());
            }
            Ok(out_a::Expr::RefMut { expr: Box::new(inner), tp })
        },
        in_a::ExprData::Deref(e) => {
            let in_tp = env.fresh_uvar(store, &pos);
            let tp = if exp_mut {
                Type::mut_ptr(in_tp.clone())
            } else {
                Type::ptr(in_tp.clone())
            };
            let ghost m1 = store.model();
            assert(forall|names: Set<Seq<char>>| #[trigger] spec_simple_expr(*st, names, e0) ==> spec_simple_expr(*st, names, *e));
            let inner = check_expr(ctx, st, env, store, *e, &tp, false)?;
            let ghost m2 = store.model();
            proof {
                lemma_in_range_mono(m0, m2, exp_tp.ty());
                lemma_in_range_mono(m1, m2, in_tp.ty());
            }
            let _ = expect(ctx, store, &pos, exp_tp, &in_tp);
            proof {
                env.lemma_wf_mono(m2, store.model());
            }
            Ok(out_a::Expr::Deref { expr: Box::new(inner), in_tp })
        },
        in_a::ExprData::Return(e) => {
            let tp = env.expected_ret();
            assert(forall|names: Set<Seq<char>>| #[trigger] spec_simple_expr(*st, names, e0) ==> spec_simple_expr(*st, names, *e));
            let inner = check_expr(ctx, st, env, store, *e, &tp, false)?;
            let ghost m1 = store.model();
            proof {
                lemma_in_range_mono(m0, m1, exp_tp.ty());
            }
            let res = finish_return(store, exp_tp, inner, tp);
            proof {
                env.lemma_wf_mono(m1, store.model());
            }
            Ok(res)
        },
        in_a::ExprData::ArrayInitRepeat(e, size) => {
            if exp_mut {
                ctx.report(error::expected_mutable(&pos));
            }
            let tp = env.fresh_uvar(store, &pos);
            let ghost ma = store.model();
            assert(forall|names: Set<Seq<char>>| #[trigger] spec_simple_expr(*st, names, e0) ==> spec_simple_expr(*st, names, *e));
            let inner = check_expr(ctx, st, env, store, *e, &tp, false)?;
            let ghost m1 = store.model();
            let arr_tp = Type::array(size, tp.clone());
            proof {
                lemma_in_range_mono(m0, m1, exp_tp.ty());
                lemma_in_range_mono(ma, m1, tp.ty());
            }
            let _ = expect(ctx, store, &pos, exp_tp, &arr_tp);
            proof {
                env.lemma_wf_mono(m1, store.model());
            }
            Ok(out_a::Expr::ArrayInitRepeat(Box::new(inner), size, tp))
        },
        in_a::ExprData::Cast(e, to_type) => {
            assert(forall|names: Set<Seq<char>>| #[trigger] spec_simple_expr(*st, names, e0) ==> false);
            let tp = env.fresh_uvar(store, &pos);
            let inner = check_expr(ctx, st, env, store, *e, &tp, exp_mut)?;
            let ghost m1 = store.model();
            if !to_type.is_within(store) {
                return Err(InternalError::msg("a cast holds unknown variables"));
            }
            proof {
                lemma_in_range_mono(m0, m1, exp_tp.ty());
            }
            let _ = expect(ctx, store, &pos, exp_tp, &to_type);
            proof {
                env.lemma_wf_mono(m1, store.model());
            }
            Ok(inner)
        },
        _ => Err(InternalError::msg("not a unary expression")),
    }
}

/// Conditionals, assignments, loops and indexing.
fn check_branching(
    ctx: &mut Context,
    st: &SymTable,
    env: &mut Env,
    store: &mut UVarStore,
    expr: in_a::ExprNode,
    exp_tp: &Type,
    exp_mut: bool,
) -> (res: Result<out_a::Expr, InternalError>)
    requires
        old(store).wf(),
        old(env).wf(old(store).model()),
        in_range(old(store).model(), exp_tp.ty()),
        st.wf(),
        expr.data is If || expr.data is Assign || expr.data is While || expr.data is IndexAccess,
    ensures
        final(store).wf(),
        spec_checked(*old(ctx), *final(ctx), old(store).model(), final(store).model(), *old(env), *final(env), expr, *exp_tp, res),
        spec_owed(*st, *old(env), expr, res),
    decreases expr, 1nat,
{
    let ghost e0 = expr;
    let ghost m0 = store.model();
    let pos = expr.pos.clone();
    match expr.data {
        in_a::ExprData::If(pr, th, el) => {
            let tp = env.fresh_uvar(store, &pos);
            let ghost m1 = store.model();
            let b = bool_type();
            assert(forall|names: Set<Seq<char>>| #[trigger] spec_simple_expr(*st, names, e0) ==> spec_simple_expr(*st, names, *pr));
            let pr = check_expr(ctx, st, env, store, *pr, &b, false)?;
            let ghost m2 = store.model();
            proof {
                lemma_in_range_mono(m1, m2, tp.ty());
            }
            assert(forall|names: Set<Seq<char>>| #[trigger] spec_simple_expr(*st, names, e0) ==> spec_simple_expr(*st, names, *el));
            let el = check_expr(ctx, st, env, store, *el, &tp, exp_mut)?;
            let ghost m3 = store.model();
            proof {
                lemma_in_range_mono(m1, m3, tp.ty());
            }
            assert(forall|names: Set<Seq<char>>| #[trigger] spec_simple_expr(*st, names, e0) ==> spec_simple_expr(*st, names, *th));
            let th = check_expr(ctx, st, env, store, *th, &tp, exp_mut)?;
            let ghost m4 = store.model();
            proof {
                lemma_in_range_mono(m1, m4, tp.ty());
                lemma_in_range_mono(m0, m4, exp_tp.ty());
            }
            let _ = expect(ctx, store, &pos, exp_tp, &tp);
            proof {
                env.lemma_wf_mono(m4, store.model());
            }
            Ok(out_a::Expr::If { pred: Box::new(pr), th: Box::new(th), el: Box::new(el), block_tp: tp })
        },
        in_a::ExprData::Assign(lval, rval) => {
            let tp = env.fresh_uvar(store, &pos);
            let ghost m1 = store.model();
            assert(forall|names: Set<Seq<char>>| #[trigger] spec_simple_expr(*st, names, e0) ==> spec_simple_expr(*st, names, *lval));
            let lval = check_expr(ctx, st, env, store, *lval, &tp, true)?;
            let ghost m2 = store.model();
            proof {
                lemma_in_range_mono(m1, m2, tp.ty());
            }
            assert(forall|names: Set<Seq<char>>| #[trigger] spec_simple_expr(*st, names, e0) ==> spec_simple_expr(*st, names, *rval));
            let rval = check_expr(ctx, st, env, store, *rval, &tp, false)?;
            let ghost m3 = store.model();
            let unit = Type::unit();
            proof {
                lemma_in_range_mono(m0, m3, exp_tp.ty());
            }
            let _ = expect(ctx, store, &pos, exp_tp, &unit);
            proof {
                env.lemma_wf_mono(m3, store.model());
            }
            Ok(out_a::Expr::Assign { lval: Box::new(lval), rval: Box::new(rval), assign_tp: tp })
        },
        in_a::ExprData::While(pred, block) => {
            if exp_mut {
                ctx.report(error::expected_mutable(&pos));
            }
            let b = bool_type();
            assert(forall|names: Set<Seq<char>>| #[trigger] spec_simple_expr(*st, names, e0) ==> spec_simple_expr(*st, names, *pred));
            let pred = check_expr(ctx, st, env, store, *pred, &b, false)?;
            let unit = Type::unit();
            assert(forall|names: Set<Seq<char>>| #[trigger] spec_simple_expr(*st, names, e0) ==> spec_simple_expr(*st, names, *block));
            let block = check_expr(ctx, st, env, store, *block, &unit, false)?;
            let ghost m1 = store.model();
            proof {
                lemma_in_range_mono(m0, m1, exp_tp.ty());
            }
            let _ = expect(ctx, store, &pos, exp_tp, &unit);
            proof {
                env.lemma_wf_mono(m1, store.model());
            }
            Ok(out_a::Expr::While { pred: Box::new(pred), block: Box::new(block) })
        },
        in_a::ExprData::IndexAccess(arr, index) => {
            assert(forall|names: Set<Seq<char>>| #[trigger] spec_simple_expr(*st, names, e0) ==> false);
            let tp = env.fresh_uvar(store, &pos);
            let ghost m1 = store.model();
            let arr = check_expr(ctx, st, env, store, *arr, &tp, exp_mut)?;
            let u = usize_type();
            let index = check_expr(ctx, st, env, store, *index, &u, false)?;
            let ghost m2 = store.model();
            proof {
                lemma_in_range_mono(m1, m2, tp.ty());
                crate::tp::lemma_view_measure(m2, tp.ty());
            }
            let elem = match tp.view(store) {
                TypeView::Array(_, t) => *t,
                _ => {
                    return Err(InternalError::msg("indexing into what is not an array"));
                },
            };
            proof {
                lemma_in_range_mono(m0, m2, exp_tp.ty());
            }
            let _ = expect(ctx, store, &pos, exp_tp, &elem);
            proof {
                env.lemma_wf_mono(m2, store.model());
            }
            Ok(out_a::Expr::IndexAccess { arr: Box::new(arr), index: Box::new(index), tp: elem })
        },
        _ => Err(InternalError::msg("not a branching expression")),
    }
}

/// Opening a scope keeps every binding visible.
proof fn lemma_new_scope_binds(s0: Seq<NameMap<(bool, Type)>>, s1: Seq<NameMap<(bool, Type)>>)
    requires
        s1.len() == s0.len() + 1,
        s1.drop_last() == s0,
        forall|n: Seq<char>| !(#[trigger] s1.last().has(n)),
    ensures
        spec_binds_more(s0, s1),
        spec_bound_names(s0).subset_of(spec_bound_names(s1)),
{
    assert forall|n: Seq<char>| #[trigger] spec_lookup(s0, n) is Some implies spec_lookup(s1, n) is Some by {
        assert(!s1.last().has(n));
    }
}

/// Names bound in `s0` stay bound in scopes that bind more.
proof fn lemma_subset_grows(nm: Set<Seq<char>>, s0: Seq<NameMap<(bool, Type)>>, s1: Seq<NameMap<(bool, Type)>>)
    requires
        nm.subset_of(spec_bound_names(s0)),
        spec_binds_more(s0, s1),
    ensures
        nm.subset_of(spec_bound_names(s1)),
{
    assert forall|x: Seq<char>| nm.contains(x) implies spec_bound_names(s1).contains(x) by {
        assert(spec_lookup(s0, x) is Some);
    }
}

/// After the statement `k` of a block, the names bound before it and the one it binds are bound.
proof fn lemma_let_names_step(
    all: Seq<in_a::ExprNode>,
    k: int,
    nm: Set<Seq<char>>,
    s0: Seq<NameMap<(bool, Type)>>,
    s1: Seq<NameMap<(bool, Type)>>,
)
    requires
        0 <= k < all.len(),
        nm.union(spec_let_names(all, k)).subset_of(spec_bound_names(s0)),
        spec_binds_more(s0, s1),
        all[k].data matches in_a::ExprData::Let { name, .. } ==> spec_lookup(s1, name@) is Some,
    ensures
        nm.union(spec_let_names(all, k + 1)).subset_of(spec_bound_names(s1)),
{
    assert forall|x: Seq<char>| nm.union(spec_let_names(all, k + 1)).contains(x) implies spec_bound_names(s1).contains(x) by {
        if nm.union(spec_let_names(all, k)).contains(x) {
            assert(spec_lookup(s0, x) is Some);
        } else {
            let j = choose|j: int| 0 <= j < k + 1 && #[trigger] spec_let_name(all[j]) == Some(x);
            if j < k {
                assert(spec_let_names(all, k).contains(x));
            }
        }
    }
}

/// Blocks, checked in a scope of their own, and `let` bindings.
fn check_scoped(
    ctx: &mut Context,
    st: &SymTable,
    env: &mut Env,
    store: &mut UVarStore,
    expr: in_a::ExprNode,
    exp_tp: &Type,
    exp_mut: bool,
) -> (res: Result<out_a::Expr, InternalError>)
    requires
        old(store).wf(),
        old(env).wf(old(store).model()),
        in_range(old(store).model(), exp_tp.ty()),
        st.wf(),
        expr.data is Block || expr.data is Let,
    ensures
        final(store).wf(),
        spec_checked(*old(ctx), *final(ctx), old(store).model(), final(store).model(), *old(env), *final(env), expr, *exp_tp, res),
        spec_owed(*st, *old(env), expr, res),
    decreases expr, 1nat,
{
    let ghost e0 = expr;
    let ghost m0 = store.model();
    let pos = expr.pos.clone();
    match expr.data {
        in_a::ExprData::Block(es, last) => {
            let ghost owed = exists|names: Set<Seq<char>>|
                #[trigger] spec_simple_expr(*st, names, e0) && names.subset_of(spec_bound_names(old(env).scopes@));
            let ghost nm: Set<Seq<char>> = if owed {
                choose|names: Set<Seq<char>>|
                    #[trigger] spec_simple_expr(*st, names, e0) && names.subset_of(spec_bound_names(old(env).scopes@))
            } else {
                Set::empty()
            };
            env.new_scope(Ghost(store.model()));
            proof {
                lemma_new_scope_binds(old(env).scopes@, env.scopes@);
            }
            let ghost env1 = *env;
            let ghost all = es@;
            let ghost v0 = es;
            proof {
                if owed {
                    assert(spec_let_names(all, 0) =~= Set::empty());
                    assert(nm.union(spec_let_names(all, 0)) =~= nm);
                }
            }
            let mut rest = es;
            let mut exprs: Vec<out_a::Expr> = Vec::new();
            let unit = Type::unit();
            let n = rest.len();
            let mut k: usize = 0;
            while rest.len() > 0
                invariant
                    k <= n,
                    n == all.len(),
                    v0@ == all,
                    e0 == expr,
                    e0.data == in_a::ExprData::Block(v0, e0.data->Block_1),
                    rest@ == all.subrange(k as int, n as int),
                    store.wf(),
                    env.wf(store.model()),
                    st.wf(),
                    m0 == old(store).model(),
            refines(m0, store.model()),
                    env.expected_ret == env1.expected_ret,
                    env.scopes@.len() == env1.scopes@.len(),
                    env.scopes@.drop_last() == env1.scopes@.drop_last(),
                    spec_reported_after(*old(ctx), *ctx),
                    unit.ty() == spec_unit_ty(),
                    owed <==> exists|names: Set<Seq<char>>|
                        #[trigger] spec_simple_expr(*st, names, e0) && names.subset_of(spec_bound_names(old(env).scopes@)),
                    owed ==> spec_simple_expr(*st, nm, e0),
                    owed ==> nm.union(spec_let_names(all, k as int)).subset_of(spec_bound_names(env.scopes@)),
                    exprs@.len() == k,
                decreases n - k,
            {
                let item = rest.remove(0);
                assert(item == all[k as int]);
                assert(decreases_to!(e0 => item)) by {
                    assert(decreases_to!(e0 => e0.data));
                    assert(decreases_to!(e0.data => e0.data->Block_0));
                    assert(decreases_to!(v0 => v0@));
                    assert(decreases_to!(v0@ => v0@[k as int]));
                }
                let ghost sk = env.scopes@;
                proof {
                    if owed {
                        assert(spec_simple_block(*st, nm, all));
                        assert(spec_simple_expr(*st, nm.union(spec_let_names(all, k as int)), all[k as int]));
                    }
                }
                let e = check_expr(ctx, st, env, store, item, &unit, false)?;
                proof {
                    if owed {
                        lemma_let_names_step(all, k as int, nm, sk, env.scopes@);
                    }
                }
                exprs.push(e);
                k = k + 1;
                assert(rest@ =~= all.subrange(k as int, n as int));
            }
            let ghost m1 = store.model();
            proof {
                lemma_in_range_mono(m0, m1, exp_tp.ty());
            }
            proof {
                if owed {
                    assert(spec_simple_expr(*st, nm.union(spec_let_names(all, n as int)), *last));
                }
            }
            let last = check_expr(ctx, st, env, store, *last, exp_tp, exp_mut)?;
            let ghost m2 = store.model();
            env.leave_scope(Ghost(store.model()));
            proof {
                assert(env.scopes@ =~= old(env).scopes@);
                lemma_in_range_mono(m0, m2, exp_tp.ty());
                crate::tp::model::lemma_coerces_refl(zonk(m2, exp_tp.ty()));
            }
            Ok(out_a::Expr::Block { exprs, last_expr: Box::new(last), block_tp: exp_tp.clone() })
        },
        in_a::ExprData::Let { name, is_mut, tp, expr: e } => {
            let tp = match tp {
                Some(tp) => {
                    proof {
                        if in_range(Seq::<Entry>::empty(), tp.ty()) {
                            lemma_in_range_mono(Seq::<Entry>::empty(), store.model(), tp.ty());
                        }
                    }
                    if !tp.is_within(store) {
                        return Err(InternalError::msg("an annotation holds unknown variables"));
                    }
                    tp
                },
                None => env.fresh_uvar(store, &pos),
            };
            let ghost m1 = store.model();
            env.new_scope(Ghost(store.model()));
            proof {
                lemma_new_scope_binds(old(env).scopes@, env.scopes@);
            }
            assert(forall|names: Set<Seq<char>>| #[trigger] spec_simple_expr(*st, names, e0) ==> spec_simple_expr(*st, names, *e));
            let inner = check_expr(ctx, st, env, store, *e, &tp, false)?;
            env.leave_scope(Ghost(store.model()));
            let ghost m2 = store.model();
            proof {
                lemma_in_range_mono(m1, m2, tp.ty());
            }
            env.add_var(name.clone(), is_mut, tp.clone(), Ghost(store.model()));
            let unit = Type::unit();
            proof {
                lemma_in_range_mono(m0, m2, exp_tp.ty());
            }
            let _ = expect(ctx, store, &pos, exp_tp, &unit);
            proof {
                env.lemma_wf_mono(m2, store.model());
            }
            Ok(out_a::Expr::Let { name, tp, is_mut, expr: Box::new(inner) })
        },
        _ => Err(InternalError::msg("not a scoped expression")),
    }
}

/// Tuples and arrays given element by element.
fn check_list(
    ctx: &mut Context,
    st: &SymTable,
    env: &mut Env,
    store: &mut UVarStore,
    expr: in_a::ExprNode,
    exp_tp: &Type,
    exp_mut: bool,
) -> (res: Result<out_a::Expr, InternalError>)
    requires
        old(store).wf(),
        old(env).wf(old(store).model()),
        in_range(old(store).model(), exp_tp.ty()),
        st.wf(),
        expr.data is Tuple || expr.data is ArrayInitExact,
    ensures
        final(store).wf(),
        spec_checked(*old(ctx), *final(ctx), old(store).model(), final(store).model(), *old(env), *final(env), expr, *exp_tp, res),
        spec_owed(*st, *old(env), expr, res),
    decreases expr, 1nat,
{
    let ghost e0 = expr;
    let ghost m0 = store.model();
    let pos = expr.pos.clone();
    let is_tuple = match &expr.data {
        in_a::ExprData::Tuple(_) => true,
        _ => false,
    };
    if !is_tuple && exp_mut {
        ctx.report(error::expected_mutable(&pos));
    }
    let es = match expr.data {
        in_a::ExprData::Tuple(es) => es,
        in_a::ExprData::ArrayInitExact(es) => es,
        _ => {
            return Err(InternalError::msg("not a list"));
        },
    };
    let ghost owed = exists|names: Set<Seq<char>>|
        #[trigger] spec_simple_expr(*st, names, e0) && names.subset_of(spec_bound_names(old(env).scopes@));
    let ghost nm: Set<Seq<char>> = if owed {
        choose|names: Set<Seq<char>>|
            #[trigger] spec_simple_expr(*st, names, e0) && names.subset_of(spec_bound_names(old(env).scopes@))
    } else {
        Set::empty()
    };
    proof {
        if owed {
            assert(spec_simple_exprs(*st, nm, es@));
        }
    }
    let elem_tp = env.fresh_uvar(store, &pos);
    let ghost m1 = store.model();
    let ghost all = es@;
    let ghost v0 = es;
    let size = es.len();
    let mut rest = es;
    let mut exprs: Vec<out_a::Expr> = Vec::new();
    let mut tps: Vec<Type> = Vec::new();
    let n = rest.len();
    let mut k: usize = 0;
    while rest.len() > 0
        invariant
            k <= n,
            n == all.len(),
            n == size,
            v0@ == all,
            e0 == expr,
            e0.data == in_a::ExprData::Tuple(v0) || e0.data == in_a::ExprData::ArrayInitExact(v0),
            rest@ == all.subrange(k as int, n as int),
            store.wf(),
            env.wf(store.model()),
            st.wf(),
            m0 == old(store).model(),
            refines(m0, store.model()),
            m1.len() <= store.model().len(),
            in_range(m1, elem_tp.ty()),
            env.expected_ret == old(env).expected_ret,
            env.scopes@.len() == old(env).scopes@.len(),
            env.scopes@.drop_last() == old(env).scopes@.drop_last(),
            spec_binds_more(old(env).scopes@, env.scopes@),
            spec_reported_after(*old(ctx), *ctx),
            exprs@.len() == k,
            tps@.len() == k,
            forall|i: int| 0 <= i < k ==> in_range(store.model(), (#[trigger] tps@[i]).ty()),
            owed <==> exists|names: Set<Seq<char>>|
                #[trigger] spec_simple_expr(*st, names, e0) && names.subset_of(spec_bound_names(old(env).scopes@)),
            owed ==> spec_simple_exprs(*st, nm, all),
            owed ==> nm.subset_of(spec_bound_names(env.scopes@)),
        decreases n - k,
    {
        let item = rest.remove(0);
        assert(item == all[k as int]);
        assert(decreases_to!(e0 => item)) by {
            assert(decreases_to!(e0 => e0.data));
            if e0.data is Tuple {
                assert(decreases_to!(e0.data => e0.data->Tuple_0));
            } else {
                assert(decreases_to!(e0.data => e0.data->ArrayInitExact_0));
            }
            assert(decreases_to!(v0 => v0@));
            assert(decreases_to!(v0@ => v0@[k as int]));
        }
        let ghost m2 = store.model();
        let tp = if is_tuple {
            env.fresh_uvar(store, &pos)
        } else {
            proof {
                lemma_in_range_mono(m1, m2, elem_tp.ty());
            }
            elem_tp.clone()
        };
        let ghost m3 = store.model();
        let ghost sk = env.scopes@;
        proof {
            if owed {
                assert(spec_simple_expr(*st, nm, all[k as int]));
            }
        }
        let e = check_expr(ctx, st, env, store, item, &tp, if is_tuple { exp_mut } else { false })?;
        proof {
            if owed {
                lemma_subset_grows(nm, sk, env.scopes@);
            }
        }
        proof {
            assert forall|i: int| 0 <= i < tps@.len() implies in_range(store.model(), (#[trigger] tps@[i]).ty()) by {
                lemma_in_range_mono(m2, store.model(), tps@[i].ty());
            }
            lemma_in_range_mono(m3, store.model(), tp.ty());
        }
        exprs.push(e);
        tps.push(tp);
        k = k + 1;
        assert(rest@ =~= all.subrange(k as int, n as int));
    }
    let ghost m4 = store.model();
    proof {
        lemma_in_range_mono(m0, m4, exp_tp.ty());
        lemma_in_range_mono(m1, m4, elem_tp.ty());
    }
    if is_tuple {
        let tp = Type::tuple(tps);
        proof {
            assert(tp.ty()->Tuple_0 =~= tys(tps@));
            assert forall|i: int| 0 <= i < tys(tps@).len() implies crate::tp::model::all_uvars(#[trigger] tys(tps@)[i], crate::tp::model::pred_below(m4.len())) by {
                assert(tys(tps@)[i] == tps@[i].ty());
            }
        }
        let _ = expect(ctx, store, &pos, exp_tp, &tp);
        proof {
            env.lemma_wf_mono(m4, store.model());
        }
        Ok(out_a::Expr::Tuple(exprs, tp))
    } else {
        let arr_tp = Type::array(size, elem_tp.clone());
        let _ = expect(ctx, store, &pos, exp_tp, &arr_tp);
        proof {
            env.lemma_wf_mono(m4, store.model());
        }
        Ok(out_a::Expr::ArrayInitExact(exprs, elem_tp))
    }
}

/// Checks the arguments of a call against the types of the parameters, in order, from
/// `first` on; missing and surplus arguments are reported with their numbers.
fn check_args(
    ctx: &mut Context,
    st: &SymTable,
    env: &mut Env,
    store: &mut UVarStore,
    parent: Ghost<in_a::ExprNode>,
    args: Vec<in_a::ExprNode>,
    params: &Vec<Type>,
    first: usize,
    pos: &Position,
    out: &mut Vec<out_a::Expr>,
) -> (res: Result<(), InternalError>)
    requires
        old(store).wf(),
        old(env).wf(old(store).model()),
        st.wf(),
        first <= params@.len(),
        forall|i: int| 0 <= i < params@.len() ==> in_range(old(store).model(), (#[trigger] params@[i]).ty()),
        forall|i: int| 0 <= i < args@.len() ==> decreases_to!(parent@ => #[trigger] args@[i]),
    ensures
        final(store).wf(),
        final(env).wf(final(store).model()),
        refines(old(store).model(), final(store).model()),
        spec_reported_after(*old(ctx), *final(ctx)),
        res is Ok ==> final(env).expected_ret == old(env).expected_ret && final(env).scopes@.len() == old(env).scopes@.len()
            && final(env).scopes@.drop_last() == old(env).scopes@.drop_last(),
        res is Ok ==> spec_binds_more(old(env).scopes@, final(env).scopes@),
        forall|names: Set<Seq<char>>|
            #[trigger] spec_simple_exprs(*st, names, args@) && names.subset_of(spec_bound_names(old(env).scopes@)) ==> res is Ok,
        res is Ok ==> final(out)@.len() == old(out)@.len() + (params@.len() - first),
        res is Ok ==> final(out)@.subrange(0, old(out)@.len() as int) == old(out)@,
        res is Ok ==> forall|k: int|
            first + args@.len() <= k < params@.len() ==> #[trigger] final(out)@[old(out)@.len() + k - first]
                == out_a::Expr::Error,
        res is Ok ==> final(ctx).diagnostics@.len() >= old(ctx).diagnostics@.len() + (params@.len() - first - args@.len()),
        res is Ok ==> final(ctx).diagnostics@.len() >= old(ctx).diagnostics@.len() + (args@.len() - (params@.len() - first)),
    decreases parent@, 0nat,
{
    let ghost m0 = store.model();
    let ghost all = args@;
    let ghost owed = exists|names: Set<Seq<char>>|
        #[trigger] spec_simple_exprs(*st, names, args@) && names.subset_of(spec_bound_names(old(env).scopes@));
    let ghost nm: Set<Seq<char>> = if owed {
        choose|names: Set<Seq<char>>|
            #[trigger] spec_simple_exprs(*st, names, args@) && names.subset_of(spec_bound_names(old(env).scopes@))
    } else {
        Set::empty()
    };
    let mut rest = args;
    let mut id: usize = first;
    let n = params.len();
    let mut i: usize = first;
    while i < n
        invariant
            first <= i <= n,
            n == params@.len(),
            store.wf(),
            env.wf(store.model()),
            st.wf(),
            m0 == old(store).model(),
            refines(m0, store.model()),
            forall|k: int| 0 <= k < params@.len() ==> in_range(m0, (#[trigger] params@[k]).ty()),
            forall|k: int| 0 <= k < rest@.len() ==> decreases_to!(parent@ => #[trigger] rest@[k]),
            env.expected_ret == old(env).expected_ret,
            env.scopes@.len() == old(env).scopes@.len(),
            env.scopes@.drop_last() == old(env).scopes@.drop_last(),
            spec_binds_more(old(env).scopes@, env.scopes@),
            spec_reported_after(*old(ctx), *ctx),
            all == args@,
            rest@.len() == if i - first <= all.len() { all.len() - (i - first) } else { 0 },
            ctx.diagnostics@.len() >= old(ctx).diagnostics@.len() + (if i - first > all.len() { i - first - all.len() } else { 0 }),
            out@.len() == old(out)@.len() + (i - first),
            out@.subrange(0, old(out)@.len() as int) == old(out)@,
            forall|k: int| first + all.len() <= k < i ==> #[trigger] out@[old(out)@.len() + k - first] == out_a::Expr::Error,
            owed <==> exists|names: Set<Seq<char>>|
                #[trigger] spec_simple_exprs(*st, names, args@) && names.subset_of(spec_bound_names(old(env).scopes@)),
            owed ==> spec_simple_exprs(*st, nm, rest@),
            owed ==> nm.subset_of(spec_bound_names(env.scopes@)),
        decreases n - i,
    {
        if id < usize::MAX {
            id = id + 1;
        }
        proof {
            lemma_in_range_mono(m0, store.model(), params@[i as int].ty());
        }
        if rest.len() > 0 {
            let ghost r0 = rest@;
            let e = rest.remove(0);
            assert(e == r0[0]);
            assert forall|k: int| 0 <= k < rest@.len() implies decreases_to!(parent@ => #[trigger] rest@[k]) by {
                assert(rest@[k] == r0[k + 1]);
            }
            proof {
                if owed {
                    assert(spec_simple_expr(*st, nm, r0[0]));
                    assert forall|k: int| 0 <= k < rest@.len() implies spec_simple_expr(*st, nm, #[trigger] rest@[k]) by {
                        assert(rest@[k] == r0[k + 1]);
                    }
                }
            }
            let ghost sk = env.scopes@;
            let c = check_expr(ctx, st, env, store, e, &params[i], false)?;
            proof {
                if owed {
                    lemma_subset_grows(nm, sk, env.scopes@);
                }
            }
            out.push(c);
        } else {
            ctx.report(error::missing_argument(pos, id, &params[i], store));
            out.push(out_a::Expr::Error);
        }
        i = i + 1;
    }
    let ghost after = rest@.len();
    let ghost d0 = ctx.diagnostics@.len();
    while rest.len() > 0
        invariant
            spec_reported_after(*old(ctx), *ctx),
            rest@.len() <= after,
            ctx.diagnostics@.len() >= d0 + (after - rest@.len()),
        decreases rest.len(),
    {
        if id < usize::MAX {
            id = id + 1;
        }
        let e = rest.remove(0);
        ctx.report(error::unexpected_argument(id, &e.pos));
    }
    Ok(())
}

/// Calls of a function value.
fn check_call(
    ctx: &mut Context,
    st: &SymTable,
    env: &mut Env,
    store: &mut UVarStore,
    expr: in_a::ExprNode,
    exp_tp: &Type,
    exp_mut: bool,
) -> (res: Result<out_a::Expr, InternalError>)
    requires
        old(store).wf(),
        old(env).wf(old(store).model()),
        in_range(old(store).model(), exp_tp.ty()),
        st.wf(),
        expr.data is FunCall,
    ensures
        final(store).wf(),
        spec_checked(*old(ctx), *final(ctx), old(store).model(), final(store).model(), *old(env), *final(env), expr, *exp_tp, res),
        spec_owed(*st, *old(env), expr, res),
    decreases expr, 1nat,
{
    let ghost e0 = expr;
    let ghost m0 = store.model();
    let pos = expr.pos.clone();
    let (f, args) = match expr.data {
        in_a::ExprData::FunCall(f, args) => (f, args),
        _ => {
            return Err(InternalError::msg("not a call"));
        },
    };
    let fn_tp = env.fresh_uvar(store, &pos);
    let ghost m1 = store.model();
    let f_pos = f.pos.clone();
    assert(forall|names: Set<Seq<char>>| #[trigger] spec_simple_expr(*st, names, e0) ==> spec_simple_expr(*st, names, *f));
    assert(forall|names: Set<Seq<char>>|
        #[trigger] spec_simple_expr(*st, names, e0) ==> spec_simple_exprs(*st, names, args@));
    let ch_f = check_expr(ctx, st, env, store, *f, &fn_tp, false)?;
    let ghost m2 = store.model();
    proof {
        lemma_in_range_mono(m1, m2, fn_tp.ty());
        crate::tp::lemma_view_measure(m2, fn_tp.ty());
    }
    let (args_tp, ret) = match fn_tp.view(store) {
        TypeView::Fun(a, r) => (a, r),
        _ => {
            ctx.report(error::not_a_function(&f_pos));
            proof {
                env.lemma_wf_mono(m2, store.model());
            }
            return Ok(out_a::Expr::Error);
        },
    };
    let ghost callee = Ty::Fun(tys(args_tp@), Box::new(ret.ty()));
    proof {
        assert forall|i: int| 0 <= i < args_tp@.len() implies in_range(m2, (#[trigger] args_tp@[i]).ty()) by {
            assert(crate::tp::model::top(m2, fn_tp.ty())->Fun_0[i] == args_tp@[i].ty());
        }
        assert(top(m2, fn_tp.ty()) == callee) by {
            assert(top(m2, fn_tp.ty())->Fun_0 =~= tys(args_tp@));
        }
        crate::tp::model::lemma_zonk_is_clean(m2, fn_tp.ty());
        crate::tp::model::lemma_zonk_clean(m2, callee);
        assert(zonk(m2, fn_tp.ty()) == zonk(m2, callee));
        assert forall|i: int| 0 <= i < args@.len() implies decreases_to!(e0 => #[trigger] args@[i]) by {
            assert(decreases_to!(e0 => e0.data));
            assert(decreases_to!(e0.data => e0.data->FunCall_1));
            assert(decreases_to!(e0.data->FunCall_1 => e0.data->FunCall_1@));
        }
    }
    let mut out_args: Vec<out_a::Expr> = Vec::new();
    check_args(ctx, st, env, store, Ghost(e0), args, &args_tp, 0, &pos, &mut out_args)?;
    let ghost m3 = store.model();
    proof {
        lemma_in_range_mono(m0, m3, exp_tp.ty());
        lemma_in_range_mono(m2, m3, ret.ty());
    }
    let _ = expect(ctx, store, &pos, exp_tp, &ret);
    proof {
        env.lemma_wf_mono(m3, store.model());
        assert(in_range(m2, callee));
        assert(zonk(store.model(), fn_tp.ty()) == zonk(store.model(), callee));
    }
    Ok(out_a::Expr::FunCall { expr: Box::new(ch_f), args: out_args, args_tp, ret_tp: *ret })
}

/// What looking up the method `name` of the named type `tvar` gives: nothing where the table
/// knows no such type or declares one of its methods twice, else the method, if it has one.
pub open spec fn spec_method_of(st: SymTable, tvar: TVar, name: Seq<char>) -> Option<Option<NodeID>> {
    if !st.tvar_map.has(tvar.id) || !st.tvar_map.value(tvar.id).methods.keys_unique() {
        None
    } else if st.tvar_map.value(tvar.id).methods.has(name) {
        Some(Some(st.tvar_map.value(tvar.id).methods.value(name)))
    } else {
        Some(None)
    }
}

/// The method lookup on a type already looked through once: named types have methods, a type
/// not known yet has none, other types have no lookup.
pub open spec fn spec_method_on(st: SymTable, t: Ty, name: Seq<char>) -> Option<Option<NodeID>> {
    match t {
        Ty::Var(tv) => spec_method_of(st, tv, name),
        Ty::NamedVar(tv, _) => spec_method_of(st, tv, name),
        Ty::Unknown => Some(None),
        Ty::UVar(_) => Some(None),
        Ty::NumericUVar(_) => Some(None),
        _ => None,
    }
}

/// The method lookup of a call on a value of type `t`, or on a pointer to such a value.
pub open spec fn spec_lookup_method(st: SymTable, m: Seq<Entry>, t: Ty, name: Seq<char>) -> Option<Option<NodeID>> {
    match top(m, t) {
        Ty::Ptr(inner) => spec_method_on(st, top(m, *inner), name),
        Ty::MutPtr(inner) => spec_method_on(st, top(m, *inner), name),
        other => spec_method_on(st, other, name),
    }
}

/// The method of the given name of a named type.
fn method_of(ctx: &mut Context, st: &SymTable, tvar: TVar, name: &String, pos: &Position) -> (res: Result<Option<NodeID>, InternalError>)
    requires
        st.wf(),
    ensures
        spec_reported_after(*old(ctx), *final(ctx)),
        match spec_method_of(*st, tvar, name@) {
            None => res is Err,
            Some(r) => res matches Ok(x) && x == r,
        },
        !(res matches Ok(None)) ==> final(ctx).diagnostics@ == old(ctx).diagnostics@,
        res matches Ok(None) ==> final(ctx).diagnostics@ == old(ctx).diagnostics@.push(final(ctx).diagnostics@.last())
            && spec_labelled_error(final(ctx).diagnostics@.last(), *pos, "unbound method `"@ + name@ + "`"@),
{
    if !st.tvar_map.contains_key(tvar.id) {
        return Err(InternalError::msg("unknown type"));
    }
    let type_info = st.find_type_info(tvar);
    if !type_info.methods.keys_are_unique() {
        return Err(InternalError::msg("a method is declared twice"));
    }
    match type_info.methods.get(name.as_str()) {
        Some(m) => Ok(Some(*m)),
        None => {
            ctx.report(error::unbound_method(pos, name));
            Ok(None)
        },
    }
}

/// The method a call on a value of type `tp`, or on a pointer to one, names.
fn lookup_method(ctx: &mut Context, st: &SymTable, store: &UVarStore, tp: &Type, name: &String, pos: &Position) -> (res: Result<Option<NodeID>, InternalError>)
    requires
        st.wf(),
        store.wf(),
        in_range(store.model(), tp.ty()),
    ensures
        spec_reported_after(*old(ctx), *final(ctx)),
        match spec_lookup_method(*st, store.model(), tp.ty(), name@) {
            None => res is Err,
            Some(r) => res matches Ok(x) && x == r,
        },
        res matches Ok(Some(_)) ==> final(ctx).diagnostics@ == old(ctx).diagnostics@,
{
    proof {
        crate::tp::lemma_view_measure(store.model(), tp.ty());
    }
    match tp.view(store) {
        TypeView::Var(tv) | TypeView::NamedVar(tv, _) => method_of(ctx, st, tv, name, pos),
        TypeView::Unknown => Ok(None),
        TypeView::UVar(_) | TypeView::NumericUVar(_) => {
            ctx.report(error::unsolved_uvar(pos, tp, store));
            Ok(None)
        },
        TypeView::Ptr(inner) | TypeView::MutPtr(inner) => {
            proof {
                crate::tp::lemma_view_measure(store.model(), inner.ty());
            }
            match inner.view(store) {
                TypeView::Var(tv) | TypeView::NamedVar(tv, _) => method_of(ctx, st, tv, name, pos),
                TypeView::Unknown => Ok(None),
                TypeView::UVar(_) | TypeView::NumericUVar(_) => {
                    ctx.report(error::unsolved_uvar(pos, &inner, store));
                    Ok(None)
                },
                _ => Err(InternalError::msg("methods of this type are not supported")),
            }
        },
        _ => Err(InternalError::msg("methods of this type are not supported")),
    }
}

/// Method calls: the method is looked up by the type of the object, which is its first argument.
fn check_method_call(
    ctx: &mut Context,
    st: &SymTable,
    env: &mut Env,
    store: &mut UVarStore,
    expr: in_a::ExprNode,
    exp_tp: &Type,
    exp_mut: bool,
) -> (res: Result<out_a::Expr, InternalError>)
    requires
        old(store).wf(),
        old(env).wf(old(store).model()),
        in_range(old(store).model(), exp_tp.ty()),
        st.wf(),
        expr.data is MethodCall,
    ensures
        final(store).wf(),
        spec_checked(*old(ctx), *final(ctx), old(store).model(), final(store).model(), *old(env), *final(env), expr, *exp_tp, res),
    decreases expr, 1nat,
{
    let ghost e0 = expr;
    let ghost m0 = store.model();
    let pos = expr.pos.clone();
    let (obj, method_name, es) = match expr.data {
        in_a::ExprData::MethodCall(o, n, es) => (o, n, es),
        _ => {
            return Err(InternalError::msg("not a method call"));
        },
    };
    let tp = env.fresh_uvar(store, &pos);
    let ghost m1 = store.model();
    let obj_e = check_expr(ctx, st, env, store, *obj, &tp, false)?;
    let ghost m2 = store.model();
    proof {
        lemma_in_range_mono(m1, m2, tp.ty());
    }
    let method_id = match lookup_method(ctx, st, store, &tp, &method_name, &pos)? {
        Some(m) => m,
        None => {
            proof {
                env.lemma_wf_mono(m2, store.model());
            }
            return Ok(out_a::Expr::Error);
        },
    };
    if !st.node_map.contains_key(method_id.id) {
        return Err(InternalError::msg("unknown symbol"));
    }
    let method_info = st.find_sym_info(method_id);
    let (args_tp, ret_tp) = match &method_info.kind {
        SymKind::Func { args, ret, .. } => (crate::tp::clone_vec(args), ret.clone()),
        _ => {
            return Err(InternalError::msg("a method is not a function"));
        },
    };
    let sig_tp = Type::fun(crate::tp::clone_vec(&args_tp), ret_tp.clone());
    if !sig_tp.is_within(store) {
        return Err(InternalError::msg("a signature holds unknown variables"));
    }
    proof {
        assert(sig_tp.ty()->Fun_0 =~= tys(args_tp@));
        assert forall|i: int| 0 <= i < args_tp@.len() implies in_range(m2, (#[trigger] args_tp@[i]).ty()) by {
            assert(tys(args_tp@)[i] == args_tp@[i].ty());
        }
    }
    if args_tp.len() == 0 {
        ctx.report(error::unexpected_argument(1, &pos));
        proof {
            env.lemma_wf_mono(m2, store.model());
        }
        return Ok(out_a::Expr::Error);
    }
    let _ = expect(ctx, store, &pos, &args_tp[0], &tp);
    let ghost m3 = store.model();
    proof {
        env.lemma_wf_mono(m2, m3);
        assert forall|i: int| 0 <= i < args_tp@.len() implies in_range(m3, (#[trigger] args_tp@[i]).ty()) by {
            lemma_in_range_mono(m2, m3, args_tp@[i].ty());
        }
        assert forall|i: int| 0 <= i < es@.len() implies decreases_to!(e0 => #[trigger] es@[i]) by {
            assert(decreases_to!(e0 => e0.data));
            assert(decreases_to!(e0.data => e0.data->MethodCall_2));
            assert(decreases_to!(e0.data->MethodCall_2 => e0.data->MethodCall_2@));
        }
    }
    let mut args: Vec<out_a::Expr> = Vec::new();
    args.push(obj_e);
    check_args(ctx, st, env, store, Ghost(e0), es, &args_tp, 1, &pos, &mut args)?;
    let ghost m4 = store.model();
    proof {
        lemma_in_range_mono(m0, m4, exp_tp.ty());
        lemma_in_range_mono(m2, m4, ret_tp.ty());
    }
    let _ = expect(ctx, store, &pos, exp_tp, &ret_tp);
    proof {
        env.lemma_wf_mono(m4, store.model());
    }
    let callee = out_a::Expr::GlobalVar { id: method_id, tp: sig_tp };
    Ok(out_a::Expr::FunCall { expr: Box::new(callee), args, args_tp, ret_tp })
}

/// Field access: the field is looked up by the type of the object.
fn check_field(
    ctx: &mut Context,
    st: &SymTable,
    env: &mut Env,
    store: &mut UVarStore,
    expr: in_a::ExprNode,
    exp_tp: &Type,
    exp_mut: bool,
) -> (res: Result<out_a::Expr, InternalError>)
    requires
        old(store).wf(),
        old(env).wf(old(store).model()),
        in_range(old(store).model(), exp_tp.ty()),
        st.wf(),
        expr.data is FieldAccess,
    ensures
        final(store).wf(),
        spec_checked(*old(ctx), *final(ctx), old(store).model(), final(store).model(), *old(env), *final(env), expr, *exp_tp, res),
    decreases expr, 1nat,
{
    let ghost m0 = store.model();
    let pos = expr.pos.clone();
    let (obj, field_name) = match expr.data {
        in_a::ExprData::FieldAccess(o, n) => (o, n),
        _ => {
            return Err(InternalError::msg("not a field access"));
        },
    };
    let tp = env.fresh_uvar(store, &pos);
    let ghost m1 = store.model();
    let obj_e = check_expr(ctx, st, env, store, *obj, &tp, exp_mut)?;
    let ghost m2 = store.model();
    proof {
        lemma_in_range_mono(m1, m2, tp.ty());
        crate::tp::lemma_view_measure(m2, tp.ty());
    }
    let tvar = match tp.view(store) {
        TypeView::NamedVar(tv, _) | TypeView::Var(tv) => tv,
        _ => {
            ctx.report(error::no_such_field(&field_name, &tp, &pos, store));
            proof {
                env.lemma_wf_mono(m2, store.model());
            }
            return Ok(out_a::Expr::Error);
        },
    };
    if !st.tvar_map.contains_key(tvar.id) {
        return Err(InternalError::msg("unknown type"));
    }
    let type_info = st.find_type_info(tvar);
    let (field_id, field_tp) = match &type_info.kind {
        TypeKind::Struct { fields, .. } => match if fields.keys_are_unique() {
            fields.get(field_name.as_str())
        } else {
            None
        } {
            Some(f) => (f.0, f.1.clone()),
            None => {
                ctx.report(error::no_such_field(&field_name, &tp, &pos, store));
                proof {
                    env.lemma_wf_mono(m2, store.model());
                }
                return Ok(out_a::Expr::Error);
            },
        },
        _ => {
            ctx.report(error::no_such_field(&field_name, &tp, &pos, store));
            proof {
                env.lemma_wf_mono(m2, store.model());
            }
            return Ok(out_a::Expr::Error);
        },
    };
    if !field_tp.is_within(store) {
        return Err(InternalError::msg("a field type holds unknown variables"));
    }
    proof {
        lemma_in_range_mono(m0, m2, exp_tp.ty());
    }
    let _ = expect(ctx, store, &pos, exp_tp, &field_tp);
    proof {
        env.lemma_wf_mono(m2, store.model());
    }
    Ok(out_a::Expr::FieldAccess { object: Box::new(obj_e), field_id, struct_tp: tp, field_tp })
}

proof fn lemma_items_decrease(e0: in_a::ExprNode, items0: NameMap<in_a::ExprNode>, n: Seq<char>)
    requires
        e0.data matches in_a::ExprData::StructCons(_, it) && it == items0,
        items0.has(n),
    ensures
        decreases_to!(e0 => items0.value(n)),
{
    let j = choose|j: int| 0 <= j < items0.entries@.len() && #[trigger] items0.entries@[j].0@ == n;
    assert(decreases_to!(e0 => e0.data));
    assert(decreases_to!(e0.data => e0.data->StructCons_1));
    assert(decreases_to!(items0 => items0.entries));
    assert(decreases_to!(items0.entries => items0.entries@));
    assert(decreases_to!(items0.entries@ => items0.entries@[j]));
    assert(decreases_to!(items0.entries@[j] => items0.entries@[j].1));
}

/// Struct values: every field is checked against its type, missing and unknown fields reported.
fn check_struct_cons(
    ctx: &mut Context,
    st: &SymTable,
    env: &mut Env,
    store: &mut UVarStore,
    expr: in_a::ExprNode,
    exp_tp: &Type,
    exp_mut: bool,
) -> (res: Result<out_a::Expr, InternalError>)
    requires
        old(store).wf(),
        old(env).wf(old(store).model()),
        in_range(old(store).model(), exp_tp.ty()),
        st.wf(),
        expr.data is StructCons,
    ensures
        final(store).wf(),
        spec_checked(*old(ctx), *final(ctx), old(store).model(), final(store).model(), *old(env), *final(env), expr, *exp_tp, res),
        spec_owed(*st, *old(env), expr, res),
    decreases expr, 1nat,
{
    let ghost e0 = expr;
    let ghost m0 = store.model();
    let pos = expr.pos.clone();
    let (id, items) = match expr.data {
        in_a::ExprData::StructCons(id, items) => (id, items),
        _ => {
            return Err(InternalError::msg("not a struct value"));
        },
    };
    let ghost items0 = items;
    let ghost owed = exists|names: Set<Seq<char>>|
        #[trigger] spec_simple_expr(*st, names, e0) && names.subset_of(spec_bound_names(old(env).scopes@));
    let ghost nm: Set<Seq<char>> = if owed {
        choose|names: Set<Seq<char>>|
            #[trigger] spec_simple_expr(*st, names, e0) && names.subset_of(spec_bound_names(old(env).scopes@))
    } else {
        Set::empty()
    };
    proof {
        if owed {
            assert(spec_simple_expr(*st, nm, e0));
            assert(spec_plain_struct(*st, id));
            assert(items0.keys_unique());
            assert forall|x: Seq<char>| #[trigger] items0.has(x) implies spec_simple_expr(*st, nm, items0.value(x)) by {
                let k = choose|k: int| 0 <= k < items0.entries@.len() && #[trigger] items0.entries@[k].0@ == x;
                items0.lemma_value(k);
            }
        }
    }
    if !st.node_map.contains_key(id.id) {
        return Err(InternalError::msg("unknown symbol"));
    }
    let sym_info = st.find_sym_info(id);
    let tvar = match &sym_info.kind {
        SymKind::Struct(tv) => *tv,
        _ => {
            return Err(InternalError::msg("not a struct"));
        },
    };
    if !st.tvar_map.contains_key(tvar.id) {
        return Err(InternalError::msg("unknown type"));
    }
    let type_info = st.find_type_info(tvar);
    let (params, fields) = match &type_info.kind {
        TypeKind::Struct { params, fields } => (params, fields),
        _ => {
            return Err(InternalError::msg("not a struct"));
        },
    };
    if !items.keys_are_unique() {
        return Err(InternalError::msg("a field is given twice"));
    }
    proof {
        if owed {
            assert(forall|k: int|
                0 <= k < fields.entries@.len() ==> in_range(Seq::<Entry>::empty(), #[trigger] fields.entries@[k].1.1.ty()));
        }
    }
    let subst = fresh_subst(env, store, params, &pos);
    let ghost m1 = store.model();
    let mut initializers: NameMap<(usize, out_a::Expr)> = NameMap::new();
    let mut items = items;
    let n = fields.entries.len();
    let mut i: usize = 0;
    while i < n
        invariant
            n == fields.entries@.len(),
            i <= n,
            store.wf(),
            env.wf(store.model()),
            st.wf(),
            m0 == old(store).model(),
            refines(m0, store.model()),
            m1.len() <= store.model().len(),
            forall|k: int| 0 <= k < subst@.len() ==> in_range(m1, (#[trigger] subst@[k]).1.ty()),
            e0 == expr,
            e0.data matches in_a::ExprData::StructCons(_, it) && it == items0,
            items.keys_unique(),
            initializers.keys_unique(),
            forall|x: Seq<char>| #[trigger] items.has(x) ==> items0.has(x) && items.value(x) == items0.value(x),
            env.expected_ret == old(env).expected_ret,
            env.scopes@.len() == old(env).scopes@.len(),
            env.scopes@.drop_last() == old(env).scopes@.drop_last(),
            spec_binds_more(old(env).scopes@, env.scopes@),
            spec_reported_after(*old(ctx), *ctx),
            owed <==> exists|names: Set<Seq<char>>|
                #[trigger] spec_simple_expr(*st, names, e0) && names.subset_of(spec_bound_names(old(env).scopes@)),
            owed ==> nm.subset_of(spec_bound_names(env.scopes@)),
            owed ==> forall|x: Seq<char>| #[trigger] items0.has(x) ==> spec_simple_expr(*st, nm, items0.value(x)),
            owed ==> forall|k: int|
                0 <= k < fields.entries@.len() ==> in_range(Seq::<Entry>::empty(), #[trigger] fields.entries@[k].1.1.ty()),
        decreases n - i,
    {
        let f_name = &fields.entries[i].0;
        let (idx, f_type) = &fields.entries[i].1;
        proof {
            if owed {
                assert(in_range(Seq::<Entry>::empty(), fields.entries@[i as int].1.1.ty()));
                lemma_in_range_mono(Seq::<Entry>::empty(), store.model(), f_type.ty());
            }
        }
        if !f_type.is_within(store) {
            return Err(InternalError::msg("a field type holds unknown variables"));
        }
        let ghost m2 = store.model();
        proof {
            assert forall|k: int| 0 <= k < subst@.len() implies in_range(m2, (#[trigger] subst@[k]).1.ty()) by {
                lemma_in_range_mono(m1, m2, subst@[k].1.ty());
            }
            lemma_subst_in_range(m2, f_type.ty(), subst@);
        }
        let tp = f_type.substitute(store, &subst);
        let ghost before = items;
        match items.remove(f_name.as_str()) {
            Some(e) => {
                proof {
                    lemma_items_decrease(e0, items0, f_name@);
                }
                let ghost sk = env.scopes@;
                let c = check_expr(ctx, st, env, store, e, &tp, false)?;
                proof {
                    if owed {
                        lemma_subset_grows(nm, sk, env.scopes@);
                    }
                }
                let _ = initializers.insert(f_name.clone(), (*idx, c));
            },
            None => {
                ctx.report(error::missing_field(&pos, f_name, &tp, store));
            },
        }
        i = i + 1;
    }
    while items.entries.len() > 0
        invariant
            store.wf(),
            env.wf(store.model()),
            st.wf(),
            m0 == old(store).model(),
            refines(m0, store.model()),
            e0 == expr,
            e0.data matches in_a::ExprData::StructCons(_, it) && it == items0,
            items.keys_unique(),
            forall|x: Seq<char>| #[trigger] items.has(x) ==> items0.has(x) && items.value(x) == items0.value(x),
            env.expected_ret == old(env).expected_ret,
            env.scopes@.len() == old(env).scopes@.len(),
            env.scopes@.drop_last() == old(env).scopes@.drop_last(),
            spec_binds_more(old(env).scopes@, env.scopes@),
            spec_reported_after(*old(ctx), *ctx),
            owed <==> exists|names: Set<Seq<char>>|
                #[trigger] spec_simple_expr(*st, names, e0) && names.subset_of(spec_bound_names(old(env).scopes@)),
            owed ==> nm.subset_of(spec_bound_names(env.scopes@)),
            owed ==> forall|x: Seq<char>| #[trigger] items0.has(x) ==> spec_simple_expr(*st, nm, items0.value(x)),
            m1.len() <= store.model().len(),
        decreases items.entries@.len(),
    {
        let ghost before = items;
        proof {
            items.lemma_value(0);
            lemma_items_decrease(e0, items0, items.entries@[0].0@);
        }
        let (f_name, e) = items.entries.remove(0);
        proof {
            assert forall|a: int, b: int| 0 <= a < b < items.entries@.len() implies #[trigger] items.entries@[a].0@
                != #[trigger] items.entries@[b].0@ by {
                assert(before.entries@[a + 1].0@ != before.entries@[b + 1].0@);
            }
            assert forall|x: Seq<char>| #[trigger] items.has(x) implies items0.has(x) && items.value(x) == items0.value(x) by {
                let k = choose|k: int| 0 <= k < items.entries@.len() && #[trigger] items.entries@[k].0@ == x;
                items.lemma_value(k);
                before.lemma_value(k + 1);
            }
        }
        let tp = env.fresh_uvar(store, &pos);
        let ghost sk = env.scopes@;
        let _ = check_expr(ctx, st, env, store, e, &tp, false)?;
        proof {
            if owed {
                lemma_subset_grows(nm, sk, env.scopes@);
            }
        }
        ctx.report(error::unbound_field(&pos, &f_name));
    }
    let ghost mut tps_v: Seq<Type> = Seq::empty();
    let tp = if params.len() == 0 {
        Type::named_var(tvar, type_info.name.as_str(), &pos)
    } else {
        let tps = subst_types(&subst);
        proof {
            tps_v = tps@;
        }
        Type::type_app(tvar, type_info.name.as_str(), tps, &pos)
    };
    let tp = match tp {
        Ok(t) => t,
        Err(_) => {
            return Err(InternalError::msg("wrong number of type parameters"));
        },
    };
    proof {
        if params.len() > 0 {
            assert forall|k: int| 0 <= k < tp.ty()->TypeApp_2.len() implies crate::tp::model::all_uvars(
                #[trigger] tp.ty()->TypeApp_2[k],
                crate::tp::model::pred_below(store.model().len()),
            ) by {
                assert(tp.ty()->TypeApp_2[k] == tps_v[k].ty());
                lemma_in_range_mono(m1, store.model(), subst@[k].1.ty());
            }
        }
    }
    if !tp.is_within(store) {
        return Err(InternalError::msg("a struct type holds unknown variables"));
    }
    let ghost m3 = store.model();
    proof {
        lemma_in_range_mono(m0, m3, exp_tp.ty());
    }
    let _ = expect(ctx, store, &pos, exp_tp, &tp);
    proof {
        env.lemma_wf_mono(m3, store.model());
    }
    Ok(out_a::Expr::StructCons { id, initializers, tp })
}


/// The names of the arguments of `f`.
pub open spec fn spec_arg_names(f: in_a::Func) -> Set<Seq<char>> {
    Set::new(|n: Seq<char>| exists|i: int| 0 <= i < f.args@.len() && #[trigger] f.args@[i].name@ == n)
}

/// A function whose signature holds no unification variable and whose body is simple over
/// its arguments.
pub open spec fn spec_func_simple(st: SymTable, f: in_a::Func) -> bool {
    &&& in_range(Seq::<Entry>::empty(), f.ret_type.ty())
    &&& forall|i: int| 0 <= i < f.args@.len() ==> in_range(Seq::<Entry>::empty(), #[trigger] f.args@[i].tp.ty())
    &&& spec_simple_expr(st, spec_arg_names(f), f.body)
}

/// A checked function keeps the name, id, arguments and return type of the one it was
/// made from.
pub open spec fn spec_func_kept(f0: in_a::Func, f: out_a::Func) -> bool {
    &&& f.id == f0.id
    &&& f.name == f0.name
    &&& f.ret_type == f0.ret_type
    &&& f.args@.len() == f0.args@.len()
    &&& forall|i: int|
        0 <= i < f.args@.len() ==> (#[trigger] f.args@[i]).0@ == f0.args@[i].name@ && f.args@[i].1
            == f0.args@[i].is_mut && f.args@[i].2.ty() == f0.args@[i].tp.ty()
}

/// The body of a checked function has a type its return type coerces from (its body is
/// not a cast, whose type is that of what it casts).
pub open spec fn spec_func_well_typed(m: Seq<Entry>, f0: in_a::Func, f: out_a::Func) -> bool {
    &&& in_range(m, f.ret_type.ty())
    &&& !(f0.body.data is Cast) ==> spec_well_typed(m, f.ret_type.ty(), f.body)
}

/// A later store that refines an earlier one keeps what was well typed in it.
pub proof fn lemma_well_typed_refines(m1: Seq<Entry>, m2: Seq<Entry>, exp: Ty, e: out_a::Expr)
    requires
        refines(m1, m2),
        in_range(m1, exp),
        spec_well_typed(m1, exp, e),
    ensures
        in_range(m2, exp),
        spec_well_typed(m2, exp, e),
{
    lemma_in_range_mono(m1, m2, exp);
    match spec_expr_type(e) {
        Some(t) => {
            lemma_in_range_mono(m1, m2, t);
            assert(coerces(zonk(m2, exp), zonk(m2, t)));
        },
        None => {},
    }
}

/// Checks a function's body against its return type, its arguments bound in the first
/// scope, then checks that every unification variable made for it was determined.
///
/// The error comes where the checker does, and where the return type or an argument's
/// type holds a unification variable the store does not know.
pub fn tr_func(ctx: &mut Context, st: &SymTable, store: &mut UVarStore, func: in_a::Func) -> (res: Result<out_a::Func, InternalError>)
    requires
        old(store).wf(),
        st.wf(),
    ensures
        final(store).wf(),
        refines(old(store).model(), final(store).model()),
        spec_reported_after(*old(ctx), *final(ctx)),
        !in_range(old(store).model(), func.ret_type.ty()) ==> res is Err,
        (exists|i: int| 0 <= i < func.args@.len() && !in_range(old(store).model(), #[trigger] func.args@[i].tp.ty())) ==> res is Err,
        in_range(old(store).model(), func.ret_type.ty()) && (forall|i: int|
            0 <= i < func.args@.len() ==> in_range(old(store).model(), #[trigger] func.args@[i].tp.ty()))
            && spec_simple_expr(*st, spec_arg_names(func), func.body) ==> res is Ok,
        res matches Ok(f) ==> spec_func_kept(func, f),
        res matches Ok(f) ==> (final(ctx).diagnostics@.len() == old(ctx).diagnostics@.len()
            ==> spec_func_well_typed(final(store).model(), func, f)),
{
    let ghost m0 = store.model();
    let ghost c0 = *ctx;
    if !func.ret_type.is_within(store) {
        return Err(InternalError::msg("a return type holds unknown variables"));
    }
    let mut env = Env::new(func.ret_type.clone());
    assert(env.wf(m0));
    let mut args: Vec<(String, bool, Type)> = Vec::new();
    let n = func.args.len();
    let mut i: usize = 0;
    while i < n
        invariant
            n == func.args@.len(),
            i <= n,
            store.model() == m0,
            store.wf(),
            env.wf(m0),
            env.expected_ret.ty() == func.ret_type.ty(),
            env.scopes@.len() == 1,
            args@.len() == i,
            forall|j: int| 0 <= j < i ==> in_range(m0, #[trigger] func.args@[j].tp.ty()),
            forall|j: int|
                0 <= j < i ==> (#[trigger] args@[j]).0@ == func.args@[j].name@ && args@[j].1 == func.args@[j].is_mut
                    && args@[j].2.ty() == func.args@[j].tp.ty(),
            forall|j: int| 0 <= j < i ==> spec_lookup(env.scopes@, #[trigger] func.args@[j].name@) is Some,
        decreases n - i,
    {
        let arg = &func.args[i];
        if !arg.tp.is_within(store) {
            return Err(InternalError::msg("an argument type holds unknown variables"));
        }
        env.add_var(arg.name.clone(), arg.is_mut, arg.tp.clone(), Ghost(m0));
        args.push((arg.name.clone(), arg.is_mut, arg.tp.clone()));
        i = i + 1;
    }
    let ret_type = func.ret_type.clone();
    assert forall|x: Seq<char>| spec_arg_names(func).contains(x) implies spec_bound_names(env.scopes@).contains(x) by {
        let j = choose|j: int| 0 <= j < func.args@.len() && #[trigger] func.args@[j].name@ == x;
        assert(spec_lookup(env.scopes@, func.args@[j].name@) is Some);
    }
    let body = check_expr(ctx, st, &mut env, store, func.body, &ret_type, false)?;
    let ghost m1 = store.model();
    let ghost c1 = *ctx;
    env.finish(ctx, store);
    proof {
        lemma_in_range_mono(m0, m1, ret_type.ty());
        if ctx.diagnostics@.len() == c0.diagnostics@.len() {
            assert(c1.diagnostics@.len() == c0.diagnostics@.len());
            if !(func.body.data is Cast) {
                lemma_well_typed_refines(m1, store.model(), ret_type.ty(), body);
            } else {
                lemma_in_range_mono(m1, store.model(), ret_type.ty());
            }
        }
    }
    Ok(out_a::Func { id: func.id, name: func.name, args, ret_type: func.ret_type, body })
}

/// Checks every function of the program, all against one store of unification variables.
///
/// When no mistake was reported, the body of every function has a type its return type
/// coerces from (unless that body is a cast), in the store that comes out.
pub fn translate(ctx: &mut Context, prog: in_a::Program) -> (res: Result<out_a::Program, InternalError>)
    requires
        prog.sym_table.wf(),
    ensures
        spec_reported_after(*old(ctx), *final(ctx)),
        res matches Ok(p) ==> {
            &&& p.store.wf()
            &&& p.sym_table == prog.sym_table
            &&& p.functions@.len() == prog.functions@.len()
            &&& forall|i: int| 0 <= i < p.functions@.len() ==> spec_func_kept(prog.functions@[i], #[trigger] p.functions@[i])
        },
        res matches Ok(p) ==> (final(ctx).diagnostics@.len() == old(ctx).diagnostics@.len() ==> forall|i: int|
            0 <= i < p.functions@.len() ==> spec_func_well_typed(p.store.model(), prog.functions@[i], #[trigger] p.functions@[i])),
        (forall|i: int| 0 <= i < prog.functions@.len() ==> spec_func_simple(prog.sym_table, #[trigger] prog.functions@[i]))
            ==> res is Ok,
{
    let ghost c0 = *ctx;
    let ghost fs = prog.functions@;
    let sym_table = prog.sym_table;
    let mut funcs = prog.functions;
    let mut store = UVarStore::new();
    let mut functions: Vec<out_a::Func> = Vec::new();
    let n = funcs.len();
    let mut i: usize = 0;
    assert(funcs@.subrange(0, n as int) =~= fs);
    while i < n
        invariant
            n == fs.len(),
            i <= n,
            funcs@ == fs.subrange(i as int, n as int),
            functions@.len() == i,
            store.wf(),
            sym_table.wf(),
            c0 == *old(ctx),
            spec_reported_after(c0, *ctx),
            fs == prog.functions@,
            sym_table == prog.sym_table,
            forall|j: int| 0 <= j < i ==> spec_func_kept(fs[j], #[trigger] functions@[j]),
            ctx.diagnostics@.len() == c0.diagnostics@.len() ==> forall|j: int|
                0 <= j < i ==> spec_func_well_typed(store.model(), fs[j], #[trigger] functions@[j]),
        decreases n - i,
    {
        let ghost m1 = store.model();
        let ghost c1 = *ctx;
        let ghost prev = functions@;
        let f = funcs.remove(0);
        assert(f == fs[i as int]);
        assert(funcs@ =~= fs.subrange(i + 1, n as int));
        proof {
            if spec_func_simple(sym_table, f) {
                lemma_in_range_mono(Seq::<Entry>::empty(), store.model(), f.ret_type.ty());
                assert forall|j: int| 0 <= j < f.args@.len() implies in_range(store.model(), #[trigger] f.args@[j].tp.ty()) by {
                    lemma_in_range_mono(Seq::<Entry>::empty(), store.model(), f.args@[j].tp.ty());
                }
            }
        }
        let res = tr_func(ctx, &sym_table, &mut store, f);
        proof {
            lemma_reported_trans(c0, c1, *ctx);
        }
        let out = match res {
            Ok(out) => out,
            Err(e) => {
                return Err(e);
            },
        };
        functions.push(out);
        proof {
            if ctx.diagnostics@.len() == c0.diagnostics@.len() {
                assert(c1.diagnostics@.len() == c0.diagnostics@.len());
                assert forall|j: int| 0 <= j < i + 1 implies spec_func_well_typed(
                    store.model(),
                    fs[j],
                    #[trigger] functions@[j],
                ) by {
                    if j < i {
                        assert(functions@[j] == prev[j]);
                        if !(fs[j].body.data is Cast) {
                            lemma_well_typed_refines(m1, store.model(), prev[j].ret_type.ty(), prev[j].body);
                        } else {
                            lemma_in_range_mono(m1, store.model(), prev[j].ret_type.ty());
                        }
                    }
                }
            }
            assert forall|j: int| 0 <= j < i + 1 implies spec_func_kept(fs[j], #[trigger] functions@[j]) by {
                if j < i {
                    assert(functions@[j] == prev[j]);
                }
            }
        }
        i = i + 1;
    }
    Ok(out_a::Program { functions, sym_table, store })
}

} // verus!
