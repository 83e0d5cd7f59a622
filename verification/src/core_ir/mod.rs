//! Lowering the middle representation to the core one: tuples are built in stack slots,
//! field reads become loads, and calls carry their machine signatures.
use vstd::prelude::*;

pub mod ast;
pub mod env;

use crate::common::maps::IdMap;
use crate::core_ir::ast as out_a;
use crate::core_ir::env::Env;
use crate::error::InternalError;
use crate::mir::ast as in_a;
use crate::symtable::layout::{Layout, LayoutKind, Type as LType};

verus! {

/// The core machine type of a machine type of the layouts.
pub open spec fn spec_core_type(t: LType) -> out_a::Type {
    match t {
        LType::Tu8 => out_a::Type::Tu8,
        LType::Tu16 => out_a::Type::Tu16,
        LType::Tu32 => out_a::Type::Tu32,
        LType::Tu64 => out_a::Type::Tu64,
        LType::Tusize => out_a::Type::Tusize,
        LType::Ti8 => out_a::Type::Ti8,
        LType::Ti16 => out_a::Type::Ti16,
        LType::Ti32 => out_a::Type::Ti32,
        LType::Ti64 => out_a::Type::Ti64,
        LType::Tisize => out_a::Type::Tisize,
    }
}

pub fn core_type(t: LType) -> (res: out_a::Type)
    ensures
        res == spec_core_type(t),
{
    match t {
        LType::Tu8 => out_a::Type::Tu8,
        LType::Tu16 => out_a::Type::Tu16,
        LType::Tu32 => out_a::Type::Tu32,
        LType::Tu64 => out_a::Type::Tu64,
        LType::Tusize => out_a::Type::Tusize,
        LType::Ti8 => out_a::Type::Ti8,
        LType::Ti16 => out_a::Type::Ti16,
        LType::Ti32 => out_a::Type::Ti32,
        LType::Ti64 => out_a::Type::Ti64,
        LType::Tisize => out_a::Type::Tisize,
    }
}

/// The core types of a list of machine types.
pub open spec fn spec_core_types(ts: Seq<LType>) -> Seq<out_a::Type> {
    Seq::new(ts.len(), |i: int| spec_core_type(ts[i]))
}

/// The call signature for arguments and a result of the given layouts, all of which must
/// be machine types.
pub open spec fn spec_sig(args_tp: Seq<Layout>, ret_tp: Layout, sig: out_a::FnSig) -> bool {
    &&& ret_tp.kind matches LayoutKind::Primitive(r) && sig.returns@ == seq![spec_core_type(r)]
    &&& sig.params@.len() == args_tp.len()
    &&& forall|i: int|
        0 <= i < args_tp.len() ==> ((#[trigger] args_tp[i]).kind matches LayoutKind::Primitive(p) && sig.params@[i]
            == spec_core_type(p))
}

/// The core expression `o` does what `e` does: a tuple is built field by field in a fresh
/// stack slot, at the offsets of its layout; a field read of a machine type is a load at
/// the field's offset; a call of a function with machine-typed arguments and result carries
/// its signature. Strings, assignments, references, dereferences, characters, arrays,
/// loops, indexing, and calls or field reads of values that live on the stack have no
/// lowering yet.
pub open spec fn spec_core_lowered(e: in_a::Expr, o: out_a::Expr) -> bool
    decreases e,
{
    match e {
        in_a::Expr::NumLit(n, t) => o == out_a::Expr::Value(out_a::Value::Const(n, spec_core_type(t))),
        in_a::Expr::Tuple { fields, layout } => {
            &&& layout.kind is Struct
            &&& fields@.len() <= layout.kind->Struct_0@.len()
            &&& o matches out_a::Expr::Block { exprs, last_expr }
            &&& exprs@.len() == fields@.len() + 1
            &&& exprs@[0] matches out_a::Expr::Let { id, e1 }
            &&& *e1 == (out_a::Expr::StackSlot { size: layout.size })
            &&& *last_expr == out_a::Expr::Value(out_a::Value::Var(out_a::VarRef::Local(id)))
            &&& forall|i: int|
                0 <= i < fields@.len() ==> ((#[trigger] exprs@[i + 1]) matches out_a::Expr::Store { ptr, val, offset } && *ptr
                    == out_a::Expr::Value(out_a::Value::Var(out_a::VarRef::Local(id))) && offset
                    == layout.kind->Struct_0@[i].1 && spec_core_lowered(fields@[i], *val))
        },
        in_a::Expr::FunCall { expr, args, args_tp, ret_tp } => o matches out_a::Expr::FunCall { expr: f, args: a, sig }
            && spec_core_lowered(*expr, *f) && spec_core_lowered_seq(args@, a@) && spec_sig(args_tp@, ret_tp, sig),
        in_a::Expr::FieldAccess { object, field_id, struct_layout, .. } => {
            &&& struct_layout.kind is Struct
            &&& field_id < struct_layout.kind->Struct_0@.len()
            &&& struct_layout.kind->Struct_0@[field_id as int].0.kind is Primitive
            &&& o matches out_a::Expr::Load { tp, ptr, offset }
            &&& tp == spec_core_type(struct_layout.kind->Struct_0@[field_id as int].0.kind->Primitive_0)
            &&& offset == struct_layout.kind->Struct_0@[field_id as int].1
            &&& spec_core_lowered(*object, *ptr)
        },
        in_a::Expr::Block { exprs, last_expr, .. } => o matches out_a::Expr::Block { exprs: fs, last_expr: l }
            && spec_core_lowered_seq(exprs@, fs@) && spec_core_lowered(*last_expr, *l),
        in_a::Expr::Return { expr, .. } => o matches out_a::Expr::Return { expr: f } && spec_core_lowered(*expr, *f),
        in_a::Expr::Var(in_a::VarRef::Local(_)) => o matches out_a::Expr::Value(out_a::Value::Var(out_a::VarRef::Local(_))),
        in_a::Expr::Var(in_a::VarRef::Global(id)) => o == out_a::Expr::Value(out_a::Value::Var(out_a::VarRef::Global(id))),
        in_a::Expr::Let { expr, .. } => o matches out_a::Expr::Let { e1, .. } && spec_core_lowered(*expr, *e1),
        in_a::Expr::Builtin(name, args) => o matches out_a::Expr::Builtin { name: n, args: a } && n@ == name@
            && spec_core_lowered_seq(args@, a@),
        _ => false,
    }
}

/// Lowered lists correspond element by element.
pub open spec fn spec_core_lowered_seq(es: Seq<in_a::Expr>, os: Seq<out_a::Expr>) -> bool
    decreases es,
{
    &&& es.len() == os.len()
    &&& forall|i: int| 0 <= i < es.len() ==> spec_core_lowered(#[trigger] es[i], os[i])
}

/// Whether lowering `e` succeeds, given the variables of the middle representation that
/// have numbers (`bound`), and which have numbers after it: every construct has a lowering
/// (a tuple with a struct layout that has a field for each of its fields; a call with
/// machine-typed arguments and result; a read of a machine-typed field that exists), and
/// every local variable read has a number. A `let` numbers its variable.
pub open spec fn spec_core_ok(e: in_a::Expr, bound: Set<usize>) -> Option<Set<usize>>
    decreases e,
{
    match e {
        in_a::Expr::NumLit(..) => Some(bound),
        in_a::Expr::Tuple { fields, layout } => if layout.kind is Struct && fields@.len()
            <= layout.kind->Struct_0@.len() {
            spec_core_ok_seq(fields@, bound)
        } else {
            None
        },
        in_a::Expr::FunCall { expr, args, args_tp, ret_tp } => match spec_core_ok(*expr, bound) {
            Some(b1) => if ret_tp.kind is Primitive && forall|i: int|
                0 <= i < args_tp@.len() ==> (#[trigger] args_tp@[i]).kind is Primitive {
                spec_core_ok_seq(args@, b1)
            } else {
                None
            },
            None => None,
        },
        in_a::Expr::FieldAccess { object, field_id, struct_layout, .. } => if struct_layout.kind is Struct && field_id
            < struct_layout.kind->Struct_0@.len() && struct_layout.kind->Struct_0@[field_id as int].0.kind is Primitive {
            spec_core_ok(*object, bound)
        } else {
            None
        },
        in_a::Expr::Block { exprs, last_expr, .. } => match spec_core_ok_seq(exprs@, bound) {
            Some(b1) => spec_core_ok(*last_expr, b1),
            None => None,
        },
        in_a::Expr::Return { expr, .. } => spec_core_ok(*expr, bound),
        in_a::Expr::Var(in_a::VarRef::Local(v)) => if bound.contains(v.0) {
            Some(bound)
        } else {
            None
        },
        in_a::Expr::Var(in_a::VarRef::Global(_)) => Some(bound),
        in_a::Expr::Let { id, expr, .. } => match spec_core_ok(*expr, bound) {
            Some(b1) => Some(b1.insert(id.0)),
            None => None,
        },
        in_a::Expr::Builtin(_, args) => spec_core_ok_seq(args@, bound),
        _ => None,
    }
}

/// Whether lowering a list of expressions in order succeeds.
pub open spec fn spec_core_ok_seq(es: Seq<in_a::Expr>, bound: Set<usize>) -> Option<Set<usize>>
    decreases es,
{
    if es.len() == 0 {
        Some(bound)
    } else {
        match spec_core_ok_seq(es.subrange(0, es.len() - 1), bound) {
            Some(b1) => spec_core_ok(es[es.len() - 1], b1),
            None => None,
        }
    }
}

/// How many fresh variable numbers lowering `e` takes: one for each tuple and each `let`.
pub open spec fn spec_fresh_count(e: in_a::Expr) -> nat
    decreases e,
{
    match e {
        in_a::Expr::Tuple { fields, .. } => 1 + spec_fresh_count_seq(fields@),
        in_a::Expr::FunCall { expr, args, .. } => spec_fresh_count(*expr) + spec_fresh_count_seq(args@),
        in_a::Expr::FieldAccess { object, .. } => spec_fresh_count(*object),
        in_a::Expr::Block { exprs, last_expr, .. } => spec_fresh_count_seq(exprs@) + spec_fresh_count(*last_expr),
        in_a::Expr::Return { expr, .. } => spec_fresh_count(*expr),
        in_a::Expr::Let { expr, .. } => spec_fresh_count(*expr) + 1,
        in_a::Expr::Builtin(_, args) => spec_fresh_count_seq(args@),
        _ => 0,
    }
}

pub open spec fn spec_fresh_count_seq(es: Seq<in_a::Expr>) -> nat
    decreases es,
{
    if es.len() == 0 {
        0
    } else {
        spec_fresh_count_seq(es.subrange(0, es.len() - 1)) + spec_fresh_count(es[es.len() - 1])
    }
}

/// A prefix of a list that lowers lowers too, and takes no more numbers.
pub proof fn lemma_ok_seq_prefix(es: Seq<in_a::Expr>, j: int, bound: Set<usize>)
    requires
        0 <= j <= es.len(),
    ensures
        spec_fresh_count_seq(es.subrange(0, j)) <= spec_fresh_count_seq(es),
        spec_core_ok_seq(es, bound) is Some ==> spec_core_ok_seq(es.subrange(0, j), bound) is Some,
    decreases es.len() - j,
{
    if j == es.len() {
        assert(es.subrange(0, j) =~= es);
    } else {
        let es1 = es.subrange(0, es.len() - 1);
        assert(es1.subrange(0, j) =~= es.subrange(0, j));
        lemma_ok_seq_prefix(es1, j, bound);
    }
}

/// The core types of a list of machine types.
pub fn core_types(ts: &Vec<LType>) -> (res: Vec<out_a::Type>)
    ensures
        res@ == spec_core_types(ts@),
{
    let mut res: Vec<out_a::Type> = Vec::new();
    let n = ts.len();
    let mut i: usize = 0;
    while i < n
        invariant
            n == ts@.len(),
            i <= n,
            res@.len() == i,
            forall|j: int| 0 <= j < i ==> res@[j] == spec_core_type(ts@[j]),
        decreases n - i,
    {
        res.push(core_type(ts[i]));
        i = i + 1;
    }
    assert(res@ =~= spec_core_types(ts@));
    res
}

/// The call signature for arguments and a result of the given layouts; the error comes
/// for a layout that is not a machine type.
pub fn make_sig(args_tp: Vec<Layout>, ret_tp: Layout) -> (res: Result<out_a::FnSig, InternalError>)
    ensures
        res matches Ok(sig) ==> spec_sig(args_tp@, ret_tp, sig),
        res is Ok <==> (ret_tp.kind is Primitive && forall|i: int|
            0 <= i < args_tp@.len() ==> (#[trigger] args_tp@[i]).kind is Primitive),
{
    let mut params: Vec<out_a::Type> = Vec::new();
    let mut rets: Vec<out_a::Type> = Vec::new();
    match ret_tp.kind {
        LayoutKind::Primitive(tp) => rets.push(core_type(tp)),
        _ => {
            return Err(InternalError::msg("results that live on the stack are not passed yet"));
        },
    }
    let n = args_tp.len();
    let mut i: usize = 0;
    while i < n
        invariant
            n == args_tp@.len(),
            i <= n,
            params@.len() == i,
            forall|j: int|
                0 <= j < i ==> ((#[trigger] args_tp@[j]).kind matches LayoutKind::Primitive(p) && params@[j] == spec_core_type(p)),
        decreases n - i,
    {
        match args_tp[i].kind {
            LayoutKind::Primitive(tp) => params.push(core_type(tp)),
            _ => {
                return Err(InternalError::msg("arguments that live on the stack are not passed yet"));
            },
        }
        i = i + 1;
    }
    assert(rets@ =~= seq![rets@[0]]);
    Ok(out_a::FnSig { params, returns: rets })
}

/// Lowers a list of expressions, in order.
pub fn tr_exprs(env: &mut Env, es: Vec<in_a::Expr>) -> (res: Result<Vec<out_a::Expr>, InternalError>)
    requires
        old(env).wf(),
    ensures
        final(env).wf(),
        res matches Ok(os) ==> spec_core_lowered_seq(es@, os@),
        res is Ok ==> spec_core_ok_seq(es@, old(env).map.as_map().dom()) == Some(final(env).map.as_map().dom()),
        res is Ok ==> final(env).var_gen.0 == old(env).var_gen.0 + spec_fresh_count_seq(es@),
        (spec_core_ok_seq(es@, old(env).map.as_map().dom()) is Some && old(env).var_gen.0 + spec_fresh_count_seq(es@)
            <= usize::MAX) ==> res is Ok,
    decreases es,
{
    let ghost b0 = env.map.as_map().dom();
    let ghost vg0 = env.var_gen.0;
    let ghost all = es@;
    let ghost v0 = es;
    let mut rest = es;
    let mut out: Vec<out_a::Expr> = Vec::new();
    let n = rest.len();
    let mut k: usize = 0;
    while rest.len() > 0
        invariant
            k <= n,
            n == all.len(),
            v0@ == all,
            v0 == es,
            rest@ == all.subrange(k as int, n as int),
            env.wf(),
            out@.len() == k,
            forall|i: int| 0 <= i < k ==> spec_core_lowered(#[trigger] all[i], out@[i]),
            b0 == old(env).map.as_map().dom(),
            vg0 == old(env).var_gen.0,
            spec_core_ok_seq(all.subrange(0, k as int), b0) == Some(env.map.as_map().dom()),
            env.var_gen.0 == vg0 + spec_fresh_count_seq(all.subrange(0, k as int)),
        decreases n - k,
    {
        let item = rest.remove(0);
        assert(item == all[k as int]);
        assert(decreases_to!(v0 => item)) by {
            assert(decreases_to!(v0 => v0@));
            assert(decreases_to!(v0@ => v0@[k as int]));
        }
        let ghost es1 = all.subrange(0, k + 1);
        assert(es1.subrange(0, k as int) =~= all.subrange(0, k as int));
        assert(es1[k as int] == item);
        let t = match tr_expr(env, item) {
            Ok(t) => t,
            Err(err) => {
                proof {
                    lemma_ok_seq_prefix(all, k + 1, b0);
                }
                return Err(err);
            },
        };
        out.push(t);
        k = k + 1;
        assert(rest@ =~= all.subrange(k as int, n as int));
    }
    assert(all.subrange(0, n as int) =~= all);
    Ok(out)
}

/// Lowers an expression. The error comes for what has no lowering yet, for a variable
/// with no number, and when the numbers run out.
pub fn tr_expr(env: &mut Env, e: in_a::Expr) -> (res: Result<out_a::Expr, InternalError>)
    requires
        old(env).wf(),
    ensures
        final(env).wf(),
        res matches Ok(o) ==> spec_core_lowered(e, o),
        res is Ok ==> spec_core_ok(e, old(env).map.as_map().dom()) == Some(final(env).map.as_map().dom()),
        res is Ok ==> final(env).var_gen.0 == old(env).var_gen.0 + spec_fresh_count(e),
        (spec_core_ok(e, old(env).map.as_map().dom()) is Some && old(env).var_gen.0 + spec_fresh_count(e) <= usize::MAX)
            ==> res is Ok,
    decreases e,
{
    let ghost e0 = e;
    let ghost b0 = env.map.as_map().dom();
    let ghost vg0 = env.var_gen.0;
    match e {
        in_a::Expr::NumLit(n, tp) => Ok(out_a::Expr::Value(out_a::Value::Const(n, core_type(tp)))),
        in_a::Expr::Tuple { fields, layout } => {
            let items = match &layout.kind {
                LayoutKind::Struct(items) => items,
                _ => {
                    return Err(InternalError::msg("a tuple whose layout is not a struct"));
                },
            };
            if fields.len() > items.len() {
                return Err(InternalError::msg("a tuple does not fit its layout"));
            }
            if !env.has_fresh() {
                return Err(InternalError::msg("out of variable numbers"));
            }
            let id = env.fresh_var();
            let mut exprs: Vec<out_a::Expr> = Vec::new();
            exprs.push(out_a::Expr::Let { id, e1: Box::new(out_a::Expr::StackSlot { size: layout.size }) });
            let ghost all = fields@;
            let ghost v0 = fields;
            let mut rest = fields;
            let n = rest.len();
            let mut k: usize = 0;
            while rest.len() > 0
                invariant
                    k <= n,
                    n == all.len(),
                    n <= items@.len(),
                    v0@ == all,
                    e0 == (in_a::Expr::Tuple { fields: v0, layout }),
                    e0 == e,
                    layout.kind == LayoutKind::Struct(*items),
                    rest@ == all.subrange(k as int, n as int),
                    env.wf(),
                    b0 == old(env).map.as_map().dom(),
                    vg0 == old(env).var_gen.0,
                    spec_core_ok_seq(all.subrange(0, k as int), b0) == Some(env.map.as_map().dom()),
                    env.var_gen.0 == vg0 + 1 + spec_fresh_count_seq(all.subrange(0, k as int)),
                    exprs@.len() == k + 1,
                    exprs@[0] == (out_a::Expr::Let { id, e1: Box::new(out_a::Expr::StackSlot { size: layout.size }) }),
                    forall|i: int|
                        0 <= i < k ==> ((#[trigger] exprs@[i + 1]) matches out_a::Expr::Store { ptr, val, offset } && *ptr
                            == out_a::Expr::Value(out_a::Value::Var(out_a::VarRef::Local(id))) && offset == items@[i].1
                            && spec_core_lowered(all[i], *val)),
                decreases n - k,
            {
                let item = rest.remove(0);
                assert(item == all[k as int]);
                assert(decreases_to!(e0 => item)) by {
                    assert(e0->Tuple_fields == v0);
                    assert(decreases_to!(e0 => e0->Tuple_fields));
                    assert(decreases_to!(v0 => v0@));
                    assert(decreases_to!(v0@ => v0@[k as int]));
                }
                let ghost es1 = all.subrange(0, k + 1);
                assert(es1.subrange(0, k as int) =~= all.subrange(0, k as int));
                assert(es1[k as int] == item);
                let val = match tr_expr(env, item) {
                    Ok(v) => v,
                    Err(err) => {
                        proof {
                            lemma_ok_seq_prefix(all, k + 1, b0);
                        }
                        return Err(err);
                    },
                };
                let offset = items[k].1;
                let ghost before = exprs@;
                exprs.push(
                    out_a::Expr::Store {
                        ptr: Box::new(out_a::Expr::Value(out_a::Value::Var(out_a::VarRef::Local(id)))),
                        val: Box::new(val),
                        offset,
                    },
                );
                proof {
                    assert forall|i: int| 0 <= i < k + 1 implies ((#[trigger] exprs@[i + 1]) matches out_a::Expr::Store {
                        ptr,
                        val,
                        offset,
                    } && *ptr == out_a::Expr::Value(out_a::Value::Var(out_a::VarRef::Local(id))) && offset == items@[i].1
                        && spec_core_lowered(all[i], *val)) by {
                        if i < k {
                            assert(exprs@[i + 1] == before[i + 1]);
                        }
                    }
                }
                k = k + 1;
                assert(rest@ =~= all.subrange(k as int, n as int));
            }
            assert(all.subrange(0, n as int) =~= all);
            Ok(
                out_a::Expr::Block {
                    exprs,
                    last_expr: Box::new(out_a::Expr::Value(out_a::Value::Var(out_a::VarRef::Local(id)))),
                },
            )
        },
        in_a::Expr::FunCall { expr, args, args_tp, ret_tp } => {
            let f = tr_expr(env, *expr)?;
            match ret_tp.kind {
                LayoutKind::Primitive(_) => {},
                _ => {
                    return Err(InternalError::msg("results that live on the stack are not returned yet"));
                },
            }
            let a = tr_exprs(env, args)?;
            let sig = make_sig(args_tp, ret_tp)?;
            Ok(out_a::Expr::FunCall { expr: Box::new(f), args: a, sig })
        },
        in_a::Expr::FieldAccess { object, field_id, struct_layout, .. } => {
            let items = match &struct_layout.kind {
                LayoutKind::Struct(items) => items,
                _ => {
                    return Err(InternalError::msg("a field read of a value that is not a struct"));
                },
            };
            if field_id >= items.len() {
                return Err(InternalError::msg("a field index is out of range"));
            }
            let tp = match &items[field_id].0.kind {
                LayoutKind::Primitive(tp) => *tp,
                _ => {
                    return Err(InternalError::msg("fields that live on the stack are not read yet"));
                },
            };
            let offset = items[field_id].1;
            let ptr = tr_expr(env, *object)?;
            Ok(out_a::Expr::Load { tp: core_type(tp), ptr: Box::new(ptr), offset })
        },
        in_a::Expr::Block { exprs, last_expr, .. } => {
            let fs = tr_exprs(env, exprs)?;
            let l = tr_expr(env, *last_expr)?;
            Ok(out_a::Expr::Block { exprs: fs, last_expr: Box::new(l) })
        },
        in_a::Expr::Return { expr, .. } => {
            let f = tr_expr(env, *expr)?;
            Ok(out_a::Expr::Return { expr: Box::new(f) })
        },
        in_a::Expr::Var(in_a::VarRef::Local(v)) => {
            if !env.map.contains_key(v.get()) {
                return Err(InternalError::msg("a variable has no number"));
            }
            let id = env.lookup(v);
            Ok(out_a::Expr::Value(out_a::Value::Var(out_a::VarRef::Local(id))))
        },
        in_a::Expr::Var(in_a::VarRef::Global(id)) => Ok(out_a::Expr::Value(out_a::Value::Var(out_a::VarRef::Global(id)))),
        in_a::Expr::Let { id, expr, .. } => {
            let e1 = tr_expr(env, *expr)?;
            if !env.has_fresh() {
                return Err(InternalError::msg("out of variable numbers"));
            }
            let nid = env.add_var(id);
            Ok(out_a::Expr::Let { id: nid, e1: Box::new(e1) })
        },
        in_a::Expr::Builtin(name, exprs) => {
            let args = tr_exprs(env, exprs)?;
            Ok(out_a::Expr::Builtin { name, args })
        },
        _ => Err(InternalError::msg("this expression has no lowering yet")),
    }
}

/// The core function `g` is `f`: its arguments numbered from one in order, in core
/// types, the same results, and the body lowered.
pub open spec fn spec_func_core(f: in_a::Func, g: out_a::Func) -> bool {
    &&& g.id == f.id
    &&& g.args@.len() == f.args@.len()
    &&& forall|i: int|
        0 <= i < g.args@.len() ==> #[trigger] g.args@[i] == (out_a::VarID((i + 1) as usize), spec_core_type(f.args@[i].2))
    &&& g.returns@ == spec_core_types(f.returns@)
    &&& spec_core_lowered(f.body, g.body)
}

/// The variables of the arguments of a function.
pub open spec fn spec_arg_ids(args: Seq<(in_a::VarID, bool, LType)>) -> Set<usize> {
    Set::new(|k: usize| exists|j: int| 0 <= j < args.len() && (#[trigger] args[j]).0.0 == k)
}

/// Lowering a function succeeds: its body lowers with its arguments numbered, and the
/// numbers do not run out.
pub open spec fn spec_func_core_ok(f: in_a::Func) -> bool {
    &&& spec_core_ok(f.body, spec_arg_ids(f.args@)) is Some
    &&& f.args@.len() + spec_fresh_count(f.body) <= usize::MAX
}

/// Lowers a function; the error comes where its body's lowering does.
pub fn tr_func(f: in_a::Func) -> (res: Result<out_a::Func, InternalError>)
    ensures
        res matches Ok(g) ==> spec_func_core(f, g),
        res is Ok <==> spec_func_core_ok(f),
{
    let mut args: Vec<(out_a::VarID, out_a::Type)> = Vec::new();
    let mut env = Env::new();
    let n = f.args.len();
    let mut i: usize = 0;
    while i < n
        invariant
            n == f.args@.len(),
            i <= n,
            env.wf(),
            env.var_gen.0 == i,
            args@.len() == i,
            forall|j: int|
                0 <= j < i ==> #[trigger] args@[j] == (out_a::VarID((j + 1) as usize), spec_core_type(f.args@[j].2)),
            forall|k: usize|
                #[trigger] env.map.as_map().dom().contains(k) <==> exists|j: int| 0 <= j < i && (#[trigger] f.args@[j]).0.0 == k,
        decreases n - i,
    {
        let ghost before = env.map.as_map();
        let id = env.add_var(f.args[i].0);
        args.push((id, core_type(f.args[i].2)));
        proof {
            assert forall|k: usize| #[trigger] env.map.as_map().dom().contains(k) <==> exists|j: int|
                0 <= j < i + 1 && (#[trigger] f.args@[j]).0.0 == k by {
                if k == f.args@[i as int].0.0 {
                    assert(f.args@[i as int].0.0 == k);
                }
                if exists|j: int| 0 <= j < i + 1 && (#[trigger] f.args@[j]).0.0 == k {
                    let j = choose|j: int| 0 <= j < i + 1 && (#[trigger] f.args@[j]).0.0 == k;
                    if j < i {
                        assert(before.dom().contains(k));
                    }
                }
            }
        }
        i = i + 1;
    }
    assert(env.map.as_map().dom() =~= spec_arg_ids(f.args@));
    let rets = core_types(&f.returns);
    let body = tr_expr(&mut env, f.body)?;
    Ok(out_a::Func { id: f.id, args, returns: rets, body })
}

/// The core symbol `c` is the symbol `s` of the middle representation, in core types.
pub open spec fn spec_symbol_core(s: in_a::Symbol, c: out_a::Symbol) -> bool {
    &&& c.name@ == s.name@
    &&& c.is_extern == s.is_extern
    &&& c.mangle == s.mangle
    &&& c.kind matches out_a::SymKind::Func { args, returns: rs } && args@ == spec_core_types(s.kind->Func_args@)
        && rs@ == spec_core_types(s.kind->Func_returns@)
}

fn symbol_core(s: &in_a::Symbol) -> (res: out_a::Symbol)
    ensures
        spec_symbol_core(*s, res),
{
    let kind = match &s.kind {
        in_a::SymKind::Func { args, returns: rs } => out_a::SymKind::Func { args: core_types(args), returns: core_types(rs) },
    };
    out_a::Symbol { name: s.name.clone(), kind, is_extern: s.is_extern, mangle: s.mangle }
}

/// Lowers a program: each function, and each symbol, under the same id.
pub fn translate(prog: in_a::Program) -> (res: Result<out_a::Program, InternalError>)
    ensures
        res is Ok <==> forall|i: int| 0 <= i < prog.functions@.len() ==> spec_func_core_ok(#[trigger] prog.functions@[i]),
        res matches Ok(p) ==> {
            &&& p.functions@.len() == prog.functions@.len()
            &&& forall|i: int| 0 <= i < p.functions@.len() ==> spec_func_core(prog.functions@[i], #[trigger] p.functions@[i])
            &&& p.symbols.entries@.len() == prog.symbols.entries@.len()
            &&& forall|i: int|
                0 <= i < p.symbols.entries@.len() ==> (#[trigger] p.symbols.entries@[i]).0 == prog.symbols.entries@[i].0
                    && spec_symbol_core(prog.symbols.entries@[i].1, p.symbols.entries@[i].1)
        },
{
    let mut entries: Vec<(usize, out_a::Symbol)> = Vec::new();
    let m = prog.symbols.entries.len();
    let mut j: usize = 0;
    while j < m
        invariant
            m == prog.symbols.entries@.len(),
            j <= m,
            entries@.len() == j,
            forall|i: int|
                0 <= i < j ==> (#[trigger] entries@[i]).0 == prog.symbols.entries@[i].0 && spec_symbol_core(
                    prog.symbols.entries@[i].1,
                    entries@[i].1,
                ),
        decreases m - j,
    {
        let c = symbol_core(&prog.symbols.entries[j].1);
        entries.push((prog.symbols.entries[j].0, c));
        j = j + 1;
    }
    let symbols = IdMap { entries };
    let ghost fs = prog.functions@;
    let mut rest = prog.functions;
    let mut functions: Vec<out_a::Func> = Vec::new();
    let n = rest.len();
    let mut k: usize = 0;
    while rest.len() > 0
        invariant
            k <= n,
            n == fs.len(),
            rest@ == fs.subrange(k as int, n as int),
            functions@.len() == k,
            forall|i: int| 0 <= i < k ==> spec_func_core(fs[i], #[trigger] functions@[i]),
            forall|i: int| 0 <= i < k ==> spec_func_core_ok(#[trigger] fs[i]),
            fs == prog.functions@,
        decreases n - k,
    {
        let f = rest.remove(0);
        assert(f == fs[k as int]);
        let g = match tr_func(f) {
            Ok(g) => g,
            Err(err) => {
                assert(!spec_func_core_ok(prog.functions@[k as int]));
                return Err(err);
            },
        };
        functions.push(g);
        k = k + 1;
        assert(rest@ =~= fs.subrange(k as int, n as int));
    }
    Ok(out_a::Program { symbols, functions })
}

} // verus!
