//! Lowering checked functions to the middle representation: each type becomes its layout,
//! each local name a numbered variable.
use vstd::prelude::*;

pub mod ast;
pub mod env;

use crate::common::maps::IdMap;
use crate::error::InternalError;
use crate::mir::ast as out_a;
use crate::mir::env::{lemma_marks_kept_refl, lemma_marks_kept_trans, spec_marks_below, spec_marks_kept, Env};
use crate::symtable::layout::{Layout, LayoutKind, Type as LType};
use crate::symtable::{spec_is_layout, SymInfo, SymKind, SymTable};
use crate::tp::model::{in_range, top, Entry};
use crate::tp::uvar::UVarStore;
use crate::tp::Type;
use crate::typecheck::ast as in_a;

verus! {

broadcast use lemma_marks_kept_refl, lemma_marks_kept_trans;

/// `l` is the layout of values of `t`, whose top node is read through the store `m`.
pub open spec fn spec_layout_of(st: SymTable, m: Seq<Entry>, t: Type, l: Layout) -> bool {
    &&& in_range(m, t.ty())
    &&& spec_is_layout(st, top(m, t.ty()), l, st.tvar_map.entries@.len())
}

/// Values of `t` fit the machine type `p`.
pub open spec fn spec_prim_of(st: SymTable, m: Seq<Entry>, t: Type, p: LType) -> bool {
    exists|l: Layout| #[trigger] spec_layout_of(st, m, t, l) && l.kind == LayoutKind::Primitive(p)
}

/// The layout of values of `tp`.
pub fn layout_of(st: &SymTable, store: &UVarStore, tp: &Type) -> (res: Result<Layout, InternalError>)
    requires
        st.wf(),
        store.wf(),
    ensures
        res matches Ok(l) ==> spec_layout_of(*st, store.model(), *tp, l),
        res is Err ==> forall|l: Layout| !spec_layout_of(*st, store.model(), *tp, l),
{
    if !tp.is_within(store) {
        return Err(InternalError::msg("a type holds an unknown variable"));
    }
    let v = Type(tp.view(store));
    st.get_layout(&v)
}

/// The machine type of values of `tp`; the error comes for a type that does not fit one.
pub fn prim_of(st: &SymTable, store: &UVarStore, tp: &Type) -> (res: Result<LType, InternalError>)
    requires
        st.wf(),
        store.wf(),
    ensures
        res matches Ok(p) ==> spec_prim_of(*st, store.model(), *tp, p),
        res is Ok <==> spec_has_prim(*st, store.model(), *tp),
{
    let l = layout_of(st, store, tp)?;
    proof {
        assert forall|l2: Layout| #[trigger] spec_layout_of(*st, store.model(), *tp, l2) implies (l2.kind is Primitive
            <==> l.kind is Primitive) by {
            crate::symtable::lemma_layout_kind_unique(*st, top(store.model(), tp.ty()), l2, l, st.tvar_map.entries@.len());
        }
    }
    match l.kind {
        LayoutKind::Primitive(p) => Ok(p),
        _ => Err(InternalError::msg("a value does not fit a machine type")),
    }
}

/// The lowered expression `o` does what the checked expression `e` does: the same
/// structure, each type replaced by its layout, a struct value by a tuple of its fields in
/// the order of their indices, and a `return` of a value that lives on the stack by a
/// store to the return slot. Strings, references, dereferences, characters, arrays listed
/// element by element, indexing and `if` have no lowering yet.
pub open spec fn spec_lowered(st: SymTable, m: Seq<Entry>, e: in_a::Expr, o: out_a::Expr) -> bool
    decreases e,
{
    match e {
        in_a::Expr::NumLit(n, t) => o matches out_a::Expr::NumLit(k, p) && k == n && spec_prim_of(st, m, t, p),
        in_a::Expr::LocalVar { .. } => o matches out_a::Expr::Var(out_a::VarRef::Local(_)),
        in_a::Expr::GlobalVar { id, .. } => o == out_a::Expr::Var(out_a::VarRef::Global(id)),
        in_a::Expr::Tuple(es, t) => o matches out_a::Expr::Tuple { fields, layout } && spec_lowered_seq(st, m, es@, fields@)
            && spec_layout_of(st, m, t, layout) && layout.kind is Struct && es@.len() <= layout.kind->Struct_0@.len(),
        in_a::Expr::FunCall { expr, args, args_tp, ret_tp } => o matches out_a::Expr::FunCall {
            expr: f,
            args: a,
            args_tp: ls,
            ret_tp: r,
        } && spec_lowered(st, m, *expr, *f) && spec_lowered_seq(st, m, args@, a@) && ls@.len() == args_tp@.len()
            && (forall|i: int| 0 <= i < ls@.len() ==> spec_layout_of(st, m, args_tp@[i], #[trigger] ls@[i]))
            && spec_layout_of(st, m, ret_tp, r),
        in_a::Expr::FieldAccess { object, field_id, struct_tp, field_tp } => o matches out_a::Expr::FieldAccess {
            object: p,
            field_id: f,
            struct_layout: sl,
            element_layout: el,
        } && f == field_id && spec_lowered(st, m, *object, *p) && spec_layout_of(st, m, struct_tp, sl)
            && spec_layout_of(st, m, field_tp, el),
        in_a::Expr::Block { exprs, last_expr, block_tp } => o matches out_a::Expr::Block {
            exprs: fs,
            last_expr: l,
            block_tp: bl,
        } && spec_lowered_seq(st, m, exprs@, fs@) && spec_lowered(st, m, *last_expr, *l) && spec_layout_of(st, m, block_tp, bl),
        in_a::Expr::Return { expr, ret_tp } => {
            ||| o matches out_a::Expr::Return { expr: f, ret_tp: q } && spec_lowered(st, m, *expr, *f) && spec_prim_of(st, m, ret_tp, q)
            ||| o matches out_a::Expr::Assign { lval, rval, assign_tp } && *lval matches out_a::Expr::Var(
                out_a::VarRef::Local(_),
            ) && spec_lowered(st, m, *expr, *rval) && spec_layout_of(st, m, ret_tp, assign_tp) && assign_tp.kind is Struct
        },
        in_a::Expr::Let { tp, is_mut, expr, .. } => o matches out_a::Expr::Let { layout, is_mut: k, expr: f, .. } && k
            == is_mut && spec_layout_of(st, m, tp, layout) && spec_lowered(st, m, *expr, *f),
        in_a::Expr::StructCons { initializers, tp, .. } => o matches out_a::Expr::Tuple { fields, layout }
            && spec_layout_of(st, m, tp, layout) && spec_by_index(st, m, initializers.entries@, fields@),
        in_a::Expr::Assign { lval, rval, assign_tp } => o matches out_a::Expr::Assign { lval: l, rval: r, assign_tp: a }
            && spec_lowered(st, m, *lval, *l) && spec_lowered(st, m, *rval, *r) && spec_layout_of(st, m, assign_tp, a),
        in_a::Expr::ArrayInitRepeat(x, n, t) => o matches out_a::Expr::ArrayInitRepeat(f, k, l) && k == n && spec_lowered(
            st,
            m,
            *x,
            *f,
        ) && spec_layout_of(st, m, t, l),
        in_a::Expr::While { pred, block } => o matches out_a::Expr::While { pred: p, block: b } && spec_lowered(st, m, *pred, *p)
            && spec_lowered(st, m, *block, *b),
        in_a::Expr::Builtin(name, args) => o matches out_a::Expr::Builtin(n, a) && n@ == name@ && spec_lowered_seq(st, m, args@, a@),
        _ => false,
    }
}

/// Lowered lists correspond element by element.
pub open spec fn spec_lowered_seq(st: SymTable, m: Seq<Entry>, es: Seq<in_a::Expr>, os: Seq<out_a::Expr>) -> bool
    decreases es,
{
    &&& es.len() == os.len()
    &&& forall|i: int| 0 <= i < es.len() ==> spec_lowered(st, m, #[trigger] es[i], os[i])
}

/// The fields of a struct value, lowered and put in the order of their indices: the
/// indices are distinct and below the number of fields.
pub open spec fn spec_by_index(
    st: SymTable,
    m: Seq<Entry>,
    inits: Seq<(String, (usize, in_a::Expr))>,
    fields: Seq<out_a::Expr>,
) -> bool
    decreases inits,
{
    &&& fields.len() == inits.len()
    &&& forall|j: int| 0 <= j < inits.len() ==> (#[trigger] inits[j]).1.0 < inits.len()
    &&& forall|a: int, b: int| 0 <= a < b < inits.len() ==> (#[trigger] inits[a]).1.0 != (#[trigger] inits[b]).1.0
    &&& forall|j: int| 0 <= j < inits.len() ==> spec_lowered(st, m, (#[trigger] inits[j]).1.1, fields[inits[j].1.0 as int])
}

/// Values of `t` have a layout.
pub open spec fn spec_has_layout(st: SymTable, m: Seq<Entry>, t: Type) -> bool {
    exists|l: Layout| #[trigger] spec_layout_of(st, m, t, l)
}

/// Values of `t` fit a machine type.
pub open spec fn spec_has_prim(st: SymTable, m: Seq<Entry>, t: Type) -> bool {
    exists|l: Layout| #[trigger] spec_layout_of(st, m, t, l) && l.kind is Primitive
}

/// Values of `t` are laid out as a struct with at least `n` fields.
pub open spec fn spec_has_fields(st: SymTable, m: Seq<Entry>, t: Type, n: nat) -> bool {
    exists|l: Layout| #[trigger] spec_layout_of(st, m, t, l) && l.kind is Struct && n <= l.kind->Struct_0@.len()
}

/// Whether lowering `e` succeeds, given the local names that have numbers (`bound`), and
/// which have numbers after it: every construct has a lowering, every type met has a layout
/// (a number a machine type, a tuple a struct layout with a field for each of its parts),
/// every local name read has a number, the fields of a struct value have distinct indices
/// below their number, and a `return` of a value that does not fit a machine type has a
/// return slot. A `let` numbers its name before its value is lowered.
pub open spec fn spec_mir_ok(st: SymTable, m: Seq<Entry>, e: in_a::Expr, bound: Set<Seq<char>>) -> Option<
    Set<Seq<char>>,
>
    decreases e,
{
    match e {
        in_a::Expr::NumLit(_, t) => if spec_has_prim(st, m, t) {
            Some(bound)
        } else {
            None
        },
        in_a::Expr::LocalVar { name, .. } => if bound.contains(name@) {
            Some(bound)
        } else {
            None
        },
        in_a::Expr::GlobalVar { .. } => Some(bound),
        in_a::Expr::Tuple(es, t) => if spec_has_fields(st, m, t, es@.len()) {
            spec_mir_ok_seq(st, m, es@, bound)
        } else {
            None
        },
        in_a::Expr::FunCall { expr, args, args_tp, ret_tp } => match spec_mir_ok(st, m, *expr, bound) {
            Some(b1) => match spec_mir_ok_seq(st, m, args@, b1) {
                Some(b2) => if (forall|i: int| 0 <= i < args_tp@.len() ==> spec_has_layout(st, m, #[trigger] args_tp@[i]))
                    && spec_has_layout(st, m, ret_tp) {
                    Some(b2)
                } else {
                    None
                },
                None => None,
            },
            None => None,
        },
        in_a::Expr::FieldAccess { object, struct_tp, field_tp, .. } => match spec_mir_ok(st, m, *object, bound) {
            Some(b1) => if spec_has_layout(st, m, struct_tp) && spec_has_layout(st, m, field_tp) {
                Some(b1)
            } else {
                None
            },
            None => None,
        },
        in_a::Expr::Block { exprs, last_expr, block_tp } => match spec_mir_ok_seq(st, m, exprs@, bound) {
            Some(b1) => match spec_mir_ok(st, m, *last_expr, b1) {
                Some(b2) => if spec_has_layout(st, m, block_tp) {
                    Some(b2)
                } else {
                    None
                },
                None => None,
            },
            None => None,
        },
        in_a::Expr::Return { expr, ret_tp } => if spec_has_layout(st, m, ret_tp) {
            match spec_mir_ok(st, m, *expr, bound) {
                Some(b1) => if spec_has_prim(st, m, ret_tp) || b1.contains("__ret_var"@) {
                    Some(b1)
                } else {
                    None
                },
                None => None,
            }
        } else {
            None
        },
        in_a::Expr::Let { name, tp, expr, .. } => if spec_has_layout(st, m, tp) {
            spec_mir_ok(st, m, *expr, bound.insert(name@))
        } else {
            None
        },
        in_a::Expr::StructCons { initializers, tp, .. } => if spec_has_layout(st, m, tp) && spec_indices_ok(
            initializers.entries@,
        ) {
            spec_mir_ok_inits(st, m, initializers.entries@, bound)
        } else {
            None
        },
        in_a::Expr::Assign { lval, rval, assign_tp } => match spec_mir_ok(st, m, *lval, bound) {
            Some(b1) => match spec_mir_ok(st, m, *rval, b1) {
                Some(b2) => if spec_has_layout(st, m, assign_tp) {
                    Some(b2)
                } else {
                    None
                },
                None => None,
            },
            None => None,
        },
        in_a::Expr::ArrayInitRepeat(x, _, t) => match spec_mir_ok(st, m, *x, bound) {
            Some(b1) => if spec_has_layout(st, m, t) {
                Some(b1)
            } else {
                None
            },
            None => None,
        },
        in_a::Expr::While { pred, block } => match spec_mir_ok(st, m, *pred, bound) {
            Some(b1) => spec_mir_ok(st, m, *block, b1),
            None => None,
        },
        in_a::Expr::Builtin(_, args) => spec_mir_ok_seq(st, m, args@, bound),
        _ => None,
    }
}

/// Whether lowering a list of expressions in order succeeds.
pub open spec fn spec_mir_ok_seq(st: SymTable, m: Seq<Entry>, es: Seq<in_a::Expr>, bound: Set<Seq<char>>) -> Option<
    Set<Seq<char>>,
>
    decreases es,
{
    if es.len() == 0 {
        Some(bound)
    } else {
        match spec_mir_ok_seq(st, m, es.subrange(0, es.len() - 1), bound) {
            Some(b1) => spec_mir_ok(st, m, es[es.len() - 1], b1),
            None => None,
        }
    }
}

/// Whether lowering the fields of a struct value, in the order written, succeeds.
pub open spec fn spec_mir_ok_inits(
    st: SymTable,
    m: Seq<Entry>,
    inits: Seq<(String, (usize, in_a::Expr))>,
    bound: Set<Seq<char>>,
) -> Option<Set<Seq<char>>>
    decreases inits,
{
    if inits.len() == 0 {
        Some(bound)
    } else {
        match spec_mir_ok_inits(st, m, inits.subrange(0, inits.len() - 1), bound) {
            Some(b1) => spec_mir_ok(st, m, inits[inits.len() - 1].1.1, b1),
            None => None,
        }
    }
}

/// The fields of a struct value have distinct indices below their number.
pub open spec fn spec_indices_ok(inits: Seq<(String, (usize, in_a::Expr))>) -> bool {
    &&& forall|j: int| 0 <= j < inits.len() ==> (#[trigger] inits[j]).1.0 < inits.len()
    &&& forall|a: int, b: int| 0 <= a < b < inits.len() ==> (#[trigger] inits[a]).1.0 != (#[trigger] inits[b]).1.0
}

/// How many fresh variable numbers lowering `e` takes: one for each `let`.
pub open spec fn spec_mir_count(e: in_a::Expr) -> nat
    decreases e,
{
    match e {
        in_a::Expr::Tuple(es, _) => spec_mir_count_seq(es@),
        in_a::Expr::FunCall { expr, args, .. } => spec_mir_count(*expr) + spec_mir_count_seq(args@),
        in_a::Expr::FieldAccess { object, .. } => spec_mir_count(*object),
        in_a::Expr::Block { exprs, last_expr, .. } => spec_mir_count_seq(exprs@) + spec_mir_count(*last_expr),
        in_a::Expr::Return { expr, .. } => spec_mir_count(*expr),
        in_a::Expr::Let { expr, .. } => 1 + spec_mir_count(*expr),
        in_a::Expr::StructCons { initializers, .. } => spec_mir_count_inits(initializers.entries@),
        in_a::Expr::Assign { lval, rval, .. } => spec_mir_count(*lval) + spec_mir_count(*rval),
        in_a::Expr::ArrayInitRepeat(x, _, _) => spec_mir_count(*x),
        in_a::Expr::While { pred, block } => spec_mir_count(*pred) + spec_mir_count(*block),
        in_a::Expr::Builtin(_, args) => spec_mir_count_seq(args@),
        _ => 0,
    }
}

pub open spec fn spec_mir_count_seq(es: Seq<in_a::Expr>) -> nat
    decreases es,
{
    if es.len() == 0 {
        0
    } else {
        spec_mir_count_seq(es.subrange(0, es.len() - 1)) + spec_mir_count(es[es.len() - 1])
    }
}

pub open spec fn spec_mir_count_inits(inits: Seq<(String, (usize, in_a::Expr))>) -> nat
    decreases inits,
{
    if inits.len() == 0 {
        0
    } else {
        spec_mir_count_inits(inits.subrange(0, inits.len() - 1)) + spec_mir_count(inits[inits.len() - 1].1.1)
    }
}

/// A prefix of a list that lowers lowers too, and takes no more numbers.
pub proof fn lemma_mir_seq_prefix(st: SymTable, m: Seq<Entry>, es: Seq<in_a::Expr>, j: int, bound: Set<Seq<char>>)
    requires
        0 <= j <= es.len(),
    ensures
        spec_mir_count_seq(es.subrange(0, j)) <= spec_mir_count_seq(es),
        spec_mir_ok_seq(st, m, es, bound) is Some ==> spec_mir_ok_seq(st, m, es.subrange(0, j), bound) is Some,
    decreases es.len() - j,
{
    if j == es.len() {
        assert(es.subrange(0, j) =~= es);
    } else {
        let es1 = es.subrange(0, es.len() - 1);
        assert(es1.subrange(0, j) =~= es.subrange(0, j));
        lemma_mir_seq_prefix(st, m, es1, j, bound);
    }
}

/// A prefix of the fields of a struct value that lower lower too, and take no more numbers.
pub proof fn lemma_mir_inits_prefix(
    st: SymTable,
    m: Seq<Entry>,
    inits: Seq<(String, (usize, in_a::Expr))>,
    j: int,
    bound: Set<Seq<char>>,
)
    requires
        0 <= j <= inits.len(),
    ensures
        spec_mir_count_inits(inits.subrange(0, j)) <= spec_mir_count_inits(inits),
        spec_mir_ok_inits(st, m, inits, bound) is Some ==> spec_mir_ok_inits(st, m, inits.subrange(0, j), bound) is Some,
    decreases inits.len() - j,
{
    if j == inits.len() {
        assert(inits.subrange(0, j) =~= inits);
    } else {
        let i1 = inits.subrange(0, inits.len() - 1);
        assert(i1.subrange(0, j) =~= inits.subrange(0, j));
        lemma_mir_inits_prefix(st, m, i1, j, bound);
    }
}

/// `n` distinct numbers below `n` take every value below `n`.
pub proof fn lemma_indices_cover(idx: Seq<usize>, n: nat, t: usize)
    requires
        idx.len() == n,
        forall|j: int| 0 <= j < n ==> #[trigger] idx[j] < n,
        forall|a: int, b: int| 0 <= a < b < n ==> #[trigger] idx[a] != #[trigger] idx[b],
        t < n,
    ensures
        exists|j: int| 0 <= j < n && idx[j] == t,
{
    if !(exists|j: int| 0 <= j < n && idx[j] == t) {
        let keys = Seq::new((n - 1) as nat, |i: int| if i < t {
            i as usize
        } else {
            (i + 1) as usize
        });
        assert(idx.no_duplicates()) by {
            assert forall|a: int, b: int| 0 <= a < idx.len() && 0 <= b < idx.len() && a != b implies idx[a] != idx[b] by {
                if a < b {
                    assert(idx[a] != idx[b]);
                } else {
                    assert(idx[b] != idx[a]);
                }
            }
        }
        assert forall|x: usize| idx.contains(x) implies keys.contains(x) by {
            let j = choose|j: int| 0 <= j < idx.len() && idx[j] == x;
            assert(idx[j] != t);
            if x < t {
                assert(keys[x as int] == x);
            } else {
                assert(keys[x - 1] == x);
            }
        }
        crate::symtable::type_sort::lemma_unique_within(idx, keys);
    }
}

/// The layouts of the types of a list, in order.
fn layouts_of(st: &SymTable, store: &UVarStore, tps: &Vec<Type>) -> (res: Result<Vec<Layout>, InternalError>)
    requires
        st.wf(),
        store.wf(),
    ensures
        res matches Ok(ls) ==> ls@.len() == tps@.len() && forall|i: int|
            0 <= i < ls@.len() ==> spec_layout_of(*st, store.model(), tps@[i], #[trigger] ls@[i]),
        (forall|i: int| 0 <= i < tps@.len() ==> spec_has_layout(*st, store.model(), #[trigger] tps@[i])) ==> res is Ok,
{
    let mut ls: Vec<Layout> = Vec::new();
    let n = tps.len();
    let mut i: usize = 0;
    while i < n
        invariant
            n == tps@.len(),
            i <= n,
            st.wf(),
            store.wf(),
            ls@.len() == i,
            forall|j: int| 0 <= j < i ==> spec_layout_of(*st, store.model(), tps@[j], #[trigger] ls@[j]),
        decreases n - i,
    {
        let l = layout_of(st, store, &tps[i])?;
        ls.push(l);
        i = i + 1;
    }
    Ok(ls)
}

/// Lowers a list of expressions, in order.
pub fn tr_exprs(
    env: &mut Env,
    vns: &mut IdMap<bool>,
    st: &SymTable,
    store: &UVarStore,
    es: Vec<in_a::Expr>,
) -> (res: Result<Vec<out_a::Expr>, InternalError>)
    requires
        old(env).wf(),
        old(vns).keys_unique(),
        spec_marks_below(*old(env), *old(vns)),
        st.wf(),
        store.wf(),
    ensures
        final(env).wf(),
        final(vns).keys_unique(),
        spec_marks_below(*final(env), *final(vns)),
        spec_marks_kept(*old(env), *old(vns), *final(env), *final(vns)),
        res matches Ok(os) ==> spec_lowered_seq(*st, store.model(), es@, os@),
        res is Ok ==> spec_mir_ok_seq(*st, store.model(), es@, old(env).names()) == Some(final(env).names()),
        res is Ok ==> final(env).var_gen.0 == old(env).var_gen.0 + spec_mir_count_seq(es@),
        (spec_mir_ok_seq(*st, store.model(), es@, old(env).names()) is Some && old(env).var_gen.0 + spec_mir_count_seq(es@)
            <= usize::MAX) ==> res is Ok,
    decreases es,
{
    let ghost b0 = env.names();
    let ghost vg0 = env.var_gen.0;
    let ghost all = es@;
    let ghost v0 = es;
    let mut rest = es;
    let mut out: Vec<out_a::Expr> = Vec::new();
    let n = rest.len();
    let mut k: usize = 0;
    while rest.len() > 0
        invariant
            k <= n,
            n == all.len(),
            v0@ == all,
            v0 == es,
            rest@ == all.subrange(k as int, n as int),
            env.wf(),
            vns.keys_unique(),
            spec_marks_below(*env, *vns),
            spec_marks_kept(*old(env), *old(vns), *env, *vns),
            st.wf(),
            store.wf(),
            out@.len() == k,
            forall|i: int| 0 <= i < k ==> spec_lowered(*st, store.model(), #[trigger] all[i], out@[i]),
            b0 == old(env).names(),
            vg0 == old(env).var_gen.0,
            spec_mir_ok_seq(*st, store.model(), all.subrange(0, k as int), b0) == Some(env.names()),
            env.var_gen.0 == vg0 + spec_mir_count_seq(all.subrange(0, k as int)),
        decreases n - k,
    {
        let item = rest.remove(0);
        assert(item == all[k as int]);
        assert(decreases_to!(v0 => item)) by {
            assert(decreases_to!(v0 => v0@));
            assert(decreases_to!(v0@ => v0@[k as int]));
        }
        let ghost es1 = all.subrange(0, k + 1);
        assert(es1.subrange(0, k as int) =~= all.subrange(0, k as int));
        assert(es1[k as int] == item);
        let t = match tr_expr(env, vns, st, store, item) {
            Ok(t) => t,
            Err(err) => {
                proof {
                    lemma_mir_seq_prefix(*st, store.model(), all, k + 1, b0);
                }
                return Err(err);
            },
        };
        out.push(t);
        k = k + 1;
        assert(rest@ =~= all.subrange(k as int, n as int));
    }
    assert(all.subrange(0, n as int) =~= all);
    Ok(out)
}

/// Lowers an expression. The error comes for what has no lowering yet, for a type with no
/// layout, for a local name with no number, and when the numbers run out.
pub fn tr_expr(
    env: &mut Env,
    vns: &mut IdMap<bool>,
    st: &SymTable,
    store: &UVarStore,
    e: in_a::Expr,
) -> (res: Result<out_a::Expr, InternalError>)
    requires
        old(env).wf(),
        old(vns).keys_unique(),
        spec_marks_below(*old(env), *old(vns)),
        st.wf(),
        store.wf(),
    ensures
        final(env).wf(),
        final(vns).keys_unique(),
        spec_marks_below(*final(env), *final(vns)),
        spec_marks_kept(*old(env), *old(vns), *final(env), *final(vns)),
        res matches Ok(o) ==> spec_lowered(*st, store.model(), e, o),
        res matches Ok(o) ==> (e matches in_a::Expr::LocalVar { name, .. } ==> o == out_a::Expr::Var(
            out_a::VarRef::Local(old(env).vars.value(name@)),
        )),
        res matches Ok(o) ==> (e is Let ==> (o matches out_a::Expr::Let { id, .. } && id.0 == old(env).var_gen.0 + 1)),
        res is Ok ==> spec_mir_ok(*st, store.model(), e, old(env).names()) == Some(final(env).names()),
        res is Ok ==> final(env).var_gen.0 == old(env).var_gen.0 + spec_mir_count(e),
        (spec_mir_ok(*st, store.model(), e, old(env).names()) is Some && old(env).var_gen.0 + spec_mir_count(e)
            <= usize::MAX) ==> res is Ok,
    decreases e,
{
    let ghost e0 = e;
    let ghost m = store.model();
    match e {
        in_a::Expr::NumLit(n, tp) => {
            let p = prim_of(st, store, &tp)?;
            Ok(out_a::Expr::NumLit(n, p))
        },
        in_a::Expr::LocalVar { name, .. } => {
            if !env.vars.contains_key(name.as_str()) {
                return Err(InternalError::msg("a local variable has no number"));
            }
            let id = env.lookup(name.as_str());
            Ok(out_a::Expr::Var(out_a::VarRef::Local(id)))
        },
        in_a::Expr::GlobalVar { id, .. } => Ok(out_a::Expr::Var(out_a::VarRef::Global(id))),
        in_a::Expr::Tuple(exprs, tp) => {
            let layout = layout_of(st, store, &tp)?;
            proof {
                assert forall|l2: Layout| #[trigger] spec_layout_of(*st, m, tp, l2) implies (l2.kind is Struct
                    <==> layout.kind is Struct) && (l2.kind is Struct ==> l2.kind->Struct_0@.len()
                    == layout.kind->Struct_0@.len()) by {
                    crate::symtable::lemma_layout_kind_unique(*st, top(m, tp.ty()), l2, layout, st.tvar_map.entries@.len());
                }
            }
            let fits = match &layout.kind {
                LayoutKind::Struct(items) => exprs.len() <= items.len(),
                _ => false,
            };
            if !fits {
                return Err(InternalError::msg("a tuple does not fit its layout"));
            }
            let fields = tr_exprs(env, vns, st, store, exprs)?;
            Ok(out_a::Expr::Tuple { fields, layout })
        },
        in_a::Expr::FunCall { expr, args, args_tp, ret_tp } => {
            let callee = tr_expr(env, vns, st, store, *expr)?;
            let args = tr_exprs(env, vns, st, store, args)?;
            let ghost atps = args_tp@;
            let args_tp = layouts_of(st, store, &args_tp)?;
            let ret_tp = layout_of(st, store, &ret_tp)?;
            assert forall|i: int| 0 <= i < atps.len() implies spec_has_layout(*st, m, #[trigger] atps[i]) by {
                assert(spec_layout_of(*st, m, atps[i], args_tp@[i]));
            }
            Ok(out_a::Expr::FunCall { expr: Box::new(callee), args, args_tp, ret_tp })
        },
        in_a::Expr::FieldAccess { object, field_id, struct_tp, field_tp } => {
            let object = tr_expr(env, vns, st, store, *object)?;
            let struct_layout = layout_of(st, store, &struct_tp)?;
            let element_layout = layout_of(st, store, &field_tp)?;
            Ok(out_a::Expr::FieldAccess { object: Box::new(object), field_id, struct_layout, element_layout })
        },
        in_a::Expr::Block { exprs, last_expr, block_tp } => {
            let exprs = tr_exprs(env, vns, st, store, exprs)?;
            let last_expr = tr_expr(env, vns, st, store, *last_expr)?;
            let block_tp = layout_of(st, store, &block_tp)?;
            Ok(out_a::Expr::Block { exprs, last_expr: Box::new(last_expr), block_tp })
        },
        in_a::Expr::Return { expr, ret_tp } => {
            let layout = layout_of(st, store, &ret_tp)?;
            proof {
                assert forall|l2: Layout| #[trigger] spec_layout_of(*st, m, ret_tp, l2) implies (l2.kind is Primitive
                    <==> layout.kind is Primitive) by {
                    crate::symtable::lemma_layout_kind_unique(*st, top(m, ret_tp.ty()), l2, layout, st.tvar_map.entries@.len());
                }
                crate::symtable::lemma_layout_kind_unique(*st, top(m, ret_tp.ty()), layout, layout, st.tvar_map.entries@.len());
            }
            let expr = tr_expr(env, vns, st, store, *expr)?;
            match layout.kind {
                LayoutKind::Primitive(p) => {
                    assert(spec_layout_of(*st, m, ret_tp, layout));
                    Ok(out_a::Expr::Return { expr: Box::new(expr), ret_tp: p })
                },
                LayoutKind::Struct(_) => {
                    if !env.vars.contains_key("__ret_var") {
                        return Err(InternalError::msg("a function that returns a struct has no return slot"));
                    }
                    let ret_v = env.lookup("__ret_var");
                    let lval = Box::new(out_a::Expr::Var(out_a::VarRef::Local(ret_v)));
                    Ok(out_a::Expr::Assign { lval, rval: Box::new(expr), assign_tp: layout })
                },
                LayoutKind::Union(_) => Err(InternalError::msg("unions cannot be returned yet")),
            }
        },
        in_a::Expr::Let { name, tp, is_mut, expr } => {
            if !env.has_fresh() {
                return Err(InternalError::msg("out of variable numbers"));
            }
            let id = env.add_var(name);
            let layout = layout_of(st, store, &tp)?;
            let expr = tr_expr(env, vns, st, store, *expr)?;
            let _ = vns.insert(id.get(), layout.require_stack());
            Ok(out_a::Expr::Let { id, layout, is_mut, expr: Box::new(expr) })
        },
        in_a::Expr::StructCons { initializers, tp, .. } => {
            let layout = layout_of(st, store, &tp)?;
            let fields = tr_by_index(env, vns, st, store, initializers)?;
            Ok(out_a::Expr::Tuple { fields, layout })
        },
        in_a::Expr::Assign { lval, rval, assign_tp } => {
            let lval = tr_expr(env, vns, st, store, *lval)?;
            let rval = tr_expr(env, vns, st, store, *rval)?;
            let assign_tp = layout_of(st, store, &assign_tp)?;
            Ok(out_a::Expr::Assign { lval: Box::new(lval), rval: Box::new(rval), assign_tp })
        },
        in_a::Expr::ArrayInitRepeat(x, n, tp) => {
            let x = tr_expr(env, vns, st, store, *x)?;
            let layout = layout_of(st, store, &tp)?;
            Ok(out_a::Expr::ArrayInitRepeat(Box::new(x), n, layout))
        },
        in_a::Expr::While { pred, block } => {
            let pred = tr_expr(env, vns, st, store, *pred)?;
            let block = tr_expr(env, vns, st, store, *block)?;
            Ok(out_a::Expr::While { pred: Box::new(pred), block: Box::new(block) })
        },
        in_a::Expr::Builtin(name, args) => {
            let args = tr_exprs(env, vns, st, store, args)?;
            Ok(out_a::Expr::Builtin(name, args))
        },
        _ => Err(InternalError::msg("this expression has no lowering yet")),
    }
}

/// Lowers the fields of a struct value and puts them in the order of their indices; the
/// error comes where the indices are not distinct numbers below the number of fields.
fn tr_by_index(
    env: &mut Env,
    vns: &mut IdMap<bool>,
    st: &SymTable,
    store: &UVarStore,
    initializers: crate::common::maps::NameMap<(usize, in_a::Expr)>,
) -> (res: Result<Vec<out_a::Expr>, InternalError>)
    requires
        old(env).wf(),
        old(vns).keys_unique(),
        spec_marks_below(*old(env), *old(vns)),
        st.wf(),
        store.wf(),
    ensures
        final(env).wf(),
        final(vns).keys_unique(),
        spec_marks_below(*final(env), *final(vns)),
        spec_marks_kept(*old(env), *old(vns), *final(env), *final(vns)),
        res matches Ok(fs) ==> spec_by_index(*st, store.model(), initializers.entries@, fs@),
        res is Ok ==> spec_indices_ok(initializers.entries@) && spec_mir_ok_inits(
            *st,
            store.model(),
            initializers.entries@,
            old(env).names(),
        ) == Some(final(env).names()),
        res is Ok ==> final(env).var_gen.0 == old(env).var_gen.0 + spec_mir_count_inits(initializers.entries@),
        (spec_indices_ok(initializers.entries@) && spec_mir_ok_inits(*st, store.model(), initializers.entries@, old(env).names())
            is Some && old(env).var_gen.0 + spec_mir_count_inits(initializers.entries@) <= usize::MAX) ==> res is Ok,
    decreases initializers,
{
    let ghost b0 = env.names();
    let ghost vg0 = env.var_gen.0;
    let ghost all = initializers.entries@;
    let ghost v0 = initializers.entries;
    let n = initializers.entries.len();
    let mut slots: Vec<Option<out_a::Expr>> = Vec::new();
    let mut s: usize = 0;
    while s < n
        invariant
            s <= n,
            slots@.len() == s,
            forall|t: int| 0 <= t < s ==> slots@[t] is None,
        decreases n - s,
    {
        slots.push(None);
        s = s + 1;
    }
    let mut rest = initializers.entries;
    let mut k: usize = 0;
    while rest.len() > 0
        invariant
            k <= n,
            n == all.len(),
            v0@ == all,
            v0 == initializers.entries,
            rest@ == all.subrange(k as int, n as int),
            env.wf(),
            vns.keys_unique(),
            spec_marks_below(*env, *vns),
            spec_marks_kept(*old(env), *old(vns), *env, *vns),
            st.wf(),
            store.wf(),
            slots@.len() == n,
            forall|j: int| 0 <= j < k ==> (#[trigger] all[j]).1.0 < n,
            forall|a: int, b: int| 0 <= a < b < k ==> (#[trigger] all[a]).1.0 != (#[trigger] all[b]).1.0,
            forall|j: int| 0 <= j < k ==> (slots@[(#[trigger] all[j]).1.0 as int] matches Some(o) && spec_lowered(
                *st,
                store.model(),
                all[j].1.1,
                o,
            )),
            forall|t: int| 0 <= t < n && (#[trigger] slots@[t]) is Some ==> exists|j: int| 0 <= j < k && all[j].1.0 == t,
            b0 == old(env).names(),
            vg0 == old(env).var_gen.0,
            spec_mir_ok_inits(*st, store.model(), all.subrange(0, k as int), b0) == Some(env.names()),
            env.var_gen.0 == vg0 + spec_mir_count_inits(all.subrange(0, k as int)),
        decreases n - k,
    {
        let ghost es1 = all.subrange(0, k + 1);
        assert(es1.subrange(0, k as int) =~= all.subrange(0, k as int));
        assert(es1[k as int] == all[k as int]);
        let (_, (idx, item)) = rest.remove(0);
        assert(all[k as int].1 == (idx, item));
        assert(decreases_to!(initializers => all[k as int].1.1)) by {
            assert(decreases_to!(initializers => v0));
            assert(decreases_to!(v0 => v0@));
            assert(decreases_to!(v0@ => v0@[k as int]));
            assert(decreases_to!(v0@[k as int] => v0@[k as int].1));
            assert(decreases_to!(v0@[k as int].1 => v0@[k as int].1.1));
        }
        if idx >= n {
            return Err(InternalError::msg("a field index is out of range"));
        }
        if slots[idx].is_some() {
            proof {
                let j = choose|j: int| 0 <= j < k && all[j].1.0 == idx;
                assert(all[j].1.0 == all[k as int].1.0);
            }
            return Err(InternalError::msg("two fields have the same index"));
        }
        let o = match tr_expr(env, vns, st, store, item) {
            Ok(o) => o,
            Err(err) => {
                proof {
                    lemma_mir_inits_prefix(*st, store.model(), all, k + 1, b0);
                }
                return Err(err);
            },
        };
        let ghost before = slots@;
        slots.set(idx, Some(o));
        proof {
            assert forall|a: int, b: int| 0 <= a < b < k + 1 implies (#[trigger] all[a]).1.0 != (#[trigger] all[b]).1.0 by {
                if b == k {
                    assert(before[all[a].1.0 as int] is Some);
                }
            }
            assert forall|j: int| 0 <= j < k + 1 implies (slots@[(#[trigger] all[j]).1.0 as int] matches Some(o) && spec_lowered(
                *st,
                store.model(),
                all[j].1.1,
                o,
            )) by {
                if j < k {
                    assert(all[j].1.0 != idx) by {
                        assert(before[all[j].1.0 as int] is Some);
                    }
                }
            }
            assert forall|t: int| 0 <= t < n && (#[trigger] slots@[t]) is Some implies exists|j: int|
                0 <= j < k + 1 && all[j].1.0 == t by {
                if t == idx {
                    assert(all[k as int].1.0 == t);
                } else {
                    assert(before[t] is Some);
                }
            }
        }
        k = k + 1;
        assert(rest@ =~= all.subrange(k as int, n as int));
    }
    // every slot was filled: the indices are distinct and below `n`
    let mut fields: Vec<out_a::Expr> = Vec::new();
    let mut t: usize = 0;
    let ghost full = slots@;
    let ghost env_after = *env;
    assert(all.subrange(0, n as int) =~= all);
    while slots.len() > 0
        invariant
            t <= n,
            slots@ == full.subrange(t as int, n as int),
            full.len() == n,
            n == all.len(),
            *env == env_after,
            forall|j: int| 0 <= j < n ==> (#[trigger] all[j]).1.0 < n,
            forall|a: int, b: int| 0 <= a < b < n ==> (#[trigger] all[a]).1.0 != (#[trigger] all[b]).1.0,
            forall|j: int| 0 <= j < n ==> (full[(#[trigger] all[j]).1.0 as int] matches Some(o) && spec_lowered(
                *st,
                store.model(),
                all[j].1.1,
                o,
            )),
            env.wf(),
            vns.keys_unique(),
            spec_marks_below(*env, *vns),
            spec_marks_kept(*old(env), *old(vns), *env, *vns),
            fields@.len() == t,
            forall|u: int| 0 <= u < t ==> full[u] == Some(#[trigger] fields@[u]),
        decreases n - t,
    {
        let slot = slots.remove(0);
        assert(slot == full[t as int]);
        match slot {
            Some(o) => fields.push(o),
            None => {
                proof {
                    let idx_seq = Seq::new(n as nat, |j: int| all[j].1.0);
                    lemma_indices_cover(idx_seq, n as nat, t);
                    let j = choose|j: int| 0 <= j < n && idx_seq[j] == t;
                    assert(all[j].1.0 == t);
                }
                return Err(InternalError::msg("a field is missing"));
            },
        }
        t = t + 1;
        assert(slots@ =~= full.subrange(t as int, n as int));
    }
    proof {
        assert forall|j: int| 0 <= j < all.len() implies spec_lowered(
            *st,
            store.model(),
            (#[trigger] all[j]).1.1,
            fields@[all[j].1.0 as int],
        ) by {
            assert(full[all[j].1.0 as int] matches Some(o) && spec_lowered(*st, store.model(), all[j].1.1, o));
        }
    }
    Ok(fields)
}

/// The machine type a value of `t` is passed as: its own if it fits one, else its address.
pub open spec fn spec_passed_as(st: SymTable, m: Seq<Entry>, t: Type, p: LType) -> bool {
    exists|l: Layout|
        #[trigger] spec_layout_of(st, m, t, l) && p == (match l.kind {
            LayoutKind::Primitive(q) => q,
            _ => LType::Tusize,
        })
}

/// The machine signature `(a, r)` of a function with argument types `args` and return type
/// `ret`: a result that does not fit a machine type is written through an address passed
/// as a last argument.
pub open spec fn spec_signature(st: SymTable, m: Seq<Entry>, args: Seq<Type>, ret: Type, a: Seq<LType>, r: Seq<LType>) -> bool {
    &&& forall|i: int| 0 <= i < args.len() ==> spec_passed_as(st, m, args[i], #[trigger] a[i])
    &&& {
        ||| r.len() == 1 && spec_prim_of(st, m, ret, r[0]) && a.len() == args.len()
        ||| r.len() == 0 && (exists|l: Layout| #[trigger] spec_layout_of(st, m, ret, l) && !(l.kind is Primitive)) && a.len()
            == args.len() + 1 && a[args.len() as int] == LType::Tusize
    }
}

/// Values of `t` do not fit a machine type: they are passed by address.
pub open spec fn spec_by_addr(st: SymTable, m: Seq<Entry>, t: Type) -> bool {
    exists|l: Layout| #[trigger] spec_layout_of(st, m, t, l) && !(l.kind is Primitive)
}

/// The machine type of an argument of type `tp`, and whether it is passed by address.
fn passed_as(st: &SymTable, store: &UVarStore, tp: &Type) -> (res: Result<(LType, bool), InternalError>)
    requires
        st.wf(),
        store.wf(),
    ensures
        res matches Ok((p, by_addr)) ==> spec_passed_as(*st, store.model(), *tp, p) && (by_addr <==> spec_by_addr(
            *st,
            store.model(),
            *tp,
        )),
        res matches Ok((p, false)) ==> spec_prim_of(*st, store.model(), *tp, p),
        res is Err ==> forall|l: Layout| !spec_layout_of(*st, store.model(), *tp, l),
{
    let layout = layout_of(st, store, tp)?;
    proof {
        assert(spec_layout_of(*st, store.model(), *tp, layout));
        assert forall|l: Layout| #[trigger] spec_layout_of(*st, store.model(), *tp, l) implies (l.kind is Primitive
            <==> layout.kind is Primitive) by {
            crate::symtable::lemma_layout_kind_unique(*st, top(store.model(), tp.ty()), l, layout, st.tvar_map.entries@.len());
        }
    }
    match layout.kind {
        LayoutKind::Primitive(p) => Ok((p, false)),
        _ => Ok((LType::Tusize, true)),
    }
}

/// The types of the arguments of a checked function.
pub open spec fn spec_arg_types(f: in_a::Func) -> Seq<Type> {
    Seq::new(f.args@.len(), |i: int| f.args@[i].2)
}

/// The machine types of the arguments of a lowered function.
pub open spec fn spec_machine_args(g: out_a::Func) -> Seq<LType> {
    Seq::new(g.args@.len(), |i: int| g.args@[i].2)
}

/// The lowered function `g` is the checked function `f`: its arguments numbered from one
/// in order, each passed as its machine type, with a last argument for the address of the
/// result where the result does not fit a machine type; the variables passed by address
/// are marked as living on the stack; the body is lowered.
pub open spec fn spec_func_lowered(st: SymTable, m: Seq<Entry>, f: in_a::Func, g: out_a::Func) -> bool {
    &&& g.id == f.id
    &&& spec_signature(st, m, spec_arg_types(f), f.ret_type, spec_machine_args(g), g.returns@)
    &&& forall|i: int| 0 <= i < g.args@.len() ==> (#[trigger] g.args@[i]).0 == out_a::VarID((i + 1) as usize)
    &&& forall|i: int| 0 <= i < f.args@.len() ==> (#[trigger] g.args@[i]).1 == f.args@[i].1
    &&& forall|i: int|
        0 <= i < f.args@.len() && spec_by_addr(st, m, #[trigger] f.args@[i].2) ==> g.var_needs_stack.has((i + 1) as usize)
            && g.var_needs_stack.value((i + 1) as usize)
    &&& g.args@.len() > f.args@.len() ==> g.var_needs_stack.has(g.args@.len() as usize) && g.var_needs_stack.value(
        g.args@.len() as usize,
    ) && !g.args@[f.args@.len() as int].1
    &&& spec_lowered(st, m, f.body, g.body)
}

/// The names of the arguments of a checked function.
pub open spec fn spec_arg_names(f: in_a::Func) -> Set<Seq<char>> {
    Set::new(|n: Seq<char>| exists|j: int| 0 <= j < f.args@.len() && (#[trigger] f.args@[j]).0@ == n)
}

/// Lowering a function succeeds: its arguments and result have layouts, and its body lowers
/// with its arguments numbered (and the return slot, for a result that does not fit a
/// machine type), without the numbers running out.
pub open spec fn spec_mir_func_ok(st: SymTable, m: Seq<Entry>, f: in_a::Func) -> bool {
    let by_addr = spec_by_addr(st, m, f.ret_type);
    let bound = if by_addr {
        spec_arg_names(f).insert("__ret_var"@)
    } else {
        spec_arg_names(f)
    };
    &&& forall|i: int| 0 <= i < f.args@.len() ==> spec_has_layout(st, m, (#[trigger] f.args@[i]).2)
    &&& spec_has_layout(st, m, f.ret_type)
    &&& spec_mir_ok(st, m, f.body, bound) is Some
    &&& f.args@.len() + (if by_addr {
        1int
    } else {
        0int
    }) + spec_mir_count(f.body) <= usize::MAX
}

/// Lowers a function. The error comes where its body's lowering does, for an argument or
/// a result with no layout, and for a result that is a union.
pub fn tr_func(st: &SymTable, store: &UVarStore, f: in_a::Func) -> (res: Result<out_a::Func, InternalError>)
    requires
        st.wf(),
        store.wf(),
    ensures
        res matches Ok(g) ==> spec_func_lowered(*st, store.model(), f, g),
        res is Ok <==> spec_mir_func_ok(*st, store.model(), f),
{
    let ghost m = store.model();
    let ghost targs = spec_arg_types(f);
    let mut args: Vec<(out_a::VarID, bool, LType)> = Vec::new();
    let mut rets: Vec<LType> = Vec::new();
    let mut env = Env::new();
    let mut vns: IdMap<bool> = IdMap::new();
    let n = f.args.len();
    let mut i: usize = 0;
    while i < n
        invariant
            n == f.args@.len(),
            i <= n,
            st.wf(),
            store.wf(),
            m == store.model(),
            env.wf(),
            env.var_gen.0 == i,
            vns.keys_unique(),
            args@.len() == i,
            forall|j: int| 0 <= j < i ==> (#[trigger] args@[j]).0 == out_a::VarID((j + 1) as usize),
            forall|j: int| 0 <= j < i ==> (#[trigger] args@[j]).1 == f.args@[j].1,
            forall|j: int| 0 <= j < i ==> spec_passed_as(*st, m, f.args@[j].2, (#[trigger] args@[j]).2),
            forall|j: int|
                0 <= j < i && spec_by_addr(*st, m, #[trigger] f.args@[j].2) ==> vns.has((j + 1) as usize) && vns.value(
                    (j + 1) as usize,
                ),
            forall|k: usize| #[trigger] vns.has(k) ==> 1 <= k <= i,
            forall|j: int| 0 <= j < i ==> spec_has_layout(*st, m, (#[trigger] f.args@[j]).2),
            env.names() == Set::new(|nm: Seq<char>| exists|j: int| 0 <= j < i && (#[trigger] f.args@[j]).0@ == nm),
        decreases n - i,
    {
        let (p, by_addr) = match passed_as(st, store, &f.args[i].2) {
            Ok(x) => x,
            Err(err) => {
                assert(!spec_has_layout(*st, m, f.args@[i as int].2));
                return Err(err);
            },
        };
        let ghost names_before = env.names();
        let var_id = env.add_var(f.args[i].0.clone());
        proof {
            assert(env.names() =~= Set::new(|nm: Seq<char>| exists|j: int| 0 <= j < i + 1 && (#[trigger] f.args@[j]).0@ == nm))
                by {
                assert forall|nm: Seq<char>| env.names().contains(nm) <==> exists|j: int|
                    0 <= j < i + 1 && (#[trigger] f.args@[j]).0@ == nm by {
                    if nm == f.args@[i as int].0@ {
                        assert(0 <= i < i + 1 && f.args@[i as int].0@ == nm);
                    }
                    if exists|j: int| 0 <= j < i + 1 && (#[trigger] f.args@[j]).0@ == nm {
                        let j = choose|j: int| 0 <= j < i + 1 && (#[trigger] f.args@[j]).0@ == nm;
                        if j < i {
                            assert(names_before.contains(nm));
                        }
                    }
                }
            }
        }
        if by_addr {
            let _ = vns.insert(var_id.get(), true);
        }
        args.push((var_id, f.args[i].1, p));
        i = i + 1;
    }
    let ghost vns1 = vns;
    let ghost env1 = env;
    assert(env.names() =~= spec_arg_names(f));
    let (p, by_addr) = passed_as(st, store, &f.ret_type)?;
    let layout = layout_of(st, store, &f.ret_type)?;
    proof {
        crate::symtable::lemma_layout_kind_unique(*st, top(m, f.ret_type.ty()), layout, layout, st.tvar_map.entries@.len());
    }
    if let LayoutKind::Union(_) = layout.kind {
        return Err(InternalError::msg("unions cannot be returned yet"));
    }
    if by_addr {
        if !env.has_fresh() {
            return Err(InternalError::msg("out of variable numbers"));
        }
        let id = env.add_var(String::from_str("__ret_var"));
        let _ = vns.insert(id.get(), true);
        args.push((id, false, LType::Tusize));
    } else {
        rets.push(p);
    }
    let ghost vns2 = vns;
    let ghost env2 = env;
    proof {
        assert forall|j: int| 0 <= j < n && spec_by_addr(*st, m, #[trigger] f.args@[j].2) implies vns2.has(
            (j + 1) as usize,
        ) && vns2.value((j + 1) as usize) by {
            assert(vns1.has((j + 1) as usize));
        }
    }
    let body = tr_expr(&mut env, &mut vns, st, store, f.body)?;
    proof {
        assert forall|j: int| 0 <= j < n && spec_by_addr(*st, m, #[trigger] f.args@[j].2) implies vns.has(
            (j + 1) as usize,
        ) && vns.value((j + 1) as usize) by {
            assert(vns2.has((j + 1) as usize));
            assert((j + 1) as usize <= env2.var_gen.0);
            assert(spec_marks_kept(env2, vns2, env, vns));
            let k = (j + 1) as usize;
            assert(vns.has(k) == vns2.has(k));
        }
    }
    proof {
        let a = Seq::new(args@.len(), |j: int| args@[j].2);
        let sa = Seq::new(args@.len(), |j: int| args@[j].2);
        assert forall|j: int| 0 <= j < targs.len() implies spec_passed_as(*st, m, targs[j], #[trigger] a[j]) by {
            assert(args@[j].2 == a[j]);
        }
        if by_addr {
            assert(a[n as int] == LType::Tusize);
        } else {
            assert(rets@[0] == p);
        }
    }
    let g = out_a::Func { id: f.id, args, returns: rets, body, var_needs_stack: vns };
    proof {
        assert(spec_machine_args(g) =~= Seq::new(g.args@.len(), |j: int| g.args@[j].2));
        assert(spec_signature(*st, m, targs, f.ret_type, spec_machine_args(g), g.returns@));
        assert(spec_lowered(*st, m, f.body, g.body));
        assert(g.id == f.id);
        assert(forall|i: int| 0 <= i < g.args@.len() ==> (#[trigger] g.args@[i]).0 == out_a::VarID((i + 1) as usize));
        assert(forall|i: int| 0 <= i < f.args@.len() ==> (#[trigger] g.args@[i]).1 == f.args@[i].1);
        assert(forall|i: int|
            0 <= i < f.args@.len() && spec_by_addr(*st, m, #[trigger] f.args@[i].2) ==> g.var_needs_stack.has((i + 1) as usize)
                && g.var_needs_stack.value((i + 1) as usize));
        if g.args@.len() > f.args@.len() {
            let k = g.args@.len() as usize;
            assert(by_addr);
            assert(k == n + 1);
            assert(vns2.has(k) && vns2.value(k));
            assert(k <= env2.var_gen.0);
            assert(spec_marks_kept(env2, vns2, env, vns));
            assert(vns.has(k) == vns2.has(k));
        }
        assert(spec_func_lowered(*st, m, f, g));
    }
    Ok(g)
}

/// `sym` is the function symbol `info` in machine types: same name and flags, and the
/// machine signature of its argument and return types.
pub open spec fn spec_symbol_lowered(st: SymTable, m: Seq<Entry>, info: SymInfo, sym: out_a::Symbol) -> bool {
    &&& info.kind is Func
    &&& sym.name@ == info.name@
    &&& sym.is_extern == info.is_extern
    &&& sym.mangle == info.mangle
    &&& sym.kind matches out_a::SymKind::Func { args, returns: rs } && spec_signature(
        st,
        m,
        info.kind->Func_args@,
        info.kind->Func_ret,
        args@,
        rs@,
    )
}

/// The argument and return types of a function symbol have layouts.
pub open spec fn spec_symbol_ok(st: SymTable, m: Seq<Entry>, info: SymInfo) -> bool {
    &&& forall|i: int| 0 <= i < info.kind->Func_args@.len() ==> spec_has_layout(st, m, #[trigger] info.kind->Func_args@[i])
    &&& spec_has_layout(st, m, info.kind->Func_ret)
}

/// The signature of a function symbol in machine types.
fn lower_symbol(st: &SymTable, store: &UVarStore, info: &SymInfo) -> (res: Result<out_a::Symbol, InternalError>)
    requires
        st.wf(),
        store.wf(),
        info.kind is Func,
    ensures
        res matches Ok(sym) ==> spec_symbol_lowered(*st, store.model(), *info, sym),
        res is Ok <==> spec_symbol_ok(*st, store.model(), *info),
{
    let ghost m = store.model();
    let (old_args, ret) = match &info.kind {
        SymKind::Func { args, ret, .. } => (args, ret),
        _ => {
            return Err(InternalError::msg("not a function"));
        },
    };
    let mut args: Vec<LType> = Vec::new();
    let mut rets: Vec<LType> = Vec::new();
    let n = old_args.len();
    let mut i: usize = 0;
    while i < n
        invariant
            n == old_args@.len(),
            i <= n,
            st.wf(),
            store.wf(),
            m == store.model(),
            args@.len() == i,
            forall|j: int| 0 <= j < i ==> spec_passed_as(*st, m, old_args@[j], #[trigger] args@[j]),
            forall|j: int| 0 <= j < i ==> spec_has_layout(*st, m, #[trigger] old_args@[j]),
            info.kind->Func_args == *old_args,
        decreases n - i,
    {
        let (p, _) = match passed_as(st, store, &old_args[i]) {
            Ok(x) => x,
            Err(err) => {
                assert(!spec_has_layout(*st, m, old_args@[i as int]));
                return Err(err);
            },
        };
        args.push(p);
        i = i + 1;
    }
    let (p, by_addr) = match passed_as(st, store, ret) {
        Ok(x) => x,
        Err(err) => {
            assert(!spec_has_layout(*st, m, *ret));
            return Err(err);
        },
    };
    if by_addr {
        args.push(LType::Tusize);
    } else {
        rets.push(p);
    }
    proof {
        if by_addr {
            assert(args@[n as int] == LType::Tusize);
        } else {
            assert(rets@[0] == p);
        }
    }
    Ok(out_a::Symbol {
        name: info.name.clone(),
        kind: out_a::SymKind::Func { args, returns: rets },
        is_extern: info.is_extern,
        mangle: info.mangle,
    })
}

/// The function symbols of the table, in machine types, by declaration id.
pub fn make_symtable(st: &SymTable, store: &UVarStore) -> (res: Result<IdMap<out_a::Symbol>, InternalError>)
    requires
        st.wf(),
        store.wf(),
    ensures
        res matches Ok(map) ==> {
            &&& map.keys_unique()
            &&& forall|k: usize| #[trigger] map.has(k) <==> st.node_map.has(k) && st.node_map.value(k).kind is Func
            &&& forall|k: usize| #[trigger] map.has(k) ==> spec_symbol_lowered(*st, store.model(), st.node_map.value(k), map.value(k))
        },
        res is Ok <==> forall|j: int|
            0 <= j < st.node_map.entries@.len() && (#[trigger] st.node_map.entries@[j]).1.kind is Func ==> spec_symbol_ok(
                *st,
                store.model(),
                st.node_map.entries@[j].1,
            ),
{
    let mut map: IdMap<out_a::Symbol> = IdMap::new();
    let n = st.node_map.entries.len();
    let mut i: usize = 0;
    while i < n
        invariant
            n == st.node_map.entries@.len(),
            i <= n,
            st.wf(),
            store.wf(),
            map.keys_unique(),
            forall|k: usize| #[trigger] map.has(k) <==> exists|j: int|
                0 <= j < i && st.node_map.entries@[j].0 == k && st.node_map.entries@[j].1.kind is Func,
            forall|k: usize| #[trigger] map.has(k) ==> spec_symbol_lowered(*st, store.model(), st.node_map.value(k), map.value(k)),
            forall|j: int|
                0 <= j < i && (#[trigger] st.node_map.entries@[j]).1.kind is Func ==> spec_symbol_ok(
                    *st,
                    store.model(),
                    st.node_map.entries@[j].1,
                ),
        decreases n - i,
    {
        proof {
            st.node_map.lemma_value(i as int);
        }
        let id = st.node_map.entries[i].0;
        let info = &st.node_map.entries[i].1;
        if let SymKind::Func { .. } = &info.kind {
            let sym = match lower_symbol(st, store, info) {
                Ok(sym) => sym,
                Err(err) => {
                    assert(!spec_symbol_ok(*st, store.model(), st.node_map.entries@[i as int].1));
                    return Err(err);
                },
            };
            let ghost before = map;
            let _ = map.insert(id, sym);
            proof {
                assert forall|k: usize| #[trigger] map.has(k) <==> exists|j: int|
                    0 <= j < i + 1 && st.node_map.entries@[j].0 == k && st.node_map.entries@[j].1.kind is Func by {
                    if k == id {
                        assert(0 <= i < i + 1 && st.node_map.entries@[i as int].0 == k);
                    } else if map.has(k) {
                        assert(before.has(k));
                    } else if exists|j: int|
                        0 <= j < i + 1 && st.node_map.entries@[j].0 == k && st.node_map.entries@[j].1.kind is Func {
                        let j = choose|j: int|
                            0 <= j < i + 1 && st.node_map.entries@[j].0 == k && st.node_map.entries@[j].1.kind is Func;
                        assert(j != i);
                        assert(before.has(k));
                    }
                }
                assert forall|k: usize| #[trigger] map.has(k) implies spec_symbol_lowered(
                    *st,
                    store.model(),
                    st.node_map.value(k),
                    map.value(k),
                ) by {
                    if k != id {
                        assert(before.has(k));
                    }
                }
            }
        } else {
            proof {
                assert forall|k: usize| #[trigger] map.has(k) <==> exists|j: int|
                    0 <= j < i + 1 && st.node_map.entries@[j].0 == k && st.node_map.entries@[j].1.kind is Func by {
                    if exists|j: int|
                        0 <= j < i + 1 && st.node_map.entries@[j].0 == k && st.node_map.entries@[j].1.kind is Func {
                        let j = choose|j: int|
                            0 <= j < i + 1 && st.node_map.entries@[j].0 == k && st.node_map.entries@[j].1.kind is Func;
                        assert(j != i);
                    }
                }
            }
        }
        i = i + 1;
    }
    proof {
        assert forall|k: usize| #[trigger] map.has(k) <==> st.node_map.has(k) && st.node_map.value(k).kind is Func by {
            if map.has(k) {
                let j = choose|j: int| 0 <= j < n && st.node_map.entries@[j].0 == k && st.node_map.entries@[j].1.kind is Func;
                st.node_map.lemma_value(j);
            }
            if st.node_map.has(k) && st.node_map.value(k).kind is Func {
                let j = choose|j: int| 0 <= j < n && #[trigger] st.node_map.entries@[j].0 == k;
                st.node_map.lemma_value(j);
                assert(0 <= j < n && st.node_map.entries@[j].0 == k && st.node_map.entries@[j].1.kind is Func);
            }
        }
    }
    Ok(map)
}

/// Lowers a checked program: each function, and the function symbols.
pub fn translate(prog: crate::typecheck::ast::Program) -> (res: Result<out_a::Program, InternalError>)
    requires
        prog.sym_table.wf(),
        prog.store.wf(),
    ensures
        res matches Ok(p) ==> {
            &&& p.functions@.len() == prog.functions@.len()
            &&& forall|i: int|
                0 <= i < p.functions@.len() ==> spec_func_lowered(
                    prog.sym_table,
                    prog.store.model(),
                    prog.functions@[i],
                    #[trigger] p.functions@[i],
                )
            &&& p.symbols.keys_unique()
            &&& forall|k: usize| #[trigger] p.symbols.has(k) <==> prog.sym_table.node_map.has(k)
                && prog.sym_table.node_map.value(k).kind is Func
            &&& forall|k: usize| #[trigger] p.symbols.has(k) ==> spec_symbol_lowered(
                prog.sym_table,
                prog.store.model(),
                prog.sym_table.node_map.value(k),
                p.symbols.value(k),
            )
        },
        res is Ok <==> {
            &&& forall|i: int|
                0 <= i < prog.functions@.len() ==> spec_mir_func_ok(
                    prog.sym_table,
                    prog.store.model(),
                    #[trigger] prog.functions@[i],
                )
            &&& forall|j: int|
                0 <= j < prog.sym_table.node_map.entries@.len() && (#[trigger] prog.sym_table.node_map.entries@[j]).1.kind is Func
                    ==> spec_symbol_ok(prog.sym_table, prog.store.model(), prog.sym_table.node_map.entries@[j].1)
        },
{
    let st = prog.sym_table;
    let store = prog.store;
    let ghost fs = prog.functions@;
    let mut rest = prog.functions;
    let mut functions: Vec<out_a::Func> = Vec::new();
    let n = rest.len();
    let mut k: usize = 0;
    while rest.len() > 0
        invariant
            k <= n,
            n == fs.len(),
            rest@ == fs.subrange(k as int, n as int),
            st.wf(),
            store.wf(),
            st == prog.sym_table,
            store == prog.store,
            functions@.len() == k,
            forall|i: int| 0 <= i < k ==> spec_func_lowered(st, store.model(), fs[i], #[trigger] functions@[i]),
            forall|i: int| 0 <= i < k ==> spec_mir_func_ok(st, store.model(), #[trigger] fs[i]),
            fs == prog.functions@,
        decreases n - k,
    {
        let f = rest.remove(0);
        assert(f == fs[k as int]);
        let g = match tr_func(&st, &store, f) {
            Ok(g) => g,
            Err(err) => {
                assert(!spec_mir_func_ok(prog.sym_table, prog.store.model(), prog.functions@[k as int]));
                return Err(err);
            },
        };
        functions.push(g);
        k = k + 1;
        assert(rest@ =~= fs.subrange(k as int, n as int));
    }
    let symbols = make_symtable(&st, &store)?;
    Ok(out_a::Program { symbols, functions })
}

} // verus!
