//! Code generation: the object-code plan of the core representation, and the C emitter.
use vstd::prelude::*;

pub mod ast;
pub mod emit;
pub mod plan;

use crate::codegen::emit::spec_node_text;
use crate::codegen::plan::{
    copy_types, insts_view, range_vec, spec_range, FuncBody, FuncDecl, Inst, InstV, Linkage, ObjectPlan,
};
use crate::common::maps::IdMap;
use crate::common::{concat, str_eq, usize_to_string, NodeID};
use crate::core_ir::ast as core_a;
use crate::error::InternalError;

verus! {

/// What has been built so far of a function body: its instructions, the next free value
/// and stack slot numbers, and the value each local variable stands for.
pub struct PlanState {
    pub insts: Seq<InstV>,
    pub next_val: usize,
    pub next_slot: usize,
    pub vars: Map<usize, usize>,
}

/// `st` with the instruction `i` appended.
pub open spec fn spec_emit(st: PlanState, i: InstV) -> PlanState {
    PlanState { insts: st.insts.push(i), next_val: st.next_val, next_slot: st.next_slot, vars: st.vars }
}

/// `st` with the instruction `i` appended, which defines the next value.
pub open spec fn spec_emit_val(st: PlanState, i: InstV) -> PlanState {
    PlanState {
        insts: st.insts.push(i),
        next_val: (st.next_val + 1) as usize,
        next_slot: st.next_slot,
        vars: st.vars,
    }
}

/// The values of a call or return: none, or the one there is.
pub open spec fn spec_opt_vals(r: Option<usize>) -> Seq<usize> {
    match r {
        Some(v) => seq![v],
        None => seq![],
    }
}

/// Lowering a core value: the unit value has none; a local variable is the value it stands
/// for; a global is the address of the declared function; a constant is an integer
/// constant of its type. `fs` maps each declared function to its numbers of parameters and
/// results. `None` is an error: an unbound variable, an undeclared function, or no value
/// number left.
pub open spec fn spec_tr_value(v: core_a::Value, st: PlanState, fs: Map<usize, (usize, usize)>) -> Option<
    (Option<usize>, PlanState),
> {
    match v {
        core_a::Value::Unit => Some((None, st)),
        core_a::Value::Var(core_a::VarRef::Local(id)) => if st.vars.contains_key(id.0) {
            Some((Some(st.vars[id.0]), st))
        } else {
            None
        },
        core_a::Value::Var(core_a::VarRef::Global(n)) => if fs.contains_key(n.id) && st.next_val < usize::MAX {
            Some((Some(st.next_val), spec_emit_val(st, InstV::FuncAddr { dst: st.next_val, func: n })))
        } else {
            None
        },
        core_a::Value::Const(n, tp) => if st.next_val < usize::MAX {
            Some((Some(st.next_val), spec_emit_val(st, InstV::Iconst { dst: st.next_val, tp, imm: n as i64 })))
        } else {
            None
        },
    }
}

/// Lowering a core expression from `st`: the value it yields, if any, and the state after
/// it. Arguments are lowered in order, those without a value dropped, then the callee, whose
/// call has one result value per result type; a return returns the value of its operand,
/// if any; a `let` binds the value of its operand, if any; a stack slot yields its address;
/// a store of a value with no value, or to an address with no value, stores nothing; a load
/// needs an address. Loops and builtins have no lowering yet. `None` is an error.
pub open spec fn spec_lower(e: core_a::Expr, st: PlanState, fs: Map<usize, (usize, usize)>) -> Option<
    (Option<usize>, PlanState),
>
    decreases e,
{
    match e {
        core_a::Expr::Value(v) => spec_tr_value(v, st, fs),
        core_a::Expr::FunCall { expr, args, sig } => match spec_lower_args(args@, st, fs) {
            Some((vals, st1)) => match spec_lower(*expr, st1, fs) {
                Some((Some(callee), st2)) => {
                    let k = sig.returns@.len();
                    if st2.next_val + k <= usize::MAX {
                        let i = InstV::CallIndirect {
                            dsts: spec_range(st2.next_val, k),
                            params: sig.params@,
                            returns: sig.returns@,
                            callee,
                            args: vals,
                        };
                        Some(
                            (
                                if k > 0 {
                                    Some(st2.next_val)
                                } else {
                                    None
                                },
                                PlanState {
                                    insts: st2.insts.push(i),
                                    next_val: (st2.next_val + k) as usize,
                                    next_slot: st2.next_slot,
                                    vars: st2.vars,
                                },
                            ),
                        )
                    } else {
                        None
                    }
                },
                _ => None,
            },
            None => None,
        },
        core_a::Expr::Return { expr } => match spec_lower(*expr, st, fs) {
            Some((r, st1)) => Some((None, spec_emit(st1, InstV::Return { vals: spec_opt_vals(r) }))),
            None => None,
        },
        core_a::Expr::Let { id, e1 } => match spec_lower(*e1, st, fs) {
            Some((Some(v), st1)) => Some(
                (
                    None,
                    PlanState {
                        insts: st1.insts,
                        next_val: st1.next_val,
                        next_slot: st1.next_slot,
                        vars: st1.vars.insert(id.0, v),
                    },
                ),
            ),
            Some((None, st1)) => Some((None, st1)),
            None => None,
        },
        core_a::Expr::Block { exprs, last_expr } => match spec_lower_block(exprs@, st, fs) {
            Some(st1) => spec_lower(*last_expr, st1, fs),
            None => None,
        },
        core_a::Expr::StackSlot { size } => if st.next_slot < usize::MAX && st.next_val < usize::MAX {
            Some(
                (
                    Some(st.next_val),
                    PlanState {
                        insts: st.insts.push(InstV::StackSlot { slot: st.next_slot, size, align_shift: 0 }).push(
                            InstV::StackAddr { dst: st.next_val, slot: st.next_slot, offset: 0 },
                        ),
                        next_val: (st.next_val + 1) as usize,
                        next_slot: (st.next_slot + 1) as usize,
                        vars: st.vars,
                    },
                ),
            )
        } else {
            None
        },
        core_a::Expr::Store { ptr, val, offset } => match spec_lower(*val, st, fs) {
            Some((Some(x), st1)) => match spec_lower(*ptr, st1, fs) {
                Some((Some(p), st2)) => Some((None, spec_emit(st2, InstV::Store { val: x, addr: p, offset }))),
                Some((None, st2)) => Some((None, st2)),
                None => None,
            },
            Some((None, st1)) => Some((None, st1)),
            None => None,
        },
        core_a::Expr::Load { tp, ptr, offset } => match spec_lower(*ptr, st, fs) {
            Some((Some(p), st1)) => if st1.next_val < usize::MAX {
                Some(
                    (
                        Some(st1.next_val),
                        spec_emit_val(st1, InstV::Load { dst: st1.next_val, tp, addr: p, offset }),
                    ),
                )
            } else {
                None
            },
            _ => None,
        },
        core_a::Expr::While { .. } => None,
        core_a::Expr::Builtin { .. } => None,
    }
}

/// Lowering call arguments in order: the values of those that have one, and the state after.
pub open spec fn spec_lower_args(es: Seq<core_a::Expr>, st: PlanState, fs: Map<usize, (usize, usize)>) -> Option<
    (Seq<usize>, PlanState),
>
    decreases es,
{
    if es.len() == 0 {
        Some((seq![], st))
    } else {
        match spec_lower_args(es.subrange(0, es.len() - 1), st, fs) {
            Some((vals, st1)) => match spec_lower(es[es.len() - 1], st1, fs) {
                Some((r, st2)) => Some((vals + spec_opt_vals(r), st2)),
                None => None,
            },
            None => None,
        }
    }
}

/// Lowering the statements of a block in order, their values dropped.
pub open spec fn spec_lower_block(es: Seq<core_a::Expr>, st: PlanState, fs: Map<usize, (usize, usize)>) -> Option<
    PlanState,
>
    decreases es,
{
    if es.len() == 0 {
        Some(st)
    } else {
        match spec_lower_block(es.subrange(0, es.len() - 1), st, fs) {
            Some(st1) => match spec_lower(es[es.len() - 1], st1, fs) {
                Some((_, st2)) => Some(st2),
                None => None,
            },
            None => None,
        }
    }
}

/// A failed prefix fails the whole list of arguments.
pub proof fn lemma_args_fail(es: Seq<core_a::Expr>, j: int, st: PlanState, fs: Map<usize, (usize, usize)>)
    requires
        0 <= j <= es.len(),
        spec_lower_args(es.subrange(0, j), st, fs) is None,
    ensures
        spec_lower_args(es, st, fs) is None,
    decreases es.len() - j,
{
    if j == es.len() {
        assert(es.subrange(0, j) =~= es);
    } else {
        let es1 = es.subrange(0, es.len() - 1);
        assert(es1.subrange(0, j) =~= es.subrange(0, j));
        lemma_args_fail(es1, j, st, fs);
    }
}

/// The values of a prefix of the arguments come first, in the same order, among the values
/// of all of them.
pub proof fn lemma_args_prefix(es: Seq<core_a::Expr>, j: int, st: PlanState, fs: Map<usize, (usize, usize)>)
    requires
        0 <= j <= es.len(),
        spec_lower_args(es, st, fs) is Some,
    ensures
        spec_lower_args(es.subrange(0, j), st, fs) matches Some((pv, _)) && pv.len() <= spec_lower_args(
            es,
            st,
            fs,
        )->Some_0.0.len() && spec_lower_args(es, st, fs)->Some_0.0.subrange(0, pv.len() as int) == pv,
    decreases es.len() - j,
{
    if j == es.len() {
        assert(es.subrange(0, j) =~= es);
        let vals = spec_lower_args(es, st, fs)->Some_0.0;
        assert(vals.subrange(0, vals.len() as int) =~= vals);
    } else {
        let es1 = es.subrange(0, es.len() - 1);
        assert(es1.subrange(0, j) =~= es.subrange(0, j));
        lemma_args_prefix(es1, j, st, fs);
        let v1 = spec_lower_args(es1, st, fs)->Some_0.0;
        let vals = spec_lower_args(es, st, fs)->Some_0.0;
        let pv = spec_lower_args(es.subrange(0, j), st, fs)->Some_0.0;
        assert(vals.subrange(0, pv.len() as int) =~= v1.subrange(0, pv.len() as int));
    }
}

/// Call arguments are passed in the order they are written: when the `i`-th argument yields
/// a value, lowered after the arguments before it, that value comes among the values passed
/// right after the values of those arguments (the `i`-th, when every argument has a value).
pub proof fn lemma_args_in_order(es: Seq<core_a::Expr>, i: int, st: PlanState, fs: Map<usize, (usize, usize)>)
    requires
        0 <= i < es.len(),
        spec_lower_args(es, st, fs) is Some,
    ensures
        spec_lower_args(es.subrange(0, i), st, fs) matches Some((pv, si)) && (spec_lower(es[i], si, fs) matches Some(
            (Some(v), _),
        ) ==> pv.len() < spec_lower_args(es, st, fs)->Some_0.0.len() && spec_lower_args(es, st, fs)->Some_0.0[pv.len() as int]
            == v),
{
    lemma_args_prefix(es, i + 1, st, fs);
    lemma_args_prefix(es, i, st, fs);
    let e1 = es.subrange(0, i + 1);
    assert(e1.subrange(0, i) =~= es.subrange(0, i));
    assert(e1[i] == es[i]);
    let pv = spec_lower_args(es.subrange(0, i), st, fs)->Some_0.0;
    let si = spec_lower_args(es.subrange(0, i), st, fs)->Some_0.1;
    let vals = spec_lower_args(es, st, fs)->Some_0.0;
    if let Some((Some(v), _)) = spec_lower(es[i], si, fs) {
        let p1 = spec_lower_args(e1, st, fs)->Some_0.0;
        assert(p1 == pv + seq![v]);
        assert(vals.subrange(0, p1.len() as int)[pv.len() as int] == vals[pv.len() as int]);
    }
}

/// When every argument yields a value, the values passed are exactly one per argument, the
/// `i`-th being the value of the `i`-th argument.
pub proof fn lemma_args_all_valued(es: Seq<core_a::Expr>, i: int, st: PlanState, fs: Map<usize, (usize, usize)>)
    requires
        0 <= i < es.len(),
        spec_lower_args(es, st, fs) is Some,
        forall|j: int| 0 <= j <= es.len() ==> (#[trigger] spec_lower_args(es.subrange(0, j), st, fs) matches Some((pv, _))
            && pv.len() == j),
    ensures
        spec_lower_args(es.subrange(0, i), st, fs) matches Some((_, si)) && (spec_lower(es[i], si, fs) matches Some(
            (Some(v), _),
        ) ==> spec_lower_args(es, st, fs)->Some_0.0[i] == v),
{
    lemma_args_in_order(es, i, st, fs);
    assert(spec_lower_args(es.subrange(0, i), st, fs)->Some_0.0.len() == i);
}

/// A failed prefix fails the whole block.
pub proof fn lemma_block_fail(es: Seq<core_a::Expr>, j: int, st: PlanState, fs: Map<usize, (usize, usize)>)
    requires
        0 <= j <= es.len(),
        spec_lower_block(es.subrange(0, j), st, fs) is None,
    ensures
        spec_lower_block(es, st, fs) is None,
    decreases es.len() - j,
{
    if j == es.len() {
        assert(es.subrange(0, j) =~= es);
    } else {
        let es1 = es.subrange(0, es.len() - 1);
        assert(es1.subrange(0, j) =~= es.subrange(0, j));
        lemma_block_fail(es1, j, st, fs);
    }
}

/// The values the arguments of a function stand for: the `i`-th of the first `n` arguments
/// is the `i`-th parameter value; of two arguments with one variable, the later wins.
pub open spec fn spec_arg_vars(args: Seq<(core_a::VarID, core_a::Type)>, n: nat) -> Map<usize, usize>
    decreases n,
{
    if n == 0 || n > args.len() {
        Map::empty()
    } else {
        spec_arg_vars(args, (n - 1) as nat).insert(args[n - 1].0.0, (n - 1) as usize)
    }
}

/// The instructions of a function body: the entry block with one value per declared
/// parameter, the arguments bound to them (as many as there are both), the body lowered,
/// and a return of its value, if any. `None` is an error: the function is not declared, or
/// its body has no lowering.
pub open spec fn spec_func_insts(f: core_a::Func, fs: Map<usize, (usize, usize)>) -> Option<Seq<InstV>> {
    if fs.contains_key(f.id.id) {
        let np = fs[f.id.id].0;
        let na = if np < f.args@.len() {
            np as nat
        } else {
            f.args@.len()
        };
        let st0 = PlanState {
            insts: seq![InstV::Entry { params: spec_range(0, np as nat) }],
            next_val: np,
            next_slot: 0,
            vars: spec_arg_vars(f.args@, na),
        };
        match spec_lower(f.body, st0, fs) {
            Some((r, st)) => Some(st.insts.push(InstV::Return { vals: spec_opt_vals(r) })),
            None => None,
        }
    } else {
        None
    }
}

/// The symbol name of a declaration: `id_` and its id when mangled, else its own name.
pub open spec fn spec_sym_name(id: NodeID, s: core_a::Symbol) -> Seq<char> {
    if s.mangle {
        spec_node_text(id.id)
    } else {
        s.name@
    }
}

/// The parameter and result types of a symbol.
pub open spec fn spec_sym_params(s: core_a::Symbol) -> Seq<core_a::Type> {
    match s.kind {
        core_a::SymKind::Func { args, .. } => args@,
        core_a::SymKind::BuiltinFunc { args, .. } => args@,
    }
}

pub open spec fn spec_sym_returns(s: core_a::Symbol) -> Seq<core_a::Type> {
    match s.kind {
        core_a::SymKind::Func { returns: rs, .. } => rs@,
        core_a::SymKind::BuiltinFunc { returns: rs, .. } => rs@,
    }
}

/// `d` declares the symbol `s` under `id`: its name, exported when external, and its
/// signature.
pub open spec fn spec_decl(id: NodeID, s: core_a::Symbol, d: FuncDecl) -> bool {
    &&& d.id == id
    &&& d.name@ == spec_sym_name(id, s)
    &&& d.link == (if s.is_extern {
        Linkage::Export
    } else {
        Linkage::Local
    })
    &&& d.params@ == spec_sym_params(s)
    &&& d.returns@ == spec_sym_returns(s)
}

/// A symbol can be declared: a function, or the builtin `i32_add` with at least two
/// parameters.
pub open spec fn spec_sym_ok(s: core_a::Symbol) -> bool {
    match s.kind {
        core_a::SymKind::Func { .. } => true,
        core_a::SymKind::BuiltinFunc { args, item_name, .. } => item_name@ == "i32_add"@ && 2 <= args@.len()
            < usize::MAX,
    }
}

/// The body of the builtin `i32_add` with `n` parameters: the sum of the first two.
pub open spec fn spec_builtin_insts(n: usize) -> Seq<InstV> {
    seq![
        InstV::Entry { params: spec_range(0, n as nat) },
        InstV::Iadd { dst: n, lhs: 0, rhs: 1 },
        InstV::Return { vals: seq![n] },
    ]
}

/// A body as its id and the views of its instructions.
pub open spec fn spec_body_view(b: FuncBody) -> (NodeID, Seq<InstV>) {
    (b.id, insts_view(b.insts@))
}

/// The bodies of the builtin symbols among `es`, in order.
pub open spec fn spec_builtin_bodies(es: Seq<(usize, core_a::Symbol)>) -> Seq<(NodeID, Seq<InstV>)>
    decreases es.len(),
{
    if es.len() == 0 {
        seq![]
    } else {
        let last = es[es.len() - 1];
        spec_builtin_bodies(es.subrange(0, es.len() - 1)) + match last.1.kind {
            core_a::SymKind::BuiltinFunc { args, .. } => seq![
                (NodeID { id: last.0 }, spec_builtin_insts(args@.len() as usize)),
            ],
            core_a::SymKind::Func { .. } => seq![],
        }
    }
}

/// The numbers of parameters and results of each declared function of a program.
pub open spec fn spec_fn_sigs(prog: core_a::Program) -> Map<usize, (usize, usize)> {
    Map::new(
        |k: usize| prog.symbols.has(k),
        |k: usize|
            (
                spec_sym_params(prog.symbols.value(k)).len() as usize,
                spec_sym_returns(prog.symbols.value(k)).len() as usize,
            ),
    )
}

/// The body of a function that has one.
pub open spec fn spec_body_of(f: core_a::Func, fs: Map<usize, (usize, usize)>) -> Seq<InstV> {
    match spec_func_insts(f, fs) {
        Some(is) => is,
        None => seq![],
    }
}

/// Lowers the core representation into an object-code plan, one function at a time.
pub struct Lowerer {
    /// The declared functions, by id, with their numbers of parameters and results.
    pub id_fn_map: IdMap<(usize, usize)>,
    /// The value each local variable of the current function stands for.
    pub variables: IdMap<usize>,
    /// The instructions of the current function so far.
    pub insts: Vec<Inst>,
    pub next_val: usize,
    pub next_slot: usize,
    pub decls: Vec<FuncDecl>,
    pub bodies: Vec<FuncBody>,
}

impl Lowerer {
    pub open spec fn wf(self) -> bool {
        self.id_fn_map.keys_unique() && self.variables.keys_unique()
    }

    /// The state of the current function body.
    pub open spec fn state(self) -> PlanState {
        PlanState {
            insts: insts_view(self.insts@),
            next_val: self.next_val,
            next_slot: self.next_slot,
            vars: self.variables.as_map(),
        }
    }

    pub fn new() -> (res: Self)
        ensures
            res.wf(),
            res.decls@.len() == 0,
            res.bodies@.len() == 0,
            res.id_fn_map.entries@.len() == 0,
    {
        Lowerer {
            id_fn_map: IdMap::new(),
            variables: IdMap::new(),
            insts: Vec::new(),
            next_val: 0,
            next_slot: 0,
            decls: Vec::new(),
            bodies: Vec::new(),
        }
    }

    /// Appends an instruction to the current body.
    fn push_inst(&mut self, i: Inst)
        ensures
            final(self).insts@ == old(self).insts@.push(i),
            final(self).state().insts == old(self).state().insts.push(i@),
            final(self).next_val == old(self).next_val,
            final(self).next_slot == old(self).next_slot,
            final(self).variables == old(self).variables,
            final(self).id_fn_map == old(self).id_fn_map,
            final(self).decls == old(self).decls,
            final(self).bodies == old(self).bodies,
    {
        self.insts.push(i);
        assert(insts_view(self.insts@) =~= insts_view(old(self).insts@).push(i@));
    }

    /// Lowers a core value; see `spec_tr_value`.
    pub fn tr_value(&mut self, v: core_a::Value) -> (res: Result<Option<usize>, InternalError>)
        requires
            old(self).wf(),
        ensures
            final(self).wf(),
            final(self).id_fn_map == old(self).id_fn_map,
            final(self).decls == old(self).decls,
            final(self).bodies == old(self).bodies,
            match spec_tr_value(v, old(self).state(), old(self).id_fn_map.as_map()) {
                Some((r, st)) => res matches Ok(x) && x == r && final(self).state() == st,
                None => res is Err,
            },
    {
        match v {
            core_a::Value::Unit => Ok(None),
            core_a::Value::Var(core_a::VarRef::Local(var_id)) => match self.variables.get(var_id.get()) {
                Some(x) => Ok(Some(*x)),
                None => Err(InternalError::msg("a variable has no value")),
            },
            core_a::Value::Var(core_a::VarRef::Global(node_id)) => {
                if !self.id_fn_map.contains_key(node_id.id) {
                    return Err(InternalError::msg("a function is not declared"));
                }
                if self.next_val == usize::MAX {
                    return Err(InternalError::msg("out of value numbers"));
                }
                let dst = self.next_val;
                self.push_inst(Inst::FuncAddr { dst, func: node_id });
                self.next_val = dst + 1;
                Ok(Some(dst))
            },
            core_a::Value::Const(n, tp) => {
                if self.next_val == usize::MAX {
                    return Err(InternalError::msg("out of value numbers"));
                }
                let dst = self.next_val;
                self.push_inst(Inst::Iconst { dst, tp, imm: n as i64 });
                self.next_val = dst + 1;
                Ok(Some(dst))
            },
        }
    }

    /// Lowers a core expression into the current body; see `spec_lower`.
    pub fn lower_expr(&mut self, e: core_a::Expr) -> (res: Result<Option<usize>, InternalError>)
        requires
            old(self).wf(),
        ensures
            final(self).wf(),
            final(self).id_fn_map == old(self).id_fn_map,
            final(self).decls == old(self).decls,
            final(self).bodies == old(self).bodies,
            match spec_lower(e, old(self).state(), old(self).id_fn_map.as_map()) {
                Some((r, st)) => res matches Ok(x) && x == r && final(self).state() == st,
                None => res is Err,
            },
        decreases e,
    {
        let ghost e0 = e;
        let ghost fs = self.id_fn_map.as_map();
        let ghost st0 = self.state();
        match e {
            core_a::Expr::Value(value) => self.tr_value(value),
            core_a::Expr::FunCall { expr, args, sig } => {
                let ghost all = args@;
                let ghost v0 = args;
                let mut rest = args;
                let mut fn_args: Vec<usize> = Vec::new();
                let n = rest.len();
                let mut k: usize = 0;
                assert(all.subrange(0, 0) =~= seq![]);
                while rest.len() > 0
                    invariant
                        k <= n,
                        n == all.len(),
                        v0@ == all,
                        e0 == (core_a::Expr::FunCall { expr, args: v0, sig }),
                        e0 == e,
                        st0 == old(self).state(),
                        rest@ == all.subrange(k as int, n as int),
                        self.wf(),
                        self.id_fn_map.as_map() == fs,
                        self.decls == old(self).decls,
                        self.bodies == old(self).bodies,
                        self.id_fn_map == old(self).id_fn_map,
                        spec_lower_args(all.subrange(0, k as int), st0, fs) == Some((fn_args@, self.state())),
                    decreases n - k,
                {
                    let item = rest.remove(0);
                    assert(item == all[k as int]);
                    assert(decreases_to!(e0 => item)) by {
                        assert(e0->FunCall_args == v0);
                        assert(decreases_to!(e0 => e0->FunCall_args));
                        assert(decreases_to!(v0 => v0@));
                        assert(decreases_to!(v0@ => v0@[k as int]));
                    }
                    let ghost pre = all.subrange(0, k as int);
                    let ghost st_k = self.state();
                    assert(all.subrange(0, k + 1).subrange(0, k as int) =~= pre);
                    assert(all.subrange(0, k + 1)[k as int] == item);
                    let r = match self.lower_expr(item) {
                        Ok(r) => r,
                        Err(err) => {
                            proof {
                                let es = all.subrange(0, k + 1);
                                assert(es.subrange(0, es.len() - 1) =~= pre);
                                assert(spec_lower(item, st_k, fs) is None);
                                assert(spec_lower_args(es, st0, fs) is None);
                                lemma_args_fail(all, k + 1, st0, fs);
                                assert(spec_lower_args(e0->FunCall_args@, st0, fs) is None);
                            }
                            return Err(err);
                        },
                    };
                    let ghost old_args = fn_args@;
                    match r {
                        Some(v) => {
                            fn_args.push(v);
                        },
                        None => {},
                    }
                    assert(fn_args@ =~= old_args + spec_opt_vals(r));
                    k = k + 1;
                    assert(rest@ =~= all.subrange(k as int, n as int));
                }
                assert(all.subrange(0, n as int) =~= all);
                let callee = match self.lower_expr(*expr)? {
                    Some(c) => c,
                    None => {
                        return Err(InternalError::msg("a callee without a value"));
                    },
                };
                let k_ret = sig.returns.len();
                if self.next_val > usize::MAX - k_ret {
                    return Err(InternalError::msg("out of value numbers"));
                }
                let first = self.next_val;
                let dsts = range_vec(first, k_ret);
                let params = copy_types(&sig.params);
                let rets = copy_types(&sig.returns);
                self.push_inst(Inst::CallIndirect { dsts, params, returns: rets, callee, args: fn_args });
                self.next_val = first + k_ret;
                if k_ret > 0 {
                    Ok(Some(first))
                } else {
                    Ok(None)
                }
            },
            core_a::Expr::Return { expr } => {
                let r = self.lower_expr(*expr)?;
                let vals = match r {
                    Some(v) => vec![v],
                    None => Vec::new(),
                };
                assert(vals@ =~= spec_opt_vals(r));
                self.push_inst(Inst::Return { vals });
                Ok(None)
            },
            core_a::Expr::Let { id, e1 } => {
                let r = self.lower_expr(*e1)?;
                match r {
                    Some(v) => {
                        let ghost before = self.variables;
                        let _ = self.variables.insert(id.get(), v);
                        assert(self.variables.as_map() =~= before.as_map().insert(id.0, v));
                    },
                    None => {},
                }
                Ok(None)
            },
            core_a::Expr::Block { exprs, last_expr } => {
                let ghost all = exprs@;
                let ghost v0 = exprs;
                let mut rest = exprs;
                let n = rest.len();
                let mut k: usize = 0;
                while rest.len() > 0
                    invariant
                        k <= n,
                        n == all.len(),
                        v0@ == all,
                        e0 == (core_a::Expr::Block { exprs: v0, last_expr }),
                        e0 == e,
                        st0 == old(self).state(),
                        rest@ == all.subrange(k as int, n as int),
                        self.wf(),
                        self.id_fn_map.as_map() == fs,
                        self.decls == old(self).decls,
                        self.bodies == old(self).bodies,
                        self.id_fn_map == old(self).id_fn_map,
                        spec_lower_block(all.subrange(0, k as int), st0, fs) == Some(self.state()),
                    decreases n - k,
                {
                    let item = rest.remove(0);
                    assert(item == all[k as int]);
                    assert(decreases_to!(e0 => item)) by {
                        assert(e0->Block_exprs == v0);
                        assert(decreases_to!(e0 => e0->Block_exprs));
                        assert(decreases_to!(v0 => v0@));
                        assert(decreases_to!(v0@ => v0@[k as int]));
                    }
                    assert(all.subrange(0, k + 1).subrange(0, k as int) =~= all.subrange(0, k as int));
                    assert(all.subrange(0, k + 1)[k as int] == item);
                    let ghost st_k = self.state();
                    match self.lower_expr(item) {
                        Ok(_) => {},
                        Err(err) => {
                            proof {
                                let es = all.subrange(0, k + 1);
                                assert(es.subrange(0, es.len() - 1) =~= all.subrange(0, k as int));
                                assert(spec_lower(item, st_k, fs) is None);
                                assert(spec_lower_block(es, st0, fs) is None);
                                lemma_block_fail(all, k + 1, st0, fs);
                                assert(spec_lower_block(e0->Block_exprs@, st0, fs) is None);
                            }
                            return Err(err);
                        },
                    }
                    k = k + 1;
                    assert(rest@ =~= all.subrange(k as int, n as int));
                }
                assert(all.subrange(0, n as int) =~= all);
                self.lower_expr(*last_expr)
            },
            core_a::Expr::While { .. } => Err(InternalError::msg("loops are not lowered yet")),
            core_a::Expr::Builtin { .. } => Err(InternalError::msg("builtins are not lowered yet")),
            core_a::Expr::StackSlot { size } => {
                if self.next_slot == usize::MAX || self.next_val == usize::MAX {
                    return Err(InternalError::msg("out of value or slot numbers"));
                }
                let slot = self.next_slot;
                let dst = self.next_val;
                self.push_inst(Inst::StackSlot { slot, size, align_shift: 0 });
                self.push_inst(Inst::StackAddr { dst, slot, offset: 0 });
                self.next_slot = slot + 1;
                self.next_val = dst + 1;
                Ok(Some(dst))
            },
            core_a::Expr::Store { ptr, val, offset } => {
                let x = match self.lower_expr(*val)? {
                    Some(x) => x,
                    None => {
                        return Ok(None);
                    },
                };
                let p = match self.lower_expr(*ptr)? {
                    Some(p) => p,
                    None => {
                        return Ok(None);
                    },
                };
                self.push_inst(Inst::Store { val: x, addr: p, offset });
                Ok(None)
            },
            core_a::Expr::Load { tp, ptr, offset } => {
                let p = match self.lower_expr(*ptr)? {
                    Some(p) => p,
                    None => {
                        return Err(InternalError::msg("a load from nothing"));
                    },
                };
                if self.next_val == usize::MAX {
                    return Err(InternalError::msg("out of value numbers"));
                }
                let dst = self.next_val;
                self.push_inst(Inst::Load { dst, tp, addr: p, offset });
                self.next_val = dst + 1;
                Ok(Some(dst))
            },
        }
    }

    /// Declares a symbol, and defines the body of a builtin one. The error comes for a
    /// builtin other than `i32_add`, or one with fewer than two parameters.
    pub fn declare_sym(&mut self, id: NodeID, f: &core_a::Symbol) -> (res: Result<(), InternalError>)
        requires
            old(self).wf(),
        ensures
            final(self).wf(),
            final(self).variables == old(self).variables,
            res is Ok <==> spec_sym_ok(*f),
            res is Ok ==> {
                &&& final(self).decls@.len() == old(self).decls@.len() + 1
                &&& final(self).decls@.subrange(0, old(self).decls@.len() as int) == old(self).decls@
                &&& spec_decl(id, *f, final(self).decls@[old(self).decls@.len() as int])
                &&& final(self).id_fn_map.as_map() == old(self).id_fn_map.as_map().insert(
                    id.id,
                    (spec_sym_params(*f).len() as usize, spec_sym_returns(*f).len() as usize),
                )
                &&& final(self).bodies@.map_values(|b: FuncBody| spec_body_view(b))
                    == old(self).bodies@.map_values(|b: FuncBody| spec_body_view(b)) + match f.kind {
                    core_a::SymKind::BuiltinFunc { args, .. } => seq![
                        (id, spec_builtin_insts(args@.len() as usize)),
                    ],
                    core_a::SymKind::Func { .. } => seq![],
                }
            },
    {
        let (args, rets) = match &f.kind {
            core_a::SymKind::Func { args, returns: rs } => (args, rs),
            core_a::SymKind::BuiltinFunc { args, returns: rs, .. } => (args, rs),
        };
        match &f.kind {
            core_a::SymKind::BuiltinFunc { item_name, .. } => {
                if !str_eq(item_name.as_str(), "i32_add") {
                    return Err(InternalError::msg("this builtin function has no definition yet"));
                }
                if args.len() < 2 || args.len() == usize::MAX {
                    return Err(InternalError::msg("the builtin i32_add takes two arguments"));
                }
            },
            core_a::SymKind::Func { .. } => {},
        }
        let name = if f.mangle {
            let digits = usize_to_string(id.id);
            concat("id_", digits.as_str())
        } else {
            f.name.clone()
        };
        let link = if f.is_extern {
            Linkage::Export
        } else {
            Linkage::Local
        };
        let decl = FuncDecl { id, name, link, params: copy_types(args), returns: copy_types(rets) };
        let ghost old_decls = self.decls@;
        self.decls.push(decl);
        assert(self.decls@.subrange(0, old_decls.len() as int) =~= old_decls);
        let ghost old_map = self.id_fn_map;
        let _ = self.id_fn_map.insert(id.id, (args.len(), rets.len()));
        assert(self.id_fn_map.as_map() =~= old_map.as_map().insert(id.id, (args.len(), rets.len())));
        let ghost old_bodies = self.bodies@;
        match &f.kind {
            core_a::SymKind::BuiltinFunc { .. } => {
                let n = args.len();
                let mut insts: Vec<Inst> = Vec::new();
                insts.push(Inst::Entry { params: range_vec(0, n) });
                insts.push(Inst::Iadd { dst: n, lhs: 0, rhs: 1 });
                let vals = vec![n];
                assert(vals@ =~= seq![n]);
                insts.push(Inst::Return { vals });
                let body = FuncBody { id, insts };
                assert(insts_view(body.insts@) =~= spec_builtin_insts(n));
                self.bodies.push(body);
                assert(self.bodies@.map_values(|b: FuncBody| spec_body_view(b)) =~= old_bodies.map_values(
                    |b: FuncBody| spec_body_view(b),
                ) + seq![(id, spec_builtin_insts(n))]);
            },
            core_a::SymKind::Func { .. } => {
                assert(self.bodies@.map_values(|b: FuncBody| spec_body_view(b)) =~= old_bodies.map_values(
                    |b: FuncBody| spec_body_view(b),
                ) + seq![]);
            },
        }
        Ok(())
    }

    /// Lowers a function into a body. The error comes where `spec_func_insts` has none.
    pub fn emit_func(&mut self, f: core_a::Func) -> (res: Result<(), InternalError>)
        requires
            old(self).wf(),
        ensures
            final(self).wf(),
            final(self).id_fn_map == old(self).id_fn_map,
            final(self).decls == old(self).decls,
            match spec_func_insts(f, old(self).id_fn_map.as_map()) {
                Some(is) => {
                    &&& res is Ok
                    &&& final(self).bodies@.map_values(|b: FuncBody| spec_body_view(b)) == old(
                        self,
                    ).bodies@.map_values(|b: FuncBody| spec_body_view(b)).push((f.id, is))
                },
                None => res is Err,
            },
    {
        let ghost fs = self.id_fn_map.as_map();
        let np = match self.id_fn_map.get(f.id.id) {
            Some(sig) => sig.0,
            None => {
                return Err(InternalError::msg("the function is not declared"));
            },
        };
        let mut insts: Vec<Inst> = Vec::new();
        std::mem::swap(&mut insts, &mut self.insts);
        self.variables = IdMap::new();
        self.next_val = np;
        self.next_slot = 0;
        self.push_inst(Inst::Entry { params: range_vec(0, np) });
        let na = if np < f.args.len() {
            np
        } else {
            f.args.len()
        };
        let mut i: usize = 0;
        while i < na
            invariant
                i <= na,
                na <= f.args@.len(),
                na <= np,
                self.wf(),
                self.id_fn_map == old(self).id_fn_map,
                self.decls == old(self).decls,
                self.bodies == old(self).bodies,
                self.variables.as_map() == spec_arg_vars(f.args@, i as nat),
                self.insts@.len() == 1,
                self.next_val == np,
                self.next_slot == 0,
                insts_view(self.insts@) == seq![InstV::Entry { params: spec_range(0, np as nat) }],
            decreases na - i,
        {
            let ghost before = self.variables;
            let _ = self.variables.insert(f.args[i].0.get(), i);
            assert(self.variables.as_map() =~= before.as_map().insert(f.args@[i as int].0.0, i));
            i = i + 1;
        }
        let ghost st0 = self.state();
        let r = self.lower_expr(f.body)?;
        let vals = match r {
            Some(v) => vec![v],
            None => Vec::new(),
        };
        assert(vals@ =~= spec_opt_vals(r));
        self.push_inst(Inst::Return { vals });
        let mut body_insts: Vec<Inst> = Vec::new();
        std::mem::swap(&mut body_insts, &mut self.insts);
        let body = FuncBody { id: f.id, insts: body_insts };
        let ghost old_bodies = self.bodies@;
        self.bodies.push(body);
        self.variables = IdMap::new();
        assert(self.bodies@.map_values(|b: FuncBody| spec_body_view(b)) =~= old_bodies.map_values(
            |b: FuncBody| spec_body_view(b),
        ).push((f.id, insts_view(body_insts@))));
        Ok(())
    }

}

} // verus!

verus! {

/// Plans an object file for a core program: every symbol declared in order (builtin bodies
/// defined as they come), then every function lowered in order. The error comes for a
/// symbol that cannot be declared or a function whose body cannot be lowered.
pub fn translate(prog: core_a::Program) -> (res: Result<ObjectPlan, InternalError>)
    requires
        prog.symbols.keys_unique(),
    ensures
        res is Ok <==> {
            &&& forall|i: int| 0 <= i < prog.symbols.entries@.len() ==> spec_sym_ok(#[trigger] prog.symbols.entries@[i].1)
            &&& forall|j: int|
                0 <= j < prog.functions@.len() ==> (spec_func_insts(#[trigger] prog.functions@[j], spec_fn_sigs(prog)) is Some)
        },
        res matches Ok(p) ==> {
            &&& p.decls@.len() == prog.symbols.entries@.len()
            &&& forall|i: int|
                0 <= i < p.decls@.len() ==> spec_decl(
                    NodeID { id: prog.symbols.entries@[i].0 },
                    prog.symbols.entries@[i].1,
                    #[trigger] p.decls@[i],
                )
            &&& p.bodies@.map_values(|b: FuncBody| spec_body_view(b)) == spec_builtin_bodies(prog.symbols.entries@)
                + prog.functions@.map_values(|f: core_a::Func| (f.id, spec_body_of(f, spec_fn_sigs(prog))))
        },
{
    let mut l = Lowerer::new();
    let ghost es = prog.symbols.entries@;
    let n = prog.symbols.entries.len();
    let mut j: usize = 0;
    while j < n
        invariant
            n == es.len(),
            es == prog.symbols.entries@,
            prog.symbols.keys_unique(),
            j <= n,
            l.wf(),
            forall|i: int| 0 <= i < j ==> spec_sym_ok(#[trigger] es[i].1),
            l.decls@.len() == j,
            forall|i: int| 0 <= i < j ==> spec_decl(NodeID { id: es[i].0 }, es[i].1, #[trigger] l.decls@[i]),
            l.bodies@.map_values(|b: FuncBody| spec_body_view(b)) == spec_builtin_bodies(es.subrange(0, j as int)),
            forall|k: usize|
                #[trigger] l.id_fn_map.as_map().contains_key(k) <==> exists|i: int| 0 <= i < j && es[i].0 == k,
            forall|i: int|
                0 <= i < j ==> l.id_fn_map.as_map()[#[trigger] es[i].0] == (
                    spec_sym_params(es[i].1).len() as usize,
                    spec_sym_returns(es[i].1).len() as usize,
                ),
        decreases n - j,
    {
        let ghost m0 = l.id_fn_map.as_map();
        let ghost d0 = l.decls@;
        let ghost b0 = l.bodies@;
        match l.declare_sym(NodeID { id: prog.symbols.entries[j].0 }, &prog.symbols.entries[j].1) {
            Ok(()) => {},
            Err(e) => {
                return Err(e);
            },
        }
        proof {
            let k0 = es[j as int].0;
            assert forall|k: usize| #[trigger] l.id_fn_map.as_map().contains_key(k) <==> exists|i: int|
                0 <= i < j + 1 && es[i].0 == k by {
                if k == k0 {
                    assert(0 <= j < j + 1 && es[j as int].0 == k);
                }
                if exists|i: int| 0 <= i < j + 1 && es[i].0 == k {
                    let i = choose|i: int| 0 <= i < j + 1 && es[i].0 == k;
                    if i < j {
                        assert(m0.contains_key(k));
                    }
                }
            }
            assert forall|i: int| 0 <= i < j + 1 implies l.id_fn_map.as_map()[#[trigger] es[i].0] == (
                spec_sym_params(es[i].1).len() as usize,
                spec_sym_returns(es[i].1).len() as usize,
            ) by {
                if i < j {
                    assert(es[i].0 != es[j as int].0);
                }
            }
            assert forall|i: int| 0 <= i < j + 1 implies spec_decl(
                NodeID { id: es[i].0 },
                es[i].1,
                #[trigger] l.decls@[i],
            ) by {
                if i < j {
                    assert(l.decls@[i] == l.decls@.subrange(0, j as int)[i]);
                }
            }
            let es1 = es.subrange(0, j + 1);
            assert(es1.subrange(0, es1.len() - 1) =~= es.subrange(0, j as int));
        }
        j = j + 1;
    }
    assert(es.subrange(0, n as int) =~= es);
    proof {
        assert forall|k: usize| #[trigger] l.id_fn_map.as_map().contains_key(k) == spec_fn_sigs(prog).contains_key(k)
            by {
            if l.id_fn_map.as_map().contains_key(k) {
                let i = choose|i: int| 0 <= i < n && es[i].0 == k;
                assert(prog.symbols.entries@[i].0 == k);
            }
        }
        assert forall|k: usize| #[trigger] l.id_fn_map.as_map().contains_key(k) implies l.id_fn_map.as_map()[k]
            == spec_fn_sigs(prog)[k] by {
            let i = choose|i: int| 0 <= i < n && es[i].0 == k;
            prog.symbols.lemma_value(i);
        }
        assert(l.id_fn_map.as_map() =~= spec_fn_sigs(prog));
    }
    let ghost fs = spec_fn_sigs(prog);
    let ghost nb = spec_builtin_bodies(es);
    let ghost all = prog.functions@;
    assert(all == prog.functions@);
    let mut rest = prog.functions;
    let m = rest.len();
    let mut k: usize = 0;
    while rest.len() > 0
        invariant
            k <= m,
            m == all.len(),
            all == prog.functions@,
            fs == spec_fn_sigs(prog),
            rest@ == all.subrange(k as int, m as int),
            l.wf(),
            l.id_fn_map.as_map() == fs,
            l.decls@.len() == n,
            forall|i: int| 0 <= i < n ==> spec_decl(NodeID { id: es[i].0 }, es[i].1, #[trigger] l.decls@[i]),
            forall|i: int| 0 <= i < k ==> (spec_func_insts(#[trigger] all[i], fs) is Some),
            l.bodies@.map_values(|b: FuncBody| spec_body_view(b)) == nb + all.subrange(0, k as int).map_values(
                |f: core_a::Func| (f.id, spec_body_of(f, fs)),
            ),
        decreases m - k,
    {
        let f = rest.remove(0);
        assert(f == all[k as int]);
        let ghost b0 = l.bodies@;
        match l.emit_func(f) {
            Ok(()) => {},
            Err(e) => {
                assert(spec_func_insts(prog.functions@[k as int], spec_fn_sigs(prog)) is None);
                return Err(e);
            },
        }
        assert(all.subrange(0, k + 1).map_values(|f: core_a::Func| (f.id, spec_body_of(f, fs))) =~= all.subrange(
            0,
            k as int,
        ).map_values(|f: core_a::Func| (f.id, spec_body_of(f, fs))).push((all[k as int].id, spec_body_of(all[k as int], fs))));
        k = k + 1;
        assert(rest@ =~= all.subrange(k as int, m as int));
    }
    assert(all.subrange(0, m as int) =~= all);
    Ok(ObjectPlan { decls: l.decls, bodies: l.bodies })
}

} // verus!
