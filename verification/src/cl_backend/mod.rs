//! Lowering the middle representation directly into an object-code plan: small values live
//! in register variables, the others in stack slots.
use vstd::prelude::*;

pub mod env;
pub mod spec;

use crate::cl_backend::spec::{
    lemma_addr_fields_fail, lemma_args_stop, lemma_block_stop, lemma_ss_args_stop, lemma_ss_fields_fail,
    lemma_store_items_fail, spec_addr_fields, spec_call, spec_cl_args, spec_cl_block, spec_cl_lower, spec_lres_to_val,
    spec_opt_lres, spec_ss_args, spec_ss_fields, spec_state, spec_store_from_layout, spec_store_items,
    spec_vals_to_lres, spec_write_to_addr, spec_write_to_ss, ClState, LRes, LResV, Var, spec_cl_arg_vars,
    spec_cl_func_insts, spec_cl_body_of, spec_cl_decl, spec_cl_fn_sigs,
};
use crate::codegen::spec_body_view;
use crate::common::{concat, usize_to_string};
use crate::core_ir::core_types;
use crate::codegen::plan::{insts_view, range_vec, spec_range, FuncBody, FuncDecl, Inst, InstV, Linkage, ObjectPlan, PlanBuilder};
use crate::common::maps::IdMap;
use crate::common::{str_eq, NodeID};
use crate::core_ir::core_type;
use crate::error::InternalError;
use crate::mir::ast;
use crate::symtable::layout::{Layout, LayoutKind};

verus! {

/// The result of a call with the given result values: nothing, one value, or several.
pub fn vals_to_lres(vals: Vec<usize>) -> (res: LRes)
    ensures
        res@ == spec_vals_to_lres(vals@),
{
    if vals.len() == 0 {
        LRes::Unit
    } else if vals.len() == 1 {
        LRes::Val(vals[0])
    } else {
        LRes::Vals(vals)
    }
}

/// Copies a value of the given layout from a stack slot to an address; see
/// `spec_store_from_layout`.
pub fn store_from_layout(
    b: &mut PlanBuilder,
    addr: usize,
    offset: usize,
    ss: usize,
    layout: &Layout,
    ss_offset: usize,
    Ghost(vars): Ghost<Map<usize, Var>>,
) -> (res: Result<(), InternalError>)
    ensures
        match spec_store_from_layout(addr, offset, ss, *layout, ss_offset, spec_state(*old(b), vars)) {
            Some(st) => res is Ok && spec_state(*final(b), vars) == st,
            None => res is Err,
        },
    decreases layout,
{
    match &layout.kind {
        LayoutKind::Primitive(tp) => {
            if b.next_val == usize::MAX {
                return Err(InternalError::msg("out of value numbers"));
            }
            let v = b.next_val;
            b.push(Inst::StackLoad { dst: v, tp: core_type(*tp), slot: ss, offset: ss_offset as i32 });
            b.next_val = v + 1;
            b.push(Inst::Store { val: v, addr, offset: offset as i32 });
            Ok(())
        },
        LayoutKind::Struct(items) => {
            assert(decreases_to!(*layout => *items)) by {
                assert(decreases_to!(*layout => layout.kind));
            }
            store_items(b, addr, offset, ss, items, ss_offset, Ghost(vars))
        },
        LayoutKind::Union(_) => Err(InternalError::msg("unions are not copied yet")),
    }
}

/// Copies the fields of a struct; see `spec_store_items`.
fn store_items(
    b: &mut PlanBuilder,
    addr: usize,
    offset: usize,
    ss: usize,
    items: &Vec<(Layout, i32)>,
    ss_offset: usize,
    Ghost(vars): Ghost<Map<usize, Var>>,
) -> (res: Result<(), InternalError>)
    ensures
        match spec_store_items(addr, offset, ss, items@, ss_offset, spec_state(*old(b), vars)) {
            Some(st) => res is Ok && spec_state(*final(b), vars) == st,
            None => res is Err,
        },
    decreases items,
{
    let ghost st0 = spec_state(*b, vars);
    let n = items.len();
    let mut i: usize = 0;
    assert(items@.subrange(0, 0) =~= seq![]);
    while i < n
        invariant
            n == items@.len(),
            i <= n,
            st0 == spec_state(*old(b), vars),
            spec_store_items(addr, offset, ss, items@.subrange(0, i as int), ss_offset, st0) == Some(spec_state(*b, vars)),
        decreases n - i,
    {
        let ghost pre = items@.subrange(0, i as int);
        assert(items@.subrange(0, i + 1).subrange(0, i as int) =~= pre);
        let d = items[i].1;
        if d < 0 || offset > usize::MAX - (d as usize) {
            proof {
                lemma_store_items_fail(addr, offset, ss, items@, ss_offset, i + 1, st0);
            }
            return Err(InternalError::msg("a field offset is out of range"));
        }
        assert(decreases_to!(*items => items@[i as int].0)) by {
            assert(decreases_to!(*items => items@));
            assert(decreases_to!(items@ => items@[i as int]));
        }
        match store_from_layout(b, addr, offset + (d as usize), ss, &items[i].0, ss_offset, Ghost(vars)) {
            Ok(()) => {},
            Err(e) => {
                proof {
                    lemma_store_items_fail(addr, offset, ss, items@, ss_offset, i + 1, st0);
                }
                return Err(e);
            },
        }
        i = i + 1;
    }
    assert(items@.subrange(0, n as int) =~= items@);
    Ok(())
}

/// Lowers the middle representation into an object-code plan, one function at a time.
pub struct Lowerer {
    /// The declared functions, by id, with their numbers of parameters and results.
    pub id_fn_map: IdMap<(usize, usize)>,
    /// Where each local variable of the current function lives.
    pub variables: IdMap<Var>,
    /// For each local variable of the current function, whether it must live on the stack.
    pub needs_stack: IdMap<bool>,
    pub decls: Vec<FuncDecl>,
    pub bodies: Vec<FuncBody>,
}

impl Lowerer {
    pub open spec fn wf(self) -> bool {
        &&& self.id_fn_map.keys_unique()
        &&& self.variables.keys_unique()
        &&& self.needs_stack.keys_unique()
    }

    /// Lowering keeps the declarations, the bodies made so far and the needs of the
    /// variables.
    pub open spec fn same_ctx(self, other: Self) -> bool {
        &&& self.id_fn_map == other.id_fn_map
        &&& self.needs_stack == other.needs_stack
        &&& self.decls == other.decls
        &&& self.bodies == other.bodies
    }

    pub fn new() -> (res: Self)
        ensures
            res.wf(),
            res.decls@.len() == 0,
            res.bodies@.len() == 0,
            res.id_fn_map.entries@.len() == 0,
    {
        Lowerer {
            id_fn_map: IdMap::new(),
            variables: IdMap::new(),
            needs_stack: IdMap::new(),
            decls: Vec::new(),
            bodies: Vec::new(),
        }
    }

    /// A direct call of a declared function; see `spec_call`.
    fn call(&self, b: &mut PlanBuilder, f: NodeID, args: Vec<usize>) -> (res: Result<Vec<usize>, InternalError>)
        requires
            self.wf(),
        ensures
            match spec_call(spec_state(*old(b), self.variables.as_map()), f, args@, self.id_fn_map.as_map()) {
                Some((dsts, st)) => res matches Ok(ds) && ds@ == dsts && spec_state(*final(b), self.variables.as_map()) == st,
                None => res is Err,
            },
    {
        let k = match self.id_fn_map.get(f.id) {
            Some(sig) => sig.1,
            None => {
                return Err(InternalError::msg("a function is not declared"));
            },
        };
        if b.next_val > usize::MAX - k {
            return Err(InternalError::msg("out of value numbers"));
        }
        let first = b.next_val;
        let dsts = range_vec(first, k);
        let copy = range_vec(first, k);
        b.push(Inst::Call { dsts, func: f, args });
        b.next_val = first + k;
        Ok(copy)
    }

    /// A lowering result as one value; see `spec_lres_to_val`.
    pub fn lres_to_val(&self, b: &mut PlanBuilder, lr: LRes) -> (res: Result<usize, InternalError>)
        ensures
            match spec_lres_to_val(lr@, spec_state(*old(b), self.variables.as_map())) {
                Some((v, st)) => res matches Ok(x) && x == v && spec_state(*final(b), self.variables.as_map()) == st,
                None => res is Err,
            },
    {
        match lr {
            LRes::Val(value) => Ok(value),
            LRes::Func(func_ref) => {
                if b.next_val == usize::MAX {
                    return Err(InternalError::msg("out of value numbers"));
                }
                let dst = b.next_val;
                b.push(Inst::FuncAddr { dst, func: func_ref });
                b.next_val = dst + 1;
                Ok(dst)
            },
            _ => Err(InternalError::msg("this result is not one value")),
        }
    }

    /// Writes the value of an expression to an address; see `spec_write_to_addr`.
    fn write_to_addr(&self, b: &mut PlanBuilder, e: ast::Expr, addr: usize, offset: usize) -> (res: Result<
        (),
        InternalError,
    >)
        requires
            self.wf(),
        ensures
            match spec_write_to_addr(e, addr, offset, spec_state(*old(b), self.variables.as_map())) {
                Some(st) => res is Ok && spec_state(*final(b), self.variables.as_map()) == st,
                None => res is Err,
            },
        decreases e,
    {
        let ghost e0 = e;
        match e {
            ast::Expr::NumLit(n, tp) => {
                if b.next_val == usize::MAX {
                    return Err(InternalError::msg("out of value numbers"));
                }
                let v = b.next_val;
                b.push(Inst::Iconst { dst: v, tp: core_type(tp), imm: n as i64 });
                b.next_val = v + 1;
                b.push(Inst::Store { val: v, addr, offset: offset as i32 });
                Ok(())
            },
            ast::Expr::Tuple { fields, layout } => {
                let items = match &layout.kind {
                    LayoutKind::Struct(items) => items,
                    _ => {
                        return Err(InternalError::msg("a tuple whose layout is not a struct"));
                    },
                };
                assert(decreases_to!(e0 => fields)) by {
                    assert(e0->Tuple_fields == fields);
                }
                self.addr_fields(b, fields, items, addr, offset)
            },
            ast::Expr::Var(ast::VarRef::Local(var_id)) => match self.variables.get(var_id.get()) {
                Some(Var::Reg(var)) => {
                    if b.next_val == usize::MAX {
                        return Err(InternalError::msg("out of value numbers"));
                    }
                    let v = b.next_val;
                    b.push(Inst::UseVar { dst: v, var: *var });
                    b.next_val = v + 1;
                    b.push(Inst::Store { val: v, addr, offset: offset as i32 });
                    Ok(())
                },
                Some(Var::Stack { ss, layout, offset: ss_offset }) => store_from_layout(
                    b,
                    addr,
                    offset,
                    *ss,
                    layout,
                    *ss_offset,
                    Ghost(self.variables.as_map()),
                ),
                Some(Var::FnArg(val)) => {
                    b.push(Inst::Store { val: *val, addr, offset: offset as i32 });
                    Ok(())
                },
                None => Err(InternalError::msg("a variable has no place")),
            },
            _ => Err(InternalError::msg("this expression is not written to an address yet")),
        }
    }

    /// Writes the fields of a tuple to an address; see `spec_addr_fields`.
    fn addr_fields(
        &self,
        b: &mut PlanBuilder,
        fields: Vec<ast::Expr>,
        items: &Vec<(Layout, i32)>,
        addr: usize,
        offset: usize,
    ) -> (res: Result<(), InternalError>)
        requires
            self.wf(),
        ensures
            match spec_addr_fields(fields@, items@, addr, offset, spec_state(*old(b), self.variables.as_map())) {
                Some(st) => res is Ok && spec_state(*final(b), self.variables.as_map()) == st,
                None => res is Err,
            },
        decreases fields,
    {
        let ghost vars = self.variables.as_map();
        let ghost st0 = spec_state(*b, vars);
        let ghost all = fields@;
        let ghost v0 = fields;
        let mut rest = fields;
        let n = rest.len();
        let mut k: usize = 0;
        assert(all.subrange(0, 0) =~= seq![]);
        while rest.len() > 0
            invariant
                k <= n,
                n == all.len(),
                v0@ == all,
                v0 == fields,
                rest@ == all.subrange(k as int, n as int),
                self.wf(),
                vars == self.variables.as_map(),
                st0 == spec_state(*old(b), vars),
                spec_addr_fields(all.subrange(0, k as int), items@, addr, offset, st0) == Some(spec_state(*b, vars)),
            decreases n - k,
        {
            let item = rest.remove(0);
            assert(item == all[k as int]);
            assert(decreases_to!(v0 => item)) by {
                assert(decreases_to!(v0 => v0@));
                assert(decreases_to!(v0@ => v0@[k as int]));
            }
            let ghost es1 = all.subrange(0, k + 1);
            assert(es1.subrange(0, k as int) =~= all.subrange(0, k as int));
            assert(es1[k as int] == item);
            if k < items.len() {
                let d = items[k].1;
                if d < 0 || offset > usize::MAX - (d as usize) {
                    proof {
                        lemma_addr_fields_fail(all, items@, addr, offset, k + 1, st0);
                    }
                    return Err(InternalError::msg("a field offset is out of range"));
                }
                match self.write_to_addr(b, item, addr, offset + (d as usize)) {
                    Ok(()) => {},
                    Err(e) => {
                        proof {
                            lemma_addr_fields_fail(all, items@, addr, offset, k + 1, st0);
                        }
                        return Err(e);
                    },
                }
            }
            k = k + 1;
            assert(rest@ =~= all.subrange(k as int, n as int));
        }
        assert(all.subrange(0, n as int) =~= all);
        Ok(())
    }


    /// Lowers call arguments in order, each as one value; see `spec_cl_args`.
    fn lower_args(&mut self, b: &mut PlanBuilder, args: Vec<ast::Expr>) -> (res: Result<Option<Vec<usize>>, InternalError>)
        requires
            old(self).wf(),
        ensures
            final(self).wf(),
            final(self).same_ctx(*old(self)),
            match spec_cl_args(
                args@,
                spec_state(*old(b), old(self).variables.as_map()),
                old(self).id_fn_map.as_map(),
                old(self).needs_stack.as_map(),
            ) {
                Some((Some(vals), st)) => res matches Ok(Some(vs)) && vs@ == vals && spec_state(
                    *final(b),
                    final(self).variables.as_map(),
                ) == st,
                Some((None, st)) => res matches Ok(None) && spec_state(*final(b), final(self).variables.as_map()) == st,
                None => res is Err,
            },
        decreases args,
    {
        let ghost fs = self.id_fn_map.as_map();
        let ghost ns = self.needs_stack.as_map();
        let ghost st0 = spec_state(*b, self.variables.as_map());
        let ghost all = args@;
        let ghost v0 = args;
        let mut rest = args;
        let mut vals: Vec<usize> = Vec::new();
        let n = rest.len();
        let mut k: usize = 0;
        assert(all.subrange(0, 0) =~= seq![]);
        while rest.len() > 0
            invariant
                k <= n,
                n == all.len(),
                v0@ == all,
                v0 == args,
                rest@ == all.subrange(k as int, n as int),
                self.wf(),
                self.same_ctx(*old(self)),
                fs == old(self).id_fn_map.as_map(),
                ns == old(self).needs_stack.as_map(),
                st0 == spec_state(*old(b), old(self).variables.as_map()),
                spec_cl_args(all.subrange(0, k as int), st0, fs, ns) == Some(
                    (Some(vals@), spec_state(*b, self.variables.as_map())),
                ),
            decreases n - k,
        {
            let item = rest.remove(0);
            assert(item == all[k as int]);
            assert(decreases_to!(v0 => item)) by {
                assert(decreases_to!(v0 => v0@));
                assert(decreases_to!(v0@ => v0@[k as int]));
            }
            let ghost es1 = all.subrange(0, k + 1);
            assert(es1.subrange(0, k as int) =~= all.subrange(0, k as int));
            assert(es1[k as int] == item);
            let r = match self.lower_expr(b, item) {
                Ok(Some(r)) => r,
                Ok(None) => {
                    proof {
                        lemma_args_stop(all, k + 1, st0, fs, ns);
                    }
                    return Ok(None);
                },
                Err(e) => {
                    proof {
                        lemma_args_stop(all, k + 1, st0, fs, ns);
                    }
                    return Err(e);
                },
            };
            let v = match self.lres_to_val(b, r) {
                Ok(v) => v,
                Err(e) => {
                    proof {
                        lemma_args_stop(all, k + 1, st0, fs, ns);
                    }
                    return Err(e);
                },
            };
            vals.push(v);
            k = k + 1;
            assert(rest@ =~= all.subrange(k as int, n as int));
        }
        assert(all.subrange(0, n as int) =~= all);
        Ok(Some(vals))
    }

    /// Lowers the statements of a block in order; see `spec_cl_block`.
    fn lower_block(&mut self, b: &mut PlanBuilder, exprs: Vec<ast::Expr>) -> (res: Result<bool, InternalError>)
        requires
            old(self).wf(),
        ensures
            final(self).wf(),
            final(self).same_ctx(*old(self)),
            match spec_cl_block(
                exprs@,
                spec_state(*old(b), old(self).variables.as_map()),
                old(self).id_fn_map.as_map(),
                old(self).needs_stack.as_map(),
            ) {
                Some((done, st)) => res matches Ok(x) && x == done && spec_state(*final(b), final(self).variables.as_map())
                    == st,
                None => res is Err,
            },
        decreases exprs,
    {
        let ghost fs = self.id_fn_map.as_map();
        let ghost ns = self.needs_stack.as_map();
        let ghost st0 = spec_state(*b, self.variables.as_map());
        let ghost all = exprs@;
        let ghost v0 = exprs;
        let mut rest = exprs;
        let n = rest.len();
        let mut k: usize = 0;
        assert(all.subrange(0, 0) =~= seq![]);
        while rest.len() > 0
            invariant
                k <= n,
                n == all.len(),
                v0@ == all,
                v0 == exprs,
                rest@ == all.subrange(k as int, n as int),
                self.wf(),
                self.same_ctx(*old(self)),
                fs == old(self).id_fn_map.as_map(),
                ns == old(self).needs_stack.as_map(),
                st0 == spec_state(*old(b), old(self).variables.as_map()),
                spec_cl_block(all.subrange(0, k as int), st0, fs, ns) == Some(
                    (true, spec_state(*b, self.variables.as_map())),
                ),
            decreases n - k,
        {
            let item = rest.remove(0);
            assert(item == all[k as int]);
            assert(decreases_to!(v0 => item)) by {
                assert(decreases_to!(v0 => v0@));
                assert(decreases_to!(v0@ => v0@[k as int]));
            }
            let ghost es1 = all.subrange(0, k + 1);
            assert(es1.subrange(0, k as int) =~= all.subrange(0, k as int));
            assert(es1[k as int] == item);
            match self.lower_expr(b, item) {
                Ok(Some(_)) => {},
                Ok(None) => {
                    proof {
                        lemma_block_stop(all, k + 1, st0, fs, ns);
                    }
                    return Ok(false);
                },
                Err(e) => {
                    proof {
                        lemma_block_stop(all, k + 1, st0, fs, ns);
                    }
                    return Err(e);
                },
            }
            k = k + 1;
            assert(rest@ =~= all.subrange(k as int, n as int));
        }
        assert(all.subrange(0, n as int) =~= all);
        Ok(true)
    }

    /// Lowers the arguments of a call that writes into a stack slot; see `spec_ss_args`.
    fn ss_args(&mut self, b: &mut PlanBuilder, args: Vec<ast::Expr>) -> (res: Result<Option<Vec<usize>>, InternalError>)
        requires
            old(self).wf(),
        ensures
            final(self).wf(),
            final(self).same_ctx(*old(self)),
            match spec_ss_args(
                args@,
                spec_state(*old(b), old(self).variables.as_map()),
                old(self).id_fn_map.as_map(),
                old(self).needs_stack.as_map(),
            ) {
                Some((Some(vals), st)) => res matches Ok(Some(vs)) && vs@ == vals && spec_state(
                    *final(b),
                    final(self).variables.as_map(),
                ) == st,
                Some((None, st)) => res matches Ok(None) && spec_state(*final(b), final(self).variables.as_map()) == st,
                None => res is Err,
            },
        decreases args,
    {
        let ghost fs = self.id_fn_map.as_map();
        let ghost ns = self.needs_stack.as_map();
        let ghost st0 = spec_state(*b, self.variables.as_map());
        let ghost all = args@;
        let ghost v0 = args;
        let mut rest = args;
        let mut vals: Vec<usize> = Vec::new();
        let n = rest.len();
        let mut k: usize = 0;
        assert(all.subrange(0, 0) =~= seq![]);
        while rest.len() > 0
            invariant
                k <= n,
                n == all.len(),
                v0@ == all,
                v0 == args,
                rest@ == all.subrange(k as int, n as int),
                self.wf(),
                self.same_ctx(*old(self)),
                fs == old(self).id_fn_map.as_map(),
                ns == old(self).needs_stack.as_map(),
                st0 == spec_state(*old(b), old(self).variables.as_map()),
                spec_ss_args(all.subrange(0, k as int), st0, fs, ns) == Some(
                    (Some(vals@), spec_state(*b, self.variables.as_map())),
                ),
            decreases n - k,
        {
            let item = rest.remove(0);
            assert(item == all[k as int]);
            assert(decreases_to!(v0 => item)) by {
                assert(decreases_to!(v0 => v0@));
                assert(decreases_to!(v0@ => v0@[k as int]));
            }
            let ghost es1 = all.subrange(0, k + 1);
            assert(es1.subrange(0, k as int) =~= all.subrange(0, k as int));
            assert(es1[k as int] == item);
            let r = match self.lower_expr(b, item) {
                Ok(Some(r)) => r,
                Ok(None) => {
                    proof {
                        lemma_ss_args_stop(all, k + 1, st0, fs, ns);
                    }
                    return Ok(None);
                },
                Err(e) => {
                    proof {
                        lemma_ss_args_stop(all, k + 1, st0, fs, ns);
                    }
                    return Err(e);
                },
            };
            match r {
                LRes::Val(x) => vals.push(x),
                LRes::StackS(slot) => {
                    if b.next_val == usize::MAX {
                        proof {
                            lemma_ss_args_stop(all, k + 1, st0, fs, ns);
                        }
                        return Err(InternalError::msg("out of value numbers"));
                    }
                    let a = b.next_val;
                    b.push(Inst::StackAddr { dst: a, slot, offset: 0 });
                    b.next_val = a + 1;
                    vals.push(a);
                },
                _ => {
                    proof {
                        lemma_ss_args_stop(all, k + 1, st0, fs, ns);
                    }
                    return Err(InternalError::msg("this argument is not passed yet"));
                },
            }
            k = k + 1;
            assert(rest@ =~= all.subrange(k as int, n as int));
        }
        assert(all.subrange(0, n as int) =~= all);
        Ok(Some(vals))
    }

    /// Writes the fields of a tuple into a stack slot; see `spec_ss_fields`.
    fn ss_fields(
        &mut self,
        b: &mut PlanBuilder,
        fields: Vec<ast::Expr>,
        items: &Vec<(Layout, i32)>,
        ss: usize,
        offset: usize,
    ) -> (res: Result<(), InternalError>)
        requires
            old(self).wf(),
        ensures
            final(self).wf(),
            final(self).same_ctx(*old(self)),
            match spec_ss_fields(
                fields@,
                items@,
                ss,
                offset,
                spec_state(*old(b), old(self).variables.as_map()),
                old(self).id_fn_map.as_map(),
                old(self).needs_stack.as_map(),
            ) {
                Some(st) => res is Ok && spec_state(*final(b), final(self).variables.as_map()) == st,
                None => res is Err,
            },
        decreases fields,
    {
        let ghost fs = self.id_fn_map.as_map();
        let ghost ns = self.needs_stack.as_map();
        let ghost st0 = spec_state(*b, self.variables.as_map());
        let ghost all = fields@;
        let ghost v0 = fields;
        let mut rest = fields;
        let n = rest.len();
        let mut k: usize = 0;
        assert(all.subrange(0, 0) =~= seq![]);
        while rest.len() > 0
            invariant
                k <= n,
                n == all.len(),
                v0@ == all,
                v0 == fields,
                rest@ == all.subrange(k as int, n as int),
                self.wf(),
                self.same_ctx(*old(self)),
                fs == old(self).id_fn_map.as_map(),
                ns == old(self).needs_stack.as_map(),
                st0 == spec_state(*old(b), old(self).variables.as_map()),
                spec_ss_fields(all.subrange(0, k as int), items@, ss, offset, st0, fs, ns) == Some(
                    spec_state(*b, self.variables.as_map()),
                ),
            decreases n - k,
        {
            let item = rest.remove(0);
            assert(item == all[k as int]);
            assert(decreases_to!(v0 => item)) by {
                assert(decreases_to!(v0 => v0@));
                assert(decreases_to!(v0@ => v0@[k as int]));
            }
            let ghost es1 = all.subrange(0, k + 1);
            assert(es1.subrange(0, k as int) =~= all.subrange(0, k as int));
            assert(es1[k as int] == item);
            if k < items.len() {
                let d = items[k].1;
                if d < 0 || offset > usize::MAX - (d as usize) {
                    proof {
                        lemma_ss_fields_fail(all, items@, ss, offset, k + 1, st0, fs, ns);
                    }
                    return Err(InternalError::msg("a field offset is out of range"));
                }
                match self.write_to_ss(b, item, ss, offset + (d as usize)) {
                    Ok(_) => {},
                    Err(e) => {
                        proof {
                            lemma_ss_fields_fail(all, items@, ss, offset, k + 1, st0, fs, ns);
                        }
                        return Err(e);
                    },
                }
            }
            k = k + 1;
            assert(rest@ =~= all.subrange(k as int, n as int));
        }
        assert(all.subrange(0, n as int) =~= all);
        Ok(())
    }

    /// Writes the value of an expression into a stack slot; see `spec_write_to_ss`. The
    /// inner `None` means that a part of it yielded nothing.
    fn write_to_ss(&mut self, b: &mut PlanBuilder, e: ast::Expr, ss: usize, offset: usize) -> (res: Result<
        Option<()>,
        InternalError,
    >)
        requires
            old(self).wf(),
        ensures
            final(self).wf(),
            final(self).same_ctx(*old(self)),
            match spec_write_to_ss(
                e,
                ss,
                offset,
                spec_state(*old(b), old(self).variables.as_map()),
                old(self).id_fn_map.as_map(),
                old(self).needs_stack.as_map(),
            ) {
                Some((done, st)) => res matches Ok(x) && (x is Some <==> done) && spec_state(
                    *final(b),
                    final(self).variables.as_map(),
                ) == st,
                None => res is Err,
            },
        decreases e,
    {
        let ghost e0 = e;
        match e {
            ast::Expr::NumLit(n, tp) => {
                if b.next_val == usize::MAX {
                    return Err(InternalError::msg("out of value numbers"));
                }
                let v = b.next_val;
                b.push(Inst::Iconst { dst: v, tp: core_type(tp), imm: n as i64 });
                b.next_val = v + 1;
                b.push(Inst::StackStore { val: v, slot: ss, offset: offset as i32 });
                Ok(Some(()))
            },
            ast::Expr::Tuple { fields, layout } => {
                let items = match &layout.kind {
                    LayoutKind::Struct(items) => items,
                    _ => {
                        return Err(InternalError::msg("a tuple whose layout is not a struct"));
                    },
                };
                assert(decreases_to!(e0 => fields)) by {
                    assert(e0->Tuple_fields == fields);
                }
                self.ss_fields(b, fields, items, ss, offset)?;
                Ok(Some(()))
            },
            ast::Expr::FunCall { expr, args, .. } => {
                if b.next_val == usize::MAX {
                    return Err(InternalError::msg("out of value numbers"));
                }
                let ret_addr = b.next_val;
                b.push(Inst::StackAddr { dst: ret_addr, slot: ss, offset: offset as i32 });
                b.next_val = ret_addr + 1;
                assert(decreases_to!(e0 => args)) by {
                    assert(e0->FunCall_args == args);
                }
                let vals = match self.ss_args(b, args)? {
                    Some(vals) => vals,
                    None => {
                        return Ok(None);
                    },
                };
                let callee = match self.lower_expr(b, *expr)? {
                    Some(c) => c,
                    None => {
                        return Ok(None);
                    },
                };
                let f = match callee {
                    LRes::Func(f) => f,
                    _ => {
                        return Err(InternalError::msg("this callee is not called into a stack slot yet"));
                    },
                };
                let mut fn_args: Vec<usize> = vec![ret_addr];
                let mut i: usize = 0;
                while i < vals.len()
                    invariant
                        i <= vals@.len(),
                        fn_args@ == seq![ret_addr] + vals@.subrange(0, i as int),
                    decreases vals@.len() - i,
                {
                    fn_args.push(vals[i]);
                    i = i + 1;
                    assert(fn_args@ =~= seq![ret_addr] + vals@.subrange(0, i as int));
                }
                assert(vals@.subrange(0, vals@.len() as int) =~= vals@);
                self.call(b, f, fn_args)?;
                Ok(Some(()))
            },
            _ => Err(InternalError::msg("this expression is not written into a stack slot yet")),
        }
    }

    /// Lowers an expression into the current body; see `spec_cl_lower`. The inner `None`
    /// means that it ended in a control statement.
    #[verifier::rlimit(100)]
    #[verifier::spinoff_prover]
    pub fn lower_expr(&mut self, b: &mut PlanBuilder, e: ast::Expr) -> (res: Result<Option<LRes>, InternalError>)
        requires
            old(self).wf(),
        ensures
            final(self).wf(),
            final(self).same_ctx(*old(self)),
            match spec_cl_lower(
                e,
                spec_state(*old(b), old(self).variables.as_map()),
                old(self).id_fn_map.as_map(),
                old(self).needs_stack.as_map(),
            ) {
                Some((r, st)) => res matches Ok(x) && spec_opt_lres(x) == r && spec_state(
                    *final(b),
                    final(self).variables.as_map(),
                ) == st,
                None => res is Err,
            },
        decreases e,
    {
        let ghost e0 = e;
        match e {
            ast::Expr::NumLit(n, tp) => {
                if b.next_val == usize::MAX {
                    return Err(InternalError::msg("out of value numbers"));
                }
                let dst = b.next_val;
                b.push(Inst::Iconst { dst, tp: core_type(tp), imm: n as i64 });
                b.next_val = dst + 1;
                Ok(Some(LRes::Val(dst)))
            },
            ast::Expr::FunCall { expr, args, .. } => {
                let callee = match self.lower_expr(b, *expr)? {
                    Some(c) => c,
                    None => {
                        return Ok(None);
                    },
                };
                assert(decreases_to!(e0 => args)) by {
                    assert(e0->FunCall_args == args);
                }
                match callee {
                    LRes::Func(func_ref) => {
                        let vals = match self.lower_args(b, args)? {
                            Some(vals) => vals,
                            None => {
                                return Ok(None);
                            },
                        };
                        let dsts = self.call(b, func_ref, vals)?;
                        Ok(Some(vals_to_lres(dsts)))
                    },
                    LRes::Builtin(name) => {
                        if !str_eq(name.as_str(), "i32_add") {
                            return Err(InternalError::msg("this builtin is not lowered yet"));
                        }
                        let vals = match self.lower_args(b, args)? {
                            Some(vals) => vals,
                            None => {
                                return Ok(None);
                            },
                        };
                        if vals.len() < 2 || b.next_val == usize::MAX {
                            return Err(InternalError::msg("i32_add takes two values"));
                        }
                        let dst = b.next_val;
                        b.push(Inst::Iadd { dst, lhs: vals[0], rhs: vals[1] });
                        b.next_val = dst + 1;
                        Ok(Some(LRes::Val(dst)))
                    },
                    _ => Err(InternalError::msg("this callee is not called yet")),
                }
            },
            ast::Expr::Block { exprs, last_expr, .. } => {
                assert(decreases_to!(e0 => exprs)) by {
                    assert(e0->Block_exprs == exprs);
                }
                if !self.lower_block(b, exprs)? {
                    return Ok(None);
                }
                self.lower_expr(b, *last_expr)
            },
            ast::Expr::Return { expr, .. } => {
                match self.lower_expr(b, *expr)? {
                    Some(LRes::Val(value)) => {
                        let vals = vec![value];
                        assert(vals@ =~= seq![value]);
                        b.push(Inst::Return { vals });
                    },
                    Some(LRes::Vals(vals)) => {
                        b.push(Inst::Return { vals });
                    },
                    Some(_) => {
                        return Err(InternalError::msg("this result is not returned yet"));
                    },
                    None => {},
                }
                Ok(None)
            },
            ast::Expr::Let { id, layout, expr, .. } => {
                let needs = match self.needs_stack.get(id.get()) {
                    Some(x) => *x,
                    None => {
                        return Err(InternalError::msg("a variable has no storage decision"));
                    },
                };
                let var = if needs {
                    if b.next_slot == usize::MAX {
                        return Err(InternalError::msg("out of stack slot numbers"));
                    }
                    let slot = b.next_slot;
                    b.push(Inst::StackSlot { slot, size: layout.size, align_shift: layout.align as u8 });
                    b.next_slot = slot + 1;
                    let _ = self.write_to_ss(b, *expr, slot, 0)?;
                    Var::Stack { ss: slot, layout, offset: 0 }
                } else {
                    let tp = match layout.kind {
                        LayoutKind::Primitive(tp) => tp,
                        _ => {
                            return Err(InternalError::msg("a register variable of a layout that is not primitive"));
                        },
                    };
                    if b.next_var == usize::MAX {
                        return Err(InternalError::msg("out of variable numbers"));
                    }
                    let var = b.next_var;
                    b.push(Inst::DeclareVar { var, tp: core_type(tp) });
                    b.next_var = var + 1;
                    let val = match self.lower_expr(b, *expr)? {
                        Some(v) => v,
                        None => {
                            return Ok(None);
                        },
                    };
                    let val = self.lres_to_val(b, val)?;
                    b.push(Inst::DefVar { var, val });
                    Var::Reg(var)
                };
                let ghost before = self.variables;
                let ghost placed = var;
                let _ = self.variables.insert(id.get(), var);
                assert(self.variables.as_map() =~= before.as_map().insert(id.0, placed));
                Ok(Some(LRes::Unit))
            },
            ast::Expr::Assign { lval, rval, .. } => {
                let lres = match self.lower_expr(b, *lval)? {
                    Some(r) => r,
                    None => {
                        return Ok(None);
                    },
                };
                match lres {
                    LRes::Val(value) => {
                        self.write_to_addr(b, *rval, value, 0)?;
                    },
                    LRes::StackS(slot) => {
                        let _ = self.write_to_ss(b, *rval, slot, 0)?;
                    },
                    _ => {
                        return Err(InternalError::msg("this place is not assigned yet"));
                    },
                }
                Ok(Some(LRes::Unit))
            },
            ast::Expr::Ref { var: ast::VarRef::Local(var_id), .. } => {
                let slot = match self.variables.get(var_id.get()) {
                    Some(Var::Stack { ss, .. }) => *ss,
                    _ => {
                        return Err(InternalError::msg("only variables on the stack have an address"));
                    },
                };
                if b.next_val == usize::MAX {
                    return Err(InternalError::msg("out of value numbers"));
                }
                let v = b.next_val;
                b.push(Inst::StackAddr { dst: v, slot, offset: 0 });
                b.next_val = v + 1;
                Ok(Some(LRes::Val(v)))
            },
            ast::Expr::While { pred, block } => {
                if b.next_block > usize::MAX - 3 {
                    return Err(InternalError::msg("out of block numbers"));
                }
                let cond_block = b.next_block;
                let end_block = cond_block + 1;
                let start_block = cond_block + 2;
                b.push(Inst::CreateBlock { block: cond_block });
                b.push(Inst::CreateBlock { block: end_block });
                b.push(Inst::CreateBlock { block: start_block });
                b.next_block = cond_block + 3;
                b.push(Inst::Jump { block: cond_block });
                b.push(Inst::SwitchTo { block: cond_block });
                let val = match self.lower_expr(b, *pred)? {
                    Some(v) => v,
                    None => {
                        return Ok(None);
                    },
                };
                let val = self.lres_to_val(b, val)?;
                b.push(Inst::Brif { cond: val, then_block: start_block, else_block: end_block });
                b.push(Inst::SwitchTo { block: start_block });
                b.push(Inst::Seal { block: start_block });
                match self.lower_expr(b, *block)? {
                    Some(_) => {},
                    None => {
                        return Ok(None);
                    },
                }
                b.push(Inst::Jump { block: cond_block });
                b.push(Inst::SwitchTo { block: end_block });
                b.push(Inst::Seal { block: cond_block });
                b.push(Inst::Seal { block: end_block });
                Ok(Some(LRes::Unit))
            },
            ast::Expr::FieldAccess { object, field_id, struct_layout, .. } => {
                let lres = match self.lower_expr(b, *object)? {
                    Some(r) => r,
                    None => {
                        return Ok(None);
                    },
                };
                let stack_slot = match lres {
                    LRes::StackS(s) => s,
                    _ => {
                        return Err(InternalError::msg("fields are read from stack values only"));
                    },
                };
                let items = match &struct_layout.kind {
                    LayoutKind::Struct(items) => items,
                    _ => {
                        return Err(InternalError::msg("a field read of a value that is not a struct"));
                    },
                };
                if field_id >= items.len() {
                    return Err(InternalError::msg("a field index is out of range"));
                }
                let tp = match &items[field_id].0.kind {
                    LayoutKind::Primitive(tp) => *tp,
                    _ => {
                        return Err(InternalError::msg("fields that are not primitive are not read yet"));
                    },
                };
                if b.next_val == usize::MAX {
                    return Err(InternalError::msg("out of value numbers"));
                }
                let v = b.next_val;
                b.push(Inst::StackLoad { dst: v, tp: core_type(tp), slot: stack_slot, offset: items[field_id].1 });
                b.next_val = v + 1;
                Ok(Some(LRes::Val(v)))
            },
            ast::Expr::Var(ast::VarRef::Local(var_id)) => match self.variables.get(var_id.get()) {
                Some(Var::Reg(var)) => {
                    if b.next_val == usize::MAX {
                        return Err(InternalError::msg("out of value numbers"));
                    }
                    let v = b.next_val;
                    b.push(Inst::UseVar { dst: v, var: *var });
                    b.next_val = v + 1;
                    Ok(Some(LRes::Val(v)))
                },
                Some(Var::Stack { ss, .. }) => Ok(Some(LRes::StackS(*ss))),
                Some(Var::FnArg(value)) => Ok(Some(LRes::Val(*value))),
                None => Err(InternalError::msg("a variable has no place")),
            },
            ast::Expr::Var(ast::VarRef::Global(node_id)) => {
                if !self.id_fn_map.contains_key(node_id.id) {
                    return Err(InternalError::msg("a function is not declared"));
                }
                Ok(Some(LRes::Func(node_id)))
            },
            _ => Err(InternalError::msg("this expression is not lowered yet")),
        }
    }


    /// Declares a function symbol under its id.
    fn declare_sym(&mut self, id: NodeID, f: &ast::Symbol)
        requires
            old(self).wf(),
        ensures
            final(self).wf(),
            final(self).variables == old(self).variables,
            final(self).needs_stack == old(self).needs_stack,
            final(self).bodies == old(self).bodies,
            final(self).decls@.len() == old(self).decls@.len() + 1,
            final(self).decls@.subrange(0, old(self).decls@.len() as int) == old(self).decls@,
            spec_cl_decl(id, *f, final(self).decls@[old(self).decls@.len() as int]),
            final(self).id_fn_map.as_map() == old(self).id_fn_map.as_map().insert(
                id.id,
                (f.kind->Func_args@.len() as usize, f.kind->Func_returns@.len() as usize),
            ),
    {
        match &f.kind {
            ast::SymKind::Func { args, returns: rets } => {
                let name = if f.mangle {
                    let digits = usize_to_string(id.id);
                    concat("id_", digits.as_str())
                } else {
                    f.name.clone()
                };
                let link = if f.is_extern {
                    Linkage::Export
                } else {
                    Linkage::Local
                };
                let decl = FuncDecl { id, name, link, params: core_types(args), returns: core_types(rets) };
                let ghost old_decls = self.decls@;
                self.decls.push(decl);
                assert(self.decls@.subrange(0, old_decls.len() as int) =~= old_decls);
                let ghost old_map = self.id_fn_map;
                let _ = self.id_fn_map.insert(id.id, (args.len(), rets.len()));
                assert(self.id_fn_map.as_map() =~= old_map.as_map().insert(id.id, (args.len(), rets.len())));
            },
        }
    }

    /// Lowers a function into a body. The error comes where `spec_cl_func_insts` has none.
    pub fn emit_func(&mut self, f: ast::Func) -> (res: Result<(), InternalError>)
        requires
            old(self).wf(),
        ensures
            final(self).wf(),
            final(self).id_fn_map == old(self).id_fn_map,
            final(self).decls == old(self).decls,
            match spec_cl_func_insts(f, old(self).id_fn_map.as_map()) {
                Some(is) => {
                    &&& res is Ok
                    &&& final(self).bodies@.map_values(|b: FuncBody| spec_body_view(b)) == old(
                        self,
                    ).bodies@.map_values(|b: FuncBody| spec_body_view(b)).push((f.id, is))
                },
                None => res is Err,
            },
    {
        let np = match self.id_fn_map.get(f.id.id) {
            Some(sig) => sig.0,
            None => {
                return Err(InternalError::msg("the function is not declared"));
            },
        };
        if !f.var_needs_stack.keys_are_unique() {
            return Err(InternalError::msg("a variable has two storage decisions"));
        }
        let ghost ns0 = f.var_needs_stack;
        self.needs_stack = f.var_needs_stack;
        self.variables = IdMap::new();
        let mut b = PlanBuilder::new();
        b.next_val = np;
        b.push(Inst::Entry { params: range_vec(0, np) });
        let na = if np < f.args.len() {
            np
        } else {
            f.args.len()
        };
        let mut i: usize = 0;
        while i < na
            invariant
                i <= na,
                na <= f.args@.len(),
                na <= np,
                self.wf(),
                self.id_fn_map == old(self).id_fn_map,
                self.decls == old(self).decls,
                self.bodies == old(self).bodies,
                self.needs_stack == ns0,
                self.variables.as_map() == spec_cl_arg_vars(f.args@, i as nat),
                b.next_val == np,
                b.next_slot == 0,
                b.next_var == 0,
                b.next_block == 0,
                insts_view(b.insts@) == seq![InstV::Entry { params: spec_range(0, np as nat) }],
            decreases na - i,
        {
            let ghost before = self.variables;
            let _ = self.variables.insert(f.args[i].0.get(), Var::FnArg(i));
            assert(self.variables.as_map() =~= before.as_map().insert(f.args@[i as int].0.0, Var::FnArg(i)));
            i = i + 1;
        }
        let val = self.lower_expr(&mut b, f.body)?;
        match val {
            Some(LRes::Val(value)) => {
                let vals = vec![value];
                assert(vals@ =~= seq![value]);
                b.push(Inst::Return { vals });
            },
            Some(LRes::Unit) => {
                let vals: Vec<usize> = Vec::new();
                assert(vals@ =~= seq![]);
                b.push(Inst::Return { vals });
            },
            Some(_) => {
                return Err(InternalError::msg("this result is not returned yet"));
            },
            None => {},
        }
        let body = FuncBody { id: f.id, insts: b.insts };
        let ghost old_bodies = self.bodies@;
        self.bodies.push(body);
        self.variables = IdMap::new();
        self.needs_stack = IdMap::new();
        assert(self.bodies@.map_values(|b: FuncBody| spec_body_view(b)) =~= old_bodies.map_values(
            |b: FuncBody| spec_body_view(b),
        ).push((f.id, insts_view(body.insts@))));
        Ok(())
    }

}

} // verus!

verus! {

/// Plans an object file for a program of the middle representation: every symbol declared
/// in order, then every function lowered in order. The error comes for a function whose
/// body cannot be lowered.
pub fn translate(prog: ast::Program) -> (res: Result<ObjectPlan, InternalError>)
    requires
        prog.symbols.keys_unique(),
    ensures
        res is Ok <==> forall|j: int|
            0 <= j < prog.functions@.len() ==> (spec_cl_func_insts(#[trigger] prog.functions@[j], spec_cl_fn_sigs(prog)) is Some),
        res matches Ok(p) ==> {
            &&& p.decls@.len() == prog.symbols.entries@.len()
            &&& forall|i: int|
                0 <= i < p.decls@.len() ==> spec_cl_decl(
                    NodeID { id: prog.symbols.entries@[i].0 },
                    prog.symbols.entries@[i].1,
                    #[trigger] p.decls@[i],
                )
            &&& p.bodies@.map_values(|b: FuncBody| spec_body_view(b)) == prog.functions@.map_values(
                |f: ast::Func| (f.id, spec_cl_body_of(f, spec_cl_fn_sigs(prog))),
            )
        },
{
    let mut l = Lowerer::new();
    let ghost es = prog.symbols.entries@;
    let n = prog.symbols.entries.len();
    let mut j: usize = 0;
    while j < n
        invariant
            n == es.len(),
            es == prog.symbols.entries@,
            prog.symbols.keys_unique(),
            j <= n,
            l.wf(),
            l.bodies@.len() == 0,
            l.decls@.len() == j,
            forall|i: int| 0 <= i < j ==> spec_cl_decl(NodeID { id: es[i].0 }, es[i].1, #[trigger] l.decls@[i]),
            forall|k: usize|
                #[trigger] l.id_fn_map.as_map().contains_key(k) <==> exists|i: int| 0 <= i < j && es[i].0 == k,
            forall|i: int|
                0 <= i < j ==> l.id_fn_map.as_map()[#[trigger] es[i].0] == (
                    es[i].1.kind->Func_args@.len() as usize,
                    es[i].1.kind->Func_returns@.len() as usize,
                ),
        decreases n - j,
    {
        let ghost m0 = l.id_fn_map.as_map();
        l.declare_sym(NodeID { id: prog.symbols.entries[j].0 }, &prog.symbols.entries[j].1);
        proof {
            let k0 = es[j as int].0;
            assert forall|k: usize| #[trigger] l.id_fn_map.as_map().contains_key(k) <==> exists|i: int|
                0 <= i < j + 1 && es[i].0 == k by {
                if k == k0 {
                    assert(0 <= j < j + 1 && es[j as int].0 == k);
                }
                if exists|i: int| 0 <= i < j + 1 && es[i].0 == k {
                    let i = choose|i: int| 0 <= i < j + 1 && es[i].0 == k;
                    if i < j {
                        assert(m0.contains_key(k));
                    }
                }
            }
            assert forall|i: int| 0 <= i < j + 1 implies l.id_fn_map.as_map()[#[trigger] es[i].0] == (
                es[i].1.kind->Func_args@.len() as usize,
                es[i].1.kind->Func_returns@.len() as usize,
            ) by {
                if i < j {
                    assert(es[i].0 != es[j as int].0);
                }
            }
            assert forall|i: int| 0 <= i < j + 1 implies spec_cl_decl(
                NodeID { id: es[i].0 },
                es[i].1,
                #[trigger] l.decls@[i],
            ) by {
                if i < j {
                    assert(l.decls@[i] == l.decls@.subrange(0, j as int)[i]);
                }
            }
        }
        j = j + 1;
    }
    proof {
        assert forall|k: usize| #[trigger] l.id_fn_map.as_map().contains_key(k) == spec_cl_fn_sigs(prog).contains_key(k)
            by {
            if l.id_fn_map.as_map().contains_key(k) {
                let i = choose|i: int| 0 <= i < n && es[i].0 == k;
                assert(prog.symbols.entries@[i].0 == k);
            }
        }
        assert forall|k: usize| #[trigger] l.id_fn_map.as_map().contains_key(k) implies l.id_fn_map.as_map()[k]
            == spec_cl_fn_sigs(prog)[k] by {
            let i = choose|i: int| 0 <= i < n && es[i].0 == k;
            prog.symbols.lemma_value(i);
        }
        assert(l.id_fn_map.as_map() =~= spec_cl_fn_sigs(prog));
    }
    let ghost fs = spec_cl_fn_sigs(prog);
    let ghost all = prog.functions@;
    assert(all == prog.functions@);
    let mut rest = prog.functions;
    let m = rest.len();
    let mut k: usize = 0;
    assert(all.subrange(0, 0).map_values(|f: ast::Func| (f.id, spec_cl_body_of(f, fs))) =~= seq![]);
    assert(l.bodies@.map_values(|b: FuncBody| spec_body_view(b)) =~= seq![]);
    while rest.len() > 0
        invariant
            k <= m,
            m == all.len(),
            all == prog.functions@,
            fs == spec_cl_fn_sigs(prog),
            rest@ == all.subrange(k as int, m as int),
            l.wf(),
            l.id_fn_map.as_map() == fs,
            l.decls@.len() == n,
            forall|i: int| 0 <= i < n ==> spec_cl_decl(NodeID { id: es[i].0 }, es[i].1, #[trigger] l.decls@[i]),
            forall|i: int| 0 <= i < k ==> (spec_cl_func_insts(#[trigger] all[i], fs) is Some),
            l.bodies@.map_values(|b: FuncBody| spec_body_view(b)) == all.subrange(0, k as int).map_values(
                |f: ast::Func| (f.id, spec_cl_body_of(f, fs)),
            ),
        decreases m - k,
    {
        let f = rest.remove(0);
        assert(f == all[k as int]);
        match l.emit_func(f) {
            Ok(()) => {},
            Err(e) => {
                assert(spec_cl_func_insts(prog.functions@[k as int], spec_cl_fn_sigs(prog)) is None);
                return Err(e);
            },
        }
        assert(all.subrange(0, k + 1).map_values(|f: ast::Func| (f.id, spec_cl_body_of(f, fs))) =~= all.subrange(
            0,
            k as int,
        ).map_values(|f: ast::Func| (f.id, spec_cl_body_of(f, fs))).push((all[k as int].id, spec_cl_body_of(all[k as int], fs))));
        k = k + 1;
        assert(rest@ =~= all.subrange(k as int, m as int));
    }
    assert(all.subrange(0, m as int) =~= all);
    Ok(ObjectPlan { decls: l.decls, bodies: l.bodies })
}

} // verus!
