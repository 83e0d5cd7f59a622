//! The state of name resolution: the module we are in, the scopes of modules, the local
//! scopes of the function being resolved, and what was learned of each declaration.
use vstd::prelude::*;

use crate::common::maps::{IdMap, NameMap};
use crate::common::{spec_join, spec_names, string_of, usize_to_string, Ident, NodeID, Path};
use crate::error::context::{spec_reported_after, Context};
use crate::error::diagnostic::{spec_labelled_error, Diagnostic};
use crate::error::InternalError;
use crate::mod_tree::import_solve::lemma_find_path_ok;
use crate::mod_tree::scope::Symbol;
use crate::mod_tree::scope_info::{spec_find_path, spec_path_diag, PathError};
use crate::mod_tree::ScopeInfo;
use crate::parser::ast::{RTypeData, RTypeNode};
use crate::resolve::ast::SymRef;
use crate::resolve::error;
use crate::symtable::type_sort::spec_parts_ok;
use crate::symtable::{SymInfo, SymTable, TypeInfo};
use crate::tp::model::{all_uvars, pred_none, Ty};
use crate::tp::tvar::{TVar, TVarKind};
use crate::tp::{spec_slice_ty, tys, Type};

verus! {

/// What a local name stands for.
pub enum LocalBinding {
    Var,
    TypeVar(TVar),
}

pub struct Env {
    pub current_module: NodeID,
    pub scope_info: ScopeInfo,
    pub node_tvar_map: IdMap<TVar>,
    pub node_map: IdMap<SymInfo>,
    pub tvar_map: IdMap<TypeInfo>,
    pub local_scopes: Vec<NameMap<LocalBinding>>,
}

/// What a local name stands for, in the innermost scope that binds it.
pub open spec fn spec_lookup_local(scopes: Seq<NameMap<LocalBinding>>, name: Seq<char>) -> Option<LocalBinding>
    decreases scopes.len(),
{
    if scopes.len() == 0 {
        None
    } else if scopes.last().has(name) {
        Some(scopes.last().value(name))
    } else {
        spec_lookup_local(scopes.drop_last(), name)
    }
}

impl Env {
    pub open spec fn wf(self) -> bool {
        &&& self.scope_info.wf()
        &&& self.scope_info.has_scope(self.current_module.id)
        &&& self.node_tvar_map.keys_unique()
        &&& self.node_map.keys_unique()
        &&& self.tvar_map.keys_unique()
        &&& forall|i: int| 0 <= i < self.local_scopes@.len() ==> (#[trigger] self.local_scopes@[i]).keys_unique()
    }

    /// What a path refers to: `Ok(None)` for a local name, `Ok(Some(id))` for a declaration.
    pub open spec fn spec_find_symbol(self, path: Seq<Ident>) -> Result<Option<NodeID>, PathError> {
        if path.len() == 1 && spec_lookup_local(self.local_scopes@, path[0].data@) is Some {
            Ok(None)
        } else {
            match spec_find_path(self.scope_info, self.current_module.id, path, true) {
                Ok(b) => Ok(Some(b.sym.target())),
                Err(e) => Err(e),
            }
        }
    }

    /// The type a type variable makes when named by a path, if the variable needs no parameters.
    pub open spec fn spec_named(tv: TVar, path: Seq<Ident>) -> Ty {
        if tv.kind is TypeCons {
            Ty::Unknown
        } else {
            Ty::NamedVar(tv, spec_join(spec_names(path)))
        }
    }

    /// The type a type constructor makes when applied to `ts`, if the number of parameters fits.
    pub open spec fn spec_applied(tv: TVar, path: Seq<Ident>, ts: Seq<Ty>) -> Ty {
        if tv.kind == TVarKind::TypeCons(ts.len() as usize) {
            Ty::TypeApp(tv, spec_join(spec_names(path)), ts)
        } else {
            Ty::Unknown
        }
    }

    /// The type variable a path names, if it names one: `Ok(None)` when it names none and an
    /// error was reported, `Err(())` when a declaration has no type variable.
    pub open spec fn spec_path_tvar(self, path: Seq<Ident>) -> Result<Option<TVar>, ()> {
        match self.spec_find_symbol(path) {
            Err(_) => Ok(None),
            Ok(None) => match spec_lookup_local(self.local_scopes@, path[0].data@) {
                Some(LocalBinding::TypeVar(tv)) => Ok(Some(tv)),
                _ => Ok(None),
            },
            Ok(Some(id)) => if self.node_tvar_map.has(id.id) {
                Ok(Some(self.node_tvar_map.value(id.id)))
            } else {
                Err(())
            },
        }
    }

    /// The type a written type stands for, or `None` when a declaration it names has no
    /// type variable. Names that cannot be resolved make the unknown type.
    pub open spec fn spec_resolve_type(self, tp: RTypeNode) -> Option<Ty>
        decreases tp,
    {
        match tp.data {
            RTypeData::Var(path) => match self.spec_path_tvar(path.data@) {
                Err(_) => None,
                Ok(None) => Some(Ty::Unknown),
                Ok(Some(tv)) => Some(Self::spec_named(tv, path.data@)),
            },
            RTypeData::Fun(args, ret) => match (self.spec_resolve_types(args@), self.spec_resolve_type(*ret)) {
                (Some(a), Some(r)) => Some(Ty::Fun(a, Box::new(r))),
                _ => None,
            },
            RTypeData::Ptr(t) => match self.spec_resolve_type(*t) {
                Some(r) => Some(Ty::Ptr(Box::new(r))),
                None => None,
            },
            RTypeData::MutPtr(t) => match self.spec_resolve_type(*t) {
                Some(r) => Some(Ty::MutPtr(Box::new(r))),
                None => None,
            },
            RTypeData::Slice(t) => match self.spec_resolve_type(*t) {
                Some(r) => Some(spec_slice_ty(r, false)),
                None => None,
            },
            RTypeData::MutSlice(t) => match self.spec_resolve_type(*t) {
                Some(r) => Some(spec_slice_ty(r, true)),
                None => None,
            },
            RTypeData::Tuple(ts) => match self.spec_resolve_types(ts@) {
                Some(a) => Some(Ty::Tuple(a)),
                None => None,
            },
            RTypeData::Array(size, t) => match self.spec_resolve_type(*t) {
                Some(r) => Some(Ty::Array(size as nat, Box::new(r))),
                None => None,
            },
            RTypeData::TypeApp(path, ts) => match self.spec_resolve_types(ts@) {
                None => None,
                Some(a) => match self.spec_path_tvar(path.data@) {
                    Err(_) => None,
                    Ok(None) => Some(Ty::Unknown),
                    Ok(Some(tv)) => Some(Self::spec_applied(tv, path.data@, a)),
                },
            },
        }
    }

    /// The types a list of written types stands for, in order.
    pub open spec fn spec_resolve_types(self, ts: Seq<RTypeNode>) -> Option<Seq<Ty>>
        decreases ts,
    {
        if ts.len() == 0 {
            Some(seq![])
        } else {
            match (self.spec_resolve_types(ts.subrange(0, ts.len() - 1)), self.spec_resolve_type(ts[ts.len() - 1])) {
                (Some(a), Some(r)) => Some(a.push(r)),
                _ => None,
            }
        }
    }

    /// Start resolving at the root module, with no local scope.
    pub fn init(scope_info: ScopeInfo, node_tvar_map: IdMap<TVar>) -> (res: Self)
        requires
            scope_info.wf(),
            node_tvar_map.keys_unique(),
        ensures
            res.wf(),
            res.current_module.id == 0,
            res.scope_info == scope_info,
            res.node_tvar_map == node_tvar_map,
            res.local_scopes@.len() == 0,
            res.node_map.entries@.len() == 0,
            res.tvar_map.entries@.len() == 0,
    {
        Env {
            current_module: NodeID::of_root(),
            scope_info,
            node_tvar_map,
            node_map: IdMap::new(),
            tvar_map: IdMap::new(),
            local_scopes: Vec::new(),
        }
    }

    /// Opens a new, empty local scope.
    pub fn new_scope(&mut self)
        requires
            old(self).wf(),
        ensures
            final(self).wf(),
            final(self).local_scopes@ == old(self).local_scopes@.push(final(self).local_scopes@.last()),
            forall|n: Seq<char>| !(#[trigger] final(self).local_scopes@.last().has(n)),
            final(self).current_module == old(self).current_module,
            final(self).scope_info == old(self).scope_info,
            final(self).node_tvar_map == old(self).node_tvar_map,
            final(self).node_map == old(self).node_map,
            final(self).tvar_map == old(self).tvar_map,
    {
        self.local_scopes.push(NameMap::new());
    }

    /// Closes the innermost local scope; there must be one.
    pub fn leave_scope(&mut self)
        requires
            old(self).wf(),
            old(self).local_scopes@.len() > 0,
        ensures
            final(self).wf(),
            final(self).local_scopes@ == old(self).local_scopes@.drop_last(),
            final(self).current_module == old(self).current_module,
            final(self).scope_info == old(self).scope_info,
            final(self).node_tvar_map == old(self).node_tvar_map,
            final(self).node_map == old(self).node_map,
            final(self).tvar_map == old(self).tvar_map,
    {
        let _ = self.local_scopes.pop();
    }

    /// What a local name stands for, searching from the innermost scope out.
    pub fn find_local_var_kind(&self, name: &str) -> (res: Option<&LocalBinding>)
        requires
            self.wf(),
        ensures
            match spec_lookup_local(self.local_scopes@, name@) {
                Some(b) => res == Some(&b),
                None => res is None,
            },
    {
        let n = self.local_scopes.len();
        let mut i = n;
        assert(self.local_scopes@.subrange(0, n as int) =~= self.local_scopes@);
        while i > 0
            invariant
                n == self.local_scopes@.len(),
                i <= n,
                self.wf(),
                spec_lookup_local(self.local_scopes@, name@) == spec_lookup_local(self.local_scopes@.subrange(0, i as int), name@),
            decreases i,
        {
            let ghost pre = self.local_scopes@.subrange(0, i as int);
            assert(pre.last() == self.local_scopes@[i - 1]);
            assert(pre.drop_last() =~= self.local_scopes@.subrange(0, i - 1));
            if let Some(b) = self.local_scopes[i - 1].get(name) {
                return Some(b);
            }
            i = i - 1;
        }
        None
    }

    /// What a path refers to: a local name, if it is a single name bound locally, or else the
    /// declaration it leads to from the current module.
    pub fn find_symbol(&self, path: Path) -> (res: Result<SymRef, Diagnostic>)
        requires
            self.wf(),
        ensures
            match self.spec_find_symbol(path.data@) {
                Ok(None) => res matches Ok(SymRef::Local(s)) && s@ == path.data@[0].data@,
                Ok(Some(id)) => res == Ok::<SymRef, Diagnostic>(SymRef::Global(id)),
                Err(e) => res matches Err(d) && spec_path_diag(e, d),
            },
    {
        let ghost names = path.data@;
        if path.data.len() == 0 {
            return Err(crate::mod_tree::error::unbound_variable(&crate::common::Position::nowhere(), String::new()));
        }
        if path.data.len() == 1 {
            let name = &path.data[0].data;
            if self.find_local_var_kind(name.as_str()).is_some() {
                return Ok(SymRef::Local(name.clone()));
            }
        }
        let mut guard = true;
        let binding = self.scope_info.find_path(self.current_module, path, &mut guard)?;
        proof {
            lemma_find_path_ok(self.scope_info, self.current_module.id, names, true);
        }
        let id = match binding.sym {
            Symbol::Local(node_id) | Symbol::Imported(node_id) | Symbol::GlobImported(node_id) => node_id,
            Symbol::Ambiguous(_) => NodeID::of_root(),
        };
        Ok(SymRef::Global(id))
    }

    /// Binds a local variable in the innermost scope; there must be one.
    pub fn add_local_var(&mut self, name: String)
        requires
            old(self).wf(),
            old(self).local_scopes@.len() > 0,
        ensures
            final(self).wf(),
            final(self).local_scopes@.len() == old(self).local_scopes@.len(),
            final(self).local_scopes@.drop_last() == old(self).local_scopes@.drop_last(),
            final(self).local_scopes@.last().has(name@),
            final(self).local_scopes@.last().value(name@) == LocalBinding::Var,
            forall|n: Seq<char>| n != name@ ==> (#[trigger] final(self).local_scopes@.last().has(n))
                == old(self).local_scopes@.last().has(n),
            forall|n: Seq<char>| n != name@ && old(self).local_scopes@.last().has(n)
                ==> #[trigger] final(self).local_scopes@.last().value(n) == old(self).local_scopes@.last().value(n),
            final(self).current_module == old(self).current_module,
            final(self).scope_info == old(self).scope_info,
            final(self).node_tvar_map == old(self).node_tvar_map,
            final(self).node_map == old(self).node_map,
            final(self).tvar_map == old(self).tvar_map,
    {
        self.add_local(name, LocalBinding::Var);
    }

    /// Binds a type parameter in the innermost scope; there must be one.
    pub fn add_local_type_var(&mut self, name: String, tv: TVar)
        requires
            old(self).wf(),
            old(self).local_scopes@.len() > 0,
            tv.kind == TVarKind::Parameter,
        ensures
            final(self).wf(),
            final(self).local_scopes@.len() == old(self).local_scopes@.len(),
            final(self).local_scopes@.drop_last() == old(self).local_scopes@.drop_last(),
            final(self).local_scopes@.last().has(name@),
            final(self).local_scopes@.last().value(name@) == LocalBinding::TypeVar(tv),
            final(self).current_module == old(self).current_module,
            final(self).scope_info == old(self).scope_info,
            final(self).node_tvar_map == old(self).node_tvar_map,
    {
        self.add_local(name, LocalBinding::TypeVar(tv));
    }

    fn add_local(&mut self, name: String, b: LocalBinding)
        requires
            old(self).wf(),
            old(self).local_scopes@.len() > 0,
        ensures
            final(self).wf(),
            final(self).local_scopes@.len() == old(self).local_scopes@.len(),
            final(self).local_scopes@.drop_last() == old(self).local_scopes@.drop_last(),
            final(self).local_scopes@.last().has(name@),
            final(self).local_scopes@.last().value(name@) == b,
            forall|n: Seq<char>| n != name@ ==> (#[trigger] final(self).local_scopes@.last().has(n))
                == old(self).local_scopes@.last().has(n),
            forall|n: Seq<char>| n != name@ && old(self).local_scopes@.last().has(n)
                ==> #[trigger] final(self).local_scopes@.last().value(n) == old(self).local_scopes@.last().value(n),
            final(self).current_module == old(self).current_module,
            final(self).scope_info == old(self).scope_info,
            final(self).node_tvar_map == old(self).node_tvar_map,
            final(self).node_map == old(self).node_map,
            final(self).tvar_map == old(self).tvar_map,
    {
        let mut scope = self.local_scopes.pop().unwrap();
        let _ = scope.insert(name, b);
        self.local_scopes.push(scope);
        assert(self.local_scopes@.drop_last() =~= old(self).local_scopes@.drop_last());
    }

    /// Records what is known of a declaration.
    pub fn add_sym_info(&mut self, id: NodeID, sym_info: SymInfo)
        requires
            old(self).wf(),
        ensures
            final(self).wf(),
            final(self).node_map.has(id.id),
            final(self).node_map.value(id.id) == sym_info,
            forall|j: usize| j != id.id ==> (final(self).node_map.has(j) == old(self).node_map.has(j)),
            forall|j: usize| j != id.id && old(self).node_map.has(j) ==> final(self).node_map.value(j) == old(self).node_map.value(j),
            final(self).local_scopes@ == old(self).local_scopes@,
            final(self).current_module == old(self).current_module,
            final(self).scope_info == old(self).scope_info,
            final(self).node_tvar_map == old(self).node_tvar_map,
            final(self).tvar_map == old(self).tvar_map,
    {
        let _ = self.node_map.insert(id.id, sym_info);
    }

    /// Records what is known of a named type.
    pub fn add_type_info(&mut self, id: TVar, type_info: TypeInfo)
        requires
            old(self).wf(),
        ensures
            final(self).wf(),
            final(self).tvar_map.has(id.id),
            final(self).tvar_map.value(id.id) == type_info,
            forall|j: usize| j != id.id ==> (final(self).tvar_map.has(j) == old(self).tvar_map.has(j)),
            forall|j: usize| j != id.id && old(self).tvar_map.has(j) ==> final(self).tvar_map.value(j) == old(self).tvar_map.value(j),
            final(self).local_scopes@ == old(self).local_scopes@,
            final(self).current_module == old(self).current_module,
            final(self).scope_info == old(self).scope_info,
            final(self).node_tvar_map == old(self).node_tvar_map,
            final(self).node_map == old(self).node_map,
    {
        let _ = self.tvar_map.insert(id.id, type_info);
    }

    /// The message of the error of a declaration without a type variable.
    pub open spec fn spec_no_tvar_msg(id: NodeID) -> Seq<char> {
        "cant get tvar info for NodeID {\n    id: "@ + crate::common::spec_decimal(id.id as nat) + ",\n}"@
    }

    /// The type variable of a struct or an enum.
    pub fn get_tvar(&self, id: NodeID) -> (res: Result<TVar, InternalError>)
        requires
            self.wf(),
        ensures
            self.node_tvar_map.has(id.id) ==> res == Ok::<TVar, InternalError>(self.node_tvar_map.value(id.id)),
            !self.node_tvar_map.has(id.id) ==> (res matches Err(InternalError::AnyMsg(m)) && m@ == Self::spec_no_tvar_msg(id)),
    {
        match self.node_tvar_map.get(id.id) {
            Some(tv) => Ok(*tv),
            None => {
                let mut m = string_of("cant get tvar info for NodeID {\n    id: ");
                m.append(usize_to_string(id.id).as_str());
                m.append(",\n}");
                Err(InternalError::AnyMsg(m))
            },
        }
    }
}

impl Env {
    /// The type variable a path names, reporting why it names none.
    fn path_tvar(&self, ctx: &mut Context, path: &Path, pos: &crate::common::Position) -> (res: Result<Option<TVar>, InternalError>)
        requires
            self.wf(),
        ensures
            match self.spec_path_tvar(path.data@) {
                Ok(t) => res == Ok::<Option<TVar>, InternalError>(t),
                Err(_) => res is Err,
            },
            crate::mod_tree::spec_reported_after(*old(ctx), *final(ctx)),
    {
        let sym_ref = match self.find_symbol(path.clone()) {
            Ok(sym) => sym,
            Err(diag) => {
                ctx.report(diag);
                assert(ctx.diagnostics@.subrange(0, old(ctx).diagnostics@.len() as int) =~= old(ctx).diagnostics@);
                return Ok(None);
            },
        };
        assert(ctx.diagnostics@.subrange(0, old(ctx).diagnostics@.len() as int) =~= old(ctx).diagnostics@);
        match sym_ref {
            SymRef::Local(s) => match self.find_local_var_kind(s.as_str()) {
                Some(LocalBinding::TypeVar(tv)) => Ok(Some(*tv)),
                Some(LocalBinding::Var) => {
                    ctx.report(error::expected_type_got_var(pos));
                    assert(ctx.diagnostics@.subrange(0, old(ctx).diagnostics@.len() as int) =~= old(ctx).diagnostics@);
                    Ok(None)
                },
                None => Ok(None),
            },
            SymRef::Global(id) => Ok(Some(self.get_tvar(id)?)),
        }
    }

    /// The type a written type stands for. Names that cannot be resolved are reported and
    /// make the unknown type; the error comes when a declaration has no type variable.
    pub fn resolve_type(&self, ctx: &mut Context, tp: RTypeNode) -> (res: Result<Type, InternalError>)
        requires
            self.wf(),
        ensures
            match self.spec_resolve_type(tp) {
                Some(t) => res matches Ok(r) && r.ty() == t,
                None => res is Err,
            },
            crate::mod_tree::spec_reported_after(*old(ctx), *final(ctx)),
        decreases tp,
    {
        let ghost t0 = tp;
        let pos = tp.pos;
        match tp.data {
            RTypeData::Var(path) => {
                let tv = match self.path_tvar(ctx, &path, &pos)? {
                    Some(tv) => tv,
                    None => {
                        return Ok(Type::unknown());
                    },
                };
                let name = path.to_string();
                let ghost c1 = *ctx;
                match Type::named_var(tv, name.as_str(), match path.try_last() { Some(id) => &id.pos, None => &pos }) {
                    Ok(t) => {
                        assert(Some(t.ty()) == self.spec_resolve_type(t0));
                        Ok(t)
                    },
                    Err(diag) => {
                        ctx.report(diag);
                        proof {
                            assert(ctx.diagnostics@.subrange(0, c1.diagnostics@.len() as int) =~= c1.diagnostics@);
                            crate::mod_tree::lemma_reported_trans(*old(ctx), c1, *ctx);
                        }
                        let r = Type::unknown();
                        assert(Some(r.ty()) == self.spec_resolve_type(t0));
                        Ok(r)
                    },
                }
            },
            RTypeData::Fun(args, ret) => {
                let args = self.resolve_types(ctx, args)?;
                let ghost c1 = *ctx;
                let ret = self.resolve_type(ctx, *ret);
                proof {
                    crate::mod_tree::lemma_reported_trans(*old(ctx), c1, *ctx);
                }
                let ret = ret?;
                let ghost a = tys(args@);
                let ghost rt = ret.ty();
                let r = Type::fun(args, ret);
                assert(r.ty()->Fun_0 =~= a);
                assert(Some(r.ty()) == self.spec_resolve_type(t0));
                Ok(r)
            },
            RTypeData::Ptr(t) => {
                let inner = self.resolve_type(ctx, *t)?;
                let r = Type::ptr(inner);
                assert(Some(r.ty()) == self.spec_resolve_type(t0));
                Ok(r)
            },
            RTypeData::MutPtr(t) => {
                let inner = self.resolve_type(ctx, *t)?;
                let r = Type::mut_ptr(inner);
                assert(Some(r.ty()) == self.spec_resolve_type(t0));
                Ok(r)
            },
            RTypeData::Tuple(tps) => {
                let tps = self.resolve_types(ctx, tps)?;
                let ghost a = tys(tps@);
                let r = Type::tuple(tps);
                assert(r.ty()->Tuple_0 =~= a);
                assert(Some(r.ty()) == self.spec_resolve_type(t0));
                Ok(r)
            },
            RTypeData::Array(size, t) => {
                let t = self.resolve_type(ctx, *t)?;
                let r = Type::array(size, t);
                assert(Some(r.ty()) == self.spec_resolve_type(t0));
                Ok(r)
            },
            RTypeData::Slice(t) => {
                let inner = self.resolve_type(ctx, *t)?;
                let r = Type::slice(inner, false);
                assert(Some(r.ty()) == self.spec_resolve_type(t0));
                Ok(r)
            },
            RTypeData::MutSlice(t) => {
                let inner = self.resolve_type(ctx, *t)?;
                let r = Type::slice(inner, true);
                assert(Some(r.ty()) == self.spec_resolve_type(t0));
                Ok(r)
            },
            RTypeData::TypeApp(path, tps) => {
                let tps = self.resolve_types(ctx, tps)?;
                let ghost c1 = *ctx;
                let tv = match self.path_tvar(ctx, &path, &pos) {
                    Ok(Some(tv)) => tv,
                    Ok(None) => {
                        proof {
                            crate::mod_tree::lemma_reported_trans(*old(ctx), c1, *ctx);
                        }
                        return Ok(Type::unknown());
                    },
                    Err(e) => {
                        proof {
                            crate::mod_tree::lemma_reported_trans(*old(ctx), c1, *ctx);
                        }
                        return Err(e);
                    },
                };
                proof {
                    crate::mod_tree::lemma_reported_trans(*old(ctx), c1, *ctx);
                }
                let ghost c2 = *ctx;
                let ghost tps_ty = tys(tps@);
                let tps_len = tps.len();
                let name = path.to_string();
                match Type::type_app(tv, name.as_str(), tps, match path.try_last() { Some(id) => &id.pos, None => &pos }) {
                    Ok(t) => {
                        assert(t.ty()->TypeApp_2 =~= tps_ty);
                        assert(Some(t.ty()) == self.spec_resolve_type(t0));
                        Ok(t)
                    },
                    Err(diag) => {
                        ctx.report(diag);
                        proof {
                            assert(ctx.diagnostics@.subrange(0, c2.diagnostics@.len() as int) =~= c2.diagnostics@);
                            crate::mod_tree::lemma_reported_trans(*old(ctx), c2, *ctx);
                        }
                        let r = Type::unknown();
                        assert(tps_ty.len() == tps_len);
                        assert(Some(r.ty()) == self.spec_resolve_type(t0));
                        Ok(r)
                    },
                }
            },
        }
    }

    /// The types a list of written types stands for, in order.
    pub fn resolve_types(&self, ctx: &mut Context, tps: Vec<RTypeNode>) -> (res: Result<Vec<Type>, InternalError>)
        requires
            self.wf(),
        ensures
            match self.spec_resolve_types(tps@) {
                Some(ts) => res matches Ok(r) && tys(r@) == ts,
                None => res is Err,
            },
            crate::mod_tree::spec_reported_after(*old(ctx), *final(ctx)),
        decreases tps,
    {
        let ghost all = tps@;
        let ghost v = tps;
        let mut rest = tps;
        let mut out: Vec<Type> = Vec::new();
        let n = rest.len();
        let mut k: usize = 0;
        assert(ctx.diagnostics@.subrange(0, old(ctx).diagnostics@.len() as int) =~= old(ctx).diagnostics@);
        assert(all.subrange(0, 0) =~= Seq::<RTypeNode>::empty());
        assert(tys(out@) =~= Seq::<Ty>::empty());
        while rest.len() > 0
            invariant
                k <= n,
                n == all.len(),
                v@ == all,
                v == tps,
                rest@ == all.subrange(k as int, n as int),
                self.wf(),
                self.spec_resolve_types(all.subrange(0, k as int)) == Some(tys(out@)),
                crate::mod_tree::spec_reported_after(*old(ctx), *ctx),
            decreases n - k,
        {
            let item = rest.remove(0);
            assert(item == all[k as int]);
            assert(decreases_to!(v => item)) by {
                assert(decreases_to!(v => v@));
                assert(decreases_to!(v@ => v@[k as int]));
            }
            let ghost c1 = *ctx;
            let ghost pre = all.subrange(0, k + 1);
            assert(pre.subrange(0, pre.len() - 1) =~= all.subrange(0, k as int));
            assert(pre[pre.len() - 1] == item);
            let t = match self.resolve_type(ctx, item) {
                Ok(t) => t,
                Err(e) => {
                    proof {
                        crate::mod_tree::lemma_reported_trans(*old(ctx), c1, *ctx);
                        lemma_resolve_types_none(*self, all, k as int);
                    }
                    return Err(e);
                },
            };
            proof {
                crate::mod_tree::lemma_reported_trans(*old(ctx), c1, *ctx);
            }
            let ghost before = out@;
            out.push(t);
            assert(tys(out@) =~= tys(before).push(t.ty()));
            k = k + 1;
            assert(rest@ =~= all.subrange(k as int, n as int));
        }
        assert(all.subrange(0, n as int) =~= all);
        Ok(out)
    }
}

impl Env {
    /// Hands out what was learned of the declarations, as a symbol table; recursive types
    /// are reported on the way (see `SymTable::init`).
    pub fn finish(self, ctx: &mut Context) -> (res: Result<SymTable, InternalError>)
        requires
            self.wf(),
        ensures
            spec_reported_after(*old(ctx), *final(ctx)),
            res is Err <==> exists|k: usize| #[trigger] self.tvar_map.has(k) && !spec_parts_ok(self.tvar_map.value(k), self.node_map),
            res matches Ok(st) ==> st.node_map == self.node_map && st.tvar_map == self.tvar_map,
    {
        SymTable::init(ctx, self.node_map, self.tvar_map)
    }
}

/// Two environments that find the same declarations and the same local bindings resolve every
/// written type alike.
pub proof fn lemma_same_resolve_type(e1: Env, e2: Env, tp: RTypeNode)
    requires
        e1.scope_info == e2.scope_info,
        e1.current_module == e2.current_module,
        e1.node_tvar_map == e2.node_tvar_map,
        forall|n: Seq<char>| #[trigger] spec_lookup_local(e1.local_scopes@, n) == spec_lookup_local(e2.local_scopes@, n),
    ensures
        e1.spec_resolve_type(tp) == e2.spec_resolve_type(tp),
    decreases tp,
{
    match tp.data {
        RTypeData::Var(path) => {
            if path.data@.len() == 1 {
                assert(spec_lookup_local(e1.local_scopes@, path.data@[0].data@) == spec_lookup_local(
                    e2.local_scopes@,
                    path.data@[0].data@,
                ));
            }
            if path.data@.len() > 0 {
                assert(spec_lookup_local(e1.local_scopes@, path.data@[0].data@) == spec_lookup_local(
                    e2.local_scopes@,
                    path.data@[0].data@,
                ));
            }
        },
        RTypeData::Fun(args, ret) => {
            lemma_same_resolve_types(e1, e2, args@);
            lemma_same_resolve_type(e1, e2, *ret);
        },
        RTypeData::Ptr(t) => lemma_same_resolve_type(e1, e2, *t),
        RTypeData::MutPtr(t) => lemma_same_resolve_type(e1, e2, *t),
        RTypeData::Slice(t) => lemma_same_resolve_type(e1, e2, *t),
        RTypeData::MutSlice(t) => lemma_same_resolve_type(e1, e2, *t),
        RTypeData::Tuple(ts) => lemma_same_resolve_types(e1, e2, ts@),
        RTypeData::Array(_, t) => lemma_same_resolve_type(e1, e2, *t),
        RTypeData::TypeApp(path, ts) => {
            lemma_same_resolve_types(e1, e2, ts@);
            if path.data@.len() > 0 {
                assert(spec_lookup_local(e1.local_scopes@, path.data@[0].data@) == spec_lookup_local(
                    e2.local_scopes@,
                    path.data@[0].data@,
                ));
            }
        },
    }
}

pub proof fn lemma_same_resolve_types(e1: Env, e2: Env, ts: Seq<RTypeNode>)
    requires
        e1.scope_info == e2.scope_info,
        e1.current_module == e2.current_module,
        e1.node_tvar_map == e2.node_tvar_map,
        forall|n: Seq<char>| #[trigger] spec_lookup_local(e1.local_scopes@, n) == spec_lookup_local(e2.local_scopes@, n),
    ensures
        e1.spec_resolve_types(ts) == e2.spec_resolve_types(ts),
    decreases ts,
{
    if ts.len() > 0 {
        lemma_same_resolve_types(e1, e2, ts.subrange(0, ts.len() - 1));
        lemma_same_resolve_type(e1, e2, ts[ts.len() - 1]);
    }
}

/// When one type of a list cannot be resolved, neither can the list, nor any list it starts.
proof fn lemma_resolve_types_none(env: Env, all: Seq<RTypeNode>, k: int)
    requires
        0 <= k < all.len(),
        env.spec_resolve_type(all[k]) is None,
    ensures
        env.spec_resolve_types(all) is None,
    decreases all.len(),
{
    if k < all.len() - 1 {
        lemma_resolve_types_none(env, all.subrange(0, all.len() - 1), k);
    }
}

/// A path names, from the module `module`, nothing or a declaration that has a type
/// variable (`tv_ids` are the declarations that have one).
pub open spec fn spec_path_names_type(si: ScopeInfo, module: usize, tv_ids: Set<usize>, path: Seq<Ident>) -> bool {
    spec_find_path(si, module, path, true) matches Ok(b) ==> tv_ids.contains(b.sym.target().id)
}

/// Every path of a written type names nothing or a declaration that has a type variable.
pub open spec fn spec_type_names_ok(si: ScopeInfo, module: usize, tv_ids: Set<usize>, tp: RTypeNode) -> bool
    decreases tp,
{
    match tp.data {
        RTypeData::Var(path) => spec_path_names_type(si, module, tv_ids, path.data@),
        RTypeData::Tuple(ts) => forall|i: int|
            0 <= i < ts@.len() ==> {
                proof {
                    assert(decreases_to!(tp => tp.data));
                    assert(decreases_to!(tp.data => ts));
                    assert(decreases_to!(ts => ts@));
                    assert(decreases_to!(ts@ => ts@[i]));
                }
                spec_type_names_ok(si, module, tv_ids, #[trigger] ts@[i])
            },
        RTypeData::Array(_, t) => spec_type_names_ok(si, module, tv_ids, *t),
        RTypeData::Ptr(t) => spec_type_names_ok(si, module, tv_ids, *t),
        RTypeData::MutPtr(t) => spec_type_names_ok(si, module, tv_ids, *t),
        RTypeData::Slice(t) => spec_type_names_ok(si, module, tv_ids, *t),
        RTypeData::MutSlice(t) => spec_type_names_ok(si, module, tv_ids, *t),
        RTypeData::Fun(ts, r) => spec_type_names_ok(si, module, tv_ids, *r) && forall|i: int|
            0 <= i < ts@.len() ==> {
                proof {
                    assert(decreases_to!(tp => tp.data));
                    assert(decreases_to!(tp.data => ts));
                    assert(decreases_to!(ts => ts@));
                    assert(decreases_to!(ts@ => ts@[i]));
                }
                spec_type_names_ok(si, module, tv_ids, #[trigger] ts@[i])
            },
        RTypeData::TypeApp(path, ts) => spec_path_names_type(si, module, tv_ids, path.data@) && forall|i: int|
            0 <= i < ts@.len() ==> {
                proof {
                    assert(decreases_to!(tp => tp.data));
                    assert(decreases_to!(tp.data => ts));
                    assert(decreases_to!(ts => ts@));
                    assert(decreases_to!(ts@ => ts@[i]));
                }
                spec_type_names_ok(si, module, tv_ids, #[trigger] ts@[i])
            },
    }
}

impl Env {
    /// The declarations that have a type variable.
    pub open spec fn tv_ids(self) -> Set<usize> {
        self.node_tvar_map.as_map().dom()
    }

    /// Resolution keeps what kind of pointer is written: a written mutable pointer resolves to a
    /// mutable pointer to what its target resolves to, a written pointer to an immutable one,
    /// and only written pointers resolve to pointers.
    pub proof fn lemma_resolve_keeps_pointers(self, tp: RTypeNode)
        ensures
            self.spec_resolve_type(tp) matches Some(r) ==> ((r is MutPtr <==> tp.data is MutPtr) && (r is Ptr
                <==> tp.data is Ptr)),
            tp.data matches RTypeData::MutPtr(t) ==> (self.spec_resolve_type(*t) matches Some(x) ==> self.spec_resolve_type(
                tp,
            ) == Some(Ty::MutPtr(Box::new(x)))),
            tp.data matches RTypeData::Ptr(t) ==> (self.spec_resolve_type(*t) matches Some(x) ==> self.spec_resolve_type(tp)
                == Some(Ty::Ptr(Box::new(x)))),
    {
        match tp.data {
            RTypeData::Var(path) => {
                if let Ok(Some(tv)) = self.spec_path_tvar(path.data@) {
                    let n = Self::spec_named(tv, path.data@);
                    assert(!(n is MutPtr) && !(n is Ptr));
                }
            },
            RTypeData::TypeApp(path, ts) => {
                if let Some(a) = self.spec_resolve_types(ts@) {
                    if let Ok(Some(tv)) = self.spec_path_tvar(path.data@) {
                        let n = Self::spec_applied(tv, path.data@, a);
                        assert(!(n is MutPtr) && !(n is Ptr));
                    }
                }
            },
            _ => {},
        }
    }

    /// What a written type resolves to holds no unification variable.
    pub proof fn lemma_resolved_known(self, tp: RTypeNode)
        ensures
            self.spec_resolve_type(tp) matches Some(t) ==> crate::tp::model::in_range(Seq::empty(), t),
        decreases tp,
    {
        match tp.data {
            RTypeData::Fun(args, ret) => {
                self.lemma_resolved_all_known(args@);
                self.lemma_resolved_known(*ret);
                let p = crate::tp::model::pred_below(0);
                match self.spec_resolve_types(args@) {
                    Some(a) => match self.spec_resolve_type(*ret) {
                        Some(r) => {
                            assert forall|k: int| 0 <= k < a.len() implies all_uvars(#[trigger] a[k], p) by {
                                assert(crate::tp::model::in_range(Seq::empty(), a[k]));
                            }
                            assert(all_uvars(r, p));
                            assert(all_uvars(Ty::Fun(a, Box::new(r)), p));
                        },
                        None => {},
                    },
                    None => {},
                }
            },
            RTypeData::Ptr(t) => self.lemma_resolved_known(*t),
            RTypeData::MutPtr(t) => self.lemma_resolved_known(*t),
            RTypeData::Slice(t) => {
                self.lemma_resolved_known(*t);
                if let Some(r) = self.spec_resolve_type(*t) {
                    let ts = spec_slice_ty(r, false)->Tuple_0;
                    let p = crate::tp::model::pred_below(0);
                    assert(ts[0] == Ty::Ptr(Box::new(r)));
                    assert(all_uvars(r, p));
                    assert(all_uvars(ts[0], p));
                    assert(all_uvars(ts[1], p));
                    assert(ts.len() == 2);
                    assert forall|k: int| 0 <= k < ts.len() implies all_uvars(#[trigger] ts[k], p) by {
                        if k == 0 {
                            assert(all_uvars(ts[0], p));
                        } else {
                            assert(all_uvars(ts[1], p));
                        }
                    }
                }
            },
            RTypeData::MutSlice(t) => {
                self.lemma_resolved_known(*t);
                if let Some(r) = self.spec_resolve_type(*t) {
                    let ts = spec_slice_ty(r, true)->Tuple_0;
                    let p = crate::tp::model::pred_below(0);
                    assert(ts[0] == Ty::MutPtr(Box::new(r)));
                    assert(all_uvars(r, p));
                    assert(all_uvars(ts[0], p));
                    assert(all_uvars(ts[1], p));
                    assert(ts.len() == 2);
                    assert forall|k: int| 0 <= k < ts.len() implies all_uvars(#[trigger] ts[k], p) by {
                        if k == 0 {
                            assert(all_uvars(ts[0], p));
                        } else {
                            assert(all_uvars(ts[1], p));
                        }
                    }
                }
            },
            RTypeData::Tuple(ts) => {
                self.lemma_resolved_all_known(ts@);
                if let Some(a) = self.spec_resolve_types(ts@) {
                    assert forall|k: int| 0 <= k < a.len() implies all_uvars(#[trigger] a[k], crate::tp::model::pred_below(0)) by {
                        assert(crate::tp::model::in_range(Seq::empty(), a[k]));
                    }
                }
            },
            RTypeData::Array(_, t) => self.lemma_resolved_known(*t),
            RTypeData::TypeApp(_, ts) => {
                self.lemma_resolved_all_known(ts@);
                if let Some(a) = self.spec_resolve_types(ts@) {
                    assert forall|k: int| 0 <= k < a.len() implies all_uvars(#[trigger] a[k], crate::tp::model::pred_below(0)) by {
                        assert(crate::tp::model::in_range(Seq::empty(), a[k]));
                    }
                }
            },
            _ => {},
        }
    }

    /// What a list of written types resolves to holds no unification variable.
    pub proof fn lemma_resolved_all_known(self, ts: Seq<RTypeNode>)
        ensures
            self.spec_resolve_types(ts) matches Some(a) ==> forall|k: int| 0 <= k < a.len() ==> crate::tp::model::in_range(
                Seq::empty(),
                #[trigger] a[k],
            ),
        decreases ts,
    {
        if ts.len() > 0 {
            self.lemma_resolved_all_known(ts.subrange(0, ts.len() - 1));
            self.lemma_resolved_known(ts[ts.len() - 1]);
        }
    }

    /// A written type whose paths all name types resolves.
    pub proof fn lemma_type_names_ok(self, tp: RTypeNode)
        requires
            spec_type_names_ok(self.scope_info, self.current_module.id, self.tv_ids(), tp),
        ensures
            self.spec_resolve_type(tp) is Some,
        decreases tp,
    {
        match tp.data {
            RTypeData::Var(path) => {},
            RTypeData::Tuple(ts) => {
                self.lemma_types_names_ok(ts@);
            },
            RTypeData::Array(_, t) => {
                self.lemma_type_names_ok(*t);
            },
            RTypeData::Ptr(t) => {
                self.lemma_type_names_ok(*t);
            },
            RTypeData::MutPtr(t) => {
                self.lemma_type_names_ok(*t);
            },
            RTypeData::Slice(t) => {
                self.lemma_type_names_ok(*t);
            },
            RTypeData::MutSlice(t) => {
                self.lemma_type_names_ok(*t);
            },
            RTypeData::Fun(ts, r) => {
                self.lemma_types_names_ok(ts@);
                self.lemma_type_names_ok(*r);
            },
            RTypeData::TypeApp(path, ts) => {
                self.lemma_types_names_ok(ts@);
            },
        }
    }

    /// Written types whose paths all name types resolve.
    pub proof fn lemma_types_names_ok(self, ts: Seq<RTypeNode>)
        requires
            forall|i: int| 0 <= i < ts.len() ==> spec_type_names_ok(self.scope_info, self.current_module.id, self.tv_ids(), #[trigger] ts[i]),
        ensures
            self.spec_resolve_types(ts) is Some,
        decreases ts,
    {
        if ts.len() > 0 {
            let ts1 = ts.subrange(0, ts.len() - 1);
            assert forall|i: int| 0 <= i < ts1.len() implies spec_type_names_ok(
                self.scope_info,
                self.current_module.id,
                self.tv_ids(),
                #[trigger] ts1[i],
            ) by {
                assert(ts1[i] == ts[i]);
            }
            self.lemma_types_names_ok(ts1);
            self.lemma_type_names_ok(ts[ts.len() - 1]);
        }
    }
}

} // verus!
