//! What the compiler knows of every declaration and every named type, by id.
use vstd::prelude::*;

use crate::common::maps::{IdMap, NameMap};
use crate::common::{str_eq, BuiltinName, NodeID, Position, RAttribute};
use crate::error::context::{spec_reported_after, Context};
use crate::error::diagnostic::{spec_labelled_error, Diagnostic};
use crate::error::InternalError;
use crate::symtable::type_sort::{
    lemma_cycle_left, make_dep_tree, spec_cycle, spec_dep_graph, spec_edge, spec_parts_ok, spec_topo_sorted, topo_sort,
};
use crate::symtable::layout::{Layout, LayoutKind};
use crate::tp::model::Ty;
use crate::tp::tvar::{spec_builtin_primitive, spec_builtin_size};
use crate::tp::{TVar, Type, TypeView};

pub mod error;
pub mod layout;
pub mod type_sort;

verus! {

/// The symbols of a program, by the id of their declaration, and its named types, by the
/// id of their type variable.
pub struct SymTable {
    pub node_map: IdMap<SymInfo>,
    pub tvar_map: IdMap<TypeInfo>,
}

/// Where a symbol comes from, which decides how its name is given in the object file.
#[derive(Debug, Clone, Copy)]
pub enum Origin {
    Local,
    External,
    Builtin(BuiltinName),
    NoMangle,
}

/// A named field of a struct type.
pub struct StructField {
    pub name: String,
    pub tp: Type,
}

/// What is known of a declared symbol.
pub struct SymInfo {
    pub name: String,
    pub pos: Position,
    pub kind: SymKind,
    pub builtin_name: Option<String>,
    pub is_extern: bool,
    pub mangle: bool,
}

pub enum SymKind {
    Func { params: Vec<TVar>, args: Vec<Type>, ret: Type },
    Struct(TVar),
    Enum(TVar),
    EnumCons { id: usize, args: Vec<Type>, parent: NodeID },
}

/// What is known of a named type.
pub struct TypeInfo {
    pub name: String,
    pub pos: Position,
    pub kind: TypeKind,
    pub methods: NameMap<NodeID>,
}

pub enum TypeKind {
    Builtin,
    /// A struct: its type parameters, and its fields by name, each with its index and type.
    Struct { params: Vec<TVar>, fields: NameMap<(usize, Type)> },
    /// An enum: its type parameters, and its constructors by name.
    Enum { params: Vec<TVar>, constructors: NameMap<NodeID> },
}

/// Some attribute has the given name.
pub open spec fn spec_has_attribute(attributes: Seq<RAttribute>, name: Seq<char>) -> bool {
    exists|i: int| 0 <= i < attributes.len() && #[trigger] attributes[i].name.data@ == name
}

/// The symbol is the builtin of the given name.
pub open spec fn spec_is_builtin(info: SymInfo, name: Seq<char>) -> bool {
    info.builtin_name matches Some(b) && b@ == name
}

impl SymInfo {
    /// A symbol with no attributes: not builtin, not external, with a mangled name.
    pub fn build(name: String, pos: Position, kind: SymKind) -> (res: SymInfo)
        ensures
            res.name == name,
            res.pos == pos,
            res.kind == kind,
            res.builtin_name is None,
            !res.is_extern,
            res.mangle,
    {
        SymInfo { name, pos, kind, builtin_name: None, is_extern: false, mangle: true }
    }

    /// Set symbol flags according to given attributes: `extern` makes the symbol external,
    /// `no_mangle` keeps its name as written.
    pub fn with_attributes(self, attributes: Vec<RAttribute>) -> (res: SymInfo)
        ensures
            res.name == self.name,
            res.pos == self.pos,
            res.kind == self.kind,
            res.builtin_name == self.builtin_name,
            res.is_extern == (self.is_extern || spec_has_attribute(attributes@, "extern"@)),
            res.mangle == (self.mangle && !spec_has_attribute(attributes@, "no_mangle"@)),
    {
        let mut s = self;
        let n = attributes.len();
        let mut i: usize = 0;
        while i < n
            invariant
                n == attributes@.len(),
                i <= n,
                s.name == self.name,
                s.pos == self.pos,
                s.kind == self.kind,
                s.builtin_name == self.builtin_name,
                s.is_extern == (self.is_extern || spec_has_attribute(attributes@.subrange(0, i as int), "extern"@)),
                s.mangle == (self.mangle && !spec_has_attribute(attributes@.subrange(0, i as int), "no_mangle"@)),
            decreases n - i,
        {
            let ghost pre = attributes@.subrange(0, i as int);
            let ghost next = attributes@.subrange(0, i + 1);
            let name = attributes[i].name.data.as_str();
            if str_eq(name, "extern") {
                s.is_extern = true;
            } else if str_eq(name, "no_mangle") {
                s.mangle = false;
            }
            proof {
                reveal_strlit("extern");
                reveal_strlit("no_mangle");
                assert("extern"@.len() != "no_mangle"@.len());
                assert(next[i as int] == attributes@[i as int]);
                assert forall|nm: Seq<char>| spec_has_attribute(next, nm) == (spec_has_attribute(pre, nm)
                    || attributes@[i as int].name.data@ == nm) by {
                    if spec_has_attribute(pre, nm) {
                        let k = choose|k: int| 0 <= k < pre.len() && #[trigger] pre[k].name.data@ == nm;
                        assert(next[k] == pre[k]);
                    }
                    if spec_has_attribute(next, nm) {
                        let k = choose|k: int| 0 <= k < next.len() && #[trigger] next[k].name.data@ == nm;
                        if k < i {
                            assert(pre[k] == next[k]);
                        }
                    }
                }
            }
            i = i + 1;
        }
        assert(attributes@.subrange(0, n as int) =~= attributes@);
        s
    }
}

/// The ids of `s` that are types of `tvar_map`, in order.
pub open spec fn spec_kept_types(tvar_map: IdMap<TypeInfo>, s: Seq<usize>) -> Seq<usize>
    decreases s.len(),
{
    if s.len() == 0 {
        Seq::empty()
    } else {
        let p = spec_kept_types(tvar_map, s.drop_last());
        if tvar_map.has(s.last()) {
            p.push(s.last())
        } else {
            p
        }
    }
}

/// The kept ids are those of `s` that the table has.
pub proof fn lemma_kept_types(tvar_map: IdMap<TypeInfo>, s: Seq<usize>, x: usize)
    ensures
        spec_kept_types(tvar_map, s).contains(x) <==> s.contains(x) && tvar_map.has(x),
    decreases s.len(),
{
    if s.len() > 0 {
        let p = s.drop_last();
        lemma_kept_types(tvar_map, p, x);
        let kp = spec_kept_types(tvar_map, p);
        if s.contains(x) && tvar_map.has(x) {
            let i = choose|i: int| 0 <= i < s.len() && s[i] == x;
            if i < s.len() - 1 {
                assert(p[i] == x);
                let j = choose|j: int| 0 <= j < kp.len() && kp[j] == x;
                assert(spec_kept_types(tvar_map, s)[j] == x);
            } else {
                assert(spec_kept_types(tvar_map, s) == kp.push(x));
                assert(kp.push(x)[kp.len() as int] == x);
            }
        }
        if spec_kept_types(tvar_map, s).contains(x) {
            let j = choose|j: int| 0 <= j < spec_kept_types(tvar_map, s).len() && spec_kept_types(tvar_map, s)[j] == x;
            if tvar_map.has(s.last()) && j == kp.len() {
                assert(s[s.len() - 1] == x);
            } else {
                assert(kp[j] == x);
                let i = choose|i: int| 0 <= i < p.len() && p[i] == x;
                assert(s[i] == x);
            }
        }
    }
}

/// Every named type on a cycle of the dependency graph (a type whose size depends on its
/// own, directly or through other types) is among those `init` reports as recursive.
#[verifier::spinoff_prover]
pub proof fn lemma_cycle_reported(
    tvar_map: IdMap<TypeInfo>,
    node_map: IdMap<SymInfo>,
    g: IdMap<Vec<usize>>,
    order: Seq<usize>,
    left: Seq<usize>,
    c: Seq<usize>,
)
    requires
        spec_dep_graph(tvar_map, node_map, g),
        spec_topo_sorted(g, order, left),
        spec_cycle(g, c),
    ensures
        forall|k: int| 0 <= k < c.len() ==> spec_kept_types(tvar_map, left).contains(#[trigger] c[k]),
{
    lemma_cycle_left(g, order, left, c);
    assert(forall|k: usize| #[trigger] g.has(k) ==> tvar_map.has(k));
    lemma_cycle_keys_reported(tvar_map, g, left, c);
}

proof fn lemma_cycle_keys_reported(tvar_map: IdMap<TypeInfo>, g: IdMap<Vec<usize>>, left: Seq<usize>, c: Seq<usize>)
    requires
        forall|k: usize| #[trigger] g.has(k) ==> tvar_map.has(k),
        spec_cycle(g, c),
        forall|k: int| 0 <= k < c.len() ==> left.contains(#[trigger] c[k]),
    ensures
        forall|k: int| 0 <= k < c.len() ==> spec_kept_types(tvar_map, left).contains(#[trigger] c[k]),
{
    assert forall|k: int| 0 <= k < c.len() implies spec_kept_types(tvar_map, left).contains(#[trigger] c[k]) by {
        if k < c.len() - 1 {
            assert(spec_edge(g, c[k], c[k + 1]));
        } else {
            assert(spec_edge(g, c[c.len() - 1], c[0]));
        }
        assert(g.has(c[k]));
        assert(left.contains(c[k]));
        lemma_kept_types(tvar_map, left, c[k]);
    }
}

/// `ds` reports each type of `ids` as recursive, at its declaration, in order.
pub open spec fn spec_recursive_reports(tvar_map: IdMap<TypeInfo>, ids: Seq<usize>, ds: Seq<Diagnostic>) -> bool {
    &&& ds.len() == ids.len()
    &&& forall|i: int| 0 <= i < ds.len() ==> spec_labelled_error(#[trigger] ds[i], tvar_map.value(ids[i]).pos, "recursive type"@)
}

/// Reports each of the given types that the table has as recursive.
pub fn report_recursive(ctx: &mut Context, tvar_map: &IdMap<TypeInfo>, cyclic: &Vec<usize>)
    requires
        tvar_map.keys_unique(),
    ensures
        spec_reported_after(*old(ctx), *final(ctx)),
        spec_recursive_reports(
            *tvar_map,
            spec_kept_types(*tvar_map, cyclic@),
            final(ctx).diagnostics@.subrange(old(ctx).diagnostics@.len() as int, final(ctx).diagnostics@.len() as int),
        ),
{
    let ghost c0 = *ctx;
    let ghost n0 = ctx.diagnostics@.len();
    let n = cyclic.len();
    let mut i: usize = 0;
    proof {
        crate::error::context::lemma_reported_refl(*ctx);
        assert(cyclic@.subrange(0, 0) =~= Seq::<usize>::empty());
    }
    while i < n
        invariant
            n == cyclic@.len(),
            i <= n,
            tvar_map.keys_unique(),
            c0 == *old(ctx),
            n0 == c0.diagnostics@.len(),
            spec_reported_after(c0, *ctx),
            spec_recursive_reports(
                *tvar_map,
                spec_kept_types(*tvar_map, cyclic@.subrange(0, i as int)),
                ctx.diagnostics@.subrange(n0 as int, ctx.diagnostics@.len() as int),
            ),
        decreases n - i,
    {
        let ghost c1 = *ctx;
        let tv = cyclic[i];
        let ghost pre = cyclic@.subrange(0, i as int);
        let ghost next = cyclic@.subrange(0, i + 1);
        assert(next.drop_last() =~= pre);
        assert(next.last() == tv);
        if let Some(info) = tvar_map.get(tv) {
            ctx.report(error::resursive_types(&info.pos));
            proof {
                crate::error::context::lemma_reported_trans(c0, c1, *ctx);
                let ks = spec_kept_types(*tvar_map, pre);
                let ds0 = c1.diagnostics@.subrange(n0 as int, c1.diagnostics@.len() as int);
                let ds1 = ctx.diagnostics@.subrange(n0 as int, ctx.diagnostics@.len() as int);
                assert(ds1 =~= ds0.push(ctx.diagnostics@.last()));
                assert(spec_kept_types(*tvar_map, next) == ks.push(tv));
                assert forall|j: int| 0 <= j < ds1.len() implies spec_labelled_error(
                    #[trigger] ds1[j],
                    tvar_map.value(ks.push(tv)[j]).pos,
                    "recursive type"@,
                ) by {
                    if j < ds0.len() {
                        assert(ds1[j] == ds0[j]);
                        assert(ks.push(tv)[j] == ks[j]);
                    }
                }
            }
        } else {
            assert(spec_kept_types(*tvar_map, next) == spec_kept_types(*tvar_map, pre));
        }
        i = i + 1;
    }
    assert(cyclic@.subrange(0, n as int) =~= cyclic@);
}

/// The sum of the sizes of the first `n` layouts of `items`.
pub open spec fn spec_offset(items: Seq<(Layout, i32)>, n: int) -> int
    decreases n,
{
    if n <= 0 || n > items.len() {
        0
    } else {
        spec_offset(items, n - 1) + items[n - 1].0.size
    }
}

/// The fields of a struct are listed in the order of their indices.
pub open spec fn spec_fields_in_order(fields: NameMap<(usize, Type)>) -> bool {
    forall|i: int| 0 <= i < fields.entries@.len() ==> (#[trigger] fields.entries@[i]).1.0 == i
}

/// `l` lays the fields out one after the other, in the order of their indices, each with
/// its layout found within `fuel` nested named types.
pub open spec fn spec_struct_layout(st: SymTable, fields: NameMap<(usize, Type)>, l: Layout, fuel: nat) -> bool
    decreases fuel, 1nat,
{
    &&& spec_fields_in_order(fields)
    &&& l.align == 4
    &&& l.kind is Struct
    &&& l.kind->Struct_0@.len() == fields.entries@.len()
    &&& forall|i: int|
        0 <= i < fields.entries@.len() ==> spec_is_layout(
            st,
            fields.entries@[i].1.1.ty(),
            (#[trigger] l.kind->Struct_0@[i]).0,
            fuel,
        ) && l.kind->Struct_0@[i].1 == spec_offset(l.kind->Struct_0@, i) as i32
    &&& l.size == spec_offset(l.kind->Struct_0@, fields.entries@.len() as int)
}

/// `l` is the layout of values of `t`, found within `fuel` nested named types: a pointer
/// or a function is a machine word; a builtin numeric type is its machine type; a struct
/// lays its fields one after the other, in the order of their indices.
pub open spec fn spec_is_layout(st: SymTable, t: Ty, l: Layout, fuel: nat) -> bool
    decreases fuel, 0nat,
{
    match t {
        Ty::Fun(_, _) | Ty::Ptr(_) | Ty::MutPtr(_) => l.size == 8 && l.align == 3 && l.kind == LayoutKind::Primitive(
            crate::symtable::layout::Type::Tusize,
        ),
        Ty::NamedVar(v, _) | Ty::Var(v) => fuel > 0 && st.tvar_map.has(v.id) && match st.tvar_map.value(v.id).kind {
            TypeKind::Builtin => {
                &&& v.id > 2
                &&& spec_builtin_size(v.id) is Some
                &&& spec_builtin_primitive(v.id) is Some
                &&& l.size == spec_builtin_size(v.id)->Some_0
                &&& l.align == 3
                &&& l.kind == LayoutKind::Primitive(spec_builtin_primitive(v.id)->Some_0)
            },
            TypeKind::Struct { fields, .. } => spec_struct_layout(st, fields, l, (fuel - 1) as nat),
            TypeKind::Enum { .. } => false,
        },
        _ => false,
    }
}

/// A type has at most one size.
pub proof fn lemma_layout_size_unique(st: SymTable, t: Ty, l1: Layout, l2: Layout, fuel: nat)
    requires
        spec_is_layout(st, t, l1, fuel),
        spec_is_layout(st, t, l2, fuel),
    ensures
        l1.size == l2.size,
    decreases fuel,
{
    match t {
        Ty::NamedVar(v, _) | Ty::Var(v) => {
            match st.tvar_map.value(v.id).kind {
                TypeKind::Struct { fields, .. } => {
                    assert(spec_struct_layout(st, fields, l1, (fuel - 1) as nat));
                    assert(spec_struct_layout(st, fields, l2, (fuel - 1) as nat));
                    let a = l1.kind->Struct_0@;
                    let b = l2.kind->Struct_0@;
                    let n = fields.entries@.len() as int;
                    assert forall|i: int| 0 <= i < n implies (#[trigger] a[i]).0.size == b[i].0.size by {
                        lemma_layout_size_unique(st, fields.entries@[i].1.1.ty(), a[i].0, b[i].0, (fuel - 1) as nat);
                    }
                    lemma_offset_equal(a, b, n);
                },
                _ => {},
            }
        },
        _ => {},
    }
}

/// A type's layout is a machine type for every one of its layouts, or for none.
pub proof fn lemma_layout_kind_unique(st: SymTable, t: Ty, l1: Layout, l2: Layout, fuel: nat)
    requires
        spec_is_layout(st, t, l1, fuel),
        spec_is_layout(st, t, l2, fuel),
    ensures
        l1.kind is Primitive <==> l2.kind is Primitive,
        l1.kind is Primitive ==> l1.kind == l2.kind,
        l1.kind is Struct <==> l2.kind is Struct,
        l1.kind is Struct ==> l1.kind->Struct_0@.len() == l2.kind->Struct_0@.len(),
        !(l1.kind is Union),
{
}

/// Lists of layouts of the same sizes have the same offsets.
proof fn lemma_offset_equal(a: Seq<(Layout, i32)>, b: Seq<(Layout, i32)>, n: int)
    requires
        0 <= n <= a.len(),
        a.len() == b.len(),
        forall|i: int| 0 <= i < n ==> (#[trigger] a[i]).0.size == b[i].0.size,
    ensures
        spec_offset(a, n) == spec_offset(b, n),
    decreases n,
{
    if n > 0 {
        lemma_offset_equal(a, b, n - 1);
    }
}

/// Offsets depend only on the layouts before them.
proof fn lemma_offset_prefix(a: Seq<(Layout, i32)>, b: Seq<(Layout, i32)>, n: int)
    requires
        0 <= n <= a.len(),
        n <= b.len(),
        forall|i: int| 0 <= i < n ==> #[trigger] a[i] == b[i],
    ensures
        spec_offset(a, n) == spec_offset(b, n),
    decreases n,
{
    if n > 0 {
        lemma_offset_prefix(a, b, n - 1);
    }
}

/// Offsets only grow.
proof fn lemma_offset_mono(a: Seq<(Layout, i32)>, m: int, n: int)
    requires
        0 <= m <= n <= a.len(),
    ensures
        spec_offset(a, m) <= spec_offset(a, n),
    decreases n,
{
    if m < n {
        lemma_offset_mono(a, m, n - 1);
    }
}

impl SymTable {
    pub open spec fn wf(self) -> bool {
        self.node_map.keys_unique() && self.tvar_map.keys_unique()
    }

    /// The symbols of the table, by declaration id; the table is used up.
    pub fn destroy(self) -> (res: IdMap<SymInfo>)
        ensures
            res == self.node_map,
    {
        self.node_map
    }

    /// The table of the given symbols and types, once each type that contains itself (and
    /// each type such a type depends on) was reported as recursive.
    ///
    /// The error comes for an enum constructor the table does not have as one, and for a
    /// type that holds a unification variable; then nothing is reported.
    pub fn init(ctx: &mut Context, node_map: IdMap<SymInfo>, tvar_map: IdMap<TypeInfo>) -> (res: Result<SymTable, InternalError>)
        requires
            node_map.keys_unique(),
            tvar_map.keys_unique(),
        ensures
            spec_reported_after(*old(ctx), *final(ctx)),
            res is Err <==> exists|k: usize| #[trigger] tvar_map.has(k) && !spec_parts_ok(tvar_map.value(k), node_map),
            res is Err ==> *final(ctx) == *old(ctx),
            res matches Ok(st) ==> st.node_map == node_map && st.tvar_map == tvar_map,
            res is Ok ==> exists|g: IdMap<Vec<usize>>, order: Seq<usize>, left: Seq<usize>|
                spec_dep_graph(tvar_map, node_map, g) && #[trigger] spec_topo_sorted(g, order, left) && spec_recursive_reports(
                    tvar_map,
                    spec_kept_types(tvar_map, left),
                    final(ctx).diagnostics@.subrange(old(ctx).diagnostics@.len() as int, final(ctx).diagnostics@.len() as int),
                ),
    {
        proof {
            crate::error::context::lemma_reported_refl(*ctx);
        }
        let dep_tree = make_dep_tree(&tvar_map, &node_map)?;
        let ghost g = dep_tree;
        let (order, cyclic) = topo_sort(dep_tree);
        report_recursive(ctx, &tvar_map, &cyclic);
        assert(spec_topo_sorted(g, order@, cyclic@));
        Ok(SymTable { node_map, tvar_map })
    }

    /// A table with the given symbols and types.
    pub fn new(node_map: IdMap<SymInfo>, tvar_map: IdMap<TypeInfo>) -> (res: SymTable)
        ensures
            res.node_map == node_map,
            res.tvar_map == tvar_map,
    {
        SymTable { node_map, tvar_map }
    }

    /// The symbols, by the id of their declaration.
    pub fn get_items(&self) -> (res: &IdMap<SymInfo>)
        ensures
            *res == self.node_map,
    {
        &self.node_map
    }

    /// Hands out the symbols, dropping the types.
    pub fn destroy_for_items(self) -> (res: IdMap<SymInfo>)
        ensures
            res == self.node_map,
    {
        self.node_map
    }

    /// The symbol declared with the given id, which must have one.
    pub fn find_sym_info(&self, node_id: NodeID) -> (res: &SymInfo)
        requires
            self.wf(),
            self.node_map.has(node_id.id),
        ensures
            *res == self.node_map.value(node_id.id),
    {
        self.node_map.get(node_id.id).unwrap()
    }

    /// The type with the given type variable, which must have one.
    pub fn find_type_info(&self, tvar: TVar) -> (res: &TypeInfo)
        requires
            self.wf(),
            self.tvar_map.has(tvar.id),
        ensures
            *res == self.tvar_map.value(tvar.id),
    {
        self.tvar_map.get(tvar.id).unwrap()
    }

    /// The id of the first symbol, in the order of the table, that is the builtin of the
    /// given name.
    pub fn get_builtin_id(&self, name: &str) -> (res: Option<NodeID>)
        ensures
            match res {
                Some(id) => exists|i: int|
                    0 <= i < self.node_map.entries@.len() && self.node_map.entries@[i].0 == id.id
                        && spec_is_builtin(#[trigger] self.node_map.entries@[i].1, name@)
                        && forall|j: int| 0 <= j < i ==> !spec_is_builtin(#[trigger] self.node_map.entries@[j].1, name@),
                None => forall|j: int| 0 <= j < self.node_map.entries@.len() ==> !spec_is_builtin(
                    #[trigger] self.node_map.entries@[j].1,
                    name@,
                ),
            },
    {
        let n = self.node_map.entries.len();
        let mut i: usize = 0;
        while i < n
            invariant
                n == self.node_map.entries@.len(),
                i <= n,
                forall|j: int| 0 <= j < i ==> !spec_is_builtin(#[trigger] self.node_map.entries@[j].1, name@),
            decreases n - i,
        {
            if let Some(b) = &self.node_map.entries[i].1.builtin_name {
                if str_eq(b.as_str(), name) {
                    return Some(NodeID { id: self.node_map.entries[i].0 });
                }
            }
            i = i + 1;
        }
        None
    }

    /// The layout of values of `tp`; the error comes for what has no layout yet (enums,
    /// tuples, arrays, applied type constructors, builtins with no machine type), for a
    /// type that contains itself, and for a struct too large.
    pub fn get_layout(&self, tp: &Type) -> (res: Result<Layout, InternalError>)
        requires
            self.wf(),
        ensures
            res matches Ok(l) ==> spec_is_layout(*self, tp.ty(), l, self.tvar_map.entries@.len()),
            res is Err ==> forall|l: Layout| !spec_is_layout(*self, tp.ty(), l, self.tvar_map.entries@.len()),
    {
        self.layout_within(tp, self.tvar_map.entries.len())
    }

    /// The layout of values of `tp`, found within `fuel` nested named types.
    fn layout_within(&self, tp: &Type, fuel: usize) -> (res: Result<Layout, InternalError>)
        requires
            self.wf(),
        ensures
            res matches Ok(l) ==> spec_is_layout(*self, tp.ty(), l, fuel as nat),
            res is Err ==> forall|l: Layout| !spec_is_layout(*self, tp.ty(), l, fuel as nat),
        decreases fuel,
    {
        let tvar = match &tp.0 {
            TypeView::Fun(_, _) | TypeView::Ptr(_) | TypeView::MutPtr(_) => {
                return Ok(
                    Layout { size: 8, align: 3, kind: LayoutKind::Primitive(crate::symtable::layout::Type::Tusize) },
                );
            },
            TypeView::NamedVar(tvar, _) => *tvar,
            TypeView::Var(tvar) => *tvar,
            _ => {
                return Err(InternalError::msg("this type has no layout yet"));
            },
        };
        assert((tp.ty() matches Ty::NamedVar(v, _) && v == tvar) || (tp.ty() matches Ty::Var(v) && v == tvar));
        if fuel == 0 {
            return Err(InternalError::msg("a type contains itself"));
        }
        let info = match self.tvar_map.get(tvar.id) {
            Some(info) => info,
            None => {
                return Err(InternalError::msg("unknown type"));
            },
        };
        match &info.kind {
            TypeKind::Builtin => {
                if tvar.id <= 2 {
                    return Err(InternalError::msg("this builtin type has no machine type yet"));
                }
                let size = match tvar.builtin_size() {
                    Some(size) => size,
                    None => {
                        return Err(InternalError::msg("not a builtin type"));
                    },
                };
                let prim = match tvar.builtin_as_primitive() {
                    Some(prim) => prim,
                    None => {
                        return Err(InternalError::msg("not a builtin type"));
                    },
                };
                Ok(Layout { size, align: 3, kind: LayoutKind::Primitive(prim) })
            },
            TypeKind::Struct { fields, .. } => {
                assert forall|l: Layout| #[trigger] spec_is_layout(*self, tp.ty(), l, fuel as nat)
                    <==> spec_struct_layout(*self, *fields, l, (fuel - 1) as nat) by {}
                let n = fields.entries.len();
                let mut layouts: Vec<(Layout, i32)> = Vec::new();
                let mut curr: u32 = 0;
                let mut i: usize = 0;
                while i < n
                    invariant
                        n == fields.entries@.len(),
                        i <= n,
                        fuel > 0,
                        self.wf(),
                        (tp.ty() matches Ty::NamedVar(v, _) && v == tvar) || (tp.ty() matches Ty::Var(v) && v == tvar),
                        forall|l: Layout| #[trigger] spec_is_layout(*self, tp.ty(), l, fuel as nat)
                            <==> spec_struct_layout(*self, *fields, l, (fuel - 1) as nat),
                        self.tvar_map.has(tvar.id),
                        self.tvar_map.value(tvar.id).kind is Struct,
                        self.tvar_map.value(tvar.id).kind->Struct_fields == *fields,
                        layouts@.len() == i,
                        curr == spec_offset(layouts@, i as int),
                        forall|j: int| 0 <= j < i ==> (#[trigger] fields.entries@[j]).1.0 == j,
                        forall|j: int|
                            0 <= j < i ==> spec_is_layout(
                                *self,
                                fields.entries@[j].1.1.ty(),
                                (#[trigger] layouts@[j]).0,
                                (fuel - 1) as nat,
                            ) && layouts@[j].1 == spec_offset(layouts@, j) as i32,
                    decreases n - i,
                {
                    if fields.entries[i].1.0 != i {
                        proof {
                            assert forall|l: Layout| !spec_is_layout(*self, tp.ty(), l, fuel as nat) by {
                                if spec_is_layout(*self, tp.ty(), l, fuel as nat) {
                                    assert(spec_struct_layout(*self, *fields, l, (fuel - 1) as nat));
                                    assert(fields.entries@[i as int].1.0 == i);
                                }
                            }
                        }
                        return Err(InternalError::msg("the fields of a struct are out of order"));
                    }
                    let l = match self.layout_within(&fields.entries[i].1.1, fuel - 1) {
                        Ok(l) => l,
                        Err(e) => {
                            proof {
                                assert forall|l: Layout| !spec_is_layout(*self, tp.ty(), l, fuel as nat) by {
                                    if spec_is_layout(*self, tp.ty(), l, fuel as nat) {
                                        assert(spec_struct_layout(*self, *fields, l, (fuel - 1) as nat));
                                        assert(spec_is_layout(
                                            *self,
                                            fields.entries@[i as int].1.1.ty(),
                                            l.kind->Struct_0@[i as int].0,
                                            (fuel - 1) as nat,
                                        ));
                                    }
                                }
                            }
                            return Err(e);
                        },
                    };
                    let total = l.size;
                    let ghost before = layouts@;
                    layouts.push((l, curr as i32));
                    proof {
                        assert forall|j: int| 0 <= j <= i implies #[trigger] spec_offset(layouts@, j) == spec_offset(before, j) by {
                            lemma_offset_prefix(before, layouts@, j);
                        }
                        assert(layouts@[i as int].0.size == total);
                        assert(spec_offset(layouts@, i as int) == curr);
                        assert(spec_offset(layouts@, i + 1) == curr + total);
                    }
                    if total > u32::MAX - curr {
                        proof {
                            assert(spec_offset(layouts@, i + 1) > u32::MAX);
                            assert forall|l2: Layout| !spec_is_layout(*self, tp.ty(), l2, fuel as nat) by {
                                if spec_is_layout(*self, tp.ty(), l2, fuel as nat) {
                                    assert(spec_struct_layout(*self, *fields, l2, (fuel - 1) as nat));
                                    let b = l2.kind->Struct_0@;
                                    assert forall|j: int| 0 <= j < i + 1 implies (#[trigger] b[j]).0.size == layouts@[j].0.size by {
                                        assert(spec_is_layout(*self, fields.entries@[j].1.1.ty(), b[j].0, (fuel - 1) as nat));
                                        lemma_layout_size_unique(
                                            *self,
                                            fields.entries@[j].1.1.ty(),
                                            b[j].0,
                                            layouts@[j].0,
                                            (fuel - 1) as nat,
                                        );
                                    }
                                    lemma_offset_equal(b, layouts@.add(b.subrange(i + 1, b.len() as int)), i + 1);
                                    lemma_offset_prefix(layouts@, layouts@.add(b.subrange(i + 1, b.len() as int)), i + 1);
                                    lemma_offset_mono(b, i + 1, n as int);
                                }
                            }
                        }
                        return Err(InternalError::msg("a struct is too large"));
                    }
                    curr = curr + total;
                    i = i + 1;
                }
                let res = Layout { size: curr, align: 4, kind: LayoutKind::Struct(layouts) };
                assert(spec_struct_layout(*self, *fields, res, (fuel - 1) as nat));
                Ok(res)
            },
            TypeKind::Enum { .. } => Err(InternalError::msg("enums have no layout yet")),
        }
    }

    /// Records what is known of a symbol.
    pub fn add_sym_info(&mut self, id: NodeID, sym_info: SymInfo)
        requires
            old(self).wf(),
        ensures
            final(self).wf(),
            final(self).node_map.has(id.id),
            final(self).node_map.value(id.id) == sym_info,
            forall|j: usize| j != id.id ==> (final(self).node_map.has(j) == old(self).node_map.has(j)),
            forall|j: usize| j != id.id && old(self).node_map.has(j) ==> final(self).node_map.value(j) == old(self).node_map.value(j),
            final(self).tvar_map == old(self).tvar_map,
    {
        let _ = self.node_map.insert(id.id, sym_info);
    }

    /// Records what is known of a named type.
    pub fn add_type_info(&mut self, id: TVar, type_info: TypeInfo)
        requires
            old(self).wf(),
        ensures
            final(self).wf(),
            final(self).tvar_map.has(id.id),
            final(self).tvar_map.value(id.id) == type_info,
            forall|j: usize| j != id.id ==> (final(self).tvar_map.has(j) == old(self).tvar_map.has(j)),
            forall|j: usize| j != id.id && old(self).tvar_map.has(j) ==> final(self).tvar_map.value(j) == old(self).tvar_map.value(j),
            final(self).node_map == old(self).node_map,
    {
        let _ = self.tvar_map.insert(id.id, type_info);
    }
}

} // verus!
