pub mod ast;
pub mod check;
pub mod env;
pub mod error;
pub mod import_solve;
pub mod scope;
pub mod scope_info;

pub use scope_info::ScopeInfo;

use vstd::prelude::*;

use crate::common::maps::NameMap;
use crate::common::{Ident, NodeID, NodeIdGen, Path, Visibility};
use crate::error::context::Context;
pub use crate::error::context::{lemma_reported_trans, spec_reported_after};
use crate::error::diagnostic::{spec_labelled_error, Diagnostic};
use crate::error::InternalError;
use crate::mod_tree::ast as out_a;
use crate::mod_tree::env::Env;
use crate::mod_tree::scope::{spec_parent, Binding, Import, Kind, Scope, ScopeKind, Symbol};
use crate::parser::ast as in_a;
use crate::parser::ast::spec_path_names;

verus! {

broadcast use crate::error::context::lemma_reported_refl, crate::error::context::lemma_reported_trans;

/// An import as its parts: the path it names, its alias, whether it imports all names.
pub open spec fn spec_import_view(i: Import) -> (Seq<Ident>, Option<Ident>, bool) {
    (i.path.data@, i.alias, i.is_glob)
}

pub open spec fn spec_import_views(v: Seq<Import>) -> Seq<(Seq<Ident>, Option<Ident>, bool)> {
    v.map_values(|i: Import| spec_import_view(i))
}

/// The imports that an import tree stands for, below the path `prefix`, in the order written.
pub open spec fn spec_imports(node: in_a::ImportPathNode, prefix: Seq<Ident>) -> Seq<
    (Seq<Ident>, Option<Ident>, bool),
>
    decreases node,
{
    match node.data {
        in_a::ImportPathData::All => seq![(prefix, None, true)],
        in_a::ImportPathData::Exact(id, alias) => seq![(prefix.push(id), alias, false)],
        in_a::ImportPathData::Path(id, n) => spec_imports(*n, prefix.push(id)),
        in_a::ImportPathData::Many(v) => spec_imports_many(v@, prefix),
    }
}

/// The imports of several import trees below the same path, one tree after the other.
pub open spec fn spec_imports_many(ns: Seq<in_a::ImportPathNode>, prefix: Seq<Ident>) -> Seq<
    (Seq<Ident>, Option<Ident>, bool),
>
    decreases ns,
{
    if ns.len() == 0 {
        seq![]
    } else {
        spec_imports_many(ns.subrange(0, ns.len() - 1), prefix) + spec_imports(ns[ns.len() - 1], prefix)
    }
}

/// The imports that an import statement stands for.
pub fn generate_imports(it: in_a::Import) -> (res: Vec<Import>)
    ensures
        spec_import_views(res@) == spec_imports(it.path, seq![]),
        forall|i: int| 0 <= i < res@.len() ==> #[trigger] res@[i].vis == it.visibility,
{
    let mut imports: Vec<Import> = Vec::new();
    let vis = it.visibility;
    let mut path = Path::empty();
    assert(path.data@ =~= Seq::<Ident>::empty());
    assert(imports@ =~= Seq::<Import>::empty());
    tr_import_path(it.path, &mut imports, &mut path, vis);
    assert(spec_import_views(imports@) =~= spec_import_views(Seq::<Import>::empty()) + spec_imports(
        it.path,
        seq![],
    ));
    imports
}

/// Appends the imports of an import tree below `path`; `path` is left as it was.
pub fn tr_import_path(
    import_path: in_a::ImportPathNode,
    imports: &mut Vec<Import>,
    path: &mut Path,
    vis: Visibility,
)
    ensures
        spec_import_views(final(imports)@) == spec_import_views(old(imports)@) + spec_imports(
            import_path,
            old(path).data@,
        ),
        forall|i: int| 0 <= i < old(imports)@.len() ==> #[trigger] final(imports)@[i] == old(imports)@[i],
        forall|i: int| old(imports)@.len() <= i < final(imports)@.len() ==> #[trigger] final(imports)@[i].vis == vis,
        final(path).data@ == old(path).data@,
    decreases import_path,
{
    let ghost node = import_path;
    match import_path.data {
        in_a::ImportPathData::Exact(ident, alias) => {
            path.push_inplace(ident);
            let import = Import { path: path.clone(), alias, is_glob: false, vis };
            imports.push(import);
            path.pop_inplace();
            assert(spec_import_views(imports@) =~= spec_import_views(old(imports)@) + spec_imports(
                node,
                old(path).data@,
            ));
        },
        in_a::ImportPathData::All => {
            let import = Import { path: path.clone(), alias: None, is_glob: true, vis };
            imports.push(import);
            assert(spec_import_views(imports@) =~= spec_import_views(old(imports)@) + spec_imports(
                node,
                old(path).data@,
            ));
        },
        in_a::ImportPathData::Path(ident, sub) => {
            path.push_inplace(ident);
            tr_import_path(*sub, imports, path, vis);
            path.pop_inplace();
            assert(path.data@ =~= old(path).data@);
        },
        in_a::ImportPathData::Many(import_paths) => {
            let ghost all = import_paths@;
            let ghost vg = import_paths;
            let mut rest = import_paths;
            let mut k: usize = 0;
            let n = rest.len();
            assert(spec_imports_many(all.subrange(0, 0), old(path).data@) =~= seq![]);
            assert(spec_import_views(imports@) =~= spec_import_views(old(imports)@) + seq![]);
            while rest.len() > 0
                invariant
                    k <= n,
                    n == all.len(),
                    rest@ == all.subrange(k as int, n as int),
                    path.data@ == old(path).data@,
                    node == import_path,
                    node.data == in_a::ImportPathData::Many(vg),
                    vg@ == all,
                    spec_import_views(imports@) == spec_import_views(old(imports)@) + spec_imports_many(
                        all.subrange(0, k as int),
                        old(path).data@,
                    ),
                    forall|i: int| 0 <= i < old(imports)@.len() ==> #[trigger] imports@[i] == old(imports)@[i],
                    forall|i: int| old(imports)@.len() <= i < imports@.len() ==> #[trigger] imports@[i].vis == vis,
                decreases n - k,
            {
                let item = rest.remove(0);
                assert(item == all[k as int]);
                assert(decreases_to!(node => item)) by {
                    assert(decreases_to!(node => node.data));
                    assert(decreases_to!(node.data => node.data->Many_0));
                    assert(decreases_to!(vg => vg@));
                    assert(decreases_to!(vg@ => vg@[k as int]));
                }
                let ghost before = imports@;
                tr_import_path(item, imports, path, vis);
                let ghost pre = all.subrange(0, k + 1);
                assert(pre.subrange(0, pre.len() - 1) =~= all.subrange(0, k as int));
                assert(pre[pre.len() - 1] == all[k as int]);
                k = k + 1;
                assert(rest@ =~= all.subrange(k as int, n as int));
                assert(spec_import_views(imports@) =~= spec_import_views(old(imports)@) + spec_imports_many(
                    all.subrange(0, k as int),
                    old(path).data@,
                ));
            }
            assert(all.subrange(0, n as int) =~= all);
        },
    };
}

/// A name that may be declared: not one of `super`, `self` and `Self`.
pub open spec fn spec_name_ok(n: Ident) -> bool {
    n.data@ != "super"@ && n.data@ != "self"@ && n.data@ != "Self"@
}

/// The ids handed out so far are below the next one, and the root is among them.
pub open spec fn spec_ids_below(env: Env, gen: NodeIdGen) -> bool {
    &&& 0 < gen.next
    &&& forall|j: usize| #[trigger] env.scope_info.has_scope(j) ==> j < gen.next
}

/// Declares a function in the current scope.
pub fn tr_func(env: &mut Env, gen: &mut NodeIdGen, it: in_a::Func) -> (res: Result<out_a::Func, Diagnostic>)
    requires
        old(env).wf(),
        old(gen).next < usize::MAX,
        spec_name_ok(it.name),
    ensures
        final(env).wf(),
        final(gen).next == old(gen).next + 1,
        old(env).current().items.has(it.name.data@) <==> res is Err,
        res matches Err(d) ==> spec_labelled_error(d, it.name.pos, it.name.data@ + " is already bound"@)
            && *final(env) == *old(env),
        res matches Ok(f) ==> {
            &&& f.id.id == old(gen).next
            &&& f.attributes == it.attributes && f.visibility == it.visibility && f.name == it.name
            &&& f.args == it.args && f.ret_type == it.ret_type && f.body == it.body && f.pos == it.pos
            &&& Env::spec_bound(*old(env), *final(env), it.name.data@,
                Binding { vis: it.visibility, kind: Kind::Func, sym: Symbol::Local(f.id) })
        },
{
    let id = NodeID::new_global(gen);
    let binding = Binding { vis: it.visibility, kind: Kind::Func, sym: Symbol::Local(id) };
    env.add_item(it.name.clone(), binding)?;
    Ok(out_a::Func {
        attributes: it.attributes,
        visibility: it.visibility,
        id,
        name: it.name,
        args: it.args,
        ret_type: it.ret_type,
        body: it.body,
        pos: it.pos,
    })
}

/// Declares a struct in the current scope, with a namespace of its own.
///
/// Methods are not placed in the module tree yet.
pub fn tr_struct(ctx: &mut Context, env: &mut Env, gen: &mut NodeIdGen, it: in_a::Struct) -> (res: Result<
    Option<out_a::Struct>,
    InternalError,
>)
    requires
        old(env).wf(),
        spec_ids_below(*old(env), *old(gen)),
        old(gen).next < usize::MAX,
        spec_name_ok(it.name),
    ensures
        res is Ok,
        final(env).wf(),
        spec_ids_below(*final(env), *final(gen)),
        final(gen).next == old(gen).next + 1,
        spec_reported_after(*old(ctx), *final(ctx)),
        final(env).current_namespace_id == old(env).current_namespace_id,
        final(env).current_namespace_path@ == old(env).current_namespace_path@,
        final(env).file_map == old(env).file_map,
        final(env).current().kind == old(env).current().kind,
        forall|j: usize| #[trigger] old(env).scope_info.has_scope(j) ==> final(env).scope_info.has_scope(j)
            && final(env).scope_info.scope(j).kind == old(env).scope_info.scope(j).kind,
        forall|j: usize| #[trigger] old(env).scope_info.has_scope(j) && j != old(env).current_namespace_id.id
            ==> final(env).scope_info.scope(j) == old(env).scope_info.scope(j),
        old(env).current().items.has(it.name.data@) <==> res == Ok::<Option<out_a::Struct>, InternalError>(None),
        res matches Ok(Some(st)) ==> {
            &&& st.id.id == old(gen).next
            &&& st.attributes == it.attributes && st.visibility == it.visibility && st.name == it.name
            &&& st.fields == it.fields && st.pos == it.pos
            &&& final(env).current().items.has(it.name.data@)
            &&& final(env).current().items.value(it.name.data@) == (Binding {
                vis: it.visibility,
                kind: Kind::Struct,
                sym: Symbol::Local(st.id),
            })
            &&& final(env).scope_info.has_scope(st.id.id)
            &&& final(ctx).diagnostics@ == old(ctx).diagnostics@
        },
{
    let id = NodeID::new_global(gen);
    let vis = it.visibility;
    let binding = Binding { vis, kind: Kind::Struct, sym: Symbol::Local(id) };
    let scope = Scope { items: NameMap::new(), kind: ScopeKind::Struct { parent: env.get_current_module_id() } };
    env.add_mod_info(id, scope);
    if let Err(diag) = env.add_item(it.name.clone(), binding) {
        ctx.report(diag);
        return Ok(None);
    }
    Ok(
        Some(
            out_a::Struct {
                attributes: it.attributes,
                visibility: vis,
                id,
                name: it.name,
                fields: it.fields,
                pos: it.pos,
                methods: Vec::new(),
            },
        ),
    )
}

/// A constructor that may be declared: a tuple variant with a name that may be declared.
pub open spec fn spec_cons_ok(c: in_a::Constructor) -> bool {
    match c {
        in_a::Constructor::Tuple { name, .. } => spec_name_ok(name),
        in_a::Constructor::Struct { .. } => false,
    }
}

/// Declares an enum constructor in the current scope, the scope of its enum.
///
/// Only tuple variants are translated.
pub fn tr_cons(env: &mut Env, gen: &mut NodeIdGen, it: in_a::Constructor, vis: Visibility) -> (res: Result<
    out_a::Constructor,
    Diagnostic,
>)
    requires
        old(env).wf(),
        old(gen).next < usize::MAX,
        spec_cons_ok(it),
    ensures
        final(env).wf(),
        final(gen).next == old(gen).next + 1,
        it matches in_a::Constructor::Tuple { attributes, name, pos, params } && {
            &&& old(env).current().items.has(name.data@) <==> res is Err
            &&& res matches Err(d) ==> spec_labelled_error(d, name.pos, name.data@ + " is already bound"@)
                && *final(env) == *old(env)
            &&& res matches Ok(c) ==> c == out_a::Constructor::Tuple {
                attributes,
                id: NodeID { id: old(gen).next },
                name,
                pos,
                params,
            } && Env::spec_bound(*old(env), *final(env), name.data@,
                Binding { vis, kind: Kind::Cons, sym: Symbol::Local(NodeID { id: old(gen).next }) })
        },
{
    match it {
        in_a::Constructor::Tuple { attributes, name, pos, params } => {
            let id = NodeID::new_global(gen);
            let binding = Binding { vis, kind: Kind::Cons, sym: Symbol::Local(id) };
            env.add_item(name.clone(), binding)?;
            Ok(out_a::Constructor::Tuple { attributes, id, name, pos, params })
        },
        in_a::Constructor::Struct { name, .. } => {
            let id = NodeID::new_global(gen);
            Err(crate::mod_tree::error::already_bound(&name.pos, name.name_str()))
        },
    }
}

/// Declares an enum in the current scope, and its constructors in a namespace of its own.
///
/// Methods are not placed in the module tree yet.
pub fn tr_enum(ctx: &mut Context, env: &mut Env, gen: &mut NodeIdGen, it: in_a::Enum) -> (res: Result<
    Option<out_a::Enum>,
    InternalError,
>)
    requires
        old(env).wf(),
        spec_ids_below(*old(env), *old(gen)),
        spec_name_ok(it.name),
        forall|i: int| 0 <= i < it.constructors@.len() ==> spec_cons_ok(#[trigger] it.constructors@[i]),
    ensures
        final(env).wf(),
        spec_ids_below(*final(env), *final(gen)),
        final(gen).next >= old(gen).next,
        spec_reported_after(*old(ctx), *final(ctx)),
        final(env).current_namespace_id == old(env).current_namespace_id,
        final(env).current_namespace_path@ == old(env).current_namespace_path@,
        final(env).file_map == old(env).file_map,
        final(env).current().kind == old(env).current().kind,
        forall|j: usize| #[trigger] old(env).scope_info.has_scope(j) ==> final(env).scope_info.has_scope(j)
            && final(env).scope_info.scope(j).kind == old(env).scope_info.scope(j).kind,
        forall|j: usize| #[trigger] old(env).scope_info.has_scope(j) && j != old(env).current_namespace_id.id
            ==> final(env).scope_info.scope(j) == old(env).scope_info.scope(j),
        res is Err ==> old(gen).next + it.constructors@.len() + 1 >= usize::MAX,
        res is Ok ==> final(gen).next <= old(gen).next + 1 + it.constructors@.len(),
        res matches Err(e) ==> e matches InternalError::AnyMsg(m) && m@ == "ran out of node ids"@,
        old(gen).next + it.constructors@.len() + 1 < usize::MAX ==> (old(env).current().items.has(it.name.data@)
            <==> res == Ok::<Option<out_a::Enum>, InternalError>(None)),
        res matches Ok(Some(en)) ==> {
            &&& en.id.id == old(gen).next
            &&& en.attributes == it.attributes && en.visibility == it.visibility && en.name == it.name
            &&& en.pos == it.pos
            &&& en.constructors@.len() <= it.constructors@.len()
            &&& final(env).current().items.has(it.name.data@)
            &&& final(env).current().items.value(it.name.data@) == (Binding {
                vis: it.visibility,
                kind: Kind::Enum,
                sym: Symbol::Local(en.id),
            })
            &&& final(env).scope_info.has_scope(en.id.id)
        },
{
    let room = usize::MAX - gen.next;
    if room <= 1 || it.constructors.len() >= room - 1 {
        return Err(InternalError::msg("ran out of node ids"));
    }
    let id = NodeID::new_global(gen);
    let vis = it.visibility;
    let binding = Binding { vis, kind: Kind::Enum, sym: Symbol::Local(id) };
    let ghost parent_id = env.current_namespace_id;
    let ghost entry = *env;
    let scope = Scope { items: NameMap::new(), kind: ScopeKind::Enum { parent: env.get_current_module_id() } };
    env.add_mod_info(id, scope);
    let ghost registered = *env;
    if let Err(diag) = env.add_item(it.name.clone(), binding) {
        ctx.report(diag);
        return Ok(None);
    }
    let ghost bound = *env;
    let nm = it.name.name_str();
    let ghost nmg = nm;
    env.enter(nm);
    let mut constructors: Vec<out_a::Constructor> = Vec::new();
    let ghost all = it.constructors@;
    let mut rest = it.constructors;
    let n = rest.len();
    let mut k: usize = 0;
    while rest.len() > 0
        invariant
            k <= n,
            n == all.len(),
            rest@ == all.subrange(k as int, n as int),
            forall|i: int| 0 <= i < all.len() ==> spec_cons_ok(#[trigger] all[i]),
            env.wf(),
            spec_ids_below(*env, *gen),
            gen.next + (n - k) < usize::MAX,
            gen.next == old(gen).next + 1 + k,
            gen.next > id.id,
            env.current_namespace_id == id,
            env.current_namespace_path@ == entry.current_namespace_path@.push(nmg),
            env.current().kind == (ScopeKind::Enum { parent: parent_id }),
            env.file_map == entry.file_map,
            env.scope_info.has_scope(parent_id.id),
            parent_id.id != id.id,
            bound.scope_info.has_scope(parent_id.id),
            forall|j: usize| #[trigger] bound.scope_info.has_scope(j) ==> env.scope_info.has_scope(j),
            env.scope_info.scope(parent_id.id) == bound.scope_info.scope(parent_id.id),
            forall|j: usize| #[trigger] entry.scope_info.has_scope(j) ==> env.scope_info.has_scope(j)
                && env.scope_info.scope(j).kind == entry.scope_info.scope(j).kind,
            forall|j: usize| j != id.id && #[trigger] bound.scope_info.has_scope(j) ==> env.scope_info.scope(j) == bound.scope_info.scope(j),
            constructors@.len() <= k,
            spec_reported_after(*old(ctx), *ctx),
        decreases n - k,
    {
        let cons = rest.remove(0);
        assert(cons == all[k as int]);
        let ghost before = *env;
        let ghost cbefore = *ctx;
        match tr_cons(env, gen, cons, vis) {
            Ok(c) => constructors.push(c),
            Err(diag) => {
                ctx.report(diag);
            },
        }
        k = k + 1;
        assert(rest@ =~= all.subrange(k as int, n as int));
    }
    env.leave();
    proof {
        assert forall|j: usize| #[trigger] entry.scope_info.has_scope(j) && j != parent_id.id implies env.scope_info.scope(j)
            == entry.scope_info.scope(j) by {
            assert(j < id.id);
            assert(bound.scope_info.has_scope(j));
        }
    }
    Ok(
        Some(
            out_a::Enum {
                attributes: it.attributes,
                visibility: vis,
                id,
                name: it.name,
                constructors,
                pos: it.pos,
                methods: Vec::new(),
            },
        ),
    )
}

/// An item whose names may all be declared, and whose enum constructors are tuple variants.
pub open spec fn spec_item_ok(item: in_a::ModuleItem) -> bool
    decreases item,
{
    match item {
        in_a::ModuleItem::Module(m) => spec_module_ok(m),
        in_a::ModuleItem::ModuleDecl(d) => spec_name_ok(d.name),
        in_a::ModuleItem::Func(f) => spec_name_ok(f.name),
        in_a::ModuleItem::Struct(st) => spec_name_ok(st.name),
        in_a::ModuleItem::Enum(e) => spec_name_ok(e.name) && forall|i: int|
            0 <= i < e.constructors@.len() ==> spec_cons_ok(#[trigger] e.constructors@[i]),
        in_a::ModuleItem::Import(it) => forall|i: int|
            0 <= i < spec_imports(it.path, seq![]).len() ==> (#[trigger] spec_imports(it.path, seq![])[i]).0.len() > 0,
        in_a::ModuleItem::Error => true,
    }
}

/// A module whose items are all fit to be declared.
pub open spec fn spec_module_ok(m: in_a::Module) -> bool
    decreases m,
{
    &&& spec_name_ok(m.name)
    &&& forall|i: int| 0 <= i < m.items@.len() ==> {
        proof {
            assert(decreases_to!(m => m.items));
            assert(decreases_to!(m.items => m.items@));
            assert(decreases_to!(m.items@ => m.items@[i]));
        }
        spec_item_ok(#[trigger] m.items@[i])
    }
}

/// How many node ids the items of `m` from the `k`-th on take at most: one for each module,
/// function and struct, and one for each enum and each of its constructors. A module that
/// lives in a file of its own is counted with the files.
pub open spec fn spec_ids_from(m: in_a::Module, k: int) -> nat
    decreases m, m.items@.len() - k,
{
    if k < 0 || k >= m.items@.len() {
        0
    } else {
        proof {
            assert(decreases_to!(m => m.items));
            assert(decreases_to!(m.items => m.items@));
            assert(decreases_to!(m.items@ => m.items@[k]));
        }
        let here: nat = match m.items@[k] {
            in_a::ModuleItem::Module(sub) => 1 + spec_ids_from(sub, 0),
            in_a::ModuleItem::Func(_) => 1,
            in_a::ModuleItem::Struct(_) => 1,
            in_a::ModuleItem::Enum(e) => 1 + e.constructors@.len(),
            _ => 0,
        };
        here + spec_ids_from(m, k + 1)
    }
}

/// How many node ids an item takes at most, as counted by `spec_ids_from`.
pub open spec fn spec_item_ids(item: in_a::ModuleItem) -> nat {
    match item {
        in_a::ModuleItem::Module(sub) => 1 + spec_ids_from(sub, 0),
        in_a::ModuleItem::Func(_) => 1,
        in_a::ModuleItem::Struct(_) => 1,
        in_a::ModuleItem::Enum(e) => 1 + e.constructors@.len(),
        _ => 0,
    }
}

/// How many node ids a module takes at most: one for itself and those of its items.
pub open spec fn spec_ids_of(m: in_a::Module) -> nat {
    1 + spec_ids_from(m, 0)
}

/// How many node ids the modules of the parsed files take at most.
pub open spec fn spec_files_ids(entries: Seq<(Vec<String>, in_a::Module)>) -> nat
    decreases entries.len(),
{
    if entries.len() == 0 {
        0
    } else {
        spec_ids_of(entries[0].1) + spec_files_ids(entries.drop_first())
    }
}

/// Taking a file out of the map takes its module's ids out of the count.
pub proof fn lemma_files_ids_remove(entries: Seq<(Vec<String>, in_a::Module)>, i: int)
    requires
        0 <= i < entries.len(),
    ensures
        spec_files_ids(entries.remove(i)) + spec_ids_of(entries[i].1) == spec_files_ids(entries),
    decreases i,
{
    if i > 0 {
        lemma_files_ids_remove(entries.drop_first(), i - 1);
        assert(entries.remove(i).drop_first() =~= entries.drop_first().remove(i - 1));
        assert(entries.remove(i)[0] == entries[0]);
    } else {
        assert(entries.remove(0) =~= entries.drop_first());
    }
}

/// Every parsed file not yet placed holds a module fit to be declared.
pub open spec fn spec_files_ok(fm: in_a::FileMap) -> bool {
    forall|i: int| 0 <= i < fm.entries@.len() ==> spec_module_ok(#[trigger] fm.entries@[i].1)
}

/// The position in the tree is the same, and every scope that was there is kept unchanged.
pub open spec fn spec_kept(old_env: Env, new_env: Env) -> bool {
    &&& new_env.current_namespace_id == old_env.current_namespace_id
    &&& new_env.current_namespace_path@ == old_env.current_namespace_path@
    &&& forall|j: usize| #[trigger] old_env.scope_info.has_scope(j) ==> new_env.scope_info.has_scope(j)
        && new_env.scope_info.scope(j) == old_env.scope_info.scope(j)
}

/// What translating a module does to the scope it is declared in: binds its name there,
/// and changes no other scope that was there before.
pub open spec fn spec_module_declared(old_env: Env, new_env: Env, name: Ident, b: Binding) -> bool {
    let cur = old_env.current_namespace_id.id;
    &&& new_env.current_namespace_id == old_env.current_namespace_id
    &&& new_env.current_namespace_path@ == old_env.current_namespace_path@
    &&& forall|j: usize| #[trigger] old_env.scope_info.has_scope(j) ==> new_env.scope_info.has_scope(j)
    &&& forall|j: usize| #[trigger] old_env.scope_info.has_scope(j) && j != cur
        ==> new_env.scope_info.scope(j) == old_env.scope_info.scope(j)
    &&& new_env.current().kind == old_env.current().kind
    &&& new_env.current().items.has(name.data@)
    &&& new_env.current().items.value(name.data@) == b
    &&& forall|n: Seq<char>| n != name.data@ ==> (#[trigger] new_env.current().items.has(n)) == old_env.current().items.has(n)
    &&& forall|n: Seq<char>| n != name.data@ && old_env.current().items.has(n)
        ==> #[trigger] new_env.current().items.value(n) == old_env.current().items.value(n)
}

/// Builds the module tree of a module: gives its items ids, declares them in the scopes,
/// and brings in the modules declared in other files.
///
/// Declaration errors are reported and the item is left out. The error comes only when
/// node ids run out.
pub fn tr_module(ctx: &mut Context, env: &mut Env, gen: &mut NodeIdGen, module: in_a::Module) -> (res: Result<
    out_a::Module,
    InternalError,
>)
    requires
        old(env).wf(),
        spec_ids_below(*old(env), *old(gen)),
        spec_module_ok(module),
        spec_files_ok(old(env).file_map),
    ensures
        res is Ok ==> {
            &&& final(env).wf()
            &&& spec_ids_below(*final(env), *final(gen))
            &&& final(gen).next >= old(gen).next
            &&& spec_files_ok(final(env).file_map)
            &&& final(env).file_map.entries@.len() <= old(env).file_map.entries@.len()
        },
        spec_reported_after(*old(ctx), *final(ctx)),
        res matches Err(e) ==> e matches InternalError::AnyMsg(m) && m@ == "ran out of node ids"@,
        res is Ok ==> final(gen).next + spec_files_ids(final(env).file_map.entries@) <= old(gen).next + spec_ids_of(module)
            + spec_files_ids(old(env).file_map.entries@),
        old(gen).next + spec_ids_of(module) + spec_files_ids(old(env).file_map.entries@) + 2 < usize::MAX ==> res is Ok,
        res matches Ok(m) ==> !old(env).current().items.has(module.name.data@) ==> {
            &&& m.id.id == old(gen).next
            &&& m.attributes == module.attributes && m.visibility == module.visibility
            &&& m.name == module.name && m.pos == module.pos
            &&& final(env).scope_info.has_scope(m.id.id)
            &&& final(env).scope_info.scope(m.id.id).kind matches ScopeKind::Module { parent, .. }
                && parent == old(env).current_namespace_id
            &&& spec_module_declared(*old(env), *final(env), module.name,
                Binding { vis: module.visibility, kind: Kind::Module, sym: Symbol::Local(m.id) })
        },
        res matches Ok(m) ==> old(env).current().items.has(module.name.data@) ==> {
            &&& m.name.data@ == out_a::Module::spec_unknown_name()
            &&& m.items@.len() == 0
            &&& *final(env) == *old(env)
            &&& spec_kept(*old(env), *final(env))
            &&& final(env).current().items == old(env).current().items
            &&& final(ctx).diagnostics@ == old(ctx).diagnostics@.push(final(ctx).diagnostics@.last())
            &&& spec_labelled_error(final(ctx).diagnostics@.last(), module.name.pos,
                module.name.data@ + " is already bound"@)
        },
    decreases old(env).file_map.entries@.len(), module,
{
    if gen.next >= usize::MAX - 1 {
        return Err(InternalError::msg("ran out of node ids"));
    }
    let ghost entry = *env;
    let ghost parent_id = env.current_namespace_id;
    let name_s = module.name.name_str();
    if env.scope_info.get(env.current_namespace_id).unwrap().items.contains_key(name_s.as_str()) {
        let diag = crate::mod_tree::error::already_bound(&module.name.pos, name_s);
        ctx.report(diag);
        return Ok(out_a::Module::empty(gen));
    }
    let id = NodeID::new_global(gen);
    let binding = Binding { vis: module.visibility, kind: Kind::Module, sym: Symbol::Local(id) };
    let mod_info = Scope {
        items: NameMap::new(),
        kind: ScopeKind::Module { imports: Vec::new(), parent: env.get_current_module_id() },
    };
    env.add_mod_info(id, mod_info);
    let ghost registered = *env;
    let added = env.add_item(module.name.clone(), binding);
    assert(added is Ok);
    let ghost bound = *env;
    let nm = module.name.name_str();
    let ghost nmg = nm;
    env.enter(nm);
    let mut items: Vec<out_a::ModuleItem> = Vec::new();
    let ghost all = module.items@;
    let ghost items_vec = module.items;
    let mut rest = module.items;
    let n = rest.len();
    let mut k: usize = 0;
    while rest.len() > 0
        invariant
            k <= n,
            n == all.len(),
            all == items_vec@,
            items_vec == module.items,
            rest@ == all.subrange(k as int, n as int),
            forall|i: int| 0 <= i < all.len() ==> spec_item_ok(#[trigger] all[i]),
            env.wf(),
            spec_ids_below(*env, *gen),
            gen.next > id.id,
            gen.next >= old(gen).next,
            id.id == old(gen).next,
            gen.next + spec_ids_from(module, k as int) + spec_files_ids(env.file_map.entries@) <= old(gen).next
                + spec_ids_of(module) + spec_files_ids(old(env).file_map.entries@),
            env.current_namespace_id == id,
            env.current_namespace_path@ == entry.current_namespace_path@.push(nmg),
            env.current().kind matches ScopeKind::Module { parent, .. } && parent == parent_id,
            spec_files_ok(env.file_map),
            env.file_map.entries@.len() <= entry.file_map.entries@.len(),
            entry.file_map.entries@.len() == old(env).file_map.entries@.len(),
            entry.scope_info.has_scope(parent_id.id),
            parent_id.id != id.id,
            parent_id.id < id.id,
            forall|j: usize| #[trigger] bound.scope_info.has_scope(j) ==> env.scope_info.has_scope(j),
            forall|j: usize| #[trigger] bound.scope_info.has_scope(j) && j != id.id
                ==> env.scope_info.scope(j) == bound.scope_info.scope(j),
            forall|j: usize| #[trigger] entry.scope_info.has_scope(j) ==> j < id.id,
            Env::spec_bound(registered, bound, module.name.data@, binding),
            forall|j: usize| #[trigger] entry.scope_info.has_scope(j) ==> registered.scope_info.has_scope(j)
                && registered.scope_info.scope(j) == entry.scope_info.scope(j),
            registered.current_namespace_id == entry.current_namespace_id,
            registered.current_namespace_path@ == entry.current_namespace_path@,
            spec_reported_after(*old(ctx), *ctx),
        decreases n - k,
    {
        let item = rest.remove(0);
        assert(item == all[k as int]);
        let ghost before = *ctx;
        let ghost env_before = *env;
        let ghost gen_before = *gen;
        let ghost here: nat = spec_item_ids(item);
        assert(spec_ids_from(module, k as int) == here + spec_ids_from(module, k + 1));
        assert(decreases_to!(module => item)) by {
            assert(decreases_to!(module => module.items));
            assert(decreases_to!(module.items => module.items@));
            assert(decreases_to!(module.items@ => module.items@[k as int]));
        }
        if gen.next >= usize::MAX - 1 {
            return Err(InternalError::msg("ran out of node ids"));
        }
        match item {
            in_a::ModuleItem::Module(m) => {
                assert(decreases_to!(item => m));
                match tr_module(ctx, env, gen, m) {
                    Ok(t) => items.push(out_a::ModuleItem::Module(t)),
                    Err(e) => {
                        proof {
                            lemma_reported_trans(*old(ctx), before, *ctx);
                        }
                        return Err(e);
                    },
                }
            },
            in_a::ModuleItem::ModuleDecl(m) => {
                let mut path = env.get_current_name_path().clone();
                path.push(m.name.name_str());
                let ghost fm_before = env.file_map;
                match env.remove_module(&path) {
                    Some(sub) => {
                        proof {
                            let i = choose|i: int|
                                0 <= i < fm_before.entries@.len()
                                && Some(sub) == Some(fm_before.entries@[i].1)
                                && env.file_map.entries@ == fm_before.entries@.remove(i);
                            assert(spec_module_ok(fm_before.entries@[i].1));
                            lemma_files_ids_remove(fm_before.entries@, i);
                            assert forall|x: int| 0 <= x < env.file_map.entries@.len() implies spec_module_ok(
                                #[trigger] env.file_map.entries@[x].1,
                            ) by {
                                if x < i {
                                    assert(env.file_map.entries@[x] == fm_before.entries@[x]);
                                } else {
                                    assert(env.file_map.entries@[x] == fm_before.entries@[x + 1]);
                                }
                            }
                        }
                        match tr_module(ctx, env, gen, sub) {
                            Ok(t) => items.push(out_a::ModuleItem::Module(t)),
                            Err(e) => {
                                proof {
                                    lemma_reported_trans(*old(ctx), before, *ctx);
                                }
                                return Err(e);
                            },
                        }
                    },
                    None => {
                        ctx.report(crate::mod_tree::error::missing_module(&m.pos, m.name.name_str()));
                    },
                }
            },
            in_a::ModuleItem::Import(it) => {
                let imports = generate_imports(it);
                let ghost views = spec_imports(it.path, seq![]);
                let mut imports = imports;
                assert forall|i: int| 0 <= i < imports@.len() implies (#[trigger] imports@[i]).path.data@.len() > 0 by {
                    assert(spec_import_views(imports@)[i] == views[i]);
                }
                while imports.len() > 0
                    invariant
                        forall|i: int| 0 <= i < imports@.len() ==> (#[trigger] imports@[i]).path.data@.len() > 0,
                        env.wf(),
                        spec_ids_below(*env, *gen),
                        env.current_namespace_id == id,
                        env.current_namespace_path@ == entry.current_namespace_path@.push(nmg),
                        env.current().kind matches ScopeKind::Module { parent, .. } && parent == parent_id,
                        env.file_map == env_before.file_map,
                        forall|j: usize| (#[trigger] env.scope_info.has_scope(j)) == env_before.scope_info.has_scope(j),
                        forall|j: usize| #[trigger] env_before.scope_info.has_scope(j) && j != id.id
                            ==> env.scope_info.scope(j) == env_before.scope_info.scope(j),
                    decreases imports.len(),
                {
                    let import = imports.remove(0);
                    assert(import.path.data@.len() > 0);
                    env.add_import(import);
                }
            },
            in_a::ModuleItem::Func(it) => match tr_func(env, gen, it) {
                Ok(f) => items.push(out_a::ModuleItem::Func(f)),
                Err(diag) => ctx.report(diag),
            },
            in_a::ModuleItem::Struct(it) => {
                if let Ok(Some(st)) = tr_struct(ctx, env, gen, it) {
                    items.push(out_a::ModuleItem::Struct(st));
                }
            },
            in_a::ModuleItem::Enum(it) => {
                match tr_enum(ctx, env, gen, it) {
                    Ok(Some(en)) => items.push(out_a::ModuleItem::Enum(en)),
                    Ok(None) => {},
                    Err(e) => {
                        proof {
                            lemma_reported_trans(*old(ctx), before, *ctx);
                        }
                        return Err(e);
                    },
                }
            },
            in_a::ModuleItem::Error => {},
        }
        k = k + 1;
        assert(rest@ =~= all.subrange(k as int, n as int));
    }
    env.leave();
    proof {
        assert forall|j: usize| #[trigger] entry.scope_info.has_scope(j) && j != parent_id.id implies env.scope_info.scope(j)
            == entry.scope_info.scope(j) by {
            assert(bound.scope_info.has_scope(j));
        }
        assert(env.current_namespace_id == parent_id);
        assert(env.scope_info.scope(parent_id.id) == bound.scope_info.scope(parent_id.id));
        assert(env.current() == bound.current());
        assert(env.current_namespace_path@ == entry.current_namespace_path@);
        assert(env.scope_info.has_scope(id.id));
        assert forall|j: usize| #[trigger] entry.scope_info.has_scope(j) implies env.scope_info.has_scope(j) by {
            assert(bound.scope_info.has_scope(j));
        }
        assert(env.current().kind == entry.current().kind);
        assert(env.current().items.has(module.name.data@));
        assert(env.current().items.value(module.name.data@) == binding);
        assert(spec_module_declared(entry, *env, module.name, binding));
    }
    Ok(
        out_a::Module {
            attributes: module.attributes,
            visibility: module.visibility,
            id,
            name: module.name,
            items,
            pos: module.pos,
        },
    )
}

/// Translate the file tree into a single module tree, resolving imports.
///
/// The root module is the file with module path `[src]`.
pub fn translate(ctx: &mut Context, prog: in_a::Program) -> (res: Result<out_a::Program, InternalError>)
    requires
        spec_files_ok(prog.file_map),
    ensures
        !prog.file_map.has(seq!["src"@]) ==> (res matches Err(InternalError::AnyMsg(m))
            && m@ == "failed to load root module"@),
        res matches Err(e) ==> e matches InternalError::AnyMsg(m) && ((m@ == "failed to load root module"@
            && !prog.file_map.has(seq!["src"@])) || m@ == "ran out of node ids"@ || m@ == "imports did not settle"@),
        prog.file_map.has(seq!["src"@]) && crate::common::node_id::FIRST_GLOBAL_ID + spec_files_ids(prog.file_map.entries@) + 2
            < usize::MAX ==> (res is Ok || (res matches Err(InternalError::AnyMsg(m)) && m@ == "imports did not settle"@)),
        res matches Ok(p) ==> {
            &&& crate::mod_tree::env::spec_scopes_wf(p.scope_info)
            &&& crate::mod_tree::import_solve::spec_fixpoint(p.scope_info)
            &&& p.scope_info.has_scope(p.ast.id.id)
        },
        spec_reported_after(*old(ctx), *final(ctx)),
{
    let mut gen = NodeIdGen::new();
    let mut env = Env::init(prog.file_map);
    let mut root_path: Vec<String> = Vec::new();
    root_path.push(String::from_str("src"));
    proof {
        assert(spec_path_names(root_path@) =~= seq!["src"@]);
    }
    let ghost fm0 = env.file_map;
    let module = match env.remove_module(&root_path) {
        Some(m) => m,
        None => {
            return Err(InternalError::msg("failed to load root module"));
        },
    };
    proof {
        let i = choose|i: int|
            0 <= i < fm0.entries@.len() && Some(module) == Some(fm0.entries@[i].1) && env.file_map.entries@
                == fm0.entries@.remove(i);
        assert(spec_module_ok(fm0.entries@[i].1));
        lemma_files_ids_remove(fm0.entries@, i);
        assert forall|x: int| 0 <= x < env.file_map.entries@.len() implies spec_module_ok(
            #[trigger] env.file_map.entries@[x].1,
        ) by {
            if x < i {
                assert(env.file_map.entries@[x] == fm0.entries@[x]);
            } else {
                assert(env.file_map.entries@[x] == fm0.entries@[x + 1]);
            }
        }
    }
    let ghost c0 = *ctx;
    let ast = match tr_module(ctx, &mut env, &mut gen, module) {
        Ok(a) => a,
        Err(e) => {
            return Err(e);
        },
    };
    let ghost c1 = *ctx;
    let ghost shape = env.scope_info;
    assert(env.scope_info.has_scope(ast.id.id));
    let solved = env.solve_imports(ctx);
    proof {
        lemma_reported_trans(*old(ctx), c1, *ctx);
    }
    let scope_info = solved?;
    proof {
        assert(shape.has_scope(ast.id.id));
    }
    Ok(out_a::Program { scope_info, ast })
}

} // verus!
