//! Resolving the imports of all modules, until nothing changes any more.
use vstd::prelude::*;

use crate::common::maps::{IdMap, NameMap};
use crate::common::{Ident, NodeID};
use crate::error::context::Context;
use crate::error::diagnostic::{spec_labelled_error, Diagnostic, Label};
use crate::error::InternalError;
use crate::mod_tree::env::{spec_imports_named, spec_scopes_wf};
use crate::mod_tree::scope_info::spec_path_diag;
use crate::common::concat;
use crate::mod_tree::scope::{spec_parent, Binding, Import, Kind, Scope, ScopeKind, Symbol};
use crate::mod_tree::scope_info::{spec_find_path, spec_super_binding, PathError};
use crate::mod_tree::ScopeInfo;

verus! {

broadcast use crate::error::context::lemma_reported_refl, crate::error::context::lemma_reported_trans;

/// Two maps of names bind the same names to the same things.
pub open spec fn spec_items_similar(a: NameMap<Binding>, b: NameMap<Binding>) -> bool {
    &&& forall|n: Seq<char>| (#[trigger] a.has(n)) == b.has(n)
    &&& forall|n: Seq<char>| a.has(n) ==> (#[trigger] a.value(n)).same(b.value(n))
}

/// Two scope kinds have the same parent and, for modules, the same imports.
pub open spec fn spec_kind_similar(a: ScopeKind, b: ScopeKind) -> bool {
    &&& spec_parent(a) == spec_parent(b)
    &&& (a is Root) == (b is Root)
    &&& (a is Module) == (b is Module)
    &&& (a is Enum) == (b is Enum)
    &&& a matches ScopeKind::Module { imports: ia, .. } ==> b matches ScopeKind::Module { imports: ib, .. }
        && crate::mod_tree::spec_import_views(ia@) == crate::mod_tree::spec_import_views(ib@)
}

/// Two trees of scopes have the same scopes, binding the same names to the same things.
pub open spec fn spec_info_similar(a: ScopeInfo, b: ScopeInfo) -> bool {
    &&& forall|id: usize| (#[trigger] a.has_scope(id)) == b.has_scope(id)
    &&& forall|id: usize| #[trigger] a.has_scope(id) ==> spec_items_similar(a.scope(id).items, b.scope(id).items)
        && spec_kind_similar(a.scope(id).kind, b.scope(id).kind)
}

/// Following a path gives a binding that names one thing, and that lookups can follow.
pub proof fn lemma_find_path_ok(info: ScopeInfo, id: usize, names: Seq<Ident>, guard: bool)
    requires
        info.wf(),
        info.has_scope(id),
    ensures
        spec_find_path(info, id, names, guard) matches Ok(b) ==> !(b.sym is Ambiguous) && info.binding_ok(b),
    decreases 2 * names.len() + if guard {
        1int
    } else {
        0int
    },
{
    if names.len() > 0 {
        let name = names[0];
        let rest = names.drop_first();
        let scope = info.scope(id);
        assert(info.scope_ok(id));
        if scope.items.has(name.data@) {
            let b = scope.items.value(name.data@);
            assert(info.binding_ok(b));
            if rest.len() > 0 && !(b.sym is Ambiguous) {
                if b.kind == Kind::Module {
                    lemma_find_path_ok(info, b.sym.target().id, rest, false);
                } else if b.kind == Kind::Struct || b.kind == Kind::Enum {
                    lemma_find_path_ok(info, b.sym.target().id, rest, true);
                }
            }
        } else if guard {
            if name.data@ == "super"@ {
                if let Some(parent) = spec_parent(scope.kind) {
                    if rest.len() > 0 {
                        lemma_find_path_ok(info, parent.id, rest, guard);
                    }
                }
            } else {
                lemma_find_path_ok(info, 0, names, false);
            }
        }
    }
}

/// Following a path in two similar trees gives the same result.
pub proof fn lemma_find_path_similar(a: ScopeInfo, b: ScopeInfo, id: usize, names: Seq<Ident>, guard: bool)
    requires
        a.wf(),
        spec_info_similar(a, b),
        a.has_scope(id),
    ensures
        spec_find_path(a, id, names, guard) == spec_find_path(b, id, names, guard),
    decreases 2 * names.len() + if guard {
        1int
    } else {
        0int
    },
{
    if names.len() > 0 {
        let name = names[0];
        let rest = names.drop_first();
        let sa = a.scope(id);
        let sb = b.scope(id);
        assert(a.scope_ok(id));
        assert(spec_items_similar(sa.items, sb.items));
        assert(sa.items.has(name.data@) == sb.items.has(name.data@));
        if sa.items.has(name.data@) {
            let ba = sa.items.value(name.data@);
            let bb = sb.items.value(name.data@);
            assert(ba.same(bb));
            assert(a.binding_ok(ba));
            if !(ba.sym is Ambiguous) {
                assert(ba == bb);
            }
            if rest.len() > 0 && !(ba.sym is Ambiguous) {
                if ba.kind == Kind::Module {
                    lemma_find_path_similar(a, b, ba.sym.target().id, rest, false);
                } else if ba.kind == Kind::Struct || ba.kind == Kind::Enum {
                    lemma_find_path_similar(a, b, ba.sym.target().id, rest, true);
                }
            }
        } else if guard {
            assert(spec_kind_similar(sa.kind, sb.kind));
            if name.data@ == "super"@ {
                if let Some(parent) = spec_parent(sa.kind) {
                    if rest.len() > 0 {
                        lemma_find_path_similar(a, b, parent.id, rest, guard);
                    }
                }
            } else {
                lemma_find_path_similar(a, b, 0, names, false);
            }
        }
    }
}

/// Names and bindings agree entry by entry.
pub open spec fn spec_entries_similar(a: NameMap<Binding>, b: NameMap<Binding>) -> bool {
    &&& a.entries@.len() == b.entries@.len()
    &&& forall|i: int| 0 <= i < a.entries@.len() ==> (#[trigger] a.entries@[i]).0@ == b.entries@[i].0@
        && a.entries@[i].1.same(b.entries@[i].1)
}

proof fn lemma_entries_similar(a: NameMap<Binding>, b: NameMap<Binding>)
    requires
        a.keys_unique(),
        spec_entries_similar(a, b),
    ensures
        b.keys_unique(),
        spec_items_similar(a, b),
{
    assert forall|i: int, j: int| 0 <= i < j < b.entries@.len() implies #[trigger] b.entries@[i].0@
        != #[trigger] b.entries@[j].0@ by {
        assert(a.entries@[i].0@ == b.entries@[i].0@);
        assert(a.entries@[j].0@ == b.entries@[j].0@);
    }
    assert forall|n: Seq<char>| (#[trigger] a.has(n)) == b.has(n) by {
        if a.has(n) {
            let i = choose|i: int| 0 <= i < a.entries@.len() && #[trigger] a.entries@[i].0@ == n;
            assert(b.entries@[i].0@ == n);
        }
        if b.has(n) {
            let i = choose|i: int| 0 <= i < b.entries@.len() && #[trigger] b.entries@[i].0@ == n;
            assert(a.entries@[i].0@ == b.entries@[i].0@);
        }
    }
    assert forall|n: Seq<char>| a.has(n) implies (#[trigger] a.value(n)).same(b.value(n)) by {
        let i = choose|i: int| 0 <= i < a.entries@.len() && #[trigger] a.entries@[i].0@ == n;
        a.lemma_value(i);
        assert(b.entries@[i].0@ == n);
        b.lemma_value(i);
    }
}

/// A copy of the bindings of a scope.
pub fn clone_items(m: &NameMap<Binding>) -> (res: NameMap<Binding>)
    ensures
        spec_entries_similar(*m, res),
{
    let mut entries: Vec<(String, Binding)> = Vec::new();
    let n = m.entries.len();
    let mut i: usize = 0;
    while i < n
        invariant
            n == m.entries@.len(),
            i <= n,
            entries@.len() == i,
            forall|j: int| 0 <= j < i ==> (#[trigger] entries@[j]).0@ == m.entries@[j].0@
                && entries@[j].1.same(m.entries@[j].1),
        decreases n - i,
    {
        let name = m.entries[i].0.clone();
        let b = m.entries[i].1.clone_binding();
        entries.push((name, b));
        i = i + 1;
    }
    let res = NameMap { entries };
    assert forall|j: int| 0 <= j < m.entries@.len() implies (#[trigger] m.entries@[j]).0@ == res.entries@[j].0@
        && m.entries@[j].1.same(res.entries@[j].1) by {
        let x = m.entries@[j].1.sym;
        let y = res.entries@[j].1.sym;
        assert(y.same(x));
    }
    res
}

/// A copy of a scope kind.
pub fn clone_kind(k: &ScopeKind) -> (res: ScopeKind)
    ensures
        spec_kind_similar(*k, res),
{
    match k {
        ScopeKind::Root => ScopeKind::Root,
        ScopeKind::Enum { parent } => ScopeKind::Enum { parent: *parent },
        ScopeKind::Struct { parent } => ScopeKind::Struct { parent: *parent },
        ScopeKind::Module { imports, parent } => {
            let mut v: Vec<Import> = Vec::new();
            let n = imports.len();
            let mut i: usize = 0;
            while i < n
                invariant
                    n == imports@.len(),
                    i <= n,
                    v@.len() == i,
                    crate::mod_tree::spec_import_views(v@) == crate::mod_tree::spec_import_views(
                        imports@.subrange(0, i as int),
                    ),
                decreases n - i,
            {
                let c = imports[i].clone();
                let ghost v0 = v@;
                v.push(c);
                proof {
                    let sub = imports@.subrange(0, i + 1);
                    assert forall|j: int| 0 <= j < i + 1 implies crate::mod_tree::spec_import_views(v@)[j]
                        == crate::mod_tree::spec_import_views(sub)[j] by {
                        if j < i {
                            assert(v@[j] == v0[j]);
                            assert(crate::mod_tree::spec_import_views(v0)[j] == crate::mod_tree::spec_import_views(
                                imports@.subrange(0, i as int),
                            )[j]);
                        }
                    }
                }
                i = i + 1;
                assert(crate::mod_tree::spec_import_views(v@) =~= crate::mod_tree::spec_import_views(
                    imports@.subrange(0, i as int),
                ));
            }
            assert(imports@.subrange(0, n as int) =~= imports@);
            ScopeKind::Module { imports: v, parent: *parent }
        },
    }
}

/// A copy of a tree of scopes.
pub fn clone_info(info: &ScopeInfo) -> (res: ScopeInfo)
    requires
        info.data.keys_unique(),
        forall|id: usize| #[trigger] info.has_scope(id) ==> info.scope(id).items.keys_unique(),
    ensures
        spec_info_similar(*info, res),
        res.data.keys_unique(),
        forall|id: usize| #[trigger] res.has_scope(id) ==> res.scope(id).items.keys_unique(),
{
    let mut entries: Vec<(usize, Scope)> = Vec::new();
    let n = info.data.entries.len();
    let mut i: usize = 0;
    while i < n
        invariant
            n == info.data.entries@.len(),
            i <= n,
            entries@.len() == i,
            info.data.keys_unique(),
            forall|id: usize| #[trigger] info.has_scope(id) ==> info.scope(id).items.keys_unique(),
            forall|j: int| 0 <= j < i ==> (#[trigger] entries@[j]).0 == info.data.entries@[j].0
                && spec_entries_similar(info.data.entries@[j].1.items, entries@[j].1.items)
                && spec_kind_similar(info.data.entries@[j].1.kind, entries@[j].1.kind),
        decreases n - i,
    {
        let id = info.data.entries[i].0;
        let scope = &info.data.entries[i].1;
        let items = clone_items(&scope.items);
        let kind = clone_kind(&scope.kind);
        entries.push((id, Scope { items, kind }));
        i = i + 1;
    }
    let res = ScopeInfo { data: IdMap { entries } };
    proof {
        assert forall|a: int, b: int| 0 <= a < b < res.data.entries@.len() implies #[trigger] res.data.entries@[a].0
            != #[trigger] res.data.entries@[b].0 by {
            assert(info.data.entries@[a].0 != info.data.entries@[b].0);
        }
        assert forall|id: usize| (#[trigger] info.has_scope(id)) == res.has_scope(id) by {
            if info.has_scope(id) {
                let x = choose|x: int| 0 <= x < info.data.entries@.len() && #[trigger] info.data.entries@[x].0 == id;
                assert(res.data.entries@[x].0 == id);
            }
            if res.has_scope(id) {
                let x = choose|x: int| 0 <= x < res.data.entries@.len() && #[trigger] res.data.entries@[x].0 == id;
                assert(info.data.entries@[x].0 == id);
            }
        }
        assert forall|id: usize| #[trigger] info.has_scope(id) implies spec_items_similar(
            info.scope(id).items,
            res.scope(id).items,
        ) && spec_kind_similar(info.scope(id).kind, res.scope(id).kind) by {
            let x = choose|x: int| 0 <= x < info.data.entries@.len() && #[trigger] info.data.entries@[x].0 == id;
            info.data.lemma_value(x);
            res.data.lemma_value(x);
            lemma_entries_similar(info.scope(id).items, res.scope(id).items);
        }
        assert forall|id: usize| #[trigger] res.has_scope(id) implies res.scope(id).items.keys_unique() by {
            let x = choose|x: int| 0 <= x < res.data.entries@.len() && #[trigger] res.data.entries@[x].0 == id;
            assert(info.data.entries@[x].0 == id);
            assert(info.has_scope(id));
            info.data.lemma_value(x);
            res.data.lemma_value(x);
            lemma_entries_similar(info.scope(id).items, res.scope(id).items);
        }
    }
    res
}

/// The name an import binds: its alias, or else the last name of its path.
pub open spec fn spec_import_name(import: Import) -> Seq<char> {
    match import.alias {
        Some(a) => a.data@,
        None => import.path.data@.last().data@,
    }
}

/// An exact import of `t` would change nothing of the symbol bound to its name.
pub open spec fn spec_sym_settled_exact(sym: Symbol, t: NodeID) -> bool {
    match sym {
        Symbol::GlobImported(_) => false,
        Symbol::Local(x) => x == t,
        Symbol::Imported(x) => x == t,
        Symbol::Ambiguous(ids) => ids@.contains(t),
    }
}

/// A glob import bringing in `t` would change nothing of the symbol bound to its name.
pub open spec fn spec_sym_settled_glob(sym: Symbol, t: NodeID) -> bool {
    match sym {
        Symbol::GlobImported(x) => x == t,
        Symbol::Local(_) => true,
        Symbol::Imported(_) => true,
        Symbol::Ambiguous(ids) => ids@.contains(t),
    }
}

/// A glob import of one binding would change nothing.
pub open spec fn spec_entry_settled(items: NameMap<Binding>, name: Seq<char>, b: Binding) -> bool {
    b.sym is Ambiguous || (items.has(name) && spec_sym_settled_glob(items.value(name).sym, b.sym.target()))
}

/// A glob import of all names of a namespace would change nothing.
pub open spec fn spec_glob_settled(items: NameMap<Binding>, from: NameMap<Binding>) -> bool {
    forall|n: Seq<char>| #[trigger] from.has(n) ==> spec_entry_settled(items, n, from.value(n))
}

/// Resolving the import, written in scope `id`, against `tree` would change nothing of `items`.
pub open spec fn spec_settled(tree: ScopeInfo, items: NameMap<Binding>, id: usize, import: Import) -> bool {
    match spec_find_path(tree, id, import.path.data@, true) {
        Err(_) => true,
        Ok(b) => if !import.is_glob {
            items.has(spec_import_name(import)) && spec_sym_settled_exact(
                items.value(spec_import_name(import)).sym,
                b.sym.target(),
            )
        } else if !tree.has_scope(b.sym.target().id) {
            true
        } else {
            spec_glob_settled(items, tree.scope(b.sym.target().id).items)
        },
    }
}

/// What a glob import of the names `from` of a namespace did to the bindings of its scope: a
/// name `from` does not have is bound as before, and a name it has that was free is now
/// glob-imported, to the declaration it has there (ambiguous names of `from` are skipped).
pub open spec fn spec_glob_imported(old_items: NameMap<Binding>, items: NameMap<Binding>, import: Import, from: NameMap<
    Binding,
>) -> bool {
    &&& forall|x: Seq<char>| !from.has(x) ==> (#[trigger] items.has(x) == old_items.has(x) && (items.has(x) ==> items.value(
        x,
    ) == old_items.value(x)))
    &&& forall|x: Seq<char>|
        #[trigger] from.has(x) && !old_items.has(x) && !(from.value(x).sym is Ambiguous) ==> items.has(x) && items.value(x)
            == (Binding { vis: import.vis, kind: from.value(x).kind, sym: Symbol::GlobImported(from.value(x).sym.target()) })
}

/// What an exact import that changed something did to the bindings of its scope: its name is
/// now bound, to the declaration `b` it leads to when the name was free or only glob-imported
/// (an exact import shadows a glob import), and otherwise to an ambiguity that includes `b`;
/// every other name is bound as before.
pub open spec fn spec_exact_imported(old_items: NameMap<Binding>, items: NameMap<Binding>, import: Import, b: Binding) -> bool {
    let nm = spec_import_name(import);
    &&& items.has(nm)
    &&& forall|x: Seq<char>| x != nm ==> (#[trigger] items.has(x) == old_items.has(x) && (items.has(x) ==> items.value(x)
        == old_items.value(x)))
    &&& (!old_items.has(nm) || old_items.value(nm).sym is GlobImported) ==> items.value(nm) == (Binding {
        vis: import.vis,
        kind: b.kind,
        sym: Symbol::Imported(b.sym.target()),
    })
    &&& (old_items.has(nm) && !(old_items.value(nm).sym is GlobImported)) ==> (items.value(nm).sym matches Symbol::Ambiguous(
        ids,
    ) && ids@.contains(b.sym.target()))
}

/// The bindings of a scope all name one declaration each or are ambiguous, and can be followed.
pub open spec fn spec_items_ok(tree: ScopeInfo, items: NameMap<Binding>) -> bool {
    &&& items.keys_unique()
    &&& forall|n: Seq<char>| #[trigger] items.has(n) ==> tree.binding_ok(items.value(n))
}

fn contains_id(ids: &Vec<NodeID>, t: NodeID) -> (res: bool)
    ensures
        res == ids@.contains(t),
{
    let n = ids.len();
    let mut i: usize = 0;
    while i < n
        invariant
            n == ids@.len(),
            i <= n,
            forall|j: int| 0 <= j < i ==> ids@[j] != t,
        decreases n - i,
    {
        if ids[i] == t {
            return true;
        }
        i = i + 1;
    }
    false
}

/// The symbol a binding becomes when a name is brought in a second time: it names both.
pub fn make_ambiguous(binding_id: NodeID, existing_binding: &Binding, id: NodeID) -> (res: Binding)
    requires
        binding_id != id,
    ensures
        res.vis == existing_binding.vis,
        res.kind == existing_binding.kind,
        res.sym matches Symbol::Ambiguous(ids) && ids@ == seq![id, binding_id],
{
    let mut ids: Vec<NodeID> = Vec::new();
    ids.push(id);
    ids.push(binding_id);
    Binding { vis: existing_binding.vis, kind: existing_binding.kind, sym: Symbol::Ambiguous(ids) }
}

/// Brings the names of one import, written in scope `id`, into `items`, looking them up
/// in `old_tree`. Tells whether `items` changed.
///
/// An import whose path cannot be followed yet changes nothing; it may succeed in a later
/// round, and its error is reported once all rounds are done.
pub fn resolve_import(old_tree: &ScopeInfo, items: &mut NameMap<Binding>, id: NodeID, import: &Import) -> (res: Result<
    bool,
    InternalError,
>)
    requires
        old_tree.wf(),
        old_tree.has_scope(id.id),
        import.path.data@.len() > 0,
        spec_items_ok(*old_tree, *old(items)),
    ensures
        res is Ok,
        spec_items_ok(*old_tree, *final(items)),
        forall|n: Seq<char>| #[trigger] old(items).has(n) ==> final(items).has(n),
        res == Ok::<bool, InternalError>(false) <==> spec_settled(*old_tree, *old(items), id.id, *import),
        res == Ok::<bool, InternalError>(false) ==> *final(items) == *old(items),
        import.is_glob && spec_find_path(*old_tree, id.id, import.path.data@, true) is Ok && old_tree.has_scope(
            spec_find_path(*old_tree, id.id, import.path.data@, true)->Ok_0.sym.target().id,
        ) ==> spec_glob_imported(
            *old(items),
            *final(items),
            *import,
            old_tree.scope(spec_find_path(*old_tree, id.id, import.path.data@, true)->Ok_0.sym.target().id).items,
        ),
        !import.is_glob && res == Ok::<bool, InternalError>(true) ==> spec_exact_imported(
            *old(items),
            *final(items),
            *import,
            spec_find_path(*old_tree, id.id, import.path.data@, true)->Ok_0,
        ),
{
    let mut private_guard = true;
    let binding = match old_tree.find_path(id, import.path.clone(), &mut private_guard) {
        Ok(b) => b,
        Err(_) => {
            return Ok(false);
        },
    };
    proof {
        lemma_find_path_ok(*old_tree, id.id, import.path.data@, true);
    }
    let binding_id = match binding.sym {
        Symbol::Local(node_id) | Symbol::Imported(node_id) | Symbol::GlobImported(node_id) => node_id,
        Symbol::Ambiguous(_) => {
            return Ok(false);
        },
    };
    let ghost old_items = *items;
    if !import.is_glob {
        let name = match &import.alias {
            Some(a) => a.data.clone(),
            None => import.path.try_last().unwrap().name_str(),
        };
        match items.index_of(name.as_str()) {
            None => {
                let new_binding = Binding { vis: import.vis, kind: binding.kind, sym: Symbol::Imported(binding_id) };
                let _ = items.insert(name, new_binding);
                proof {
                    assert forall|n: Seq<char>| #[trigger] items.has(n) implies old_tree.binding_ok(items.value(n)) by {
                        if n != spec_import_name(*import) {
                            assert(old_items.has(n));
                        }
                    }
                }
                return Ok(true);
            },
            Some(i) => {
                proof {
                    items.lemma_value(i as int);
                }
                let existing = &items.entries[i].1;
                let new_binding = match &existing.sym {
                    Symbol::GlobImported(_) => Binding { vis: import.vis, kind: binding.kind, sym: Symbol::Imported(binding_id) },
                    Symbol::Local(x) | Symbol::Imported(x) => {
                        if *x == binding_id {
                            return Ok(false);
                        }
                        make_ambiguous(binding_id, existing, *x)
                    },
                    Symbol::Ambiguous(ids) => {
                        if contains_id(ids, binding_id) {
                            return Ok(false);
                        }
                        let mut more = crate::mod_tree::scope::clone_ids(ids);
                        more.push(binding_id);
                        Binding { vis: existing.vis, kind: existing.kind, sym: Symbol::Ambiguous(more) }
                    },
                };
                let ghost nb = new_binding;
                let _ = items.insert(name, new_binding);
                proof {
                    assert forall|n: Seq<char>| #[trigger] items.has(n) implies old_tree.binding_ok(items.value(n)) by {
                        if n != spec_import_name(*import) {
                            assert(old_items.has(n));
                        } else {
                            assert(old_tree.binding_ok(old_items.value(n)));
                        }
                    }
                    if nb.sym is Ambiguous {
                        let ids = nb.sym->Ambiguous_0;
                        if ids@.len() == 2 && ids@[1] == binding_id {
                            assert(ids@[1] == binding_id);
                        } else {
                            assert(ids@[ids@.len() - 1] == binding_id);
                        }
                    }
                }
                return Ok(true);
            },
        }
    }
    let scope = match old_tree.get(binding_id) {
        Some(s) => s,
        None => {
            return Ok(false);
        },
    };
    assert(old_tree.scope_ok(binding_id.id));
    let ghost from = scope.items;
    let mut changed = false;
    let n = scope.items.entries.len();
    let mut j: usize = 0;
    while j < n
        invariant
            n == from.entries@.len(),
            from == scope.items,
            from.keys_unique(),
            forall|x: Seq<char>| #[trigger] from.has(x) ==> old_tree.binding_ok(from.value(x)),
            old_tree.wf(),
            j <= n,
            spec_items_ok(*old_tree, *items),
            forall|x: Seq<char>| #[trigger] old_items.has(x) ==> items.has(x),
            !changed ==> *items == old_items,
            !changed <==> forall|k: int| 0 <= k < j ==> spec_entry_settled(old_items, #[trigger] from.entries@[k].0@, from.entries@[k].1),
            forall|x: Seq<char>| (forall|k: int| 0 <= k < j ==> #[trigger] from.entries@[k].0@ != x) ==> (items.has(x)
                == old_items.has(x) && (items.has(x) ==> items.value(x) == old_items.value(x))),
            forall|k: int|
                0 <= k < j && !old_items.has(#[trigger] from.entries@[k].0@) && !(from.entries@[k].1.sym is Ambiguous) ==> items.has(
                    from.entries@[k].0@,
                ) && items.value(from.entries@[k].0@) == (Binding {
                    vis: import.vis,
                    kind: from.entries@[k].1.kind,
                    sym: Symbol::GlobImported(from.entries@[k].1.sym.target()),
                }),
        decreases n - j,
    {
        let name = &scope.items.entries[j].0;
        let b = &scope.items.entries[j].1;
        proof {
            from.lemma_value(j as int);
        }
        let ghost was_changed = changed;
        let ghost before = *items;
        let bid = match b.sym {
            Symbol::Local(node_id) | Symbol::Imported(node_id) | Symbol::GlobImported(node_id) => Some(node_id),
            Symbol::Ambiguous(_) => None,
        };
        if let Some(bid) = bid {
            let new_binding = Binding { vis: import.vis, kind: b.kind, sym: Symbol::GlobImported(bid) };
            match items.index_of(name.as_str()) {
                None => {
                    let _ = items.insert(name.clone(), new_binding);
                    changed = true;
                },
                Some(i) => {
                    proof {
                        items.lemma_value(i as int);
                    }
                    let existing = &items.entries[i].1;
                    let update = match &existing.sym {
                        Symbol::Local(_) | Symbol::Imported(_) => None,
                        Symbol::GlobImported(g) => {
                            if *g == bid {
                                None
                            } else {
                                Some(make_ambiguous(bid, existing, *g))
                            }
                        },
                        Symbol::Ambiguous(ids) => {
                            if contains_id(ids, bid) {
                                None
                            } else {
                                let mut more = crate::mod_tree::scope::clone_ids(ids);
                                more.push(bid);
                                Some(Binding { vis: existing.vis, kind: existing.kind, sym: Symbol::Ambiguous(more) })
                            }
                        },
                    };
                    if let Some(nb) = update {
                        let ghost ex = *existing;
                        let _ = items.insert(name.clone(), nb);
                        changed = true;
                        proof {
                            assert(old_tree.binding_ok(ex));
                        }
                    }
                },
            }
        }
        proof {
            let nm = from.entries@[j as int].0@;
            assert forall|x: Seq<char>| #[trigger] items.has(x) implies old_tree.binding_ok(items.value(x)) by {
                if x != nm {
                    assert(before.has(x));
                }
            }
            assert forall|x: Seq<char>| (forall|k: int| 0 <= k < j + 1 ==> #[trigger] from.entries@[k].0@ != x) implies (
            items.has(x) == old_items.has(x) && (items.has(x) ==> items.value(x) == old_items.value(x))) by {
                assert(from.entries@[j as int].0@ != x);
                assert(forall|k: int| 0 <= k < j ==> #[trigger] from.entries@[k].0@ != x);
            }
            assert(forall|k: int| 0 <= k < j ==> #[trigger] from.entries@[k].0@ != nm);
            assert(before.has(nm) == old_items.has(nm) && (before.has(nm) ==> before.value(nm) == old_items.value(nm)));
            if !changed {
                assert forall|k: int| 0 <= k < j + 1 implies spec_entry_settled(old_items, #[trigger] from.entries@[k].0@, from.entries@[k].1) by {
                }
            }
        }
        j = j + 1;
    }
    proof {
        assert(spec_glob_settled(old_items, from) == (forall|k: int| 0 <= k < n ==> spec_entry_settled(old_items, #[trigger] from.entries@[k].0@, from.entries@[k].1))) by {
            if spec_glob_settled(old_items, from) {
                assert forall|k: int| 0 <= k < n implies spec_entry_settled(old_items, #[trigger] from.entries@[k].0@, from.entries@[k].1) by {
                    from.lemma_value(k);
                }
            }
            if forall|k: int| 0 <= k < n ==> spec_entry_settled(old_items, #[trigger] from.entries@[k].0@, from.entries@[k].1) {
                assert forall|x: Seq<char>| #[trigger] from.has(x) implies spec_entry_settled(old_items, x, from.value(x)) by {
                    let k = choose|k: int| 0 <= k < from.entries@.len() && #[trigger] from.entries@[k].0@ == x;
                    from.lemma_value(k);
                }
            }
        }
    }
    Ok(changed)
}

proof fn lemma_wf_similar(a: ScopeInfo, b: ScopeInfo)
    requires
        a.wf(),
        spec_info_similar(a, b),
        b.data.keys_unique(),
        forall|id: usize| #[trigger] b.has_scope(id) ==> b.scope(id).items.keys_unique(),
    ensures
        b.wf(),
{
    assert(b.has_scope(0)) by {
        assert(a.has_scope(0));
    }
    assert forall|id: usize| #[trigger] b.has_scope(id) implies b.scope_ok(id) by {
        assert(a.has_scope(id));
        assert(a.scope_ok(id));
        assert(spec_kind_similar(a.scope(id).kind, b.scope(id).kind));
        if let Some(p) = spec_parent(b.scope(id).kind) {
            assert(a.has_scope(p.id));
        }
        assert forall|n: Seq<char>| #[trigger] b.scope(id).items.has(n) implies b.binding_ok(b.scope(id).items.value(n)) by {
            assert(a.scope(id).items.has(n));
            let x = a.scope(id).items.value(n);
            assert(x.same(b.scope(id).items.value(n)));
            assert(a.binding_ok(x));
            if !(x.sym is Ambiguous) {
                assert(a.has_scope(x.sym.target().id) ==> b.has_scope(x.sym.target().id));
            }
        }
    }
}

proof fn lemma_settled_similar(a: ScopeInfo, b: ScopeInfo, items: NameMap<Binding>, id: usize, import: Import)
    requires
        a.wf(),
        spec_info_similar(a, b),
        a.has_scope(id),
    ensures
        spec_settled(a, items, id, import) == spec_settled(b, items, id, import),
{
    lemma_find_path_similar(a, b, id, import.path.data@, true);
    lemma_find_path_ok(a, id, import.path.data@, true);
    if let Ok(bnd) = spec_find_path(a, id, import.path.data@, true) {
        let t = bnd.sym.target().id;
        if import.is_glob && a.has_scope(t) {
            let fa = a.scope(t).items;
            let fb = b.scope(t).items;
            assert(spec_items_similar(fa, fb));
            assert forall|n: Seq<char>| #[trigger] fa.has(n) implies spec_entry_settled(items, n, fa.value(n))
                == spec_entry_settled(items, n, fb.value(n)) by {
                assert(fa.value(n).same(fb.value(n)));
            }
            assert(spec_glob_settled(items, fa) == spec_glob_settled(items, fb)) by {
                if spec_glob_settled(items, fa) {
                    assert forall|n: Seq<char>| #[trigger] fb.has(n) implies spec_entry_settled(items, n, fb.value(n)) by {
                        assert(fa.has(n));
                    }
                }
                if spec_glob_settled(items, fb) {
                    assert forall|n: Seq<char>| #[trigger] fa.has(n) implies spec_entry_settled(items, n, fa.value(n)) by {
                        assert(fb.has(n));
                    }
                }
            }
        }
    }
}

/// No import of any module would change anything any more.
pub open spec fn spec_fixpoint(t: ScopeInfo) -> bool {
    forall|id: usize, k: int| #[trigger] t.has_scope(id) && (t.scope(id).kind matches ScopeKind::Module { imports, .. }
        && 0 <= k < imports@.len()) ==> spec_settled(t, t.scope(id).items, id, #[trigger] t.scope(id).kind->Module_imports@[k])
}

/// Scopes in both trees are the same, with the same kinds.
pub open spec fn spec_same_shape(a: ScopeInfo, b: ScopeInfo) -> bool {
    &&& forall|id: usize| (#[trigger] a.has_scope(id)) == b.has_scope(id)
    &&& forall|id: usize| #[trigger] a.has_scope(id) ==> a.scope(id).kind == b.scope(id).kind
}

/// One round: resolves every import of every module against a copy of the tree taken
/// before the round. Tells whether anything changed.
fn solve_round(tree: ScopeInfo) -> (res: Result<(ScopeInfo, bool), InternalError>)
    requires
        spec_scopes_wf(tree),
    ensures
        res matches Ok((t, changed)) && {
            &&& spec_scopes_wf(t)
            &&& spec_same_shape(tree, t)
            &&& !changed ==> spec_fixpoint(t)
            &&& spec_fixpoint(tree) ==> !changed
        },
{
    let old_tree = clone_info(&tree);
    proof {
        lemma_wf_similar(tree, old_tree);
    }
    let mut changed = false;
    let ghost t0 = tree;
    let ghost e0 = tree.data.entries@;
    let mut rest = tree.data.entries;
    let mut out: Vec<(usize, Scope)> = Vec::new();
    let m = rest.len();
    let mut i: usize = 0;
    while rest.len() > 0
        invariant
            m == e0.len(),
            i <= m,
            rest@ == e0.subrange(i as int, m as int),
            e0 == t0.data.entries@,
            spec_scopes_wf(t0),
            spec_info_similar(t0, old_tree),
            old_tree.wf(),
            forall|id: usize| (#[trigger] old_tree.has_scope(id)) == t0.has_scope(id),
            out@.len() == i,
            forall|x: int| 0 <= x < i ==> (#[trigger] out@[x]).0 == e0[x].0 && out@[x].1.kind == e0[x].1.kind
                && spec_items_ok(old_tree, out@[x].1.items),
            !changed ==> forall|x: int| 0 <= x < i ==> #[trigger] out@[x] == e0[x],
            !changed ==> forall|x: int, k: int| 0 <= x < i && (e0[x].1.kind matches ScopeKind::Module { imports, .. }
                && 0 <= k < imports@.len()) ==> spec_settled(old_tree, e0[x].1.items, #[trigger] e0[x].0,
                #[trigger] e0[x].1.kind->Module_imports@[k]),
            spec_fixpoint(t0) ==> !changed,
        decreases m - i,
    {
        let (sid, scope) = rest.remove(0);
        assert((sid, scope) == e0[i as int]);
        proof {
            t0.data.lemma_value(i as int);
            assert(t0.has_scope(sid));
            assert(t0.scope_ok(sid));
            assert(spec_imports_named(t0.scope(sid).kind));
            assert forall|n: Seq<char>| #[trigger] scope.items.has(n) implies old_tree.binding_ok(scope.items.value(n)) by {
                assert(t0.binding_ok(scope.items.value(n)));
            }
        }
        let ghost orig = scope;
        let ghost changed_before = changed;
        let Scope { items, kind } = scope;
        let mut items = items;
        match &kind {
            ScopeKind::Module { imports, .. } => {
                proof {
                    if spec_fixpoint(t0) {
                        assert(orig == t0.scope(sid));
                        assert forall|x: int| 0 <= x < imports@.len() implies spec_settled(
                            old_tree,
                            orig.items,
                            sid,
                            #[trigger] imports@[x],
                        ) by {
                            assert(t0.scope(sid).kind->Module_imports@[x] == imports@[x]);
                            assert(spec_settled(t0, t0.scope(sid).items, sid, t0.scope(sid).kind->Module_imports@[x]));
                            lemma_settled_similar(t0, old_tree, orig.items, sid, imports@[x]);
                        }
                    }
                }
                let n = imports.len();
                let mut k: usize = 0;
                while k < n
                    invariant
                        n == imports@.len(),
                        k <= n,
                        old_tree.wf(),
                        old_tree.has_scope(sid),
                        forall|x: int| 0 <= x < n ==> (#[trigger] imports@[x]).path.data@.len() > 0,
                        spec_items_ok(old_tree, items),
                        !changed ==> items == orig.items,
                        changed_before ==> changed,
                        !changed ==> forall|x: int| 0 <= x < k ==> spec_settled(old_tree, orig.items, sid, #[trigger] imports@[x]),
                        spec_fixpoint(t0) ==> !changed,
                        spec_fixpoint(t0) ==> forall|x: int|
                            0 <= x < n ==> spec_settled(old_tree, orig.items, sid, #[trigger] imports@[x]),
                    decreases n - k,
                {
                    let c = resolve_import(&old_tree, &mut items, NodeID { id: sid }, &imports[k])?;
                    changed = changed || c;
                    k = k + 1;
                }
            },
            _ => {},
        }
        out.push((sid, Scope { items, kind }));
        i = i + 1;
        assert(rest@ =~= e0.subrange(i as int, m as int));
    }
    let t = ScopeInfo { data: IdMap { entries: out } };
    proof {
        assert(out@.len() == m);
        assert forall|a: int, b: int| 0 <= a < b < t.data.entries@.len() implies #[trigger] t.data.entries@[a].0
            != #[trigger] t.data.entries@[b].0 by {
            assert(e0[a].0 != e0[b].0);
        }
        assert forall|id: usize| (#[trigger] t0.has_scope(id)) == t.has_scope(id) by {
            if t0.has_scope(id) {
                let x = choose|x: int| 0 <= x < e0.len() && #[trigger] e0[x].0 == id;
                assert(t.data.entries@[x].0 == id);
            }
            if t.has_scope(id) {
                let x = choose|x: int| 0 <= x < t.data.entries@.len() && #[trigger] t.data.entries@[x].0 == id;
                assert(e0[x].0 == id);
            }
        }
        assert forall|id: usize| #[trigger] t0.has_scope(id) implies t0.scope(id).kind == t.scope(id).kind
            && spec_items_ok(old_tree, t.scope(id).items)
            && (!changed ==> t.scope(id) == t0.scope(id)) by {
            let x = choose|x: int| 0 <= x < e0.len() && #[trigger] e0[x].0 == id;
            t0.data.lemma_value(x);
            t.data.lemma_value(x);
        }
        assert forall|id: usize| #[trigger] t.has_scope(id) implies t.scope_ok(id) && spec_imports_named(t.scope(id).kind) by {
            assert(t0.has_scope(id));
            assert(t0.scope_ok(id));
            assert(spec_imports_named(t0.scope(id).kind));
            assert forall|nm: Seq<char>| #[trigger] t.scope(id).items.has(nm) implies t.binding_ok(t.scope(id).items.value(nm)) by {
                assert(old_tree.binding_ok(t.scope(id).items.value(nm)));
            }
        }
        assert(t.has_scope(0)) by {
            assert(t0.has_scope(0));
        }
        if !changed {
            assert(spec_info_similar(t0, t)) by {
                assert forall|id: usize| #[trigger] t0.has_scope(id) implies spec_items_similar(t0.scope(id).items, t.scope(id).items)
                    && spec_kind_similar(t0.scope(id).kind, t.scope(id).kind) by {
                    assert(t.scope(id) == t0.scope(id));
                    let a = t0.scope(id).items;
                    assert forall|nm: Seq<char>| a.has(nm) implies (#[trigger] a.value(nm)).same(a.value(nm)) by {
                        let v = a.value(nm);
                        if let Symbol::Ambiguous(ids) = v.sym {
                            assert(ids@ == ids@);
                        }
                    }
                    if let ScopeKind::Module { imports, .. } = t0.scope(id).kind {
                        assert(crate::mod_tree::spec_import_views(imports@) == crate::mod_tree::spec_import_views(imports@));
                    }
                }
            }
            assert forall|id: usize, k: int| #[trigger] t.has_scope(id) && (t.scope(id).kind matches ScopeKind::Module { imports, .. }
                && 0 <= k < imports@.len()) implies spec_settled(t, t.scope(id).items, id, #[trigger] t.scope(id).kind->Module_imports@[k]) by {
                let x = choose|x: int| 0 <= x < e0.len() && #[trigger] e0[x].0 == id;
                t0.data.lemma_value(x);
                let imp = t.scope(id).kind->Module_imports@[k];
                assert(spec_settled(old_tree, e0[x].1.items, e0[x].0, e0[x].1.kind->Module_imports@[k]));
                assert(t0.has_scope(id));
                lemma_settled_similar(t0, old_tree, e0[x].1.items, id, imp);
                lemma_settled_similar(t0, t, e0[x].1.items, id, imp);
            }
        }
    }
    Ok((t, changed))
}

/// The identifier an import binds: its alias, or else the last identifier of its path.
pub open spec fn spec_import_ident(import: Import) -> Ident {
    match import.alias {
        Some(a) => a,
        None => import.path.data@.last(),
    }
}

/// Reports what is wrong with an import, written in scope `id`, once all imports were
/// resolved: a path that leads nowhere, or a glob import from something that is not a
/// namespace.
pub fn report_import_errors(ctx: &mut Context, tree: &ScopeInfo, id: NodeID, import: &Import)
    requires
        tree.wf(),
        tree.has_scope(id.id),
        import.path.data@.len() > 0,
    ensures
        match spec_find_path(*tree, id.id, import.path.data@, true) {
            Err(e) => final(ctx).diagnostics@.len() == old(ctx).diagnostics@.len() + 1
                && final(ctx).diagnostics@.drop_last() == old(ctx).diagnostics@
                && spec_path_diag(e, final(ctx).diagnostics@.last()),
            Ok(b) => if import.is_glob && !tree.has_scope(b.sym.target().id) {
                &&& final(ctx).diagnostics@.len() == old(ctx).diagnostics@.len() + 1
                &&& final(ctx).diagnostics@.drop_last() == old(ctx).diagnostics@
                &&& spec_labelled_error(final(ctx).diagnostics@.last(), spec_import_ident(*import).pos,
                    "cannot glob import from "@ + spec_import_ident(*import).data@ + ", it is not a namespace"@)
            } else {
                final(ctx).diagnostics@ == old(ctx).diagnostics@
            },
        },
{
    let mut guard = true;
    let binding = match tree.find_path(id, import.path.clone(), &mut guard) {
        Ok(b) => b,
        Err(diag) => {
            ctx.report(diag);
            assert(ctx.diagnostics@.drop_last() =~= old(ctx).diagnostics@);
            return;
        },
    };
    proof {
        lemma_find_path_ok(*tree, id.id, import.path.data@, true);
    }
    let binding_id = match binding.sym {
        Symbol::Local(node_id) | Symbol::Imported(node_id) | Symbol::GlobImported(node_id) => node_id,
        Symbol::Ambiguous(_) => {
            return;
        },
    };
    if import.is_glob {
        if tree.get(binding_id).is_none() {
            let name = match &import.alias {
                Some(a) => a.clone(),
                None => import.path.try_last().unwrap().clone(),
            };
            let msg = concat(concat("cannot glob import from ", name.data.as_str()).as_str(), ", it is not a namespace");
            ctx.report(Diagnostic::error(&name.pos).with_label(Label::new(&name.pos).with_msg(msg)));
            assert(ctx.diagnostics@.drop_last() =~= old(ctx).diagnostics@);
        }
    }
}

/// A report stays among the diagnostics when more are added after it.
proof fn lemma_reported_grow(t: ScopeInfo, c0: Context, c1: Context, c2: Context)
    requires
        c1.diagnostics@.len() <= c2.diagnostics@.len(),
        c2.diagnostics@.subrange(0, c1.diagnostics@.len() as int) == c1.diagnostics@,
    ensures
        forall|sid: usize, import: Import| #[trigger] spec_import_reported(t, c0, c1, sid, import) ==> spec_import_reported(
            t,
            c0,
            c2,
            sid,
            import,
        ),
{
    assert forall|sid: usize, import: Import| #[trigger] spec_import_reported(t, c0, c1, sid, import) implies spec_import_reported(
        t,
        c0,
        c2,
        sid,
        import,
    ) by {
        if spec_find_path(t, sid, import.path.data@, true) is Err {
            let j = choose|j: int|
                c0.diagnostics@.len() <= j < c1.diagnostics@.len() && spec_path_diag(
                    spec_find_path(t, sid, import.path.data@, true)->Err_0,
                    #[trigger] c1.diagnostics@[j],
                );
            assert(c2.diagnostics@[j] == c2.diagnostics@.subrange(0, c1.diagnostics@.len() as int)[j]);
        }
    }
}

/// An import written in scope `sid` of `t` whose path leads nowhere was reported between `c0`
/// and `c1`, with the diagnostic of its path error.
pub open spec fn spec_import_reported(t: ScopeInfo, c0: Context, c1: Context, sid: usize, import: Import) -> bool {
    spec_find_path(t, sid, import.path.data@, true) matches Err(e) ==> exists|j: int|
        c0.diagnostics@.len() <= j < c1.diagnostics@.len() && spec_path_diag(e, #[trigger] c1.diagnostics@[j])
}

/// Every import of every module of `t` whose path leads nowhere was reported between `c0` and `c1`.
pub open spec fn spec_imports_reported(t: ScopeInfo, c0: Context, c1: Context) -> bool {
    forall|sid: usize, k: int|
        t.has_scope(sid) && (t.scope(sid).kind matches ScopeKind::Module { imports, .. } && 0 <= k < imports@.len())
            ==> spec_import_reported(t, c0, c1, sid, #[trigger] t.scope(sid).kind->Module_imports@[k])
}

/// Resolves the imports of all modules, round after round, until a round changes
/// nothing; then reports the imports that could not be resolved.
///
/// The tree comes back with the same scopes, and no import would change it any more.
/// The error comes only if the rounds are still changing the tree after `usize::MAX` of
/// them. Each changing round only adds bindings or widens them, so the rounds should
/// settle long before; that bound is not part of this contract.
pub fn solve(ctx: &mut Context, name_tree: ScopeInfo) -> (res: Result<ScopeInfo, InternalError>)
    requires
        spec_scopes_wf(name_tree),
    ensures
        res matches Ok(t) ==> {
            &&& spec_scopes_wf(t)
            &&& spec_same_shape(name_tree, t)
            &&& spec_fixpoint(t)
            &&& spec_imports_reported(t, *old(ctx), *final(ctx))
        },
        res matches Err(e) ==> e matches InternalError::AnyMsg(m) && m@ == "imports did not settle"@,
        spec_fixpoint(name_tree) ==> res is Ok,
        crate::mod_tree::spec_reported_after(*old(ctx), *final(ctx)),
{
    let mut tree = name_tree;
    let mut changed = true;
    let mut budget: usize = usize::MAX;
    while changed
        invariant
            spec_scopes_wf(tree),
            spec_same_shape(name_tree, tree),
            !changed ==> spec_fixpoint(tree),
            *ctx == *old(ctx),
            spec_fixpoint(name_tree) ==> (changed ==> budget == usize::MAX && tree == name_tree),
        decreases budget,
    {
        if budget == 0 {
            return Err(InternalError::msg("imports did not settle"));
        }
        budget = budget - 1;
        let ghost prev = tree;
        let (t, c) = solve_round(tree)?;
        proof {
            assert forall|id: usize| #[trigger] name_tree.has_scope(id) implies t.has_scope(id)
                && name_tree.scope(id).kind == t.scope(id).kind by {
                assert(prev.has_scope(id));
            }
            assert forall|id: usize| (#[trigger] name_tree.has_scope(id)) == t.has_scope(id) by {
                assert(prev.has_scope(id) == t.has_scope(id));
            }
        }
        tree = t;
        changed = c;
    }
    let n = tree.data.entries.len();
    let mut i: usize = 0;
    while i < n
        invariant
            n == tree.data.entries@.len(),
            i <= n,
            spec_scopes_wf(tree),
            crate::mod_tree::spec_reported_after(*old(ctx), *ctx),
            forall|i2: int, k: int|
                0 <= i2 < i && (tree.data.entries@[i2].1.kind matches ScopeKind::Module { imports, .. } && 0 <= k
                    < imports@.len()) ==> spec_import_reported(
                    tree,
                    *old(ctx),
                    *ctx,
                    tree.data.entries@[i2].0,
                    #[trigger] tree.data.entries@[i2].1.kind->Module_imports@[k],
                ),
        decreases n - i,
    {
        let sid = tree.data.entries[i].0;
        proof {
            tree.data.lemma_value(i as int);
            assert(tree.has_scope(sid));
            assert(spec_imports_named(tree.scope(sid).kind));
        }
        match &tree.data.entries[i].1.kind {
            ScopeKind::Module { imports, .. } => {
                let m = imports.len();
                let mut k: usize = 0;
                while k < m
                    invariant
                        m == imports@.len(),
                        k <= m,
                        tree.wf(),
                        tree.has_scope(sid),
                        forall|x: int| 0 <= x < m ==> (#[trigger] imports@[x]).path.data@.len() > 0,
                        crate::mod_tree::spec_reported_after(*old(ctx), *ctx),
                        sid == tree.data.entries@[i as int].0,
                        tree.data.entries@[i as int].1.kind matches ScopeKind::Module { imports: im, .. } && im@ == imports@,
                        forall|i2: int, k2: int|
                            0 <= i2 < i && (tree.data.entries@[i2].1.kind matches ScopeKind::Module { imports, .. } && 0 <= k2
                                < imports@.len()) ==> spec_import_reported(
                                tree,
                                *old(ctx),
                                *ctx,
                                tree.data.entries@[i2].0,
                                #[trigger] tree.data.entries@[i2].1.kind->Module_imports@[k2],
                            ),
                        forall|k2: int| 0 <= k2 < k ==> spec_import_reported(tree, *old(ctx), *ctx, sid, #[trigger] imports@[k2]),
                    decreases m - k,
                {
                    let ghost before = *ctx;
                    report_import_errors(ctx, &tree, NodeID { id: sid }, &imports[k]);
                    proof {
                        assert(ctx.diagnostics@.subrange(0, before.diagnostics@.len() as int) =~= before.diagnostics@);
                        crate::error::context::lemma_reported_trans(*old(ctx), before, *ctx);
                        lemma_reported_grow(tree, *old(ctx), before, *ctx);
                        if spec_find_path(tree, sid, imports@[k as int].path.data@, true) is Err {
                            let j = ctx.diagnostics@.len() - 1;
                            assert(ctx.diagnostics@[j] == ctx.diagnostics@.last());
                        }
                    }
                    k = k + 1;
                }
            },
            _ => {},
        }
        i = i + 1;
    }
    Ok(tree)
}

} // verus!
