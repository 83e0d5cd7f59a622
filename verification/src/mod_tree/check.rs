//! Deciding whether parsed modules are fit to be placed in the module tree.
use vstd::prelude::*;

use crate::common::{str_eq, Ident};
use crate::mod_tree::{spec_cons_ok, spec_files_ok, spec_imports, spec_imports_many, spec_item_ok, spec_module_ok, spec_name_ok};
use crate::parser::ast as in_a;

verus! {

/// Every import that the tree stands for, below `prefix`, names a path.
pub open spec fn spec_imports_all_named(node: in_a::ImportPathNode, prefix: Seq<Ident>) -> bool {
    forall|i: int| 0 <= i < spec_imports(node, prefix).len() ==> (#[trigger] spec_imports(node, prefix)[i]).0.len() > 0
}

/// Every path an import tree stands for starts with its prefix.
proof fn lemma_imports_longer(node: in_a::ImportPathNode, prefix: Seq<Ident>)
    ensures
        forall|i: int|
            0 <= i < spec_imports(node, prefix).len() ==> (#[trigger] spec_imports(node, prefix)[i]).0.len() >= prefix.len(),
    decreases node, 1nat,
{
    match node.data {
        in_a::ImportPathData::Path(id, n) => {
            assert(spec_imports(node, prefix) == spec_imports(*n, prefix.push(id)));
            lemma_imports_longer(*n, prefix.push(id));
        },
        in_a::ImportPathData::Many(v) => {
            assert(spec_imports(node, prefix) == spec_imports_many(v@, prefix));
            assert forall|i: int| 0 <= i < v@.len() implies decreases_to!(node => #[trigger] v@[i]) by {
                assert(decreases_to!(node => node.data));
                assert(decreases_to!(node.data => node.data->Many_0));
                assert(decreases_to!(v => v@));
            }
            lemma_imports_many_longer(node, v@, prefix);
        },
        _ => {},
    }
}

proof fn lemma_imports_many_longer(parent: in_a::ImportPathNode, ns: Seq<in_a::ImportPathNode>, prefix: Seq<Ident>)
    requires
        forall|i: int| 0 <= i < ns.len() ==> decreases_to!(parent => #[trigger] ns[i]),
    ensures
        forall|i: int|
            0 <= i < spec_imports_many(ns, prefix).len() ==> (#[trigger] spec_imports_many(ns, prefix)[i]).0.len() >= prefix.len(),
    decreases parent, 0nat, ns.len(),
{
    if ns.len() > 0 {
        let init = ns.subrange(0, ns.len() - 1);
        assert forall|i: int| 0 <= i < init.len() implies decreases_to!(parent => #[trigger] init[i]) by {
            assert(init[i] == ns[i]);
        }
        lemma_imports_many_longer(parent, init, prefix);
        assert(decreases_to!(parent => ns[ns.len() - 1]));
        lemma_imports_longer(ns[ns.len() - 1], prefix);
        let a = spec_imports_many(init, prefix);
        let b = spec_imports(ns[ns.len() - 1], prefix);
        assert forall|i: int| 0 <= i < (a + b).len() implies (#[trigger] (a + b)[i]).0.len() >= prefix.len() by {
            if i < a.len() {
                assert((a + b)[i] == a[i]);
            } else {
                assert((a + b)[i] == b[i - a.len()]);
            }
        }
    }
}

/// The imports of several trees all name paths when those of each tree do.
proof fn lemma_many_named(ns: Seq<in_a::ImportPathNode>, prefix: Seq<Ident>)
    ensures
        (forall|i: int| 0 <= i < spec_imports_many(ns, prefix).len() ==> (#[trigger] spec_imports_many(ns, prefix)[i]).0.len() > 0)
            <==> (forall|k: int| 0 <= k < ns.len() ==> spec_imports_all_named(#[trigger] ns[k], prefix)),
    decreases ns.len(),
{
    if ns.len() > 0 {
        let init = ns.subrange(0, ns.len() - 1);
        lemma_many_named(init, prefix);
        let a = spec_imports_many(init, prefix);
        let b = spec_imports(ns[ns.len() - 1], prefix);
        assert(spec_imports_many(ns, prefix) == a + b);
        if forall|i: int| 0 <= i < (a + b).len() ==> (#[trigger] (a + b)[i]).0.len() > 0 {
            assert forall|i: int| 0 <= i < a.len() implies (#[trigger] a[i]).0.len() > 0 by {
                assert((a + b)[i] == a[i]);
            }
            assert forall|i: int| 0 <= i < b.len() implies (#[trigger] b[i]).0.len() > 0 by {
                assert((a + b)[i + a.len()] == b[i]);
            }
            assert forall|k: int| 0 <= k < ns.len() implies spec_imports_all_named(#[trigger] ns[k], prefix) by {
                if k < ns.len() - 1 {
                    assert(init[k] == ns[k]);
                }
            }
        }
        if forall|k: int| 0 <= k < ns.len() ==> spec_imports_all_named(#[trigger] ns[k], prefix) {
            assert forall|k: int| 0 <= k < init.len() implies spec_imports_all_named(#[trigger] init[k], prefix) by {
                assert(init[k] == ns[k]);
            }
            assert(spec_imports_all_named(ns[ns.len() - 1], prefix));
            assert forall|i: int| 0 <= i < (a + b).len() implies (#[trigger] (a + b)[i]).0.len() > 0 by {
                if i < a.len() {
                    assert((a + b)[i] == a[i]);
                } else {
                    assert((a + b)[i] == b[i - a.len()]);
                }
            }
        }
    } else {
        assert(spec_imports_many(ns, prefix).len() == 0);
    }
}

/// Whether every import of the tree, below a prefix that is empty exactly when `nonempty`
/// is false, names a path: only a glob at the very top names none.
fn imports_named(node: &in_a::ImportPathNode, nonempty: bool, Ghost(prefix): Ghost<Seq<Ident>>) -> (res: bool)
    requires
        nonempty <==> prefix.len() > 0,
    ensures
        res == spec_imports_all_named(*node, prefix),
    decreases node,
{
    match &node.data {
        in_a::ImportPathData::All => {
            assert(spec_imports(*node, prefix) == seq![(prefix, None::<Ident>, true)]);
            assert(spec_imports(*node, prefix)[0].0 == prefix);
            nonempty
        },
        in_a::ImportPathData::Exact(id, alias) => {
            assert(spec_imports(*node, prefix) == seq![(prefix.push(*id), *alias, false)]);
            assert(spec_imports(*node, prefix)[0].0 == prefix.push(*id));
            true
        },
        in_a::ImportPathData::Path(id, n) => {
            proof {
                assert(spec_imports(*node, prefix) == spec_imports(**n, prefix.push(*id)));
                lemma_imports_longer(**n, prefix.push(*id));
            }
            true
        },
        in_a::ImportPathData::Many(v) => {
            let n = v.len();
            let mut i: usize = 0;
            while i < n
                invariant
                    n == v@.len(),
                    i <= n,
                    nonempty <==> prefix.len() > 0,
                    node.data == in_a::ImportPathData::Many(*v),
                    forall|k: int| 0 <= k < i ==> spec_imports_all_named(#[trigger] v@[k], prefix),
                decreases n - i,
            {
                assert(decreases_to!(*node => v@[i as int])) by {
                    assert(decreases_to!(*node => node.data));
                    assert(decreases_to!(node.data => node.data->Many_0));
                    assert(decreases_to!(*v => v@));
                }
                if !imports_named(&v[i], nonempty, Ghost(prefix)) {
                    proof {
                        assert(spec_imports(*node, prefix) == spec_imports_many(v@, prefix));
                        lemma_many_named(v@, prefix);
                    }
                    return false;
                }
                i = i + 1;
            }
            proof {
                assert(spec_imports(*node, prefix) == spec_imports_many(v@, prefix));
                lemma_many_named(v@, prefix);
            }
            true
        },
    }
}

/// Whether a name may be declared: `super`, `self` and `Self` may not.
pub fn name_ok(n: &Ident) -> (res: bool)
    ensures
        res == spec_name_ok(*n),
{
    !str_eq(n.data.as_str(), "super") && !str_eq(n.data.as_str(), "self") && !str_eq(n.data.as_str(), "Self")
}

/// Whether an item is fit to be declared.
pub fn item_ok(item: &in_a::ModuleItem) -> (res: bool)
    ensures
        res == spec_item_ok(*item),
    decreases item,
{
    match item {
        in_a::ModuleItem::Module(m) => module_ok(m),
        in_a::ModuleItem::ModuleDecl(d) => name_ok(&d.name),
        in_a::ModuleItem::Func(f) => name_ok(&f.name),
        in_a::ModuleItem::Struct(st) => name_ok(&st.name),
        in_a::ModuleItem::Enum(e) => {
            if !name_ok(&e.name) {
                return false;
            }
            let n = e.constructors.len();
            let mut i: usize = 0;
            while i < n
                invariant
                    n == e.constructors@.len(),
                    i <= n,
                    *item is Enum,
                    item->Enum_0 == *e,
                    forall|k: int| 0 <= k < i ==> spec_cons_ok(#[trigger] e.constructors@[k]),
                decreases n - i,
            {
                let ok = match &e.constructors[i] {
                    in_a::Constructor::Tuple { name, .. } => name_ok(name),
                    in_a::Constructor::Struct { .. } => false,
                };
                if !ok {
                    assert(!spec_cons_ok(e.constructors@[i as int]));
                    return false;
                }
                i = i + 1;
            }
            true
        },
        in_a::ModuleItem::Import(it) => {
            let ok = imports_named(&it.path, false, Ghost(Seq::<Ident>::empty()));
            ok
        },
        in_a::ModuleItem::Error => true,
    }
}

/// Whether a module and everything in it is fit to be declared.
pub fn module_ok(m: &in_a::Module) -> (res: bool)
    ensures
        res == spec_module_ok(*m),
    decreases m,
{
    if !name_ok(&m.name) {
        return false;
    }
    let n = m.items.len();
    let mut i: usize = 0;
    while i < n
        invariant
            n == m.items@.len(),
            i <= n,
            forall|k: int| 0 <= k < i ==> spec_item_ok(#[trigger] m.items@[k]),
        decreases n - i,
    {
        assert(decreases_to!(*m => m.items@[i as int])) by {
            assert(decreases_to!(*m => m.items));
            assert(decreases_to!(m.items => m.items@));
        }
        if !item_ok(&m.items[i]) {
            return false;
        }
        i = i + 1;
    }
    true
}

/// Whether every parsed file holds a module fit to be declared.
pub fn files_ok(fm: &in_a::FileMap) -> (res: bool)
    ensures
        res == spec_files_ok(*fm),
{
    let n = fm.entries.len();
    let mut i: usize = 0;
    while i < n
        invariant
            n == fm.entries@.len(),
            i <= n,
            forall|k: int| 0 <= k < i ==> spec_module_ok(#[trigger] fm.entries@[k].1),
        decreases n - i,
    {
        if !module_ok(&fm.entries[i].1) {
            return false;
        }
        i = i + 1;
    }
    true
}

} // verus!
