//! Deciding whether a module tree is fit for name resolution.
use vstd::prelude::*;

use crate::common::node_id::builtin_type_id;
use crate::common::{str_eq, RAttribute};
use crate::mod_tree::ast as in_a;
use crate::resolve::{spec_builtin_attrs_ok, spec_item_resolve_ok, spec_resolve_ok};

verus! {

/// Whether every `builtin` attribute names a builtin type.
pub fn builtin_attrs_ok(attributes: &Vec<RAttribute>) -> (res: bool)
    ensures
        res == spec_builtin_attrs_ok(attributes@),
{
    let n = attributes.len();
    let mut i: usize = 0;
    while i < n
        invariant
            n == attributes@.len(),
            i <= n,
            forall|k: int|
                0 <= k < i && (#[trigger] attributes@[k]).name.data@ == "builtin"@ ==> attributes@[k].args@.len() > 0
                    && crate::common::node_id::spec_builtin_type_id(attributes@[k].args@[0]@) is Some,
        decreases n - i,
    {
        if str_eq(attributes[i].name.data.as_str(), "builtin") {
            if attributes[i].args.len() == 0 {
                return false;
            }
            if builtin_type_id(attributes[i].args[0].as_str()).is_none() {
                return false;
            }
        }
        i = i + 1;
    }
    true
}

/// Whether a declaration is fit for name resolution: builtin attributes name builtin
/// types, the fields of a struct have distinct names, and enum constructors are tuples.
pub fn item_resolve_ok(item: &in_a::ModuleItem) -> (res: bool)
    ensures
        res == spec_item_resolve_ok(*item),
    decreases item,
{
    match item {
        in_a::ModuleItem::Module(m) => resolve_ok(m),
        in_a::ModuleItem::Func(_) => true,
        in_a::ModuleItem::Struct(s) => {
            if !builtin_attrs_ok(&s.attributes) {
                return false;
            }
            let n = s.fields.len();
            let mut b: usize = 0;
            while b < n
                invariant
                    n == s.fields@.len(),
                    b <= n,
                    *item is Struct,
                    item->Struct_0 == *s,
                    spec_builtin_attrs_ok(s.attributes@),
                    forall|x: int, y: int| 0 <= x < y < b ==> (#[trigger] s.fields@[x]).0.data@ != (#[trigger] s.fields@[y]).0.data@,
                decreases n - b,
            {
                let mut a: usize = 0;
                while a < b
                    invariant
                        n == s.fields@.len(),
                        a <= b < n,
                        *item is Struct,
                        item->Struct_0 == *s,
                        forall|x: int| 0 <= x < a ==> (#[trigger] s.fields@[x]).0.data@ != s.fields@[b as int].0.data@,
                    decreases b - a,
                {
                    if str_eq(s.fields[a].0.data.as_str(), s.fields[b].0.data.as_str()) {
                        assert(s.fields@[a as int].0.data@ == s.fields@[b as int].0.data@);
                        return false;
                    }
                    a = a + 1;
                }
                b = b + 1;
            }
            true
        },
        in_a::ModuleItem::Enum(e) => {
            if !builtin_attrs_ok(&e.attributes) {
                return false;
            }
            let n = e.constructors.len();
            let mut i: usize = 0;
            while i < n
                invariant
                    n == e.constructors@.len(),
                    i <= n,
                    *item is Enum,
                    item->Enum_0 == *e,
                    spec_builtin_attrs_ok(e.attributes@),
                    forall|k: int| 0 <= k < i ==> (#[trigger] e.constructors@[k]) is Tuple,
                decreases n - i,
            {
                if let in_a::Constructor::Struct { .. } = &e.constructors[i] {
                    return false;
                }
                i = i + 1;
            }
            true
        },
    }
}

/// Whether a module and everything in it is fit for name resolution.
pub fn resolve_ok(m: &in_a::Module) -> (res: bool)
    ensures
        res == spec_resolve_ok(*m),
    decreases m,
{
    let n = m.items.len();
    let mut i: usize = 0;
    while i < n
        invariant
            n == m.items@.len(),
            i <= n,
            forall|k: int| 0 <= k < i ==> spec_item_resolve_ok(#[trigger] m.items@[k]),
        decreases n - i,
    {
        assert(decreases_to!(*m => m.items@[i as int])) by {
            assert(decreases_to!(*m => m.items));
            assert(decreases_to!(m.items => m.items@));
        }
        if !item_resolve_ok(&m.items[i]) {
            return false;
        }
        i = i + 1;
    }
    true
}

} // verus!
