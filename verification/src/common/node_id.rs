use vstd::prelude::*;

verus! {

/// The first id handed out to declarations; lower ids are kept for the root and the builtin types.
pub const FIRST_GLOBAL_ID: usize = 65;

/// Id representing a top-level declaration.
#[derive(Debug, Clone, Copy, PartialEq, Eq, Structural, Hash)]
pub struct NodeID {
    pub id: usize,
}

/// Hands out fresh node ids, one after another.
pub struct NodeIdGen {
    pub next: usize,
}

impl NodeIdGen {
    pub fn new() -> (res: Self)
        ensures
            res.next == FIRST_GLOBAL_ID,
    {
        NodeIdGen { next: FIRST_GLOBAL_ID }
    }
}

/// The id of a builtin type name, if the name is one.
pub open spec fn spec_builtin_type_id(name: Seq<char>) -> Option<usize> {
    if name == "never"@ {
        Some(0)
    } else if name == "bool"@ {
        Some(1)
    } else if name == "order"@ {
        Some(2)
    } else if name == "u8"@ {
        Some(3)
    } else if name == "u16"@ {
        Some(4)
    } else if name == "u32"@ {
        Some(5)
    } else if name == "u64"@ {
        Some(6)
    } else if name == "usize"@ {
        Some(7)
    } else if name == "i8"@ {
        Some(8)
    } else if name == "i16"@ {
        Some(9)
    } else if name == "i32"@ {
        Some(10)
    } else if name == "i64"@ {
        Some(11)
    } else if name == "isize"@ {
        Some(12)
    } else {
        None
    }
}

/// Looks up the id of a builtin type name.
pub fn builtin_type_id(name: &str) -> (res: Option<usize>)
    ensures
        res == spec_builtin_type_id(name@),
{
    if super::str_eq(name, "never") {
        Some(0)
    } else if super::str_eq(name, "bool") {
        Some(1)
    } else if super::str_eq(name, "order") {
        Some(2)
    } else if super::str_eq(name, "u8") {
        Some(3)
    } else if super::str_eq(name, "u16") {
        Some(4)
    } else if super::str_eq(name, "u32") {
        Some(5)
    } else if super::str_eq(name, "u64") {
        Some(6)
    } else if super::str_eq(name, "usize") {
        Some(7)
    } else if super::str_eq(name, "i8") {
        Some(8)
    } else if super::str_eq(name, "i16") {
        Some(9)
    } else if super::str_eq(name, "i32") {
        Some(10)
    } else if super::str_eq(name, "i64") {
        Some(11)
    } else if super::str_eq(name, "isize") {
        Some(12)
    } else {
        None
    }
}

impl NodeID {
    /// Create a fresh node id.
    pub fn new_global(gen: &mut NodeIdGen) -> (res: NodeID)
        requires
            old(gen).next < usize::MAX,
        ensures
            res.id == old(gen).next,
            final(gen).next == old(gen).next + 1,
    {
        let id = gen.next;
        gen.next = gen.next + 1;
        NodeID { id }
    }

    /// Get the id of root node.
    pub fn of_root() -> (res: NodeID)
        ensures
            res.id == 0,
    {
        NodeID { id: 0 }
    }

    /// Get the actual numeric id.
    pub fn get(&self) -> (res: usize)
        ensures
            res == self.id,
    {
        self.id
    }

    /// The id of a builtin type; the name must be one of the builtin type names.
    pub fn of_builtin_type(name: &str) -> (res: NodeID)
        requires
            spec_builtin_type_id(name@) is Some,
        ensures
            res.id == spec_builtin_type_id(name@)->Some_0,
    {
        let id = builtin_type_id(name);
        match id {
            Some(id) => NodeID { id },
            None => NodeID { id: 0 },
        }
    }
}

} // verus!
