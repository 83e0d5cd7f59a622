use vstd::prelude::*;

use crate::common::node_id::{builtin_type_id, spec_builtin_type_id};
use crate::symtable::layout::Type;

verus! {

#[derive(Debug, Clone, Copy, PartialEq, Eq, Structural, Hash)]
pub enum TVarKind {
    Parameter,
    Type,
    /// A type constructor taking the given (non-zero) number of parameters.
    TypeCons(usize),
}

/// A type variable.
#[derive(Debug, Clone, Copy, PartialEq, Eq, Structural, Hash)]
pub struct TVar {
    pub id: usize,
    pub kind: TVarKind,
}

/// Hands out fresh type variables; ids below its start are kept for the builtin types.
pub struct TVarGen {
    pub next: usize,
}

impl TVarGen {
    pub fn new() -> (res: Self)
        ensures
            res.next == 65,
    {
        TVarGen { next: 65 }
    }
}

/// The size in bytes of a builtin type, by its id.
pub open spec fn spec_builtin_size(id: usize) -> Option<u32> {
    if id == 0 {
        Some(42)
    } else if id == 1 || id == 2 || id == 3 || id == 8 {
        Some(1)
    } else if id == 4 || id == 9 {
        Some(2)
    } else if id == 5 || id == 10 {
        Some(4)
    } else if 6 <= id <= 7 || 11 <= id <= 12 {
        Some(8)
    } else {
        None
    }
}

/// The machine type of a builtin numeric type, by its id.
pub open spec fn spec_builtin_primitive(id: usize) -> Option<Type> {
    if id == 3 {
        Some(Type::Tu8)
    } else if id == 4 {
        Some(Type::Tu16)
    } else if id == 5 {
        Some(Type::Tu32)
    } else if id == 6 {
        Some(Type::Tu64)
    } else if id == 7 {
        Some(Type::Tusize)
    } else if id == 8 {
        Some(Type::Ti8)
    } else if id == 9 {
        Some(Type::Ti16)
    } else if id == 10 {
        Some(Type::Ti32)
    } else if id == 11 {
        Some(Type::Ti64)
    } else if id == 12 {
        Some(Type::Tisize)
    } else {
        None
    }
}

/// A builtin numeric type takes as many bytes as its machine type is wide: one for `u8` and
/// `i8`, two for the 16-bit types, four for the 32-bit ones and eight for the others.
pub proof fn lemma_builtin_size_is_width(id: usize)
    ensures
        spec_builtin_primitive(id) matches Some(p) ==> spec_builtin_size(id) == Some((p.spec_bits() / 8) as u32),
{
}

/// The machine type of a builtin named type is the one of that name: a builtin is numbered by
/// its name, and the number leads back to the machine type written the same way.
pub proof fn lemma_builtin_primitive_named(name: Seq<char>)
    ensures
        spec_builtin_type_id(name) matches Some(id) ==> (spec_builtin_primitive(id) matches Some(p) ==> p.spec_name()
            == name),
{
}

impl TVar {
    /// Create a fresh type variable.
    pub fn new(gen: &mut TVarGen, kind: TVarKind) -> (res: Self)
        requires
            old(gen).next < usize::MAX,
        ensures
            res.id == old(gen).next,
            res.kind == kind,
            final(gen).next == old(gen).next + 1,
    {
        let id = gen.next;
        gen.next = gen.next + 1;
        TVar { id, kind }
    }

    /// Returns the kind of type variable.
    pub fn kind(&self) -> (res: TVarKind)
        ensures
            res == self.kind,
    {
        self.kind
    }

    /// Returns the underlying type id.
    pub fn id(&self) -> (res: usize)
        ensures
            res == self.id,
    {
        self.id
    }

    /// Check if type variable represents numeric type.
    pub fn is_numeric(&self) -> (res: bool)
        ensures
            res == (2 < self.id < 32),
    {
        self.id > 2 && self.id < 32
    }

    /// Check if type variable represents the never type.
    pub fn is_never(&self) -> (res: bool)
        ensures
            res == (self.id == 0),
    {
        self.id == 0
    }

    /// The type variable of a builtin type; the name must be a builtin type name.
    pub fn of_builtin(name: &str) -> (res: TVar)
        requires
            spec_builtin_type_id(name@) is Some,
        ensures
            res.id == spec_builtin_type_id(name@)->Some_0,
            res.kind == TVarKind::Type,
    {
        let id = match builtin_type_id(name) {
            Some(id) => id,
            None => 0,
        };
        TVar { id, kind: TVarKind::Type }
    }

    /// Whether the variable is one of the builtin types.
    pub fn is_builtin(&self) -> (res: bool)
        ensures
            res == (self.id < 65),
    {
        self.id < 65
    }

    pub fn builtin_size(&self) -> (res: Option<u32>)
        ensures
            res == spec_builtin_size(self.id),
    {
        if self.id == 0 {
            Some(42)
        } else if self.id == 1 || self.id == 2 || self.id == 3 || self.id == 8 {
            Some(1)
        } else if self.id == 4 || self.id == 9 {
            Some(2)
        } else if self.id == 5 || self.id == 10 {
            Some(4)
        } else if (6 <= self.id && self.id <= 7) || (11 <= self.id && self.id <= 12) {
            Some(8)
        } else {
            None
        }
    }

    /// The machine type of a builtin type; `never`, `bool` and `order` have none yet.
    pub fn builtin_as_primitive(&self) -> (res: Option<Type>)
        requires
            self.id > 2,
        ensures
            res == spec_builtin_primitive(self.id),
    {
        if self.id == 3 {
            Some(Type::Tu8)
        } else if self.id == 4 {
            Some(Type::Tu16)
        } else if self.id == 5 {
            Some(Type::Tu32)
        } else if self.id == 6 {
            Some(Type::Tu64)
        } else if self.id == 7 {
            Some(Type::Tusize)
        } else if self.id == 8 {
            Some(Type::Ti8)
        } else if self.id == 9 {
            Some(Type::Ti16)
        } else if self.id == 10 {
            Some(Type::Ti32)
        } else if self.id == 11 {
            Some(Type::Ti64)
        } else if self.id == 12 {
            Some(Type::Tisize)
        } else {
            None
        }
    }
}

} // verus!
