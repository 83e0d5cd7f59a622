use vstd::prelude::*;

verus! {

/// How a value of some type is laid out in memory.
pub struct Layout {
    pub size: u32,
    pub align: u32,
    pub kind: LayoutKind,
}

/// The machine types of primitive values.
#[derive(Debug, Clone, Copy, PartialEq, Eq, Structural)]
pub enum Type {
    Tu8,
    Tu16,
    Tu32,
    Tu64,
    Tusize,
    Ti8,
    Ti16,
    Ti32,
    Ti64,
    Tisize,
}

impl Type {
    /// The width of a value of this machine type, in bits; a machine word has 64.
    pub open spec fn spec_bits(self) -> nat {
        match self {
            Type::Tu8 | Type::Ti8 => 8,
            Type::Tu16 | Type::Ti16 => 16,
            Type::Tu32 | Type::Ti32 => 32,
            Type::Tu64 | Type::Ti64 | Type::Tusize | Type::Tisize => 64,
        }
    }

    /// Whether values of this machine type are signed integers.
    pub open spec fn spec_signed(self) -> bool {
        match self {
            Type::Ti8 | Type::Ti16 | Type::Ti32 | Type::Ti64 | Type::Tisize => true,
            _ => false,
        }
    }

    /// The name of the source type this machine type stands for.
    pub open spec fn spec_name(self) -> Seq<char> {
        match self {
            Type::Tu8 => "u8"@,
            Type::Tu16 => "u16"@,
            Type::Tu32 => "u32"@,
            Type::Tu64 => "u64"@,
            Type::Tusize => "usize"@,
            Type::Ti8 => "i8"@,
            Type::Ti16 => "i16"@,
            Type::Ti32 => "i32"@,
            Type::Ti64 => "i64"@,
            Type::Tisize => "isize"@,
        }
    }
}

pub enum LayoutKind {
    Primitive(Type),
    Struct(Vec<(Layout, i32)>),
    Union(Vec<Layout>),
}

impl Layout {
    /// Whether values of this layout must live on the stack rather than in a register.
    pub fn require_stack(&self) -> (res: bool)
        ensures
            res == !(self.kind is Primitive),
    {
        match &self.kind {
            LayoutKind::Primitive(_) => false,
            LayoutKind::Struct(_) => true,
            LayoutKind::Union(_) => true,
        }
    }
}

/// A deep copy of a layout.
pub fn clone_layout(l: &Layout) -> (res: Layout)
    ensures
        res.size == l.size,
        res.align == l.align,
        res.kind is Primitive <==> l.kind is Primitive,
        l.kind is Primitive ==> res.kind == l.kind,
        l.kind is Struct ==> res.kind is Struct && res.kind->Struct_0@.len() == l.kind->Struct_0@.len(),
    decreases l,
{
    let kind = match &l.kind {
        LayoutKind::Primitive(t) => LayoutKind::Primitive(*t),
        LayoutKind::Struct(items) => {
            let mut v: Vec<(Layout, i32)> = Vec::new();
            let n = items.len();
            let mut i: usize = 0;
            while i < n
                invariant
                    n == items@.len(),
                    i <= n,
                    v@.len() == i,
                    l.kind is Struct && l.kind->Struct_0 == *items,
                decreases n - i,
            {
                let (il, off) = &items[i];
                assert(decreases_to!(*l => items@[i as int].0));
                v.push((clone_layout(il), *off));
                i = i + 1;
            }
            LayoutKind::Struct(v)
        },
        LayoutKind::Union(items) => {
            let mut v: Vec<Layout> = Vec::new();
            let n = items.len();
            let mut i: usize = 0;
            while i < n
                invariant
                    n == items@.len(),
                    i <= n,
                    v@.len() == i,
                    l.kind is Union && l.kind->Union_0 == *items,
                decreases n - i,
            {
                assert(decreases_to!(*l => items@[i as int]));
                v.push(clone_layout(&items[i]));
                i = i + 1;
            }
            LayoutKind::Union(v)
        },
    };
    Layout { size: l.size, align: l.align, kind }
}

} // verus!
