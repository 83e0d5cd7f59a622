//! Common syntax and utilities shared by every stage of the compiler.
use std::collections::VecDeque;
use vstd::prelude::*;
use vstd::string::StrSliceExecFns;

pub mod maps;
pub mod node_id;
pub mod position;

pub use node_id::{NodeID, NodeIdGen};
pub use position::{Position, PositionGenerator};

verus! {

/// Appends one character to a string.
#[verifier::external_body]
pub fn push_char(s: &mut String, c: char)
    ensures
        final(s)@ == old(s)@.push(c),
{
    s.push(c);
}

/// Compares two string slices character by character.
pub fn str_eq(a: &str, b: &str) -> (res: bool)
    ensures
        res == (a@ == b@),
{
    let n = a.unicode_len();
    let m = b.unicode_len();
    if n != m {
        return false;
    }
    let mut i: usize = 0;
    while i < n
        invariant
            n == a@.len(),
            m == b@.len(),
            n == m,
            i <= n,
            forall|j: int| 0 <= j < i ==> a@[j] == b@[j],
        decreases n - i,
    {
        if a.get_char(i) != b.get_char(i) {
            return false;
        }
        i = i + 1;
    }
    assert(a@ =~= b@);
    true
}

/// A string made from a literal.
pub fn string_of(s: &str) -> (res: String)
    ensures
        res@ == s@,
{
    String::from_str(s)
}

/// The character of a decimal digit.
pub open spec fn spec_digit(d: nat) -> char {
    if d == 0 {
        '0'
    } else if d == 1 {
        '1'
    } else if d == 2 {
        '2'
    } else if d == 3 {
        '3'
    } else if d == 4 {
        '4'
    } else if d == 5 {
        '5'
    } else if d == 6 {
        '6'
    } else if d == 7 {
        '7'
    } else if d == 8 {
        '8'
    } else {
        '9'
    }
}

/// The decimal representation of a number, without leading zeros.
pub open spec fn spec_decimal(n: nat) -> Seq<char>
    decreases n,
{
    if n < 10 {
        seq![spec_digit(n)]
    } else {
        spec_decimal(n / 10).push(spec_digit(n % 10))
    }
}

fn digit(d: usize) -> (res: char)
    requires
        d < 10,
    ensures
        res == spec_digit(d as nat),
{
    if d == 0 {
        '0'
    } else if d == 1 {
        '1'
    } else if d == 2 {
        '2'
    } else if d == 3 {
        '3'
    } else if d == 4 {
        '4'
    } else if d == 5 {
        '5'
    } else if d == 6 {
        '6'
    } else if d == 7 {
        '7'
    } else if d == 8 {
        '8'
    } else {
        '9'
    }
}

/// Appends the decimal representation of `n`.
pub fn write_decimal(s: &mut String, n: usize)
    ensures
        final(s)@ == old(s)@ + spec_decimal(n as nat),
    decreases n,
{
    if n >= 10 {
        write_decimal(s, n / 10);
    }
    push_char(s, digit(n % 10));
    assert(final(s)@ =~= old(s)@ + spec_decimal(n as nat));
}

/// The decimal representation of `n` as a string.
pub fn usize_to_string(n: usize) -> (res: String)
    ensures
        res@ == spec_decimal(n as nat),
{
    let mut s = String::new();
    write_decimal(&mut s, n);
    assert(s@ =~= spec_decimal(n as nat));
    s
}

/// Appends `b` to `a`.
pub fn concat(a: &str, b: &str) -> (res: String)
    ensures
        res@ == a@ + b@,
{
    let mut s = String::from_str(a);
    s.append(b);
    s
}

/// An identifier with the place it was written.
#[derive(Debug)]
pub struct Ident {
    pub data: String,
    pub pos: Position,
}

impl Clone for Ident {
    fn clone(&self) -> (res: Self)
        ensures
            res == *self,
    {
        Ident { data: self.data.clone(), pos: self.pos.clone() }
    }
}

impl Ident {
    pub fn name_str(&self) -> (res: String)
        ensures
            res@ == self.data@,
    {
        self.data.clone()
    }
}

/// The names of the identifiers of a path, in order.
pub open spec fn spec_names(ids: Seq<Ident>) -> Seq<Seq<char>> {
    ids.map_values(|id: Ident| id.data@)
}

/// The names of a path joined by `::`.
pub open spec fn spec_join(names: Seq<Seq<char>>) -> Seq<char>
    decreases names.len(),
{
    if names.len() == 0 {
        seq![]
    } else if names.len() == 1 {
        names[0]
    } else {
        spec_join(names.drop_last()) + "::"@ + names.last()
    }
}

/// A path of identifiers such as `foo::bar::baz`.
#[derive(Debug)]
pub struct Path {
    pub data: VecDeque<Ident>,
}

impl Clone for Path {
    fn clone(&self) -> (res: Self)
        ensures
            res.data@ == self.data@,
    {
        let mut data: VecDeque<Ident> = VecDeque::new();
        let n = self.data.len();
        let mut i: usize = 0;
        while i < n
            invariant
                n == self.data@.len(),
                i <= n,
                data@ == self.data@.subrange(0, i as int),
            decreases n - i,
        {
            data.push_back(self.data[i].clone());
            i = i + 1;
            assert(data@ =~= self.data@.subrange(0, i as int));
        }
        assert(data@ =~= self.data@);
        Path { data }
    }
}

impl Path {
    /// The empty path.
    pub fn empty() -> (res: Self)
        ensures
            res.data@.len() == 0,
    {
        Path { data: VecDeque::new() }
    }

    pub fn push_back(self, id: Ident) -> (res: Self)
        ensures
            res.data@ == self.data@.push(id),
    {
        let mut p = self;
        p.data.push_back(id);
        p
    }

    pub fn pop_back(self) -> (res: Self)
        ensures
            self.data@.len() == 0 ==> res.data@ == self.data@,
            self.data@.len() > 0 ==> res.data@ == self.data@.drop_last(),
    {
        let mut p = self;
        let _ = p.data.pop_back();
        p
    }

    pub fn push_inplace(&mut self, id: Ident)
        ensures
            final(self).data@ == old(self).data@.push(id),
    {
        self.data.push_back(id);
    }

    pub fn pop_inplace(&mut self)
        ensures
            old(self).data@.len() == 0 ==> final(self).data@ == old(self).data@,
            old(self).data@.len() > 0 ==> final(self).data@ == old(self).data@.drop_last(),
    {
        let _ = self.data.pop_back();
    }

    pub fn push_front_inplace(&mut self, id: Ident)
        ensures
            final(self).data@ == seq![id] + old(self).data@,
    {
        self.data.push_front(id);
    }

    pub fn pop_front_inplace(&mut self) -> (res: Option<Ident>)
        ensures
            old(self).data@.len() == 0 ==> res is None && final(self).data@ == old(self).data@,
            old(self).data@.len() > 0 ==> res == Some(old(self).data@[0]) && final(self).data@
                == old(self).data@.drop_first(),
    {
        let r = self.data.pop_front();
        proof {
            if old(self).data@.len() > 0 {
                assert(final(self).data@ =~= old(self).data@.drop_first());
            }
        }
        r
    }

    /// The last identifier of the path, if any.
    pub fn try_last(&self) -> (res: Option<&Ident>)
        ensures
            self.data@.len() == 0 ==> res is None,
            self.data@.len() > 0 ==> res == Some(&self.data@.last()),
    {
        let n = self.data.len();
        if n == 0 {
            None
        } else {
            Some(&self.data[n - 1])
        }
    }

    /// The only identifier of a one-element path.
    pub fn if_single(self) -> (res: Option<Ident>)
        ensures
            self.data@.len() == 1 ==> res == Some(self.data@[0]),
            self.data@.len() != 1 ==> res is None,
    {
        let mut p = self;
        if p.data.len() == 1 {
            p.data.pop_front()
        } else {
            None
        }
    }

    /// The path written with `::` between its names.
    pub fn to_string(&self) -> (res: String)
        ensures
            res@ == spec_join(spec_names(self.data@)),
    {
        let mut s = String::new();
        let n = self.data.len();
        let mut i: usize = 0;
        while i < n
            invariant
                n == self.data@.len(),
                i <= n,
                s@ == spec_join(spec_names(self.data@.subrange(0, i as int))),
            decreases n - i,
        {
            let ghost prev = spec_names(self.data@.subrange(0, i as int));
            let ghost next = spec_names(self.data@.subrange(0, i + 1));
            assert(next.drop_last() =~= prev);
            if i > 0 {
                s.append("::");
            }
            s.append(self.data[i].data.as_str());
            i = i + 1;
            assert(s@ =~= spec_join(next));
        }
        assert(self.data@.subrange(0, n as int) =~= self.data@);
        s
    }
}

#[derive(Debug, Copy, Clone, PartialEq, Eq, Structural)]
pub enum Visibility {
    Private,
    Public,
}

/// An attribute written before an item, such as `@extern` or `@builtin("u8")`.
#[derive(Debug)]
pub struct RAttribute {
    pub name: Ident,
    pub args: Vec<String>,
    pub pos: Position,
}

#[derive(Debug, Clone, Copy)]
pub enum Attribute {
    Builtin(BuiltinName),
    Extern,
    NoMangle,
}

#[derive(Debug, Clone, Copy)]
pub enum BuiltinName {
    TNever,
    TUnit,
    CUnit,
    TBool,
    CTrue,
    CFalse,
    TOrder,
    CLt,
    CEq,
    CGt,
    Tu8,
    Tu16,
    Tu32,
    Tu64,
    Tusize,
    Ti8,
    Ti16,
    Ti32,
    Ti64,
    Tisize,
    Fu8Add,
    Fu16Add,
    Fu32Add,
    Fu64Add,
    FusizeAdd,
    Fi8Add,
    Fi16Add,
    Fi32Add,
    Fi64Add,
    FisizeAdd,
    Fu8Sub,
    Fu16Sub,
    Fu32Sub,
    Fu64Sub,
    FusizeSub,
    Fi8Sub,
    Fi16Sub,
    Fi32Sub,
    Fi64Sub,
    FisizeSub,
    Fu8Mul,
    Fu16Mul,
    Fu32Mul,
    Fu64Mul,
    FusizeMul,
    Fi8Mul,
    Fi16Mul,
    Fi32Mul,
    Fi64Mul,
    FisizeMul,
    Fu8Div,
    Fu16Div,
    Fu32Div,
    Fu64Div,
    FusizeDiv,
    Fi8Div,
    Fi16Div,
    Fi32Div,
    Fi64Div,
    FisizeDiv,
    Fu8Cmp,
    Fu16Cmp,
    Fu32Cmp,
    Fu64Cmp,
    FusizeCmp,
    Fi8Cmp,
    Fi16Cmp,
    Fi32Cmp,
    Fi64Cmp,
    FisizeCmp,
}

} // verus!
