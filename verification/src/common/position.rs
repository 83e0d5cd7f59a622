use vstd::prelude::*;

verus! {

/// A span of source text: the file it comes from and a byte range in it.
#[derive(Debug)]
pub struct Position {
    pub filename: String,
    pub start: usize,
    pub end: usize,
}

impl Clone for Position {
    fn clone(&self) -> (res: Self)
        ensures
            res == *self,
    {
        Position { filename: self.filename.clone(), start: self.start, end: self.end }
    }
}

impl Position {
    pub fn new(filename: String, start: usize, end: usize) -> (res: Self)
        ensures
            res.filename == filename,
            res.start == start,
            res.end == end,
    {
        Position { filename, start, end }
    }

    /// The name under which positions that point at no file are reported.
    pub open spec fn spec_nowhere_name() -> Seq<char> {
        "<nowhere>"@
    }

    /// A position that points at no file.
    pub fn nowhere() -> (res: Self)
        ensures
            res.filename@ == Self::spec_nowhere_name(),
            res.start == 0,
            res.end == 0,
    {
        Position { filename: String::from_str("<nowhere>"), start: 0, end: 0 }
    }

    /// A generator of positions inside the given file.
    pub fn generator(filename: String) -> (res: PositionGenerator)
        ensures
            res.filename == filename,
    {
        PositionGenerator { filename }
    }
}

/// Makes positions inside one file.
#[derive(Debug)]
pub struct PositionGenerator {
    pub filename: String,
}

impl PositionGenerator {
    pub fn make(&self, start: usize, end: usize) -> (res: Position)
        ensures
            res.filename == self.filename,
            res.start == start,
            res.end == end,
    {
        Position { filename: self.filename.clone(), start, end }
    }
}

} // verus!
