use vstd::prelude::*;

use crate::common::Position;

verus! {

/// Severity of a diagnostic.
///
/// Any error aborts compilation.
#[derive(Debug, Clone, Copy, PartialEq, Eq, Structural)]
pub enum Severity {
    Error,
    Warning,
}

/// A problem found in the user's code.
pub struct Diagnostic {
    pub severity: Severity,
    pub labels: Vec<Label>,
    pub notes: Vec<String>,
    pub pos: Position,
}

impl Diagnostic {
    /// An error at `pos`, with no labels and no notes yet.
    pub fn error(pos: &Position) -> (res: Diagnostic)
        ensures
            res.severity == Severity::Error,
            res.pos == *pos,
            res.labels@.len() == 0,
            res.notes@.len() == 0,
    {
        Diagnostic { severity: Severity::Error, pos: pos.clone(), labels: Vec::new(), notes: Vec::new() }
    }

    pub fn with_label(self, label: Label) -> (res: Self)
        ensures
            res.severity == self.severity,
            res.pos == self.pos,
            res.labels@ == self.labels@.push(label),
            res.notes@ == self.notes@,
    {
        let mut d = self;
        d.labels.push(label);
        d
    }

    pub fn with_note(self, note: String) -> (res: Diagnostic)
        ensures
            res.severity == self.severity,
            res.pos == self.pos,
            res.labels@ == self.labels@,
            res.notes@ == self.notes@.push(note),
    {
        let mut d = self;
        d.notes.push(note);
        d
    }
}

/// Label included with a diagnostic.
pub struct Label {
    pub pos: Position,
    pub msg: String,
}

impl Label {
    /// The message of a label that was given none.
    pub open spec fn spec_default_msg() -> Seq<char> {
        "<no message for this error>"@
    }

    pub fn new(pos: &Position) -> (res: Self)
        ensures
            res.pos == *pos,
            res.msg@ == Self::spec_default_msg(),
    {
        Label { pos: pos.clone(), msg: String::from_str("<no message for this error>") }
    }

    pub fn with_msg(self, msg: String) -> (res: Self)
        ensures
            res.pos == self.pos,
            res.msg == msg,
    {
        Label { pos: self.pos, msg }
    }
}

/// An error at `pos` whose single label, at the same place, says `msg`.
pub open spec fn spec_labelled_error(d: Diagnostic, pos: Position, msg: Seq<char>) -> bool {
    &&& d.severity == Severity::Error
    &&& d.pos == pos
    &&& d.labels@.len() == 1
    &&& d.labels@[0].pos == pos
    &&& d.labels@[0].msg@ == msg
    &&& d.notes@.len() == 0
}

/// Builds an error at `pos` whose single label says `msg`.
pub fn labelled_error(pos: &Position, msg: String) -> (res: Diagnostic)
    ensures
        spec_labelled_error(res, *pos, msg@),
{
    Diagnostic::error(pos).with_label(Label::new(pos).with_msg(msg))
}

} // verus!
