use vstd::prelude::*;

use crate::common::{concat, Position};
use crate::error::diagnostic::{Diagnostic, Label};

pub mod context;
pub mod diagnostic;

verus! {

/// An error of the compiler itself, not of the compiled code.
#[derive(Debug)]
pub enum InternalError {
    Any,
    AnyMsg(String),
}

impl InternalError {
    /// An internal error carrying a message.
    pub fn msg(s: &str) -> (res: InternalError)
        ensures
            res matches InternalError::AnyMsg(m) && m@ == s@,
    {
        InternalError::AnyMsg(String::from_str(s))
    }
}

/// A syntax error found by the parser.
pub enum ParsingError {
    InvalidToken { pos: Position },
    UnrecognizedEof { pos: Position, expected: Vec<String> },
    UnrecognizedToken { pos: Position, token: String, expected: Vec<String> },
    ExtraToken { pos: Position, token: String },
}

/// The names joined by newlines.
pub open spec fn spec_join_lines(names: Seq<String>) -> Seq<char>
    decreases names.len(),
{
    if names.len() == 0 {
        seq![]
    } else if names.len() == 1 {
        names[0]@
    } else {
        spec_join_lines(names.drop_last()) + "\n"@ + names.last()@
    }
}

/// Joins the names with newlines.
pub fn join_lines(names: &Vec<String>) -> (res: String)
    ensures
        res@ == spec_join_lines(names@),
{
    let mut s = String::new();
    let n = names.len();
    let mut i: usize = 0;
    while i < n
        invariant
            n == names@.len(),
            i <= n,
            s@ == spec_join_lines(names@.subrange(0, i as int)),
        decreases n - i,
    {
        assert(names@.subrange(0, i + 1).drop_last() =~= names@.subrange(0, i as int));
        if i > 0 {
            s.append("\n");
        }
        s.append(names[i].as_str());
        i = i + 1;
    }
    assert(names@.subrange(0, n as int) =~= names@);
    s
}

/// The diagnostic that reports a parsing error: its message, and the tokens expected there.
pub open spec fn spec_parsing_diagnostic(e: ParsingError, d: Diagnostic) -> bool {
    match e {
        ParsingError::InvalidToken { pos } => {
            &&& d.pos == pos
            &&& d.labels@.len() == 1 && d.labels@[0].pos == pos
            &&& d.labels@[0].msg@ == "Invalid token"@
            &&& d.notes@.len() == 0
        },
        ParsingError::UnrecognizedEof { pos, expected } => {
            &&& d.pos == pos
            &&& d.labels@.len() == 1 && d.labels@[0].pos == pos
            &&& d.labels@[0].msg@ == "Unexpected end-of-file."@
            &&& d.notes@.len() == 1
            &&& d.notes@[0]@ == "Expected one of:\n"@ + spec_join_lines(expected@)
        },
        ParsingError::UnrecognizedToken { pos, token, expected } => {
            &&& d.pos == pos
            &&& d.labels@.len() == 1 && d.labels@[0].pos == pos
            &&& d.labels@[0].msg@ == "Unexpected token: "@ + token@
            &&& d.notes@.len() == 1
            &&& d.notes@[0]@ == "Expected one of:\n"@ + spec_join_lines(expected@)
        },
        ParsingError::ExtraToken { pos, token } => {
            &&& d.pos == pos
            &&& d.labels@.len() == 1 && d.labels@[0].pos == pos
            &&& d.labels@[0].msg@ == "Unexpected token: "@ + token@
            &&& d.notes@.len() == 0
        },
    }
}

impl Diagnostic {
    /// The diagnostic reporting a parsing error.
    pub fn from_parsing_error(value: ParsingError) -> (res: Diagnostic)
        ensures
            res.severity == diagnostic::Severity::Error,
            spec_parsing_diagnostic(value, res),
    {
        match value {
            ParsingError::InvalidToken { pos } => Diagnostic::error(&pos).with_label(
                Label::new(&pos).with_msg(String::from_str("Invalid token")),
            ),
            ParsingError::UnrecognizedEof { pos, expected } => {
                let note = concat("Expected one of:\n", join_lines(&expected).as_str());
                Diagnostic::error(&pos).with_label(
                    Label::new(&pos).with_msg(String::from_str("Unexpected end-of-file.")),
                ).with_note(note)
            },
            ParsingError::UnrecognizedToken { pos, token, expected } => {
                let note = concat("Expected one of:\n", join_lines(&expected).as_str());
                Diagnostic::error(&pos).with_label(
                    Label::new(&pos).with_msg(concat("Unexpected token: ", token.as_str())),
                ).with_note(note)
            },
            ParsingError::ExtraToken { pos, token } => Diagnostic::error(&pos).with_label(
                Label::new(&pos).with_msg(concat("Unexpected token: ", token.as_str())),
            ),
        }
    }
}

} // verus!
