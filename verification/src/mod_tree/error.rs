use vstd::prelude::*;

use crate::common::{concat, Position};
use crate::error::diagnostic::{labelled_error, spec_labelled_error, Diagnostic};

verus! {

pub fn missing_module(pos: &Position, name: String) -> (res: Diagnostic)
    ensures
        spec_labelled_error(res, *pos, "missing module: "@ + name@),
{
    labelled_error(pos, concat("missing module: ", name.as_str()))
}

pub fn unbound_variable(pos: &Position, name: String) -> (res: Diagnostic)
    ensures
        spec_labelled_error(res, *pos, "unbound variable: "@ + name@),
{
    labelled_error(pos, concat("unbound variable: ", name.as_str()))
}

pub fn ambiguous_symbol(pos: &Position, name: String) -> (res: Diagnostic)
    ensures
        spec_labelled_error(res, *pos, name@ + " is ambiguous"@),
{
    labelled_error(pos, concat(name.as_str(), " is ambiguous"))
}

pub fn cannot_import_from(pos: &Position, name: String) -> (res: Diagnostic)
    ensures
        spec_labelled_error(res, *pos, "cannot import from "@ + name@),
{
    labelled_error(pos, concat("cannot import from ", name.as_str()))
}

pub fn private_item(pos: &Position, name: String) -> (res: Diagnostic)
    ensures
        spec_labelled_error(res, *pos, name@ + " is private"@),
{
    labelled_error(pos, concat(name.as_str(), " is private"))
}

pub fn already_bound(pos: &Position, name: String) -> (res: Diagnostic)
    ensures
        spec_labelled_error(res, *pos, name@ + " is already bound"@),
{
    labelled_error(pos, concat(name.as_str(), " is already bound"))
}

} // verus!
