use vstd::prelude::*;

use crate::common::{concat, string_of, Position};
use crate::error::diagnostic::{labelled_error, spec_labelled_error, Diagnostic};

verus! {

pub fn already_bound(pos: &Position, name: String) -> (res: Diagnostic)
    ensures
        spec_labelled_error(res, *pos, name@ + " is already bound"@),
{
    labelled_error(pos, concat(name.as_str(), " is already bound"))
}

pub fn self_on_free_function(pos: &Position) -> (res: Diagnostic)
    ensures
        spec_labelled_error(res, *pos, "invalid self parameter on a free function"@),
{
    labelled_error(pos, string_of("invalid self parameter on a free function"))
}

pub fn function_with_no_body(pos: &Position) -> (res: Diagnostic)
    ensures
        spec_labelled_error(res, *pos, "local function without a body"@),
{
    labelled_error(pos, string_of("local function without a body"))
}

pub fn field_duplicate(pos: &Position, name: String) -> (res: Diagnostic)
    ensures
        spec_labelled_error(res, *pos, "field `"@ + name@ + "` initialized more than once"@),
{
    labelled_error(pos, concat(concat("field `", name.as_str()).as_str(), "` initialized more than once"))
}

pub fn expected_type_got_var(pos: &Position) -> (res: Diagnostic)
    ensures
        spec_labelled_error(res, *pos, "expected type, found variable"@),
{
    labelled_error(pos, string_of("expected type, found variable"))
}

pub fn local_type(pos: &Position) -> (res: Diagnostic)
    ensures
        spec_labelled_error(res, *pos, "this is a local type"@),
{
    labelled_error(pos, string_of("this is a local type"))
}

} // verus!
