use vstd::prelude::*;

use crate::common::{string_of, Position};
use crate::error::diagnostic::{labelled_error, spec_labelled_error, Diagnostic};

verus! {

/// A type that contains itself.
pub fn resursive_types(pos: &Position) -> (res: Diagnostic)
    ensures
        spec_labelled_error(res, *pos, "recursive type"@),
{
    labelled_error(pos, string_of("recursive type"))
}

/// A type whose values would be infinitely large.
pub fn unsized_type(pos: &Position) -> (res: Diagnostic)
    ensures
        spec_labelled_error(res, *pos, "this type has infinite size"@),
{
    labelled_error(pos, string_of("this type has infinite size"))
}

} // verus!
