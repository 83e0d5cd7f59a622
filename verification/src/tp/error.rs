use vstd::prelude::*;

use crate::common::{spec_decimal, string_of, usize_to_string, Position};
use crate::error::diagnostic::{labelled_error, spec_labelled_error, Diagnostic};

verus! {

/// The message reporting a wrong number of type parameters.
pub open spec fn spec_type_params_mismatch_msg(exp: usize, got: usize) -> Seq<char> {
    "expected "@ + spec_decimal(exp as nat) + " type parameters, but got "@ + spec_decimal(got as nat)
}

pub fn type_params_mismatch(pos: &Position, exp: usize, got: usize) -> (res: Diagnostic)
    ensures
        spec_labelled_error(res, *pos, spec_type_params_mismatch_msg(exp, got)),
{
    let mut msg = string_of("expected ");
    msg.append(usize_to_string(exp).as_str());
    msg.append(" type parameters, but got ");
    msg.append(usize_to_string(got).as_str());
    labelled_error(pos, msg)
}

} // verus!
