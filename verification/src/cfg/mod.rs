//! Building control-flow graphs from flat functions; not done yet.
use vstd::prelude::*;

pub mod ast;

use crate::error::InternalError;
use crate::flatten::ast as in_a;

verus! {

/// The control-flow graphs of a flat program; none can be built yet.
pub fn translate(prog: in_a::Program) -> (res: Result<ast::Program, InternalError>)
    ensures
        res is Err,
{
    Err(InternalError::msg("control-flow graphs are not built yet"))
}

} // verus!
