//! The environment of the direct lowering.
use vstd::prelude::*;

use crate::common::NodeID;
use crate::error::InternalError;

verus! {

pub struct Env {}

impl Env {
    pub fn new() -> (res: Self) {
        Env {  }
    }

    /// Records a declared function; not supported yet.
    pub fn add_func(&self, id: NodeID) -> (res: Result<(), InternalError>)
        ensures
            res is Err,
    {
        Err(InternalError::msg("recording functions in the environment is not supported yet"))
    }
}

} // verus!
