//! Signal handling utilities.

use vstd::prelude::*;

verus! {

/// Handles signal operations for processes.
pub struct SignalHandler;

impl SignalHandler {
    /// The target that addresses a whole process group: the negated ID of the
    /// process that leads it.
    pub fn group_target(pgid: i32) -> (r: i32)
        requires
            pgid != i32::MIN,
        ensures
            r == -pgid,
    {
        -pgid
    }
}

} // verus!
