//! Cooperative cancellation of long prove operations.
//!
//! The prover polls the flag between every major step and inside the
//! commitment primitive; once it observes the flag set it abandons all
//! intermediate state and fails with the termination error, emitting no
//! partial proof.

use vstd::prelude::*;

verus! {

/// A cooperatively polled termination flag.
#[derive(Clone, Copy, Debug, PartialEq, Eq, Structural)]
pub struct Terminator {
    /// Whether termination was requested.
    pub flag: bool,
}

impl Terminator {
    /// A flag that is not set.
    pub fn new() -> (r: Terminator)
        ensures
            !r.flag,
    {
        Terminator { flag: false }
    }

    /// Requests termination.
    pub fn set(&mut self)
        ensures
            final(self).flag,
    {
        self.flag = true;
    }

    /// Polls the flag.
    pub fn is_set(&self) -> (r: bool)
        ensures
            r == self.flag,
    {
        self.flag
    }
}

} // verus!
