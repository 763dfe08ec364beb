//! Scalars of the proof system's field, with uniform sampling.

use vstd::prelude::*;

use crate::field::{fe_reduce, fe_valid};
use crate::rng::next_random_u64;

verus! {

/// A scalar field element.
#[derive(Clone, Copy, Debug, PartialEq, Eq, Hash, Structural)]
pub struct Scalar {
    /// The reduced residue.
    pub value: u64,
}

impl Scalar {
    /// The held value is a reduced residue.
    pub open spec fn wf(self) -> bool {
        fe_valid(self.value)
    }

    /// Wraps a reduced residue.
    pub fn new(value: u64) -> (s: Scalar)
        requires
            fe_valid(value),
        ensures
            s.value == value,
            s.wf(),
    {
        Scalar { value }
    }

    /// Draws a scalar from the random number generator.
    pub fn sample(rng: &mut rand::rngs::StdRng) -> (s: Scalar)
        ensures
            s.wf(),
    {
        let raw = next_random_u64(rng);
        Scalar { value: fe_reduce(raw) }
    }
}

} // verus!
