//! Randomness sources for the prover.
//!
//! The prover's zero-knowledge randomness comes from a seeded generator whose
//! stream is a pure function of its state, so that a proof is a deterministic
//! function of its inputs and the seed. Sampling of scalars outside the proof
//! pipeline draws from rand's `StdRng` through a trusted wrapper.

use vstd::prelude::*;

use crate::field::{fe_add, fe_mul, fe_reduce, fe_valid, spec_fe_add, spec_fe_mul, spec_fe_reduce};

verus! {

/// Multiplier of the generator's step.
pub const RNG_MULT: u64 = 48271;

/// Increment of the generator's step.
pub const RNG_INC: u64 = 11;

/// The state reached after one step.
pub open spec fn spec_rng_step(state: u64) -> u64 {
    spec_fe_add(spec_fe_mul(spec_fe_reduce(state), RNG_MULT), RNG_INC)
}

/// A deterministic generator of field elements for proof randomness.
pub struct ProofRng {
    /// Current state, always a reduced residue.
    pub state: u64,
}

impl ProofRng {
    /// The state is a field element.
    pub open spec fn wf(self) -> bool {
        fe_valid(self.state)
    }

    /// A generator seeded from an arbitrary machine word.
    pub fn from_seed(seed: u64) -> (r: ProofRng)
        ensures
            r.state == spec_fe_reduce(seed),
            r.wf(),
    {
        ProofRng { state: fe_reduce(seed) }
    }

    /// Draws the next field element.
    pub fn next_field_element(&mut self) -> (r: u64)
        requires
            old(self).wf(),
        ensures
            final(self).state == spec_rng_step(old(self).state),
            r == final(self).state,
            final(self).wf(),
            fe_valid(r),
    {
        self.state = fe_add(fe_mul(fe_reduce(self.state), RNG_MULT), RNG_INC);
        self.state
    }

    /// Draws a nonzero field element.
    pub fn next_nonzero_field_element(&mut self) -> (r: u64)
        requires
            old(self).wf(),
        ensures
            final(self).state == spec_rng_step(old(self).state),
            r == if spec_rng_step(old(self).state) == 0u64 {
                1u64
            } else {
                spec_rng_step(old(self).state)
            },
            final(self).wf(),
            fe_valid(r),
            r != 0u64,
    {
        let v = self.next_field_element();
        if v == 0 {
            1
        } else {
            v
        }
    }
}

#[verifier::external_type_specification]
#[verifier::external_body]
pub struct ExStdRng(rand::rngs::StdRng);

/// Relies on rand's `RngCore::next_u64` for `StdRng`: returns the generator's
/// next 64 random bits, advancing its state.
#[verifier::external_body]
pub fn next_random_u64(rng: &mut rand::rngs::StdRng) -> (r: u64) {
    rand::RngCore::next_u64(rng)
}

} // verus!
