//! The algebraic sponge that carries the Fiat-Shamir transcript.
//!
//! The sponge is a single field element of state. Absorbing an item first
//! mixes a domain tag for the item's kind, then folds the item in; squeezing
//! mixes a squeeze tag and hands out the new state. Every operation is a
//! deterministic function of the prior state and the absorbed values, which is
//! what makes prover and verifier transcripts agree exactly when their
//! absorption sequences agree.

use vstd::prelude::*;

use crate::field::{fe_add, fe_mul, fe_reduce, fe_valid, seq_fe_valid, spec_fe_add, spec_fe_mul,
    spec_fe_reduce};

verus! {

/// Multiplier folded into the state on every absorption.
pub const SPONGE_MIX: u64 = 1103515245;

/// Domain tag mixed in before a byte string.
pub const TAG_BYTES: u64 = 2;

/// Domain tag mixed in before native field elements.
pub const TAG_NATIVE: u64 = 3;

/// Domain tag mixed in before non-native field elements.
pub const TAG_NONNATIVE: u64 = 5;

/// Domain tag mixed in by each squeeze.
pub const TAG_SQUEEZE: u64 = 7;

/// One absorption step: mix the state and fold in one value.
pub open spec fn spec_absorb_one(state: u64, x: u64) -> u64 {
    spec_fe_add(spec_fe_mul(spec_fe_reduce(state), SPONGE_MIX), spec_fe_reduce(x))
}

/// Absorbing a sequence of values, left to right.
pub open spec fn spec_absorb_elems(state: u64, s: Seq<u64>) -> u64
    decreases s.len(),
{
    if s.len() == 0 {
        state
    } else {
        spec_absorb_one(spec_absorb_elems(state, s.drop_last()), s.last())
    }
}

/// The state after a tagged absorption of a whole sequence.
pub open spec fn spec_absorb_tagged(state: u64, tag: u64, s: Seq<u64>) -> u64 {
    spec_absorb_elems(spec_absorb_one(state, tag), s)
}

/// The state after `k` squeezes.
pub open spec fn spec_squeeze_state(state: u64, k: nat) -> u64
    decreases k,
{
    if k == 0 {
        state
    } else {
        spec_absorb_one(spec_squeeze_state(state, (k - 1) as nat), TAG_SQUEEZE)
    }
}

/// A byte sequence widened to sponge inputs.
pub open spec fn spec_bytes_as_elems(s: Seq<u8>) -> Seq<u64> {
    s.map_values(|b: u8| b as u64)
}

/// The Fiat-Shamir sponge.
pub struct Sponge {
    /// Current state, always a reduced residue.
    pub state: u64,
}

impl Sponge {
    /// The state is a field element.
    pub open spec fn wf(self) -> bool {
        fe_valid(self.state)
    }

    /// Fresh sponge from the sponge parameters.
    pub fn new(parameters: u64) -> (s: Sponge)
        ensures
            s.state == spec_fe_reduce(parameters),
            s.wf(),
    {
        Sponge { state: fe_reduce(parameters) }
    }

    fn absorb_one(&mut self, x: u64)
        requires
            old(self).wf(),
        ensures
            final(self).state == spec_absorb_one(old(self).state, x),
            final(self).wf(),
    {
        self.state = fe_add(fe_mul(self.state, SPONGE_MIX), fe_reduce(x));
    }

    fn absorb_elems(&mut self, s: &Vec<u64>)
        requires
            old(self).wf(),
        ensures
            final(self).state == spec_absorb_elems(old(self).state, s@),
            final(self).wf(),
    {
        let ghost init = self.state;
        let mut i: usize = 0;
        assert(s@.subrange(0, 0) =~= Seq::<u64>::empty());
        while i < s.len()
            invariant
                i <= s@.len(),
                self.wf(),
                self.state == spec_absorb_elems(init, s@.subrange(0, i as int)),
            decreases s@.len() - i,
        {
            proof {
                let pre = s@.subrange(0, i as int + 1);
                assert(pre.drop_last() =~= s@.subrange(0, i as int));
            }
            self.absorb_one(s[i]);
            i = i + 1;
        }
        assert(s@.subrange(0, s@.len() as int) =~= s@);
    }

    /// Absorbs a byte string under the byte domain tag.
    pub fn absorb_bytes(&mut self, bytes: &Vec<u8>)
        requires
            old(self).wf(),
        ensures
            final(self).state == spec_absorb_tagged(
                old(self).state,
                TAG_BYTES,
                spec_bytes_as_elems(bytes@),
            ),
            final(self).wf(),
    {
        self.absorb_one(TAG_BYTES);
        let ghost init = self.state;
        let mut i: usize = 0;
        assert(spec_bytes_as_elems(bytes@).subrange(0, 0) =~= Seq::<u64>::empty());
        while i < bytes.len()
            invariant
                i <= bytes@.len(),
                self.wf(),
                self.state == spec_absorb_elems(init, spec_bytes_as_elems(bytes@).subrange(0, i as int)),
            decreases bytes@.len() - i,
        {
            proof {
                let all = spec_bytes_as_elems(bytes@);
                let pre = all.subrange(0, i as int + 1);
                assert(pre.drop_last() =~= all.subrange(0, i as int));
                assert(pre.last() == bytes@[i as int] as u64);
            }
            self.absorb_one(bytes[i] as u64);
            i = i + 1;
        }
        assert(spec_bytes_as_elems(bytes@).subrange(0, bytes@.len() as int) =~= spec_bytes_as_elems(
            bytes@,
        ));
    }

    /// Absorbs field elements of the sponge's own field.
    pub fn absorb_native_field_elements(&mut self, elems: &Vec<u64>)
        requires
            old(self).wf(),
        ensures
            final(self).state == spec_absorb_tagged(old(self).state, TAG_NATIVE, elems@),
            final(self).wf(),
    {
        self.absorb_one(TAG_NATIVE);
        self.absorb_elems(elems);
    }

    /// Absorbs field elements of the scalar field.
    pub fn absorb_nonnative_field_elements(&mut self, elems: &Vec<u64>)
        requires
            old(self).wf(),
        ensures
            final(self).state == spec_absorb_tagged(old(self).state, TAG_NONNATIVE, elems@),
            final(self).wf(),
    {
        self.absorb_one(TAG_NONNATIVE);
        self.absorb_elems(elems);
    }

    /// Draws `n` challenge field elements of the scalar field.
    pub fn squeeze_nonnative_field_elements(&mut self, n: usize) -> (r: Vec<u64>)
        requires
            old(self).wf(),
        ensures
            r@.len() == n as int,
            forall|i: int|
                0 <= i < n as int ==> r@[i] == spec_squeeze_state(old(self).state, (i + 1) as nat),
            final(self).state == spec_squeeze_state(old(self).state, n as nat),
            final(self).wf(),
            seq_fe_valid(r@),
    {
        let ghost init = self.state;
        let mut r: Vec<u64> = Vec::new();
        let mut i: usize = 0;
        while i < n
            invariant
                i <= n,
                self.wf(),
                self.state == spec_squeeze_state(init, i as nat),
                r@.len() == i as int,
                forall|j: int| 0 <= j < i as int ==> r@[j] == spec_squeeze_state(init, (j + 1) as nat),
                seq_fe_valid(r@),
            decreases n - i,
        {
            self.absorb_one(TAG_SQUEEZE);
            r.push(self.state);
            i = i + 1;
        }
        r
    }
}

} // verus!
