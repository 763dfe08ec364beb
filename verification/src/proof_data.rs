//! The batch proof and its wire parts.

use vstd::prelude::*;

use crate::ahp::CircuitInfo;
use crate::field::{fe_valid, seq_fe_valid};
use crate::labels::LcLabel;
use crate::pcs::{Commitment, PcProof};
use crate::rounds::{ThirdMessage, MAX_INSTANCES};

verus! {

/// The three witness commitments of one instance.
#[derive(Clone, Debug, PartialEq, Eq)]
pub struct WitnessCommitments {
    /// Commitment to the witness slice.
    pub w: Commitment,
    /// Commitment to the `a`-matrix application.
    pub z_a: Commitment,
    /// Commitment to the `b`-matrix application.
    pub z_b: Commitment,
}

/// A proof's commitments, grouped by round and role.
#[derive(Clone, Debug, PartialEq, Eq)]
pub struct Commitments {
    /// One triple per instance, in batch order.
    pub witness_commitments: Vec<WitnessCommitments>,
    /// The zero-knowledge mask's commitment, present exactly in hiding mode.
    pub mask_poly: Option<Commitment>,
    /// The second round's first commitment.
    pub g_1: Commitment,
    /// The second round's second commitment.
    pub h_1: Commitment,
    /// The third round's `a`-aggregate commitments, one per circuit.
    pub g_a_commitments: Vec<Commitment>,
    /// The third round's `b`-aggregate commitments, one per circuit.
    pub g_b_commitments: Vec<Commitment>,
    /// The third round's `c`-aggregate commitments, one per circuit.
    pub g_c_commitments: Vec<Commitment>,
    /// The fourth round's commitment.
    pub h_2: Commitment,
}

/// One entry of the proof's ordered batch-size map.
#[derive(Clone, Copy, Debug, PartialEq, Eq, Structural)]
pub struct BatchSizeEntry {
    /// The circuit's identity hash.
    pub circuit_hash: u64,
    /// The circuit's metadata.
    pub circuit_info: CircuitInfo,
    /// How many instances of the circuit the batch holds.
    pub instance_count: usize,
}

/// The wire form of the proof's evaluations: label and value pairs, in the
/// order the combinations are opened.
#[derive(Clone, Debug, PartialEq, Eq)]
pub struct Evaluations {
    /// The labeled values.
    pub entries: Vec<(LcLabel, u64)>,
}

impl Evaluations {
    /// All carried values are reduced residues.
    pub open spec fn wf(self) -> bool {
        forall|i: int| 0 <= i < self.entries@.len() ==> fe_valid((#[trigger] self.entries@[i]).1)
    }

    /// Whether some entry carries the label.
    pub open spec fn spec_has(self, l: LcLabel) -> bool {
        exists|i: int| 0 <= i < self.entries@.len() && (#[trigger] self.entries@[i]).0 == l
    }

    /// Looks up the value under a label: the first entry carrying it.
    pub fn get(&self, l: &LcLabel) -> (r: Option<u64>)
        ensures
            r == spec_eval_lookup(self.entries@, *l),
            match r {
                Some(v) => exists|i: int|
                    0 <= i < self.entries@.len() && (#[trigger] self.entries@[i]).0 == *l
                        && self.entries@[i].1 == v && forall|j: int|
                        0 <= j < i ==> (#[trigger] self.entries@[j]).0 != *l,
                None => !self.spec_has(*l),
            },
    {
        let mut i: usize = 0;
        while i < self.entries.len()
            invariant
                i <= self.entries@.len(),
                forall|j: int| 0 <= j < i as int ==> (#[trigger] self.entries@[j]).0 != *l,
            decreases self.entries@.len() - i,
        {
            if self.entries[i].0 == *l {
                proof {
                    lemma_eval_lookup_skip(self.entries@, *l, i as int);
                }
                return Some(self.entries[i].1);
            }
            i = i + 1;
        }
        proof {
            lemma_eval_lookup_skip(self.entries@, *l, self.entries@.len() as int);
        }
        None
    }

    /// The carried values, in wire order.
    pub fn to_field_elements(&self) -> (r: Vec<u64>)
        ensures
            r@ == self.entries@.map_values(|e: (LcLabel, u64)| e.1),
    {
        let mut r: Vec<u64> = Vec::new();
        let mut i: usize = 0;
        while i < self.entries.len()
            invariant
                i <= self.entries@.len(),
                r@ =~= self.entries@.map_values(|e: (LcLabel, u64)| e.1).subrange(0, i as int),
            decreases self.entries@.len() - i,
        {
            r.push(self.entries[i].1);
            proof {
                assert(r@ =~= self.entries@.map_values(|e: (LcLabel, u64)| e.1).subrange(
                    0,
                    i as int + 1,
                ));
            }
            i = i + 1;
        }
        proof {
            let all = self.entries@.map_values(|e: (LcLabel, u64)| e.1);
            assert(all.subrange(0, all.len() as int) =~= all);
        }
        r
    }
}

/// Resolution of a label among wire entries: the value of the first entry
/// carrying it.
pub open spec fn spec_eval_lookup(entries: Seq<(LcLabel, u64)>, l: LcLabel) -> Option<u64>
    decreases entries.len(),
{
    if entries.len() == 0 {
        None
    } else if entries[0].0 == l {
        Some(entries[0].1)
    } else {
        spec_eval_lookup(entries.subrange(1, entries.len() as int), l)
    }
}

/// Resolution is unchanged by skipping a prefix that does not carry the label.
pub proof fn lemma_eval_lookup_skip(entries: Seq<(LcLabel, u64)>, l: LcLabel, i: int)
    requires
        0 <= i <= entries.len(),
        forall|j: int| 0 <= j < i ==> (#[trigger] entries[j]).0 != l,
    ensures
        spec_eval_lookup(entries, l) == spec_eval_lookup(
            entries.subrange(i, entries.len() as int),
            l,
        ),
    decreases i,
{
    if i > 0 {
        let tail = entries.subrange(1, entries.len() as int);
        lemma_eval_lookup_skip(tail, l, i - 1);
        assert(tail.subrange(i - 1, tail.len() as int) =~= entries.subrange(
            i,
            entries.len() as int,
        ));
    } else {
        assert(entries.subrange(0, entries.len() as int) =~= entries);
    }
}

/// The total instance count of a batch-size list.
pub open spec fn spec_batch_total(s: Seq<BatchSizeEntry>) -> int
    decreases s.len(),
{
    if s.len() == 0 {
        0
    } else {
        spec_batch_total(s.drop_last()) + s.last().instance_count
    }
}

/// The batch proof.
#[derive(Clone, Debug, PartialEq, Eq)]
pub struct Proof {
    /// The ordered batch-size map: circuit hash, metadata and instance count,
    /// ascending by hash.
    pub batch_sizes: Vec<BatchSizeEntry>,
    /// The commitments, grouped by round.
    pub commitments: Commitments,
    /// The opened evaluations.
    pub evaluations: Evaluations,
    /// The prover's third-round message.
    pub msg: ThirdMessage,
    /// The combination-opening proof.
    pub pc_proof: PcProof,
}

impl Proof {
    /// The batch-size map is strictly ascending by hash, every circuit has
    /// instances, and the total stays within the machine limit.
    pub open spec fn wf(self) -> bool {
        &&& forall|i: int, j: int|
            0 <= i < j < self.batch_sizes@.len()
                ==> (#[trigger] self.batch_sizes@[i]).circuit_hash
                < (#[trigger] self.batch_sizes@[j]).circuit_hash
        &&& forall|i: int|
            0 <= i < self.batch_sizes@.len() ==> (#[trigger] self.batch_sizes@[i]).instance_count
                >= 1
        &&& spec_batch_total(self.batch_sizes@) <= MAX_INSTANCES
    }

    /// The total instance count the proof covers.
    pub fn batch_size(&self) -> (r: usize)
        requires
            self.wf(),
        ensures
            r as int == spec_batch_total(self.batch_sizes@),
    {
        let mut acc: usize = 0;
        let mut i: usize = 0;
        assert(self.batch_sizes@.subrange(0, 0) =~= Seq::<BatchSizeEntry>::empty());
        proof {
            lemma_batch_total_prefix(self.batch_sizes@, 0);
        }
        while i < self.batch_sizes.len()
            invariant
                i <= self.batch_sizes@.len(),
                self.wf(),
                acc as int == spec_batch_total(self.batch_sizes@.subrange(0, i as int)),
                acc as int <= spec_batch_total(self.batch_sizes@),
            decreases self.batch_sizes@.len() - i,
        {
            proof {
                let pre = self.batch_sizes@.subrange(0, i as int + 1);
                assert(pre.drop_last() =~= self.batch_sizes@.subrange(0, i as int));
                lemma_batch_total_prefix(self.batch_sizes@, i as int + 1);
            }
            acc = acc + self.batch_sizes[i].instance_count;
            i = i + 1;
        }
        assert(self.batch_sizes@.subrange(0, self.batch_sizes@.len() as int)
            =~= self.batch_sizes@);
        acc
    }
}

/// A prefix of a batch-size list counts no more instances than the whole.
pub proof fn lemma_batch_total_prefix(s: Seq<BatchSizeEntry>, i: int)
    requires
        0 <= i <= s.len(),
    ensures
        spec_batch_total(s.subrange(0, i)) <= spec_batch_total(s),
        spec_batch_total(s.subrange(0, i)) >= 0,
    decreases s.len() - i,
{
    lemma_batch_total_nonneg(s.subrange(0, i));
    if i < s.len() {
        let pre = s.subrange(0, i + 1);
        assert(pre.drop_last() =~= s.subrange(0, i));
        lemma_batch_total_prefix(s, i + 1);
    } else {
        assert(s.subrange(0, s.len() as int) =~= s);
    }
}

/// A batch never counts negatively many instances.
pub proof fn lemma_batch_total_nonneg(s: Seq<BatchSizeEntry>)
    ensures
        spec_batch_total(s) >= 0,
    decreases s.len(),
{
    if s.len() > 0 {
        lemma_batch_total_nonneg(s.drop_last());
    }
}

} // verus!
