//! Proving keys, verifying keys and certificates.

use vstd::prelude::*;

use crate::ahp::{spec_circuit_hash, spec_circuit_info, spec_index_polys, spec_indexable,
    CircuitInfo, IndexedCircuit};
use crate::labels::NUM_INDEX_POLYS;
use crate::pcs::{Commitment, CommitterKey, PcProof, PcsVerifierKey, EMPTY_RANDOMNESS};
use crate::r1cs::Circuit;

verus! {

/// The coefficient sequences of a list of raw commitments.
pub open spec fn raw_comm_coeffs(s: Seq<Commitment>) -> Seq<Seq<u64>> {
    s.map_values(|c: Commitment| c.coeffs@)
}

/// The circuit verifying key: the circuit's metadata, the commitments to its
/// index polynomials in canonical ascending label order, the commitment
/// scheme's verifier key, the mode tag, and the circuit's identity hash.
/// Immutable once built.
#[derive(Clone, Debug, PartialEq, Eq)]
pub struct CircuitVerifyingKey {
    /// The circuit's metadata.
    pub circuit_info: CircuitInfo,
    /// Commitments to the index polynomials, ascending by label.
    pub circuit_commitments: Vec<Commitment>,
    /// The commitment scheme's verifier key.
    pub verifier_key: PcsVerifierKey,
    /// Whether proofs under this key are zero-knowledge.
    pub zk_mode: bool,
    /// The circuit's identity.
    pub hash: u64,
}

/// The verifying key commits to exactly the canonical index polynomials of
/// the circuit: the commitment at position `i` carries the polynomial of the
/// label with canonical rank `i`, so the list is strictly ascending by label.
pub open spec fn vk_matches_circuit(vk: CircuitVerifyingKey, c: Circuit) -> bool {
    &&& spec_indexable(c)
    &&& vk.circuit_commitments@.len() == NUM_INDEX_POLYS
    &&& raw_comm_coeffs(vk.circuit_commitments@) == spec_index_polys(c)
    &&& vk.circuit_info == spec_circuit_info(c)
    &&& vk.hash == spec_circuit_hash(c)
}

impl CircuitVerifyingKey {
    /// The key holds one commitment per index polynomial, and its metadata
    /// respects the machine limit the input domain needs.
    pub open spec fn wf(self) -> bool {
        &&& self.circuit_commitments@.len() == NUM_INDEX_POLYS
        &&& forall|i: int|
            0 <= i < self.circuit_commitments@.len() ==> (
            #[trigger] self.circuit_commitments@[i]).wf()
        &&& self.circuit_info.num_public_inputs <= crate::domain::MAX_DOMAIN_INPUT
    }
}

/// The circuit proving key: the indexed circuit, the randomness its index
/// commitments were made with, a snapshot of the verifying key, and the
/// committer key.
#[derive(Clone, Debug)]
pub struct CircuitProvingKey {
    /// The indexed circuit.
    pub circuit: IndexedCircuit,
    /// The randomness of the index-polynomial commitments: all empty, since
    /// index commitments never hide.
    pub circuit_commitment_randomness: Vec<u64>,
    /// The verifying key, embedded as a value.
    pub circuit_verifying_key: CircuitVerifyingKey,
    /// The committer key.
    pub committer_key: CommitterKey,
}

impl CircuitProvingKey {
    /// The key is an honest product of setup: the index is canonical, the
    /// verifying key matches the circuit, and the index commitment randomness
    /// is entirely empty.
    pub open spec fn wf(self) -> bool {
        &&& self.circuit.wf()
        &&& vk_matches_circuit(self.circuit_verifying_key, self.circuit.circuit)
        &&& self.circuit_commitment_randomness@.len() == NUM_INDEX_POLYS
        &&& forall|i: int|
            0 <= i < self.circuit_commitment_randomness@.len()
                ==> #[trigger] self.circuit_commitment_randomness@[i] == EMPTY_RANDOMNESS
    }
}

/// A succinct certificate that a verifying key corresponds to a circuit.
#[derive(Clone, Copy, Debug, PartialEq, Eq, Structural)]
pub struct Certificate {
    /// The combination-opening proof over the index polynomials.
    pub pc_proof: PcProof,
}

impl Certificate {
    /// Wraps an opening proof.
    pub fn new(pc_proof: PcProof) -> (r: Certificate)
        ensures
            r.pc_proof == pc_proof,
    {
        Certificate { pc_proof }
    }
}

/// In a verifying key that matches its circuit, the commitments stand in
/// strictly ascending canonical label order: position `i` carries the index
/// polynomial whose label has rank `i`.
pub proof fn lemma_commitment_ordering(vk: CircuitVerifyingKey, c: Circuit)
    requires
        vk_matches_circuit(vk, c),
    ensures
        vk.circuit_commitments@.len() == NUM_INDEX_POLYS,
        forall|i: int|
            0 <= i < NUM_INDEX_POLYS as int ==> (#[trigger] vk.circuit_commitments@[i]).coeffs@
                == spec_index_polys(c)[i],
        forall|i: int, j: int|
            0 <= i < j < NUM_INDEX_POLYS as int ==> crate::labels::spec_index_label_rank(
                crate::labels::spec_index_label_of_rank(i),
            ) < crate::labels::spec_index_label_rank(crate::labels::spec_index_label_of_rank(j)),
{
    assert forall|i: int|
        0 <= i < NUM_INDEX_POLYS as int implies (#[trigger] vk.circuit_commitments@[i]).coeffs@
        == spec_index_polys(c)[i] by {
        assert(raw_comm_coeffs(vk.circuit_commitments@)[i] == vk.circuit_commitments@[i].coeffs@);
    }
}

} // verus!
