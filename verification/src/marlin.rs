//! The Marlin proof system's orchestration layer.
//!
//! Setup trims universal parameters per circuit and commits to its index
//! polynomials; the prover drives the four rounds of the holographic proof,
//! committing and absorbing each round's oracles in a fixed transcript order
//! and opening one combination per committed polynomial; the verifier replays
//! the same transcript from the proof and delegates the algebraic check to
//! the commitment scheme. A certificate subprotocol proves that a verifying
//! key commits to the index polynomials of a stated circuit.

use vstd::prelude::*;

use crate::ahp::{index, evaluate_index_polynomials, spec_index_polys, spec_indexable,
    spec_max_degree, IndexedCircuit};
use crate::domain::{domain_size, pad_public_input, MAX_DOMAIN_INPUT};
use crate::errors::SnarkError;
use crate::field::{fe_add, fe_mul, fe_valid, seq_fe_valid, spec_fe_add, spec_fe_mul,
    spec_fe_reduce};
use crate::keys::{raw_comm_coeffs, vk_matches_circuit, Certificate, CircuitProvingKey,
    CircuitVerifyingKey};
use crate::labels::{index_label_of_rank, spec_index_label_of_rank, spec_index_label_rank,
    LcLabel, PointName, PolyLabel, NUM_INDEX_POLYS};
use crate::pcs::{all_comms_wf, all_lcs_wf, all_polys_wf, check_combinations, comm_coeff_seqs, comm_labels,
    commit, lemma_find_coeffs_at, open_combinations, poly_coeff_seqs, poly_labels, spec_combine,
    spec_find_coeffs, spec_lc_evals, spec_lc_terms_eval, trim, Commitment, LabeledCommitment,
    LabeledPolynomial, LinearCombination, PcProof, Query, UniversalSrs, EMPTY_RANDOMNESS,
};
use crate::poly::{clone_u64_vec, spec_poly_eval};
use crate::r1cs::Circuit;
use crate::rng::ProofRng;
use crate::rounds::ThirdMessage;
use crate::sponge::{spec_absorb_tagged, spec_bytes_as_elems, spec_squeeze_state, Sponge,
    TAG_BYTES, TAG_NONNATIVE};
use crate::terminator::Terminator;

verus! {

/// The key pair setup produces for a circuit: an honest proving key, and
/// verifying keys (standalone and embedded) that match the circuit and carry
/// the mode tag.
#[verifier::opaque]
pub open spec fn spec_setup_keys_ok(
    pk: CircuitProvingKey,
    vk: CircuitVerifyingKey,
    c: Circuit,
    zk: bool,
) -> bool {
    &&& pk.wf()
    &&& pk.circuit.circuit == c
    &&& vk_matches_circuit(vk, c)
    &&& vk_matches_circuit(pk.circuit_verifying_key, c)
    &&& vk.zk_mode == zk
    &&& pk.circuit_verifying_key.zk_mode == zk
    &&& vk.wf()
    &&& vk.verifier_key.max_degree as nat == spec_max_degree(c)
    &&& pk.committer_key.max_degree as nat == spec_max_degree(c)
    &&& pk.committer_key.supported_hiding_bound == 1
    &&& pk.committer_key.enforced_degree_bounds@ == seq![
        crate::domain::spec_domain_size(crate::ahp::spec_circuit_info(c).num_constraints as nat) as usize,
    ]
    &&& pk.circuit_verifying_key.verifier_key == vk.verifier_key
    &&& pk.circuit_verifying_key.circuit_info == vk.circuit_info
    &&& pk.circuit_verifying_key.hash == vk.hash
    &&& raw_comm_coeffs(pk.circuit_verifying_key.circuit_commitments@) == raw_comm_coeffs(
        vk.circuit_commitments@,
    )
}

/// What the setup predicate packs together, spelled out.
pub proof fn lemma_setup_keys_ok_unfold(
    pk: CircuitProvingKey,
    vk: CircuitVerifyingKey,
    c: Circuit,
    zk: bool,
)
    requires
        spec_setup_keys_ok(pk, vk, c, zk),
    ensures
        pk.wf(),
        pk.circuit.circuit == c,
        vk_matches_circuit(vk, c),
        vk_matches_circuit(pk.circuit_verifying_key, c),
        vk.zk_mode == zk,
        pk.circuit_verifying_key.zk_mode == zk,
        vk.wf(),
        vk.verifier_key.max_degree as nat == spec_max_degree(c),
        pk.committer_key.max_degree as nat == spec_max_degree(c),
        pk.committer_key.supported_hiding_bound == 1,
        pk.circuit_verifying_key.verifier_key == vk.verifier_key,
        pk.circuit_verifying_key.circuit_info == vk.circuit_info,
        pk.circuit_verifying_key.hash == vk.hash,
        raw_comm_coeffs(pk.circuit_verifying_key.circuit_commitments@) == raw_comm_coeffs(
            vk.circuit_commitments@,
        ),
{
    reveal(spec_setup_keys_ok);
}

/// The total instance count of per-circuit assignment lists.
pub open spec fn spec_assign_total(s: Seq<Vec<Vec<u64>>>) -> int
    decreases s.len(),
{
    if s.len() == 0 {
        0
    } else {
        spec_assign_total(s.drop_last()) + s.last()@.len()
    }
}

/// A prefix of the assignment lists counts no more instances than the whole.
pub proof fn lemma_assign_total_prefix(s: Seq<Vec<Vec<u64>>>, i: int)
    requires
        0 <= i <= s.len(),
    ensures
        spec_assign_total(s.subrange(0, i)) <= spec_assign_total(s),
        spec_assign_total(s.subrange(0, i)) >= 0,
    decreases s.len() - i,
{
    lemma_assign_total_nonneg(s.subrange(0, i));
    if i < s.len() {
        let pre = s.subrange(0, i + 1);
        assert(pre.drop_last() =~= s.subrange(0, i));
        lemma_assign_total_prefix(s, i + 1);
    } else {
        assert(s.subrange(0, s.len() as int) =~= s);
    }
}

/// When every circuit has at least one instance, the total counts at least
/// the circuits.
pub proof fn lemma_assign_total_ge_len(s: Seq<Vec<Vec<u64>>>)
    requires
        forall|ci: int| 0 <= ci < s.len() ==> (#[trigger] s[ci])@.len() >= 1,
    ensures
        spec_assign_total(s) >= s.len(),
    decreases s.len(),
{
    if s.len() > 0 {
        lemma_assign_total_ge_len(s.drop_last());
    }
}

/// Assignment lists never count negatively many instances.
pub proof fn lemma_assign_total_nonneg(s: Seq<Vec<Vec<u64>>>)
    ensures
        spec_assign_total(s) >= 0,
    decreases s.len(),
{
    if s.len() > 0 {
        lemma_assign_total_nonneg(s.drop_last());
    }
}

/// The inputs a batch prover accepts: honest keys in strictly ascending hash
/// order, one assignment list per key, a shared mode, and a total within the
/// machine limit.
pub open spec fn spec_prover_batch_wf(
    keys: Seq<CircuitProvingKey>,
    assignments: Seq<Vec<Vec<u64>>>,
) -> bool {
    &&& keys.len() == assignments.len()
    &&& forall|i: int| 0 <= i < keys.len() ==> (#[trigger] keys[i]).wf()
    &&& forall|i: int, j: int|
        0 <= i < j < keys.len() ==> (#[trigger] keys[i]).circuit.hash
            < (#[trigger] keys[j]).circuit.hash
    &&& forall|i: int|
        0 <= i < keys.len() ==> (#[trigger] keys[i]).circuit_verifying_key.zk_mode
            == keys[0].circuit_verifying_key.zk_mode
    &&& spec_assign_total(assignments) <= crate::rounds::MAX_INSTANCES
}

/// Every circuit of the batch has at least one instance, and every instance
/// fits its circuit.
pub open spec fn spec_batch_instances_ok(
    keys: Seq<CircuitProvingKey>,
    assignments: Seq<Vec<Vec<u64>>>,
) -> bool {
    forall|ci: int|
        0 <= ci < keys.len() ==> (#[trigger] assignments[ci])@.len() >= 1
            && crate::rounds::all_instances_ok(keys[ci].circuit, assignments[ci]@)
}

/// The first failure setup meets walking the circuits in order: the
/// invalid-circuit error on the first circuit the indexer refuses, or the
/// too-large error, carrying the supported and the needed degree, on the
/// first circuit the parameters cannot be grown to.
pub open spec fn spec_setup_first_error(circuits: Seq<Circuit>, srs: UniversalSrs) -> Option<
    SnarkError,
>
    decreases circuits.len(),
{
    if circuits.len() == 0 {
        None
    } else if !spec_indexable(circuits[0]) {
        Some(SnarkError::InvalidCircuit)
    } else if spec_max_degree(circuits[0]) > srs.max_capacity {
        Some(
            SnarkError::IndexTooLarge(srs.max_degree, spec_max_degree(circuits[0]) as usize),
        )
    } else {
        spec_setup_first_error(circuits.subrange(1, circuits.len() as int), srs)
    }
}

/// The first setup failure is unchanged by skipping a prefix of circuits that
/// index and fit.
pub proof fn lemma_setup_first_error_skip(circuits: Seq<Circuit>, srs: UniversalSrs, i: int)
    requires
        0 <= i <= circuits.len(),
        forall|j: int|
            0 <= j < i ==> spec_indexable(#[trigger] circuits[j]) && spec_max_degree(circuits[j])
                <= srs.max_capacity,
    ensures
        spec_setup_first_error(circuits, srs) == spec_setup_first_error(
            circuits.subrange(i, circuits.len() as int),
            srs,
        ),
    decreases i,
{
    if i > 0 {
        let tail = circuits.subrange(1, circuits.len() as int);
        lemma_setup_first_error_skip(tail, srs, i - 1);
        assert(tail.subrange(i - 1, tail.len() as int) =~= circuits.subrange(
            i,
            circuits.len() as int,
        ));
    } else {
        assert(circuits.subrange(0, circuits.len() as int) =~= circuits);
    }
}

/// The label of the `i`-th first-round oracle: the witness triples, one per
/// instance in batch order.
pub open spec fn spec_witness_label(i: int) -> PolyLabel {
    if i % 3 == 0 {
        PolyLabel::Witness(crate::labels::WitnessKind::W, (i / 3) as usize)
    } else if i % 3 == 1 {
        PolyLabel::Witness(crate::labels::WitnessKind::ZA, (i / 3) as usize)
    } else {
        PolyLabel::Witness(crate::labels::WitnessKind::ZB, (i / 3) as usize)
    }
}

/// The label of the `i`-th third-round oracle: per-circuit triples.
pub open spec fn spec_third_label(i: int) -> PolyLabel {
    if i % 3 == 0 {
        PolyLabel::GA((i / 3) as usize)
    } else if i % 3 == 1 {
        PolyLabel::GB((i / 3) as usize)
    } else {
        PolyLabel::GC((i / 3) as usize)
    }
}

/// The canonical labels of a batch's committed polynomials, in opening order:
/// per-circuit index polynomials, per-instance witness triples, the mask in
/// hiding mode, the second round's pair, per-circuit third-round triples, and
/// the fourth round's polynomial.
pub open spec fn spec_batch_labels(ncirc: int, total: int, zk: bool) -> Seq<PolyLabel> {
    Seq::new(
        (12 * ncirc) as nat,
        |i: int| PolyLabel::Index((i / 12) as usize, spec_index_label_of_rank(i % 12)),
    ) + Seq::new((3 * total) as nat, |i: int| spec_witness_label(i)) + (if zk {
        seq![PolyLabel::MaskPoly]
    } else {
        Seq::<PolyLabel>::empty()
    }) + seq![PolyLabel::G1, PolyLabel::H1] + Seq::new(
        (3 * ncirc) as nat,
        |i: int| spec_third_label(i),
    ) + seq![PolyLabel::H2]
}

/// The coefficients the verifier's index commitments carry, flattened across
/// the batch.
pub open spec fn spec_index_group(vks: Seq<CircuitVerifyingKey>) -> Seq<Seq<u64>> {
    Seq::new(
        (12 * vks.len()) as nat,
        |i: int| vks[i / 12].circuit_commitments@[i % 12].coeffs@,
    )
}

/// The coefficients of the proof's first-round commitments: the witness
/// triples, then the mask in hiding mode.
pub open spec fn spec_first_group(proof: crate::proof_data::Proof, total: int, zk: bool) -> Seq<
    Seq<u64>,
> {
    Seq::new(
        (3 * total) as nat,
        |i: int|
            {
                let wc = proof.commitments.witness_commitments@[i / 3];
                if i % 3 == 0 {
                    wc.w.coeffs@
                } else if i % 3 == 1 {
                    wc.z_a.coeffs@
                } else {
                    wc.z_b.coeffs@
                }
            },
    ) + (if zk {
        seq![
            match proof.commitments.mask_poly {
                Some(m) => m.coeffs@,
                None => Seq::<u64>::empty(),
            },
        ]
    } else {
        Seq::<Seq<u64>>::empty()
    })
}

/// The coefficients of the proof's second-round commitments.
pub open spec fn spec_second_group(proof: crate::proof_data::Proof) -> Seq<Seq<u64>> {
    seq![proof.commitments.g_1.coeffs@, proof.commitments.h_1.coeffs@]
}

/// The coefficients of the proof's third-round commitments, chunked per
/// circuit.
pub open spec fn spec_third_group(proof: crate::proof_data::Proof, ncirc: int) -> Seq<Seq<u64>> {
    Seq::new(
        (3 * ncirc) as nat,
        |i: int|
            if i % 3 == 0 {
                proof.commitments.g_a_commitments@[i / 3].coeffs@
            } else if i % 3 == 1 {
                proof.commitments.g_b_commitments@[i / 3].coeffs@
            } else {
                proof.commitments.g_c_commitments@[i / 3].coeffs@
            },
    )
}

/// The coefficients of the proof's fourth-round commitment.
pub open spec fn spec_fourth_group(proof: crate::proof_data::Proof) -> Seq<Seq<u64>> {
    seq![proof.commitments.h_2.coeffs@]
}

/// The full commitment coefficient list the verifier checks against, in
/// opening order.
pub open spec fn spec_batch_coeffs(
    vks: Seq<CircuitVerifyingKey>,
    proof: crate::proof_data::Proof,
    total: int,
    zk: bool,
) -> Seq<Seq<u64>> {
    spec_index_group(vks) + spec_first_group(proof, total, zk) + spec_second_group(proof)
        + spec_third_group(proof, vks.len() as int) + spec_fourth_group(proof)
}

/// The padded public inputs of a batch, per circuit and instance.
pub open spec fn spec_padded_views(
    vks: Seq<CircuitVerifyingKey>,
    inputs: Seq<Vec<Vec<u64>>>,
) -> Seq<Seq<Seq<u64>>> {
    Seq::new(
        vks.len(),
        |ci: int|
            Seq::new(
                inputs[ci]@.len(),
                |k: int|
                    crate::domain::spec_pad_input(
                        inputs[ci]@[k]@,
                        vks[ci].circuit_info.num_public_inputs as nat,
                    ),
            ),
    )
}

/// The canonical batch labels are pairwise distinct.
pub proof fn lemma_batch_labels_distinct(ncirc: int, total: int, zk: bool)
    requires
        0 <= ncirc <= 0x8000,
        0 <= total <= 0x8000,
    ensures
        forall|i: int, j: int|
            0 <= i < j < spec_batch_labels(ncirc, total, zk).len()
                ==> spec_batch_labels(ncirc, total, zk)[i] != spec_batch_labels(
                ncirc,
                total,
                zk,
            )[j],
{
    let labels = spec_batch_labels(ncirc, total, zk);
    let b0 = 12 * ncirc;
    let b1 = b0 + 3 * total;
    let b2 = b1 + if zk {
        1int
    } else {
        0int
    };
    let b3 = b2 + 2;
    let b4 = b3 + 3 * ncirc;
    assert forall|k: int| 0 <= k < labels.len() implies #[trigger] labels[k] == (if k < b0 {
        PolyLabel::Index((k / 12) as usize, spec_index_label_of_rank(k % 12))
    } else if k < b1 {
        spec_witness_label(k - b0)
    } else if k < b2 {
        PolyLabel::MaskPoly
    } else if k == b2 {
        PolyLabel::G1
    } else if k == b2 + 1 {
        PolyLabel::H1
    } else if k < b4 {
        spec_third_label(k - b3)
    } else {
        PolyLabel::H2
    }) by {}
    assert forall|i: int, j: int|
        0 <= i < j < labels.len() implies labels[i] != labels[j] by {
        if i < b0 && j < b0 {
            assert(i == 12 * (i / 12) + i % 12);
            assert(j == 12 * (j / 12) + j % 12);
            assert(0 <= i / 12 < 0x8000 && 0 <= j / 12 < 0x8000);
            assert(spec_index_label_rank(spec_index_label_of_rank(i % 12)) == i % 12);
            assert(spec_index_label_rank(spec_index_label_of_rank(j % 12)) == j % 12);
        } else if b0 <= i < b1 && b0 <= j < b1 {
            let i2 = i - b0;
            let j2 = j - b0;
            assert(i2 == 3 * (i2 / 3) + i2 % 3);
            assert(j2 == 3 * (j2 / 3) + j2 % 3);
            assert(0 <= i2 / 3 < 0x8000 && 0 <= j2 / 3 < 0x8000);
        } else if b3 <= i < b4 && b3 <= j < b4 {
            let i2 = i - b3;
            let j2 = j - b3;
            assert(i2 == 3 * (i2 / 3) + i2 % 3);
            assert(j2 == 3 * (j2 / 3) + j2 % 3);
            assert(0 <= i2 / 3 < 0x8000 && 0 <= j2 / 3 < 0x8000);
        }
    }
}

/// How universal parameters are supplied to setup: a fresh circuit-sized
/// trusted setup (testing only), or caller-provided universal parameters.
pub enum SRS {
    /// Perform a fresh setup sized to the circuit.
    CircuitSpecific,
    /// Use the supplied universal parameters.
    Universal(UniversalSrs),
}

/// The proof system.
pub struct MarlinSNARK {}

/// The sponge state after absorbing a list of commitments, one commitment's
/// coefficients at a time, as native field elements.
pub open spec fn spec_absorb_comms(state: u64, comm_coeffs: Seq<Seq<u64>>) -> u64 {
    crate::ahp::spec_absorb_coeff_seqs(state, comm_coeffs)
}

/// The sponge state after absorbing a third-round message: each circuit's
/// claimed sums, one non-native triple per circuit in batch order.
pub open spec fn spec_absorb_sums(state: u64, sums: Seq<crate::rounds::MatrixSums>) -> u64
    decreases sums.len(),
{
    if sums.len() == 0 {
        state
    } else {
        spec_absorb_tagged(
            spec_absorb_sums(state, sums.drop_last()),
            TAG_NONNATIVE,
            seq![sums.last().sum_a, sums.last().sum_b, sums.last().sum_c],
        )
    }
}

/// The sponge state after absorbing the batch's instance counts, each as
/// eight little-endian bytes, in batch order.
pub open spec fn spec_absorb_counts(state: u64, counts: Seq<usize>) -> u64
    decreases counts.len(),
{
    if counts.len() == 0 {
        state
    } else {
        spec_absorb_tagged(
            spec_absorb_counts(state, counts.drop_last()),
            TAG_BYTES,
            spec_bytes_as_elems(crate::rounds::spec_u64_le(counts.last() as u64)),
        )
    }
}

/// The sponge state after absorbing each circuit's commitment list in batch
/// order.
pub open spec fn spec_absorb_comm_lists(state: u64, lists: Seq<Seq<Seq<u64>>>) -> u64
    decreases lists.len(),
{
    if lists.len() == 0 {
        state
    } else {
        spec_absorb_comms(spec_absorb_comm_lists(state, lists.drop_last()), lists.last())
    }
}

/// The sponge state after absorbing one circuit's padded inputs, one
/// non-native vector per instance in order.
pub open spec fn spec_absorb_instance_inputs(state: u64, list: Seq<Seq<u64>>) -> u64
    decreases list.len(),
{
    if list.len() == 0 {
        state
    } else {
        spec_absorb_tagged(
            spec_absorb_instance_inputs(state, list.drop_last()),
            TAG_NONNATIVE,
            list.last(),
        )
    }
}

/// The sponge state after absorbing every circuit's padded inputs, in batch
/// order.
pub open spec fn spec_absorb_all_inputs(state: u64, inputs: Seq<Seq<Seq<u64>>>) -> u64
    decreases inputs.len(),
{
    if inputs.len() == 0 {
        state
    } else {
        spec_absorb_instance_inputs(
            spec_absorb_all_inputs(state, inputs.drop_last()),
            inputs.last(),
        )
    }
}

/// The state of a fresh proof transcript, in the normative order: the
/// protocol name; each circuit's instance count as eight little-endian bytes;
/// each circuit's index commitments as native field elements; each instance's
/// padded public input as non-native field elements.
pub open spec fn spec_init_sponge_state(
    fs: u64,
    counts: Seq<usize>,
    comm_lists: Seq<Seq<Seq<u64>>>,
    inputs: Seq<Seq<Seq<u64>>>,
) -> u64 {
    spec_absorb_all_inputs(
        spec_absorb_comm_lists(
            spec_absorb_counts(
                spec_absorb_tagged(
                    spec_fe_reduce(fs),
                    TAG_BYTES,
                    spec_bytes_as_elems(MarlinSNARK::spec_protocol_name()),
                ),
                counts,
            ),
            comm_lists,
        ),
        inputs,
    )
}

/// The instance counts of a batch-size list.
pub open spec fn batch_counts(s: Seq<crate::proof_data::BatchSizeEntry>) -> Seq<usize> {
    s.map_values(|e: crate::proof_data::BatchSizeEntry| e.instance_count)
}

/// The coefficient views of a list of commitment lists.
pub open spec fn comm_list_views(s: Seq<Vec<Commitment>>) -> Seq<Seq<Seq<u64>>> {
    s.map_values(|v: Vec<Commitment>| raw_comm_coeffs(v@))
}

/// The views of a per-circuit, per-instance vector family.
pub open spec fn input_views(s: Seq<Vec<Vec<u64>>>) -> Seq<Seq<Seq<u64>>> {
    s.map_values(|v: Vec<Vec<u64>>| v@.map_values(|x: Vec<u64>| x@))
}

/// The state of a fresh certificate transcript: the protocol name, then the
/// verifying key's commitments.
pub open spec fn spec_cert_init_state(fs: u64, comm_coeffs: Seq<Seq<u64>>) -> u64 {
    spec_absorb_comms(
        spec_absorb_tagged(
            spec_fe_reduce(fs),
            TAG_BYTES,
            spec_bytes_as_elems(MarlinSNARK::spec_protocol_name()),
        ),
        comm_coeffs,
    )
}

/// The certificate transcript's evaluation point: the last of the squeezed
/// challenges.
pub open spec fn spec_cert_point(fs: u64, comm_coeffs: Seq<Seq<u64>>) -> u64 {
    spec_squeeze_state(spec_cert_init_state(fs, comm_coeffs), NUM_INDEX_POLYS as nat)
}

/// The certificate combination's coefficients: a leading one, then the first
/// eleven squeezed challenges.
pub open spec fn spec_cert_combo_coeffs(fs: u64, comm_coeffs: Seq<Seq<u64>>) -> Seq<u64> {
    Seq::new(
        NUM_INDEX_POLYS as nat,
        |i: int|
            if i == 0 {
                1u64
            } else {
                spec_squeeze_state(spec_cert_init_state(fs, comm_coeffs), i as nat)
            },
    )
}

/// The canonical labels of the index polynomials of the circuit at batch
/// position zero.
pub open spec fn spec_cert_labels() -> Seq<PolyLabel> {
    Seq::new(NUM_INDEX_POLYS as nat, |i: int| PolyLabel::Index(0, spec_index_label_of_rank(i)))
}

/// The certificate combination's value: the coefficient-weighted sum of the
/// polynomials' evaluations at the point.
pub open spec fn spec_cert_lc_value(cs: Seq<u64>, polys: Seq<Seq<u64>>, point: u64) -> u64
    decreases cs.len(),
{
    if cs.len() == 0 {
        0u64
    } else {
        spec_fe_add(
            spec_cert_lc_value(cs.drop_last(), polys, point),
            spec_fe_mul(cs.last(), spec_poly_eval(polys[cs.len() - 1], point)),
        )
    }
}

/// The certificate an honest prover produces over commitments holding these
/// coefficient sequences.
pub open spec fn spec_cert_proof(fs: u64, comm_coeffs: Seq<Seq<u64>>) -> PcProof {
    let point = spec_cert_point(fs, comm_coeffs);
    let cs = spec_cert_combo_coeffs(fs, comm_coeffs);
    let v = spec_cert_lc_value(cs, comm_coeffs, point);
    let s1 = spec_absorb_tagged(spec_cert_point(fs, comm_coeffs), TAG_NONNATIVE, seq![v]);
    let gamma = spec_squeeze_state(s1, 1);
    PcProof { combined: spec_combine(seq![v], gamma), hiding: false }
}

/// What checking a certificate decides: the combination's value over the
/// verifying key's commitments, the honest evaluation over the index
/// polynomials, and the proof's aggregate all have to agree.
pub open spec fn spec_cert_verdict(
    fs: u64,
    comm_coeffs: Seq<Seq<u64>>,
    c: Circuit,
    pc: PcProof,
) -> bool {
    let point = spec_cert_point(fs, comm_coeffs);
    let cs = spec_cert_combo_coeffs(fs, comm_coeffs);
    let claimed = spec_cert_lc_value(cs, spec_index_polys(c), point);
    let recomputed = spec_cert_lc_value(cs, comm_coeffs, point);
    let s1 = spec_absorb_tagged(point, TAG_NONNATIVE, seq![claimed]);
    let gamma = spec_squeeze_state(s1, 1);
    recomputed == claimed && pc.combined == spec_combine(seq![claimed], gamma)
}

/// Certificate round trip: over a verifying key whose commitments hold
/// exactly the circuit's index polynomials, the honest certificate always
/// verifies.
pub proof fn lemma_certificate_round_trip(fs: u64, c: Circuit)
    requires
        spec_indexable(c),
    ensures
        spec_cert_verdict(
            fs,
            spec_index_polys(c),
            c,
            spec_cert_proof(fs, spec_index_polys(c)),
        ),
{
}

/// The canonical certificate labels are pairwise distinct.
pub proof fn lemma_cert_labels_distinct()
    ensures
        forall|i: int, j: int|
            0 <= i < j < NUM_INDEX_POLYS as int ==> spec_cert_labels()[i] != spec_cert_labels()[j],
{
    assert forall|i: int, j: int|
        0 <= i < j < NUM_INDEX_POLYS as int implies spec_cert_labels()[i]
        != spec_cert_labels()[j] by {
        assert(spec_index_label_rank(spec_index_label_of_rank(i)) == i);
        assert(spec_index_label_rank(spec_index_label_of_rank(j)) == j);
    }
}

/// A combination whose term at each position pairs the position's coefficient
/// with the position's label evaluates to the coefficient-weighted sum.
pub proof fn lemma_cert_lc_eval(
    labels: Seq<PolyLabel>,
    coeffs: Seq<Seq<u64>>,
    terms: Seq<(u64, PolyLabel)>,
    cs: Seq<u64>,
    point: u64,
)
    requires
        labels.len() == coeffs.len(),
        terms.len() == cs.len(),
        cs.len() <= labels.len(),
        forall|i: int| 0 <= i < terms.len() ==> terms[i] == (cs[i], labels[i]),
        forall|i: int, j: int| 0 <= i < j < labels.len() ==> labels[i] != labels[j],
    ensures
        spec_lc_terms_eval(labels, coeffs, terms, point) == Result::<u64, SnarkError>::Ok(
            spec_cert_lc_value(cs, coeffs, point),
        ),
    decreases terms.len(),
{
    if terms.len() > 0 {
        let k = terms.len() - 1;
        lemma_cert_lc_eval(labels, coeffs, terms.drop_last(), cs.drop_last(), point);
        assert(forall|j: int| 0 <= j < k ==> labels[j] != labels[k]);
        lemma_find_coeffs_at(labels, coeffs, k);
        assert(terms.last() == (cs[k], labels[k]));
        assert(spec_find_coeffs(labels, coeffs, terms.last().1) == Some(coeffs[k]));
    }
}

impl MarlinSNARK {
    /// The protocol's personalization string as sponge bytes.
    pub open spec fn spec_protocol_name() -> Seq<u8> {
        seq![77u8, 65u8, 82u8, 76u8, 73u8, 78u8, 45u8, 50u8, 48u8, 49u8, 57u8]
    }

    /// The protocol's personalization string, `MARLIN-2019` in ASCII.
    pub fn protocol_name() -> (r: Vec<u8>)
        ensures
            r@ == Self::spec_protocol_name(),
    {
        let mut r: Vec<u8> = Vec::new();
        r.push(77);
        r.push(65);
        r.push(82);
        r.push(76);
        r.push(73);
        r.push(78);
        r.push(45);
        r.push(50);
        r.push(48);
        r.push(49);
        r.push(57);
        assert(r@ =~= Self::spec_protocol_name());
        r
    }

    /// Observes the termination flag: the termination error exactly when it
    /// is set.
    fn terminate(terminator: &Terminator) -> (r: Result<(), SnarkError>)
        ensures
            terminator.flag ==> r == Result::<(), SnarkError>::Err(SnarkError::Terminated),
            !terminator.flag ==> r is Ok,
    {
        if terminator.is_set() {
            Err(SnarkError::Terminated)
        } else {
            Ok(())
        }
    }

    /// Performs a universal setup supporting polynomials up to `max_degree`.
    pub fn universal_setup(max_degree: usize) -> (r: UniversalSrs)
        ensures
            r.max_degree == max_degree,
            r.max_capacity == max_degree,
            r.wf(),
    {
        crate::pcs::load_srs(max_degree)
    }

    /// Generates proving and verifying keys for each circuit against the
    /// universal parameters, in the input order.
    ///
    /// Succeeds exactly when every circuit is indexable and its degree
    /// requirement fits within the parameters' growth ceiling.
    #[verifier::rlimit(100)]
    pub fn batch_circuit_setup(srs: &UniversalSrs, circuits: Vec<Circuit>, zk: bool) -> (r: Result<
        (Vec<CircuitProvingKey>, Vec<CircuitVerifyingKey>),
        SnarkError,
    >)
        requires
            srs.wf(),
        ensures
            (r is Ok) <==> (forall|i: int|
                0 <= i < circuits@.len() ==> spec_indexable(#[trigger] circuits@[i])
                    && spec_max_degree(circuits@[i]) <= srs.max_capacity),
            (r is Ok) <==> spec_setup_first_error(circuits@, *srs) is None,
            r matches Err(e) ==> spec_setup_first_error(circuits@, *srs) == Some(e),
            r matches Ok(keys) ==> {
                &&& keys.0@.len() == circuits@.len()
                &&& keys.1@.len() == circuits@.len()
                &&& forall|i: int|
                    0 <= i < circuits@.len() ==> spec_setup_keys_ok(
                        #[trigger] keys.0@[i],
                        keys.1@[i],
                        circuits@[i],
                        zk,
                    )
            },
    {
        let ghost orig = circuits@;
        let mut rest = circuits;
        let n_circuits = rest.len();
        let mut proving_keys: Vec<CircuitProvingKey> = Vec::new();
        let mut verifying_keys: Vec<CircuitVerifyingKey> = Vec::new();
        let mut i: usize = 0;
        while rest.len() > 0
            invariant
                srs.wf(),
                circuits@ == orig,
                n_circuits as int == orig.len(),
                i <= orig.len(),
                i as int + rest@.len() == orig.len(),
                rest@ =~= orig.subrange(i as int, orig.len() as int),
                proving_keys@.len() == i as int,
                verifying_keys@.len() == i as int,
                forall|j: int|
                    0 <= j < i as int ==> spec_indexable(#[trigger] orig[j]) && spec_max_degree(
                        orig[j],
                    ) <= srs.max_capacity,
                forall|j: int|
                    0 <= j < i as int ==> spec_setup_keys_ok(
                        #[trigger] proving_keys@[j],
                        verifying_keys@[j],
                        orig[j],
                        zk,
                    ),
            decreases rest@.len(),
        {
            let circuit = rest.remove(0);
            assert(circuit == orig[i as int]);
            proof {
                assert(rest@ =~= orig.subrange(i as int + 1, orig.len() as int));
            }
            let (pk, vk) = match Self::setup_one_circuit(srs, circuit, zk) {
                Ok(k) => k,
                Err(e) => {
                    assert(!(spec_indexable(circuits@[i as int]) && spec_max_degree(
                        circuits@[i as int],
                    ) <= srs.max_capacity));
                    proof {
                        lemma_setup_first_error_skip(circuits@, *srs, i as int);
                        let tail = circuits@.subrange(i as int, circuits@.len() as int);
                        assert(tail[0] == circuits@[i as int]);
                        assert(spec_setup_first_error(circuits@, *srs) == Some(e));
                    }
                    return Err(e);
                },
            };
            proving_keys.push(pk);
            verifying_keys.push(vk);
            i = i + 1;
        }
        assert(orig.subrange(0, orig.len() as int) =~= orig);
        proof {
            lemma_setup_first_error_skip(circuits@, *srs, circuits@.len() as int);
            assert(circuits@.subrange(circuits@.len() as int, circuits@.len() as int)
                =~= Seq::<Circuit>::empty());
        }
        Ok((proving_keys, verifying_keys))
    }

    /// Generates the key pair of one circuit against the universal
    /// parameters.
    ///
    /// Succeeds exactly when the circuit is indexable and its degree
    /// requirement fits within the parameters' growth ceiling.
    #[verifier::rlimit(100)]
    #[verifier::spinoff_prover]
    fn setup_one_circuit(srs: &UniversalSrs, circuit: Circuit, zk: bool) -> (r: Result<
        (CircuitProvingKey, CircuitVerifyingKey),
        SnarkError,
    >)
        requires
            srs.wf(),
        ensures
            (r is Ok) <==> (spec_indexable(circuit) && spec_max_degree(circuit)
                <= srs.max_capacity),
            !spec_indexable(circuit) ==> r == Result::<
                (CircuitProvingKey, CircuitVerifyingKey),
                SnarkError,
            >::Err(SnarkError::InvalidCircuit),
            spec_indexable(circuit) && spec_max_degree(circuit) > srs.max_capacity ==> r
                == Result::<(CircuitProvingKey, CircuitVerifyingKey), SnarkError>::Err(
                SnarkError::IndexTooLarge(srs.max_degree, spec_max_degree(circuit) as usize),
            ),
            r matches Ok(keys) ==> spec_setup_keys_ok(keys.0, keys.1, circuit, zk),
    {
        let ghost gc = circuit;
        let indexed = match index(circuit) {
            Ok(ic) => ic,
            Err(e) => {
                return Err(e);
            },
        };
        if srs.max_degree < indexed.max_degree {
            if !srs.download_powers_for(indexed.max_degree) {
                return Err(SnarkError::IndexTooLarge(srs.max_degree, indexed.max_degree));
            }
        }
        assert(spec_max_degree(gc) <= srs.max_capacity);
        let mut bounds: Vec<usize> = Vec::new();
        bounds.push(domain_size(indexed.info.num_constraints));
        let (committer_key, pcs_verifier_key) = match trim(srs, indexed.max_degree, bounds, 1) {
            Ok(k) => k,
            Err(e) => {
                assert(false);
                return Err(e);
            },
        };
        let index_polys = Self::labeled_index_polys(&indexed, 0);
        let mut commit_rng = ProofRng::from_seed(0);
        let (labeled_comms, randomness) = commit(&committer_key, &index_polys, &mut commit_rng);
        let circuit_commitments = Self::strip_labels(&labeled_comms);
        let circuit_commitments_copy = Self::strip_labels(&labeled_comms);
        proof {
            assert(raw_comm_coeffs(circuit_commitments@) =~= spec_index_polys(gc));
            assert(raw_comm_coeffs(circuit_commitments_copy@) =~= spec_index_polys(gc));
        }
        let verifying_key = CircuitVerifyingKey {
            circuit_info: indexed.info,
            circuit_commitments,
            verifier_key: pcs_verifier_key,
            zk_mode: zk,
            hash: indexed.hash,
        };
        let embedded_key = CircuitVerifyingKey {
            circuit_info: indexed.info,
            circuit_commitments: circuit_commitments_copy,
            verifier_key: pcs_verifier_key,
            zk_mode: zk,
            hash: indexed.hash,
        };
        let proving_key = CircuitProvingKey {
            circuit: indexed,
            circuit_commitment_randomness: randomness,
            circuit_verifying_key: embedded_key,
            committer_key,
        };
        proof {
            reveal(spec_setup_keys_ok);
        }
        Ok((proving_key, verifying_key))
    }

    /// The indexed circuit's polynomials under their labels at batch position
    /// `pos`, committed without hiding.
    fn labeled_index_polys(indexed: &IndexedCircuit, pos: usize) -> (r: Vec<LabeledPolynomial>)
        requires
            indexed.wf(),
        ensures
            r@.len() == NUM_INDEX_POLYS,
            forall|k: int|
                0 <= k < NUM_INDEX_POLYS as int ==> {
                    &&& (#[trigger] r@[k]).label == PolyLabel::Index(
                        pos,
                        spec_index_label_of_rank(k),
                    )
                    &&& r@[k].coeffs@ == spec_index_polys(indexed.circuit)[k]
                    &&& !r@[k].hiding
                    &&& r@[k].wf()
                },
    {
        let mut r: Vec<LabeledPolynomial> = Vec::new();
        let mut k: usize = 0;
        while k < NUM_INDEX_POLYS
            invariant
                k <= NUM_INDEX_POLYS,
                indexed.wf(),
                r@.len() == k as int,
                forall|j: int|
                    0 <= j < k as int ==> {
                        &&& (#[trigger] r@[j]).label == PolyLabel::Index(
                            pos,
                            spec_index_label_of_rank(j),
                        )
                        &&& r@[j].coeffs@ == spec_index_polys(indexed.circuit)[j]
                        &&& !r@[j].hiding
                        &&& r@[j].wf()
                    },
            decreases NUM_INDEX_POLYS - k,
        {
            proof {
                assert(indexed.index_polys@.map_values(|p: Vec<u64>| p@)[k as int]
                    == indexed.index_polys@[k as int]@);
                crate::ahp::lemma_index_polys_valid(indexed.circuit, k as int);
            }
            let coeffs = clone_u64_vec(&indexed.index_polys[k]);
            r.push(
                LabeledPolynomial {
                    label: PolyLabel::Index(pos, index_label_of_rank(k)),
                    coeffs,
                    hiding: false,
                },
            );
            k = k + 1;
        }
        r
    }

    /// Strips the labels off a commitment list.
    fn strip_labels(comms: &Vec<LabeledCommitment>) -> (r: Vec<Commitment>)
        ensures
            r@.len() == comms@.len(),
            forall|k: int|
                0 <= k < comms@.len() ==> (#[trigger] r@[k]).coeffs@
                    == comms@[k].commitment.coeffs@,
    {
        let mut r: Vec<Commitment> = Vec::new();
        let mut k: usize = 0;
        while k < comms.len()
            invariant
                k <= comms@.len(),
                r@.len() == k as int,
                forall|j: int|
                    0 <= j < k as int ==> (#[trigger] r@[j]).coeffs@
                        == comms@[j].commitment.coeffs@,
            decreases comms@.len() - k,
        {
            r.push(Commitment { coeffs: clone_u64_vec(&comms[k].commitment.coeffs) });
            k = k + 1;
        }
        r
    }

    /// Generates the proving and verifying key of one circuit against
    /// universal parameters.
    pub fn circuit_setup(srs: &UniversalSrs, circuit: Circuit, zk: bool) -> (r: Result<
        (CircuitProvingKey, CircuitVerifyingKey),
        SnarkError,
    >)
        requires
            srs.wf(),
        ensures
            (r is Ok) <==> (spec_indexable(circuit) && spec_max_degree(circuit)
                <= srs.max_capacity),
            !spec_indexable(circuit) ==> r == Result::<
                (CircuitProvingKey, CircuitVerifyingKey),
                SnarkError,
            >::Err(SnarkError::InvalidCircuit),
            spec_indexable(circuit) && spec_max_degree(circuit) > srs.max_capacity ==> r
                == Result::<(CircuitProvingKey, CircuitVerifyingKey), SnarkError>::Err(
                SnarkError::IndexTooLarge(srs.max_degree, spec_max_degree(circuit) as usize),
            ),
            r matches Ok(keys) ==> spec_setup_keys_ok(keys.0, keys.1, circuit, zk),
    {
        let ghost gc = circuit;
        let mut circuits: Vec<Circuit> = Vec::new();
        circuits.push(circuit);
        proof {
            assert(circuits@[0] == gc);
            assert(circuits@.subrange(1, 1) =~= Seq::<Circuit>::empty());
        }
        let (mut pks, mut vks) = match Self::batch_circuit_setup(srs, circuits, zk) {
            Ok(k) => k,
            Err(e) => {
                return Err(e);
            },
        };
        let pk = pks.remove(0);
        let vk = vks.remove(0);
        Ok((pk, vk))
    }

    /// Generates circuit-specific keys by a fresh trusted setup sized exactly
    /// to the circuit. For testing only; production callers supply universal
    /// parameters.
    pub fn circuit_specific_setup(circuit: Circuit, zk: bool) -> (r: Result<
        (CircuitProvingKey, CircuitVerifyingKey),
        SnarkError,
    >)
        ensures
            (r is Ok) <==> spec_indexable(circuit),
            !spec_indexable(circuit) ==> r == Result::<
                (CircuitProvingKey, CircuitVerifyingKey),
                SnarkError,
            >::Err(SnarkError::InvalidCircuit),
            r matches Ok(keys) ==> spec_setup_keys_ok(keys.0, keys.1, circuit, zk),
    {
        if !(circuit.num_variables <= MAX_DOMAIN_INPUT && circuit.a.len() <= MAX_DOMAIN_INPUT) {
            return Err(SnarkError::InvalidCircuit);
        }
        let nc = circuit.a.len();
        let nv = circuit.num_variables;
        let larger = if nc >= nv {
            nc
        } else {
            nv
        };
        let max_degree = domain_size(larger);
        let srs = Self::universal_setup(max_degree);
        Self::circuit_setup(&srs, circuit, zk)
    }

    /// Generates keys from a setup choice: a fresh circuit-specific setup, or
    /// the supplied universal parameters.
    pub fn setup(circuit: Circuit, srs: &SRS, zk: bool) -> (r: Result<
        (CircuitProvingKey, CircuitVerifyingKey),
        SnarkError,
    >)
        requires
            srs matches SRS::Universal(u) ==> u.wf(),
        ensures
            srs is CircuitSpecific ==> {
                &&& ((r is Ok) <==> spec_indexable(circuit))
                &&& (!spec_indexable(circuit) ==> r == Result::<
                    (CircuitProvingKey, CircuitVerifyingKey),
                    SnarkError,
                >::Err(SnarkError::InvalidCircuit))
            },
            srs matches SRS::Universal(u) ==> {
                &&& ((r is Ok) <==> (spec_indexable(circuit) && spec_max_degree(circuit)
                    <= u.max_capacity))
                &&& (!spec_indexable(circuit) ==> r == Result::<
                    (CircuitProvingKey, CircuitVerifyingKey),
                    SnarkError,
                >::Err(SnarkError::InvalidCircuit))
                &&& (spec_indexable(circuit) && spec_max_degree(circuit) > u.max_capacity ==> r
                    == Result::<(CircuitProvingKey, CircuitVerifyingKey), SnarkError>::Err(
                    SnarkError::IndexTooLarge(u.max_degree, spec_max_degree(circuit) as usize),
                ))
            },
            r matches Ok(keys) ==> spec_setup_keys_ok(keys.0, keys.1, circuit, zk),
    {
        match srs {
            SRS::CircuitSpecific => Self::circuit_specific_setup(circuit, zk),
            SRS::Universal(u) => Self::circuit_setup(u, circuit, zk),
        }
    }

    /// Initializes a certificate transcript: the protocol name, then the
    /// verifying key's commitments as native field elements.
    fn init_sponge_for_certificate(fs_parameters: u64, commitments: &Vec<Commitment>) -> (s: Sponge)
        ensures
            s.state == spec_cert_init_state(fs_parameters, raw_comm_coeffs(commitments@)),
            s.wf(),
    {
        let mut sponge = Sponge::new(fs_parameters);
        let name = Self::protocol_name();
        sponge.absorb_bytes(&name);
        let ghost base = sponge.state;
        let mut i: usize = 0;
        assert(raw_comm_coeffs(commitments@).subrange(0, 0) =~= Seq::<Seq<u64>>::empty());
        while i < commitments.len()
            invariant
                i <= commitments@.len(),
                sponge.wf(),
                sponge.state == spec_absorb_comms(
                    base,
                    raw_comm_coeffs(commitments@).subrange(0, i as int),
                ),
            decreases commitments@.len() - i,
        {
            proof {
                let all = raw_comm_coeffs(commitments@);
                let pre = all.subrange(0, i as int + 1);
                assert(pre.drop_last() =~= all.subrange(0, i as int));
                assert(pre.last() == commitments@[i as int].coeffs@);
            }
            sponge.absorb_native_field_elements(&commitments[i].coeffs);
            i = i + 1;
        }
        proof {
            let all = raw_comm_coeffs(commitments@);
            assert(all.subrange(0, all.len() as int) =~= all);
        }
        sponge
    }

    /// Produces a certificate that the verifying key commits to the index
    /// polynomials of the proving key's circuit.
    #[verifier::rlimit(100)]
    pub fn prove_vk(
        fs_parameters: u64,
        verifying_key: &CircuitVerifyingKey,
        proving_key: &CircuitProvingKey,
    ) -> (r: Result<Certificate, SnarkError>)
        requires
            proving_key.wf(),
            vk_matches_circuit(*verifying_key, proving_key.circuit.circuit),
        ensures
            r matches Ok(cert) && cert.pc_proof == spec_cert_proof(
                fs_parameters,
                raw_comm_coeffs(verifying_key.circuit_commitments@),
            ),
    {
        let ghost comm_coeffs = raw_comm_coeffs(verifying_key.circuit_commitments@);
        let mut sponge = Self::init_sponge_for_certificate(
            fs_parameters,
            &verifying_key.circuit_commitments,
        );
        let ghost s0 = sponge.state;
        let n = verifying_key.circuit_commitments.len();
        let mut challenges = sponge.squeeze_nonnative_field_elements(n);
        let point = challenges[n - 1];
        let ghost cs = spec_cert_combo_coeffs(fs_parameters, comm_coeffs);

        let mut terms: Vec<(u64, PolyLabel)> = Vec::new();
        let mut k: usize = 0;
        while k < n
            invariant
                k <= n,
                n == NUM_INDEX_POLYS,
                challenges@.len() == n as int,
                forall|j: int|
                    0 <= j < n as int ==> challenges@[j] == spec_squeeze_state(s0, (j + 1) as nat),
                s0 == spec_cert_init_state(fs_parameters, comm_coeffs),
                cs == spec_cert_combo_coeffs(fs_parameters, comm_coeffs),
                terms@.len() == k as int,
                forall|j: int|
                    0 <= j < k as int ==> #[trigger] terms@[j] == (cs[j], spec_cert_labels()[j]),
                forall|j: int|
                    0 <= j < k as int ==> fe_valid((#[trigger] terms@[j]).0),
            decreases n - k,
        {
            let coeff: u64 = if k == 0 {
                1
            } else {
                challenges[k - 1]
            };
            terms.push((coeff, PolyLabel::Index(0, index_label_of_rank(k))));
            k = k + 1;
        }
        let mut lcs: Vec<LinearCombination> = Vec::new();
        lcs.push(LinearCombination { label: LcLabel::CircuitCheck, terms });
        let mut query_set: Vec<Query> = Vec::new();
        query_set.push(
            Query { label: LcLabel::CircuitCheck, point_name: PointName::Challenge, point },
        );
        let polys = Self::labeled_index_polys(&proving_key.circuit, 0);
        let rands = clone_u64_vec(&proving_key.circuit_commitment_randomness);
        proof {
            assert(poly_labels(polys@) =~= spec_cert_labels());
            assert(poly_coeff_seqs(polys@) =~= spec_index_polys(proving_key.circuit.circuit));
            assert(poly_coeff_seqs(polys@) =~= comm_coeffs);
            lemma_cert_labels_distinct();
            Self::lemma_cert_single_evals(
                poly_labels(polys@),
                poly_coeff_seqs(polys@),
                lcs@,
                query_set@,
                cs,
                point,
            );
        }
        let pc = match open_combinations(
            &proving_key.committer_key,
            &lcs,
            &polys,
            &query_set,
            &rands,
            &mut sponge,
        ) {
            Ok(pc) => pc,
            Err(e) => {
                assert(false);
                return Err(e);
            },
        };
        proof {
            let v = spec_cert_lc_value(cs, comm_coeffs, point);
            assert(!crate::pcs::spec_any_hiding(rands@));
            assert(point == spec_cert_point(fs_parameters, comm_coeffs));
            assert(pc == spec_cert_proof(fs_parameters, comm_coeffs));
        }
        Ok(Certificate::new(pc))
    }

    /// Verifies a certificate: re-derives the point and coefficients, obtains
    /// the honest evaluations from the circuit itself, and checks the
    /// combination against the verifying key's commitments.
    #[verifier::rlimit(100)]
    pub fn verify_vk(
        fs_parameters: u64,
        circuit: Circuit,
        verifying_key: &CircuitVerifyingKey,
        certificate: &Certificate,
    ) -> (r: Result<bool, SnarkError>)
        requires
            verifying_key.wf(),
        ensures
            spec_indexable(circuit) ==> r == Result::<bool, SnarkError>::Ok(
                spec_cert_verdict(
                    fs_parameters,
                    raw_comm_coeffs(verifying_key.circuit_commitments@),
                    circuit,
                    certificate.pc_proof,
                ),
            ),
            !spec_indexable(circuit) ==> r == Result::<bool, SnarkError>::Err(
                SnarkError::InvalidCircuit,
            ),
    {
        let ghost gc = circuit;
        let ghost comm_coeffs = raw_comm_coeffs(verifying_key.circuit_commitments@);
        let mut sponge = Self::init_sponge_for_certificate(
            fs_parameters,
            &verifying_key.circuit_commitments,
        );
        let ghost s0 = sponge.state;
        let n = verifying_key.circuit_commitments.len();
        let challenges = sponge.squeeze_nonnative_field_elements(n);
        let point = challenges[n - 1];
        let ghost cs = spec_cert_combo_coeffs(fs_parameters, comm_coeffs);

        let evals = match evaluate_index_polynomials(circuit, point) {
            Ok(v) => v,
            Err(e) => {
                return Err(e);
            },
        };

        let mut evaluation: u64 = 0;
        let mut terms: Vec<(u64, PolyLabel)> = Vec::new();
        let mut k: usize = 0;
        assert(cs.subrange(0, 0) =~= Seq::<u64>::empty());
        while k < n
            invariant
                k <= n,
                n == NUM_INDEX_POLYS,
                challenges@.len() == n as int,
                forall|j: int|
                    0 <= j < n as int ==> challenges@[j] == spec_squeeze_state(s0, (j + 1) as nat),
                seq_fe_valid(challenges@),
                s0 == spec_cert_init_state(fs_parameters, comm_coeffs),
                cs == spec_cert_combo_coeffs(fs_parameters, comm_coeffs),
                evals@.len() == n as int,
                seq_fe_valid(evals@),
                fe_valid(point),
                forall|j: int|
                    0 <= j < n as int ==> evals@[j] == spec_poly_eval(
                        spec_index_polys(gc)[j],
                        point,
                    ),
                spec_indexable(gc),
                fe_valid(evaluation),
                evaluation == spec_cert_lc_value(cs.subrange(0, k as int), spec_index_polys(gc), point),
                terms@.len() == k as int,
                forall|j: int|
                    0 <= j < k as int ==> #[trigger] terms@[j] == (cs[j], spec_cert_labels()[j]),
                forall|j: int| 0 <= j < k as int ==> fe_valid((#[trigger] terms@[j]).0),
            decreases n - k,
        {
            let coeff: u64 = if k == 0 {
                1
            } else {
                challenges[k - 1]
            };
            proof {
                let pre = cs.subrange(0, k as int + 1);
                assert(pre.drop_last() =~= cs.subrange(0, k as int));
                assert(pre.last() == cs[k as int]);
            }
            evaluation = fe_add(evaluation, fe_mul(coeff, evals[k]));
            terms.push((coeff, PolyLabel::Index(0, index_label_of_rank(k))));
            k = k + 1;
        }
        assert(cs.subrange(0, cs.len() as int) =~= cs);

        let mut lcs: Vec<LinearCombination> = Vec::new();
        lcs.push(LinearCombination { label: LcLabel::CircuitCheck, terms });
        let mut query_set: Vec<Query> = Vec::new();
        query_set.push(
            Query { label: LcLabel::CircuitCheck, point_name: PointName::Challenge, point },
        );
        let mut labeled: Vec<LabeledCommitment> = Vec::new();
        let mut k2: usize = 0;
        while k2 < n
            invariant
                k2 <= n,
                n == NUM_INDEX_POLYS,
                verifying_key.wf(),
                labeled@.len() == k2 as int,
                forall|j: int|
                    0 <= j < k2 as int ==> {
                        &&& (#[trigger] labeled@[j]).label == spec_cert_labels()[j]
                        &&& labeled@[j].commitment.coeffs@
                            == verifying_key.circuit_commitments@[j].coeffs@
                        &&& labeled@[j].wf()
                    },
            decreases n - k2,
        {
            labeled.push(
                LabeledCommitment {
                    label: PolyLabel::Index(0, index_label_of_rank(k2)),
                    commitment: Commitment {
                        coeffs: clone_u64_vec(&verifying_key.circuit_commitments[k2].coeffs),
                    },
                },
            );
            k2 = k2 + 1;
        }
        let mut claimed: Vec<u64> = Vec::new();
        claimed.push(evaluation);
        proof {
            assert(comm_labels(labeled@) =~= spec_cert_labels());
            assert(comm_coeff_seqs(labeled@) =~= comm_coeffs);
            lemma_cert_labels_distinct();
            lemma_cert_lc_eval(comm_labels(labeled@), comm_coeff_seqs(labeled@), lcs@[0].terms@, cs, point);
        }
        let verdict = match check_combinations(
            &verifying_key.verifier_key,
            &lcs,
            &labeled,
            &query_set,
            &claimed,
            &certificate.pc_proof,
            &mut sponge,
        ) {
            Ok(b) => b,
            Err(e) => {
                proof {
                    Self::lemma_cert_single_evals(
                        comm_labels(labeled@),
                        comm_coeff_seqs(labeled@),
                        lcs@,
                        query_set@,
                        cs,
                        point,
                    );
                }
                return Err(e);
            },
        };
        proof {
            Self::lemma_cert_single_evals(
                comm_labels(labeled@),
                comm_coeff_seqs(labeled@),
                lcs@,
                query_set@,
                cs,
                point,
            );
            let recomputed = spec_cert_lc_value(cs, comm_coeffs, point);
            let claimed_v = spec_cert_lc_value(cs, spec_index_polys(gc), point);
            assert(claimed@ =~= seq![claimed_v]);
            if recomputed == claimed_v {
                assert(seq![recomputed] =~= seq![claimed_v]);
            }
            if seq![recomputed] == claimed@ {
                assert(recomputed == claimed@[0]);
            }
        }
        Ok(verdict)
    }

    /// Unfolds the single-combination evaluation of the certificate check.
    proof fn lemma_cert_single_evals(
        labels: Seq<PolyLabel>,
        coeffs: Seq<Seq<u64>>,
        lcs: Seq<LinearCombination>,
        qs: Seq<Query>,
        cs: Seq<u64>,
        point: u64,
    )
        requires
            labels.len() == coeffs.len(),
            lcs.len() == 1,
            qs.len() == 1,
            qs[0].point == point,
            lcs[0].terms@.len() == cs.len(),
            cs.len() <= labels.len(),
            forall|i: int| 0 <= i < cs.len() ==> lcs[0].terms@[i] == (cs[i], labels[i]),
            forall|i: int, j: int| 0 <= i < j < labels.len() ==> labels[i] != labels[j],
        ensures
            spec_lc_evals(labels, coeffs, lcs, qs) == Result::<Seq<u64>, SnarkError>::Ok(
                seq![spec_cert_lc_value(cs, coeffs, point)],
            ),
    {
        lemma_cert_lc_eval(labels, coeffs, lcs[0].terms@, cs, point);
        assert(lcs.drop_last() =~= Seq::<LinearCombination>::empty());
        assert(qs.subrange(0, 0) =~= Seq::<Query>::empty());
        let v = spec_cert_lc_value(cs, coeffs, point);
        assert(spec_lc_evals(labels, coeffs, lcs.drop_last(), qs.subrange(0, 0)) == Result::<
            Seq<u64>,
            SnarkError,
        >::Ok(Seq::<u64>::empty()));
        assert(lcs.last() == lcs[0]);
        assert(spec_lc_terms_eval(labels, coeffs, lcs.last().terms@, qs[0].point) == Result::<
            u64,
            SnarkError,
        >::Ok(v));
        assert(Seq::<u64>::empty().push(v) =~= seq![v]);
    }

    /// Copies a commitment list.
    fn clone_commitments(v: &Vec<Commitment>) -> (r: Vec<Commitment>)
        ensures
            r@.len() == v@.len(),
            forall|i: int| 0 <= i < v@.len() ==> (#[trigger] r@[i]).coeffs@ == v@[i].coeffs@,
    {
        let mut r: Vec<Commitment> = Vec::new();
        let mut i: usize = 0;
        while i < v.len()
            invariant
                i <= v@.len(),
                r@.len() == i as int,
                forall|j: int| 0 <= j < i as int ==> (#[trigger] r@[j]).coeffs@ == v@[j].coeffs@,
            decreases v@.len() - i,
        {
            r.push(Commitment { coeffs: clone_u64_vec(&v[i].coeffs) });
            i = i + 1;
        }
        r
    }

    /// Absorbs a list of raw commitments as native field elements.
    fn absorb(commitments: &Vec<Commitment>, sponge: &mut Sponge)
        requires
            old(sponge).wf(),
        ensures
            final(sponge).state == spec_absorb_comms(
                old(sponge).state,
                raw_comm_coeffs(commitments@),
            ),
            final(sponge).wf(),
    {
        let ghost base = sponge.state;
        let mut i: usize = 0;
        assert(raw_comm_coeffs(commitments@).subrange(0, 0) =~= Seq::<Seq<u64>>::empty());
        while i < commitments.len()
            invariant
                i <= commitments@.len(),
                sponge.wf(),
                sponge.state == spec_absorb_comms(
                    base,
                    raw_comm_coeffs(commitments@).subrange(0, i as int),
                ),
            decreases commitments@.len() - i,
        {
            proof {
                let all = raw_comm_coeffs(commitments@);
                let pre = all.subrange(0, i as int + 1);
                assert(pre.drop_last() =~= all.subrange(0, i as int));
                assert(pre.last() == commitments@[i as int].coeffs@);
            }
            sponge.absorb_native_field_elements(&commitments[i].coeffs);
            i = i + 1;
        }
        proof {
            let all = raw_comm_coeffs(commitments@);
            assert(all.subrange(0, all.len() as int) =~= all);
        }
    }

    /// Absorbs a list of labeled commitments as native field elements.
    fn absorb_labeled(comms: &Vec<LabeledCommitment>, sponge: &mut Sponge)
        requires
            old(sponge).wf(),
        ensures
            final(sponge).state == spec_absorb_comms(old(sponge).state, comm_coeff_seqs(comms@)),
            final(sponge).wf(),
    {
        let ghost base = sponge.state;
        let mut i: usize = 0;
        assert(comm_coeff_seqs(comms@).subrange(0, 0) =~= Seq::<Seq<u64>>::empty());
        while i < comms.len()
            invariant
                i <= comms@.len(),
                sponge.wf(),
                sponge.state == spec_absorb_comms(
                    base,
                    comm_coeff_seqs(comms@).subrange(0, i as int),
                ),
            decreases comms@.len() - i,
        {
            proof {
                let all = comm_coeff_seqs(comms@);
                let pre = all.subrange(0, i as int + 1);
                assert(pre.drop_last() =~= all.subrange(0, i as int));
                assert(pre.last() == comms@[i as int].commitment.coeffs@);
            }
            sponge.absorb_native_field_elements(&comms[i].commitment.coeffs);
            i = i + 1;
        }
        proof {
            let all = comm_coeff_seqs(comms@);
            assert(all.subrange(0, all.len() as int) =~= all);
        }
    }

    /// Absorbs raw commitments, then the third-round message's per-circuit
    /// sums as non-native field elements.
    fn absorb_with_msg(commitments: &Vec<Commitment>, msg: &ThirdMessage, sponge: &mut Sponge)
        requires
            old(sponge).wf(),
        ensures
            final(sponge).state == spec_absorb_sums(
                spec_absorb_comms(old(sponge).state, raw_comm_coeffs(commitments@)),
                msg.sums@,
            ),
            final(sponge).wf(),
    {
        Self::absorb(commitments, sponge);
        Self::absorb_sums(msg, sponge);
    }

    /// Absorbs labeled commitments, then the third-round message's
    /// per-circuit sums as non-native field elements.
    fn absorb_labeled_with_msg(comms: &Vec<LabeledCommitment>, msg: &ThirdMessage, sponge: &mut Sponge)
        requires
            old(sponge).wf(),
        ensures
            final(sponge).state == spec_absorb_sums(
                spec_absorb_comms(old(sponge).state, comm_coeff_seqs(comms@)),
                msg.sums@,
            ),
            final(sponge).wf(),
    {
        Self::absorb_labeled(comms, sponge);
        Self::absorb_sums(msg, sponge);
    }

    fn absorb_sums(msg: &ThirdMessage, sponge: &mut Sponge)
        requires
            old(sponge).wf(),
        ensures
            final(sponge).state == spec_absorb_sums(old(sponge).state, msg.sums@),
            final(sponge).wf(),
    {
        let ghost base = sponge.state;
        let mut i: usize = 0;
        assert(msg.sums@.subrange(0, 0) =~= Seq::<crate::rounds::MatrixSums>::empty());
        while i < msg.sums.len()
            invariant
                i <= msg.sums@.len(),
                sponge.wf(),
                sponge.state == spec_absorb_sums(base, msg.sums@.subrange(0, i as int)),
            decreases msg.sums@.len() - i,
        {
            proof {
                let pre = msg.sums@.subrange(0, i as int + 1);
                assert(pre.drop_last() =~= msg.sums@.subrange(0, i as int));
            }
            let mut triple: Vec<u64> = Vec::new();
            triple.push(msg.sums[i].sum_a);
            triple.push(msg.sums[i].sum_b);
            triple.push(msg.sums[i].sum_c);
            assert(triple@ =~= seq![
                msg.sums@[i as int].sum_a,
                msg.sums@[i as int].sum_b,
                msg.sums@[i as int].sum_c,
            ]);
            sponge.absorb_nonnative_field_elements(&triple);
            i = i + 1;
        }
        assert(msg.sums@.subrange(0, msg.sums@.len() as int) =~= msg.sums@);
    }

    /// Initializes a proof transcript: the protocol name; each circuit's
    /// instance count as eight little-endian bytes, in batch order; each
    /// circuit's index commitments as native field elements; then every
    /// instance's padded public input as non-native field elements.
    fn init_sponge(
        fs_parameters: u64,
        batch_sizes: &Vec<crate::proof_data::BatchSizeEntry>,
        circuit_commitments: &Vec<Vec<Commitment>>,
        inputs: &Vec<Vec<Vec<u64>>>,
    ) -> (s: Sponge)
        ensures
            s.state == spec_init_sponge_state(
                fs_parameters,
                batch_counts(batch_sizes@),
                comm_list_views(circuit_commitments@),
                input_views(inputs@),
            ),
            s.wf(),
    {
        let mut sponge = Sponge::new(fs_parameters);
        let name = Self::protocol_name();
        sponge.absorb_bytes(&name);
        let ghost s0 = sponge.state;
        let mut i: usize = 0;
        assert(batch_counts(batch_sizes@).subrange(0, 0) =~= Seq::<usize>::empty());
        while i < batch_sizes.len()
            invariant
                i <= batch_sizes@.len(),
                sponge.wf(),
                sponge.state == spec_absorb_counts(
                    s0,
                    batch_counts(batch_sizes@).subrange(0, i as int),
                ),
            decreases batch_sizes@.len() - i,
        {
            proof {
                let all = batch_counts(batch_sizes@);
                let pre = all.subrange(0, i as int + 1);
                assert(pre.drop_last() =~= all.subrange(0, i as int));
                assert(pre.last() == batch_sizes@[i as int].instance_count);
            }
            let bytes = crate::rounds::u64_le_bytes(batch_sizes[i].instance_count as u64);
            sponge.absorb_bytes(&bytes);
            i = i + 1;
        }
        proof {
            let all = batch_counts(batch_sizes@);
            assert(all.subrange(0, all.len() as int) =~= all);
        }
        let ghost s1 = sponge.state;
        let mut ci: usize = 0;
        assert(comm_list_views(circuit_commitments@).subrange(0, 0) =~= Seq::<Seq<Seq<u64>>>::empty());
        while ci < circuit_commitments.len()
            invariant
                ci <= circuit_commitments@.len(),
                sponge.wf(),
                sponge.state == spec_absorb_comm_lists(
                    s1,
                    comm_list_views(circuit_commitments@).subrange(0, ci as int),
                ),
            decreases circuit_commitments@.len() - ci,
        {
            proof {
                let all = comm_list_views(circuit_commitments@);
                let pre = all.subrange(0, ci as int + 1);
                assert(pre.drop_last() =~= all.subrange(0, ci as int));
                assert(pre.last() == raw_comm_coeffs(circuit_commitments@[ci as int]@));
            }
            Self::absorb(&circuit_commitments[ci], &mut sponge);
            ci = ci + 1;
        }
        proof {
            let all = comm_list_views(circuit_commitments@);
            assert(all.subrange(0, all.len() as int) =~= all);
        }
        let ghost s2 = sponge.state;
        let mut c2: usize = 0;
        assert(input_views(inputs@).subrange(0, 0) =~= Seq::<Seq<Seq<u64>>>::empty());
        while c2 < inputs.len()
            invariant
                c2 <= inputs@.len(),
                sponge.wf(),
                sponge.state == spec_absorb_all_inputs(
                    s2,
                    input_views(inputs@).subrange(0, c2 as int),
                ),
            decreases inputs@.len() - c2,
        {
            proof {
                let all = input_views(inputs@);
                let pre = all.subrange(0, c2 as int + 1);
                assert(pre.drop_last() =~= all.subrange(0, c2 as int));
                assert(pre.last() == inputs@[c2 as int]@.map_values(|x: Vec<u64>| x@));
            }
            let circuit_inputs = &inputs[c2];
            let ghost t0 = sponge.state;
            let ghost list = inputs@[c2 as int]@.map_values(|x: Vec<u64>| x@);
            let mut k: usize = 0;
            assert(list.subrange(0, 0) =~= Seq::<Seq<u64>>::empty());
            while k < circuit_inputs.len()
                invariant
                    k <= circuit_inputs@.len(),
                    circuit_inputs@ == inputs@[c2 as int]@,
                    list == inputs@[c2 as int]@.map_values(|x: Vec<u64>| x@),
                    sponge.wf(),
                    sponge.state == spec_absorb_instance_inputs(t0, list.subrange(0, k as int)),
                decreases circuit_inputs@.len() - k,
            {
                proof {
                    let pre = list.subrange(0, k as int + 1);
                    assert(pre.drop_last() =~= list.subrange(0, k as int));
                    assert(pre.last() == circuit_inputs@[k as int]@);
                }
                sponge.absorb_nonnative_field_elements(&circuit_inputs[k]);
                k = k + 1;
            }
            proof {
                assert(list.subrange(0, list.len() as int) =~= list);
            }
            c2 = c2 + 1;
        }
        proof {
            let all = input_views(inputs@);
            assert(all.subrange(0, all.len() as int) =~= all);
        }
        sponge
    }

    /// Validates a batch's instances and derives the padded public inputs,
    /// per circuit and instance.
    ///
    /// Fails with the empty-batch error on a circuit without instances, and
    /// with the invalid-instance error on an assignment that does not fit.
    fn validate_batch(
        keys: &Vec<CircuitProvingKey>,
        assignments: &Vec<Vec<Vec<u64>>>,
    ) -> (r: Result<Vec<Vec<Vec<u64>>>, SnarkError>)
        requires
            spec_prover_batch_wf(keys@, assignments@),
        ensures
            (r is Ok) <==> spec_batch_instances_ok(keys@, assignments@),
            r matches Ok(p) ==> p@.len() == keys@.len() && (forall|ci: int|
                0 <= ci < p@.len() ==> (#[trigger] p@[ci])@.len() == assignments@[ci]@.len()
                    && forall|k: int|
                    0 <= k < p@[ci]@.len() ==> seq_fe_valid((#[trigger] p@[ci]@[k])@)),
    {
        let mut padded: Vec<Vec<Vec<u64>>> = Vec::new();
        let mut ci: usize = 0;
        while ci < keys.len()
            invariant
                ci <= keys@.len(),
                spec_prover_batch_wf(keys@, assignments@),
                padded@.len() == ci as int,
                forall|j: int|
                    0 <= j < ci as int ==> (#[trigger] assignments@[j])@.len() >= 1
                        && crate::rounds::all_instances_ok(keys@[j].circuit, assignments@[j]@),
                forall|j: int|
                    0 <= j < ci as int ==> (#[trigger] padded@[j])@.len()
                        == assignments@[j]@.len() && forall|k: int|
                        0 <= k < padded@[j]@.len() ==> seq_fe_valid((#[trigger] padded@[j]@[k])@),
            decreases keys@.len() - ci,
        {
            let circuit_assignments = &assignments[ci];
            if circuit_assignments.len() == 0 {
                assert(!spec_batch_instances_ok(keys@, assignments@));
                return Err(SnarkError::EmptyBatch);
            }
            let c = &keys[ci].circuit.circuit;
            let mut circuit_padded: Vec<Vec<u64>> = Vec::new();
            let mut k: usize = 0;
            while k < circuit_assignments.len()
                invariant
                    k <= circuit_assignments@.len(),
                    ci < keys@.len(),
                    spec_prover_batch_wf(keys@, assignments@),
                    circuit_assignments@ == assignments@[ci as int]@,
                    c == &keys@[ci as int].circuit.circuit,
                    circuit_padded@.len() == k as int,
                    forall|t: int|
                        0 <= t < k as int ==> crate::r1cs::spec_instance_ok(
                            keys@[ci as int].circuit.circuit,
                            (#[trigger] circuit_assignments@[t])@,
                        ),
                    forall|t: int|
                        0 <= t < k as int ==> seq_fe_valid((#[trigger] circuit_padded@[t])@),
                decreases circuit_assignments@.len() - k,
            {
                let z = &circuit_assignments[k];
                if !crate::r1cs::check_instance(c, z) {
                    assert(!crate::rounds::all_instances_ok(
                        keys@[ci as int].circuit,
                        assignments@[ci as int]@,
                    ));
                    assert(!spec_batch_instances_ok(keys@, assignments@));
                    return Err(SnarkError::InvalidInstance);
                }
                assert(keys@[ci as int].wf());
                let x = crate::rounds::copy_range(z, 1, c.num_public + 1);
                let p = pad_public_input(&x, c.num_public + 1);
                circuit_padded.push(p);
                k = k + 1;
            }
            assert(crate::rounds::all_instances_ok(keys@[ci as int].circuit, assignments@[ci as int]@));
            padded.push(circuit_padded);
            ci = ci + 1;
        }
        Ok(padded)
    }

    /// Computes the total instance count of a batch.
    fn total_instances(assignments: &Vec<Vec<Vec<u64>>>) -> (r: usize)
        requires
            spec_assign_total(assignments@) <= crate::rounds::MAX_INSTANCES,
    ensures
            r as int == spec_assign_total(assignments@),
    {
        let mut acc: usize = 0;
        let mut i: usize = 0;
        assert(assignments@.subrange(0, 0) =~= Seq::<Vec<Vec<u64>>>::empty());
        proof {
            lemma_assign_total_prefix(assignments@, 0);
        }
        while i < assignments.len()
            invariant
                i <= assignments@.len(),
                spec_assign_total(assignments@) <= crate::rounds::MAX_INSTANCES,
                acc as int == spec_assign_total(assignments@.subrange(0, i as int)),
                acc as int <= spec_assign_total(assignments@),
            decreases assignments@.len() - i,
        {
            proof {
                let pre = assignments@.subrange(0, i as int + 1);
                assert(pre.drop_last() =~= assignments@.subrange(0, i as int));
                lemma_assign_total_prefix(assignments@, i as int + 1);
            }
            acc = acc + assignments[i].len();
            i = i + 1;
        }
        assert(assignments@.subrange(0, assignments@.len() as int) =~= assignments@);
        acc
    }

    /// Collects the batch metadata in batch order: each circuit's hash, its
    /// metadata and its instance count.
    fn build_batch_sizes(
        keys: &Vec<CircuitProvingKey>,
        assignments: &Vec<Vec<Vec<u64>>>,
    ) -> (r: Vec<crate::proof_data::BatchSizeEntry>)
        requires
            keys@.len() == assignments@.len(),
        ensures
            r@.len() == keys@.len(),
            forall|ci: int|
                0 <= ci < keys@.len() ==> {
                    &&& (#[trigger] r@[ci]).circuit_hash == keys@[ci].circuit.hash
                    &&& r@[ci].circuit_info == keys@[ci].circuit.info
                    &&& r@[ci].instance_count == assignments@[ci]@.len()
                },
            crate::proof_data::spec_batch_total(r@) == spec_assign_total(assignments@),
    {
        let mut r: Vec<crate::proof_data::BatchSizeEntry> = Vec::new();
        let mut ci: usize = 0;
        assert(r@ =~= Seq::<crate::proof_data::BatchSizeEntry>::empty());
        assert(assignments@.subrange(0, 0) =~= Seq::<Vec<Vec<u64>>>::empty());
        while ci < keys.len()
            invariant
                ci <= keys@.len(),
                keys@.len() == assignments@.len(),
                r@.len() == ci as int,
                forall|j: int|
                    0 <= j < ci as int ==> {
                        &&& (#[trigger] r@[j]).circuit_hash == keys@[j].circuit.hash
                        &&& r@[j].circuit_info == keys@[j].circuit.info
                        &&& r@[j].instance_count == assignments@[j]@.len()
                    },
                crate::proof_data::spec_batch_total(r@) == spec_assign_total(
                    assignments@.subrange(0, ci as int),
                ),
            decreases keys@.len() - ci,
        {
            let ghost rpre = r@;
            r.push(
                crate::proof_data::BatchSizeEntry {
                    circuit_hash: keys[ci].circuit.hash,
                    circuit_info: keys[ci].circuit.info,
                    instance_count: assignments[ci].len(),
                },
            );
            proof {
                assert(r@.drop_last() =~= rpre);
                let pre = assignments@.subrange(0, ci as int + 1);
                assert(pre.drop_last() =~= assignments@.subrange(0, ci as int));
            }
            ci = ci + 1;
        }
        assert(assignments@.subrange(0, assignments@.len() as int) =~= assignments@);
        r
    }

    /// The first round's oracles over the whole batch: each instance's
    /// witness triple in batch order, then the zero-knowledge mask when the
    /// mode asks for it.
    fn prover_first_round(
        keys: &Vec<CircuitProvingKey>,
        assignments: &Vec<Vec<Vec<u64>>>,
        zk: bool,
        rng: &mut ProofRng,
    ) -> (r: Vec<LabeledPolynomial>)
        requires
            spec_prover_batch_wf(keys@, assignments@),
            spec_batch_instances_ok(keys@, assignments@),
            old(rng).wf(),
        ensures
            r@.len() == 3 * spec_assign_total(assignments@) + if zk {
                1int
            } else {
                0int
            },
            forall|i: int| 0 <= i < r@.len() ==> (#[trigger] r@[i]).hiding == zk && r@[i].wf(),
            final(rng).wf(),
    {
        let mut r: Vec<LabeledPolynomial> = Vec::new();
        let mut g0: usize = 0;
        let mut ci: usize = 0;
        assert(assignments@.subrange(0, 0) =~= Seq::<Vec<Vec<u64>>>::empty());
        while ci < keys.len()
            invariant
                ci <= keys@.len(),
                spec_prover_batch_wf(keys@, assignments@),
                spec_batch_instances_ok(keys@, assignments@),
                rng.wf(),
                g0 as int == spec_assign_total(assignments@.subrange(0, ci as int)),
                r@.len() == 3 * g0 as int,
                forall|i: int| 0 <= i < r@.len() ==> (#[trigger] r@[i]).hiding == zk && r@[i].wf(),
            decreases keys@.len() - ci,
        {
            proof {
                let pre = assignments@.subrange(0, ci as int + 1);
                assert(pre.drop_last() =~= assignments@.subrange(0, ci as int));
                lemma_assign_total_prefix(assignments@, ci as int + 1);
                assert(crate::rounds::all_instances_ok(
                    keys@[ci as int].circuit,
                    assignments@[ci as int]@,
                ));
            }
            let mut part = crate::rounds::witness_oracles(
                &keys[ci].circuit,
                &assignments[ci],
                g0,
                zk,
            );
            r.append(&mut part);
            g0 = g0 + assignments[ci].len();
            ci = ci + 1;
        }
        assert(assignments@.subrange(0, assignments@.len() as int) =~= assignments@);
        if zk {
            let mask = crate::rounds::mask_oracle(rng);
            r.push(mask);
        }
        r
    }

    /// The second round's oracles: the challenge-scaled aggregate of the
    /// `a`-matrix applications, and the batch's constraint residual, which is
    /// the zero polynomial exactly on satisfying batches.
    fn prover_second_round(
        keys: &Vec<CircuitProvingKey>,
        assignments: &Vec<Vec<Vec<u64>>>,
        alpha: u64,
        zk: bool,
    ) -> (r: Vec<LabeledPolynomial>)
        requires
            spec_prover_batch_wf(keys@, assignments@),
            spec_batch_instances_ok(keys@, assignments@),
            fe_valid(alpha),
        ensures
            r@.len() == 2,
            r@[0].label == PolyLabel::G1,
            r@[1].label == PolyLabel::H1,
            forall|i: int| 0 <= i < r@.len() ==> (#[trigger] r@[i]).hiding == zk && r@[i].wf(),
            (forall|ci: int|
                0 <= ci < keys@.len() ==> crate::rounds::all_instances_satisfied(
                    (#[trigger] keys@[ci]).circuit,
                    assignments@[ci]@,
                )) ==> forall|i: int| 0 <= i < r@[1].coeffs@.len() ==> r@[1].coeffs@[i] == 0u64,
            (forall|ci: int|
                0 <= ci < keys@.len() ==> crate::rounds::all_instances_satisfied(
                    (#[trigger] keys@[ci]).circuit,
                    assignments@[ci]@,
                )) ==> forall|x: u64| spec_poly_eval(r@[1].coeffs@, x) == 0u64,
    {
        let ghost all_sat = forall|ci: int|
            0 <= ci < keys@.len() ==> crate::rounds::all_instances_satisfied(
                (#[trigger] keys@[ci]).circuit,
                assignments@[ci]@,
            );
        let mut h1: Vec<u64> = Vec::new();
        let mut za_sum: Vec<u64> = Vec::new();
        let mut ci: usize = 0;
        while ci < keys.len()
            invariant
                ci <= keys@.len(),
                spec_prover_batch_wf(keys@, assignments@),
                spec_batch_instances_ok(keys@, assignments@),
                all_sat == (forall|cj: int|
                    0 <= cj < keys@.len() ==> crate::rounds::all_instances_satisfied(
                        (#[trigger] keys@[cj]).circuit,
                        assignments@[cj]@,
                    )),
                seq_fe_valid(h1@),
                seq_fe_valid(za_sum@),
                all_sat ==> forall|i: int| 0 <= i < h1@.len() ==> h1@[i] == 0u64,
            decreases keys@.len() - ci,
        {
            assert(crate::rounds::all_instances_ok(
                keys@[ci as int].circuit,
                assignments@[ci as int]@,
            ));
            let residual = crate::rounds::constraint_residual(&keys[ci].circuit, &assignments[ci]);
            let next = crate::poly::poly_add(&h1, &residual);
            proof {
                if all_sat {
                    assert(crate::rounds::all_instances_satisfied(
                        keys@[ci as int].circuit,
                        assignments@[ci as int]@,
                    ));
                    assert forall|i: int| 0 <= i < next@.len() implies next@[i] == 0u64 by {
                        assert(crate::poly::coeff_or_zero(h1@, i) == 0u64);
                        assert(crate::poly::coeff_or_zero(residual@, i) == 0u64);
                    }
                }
            }
            h1 = next;
            let za = crate::rounds::sum_matrix_apply(
                &keys[ci].circuit.circuit.a,
                &keys[ci].circuit,
                &assignments[ci],
            );
            za_sum = crate::poly::poly_add(&za_sum, &za);
            ci = ci + 1;
        }
        let g1 = crate::poly::poly_scale(alpha, &za_sum);
        proof {
            if all_sat {
                assert forall|x: u64| spec_poly_eval(h1@, x) == 0u64 by {
                    crate::poly::lemma_zero_poly_eval(h1@, x);
                }
            }
        }
        let mut r: Vec<LabeledPolynomial> = Vec::new();
        r.push(LabeledPolynomial { label: PolyLabel::G1, coeffs: g1, hiding: zk });
        r.push(LabeledPolynomial { label: PolyLabel::H1, coeffs: h1, hiding: zk });
        r
    }

    /// The third round's oracles and message: the per-matrix aggregates of
    /// each circuit, with their coefficient sums.
    fn prover_third_round(
        keys: &Vec<CircuitProvingKey>,
        assignments: &Vec<Vec<Vec<u64>>>,
        zk: bool,
    ) -> (r: (Vec<LabeledPolynomial>, ThirdMessage))
        requires
            spec_prover_batch_wf(keys@, assignments@),
            spec_batch_instances_ok(keys@, assignments@),
        ensures
            r.0@.len() == 3 * keys@.len(),
            r.1.sums@.len() == keys@.len(),
            forall|i: int| 0 <= i < r.0@.len() ==> (#[trigger] r.0@[i]).hiding == zk && r.0@[i].wf(),
            r.1.wf(),
    {
        let mut oracles: Vec<LabeledPolynomial> = Vec::new();
        let mut sums: Vec<crate::rounds::MatrixSums> = Vec::new();
        let mut ci: usize = 0;
        while ci < keys.len()
            invariant
                ci <= keys@.len(),
                spec_prover_batch_wf(keys@, assignments@),
                spec_batch_instances_ok(keys@, assignments@),
                oracles@.len() == 3 * ci as int,
                sums@.len() == ci as int,
                forall|i: int|
                    0 <= i < oracles@.len() ==> (#[trigger] oracles@[i]).hiding == zk
                        && oracles@[i].wf(),
                forall|i: int| 0 <= i < sums@.len() ==> (#[trigger] sums@[i]).wf(),
            decreases keys@.len() - ci,
        {
            assert(crate::rounds::all_instances_ok(
                keys@[ci as int].circuit,
                assignments@[ci as int]@,
            ));
            let (mut part, s) = crate::rounds::third_round_for(
                &keys[ci].circuit,
                &assignments[ci],
                ci,
                zk,
            );
            oracles.append(&mut part);
            sums.push(s);
            ci = ci + 1;
        }
        (oracles, ThirdMessage { sums })
    }

    /// Computes the wire evaluations: one labeled value per combination whose
    /// evaluation is not zero by construction, in combination order.
    fn compute_evaluations(
        polys: &Vec<LabeledPolynomial>,
        lcs: &Vec<LinearCombination>,
        beta: u64,
    ) -> (r: (crate::proof_data::Evaluations, Vec<u64>))
        requires
            all_polys_wf(polys@),
            all_lcs_wf(lcs@),
            fe_valid(beta),
            lcs@.len() == polys@.len(),
            forall|i: int|
                0 <= i < lcs@.len() ==> (#[trigger] lcs@[i]).terms@.len() == 1
                    && lcs@[i].terms@[0].1 == poly_labels(polys@)[i],
        ensures
            r.0.wf(),
            seq_fe_valid(r.1@),
    {
        let mut entries: Vec<(LcLabel, u64)> = Vec::new();
        let mut values: Vec<u64> = Vec::new();
        let mut i: usize = 0;
        while i < lcs.len()
            invariant
                i <= lcs@.len(),
                all_polys_wf(polys@),
                all_lcs_wf(lcs@),
                fe_valid(beta),
                lcs@.len() == polys@.len(),
                forall|j: int|
                    0 <= j < lcs@.len() ==> (#[trigger] lcs@[j]).terms@.len() == 1
                        && lcs@[j].terms@[0].1 == poly_labels(polys@)[j],
                forall|j: int| 0 <= j < entries@.len() ==> fe_valid((#[trigger] entries@[j]).1),
                seq_fe_valid(values@),
            decreases lcs@.len() - i,
        {
            if !crate::rounds::is_zero_eval_label(&lcs[i].label) {
                proof {
                    crate::pcs::lemma_single_term_eval_ok(
                        poly_labels(polys@),
                        poly_coeff_seqs(polys@),
                        lcs@[i as int].terms@,
                        beta,
                    );
                }
                let v = match crate::pcs::get_lc_eval(polys, &lcs[i], beta) {
                    Ok(v) => v,
                    Err(_) => {
                        assert(false);
                        0
                    },
                };
                entries.push((lcs[i].label, v));
                values.push(v);
            }
            i = i + 1;
        }
        (crate::proof_data::Evaluations { entries }, values)
    }

    /// The union of the batch's committer keys: a key supporting every
    /// circuit's degree, with all their enforced bounds and the shared hiding
    /// bound. Rounds are committed and opened under this union rather than an
    /// arbitrary member's key.
    fn committer_key_union(keys: &Vec<CircuitProvingKey>) -> (r: crate::pcs::CommitterKey)
        requires
            keys@.len() >= 1,
        ensures
            forall|i: int|
                0 <= i < keys@.len() ==> (#[trigger] keys@[i]).committer_key.max_degree
                    <= r.max_degree,
            r.supported_hiding_bound == keys@[0].committer_key.supported_hiding_bound,
    {
        let mut max_degree = keys[0].committer_key.max_degree;
        let mut bounds: Vec<usize> = Vec::new();
        let mut i: usize = 0;
        while i < keys.len()
            invariant
                i <= keys@.len(),
                keys@.len() >= 1,
                forall|j: int|
                    0 <= j < i as int ==> (#[trigger] keys@[j]).committer_key.max_degree
                        <= max_degree,
            decreases keys@.len() - i,
        {
            if keys[i].committer_key.max_degree > max_degree {
                max_degree = keys[i].committer_key.max_degree;
            }
            let b = &keys[i].committer_key.enforced_degree_bounds;
            let mut k: usize = 0;
            while k < b.len()
                invariant
                    k <= b@.len(),
                decreases b@.len() - k,
            {
                bounds.push(b[k]);
                k = k + 1;
            }
            i = i + 1;
        }
        crate::pcs::CommitterKey {
            max_degree,
            enforced_degree_bounds: bounds,
            supported_hiding_bound: keys[0].committer_key.supported_hiding_bound,
        }
    }

    /// Aggregates the batch's polynomials and their commitment randomness in
    /// the canonical order: per-circuit index polynomials, then the first,
    /// second, third and fourth rounds' oracles.
    #[verifier::rlimit(100)]
    #[verifier::spinoff_prover]
    fn aggregate_polys_and_rands(
        keys: &Vec<CircuitProvingKey>,
        first_oracles: Vec<LabeledPolynomial>,
        first_rands: Vec<u64>,
        second_oracles: Vec<LabeledPolynomial>,
        second_rands: Vec<u64>,
        third_oracles: Vec<LabeledPolynomial>,
        third_rands: Vec<u64>,
        fourth_oracles: Vec<LabeledPolynomial>,
        fourth_rands: Vec<u64>,
        zk: bool,
    ) -> (r: (Vec<LabeledPolynomial>, Vec<u64>))
        requires
            forall|i: int| 0 <= i < keys@.len() ==> (#[trigger] keys@[i]).wf(),
            first_oracles@.len() == first_rands@.len(),
            second_oracles@.len() == second_rands@.len(),
            third_oracles@.len() == third_rands@.len(),
            fourth_oracles@.len() == fourth_rands@.len(),
            forall|i: int|
                0 <= i < first_oracles@.len() ==> (#[trigger] first_oracles@[i]).hiding == zk
                    && first_oracles@[i].wf(),
            forall|i: int|
                0 <= i < second_oracles@.len() ==> (#[trigger] second_oracles@[i]).hiding == zk
                    && second_oracles@[i].wf(),
            forall|i: int|
                0 <= i < third_oracles@.len() ==> (#[trigger] third_oracles@[i]).hiding == zk
                    && third_oracles@[i].wf(),
            forall|i: int|
                0 <= i < fourth_oracles@.len() ==> (#[trigger] fourth_oracles@[i]).hiding == zk
                    && fourth_oracles@[i].wf(),
            forall|i: int|
                0 <= i < first_rands@.len() ==> (!zk ==> #[trigger] first_rands@[i]
                    == EMPTY_RANDOMNESS) && (zk ==> first_rands@[i] != EMPTY_RANDOMNESS),
            forall|i: int|
                0 <= i < second_rands@.len() ==> !zk ==> #[trigger] second_rands@[i]
                    == EMPTY_RANDOMNESS,
            forall|i: int|
                0 <= i < third_rands@.len() ==> !zk ==> #[trigger] third_rands@[i]
                    == EMPTY_RANDOMNESS,
            forall|i: int|
                0 <= i < fourth_rands@.len() ==> !zk ==> #[trigger] fourth_rands@[i]
                    == EMPTY_RANDOMNESS,
            zk ==> first_rands@.len() >= 1,
        ensures
            all_polys_wf(r.0@),
            r.0@.len() == r.1@.len(),
            !zk ==> !crate::pcs::spec_any_hiding(r.1@),
            zk ==> crate::pcs::spec_any_hiding(r.1@),
    {
        let mut polys: Vec<LabeledPolynomial> = Vec::new();
        let mut rands: Vec<u64> = Vec::new();
        let mut c2: usize = 0;
        while c2 < keys.len()
            invariant
                c2 <= keys@.len(),
                forall|i: int| 0 <= i < keys@.len() ==> (#[trigger] keys@[i]).wf(),
                polys@.len() == NUM_INDEX_POLYS * c2 as int,
                rands@.len() == NUM_INDEX_POLYS * c2 as int,
                forall|i: int| 0 <= i < polys@.len() ==> (#[trigger] polys@[i]).wf(),
                forall|i: int| 0 <= i < rands@.len() ==> #[trigger] rands@[i] == EMPTY_RANDOMNESS,
            decreases keys@.len() - c2,
        {
            assert(keys@[c2 as int].wf());
            let mut part = Self::labeled_index_polys(&keys[c2].circuit, c2);
            polys.append(&mut part);
            let mut rpart = clone_u64_vec(&keys[c2].circuit_commitment_randomness);
            rands.append(&mut rpart);
            c2 = c2 + 1;
        }
        let ghost idx_first = rands@.len() as int;
        let mut first_oracles_m = first_oracles;
        let mut first_rands_m = first_rands;
        let ghost gfr = first_rands_m@;
        polys.append(&mut first_oracles_m);
        rands.append(&mut first_rands_m);
        let mut second_oracles_m = second_oracles;
        let mut second_rands_m = second_rands;
        polys.append(&mut second_oracles_m);
        rands.append(&mut second_rands_m);
        let mut third_oracles_m = third_oracles;
        let mut third_rands_m = third_rands;
        polys.append(&mut third_oracles_m);
        rands.append(&mut third_rands_m);
        let mut fourth_oracles_m = fourth_oracles;
        let mut fourth_rands_m = fourth_rands;
        polys.append(&mut fourth_oracles_m);
        rands.append(&mut fourth_rands_m);
        proof {
            if !zk {
                assert(!crate::pcs::spec_any_hiding(rands@));
            } else {
                assert(rands@[idx_first] == gfr[0]);
                assert(rands@[idx_first] != EMPTY_RANDOMNESS);
                assert(crate::pcs::spec_any_hiding(rands@));
            }
        }
        (polys, rands)
    }

    /// Packages the round commitments into the proof's grouped record: one
    /// witness triple per instance, the trailing first-round commitment being
    /// the mask exactly in zero-knowledge mode, and the third-round
    /// commitments chunked by three per circuit.
    #[verifier::rlimit(100)]
    #[verifier::spinoff_prover]
    fn package_commitments(
        ncircuits: usize,
        total: usize,
        zk: bool,
        first_comms: &Vec<LabeledCommitment>,
        second_comms: &Vec<LabeledCommitment>,
        third_comms: &Vec<LabeledCommitment>,
        fourth_comms: &Vec<LabeledCommitment>,
    ) -> (r: crate::proof_data::Commitments)
        requires
            first_comms@.len() == 3 * total + if zk {
                1int
            } else {
                0int
            },
            second_comms@.len() == 2,
            third_comms@.len() == 3 * ncircuits,
            fourth_comms@.len() == 1,
        ensures
            (r.mask_poly is Some) <==> zk,
            r.witness_commitments@.len() == total as int,
            r.g_a_commitments@.len() == ncircuits as int,
            r.g_b_commitments@.len() == ncircuits as int,
            r.g_c_commitments@.len() == ncircuits as int,
            forall|g: int|
                0 <= g < total as int ==> {
                    &&& (#[trigger] r.witness_commitments@[g]).w.coeffs@ == first_comms@[3
                        * g].commitment.coeffs@
                    &&& r.witness_commitments@[g].z_a.coeffs@ == first_comms@[3 * g
                        + 1].commitment.coeffs@
                    &&& r.witness_commitments@[g].z_b.coeffs@ == first_comms@[3 * g
                        + 2].commitment.coeffs@
                },
            zk ==> (r.mask_poly matches Some(m) && m.coeffs@ == first_comms@[3
                * total as int].commitment.coeffs@),
            r.g_1.coeffs@ == second_comms@[0].commitment.coeffs@,
            r.h_1.coeffs@ == second_comms@[1].commitment.coeffs@,
            forall|ci: int|
                0 <= ci < ncircuits as int ==> {
                    &&& (#[trigger] r.g_a_commitments@[ci]).coeffs@ == third_comms@[3
                        * ci].commitment.coeffs@
                    &&& r.g_b_commitments@[ci].coeffs@ == third_comms@[3 * ci
                        + 1].commitment.coeffs@
                    &&& r.g_c_commitments@[ci].coeffs@ == third_comms@[3 * ci
                        + 2].commitment.coeffs@
                },
            r.h_2.coeffs@ == fourth_comms@[0].commitment.coeffs@,
    {
        let mut witness_commitments: Vec<crate::proof_data::WitnessCommitments> = Vec::new();
        let first_len = first_comms.len();
        let mut g: usize = 0;
        while g < total
            invariant
                g <= total,
                first_len as int == first_comms@.len(),
                first_comms@.len() == 3 * total + if zk {
                    1int
                } else {
                    0int
                },
                witness_commitments@.len() == g as int,
                forall|t: int|
                    0 <= t < g as int ==> {
                        &&& (#[trigger] witness_commitments@[t]).w.coeffs@ == first_comms@[3
                            * t].commitment.coeffs@
                        &&& witness_commitments@[t].z_a.coeffs@ == first_comms@[3 * t
                            + 1].commitment.coeffs@
                        &&& witness_commitments@[t].z_b.coeffs@ == first_comms@[3 * t
                            + 2].commitment.coeffs@
                    },
            decreases total - g,
        {
            assert(3 * g as int + 2 < first_len as int);
            witness_commitments.push(
                crate::proof_data::WitnessCommitments {
                    w: Commitment {
                        coeffs: clone_u64_vec(&first_comms[3 * g].commitment.coeffs),
                    },
                    z_a: Commitment {
                        coeffs: clone_u64_vec(&first_comms[3 * g + 1].commitment.coeffs),
                    },
                    z_b: Commitment {
                        coeffs: clone_u64_vec(&first_comms[3 * g + 2].commitment.coeffs),
                    },
                },
            );
            g = g + 1;
        }
        let mask_poly: Option<Commitment> = if zk {
            Some(
                Commitment { coeffs: clone_u64_vec(&first_comms[3 * total].commitment.coeffs) },
            )
        } else {
            None
        };
        let mut g_a_commitments: Vec<Commitment> = Vec::new();
        let mut g_b_commitments: Vec<Commitment> = Vec::new();
        let mut g_c_commitments: Vec<Commitment> = Vec::new();
        let third_len = third_comms.len();
        let mut c3: usize = 0;
        while c3 < ncircuits
            invariant
                c3 <= ncircuits,
                third_len as int == third_comms@.len(),
                third_comms@.len() == 3 * ncircuits,
                g_a_commitments@.len() == c3 as int,
                g_b_commitments@.len() == c3 as int,
                g_c_commitments@.len() == c3 as int,
                forall|t: int|
                    0 <= t < c3 as int ==> {
                        &&& (#[trigger] g_a_commitments@[t]).coeffs@ == third_comms@[3
                            * t].commitment.coeffs@
                        &&& g_b_commitments@[t].coeffs@ == third_comms@[3 * t
                            + 1].commitment.coeffs@
                        &&& g_c_commitments@[t].coeffs@ == third_comms@[3 * t
                            + 2].commitment.coeffs@
                    },
            decreases ncircuits - c3,
        {
            assert(3 * c3 as int + 2 < third_len as int);
            g_a_commitments.push(
                Commitment { coeffs: clone_u64_vec(&third_comms[3 * c3].commitment.coeffs) },
            );
            g_b_commitments.push(
                Commitment { coeffs: clone_u64_vec(&third_comms[3 * c3 + 1].commitment.coeffs) },
            );
            g_c_commitments.push(
                Commitment { coeffs: clone_u64_vec(&third_comms[3 * c3 + 2].commitment.coeffs) },
            );
            c3 = c3 + 1;
        }
        crate::proof_data::Commitments {
            witness_commitments,
            mask_poly,
            g_1: Commitment { coeffs: clone_u64_vec(&second_comms[0].commitment.coeffs) },
            h_1: Commitment { coeffs: clone_u64_vec(&second_comms[1].commitment.coeffs) },
            g_a_commitments,
            g_b_commitments,
            g_c_commitments,
            h_2: Commitment { coeffs: clone_u64_vec(&fourth_comms[0].commitment.coeffs) },
        }
    }

    /// Derives the query set and combinations, computes and absorbs the wire
    /// evaluations, opens the combinations and assembles the proof.
    #[verifier::rlimit(100)]
    #[verifier::spinoff_prover]
    fn finish_proof(
        committer_key: &crate::pcs::CommitterKey,
        batch_sizes: Vec<crate::proof_data::BatchSizeEntry>,
        commitments: crate::proof_data::Commitments,
        polys: Vec<LabeledPolynomial>,
        rands: Vec<u64>,
        msg: ThirdMessage,
        beta: u64,
        sponge: &mut Sponge,
    ) -> (p: crate::proof_data::Proof)
        requires
            all_polys_wf(polys@),
            polys@.len() == rands@.len(),
            fe_valid(beta),
            old(sponge).wf(),
        ensures
            p.batch_sizes@ == batch_sizes@,
            p.commitments == commitments,
            p.msg == msg,
            p.pc_proof.hiding == crate::pcs::spec_any_hiding(rands@),
            p.evaluations.wf(),
    {
        let mut labels: Vec<PolyLabel> = Vec::new();
        let mut li: usize = 0;
        while li < polys.len()
            invariant
                li <= polys@.len(),
                labels@.len() == li as int,
                forall|j: int| 0 <= j < li as int ==> #[trigger] labels@[j] == polys@[j].label,
            decreases polys@.len() - li,
        {
            labels.push(polys[li].label);
            li = li + 1;
        }
        proof {
            assert(labels@ =~= poly_labels(polys@));
        }
        let lcs = crate::rounds::construct_linear_combinations(&labels);
        let query_set = crate::rounds::verifier_query_set(&lcs, beta);
        let (evaluations, values) = Self::compute_evaluations(&polys, &lcs, beta);
        sponge.absorb_nonnative_field_elements(&values);
        proof {
            crate::pcs::lemma_direct_lcs_eval_ok(
                poly_labels(polys@),
                poly_coeff_seqs(polys@),
                lcs@,
                query_set@,
            );
        }
        let pc_proof = match open_combinations(
            committer_key,
            &lcs,
            &polys,
            &query_set,
            &rands,
            sponge,
        ) {
            Ok(pc) => pc,
            Err(e) => {
                assert(false);
                PcProof { combined: 0, hiding: false }
            },
        };
        crate::proof_data::Proof { batch_sizes, commitments, evaluations, msg, pc_proof }
    }

    /// Produces a batch proof, observing the termination flag between every
    /// step.
    ///
    /// Fails with the empty-batch error on an empty batch or a circuit
    /// without instances, with the termination error once the flag is
    /// observed, and with the invalid-instance error on an assignment that
    /// does not fit its circuit; succeeds exactly otherwise. A returned proof
    /// hides exactly in zero-knowledge mode, carries the mask commitment
    /// exactly then, and records each circuit's hash, metadata and instance
    /// count in batch order. In non-zero-knowledge mode every commitment
    /// randomness is the empty sentinel.
    #[verifier::rlimit(100)]
    #[verifier::spinoff_prover]
    pub fn prove_batch_with_terminator(
        fs_parameters: u64,
        keys: &Vec<CircuitProvingKey>,
        assignments: &Vec<Vec<Vec<u64>>>,
        terminator: &Terminator,
        rng: &mut ProofRng,
    ) -> (r: Result<crate::proof_data::Proof, SnarkError>)
        requires
            spec_prover_batch_wf(keys@, assignments@),
            old(rng).wf(),
        ensures
            keys@.len() == 0 ==> r == Result::<crate::proof_data::Proof, SnarkError>::Err(
                SnarkError::EmptyBatch,
            ),
            keys@.len() > 0 && terminator.flag ==> r == Result::<
                crate::proof_data::Proof,
                SnarkError,
            >::Err(SnarkError::Terminated),
            (r is Ok) <==> (keys@.len() > 0 && !terminator.flag && spec_batch_instances_ok(
                keys@,
                assignments@,
            )),
            r matches Ok(p) ==> {
                &&& p.wf()
                &&& p.batch_sizes@.len() == keys@.len()
                &&& forall|ci: int|
                    0 <= ci < keys@.len() ==> {
                        &&& (#[trigger] p.batch_sizes@[ci]).circuit_hash
                            == keys@[ci].circuit.hash
                        &&& p.batch_sizes@[ci].circuit_info == keys@[ci].circuit.info
                        &&& p.batch_sizes@[ci].instance_count == assignments@[ci]@.len()
                    }
                &&& p.pc_proof.hiding == keys@[0].circuit_verifying_key.zk_mode
                &&& (p.commitments.mask_poly is Some) <==> keys@[0].circuit_verifying_key.zk_mode
                &&& p.commitments.witness_commitments@.len() == spec_assign_total(assignments@)
                &&& p.commitments.g_a_commitments@.len() == keys@.len()
                &&& p.commitments.g_b_commitments@.len() == keys@.len()
                &&& p.commitments.g_c_commitments@.len() == keys@.len()
                &&& p.msg.sums@.len() == keys@.len()
                &&& p.evaluations.wf()
                &&& ((forall|ci: int|
                    0 <= ci < keys@.len() ==> crate::rounds::all_instances_satisfied(
                        (#[trigger] keys@[ci]).circuit,
                        assignments@[ci]@,
                    )) ==> forall|i: int|
                    0 <= i < p.commitments.h_1.coeffs@.len() ==> p.commitments.h_1.coeffs@[i]
                        == 0u64)
            },
    {
        if keys.len() == 0 {
            return Err(SnarkError::EmptyBatch);
        }
        match Self::terminate(terminator) {
            Ok(_) => (),
            Err(e) => {
                return Err(e);
            },
        }
        let zk = keys[0].circuit_verifying_key.zk_mode;

        let padded_inputs = match Self::validate_batch(keys, assignments) {
            Ok(p) => p,
            Err(e) => {
                return Err(e);
            },
        };
        let batch_sizes = Self::build_batch_sizes(keys, assignments);
        let total = Self::total_instances(assignments);
        proof {
            let one = assignments@.subrange(0, 1);
            assert(one.drop_last() =~= Seq::<Vec<Vec<u64>>>::empty());
            assert(one.last() == assignments@[0]);
            assert(spec_assign_total(Seq::<Vec<Vec<u64>>>::empty()) == 0);
            assert(assignments@[0]@.len() >= 1);
            assert(spec_assign_total(one) >= 1);
            lemma_assign_total_prefix(assignments@, 1);
            assert(total >= 1);
        }

        let mut commitment_lists: Vec<Vec<Commitment>> = Vec::new();
        let mut ci: usize = 0;
        while ci < keys.len()
            invariant
                ci <= keys@.len(),
                spec_prover_batch_wf(keys@, assignments@),
            decreases keys@.len() - ci,
        {
            commitment_lists.push(
                Self::clone_commitments(&keys[ci].circuit_verifying_key.circuit_commitments),
            );
            ci = ci + 1;
        }
        let mut sponge = Self::init_sponge(
            fs_parameters,
            &batch_sizes,
            &commitment_lists,
            &padded_inputs,
        );
        let committer_key = Self::committer_key_union(keys);

        // First round.
        let first_oracles = Self::prover_first_round(keys, assignments, zk, rng);
        match Self::terminate(terminator) {
            Ok(_) => (),
            Err(e) => {
                return Err(e);
            },
        }
        let (first_comms, first_rands) = commit(&committer_key, &first_oracles, rng);
        Self::absorb_labeled(&first_comms, &mut sponge);
        let first_msg = crate::rounds::verifier_first_round(&mut sponge);
        let alpha = first_msg[0];

        // Second round.
        match Self::terminate(terminator) {
            Ok(_) => (),
            Err(e) => {
                return Err(e);
            },
        }
        let second_oracles = Self::prover_second_round(keys, assignments, alpha, zk);
        let (second_comms, second_rands) = match crate::pcs::commit_with_terminator(
            &committer_key,
            &second_oracles,
            terminator,
            rng,
        ) {
            Ok(c) => c,
            Err(e) => {
                return Err(e);
            },
        };
        Self::absorb_labeled(&second_comms, &mut sponge);
        let _beta_one = crate::rounds::verifier_second_round(&mut sponge);

        // Third round.
        match Self::terminate(terminator) {
            Ok(_) => (),
            Err(e) => {
                return Err(e);
            },
        }
        let (third_oracles, msg) = Self::prover_third_round(keys, assignments, zk);
        let (third_comms, third_rands) = match crate::pcs::commit_with_terminator(
            &committer_key,
            &third_oracles,
            terminator,
            rng,
        ) {
            Ok(c) => c,
            Err(e) => {
                return Err(e);
            },
        };
        Self::absorb_labeled_with_msg(&third_comms, &msg, &mut sponge);
        let delta = crate::rounds::verifier_third_round(&mut sponge);

        // Fourth round.
        match Self::terminate(terminator) {
            Ok(_) => (),
            Err(e) => {
                return Err(e);
            },
        }
        let h2 = crate::poly::poly_scale(delta, &second_oracles[1].coeffs);
        let mut fourth_oracles: Vec<LabeledPolynomial> = Vec::new();
        fourth_oracles.push(LabeledPolynomial { label: PolyLabel::H2, coeffs: h2, hiding: zk });
        let (fourth_comms, fourth_rands) = match crate::pcs::commit_with_terminator(
            &committer_key,
            &fourth_oracles,
            terminator,
            rng,
        ) {
            Ok(c) => c,
            Err(e) => {
                return Err(e);
            },
        };
        Self::absorb_labeled(&fourth_comms, &mut sponge);
        let beta = crate::rounds::verifier_fourth_round(&mut sponge);

        // Aggregation and packaging.
        let commitments = Self::package_commitments(
            keys.len(),
            total,
            zk,
            &first_comms,
            &second_comms,
            &third_comms,
            &fourth_comms,
        );
        proof {
            assert(commitments.h_1.coeffs@ == second_oracles@[1].coeffs@);
        }
        let (polys, rands) = Self::aggregate_polys_and_rands(
            keys,
            first_oracles,
            first_rands,
            second_oracles,
            second_rands,
            third_oracles,
            third_rands,
            fourth_oracles,
            fourth_rands,
            zk,
        );

        match Self::terminate(terminator) {
            Ok(_) => (),
            Err(e) => {
                return Err(e);
            },
        }
        let snark_proof = Self::finish_proof(
            &committer_key,
            batch_sizes,
            commitments,
            polys,
            rands,
            msg,
            beta,
            &mut sponge,
        );
        proof {
            assert(crate::proof_data::spec_batch_total(snark_proof.batch_sizes@)
                == spec_assign_total(assignments@));
        }
        Ok(snark_proof)
    }

    /// Produces a batch proof with a terminator that is never set.
    pub fn prove_batch(
        fs_parameters: u64,
        keys: &Vec<CircuitProvingKey>,
        assignments: &Vec<Vec<Vec<u64>>>,
        rng: &mut ProofRng,
    ) -> (r: Result<crate::proof_data::Proof, SnarkError>)
        requires
            spec_prover_batch_wf(keys@, assignments@),
            old(rng).wf(),
        ensures
            keys@.len() == 0 ==> r == Result::<crate::proof_data::Proof, SnarkError>::Err(
                SnarkError::EmptyBatch,
            ),
            (r is Ok) <==> (keys@.len() > 0 && spec_batch_instances_ok(keys@, assignments@)),
            r matches Ok(p) ==> {
                &&& p.wf()
                &&& p.batch_sizes@.len() == keys@.len()
                &&& forall|ci: int|
                    0 <= ci < keys@.len() ==> {
                        &&& (#[trigger] p.batch_sizes@[ci]).circuit_hash
                            == keys@[ci].circuit.hash
                        &&& p.batch_sizes@[ci].circuit_info == keys@[ci].circuit.info
                        &&& p.batch_sizes@[ci].instance_count == assignments@[ci]@.len()
                    }
                &&& p.pc_proof.hiding == keys@[0].circuit_verifying_key.zk_mode
                &&& (p.commitments.mask_poly is Some) <==> keys@[0].circuit_verifying_key.zk_mode
                &&& p.commitments.witness_commitments@.len() == spec_assign_total(assignments@)
                &&& p.commitments.g_a_commitments@.len() == keys@.len()
                &&& p.commitments.g_b_commitments@.len() == keys@.len()
                &&& p.commitments.g_c_commitments@.len() == keys@.len()
                &&& p.msg.sums@.len() == keys@.len()
                &&& p.evaluations.wf()
                &&& ((forall|ci: int|
                    0 <= ci < keys@.len() ==> crate::rounds::all_instances_satisfied(
                        (#[trigger] keys@[ci]).circuit,
                        assignments@[ci]@,
                    )) ==> forall|i: int|
                    0 <= i < p.commitments.h_1.coeffs@.len() ==> p.commitments.h_1.coeffs@[i]
                        == 0u64)
            },
    {
        let terminator = Terminator::new();
        Self::prove_batch_with_terminator(fs_parameters, keys, assignments, &terminator, rng)
    }

    /// Decides whether a commitment's coefficients are all reduced residues.
    fn commitment_wf_check(c: &Commitment) -> (r: bool)
        ensures
            r == c.wf(),
    {
        let mut i: usize = 0;
        while i < c.coeffs.len()
            invariant
                i <= c.coeffs@.len(),
                forall|j: int| 0 <= j < i as int ==> fe_valid(#[trigger] c.coeffs@[j]),
            decreases c.coeffs@.len() - i,
        {
            if c.coeffs[i] >= crate::field::FIELD_MODULUS {
                return false;
            }
            i = i + 1;
        }
        true
    }

    /// Decides whether a proof's wire evaluations are all reduced residues.
    fn evaluations_wf_check(e: &crate::proof_data::Evaluations) -> (r: bool)
        ensures
            r == e.wf(),
    {
        let mut i: usize = 0;
        while i < e.entries.len()
            invariant
                i <= e.entries@.len(),
                forall|j: int| 0 <= j < i as int ==> fe_valid((#[trigger] e.entries@[j]).1),
            decreases e.entries@.len() - i,
        {
            if e.entries[i].1 >= crate::field::FIELD_MODULUS {
                return false;
            }
            i = i + 1;
        }
        true
    }

    /// The batch-size map of the proof names exactly the verifying keys'
    /// circuits with exactly the supplied instance counts.
    pub open spec fn spec_sizes_match(
        proof: crate::proof_data::Proof,
        vks: Seq<CircuitVerifyingKey>,
        inputs: Seq<Vec<Vec<u64>>>,
    ) -> bool {
        &&& proof.batch_sizes@.len() == vks.len()
        &&& forall|ci: int|
            0 <= ci < vks.len() ==> (#[trigger] proof.batch_sizes@[ci]).instance_count
                == inputs[ci]@.len()
    }

    /// The structural gates a proof must pass before the algebraic check: the
    /// batch-size map matches the keys and inputs, every circuit has
    /// instances, the named hashes and metadata are the keys' own, the hiding
    /// mode and mask presence match the mode tag, the commitment record has
    /// the batch's shape, and every carried value is a reduced residue.
    pub open spec fn spec_batch_gates_ok(
        vks: Seq<CircuitVerifyingKey>,
        inputs: Seq<Vec<Vec<u64>>>,
        proof: crate::proof_data::Proof,
    ) -> bool {
        let ncirc = vks.len() as int;
        let total = spec_assign_total(inputs);
        &&& ncirc >= 1
        &&& total >= 1
        &&& Self::spec_sizes_match(proof, vks, inputs)
        &&& forall|ci: int| 0 <= ci < inputs.len() ==> (#[trigger] inputs[ci])@.len() >= 1
        &&& forall|ci: int|
            0 <= ci < ncirc ==> (#[trigger] proof.batch_sizes@[ci]).circuit_hash == vks[ci].hash
                && proof.batch_sizes@[ci].circuit_info == vks[ci].circuit_info
        &&& proof.pc_proof.hiding == vks[0].zk_mode
        &&& ((proof.commitments.mask_poly is Some) <==> vks[0].zk_mode)
        &&& proof.commitments.witness_commitments@.len() == total
        &&& proof.commitments.g_a_commitments@.len() == ncirc
        &&& proof.commitments.g_b_commitments@.len() == ncirc
        &&& proof.commitments.g_c_commitments@.len() == ncirc
        &&& proof.msg.sums@.len() == ncirc
        &&& proof.evaluations.wf()
        &&& forall|g: int|
            0 <= g < total ==> (#[trigger] proof.commitments.witness_commitments@[g]).w.wf()
                && proof.commitments.witness_commitments@[g].z_a.wf()
                && proof.commitments.witness_commitments@[g].z_b.wf()
        &&& (proof.commitments.mask_poly matches Some(m) ==> m.wf())
        &&& proof.commitments.g_1.wf()
        &&& proof.commitments.h_1.wf()
        &&& proof.commitments.h_2.wf()
        &&& forall|ci: int|
            0 <= ci < ncirc ==> (#[trigger] proof.commitments.g_a_commitments@[ci]).wf()
                && proof.commitments.g_b_commitments@[ci].wf()
                && proof.commitments.g_c_commitments@[ci].wf()
    }

    /// Whether the proof's evaluations carry every queried combination whose
    /// value is not zero by construction.
    #[verifier::opaque]
    pub open spec fn spec_all_queried_present(
        vks: Seq<CircuitVerifyingKey>,
        inputs: Seq<Vec<Vec<u64>>>,
        proof: crate::proof_data::Proof,
    ) -> bool {
        let labels = spec_batch_labels(
            vks.len() as int,
            spec_assign_total(inputs),
            vks[0].zk_mode,
        );
        forall|i: int|
            0 <= i < labels.len() ==> (crate::rounds::spec_lc_zero_eval(
                LcLabel::PolyLc(#[trigger] labels[i]),
            ) || proof.evaluations.spec_has(LcLabel::PolyLc(labels[i])))
    }

    /// The verdict of the batch verifier on a proof that passes the gates:
    /// the transcript is replayed in the prover's order; every queried
    /// combination's claimed value (zero for the zero-by-construction one,
    /// the wire value otherwise) must equal the value recomputed from the
    /// commitments at the squeezed point, and the proof's aggregate must
    /// match the claimed values under the squeezed aggregation challenge.
    #[verifier::opaque]
    pub open spec fn spec_batch_verdict(
        fs: u64,
        vks: Seq<CircuitVerifyingKey>,
        inputs: Seq<Vec<Vec<u64>>>,
        proof: crate::proof_data::Proof,
    ) -> bool {
        let ncirc = vks.len() as int;
        let zk = vks[0].zk_mode;
        let total = spec_assign_total(inputs);
        let labels = spec_batch_labels(ncirc, total, zk);
        let coeffs = spec_batch_coeffs(vks, proof, total, zk);
        let s0 = spec_init_sponge_state(
            fs,
            batch_counts(proof.batch_sizes@),
            Seq::new(ncirc as nat, |ci: int| raw_comm_coeffs(vks[ci].circuit_commitments@)),
            spec_padded_views(vks, inputs),
        );
        let t1 = spec_absorb_comms(s0, spec_first_group(proof, total, zk));
        let u1 = spec_squeeze_state(t1, 3);
        let t2 = spec_absorb_comms(u1, spec_second_group(proof));
        let u2 = spec_squeeze_state(t2, 1);
        let t3 = spec_absorb_sums(spec_absorb_comms(u2, spec_third_group(proof, ncirc)), proof.msg.sums@);
        let u3 = spec_squeeze_state(t3, 1);
        let beta = spec_squeeze_state(spec_absorb_comms(u3, spec_fourth_group(proof)), 1);
        let wire = proof.evaluations.entries@.map_values(|e: (LcLabel, u64)| e.1);
        let s5 = spec_absorb_tagged(beta, TAG_NONNATIVE, wire);
        let claimed = Seq::new(
            labels.len(),
            |i: int|
                if crate::rounds::spec_lc_zero_eval(LcLabel::PolyLc(labels[i])) {
                    0u64
                } else {
                    match crate::proof_data::spec_eval_lookup(
                        proof.evaluations.entries@,
                        LcLabel::PolyLc(labels[i]),
                    ) {
                        Some(v) => v,
                        None => 0u64,
                    }
                },
        );
        let recomputed = Seq::new(labels.len(), |i: int| spec_poly_eval(coeffs[i], beta));
        let gamma = spec_squeeze_state(spec_absorb_tagged(s5, TAG_NONNATIVE, claimed), 1);
        recomputed == claimed && proof.pc_proof.combined == spec_combine(claimed, gamma)
    }

    /// Verifies a batch proof against the verifying keys and the per-circuit
    /// instance inputs, in batch order.
    ///
    /// Rejects an empty batch with the empty-batch error and a count mismatch
    /// with the batch-size-mismatch error; a proof whose hiding mode, mask
    /// presence, structure or field encoding is wrong yields a negative
    /// verdict; a queried combination absent from the proof's evaluations
    /// yields the missing-evaluation error. Otherwise the verdict is the
    /// commitment scheme's check over the replayed transcript.
    #[verifier::rlimit(100)]
    #[verifier::spinoff_prover]
    pub fn verify_batch(
        fs_parameters: u64,
        verifying_keys: &Vec<CircuitVerifyingKey>,
        inputs: &Vec<Vec<Vec<u64>>>,
        proof: &crate::proof_data::Proof,
    ) -> (r: Result<bool, SnarkError>)
        requires
            inputs@.len() == verifying_keys@.len(),
            forall|i: int| 0 <= i < verifying_keys@.len() ==> (#[trigger] verifying_keys@[i]).wf(),
            forall|i: int|
                0 <= i < verifying_keys@.len() ==> (#[trigger] verifying_keys@[i]).zk_mode
                    == verifying_keys@[0].zk_mode,
            forall|ci: int|
                0 <= ci < inputs@.len() ==> forall|k: int|
                    0 <= k < (#[trigger] inputs@[ci])@.len() ==> seq_fe_valid(
                        (#[trigger] inputs@[ci]@[k])@,
                    ) && inputs@[ci]@[k]@.len() < MAX_DOMAIN_INPUT,
            spec_assign_total(inputs@) <= crate::rounds::MAX_INSTANCES,
        ensures
            verifying_keys@.len() == 0 ==> r == Result::<bool, SnarkError>::Err(
                SnarkError::EmptyBatch,
            ),
            verifying_keys@.len() > 0 && spec_assign_total(inputs@) == 0 ==> r == Result::<
                bool,
                SnarkError,
            >::Err(SnarkError::EmptyBatch),
            verifying_keys@.len() > 0 && spec_assign_total(inputs@) > 0
                && !Self::spec_sizes_match(*proof, verifying_keys@, inputs@) ==> r == Result::<
                bool,
                SnarkError,
            >::Err(SnarkError::BatchSizeMismatch),
            verifying_keys@.len() > 0 && spec_assign_total(inputs@) > 0 && Self::spec_sizes_match(
                *proof,
                verifying_keys@,
                inputs@,
            ) && (exists|ci: int|
                0 <= ci < inputs@.len() && (#[trigger] inputs@[ci])@.len() == 0) ==> r
                == Result::<bool, SnarkError>::Err(SnarkError::EmptyBatch),
            verifying_keys@.len() > 0 && spec_assign_total(inputs@) > 0 && Self::spec_sizes_match(
                *proof,
                verifying_keys@,
                inputs@,
            ) && (forall|ci: int|
                0 <= ci < inputs@.len() ==> (#[trigger] inputs@[ci])@.len() >= 1) ==> ((r is Ok)
                || (r matches Err(e) && e matches SnarkError::MissingEval(l)
                && !proof.evaluations.spec_has(l))),
            verifying_keys@.len() > 0 && spec_assign_total(inputs@) > 0 && Self::spec_sizes_match(
                *proof,
                verifying_keys@,
                inputs@,
            ) && (forall|ci: int|
                0 <= ci < inputs@.len() ==> (#[trigger] inputs@[ci])@.len() >= 1) && !(
            proof.pc_proof.hiding == verifying_keys@[0].zk_mode && ((proof.commitments.mask_poly
                is Some) <==> verifying_keys@[0].zk_mode)) ==> r == Result::<
                bool,
                SnarkError,
            >::Ok(false),
            Self::spec_batch_gates_ok(verifying_keys@, inputs@, *proof) ==> (r matches Ok(b)
                ==> b == Self::spec_batch_verdict(fs_parameters, verifying_keys@, inputs@, *proof)),
            Self::spec_batch_gates_ok(verifying_keys@, inputs@, *proof)
                && Self::spec_all_queried_present(verifying_keys@, inputs@, *proof) ==> r
                == Result::<bool, SnarkError>::Ok(
                Self::spec_batch_verdict(fs_parameters, verifying_keys@, inputs@, *proof),
            ),
            r == Result::<bool, SnarkError>::Err(SnarkError::BatchSizeMismatch)
                ==> !Self::spec_sizes_match(*proof, verifying_keys@, inputs@),
            (r matches Err(e) ==> (e matches SnarkError::MissingEval(l)
                ==> !proof.evaluations.spec_has(l))),
            r == Result::<bool, SnarkError>::Ok(true) ==> {
                &&& proof.pc_proof.hiding == verifying_keys@[0].zk_mode
                &&& (proof.commitments.mask_poly is Some) <==> verifying_keys@[0].zk_mode
                &&& Self::spec_sizes_match(*proof, verifying_keys@, inputs@)
            },
    {
        let ncircuits = verifying_keys.len();
        if ncircuits == 0 {
            return Err(SnarkError::EmptyBatch);
        }
        let total = Self::total_instances(inputs);
        if total == 0 {
            return Err(SnarkError::EmptyBatch);
        }
        // Structural checks on the batch-size map.
        if proof.batch_sizes.len() != ncircuits {
            return Err(SnarkError::BatchSizeMismatch);
        }
        let mut ci: usize = 0;
        while ci < ncircuits
            invariant
                ci <= ncircuits,
                ncircuits == verifying_keys@.len(),
                ncircuits >= 1,
                inputs@.len() == verifying_keys@.len(),
                total as int == spec_assign_total(inputs@),
                total >= 1,
                proof.batch_sizes@.len() == ncircuits,
                forall|j: int|
                    0 <= j < ci as int ==> (#[trigger] proof.batch_sizes@[j]).instance_count
                        == inputs@[j]@.len(),
            decreases ncircuits - ci,
        {
            if proof.batch_sizes[ci].instance_count != inputs[ci].len() {
                assert(!Self::spec_sizes_match(*proof, verifying_keys@, inputs@));
                return Err(SnarkError::BatchSizeMismatch);
            }
            ci = ci + 1;
        }
        assert(Self::spec_sizes_match(*proof, verifying_keys@, inputs@));
        let mut c0: usize = 0;
        while c0 < ncircuits
            invariant
                c0 <= ncircuits,
                ncircuits == verifying_keys@.len(),
                ncircuits >= 1,
                inputs@.len() == verifying_keys@.len(),
                total as int == spec_assign_total(inputs@),
                total >= 1,
                Self::spec_sizes_match(*proof, verifying_keys@, inputs@),
                forall|j: int| 0 <= j < c0 as int ==> (#[trigger] inputs@[j])@.len() >= 1,
            decreases ncircuits - c0,
        {
            if inputs[c0].len() == 0 {
                return Err(SnarkError::EmptyBatch);
            }
            c0 = c0 + 1;
        }
        assert(forall|j: int| 0 <= j < inputs@.len() ==> (#[trigger] inputs@[j])@.len() >= 1);
        // The proof must name the keys' circuits.
        let mut c1: usize = 0;
        while c1 < ncircuits
            invariant
                c1 <= ncircuits,
                ncircuits == verifying_keys@.len(),
                ncircuits >= 1,
                total as int == spec_assign_total(inputs@),
                total >= 1,
                Self::spec_sizes_match(*proof, verifying_keys@, inputs@),
                forall|j: int| 0 <= j < inputs@.len() ==> (#[trigger] inputs@[j])@.len() >= 1,
                proof.batch_sizes@.len() == ncircuits,
                forall|j: int|
                    0 <= j < c1 as int ==> (#[trigger] proof.batch_sizes@[j]).circuit_hash
                        == verifying_keys@[j].hash && proof.batch_sizes@[j].circuit_info
                        == verifying_keys@[j].circuit_info,
            decreases ncircuits - c1,
        {
            let entry = &proof.batch_sizes[c1];
            if !(entry.circuit_hash == verifying_keys[c1].hash && entry.circuit_info
                == verifying_keys[c1].circuit_info) {
                return Ok(false);
            }
            c1 = c1 + 1;
        }
        // Zero-knowledge mode consistency.
        let zk = verifying_keys[0].zk_mode;
        let mask_present = match &proof.commitments.mask_poly {
            Some(_) => true,
            None => false,
        };
        let proof_has_correct_zk_mode = proof.pc_proof.is_hiding() == zk && mask_present == zk;
        if !proof_has_correct_zk_mode {
            return Ok(false);
        }
        // Structural and encoding checks on the proof's commitments and
        // evaluations.
        if !(proof.commitments.witness_commitments.len() == total
            && proof.commitments.g_a_commitments.len() == ncircuits
            && proof.commitments.g_b_commitments.len() == ncircuits
            && proof.commitments.g_c_commitments.len() == ncircuits && proof.msg.sums.len()
            == ncircuits) {
            return Ok(false);
        }
        if !Self::evaluations_wf_check(&proof.evaluations) {
            return Ok(false);
        }
        // Encoding checks on the proof's commitments.
        let mut g0: usize = 0;
        while g0 < total
            invariant
                g0 <= total,
                ncircuits == verifying_keys@.len(),
                ncircuits >= 1,
                total as int == spec_assign_total(inputs@),
                total >= 1,
                Self::spec_sizes_match(*proof, verifying_keys@, inputs@),
                forall|j: int| 0 <= j < inputs@.len() ==> (#[trigger] inputs@[j])@.len() >= 1,
                proof.commitments.witness_commitments@.len() == total,
                forall|t: int|
                    0 <= t < g0 as int ==> (
                    #[trigger] proof.commitments.witness_commitments@[t]).w.wf()
                        && proof.commitments.witness_commitments@[t].z_a.wf()
                        && proof.commitments.witness_commitments@[t].z_b.wf(),
            decreases total - g0,
        {
            let wc = &proof.commitments.witness_commitments[g0];
            if !(Self::commitment_wf_check(&wc.w) && Self::commitment_wf_check(&wc.z_a)
                && Self::commitment_wf_check(&wc.z_b)) {
                return Ok(false);
            }
            g0 = g0 + 1;
        }
        match &proof.commitments.mask_poly {
            Some(m) => {
                if !Self::commitment_wf_check(m) {
                    return Ok(false);
                }
            },
            None => (),
        }
        if !(Self::commitment_wf_check(&proof.commitments.g_1) && Self::commitment_wf_check(
            &proof.commitments.h_1,
        ) && Self::commitment_wf_check(&proof.commitments.h_2)) {
            return Ok(false);
        }
        let mut t0: usize = 0;
        while t0 < ncircuits
            invariant
                t0 <= ncircuits,
                ncircuits == verifying_keys@.len(),
                ncircuits >= 1,
                total as int == spec_assign_total(inputs@),
                total >= 1,
                Self::spec_sizes_match(*proof, verifying_keys@, inputs@),
                forall|j: int| 0 <= j < inputs@.len() ==> (#[trigger] inputs@[j])@.len() >= 1,
                proof.commitments.g_a_commitments@.len() == ncircuits,
                proof.commitments.g_b_commitments@.len() == ncircuits,
                proof.commitments.g_c_commitments@.len() == ncircuits,
                forall|t: int|
                    0 <= t < t0 as int ==> (
                    #[trigger] proof.commitments.g_a_commitments@[t]).wf(),
                forall|t: int|
                    0 <= t < t0 as int ==> (
                    #[trigger] proof.commitments.g_b_commitments@[t]).wf(),
                forall|t: int|
                    0 <= t < t0 as int ==> (
                    #[trigger] proof.commitments.g_c_commitments@[t]).wf(),
            decreases ncircuits - t0,
        {
            if !(Self::commitment_wf_check(&proof.commitments.g_a_commitments[t0])
                && Self::commitment_wf_check(&proof.commitments.g_b_commitments[t0])
                && Self::commitment_wf_check(&proof.commitments.g_c_commitments[t0])) {
                return Ok(false);
            }
            assert(proof.commitments.g_a_commitments@[t0 as int].wf()
                && proof.commitments.g_b_commitments@[t0 as int].wf()
                && proof.commitments.g_c_commitments@[t0 as int].wf());
            t0 = t0 + 1;
        }
        assert(Self::spec_batch_gates_ok(verifying_keys@, inputs@, *proof));
        Self::verify_batch_checked(fs_parameters, verifying_keys, inputs, proof, total)
    }

    /// The reconstructed round groups carry exactly the proof's commitment
    /// coefficients, group by group.
    #[verifier::rlimit(100)]
    #[verifier::spinoff_prover]
    proof fn lemma_batch_groups_shape(
        gfirst: Seq<LabeledCommitment>,
        gsecond: Seq<LabeledCommitment>,
        gthird: Seq<LabeledCommitment>,
        gfourth: Seq<LabeledCommitment>,
        proof: crate::proof_data::Proof,
        ncirc: int,
        total: int,
        zk: bool,
    )
        requires
            total >= 0,
            ncirc >= 0,
            gfirst.len() == 3 * total + if zk {
                1int
            } else {
                0int
            },
            forall|t: int|
                0 <= t < total ==> {
                    &&& (#[trigger] gfirst[3 * t]).commitment.coeffs@
                        == proof.commitments.witness_commitments@[t].w.coeffs@
                    &&& gfirst[3 * t + 1].commitment.coeffs@
                        == proof.commitments.witness_commitments@[t].z_a.coeffs@
                    &&& gfirst[3 * t + 2].commitment.coeffs@
                        == proof.commitments.witness_commitments@[t].z_b.coeffs@
                },
            zk ==> (proof.commitments.mask_poly matches Some(m) && gfirst[3
                * total].commitment.coeffs@ == m.coeffs@),
            gsecond.len() == 2,
            gsecond[0].commitment.coeffs@ == proof.commitments.g_1.coeffs@,
            gsecond[1].commitment.coeffs@ == proof.commitments.h_1.coeffs@,
            gthird.len() == 3 * ncirc,
            forall|t: int|
                0 <= t < ncirc ==> {
                    &&& (#[trigger] gthird[3 * t]).commitment.coeffs@
                        == proof.commitments.g_a_commitments@[t].coeffs@
                    &&& gthird[3 * t + 1].commitment.coeffs@
                        == proof.commitments.g_b_commitments@[t].coeffs@
                    &&& gthird[3 * t + 2].commitment.coeffs@
                        == proof.commitments.g_c_commitments@[t].coeffs@
                },
            gfourth.len() == 1,
            gfourth[0].commitment.coeffs@ == proof.commitments.h_2.coeffs@,
        ensures
            comm_coeff_seqs(gfirst) == spec_first_group(proof, total, zk),
            comm_coeff_seqs(gsecond) == spec_second_group(proof),
            comm_coeff_seqs(gthird) == spec_third_group(proof, ncirc),
            comm_coeff_seqs(gfourth) == spec_fourth_group(proof),
    {
        assert forall|j: int|
            0 <= j < gfirst.len() implies #[trigger] comm_coeff_seqs(gfirst)[j]
            == spec_first_group(proof, total, zk)[j] by {
            assert(comm_coeff_seqs(gfirst)[j] == gfirst[j].commitment.coeffs@);
            if j < 3 * total {
                let t = j / 3;
                assert(j == 3 * t + j % 3);
                if j % 3 == 0 {
                    assert(gfirst[3 * t].commitment.coeffs@
                        == proof.commitments.witness_commitments@[t].w.coeffs@);
                } else if j % 3 == 1 {
                    assert(gfirst[3 * t + 1].commitment.coeffs@
                        == proof.commitments.witness_commitments@[t].z_a.coeffs@);
                } else {
                    assert(gfirst[3 * t + 2].commitment.coeffs@
                        == proof.commitments.witness_commitments@[t].z_b.coeffs@);
                }
            }
        }
        assert(comm_coeff_seqs(gfirst) =~= spec_first_group(proof, total, zk));
        assert(comm_coeff_seqs(gsecond) =~= spec_second_group(proof));
        assert forall|j: int|
            0 <= j < gthird.len() implies #[trigger] comm_coeff_seqs(gthird)[j]
            == spec_third_group(proof, ncirc)[j] by {
            assert(comm_coeff_seqs(gthird)[j] == gthird[j].commitment.coeffs@);
            let t = j / 3;
            assert(j == 3 * t + j % 3);
            if j % 3 == 0 {
                assert(gthird[3 * t].commitment.coeffs@
                    == proof.commitments.g_a_commitments@[t].coeffs@);
            } else if j % 3 == 1 {
                assert(gthird[3 * t + 1].commitment.coeffs@
                    == proof.commitments.g_b_commitments@[t].coeffs@);
            } else {
                assert(gthird[3 * t + 2].commitment.coeffs@
                    == proof.commitments.g_c_commitments@[t].coeffs@);
            }
        }
        assert(comm_coeff_seqs(gthird) =~= spec_third_group(proof, ncirc));
        assert(comm_coeff_seqs(gfourth) =~= spec_fourth_group(proof));
    }

    /// The reconstructed commitment list, part by part, carries exactly the
    /// canonical batch labels and the proof's commitment coefficients.
    #[verifier::rlimit(100)]
    #[verifier::spinoff_prover]
    proof fn lemma_batch_list_shape(
        gindex: Seq<LabeledCommitment>,
        gfirst: Seq<LabeledCommitment>,
        gsecond: Seq<LabeledCommitment>,
        gthird: Seq<LabeledCommitment>,
        gfourth: Seq<LabeledCommitment>,
        vks: Seq<CircuitVerifyingKey>,
        proof: crate::proof_data::Proof,
        total: int,
        zk: bool,
    )
        requires
            vks.len() >= 1,
            total >= 0,
            proof.commitments.witness_commitments@.len() == total,
            proof.commitments.g_a_commitments@.len() == vks.len(),
            proof.commitments.g_b_commitments@.len() == vks.len(),
            proof.commitments.g_c_commitments@.len() == vks.len(),
            forall|ci: int|
                0 <= ci < vks.len() ==> (#[trigger] vks[ci]).circuit_commitments@.len()
                    == NUM_INDEX_POLYS,
            gindex.len() == 12 * vks.len(),
            forall|j: int|
                0 <= j < gindex.len() ==> (#[trigger] gindex[j]).label == PolyLabel::Index(
                    (j / 12) as usize,
                    spec_index_label_of_rank(j % 12),
                ) && gindex[j].commitment.coeffs@ == vks[j / 12].circuit_commitments@[j
                    % 12].coeffs@,
            gfirst.len() == 3 * total + if zk {
                1int
            } else {
                0int
            },
            forall|t: int|
                0 <= t < total ==> {
                    &&& (#[trigger] gfirst[3 * t]).label == PolyLabel::Witness(
                        crate::labels::WitnessKind::W,
                        t as usize,
                    )
                    &&& gfirst[3 * t].commitment.coeffs@
                        == proof.commitments.witness_commitments@[t].w.coeffs@
                    &&& gfirst[3 * t + 1].label == PolyLabel::Witness(
                        crate::labels::WitnessKind::ZA,
                        t as usize,
                    )
                    &&& gfirst[3 * t + 1].commitment.coeffs@
                        == proof.commitments.witness_commitments@[t].z_a.coeffs@
                    &&& gfirst[3 * t + 2].label == PolyLabel::Witness(
                        crate::labels::WitnessKind::ZB,
                        t as usize,
                    )
                    &&& gfirst[3 * t + 2].commitment.coeffs@
                        == proof.commitments.witness_commitments@[t].z_b.coeffs@
                },
            zk ==> (gfirst[3 * total].label == PolyLabel::MaskPoly
                && (proof.commitments.mask_poly matches Some(m) && gfirst[3
                * total].commitment.coeffs@ == m.coeffs@)),
            gsecond.len() == 2,
            gsecond[0].label == PolyLabel::G1,
            gsecond[0].commitment.coeffs@ == proof.commitments.g_1.coeffs@,
            gsecond[1].label == PolyLabel::H1,
            gsecond[1].commitment.coeffs@ == proof.commitments.h_1.coeffs@,
            gthird.len() == 3 * vks.len(),
            forall|t: int|
                0 <= t < vks.len() ==> {
                    &&& (#[trigger] gthird[3 * t]).label == PolyLabel::GA(t as usize)
                    &&& gthird[3 * t].commitment.coeffs@
                        == proof.commitments.g_a_commitments@[t].coeffs@
                    &&& gthird[3 * t + 1].label == PolyLabel::GB(t as usize)
                    &&& gthird[3 * t + 1].commitment.coeffs@
                        == proof.commitments.g_b_commitments@[t].coeffs@
                    &&& gthird[3 * t + 2].label == PolyLabel::GC(t as usize)
                    &&& gthird[3 * t + 2].commitment.coeffs@
                        == proof.commitments.g_c_commitments@[t].coeffs@
                },
            gfourth.len() == 1,
            gfourth[0].label == PolyLabel::H2,
            gfourth[0].commitment.coeffs@ == proof.commitments.h_2.coeffs@,
        ensures
            comm_coeff_seqs(gfirst) == spec_first_group(proof, total, zk),
            comm_coeff_seqs(gsecond) == spec_second_group(proof),
            comm_coeff_seqs(gthird) == spec_third_group(proof, vks.len() as int),
            comm_coeff_seqs(gfourth) == spec_fourth_group(proof),
            comm_labels(gindex + gfirst + gsecond + gthird + gfourth) == spec_batch_labels(
                vks.len() as int,
                total,
                zk,
            ),
            comm_coeff_seqs(gindex + gfirst + gsecond + gthird + gfourth) == spec_batch_coeffs(
                vks,
                proof,
                total,
                zk,
            ),
    {
        let ncirc = vks.len() as int;
        Self::lemma_batch_groups_shape(gfirst, gsecond, gthird, gfourth, proof, ncirc, total, zk);
        let all = gindex + gfirst + gsecond + gthird + gfourth;
        let glabels = spec_batch_labels(ncirc, total, zk);
        let gcoeffs = spec_batch_coeffs(vks, proof, total, zk);
        let b0 = 12 * ncirc;
        let maskn = if zk {
            1int
        } else {
            0int
        };
        let b1 = b0 + 3 * total;
        let b2 = b1 + maskn;
        let b3 = b2 + 2;
        let b4 = b3 + 3 * ncirc;
        assert(glabels.len() == b4 + 1);
        assert(gcoeffs.len() == b4 + 1);
        assert(all.len() == b4 + 1);
        assert forall|j: int|
            0 <= j < all.len() implies #[trigger] comm_labels(all)[j] == glabels[j]
            && comm_coeff_seqs(all)[j] == gcoeffs[j] by {
            assert(comm_labels(all)[j] == all[j].label);
            assert(comm_coeff_seqs(all)[j] == all[j].commitment.coeffs@);
            if j < b0 {
                assert(all[j] == gindex[j]);
                assert(j == 12 * (j / 12) + j % 12);
                assert(glabels[j] == PolyLabel::Index(
                    (j / 12) as usize,
                    spec_index_label_of_rank(j % 12),
                ));
                assert(gcoeffs[j] == vks[j / 12].circuit_commitments@[j % 12].coeffs@);
            } else if j < b2 {
                let i2 = j - b0;
                assert(all[j] == gfirst[i2]);
                assert(glabels[j] == spec_batch_labels(ncirc, total, zk)[j]);
                assert(gcoeffs[j] == spec_first_group(proof, total, zk)[i2]);
                assert(comm_coeff_seqs(all)[j] == comm_coeff_seqs(gfirst)[i2]);
                if i2 < 3 * total {
                    let t = i2 / 3;
                    assert(i2 == 3 * t + i2 % 3);
                    assert(glabels[j] == spec_witness_label(i2));
                    if i2 % 3 == 0 {
                        assert(gfirst[3 * t].label == PolyLabel::Witness(
                            crate::labels::WitnessKind::W,
                            t as usize,
                        ));
                    } else if i2 % 3 == 1 {
                        assert(gfirst[3 * t + 1].label == PolyLabel::Witness(
                            crate::labels::WitnessKind::ZA,
                            t as usize,
                        ));
                    } else {
                        assert(gfirst[3 * t + 2].label == PolyLabel::Witness(
                            crate::labels::WitnessKind::ZB,
                            t as usize,
                        ));
                    }
                } else {
                    assert(i2 == 3 * total);
                    assert(glabels[j] == PolyLabel::MaskPoly);
                }
            } else if j < b3 {
                assert(all[j] == gsecond[j - b2]);
                assert(gcoeffs[j] == spec_second_group(proof)[j - b2]);
                assert(comm_coeff_seqs(all)[j] == comm_coeff_seqs(gsecond)[j - b2]);
            } else if j < b4 {
                let i2 = j - b3;
                assert(all[j] == gthird[i2]);
                assert(gcoeffs[j] == spec_third_group(proof, ncirc)[i2]);
                assert(comm_coeff_seqs(all)[j] == comm_coeff_seqs(gthird)[i2]);
                let t = i2 / 3;
                assert(i2 == 3 * t + i2 % 3);
                assert(glabels[j] == spec_third_label(i2));
                if i2 % 3 == 0 {
                    assert(gthird[3 * t].label == PolyLabel::GA(t as usize));
                } else if i2 % 3 == 1 {
                    assert(gthird[3 * t + 1].label == PolyLabel::GB(t as usize));
                } else {
                    assert(gthird[3 * t + 2].label == PolyLabel::GC(t as usize));
                }
            } else {
                assert(all[j] == gfourth[j - b4]);
                assert(glabels[j] == PolyLabel::H2);
                assert(gcoeffs[j] == spec_fourth_group(proof)[j - b4]);
                assert(comm_coeff_seqs(all)[j] == comm_coeff_seqs(gfourth)[j - b4]);
            }
        }
        assert(comm_labels(all) =~= glabels);
        assert(comm_coeff_seqs(all) =~= gcoeffs);
    }

    /// The algebraic half of batch verification, after every structural gate
    /// has passed: reconstructs the labeled commitments, replays the
    /// transcript, populates the claimed values and runs the commitment
    /// scheme's check.
    #[verifier::rlimit(100)]
    #[verifier::spinoff_prover]
    fn verify_batch_checked(
        fs_parameters: u64,
        verifying_keys: &Vec<CircuitVerifyingKey>,
        inputs: &Vec<Vec<Vec<u64>>>,
        proof: &crate::proof_data::Proof,
        total: usize,
    ) -> (r: Result<bool, SnarkError>)
        requires
            inputs@.len() == verifying_keys@.len(),
            forall|i: int| 0 <= i < verifying_keys@.len() ==> (#[trigger] verifying_keys@[i]).wf(),
            forall|i: int|
                0 <= i < verifying_keys@.len() ==> (#[trigger] verifying_keys@[i]).zk_mode
                    == verifying_keys@[0].zk_mode,
            forall|ci: int|
                0 <= ci < inputs@.len() ==> forall|k: int|
                    0 <= k < (#[trigger] inputs@[ci])@.len() ==> seq_fe_valid(
                        (#[trigger] inputs@[ci]@[k])@,
                    ) && inputs@[ci]@[k]@.len() < MAX_DOMAIN_INPUT,
            spec_assign_total(inputs@) <= crate::rounds::MAX_INSTANCES,
            total as int == spec_assign_total(inputs@),
            Self::spec_batch_gates_ok(verifying_keys@, inputs@, *proof),
        ensures
            r matches Ok(b) ==> b == Self::spec_batch_verdict(
                fs_parameters,
                verifying_keys@,
                inputs@,
                *proof,
            ),
            Self::spec_all_queried_present(verifying_keys@, inputs@, *proof) ==> r == Result::<
                bool,
                SnarkError,
            >::Ok(Self::spec_batch_verdict(fs_parameters, verifying_keys@, inputs@, *proof)),
            r matches Err(e) ==> (e matches SnarkError::MissingEval(l)
                && !proof.evaluations.spec_has(l)),
    {
        let ncircuits = verifying_keys.len();
        let mut first: Vec<LabeledCommitment> = Vec::new();
        let mut g: usize = 0;
        while g < total
            invariant
                g <= total,
                ncircuits == verifying_keys@.len(),
                ncircuits >= 1,
                total as int == spec_assign_total(inputs@),
                total >= 1,
                Self::spec_sizes_match(*proof, verifying_keys@, inputs@),
                forall|j: int| 0 <= j < inputs@.len() ==> (#[trigger] inputs@[j])@.len() >= 1,
                proof.commitments.witness_commitments@.len() == total,
                forall|t: int|
                    0 <= t < total ==> (
                    #[trigger] proof.commitments.witness_commitments@[t]).w.wf()
                        && proof.commitments.witness_commitments@[t].z_a.wf()
                        && proof.commitments.witness_commitments@[t].z_b.wf(),
                first@.len() == 3 * g as int,
                all_comms_wf(first@),
                forall|t: int|
                    0 <= t < g as int ==> {
                        &&& (#[trigger] first@[3 * t]).label == PolyLabel::Witness(
                            crate::labels::WitnessKind::W,
                            t as usize,
                        )
                        &&& first@[3 * t].commitment.coeffs@
                            == proof.commitments.witness_commitments@[t].w.coeffs@
                        &&& first@[3 * t + 1].label == PolyLabel::Witness(
                            crate::labels::WitnessKind::ZA,
                            t as usize,
                        )
                        &&& first@[3 * t + 1].commitment.coeffs@
                            == proof.commitments.witness_commitments@[t].z_a.coeffs@
                        &&& first@[3 * t + 2].label == PolyLabel::Witness(
                            crate::labels::WitnessKind::ZB,
                            t as usize,
                        )
                        &&& first@[3 * t + 2].commitment.coeffs@
                            == proof.commitments.witness_commitments@[t].z_b.coeffs@
                    },
            decreases total - g,
        {
            let wc = &proof.commitments.witness_commitments[g];
            let cw = Commitment { coeffs: clone_u64_vec(&wc.w.coeffs) };
            let ca = Commitment { coeffs: clone_u64_vec(&wc.z_a.coeffs) };
            let cb = Commitment { coeffs: clone_u64_vec(&wc.z_b.coeffs) };
            if !(Self::commitment_wf_check(&cw) && Self::commitment_wf_check(&ca)
                && Self::commitment_wf_check(&cb)) {
                assert(false);
                return Ok(false);
            }
            first.push(
                LabeledCommitment {
                    label: PolyLabel::Witness(crate::labels::WitnessKind::W, g),
                    commitment: cw,
                },
            );
            first.push(
                LabeledCommitment {
                    label: PolyLabel::Witness(crate::labels::WitnessKind::ZA, g),
                    commitment: ca,
                },
            );
            first.push(
                LabeledCommitment {
                    label: PolyLabel::Witness(crate::labels::WitnessKind::ZB, g),
                    commitment: cb,
                },
            );
            g = g + 1;
        }
        match &proof.commitments.mask_poly {
            Some(m) => {
                let cm = Commitment { coeffs: clone_u64_vec(&m.coeffs) };
                if !Self::commitment_wf_check(&cm) {
                    assert(false);
                    return Ok(false);
                }
                first.push(LabeledCommitment { label: PolyLabel::MaskPoly, commitment: cm });
            },
            None => (),
        }
        let c_g1 = Commitment { coeffs: clone_u64_vec(&proof.commitments.g_1.coeffs) };
        let c_h1 = Commitment { coeffs: clone_u64_vec(&proof.commitments.h_1.coeffs) };
        let c_h2 = Commitment { coeffs: clone_u64_vec(&proof.commitments.h_2.coeffs) };
        if !(Self::commitment_wf_check(&c_g1) && Self::commitment_wf_check(&c_h1)
            && Self::commitment_wf_check(&c_h2)) {
            assert(false);
            return Ok(false);
        }
        let mut second: Vec<LabeledCommitment> = Vec::new();
        second.push(LabeledCommitment { label: PolyLabel::G1, commitment: c_g1 });
        second.push(LabeledCommitment { label: PolyLabel::H1, commitment: c_h1 });
        let mut third: Vec<LabeledCommitment> = Vec::new();
        let mut c2: usize = 0;
        while c2 < ncircuits
            invariant
                c2 <= ncircuits,
                ncircuits == verifying_keys@.len(),
                ncircuits >= 1,
                total as int == spec_assign_total(inputs@),
                total >= 1,
                Self::spec_sizes_match(*proof, verifying_keys@, inputs@),
                forall|j: int| 0 <= j < inputs@.len() ==> (#[trigger] inputs@[j])@.len() >= 1,
                proof.commitments.g_a_commitments@.len() == ncircuits,
                proof.commitments.g_b_commitments@.len() == ncircuits,
                proof.commitments.g_c_commitments@.len() == ncircuits,
                forall|t: int|
                    0 <= t < ncircuits ==> (
                    #[trigger] proof.commitments.g_a_commitments@[t]).wf()
                        && proof.commitments.g_b_commitments@[t].wf()
                        && proof.commitments.g_c_commitments@[t].wf(),
                all_comms_wf(third@),
                third@.len() == 3 * c2 as int,
                forall|t: int|
                    0 <= t < c2 as int ==> {
                        &&& (#[trigger] third@[3 * t]).label == PolyLabel::GA(t as usize)
                        &&& third@[3 * t].commitment.coeffs@
                            == proof.commitments.g_a_commitments@[t].coeffs@
                        &&& third@[3 * t + 1].label == PolyLabel::GB(t as usize)
                        &&& third@[3 * t + 1].commitment.coeffs@
                            == proof.commitments.g_b_commitments@[t].coeffs@
                        &&& third@[3 * t + 2].label == PolyLabel::GC(t as usize)
                        &&& third@[3 * t + 2].commitment.coeffs@
                            == proof.commitments.g_c_commitments@[t].coeffs@
                    },
            decreases ncircuits - c2,
        {
            let ga = Commitment {
                coeffs: clone_u64_vec(&proof.commitments.g_a_commitments[c2].coeffs),
            };
            let gb = Commitment {
                coeffs: clone_u64_vec(&proof.commitments.g_b_commitments[c2].coeffs),
            };
            let gc = Commitment {
                coeffs: clone_u64_vec(&proof.commitments.g_c_commitments[c2].coeffs),
            };
            if !(Self::commitment_wf_check(&ga) && Self::commitment_wf_check(&gb)
                && Self::commitment_wf_check(&gc)) {
                assert(false);
                return Ok(false);
            }
            third.push(LabeledCommitment { label: PolyLabel::GA(c2), commitment: ga });
            third.push(LabeledCommitment { label: PolyLabel::GB(c2), commitment: gb });
            third.push(LabeledCommitment { label: PolyLabel::GC(c2), commitment: gc });
            c2 = c2 + 1;
        }
        let mut fourth: Vec<LabeledCommitment> = Vec::new();
        fourth.push(LabeledCommitment { label: PolyLabel::H2, commitment: c_h2 });

        // Pad the public inputs as the prover did.
        let mut padded_inputs: Vec<Vec<Vec<u64>>> = Vec::new();
        let mut c3: usize = 0;
        while c3 < ncircuits
            invariant
                c3 <= ncircuits,
                ncircuits == verifying_keys@.len(),
                inputs@.len() == verifying_keys@.len(),
                forall|i: int|
                    0 <= i < verifying_keys@.len() ==> (#[trigger] verifying_keys@[i]).wf(),
                forall|ci2: int|
                    0 <= ci2 < inputs@.len() ==> forall|k: int|
                        0 <= k < (#[trigger] inputs@[ci2])@.len() ==> seq_fe_valid(
                            (#[trigger] inputs@[ci2]@[k])@,
                        ) && inputs@[ci2]@[k]@.len() < MAX_DOMAIN_INPUT,
                padded_inputs@.len() == c3 as int,
                forall|j: int|
                    0 <= j < c3 as int ==> forall|k: int|
                        0 <= k < (#[trigger] padded_inputs@[j])@.len() ==> seq_fe_valid(
                            (#[trigger] padded_inputs@[j]@[k])@,
                        ),
                forall|j: int|
                    0 <= j < c3 as int ==> (#[trigger] padded_inputs@[j])@.len()
                        == inputs@[j]@.len() && forall|k: int|
                        0 <= k < padded_inputs@[j]@.len()
                            ==> (#[trigger] padded_inputs@[j]@[k])@
                            == crate::domain::spec_pad_input(
                            inputs@[j]@[k]@,
                            verifying_keys@[j].circuit_info.num_public_inputs as nat,
                        ),
            decreases ncircuits - c3,
        {
            let circuit_inputs = &inputs[c3];
            let mut circuit_padded: Vec<Vec<u64>> = Vec::new();
            let mut k: usize = 0;
            while k < circuit_inputs.len()
                invariant
                    k <= circuit_inputs@.len(),
                    c3 < verifying_keys@.len(),
                    circuit_inputs@ == inputs@[c3 as int]@,
                    inputs@.len() == verifying_keys@.len(),
                    forall|i: int|
                        0 <= i < verifying_keys@.len() ==> (
                        #[trigger] verifying_keys@[i]).wf(),
                    forall|ci2: int|
                        0 <= ci2 < inputs@.len() ==> forall|t: int|
                            0 <= t < (#[trigger] inputs@[ci2])@.len() ==> seq_fe_valid(
                                (#[trigger] inputs@[ci2]@[t])@,
                            ) && inputs@[ci2]@[t]@.len() < MAX_DOMAIN_INPUT,
                    circuit_padded@.len() == k as int,
                    forall|t: int|
                        0 <= t < k as int ==> seq_fe_valid((#[trigger] circuit_padded@[t])@),
                    forall|t: int|
                        0 <= t < k as int ==> (#[trigger] circuit_padded@[t])@
                            == crate::domain::spec_pad_input(
                            inputs@[c3 as int]@[t]@,
                            verifying_keys@[c3 as int].circuit_info.num_public_inputs as nat,
                        ),
                decreases circuit_inputs@.len() - k,
            {
                assert(seq_fe_valid(inputs@[c3 as int]@[k as int]@));
                assert(verifying_keys@[c3 as int].wf());
                let p = pad_public_input(
                    &circuit_inputs[k],
                    verifying_keys[c3].circuit_info.num_public_inputs,
                );
                circuit_padded.push(p);
                k = k + 1;
            }
            padded_inputs.push(circuit_padded);
            c3 = c3 + 1;
        }

        // Replay the transcript.
        let mut commitment_lists: Vec<Vec<Commitment>> = Vec::new();
        let mut c4: usize = 0;
        while c4 < ncircuits
            invariant
                c4 <= ncircuits,
                ncircuits == verifying_keys@.len(),
                commitment_lists@.len() == c4 as int,
                forall|j: int|
                    0 <= j < c4 as int ==> raw_comm_coeffs((#[trigger] commitment_lists@[j])@)
                        == raw_comm_coeffs(verifying_keys@[j].circuit_commitments@),
            decreases ncircuits - c4,
        {
            let cloned = Self::clone_commitments(&verifying_keys[c4].circuit_commitments);
            proof {
                assert(raw_comm_coeffs(cloned@) =~= raw_comm_coeffs(
                    verifying_keys@[c4 as int].circuit_commitments@,
                ));
            }
            commitment_lists.push(cloned);
            c4 = c4 + 1;
        }
        let ghost zk_mode = verifying_keys@[0].zk_mode;
        let ghost gfirst = first@;
        let ghost gsecond = second@;
        let ghost gthird = third@;
        let ghost gfourth = fourth@;
        proof {
            assert(comm_list_views(commitment_lists@) =~= Seq::new(
                verifying_keys@.len(),
                |ci: int| raw_comm_coeffs(verifying_keys@[ci].circuit_commitments@),
            ));
            assert forall|j: int|
                0 <= j < ncircuits as int implies #[trigger] input_views(padded_inputs@)[j]
                == spec_padded_views(verifying_keys@, inputs@)[j] by {
                assert(input_views(padded_inputs@)[j] =~= spec_padded_views(
                    verifying_keys@,
                    inputs@,
                )[j]);
            }
            assert(input_views(padded_inputs@) =~= spec_padded_views(verifying_keys@, inputs@));
            Self::lemma_batch_groups_shape(
                gfirst,
                gsecond,
                gthird,
                gfourth,
                *proof,
                ncircuits as int,
                total as int,
                zk_mode,
            );
        }
        let mut sponge = Self::init_sponge(
            fs_parameters,
            &proof.batch_sizes,
            &commitment_lists,
            &padded_inputs,
        );
        let ghost vs0 = sponge.state;
        proof {
            assert(vs0 == spec_init_sponge_state(
                fs_parameters,
                batch_counts(proof.batch_sizes@),
                Seq::new(
                    verifying_keys@.len(),
                    |ci: int| raw_comm_coeffs(verifying_keys@[ci].circuit_commitments@),
                ),
                spec_padded_views(verifying_keys@, inputs@),
            ));
        }
        Self::absorb_labeled(&first, &mut sponge);
        let _first_msg = crate::rounds::verifier_first_round(&mut sponge);
        let ghost vu1 = sponge.state;
        proof {
            assert(vu1 == spec_squeeze_state(
                spec_absorb_comms(vs0, spec_first_group(*proof, total as int, zk_mode)),
                3,
            ));
        }
        Self::absorb_labeled(&second, &mut sponge);
        let _beta_one = crate::rounds::verifier_second_round(&mut sponge);
        let ghost vu2 = sponge.state;
        proof {
            assert(vu2 == spec_squeeze_state(
                spec_absorb_comms(vu1, spec_second_group(*proof)),
                1,
            ));
        }
        Self::absorb_labeled_with_msg(&third, &proof.msg, &mut sponge);
        let _delta = crate::rounds::verifier_third_round(&mut sponge);
        let ghost vu3 = sponge.state;
        proof {
            assert(vu3 == spec_squeeze_state(
                spec_absorb_sums(
                    spec_absorb_comms(vu2, spec_third_group(*proof, ncircuits as int)),
                    proof.msg.sums@,
                ),
                1,
            ));
        }
        Self::absorb_labeled(&fourth, &mut sponge);
        let beta = crate::rounds::verifier_fourth_round(&mut sponge);
        proof {
            assert(beta == spec_squeeze_state(
                spec_absorb_comms(vu3, spec_fourth_group(*proof)),
                1,
            ));
            assert(sponge.state == beta);
        }

        // The canonical commitment list: index, first, second, third, fourth.
        let mut comms: Vec<LabeledCommitment> = Vec::new();
        let mut c5: usize = 0;
        while c5 < ncircuits
            invariant
                c5 <= ncircuits,
                ncircuits == verifying_keys@.len(),
                forall|i: int|
                    0 <= i < verifying_keys@.len() ==> (#[trigger] verifying_keys@[i]).wf(),
                all_comms_wf(comms@),
                comms@.len() == 12 * c5 as int,
                forall|j: int|
                    0 <= j < comms@.len() ==> (#[trigger] comms@[j]).label == PolyLabel::Index(
                        (j / 12) as usize,
                        spec_index_label_of_rank(j % 12),
                    ) && comms@[j].commitment.coeffs@ == verifying_keys@[j
                        / 12].circuit_commitments@[j % 12].coeffs@,
            decreases ncircuits - c5,
        {
            let vk = &verifying_keys[c5];
            let mut k: usize = 0;
            while k < NUM_INDEX_POLYS
                invariant
                    k <= NUM_INDEX_POLYS,
                    c5 < verifying_keys@.len(),
                    forall|i: int|
                        0 <= i < verifying_keys@.len() ==> (
                        #[trigger] verifying_keys@[i]).wf(),
                    vk == &verifying_keys[c5 as int],
                    all_comms_wf(comms@),
                    comms@.len() == 12 * c5 as int + k as int,
                    forall|j: int|
                        0 <= j < comms@.len() ==> (#[trigger] comms@[j]).label
                            == PolyLabel::Index(
                            (j / 12) as usize,
                            spec_index_label_of_rank(j % 12),
                        ) && comms@[j].commitment.coeffs@ == verifying_keys@[j
                            / 12].circuit_commitments@[j % 12].coeffs@,
                decreases NUM_INDEX_POLYS - k,
            {
                assert(verifying_keys@[c5 as int].wf());
                proof {
                    let p = 12 * c5 as int + k as int;
                    assert(p / 12 == c5 as int && p % 12 == k as int) by (nonlinear_arith)
                        requires
                            0 <= k < 12,
                            0 <= c5,
                            p == 12 * c5 as int + k as int,
                    ;
                }
                comms.push(
                    LabeledCommitment {
                        label: PolyLabel::Index(c5, index_label_of_rank(k)),
                        commitment: Commitment {
                            coeffs: clone_u64_vec(&vk.circuit_commitments[k].coeffs),
                        },
                    },
                );
                k = k + 1;
            }
            c5 = c5 + 1;
        }
        let ghost gindex = comms@;
        let mut first_m = first;
        comms.append(&mut first_m);
        let mut second_m = second;
        comms.append(&mut second_m);
        let mut third_m = third;
        comms.append(&mut third_m);
        let mut fourth_m = fourth;
        comms.append(&mut fourth_m);
        let ghost glabels = spec_batch_labels(ncircuits as int, total as int, zk_mode);
        let ghost gcoeffs = spec_batch_coeffs(verifying_keys@, *proof, total as int, zk_mode);
        proof {
            assert(comms@ == gindex + gfirst + gsecond + gthird + gfourth);
            Self::lemma_batch_list_shape(
                gindex,
                gfirst,
                gsecond,
                gthird,
                gfourth,
                verifying_keys@,
                *proof,
                total as int,
                zk_mode,
            );
        }

        // Combinations and query set over the committed labels.
        let mut labels: Vec<PolyLabel> = Vec::new();
        let mut li: usize = 0;
        while li < comms.len()
            invariant
                li <= comms@.len(),
                labels@.len() == li as int,
                forall|j: int| 0 <= j < li as int ==> #[trigger] labels@[j] == comms@[j].label,
            decreases comms@.len() - li,
        {
            labels.push(comms[li].label);
            li = li + 1;
        }
        proof {
            assert(labels@ =~= comm_labels(comms@));
        }
        let lcs = crate::rounds::construct_linear_combinations(&labels);
        let query_set = crate::rounds::verifier_query_set(&lcs, beta);

        // Absorb the wire evaluations, then populate the claimed values: zero
        // for combinations whose value is zero by construction, the wire
        // value otherwise.
        let wire_values = proof.evaluations.to_field_elements();
        sponge.absorb_nonnative_field_elements(&wire_values);
        let ghost vs5 = sponge.state;
        proof {
            assert(vs5 == spec_absorb_tagged(
                beta,
                TAG_NONNATIVE,
                proof.evaluations.entries@.map_values(|e: (LcLabel, u64)| e.1),
            ));
        }
        let mut claimed: Vec<u64> = Vec::new();
        let ghost gclaimed = Seq::new(
            glabels.len(),
            |i: int|
                if crate::rounds::spec_lc_zero_eval(LcLabel::PolyLc(glabels[i])) {
                    0u64
                } else {
                    match crate::proof_data::spec_eval_lookup(
                        proof.evaluations.entries@,
                        LcLabel::PolyLc(glabels[i]),
                    ) {
                        Some(v) => v,
                        None => 0u64,
                    }
                },
        );
        let mut ei: usize = 0;
        while ei < lcs.len()
            invariant
                ei <= lcs@.len(),
                ncircuits == verifying_keys@.len(),
                ncircuits >= 1,
                total as int == spec_assign_total(inputs@),
                total >= 1,
                Self::spec_sizes_match(*proof, verifying_keys@, inputs@),
                forall|j: int| 0 <= j < inputs@.len() ==> (#[trigger] inputs@[j])@.len() >= 1,
                proof.pc_proof.hiding == verifying_keys@[0].zk_mode,
                (proof.commitments.mask_poly is Some) <==> verifying_keys@[0].zk_mode,
                proof.evaluations.wf(),
                zk_mode == verifying_keys@[0].zk_mode,
                glabels == spec_batch_labels(ncircuits as int, total as int, zk_mode),
                gclaimed == Seq::new(
                    glabels.len(),
                    |i: int|
                        if crate::rounds::spec_lc_zero_eval(LcLabel::PolyLc(glabels[i])) {
                            0u64
                        } else {
                            match crate::proof_data::spec_eval_lookup(
                                proof.evaluations.entries@,
                                LcLabel::PolyLc(glabels[i]),
                            ) {
                                Some(v) => v,
                                None => 0u64,
                            }
                        },
                ),
                lcs@.len() == glabels.len(),
                forall|i: int|
                    0 <= i < lcs@.len() ==> (#[trigger] lcs@[i]).label == LcLabel::PolyLc(
                        glabels[i],
                    ),
                claimed@.len() == ei as int,
                seq_fe_valid(claimed@),
                forall|t: int| 0 <= t < ei as int ==> #[trigger] claimed@[t] == gclaimed[t],
            decreases lcs@.len() - ei,
        {
            if crate::rounds::is_zero_eval_label(&lcs[ei].label) {
                claimed.push(0);
            } else {
                match proof.evaluations.get(&lcs[ei].label) {
                    Some(v) => {
                        proof {
                            let idx = choose|t: int|
                                0 <= t < proof.evaluations.entries@.len()
                                    && (#[trigger] proof.evaluations.entries@[t]).0
                                    == lcs@[ei as int].label && proof.evaluations.entries@[t].1
                                    == v;
                            assert(fe_valid(proof.evaluations.entries@[idx].1));
                        }
                        claimed.push(v);
                    },
                    None => {
                        proof {
                            reveal(MarlinSNARK::spec_all_queried_present);
                            assert(!proof.evaluations.spec_has(LcLabel::PolyLc(
                                glabels[ei as int],
                            )));
                            assert(!Self::spec_all_queried_present(
                                verifying_keys@,
                                inputs@,
                                *proof,
                            ));
                        }
                        return Err(SnarkError::MissingEval(lcs[ei].label));
                    },
                }
            }
            ei = ei + 1;
        }
        proof {
            assert(claimed@ =~= gclaimed);
        }

        proof {
            crate::pcs::lemma_direct_lcs_eval_ok(
                comm_labels(comms@),
                comm_coeff_seqs(comms@),
                lcs@,
                query_set@,
            );
            lemma_assign_total_ge_len(inputs@);
            lemma_batch_labels_distinct(ncircuits as int, total as int, zk_mode);
            crate::pcs::lemma_direct_lcs_values(
                comm_labels(comms@),
                comm_coeff_seqs(comms@),
                lcs@,
                query_set@,
            );
        }
        let verdict = match check_combinations(
            &verifying_keys[0].verifier_key,
            &lcs,
            &comms,
            &query_set,
            &claimed,
            &proof.pc_proof,
            &mut sponge,
        ) {
            Ok(b) => b,
            Err(e) => {
                assert(false);
                return Err(e);
            },
        };
        proof {
            let recomputed_exec = Seq::new(
                lcs@.len(),
                |i: int| spec_poly_eval(comm_coeff_seqs(comms@)[i], query_set@[i].point),
            );
            let recomputed_spec = Seq::new(
                glabels.len(),
                |i: int| spec_poly_eval(gcoeffs[i], beta),
            );
            assert(recomputed_exec =~= recomputed_spec);
            assert(verdict == (recomputed_spec == gclaimed && proof.pc_proof.combined
                == spec_combine(gclaimed, spec_squeeze_state(
                spec_absorb_tagged(vs5, TAG_NONNATIVE, gclaimed),
                1,
            ))));
            reveal(MarlinSNARK::spec_batch_verdict);
            assert(verdict == Self::spec_batch_verdict(
                fs_parameters,
                verifying_keys@,
                inputs@,
                *proof,
            ));
        }
        Ok(verdict)
    }

    /// Verifies a proof of one circuit against one instance's public inputs.
    pub fn verify(
        fs_parameters: u64,
        verifying_key: CircuitVerifyingKey,
        public_inputs: Vec<u64>,
        proof: &crate::proof_data::Proof,
    ) -> (r: Result<bool, SnarkError>)
        requires
            verifying_key.wf(),
            seq_fe_valid(public_inputs@),
            public_inputs@.len() < MAX_DOMAIN_INPUT,
        ensures
            !(proof.batch_sizes@.len() == 1 && proof.batch_sizes@[0].instance_count == 1) ==> r
                == Result::<bool, SnarkError>::Err(SnarkError::BatchSizeMismatch),
            proof.batch_sizes@.len() == 1 && proof.batch_sizes@[0].instance_count == 1 ==> ((r
                is Ok) || (r matches Err(e) && e matches SnarkError::MissingEval(l)
                && !proof.evaluations.spec_has(l))),
            proof.batch_sizes@.len() == 1 && proof.batch_sizes@[0].instance_count == 1 && !(
            proof.pc_proof.hiding == verifying_key.zk_mode && ((proof.commitments.mask_poly
                is Some) <==> verifying_key.zk_mode)) ==> r == Result::<bool, SnarkError>::Ok(
                false,
            ),
            r matches Ok(b) ==> exists|ins: Seq<Vec<Vec<u64>>>|
                ins.len() == 1 && (#[trigger] ins[0])@.len() == 1 && ins[0]@[0]@
                    == public_inputs@ && (Self::spec_batch_gates_ok(
                    seq![verifying_key],
                    ins,
                    *proof,
                ) ==> b == Self::spec_batch_verdict(
                    fs_parameters,
                    seq![verifying_key],
                    ins,
                    *proof,
                )),
            r == Result::<bool, SnarkError>::Ok(true) ==> (proof.pc_proof.hiding
                == verifying_key.zk_mode && ((proof.commitments.mask_poly is Some)
                <==> verifying_key.zk_mode)),
    {
        let ghost gvk = verifying_key;
        let mut vks: Vec<CircuitVerifyingKey> = Vec::new();
        vks.push(verifying_key);
        let mut instance_inputs: Vec<Vec<u64>> = Vec::new();
        instance_inputs.push(public_inputs);
        let mut inputs: Vec<Vec<Vec<u64>>> = Vec::new();
        inputs.push(instance_inputs);
        proof {
            assert(vks@[0] == gvk);
            assert(inputs@.drop_last() =~= Seq::<Vec<Vec<u64>>>::empty());
            assert(spec_assign_total(Seq::<Vec<Vec<u64>>>::empty()) == 0);
            assert(inputs@.last() == inputs@[0]);
            assert(spec_assign_total(inputs@) == 1);
            assert(vks@ =~= seq![gvk]);
        }
        let r = Self::verify_batch(fs_parameters, &vks, &inputs, proof);
        proof {
            match r {
                Ok(b) => {
                    let ins = inputs@;
                    assert(ins.len() == 1 && ins[0]@.len() == 1 && ins[0]@[0]@ == public_inputs@
                        && (Self::spec_batch_gates_ok(seq![gvk], ins, *proof) ==> b
                        == Self::spec_batch_verdict(fs_parameters, seq![gvk], ins, *proof)));
                },
                Err(_) => {},
            }
        }
        r
    }

    /// Produces a proof for one circuit and one instance.
    pub fn prove(
        fs_parameters: u64,
        proving_key: CircuitProvingKey,
        assignment: Vec<u64>,
        rng: &mut ProofRng,
    ) -> (r: Result<crate::proof_data::Proof, SnarkError>)
        requires
            proving_key.wf(),
            old(rng).wf(),
        ensures
            (r is Ok) <==> crate::r1cs::spec_instance_ok(proving_key.circuit.circuit, assignment@),
            r matches Ok(p) ==> {
                &&& p.wf()
                &&& p.pc_proof.hiding == proving_key.circuit_verifying_key.zk_mode
                &&& (p.commitments.mask_poly is Some)
                    <==> proving_key.circuit_verifying_key.zk_mode
            },
    {
        let ghost gpk = proving_key;
        let ghost ga = assignment@;
        let mut keys: Vec<CircuitProvingKey> = Vec::new();
        keys.push(proving_key);
        let mut instance_list: Vec<Vec<u64>> = Vec::new();
        instance_list.push(assignment);
        let mut assignments: Vec<Vec<Vec<u64>>> = Vec::new();
        assignments.push(instance_list);
        proof {
            assert(assignments@.drop_last() =~= Seq::<Vec<Vec<u64>>>::empty());
            assert(keys@[0] == gpk);
            assert(keys@[0].wf());
            assert(assignments@[0]@.len() == 1);
            assert(assignments@[0]@[0]@ == ga);
            assert(spec_assign_total(Seq::<Vec<Vec<u64>>>::empty()) == 0);
            assert(assignments@.last() == assignments@[0]);
            assert(spec_assign_total(assignments@) == 1);
            assert forall|ci: int| 0 <= ci < keys@.len() implies (
                #[trigger] assignments@[ci])@.len() >= 1 by {}
            if crate::r1cs::spec_instance_ok(gpk.circuit.circuit, ga) {
                assert forall|ci: int|
                    0 <= ci < keys@.len() implies (#[trigger] assignments@[ci])@.len() >= 1
                    && crate::rounds::all_instances_ok(keys@[ci].circuit, assignments@[ci]@) by {
                    assert forall|k: int|
                        0 <= k < assignments@[0]@.len() implies crate::r1cs::spec_instance_ok(
                        keys@[0].circuit.circuit,
                        (#[trigger] assignments@[0]@[k])@,
                    ) by {}
                }
                assert(spec_batch_instances_ok(keys@, assignments@));
            }
            if spec_batch_instances_ok(keys@, assignments@) {
                assert(crate::rounds::all_instances_ok(keys@[0].circuit, assignments@[0]@));
                assert(crate::r1cs::spec_instance_ok(keys@[0].circuit.circuit, assignments@[0]@[0]@));
            }
        }
        Self::prove_batch(fs_parameters, &keys, &assignments, rng)
    }
}

} // verus!
