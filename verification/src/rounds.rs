//! The four rounds of the algebraic holographic proof.
//!
//! Per-circuit primitives the orchestrator drives: the first round's witness
//! oracles and optional zero-knowledge mask, the second round's constraint
//! residual, the third round's per-matrix aggregates with their sums, the
//! verifier's challenge squeezes, and the derivation of the linear
//! combinations and the query set from the committed labels.

use vstd::prelude::*;

use crate::ahp::IndexedCircuit;
use crate::field::{fe_valid, seq_fe_valid};
use crate::labels::{LcLabel, PointName, PolyLabel, WitnessKind};
use crate::pcs::{queries_aligned, LabeledPolynomial, LinearCombination, Query};
use crate::poly::{coeff_sum, poly_add, poly_mul_sub, spec_coeff_sum};
use crate::r1cs::{matrix_apply, spec_instance_ok, spec_matrix_apply, spec_satisfied, MatEntry};
use crate::rng::ProofRng;
use crate::sponge::{spec_squeeze_state, Sponge};

verus! {

/// Largest count of instances a batch may hold: with at most `2^15`
/// instances, the oracle, commitment and randomness counts the rounds form
/// (three per instance and a mask) stay well below `2^31`, so the positional
/// arithmetic fits a machine word even where `usize` is 32 bits wide.
pub const MAX_INSTANCES: usize = 0x8000;

/// Coefficient count of the zero-knowledge mask polynomial.
pub const MASK_POLY_LEN: usize = 4;

/// The three claimed sums a circuit's third-round message carries.
#[derive(Clone, Copy, Debug, PartialEq, Eq, Structural)]
pub struct MatrixSums {
    /// The claimed sum for the `a` matrix.
    pub sum_a: u64,
    /// The claimed sum for the `b` matrix.
    pub sum_b: u64,
    /// The claimed sum for the `c` matrix.
    pub sum_c: u64,
}

impl MatrixSums {
    /// All three sums are reduced residues.
    pub open spec fn wf(self) -> bool {
        fe_valid(self.sum_a) && fe_valid(self.sum_b) && fe_valid(self.sum_c)
    }
}

/// The prover's third-round message: one sum triple per circuit, in batch
/// order.
#[derive(Clone, Debug, PartialEq, Eq)]
pub struct ThirdMessage {
    /// The per-circuit sums.
    pub sums: Vec<MatrixSums>,
}

impl ThirdMessage {
    /// All sums are reduced residues.
    pub open spec fn wf(self) -> bool {
        forall|i: int| 0 <= i < self.sums@.len() ==> (#[trigger] self.sums@[i]).wf()
    }
}

/// Copies a range out of an assignment vector.
pub fn copy_range(v: &Vec<u64>, from: usize, to: usize) -> (r: Vec<u64>)
    requires
        from <= to <= v@.len(),
    ensures
        r@ == v@.subrange(from as int, to as int),
{
    let mut r: Vec<u64> = Vec::new();
    let mut i: usize = from;
    while i < to
        invariant
            from <= i <= to <= v@.len(),
            r@ == v@.subrange(from as int, i as int),
        decreases to - i,
    {
        r.push(v[i]);
        proof {
            assert(r@ =~= v@.subrange(from as int, i as int + 1));
        }
        i = i + 1;
    }
    r
}

/// All assignments of a list fit the circuit.
pub open spec fn all_instances_ok(ic: IndexedCircuit, assignments: Seq<Vec<u64>>) -> bool {
    forall|k: int|
        0 <= k < assignments.len() ==> spec_instance_ok(ic.circuit, (#[trigger] assignments[k])@)
}

/// All assignments of a list satisfy the circuit.
pub open spec fn all_instances_satisfied(ic: IndexedCircuit, assignments: Seq<Vec<u64>>) -> bool {
    forall|k: int|
        0 <= k < assignments.len() ==> spec_satisfied(ic.circuit, (#[trigger] assignments[k])@)
}

/// The first-round witness oracles of one circuit's instances.
///
/// For the instance at global index `g0 + k`: its witness slice under the
/// `w` label, and the `a`- and `b`-matrix applications under the `z_a` and
/// `z_b` labels. Every oracle hides exactly when zero knowledge is on.
pub fn witness_oracles(
    ic: &IndexedCircuit,
    assignments: &Vec<Vec<u64>>,
    g0: usize,
    zk: bool,
) -> (r: Vec<LabeledPolynomial>)
    requires
        ic.wf(),
        all_instances_ok(*ic, assignments@),
        g0 + assignments@.len() <= MAX_INSTANCES,
    ensures
        r@.len() == 3 * assignments@.len(),
        forall|k: int|
            0 <= k < assignments@.len() ==> {
                &&& (#[trigger] r@[3 * k]).label == PolyLabel::Witness(
                    WitnessKind::W,
                    (g0 + k) as usize,
                )
                &&& r@[3 * k].coeffs@ == assignments@[k]@.subrange(
                    ic.circuit.num_public + 1,
                    assignments@[k]@.len() as int,
                )
                &&& r@[3 * k + 1].label == PolyLabel::Witness(WitnessKind::ZA, (g0 + k) as usize)
                &&& r@[3 * k + 1].coeffs@ == spec_matrix_apply(ic.circuit.a@, assignments@[k]@)
                &&& r@[3 * k + 2].label == PolyLabel::Witness(WitnessKind::ZB, (g0 + k) as usize)
                &&& r@[3 * k + 2].coeffs@ == spec_matrix_apply(ic.circuit.b@, assignments@[k]@)
            },
        forall|i: int| 0 <= i < r@.len() ==> (#[trigger] r@[i]).hiding == zk && r@[i].wf(),
{
    let mut r: Vec<LabeledPolynomial> = Vec::new();
    let mut k: usize = 0;
    while k < assignments.len()
        invariant
            k <= assignments@.len(),
            ic.wf(),
            all_instances_ok(*ic, assignments@),
            g0 + assignments@.len() <= MAX_INSTANCES,
            r@.len() == 3 * k as int,
            forall|j: int|
                0 <= j < k as int ==> {
                    &&& (#[trigger] r@[3 * j]).label == PolyLabel::Witness(
                        WitnessKind::W,
                        (g0 + j) as usize,
                    )
                    &&& r@[3 * j].coeffs@ == assignments@[j]@.subrange(
                        ic.circuit.num_public + 1,
                        assignments@[j]@.len() as int,
                    )
                    &&& r@[3 * j + 1].label == PolyLabel::Witness(WitnessKind::ZA, (g0 + j) as usize)
                    &&& r@[3 * j + 1].coeffs@ == spec_matrix_apply(ic.circuit.a@, assignments@[j]@)
                    &&& r@[3 * j + 2].label == PolyLabel::Witness(WitnessKind::ZB, (g0 + j) as usize)
                    &&& r@[3 * j + 2].coeffs@ == spec_matrix_apply(ic.circuit.b@, assignments@[j]@)
                },
            forall|i: int| 0 <= i < r@.len() ==> (#[trigger] r@[i]).hiding == zk && r@[i].wf(),
        decreases assignments@.len() - k,
    {
        let z = &assignments[k];
        assert(spec_instance_ok(ic.circuit, z@));
        let w = copy_range(z, ic.circuit.num_public + 1, z.len());
        let za = matrix_apply(&ic.circuit.a, z);
        let zb = matrix_apply(&ic.circuit.b, z);
        r.push(
            LabeledPolynomial {
                label: PolyLabel::Witness(WitnessKind::W, g0 + k),
                coeffs: w,
                hiding: zk,
            },
        );
        r.push(
            LabeledPolynomial {
                label: PolyLabel::Witness(WitnessKind::ZA, g0 + k),
                coeffs: za,
                hiding: zk,
            },
        );
        r.push(
            LabeledPolynomial {
                label: PolyLabel::Witness(WitnessKind::ZB, g0 + k),
                coeffs: zb,
                hiding: zk,
            },
        );
        k = k + 1;
    }
    r
}

/// The zero-knowledge mask polynomial: fresh random coefficients, committed
/// hiding.
pub fn mask_oracle(rng: &mut ProofRng) -> (r: LabeledPolynomial)
    requires
        old(rng).wf(),
    ensures
        r.label == PolyLabel::MaskPoly,
        r.coeffs@.len() == MASK_POLY_LEN,
        r.hiding,
        r.wf(),
        final(rng).wf(),
{
    let mut coeffs: Vec<u64> = Vec::new();
    let mut i: usize = 0;
    while i < MASK_POLY_LEN
        invariant
            i <= MASK_POLY_LEN,
            rng.wf(),
            coeffs@.len() == i as int,
            seq_fe_valid(coeffs@),
        decreases MASK_POLY_LEN - i,
    {
        let v = rng.next_field_element();
        coeffs.push(v);
        i = i + 1;
    }
    LabeledPolynomial { label: PolyLabel::MaskPoly, coeffs, hiding: true }
}

/// The pointwise application of one matrix summed over a circuit's instances.
pub fn sum_matrix_apply(m: &Vec<Vec<MatEntry>>, ic: &IndexedCircuit, assignments: &Vec<Vec<u64>>) -> (r:
    Vec<u64>)
    requires
        ic.wf(),
        all_instances_ok(*ic, assignments@),
        crate::r1cs::spec_matrix_wf(m@, ic.circuit.num_variables as int),
    ensures
        seq_fe_valid(r@),
        assignments@.len() == 0 ==> r@.len() == 0,
        assignments@.len() > 0 ==> r@.len() == m@.len(),
{
    let mut acc: Vec<u64> = Vec::new();
    let mut k: usize = 0;
    while k < assignments.len()
        invariant
            k <= assignments@.len(),
            ic.wf(),
            all_instances_ok(*ic, assignments@),
            crate::r1cs::spec_matrix_wf(m@, ic.circuit.num_variables as int),
            seq_fe_valid(acc@),
            k == 0 ==> acc@.len() == 0,
            k > 0 ==> acc@.len() == m@.len(),
        decreases assignments@.len() - k,
    {
        assert(spec_instance_ok(ic.circuit, assignments@[k as int]@));
        let mz = matrix_apply(m, &assignments[k]);
        let next = poly_add(&acc, &mz);
        acc = next;
        k = k + 1;
    }
    acc
}

/// The second round's constraint residual for one circuit: the pointwise
/// `a·b - c` row values summed over the circuit's instances.
///
/// When every instance satisfies the circuit, every coefficient is zero.
pub fn constraint_residual(ic: &IndexedCircuit, assignments: &Vec<Vec<u64>>) -> (r: Vec<u64>)
    requires
        ic.wf(),
        all_instances_ok(*ic, assignments@),
    ensures
        seq_fe_valid(r@),
        assignments@.len() == 0 ==> r@.len() == 0,
        assignments@.len() > 0 ==> r@.len() == ic.circuit.a@.len(),
        all_instances_satisfied(*ic, assignments@) ==> forall|i: int|
            0 <= i < r@.len() ==> r@[i] == 0u64,
{
    let mut acc: Vec<u64> = Vec::new();
    let ghost sat = all_instances_satisfied(*ic, assignments@);
    let mut k: usize = 0;
    while k < assignments.len()
        invariant
            k <= assignments@.len(),
            ic.wf(),
            all_instances_ok(*ic, assignments@),
            sat == all_instances_satisfied(*ic, assignments@),
            seq_fe_valid(acc@),
            k == 0 ==> acc@.len() == 0,
            k > 0 ==> acc@.len() == ic.circuit.a@.len(),
            sat ==> forall|i: int| 0 <= i < acc@.len() ==> acc@[i] == 0u64,
        decreases assignments@.len() - k,
    {
        assert(spec_instance_ok(ic.circuit, assignments@[k as int]@));
        let z = &assignments[k];
        let za = matrix_apply(&ic.circuit.a, z);
        let zb = matrix_apply(&ic.circuit.b, z);
        let zc = matrix_apply(&ic.circuit.c, z);
        let residual = poly_mul_sub(&za, &zb, &zc);
        proof {
            if sat {
                assert(spec_satisfied(ic.circuit, z@));
                assert forall|i: int| 0 <= i < residual@.len() implies residual@[i] == 0u64 by {
                    assert(crate::field::spec_fe_mul(za@[i], zb@[i]) == zc@[i]);
                }
            }
        }
        let next = poly_add(&acc, &residual);
        proof {
            if sat {
                assert forall|i: int| 0 <= i < next@.len() implies next@[i] == 0u64 by {
                    assert(crate::poly::coeff_or_zero(acc@, i) == 0u64);
                    assert(crate::poly::coeff_or_zero(residual@, i) == 0u64);
                }
            }
        }
        acc = next;
        k = k + 1;
    }
    acc
}

/// The third round's oracles and message for one circuit: the per-matrix
/// aggregates over the circuit's instances under the `g_a`, `g_b`, `g_c`
/// labels of circuit position `ci`, and their coefficient sums.
pub fn third_round_for(
    ic: &IndexedCircuit,
    assignments: &Vec<Vec<u64>>,
    ci: usize,
    zk: bool,
) -> (r: (Vec<LabeledPolynomial>, MatrixSums))
    requires
        ic.wf(),
        all_instances_ok(*ic, assignments@),
    ensures
        r.0@.len() == 3,
        r.0@[0].label == PolyLabel::GA(ci),
        r.0@[1].label == PolyLabel::GB(ci),
        r.0@[2].label == PolyLabel::GC(ci),
        forall|i: int| 0 <= i < 3 ==> (#[trigger] r.0@[i]).hiding == zk && r.0@[i].wf(),
        r.1.wf(),
        r.1.sum_a == spec_coeff_sum(r.0@[0].coeffs@),
        r.1.sum_b == spec_coeff_sum(r.0@[1].coeffs@),
        r.1.sum_c == spec_coeff_sum(r.0@[2].coeffs@),
{
    let ga = sum_matrix_apply(&ic.circuit.a, ic, assignments);
    let gb = sum_matrix_apply(&ic.circuit.b, ic, assignments);
    let gc = sum_matrix_apply(&ic.circuit.c, ic, assignments);
    let sums = MatrixSums { sum_a: coeff_sum(&ga), sum_b: coeff_sum(&gb), sum_c: coeff_sum(&gc) };
    let mut r: Vec<LabeledPolynomial> = Vec::new();
    r.push(LabeledPolynomial { label: PolyLabel::GA(ci), coeffs: ga, hiding: zk });
    r.push(LabeledPolynomial { label: PolyLabel::GB(ci), coeffs: gb, hiding: zk });
    r.push(LabeledPolynomial { label: PolyLabel::GC(ci), coeffs: gc, hiding: zk });
    (r, sums)
}

/// The verifier's first round: squeezes the three lincheck challenges.
pub fn verifier_first_round(sponge: &mut Sponge) -> (r: Vec<u64>)
    requires
        old(sponge).wf(),
    ensures
        r@.len() == 3,
        seq_fe_valid(r@),
        final(sponge).state == spec_squeeze_state(old(sponge).state, 3),
        final(sponge).wf(),
{
    sponge.squeeze_nonnative_field_elements(3)
}

/// The verifier's second round: squeezes one challenge.
pub fn verifier_second_round(sponge: &mut Sponge) -> (r: u64)
    requires
        old(sponge).wf(),
    ensures
        fe_valid(r),
        r == spec_squeeze_state(old(sponge).state, 1),
        final(sponge).state == spec_squeeze_state(old(sponge).state, 1),
        final(sponge).wf(),
{
    let v = sponge.squeeze_nonnative_field_elements(1);
    v[0]
}

/// The verifier's third round: squeezes one challenge.
pub fn verifier_third_round(sponge: &mut Sponge) -> (r: u64)
    requires
        old(sponge).wf(),
    ensures
        fe_valid(r),
        r == spec_squeeze_state(old(sponge).state, 1),
        final(sponge).state == spec_squeeze_state(old(sponge).state, 1),
        final(sponge).wf(),
{
    let v = sponge.squeeze_nonnative_field_elements(1);
    v[0]
}

/// The verifier's fourth round: squeezes the query point.
pub fn verifier_fourth_round(sponge: &mut Sponge) -> (r: u64)
    requires
        old(sponge).wf(),
    ensures
        fe_valid(r),
        r == spec_squeeze_state(old(sponge).state, 1),
        final(sponge).state == spec_squeeze_state(old(sponge).state, 1),
        final(sponge).wf(),
{
    let v = sponge.squeeze_nonnative_field_elements(1);
    v[0]
}

/// Whether a combination's evaluation is zero by construction and therefore
/// never carried in a proof.
pub open spec fn spec_lc_zero_eval(l: LcLabel) -> bool {
    l == LcLabel::PolyLc(PolyLabel::H1)
}

/// Decides membership in the zero-evaluation set.
pub fn is_zero_eval_label(l: &LcLabel) -> (r: bool)
    ensures
        r == spec_lc_zero_eval(*l),
{
    match l {
        LcLabel::PolyLc(PolyLabel::H1) => true,
        _ => false,
    }
}

/// Builds the linear combinations the protocol opens: the direct opening of
/// each committed polynomial, named after its label, in the committed order.
pub fn construct_linear_combinations(labels: &Vec<PolyLabel>) -> (r: Vec<LinearCombination>)
    ensures
        r@.len() == labels@.len(),
        forall|i: int|
            0 <= i < r@.len() ==> (#[trigger] r@[i]).label == LcLabel::PolyLc(labels@[i])
                && r@[i].terms@.len() == 1 && r@[i].terms@[0] == (1u64, labels@[i]) && r@[i].wf(),
{
    let mut r: Vec<LinearCombination> = Vec::new();
    let mut i: usize = 0;
    while i < labels.len()
        invariant
            i <= labels@.len(),
            r@.len() == i as int,
            forall|j: int|
                0 <= j < i as int ==> (#[trigger] r@[j]).label == LcLabel::PolyLc(labels@[j])
                    && r@[j].terms@.len() == 1 && r@[j].terms@[0] == (1u64, labels@[j])
                    && r@[j].wf(),
        decreases labels@.len() - i,
    {
        let mut terms: Vec<(u64, PolyLabel)> = Vec::new();
        terms.push((1u64, labels[i]));
        r.push(LinearCombination { label: LcLabel::PolyLc(labels[i]), terms });
        i = i + 1;
    }
    r
}

/// Derives the verifier's query set: every combination queried at the `beta`
/// point squeezed in the fourth round.
pub fn verifier_query_set(lcs: &Vec<LinearCombination>, beta: u64) -> (r: Vec<Query>)
    requires
        fe_valid(beta),
    ensures
        queries_aligned(lcs@, r@),
        forall|i: int|
            0 <= i < r@.len() ==> (#[trigger] r@[i]).point == beta && r@[i].point_name
                == PointName::Beta,
{
    let mut r: Vec<Query> = Vec::new();
    let mut i: usize = 0;
    while i < lcs.len()
        invariant
            i <= lcs@.len(),
            fe_valid(beta),
            r@.len() == i as int,
            forall|j: int|
                0 <= j < i as int ==> (#[trigger] r@[j]).label == lcs@[j].label && r@[j].point
                    == beta && r@[j].point_name == PointName::Beta,
        decreases lcs@.len() - i,
    {
        r.push(Query { label: lcs[i].label, point_name: PointName::Beta, point: beta });
        i = i + 1;
    }
    assert forall|i: int| 0 <= i < lcs@.len() implies (#[trigger] r@[i]).label == lcs@[i].label
        && fe_valid(r@[i].point) by {}
    r
}

/// The little-endian eight-byte encoding of a batch size.
pub open spec fn spec_u64_le_byte(v: u64, i: int) -> u8 {
    (((v as int) / vstd::arithmetic::power::pow(256, i as nat)) % 256) as u8
}

/// The little-endian bytes of a machine word, as a sequence.
pub open spec fn spec_u64_le(v: u64) -> Seq<u8> {
    Seq::new(8, |i: int| spec_u64_le_byte(v, i))
}

/// Encodes a machine word as eight little-endian bytes.
pub fn u64_le_bytes(v: u64) -> (r: Vec<u8>)
    ensures
        r@.len() == 8,
        forall|i: int| 0 <= i < 8 ==> r@[i] == spec_u64_le_byte(v, i),
        r@ == spec_u64_le(v),
{
    let mut r: Vec<u8> = Vec::new();
    let mut x = v;
    let mut i: usize = 0;
    proof {
        vstd::arithmetic::power::lemma_pow0(256);
    }
    while i < 8
        invariant
            i <= 8,
            r@.len() == i as int,
            x as int == (v as int) / vstd::arithmetic::power::pow(256, i as nat),
            forall|j: int| 0 <= j < i as int ==> r@[j] == spec_u64_le_byte(v, j),
        decreases 8 - i,
    {
        proof {
            vstd::arithmetic::power::lemma_pow_positive(256, i as nat);
            vstd::arithmetic::power::lemma_pow_adds(256, i as nat, 1);
            vstd::arithmetic::power::lemma_pow1(256);
            vstd::arithmetic::div_mod::lemma_div_denominator(
                v as int,
                vstd::arithmetic::power::pow(256, i as nat) as int,
                256,
            );
        }
        r.push((x % 256) as u8);
        x = x / 256;
        i = i + 1;
    }
    assert(r@ =~= spec_u64_le(v));
    r
}

} // verus!
