//! The polynomial commitment scheme.
//!
//! Commitments here are transparent oracles: a commitment carries the
//! committed coefficients, and checking a combination re-evaluates them. What
//! the orchestration layer relies on — and what the contracts state — is the
//! scheme's interface discipline: commitments are produced per labeled
//! polynomial in order, hiding randomness is drawn exactly for hiding
//! polynomials, opening folds the claimed evaluations into the transcript and
//! a challenge-weighted aggregate, and checking recomputes both.

use vstd::prelude::*;

use crate::errors::SnarkError;
use crate::field::{fe_add, fe_mul, fe_valid, seq_fe_valid, spec_fe_add, spec_fe_mul};
use crate::labels::{LcLabel, PointName, PolyLabel};
use crate::poly::{clone_u64_vec, lemma_poly_eval_valid, poly_eval, spec_poly_eval};
use crate::rng::{spec_rng_step, ProofRng};
use crate::sponge::{spec_absorb_tagged, spec_squeeze_state, Sponge, TAG_NONNATIVE};
use crate::terminator::Terminator;

verus! {

/// The empty-randomness sentinel: the value committed randomness takes for a
/// polynomial that hides nothing.
pub const EMPTY_RANDOMNESS: u64 = 0;

/// Universal public parameters, supporting polynomials up to `max_degree`,
/// growable on demand up to `max_capacity`.
#[derive(Clone, Debug)]
pub struct UniversalSrs {
    /// The degree the parameters currently support.
    pub max_degree: usize,
    /// The largest degree the parameters can be grown to.
    pub max_capacity: usize,
}

impl UniversalSrs {
    /// The supported degree never exceeds the growth ceiling.
    pub open spec fn wf(self) -> bool {
        self.max_degree <= self.max_capacity
    }

    /// Requests powers covering degrees up to `end`; reports whether the
    /// parameters can serve them.
    pub fn download_powers_for(&self, end: usize) -> (r: bool)
        ensures
            r == (end <= self.max_capacity),
    {
        end <= self.max_capacity
    }
}

/// Loads universal parameters sized exactly to `max_degree`, with no room to
/// grow.
pub fn load_srs(max_degree: usize) -> (r: UniversalSrs)
    ensures
        r.max_degree == max_degree,
        r.max_capacity == max_degree,
        r.wf(),
{
    UniversalSrs { max_degree, max_capacity: max_degree }
}

/// The key a prover commits and opens with.
#[derive(Clone, Debug)]
pub struct CommitterKey {
    /// The largest polynomial degree the key supports.
    pub max_degree: usize,
    /// Degree bounds enforced on shifted openings.
    pub enforced_degree_bounds: Vec<usize>,
    /// The largest hiding bound the key supports.
    pub supported_hiding_bound: usize,
}

/// The key a verifier checks with.
#[derive(Clone, Copy, Debug, PartialEq, Eq, Structural)]
pub struct PcsVerifierKey {
    /// The largest polynomial degree the key supports.
    pub max_degree: usize,
}

/// Derives a committer and verifier key pair from universal parameters.
pub fn trim(
    srs: &UniversalSrs,
    supported_degree: usize,
    enforced_degree_bounds: Vec<usize>,
    supported_hiding_bound: usize,
) -> (r: Result<(CommitterKey, PcsVerifierKey), SnarkError>)
    ensures
        supported_degree <= srs.max_capacity ==> (r matches Ok(k)
            && k.0.max_degree == supported_degree
            && k.0.enforced_degree_bounds@ == enforced_degree_bounds@
            && k.0.supported_hiding_bound == supported_hiding_bound
            && k.1.max_degree == supported_degree),
        supported_degree > srs.max_capacity ==> (r matches Err(e) && e
            == SnarkError::IndexTooLarge(srs.max_degree, supported_degree)),
{
    if supported_degree > srs.max_capacity {
        return Err(SnarkError::IndexTooLarge(srs.max_degree, supported_degree));
    }
    Ok(
        (
            CommitterKey {
                max_degree: supported_degree,
                enforced_degree_bounds,
                supported_hiding_bound,
            },
            PcsVerifierKey { max_degree: supported_degree },
        ),
    )
}

/// A commitment to one polynomial: the transparent oracle of its coefficients.
#[derive(Clone, Debug, PartialEq, Eq)]
pub struct Commitment {
    /// The committed coefficients.
    pub coeffs: Vec<u64>,
}

impl Commitment {
    /// All committed coefficients are reduced residues.
    pub open spec fn wf(self) -> bool {
        seq_fe_valid(self.coeffs@)
    }
}

/// A polynomial under its protocol label, with its hiding intent.
#[derive(Clone, Debug)]
pub struct LabeledPolynomial {
    /// The protocol label.
    pub label: PolyLabel,
    /// The coefficients, lowest degree first.
    pub coeffs: Vec<u64>,
    /// Whether the commitment to this polynomial must hide it.
    pub hiding: bool,
}

impl LabeledPolynomial {
    /// All coefficients are reduced residues.
    pub open spec fn wf(self) -> bool {
        seq_fe_valid(self.coeffs@)
    }
}

/// A commitment under its protocol label.
#[derive(Clone, Debug, PartialEq, Eq)]
pub struct LabeledCommitment {
    /// The protocol label.
    pub label: PolyLabel,
    /// The commitment.
    pub commitment: Commitment,
}

impl LabeledCommitment {
    /// The commitment is well-formed.
    pub open spec fn wf(self) -> bool {
        self.commitment.wf()
    }
}

/// A named weighted sum of labeled polynomials.
#[derive(Clone, Debug)]
pub struct LinearCombination {
    /// The combination's name.
    pub label: LcLabel,
    /// The weighted terms: a coefficient and the label it multiplies.
    pub terms: Vec<(u64, PolyLabel)>,
}

impl LinearCombination {
    /// All term coefficients are reduced residues.
    pub open spec fn wf(self) -> bool {
        forall|i: int| 0 <= i < self.terms@.len() ==> fe_valid((#[trigger] self.terms@[i]).0)
    }
}

/// One entry of a query set: which combination is opened, at which named point.
#[derive(Clone, Copy, Debug, PartialEq, Eq, Structural)]
pub struct Query {
    /// The combination queried.
    pub label: LcLabel,
    /// The name of the query point.
    pub point_name: PointName,
    /// The query point.
    pub point: u64,
}

impl Query {
    /// The point is a reduced residue.
    pub open spec fn wf(self) -> bool {
        fe_valid(self.point)
    }
}

/// A batch opening proof: the challenge-weighted aggregate of the opened
/// evaluations, and whether any opened commitment was hiding.
#[derive(Clone, Copy, Debug, PartialEq, Eq, Structural)]
pub struct PcProof {
    /// The aggregate of the opened evaluations.
    pub combined: u64,
    /// Whether hiding randomness entered any opened commitment.
    pub hiding: bool,
}

impl PcProof {
    /// Whether hiding randomness entered any opened commitment.
    pub fn is_hiding(&self) -> (r: bool)
        ensures
            r == self.hiding,
    {
        self.hiding
    }
}

/// The labels of a list of labeled polynomials.
pub open spec fn poly_labels(s: Seq<LabeledPolynomial>) -> Seq<PolyLabel> {
    s.map_values(|p: LabeledPolynomial| p.label)
}

/// The coefficient sequences of a list of labeled polynomials.
pub open spec fn poly_coeff_seqs(s: Seq<LabeledPolynomial>) -> Seq<Seq<u64>> {
    s.map_values(|p: LabeledPolynomial| p.coeffs@)
}

/// The labels of a list of labeled commitments.
pub open spec fn comm_labels(s: Seq<LabeledCommitment>) -> Seq<PolyLabel> {
    s.map_values(|c: LabeledCommitment| c.label)
}

/// The coefficient sequences of a list of labeled commitments.
pub open spec fn comm_coeff_seqs(s: Seq<LabeledCommitment>) -> Seq<Seq<u64>> {
    s.map_values(|c: LabeledCommitment| c.commitment.coeffs@)
}

/// Resolution of a label against parallel label and coefficient sequences:
/// the coefficients at the first position carrying the label.
pub open spec fn spec_find_coeffs(labels: Seq<PolyLabel>, coeffs: Seq<Seq<u64>>, l: PolyLabel) -> Option<
    Seq<u64>,
>
    decreases labels.len(),
{
    if labels.len() == 0 || coeffs.len() == 0 {
        None
    } else if labels[0] == l {
        Some(coeffs[0])
    } else {
        spec_find_coeffs(
            labels.subrange(1, labels.len() as int),
            coeffs.subrange(1, coeffs.len() as int),
            l,
        )
    }
}

/// Resolution is unchanged by skipping a prefix that does not carry the label.
pub proof fn lemma_find_coeffs_skip(
    labels: Seq<PolyLabel>,
    coeffs: Seq<Seq<u64>>,
    l: PolyLabel,
    i: int,
)
    requires
        labels.len() == coeffs.len(),
        0 <= i <= labels.len(),
        forall|j: int| 0 <= j < i ==> labels[j] != l,
    ensures
        spec_find_coeffs(labels, coeffs, l) == spec_find_coeffs(
            labels.subrange(i, labels.len() as int),
            coeffs.subrange(i, coeffs.len() as int),
            l,
        ),
    decreases i,
{
    if i > 0 {
        let ltail = labels.subrange(1, labels.len() as int);
        let ctail = coeffs.subrange(1, coeffs.len() as int);
        lemma_find_coeffs_skip(ltail, ctail, l, i - 1);
        assert(ltail.subrange(i - 1, ltail.len() as int) =~= labels.subrange(
            i,
            labels.len() as int,
        ));
        assert(ctail.subrange(i - 1, ctail.len() as int) =~= coeffs.subrange(
            i,
            coeffs.len() as int,
        ));
    } else {
        assert(labels.subrange(0, labels.len() as int) =~= labels);
        assert(coeffs.subrange(0, coeffs.len() as int) =~= coeffs);
    }
}

/// The value of a combination's terms against parallel label and coefficient
/// sequences at the point `x`, or the first unresolved label.
pub open spec fn spec_lc_terms_eval(
    labels: Seq<PolyLabel>,
    coeffs: Seq<Seq<u64>>,
    terms: Seq<(u64, PolyLabel)>,
    x: u64,
) -> Result<u64, SnarkError>
    decreases terms.len(),
{
    if terms.len() == 0 {
        Ok(0u64)
    } else {
        match spec_lc_terms_eval(labels, coeffs, terms.drop_last(), x) {
            Err(e) => Err(e),
            Ok(acc) => match spec_find_coeffs(labels, coeffs, terms.last().1) {
                None => Err(SnarkError::MissingPolynomial(terms.last().1)),
                Some(cs) => Ok(
                    spec_fe_add(acc, spec_fe_mul(terms.last().0, spec_poly_eval(cs, x))),
                ),
            },
        }
    }
}

/// A failed term evaluation stays failed as more terms follow.
pub proof fn lemma_terms_eval_err_persists(
    labels: Seq<PolyLabel>,
    coeffs: Seq<Seq<u64>>,
    terms: Seq<(u64, PolyLabel)>,
    x: u64,
    i: int,
    e: SnarkError,
)
    requires
        0 <= i <= terms.len(),
        spec_lc_terms_eval(labels, coeffs, terms.subrange(0, i), x) == Result::<
            u64,
            SnarkError,
        >::Err(e),
    ensures
        spec_lc_terms_eval(labels, coeffs, terms, x) == Result::<u64, SnarkError>::Err(e),
    decreases terms.len() - i,
{
    if i < terms.len() {
        let pre = terms.subrange(0, i + 1);
        assert(pre.drop_last() =~= terms.subrange(0, i));
        lemma_terms_eval_err_persists(labels, coeffs, terms, x, i + 1, e);
    } else {
        assert(terms.subrange(0, terms.len() as int) =~= terms);
    }
}

/// An evaluated combination's value is a reduced residue.
pub proof fn lemma_lc_terms_eval_valid(
    labels: Seq<PolyLabel>,
    coeffs: Seq<Seq<u64>>,
    terms: Seq<(u64, PolyLabel)>,
    x: u64,
)
    ensures
        spec_lc_terms_eval(labels, coeffs, terms, x) matches Ok(v) ==> fe_valid(v),
    decreases terms.len(),
{
    if terms.len() > 0 {
        lemma_lc_terms_eval_valid(labels, coeffs, terms.drop_last(), x);
    }
}

/// Looks up the coefficients carried under a label among labeled commitments.
fn find_comm_coeffs<'a>(comms: &'a Vec<LabeledCommitment>, l: PolyLabel) -> (r: Option<
    &'a Vec<u64>,
>)
    ensures
        match r {
            Some(c) => spec_find_coeffs(comm_labels(comms@), comm_coeff_seqs(comms@), l)
                == Some(c@),
            None => spec_find_coeffs(comm_labels(comms@), comm_coeff_seqs(comms@), l)
                is None,
        },
{
    let ghost labels = comm_labels(comms@);
    let ghost coeffs = comm_coeff_seqs(comms@);
    let mut i: usize = 0;
    while i < comms.len()
        invariant
            i <= comms@.len(),
            labels == comm_labels(comms@),
            coeffs == comm_coeff_seqs(comms@),
            forall|j: int| 0 <= j < i as int ==> labels[j] != l,
        decreases comms@.len() - i,
    {
        if comms[i].label == l {
            proof {
                lemma_find_coeffs_skip(labels, coeffs, l, i as int);
            }
            return Some(&comms[i].commitment.coeffs);
        }
        i = i + 1;
    }
    proof {
        lemma_find_coeffs_skip(labels, coeffs, l, comms@.len() as int);
    }
    None
}

/// Looks up the coefficients carried under a label among labeled polynomials.
fn find_poly_coeffs<'a>(polys: &'a Vec<LabeledPolynomial>, l: PolyLabel) -> (r: Option<
    &'a Vec<u64>,
>)
    ensures
        match r {
            Some(c) => spec_find_coeffs(poly_labels(polys@), poly_coeff_seqs(polys@), l)
                == Some(c@),
            None => spec_find_coeffs(poly_labels(polys@), poly_coeff_seqs(polys@), l)
                is None,
        },
{
    let ghost labels = poly_labels(polys@);
    let ghost coeffs = poly_coeff_seqs(polys@);
    let mut i: usize = 0;
    while i < polys.len()
        invariant
            i <= polys@.len(),
            labels == poly_labels(polys@),
            coeffs == poly_coeff_seqs(polys@),
            forall|j: int| 0 <= j < i as int ==> labels[j] != l,
        decreases polys@.len() - i,
    {
        if polys[i].label == l {
            proof {
                lemma_find_coeffs_skip(labels, coeffs, l, i as int);
            }
            return Some(&polys[i].coeffs);
        }
        i = i + 1;
    }
    proof {
        lemma_find_coeffs_skip(labels, coeffs, l, polys@.len() as int);
    }
    None
}

/// All labeled polynomials of a list are well-formed.
pub open spec fn all_polys_wf(s: Seq<LabeledPolynomial>) -> bool {
    forall|i: int| 0 <= i < s.len() ==> (#[trigger] s[i]).wf()
}

/// All labeled commitments of a list are well-formed.
pub open spec fn all_comms_wf(s: Seq<LabeledCommitment>) -> bool {
    forall|i: int| 0 <= i < s.len() ==> (#[trigger] s[i]).wf()
}

/// All combinations of a list are well-formed.
pub open spec fn all_lcs_wf(s: Seq<LinearCombination>) -> bool {
    forall|i: int| 0 <= i < s.len() ==> (#[trigger] s[i]).wf()
}

/// Evaluates one combination's terms against labeled polynomials.
fn lc_terms_eval_polys(polys: &Vec<LabeledPolynomial>, lc: &LinearCombination, x: u64) -> (r:
    Result<u64, SnarkError>)
    requires
        all_polys_wf(polys@),
        lc.wf(),
        fe_valid(x),
    ensures
        r == spec_lc_terms_eval(poly_labels(polys@), poly_coeff_seqs(polys@), lc.terms@, x),
        r matches Ok(v) ==> fe_valid(v),
{
    let ghost labels = poly_labels(polys@);
    let ghost coeffs = poly_coeff_seqs(polys@);
    let mut acc: u64 = 0;
    let mut i: usize = 0;
    assert(lc.terms@.subrange(0, 0) =~= Seq::<(u64, PolyLabel)>::empty());
    while i < lc.terms.len()
        invariant
            i <= lc.terms@.len(),
            all_polys_wf(polys@),
            lc.wf(),
            fe_valid(x),
            labels == poly_labels(polys@),
            coeffs == poly_coeff_seqs(polys@),
            fe_valid(acc),
            spec_lc_terms_eval(labels, coeffs, lc.terms@.subrange(0, i as int), x) == Result::<
                u64,
                SnarkError,
            >::Ok(acc),
        decreases lc.terms@.len() - i,
    {
        proof {
            let pre = lc.terms@.subrange(0, i as int + 1);
            assert(pre.drop_last() =~= lc.terms@.subrange(0, i as int));
        }
        let term = lc.terms[i];
        match find_poly_coeffs(polys, term.1) {
            None => {
                let e = SnarkError::MissingPolynomial(term.1);
                proof {
                    lemma_terms_eval_err_persists(labels, coeffs, lc.terms@, x, i as int + 1, e);
                }
                return Err(e);
            },
            Some(cs) => {
                proof {
                    lemma_poly_eval_valid(cs@, x);
                }
                assert(seq_fe_valid(cs@)) by {
                    assert(spec_find_coeffs(labels, coeffs, term.1) == Some(cs@));
                    lemma_find_coeffs_some_wf(polys@, term.1, cs@);
                }
                let ev = poly_eval(cs, x);
                acc = fe_add(acc, fe_mul(term.0, ev));
            },
        }
        i = i + 1;
    }
    assert(lc.terms@.subrange(0, lc.terms@.len() as int) =~= lc.terms@);
    Ok(acc)
}

/// Coefficients resolved among well-formed polynomials are themselves
/// well-formed.
pub proof fn lemma_find_coeffs_some_wf(polys: Seq<LabeledPolynomial>, l: PolyLabel, cs: Seq<u64>)
    requires
        all_polys_wf(polys),
        spec_find_coeffs(poly_labels(polys), poly_coeff_seqs(polys), l) == Some(cs),
    ensures
        seq_fe_valid(cs),
    decreases polys.len(),
{
    if polys.len() > 0 {
        let labels = poly_labels(polys);
        let coeffs = poly_coeff_seqs(polys);
        if labels[0] == l {
        } else {
            let tail = polys.subrange(1, polys.len() as int);
            assert(poly_labels(tail) =~= labels.subrange(1, labels.len() as int));
            assert(poly_coeff_seqs(tail) =~= coeffs.subrange(1, coeffs.len() as int));
            lemma_find_coeffs_some_wf(tail, l, cs);
        }
    }
}

/// Coefficients resolved among well-formed commitments are themselves
/// well-formed.
pub proof fn lemma_find_comm_coeffs_some_wf(
    comms: Seq<LabeledCommitment>,
    l: PolyLabel,
    cs: Seq<u64>,
)
    requires
        all_comms_wf(comms),
        spec_find_coeffs(comm_labels(comms), comm_coeff_seqs(comms), l) == Some(cs),
    ensures
        seq_fe_valid(cs),
    decreases comms.len(),
{
    if comms.len() > 0 {
        let labels = comm_labels(comms);
        let coeffs = comm_coeff_seqs(comms);
        if labels[0] == l {
        } else {
            let tail = comms.subrange(1, comms.len() as int);
            assert(comm_labels(tail) =~= labels.subrange(1, labels.len() as int));
            assert(comm_coeff_seqs(tail) =~= coeffs.subrange(1, coeffs.len() as int));
            lemma_find_comm_coeffs_some_wf(tail, l, cs);
        }
    }
}

/// Evaluates one combination's terms against labeled commitments.
fn lc_terms_eval_comms(comms: &Vec<LabeledCommitment>, lc: &LinearCombination, x: u64) -> (r:
    Result<u64, SnarkError>)
    requires
        all_comms_wf(comms@),
        lc.wf(),
        fe_valid(x),
    ensures
        r == spec_lc_terms_eval(comm_labels(comms@), comm_coeff_seqs(comms@), lc.terms@, x),
        r matches Ok(v) ==> fe_valid(v),
{
    let ghost labels = comm_labels(comms@);
    let ghost coeffs = comm_coeff_seqs(comms@);
    let mut acc: u64 = 0;
    let mut i: usize = 0;
    assert(lc.terms@.subrange(0, 0) =~= Seq::<(u64, PolyLabel)>::empty());
    while i < lc.terms.len()
        invariant
            i <= lc.terms@.len(),
            all_comms_wf(comms@),
            lc.wf(),
            fe_valid(x),
            labels == comm_labels(comms@),
            coeffs == comm_coeff_seqs(comms@),
            fe_valid(acc),
            spec_lc_terms_eval(labels, coeffs, lc.terms@.subrange(0, i as int), x) == Result::<
                u64,
                SnarkError,
            >::Ok(acc),
        decreases lc.terms@.len() - i,
    {
        proof {
            let pre = lc.terms@.subrange(0, i as int + 1);
            assert(pre.drop_last() =~= lc.terms@.subrange(0, i as int));
        }
        let term = lc.terms[i];
        match find_comm_coeffs(comms, term.1) {
            None => {
                let e = SnarkError::MissingPolynomial(term.1);
                proof {
                    lemma_terms_eval_err_persists(labels, coeffs, lc.terms@, x, i as int + 1, e);
                }
                return Err(e);
            },
            Some(cs) => {
                proof {
                    lemma_poly_eval_valid(cs@, x);
                }
                assert(seq_fe_valid(cs@)) by {
                    assert(spec_find_coeffs(labels, coeffs, term.1) == Some(cs@));
                    lemma_find_comm_coeffs_some_wf(comms@, term.1, cs@);
                }
                let ev = poly_eval(cs, x);
                acc = fe_add(acc, fe_mul(term.0, ev));
            },
        }
        i = i + 1;
    }
    assert(lc.terms@.subrange(0, lc.terms@.len() as int) =~= lc.terms@);
    Ok(acc)
}

/// A label that occurs among the labels is always resolved.
pub proof fn lemma_find_coeffs_present(labels: Seq<PolyLabel>, coeffs: Seq<Seq<u64>>, l: PolyLabel)
    requires
        labels.len() == coeffs.len(),
        exists|j: int| 0 <= j < labels.len() && labels[j] == l,
    ensures
        spec_find_coeffs(labels, coeffs, l) is Some,
    decreases labels.len(),
{
    if labels[0] == l {
    } else {
        let j = choose|j: int| 0 <= j < labels.len() && labels[j] == l;
        let ltail = labels.subrange(1, labels.len() as int);
        let ctail = coeffs.subrange(1, coeffs.len() as int);
        assert(ltail[j - 1] == l);
        lemma_find_coeffs_present(ltail, ctail, l);
    }
}

/// Resolution of the label at a position whose earlier positions differ gives
/// exactly that position's coefficients.
pub proof fn lemma_find_coeffs_at(labels: Seq<PolyLabel>, coeffs: Seq<Seq<u64>>, i: int)
    requires
        labels.len() == coeffs.len(),
        0 <= i < labels.len(),
        forall|j: int| 0 <= j < i ==> labels[j] != labels[i],
    ensures
        spec_find_coeffs(labels, coeffs, labels[i]) == Some(coeffs[i]),
{
    lemma_find_coeffs_skip(labels, coeffs, labels[i], i);
    let ltail = labels.subrange(i, labels.len() as int);
    let ctail = coeffs.subrange(i, coeffs.len() as int);
    assert(ltail[0] == labels[i]);
    assert(ctail[0] == coeffs[i]);
}

/// A single-term combination over a label that occurs among the labels always
/// evaluates.
pub proof fn lemma_single_term_eval_ok(
    labels: Seq<PolyLabel>,
    coeffs: Seq<Seq<u64>>,
    terms: Seq<(u64, PolyLabel)>,
    x: u64,
)
    requires
        labels.len() == coeffs.len(),
        terms.len() == 1,
        exists|j: int| 0 <= j < labels.len() && labels[j] == terms[0].1,
    ensures
        spec_lc_terms_eval(labels, coeffs, terms, x) is Ok,
{
    assert(terms.drop_last() =~= Seq::<(u64, PolyLabel)>::empty());
    assert(terms.last() == terms[0]);
    lemma_find_coeffs_present(labels, coeffs, terms[0].1);
    assert(spec_lc_terms_eval(labels, coeffs, terms.drop_last(), x) == Result::<
        u64,
        SnarkError,
    >::Ok(0u64));
    assert(spec_find_coeffs(labels, coeffs, terms.last().1) is Some);
}

/// Direct-opening combinations, one per committed label in order, always
/// evaluate.
pub proof fn lemma_direct_lcs_eval_ok(
    labels: Seq<PolyLabel>,
    coeffs: Seq<Seq<u64>>,
    lcs: Seq<LinearCombination>,
    qs: Seq<Query>,
)
    requires
        labels.len() == coeffs.len(),
        qs.len() == lcs.len(),
        lcs.len() <= labels.len(),
        forall|i: int|
            0 <= i < lcs.len() ==> (#[trigger] lcs[i]).terms@.len() == 1 && lcs[i].terms@[0].1
                == labels[i],
    ensures
        spec_lc_evals(labels, coeffs, lcs, qs) is Ok,
    decreases lcs.len(),
{
    if lcs.len() > 0 {
        lemma_direct_lcs_eval_ok(labels, coeffs, lcs.drop_last(), qs.subrange(0, lcs.len() - 1));
        let k = lcs.len() - 1;
        assert(labels[k] == lcs[k].terms@[0].1);
        lemma_single_term_eval_ok(labels, coeffs, lcs[k].terms@, qs[k].point);
    }
}

/// Direct-opening combinations over pairwise distinct labels evaluate to the
/// polynomials' own values at the query points, position for position.
pub proof fn lemma_direct_lcs_values(
    labels: Seq<PolyLabel>,
    coeffs: Seq<Seq<u64>>,
    lcs: Seq<LinearCombination>,
    qs: Seq<Query>,
)
    requires
        labels.len() == coeffs.len(),
        qs.len() == lcs.len(),
        lcs.len() <= labels.len(),
        forall|i: int|
            0 <= i < lcs.len() ==> (#[trigger] lcs[i]).terms@.len() == 1 && lcs[i].terms@[0] == (
                1u64,
                labels[i],
            ),
        forall|i: int, j: int| 0 <= i < j < labels.len() ==> labels[i] != labels[j],
    ensures
        spec_lc_evals(labels, coeffs, lcs, qs) == Result::<Seq<u64>, SnarkError>::Ok(
            Seq::new(lcs.len(), |i: int| spec_poly_eval(coeffs[i], qs[i].point)),
        ),
    decreases lcs.len(),
{
    let full = Seq::new(lcs.len(), |i: int| spec_poly_eval(coeffs[i], qs[i].point));
    if lcs.len() == 0 {
        assert(full =~= Seq::<u64>::empty());
    } else {
        let k = lcs.len() - 1;
        lemma_direct_lcs_values(labels, coeffs, lcs.drop_last(), qs.subrange(0, k));
        let pre = Seq::new(k as nat, |i: int| spec_poly_eval(coeffs[i], qs.subrange(0, k)[i].point));
        assert(pre =~= Seq::new(k as nat, |i: int| spec_poly_eval(coeffs[i], qs[i].point)));
        assert(forall|j: int| 0 <= j < k ==> labels[j] != labels[k]);
        lemma_find_coeffs_at(labels, coeffs, k);
        let terms = lcs[k].terms@;
        assert(terms.drop_last() =~= Seq::<(u64, PolyLabel)>::empty());
        assert(terms.last() == (1u64, labels[k]));
        assert(spec_lc_terms_eval(labels, coeffs, terms.drop_last(), qs[k].point) == Result::<
            u64,
            SnarkError,
        >::Ok(0u64));
        lemma_poly_eval_valid(coeffs[k], qs[k].point);
        let ev = spec_poly_eval(coeffs[k], qs[k].point);
        assert(spec_fe_mul(1u64, ev) == ev);
        assert(spec_fe_add(0u64, spec_fe_mul(1u64, ev)) == ev);
        assert(spec_lc_terms_eval(labels, coeffs, terms, qs[k].point) == Result::<
            u64,
            SnarkError,
        >::Ok(ev));
        assert(pre.push(ev) =~= full);
        assert(lcs[k] == lcs.last());
    }
}

/// Evaluates one combination against labeled polynomials at a point.
pub fn get_lc_eval(polys: &Vec<LabeledPolynomial>, lc: &LinearCombination, x: u64) -> (r: Result<
    u64,
    SnarkError,
>)
    requires
        all_polys_wf(polys@),
        lc.wf(),
        fe_valid(x),
    ensures
        r == spec_lc_terms_eval(poly_labels(polys@), poly_coeff_seqs(polys@), lc.terms@, x),
        r matches Ok(v) ==> fe_valid(v),
{
    lc_terms_eval_polys(polys, lc, x)
}

/// The queries are the combinations' own, in the combinations' order.
pub open spec fn queries_aligned(lcs: Seq<LinearCombination>, qs: Seq<Query>) -> bool {
    &&& qs.len() == lcs.len()
    &&& forall|i: int|
        0 <= i < lcs.len() ==> (#[trigger] qs[i]).label == lcs[i].label && fe_valid(qs[i].point)
}

/// The value of every combination at its query point, in order, against
/// parallel label and coefficient sequences; or the first failure.
pub open spec fn spec_lc_evals(
    labels: Seq<PolyLabel>,
    coeffs: Seq<Seq<u64>>,
    lcs: Seq<LinearCombination>,
    qs: Seq<Query>,
) -> Result<Seq<u64>, SnarkError>
    decreases lcs.len(),
{
    if lcs.len() == 0 {
        Ok(Seq::<u64>::empty())
    } else {
        match spec_lc_evals(labels, coeffs, lcs.drop_last(), qs.subrange(0, lcs.len() - 1)) {
            Err(e) => Err(e),
            Ok(pre) => match spec_lc_terms_eval(
                labels,
                coeffs,
                lcs.last().terms@,
                qs[lcs.len() - 1].point,
            ) {
                Err(e) => Err(e),
                Ok(v) => Ok(pre.push(v)),
            },
        }
    }
}

/// A failed combination evaluation stays failed as more combinations follow.
pub proof fn lemma_lc_evals_err_persists(
    labels: Seq<PolyLabel>,
    coeffs: Seq<Seq<u64>>,
    lcs: Seq<LinearCombination>,
    qs: Seq<Query>,
    i: int,
    e: SnarkError,
)
    requires
        qs.len() == lcs.len(),
        0 <= i <= lcs.len(),
        spec_lc_evals(labels, coeffs, lcs.subrange(0, i), qs.subrange(0, i)) == Result::<
            Seq<u64>,
            SnarkError,
        >::Err(e),
    ensures
        spec_lc_evals(labels, coeffs, lcs, qs) == Result::<Seq<u64>, SnarkError>::Err(e),
    decreases lcs.len() - i,
{
    if i < lcs.len() {
        let pre = lcs.subrange(0, i + 1);
        let qpre = qs.subrange(0, i + 1);
        assert(pre.drop_last() =~= lcs.subrange(0, i));
        assert(qpre.subrange(0, i) =~= qs.subrange(0, i));
        lemma_lc_evals_err_persists(labels, coeffs, lcs, qs, i + 1, e);
    } else {
        assert(lcs.subrange(0, lcs.len() as int) =~= lcs);
        assert(qs.subrange(0, qs.len() as int) =~= qs);
    }
}


/// The `k`-th power of `g` in the field.
pub open spec fn spec_pow(g: u64, k: nat) -> u64
    decreases k,
{
    if k == 0 {
        1u64
    } else {
        spec_fe_mul(spec_pow(g, (k - 1) as nat), g)
    }
}


/// The challenge-weighted aggregate of a list of evaluations:
/// the sum of `gamma^i` times the `i`-th value.
pub open spec fn spec_combine(evals: Seq<u64>, gamma: u64) -> u64
    decreases evals.len(),
{
    if evals.len() == 0 {
        0u64
    } else {
        spec_fe_add(
            spec_combine(evals.drop_last(), gamma),
            spec_fe_mul(spec_pow(gamma, (evals.len() - 1) as nat), evals.last()),
        )
    }
}

/// Computes the challenge-weighted aggregate.
fn combine(evals: &Vec<u64>, gamma: u64) -> (r: u64)
    requires
        seq_fe_valid(evals@),
        fe_valid(gamma),
    ensures
        r == spec_combine(evals@, gamma),
        fe_valid(r),
{
    let mut acc: u64 = 0;
    let mut pow: u64 = 1;
    let mut i: usize = 0;
    assert(evals@.subrange(0, 0) =~= Seq::<u64>::empty());
    while i < evals.len()
        invariant
            i <= evals@.len(),
            seq_fe_valid(evals@),
            fe_valid(gamma),
            fe_valid(acc),
            fe_valid(pow),
            pow == spec_pow(gamma, i as nat),
            acc == spec_combine(evals@.subrange(0, i as int), gamma),
        decreases evals@.len() - i,
    {
        proof {
            let pre = evals@.subrange(0, i as int + 1);
            assert(pre.drop_last() =~= evals@.subrange(0, i as int));
        }
        acc = fe_add(acc, fe_mul(pow, evals[i]));
        pow = fe_mul(pow, gamma);
        i = i + 1;
    }
    assert(evals@.subrange(0, evals@.len() as int) =~= evals@);
    acc
}

/// Whether any randomness of a list is not the empty sentinel.
pub open spec fn spec_any_hiding(rands: Seq<u64>) -> bool {
    exists|i: int| 0 <= i < rands.len() && rands[i] != EMPTY_RANDOMNESS
}

fn any_hiding(rands: &Vec<u64>) -> (r: bool)
    ensures
        r == spec_any_hiding(rands@),
{
    let mut i: usize = 0;
    while i < rands.len()
        invariant
            i <= rands@.len(),
            forall|j: int| 0 <= j < i as int ==> rands@[j] == EMPTY_RANDOMNESS,
        decreases rands@.len() - i,
    {
        if rands[i] != EMPTY_RANDOMNESS {
            return true;
        }
        i = i + 1;
    }
    false
}

/// The hiding flags of a list of labeled polynomials.
pub open spec fn hiding_flags(s: Seq<LabeledPolynomial>) -> Seq<bool> {
    s.map_values(|p: LabeledPolynomial| p.hiding)
}

/// The generator state after committing to polynomials with these hiding
/// flags: one draw per hiding polynomial.
pub open spec fn spec_commit_state(state: u64, hid: Seq<bool>) -> u64
    decreases hid.len(),
{
    if hid.len() == 0 {
        state
    } else {
        let s = spec_commit_state(state, hid.drop_last());
        if hid.last() {
            spec_rng_step(s)
        } else {
            s
        }
    }
}

/// A drawn value forced away from zero.
pub open spec fn spec_nonzero(v: u64) -> u64 {
    if v == 0u64 {
        1u64
    } else {
        v
    }
}

/// The randomness the `i`-th polynomial receives: a fresh nonzero draw when it
/// hides, the empty sentinel otherwise.
pub open spec fn spec_commit_rand(state: u64, hid: Seq<bool>, i: int) -> u64 {
    if hid[i] {
        spec_nonzero(spec_rng_step(spec_commit_state(state, hid.subrange(0, i))))
    } else {
        EMPTY_RANDOMNESS
    }
}

/// Commits to each labeled polynomial in order.
///
/// The commitment of a polynomial is the transparent oracle of its
/// coefficients under its label; its randomness is a fresh nonzero draw when
/// the polynomial hides, and the empty sentinel otherwise.
pub fn commit(ck: &CommitterKey, polys: &Vec<LabeledPolynomial>, rng: &mut ProofRng) -> (r: (
    Vec<LabeledCommitment>,
    Vec<u64>,
))
    requires
        old(rng).wf(),
    ensures
        r.0@.len() == polys@.len(),
        r.1@.len() == polys@.len(),
        forall|i: int|
            0 <= i < polys@.len() ==> (#[trigger] r.0@[i]).label == polys@[i].label
                && r.0@[i].commitment.coeffs@ == polys@[i].coeffs@,
        forall|i: int|
            0 <= i < polys@.len() ==> r.1@[i] == spec_commit_rand(
                old(rng).state,
                hiding_flags(polys@),
                i,
            ),
        forall|i: int|
            0 <= i < polys@.len() ==> (!polys@[i].hiding ==> r.1@[i] == EMPTY_RANDOMNESS) && (
            polys@[i].hiding ==> r.1@[i] != EMPTY_RANDOMNESS),
        final(rng).state == spec_commit_state(old(rng).state, hiding_flags(polys@)),
        final(rng).wf(),
        all_polys_wf(polys@) ==> all_comms_wf(r.0@),
        seq_fe_valid(r.1@),
{
    let ghost hid = hiding_flags(polys@);
    let ghost init = old(rng).state;
    let mut comms: Vec<LabeledCommitment> = Vec::new();
    let mut rands: Vec<u64> = Vec::new();
    let mut i: usize = 0;
    assert(hid.subrange(0, 0) =~= Seq::<bool>::empty());
    while i < polys.len()
        invariant
            i <= polys@.len(),
            hid == hiding_flags(polys@),
            rng.wf(),
            rng.state == spec_commit_state(init, hid.subrange(0, i as int)),
            comms@.len() == i as int,
            rands@.len() == i as int,
            forall|j: int|
                0 <= j < i as int ==> (#[trigger] comms@[j]).label == polys@[j].label
                    && comms@[j].commitment.coeffs@ == polys@[j].coeffs@,
            forall|j: int| 0 <= j < i as int ==> rands@[j] == spec_commit_rand(init, hid, j),
            forall|j: int|
                0 <= j < i as int ==> (!polys@[j].hiding ==> rands@[j] == EMPTY_RANDOMNESS) && (
                polys@[j].hiding ==> rands@[j] != EMPTY_RANDOMNESS),
            seq_fe_valid(rands@),
        decreases polys@.len() - i,
    {
        proof {
            let pre = hid.subrange(0, i as int + 1);
            assert(pre.drop_last() =~= hid.subrange(0, i as int));
        }
        let p = &polys[i];
        let cs = clone_u64_vec(&p.coeffs);
        comms.push(LabeledCommitment { label: p.label, commitment: Commitment { coeffs: cs } });
        if p.hiding {
            let v = rng.next_nonzero_field_element();
            rands.push(v);
        } else {
            rands.push(EMPTY_RANDOMNESS);
        }
        i = i + 1;
    }
    assert(hid.subrange(0, hid.len() as int) =~= hid);
    (comms, rands)
}

/// Commits as `commit` does, unless the terminator is observed set, in which
/// case it abandons the work and fails with the termination error.
pub fn commit_with_terminator(
    ck: &CommitterKey,
    polys: &Vec<LabeledPolynomial>,
    terminator: &Terminator,
    rng: &mut ProofRng,
) -> (r: Result<(Vec<LabeledCommitment>, Vec<u64>), SnarkError>)
    requires
        old(rng).wf(),
    ensures
        terminator.flag ==> (r matches Err(e) && e == SnarkError::Terminated && *final(rng)
            == *old(rng)),
        !terminator.flag ==> (r matches Ok(cr) && cr.0@.len() == polys@.len() && cr.1@.len()
            == polys@.len() && (forall|i: int|
            0 <= i < polys@.len() ==> (#[trigger] cr.0@[i]).label == polys@[i].label
                && cr.0@[i].commitment.coeffs@ == polys@[i].coeffs@) && (forall|i: int|
            0 <= i < polys@.len() ==> cr.1@[i] == spec_commit_rand(
                old(rng).state,
                hiding_flags(polys@),
                i,
            )) && (forall|i: int|
            0 <= i < polys@.len() ==> (!polys@[i].hiding ==> cr.1@[i] == EMPTY_RANDOMNESS) && (
            polys@[i].hiding ==> cr.1@[i] != EMPTY_RANDOMNESS)) && (all_polys_wf(polys@)
            ==> all_comms_wf(cr.0@)) && seq_fe_valid(cr.1@)),
        !terminator.flag ==> final(rng).state == spec_commit_state(
            old(rng).state,
            hiding_flags(polys@),
        ) && final(rng).wf(),
{
    if terminator.is_set() {
        return Err(SnarkError::Terminated);
    }
    Ok(commit(ck, polys, rng))
}

/// The outcome of opening combinations: the proof and the sponge state left
/// behind, or the first failure.
pub open spec fn spec_open_combinations(
    labels: Seq<PolyLabel>,
    coeffs: Seq<Seq<u64>>,
    lcs: Seq<LinearCombination>,
    qs: Seq<Query>,
    rands: Seq<u64>,
    state: u64,
) -> Result<(PcProof, u64), SnarkError> {
    match spec_lc_evals(labels, coeffs, lcs, qs) {
        Err(e) => Err(e),
        Ok(evals) => {
            let s1 = spec_absorb_tagged(state, TAG_NONNATIVE, evals);
            let gamma = spec_squeeze_state(s1, 1);
            Ok(
                (
                    PcProof {
                        combined: spec_combine(evals, gamma),
                        hiding: spec_any_hiding(rands),
                    },
                    gamma,
                ),
            )
        },
    }
}

/// Opens the combinations at their query points.
///
/// Evaluates each combination over the labeled polynomials at its query
/// point, absorbs the evaluations into the transcript, squeezes the
/// aggregation challenge and aggregates. The proof hides exactly when any of
/// the supplied randomness is not the empty sentinel.
pub fn open_combinations(
    ck: &CommitterKey,
    lcs: &Vec<LinearCombination>,
    polys: &Vec<LabeledPolynomial>,
    query_set: &Vec<Query>,
    rands: &Vec<u64>,
    sponge: &mut Sponge,
) -> (r: Result<PcProof, SnarkError>)
    requires
        old(sponge).wf(),
        all_polys_wf(polys@),
        all_lcs_wf(lcs@),
        queries_aligned(lcs@, query_set@),
    ensures
        match r {
            Ok(pc) => spec_open_combinations(
                poly_labels(polys@),
                poly_coeff_seqs(polys@),
                lcs@,
                query_set@,
                rands@,
                old(sponge).state,
            ) matches Ok(pr) && pc == pr.0 && final(sponge).state == pr.1,
            Err(e) => spec_open_combinations(
                poly_labels(polys@),
                poly_coeff_seqs(polys@),
                lcs@,
                query_set@,
                rands@,
                old(sponge).state,
            ) == Result::<(PcProof, u64), SnarkError>::Err(e) && *final(sponge) == *old(sponge),
        },
        final(sponge).wf(),
{
    let ghost labels = poly_labels(polys@);
    let ghost coeffs = poly_coeff_seqs(polys@);
    let mut evals: Vec<u64> = Vec::new();
    let mut i: usize = 0;
    assert(lcs@.subrange(0, 0) =~= Seq::<LinearCombination>::empty());
    assert(query_set@.subrange(0, 0) =~= Seq::<Query>::empty());
    while i < lcs.len()
        invariant
            i <= lcs@.len(),
            all_polys_wf(polys@),
            all_lcs_wf(lcs@),
            queries_aligned(lcs@, query_set@),
            labels == poly_labels(polys@),
            coeffs == poly_coeff_seqs(polys@),
            spec_lc_evals(labels, coeffs, lcs@.subrange(0, i as int), query_set@.subrange(0, i as int))
                == Result::<Seq<u64>, SnarkError>::Ok(evals@),
            seq_fe_valid(evals@),
            evals@.len() == i as int,
            *sponge == *old(sponge),
            sponge.wf(),
        decreases lcs@.len() - i,
    {
        proof {
            let pre = lcs@.subrange(0, i as int + 1);
            let qpre = query_set@.subrange(0, i as int + 1);
            assert(pre.drop_last() =~= lcs@.subrange(0, i as int));
            assert(qpre.subrange(0, i as int) =~= query_set@.subrange(0, i as int));
        }
        match lc_terms_eval_polys(polys, &lcs[i], query_set[i].point) {
            Err(e) => {
                proof {
                    lemma_lc_evals_err_persists(
                        labels,
                        coeffs,
                        lcs@,
                        query_set@,
                        i as int + 1,
                        e,
                    );
                }
                return Err(e);
            },
            Ok(v) => {
                evals.push(v);
            },
        }
        i = i + 1;
    }
    assert(lcs@.subrange(0, lcs@.len() as int) =~= lcs@);
    assert(query_set@.subrange(0, query_set@.len() as int) =~= query_set@);
    sponge.absorb_nonnative_field_elements(&evals);
    let gammas = sponge.squeeze_nonnative_field_elements(1);
    let gamma = gammas[0];
    let combined = combine(&evals, gamma);
    let hiding = any_hiding(rands);
    Ok(PcProof { combined, hiding })
}

/// The outcome of checking combinations: the verdict and the sponge state
/// left behind, or the first failure.
///
/// The verdict is positive exactly when the claimed evaluations all equal the
/// values recomputed from the commitments, and the proof's aggregate equals
/// the aggregate of the claimed evaluations under the squeezed challenge.
pub open spec fn spec_check_combinations(
    labels: Seq<PolyLabel>,
    coeffs: Seq<Seq<u64>>,
    lcs: Seq<LinearCombination>,
    qs: Seq<Query>,
    claimed: Seq<u64>,
    pc: PcProof,
    state: u64,
) -> Result<(bool, u64), SnarkError> {
    match spec_lc_evals(labels, coeffs, lcs, qs) {
        Err(e) => Err(e),
        Ok(recomputed) => {
            let s1 = spec_absorb_tagged(state, TAG_NONNATIVE, claimed);
            let gamma = spec_squeeze_state(s1, 1);
            Ok(
                (
                    recomputed == claimed && pc.combined == spec_combine(claimed, gamma),
                    gamma,
                ),
            )
        },
    }
}

/// Checks the combinations against claimed evaluations.
///
/// `claimed` holds one value per combination, in the combinations' order.
/// Recomputes every combination from the transparent commitments, absorbs the
/// claimed evaluations, squeezes the aggregation challenge and compares the
/// proof's aggregate.
pub fn check_combinations(
    vk: &PcsVerifierKey,
    lcs: &Vec<LinearCombination>,
    comms: &Vec<LabeledCommitment>,
    query_set: &Vec<Query>,
    claimed: &Vec<u64>,
    pc: &PcProof,
    sponge: &mut Sponge,
) -> (r: Result<bool, SnarkError>)
    requires
        old(sponge).wf(),
        all_comms_wf(comms@),
        all_lcs_wf(lcs@),
        queries_aligned(lcs@, query_set@),
        seq_fe_valid(claimed@),
        claimed@.len() == lcs@.len(),
    ensures
        match r {
            Ok(b) => spec_check_combinations(
                comm_labels(comms@),
                comm_coeff_seqs(comms@),
                lcs@,
                query_set@,
                claimed@,
                *pc,
                old(sponge).state,
            ) matches Ok(pr) && b == pr.0 && final(sponge).state == pr.1,
            Err(e) => spec_check_combinations(
                comm_labels(comms@),
                comm_coeff_seqs(comms@),
                lcs@,
                query_set@,
                claimed@,
                *pc,
                old(sponge).state,
            ) == Result::<(bool, u64), SnarkError>::Err(e) && *final(sponge) == *old(sponge),
        },
        final(sponge).wf(),
{
    let ghost labels = comm_labels(comms@);
    let ghost coeffs = comm_coeff_seqs(comms@);
    let mut recomputed: Vec<u64> = Vec::new();
    let mut i: usize = 0;
    assert(lcs@.subrange(0, 0) =~= Seq::<LinearCombination>::empty());
    assert(query_set@.subrange(0, 0) =~= Seq::<Query>::empty());
    while i < lcs.len()
        invariant
            i <= lcs@.len(),
            all_comms_wf(comms@),
            all_lcs_wf(lcs@),
            queries_aligned(lcs@, query_set@),
            labels == comm_labels(comms@),
            coeffs == comm_coeff_seqs(comms@),
            spec_lc_evals(labels, coeffs, lcs@.subrange(0, i as int), query_set@.subrange(0, i as int))
                == Result::<Seq<u64>, SnarkError>::Ok(recomputed@),
            seq_fe_valid(recomputed@),
            recomputed@.len() == i as int,
            *sponge == *old(sponge),
            sponge.wf(),
        decreases lcs@.len() - i,
    {
        proof {
            let pre = lcs@.subrange(0, i as int + 1);
            let qpre = query_set@.subrange(0, i as int + 1);
            assert(pre.drop_last() =~= lcs@.subrange(0, i as int));
            assert(qpre.subrange(0, i as int) =~= query_set@.subrange(0, i as int));
        }
        match lc_terms_eval_comms(comms, &lcs[i], query_set[i].point) {
            Err(e) => {
                proof {
                    lemma_lc_evals_err_persists(
                        labels,
                        coeffs,
                        lcs@,
                        query_set@,
                        i as int + 1,
                        e,
                    );
                }
                return Err(e);
            },
            Ok(v) => {
                recomputed.push(v);
            },
        }
        i = i + 1;
    }
    assert(lcs@.subrange(0, lcs@.len() as int) =~= lcs@);
    assert(query_set@.subrange(0, query_set@.len() as int) =~= query_set@);
    let mut all_equal = true;
    let mut k: usize = 0;
    assert(recomputed@.subrange(0, 0) =~= claimed@.subrange(0, 0));
    while k < claimed.len()
        invariant
            k <= claimed@.len(),
            recomputed@.len() == claimed@.len(),
            all_equal == (recomputed@.subrange(0, k as int) == claimed@.subrange(0, k as int)),
        decreases claimed@.len() - k,
    {
        proof {
            let rp = recomputed@.subrange(0, k as int + 1);
            let cp = claimed@.subrange(0, k as int + 1);
            assert(rp.drop_last() =~= recomputed@.subrange(0, k as int));
            assert(cp.drop_last() =~= claimed@.subrange(0, k as int));
            if recomputed@[k as int] == claimed@[k as int] && recomputed@.subrange(0, k as int)
                == claimed@.subrange(0, k as int) {
                assert(rp =~= cp);
            }
            if rp == cp {
                assert(rp.drop_last() == cp.drop_last());
                assert(rp.last() == cp.last());
            }
        }
        if recomputed[k] != claimed[k] {
            all_equal = false;
        }
        k = k + 1;
    }
    proof {
        assert(recomputed@.subrange(0, recomputed@.len() as int) =~= recomputed@);
        assert(claimed@.subrange(0, claimed@.len() as int) =~= claimed@);
    }
    sponge.absorb_nonnative_field_elements(claimed);
    let gammas = sponge.squeeze_nonnative_field_elements(1);
    let gamma = gammas[0];
    let combined = combine(claimed, gamma);
    Ok(all_equal && combined == pc.combined)
}

} // verus!
