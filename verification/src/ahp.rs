//! The algebraic holographic proof's indexer.
//!
//! Indexing a circuit produces its canonical set of index polynomials — four
//! flattenings (column, row, row-column, value) of each of the three matrices,
//! in the canonical label order — together with the circuit's metadata, its
//! degree requirement, and a content hash that serves as the circuit's
//! identity.

use vstd::prelude::*;

use crate::domain::{domain_size, spec_domain_size, MAX_DOMAIN_INPUT};
use crate::errors::SnarkError;
use crate::field::{fe_reduce, fe_valid, seq_fe_valid, spec_fe_reduce};
use crate::labels::NUM_INDEX_POLYS;
use crate::poly::{poly_eval, spec_poly_eval};
use crate::r1cs::{spec_matrix_wf, Circuit, MatEntry};
use crate::sponge::{spec_absorb_tagged, spec_squeeze_state, Sponge, TAG_NATIVE, TAG_NONNATIVE};

verus! {

/// Seed of the circuit-hash transcript.
pub const CIRCUIT_HASH_SEED: u64 = 97;

/// Metadata of one indexed circuit, immutable after indexing.
#[derive(Clone, Copy, Debug, PartialEq, Eq, Structural)]
pub struct CircuitInfo {
    /// Count of public inputs, the leading constant one included.
    pub num_public_inputs: usize,
    /// Full assignment length.
    pub num_variables: usize,
    /// Constraint count, the size the constraint domain is fitted to.
    pub num_constraints: usize,
    /// The largest count of matrix entries, the size the non-zero domain is
    /// fitted to.
    pub num_non_zero: usize,
}

/// Which flattening of a matrix an index polynomial holds.
#[derive(Clone, Copy, Debug, PartialEq, Eq, Structural)]
pub enum FlattenKind {
    /// The entries' column (variable) indices.
    Col,
    /// The entries' row (constraint) indices.
    Row,
    /// The entries' combined row-column positions.
    RowCol,
    /// The entries' coefficient values.
    Val,
}

/// The field value one matrix entry contributes under a flattening.
pub open spec fn spec_entry_value(kind: FlattenKind, j: int, e: MatEntry, nv: int) -> u64 {
    match kind {
        FlattenKind::Col => spec_fe_reduce(e.var as u64),
        FlattenKind::Row => spec_fe_reduce(j as u64),
        FlattenKind::RowCol => spec_fe_reduce((j * nv + e.var) as u64),
        FlattenKind::Val => e.coeff,
    }
}

/// The flattening of one row.
pub open spec fn spec_row_flat(kind: FlattenKind, j: int, row: Seq<MatEntry>, nv: int) -> Seq<u64> {
    row.map_values(|e: MatEntry| spec_entry_value(kind, j, e, nv))
}

/// The flattening of a whole matrix, row by row.
pub open spec fn spec_flatten(kind: FlattenKind, m: Seq<Vec<MatEntry>>, nv: int) -> Seq<u64>
    decreases m.len(),
{
    if m.len() == 0 {
        Seq::<u64>::empty()
    } else {
        spec_flatten(kind, m.drop_last(), nv) + spec_row_flat(
            kind,
            m.len() - 1,
            m.last()@,
            nv,
        )
    }
}

/// Flattens a matrix into an index polynomial's coefficients.
fn flatten(kind: FlattenKind, m: &Vec<Vec<MatEntry>>, nv: usize) -> (r: Vec<u64>)
    requires
        spec_matrix_wf(m@, nv as int),
        m@.len() <= MAX_DOMAIN_INPUT,
        nv <= MAX_DOMAIN_INPUT,
    ensures
        r@ == spec_flatten(kind, m@, nv as int),
        seq_fe_valid(r@),
{
    let mut r: Vec<u64> = Vec::new();
    let mut j: usize = 0;
    assert(m@.subrange(0, 0) =~= Seq::<Vec<MatEntry>>::empty());
    while j < m.len()
        invariant
            j <= m@.len(),
            spec_matrix_wf(m@, nv as int),
            m@.len() <= MAX_DOMAIN_INPUT,
            nv <= MAX_DOMAIN_INPUT,
            r@ == spec_flatten(kind, m@.subrange(0, j as int), nv as int),
            seq_fe_valid(r@),
        decreases m@.len() - j,
    {
        let row = &m[j];
        let ghost pre = r@;
        let ghost rowflat = spec_row_flat(kind, j as int, row@, nv as int);
        let mut k: usize = 0;
        while k < row.len()
            invariant
                k <= row@.len(),
                j < m@.len(),
                spec_matrix_wf(m@, nv as int),
                m@.len() <= MAX_DOMAIN_INPUT,
                nv <= MAX_DOMAIN_INPUT,
                row@ == m@[j as int]@,
                rowflat == spec_row_flat(kind, j as int, row@, nv as int),
                r@ == pre + rowflat.subrange(0, k as int),
                seq_fe_valid(r@),
            decreases row@.len() - k,
        {
            let e = row[k];
            proof {
                assert(crate::r1cs::spec_row_wf(m@[j as int]@, nv as int));
                assert(row@[k as int].var < nv as int && fe_valid(row@[k as int].coeff));
            }
            let v: u64 = match kind {
                FlattenKind::Col => fe_reduce(e.var as u64),
                FlattenKind::Row => fe_reduce(j as u64),
                FlattenKind::RowCol => {
                    assert(j * nv + e.var < 0x8000_0000) by (nonlinear_arith)
                        requires
                            j < 0x8000,
                            nv <= 0x8000,
                            e.var < nv,
                    ;
                    fe_reduce((j * nv + e.var) as u64)
                },
                FlattenKind::Val => e.coeff,
            };
            r.push(v);
            proof {
                assert(rowflat[k as int] == spec_entry_value(kind, j as int, row@[k as int], nv as int));
                assert(r@ =~= pre + rowflat.subrange(0, k as int + 1));
            }
            k = k + 1;
        }
        proof {
            assert(rowflat.subrange(0, rowflat.len() as int) =~= rowflat);
            let next = m@.subrange(0, j as int + 1);
            assert(next.drop_last() =~= m@.subrange(0, j as int));
            assert(next.last()@ == m@[j as int]@);
        }
        j = j + 1;
    }
    assert(m@.subrange(0, m@.len() as int) =~= m@);
    r
}

/// Total count of entries of a matrix.
pub open spec fn spec_entry_count(m: Seq<Vec<MatEntry>>) -> int
    decreases m.len(),
{
    if m.len() == 0 {
        0
    } else {
        spec_entry_count(m.drop_last()) + m.last()@.len()
    }
}

/// A matrix whose rows are short has few entries.
pub proof fn lemma_entry_count_bound(m: Seq<Vec<MatEntry>>, nv: int)
    requires
        forall|i: int| 0 <= i < m.len() ==> (#[trigger] m[i])@.len() <= nv,
        nv >= 0,
    ensures
        0 <= spec_entry_count(m) <= m.len() * nv,
    decreases m.len(),
{
    if m.len() > 0 {
        lemma_entry_count_bound(m.drop_last(), nv);
        assert((m.len() - 1) * nv + nv == m.len() * nv) by (nonlinear_arith);
    }
}

/// Counts the entries of a matrix.
fn entry_count(m: &Vec<Vec<MatEntry>>, nv: usize) -> (r: usize)
    requires
        forall|i: int| 0 <= i < m@.len() ==> (#[trigger] m@[i])@.len() <= nv,
        m@.len() <= MAX_DOMAIN_INPUT,
        nv <= MAX_DOMAIN_INPUT,
    ensures
        r as int == spec_entry_count(m@),
{
    let mut acc: usize = 0;
    let mut i: usize = 0;
    assert(m@.subrange(0, 0) =~= Seq::<Vec<MatEntry>>::empty());
    while i < m.len()
        invariant
            i <= m@.len(),
            forall|j: int| 0 <= j < m@.len() ==> (#[trigger] m@[j])@.len() <= nv,
            m@.len() <= MAX_DOMAIN_INPUT,
            nv <= MAX_DOMAIN_INPUT,
            acc as int == spec_entry_count(m@.subrange(0, i as int)),
            acc as int <= (i as int) * (nv as int),
        decreases m@.len() - i,
    {
        proof {
            let next = m@.subrange(0, i as int + 1);
            assert(next.drop_last() =~= m@.subrange(0, i as int));
            assert((i as int) * (nv as int) + nv as int == (i as int + 1) * (nv as int))
                by (nonlinear_arith);
            assert((i as int + 1) * (nv as int) <= 0x8000 * 0x8000) by (nonlinear_arith)
                requires
                    0 <= i as int + 1 <= 0x8000,
                    0 <= nv as int <= 0x8000,
            ;
            assert(m@[i as int]@.len() <= nv as int);
        }
        acc = acc + m[i].len();
        i = i + 1;
    }
    assert(m@.subrange(0, m@.len() as int) =~= m@);
    acc
}

/// Every row of the matrix fits within the variable count.
pub open spec fn spec_rows_short(m: Seq<Vec<MatEntry>>, nv: int) -> bool {
    forall|i: int| 0 <= i < m.len() ==> (#[trigger] m[i])@.len() <= nv
}

/// Decides whether every row of the matrix fits within the variable count.
fn check_rows_short(m: &Vec<Vec<MatEntry>>, nv: usize) -> (r: bool)
    ensures
        r == spec_rows_short(m@, nv as int),
{
    let mut i: usize = 0;
    while i < m.len()
        invariant
            i <= m@.len(),
            forall|j: int| 0 <= j < i as int ==> (#[trigger] m@[j])@.len() <= nv as int,
        decreases m@.len() - i,
    {
        if m[i].len() > nv {
            return false;
        }
        i = i + 1;
    }
    true
}

/// A circuit the indexer accepts: well-formed matrices whose rows name each
/// variable at most once.
pub open spec fn spec_indexable(c: Circuit) -> bool {
    &&& c.wf()
    &&& spec_rows_short(c.a@, c.num_variables as int)
    &&& spec_rows_short(c.b@, c.num_variables as int)
    &&& spec_rows_short(c.c@, c.num_variables as int)
}

/// The metadata of an indexable circuit.
pub open spec fn spec_circuit_info(c: Circuit) -> CircuitInfo {
    CircuitInfo {
        num_public_inputs: (c.num_public + 1) as usize,
        num_variables: c.num_variables,
        num_constraints: c.a@.len() as usize,
        num_non_zero: spec_max3(
            spec_entry_count(c.a@),
            spec_entry_count(c.b@),
            spec_entry_count(c.c@),
        ) as usize,
    }
}

/// The largest of three counts.
pub open spec fn spec_max3(a: int, b: int, c: int) -> int {
    if a >= b && a >= c {
        a
    } else if b >= c {
        b
    } else {
        c
    }
}

/// The twelve index polynomials of a circuit, in canonical label order:
/// the column, row, row-column and value flattenings of the three matrices.
#[verifier::opaque]
pub open spec fn spec_index_polys(c: Circuit) -> Seq<Seq<u64>> {
    let nv = c.num_variables as int;
    seq![
        spec_flatten(FlattenKind::Col, c.a@, nv),
        spec_flatten(FlattenKind::Col, c.b@, nv),
        spec_flatten(FlattenKind::Col, c.c@, nv),
        spec_flatten(FlattenKind::Row, c.a@, nv),
        spec_flatten(FlattenKind::Row, c.b@, nv),
        spec_flatten(FlattenKind::Row, c.c@, nv),
        spec_flatten(FlattenKind::RowCol, c.a@, nv),
        spec_flatten(FlattenKind::RowCol, c.b@, nv),
        spec_flatten(FlattenKind::RowCol, c.c@, nv),
        spec_flatten(FlattenKind::Val, c.a@, nv),
        spec_flatten(FlattenKind::Val, c.b@, nv),
        spec_flatten(FlattenKind::Val, c.c@, nv),
    ]
}

/// The sponge state after absorbing a list of coefficient vectors as native
/// field elements, one vector at a time.
pub open spec fn spec_absorb_coeff_seqs(state: u64, polys: Seq<Seq<u64>>) -> u64
    decreases polys.len(),
{
    if polys.len() == 0 {
        state
    } else {
        spec_absorb_tagged(spec_absorb_coeff_seqs(state, polys.drop_last()), TAG_NATIVE, polys.last())
    }
}

/// The content hash of an indexable circuit: a transcript over its counts and
/// its index polynomials.
#[verifier::opaque]
pub open spec fn spec_circuit_hash(c: Circuit) -> u64 {
    let counts = seq![
        c.num_public as u64,
        c.num_variables as u64,
        c.a@.len() as u64,
    ];
    let s0 = spec_fe_reduce(CIRCUIT_HASH_SEED);
    let s1 = spec_absorb_tagged(s0, TAG_NONNATIVE, counts);
    let s2 = spec_absorb_coeff_seqs(s1, spec_index_polys(c));
    spec_squeeze_state(s2, 1)
}

/// The degree the universal parameters must support for a circuit: the domain
/// fitted to the larger of its constraint and variable counts.
pub open spec fn spec_max_degree(c: Circuit) -> nat {
    spec_domain_size(spec_max2(c.a@.len() as nat, c.num_variables as nat))
}

/// The larger of two counts.
pub open spec fn spec_max2(a: nat, b: nat) -> nat {
    if a >= b {
        a
    } else {
        b
    }
}

/// A circuit's canonical index: its polynomials, metadata, degree requirement
/// and identity hash.
#[derive(Clone, Debug)]
pub struct IndexedCircuit {
    /// The circuit itself, retained for proving and certificate checking.
    pub circuit: Circuit,
    /// The circuit's metadata.
    pub info: CircuitInfo,
    /// The index polynomials' coefficients, in canonical label order.
    pub index_polys: Vec<Vec<u64>>,
    /// The degree the universal parameters must support.
    pub max_degree: usize,
    /// The circuit's identity.
    pub hash: u64,
}

impl IndexedCircuit {
    /// The index is the canonical one of its circuit.
    pub open spec fn wf(self) -> bool {
        &&& spec_indexable(self.circuit)
        &&& self.info == spec_circuit_info(self.circuit)
        &&& self.index_polys@.map_values(|p: Vec<u64>| p@) == spec_index_polys(self.circuit)
        &&& self.index_polys@.len() == NUM_INDEX_POLYS
        &&& self.max_degree as nat == spec_max_degree(self.circuit)
        &&& self.hash == spec_circuit_hash(self.circuit)
    }
}

/// Indexes a circuit.
///
/// Fails exactly on circuits the indexer does not accept; on success the
/// result is the circuit's canonical index.
pub fn index(circuit: Circuit) -> (r: Result<IndexedCircuit, SnarkError>)
    ensures
        spec_indexable(circuit) ==> (r matches Ok(ic) && ic.wf() && ic.circuit == circuit),
        !spec_indexable(circuit) ==> r == Result::<IndexedCircuit, SnarkError>::Err(
            SnarkError::InvalidCircuit,
        ),
{
    if !(circuit.check_wf() && check_rows_short(&circuit.a, circuit.num_variables)
        && check_rows_short(&circuit.b, circuit.num_variables) && check_rows_short(
        &circuit.c,
        circuit.num_variables,
    )) {
        return Err(SnarkError::InvalidCircuit);
    }
    proof {
        reveal(spec_index_polys);
        reveal(spec_circuit_hash);
    }
    let nv = circuit.num_variables;
    let mut polys: Vec<Vec<u64>> = Vec::new();
    polys.push(flatten(FlattenKind::Col, &circuit.a, nv));
    polys.push(flatten(FlattenKind::Col, &circuit.b, nv));
    polys.push(flatten(FlattenKind::Col, &circuit.c, nv));
    polys.push(flatten(FlattenKind::Row, &circuit.a, nv));
    polys.push(flatten(FlattenKind::Row, &circuit.b, nv));
    polys.push(flatten(FlattenKind::Row, &circuit.c, nv));
    polys.push(flatten(FlattenKind::RowCol, &circuit.a, nv));
    polys.push(flatten(FlattenKind::RowCol, &circuit.b, nv));
    polys.push(flatten(FlattenKind::RowCol, &circuit.c, nv));
    polys.push(flatten(FlattenKind::Val, &circuit.a, nv));
    polys.push(flatten(FlattenKind::Val, &circuit.b, nv));
    polys.push(flatten(FlattenKind::Val, &circuit.c, nv));
    assert(polys@.map_values(|p: Vec<u64>| p@) =~= spec_index_polys(circuit));

    let ea = entry_count(&circuit.a, nv);
    let eb = entry_count(&circuit.b, nv);
    let ec = entry_count(&circuit.c, nv);
    let non_zero = if ea >= eb && ea >= ec {
        ea
    } else if eb >= ec {
        eb
    } else {
        ec
    };
    let info = CircuitInfo {
        num_public_inputs: circuit.num_public + 1,
        num_variables: circuit.num_variables,
        num_constraints: circuit.a.len(),
        num_non_zero: non_zero,
    };

    let nc = circuit.a.len();
    let larger = if nc >= nv {
        nc
    } else {
        nv
    };
    let max_degree = domain_size(larger);

    let mut sponge = Sponge::new(CIRCUIT_HASH_SEED);
    let mut counts: Vec<u64> = Vec::new();
    counts.push(circuit.num_public as u64);
    counts.push(circuit.num_variables as u64);
    counts.push(nc as u64);
    assert(counts@ =~= seq![
        circuit.num_public as u64,
        circuit.num_variables as u64,
        circuit.a@.len() as u64,
    ]);
    sponge.absorb_nonnative_field_elements(&counts);
    let ghost mut absorbed: Seq<Seq<u64>> = Seq::<Seq<u64>>::empty();
    let ghost base = sponge.state;
    let mut i: usize = 0;
    while i < polys.len()
        invariant
            i <= polys@.len(),
            sponge.wf(),
            absorbed =~= polys@.map_values(|p: Vec<u64>| p@).subrange(0, i as int),
            sponge.state == spec_absorb_coeff_seqs(base, absorbed),
            base == spec_absorb_coeff_seqs(base, Seq::<Seq<u64>>::empty()),
        decreases polys@.len() - i,
    {
        proof {
            let all = polys@.map_values(|p: Vec<u64>| p@);
            let next = all.subrange(0, i as int + 1);
            assert(next.drop_last() =~= all.subrange(0, i as int));
            assert(next.last() == polys@[i as int]@);
        }
        sponge.absorb_native_field_elements(&polys[i]);
        proof {
            absorbed = polys@.map_values(|p: Vec<u64>| p@).subrange(0, i as int + 1);
        }
        i = i + 1;
    }
    proof {
        let all = polys@.map_values(|p: Vec<u64>| p@);
        assert(all.subrange(0, all.len() as int) =~= all);
    }
    let digest = sponge.squeeze_nonnative_field_elements(1);
    let hash = digest[0];

    Ok(
        IndexedCircuit {
            circuit,
            info,
            index_polys: polys,
            max_degree,
            hash,
        },
    )
}

/// Evaluates a circuit's index polynomials at a point, from the circuit
/// itself rather than from any commitment.
pub fn evaluate_index_polynomials(circuit: Circuit, point: u64) -> (r: Result<
    Vec<u64>,
    SnarkError,
>)
    requires
        fe_valid(point),
    ensures
        spec_indexable(circuit) ==> (r matches Ok(evals) && evals@.len() == NUM_INDEX_POLYS
            && (forall|i: int|
            0 <= i < NUM_INDEX_POLYS as int ==> evals@[i] == spec_poly_eval(
                spec_index_polys(circuit)[i],
                point,
            )) && seq_fe_valid(evals@)),
        !spec_indexable(circuit) ==> r == Result::<Vec<u64>, SnarkError>::Err(
            SnarkError::InvalidCircuit,
        ),
{
    let ghost gc = circuit;
    let indexed = match index(circuit) {
        Ok(ic) => ic,
        Err(e) => {
            return Err(e);
        },
    };
    let mut evals: Vec<u64> = Vec::new();
    let mut i: usize = 0;
    while i < indexed.index_polys.len()
        invariant
            i <= indexed.index_polys@.len(),
            indexed.wf(),
            indexed.circuit == gc,
            fe_valid(point),
            evals@.len() == i as int,
            forall|j: int|
                0 <= j < i as int ==> evals@[j] == spec_poly_eval(
                    spec_index_polys(gc)[j],
                    point,
                ),
            seq_fe_valid(evals@),
        decreases indexed.index_polys@.len() - i,
    {
        proof {
            assert(indexed.index_polys@.map_values(|p: Vec<u64>| p@)[i as int]
                == indexed.index_polys@[i as int]@);
            crate::poly::lemma_poly_eval_valid(indexed.index_polys@[i as int]@, point);
        }
        assert(seq_fe_valid(indexed.index_polys@[i as int]@)) by {
            lemma_index_polys_valid(gc, i as int);
        }
        evals.push(poly_eval(&indexed.index_polys[i], point));
        i = i + 1;
    }
    Ok(evals)
}

/// Every coefficient of every index polynomial is a reduced residue.
pub proof fn lemma_index_polys_valid(c: Circuit, i: int)
    requires
        spec_indexable(c),
        0 <= i < NUM_INDEX_POLYS as int,
    ensures
        seq_fe_valid(spec_index_polys(c)[i]),
{
    reveal(spec_index_polys);
    let nv = c.num_variables as int;
    lemma_flatten_valid(FlattenKind::Col, c.a@, nv);
    lemma_flatten_valid(FlattenKind::Col, c.b@, nv);
    lemma_flatten_valid(FlattenKind::Col, c.c@, nv);
    lemma_flatten_valid(FlattenKind::Row, c.a@, nv);
    lemma_flatten_valid(FlattenKind::Row, c.b@, nv);
    lemma_flatten_valid(FlattenKind::Row, c.c@, nv);
    lemma_flatten_valid(FlattenKind::RowCol, c.a@, nv);
    lemma_flatten_valid(FlattenKind::RowCol, c.b@, nv);
    lemma_flatten_valid(FlattenKind::RowCol, c.c@, nv);
    lemma_flatten_valid(FlattenKind::Val, c.a@, nv);
    lemma_flatten_valid(FlattenKind::Val, c.b@, nv);
    lemma_flatten_valid(FlattenKind::Val, c.c@, nv);
}

/// A flattening of a well-formed matrix holds reduced residues.
pub proof fn lemma_flatten_valid(kind: FlattenKind, m: Seq<Vec<MatEntry>>, nv: int)
    requires
        spec_matrix_wf(m, nv),
    ensures
        seq_fe_valid(spec_flatten(kind, m, nv)),
    decreases m.len(),
{
    if m.len() > 0 {
        lemma_flatten_valid(kind, m.drop_last(), nv);
        let pre = spec_flatten(kind, m.drop_last(), nv);
        let rowflat = spec_row_flat(kind, m.len() - 1, m.last()@, nv);
        assert forall|i: int| 0 <= i < rowflat.len() implies fe_valid(#[trigger] rowflat[i]) by {
            assert(m.last()@[i] == m[m.len() - 1]@[i]);
        }
        assert forall|i: int|
            0 <= i < spec_flatten(kind, m, nv).len() implies fe_valid(
            #[trigger] spec_flatten(kind, m, nv)[i],
        ) by {
            if i < pre.len() {
                assert(spec_flatten(kind, m, nv)[i] == pre[i]);
            } else {
                assert(spec_flatten(kind, m, nv)[i] == rowflat[i - pre.len()]);
            }
        }
    }
}

} // verus!
