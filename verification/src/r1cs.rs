//! Rank-1 constraint systems and their assignments.
//!
//! A circuit is three sparse matrices over the field, one row per constraint.
//! An assignment is a full variable vector whose first entry is the constant
//! one and whose next entries are the public inputs; it satisfies the circuit
//! when, row by row, the product of the `a` and `b` row values equals the `c`
//! row value.

use vstd::prelude::*;

use crate::domain::MAX_DOMAIN_INPUT;
use crate::field::{fe_valid, seq_fe_valid, spec_fe_add, spec_fe_mul};
use crate::poly::coeff_or_zero;

verus! {

/// One entry of a sparse matrix row: a variable index and its coefficient.
#[derive(Clone, Copy, Debug, PartialEq, Eq, Structural)]
pub struct MatEntry {
    /// The variable the entry multiplies.
    pub var: usize,
    /// The entry's coefficient, a reduced residue.
    pub coeff: u64,
}

/// A rank-1 constraint system.
#[derive(Clone, Debug)]
pub struct Circuit {
    /// Count of public input values, the constant one not included.
    pub num_public: usize,
    /// Full assignment length; index zero holds the constant one.
    pub num_variables: usize,
    /// Rows of the `a` matrix.
    pub a: Vec<Vec<MatEntry>>,
    /// Rows of the `b` matrix.
    pub b: Vec<Vec<MatEntry>>,
    /// Rows of the `c` matrix.
    pub c: Vec<Vec<MatEntry>>,
}

/// Every entry of a row names a variable below `n` and holds a residue.
pub open spec fn spec_row_wf(row: Seq<MatEntry>, n: int) -> bool {
    forall|i: int|
        0 <= i < row.len() ==> (#[trigger] row[i]).var < n && fe_valid(row[i].coeff)
}

/// Every row of a matrix is well-formed.
pub open spec fn spec_matrix_wf(m: Seq<Vec<MatEntry>>, n: int) -> bool {
    forall|i: int| 0 <= i < m.len() ==> spec_row_wf((#[trigger] m[i])@, n)
}

impl Circuit {
    /// The circuit's constraint count.
    pub open spec fn spec_num_constraints(self) -> int {
        self.a@.len() as int
    }

    /// The three matrices share one row count, every entry is in range, and
    /// the counts respect the machine limits the domains need.
    pub open spec fn wf(self) -> bool {
        &&& self.a@.len() == self.b@.len()
        &&& self.a@.len() == self.c@.len()
        &&& self.a@.len() >= 1
        &&& self.num_public + 1 <= self.num_variables
        &&& self.num_variables <= MAX_DOMAIN_INPUT
        &&& self.a@.len() <= MAX_DOMAIN_INPUT
        &&& spec_matrix_wf(self.a@, self.num_variables as int)
        &&& spec_matrix_wf(self.b@, self.num_variables as int)
        &&& spec_matrix_wf(self.c@, self.num_variables as int)
    }

    /// The circuit's constraint count.
    pub fn num_constraints(&self) -> (r: usize)
        ensures
            r as int == self.spec_num_constraints(),
    {
        self.a.len()
    }

    /// Decides well-formedness.
    pub fn check_wf(&self) -> (r: bool)
        ensures
            r == self.wf(),
    {
        if !(self.a.len() == self.b.len() && self.a.len() == self.c.len() && self.a.len() >= 1) {
            return false;
        }
        if !(self.num_public < self.num_variables && self.num_variables <= MAX_DOMAIN_INPUT
            && self.a.len() <= MAX_DOMAIN_INPUT) {
            return false;
        }
        check_matrix_wf(&self.a, self.num_variables) && check_matrix_wf(&self.b, self.num_variables)
            && check_matrix_wf(&self.c, self.num_variables)
    }
}

/// Decides well-formedness of one matrix.
fn check_matrix_wf(m: &Vec<Vec<MatEntry>>, n: usize) -> (r: bool)
    ensures
        r == spec_matrix_wf(m@, n as int),
{
    let mut i: usize = 0;
    while i < m.len()
        invariant
            i <= m@.len(),
            forall|j: int| 0 <= j < i as int ==> spec_row_wf((#[trigger] m@[j])@, n as int),
        decreases m@.len() - i,
    {
        let row = &m[i];
        let mut k: usize = 0;
        while k < row.len()
            invariant
                k <= row@.len(),
                i < m@.len(),
                row@ == m@[i as int]@,
                forall|t: int|
                    0 <= t < k as int ==> (#[trigger] row@[t]).var < n && fe_valid(row@[t].coeff),
            decreases row@.len() - k,
        {
            if !(row[k].var < n && row[k].coeff < crate::field::FIELD_MODULUS) {
                assert(!spec_row_wf(m@[i as int]@, n as int));
                return false;
            }
            k = k + 1;
        }
        assert(spec_row_wf(m@[i as int]@, n as int));
        i = i + 1;
    }
    true
}

/// The field value of one sparse row under an assignment.
pub open spec fn spec_row_eval(row: Seq<MatEntry>, z: Seq<u64>) -> u64
    decreases row.len(),
{
    if row.len() == 0 {
        0u64
    } else {
        spec_fe_add(
            spec_row_eval(row.drop_last(), z),
            spec_fe_mul(row.last().coeff, coeff_or_zero(z, row.last().var as int)),
        )
    }
}

/// Evaluates one sparse row under an assignment.
pub fn row_eval(row: &Vec<MatEntry>, z: &Vec<u64>) -> (r: u64)
    requires
        spec_row_wf(row@, z@.len() as int),
        seq_fe_valid(z@),
    ensures
        r == spec_row_eval(row@, z@),
        fe_valid(r),
{
    let mut acc: u64 = 0;
    let mut i: usize = 0;
    assert(row@.subrange(0, 0) =~= Seq::<MatEntry>::empty());
    while i < row.len()
        invariant
            i <= row@.len(),
            spec_row_wf(row@, z@.len() as int),
            seq_fe_valid(z@),
            fe_valid(acc),
            acc == spec_row_eval(row@.subrange(0, i as int), z@),
        decreases row@.len() - i,
    {
        proof {
            let pre = row@.subrange(0, i as int + 1);
            assert(pre.drop_last() =~= row@.subrange(0, i as int));
        }
        let e = row[i];
        acc = crate::field::fe_add(acc, crate::field::fe_mul(e.coeff, z[e.var]));
        i = i + 1;
    }
    assert(row@.subrange(0, row@.len() as int) =~= row@);
    acc
}

/// The per-row values of a whole matrix under an assignment.
pub open spec fn spec_matrix_apply(m: Seq<Vec<MatEntry>>, z: Seq<u64>) -> Seq<u64> {
    Seq::new(m.len(), |i: int| spec_row_eval(m[i]@, z))
}

/// Applies a matrix to an assignment, one field value per row.
pub fn matrix_apply(m: &Vec<Vec<MatEntry>>, z: &Vec<u64>) -> (r: Vec<u64>)
    requires
        spec_matrix_wf(m@, z@.len() as int),
        seq_fe_valid(z@),
    ensures
        r@ == spec_matrix_apply(m@, z@),
        r@.len() == m@.len(),
        seq_fe_valid(r@),
{
    let mut r: Vec<u64> = Vec::new();
    let mut i: usize = 0;
    while i < m.len()
        invariant
            i <= m@.len(),
            spec_matrix_wf(m@, z@.len() as int),
            seq_fe_valid(z@),
            r@.len() == i as int,
            forall|j: int| 0 <= j < i as int ==> r@[j] == spec_row_eval(m@[j]@, z@),
            seq_fe_valid(r@),
        decreases m@.len() - i,
    {
        r.push(row_eval(&m[i], z));
        i = i + 1;
    }
    assert(r@ =~= spec_matrix_apply(m@, z@));
    r
}

/// An assignment fits a circuit: full length, leading one, residues throughout.
pub open spec fn spec_instance_ok(c: Circuit, z: Seq<u64>) -> bool {
    &&& z.len() == c.num_variables
    &&& z.len() >= 1
    &&& z[0] == 1u64
    &&& seq_fe_valid(z)
}

/// An assignment satisfies a circuit: row by row, `a` times `b` equals `c`.
pub open spec fn spec_satisfied(c: Circuit, z: Seq<u64>) -> bool {
    forall|j: int|
        0 <= j < c.a@.len() ==> spec_fe_mul(
            spec_row_eval((#[trigger] c.a@[j])@, z),
            spec_row_eval(c.b@[j]@, z),
        ) == spec_row_eval(c.c@[j]@, z)
}

/// Decides whether an assignment fits a circuit.
pub fn check_instance(c: &Circuit, z: &Vec<u64>) -> (r: bool)
    ensures
        r == spec_instance_ok(*c, z@),
{
    if z.len() != c.num_variables || z.len() == 0 {
        return false;
    }
    if z[0] != 1 {
        return false;
    }
    let mut i: usize = 0;
    while i < z.len()
        invariant
            i <= z@.len(),
            forall|j: int| 0 <= j < i as int ==> fe_valid(#[trigger] z@[j]),
        decreases z@.len() - i,
    {
        if z[i] >= crate::field::FIELD_MODULUS {
            return false;
        }
        i = i + 1;
    }
    true
}

} // verus!
