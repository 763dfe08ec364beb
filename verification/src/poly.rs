//! Dense univariate polynomials over the proof system's field.
//!
//! A polynomial is a coefficient vector, lowest degree first; every
//! coefficient is a reduced residue.

use vstd::prelude::*;

use crate::field::{
    fe_add, fe_mul, fe_sub, fe_valid, seq_fe_valid, spec_fe_add, spec_fe_mul, spec_fe_sub,
};

verus! {

/// The coefficient at position `i`, taking absent positions as zero.
pub open spec fn coeff_or_zero(s: Seq<u64>, i: int) -> u64 {
    if 0 <= i < s.len() {
        s[i]
    } else {
        0u64
    }
}

/// Horner evaluation of a coefficient sequence at `x`.
pub open spec fn spec_poly_eval(s: Seq<u64>, x: u64) -> u64
    decreases s.len(),
{
    if s.len() == 0 {
        0u64
    } else {
        spec_fe_add(s[0], spec_fe_mul(x, spec_poly_eval(s.subrange(1, s.len() as int), x)))
    }
}

/// An evaluation is always a reduced residue, whatever the coefficients hold.
pub proof fn lemma_poly_eval_valid(s: Seq<u64>, x: u64)
    ensures
        fe_valid(spec_poly_eval(s, x)),
    decreases s.len(),
{
    if s.len() > 0 {
        lemma_poly_eval_valid(s.subrange(1, s.len() as int), x);
    }
}

/// The zero polynomial evaluates to zero everywhere.
pub proof fn lemma_zero_poly_eval(s: Seq<u64>, x: u64)
    requires
        forall|i: int| 0 <= i < s.len() ==> s[i] == 0u64,
    ensures
        spec_poly_eval(s, x) == 0u64,
    decreases s.len(),
{
    if s.len() > 0 {
        lemma_zero_poly_eval(s.subrange(1, s.len() as int), x);
    }
}

/// Evaluates the polynomial `coeffs` at the point `x`.
pub fn poly_eval(coeffs: &Vec<u64>, x: u64) -> (r: u64)
    requires
        seq_fe_valid(coeffs@),
        fe_valid(x),
    ensures
        r == spec_poly_eval(coeffs@, x),
        fe_valid(r),
{
    let ghost len = coeffs@.len() as int;
    let mut acc: u64 = 0;
    let mut i: usize = coeffs.len();
    assert(coeffs@.subrange(len, len) =~= Seq::<u64>::empty());
    while i > 0
        invariant
            i <= coeffs@.len(),
            len == coeffs@.len() as int,
            seq_fe_valid(coeffs@),
            fe_valid(x),
            fe_valid(acc),
            acc == spec_poly_eval(coeffs@.subrange(i as int, len), x),
        decreases i,
    {
        i = i - 1;
        acc = fe_add(coeffs[i], fe_mul(x, acc));
        proof {
            let tail = coeffs@.subrange(i as int, len);
            assert(tail.subrange(1, tail.len() as int) =~= coeffs@.subrange(i as int + 1, len));
        }
    }
    assert(coeffs@.subrange(0, len) =~= coeffs@);
    acc
}

/// Pointwise sum of two coefficient vectors, padded with zeros to the longer.
pub fn poly_add(a: &Vec<u64>, b: &Vec<u64>) -> (r: Vec<u64>)
    requires
        seq_fe_valid(a@),
        seq_fe_valid(b@),
    ensures
        r@.len() == if a@.len() >= b@.len() {
            a@.len()
        } else {
            b@.len()
        },
        forall|i: int|
            0 <= i < r@.len() ==> r@[i] == spec_fe_add(
                coeff_or_zero(a@, i),
                coeff_or_zero(b@, i),
            ),
        seq_fe_valid(r@),
{
    let n = if a.len() >= b.len() {
        a.len()
    } else {
        b.len()
    };
    let mut r: Vec<u64> = Vec::new();
    let mut i: usize = 0;
    while i < n
        invariant
            i <= n,
            n == if a@.len() >= b@.len() {
                a@.len()
            } else {
                b@.len()
            },
            seq_fe_valid(a@),
            seq_fe_valid(b@),
            r@.len() == i as int,
            forall|j: int|
                0 <= j < i as int ==> r@[j] == spec_fe_add(
                    coeff_or_zero(a@, j),
                    coeff_or_zero(b@, j),
                ),
            seq_fe_valid(r@),
        decreases n - i,
    {
        let av = if i < a.len() {
            a[i]
        } else {
            0u64
        };
        let bv = if i < b.len() {
            b[i]
        } else {
            0u64
        };
        r.push(fe_add(av, bv));
        i = i + 1;
    }
    r
}

/// Pointwise `a[i] * b[i] - c[i]` over three coefficient vectors of one length.
pub fn poly_mul_sub(a: &Vec<u64>, b: &Vec<u64>, c: &Vec<u64>) -> (r: Vec<u64>)
    requires
        a@.len() == b@.len(),
        a@.len() == c@.len(),
        seq_fe_valid(a@),
        seq_fe_valid(b@),
        seq_fe_valid(c@),
    ensures
        r@.len() == a@.len(),
        forall|i: int|
            0 <= i < r@.len() ==> r@[i] == spec_fe_sub(spec_fe_mul(a@[i], b@[i]), c@[i]),
        seq_fe_valid(r@),
{
    let n = a.len();
    let mut r: Vec<u64> = Vec::new();
    let mut i: usize = 0;
    while i < n
        invariant
            i <= n,
            n == a@.len(),
            a@.len() == b@.len(),
            a@.len() == c@.len(),
            seq_fe_valid(a@),
            seq_fe_valid(b@),
            seq_fe_valid(c@),
            r@.len() == i as int,
            forall|j: int|
                0 <= j < i as int ==> r@[j] == spec_fe_sub(spec_fe_mul(a@[j], b@[j]), c@[j]),
            seq_fe_valid(r@),
        decreases n - i,
    {
        r.push(fe_sub(fe_mul(a[i], b[i]), c[i]));
        i = i + 1;
    }
    r
}

/// Pointwise scaling of a coefficient vector by `k`.
pub fn poly_scale(k: u64, a: &Vec<u64>) -> (r: Vec<u64>)
    requires
        fe_valid(k),
        seq_fe_valid(a@),
    ensures
        r@.len() == a@.len(),
        forall|i: int| 0 <= i < r@.len() ==> r@[i] == spec_fe_mul(k, a@[i]),
        seq_fe_valid(r@),
{
    let n = a.len();
    let mut r: Vec<u64> = Vec::new();
    let mut i: usize = 0;
    while i < n
        invariant
            i <= n,
            n == a@.len(),
            fe_valid(k),
            seq_fe_valid(a@),
            r@.len() == i as int,
            forall|j: int| 0 <= j < i as int ==> r@[j] == spec_fe_mul(k, a@[j]),
            seq_fe_valid(r@),
        decreases n - i,
    {
        r.push(fe_mul(k, a[i]));
        i = i + 1;
    }
    r
}

/// Copies a coefficient vector.
pub fn clone_u64_vec(v: &Vec<u64>) -> (r: Vec<u64>)
    ensures
        r@ == v@,
{
    let mut r: Vec<u64> = Vec::new();
    let mut i: usize = 0;
    while i < v.len()
        invariant
            i <= v@.len(),
            r@ == v@.subrange(0, i as int),
        decreases v@.len() - i,
    {
        r.push(v[i]);
        proof {
            assert(r@ =~= v@.subrange(0, i as int + 1));
        }
        i = i + 1;
    }
    assert(v@.subrange(0, v@.len() as int) =~= v@);
    r
}

/// The reduced sum of all coefficients.
pub open spec fn spec_coeff_sum(s: Seq<u64>) -> u64
    decreases s.len(),
{
    if s.len() == 0 {
        0u64
    } else {
        spec_fe_add(spec_coeff_sum(s.drop_last()), s.last())
    }
}

/// Sums the coefficients of a polynomial in the field.
pub fn coeff_sum(a: &Vec<u64>) -> (r: u64)
    requires
        seq_fe_valid(a@),
    ensures
        r == spec_coeff_sum(a@),
        fe_valid(r),
{
    let mut acc: u64 = 0;
    let mut i: usize = 0;
    assert(a@.subrange(0, 0) =~= Seq::<u64>::empty());
    while i < a.len()
        invariant
            i <= a@.len(),
            seq_fe_valid(a@),
            fe_valid(acc),
            acc == spec_coeff_sum(a@.subrange(0, i as int)),
        decreases a@.len() - i,
    {
        proof {
            let pre = a@.subrange(0, i as int + 1);
            assert(pre.drop_last() =~= a@.subrange(0, i as int));
        }
        acc = fe_add(acc, a[i]);
        i = i + 1;
    }
    assert(a@.subrange(0, a@.len() as int) =~= a@);
    acc
}

} // verus!
