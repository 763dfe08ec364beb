//! Arithmetic in the prime field used by the proof system.
//!
//! Field elements are residues modulo the Mersenne prime `2^31 - 1`, held in
//! `u64` values that are always strictly below the modulus.

use vstd::prelude::*;

verus! {

/// The field modulus: the Mersenne prime `2^31 - 1`.
pub const FIELD_MODULUS: u64 = 0x7fff_ffff;

/// A `u64` holds a field element exactly when it is a reduced residue.
pub open spec fn fe_valid(x: u64) -> bool {
    x < FIELD_MODULUS
}

/// Every element of a sequence is a reduced residue.
pub open spec fn seq_fe_valid(s: Seq<u64>) -> bool {
    forall|i: int| 0 <= i < s.len() ==> fe_valid(#[trigger] s[i])
}

/// The sum of two residues, reduced.
pub open spec fn spec_fe_add(a: u64, b: u64) -> u64 {
    (((a + b) as int % (FIELD_MODULUS as int))) as u64
}

/// The difference of two residues, reduced (Euclidean remainder, so never negative).
pub open spec fn spec_fe_sub(a: u64, b: u64) -> u64 {
    (((a - b) as int % (FIELD_MODULUS as int))) as u64
}

/// The product of two residues, reduced.
pub open spec fn spec_fe_mul(a: u64, b: u64) -> u64 {
    (((a * b) as int % (FIELD_MODULUS as int))) as u64
}

/// Any `u64` reduced into the field.
pub open spec fn spec_fe_reduce(x: u64) -> u64 {
    (((x as int) % (FIELD_MODULUS as int))) as u64
}

/// Field addition.
pub fn fe_add(a: u64, b: u64) -> (r: u64)
    requires
        fe_valid(a),
        fe_valid(b),
    ensures
        r == spec_fe_add(a, b),
        fe_valid(r),
{
    let s = a + b;
    if s >= FIELD_MODULUS {
        assert((a + b) % (FIELD_MODULUS as int) == a + b - FIELD_MODULUS);
        s - FIELD_MODULUS
    } else {
        assert((a + b) % (FIELD_MODULUS as int) == a + b);
        s
    }
}

/// Field subtraction.
pub fn fe_sub(a: u64, b: u64) -> (r: u64)
    requires
        fe_valid(a),
        fe_valid(b),
    ensures
        r == spec_fe_sub(a, b),
        fe_valid(r),
{
    if a >= b {
        assert((a - b) % (FIELD_MODULUS as int) == a - b);
        a - b
    } else {
        assert((a - b) % (FIELD_MODULUS as int) == a - b + FIELD_MODULUS);
        a + FIELD_MODULUS - b
    }
}

/// Field multiplication.
pub fn fe_mul(a: u64, b: u64) -> (r: u64)
    requires
        fe_valid(a),
        fe_valid(b),
    ensures
        r == spec_fe_mul(a, b),
        fe_valid(r),
{
    assert(a * b <= 0x7fff_fffe * 0x7fff_fffe) by (nonlinear_arith)
        requires
            a <= 0x7fff_fffe,
            b <= 0x7fff_fffe,
    ;
    let p = a * b;
    p % FIELD_MODULUS
}

/// Reduction of an arbitrary machine word into the field.
pub fn fe_reduce(x: u64) -> (r: u64)
    ensures
        r == spec_fe_reduce(x),
        fe_valid(r),
{
    x % FIELD_MODULUS
}

} // verus!
