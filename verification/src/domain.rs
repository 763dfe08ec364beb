//! Evaluation domain sizes and public-input padding.
//!
//! An evaluation domain sized to `n` holds the smallest power of two at least
//! `n`. A public input vector is padded for the transcript and the linear
//! combinations: a leading one, the input itself, then zeros up to the domain
//! size of the circuit's public input count.

use vstd::prelude::*;

use crate::field::{fe_valid, seq_fe_valid};

verus! {

/// Largest count a domain may be requested for: with counts at most `2^15`,
/// every positional product the indexer forms (a row index times the variable
/// count, plus a column index) stays below `2^31`, so the arithmetic fits a
/// machine word even where `usize` is 32 bits wide.
pub const MAX_DOMAIN_INPUT: usize = 0x8000;

/// The smallest power of two at least `n` (and at least one).
pub open spec fn spec_domain_size(n: nat) -> nat
    decreases n,
{
    if n <= 1 {
        1
    } else {
        2 * spec_domain_size(((n + 1) / 2) as nat)
    }
}

/// A domain is at least as large as the count it was sized to.
pub proof fn lemma_domain_size_ge(n: nat)
    ensures
        spec_domain_size(n) >= n,
        spec_domain_size(n) >= 1,
    decreases n,
{
    if n > 1 {
        lemma_domain_size_ge(((n + 1) / 2) as nat);
    }
}

/// A domain is at most twice the count it was sized to.
pub proof fn lemma_domain_size_le(n: nat)
    ensures
        n <= 1 ==> spec_domain_size(n) == 1,
        n == 2 ==> spec_domain_size(n) == 2,
        n >= 1 ==> spec_domain_size(n) <= 2 * n,
        n >= 3 ==> spec_domain_size(n) <= 2 * n - 2,
    decreases n,
{
    if n > 1 {
        let c = ((n + 1) / 2) as nat;
        lemma_domain_size_le(c);
        assert(spec_domain_size(n) == 2 * spec_domain_size(c));
        if n == 2 {
            assert(c == 1);
        } else if n == 3 {
            assert(c == 2);
            assert(spec_domain_size(c) == 2);
        } else if n == 4 {
            assert(c == 2);
        } else if n >= 5 {
            assert(c >= 3);
            assert(spec_domain_size(c) <= 2 * c - 2);
            assert(2 * c <= n + 1);
        }
    }
}

/// Computes the evaluation domain size for a count of `n` points.
pub fn domain_size(n: usize) -> (r: usize)
    requires
        n <= MAX_DOMAIN_INPUT,
    ensures
        r as nat == spec_domain_size(n as nat),
        r >= 1,
        r >= n,
    decreases n,
{
    proof {
        lemma_domain_size_ge(n as nat);
        lemma_domain_size_le(n as nat);
    }
    if n <= 1 {
        1
    } else {
        let half = (n + 1) / 2;
        let inner = domain_size(half);
        proof {
            lemma_domain_size_le(half as nat);
        }
        2 * inner
    }
}

/// The length the padded form of an input of length `k` must have, for a
/// circuit whose public input count is `n`: the larger of `k + 1` and the
/// domain size of `n`.
pub open spec fn spec_padded_len(k: nat, n: nat) -> nat {
    if k + 1 >= spec_domain_size(n) {
        (k + 1) as nat
    } else {
        spec_domain_size(n)
    }
}

/// The padded form of a public input: a leading one, the input itself, then
/// zeros up to the evaluation domain sized to `n`.
pub open spec fn spec_pad_input(x: Seq<u64>, n: nat) -> Seq<u64> {
    Seq::new(
        spec_padded_len(x.len(), n),
        |i: int|
            if i == 0 {
                1u64
            } else if i <= x.len() {
                x[i - 1]
            } else {
                0u64
            },
    )
}

/// Pads a public input vector: a leading one, the input itself, then zeros up
/// to the evaluation domain sized to `num_public_inputs`.
pub fn pad_public_input(input: &Vec<u64>, num_public_inputs: usize) -> (r: Vec<u64>)
    requires
        seq_fe_valid(input@),
        num_public_inputs <= MAX_DOMAIN_INPUT,
        input@.len() < MAX_DOMAIN_INPUT,
    ensures
        r@ == spec_pad_input(input@, num_public_inputs as nat),
        r@.len() == spec_padded_len(input@.len(), num_public_inputs as nat),
        r@[0] == 1u64,
        forall|i: int| 1 <= i < input@.len() + 1 ==> r@[i] == input@[i - 1],
        forall|i: int| input@.len() + 1 <= i < r@.len() ==> r@[i] == 0u64,
        seq_fe_valid(r@),
{
    let domain = domain_size(num_public_inputs);
    let k = input.len();
    let target = if k + 1 >= domain {
        k + 1
    } else {
        domain
    };
    let mut r: Vec<u64> = Vec::new();
    r.push(1);
    let mut i: usize = 0;
    while i < k
        invariant
            i <= k,
            k == input@.len(),
            seq_fe_valid(input@),
            r@.len() == i + 1,
            r@[0] == 1u64,
            forall|j: int| 1 <= j < i + 1 ==> r@[j] == input@[j - 1],
            seq_fe_valid(r@),
        decreases k - i,
    {
        r.push(input[i]);
        i = i + 1;
    }
    while r.len() < target
        invariant
            k == input@.len(),
            k + 1 <= r@.len() <= target,
            target == spec_padded_len(input@.len(), num_public_inputs as nat),
            r@[0] == 1u64,
            forall|j: int| 1 <= j < k + 1 ==> r@[j] == input@[j - 1],
            forall|j: int| k + 1 <= j < r@.len() ==> r@[j] == 0u64,
            seq_fe_valid(r@),
        decreases target - r@.len(),
    {
        r.push(0);
    }
    assert(r@ =~= spec_pad_input(input@, num_public_inputs as nat));
    r
}

} // verus!
