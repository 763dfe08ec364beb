use marlin_core::domain::{domain_size, pad_public_input};
use marlin_core::errors::SnarkError;
use marlin_core::field::{fe_add, fe_mul, fe_sub, FIELD_MODULUS};
use marlin_core::marlin::MarlinSNARK;
use marlin_core::poly::{coeff_sum, poly_eval};
use marlin_core::rounds::u64_le_bytes;
use marlin_core::sponge::Sponge;

#[test]
fn test_error_descriptions() {
    assert_eq!(SnarkError::EmptyBatch.describe(), "the batch is empty");
    assert_eq!(SnarkError::Terminated.describe(), "the operation was terminated");
}

#[test]
fn test_field_arithmetic() {
    assert_eq!(fe_add(FIELD_MODULUS - 1, 1), 0);
    assert_eq!(fe_add(5, 7), 12);
    assert_eq!(fe_sub(3, 5), FIELD_MODULUS - 2);
    assert_eq!(fe_mul(0x10000, 0x10000), (0x1_0000_0000u64) % FIELD_MODULUS);
}

#[test]
fn test_poly_eval_exact() {
    // 3 + 4x + 5x^2 at x = 2 is 31.
    let p = vec![3, 4, 5];
    assert_eq!(poly_eval(&p, 2), 31);
    assert_eq!(poly_eval(&Vec::new(), 2), 0);
    assert_eq!(coeff_sum(&p), 12);
}

#[test]
fn test_domain_size_exact() {
    assert_eq!(domain_size(0), 1);
    assert_eq!(domain_size(1), 1);
    assert_eq!(domain_size(2), 2);
    assert_eq!(domain_size(3), 4);
    assert_eq!(domain_size(100), 128);
    assert_eq!(domain_size(4096), 4096);
}

#[test]
fn test_padding_shape() {
    // An input of length 2 for a circuit with 3 public inputs: the domain is
    // 4, so the padded form is [1, x0, x1, 0].
    let padded = pad_public_input(&vec![10, 20], 3);
    assert_eq!(padded, vec![1, 10, 20, 0]);
    // A long input keeps all entries after the leading one.
    let padded = pad_public_input(&vec![10, 20, 30, 40, 50], 3);
    assert_eq!(padded, vec![1, 10, 20, 30, 40, 50]);
}

#[test]
fn test_le_bytes() {
    assert_eq!(u64_le_bytes(0x0102_0304), vec![4, 3, 2, 1, 0, 0, 0, 0]);
}

#[test]
fn test_sponge_determinism_and_order() {
    let mut s1 = Sponge::new(9);
    let mut s2 = Sponge::new(9);
    s1.absorb_bytes(&MarlinSNARK::protocol_name());
    s2.absorb_bytes(&MarlinSNARK::protocol_name());
    s1.absorb_native_field_elements(&vec![1, 2, 3]);
    s2.absorb_native_field_elements(&vec![1, 2, 3]);
    assert_eq!(
        s1.squeeze_nonnative_field_elements(3),
        s2.squeeze_nonnative_field_elements(3)
    );
    // A permuted absorption order diverges.
    let mut s3 = Sponge::new(9);
    s3.absorb_native_field_elements(&vec![3, 2, 1]);
    s3.absorb_bytes(&MarlinSNARK::protocol_name());
    let mut s4 = Sponge::new(9);
    s4.absorb_bytes(&MarlinSNARK::protocol_name());
    s4.absorb_native_field_elements(&vec![3, 2, 1]);
    assert_ne!(
        s3.squeeze_nonnative_field_elements(1),
        s4.squeeze_nonnative_field_elements(1)
    );
}
