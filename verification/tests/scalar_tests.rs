use std::collections::HashSet;

use marlin_core::field::FIELD_MODULUS;
use marlin_core::scalar::Scalar;
use rand::rngs::StdRng;
use rand::SeedableRng;

const ITERATIONS: u64 = 100;

#[test]
fn test_random() {
    // Initialize a set to store all seen random elements.
    let mut set = HashSet::with_capacity(ITERATIONS as usize);

    let mut rng = StdRng::seed_from_u64(0);

    // Note: This test technically has a `(1 + 2 + ... + ITERATIONS) / MODULUS` probability of being flaky.
    for _ in 0..ITERATIONS {
        // Sample a random value.
        let scalar = Scalar::sample(&mut rng);
        assert!(!set.contains(&scalar));

        // Add the new random value to the set.
        set.insert(scalar);
    }
}

#[test]
fn test_sample_is_reduced() {
    let mut rng = StdRng::seed_from_u64(7);
    for _ in 0..1000 {
        assert!(Scalar::sample(&mut rng).value < FIELD_MODULUS);
    }
}

#[test]
fn test_new_keeps_value() {
    assert_eq!(Scalar::new(123).value, 123);
}
