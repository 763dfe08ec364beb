use marlin_core::errors::SnarkError;
use marlin_core::field::FIELD_MODULUS;
use marlin_core::keys::{CircuitProvingKey, CircuitVerifyingKey};
use marlin_core::marlin::{MarlinSNARK, SRS};
use marlin_core::pcs::load_srs;
use marlin_core::r1cs::{Circuit, MatEntry};
use marlin_core::rng::ProofRng;
use marlin_core::terminator::Terminator;

const FS_PARAMETERS: u64 = 20190603;

/// A circuit enforcing `a * b = c` over and over: variables are
/// `[one, c, a, b, padding...]`, the only public input is `c`.
fn mul_circuit(num_constraints: usize, num_variables: usize) -> Circuit {
    let a_row = vec![MatEntry { var: 2, coeff: 1 }];
    let b_row = vec![MatEntry { var: 3, coeff: 1 }];
    let c_row = vec![MatEntry { var: 1, coeff: 1 }];
    Circuit {
        num_public: 1,
        num_variables,
        a: vec![a_row; num_constraints],
        b: vec![b_row; num_constraints],
        c: vec![c_row; num_constraints],
    }
}

fn assignment(circuit: &Circuit, a: u64, b: u64) -> Vec<u64> {
    let c = (a * b) % FIELD_MODULUS;
    let mut z = vec![1, c, a, b];
    z.resize(circuit.num_variables, 0);
    z
}

fn setup(
    num_constraints: usize,
    num_variables: usize,
    zk: bool,
) -> (CircuitProvingKey, CircuitVerifyingKey) {
    let circuit = mul_circuit(num_constraints, num_variables);
    MarlinSNARK::setup(circuit, &SRS::CircuitSpecific, zk).unwrap()
}

#[test]
fn test_prove_and_verify_zk() {
    let (pk, vk) = setup(100, 25, true);
    let circuit = mul_circuit(100, 25);
    let z = assignment(&circuit, 3, 5);
    let c = z[1];
    let mut rng = ProofRng::from_seed(42);
    let proof = MarlinSNARK::prove(FS_PARAMETERS, pk, z, &mut rng).unwrap();
    assert!(proof.pc_proof.is_hiding());
    assert!(proof.commitments.mask_poly.is_some());
    assert!(MarlinSNARK::verify(FS_PARAMETERS, vk.clone(), vec![c], &proof).unwrap());
    // A flipped public input must not verify.
    let wrong = (c + 1) % FIELD_MODULUS;
    assert!(!MarlinSNARK::verify(FS_PARAMETERS, vk, vec![wrong], &proof).unwrap());
}

#[test]
fn test_non_zk_mode() {
    let (pk, vk) = setup(100, 25, false);
    let circuit = mul_circuit(100, 25);
    let z = assignment(&circuit, 7, 11);
    let c = z[1];
    let mut rng = ProofRng::from_seed(42);
    let proof = MarlinSNARK::prove(FS_PARAMETERS, pk, z, &mut rng).unwrap();
    assert!(proof.commitments.mask_poly.is_none());
    assert!(!proof.pc_proof.is_hiding());
    assert!(MarlinSNARK::verify(FS_PARAMETERS, vk, vec![c], &proof).unwrap());
}

#[test]
fn test_transcript_determinism() {
    let (pk, _vk) = setup(100, 25, true);
    let circuit = mul_circuit(100, 25);
    let z = assignment(&circuit, 9, 4);
    let mut rng1 = ProofRng::from_seed(7);
    let mut rng2 = ProofRng::from_seed(7);
    let p1 = MarlinSNARK::prove(FS_PARAMETERS, pk.clone(), z.clone(), &mut rng1).unwrap();
    let p2 = MarlinSNARK::prove(FS_PARAMETERS, pk, z, &mut rng2).unwrap();
    assert_eq!(p1, p2);
}

#[test]
fn test_batched_heterogeneous() {
    let c1 = mul_circuit(100, 25);
    let c2 = mul_circuit(200, 25);
    let srs = load_srs(4096);
    let (pk1, vk1) = MarlinSNARK::circuit_setup(&srs, c1.clone(), false).unwrap();
    let (pk2, vk2) = MarlinSNARK::circuit_setup(&srs, c2.clone(), false).unwrap();
    assert_ne!(pk1.circuit.hash, pk2.circuit.hash);
    // Order the batch by circuit hash.
    let (first_pk, _first_vk, second_pk, _second_vk) = if pk1.circuit.hash < pk2.circuit.hash {
        (pk1, vk1, pk2, vk2)
    } else {
        (pk2, vk2, pk1, vk1)
    };
    let za1 = assignment(&first_pk.circuit.circuit, 2, 3);
    let za2 = assignment(&first_pk.circuit.circuit, 4, 5);
    let zb1 = assignment(&second_pk.circuit.circuit, 6, 7);
    let inputs_first = vec![vec![za1[1]], vec![za2[1]]];
    let inputs_second = vec![vec![zb1[1]]];
    let keys = vec![first_pk, second_pk];
    let assignments = vec![vec![za1, za2], vec![zb1]];
    let mut rng = ProofRng::from_seed(13);
    let proof = MarlinSNARK::prove_batch(FS_PARAMETERS, &keys, &assignments, &mut rng).unwrap();
    assert_eq!(proof.batch_sizes.len(), 2);
    assert_eq!(proof.batch_sizes[0].circuit_hash, keys[0].circuit.hash);
    assert_eq!(proof.batch_sizes[0].instance_count, 2);
    assert_eq!(proof.batch_sizes[1].instance_count, 1);
    assert_eq!(proof.batch_size(), 3);
    let vks = vec![keys[0].circuit_verifying_key.clone(), keys[1].circuit_verifying_key.clone()];
    let ok = MarlinSNARK::verify_batch(
        FS_PARAMETERS,
        &vks,
        &vec![inputs_first.clone(), inputs_second.clone()],
        &proof,
    )
    .unwrap();
    assert!(ok);
    // One instance too few for the first circuit: a batch-size mismatch.
    let short = vec![vec![inputs_first[0].clone()], inputs_second.clone()];
    assert_eq!(
        MarlinSNARK::verify_batch(FS_PARAMETERS, &vks, &short, &proof),
        Err(SnarkError::BatchSizeMismatch)
    );
    // Swapped instance inputs between the circuits must not verify.
    let swapped = vec![
        vec![inputs_second[0].clone(), inputs_first[1].clone()],
        vec![inputs_first[0].clone()],
    ];
    assert!(!MarlinSNARK::verify_batch(FS_PARAMETERS, &vks, &swapped, &proof).unwrap());
}

#[test]
fn test_certificate_round_trip() {
    let (pk, vk) = setup(100, 25, false);
    let circuit = mul_circuit(100, 25);
    let cert = MarlinSNARK::prove_vk(FS_PARAMETERS, &vk, &pk).unwrap();
    assert!(MarlinSNARK::verify_vk(FS_PARAMETERS, circuit.clone(), &vk, &cert).unwrap());
    // Re-deriving the certificate gives the same answer.
    let cert2 = MarlinSNARK::prove_vk(FS_PARAMETERS, &vk, &pk).unwrap();
    assert_eq!(cert, cert2);
    assert!(MarlinSNARK::verify_vk(FS_PARAMETERS, circuit.clone(), &vk, &cert2).unwrap());
    // A verifying key with two commitments swapped must not verify.
    let mut bad_vk = vk.clone();
    bad_vk.circuit_commitments.swap(0, 5);
    let bad_cert = MarlinSNARK::prove_vk(FS_PARAMETERS, &bad_vk, &pk).unwrap();
    assert!(!MarlinSNARK::verify_vk(FS_PARAMETERS, circuit, &bad_vk, &bad_cert).unwrap());
}

#[test]
fn test_oversize_circuit() {
    let srs = load_srs(128);
    let circuit = mul_circuit(4096, 25);
    match MarlinSNARK::circuit_setup(&srs, circuit, false) {
        Err(SnarkError::IndexTooLarge(have, need)) => {
            assert_eq!(have, 128);
            assert_eq!(need, 4096);
        },
        _ => panic!("expected the parameters to be too small"),
    }
}

#[test]
fn test_termination() {
    let (pk, _vk) = setup(100, 25, true);
    let circuit = mul_circuit(100, 25);
    let z = assignment(&circuit, 3, 5);
    let mut terminator = Terminator::new();
    terminator.set();
    let mut rng = ProofRng::from_seed(1);
    let keys = vec![pk];
    let assignments = vec![vec![z]];
    let result = MarlinSNARK::prove_batch_with_terminator(
        FS_PARAMETERS,
        &keys,
        &assignments,
        &terminator,
        &mut rng,
    );
    assert_eq!(result, Err(SnarkError::Terminated));
}

#[test]
fn test_empty_batch() {
    let mut rng = ProofRng::from_seed(1);
    let keys: Vec<CircuitProvingKey> = Vec::new();
    let assignments: Vec<Vec<Vec<u64>>> = Vec::new();
    let result = MarlinSNARK::prove_batch(FS_PARAMETERS, &keys, &assignments, &mut rng);
    assert_eq!(result, Err(SnarkError::EmptyBatch));
}

#[test]
fn test_proof_tampering() {
    let (pk, vk) = setup(100, 25, false);
    let circuit = mul_circuit(100, 25);
    let z = assignment(&circuit, 3, 5);
    let c = z[1];
    let mut rng = ProofRng::from_seed(42);
    let proof = MarlinSNARK::prove(FS_PARAMETERS, pk, z, &mut rng).unwrap();
    assert!(MarlinSNARK::verify(FS_PARAMETERS, vk.clone(), vec![c], &proof).unwrap());

    // A flipped evaluation value must not verify.
    let mut tampered = proof.clone();
    tampered.evaluations.entries[0].1 = (tampered.evaluations.entries[0].1 + 1) % FIELD_MODULUS;
    assert!(!MarlinSNARK::verify(FS_PARAMETERS, vk.clone(), vec![c], &tampered).unwrap());

    // A flipped commitment coefficient must not verify.
    let mut tampered = proof.clone();
    tampered.commitments.g_1.coeffs[0] = (tampered.commitments.g_1.coeffs[0] + 1) % FIELD_MODULUS;
    assert!(!MarlinSNARK::verify(FS_PARAMETERS, vk.clone(), vec![c], &tampered).unwrap());

    // A flipped aggregate in the opening proof must not verify.
    let mut tampered = proof.clone();
    tampered.pc_proof.combined = (tampered.pc_proof.combined + 1) % FIELD_MODULUS;
    assert!(!MarlinSNARK::verify(FS_PARAMETERS, vk.clone(), vec![c], &tampered).unwrap());

    // A flipped third-round sum must not verify.
    let mut tampered = proof.clone();
    tampered.msg.sums[0].sum_a = (tampered.msg.sums[0].sum_a + 1) % FIELD_MODULUS;
    assert!(!MarlinSNARK::verify(FS_PARAMETERS, vk.clone(), vec![c], &tampered).unwrap());

    // A dropped evaluation is a missing evaluation, not a panic.
    let mut tampered = proof.clone();
    let removed = tampered.evaluations.entries.remove(0);
    match MarlinSNARK::verify(FS_PARAMETERS, vk.clone(), vec![c], &tampered) {
        Err(SnarkError::MissingEval(label)) => assert_eq!(label, removed.0),
        other => panic!("expected a missing evaluation, got {:?}", other),
    }

    // A mismatched hiding flag must not verify.
    let mut tampered = proof.clone();
    tampered.pc_proof.hiding = true;
    assert!(!MarlinSNARK::verify(FS_PARAMETERS, vk, vec![c], &tampered).unwrap());
}

#[test]
fn test_perturbed_verifying_key() {
    let (pk, vk) = setup(100, 25, false);
    let circuit = mul_circuit(100, 25);
    let z = assignment(&circuit, 3, 5);
    let c = z[1];
    let mut rng = ProofRng::from_seed(42);
    let proof = MarlinSNARK::prove(FS_PARAMETERS, pk, z, &mut rng).unwrap();
    assert!(MarlinSNARK::verify(FS_PARAMETERS, vk.clone(), vec![c], &proof).unwrap());
    // A verifying key with its commitment order perturbed must not verify.
    let mut bad_vk = vk;
    bad_vk.circuit_commitments.swap(1, 2);
    assert!(!MarlinSNARK::verify(FS_PARAMETERS, bad_vk, vec![c], &proof).unwrap());
}

#[test]
fn test_verifying_key_shape() {
    let (_pk, vk) = setup(100, 25, false);
    // One commitment per index polynomial, in canonical ascending label order.
    assert_eq!(vk.circuit_commitments.len(), 12);
    for i in 0..12 {
        let label = marlin_core::labels::index_label_of_rank(i);
        assert_eq!(marlin_core::labels::index_label_rank(label), i);
    }
}

#[test]
fn test_universal_setup_and_growth() {
    let srs = MarlinSNARK::universal_setup(4096);
    assert_eq!(srs.max_degree, 4096);
    assert!(srs.download_powers_for(4096));
    assert!(!srs.download_powers_for(8192));
    let circuit = mul_circuit(100, 25);
    let (pk, vk) = MarlinSNARK::circuit_setup(&srs, circuit, true).unwrap();
    assert_eq!(pk.circuit_verifying_key.hash, vk.hash);
    assert!(pk
        .circuit_commitment_randomness
        .iter()
        .all(|r| *r == marlin_core::pcs::EMPTY_RANDOMNESS));
}
