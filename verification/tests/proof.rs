//! Proof verification through the real pairing backend.
//!
//! A Groth16 instance whose pairing product provably cancels — proof A
//! equal to the key's alpha, proof B equal to its beta, and every other
//! point at infinity — must verify, and any byte mutation of it must not.

use zert::types::Proof;
use zert::utils::{verify_proof, verifying_key};
use zert::groth16::Groth16Verifyingkey;

/// A verifying key whose gamma, delta and IC points are all at infinity,
/// with alpha and beta taken from the embedded key: the pairing equation
/// collapses to `e(-A, B) * e(alpha, beta) == 1`.
fn cancelling_key() -> Groth16Verifyingkey {
    let embedded = verifying_key();
    Groth16Verifyingkey {
        nr_pubinputs: 10,
        vk_alpha_g1: embedded.vk_alpha_g1,
        vk_beta_g2: embedded.vk_beta_g2,
        vk_gamma_g2: [0u8; 128],
        vk_delta_g2: [0u8; 128],
        vk_ic: vec![[0u8; 64]; 11],
    }
}

fn cancelling_proof() -> Proof {
    let embedded = verifying_key();
    Proof {
        proof_a: embedded.vk_alpha_g1,
        proof_b: embedded.vk_beta_g2,
        proof_c: [0u8; 64],
        root: [0u8; 32],
        public_amount0: [0u8; 32],
        public_amount1: [0u8; 32],
        ext_data_hash: [0u8; 32],
        input_nullifiers: [[0u8; 32]; 2],
        output_commitments: [[0u8; 32]; 2],
    }
}

#[test]
fn verify_accepts_a_cancelling_instance() {
    let vk = cancelling_key();
    let proof = cancelling_proof();
    assert!(verify_proof(&proof, &vk, &[0u8; 32], &[0u8; 32]));
}

#[test]
fn verify_rejects_single_byte_mutations() {
    let vk = cancelling_key();
    // flip one byte of each proof point in turn
    for pos in [0usize, 13, 63] {
        let mut proof = cancelling_proof();
        proof.proof_a[pos] ^= 1;
        assert!(!verify_proof(&proof, &vk, &[0u8; 32], &[0u8; 32]));
    }
    for pos in [0usize, 64, 127] {
        let mut proof = cancelling_proof();
        proof.proof_b[pos] ^= 1;
        assert!(!verify_proof(&proof, &vk, &[0u8; 32], &[0u8; 32]));
    }
    let mut proof = cancelling_proof();
    proof.proof_c[63] ^= 1;
    assert!(!verify_proof(&proof, &vk, &[0u8; 32], &[0u8; 32]));
}

#[test]
fn verify_rejects_the_zero_a_encoding() {
    // the all-zero A point is not a valid uncompressed encoding
    let vk = cancelling_key();
    let mut proof = cancelling_proof();
    proof.proof_a = [0u8; 64];
    assert!(!verify_proof(&proof, &vk, &[0u8; 32], &[0u8; 32]));
}

#[test]
fn verify_rejects_garbage_points_against_the_embedded_key() {
    let vk = verifying_key();
    let proof = Proof {
        proof_a: [1u8; 64],
        proof_b: [2u8; 128],
        proof_c: [3u8; 64],
        root: [0u8; 32],
        public_amount0: [0u8; 32],
        public_amount1: [0u8; 32],
        ext_data_hash: [0u8; 32],
        input_nullifiers: [[0u8; 32]; 2],
        output_commitments: [[0u8; 32]; 2],
    };
    assert!(!verify_proof(&proof, &vk, &[9u8; 32], &[9u8; 32]));
}

#[test]
fn verify_rejects_a_mutated_public_input() {
    // the IC points are at infinity, so the prepared input ignores the
    // inputs' values; bind the first input's IC point to a real curve
    // point instead and the prepared input moves with the input bytes
    let embedded = verifying_key();
    let mut vk = cancelling_key();
    vk.vk_ic[1] = embedded.vk_ic[1];
    // the prepared input must pair against a real gamma to be felt
    vk.vk_gamma_g2 = embedded.vk_gamma_g2;
    let proof = cancelling_proof();
    // with a zero scalar the extra term is the identity and the product
    // still cancels; the first public input is the proof's root
    assert!(verify_proof(&proof, &vk, &[0u8; 32], &[0u8; 32]));
    // a nonzero root scales the IC point into the product and breaks the
    // cancellation
    let mut mutated = cancelling_proof();
    mutated.root[31] = 1;
    assert!(!verify_proof(&mutated, &vk, &[0u8; 32], &[0u8; 32]));
}
