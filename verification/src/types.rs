//! Wire types of a shielded transaction.
//!
//! Account identities travel as plain 32-byte addresses; proof points and
//! public inputs as the byte strings the circuit emits (all public inputs
//! big endian).

use vstd::prelude::*;

verus! {

/// A zero-knowledge proof together with the public inputs it binds.
#[derive(Clone)]
pub struct Proof {
    pub proof_a: [u8; 64],
    pub proof_b: [u8; 128],
    pub proof_c: [u8; 64],
    pub root: [u8; 32],
    pub public_amount0: [u8; 32],
    pub public_amount1: [u8; 32],
    pub ext_data_hash: [u8; 32],
    pub input_nullifiers: [[u8; 32]; 2],
    pub output_commitments: [[u8; 32]; 2],
}

/// Plaintext auxiliary data of a deposit or withdrawal, as hashed into the
/// proof's `ext_data_hash`.
#[derive(Clone)]
pub struct ExtData {
    pub recipient: [u8; 32],
    pub ext_amount: i64,
    pub fee: u64,
    pub fee_recipient: [u8; 32],
}

/// The caller-supplied part of `ExtData`; recipient addresses come from the
/// execution context instead.
#[derive(Clone)]
pub struct ExtDataMinified {
    pub ext_amount: i64,
    pub fee: u64,
}

/// The caller-supplied part of `SwapExtData`.
#[derive(Clone)]
pub struct SwapExtDataMinified {
    pub ext_amount: i64,
    pub ext_min_amount_out: i64,
    pub fee: u64,
}

/// Plaintext auxiliary data of a swap.
#[derive(Clone)]
pub struct SwapExtData {
    pub ext_amount: i64,
    pub ext_min_amount_out: i64,
    pub fee: u64,
    pub fee_recipient: [u8; 32],
}

/// Output record of a successful transaction: where the two fresh
/// commitments landed, for off-chain note discovery.
#[derive(Clone, Debug, PartialEq, Eq)]
pub struct CommitmentData {
    pub index: u64,
    pub commitment0: [u8; 32],
    pub commitment1: [u8; 32],
    pub encrypted_output: Vec<u8>,
}

impl ExtData {
    /// Rebuilds the full auxiliary data from its minified wire form and the
    /// context-supplied addresses.
    pub fn from_minified(
        recipient: &[u8; 32],
        fee_recipient: &[u8; 32],
        minified: ExtDataMinified,
    ) -> (r: Self)
        ensures
            r.recipient == *recipient,
            r.fee_recipient == *fee_recipient,
            r.ext_amount == minified.ext_amount,
            r.fee == minified.fee,
    {
        Self {
            recipient: *recipient,
            ext_amount: minified.ext_amount,
            fee: minified.fee,
            fee_recipient: *fee_recipient,
        }
    }
}

impl SwapExtData {
    /// Rebuilds the full swap auxiliary data from its minified wire form and
    /// the context-supplied fee recipient.
    pub fn from_minified(
        fee_recipient: &[u8; 32],
        minified: SwapExtDataMinified,
    ) -> (r: Self)
        ensures
            r.fee_recipient == *fee_recipient,
            r.ext_amount == minified.ext_amount,
            r.ext_min_amount_out == minified.ext_min_amount_out,
            r.fee == minified.fee,
    {
        Self {
            ext_amount: minified.ext_amount,
            ext_min_amount_out: minified.ext_min_amount_out,
            fee: minified.fee,
            fee_recipient: *fee_recipient,
        }
    }
}

} // verus!
