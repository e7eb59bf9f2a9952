//! Validation core of a shielded-transaction pool.
//!
//! Users deposit, withdraw and swap value while a zero-knowledge proof
//! shows that each transaction balances and that spent notes are not
//! reused, without revealing amounts or links.  The crate holds the four
//! engines behind that: byte-exact field-element codecs, an append-only
//! incremental Merkle tree with a bounded root history, a write-once
//! nullifier registry, and a Groth16 verifier over BN254, composed by the
//! transaction validator into admit-or-reject decisions with atomic state
//! updates.

use vstd::prelude::*;

pub mod errors;
pub mod field;
pub mod groth16;
pub mod merkle_tree;
pub mod state;
pub mod transact;
pub mod types;
pub mod utils;

pub use errors::{ErrorCode, Groth16Error};
pub use state::{GlobalConfig, MerkleTreeAccount, NullifierRegistry};
pub use types::{
    CommitmentData, ExtData, ExtDataMinified, Proof, SwapExtData, SwapExtDataMinified,
};

verus! {

/// Fee rates and margins are expressed in basis points, 0..=10000.
pub open spec fn valid_bps(x: u16) -> bool {
    x <= 10000
}

} // verus!
