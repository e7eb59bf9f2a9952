//! Error taxonomy of the pool: policy, arithmetic and concurrency failures
//! each carry a distinct, caller-actionable code, while structural proof
//! failures are collapsed into `InvalidProof` by returning `false` from the
//! verifier instead of surfacing a cause.

use vstd::prelude::*;

verus! {

/// Failure causes internal to Groth16 proof handling.  They never cross the
/// public verification boundary: callers only see a boolean, so that the
/// success signal cannot leak which internal check failed.
#[derive(Clone, Copy, Debug, PartialEq, Eq, Structural)]
pub enum Groth16Error {
    InvalidG1Length,
    InvalidG2Length,
    InvalidPublicInputsLength,
    PublicInputGreaterThanFieldSize,
    PreparingInputsG1MulFailed,
    PreparingInputsG1AdditionFailed,
    ProofVerificationFailed,
}

/// Transaction-level error codes.
#[derive(Clone, Copy, Debug, PartialEq, Eq, Structural)]
pub enum ErrorCode {
    Unauthorized,
    ExtDataHashMismatch,
    UnknownRoot,
    InvalidPublicAmountData,
    InsufficientFundsForWithdrawal,
    InsufficientFundsForFee,
    InvalidProof,
    InvalidFee,
    InvalidExtAmount,
    PublicAmountCalculationError,
    ArithmeticOverflow,
    DepositLimitExceeded,
    InvalidFeeRate,
    InvalidFeeRecipient,
    InvalidFeeAmount,
    RecipientMismatch,
    MerkleTreeFull,
    UnsupportedMintAddress,
    DualTokenNotSupported,
    InvalidJupiterSwapData,
    MathOverflow,
    InsufficientSwapOutput,
    InvalidTreeParameters,
    NullifierAlreadyUsed,
}

impl ErrorCode {
    /// Stable name of the code, for logs and test diagnostics.
    pub fn name(&self) -> (r: &'static str) {
        match self {
            ErrorCode::Unauthorized => "Unauthorized",
            ErrorCode::ExtDataHashMismatch => "ExtDataHashMismatch",
            ErrorCode::UnknownRoot => "UnknownRoot",
            ErrorCode::InvalidPublicAmountData => "InvalidPublicAmountData",
            ErrorCode::InsufficientFundsForWithdrawal => "InsufficientFundsForWithdrawal",
            ErrorCode::InsufficientFundsForFee => "InsufficientFundsForFee",
            ErrorCode::InvalidProof => "InvalidProof",
            ErrorCode::InvalidFee => "InvalidFee",
            ErrorCode::InvalidExtAmount => "InvalidExtAmount",
            ErrorCode::PublicAmountCalculationError => "PublicAmountCalculationError",
            ErrorCode::ArithmeticOverflow => "ArithmeticOverflow",
            ErrorCode::DepositLimitExceeded => "DepositLimitExceeded",
            ErrorCode::InvalidFeeRate => "InvalidFeeRate",
            ErrorCode::InvalidFeeRecipient => "InvalidFeeRecipient",
            ErrorCode::InvalidFeeAmount => "InvalidFeeAmount",
            ErrorCode::RecipientMismatch => "RecipientMismatch",
            ErrorCode::MerkleTreeFull => "MerkleTreeFull",
            ErrorCode::UnsupportedMintAddress => "UnsupportedMintAddress",
            ErrorCode::DualTokenNotSupported => "DualTokenNotSupported",
            ErrorCode::InvalidJupiterSwapData => "InvalidJupiterSwapData",
            ErrorCode::MathOverflow => "MathOverflow",
            ErrorCode::InsufficientSwapOutput => "InsufficientSwapOutput",
            ErrorCode::InvalidTreeParameters => "InvalidTreeParameters",
            ErrorCode::NullifierAlreadyUsed => "NullifierAlreadyUsed",
        }
    }
}

} // verus!
