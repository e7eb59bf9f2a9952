//! Groth16 proof verification over BN254.
//!
//! The proof points and the verifying key are byte strings in the
//! big-endian convention of the on-chain pairing interface.  The verifier
//! negates the A point, folds the public inputs into the prepared-input
//! point, and accepts exactly when the four-term pairing product is the
//! identity.  Every internal failure (malformed point, rejected input)
//! collapses into `false`: the boolean is the whole observable outcome, so
//! no caller can tell which check failed.

use vstd::prelude::*;

verus! {

use vstd::arithmetic::power2::pow2;
use crate::field::{
    be_val, be32_of, base_order, push_bytes, u256_from_be, u256_to_be, u256_sub, u256_lt,
    base_order_u256, lemma_be32_roundtrip, lemma_be_val_zero,
};

/// A Groth16 verifying key: the four pairing points and one G1 point per
/// public input plus the constant term.
pub struct Groth16Verifyingkey {
    pub nr_pubinputs: usize,
    pub vk_alpha_g1: [u8; 64],
    pub vk_beta_g2: [u8; 128],
    pub vk_gamma_g2: [u8; 128],
    pub vk_delta_g2: [u8; 128],
    pub vk_ic: Vec<[u8; 64]>,
}

impl Groth16Verifyingkey {
    /// One IC point per public input, plus the constant term.
    pub open spec fn wf(self) -> bool {
        self.vk_ic@.len() == self.nr_pubinputs + 1
    }
}

/// Sum of two G1 points, each 64 big-endian bytes, as the on-chain
/// addition returns it; rejected inputs give no result.
pub uninterp spec fn bn_add_of(input: Seq<u8>) -> Option<[u8; 64]>;

/// Scalar multiple of a G1 point (64 big-endian point bytes followed by a
/// 32-byte big-endian scalar); rejected inputs give no result.
pub uninterp spec fn bn_mul_of(input: Seq<u8>) -> Option<[u8; 64]>;

/// Product of pairings over (G1, G2) pairs of 192 big-endian bytes each:
/// 32 bytes that are the big-endian unit flag; rejected inputs give no
/// result.
pub uninterp spec fn bn_pairing_of(input: Seq<u8>) -> Option<[u8; 32]>;

/// Relies on `solana_program::alt_bn128::prelude::alt_bn128_addition`: the
/// 64-byte sum of the two points in the 128-byte input, a function of the
/// input bytes alone, failing exactly on the inputs it rejects.
#[verifier::external_body]
fn bn_add(input: &[u8; 128]) -> (r: Option<[u8; 64]>)
    ensures
        r == bn_add_of(input@),
{
    solana_program::alt_bn128::prelude::alt_bn128_addition(input.as_slice())
        .ok()
        .and_then(|v| v.try_into().ok())
}

/// Relies on `solana_program::alt_bn128::prelude::alt_bn128_multiplication`:
/// the 64-byte scalar multiple encoded in the 96-byte input, a function of
/// the input bytes alone, failing exactly on the inputs it rejects.
#[verifier::external_body]
fn bn_mul(input: &[u8; 96]) -> (r: Option<[u8; 64]>)
    ensures
        r == bn_mul_of(input@),
{
    solana_program::alt_bn128::prelude::alt_bn128_multiplication(input.as_slice())
        .ok()
        .and_then(|v| v.try_into().ok())
}

/// Relies on `solana_program::alt_bn128::prelude::alt_bn128_pairing`: 32
/// bytes holding 1 exactly when the pairing product over the input pairs
/// is the identity, a function of the input bytes alone, failing exactly
/// on the inputs it rejects.
#[verifier::external_body]
fn bn_pairing(input: &Vec<u8>) -> (r: Option<[u8; 32]>)
    ensures
        r == bn_pairing_of(input@),
{
    solana_program::alt_bn128::prelude::alt_bn128_pairing(input.as_slice())
        .ok()
        .and_then(|v| v.try_into().ok())
}

/// The y coordinate of a 64-byte G1 encoding.
pub open spec fn g1_y_val(p: Seq<u8>) -> nat {
    be_val(p.subrange(32, 64))
}

/// A y coordinate can be negated only if it is a canonical base-field
/// residue.
pub open spec fn g1_neg_valid(p: Seq<u8>) -> bool {
    g1_y_val(p) < base_order()
}

/// Negation of a G1 point: same x, base-field negation of y (zero stays
/// zero).
pub open spec fn g1_negate_bytes(p: Seq<u8>) -> Seq<u8> {
    let y = g1_y_val(p);
    let neg_y = if y == 0 {
        0
    } else {
        (base_order() - y) as nat
    };
    p.subrange(0, 32) + be32_of(neg_y)
}

/// Negates a G1 point given as 64 big-endian bytes.
///
/// Same x, y replaced by its base-field negation.  A y coordinate at or
/// above the field order cannot encode a point, so it is rejected, as a
/// strict deserializer would.
fn negate_g1(p: &[u8; 64]) -> (r: Option<[u8; 64]>)
    ensures
        r is Some <==> g1_neg_valid(p@),
        r matches Some(v) ==> v@ == g1_negate_bytes(p@),
{
    let mut y_bytes: [u8; 32] = [0; 32];
    let mut i: usize = 0;
    while i < 32
        invariant
            i <= 32,
            forall|j: int| 0 <= j < i ==> y_bytes@[j] == p@[32 + j],
        decreases 32 - i,
    {
        y_bytes[i] = p[32 + i];
        i += 1;
    }
    proof {
        assert(y_bytes@ =~= p@.subrange(32, 64));
    }
    let y = u256_from_be(&y_bytes);
    let q = base_order_u256();
    if !u256_lt(&y, &q) {
        return None;
    }
    let ghost yv = g1_y_val(p@);
    let ghost neg_y: nat = if yv == 0 {
        0
    } else {
        (base_order() - yv) as nat
    };
    let neg_bytes: [u8; 32] = if y.hi == 0 && y.lo == 0 {
        let zb: [u8; 32] = [0; 32];
        proof {
            assert(yv == 0);
            lemma_be_val_zero(zb@);
            lemma_be32_roundtrip(zb@);
            assert(zb@ == be32_of(neg_y));
        }
        zb
    } else {
        proof {
            if y.hi != 0 {
                vstd::arithmetic::power2::lemma_pow2_pos(128);
                assert(y.hi as nat * pow2(128) >= pow2(128)) by (nonlinear_arith)
                    requires y.hi >= 1, pow2(128) > 0;
            }
            assert(yv != 0);
        }
        let d = u256_sub(&q, &y);
        let out = u256_to_be(&d);
        proof {
            lemma_be32_roundtrip(out@);
            assert(out@ == be32_of(neg_y));
        }
        out
    };
    proof {
        assert(neg_bytes@ == be32_of(neg_y));
    }
    let mut result: [u8; 64] = [0; 64];
    let mut j: usize = 0;
    while j < 32
        invariant
            j <= 32,
            forall|k: int| 0 <= k < j ==> result@[k] == p@[k],
        decreases 32 - j,
    {
        result[j] = p[j];
        j += 1;
    }
    let mut k: usize = 0;
    while k < 32
        invariant
            k <= 32,
            forall|m: int| 0 <= m < 32 ==> result@[m] == p@[m],
            forall|m: int| 0 <= m < k ==> result@[32 + m] == neg_bytes@[m],
        decreases 32 - k,
    {
        result[32 + k] = neg_bytes[k];
        k += 1;
    }
    proof {
        assert(result@ =~= g1_negate_bytes(p@));
    }
    Some(result)
}

/// The prepared public-input point after folding in the first `k` inputs:
/// the constant IC term, accumulated with each input's scalar multiple of
/// its IC point; a rejected step poisons the rest.
pub open spec fn prepared_inputs_spec(
    ic: Seq<[u8; 64]>,
    inputs: Seq<[u8; 32]>,
    k: nat,
) -> Option<[u8; 64]>
    decreases k,
{
    if k == 0 {
        Some(ic[0])
    } else {
        match prepared_inputs_spec(ic, inputs, (k - 1) as nat) {
            Option::None => Option::None,
            Option::Some(acc) => match bn_mul_of(ic[k as int]@ + inputs[k - 1]@) {
                Option::None => Option::None,
                Option::Some(m) => bn_add_of(acc@ + m@),
            },
        }
    }
}

/// Once a fold step is rejected, every longer fold is rejected too.
proof fn lemma_prepared_none(ic: Seq<[u8; 64]>, inputs: Seq<[u8; 32]>, k: nat, j: nat)
    requires
        prepared_inputs_spec(ic, inputs, k) is None,
        k <= j,
    ensures
        prepared_inputs_spec(ic, inputs, j) is None,
    decreases j - k,
{
    if j > k {
        lemma_prepared_none(ic, inputs, k, (j - 1) as nat);
    }
}

/// Concatenates a G1 point and a scalar into a multiplication input.
fn mul_input(point: &[u8; 64], scalar: &[u8; 32]) -> (r: [u8; 96])
    ensures
        r@ == point@ + scalar@,
{
    let mut out: [u8; 96] = [0; 96];
    let mut i: usize = 0;
    while i < 64
        invariant
            i <= 64,
            forall|j: int| 0 <= j < i ==> out@[j] == point@[j],
        decreases 64 - i,
    {
        out[i] = point[i];
        i += 1;
    }
    let mut k: usize = 0;
    while k < 32
        invariant
            k <= 32,
            forall|j: int| 0 <= j < 64 ==> out@[j] == point@[j],
            forall|j: int| 0 <= j < k ==> out@[64 + j] == scalar@[j],
        decreases 32 - k,
    {
        out[64 + k] = scalar[k];
        k += 1;
    }
    proof {
        assert(out@ =~= point@ + scalar@);
    }
    out
}

/// Concatenates two G1 points into an addition input.
fn add_input(a: &[u8; 64], b: &[u8; 64]) -> (r: [u8; 128])
    ensures
        r@ == a@ + b@,
{
    let mut out: [u8; 128] = [0; 128];
    let mut i: usize = 0;
    while i < 64
        invariant
            i <= 64,
            forall|j: int| 0 <= j < i ==> out@[j] == a@[j],
        decreases 64 - i,
    {
        out[i] = a[i];
        i += 1;
    }
    let mut k: usize = 0;
    while k < 64
        invariant
            k <= 64,
            forall|j: int| 0 <= j < 64 ==> out@[j] == a@[j],
            forall|j: int| 0 <= j < k ==> out@[64 + j] == b@[j],
        decreases 64 - k,
    {
        out[64 + k] = b[k];
        k += 1;
    }
    proof {
        assert(out@ =~= a@ + b@);
    }
    out
}

/// Folds the ten public inputs into the prepared-input point.
fn prepare_inputs(ic: &Vec<[u8; 64]>, public_inputs: &[[u8; 32]; 10]) -> (r: Option<[u8; 64]>)
    requires
        ic@.len() == 11,
    ensures
        r == prepared_inputs_spec(ic@, public_inputs@, 10),
{
    let mut acc: [u8; 64] = ic[0];
    let mut k: usize = 1;
    while k <= 10
        invariant
            1 <= k <= 11,
            ic@.len() == 11,
            Some(acc) == prepared_inputs_spec(ic@, public_inputs@, (k - 1) as nat),
        decreases 11 - k,
    {
        let m = match bn_mul(&mul_input(&ic[k], &public_inputs[k - 1])) {
            Some(m) => m,
            None => {
                proof {
                    lemma_prepared_none(ic@, public_inputs@, k as nat, 10);
                }
                return None;
            },
        };
        let a = match bn_add(&add_input(&acc, &m)) {
            Some(a) => a,
            None => {
                proof {
                    lemma_prepared_none(ic@, public_inputs@, k as nat, 10);
                }
                return None;
            },
        };
        acc = a;
        k += 1;
    }
    Some(acc)
}

/// 32 bytes holding a big-endian 1: the pairing interface's "product is
/// the identity" answer.
pub open spec fn pairing_one() -> Seq<u8> {
    Seq::new(32, |i: int| if i == 31 { 1u8 } else { 0u8 })
}

/// An all-zero 64-byte string: the encoding a strict deserializer rejects.
pub open spec fn zero64() -> Seq<u8> {
    Seq::new(64, |i: int| 0u8)
}

/// The byte string handed to the pairing check:
/// `(-A, B), (prepared, gamma), (C, delta), (alpha, beta)`.
pub open spec fn pairing_input_bytes(
    a_neg: Seq<u8>,
    proof_b: [u8; 128],
    proof_c: [u8; 64],
    prepared: [u8; 64],
    vk: Groth16Verifyingkey,
) -> Seq<u8> {
    a_neg + proof_b@ + prepared@ + vk.vk_gamma_g2@ + proof_c@ + vk.vk_delta_g2@ + vk.vk_alpha_g1@
        + vk.vk_beta_g2@
}

/// The exact outcome of verification: the proof is accepted when the A
/// point is a nonzero canonical encoding, every fold step of the public
/// inputs is accepted, and the pairing product of `(-A, B)`,
/// `(alpha, beta)`, `(prepared, gamma)` and `(C, delta)` is the identity.
pub open spec fn groth16_verify_spec(
    proof_a: [u8; 64],
    proof_b: [u8; 128],
    proof_c: [u8; 64],
    public_inputs: Seq<[u8; 32]>,
    vk: Groth16Verifyingkey,
) -> bool {
    &&& vk.vk_ic@.len() == 11
    &&& proof_a@ != zero64()
    &&& g1_neg_valid(proof_a@)
    &&& match prepared_inputs_spec(vk.vk_ic@, public_inputs, 10) {
        Option::Some(prepared) => match bn_pairing_of(
            pairing_input_bytes(g1_negate_bytes(proof_a@), proof_b, proof_c, prepared, vk),
        ) {
            Option::Some(out) => out@ == pairing_one(),
            Option::None => false,
        },
        Option::None => false,
    }
}

/// Checks whether 64 bytes are all zero.
fn is_zero64(p: &[u8; 64]) -> (r: bool)
    ensures
        r == (p@ == zero64()),
{
    let mut i: usize = 0;
    while i < 64
        invariant
            i <= 64,
            forall|j: int| 0 <= j < i ==> p@[j] == 0,
        decreases 64 - i,
    {
        if p[i] != 0 {
            proof {
                assert(p@[i as int] != zero64()[i as int]);
            }
            return false;
        }
        i += 1;
    }
    proof {
        assert(p@ =~= zero64());
    }
    true
}

/// Verifies a Groth16 proof against ten public inputs.
///
/// Returns exactly `groth16_verify_spec`; all internal failures are
/// reported as a plain `false`.
pub fn verify_groth16(
    proof_a: &[u8; 64],
    proof_b: &[u8; 128],
    proof_c: &[u8; 64],
    public_inputs: &[[u8; 32]; 10],
    vk: &Groth16Verifyingkey,
) -> (r: bool)
    ensures
        r == groth16_verify_spec(*proof_a, *proof_b, *proof_c, public_inputs@, *vk),
{
    if vk.vk_ic.len() != 11 {
        return false;
    }
    if is_zero64(proof_a) {
        return false;
    }
    let a_neg = match negate_g1(proof_a) {
        Some(v) => v,
        None => {
            return false;
        },
    };
    let prepared = match prepare_inputs(&vk.vk_ic, public_inputs) {
        Some(p) => p,
        None => {
            return false;
        },
    };
    let mut input: Vec<u8> = Vec::new();
    push_bytes(&mut input, a_neg.as_slice());
    push_bytes(&mut input, proof_b.as_slice());
    push_bytes(&mut input, prepared.as_slice());
    push_bytes(&mut input, vk.vk_gamma_g2.as_slice());
    push_bytes(&mut input, proof_c.as_slice());
    push_bytes(&mut input, vk.vk_delta_g2.as_slice());
    push_bytes(&mut input, vk.vk_alpha_g1.as_slice());
    push_bytes(&mut input, vk.vk_beta_g2.as_slice());
    proof {
        assert(input@ =~= pairing_input_bytes(
            g1_negate_bytes(proof_a@),
            *proof_b,
            *proof_c,
            prepared,
            *vk,
        ));
    }
    let out = match bn_pairing(&input) {
        Some(o) => o,
        None => {
            return false;
        },
    };
    let mut one: [u8; 32] = [0; 32];
    one[31] = 1;
    proof {
        assert(one@ =~= pairing_one());
    }
    crate::field::bytes32_eq(&out, &one)
}

} // verus!
