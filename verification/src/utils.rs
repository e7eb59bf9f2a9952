//! Economic checks of a transaction: the public balance equation and the
//! fee-policy floor, together with the canonical serialization and hashing
//! of the plaintext auxiliary data that the proof binds.

use vstd::prelude::*;

verus! {

use crate::errors::ErrorCode;
use crate::types::Proof;
use crate::groth16::{Groth16Verifyingkey, groth16_verify_spec, verify_groth16};
use crate::field::{
    be_val, scalar_order, u256_from_u128, u256_sub, u256_eq, reduce_be_scalar,
    scalar_order_u256, lemma_field_order_values, U256,
};

/// Absolute value of a signed amount.
pub open spec fn abs_amount(e: int) -> nat {
    if e >= 0 {
        e as nat
    } else {
        (-e) as nat
    }
}

/// Fee owed on `amount` at `rate` basis points, rounded down.
pub open spec fn expected_fee(amount: nat, rate: u16) -> nat {
    amount * rate as nat / 10000
}

/// Lowest fee the policy accepts: the expected fee shrunk by the error
/// margin, rounded down; zero when the expected fee is zero.
pub open spec fn min_acceptable_fee(amount: nat, rate: u16, margin: u16) -> nat
    recommends
        margin <= 10000,
{
    if expected_fee(amount, rate) == 0 {
        0
    } else {
        expected_fee(amount, rate) * (10000 - margin) as nat / 10000
    }
}

/// Fee floor for a signed external amount: deposits pay the deposit rate,
/// withdrawals the withdrawal rate, and a zero amount owes nothing.
pub open spec fn required_min_fee(e: int, deposit_rate: u16, withdrawal_rate: u16, margin: u16) -> nat
    recommends
        margin <= 10000,
{
    if e > 0 {
        min_acceptable_fee(e as nat, deposit_rate, margin)
    } else if e < 0 {
        min_acceptable_fee((-e) as nat, withdrawal_rate, margin)
    } else {
        0
    }
}

/// A fee rate in basis points never scales an amount up.
proof fn lemma_rate_fraction_le(amount: nat, rate: u16)
    requires
        rate <= 10000,
    ensures
        amount * rate / 10000 <= amount,
{
    vstd::arithmetic::mul::lemma_mul_inequality(rate as int, 10000, amount as int);
    vstd::arithmetic::div_mod::lemma_div_is_ordered(
        (amount * rate) as int,
        (amount * 10000) as int,
        10000,
    );
    vstd::arithmetic::div_mod::lemma_div_multiples_vanish(amount as int, 10000);
    assert(amount * rate <= amount * 10000) by (nonlinear_arith)
        requires rate <= 10000;
    assert(amount * 10000 == 10000 * amount) by (nonlinear_arith);
}

/// Checks that the provided fee reaches the policy floor for this amount.
///
/// Accepts exactly the fees at or above `required_min_fee`; overpaying is
/// always accepted.  The most negative representable amount cannot be
/// negated and is rejected as an arithmetic error.
pub fn validate_fee(
    ext_amount: i64,
    provided_fee: u64,
    deposit_fee_rate: u16,
    withdrawal_fee_rate: u16,
    fee_error_margin: u16,
) -> (r: Result<(), ErrorCode>)
    requires
        crate::valid_bps(deposit_fee_rate),
        crate::valid_bps(withdrawal_fee_rate),
        crate::valid_bps(fee_error_margin),
    ensures
        r is Ok <==> (ext_amount != i64::MIN && provided_fee
            >= required_min_fee(ext_amount as int, deposit_fee_rate, withdrawal_fee_rate, fee_error_margin)),
        ext_amount == i64::MIN ==> r == Err::<(), ErrorCode>(ErrorCode::ArithmeticOverflow),
        r is Err && ext_amount != i64::MIN ==> r == Err::<(), ErrorCode>(ErrorCode::InvalidFeeAmount)
            && provided_fee
                < required_min_fee(ext_amount as int, deposit_fee_rate, withdrawal_fee_rate, fee_error_margin),
{
    if ext_amount == 0 {
        return Ok(());
    }
    if ext_amount == i64::MIN {
        return Err(ErrorCode::ArithmeticOverflow);
    }
    let amount: u64 = if ext_amount > 0 {
        ext_amount as u64
    } else {
        (-ext_amount) as u64
    };
    let rate: u16 = if ext_amount > 0 {
        deposit_fee_rate
    } else {
        withdrawal_fee_rate
    };
    proof {
        lemma_rate_fraction_le(amount as nat, rate);
    }
    let expected = ((amount as u128) * (rate as u128) / 10000) as u64;
    let min_fee: u64 = if expected > 0 {
        let multiplier = 10000u128 - (fee_error_margin as u128);
        proof {
            lemma_rate_fraction_le(expected as nat, (10000 - fee_error_margin) as u16);
        }
        ((expected as u128) * multiplier / 10000) as u64
    } else {
        0
    };
    if provided_fee >= min_fee {
        Ok(())
    } else {
        Err(ErrorCode::InvalidFeeAmount)
    }
}

/// The fee floor is monotone in the provided fee: if `f1` passes for this
/// amount and policy, every `f2 >= f1` passes too.
pub proof fn lemma_validate_fee_monotonic(
    ext_amount: i64,
    f1: u64,
    f2: u64,
    deposit_rate: u16,
    withdrawal_rate: u16,
    margin: u16,
)
    requires
        margin <= 10000,
        ext_amount != i64::MIN,
        f1 >= required_min_fee(ext_amount as int, deposit_rate, withdrawal_rate, margin),
        f2 >= f1,
    ensures
        f2 >= required_min_fee(ext_amount as int, deposit_rate, withdrawal_rate, margin),
{
}

/// Whether a signed amount and fee form a representable balance: the most
/// negative amount is rejected, and a deposit must strictly exceed its fee.
pub open spec fn public_amount_ok(e: i64, fee: u64) -> bool {
    e != i64::MIN && (e >= 0 ==> e > fee)
}

/// The balance residue a valid transaction must exhibit: `e - fee` for a
/// deposit, the scalar-field negation of `|e| + fee` for a withdrawal.
pub open spec fn public_amount_value(e: i64, fee: u64) -> nat
    recommends
        public_amount_ok(e, fee),
{
    if e >= 0 {
        (e - fee) as nat
    } else {
        (scalar_order() - (abs_amount(e as int) + fee)) as nat
    }
}

/// Checks the public balance equation.
///
/// True exactly when the inputs are representable and the 32-byte
/// big-endian public amount, reduced into the scalar field, equals the
/// expected balance residue.
pub fn check_public_amount(ext_amount: i64, fee: u64, public_amount_bytes: [u8; 32]) -> (r: bool)
    ensures
        r == (public_amount_ok(ext_amount, fee) && public_amount_value(ext_amount, fee)
            == be_val(public_amount_bytes@) % scalar_order()),
{
    if ext_amount == i64::MIN {
        return false;
    }
    // amount and fee are both below the field order, so comparing them as
    // field elements is the same as comparing them as integers
    if ext_amount >= 0 && (ext_amount as u64) <= fee {
        return false;
    }
    let expected: U256 = if ext_amount >= 0 {
        u256_from_u128((ext_amount as u64 - fee) as u128)
    } else {
        let sum = ((-ext_amount) as u64 as u128) + (fee as u128);
        proof {
            lemma_field_order_values();
        }
        u256_sub(&scalar_order_u256(), &u256_from_u128(sum))
    };
    let claimed = reduce_be_scalar(&public_amount_bytes);
    u256_eq(&expected, &claimed)
}

/// Bytes of `v` in little-endian order, `n` bytes long.
pub open spec fn le_bytes_n(v: nat, n: nat) -> Seq<u8>
    decreases n,
{
    if n == 0 {
        Seq::empty()
    } else {
        seq![(v % 256) as u8] + le_bytes_n(v / 256, (n - 1) as nat)
    }
}

/// The unsigned 64-bit pattern of a signed amount (two's complement).
pub open spec fn i64_bits(x: i64) -> nat {
    if x >= 0 {
        x as nat
    } else {
        (x + 0x10000000000000000) as nat
    }
}

/// Canonical serialization of the complete auxiliary data: fixed 32-byte
/// addresses raw, integers little endian, the encrypted payload preceded by
/// its 32-bit length.
pub open spec fn ext_data_bytes(
    recipient: Seq<u8>,
    ext_amount: i64,
    encrypted_output: Seq<u8>,
    fee: u64,
    fee_recipient: Seq<u8>,
    mint_a: Seq<u8>,
    mint_b: Seq<u8>,
) -> Seq<u8> {
    recipient + le_bytes_n(i64_bits(ext_amount), 8) + le_bytes_n(encrypted_output.len(), 4)
        + encrypted_output + le_bytes_n(fee as nat, 8) + fee_recipient + mint_a + mint_b
}

/// Canonical serialization of the swap auxiliary data; the minimum-out
/// bound takes the place of the recipient.
pub open spec fn swap_ext_data_bytes(
    ext_amount: i64,
    ext_min_amount_out: i64,
    encrypted_output: Seq<u8>,
    fee: u64,
    fee_recipient: Seq<u8>,
    mint_a: Seq<u8>,
    mint_b: Seq<u8>,
) -> Seq<u8> {
    le_bytes_n(i64_bits(ext_amount), 8) + le_bytes_n(i64_bits(ext_min_amount_out), 8)
        + le_bytes_n(encrypted_output.len(), 4) + encrypted_output + le_bytes_n(fee as nat, 8)
        + fee_recipient + mint_a + mint_b
}

/// Digest of a byte string under SHA-256.
pub uninterp spec fn sha256_of(data: Seq<u8>) -> Seq<u8>;

/// Relies on `solana_program::hash::hash`, which returns the 32-byte
/// SHA-256 digest of the input; the digest depends on the bytes alone.
#[verifier::external_body]
fn sha256_hash(data: &Vec<u8>) -> (r: [u8; 32])
    ensures
        r@ == sha256_of(data@),
{
    solana_program::hash::hash(data.as_slice()).to_bytes()
}

/// Appends the unsigned 64-bit pattern of `x`, little endian.
fn push_u64_bits(out: &mut Vec<u8>, x: u64)
    ensures
        final(out)@ == old(out)@ + le_bytes_n(x as nat, 8),
{
    let mut v = x;
    let mut k: usize = 0;
    proof {
        assert(out@ + le_bytes_n(x as nat, 8) == out@ + le_bytes_n(x as nat, 8));
    }
    while k < 8
        invariant
            k <= 8,
            old(out)@ + le_bytes_n(x as nat, 8) == out@ + le_bytes_n(v as nat, (8 - k) as nat),
        decreases 8 - k,
    {
        let b = (v % 256) as u8;
        proof {
            assert(le_bytes_n(v as nat, (8 - k) as nat)
                == seq![(v as nat % 256) as u8] + le_bytes_n(v as nat / 256, (8 - k - 1) as nat));
            assert(out@ + (seq![b] + le_bytes_n(v as nat / 256, (8 - k - 1) as nat))
                =~= (out@ + seq![b]) + le_bytes_n(v as nat / 256, (8 - k - 1) as nat));
            assert(out@.push(b) =~= out@ + seq![b]);
        }
        out.push(b);
        v = v / 256;
        k += 1;
    }
    proof {
        assert(le_bytes_n(v as nat, 0) =~= Seq::<u8>::empty());
        assert(out@ + Seq::<u8>::empty() =~= out@);
    }
}

/// Appends a 32-bit length, little endian.
fn push_u32_bits(out: &mut Vec<u8>, x: u32)
    ensures
        final(out)@ == old(out)@ + le_bytes_n(x as nat, 4),
{
    let mut v = x;
    let mut k: usize = 0;
    while k < 4
        invariant
            k <= 4,
            old(out)@ + le_bytes_n(x as nat, 4) == out@ + le_bytes_n(v as nat, (4 - k) as nat),
        decreases 4 - k,
    {
        let b = (v % 256) as u8;
        proof {
            assert(le_bytes_n(v as nat, (4 - k) as nat)
                == seq![(v as nat % 256) as u8] + le_bytes_n(v as nat / 256, (4 - k - 1) as nat));
            assert(out@ + (seq![b] + le_bytes_n(v as nat / 256, (4 - k - 1) as nat))
                =~= (out@ + seq![b]) + le_bytes_n(v as nat / 256, (4 - k - 1) as nat));
            assert(out@.push(b) =~= out@ + seq![b]);
        }
        out.push(b);
        v = v / 256;
        k += 1;
    }
    proof {
        assert(le_bytes_n(v as nat, 0) =~= Seq::<u8>::empty());
        assert(out@ + Seq::<u8>::empty() =~= out@);
    }
}

/// Appends the 64-bit two's-complement pattern of a signed amount.
fn push_i64_bits(out: &mut Vec<u8>, x: i64)
    ensures
        final(out)@ == old(out)@ + le_bytes_n(i64_bits(x), 8),
{
    let bits: u64 = if x >= 0 {
        x as u64
    } else {
        u64::MAX - ((-(x + 1)) as u64)
    };
    proof {
        assert(bits as nat == i64_bits(x));
    }
    push_u64_bits(out, bits);
}

/// Appends 32 raw bytes.
fn push_bytes32(out: &mut Vec<u8>, bytes: &[u8; 32])
    ensures
        final(out)@ == old(out)@ + bytes@,
{
    let mut k: usize = 0;
    while k < 32
        invariant
            k <= 32,
            out@ == old(out)@ + bytes@.subrange(0, k as int),
        decreases 32 - k,
    {
        proof {
            assert((old(out)@ + bytes@.subrange(0, k as int)).push(bytes@[k as int])
                =~= old(out)@ + bytes@.subrange(0, k + 1));
        }
        out.push(bytes[k]);
        k += 1;
    }
    proof {
        assert(bytes@.subrange(0, 32) =~= bytes@);
    }
}

/// Appends a whole byte vector.
fn push_vec(out: &mut Vec<u8>, bytes: &Vec<u8>)
    ensures
        final(out)@ == old(out)@ + bytes@,
{
    let mut k: usize = 0;
    let n = bytes.len();
    while k < n
        invariant
            n == bytes@.len(),
            k <= n,
            out@ == old(out)@ + bytes@.subrange(0, k as int),
        decreases n - k,
    {
        proof {
            assert((old(out)@ + bytes@.subrange(0, k as int)).push(bytes@[k as int])
                =~= old(out)@ + bytes@.subrange(0, k + 1));
        }
        out.push(bytes[k]);
        k += 1;
    }
    proof {
        assert(bytes@.subrange(0, n as int) =~= bytes@);
    }
}

/// Hashes the complete auxiliary data of a deposit or withdrawal, exactly as
/// the client computes the hash bound into the proof.
pub fn calculate_complete_ext_data_hash(
    recipient: &[u8; 32],
    ext_amount: i64,
    encrypted_output: &Vec<u8>,
    fee: u64,
    fee_recipient: &[u8; 32],
    mint_address_a: &[u8; 32],
    mint_address_b: &[u8; 32],
) -> (r: [u8; 32])
    requires
        encrypted_output@.len() <= u32::MAX,
    ensures
        r@ == sha256_of(ext_data_bytes(
            recipient@,
            ext_amount,
            encrypted_output@,
            fee,
            fee_recipient@,
            mint_address_a@,
            mint_address_b@,
        )),
{
    let mut data: Vec<u8> = Vec::new();
    push_bytes32(&mut data, recipient);
    push_i64_bits(&mut data, ext_amount);
    push_u32_bits(&mut data, encrypted_output.len() as u32);
    push_vec(&mut data, encrypted_output);
    push_u64_bits(&mut data, fee);
    push_bytes32(&mut data, fee_recipient);
    push_bytes32(&mut data, mint_address_a);
    push_bytes32(&mut data, mint_address_b);
    proof {
        assert(data@ =~= ext_data_bytes(
            recipient@,
            ext_amount,
            encrypted_output@,
            fee,
            fee_recipient@,
            mint_address_a@,
            mint_address_b@,
        ));
    }
    sha256_hash(&data)
}

/// Hashes the swap auxiliary data, exactly as the client computes the hash
/// bound into the proof.
pub fn calculate_swap_ext_data_hash(
    ext_amount: i64,
    ext_min_amount_out: i64,
    encrypted_output: &Vec<u8>,
    fee: u64,
    fee_recipient: &[u8; 32],
    mint_address_a: &[u8; 32],
    mint_address_b: &[u8; 32],
) -> (r: [u8; 32])
    requires
        encrypted_output@.len() <= u32::MAX,
    ensures
        r@ == sha256_of(swap_ext_data_bytes(
            ext_amount,
            ext_min_amount_out,
            encrypted_output@,
            fee,
            fee_recipient@,
            mint_address_a@,
            mint_address_b@,
        )),
{
    let mut data: Vec<u8> = Vec::new();
    push_i64_bits(&mut data, ext_amount);
    push_i64_bits(&mut data, ext_min_amount_out);
    push_u32_bits(&mut data, encrypted_output.len() as u32);
    push_vec(&mut data, encrypted_output);
    push_u64_bits(&mut data, fee);
    push_bytes32(&mut data, fee_recipient);
    push_bytes32(&mut data, mint_address_a);
    push_bytes32(&mut data, mint_address_b);
    proof {
        assert(data@ =~= swap_ext_data_bytes(
            ext_amount,
            ext_min_amount_out,
            encrypted_output@,
            fee,
            fee_recipient@,
            mint_address_a@,
            mint_address_b@,
        ));
    }
    sha256_hash(&data)
}

/// The fixed, load-bearing order of the ten public inputs; any reordering
/// invalidates every existing proof.
pub open spec fn public_inputs_order(proof: Proof, mint_a: [u8; 32], mint_b: [u8; 32]) -> Seq<
    [u8; 32],
> {
    seq![
        proof.root,
        proof.public_amount0,
        proof.public_amount1,
        proof.ext_data_hash,
        mint_a,
        mint_b,
        proof.input_nullifiers@[0],
        proof.input_nullifiers@[1],
        proof.output_commitments@[0],
        proof.output_commitments@[1],
    ]
}

/// Verifies the transaction proof against its public inputs in the fixed
/// order `[root, public amounts, ext-data hash, mints, nullifiers,
/// commitments]`.  Structural failures and pairing mismatches are the same
/// plain `false`.
pub fn verify_proof(
    proof: &Proof,
    verifying_key: &Groth16Verifyingkey,
    mint_address_a: &[u8; 32],
    mint_address_b: &[u8; 32],
) -> (r: bool)
    ensures
        r == groth16_verify_spec(
            proof.proof_a,
            proof.proof_b,
            proof.proof_c,
            public_inputs_order(*proof, *mint_address_a, *mint_address_b),
            *verifying_key,
        ),
{
    let public_inputs: [[u8; 32]; 10] = [
        proof.root,
        proof.public_amount0,
        proof.public_amount1,
        proof.ext_data_hash,
        *mint_address_a,
        *mint_address_b,
        proof.input_nullifiers[0],
        proof.input_nullifiers[1],
        proof.output_commitments[0],
        proof.output_commitments[1],
    ];
    proof {
        assert(public_inputs@ =~= public_inputs_order(
            *proof,
            *mint_address_a,
            *mint_address_b,
        ));
    }
    verify_groth16(
        &proof.proof_a,
        &proof.proof_b,
        &proof.proof_c,
        &public_inputs,
        verifying_key,
    )
}

/// Position a byte at `i` is copied from when every 32-byte chunk of a
/// string of length `n` is reversed in place (a short final chunk reverses
/// within itself).
pub open spec fn chunk_mirror_index(n: int, i: int) -> int {
    let c = 32 * (i / 32);
    let w = if n - c < 32 {
        n - c
    } else {
        32
    };
    c + (w - 1) - (i - c)
}

/// Reverses each 32-byte chunk of a byte string, converting the per-word
/// endianness of point coordinates.
pub fn change_endianness(bytes: &[u8]) -> (r: Vec<u8>)
    ensures
        r@.len() == bytes@.len(),
        forall|i: int|
            0 <= i < bytes@.len() ==> r@[i] == bytes@[chunk_mirror_index(bytes@.len() as int, i)],
{
    let n = bytes.len();
    let mut out: Vec<u8> = Vec::new();
    let mut i: usize = 0;
    while i < n
        invariant
            n == bytes@.len(),
            i <= n,
            out@.len() == i,
            forall|j: int| 0 <= j < i ==> out@[j] == bytes@[chunk_mirror_index(n as int, j)],
        decreases n - i,
    {
        let c = (i / 32) * 32;
        let w = if n - c < 32 {
            n - c
        } else {
            32
        };
        out.push(bytes[c + (w - 1) - (i - c)]);
        i += 1;
    }
    out
}

/// The pool's embedded verifying key: four pairing points and eleven IC
/// points, one constant term plus one per public input.
pub fn verifying_key() -> (r: Groth16Verifyingkey)
    ensures
        r.wf(),
        r.nr_pubinputs == 10,
        r.vk_ic@.len() == 11,
{
    let vk_alpha_g1: [u8; 64] = [
        45, 77, 154, 167, 227, 2, 217, 223, 65, 116, 157, 85, 7, 148, 157, 5,
        219, 234, 51, 251, 177, 108, 100, 59, 34, 245, 153, 162, 190, 109, 242, 226,
        20, 190, 221, 80, 60, 55, 206, 176, 97, 216, 236, 96, 32, 159, 227, 69,
        206, 137, 131, 10, 25, 35, 3, 1, 240, 118, 202, 255, 0, 77, 25, 38,
    ];
    let vk_beta_g2: [u8; 128] = [
        9, 103, 3, 47, 203, 247, 118, 209, 175, 201, 133, 248, 136, 119, 241, 130,
        211, 132, 128, 166, 83, 242, 222, 202, 169, 121, 76, 188, 59, 243, 6, 12,
        14, 24, 120, 71, 173, 76, 121, 131, 116, 208, 214, 115, 43, 245, 1, 132,
        125, 214, 139, 192, 224, 113, 36, 30, 2, 19, 188, 127, 193, 61, 183, 171,
        48, 76, 251, 209, 224, 138, 112, 74, 153, 245, 232, 71, 217, 63, 140, 60,
        170, 253, 222, 196, 107, 122, 13, 55, 157, 166, 154, 77, 17, 35, 70, 167,
        23, 57, 193, 177, 164, 87, 168, 199, 49, 49, 35, 210, 77, 47, 145, 146,
        248, 150, 183, 198, 62, 234, 5, 169, 213, 127, 6, 84, 122, 208, 206, 200,
    ];
    let vk_gamma_g2: [u8; 128] = [
        25, 142, 147, 147, 146, 13, 72, 58, 114, 96, 191, 183, 49, 251, 93, 37,
        241, 170, 73, 51, 53, 169, 231, 18, 151, 228, 133, 183, 174, 243, 18, 194,
        24, 0, 222, 239, 18, 31, 30, 118, 66, 106, 0, 102, 94, 92, 68, 121,
        103, 67, 34, 212, 247, 94, 218, 221, 70, 222, 189, 92, 217, 146, 246, 237,
        9, 6, 137, 208, 88, 95, 240, 117, 236, 158, 153, 173, 105, 12, 51, 149,
        188, 75, 49, 51, 112, 179, 142, 243, 85, 172, 218, 220, 209, 34, 151, 91,
        18, 200, 94, 165, 219, 140, 109, 235, 74, 171, 113, 128, 141, 203, 64, 143,
        227, 209, 231, 105, 12, 67, 211, 123, 76, 230, 204, 1, 102, 250, 125, 170,
    ];
    let vk_delta_g2: [u8; 128] = [
        14, 158, 205, 113, 196, 210, 188, 9, 178, 153, 238, 14, 86, 48, 127, 103,
        50, 91, 78, 215, 94, 230, 37, 191, 198, 14, 167, 30, 230, 213, 45, 189,
        19, 137, 13, 98, 149, 160, 221, 76, 64, 62, 188, 155, 6, 214, 188, 155,
        215, 121, 177, 50, 73, 173, 198, 254, 231, 206, 243, 126, 15, 22, 245, 149,
        21, 98, 129, 170, 72, 68, 155, 122, 74, 218, 94, 45, 166, 91, 31, 225,
        178, 127, 228, 118, 203, 26, 30, 247, 229, 100, 5, 172, 76, 53, 39, 239,
        18, 6, 133, 66, 115, 33, 102, 82, 54, 253, 222, 59, 150, 202, 38, 106,
        72, 64, 45, 142, 75, 251, 224, 129, 24, 127, 91, 65, 191, 88, 84, 161,
    ];
    let mut vk_ic: Vec<[u8; 64]> = Vec::new();
    vk_ic.push([
        28, 160, 211, 185, 155, 90, 54, 7, 95, 51, 153, 240, 123, 97, 66, 218,
        240, 14, 44, 43, 124, 70, 226, 114, 158, 134, 114, 39, 30, 49, 2, 232,
        14, 27, 110, 117, 2, 37, 141, 106, 131, 252, 70, 229, 44, 219, 37, 54,
        68, 95, 164, 251, 82, 66, 114, 17, 253, 158, 197, 85, 91, 42, 107, 87,
    ]);
    vk_ic.push([
        8, 6, 156, 235, 121, 185, 40, 198, 109, 112, 136, 171, 113, 12, 195, 70,
        82, 83, 197, 185, 201, 182, 41, 189, 247, 112, 81, 220, 173, 125, 22, 18,
        17, 110, 104, 146, 17, 115, 38, 75, 52, 100, 156, 122, 69, 176, 81, 185,
        124, 74, 96, 194, 126, 198, 88, 19, 159, 90, 168, 120, 46, 251, 56, 110,
    ]);
    vk_ic.push([
        46, 201, 177, 63, 228, 199, 126, 43, 118, 63, 11, 10, 56, 182, 231, 118,
        55, 198, 42, 170, 197, 100, 208, 8, 76, 171, 222, 83, 48, 180, 231, 124,
        40, 253, 138, 95, 161, 118, 249, 65, 44, 15, 38, 191, 192, 184, 147, 50,
        213, 187, 202, 135, 14, 81, 13, 177, 157, 221, 59, 220, 139, 192, 68, 222,
    ]);
    vk_ic.push([
        7, 81, 28, 116, 79, 237, 164, 254, 33, 101, 158, 58, 119, 70, 201, 164,
        48, 60, 216, 23, 243, 247, 115, 132, 18, 96, 55, 188, 118, 21, 94, 227,
        35, 101, 37, 159, 29, 226, 38, 107, 237, 229, 125, 164, 186, 218, 173, 138,
        210, 193, 203, 143, 2, 58, 229, 215, 63, 134, 78, 20, 156, 105, 40, 254,
    ]);
    vk_ic.push([
        13, 68, 46, 44, 162, 38, 79, 29, 248, 24, 139, 116, 125, 237, 22, 175,
        43, 192, 111, 11, 226, 2, 183, 61, 248, 1, 146, 140, 228, 98, 198, 119,
        28, 49, 98, 178, 28, 147, 29, 246, 104, 229, 181, 82, 232, 97, 171, 182,
        76, 120, 242, 120, 174, 133, 127, 0, 3, 20, 117, 109, 241, 32, 105, 1,
    ]);
    vk_ic.push([
        9, 255, 9, 228, 46, 234, 53, 124, 181, 189, 168, 24, 91, 47, 238, 99,
        166, 166, 89, 55, 108, 44, 128, 68, 68, 166, 26, 47, 112, 104, 153, 199,
        26, 158, 9, 181, 5, 189, 217, 9, 65, 123, 236, 188, 108, 100, 166, 212,
        185, 215, 108, 187, 134, 57, 21, 13, 38, 0, 155, 247, 121, 218, 54, 141,
    ]);
    vk_ic.push([
        44, 120, 239, 95, 204, 75, 16, 74, 148, 184, 136, 121, 140, 78, 106, 29,
        102, 193, 166, 210, 103, 51, 25, 144, 220, 49, 101, 206, 244, 75, 253, 241,
        27, 128, 52, 74, 56, 147, 237, 67, 119, 186, 214, 40, 31, 53, 28, 141,
        248, 188, 91, 192, 176, 173, 60, 108, 158, 200, 208, 11, 109, 202, 25, 30,
    ]);
    vk_ic.push([
        8, 74, 201, 62, 231, 91, 38, 108, 145, 51, 76, 37, 84, 160, 202, 182,
        173, 204, 124, 112, 120, 178, 141, 172, 73, 109, 49, 207, 54, 211, 178, 227,
        22, 245, 79, 48, 56, 88, 93, 185, 235, 120, 2, 140, 197, 161, 59, 109,
        133, 215, 15, 110, 228, 107, 19, 40, 196, 168, 124, 164, 162, 214, 81, 74,
    ]);
    vk_ic.push([
        6, 191, 131, 211, 13, 217, 96, 250, 122, 243, 27, 192, 234, 216, 82, 64,
        18, 255, 200, 239, 183, 79, 217, 219, 151, 71, 56, 255, 105, 37, 229, 220,
        25, 134, 92, 70, 212, 18, 55, 24, 250, 164, 214, 100, 128, 45, 191, 239,
        169, 39, 195, 71, 24, 76, 224, 73, 187, 122, 120, 8, 78, 143, 12, 177,
    ]);
    vk_ic.push([
        31, 119, 243, 141, 247, 217, 36, 137, 166, 67, 255, 96, 90, 136, 115, 99,
        113, 102, 205, 114, 64, 228, 53, 77, 39, 189, 135, 116, 28, 59, 109, 221,
        22, 125, 89, 52, 190, 236, 207, 33, 94, 208, 66, 35, 169, 188, 195, 251,
        136, 39, 173, 50, 21, 245, 166, 2, 85, 253, 165, 148, 154, 92, 154, 126,
    ]);
    vk_ic.push([
        0, 243, 77, 17, 232, 182, 118, 124, 226, 162, 179, 192, 213, 8, 128, 31,
        249, 116, 129, 190, 14, 129, 189, 196, 101, 9, 81, 167, 252, 88, 53, 231,
        7, 59, 212, 86, 35, 230, 209, 193, 250, 219, 174, 29, 205, 110, 68, 52,
        71, 166, 82, 183, 215, 80, 173, 93, 128, 75, 154, 159, 79, 216, 135, 145,
    ]);
    Groth16Verifyingkey {
        nr_pubinputs: 10,
        vk_alpha_g1,
        vk_beta_g2,
        vk_gamma_g2,
        vk_delta_g2,
        vk_ic,
    }
}

} // verus!
