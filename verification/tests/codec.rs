//! Byte-level codecs: endianness conversion, field-order reduction, the
//! public balance equation, and the auxiliary-data hash.

use zert::field::{
    reduce_be_scalar, reduce_le_scalar, scalar_order_u256, u256_from_be, u256_from_le, u256_mod,
    u256_to_be, U256,
};
use zert::utils::{
    calculate_complete_ext_data_hash, change_endianness, check_public_amount,
};

/// Big-endian bytes of a small value.
fn be32(v: u64) -> [u8; 32] {
    let mut out = [0u8; 32];
    out[24..32].copy_from_slice(&v.to_be_bytes());
    out
}

#[test]
fn change_endianness_reverses_each_32_byte_chunk() {
    let input: Vec<u8> = (0u8..64).collect();
    let out = change_endianness(&input);
    let mut expected: Vec<u8> = (0u8..32).rev().collect();
    expected.extend((32u8..64).rev());
    assert_eq!(out, expected);
}

#[test]
fn change_endianness_short_final_chunk() {
    let input: Vec<u8> = (0u8..40).collect();
    let out = change_endianness(&input);
    let mut expected: Vec<u8> = (0u8..32).rev().collect();
    expected.extend((32u8..40).rev());
    assert_eq!(out, expected);
}

#[test]
fn u256_codec_roundtrip() {
    let bytes = be32(0xdead_beef_0102_0304);
    let v = u256_from_be(&bytes);
    assert_eq!(v.hi, 0);
    assert_eq!(v.lo, 0xdead_beef_0102_0304u128);
    assert_eq!(u256_to_be(&v), bytes);

    let mut le = [0u8; 32];
    le[0] = 0x04;
    le[1] = 0x03;
    let w = u256_from_le(&le);
    assert_eq!(w.lo, 0x0304);
    assert_eq!(w.hi, 0);
}

#[test]
fn reduction_wraps_the_field_order_to_zero() {
    // the scalar-field order itself reduces to zero
    let order_bytes = u256_to_be(&scalar_order_u256());
    let reduced = reduce_be_scalar(&order_bytes);
    assert_eq!((reduced.hi, reduced.lo), (0, 0));

    // one above the order reduces to one
    let one_over = u256_mod(
        &U256 { hi: scalar_order_u256().hi, lo: scalar_order_u256().lo + 1 },
        &scalar_order_u256(),
    );
    assert_eq!((one_over.hi, one_over.lo), (0, 1));

    // a little-endian reading of the same buffer differs from the
    // big-endian one
    let sample = be32(0x0102);
    let be = reduce_be_scalar(&sample);
    let le = reduce_le_scalar(&sample);
    assert_ne!((be.hi, be.lo), (le.hi, le.lo));
}

#[test]
fn check_public_amount_deposit_exact_value() {
    // e = 1000, fee = 25: the public amount must be exactly 975
    assert!(check_public_amount(1000, 25, be32(975)));
    assert!(!check_public_amount(1000, 25, be32(974)));
    assert!(!check_public_amount(1000, 25, be32(976)));
}

#[test]
fn check_public_amount_reduces_modulo_field_order() {
    // 975 plus the field order names the same residue, so it is accepted
    let big = {
        let order = scalar_order_u256();
        // order.lo ends in ...0000001, adding 975 stays within the low half
        U256 { hi: order.hi, lo: order.lo + 975 }
    };
    assert!(check_public_amount(1000, 25, u256_to_be(&big)));
}

#[test]
fn check_public_amount_withdrawal_is_field_negation() {
    // e = -1000, fee = 25: the amount is the field negation of 1025
    let order = scalar_order_u256();
    let expected = U256 { hi: order.hi, lo: order.lo - 1025 };
    assert!(check_public_amount(-1000, 25, u256_to_be(&expected)));
    let wrong = U256 { hi: order.hi, lo: order.lo - 1024 };
    assert!(!check_public_amount(-1000, 25, u256_to_be(&wrong)));
}

#[test]
fn check_public_amount_rejects_unrepresentable_inputs() {
    // the most negative amount has no negation
    assert!(!check_public_amount(i64::MIN, 0, be32(0)));
    // a deposit must strictly exceed its fee
    assert!(!check_public_amount(25, 25, be32(0)));
    assert!(!check_public_amount(0, 0, be32(0)));
}

#[test]
fn ext_data_hash_matches_reference_digest() {
    // serialize the auxiliary data by hand, in the canonical layout, and
    // compare the library's digest with the reference implementation's
    let recipient = [1u8; 32];
    let fee_recipient = [2u8; 32];
    let mint_a = [3u8; 32];
    let mint_b = [4u8; 32];
    let encrypted: Vec<u8> = vec![9, 8, 7];
    let ext_amount: i64 = -5;
    let fee: u64 = 11;

    let got = calculate_complete_ext_data_hash(
        &recipient,
        ext_amount,
        &encrypted,
        fee,
        &fee_recipient,
        &mint_a,
        &mint_b,
    );

    let mut bytes: Vec<u8> = Vec::new();
    bytes.extend_from_slice(&recipient);
    bytes.extend_from_slice(&ext_amount.to_le_bytes());
    bytes.extend_from_slice(&(encrypted.len() as u32).to_le_bytes());
    bytes.extend_from_slice(&encrypted);
    bytes.extend_from_slice(&fee.to_le_bytes());
    bytes.extend_from_slice(&fee_recipient);
    bytes.extend_from_slice(&mint_a);
    bytes.extend_from_slice(&mint_b);
    let expected = solana_program::hash::hash(&bytes).to_bytes();

    assert_eq!(got, expected);
    // and the digest is a real digest, not the input handed back
    assert_ne!(&got[..], &bytes[..32]);
}
