//! Pool state: tree capacity and root history, the nullifier registry,
//! policy updates, and the transaction flows end to end.

use zert::state::{GlobalConfig, MerkleTreeAccount, NullifierRegistry};
use zert::transact::{
    initialize_pool, process_deposit, process_swap_checks, process_swap_settle, process_withdraw,
    update_deposit_limit,
};
use zert::types::{ExtDataMinified, Proof, SwapExtDataMinified};
use zert::utils::{validate_fee, verifying_key};
use zert::ErrorCode;
use light_hasher::Hasher;
use zert::field::{scalar_order_u256, u256_from_le, u256_mod, u256_to_be};

fn leaf(tag: u8) -> [u8; 32] {
    let mut out = [0u8; 32];
    out[31] = tag;
    out
}

fn sample_proof(root: [u8; 32]) -> Proof {
    Proof {
        proof_a: [1u8; 64],
        proof_b: [2u8; 128],
        proof_c: [3u8; 64],
        root,
        public_amount0: [0u8; 32],
        public_amount1: [0u8; 32],
        ext_data_hash: [0u8; 32],
        input_nullifiers: [leaf(21), leaf(22)],
        output_commitments: [leaf(31), leaf(32)],
    }
}

#[test]
fn initialize_rejects_bad_parameters() {
    assert_eq!(
        initialize_pool(0, 4, 1000, [0u8; 32]).err(),
        Some(ErrorCode::InvalidTreeParameters)
    );
    assert_eq!(
        initialize_pool(33, 4, 1000, [0u8; 32]).err(),
        Some(ErrorCode::InvalidTreeParameters)
    );
    assert_eq!(
        initialize_pool(3, 0, 1000, [0u8; 32]).err(),
        Some(ErrorCode::InvalidTreeParameters)
    );
    assert_eq!(
        initialize_pool(3, 5000, 1000, [0u8; 32]).err(),
        Some(ErrorCode::InvalidTreeParameters)
    );
}

#[test]
fn initialize_seeds_the_empty_tree() {
    let (tree, config) = initialize_pool(3, 4, 777, [9u8; 32]).unwrap();
    assert_eq!(tree.next_index, 0);
    assert_eq!(tree.height, 3);
    assert_eq!(tree.root_history_size, 4);
    assert_eq!(tree.max_deposit_amount, 777);
    assert_eq!(tree.roots.len(), 1);
    assert_eq!(tree.zeros.len(), 4);
    assert_eq!(tree.roots[0], tree.zeros[3]);
    // the per-level defaults really are the arithmetic hash chain over the
    // zero leaf
    let h1 = light_hasher::Poseidon::hashv(&[&[0u8; 32], &[0u8; 32]]).unwrap();
    assert_eq!(tree.zeros[1], h1);
    assert_ne!(tree.zeros[1], tree.zeros[0]);
    let h2 = light_hasher::Poseidon::hashv(&[&h1, &h1]).unwrap();
    assert_eq!(tree.zeros[2], h2);
    // default policy
    assert_eq!(config.deposit_fee_rate, 0);
    assert_eq!(config.withdrawal_fee_rate, 25);
    assert_eq!(config.fee_error_margin, 500);
}

#[test]
fn append_fills_exactly_to_capacity() {
    // height 2: exactly 4 appends succeed, the fifth fails with the
    // capacity error and changes nothing
    let (mut tree, _) = initialize_pool(2, 4, 0, [0u8; 32]).unwrap();
    for i in 0..4u8 {
        assert!(tree.append(leaf(i + 1)).is_ok());
        assert_eq!(tree.next_index, (i + 1) as u64);
    }
    let roots_before = tree.roots.clone();
    assert_eq!(tree.append(leaf(9)), Err(ErrorCode::MerkleTreeFull));
    assert_eq!(tree.next_index, 4);
    assert_eq!(tree.roots, roots_before);
}

#[test]
fn root_history_keeps_recent_roots_and_ages_out_old_ones() {
    // history capacity 2: the empty root survives one append and is
    // overwritten by the second
    let (mut tree, _) = initialize_pool(2, 2, 0, [0u8; 32]).unwrap();
    let empty_root = tree.roots[tree.root_index];
    assert!(tree.is_known_root(&empty_root));

    tree.append(leaf(1)).unwrap();
    let root1 = tree.roots[tree.root_index];
    assert!(tree.is_known_root(&empty_root));
    assert!(tree.is_known_root(&root1));

    tree.append(leaf(2)).unwrap();
    let root2 = tree.roots[tree.root_index];
    assert!(!tree.is_known_root(&empty_root));
    assert!(tree.is_known_root(&root1));
    assert!(tree.is_known_root(&root2));

    tree.append(leaf(3)).unwrap();
    assert!(!tree.is_known_root(&root1));
}

#[test]
fn incremental_root_equals_full_merkle_root() {
    // fill a height-2 tree completely and recompute its root from the
    // four leaves by hand
    let (mut tree, _) = initialize_pool(2, 8, 0, [0u8; 32]).unwrap();
    let leaves = [leaf(1), leaf(2), leaf(3), leaf(4)];
    for l in leaves.iter() {
        tree.append(*l).unwrap();
    }
    let left = light_hasher::Poseidon::hashv(&[&leaves[0], &leaves[1]]).unwrap();
    let right = light_hasher::Poseidon::hashv(&[&leaves[2], &leaves[3]]).unwrap();
    let expected_root = light_hasher::Poseidon::hashv(&[&left, &right]).unwrap();
    assert_eq!(tree.roots[tree.root_index], expected_root);

    // a partially filled height-2 tree pads with empty leaves
    let (mut half, _) = initialize_pool(2, 8, 0, [0u8; 32]).unwrap();
    half.append(leaf(1)).unwrap();
    let zero = [0u8; 32];
    let l0 = light_hasher::Poseidon::hashv(&[&leaf(1), &zero]).unwrap();
    let r0 = light_hasher::Poseidon::hashv(&[&zero, &zero]).unwrap();
    let expected_half = light_hasher::Poseidon::hashv(&[&l0, &r0]).unwrap();
    assert_eq!(half.roots[half.root_index], expected_half);
}

#[test]
fn nullifier_registry_is_write_once() {
    let mut registry = NullifierRegistry::new();
    let n = leaf(77);
    assert!(!registry.contains(&n));
    assert_eq!(registry.consume(&n), Ok(()));
    assert!(registry.contains(&n));
    // the second presentation of the same nullifier always fails
    assert_eq!(registry.consume(&n), Err(ErrorCode::NullifierAlreadyUsed));
    assert!(registry.contains(&n));
    // other nullifiers are unaffected
    assert_eq!(registry.consume(&leaf(78)), Ok(()));
}

#[test]
fn update_global_config_validates_and_applies() {
    let mut config = GlobalConfig::new([1u8; 32]);
    assert_eq!(
        config.update(Some(10001), None, None),
        Err(ErrorCode::InvalidFeeRate)
    );
    assert_eq!(config.deposit_fee_rate, 0);
    // an invalid later field rejects the whole update
    assert_eq!(
        config.update(Some(30), None, Some(20000)),
        Err(ErrorCode::InvalidFeeRate)
    );
    assert_eq!(config.deposit_fee_rate, 0);
    assert_eq!(config.update(Some(30), None, Some(100)), Ok(()));
    assert_eq!(config.deposit_fee_rate, 30);
    assert_eq!(config.withdrawal_fee_rate, 25);
    assert_eq!(config.fee_error_margin, 100);
}

#[test]
fn update_deposit_limit_changes_only_the_cap() {
    let (mut tree, _) = initialize_pool(3, 4, 1000, [0u8; 32]).unwrap();
    tree.append(leaf(1)).unwrap();
    let next = tree.next_index;
    update_deposit_limit(&mut tree, 5555);
    assert_eq!(tree.max_deposit_amount, 5555);
    assert_eq!(tree.next_index, next);
}

/// The proof-bound hash that makes the binding check pass for the given
/// computed hash.
fn bound_hash(calculated: [u8; 32]) -> [u8; 32] {
    u256_to_be(&u256_mod(&u256_from_le(&calculated), &scalar_order_u256()))
}

#[test]
fn deposit_pipeline_rejects_in_order() {
    let (mut tree, config) = initialize_pool(3, 4, 1_000_000, [0u8; 32]).unwrap();
    let mut registry = NullifierRegistry::new();
    let vk = verifying_key();
    let reserve = [5u8; 32];
    let fee_recipient = [6u8; 32];
    let mint = [7u8; 32];
    let encrypted: Vec<u8> = vec![1, 2, 3];
    let minified = ExtDataMinified { ext_amount: 1000, fee: 25 };

    // stale root
    let proof = sample_proof(leaf(99));
    assert_eq!(
        process_deposit(
            &mut tree, &mut registry, &config, &proof, minified.clone(), &encrypted, &reserve,
            &fee_recipient, &mint, &vk,
        ),
        Err(ErrorCode::UnknownRoot)
    );

    // fresh root but unbound auxiliary data
    let proof = sample_proof(tree.roots[tree.root_index]);
    assert_eq!(
        process_deposit(
            &mut tree, &mut registry, &config, &proof, minified.clone(), &encrypted, &reserve,
            &fee_recipient, &mint, &vk,
        ),
        Err(ErrorCode::ExtDataHashMismatch)
    );

    // bound hash but wrong public amount
    let calculated = zert::utils::calculate_complete_ext_data_hash(
        &reserve, 1000, &encrypted, 25, &fee_recipient, &mint, &mint,
    );
    let mut proof = sample_proof(tree.roots[tree.root_index]);
    proof.ext_data_hash = bound_hash(calculated);
    assert_eq!(
        process_deposit(
            &mut tree, &mut registry, &config, &proof, minified.clone(), &encrypted, &reserve,
            &fee_recipient, &mint, &vk,
        ),
        Err(ErrorCode::InvalidPublicAmountData)
    );

    // correct balance (975 = 1000 - 25) but a garbage proof: the opaque
    // verification failure
    proof.public_amount0[30] = 0x03;
    proof.public_amount0[31] = 0xcf;
    assert_eq!(
        process_deposit(
            &mut tree, &mut registry, &config, &proof, minified, &encrypted, &reserve,
            &fee_recipient, &mint, &vk,
        ),
        Err(ErrorCode::InvalidProof)
    );

    // a rejected transaction left no trace
    assert_eq!(tree.next_index, 0);
    assert!(!registry.contains(&proof.input_nullifiers[0]));
}

#[test]
fn withdraw_pipeline_rejects_in_order() {
    let (mut tree, config) = initialize_pool(3, 4, 1_000_000, [0u8; 32]).unwrap();
    let mut registry = NullifierRegistry::new();
    let vk = verifying_key();
    let recipient = [5u8; 32];
    let fee_recipient = [6u8; 32];
    let mint = [7u8; 32];
    let owner = [5u8; 32];
    let relayer = [4u8; 32];
    let encrypted: Vec<u8> = vec![1];

    // stale root
    let proof = sample_proof(leaf(99));
    let minified = ExtDataMinified { ext_amount: -1000, fee: 25 };
    assert_eq!(
        process_withdraw(
            &mut tree, &mut registry, &config, &proof, minified, &encrypted, &recipient,
            &fee_recipient, &mint, &vk, 10_000, false, &owner, &relayer,
        ),
        Err(ErrorCode::UnknownRoot)
    );

    // fee below the policy floor: 1000 * 25bp = 2, margin 5% floor 1
    let calculated = zert::utils::calculate_complete_ext_data_hash(
        &recipient, -1000, &encrypted, 0, &fee_recipient, &mint, &mint,
    );
    let mut proof = sample_proof(tree.roots[tree.root_index]);
    proof.ext_data_hash = bound_hash(calculated);
    // the public amount is the field negation of |e| + fee = 1000
    let order = scalar_order_u256();
    let negated = zert::field::U256 { hi: order.hi, lo: order.lo - 1000 };
    proof.public_amount0 = u256_to_be(&negated);
    let minified = ExtDataMinified { ext_amount: -1000, fee: 0 };
    assert_eq!(
        process_withdraw(
            &mut tree, &mut registry, &config, &proof, minified.clone(), &encrypted, &recipient,
            &fee_recipient, &mint, &vk, 10_000, false, &owner, &relayer,
        ),
        Err(ErrorCode::InvalidFeeAmount)
    );

    // fee floor met but a garbage proof: the opaque verification failure
    let calculated = zert::utils::calculate_complete_ext_data_hash(
        &recipient, -1000, &encrypted, 2, &fee_recipient, &mint, &mint,
    );
    proof.ext_data_hash = bound_hash(calculated);
    let negated = zert::field::U256 { hi: order.hi, lo: order.lo - 1002 };
    proof.public_amount0 = u256_to_be(&negated);
    let minified = ExtDataMinified { ext_amount: -1000, fee: 2 };
    assert_eq!(
        process_withdraw(
            &mut tree, &mut registry, &config, &proof, minified, &encrypted, &recipient,
            &fee_recipient, &mint, &vk, 10_000, false, &owner, &relayer,
        ),
        Err(ErrorCode::InvalidProof)
    );
    assert_eq!(tree.next_index, 0);
}

#[test]
fn withdraw_rejects_a_nonzero_second_balance_slot() {
    let (mut tree, config) = initialize_pool(3, 4, 1_000_000, [0u8; 32]).unwrap();
    let mut registry = NullifierRegistry::new();
    let vk = verifying_key();
    let recipient = [5u8; 32];
    let fee_recipient = [6u8; 32];
    let mint = [7u8; 32];
    let encrypted: Vec<u8> = vec![1];

    // correct binding and first balance slot, but value bound into the
    // second slot: the withdrawal must be rejected
    let calculated = zert::utils::calculate_complete_ext_data_hash(
        &recipient, -1000, &encrypted, 0, &fee_recipient, &mint, &mint,
    );
    let mut proof = sample_proof(tree.roots[tree.root_index]);
    proof.ext_data_hash = bound_hash(calculated);
    let order = scalar_order_u256();
    let negated = zert::field::U256 { hi: order.hi, lo: order.lo - 1000 };
    proof.public_amount0 = u256_to_be(&negated);
    proof.public_amount1[31] = 1;
    let minified = ExtDataMinified { ext_amount: -1000, fee: 0 };
    assert_eq!(
        process_withdraw(
            &mut tree, &mut registry, &config, &proof, minified.clone(), &encrypted, &recipient,
            &fee_recipient, &mint, &vk, 10_000, false, &recipient, &[4u8; 32],
        ),
        Err(ErrorCode::InvalidPublicAmountData)
    );
    // with the slot zeroed the run proceeds to the fee floor instead
    proof.public_amount1[31] = 0;
    assert_eq!(
        process_withdraw(
            &mut tree, &mut registry, &config, &proof, minified, &encrypted, &recipient,
            &fee_recipient, &mint, &vk, 10_000, false, &recipient, &[4u8; 32],
        ),
        Err(ErrorCode::InvalidFeeAmount)
    );
}

#[test]
fn swap_fee_is_checked_at_the_withdrawal_rate() {
    // deposit rate 0, withdrawal rate 100: the swap's negative input leg
    // owes the withdrawal-rate fee, so a zero fee is rejected
    let (tree, mut config) = initialize_pool(3, 4, 0, [0u8; 32]).unwrap();
    config.update(Some(0), Some(100), Some(500)).unwrap();
    let vk = verifying_key();
    let fee_recipient = [6u8; 32];
    let mint_in = [7u8; 32];
    let mint_out = [8u8; 32];
    let encrypted: Vec<u8> = vec![4];
    let routing: Vec<u8> = vec![1];
    let minified = SwapExtDataMinified { ext_amount: -1000, ext_min_amount_out: 3, fee: 0 };

    let calculated = zert::utils::calculate_swap_ext_data_hash(
        -1000, 3, &encrypted, 0, &fee_recipient, &mint_in, &mint_out,
    );
    let mut proof = sample_proof(tree.roots[tree.root_index]);
    proof.ext_data_hash = bound_hash(calculated);
    let order = scalar_order_u256();
    let negated = zert::field::U256 { hi: order.hi, lo: order.lo - 1000 };
    proof.public_amount0 = u256_to_be(&negated);
    proof.public_amount1[31] = 3;
    // expected fee 1000 * 100 / 10000 = 10, floor at 5% margin = 9 > 0
    assert_eq!(
        process_swap_checks(
            &tree, &config, &proof, minified.clone(), &encrypted, &fee_recipient, &mint_in,
            &mint_out, &vk, &routing,
        ),
        Err(ErrorCode::InvalidFeeAmount)
    );
    // a fee at the floor proceeds to proof verification
    let calculated = zert::utils::calculate_swap_ext_data_hash(
        -1000, 3, &encrypted, 9, &fee_recipient, &mint_in, &mint_out,
    );
    proof.ext_data_hash = bound_hash(calculated);
    let negated = zert::field::U256 { hi: order.hi, lo: order.lo - 1009 };
    proof.public_amount0 = u256_to_be(&negated);
    let minified = SwapExtDataMinified { ext_amount: -1000, ext_min_amount_out: 3, fee: 9 };
    assert_eq!(
        process_swap_checks(
            &tree, &config, &proof, minified, &encrypted, &fee_recipient, &mint_in, &mint_out,
            &vk, &routing,
        ),
        Err(ErrorCode::InvalidProof)
    );
}

#[test]
fn stale_root_reported_before_malformed_commitments() {
    // the root check comes first: a stale proof is reported as stale even
    // when its commitments are not canonical field encodings
    let (mut tree, config) = initialize_pool(3, 4, 0, [0u8; 32]).unwrap();
    let mut registry = NullifierRegistry::new();
    let vk = verifying_key();
    let mut proof = sample_proof(leaf(99));
    proof.output_commitments = [[0xffu8; 32], [0xffu8; 32]];
    assert_eq!(
        process_deposit(
            &mut tree, &mut registry, &config, &proof,
            ExtDataMinified { ext_amount: 1000, fee: 0 }, &vec![1], &[5u8; 32], &[6u8; 32],
            &[7u8; 32], &vk,
        ),
        Err(ErrorCode::UnknownRoot)
    );
}

#[test]
fn fee_floor_is_monotone_in_the_provided_fee() {
    // 1000 at 1% with 5% margin: floor is 9; every fee at or above a
    // passing one passes
    assert!(validate_fee(-1000, 9, 0, 100, 500).is_ok());
    for fee in 9..200u64 {
        assert!(validate_fee(-1000, fee, 0, 100, 500).is_ok());
    }
}

#[test]
fn swap_checks_reject_a_non_negative_input_leg() {
    let (tree, config) = initialize_pool(3, 4, 0, [0u8; 32]).unwrap();
    let vk = verifying_key();
    let fee_recipient = [6u8; 32];
    let mint_in = [7u8; 32];
    let mint_out = [8u8; 32];
    let encrypted: Vec<u8> = vec![4];
    let routing: Vec<u8> = vec![1];
    let minified = SwapExtDataMinified { ext_amount: 5, ext_min_amount_out: 3, fee: 0 };

    let calculated = zert::utils::calculate_swap_ext_data_hash(
        5, 3, &encrypted, 0, &fee_recipient, &mint_in, &mint_out,
    );
    let mut proof = sample_proof(tree.roots[tree.root_index]);
    proof.ext_data_hash = bound_hash(calculated);
    assert_eq!(
        process_swap_checks(
            &tree, &config, &proof, minified, &encrypted, &fee_recipient, &mint_in, &mint_out,
            &vk, &routing,
        ),
        Err(ErrorCode::InvalidExtAmount)
    );
}

#[test]
fn swap_settlement_applies_atomically() {
    let (mut tree, _) = initialize_pool(3, 4, 0, [0u8; 32]).unwrap();
    let mut registry = NullifierRegistry::new();
    let proof = sample_proof(tree.roots[tree.root_index]);
    let encrypted: Vec<u8> = vec![5, 6];

    // the exchange must not shrink the reserve
    assert_eq!(
        process_swap_settle(&mut tree, &mut registry, &proof, 100, 50, 40, &encrypted),
        Err(ErrorCode::MathOverflow)
    );
    // the realized output must cover the declared minimum
    assert_eq!(
        process_swap_settle(&mut tree, &mut registry, &proof, 100, 50, 149, &encrypted),
        Err(ErrorCode::InsufficientSwapOutput)
    );
    assert_eq!(tree.next_index, 0);

    // an admitted settlement: the surplus over the minimum is the fee
    let (record, fee) =
        process_swap_settle(&mut tree, &mut registry, &proof, 100, 50, 160, &encrypted).unwrap();
    assert_eq!(fee, 10);
    assert_eq!(record.index, 0);
    assert_eq!(record.commitment0, proof.output_commitments[0]);
    assert_eq!(record.commitment1, proof.output_commitments[1]);
    assert_eq!(record.encrypted_output, encrypted);
    assert_eq!(tree.next_index, 2);
    assert!(tree.is_known_root(&tree.roots[tree.root_index].clone()));
    assert!(registry.contains(&proof.input_nullifiers[0]));
    assert!(registry.contains(&proof.input_nullifiers[1]));

    // double spend: the same nullifiers cannot settle twice
    assert_eq!(
        process_swap_settle(&mut tree, &mut registry, &proof, 100, 50, 160, &encrypted),
        Err(ErrorCode::NullifierAlreadyUsed)
    );
    assert_eq!(tree.next_index, 2);
}

#[test]
fn end_to_end_scenario() {
    // height 3, root history 4
    let (mut tree, _) = initialize_pool(3, 4, 1_000_000, [0u8; 32]).unwrap();
    // append two commitments
    tree.append(leaf(41)).unwrap();
    tree.append(leaf(42)).unwrap();
    assert_eq!(tree.next_index, 2);
    // the current root appears in history, so a proof presenting it
    // passes the root check
    let current = tree.roots[tree.root_index];
    assert!(tree.is_known_root(&current));
    // a deposit with rate 0 passes the fee check trivially
    assert!(validate_fee(1000, 25, 0, 100, 500).is_ok());
    // a withdrawal of 1000 at 1% with margin 5%: expected 10, minimum 9,
    // a fee of 8 is rejected
    assert_eq!(
        validate_fee(-1000, 8, 0, 100, 500),
        Err(ErrorCode::InvalidFeeAmount)
    );
}
