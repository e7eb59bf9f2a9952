//! The transaction validator: deposit, withdrawal and swap flows.
//!
//! Each flow runs the same fixed pipeline — root freshness, auxiliary-data
//! hash binding, balance equation, fee policy, proof verification — and
//! only then touches state: both input nullifiers are consumed and both
//! output commitments appended as one atomic unit, so a rejected
//! transaction leaves the pool exactly as it found it.  Cheap format
//! checks run before the expensive pairing check, and nullifiers are
//! consumed only after the proof has verified, so an invalid proof can
//! never burn a nullifier.

use vstd::prelude::*;

verus! {

use vstd::arithmetic::power2::pow2;
use crate::errors::ErrorCode;
use crate::field::{be_val, le_val, scalar_order, is_canonical_be, is_canonical32, is_zero32,
    zero32, reduce_be_scalar, reduce_le_scalar, u256_eq};
use crate::groth16::{Groth16Verifyingkey, groth16_verify_spec};
use crate::merkle_tree::tree_view_append;
use crate::state::{GlobalConfig, MerkleTreeAccount, NullifierRegistry, TreeView};
use crate::types::{CommitmentData, ExtData, ExtDataMinified, Proof, SwapExtData, SwapExtDataMinified};
use crate::utils::{
    calculate_complete_ext_data_hash, calculate_swap_ext_data_hash, check_public_amount,
    ext_data_bytes, swap_ext_data_bytes, public_amount_ok, public_amount_value,
    public_inputs_order, required_min_fee, sha256_of, validate_fee, verify_proof,
};

/// The two sides of the binding check agree as field elements: the
/// little-endian reduction of the computed hash equals the big-endian
/// reduction of the hash bound into the proof.
pub open spec fn binding_ok(calculated: Seq<u8>, bound: Seq<u8>) -> bool {
    le_val(calculated) % scalar_order() == be_val(bound) % scalar_order()
}

/// Both output commitments are canonical field elements; anything else is
/// a structurally malformed proof.
pub open spec fn commitments_canonical(proof: Proof) -> bool {
    is_canonical_be(proof.output_commitments@[0]@) && is_canonical_be(
        proof.output_commitments@[1]@,
    )
}

/// The two input nullifiers are fresh and distinct.
pub open spec fn nullifiers_fresh(registry: NullifierRegistry, proof: Proof) -> bool {
    &&& !registry.is_spent(proof.input_nullifiers@[0]@)
    &&& !registry.is_spent(proof.input_nullifiers@[1]@)
    &&& proof.input_nullifiers@[0]@ != proof.input_nullifiers@[1]@
}

/// Room for the two output commitments.
pub open spec fn capacity_for_two(tree: MerkleTreeAccount) -> bool {
    tree@.next_index + 2 <= pow2(tree@.height)
}

/// The full decision of the deposit flow, in its fixed order.  The first
/// failed check names the error; a transaction passing them all is
/// admitted.
pub open spec fn deposit_decision(
    tree: MerkleTreeAccount,
    registry: NullifierRegistry,
    config: GlobalConfig,
    proof: Proof,
    ext: ExtData,
    encrypted_output: Seq<u8>,
    mint: [u8; 32],
    vk: Groth16Verifyingkey,
) -> Result<(), ErrorCode> {
    if !tree.known_root(proof.root@) {
        Err(ErrorCode::UnknownRoot)
    } else if !binding_ok(
        sha256_of(
            ext_data_bytes(
                ext.recipient@,
                ext.ext_amount,
                encrypted_output,
                ext.fee,
                ext.fee_recipient@,
                mint@,
                mint@,
            ),
        ),
        proof.ext_data_hash@,
    ) {
        Err(ErrorCode::ExtDataHashMismatch)
    } else if !(public_amount_ok(ext.ext_amount, ext.fee) && public_amount_value(
        ext.ext_amount,
        ext.fee,
    ) == be_val(proof.public_amount0@) % scalar_order()) {
        Err(ErrorCode::InvalidPublicAmountData)
    } else if proof.public_amount1@ != zero32() {
        Err(ErrorCode::InvalidPublicAmountData)
    } else if ext.ext_amount == i64::MIN {
        Err(ErrorCode::ArithmeticOverflow)
    } else if ext.fee < required_min_fee(
        ext.ext_amount as int,
        config.deposit_fee_rate,
        config.withdrawal_fee_rate,
        config.fee_error_margin,
    ) {
        Err(ErrorCode::InvalidFeeAmount)
    } else if !commitments_canonical(proof) {
        Err(ErrorCode::InvalidProof)
    } else if !groth16_verify_spec(
        proof.proof_a,
        proof.proof_b,
        proof.proof_c,
        public_inputs_order(proof, mint, mint),
        vk,
    ) {
        Err(ErrorCode::InvalidProof)
    } else if !(ext.ext_amount > 0) {
        Err(ErrorCode::InvalidExtAmount)
    } else if ext.ext_amount > tree.max_deposit_amount {
        Err(ErrorCode::DepositLimitExceeded)
    } else if !nullifiers_fresh(registry, proof) {
        Err(ErrorCode::NullifierAlreadyUsed)
    } else if !capacity_for_two(tree) {
        Err(ErrorCode::MerkleTreeFull)
    } else {
        Ok(())
    }
}

/// Root aging reaches the validator: when the pool has run at least
/// `root_history_size` further appends since a proof's root was current,
/// and none of them reproduced that root, the deposit decision is exactly
/// `UnknownRoot` — a stale proof to rebuild, not an invalid one.
pub proof fn lemma_aged_root_is_rejected_as_unknown(
    tree: MerkleTreeAccount,
    registry: NullifierRegistry,
    config: GlobalConfig,
    proof: Proof,
    ext: ExtData,
    encrypted_output: Seq<u8>,
    mint: [u8; 32],
    vk: Groth16Verifyingkey,
    earlier: TreeView,
    appended: Seq<[u8; 32]>,
)
    requires
        crate::merkle_tree::tree_ring_wf(earlier),
        appended.len() >= earlier.root_history_size,
        tree@ == crate::merkle_tree::tree_view_append_all(earlier, appended),
        forall|k: int|
            0 <= k < appended.len()
                ==> #[trigger] crate::merkle_tree::appended_roots(earlier, appended)[k]@
                != proof.root@,
    ensures
        deposit_decision(tree, registry, config, proof, ext, encrypted_output, mint, vk)
            == Err::<(), ErrorCode>(ErrorCode::UnknownRoot),
{
    crate::merkle_tree::lemma_stale_root_forgotten(earlier, appended, proof.root@);
    let after = crate::merkle_tree::tree_view_append_all(earlier, appended);
    assert(tree.roots@ == after.roots);
    assert(!tree.known_root(proof.root@)) by {
        if tree.known_root(proof.root@) {
            let i = choose|i: int|
                0 <= i < tree.roots@.len() && #[trigger] tree.roots@[i]@ == proof.root@;
            assert(after.roots[i]@ == proof.root@);
        }
    }
}

/// Consumes both nullifiers and appends both commitments, atomically.
///
/// Callers have already admitted the transaction; this helper performs the
/// state mutation shared by every flow and returns the output record.
fn commit_transaction(
    tree: &mut MerkleTreeAccount,
    registry: &mut NullifierRegistry,
    proof: &Proof,
    encrypted_output: &Vec<u8>,
) -> (r: CommitmentData)
    requires
        old(tree).wf(),
        commitments_canonical(*proof),
        nullifiers_fresh(*old(registry), *proof),
        capacity_for_two(*old(tree)),
    ensures
        final(tree).wf(),
        final(tree)@ == tree_view_append(
            tree_view_append(old(tree)@, proof.output_commitments@[0]),
            proof.output_commitments@[1],
        ),
        final(registry).spent() == old(registry).spent().insert(
            proof.input_nullifiers@[0]@,
        ).insert(proof.input_nullifiers@[1]@),
        r.index == old(tree)@.next_index,
        r.commitment0 == proof.output_commitments@[0],
        r.commitment1 == proof.output_commitments@[1],
        r.encrypted_output@ == encrypted_output@,
{
    let consumed0 = registry.consume(&proof.input_nullifiers[0]);
    proof {
        assert(consumed0 is Ok);
    }
    let consumed1 = registry.consume(&proof.input_nullifiers[1]);
    proof {
        assert(consumed1 is Ok);
    }
    let next_index_to_insert = tree.next_index;
    let appended0 = tree.append(proof.output_commitments[0]);
    proof {
        assert(appended0 is Ok);
    }
    let appended1 = tree.append(proof.output_commitments[1]);
    proof {
        assert(appended1 is Ok);
    }
    let mut encrypted: Vec<u8> = Vec::new();
    crate::field::push_bytes(&mut encrypted, encrypted_output.as_slice());
    CommitmentData {
        index: next_index_to_insert,
        commitment0: proof.output_commitments[0],
        commitment1: proof.output_commitments[1],
        encrypted_output: encrypted,
    }
}

/// Checks the binding of the computed auxiliary-data hash against the one
/// in the proof, as reduced field elements.
fn binding_matches(calculated: &[u8; 32], bound: &[u8; 32]) -> (r: bool)
    ensures
        r == binding_ok(calculated@, bound@),
{
    let lhs = reduce_le_scalar(calculated);
    let rhs = reduce_be_scalar(bound);
    u256_eq(&lhs, &rhs)
}

/// Admits or rejects a deposit and, when admitted, applies it: both
/// nullifiers consumed, both commitments appended, and the output record
/// returned for the caller to emit.  On any rejection the pool state is
/// untouched and the error is the decision's.
pub fn process_deposit(
    tree: &mut MerkleTreeAccount,
    registry: &mut NullifierRegistry,
    config: &GlobalConfig,
    proof: &Proof,
    ext_data_minified: ExtDataMinified,
    encrypted_output: &Vec<u8>,
    reserve: &[u8; 32],
    fee_recipient: &[u8; 32],
    mint: &[u8; 32],
    vk: &Groth16Verifyingkey,
) -> (r: Result<CommitmentData, ErrorCode>)
    requires
        old(tree).wf(),
        config.wf(),
        encrypted_output@.len() <= u32::MAX,
    ensures
        final(tree).wf(),
        ({
            let ext = ExtData {
                recipient: *reserve,
                ext_amount: ext_data_minified.ext_amount,
                fee: ext_data_minified.fee,
                fee_recipient: *fee_recipient,
            };
            let decision = deposit_decision(
                *old(tree),
                *old(registry),
                *config,
                *proof,
                ext,
                encrypted_output@,
                *mint,
                *vk,
            );
            &&& (r is Ok <==> decision is Ok)
            &&& r is Err ==> r == Result::<CommitmentData, ErrorCode>::Err(decision->Err_0)
                && *final(tree) == *old(tree) && *final(registry) == *old(registry)
            &&& r is Ok ==> ({
                &&& final(tree)@ == tree_view_append(
                    tree_view_append(old(tree)@, proof.output_commitments@[0]),
                    proof.output_commitments@[1],
                )
                &&& final(registry).spent() == old(registry).spent().insert(
                    proof.input_nullifiers@[0]@,
                ).insert(proof.input_nullifiers@[1]@)
                &&& r->Ok_0.index == old(tree)@.next_index
                &&& r->Ok_0.commitment0 == proof.output_commitments@[0]
                &&& r->Ok_0.commitment1 == proof.output_commitments@[1]
                &&& r->Ok_0.encrypted_output@ == encrypted_output@
            })
        }),
{
    let ext_data = ExtData::from_minified(reserve, fee_recipient, ext_data_minified);

    // root freshness
    if !tree.is_known_root(&proof.root) {
        return Err(ErrorCode::UnknownRoot);
    }
    // auxiliary-data hash binding
    let calculated_ext_data_hash = calculate_complete_ext_data_hash(
        &ext_data.recipient,
        ext_data.ext_amount,
        encrypted_output,
        ext_data.fee,
        &ext_data.fee_recipient,
        mint,
        mint,
    );
    if !binding_matches(&calculated_ext_data_hash, &proof.ext_data_hash) {
        return Err(ErrorCode::ExtDataHashMismatch);
    }
    // balance equation on the first public amount; the second must be zero
    if !check_public_amount(ext_data.ext_amount, ext_data.fee, proof.public_amount0) {
        return Err(ErrorCode::InvalidPublicAmountData);
    }
    if !is_zero32(&proof.public_amount1) {
        return Err(ErrorCode::InvalidPublicAmountData);
    }
    // fee policy
    if let Err(code) = validate_fee(
        ext_data.ext_amount,
        ext_data.fee,
        config.deposit_fee_rate,
        config.withdrawal_fee_rate,
        config.fee_error_margin,
    ) {
        return Err(code);
    }
    // proof verification: commitments that do not encode field elements
    // are structurally malformed, the same opaque failure as a bad proof
    if !(is_canonical32(&proof.output_commitments[0]) && is_canonical32(
        &proof.output_commitments[1],
    )) {
        return Err(ErrorCode::InvalidProof);
    }
    if !verify_proof(proof, vk, mint, mint) {
        return Err(ErrorCode::InvalidProof);
    }
    if !(ext_data.ext_amount > 0) {
        return Err(ErrorCode::InvalidExtAmount);
    }
    let deposit_amount = ext_data.ext_amount as u64;
    if deposit_amount > tree.max_deposit_amount {
        return Err(ErrorCode::DepositLimitExceeded);
    }
    // nullifiers only burn once the proof has verified
    if registry.contains(&proof.input_nullifiers[0]) || registry.contains(
        &proof.input_nullifiers[1],
    ) || crate::field::bytes32_eq(&proof.input_nullifiers[0], &proof.input_nullifiers[1]) {
        return Err(ErrorCode::NullifierAlreadyUsed);
    }
    // room for both commitments, so the two appends form one atomic unit
    let capacity = crate::merkle_tree::pow2_u64(tree.height);
    if tree.next_index >= capacity || tree.next_index + 1 >= capacity {
        return Err(ErrorCode::MerkleTreeFull);
    }
    Ok(commit_transaction(tree, registry, proof, encrypted_output))
}

/// The full decision of the withdrawal flow, in its fixed order.  The
/// second balance slot must be exactly zero, and the recipient token
/// account must be owned by the relayer when unwrapping the native token,
/// by the recipient otherwise.
pub open spec fn withdraw_decision(
    tree: MerkleTreeAccount,
    registry: NullifierRegistry,
    config: GlobalConfig,
    proof: Proof,
    ext: ExtData,
    encrypted_output: Seq<u8>,
    mint: [u8; 32],
    vk: Groth16Verifyingkey,
    reserve_balance: u64,
    is_native_mint: bool,
    recipient_token_owner: [u8; 32],
    relayer: [u8; 32],
) -> Result<(), ErrorCode> {
    if !tree.known_root(proof.root@) {
        Err(ErrorCode::UnknownRoot)
    } else if !binding_ok(
        sha256_of(
            ext_data_bytes(
                ext.recipient@,
                ext.ext_amount,
                encrypted_output,
                ext.fee,
                ext.fee_recipient@,
                mint@,
                mint@,
            ),
        ),
        proof.ext_data_hash@,
    ) {
        Err(ErrorCode::ExtDataHashMismatch)
    } else if !(public_amount_ok(ext.ext_amount, ext.fee) && public_amount_value(
        ext.ext_amount,
        ext.fee,
    ) == be_val(proof.public_amount0@) % scalar_order()) {
        Err(ErrorCode::InvalidPublicAmountData)
    } else if proof.public_amount1@ != zero32() {
        Err(ErrorCode::InvalidPublicAmountData)
    } else if ext.ext_amount == i64::MIN {
        Err(ErrorCode::ArithmeticOverflow)
    } else if ext.fee < required_min_fee(
        ext.ext_amount as int,
        config.deposit_fee_rate,
        config.withdrawal_fee_rate,
        config.fee_error_margin,
    ) {
        Err(ErrorCode::InvalidFeeAmount)
    } else if !commitments_canonical(proof) {
        Err(ErrorCode::InvalidProof)
    } else if !groth16_verify_spec(
        proof.proof_a,
        proof.proof_b,
        proof.proof_c,
        public_inputs_order(proof, mint, mint),
        vk,
    ) {
        Err(ErrorCode::InvalidProof)
    } else if !(ext.ext_amount < 0) {
        Err(ErrorCode::InvalidExtAmount)
    } else if (reserve_balance as int) < -(ext.ext_amount as int) {
        Err(ErrorCode::InsufficientFundsForWithdrawal)
    } else if (if is_native_mint {
        recipient_token_owner != relayer
    } else {
        recipient_token_owner != ext.recipient
    }) {
        Err(ErrorCode::Unauthorized)
    } else if !nullifiers_fresh(registry, proof) {
        Err(ErrorCode::NullifierAlreadyUsed)
    } else if !capacity_for_two(tree) {
        Err(ErrorCode::MerkleTreeFull)
    } else {
        Ok(())
    }
}

/// Admits or rejects a withdrawal and, when admitted, applies it.  The
/// returned amount is what the reserve must pay out; the caller performs
/// the transfers and emits the record.  On rejection nothing changes.
pub fn process_withdraw(
    tree: &mut MerkleTreeAccount,
    registry: &mut NullifierRegistry,
    config: &GlobalConfig,
    proof: &Proof,
    ext_data_minified: ExtDataMinified,
    encrypted_output: &Vec<u8>,
    recipient: &[u8; 32],
    fee_recipient: &[u8; 32],
    mint: &[u8; 32],
    vk: &Groth16Verifyingkey,
    reserve_balance: u64,
    is_native_mint: bool,
    recipient_token_owner: &[u8; 32],
    relayer: &[u8; 32],
) -> (r: Result<(CommitmentData, u64), ErrorCode>)
    requires
        old(tree).wf(),
        config.wf(),
        encrypted_output@.len() <= u32::MAX,
    ensures
        final(tree).wf(),
        ({
            let ext = ExtData {
                recipient: *recipient,
                ext_amount: ext_data_minified.ext_amount,
                fee: ext_data_minified.fee,
                fee_recipient: *fee_recipient,
            };
            let decision = withdraw_decision(
                *old(tree),
                *old(registry),
                *config,
                *proof,
                ext,
                encrypted_output@,
                *mint,
                *vk,
                reserve_balance,
                is_native_mint,
                *recipient_token_owner,
                *relayer,
            );
            &&& (r is Ok <==> decision is Ok)
            &&& r is Err ==> r == Result::<(CommitmentData, u64), ErrorCode>::Err(decision->Err_0)
                && *final(tree) == *old(tree) && *final(registry) == *old(registry)
            &&& r is Ok ==> ({
                &&& final(tree)@ == tree_view_append(
                    tree_view_append(old(tree)@, proof.output_commitments@[0]),
                    proof.output_commitments@[1],
                )
                &&& final(registry).spent() == old(registry).spent().insert(
                    proof.input_nullifiers@[0]@,
                ).insert(proof.input_nullifiers@[1]@)
                &&& r->Ok_0.0.index == old(tree)@.next_index
                &&& r->Ok_0.0.commitment0 == proof.output_commitments@[0]
                &&& r->Ok_0.0.commitment1 == proof.output_commitments@[1]
                &&& r->Ok_0.0.encrypted_output@ == encrypted_output@
                &&& r->Ok_0.1 as int == -(ext_data_minified.ext_amount as int)
            })
        }),
{
    let ext_data = ExtData::from_minified(recipient, fee_recipient, ext_data_minified);

    // root freshness
    if !tree.is_known_root(&proof.root) {
        return Err(ErrorCode::UnknownRoot);
    }
    // auxiliary-data hash binding
    let calculated_ext_data_hash = calculate_complete_ext_data_hash(
        &ext_data.recipient,
        ext_data.ext_amount,
        encrypted_output,
        ext_data.fee,
        &ext_data.fee_recipient,
        mint,
        mint,
    );
    if !binding_matches(&calculated_ext_data_hash, &proof.ext_data_hash) {
        return Err(ErrorCode::ExtDataHashMismatch);
    }
    // balance equation on the first public amount; the second must be zero
    if !check_public_amount(ext_data.ext_amount, ext_data.fee, proof.public_amount0) {
        return Err(ErrorCode::InvalidPublicAmountData);
    }
    if !is_zero32(&proof.public_amount1) {
        return Err(ErrorCode::InvalidPublicAmountData);
    }
    // fee policy
    if let Err(code) = validate_fee(
        ext_data.ext_amount,
        ext_data.fee,
        config.deposit_fee_rate,
        config.withdrawal_fee_rate,
        config.fee_error_margin,
    ) {
        return Err(code);
    }
    // proof verification: commitments that do not encode field elements
    // are structurally malformed, the same opaque failure as a bad proof
    if !(is_canonical32(&proof.output_commitments[0]) && is_canonical32(
        &proof.output_commitments[1],
    )) {
        return Err(ErrorCode::InvalidProof);
    }
    if !verify_proof(proof, vk, mint, mint) {
        return Err(ErrorCode::InvalidProof);
    }
    if !(ext_data.ext_amount < 0) {
        return Err(ErrorCode::InvalidExtAmount);
    }
    let withdrawal_amount = (-ext_data.ext_amount) as u64;
    if reserve_balance < withdrawal_amount {
        return Err(ErrorCode::InsufficientFundsForWithdrawal);
    }
    // the unwrap path pays through the relayer, the direct path pays the
    // recipient: the recipient token account must belong to that payee
    let owner_ok = if is_native_mint {
        crate::field::bytes32_eq(recipient_token_owner, relayer)
    } else {
        crate::field::bytes32_eq(recipient_token_owner, &ext_data.recipient)
    };
    proof {
        if recipient_token_owner@ == relayer@ {
            assert(*recipient_token_owner =~= *relayer);
        }
        if recipient_token_owner@ == ext_data.recipient@ {
            assert(*recipient_token_owner =~= ext_data.recipient);
        }
    }
    if !owner_ok {
        return Err(ErrorCode::Unauthorized);
    }
    // nullifiers only burn once the proof has verified
    if registry.contains(&proof.input_nullifiers[0]) || registry.contains(
        &proof.input_nullifiers[1],
    ) || crate::field::bytes32_eq(&proof.input_nullifiers[0], &proof.input_nullifiers[1]) {
        return Err(ErrorCode::NullifierAlreadyUsed);
    }
    // room for both commitments, so the two appends form one atomic unit
    let capacity = crate::merkle_tree::pow2_u64(tree.height);
    if tree.next_index >= capacity || tree.next_index + 1 >= capacity {
        return Err(ErrorCode::MerkleTreeFull);
    }
    let record = commit_transaction(tree, registry, proof, encrypted_output);
    Ok((record, withdrawal_amount))
}

/// The full decision of the swap flow's validation phase, in its fixed
/// order.  A swap burns a note of the input asset and mints one of the
/// output asset: the first balance slot carries the (negative) input leg
/// with its fee — checked at the withdrawal rate, as for any negative
/// amount — and the second the declared minimum output with no fee.
pub open spec fn swap_decision(
    tree: MerkleTreeAccount,
    config: GlobalConfig,
    proof: Proof,
    ext: SwapExtData,
    encrypted_output: Seq<u8>,
    mint_in: [u8; 32],
    mint_out: [u8; 32],
    vk: Groth16Verifyingkey,
    routing_data_len: nat,
) -> Result<(), ErrorCode> {
    if !tree.known_root(proof.root@) {
        Err(ErrorCode::UnknownRoot)
    } else if !binding_ok(
        sha256_of(
            swap_ext_data_bytes(
                ext.ext_amount,
                ext.ext_min_amount_out,
                encrypted_output,
                ext.fee,
                ext.fee_recipient@,
                mint_in@,
                mint_out@,
            ),
        ),
        proof.ext_data_hash@,
    ) {
        Err(ErrorCode::ExtDataHashMismatch)
    } else if !(ext.ext_amount < 0) {
        Err(ErrorCode::InvalidExtAmount)
    } else if !(ext.ext_min_amount_out >= 0) {
        Err(ErrorCode::InvalidExtAmount)
    } else if !(public_amount_ok(ext.ext_amount, ext.fee) && public_amount_value(
        ext.ext_amount,
        ext.fee,
    ) == be_val(proof.public_amount0@) % scalar_order()) {
        Err(ErrorCode::InvalidPublicAmountData)
    } else if !(public_amount_ok(ext.ext_min_amount_out, 0) && public_amount_value(
        ext.ext_min_amount_out,
        0,
    ) == be_val(proof.public_amount1@) % scalar_order()) {
        Err(ErrorCode::InvalidPublicAmountData)
    } else if ext.ext_amount == i64::MIN {
        Err(ErrorCode::ArithmeticOverflow)
    } else if ext.fee < required_min_fee(
        ext.ext_amount as int,
        config.deposit_fee_rate,
        config.withdrawal_fee_rate,
        config.fee_error_margin,
    ) {
        Err(ErrorCode::InvalidFeeAmount)
    } else if !commitments_canonical(proof) {
        Err(ErrorCode::InvalidProof)
    } else if !groth16_verify_spec(
        proof.proof_a,
        proof.proof_b,
        proof.proof_c,
        public_inputs_order(proof, mint_in, mint_out),
        vk,
    ) {
        Err(ErrorCode::InvalidProof)
    } else if routing_data_len == 0 {
        Err(ErrorCode::InvalidJupiterSwapData)
    } else {
        Ok(())
    }
}

/// Validates a swap before the external exchange runs.
///
/// Read-only: the swap mutates the pool only in the settlement phase,
/// after the exchange's realized output is known.
pub fn process_swap_checks(
    tree: &MerkleTreeAccount,
    config: &GlobalConfig,
    proof: &Proof,
    ext_data_minified: SwapExtDataMinified,
    encrypted_output: &Vec<u8>,
    fee_recipient: &[u8; 32],
    mint_in: &[u8; 32],
    mint_out: &[u8; 32],
    vk: &Groth16Verifyingkey,
    jupiter_swap_data: &Vec<u8>,
) -> (r: Result<(), ErrorCode>)
    requires
        tree.wf(),
        config.wf(),
        encrypted_output@.len() <= u32::MAX,
    ensures
        r == swap_decision(
            *tree,
            *config,
            *proof,
            SwapExtData {
                ext_amount: ext_data_minified.ext_amount,
                ext_min_amount_out: ext_data_minified.ext_min_amount_out,
                fee: ext_data_minified.fee,
                fee_recipient: *fee_recipient,
            },
            encrypted_output@,
            *mint_in,
            *mint_out,
            *vk,
            jupiter_swap_data@.len(),
        ),
{
    let ext_data = SwapExtData::from_minified(fee_recipient, ext_data_minified);

    // root freshness
    if !tree.is_known_root(&proof.root) {
        return Err(ErrorCode::UnknownRoot);
    }
    // auxiliary-data hash binding, over both asset identities
    let calculated_ext_data_hash = calculate_swap_ext_data_hash(
        ext_data.ext_amount,
        ext_data.ext_min_amount_out,
        encrypted_output,
        ext_data.fee,
        &ext_data.fee_recipient,
        mint_in,
        mint_out,
    );
    if !binding_matches(&calculated_ext_data_hash, &proof.ext_data_hash) {
        return Err(ErrorCode::ExtDataHashMismatch);
    }
    // a swap burns value on the input leg and declares a minimum output
    if !(ext_data.ext_amount < 0) {
        return Err(ErrorCode::InvalidExtAmount);
    }
    if !(ext_data.ext_min_amount_out >= 0) {
        return Err(ErrorCode::InvalidExtAmount);
    }
    // balance equations: input leg with fee, output leg with zero fee
    if !check_public_amount(ext_data.ext_amount, ext_data.fee, proof.public_amount0) {
        return Err(ErrorCode::InvalidPublicAmountData);
    }
    if !check_public_amount(ext_data.ext_min_amount_out, 0, proof.public_amount1) {
        return Err(ErrorCode::InvalidPublicAmountData);
    }
    // fee policy: the input leg is negative, so the withdrawal rate applies
    if let Err(code) = validate_fee(
        ext_data.ext_amount,
        ext_data.fee,
        config.deposit_fee_rate,
        config.withdrawal_fee_rate,
        config.fee_error_margin,
    ) {
        return Err(code);
    }
    // proof verification: commitments that do not encode field elements
    // are structurally malformed, the same opaque failure as a bad proof
    if !(is_canonical32(&proof.output_commitments[0]) && is_canonical32(
        &proof.output_commitments[1],
    )) {
        return Err(ErrorCode::InvalidProof);
    }
    if !verify_proof(proof, vk, mint_in, mint_out) {
        return Err(ErrorCode::InvalidProof);
    }
    if jupiter_swap_data.len() == 0 {
        return Err(ErrorCode::InvalidJupiterSwapData);
    }
    Ok(())
}

/// The settlement decision once the exchange has run: the realized output
/// is what the reserve gained; it must cover the declared minimum, and
/// the whole surplus is taken as the variable fee.
pub open spec fn swap_settle_decision(
    tree: MerkleTreeAccount,
    registry: NullifierRegistry,
    proof: Proof,
    ext_min_amount_out: i64,
    balance_before: u64,
    balance_after: u64,
) -> Result<u64, ErrorCode> {
    if ext_min_amount_out < 0 {
        Err(ErrorCode::InvalidExtAmount)
    } else if balance_after < balance_before {
        Err(ErrorCode::MathOverflow)
    } else if balance_after - balance_before < ext_min_amount_out {
        Err(ErrorCode::InsufficientSwapOutput)
    } else if !commitments_canonical(proof) {
        Err(ErrorCode::InvalidProof)
    } else if !nullifiers_fresh(registry, proof) {
        Err(ErrorCode::NullifierAlreadyUsed)
    } else if !capacity_for_two(tree) {
        Err(ErrorCode::MerkleTreeFull)
    } else {
        Ok((balance_after - balance_before - ext_min_amount_out) as u64)
    }
}

/// Settles an admitted swap after the external exchange: checks the
/// realized output against the declared minimum, consumes the nullifiers,
/// appends the commitments, and returns the record together with the
/// surplus taken as fee.  On rejection nothing changes.
pub fn process_swap_settle(
    tree: &mut MerkleTreeAccount,
    registry: &mut NullifierRegistry,
    proof: &Proof,
    ext_min_amount_out: i64,
    balance_before: u64,
    balance_after: u64,
    encrypted_output: &Vec<u8>,
) -> (r: Result<(CommitmentData, u64), ErrorCode>)
    requires
        old(tree).wf(),
    ensures
        final(tree).wf(),
        ({
            let decision = swap_settle_decision(
                *old(tree),
                *old(registry),
                *proof,
                ext_min_amount_out,
                balance_before,
                balance_after,
            );
            &&& (r is Ok <==> decision is Ok)
            &&& r is Err ==> r == Result::<(CommitmentData, u64), ErrorCode>::Err(decision->Err_0)
                && *final(tree) == *old(tree) && *final(registry) == *old(registry)
            &&& r is Ok ==> ({
                &&& final(tree)@ == tree_view_append(
                    tree_view_append(old(tree)@, proof.output_commitments@[0]),
                    proof.output_commitments@[1],
                )
                &&& final(registry).spent() == old(registry).spent().insert(
                    proof.input_nullifiers@[0]@,
                ).insert(proof.input_nullifiers@[1]@)
                &&& r->Ok_0.0.index == old(tree)@.next_index
                &&& r->Ok_0.0.commitment0 == proof.output_commitments@[0]
                &&& r->Ok_0.0.commitment1 == proof.output_commitments@[1]
                &&& r->Ok_0.0.encrypted_output@ == encrypted_output@
                &&& r->Ok_0.1 == decision->Ok_0
            })
        }),
{
    if ext_min_amount_out < 0 {
        return Err(ErrorCode::InvalidExtAmount);
    }
    let min_amount = ext_min_amount_out as u64;
    // what the exchange actually delivered to the reserve
    let actual_amount_received = match balance_after.checked_sub(balance_before) {
        Some(v) => v,
        None => {
            return Err(ErrorCode::MathOverflow);
        },
    };
    // the surplus over the declared minimum becomes the variable fee
    let calculated_fee = match actual_amount_received.checked_sub(min_amount) {
        Some(v) => v,
        None => {
            return Err(ErrorCode::InsufficientSwapOutput);
        },
    };
    if !(is_canonical32(&proof.output_commitments[0]) && is_canonical32(
        &proof.output_commitments[1],
    )) {
        return Err(ErrorCode::InvalidProof);
    }
    if registry.contains(&proof.input_nullifiers[0]) || registry.contains(
        &proof.input_nullifiers[1],
    ) || crate::field::bytes32_eq(&proof.input_nullifiers[0], &proof.input_nullifiers[1]) {
        return Err(ErrorCode::NullifierAlreadyUsed);
    }
    let capacity = crate::merkle_tree::pow2_u64(tree.height);
    if tree.next_index >= capacity || tree.next_index + 1 >= capacity {
        return Err(ErrorCode::MerkleTreeFull);
    }
    let record = commit_transaction(tree, registry, proof, encrypted_output);
    Ok((record, calculated_fee))
}

/// Creates a fresh pool: an empty tree of the given height and history
/// capacity with the given deposit cap, and the default fee policy, both
/// owned by `authority`.
pub fn initialize_pool(
    height: usize,
    root_history_size: usize,
    deposit_limit: u64,
    authority: [u8; 32],
) -> (r: Result<(MerkleTreeAccount, GlobalConfig), ErrorCode>)
    ensures
        r is Ok <==> (1 <= height <= crate::state::MAX_TREE_HEIGHT && 1 <= root_history_size
            <= crate::state::MAX_ROOT_HISTORY_SIZE),
        r is Err ==> r == Result::<(MerkleTreeAccount, GlobalConfig), ErrorCode>::Err(
            ErrorCode::InvalidTreeParameters,
        ),
        r matches Ok(p) ==> ({
            &&& p.0.wf()
            &&& p.0@.height == height
            &&& p.0@.root_history_size == root_history_size
            &&& p.0@.next_index == 0
            &&& p.0@.root_index == 0
            &&& p.0@.authority == authority
            &&& p.0@.max_deposit_amount == deposit_limit
            &&& p.0@.roots.len() == 1
            &&& p.1.wf()
            &&& p.1.authority == authority
            &&& p.1.deposit_fee_rate == 0
            &&& p.1.withdrawal_fee_rate == 25
            &&& p.1.fee_error_margin == 500
        }),
{
    let tree = match MerkleTreeAccount::initialize(
        height,
        root_history_size,
        authority,
        deposit_limit,
    ) {
        Ok(t) => t,
        Err(code) => {
            return Err(code);
        },
    };
    let config = GlobalConfig::new(authority);
    Ok((tree, config))
}

/// Replaces the maximum single-deposit amount; everything else of the
/// tree is untouched.
pub fn update_deposit_limit(tree: &mut MerkleTreeAccount, new_limit: u64)
    requires
        old(tree).wf(),
    ensures
        final(tree).wf(),
        final(tree)@ == (TreeView { max_deposit_amount: new_limit, ..old(tree)@ }),
{
    tree.max_deposit_amount = new_limit;
    proof {
        assert(tree@ =~= (TreeView { max_deposit_amount: new_limit, ..old(tree)@ }));
    }
}

} // verus!
