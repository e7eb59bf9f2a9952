//! Fee-policy floor checks across deposits, withdrawals and edge amounts.

use zert::utils::validate_fee;

#[test]
fn test_validate_fee_deposit_exact_minimum() {
    // Test deposit with exact minimum fee
    // 1000 * 25 / 10000 = 2.5 -> 2 (rounded down)
    // minimum = 2 * 95% = 1.9 -> 1 (rounded down)
    let result = validate_fee(
        1000, // ext_amount (deposit)
        1,    // provided_fee (exact minimum)
        0,    // deposit_fee_rate (0% - free deposits)
        25,   // withdrawal_fee_rate (0.25%)
        500,  // error_rate (5%)
    );
    assert!(result.is_ok());
}

#[test]
fn test_validate_fee_deposit_above_minimum() {
    // Test deposit with fee above minimum
    let result = validate_fee(
        1000, // ext_amount (deposit)
        10,   // provided_fee (well above minimum)
        0,    // deposit_fee_rate (0% - free deposits)
        25,   // withdrawal_fee_rate (0.25%)
        500,  // error_rate (5%)
    );
    assert!(result.is_ok());
}

#[test]
fn test_validate_fee_deposit_below_minimum() {
    // Test that deposits with 0% fee rate accept any fee >= 0
    // Since deposits are free, any fee should be acceptable
    // 10000 * 0 / 10000 = 0 (expected fee)
    // minimum = 0 * 95% = 0 (minimum acceptable fee)
    let result = validate_fee(
        10000, // ext_amount (deposit)
        0,     // provided_fee (even 0 is acceptable for free deposits)
        0,     // deposit_fee_rate (0% - free deposits)
        25,    // withdrawal_fee_rate (0.25%)
        500,   // error_rate (5%)
    );
    assert!(result.is_ok()); // Should pass since deposits are free
}

#[test]
fn test_validate_fee_withdrawal_zero_rate() {
    // Test withdrawal with 0% fee rate
    let result = validate_fee(
        -1000, // ext_amount (withdrawal)
        5,     // provided_fee (any amount is fine since expected is 0)
        25,    // deposit_fee_rate
        0,     // withdrawal_fee_rate (0%)
        500,   // error_rate (5%)
    );
    assert!(result.is_ok());
}

#[test]
fn test_validate_fee_withdrawal_with_rate() {
    // Test withdrawal with non-zero fee rate
    // 1000 * 50 / 10000 = 5
    // minimum = 5 * 95% = 4.75 -> 4 (rounded down)
    let result = validate_fee(
        -1000, // ext_amount (withdrawal)
        4,     // provided_fee (exact minimum)
        25,    // deposit_fee_rate
        50,    // withdrawal_fee_rate (0.5%)
        500,   // error_rate (5%)
    );
    assert!(result.is_ok());
}

#[test]
fn test_validate_fee_withdrawal_below_minimum() {
    // Test withdrawal with fee below minimum
    // 1000 * 100 / 10000 = 10
    // minimum = 10 * 95% = 9.5 -> 9 (rounded down)
    let result = validate_fee(
        -1000, // ext_amount (withdrawal)
        8,     // provided_fee (below minimum of 9)
        25,    // deposit_fee_rate
        100,   // withdrawal_fee_rate (1%)
        500,   // error_rate (5%)
    );
    assert!(result.is_err());
    match result {
        Err(e) => {
            assert!(format!("{:?}", e).contains("InvalidFeeAmount"));
        }
        Ok(_) => panic!("Expected error but got Ok"),
    }
}

#[test]
fn test_validate_fee_zero_amount() {
    // Test with zero ext_amount (should always pass)
    let result = validate_fee(
        0,   // ext_amount (neither deposit nor withdrawal)
        100, // provided_fee
        25,  // deposit_fee_rate
        50,  // withdrawal_fee_rate
        500, // error_rate
    );
    assert!(result.is_ok());
}

#[test]
fn test_validate_fee_small_deposit_zero_expected() {
    // Test very small deposit that results in 0 expected fee
    // 1 * 25 / 10000 = 0.0025 -> 0 (rounded down)
    let result = validate_fee(
        1,   // ext_amount (very small deposit)
        0,   // provided_fee (0 is acceptable when expected is 0)
        25,  // deposit_fee_rate (0.25%)
        0,   // withdrawal_fee_rate
        500, // error_rate (5%)
    );
    assert!(result.is_ok());
}

#[test]
fn test_validate_fee_high_fee_error_margin() {
    // Test with high fee error margin (50%)
    // 1000 * 25 / 10000 = 2.5 -> 2
    // minimum = 2 * 50% = 1
    let result = validate_fee(
        1000, // ext_amount (deposit)
        1,    // provided_fee (minimum with 50% fee error margin)
        25,   // deposit_fee_rate (0.25%)
        0,    // withdrawal_fee_rate
        5000, // fee_error_margin (50%)
    );
    assert!(result.is_ok());
}

#[test]
fn test_validate_fee_overflow_protection() {
    // Test that we don't overflow with large amounts
    // Use a large but safe value that won't cause overflow during multiplication
    let result = validate_fee(
        1_000_000_000, // ext_amount (1 billion, large but safe)
        1000000,       // provided_fee
        1,             // deposit_fee_rate (small rate to avoid overflow)
        0,             // withdrawal_fee_rate
        500,           // error_rate (5%)
    );
    assert!(result.is_ok());
}

#[test]
fn test_validate_fee_edge_case_min_withdrawal() {
    // Test edge case with minimum negative value (but not i64::MIN)
    let result = validate_fee(
        -1,  // ext_amount (smallest withdrawal)
        0,   // provided_fee
        25,  // deposit_fee_rate
        0,   // withdrawal_fee_rate (0%, so any fee is fine)
        500, // error_rate (5%)
    );
    assert!(result.is_ok());
}

#[test]
fn test_validate_fee_arithmetic_overflow_detection() {
    // Test that arithmetic overflow is properly detected and handled
    // Using maximum values that would cause overflow in the multiplication
    let result = validate_fee(
        i64::MAX, // ext_amount (maximum positive value)
        0,        // provided_fee
        10000,    // deposit_fee_rate (100% - maximum rate)
        0,        // withdrawal_fee_rate
        0,        // fee_error_margin (0% to test exact calculation)
    );
    // This should return an error (either arithmetic overflow or invalid fee amount)
    assert!(result.is_err());
}

#[test]
fn test_validate_fee_most_negative_amount_overflows() {
    // The most negative amount cannot be negated: a distinct arithmetic error
    let result = validate_fee(i64::MIN, 0, 25, 25, 500);
    assert_eq!(result, Err(zert::ErrorCode::ArithmeticOverflow));
}
