use client_pool::errors::PoolError;
use client_pool::math::{get_pool_quote_with_amounts, CurveType, Fees};
use client_pool::stable::{compute_d, stable_quote};

fn zero_fees() -> Fees {
    Fees {
        trade_fee_numerator: 0,
        trade_fee_denominator: 0,
        owner_trade_fee_numerator: 0,
        owner_trade_fee_denominator: 0,
    }
}

#[test]
fn stable_balanced_pool_is_near_one_to_one() {
    // near the peg the stable curve trades almost 1:1
    assert_eq!(stable_quote(1000, 1_000_000, 1_000_000, 100), Ok(1000));
}

#[test]
fn stable_skewed_pool_exact_value() {
    assert_eq!(stable_quote(10_000, 2_000_000, 1_000_000, 85), Ok(9951));
}

#[test]
fn stable_zero_amp_is_invalid() {
    assert_eq!(
        stable_quote(1000, 1_000_000, 1_000_000, 0),
        Err(PoolError::InvalidCurveParameters)
    );
}

#[test]
fn stable_invariant_close_to_sum_when_balanced() {
    // for equal reserves the invariant equals the plain sum
    let d = compute_d(1_000_000, 1_000_000, 400).unwrap();
    assert_eq!(d, 2_000_000);
}

#[test]
fn stable_output_never_exceeds_reserve() {
    let out = stable_quote(u64::MAX as u128, 1_000_000, 900_000, 10).unwrap();
    assert!(out <= 900_000);
}

#[test]
fn pool_quote_dispatches_stable_curve() {
    let out = get_pool_quote_with_amounts(
        1000,
        CurveType::Stable,
        100,
        &zero_fees(),
        1_000_000,
        1_000_000,
    );
    assert_eq!(out, Ok(1000));
}

#[test]
fn stable_sum_overflow_reported() {
    assert_eq!(
        stable_quote(1, u128::MAX, 1, 100),
        Err(PoolError::ArithmeticOverflow)
    );
}

#[test]
fn stable_solver_can_fail_to_converge() {
    // a heavily imbalanced pool with the smallest amplification makes
    // the invariant solve oscillate past its round budget
    assert_eq!(
        stable_quote(0, 869_339_532_865, 83_085_953, 1),
        Err(PoolError::ConvergenceFailure)
    );
}
