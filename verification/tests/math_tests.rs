use client_pool::errors::PoolError;
use client_pool::math::{calculate_fees, constant_product_quote, get_pool_quote_with_amounts, CurveType, Fees};

fn zero_fees() -> Fees {
    Fees {
        trade_fee_numerator: 0,
        trade_fee_denominator: 0,
        owner_trade_fee_numerator: 0,
        owner_trade_fee_denominator: 0,
    }
}

#[test]
fn constant_product_exact_value() {
    // out = rout - ceil(rin*rout / (rin+a)); pool rounds in its own favour
    assert_eq!(constant_product_quote(1000, 10_000, 10_000), Ok(909));
}

#[test]
fn constant_product_zero_input_yields_zero() {
    assert_eq!(constant_product_quote(0, 5, 7), Ok(0));
}

#[test]
fn constant_product_output_below_reserve() {
    // even for an enormous input the output stays strictly below the
    // output reserve
    let out = constant_product_quote(u128::MAX / 2, 1, 10).unwrap();
    assert!(out < 10);
}

#[test]
fn constant_product_monotone_in_input() {
    let mut prev = 0u128;
    for a in [0u128, 1, 10, 1_000, 100_000, 10_000_000] {
        let out = constant_product_quote(a, 1_000_000_000, 5_000_000_000).unwrap();
        assert!(out >= prev);
        prev = out;
    }
}

#[test]
fn constant_product_zero_reserve_is_invalid() {
    assert_eq!(
        constant_product_quote(10, 0, 10),
        Err(PoolError::InvalidCurveParameters)
    );
    assert_eq!(
        constant_product_quote(10, 10, 0),
        Err(PoolError::InvalidCurveParameters)
    );
}

#[test]
fn constant_product_sum_overflow_reported() {
    assert_eq!(
        constant_product_quote(u128::MAX, 2, 3),
        Err(PoolError::ArithmeticOverflow)
    );
}

#[test]
fn constant_product_product_overflow_reported() {
    assert_eq!(
        constant_product_quote(1, u128::MAX / 2, 3),
        Err(PoolError::ArithmeticOverflow)
    );
}

#[test]
fn round_trip_without_fees_cannot_gain() {
    // quoting forward and back against fixed reserves returns at most
    // the original input
    let out1 = constant_product_quote(1_000_000, 1_000_000_000, 5_000_000_000).unwrap();
    assert_eq!(out1, 4_995_004);
    let out2 = constant_product_quote(out1, 5_000_000_000, 1_000_000_000).unwrap();
    assert_eq!(out2, 998_003);
    assert!(out2 <= 1_000_000);
}

#[test]
fn fee_exact_value() {
    assert_eq!(calculate_fees(1000, 25, 10_000), Ok(2));
}

#[test]
fn fee_zero_rate_is_zero() {
    assert_eq!(calculate_fees(123_456, 0, 10_000), Ok(0));
    assert_eq!(calculate_fees(123_456, 25, 0), Ok(0));
}

#[test]
fn fee_large_amount_exact() {
    assert_eq!(
        calculate_fees(100_000_000_000_000_000_000, 3, 1000),
        Ok(300_000_000_000_000_000)
    );
}

#[test]
fn fee_above_unit_rate_can_overflow() {
    assert_eq!(
        calculate_fees(u128::MAX, 2, 1),
        Err(PoolError::ArithmeticOverflow)
    );
}

#[test]
fn pool_quote_applies_trade_and_owner_fee() {
    let fees = Fees {
        trade_fee_numerator: 25,
        trade_fee_denominator: 10_000,
        owner_trade_fee_numerator: 5,
        owner_trade_fee_denominator: 10_000,
    };
    // trade fee 2500 leaves 997500; gross 598488; owner fee 299
    let out = get_pool_quote_with_amounts(
        1_000_000,
        CurveType::ConstantProduct,
        0,
        &fees,
        50_000_000_000,
        30_000_000_000,
    );
    assert_eq!(out, Ok(598_189));
}

#[test]
fn pool_quote_zero_fee_matches_curve() {
    let out = get_pool_quote_with_amounts(
        1000,
        CurveType::ConstantProduct,
        0,
        &zero_fees(),
        10_000,
        10_000,
    );
    assert_eq!(out, Ok(909));
}

#[test]
fn pool_quote_rejects_dead_reserves() {
    let out = get_pool_quote_with_amounts(
        1000,
        CurveType::ConstantProduct,
        0,
        &zero_fees(),
        0,
        10_000,
    );
    assert_eq!(out, Err(PoolError::InvalidCurveParameters));
}

#[test]
fn pool_quote_monotone_with_fees() {
    let fees = Fees {
        trade_fee_numerator: 25,
        trade_fee_denominator: 10_000,
        owner_trade_fee_numerator: 5,
        owner_trade_fee_denominator: 10_000,
    };
    let mut prev = 0u128;
    for a in [0u128, 1, 500, 10_000, 2_000_000, 800_000_000] {
        let out = get_pool_quote_with_amounts(
            a,
            CurveType::ConstantProduct,
            0,
            &fees,
            50_000_000_000,
            30_000_000_000,
        )
        .unwrap();
        assert!(out >= prev);
        prev = out;
    }
}
