//! Pricing-curve arithmetic.
//!
//! Pure functions that convert an input amount into an output amount under
//! a venue's pricing law: the constant-product curve or the stable-swap
//! curve.  All arithmetic is unsigned 128-bit; an intermediate value that
//! would leave that range is reported as `ArithmeticOverflow` rather than
//! wrapped, since a wrapped amount could manufacture a false profit.

use vstd::prelude::*;
use vstd::arithmetic::div_mod::{
    lemma_fundamental_div_mod, lemma_div_is_ordered, lemma_div_is_ordered_by_denominator,
    lemma_div_multiples_vanish_fancy, lemma_hoist_over_denominator,
};
use vstd::arithmetic::mul::{lemma_mul_inequality, lemma_mul_is_commutative};
use crate::errors::PoolError;

verus! {

/// The fee schedule of an AMM venue: a trade fee taken from the input
/// amount and an optional owner fee taken from the gross output.
#[derive(Clone, Copy, Debug, PartialEq, Eq, Structural)]
pub struct Fees {
    pub trade_fee_numerator: u64,
    pub trade_fee_denominator: u64,
    pub owner_trade_fee_numerator: u64,
    pub owner_trade_fee_denominator: u64,
}

impl Fees {
    /// A schedule that charges nothing on either side.
    pub open spec fn is_zero(self) -> bool {
        self.trade_fee_numerator == 0 && self.owner_trade_fee_numerator == 0
    }
}

/// The pricing law a venue quotes under.
#[derive(Clone, Copy, Debug, PartialEq, Eq, Structural)]
pub enum CurveType {
    ConstantProduct,
    Stable,
}

/// The fee charged on `amount` by a `numerator / denominator` rate,
/// rounded down.  A zero numerator or denominator means no fee.
pub open spec fn fee_spec(amount: int, numerator: int, denominator: int) -> int {
    if numerator == 0 || denominator == 0 {
        0
    } else {
        amount * numerator / denominator
    }
}

/// Division rounded towards positive infinity (for positive divisors).
pub open spec fn div_ceil_spec(x: int, d: int) -> int {
    if x % d == 0 {
        x / d
    } else {
        x / d + 1
    }
}

/// The output of a constant-product swap of `a` against reserves
/// `(rin, rout)`, before fees: the pool keeps its invariant product,
/// rounding in its own favour.
pub open spec fn cp_out_spec(a: int, rin: int, rout: int) -> int {
    rout - div_ceil_spec(rin * rout, rin + a)
}

/// `floor(a*n/d)` splits into whole and fractional parts of `a`.
proof fn lemma_mul_div_decompose(a: int, n: int, d: int)
    requires
        0 <= a,
        0 <= n,
        0 < d,
    ensures
        a * n / d == (a / d) * n + (a % d) * n / d,
{
    let q = a / d;
    let r = a % d;
    lemma_fundamental_div_mod(a, d);
    assert(a == d * q + r);
    assert(a * n == (q * n) * d + r * n) by (nonlinear_arith)
        requires
            a == d * q + r,
    ;
    lemma_hoist_over_denominator(r * n, q * n, d as nat);
}

/// If `q > max / n` for positive `n`, then `q * n > max`.
pub(crate) proof fn lemma_mul_div_order_exceeded(q: int, n: int, max: int)
    requires
        0 < n,
        0 <= max,
        q > max / n,
    ensures
        q * n > max,
{
    lemma_fundamental_div_mod(max, n);
    assert(q * n >= (max / n + 1) * n) by (nonlinear_arith)
        requires
            q >= max / n + 1,
            n > 0,
    ;
    assert((max / n + 1) * n == (max / n) * n + n) by (nonlinear_arith);
    assert(max == n * (max / n) + max % n);
    assert(max % n < n) by {
        vstd::arithmetic::div_mod::lemma_mod_division_less_than_divisor(max, n);
    }
    assert((max / n) * n == n * (max / n)) by (nonlinear_arith);
}

/// If `q <= max / n` for positive `n`, then `q * n <= max`.
pub(crate) proof fn lemma_mul_div_order_kept(q: int, n: int, max: int)
    requires
        0 < n,
        0 <= max,
        0 <= q <= max / n,
    ensures
        q * n <= max,
{
    lemma_mul_inequality(q, max / n, n);
    lemma_fundamental_div_mod(max, n);
    assert(max % n >= 0) by {
        vstd::arithmetic::div_mod::lemma_mod_division_less_than_divisor(max, n);
    }
    assert((max / n) * n == n * (max / n)) by (nonlinear_arith);
}

/// The fee on `amount` at rate `fee_numerator / fee_denominator`, or
/// `ArithmeticOverflow` when the exact fee does not fit in 128 bits
/// (possible only for a rate above one).
pub fn calculate_fees(amount: u128, fee_numerator: u64, fee_denominator: u64) -> (r: Result<
    u128,
    PoolError,
>)
    ensures
        match r {
            Ok(v) => v == fee_spec(amount as int, fee_numerator as int, fee_denominator as int),
            Err(e) => {
                &&& e == PoolError::ArithmeticOverflow
                &&& fee_spec(amount as int, fee_numerator as int, fee_denominator as int)
                    > u128::MAX
            },
        },
{
    if fee_numerator == 0 || fee_denominator == 0 {
        return Ok(0);
    }
    let num = fee_numerator as u128;
    let den = fee_denominator as u128;
    let q = amount / den;
    let rem = amount % den;
    proof {
        lemma_mul_div_decompose(amount as int, num as int, den as int);
    }
    if q > u128::MAX / num {
        proof {
            lemma_mul_div_order_exceeded(q as int, num as int, u128::MAX as int);
            assert((rem as int * num as int) / (den as int) >= 0) by {
                lemma_div_is_ordered(0, rem as int * num as int, den as int);
                assert(0int / (den as int) == 0) by (nonlinear_arith)
                    requires
                        den >= 1,
                ;
            }
        }
        return Err(PoolError::ArithmeticOverflow);
    }
    proof {
        lemma_mul_div_order_kept(q as int, num as int, u128::MAX as int);
    }
    let part_whole = q * num;
    proof {
        assert(rem as int * num as int <= u128::MAX) by (nonlinear_arith)
            requires
                rem < den,
                den <= u64::MAX,
                num <= u64::MAX,
        ;
    }
    let part_frac = rem * num / den;
    proof {
        assert(part_frac as int <= rem as int * num as int / den as int);
    }
    if part_whole > u128::MAX - part_frac {
        return Err(PoolError::ArithmeticOverflow);
    }
    Ok(part_whole + part_frac)
}

/// For positive `x` and `d`, ceiling division is floor division of `x - 1`
/// plus one.
proof fn lemma_div_ceil_alt(x: int, d: int)
    requires
        1 <= x,
        1 <= d,
    ensures
        div_ceil_spec(x, d) == (x - 1) / d + 1,
{
    let q = x / d;
    let r = x % d;
    lemma_fundamental_div_mod(x, d);
    if r == 0 {
        assert(x - 1 == d * (q - 1) + (d - 1)) by (nonlinear_arith)
            requires
                x == d * q + r,
                r == 0,
        ;
        assert(q >= 1) by (nonlinear_arith)
            requires
                x == d * q,
                x >= 1,
                d >= 1,
        ;
        lemma_div_multiples_vanish_fancy(q - 1, d - 1, d);
    } else {
        assert(x - 1 == d * q + (r - 1)) by (nonlinear_arith)
            requires
                x == d * q + r,
        ;
        lemma_div_multiples_vanish_fancy(q, r - 1, d);
    }
}

/// Bounds of ceiling division: the result times the divisor covers `x`,
/// and is the least such multiple.
proof fn lemma_div_ceil_bounds(x: int, d: int)
    requires
        1 <= x,
        1 <= d,
    ensures
        d * div_ceil_spec(x, d) >= x,
        1 <= div_ceil_spec(x, d),
{
    let q = x / d;
    let r = x % d;
    lemma_fundamental_div_mod(x, d);
    assert(0 <= r < d) by {
        vstd::arithmetic::div_mod::lemma_mod_division_less_than_divisor(x, d);
    }
    assert(q >= 0) by {
        lemma_div_is_ordered(0, x, d);
        assert(0int / d == 0) by (nonlinear_arith)
            requires
                d >= 1,
        ;
    }
    if r == 0 {
        assert(d * q >= x);
        assert(q >= 1) by (nonlinear_arith)
            requires
                x == d * q,
                x >= 1,
                d >= 1,
        ;
    } else {
        assert(d * (q + 1) == d * q + d) by (nonlinear_arith);
    }
}

/// Ceiling division shrinks (or stays) as the divisor grows.
proof fn lemma_div_ceil_antimonotone(x: int, d1: int, d2: int)
    requires
        1 <= x,
        1 <= d1 <= d2,
    ensures
        div_ceil_spec(x, d2) <= div_ceil_spec(x, d1),
{
    lemma_div_ceil_alt(x, d1);
    lemma_div_ceil_alt(x, d2);
    lemma_div_is_ordered_by_denominator(x - 1, d1, d2);
}

/// For a divisor at least `rin`, the ceiling quotient of `rin * rout` is
/// at most `rout`.
proof fn lemma_div_ceil_le_factor(rin: int, rout: int, d: int)
    requires
        1 <= rin <= d,
        1 <= rout,
    ensures
        div_ceil_spec(rin * rout, d) <= rout,
{
    let k = rin * rout;
    assert(k >= 1) by (nonlinear_arith)
        requires
            rin >= 1,
            rout >= 1,
            k == rin * rout,
    ;
    lemma_div_ceil_alt(k, d);
    lemma_div_is_ordered_by_denominator(k - 1, rin, d);
    assert((k - 1) / rin <= rout - 1) by {
        assert(k - 1 <= rin * rout - 1);
        assert(rin * rout - 1 < rin * rout);
        assert((rin * rout - 1) / rin < rout || (rin * rout - 1) / rin <= rout - 1) by (
        nonlinear_arith)
            requires
                rin >= 1,
                rout >= 1,
        ;
        assert(rin * (rout - 1) + (rin - 1) == rin * rout - 1) by (nonlinear_arith);
        lemma_div_multiples_vanish_fancy(rout - 1, rin - 1, rin);
    }
}

/// The constant-product output is bounded by the output reserve and never
/// negative.
pub proof fn lemma_cp_out_bounds(a: int, rin: int, rout: int)
    requires
        0 <= a,
        1 <= rin,
        1 <= rout,
        rin + a <= u128::MAX,
        rin * rout <= u128::MAX,
    ensures
        0 <= cp_out_spec(a, rin, rout) < rout,
{
    let k = rin * rout;
    assert(k >= 1) by (nonlinear_arith)
        requires
            rin >= 1,
            rout >= 1,
            k == rin * rout,
    ;
    lemma_div_ceil_bounds(k, rin + a);
    lemma_div_ceil_le_factor(rin, rout, rin + a);
}

/// Quoting a larger amount against fixed reserves never returns less:
/// the constant-product law has no negative-slope region.
pub proof fn lemma_cp_out_monotone(a1: int, a2: int, rin: int, rout: int)
    requires
        0 <= a1 <= a2,
        1 <= rin,
        1 <= rout,
    ensures
        cp_out_spec(a1, rin, rout) <= cp_out_spec(a2, rin, rout),
{
    let k = rin * rout;
    assert(k >= 1) by (nonlinear_arith)
        requires
            rin >= 1,
            rout >= 1,
            k == rin * rout,
    ;
    lemma_div_ceil_antimonotone(k, rin + a1, rin + a2);
}

/// A fee-free round trip cannot create value: quoting `a` from A to B and
/// quoting the result back from B to A, against the same reserves, yields
/// at most `a`.
pub proof fn lemma_cp_out_round_trip(a: int, rin: int, rout: int)
    requires
        0 <= a,
        1 <= rin,
        1 <= rout,
    ensures
        cp_out_spec(cp_out_spec(a, rin, rout), rout, rin) <= a,
{
    let k = rin * rout;
    assert(k >= 1) by (nonlinear_arith)
        requires
            rin >= 1,
            rout >= 1,
            k == rin * rout,
    ;
    let c1 = div_ceil_spec(k, rin + a);
    let out1 = rout - c1;
    lemma_div_ceil_bounds(k, rin + a);
    lemma_div_ceil_le_factor(rin, rout, rin + a);
    // c1 * (rin + a) >= k, so rin * out1 <= a * c1.
    assert(rin * out1 <= a * c1) by (nonlinear_arith)
        requires
            (rin + a) * c1 >= rin * rout,
            out1 == rout - c1,
            0 <= a,
            1 <= rin,
    ;
    let k2 = rout * rin;
    lemma_mul_is_commutative(rin, rout);
    let c2 = div_ceil_spec(k2, rout + out1);
    lemma_div_ceil_bounds(k2, rout + out1);
    // c2 * (rout + out1) >= k and (rin - a - 1) * (rout + out1) < k force
    // c2 >= rin - a, hence rin - c2 <= a.
    assert((rin - a) * (rout + out1) <= k) by (nonlinear_arith)
        requires
            rin * out1 <= a * c1,
            c1 <= rout,
            out1 == rout - c1,
            k == rin * rout,
            0 <= a,
            1 <= rin,
            1 <= rout,
    ;
    assert(c2 >= rin - a) by (nonlinear_arith)
        requires
            (rout + out1) * c2 >= k,
            (rin - a) * (rout + out1) <= k,
            1 <= rout + out1,
            c2 >= 1,
    ;
}

/// Quotes a constant-product swap: the pool keeps the product of its
/// reserves invariant, rounding the kept side up.  Exact contract:
/// the result is `cp_out_spec` whenever the reserves are live and the
/// arithmetic fits in 128 bits, and the matching error otherwise.
pub fn constant_product_quote(amount_in: u128, reserve_in: u128, reserve_out: u128) -> (r: Result<
    u128,
    PoolError,
>)
    ensures
        reserve_in == 0 || reserve_out == 0 ==> r == Err::<u128, PoolError>(
            PoolError::InvalidCurveParameters,
        ),
        reserve_in > 0 && reserve_out > 0 && (reserve_in + amount_in > u128::MAX || reserve_in
            * reserve_out > u128::MAX) ==> r == Err::<u128, PoolError>(
            PoolError::ArithmeticOverflow,
        ),
        reserve_in > 0 && reserve_out > 0 && reserve_in + amount_in <= u128::MAX && reserve_in
            * reserve_out <= u128::MAX ==> {
            &&& r is Ok
            &&& r matches Ok(v) && v == cp_out_spec(
                amount_in as int,
                reserve_in as int,
                reserve_out as int,
            )
            &&& r matches Ok(v) && v < reserve_out
        },
{
    if reserve_in == 0 || reserve_out == 0 {
        return Err(PoolError::InvalidCurveParameters);
    }
    if amount_in > u128::MAX - reserve_in {
        return Err(PoolError::ArithmeticOverflow);
    }
    let new_in = reserve_in + amount_in;
    if reserve_out > u128::MAX / reserve_in {
        proof {
            lemma_mul_div_order_exceeded(reserve_out as int, reserve_in as int, u128::MAX as int);
            lemma_mul_is_commutative(reserve_in as int, reserve_out as int);
        }
        return Err(PoolError::ArithmeticOverflow);
    }
    proof {
        lemma_mul_div_order_kept(reserve_out as int, reserve_in as int, u128::MAX as int);
        lemma_mul_is_commutative(reserve_in as int, reserve_out as int);
    }
    let k = reserve_in * reserve_out;
    let q = k / new_in;
    let rem = k % new_in;
    let c = if rem == 0 {
        q
    } else {
        proof {
            assert(k >= 1) by (nonlinear_arith)
                requires
                    reserve_in >= 1,
                    reserve_out >= 1,
                    k == reserve_in as int * reserve_out as int,
            ;
            if new_in == 1 {
                assert(k as int % 1int == 0) by (nonlinear_arith);
            }
            lemma_div_is_ordered_by_denominator(k as int, 2, new_in as int);
            lemma_div_is_ordered(k as int, u128::MAX as int, 2);
        }
        q + 1
    };
    proof {
        assert(c == div_ceil_spec(k as int, new_in as int));
        lemma_cp_out_bounds(amount_in as int, reserve_in as int, reserve_out as int);
    }
    Ok(reserve_out - c)
}

/// The full quote of an AMM venue: the trade fee is deducted from the
/// input, the pricing law is applied to the remainder, and the owner fee
/// is deducted from the gross output.  A fee that would consume more than
/// what it is charged on marks the venue's parameters invalid.
pub open spec fn pool_quote_spec(
    amount: int,
    ctype: CurveType,
    amp: int,
    fees: Fees,
    rin: int,
    rout: int,
) -> Result<int, PoolError> {
    if rin == 0 || rout == 0 {
        Err(PoolError::InvalidCurveParameters)
    } else {
        let tf = fee_spec(amount, fees.trade_fee_numerator as int, fees.trade_fee_denominator as int);
        if tf > u128::MAX {
            Err(PoolError::ArithmeticOverflow)
        } else if tf > amount {
            Err(PoolError::InvalidCurveParameters)
        } else {
            let a2 = amount - tf;
            let gross_r = match ctype {
                CurveType::ConstantProduct => if rin + a2 > u128::MAX {
                    Err(PoolError::ArithmeticOverflow)
                } else if rin * rout > u128::MAX {
                    Err(PoolError::ArithmeticOverflow)
                } else {
                    Ok(cp_out_spec(a2, rin, rout))
                },
                CurveType::Stable => crate::stable::stable_out_spec(a2, rin, rout, amp),
            };
            match gross_r {
                Err(e) => Err(e),
                Ok(gross) => {
                    let of = fee_spec(
                        gross,
                        fees.owner_trade_fee_numerator as int,
                        fees.owner_trade_fee_denominator as int,
                    );
                    if of > u128::MAX {
                        Err(PoolError::ArithmeticOverflow)
                    } else if of > gross {
                        Err(PoolError::InvalidCurveParameters)
                    } else {
                        Ok(gross - of)
                    }
                },
            }
        }
    }
}

/// Quotes a swap through an AMM venue under the given pricing law, fee
/// schedule and reserves.  The result is exactly `pool_quote_spec`; on the
/// constant-product curve a successful quote is strictly below the output
/// reserve.
pub fn get_pool_quote_with_amounts(
    scaled_amount_in: u128,
    ctype: CurveType,
    amp: u64,
    fees: &Fees,
    pool_src_amount: u128,
    pool_dst_amount: u128,
) -> (r: Result<u128, PoolError>)
    ensures
        crate::stable::quote_matches(
            r,
            pool_quote_spec(
                scaled_amount_in as int,
                ctype,
                amp as int,
                *fees,
                pool_src_amount as int,
                pool_dst_amount as int,
            ),
        ),
        ctype == CurveType::ConstantProduct && r is Ok ==> (r matches Ok(v) && v
            < pool_dst_amount),
{
    if pool_src_amount == 0 || pool_dst_amount == 0 {
        return Err(PoolError::InvalidCurveParameters);
    }
    let tf = match calculate_fees(
        scaled_amount_in,
        fees.trade_fee_numerator,
        fees.trade_fee_denominator,
    ) {
        Ok(v) => v,
        Err(e) => {
            return Err(e);
        },
    };
    if tf > scaled_amount_in {
        return Err(PoolError::InvalidCurveParameters);
    }
    let a2 = scaled_amount_in - tf;
    let gross = match ctype {
        CurveType::ConstantProduct => {
            match constant_product_quote(a2, pool_src_amount, pool_dst_amount) {
                Ok(v) => v,
                Err(e) => {
                    return Err(e);
                },
            }
        },
        CurveType::Stable => {
            match crate::stable::stable_quote(a2, pool_src_amount, pool_dst_amount, amp) {
                Ok(v) => v,
                Err(e) => {
                    return Err(e);
                },
            }
        },
    };
    let of = match calculate_fees(
        gross,
        fees.owner_trade_fee_numerator,
        fees.owner_trade_fee_denominator,
    ) {
        Ok(v) => v,
        Err(e) => {
            return Err(e);
        },
    };
    if of > gross {
        return Err(PoolError::InvalidCurveParameters);
    }
    Ok(gross - of)
}

/// Deducting a sub-unit fee keeps order: the after-fee amount of a larger
/// input is at least that of a smaller one.
proof fn lemma_after_fee_monotone(a1: int, a2: int, n: int, d: int)
    requires
        0 <= a1 <= a2,
        0 <= n <= d,
    ensures
        a1 - fee_spec(a1, n, d) <= a2 - fee_spec(a2, n, d),
        fee_spec(a1, n, d) <= fee_spec(a2, n, d),
{
    if n == 0 || d == 0 {
    } else {
        assert(a1 * n <= a2 * n) by (nonlinear_arith)
            requires
                0 <= a1 <= a2,
                n >= 0,
        ;
        lemma_div_is_ordered(a1 * n, a2 * n, d);
        assert(a2 * n <= a1 * n + (a2 - a1) * d) by (nonlinear_arith)
            requires
                0 <= a1 <= a2,
                0 <= n <= d,
        ;
        lemma_div_is_ordered(a2 * n, a1 * n + (a2 - a1) * d, d);
        lemma_hoist_over_denominator(a1 * n, a2 - a1, d as nat);
    }
}

/// Monotonicity of the constant-product quote, fees included: against
/// fixed reserves, and for fee rates of at most one, quoting more in
/// never returns less out.
pub proof fn lemma_quote_monotone(
    a1: int,
    a2: int,
    amp: int,
    fees: Fees,
    rin: int,
    rout: int,
    v1: int,
    v2: int,
)
    requires
        0 <= a1 <= a2,
        1 <= rin,
        1 <= rout,
        fees.trade_fee_numerator <= fees.trade_fee_denominator,
        fees.owner_trade_fee_numerator <= fees.owner_trade_fee_denominator,
        pool_quote_spec(a1, CurveType::ConstantProduct, amp, fees, rin, rout) == Ok::<
            int,
            PoolError,
        >(v1),
        pool_quote_spec(a2, CurveType::ConstantProduct, amp, fees, rin, rout) == Ok::<
            int,
            PoolError,
        >(v2),
    ensures
        v1 <= v2,
{
    let tn = fees.trade_fee_numerator as int;
    let td = fees.trade_fee_denominator as int;
    let on = fees.owner_trade_fee_numerator as int;
    let od = fees.owner_trade_fee_denominator as int;
    lemma_after_fee_monotone(a1, a2, tn, td);
    let b1 = a1 - fee_spec(a1, tn, td);
    let b2 = a2 - fee_spec(a2, tn, td);
    lemma_cp_out_monotone(b1, b2, rin, rout);
    let g1 = cp_out_spec(b1, rin, rout);
    let g2 = cp_out_spec(b2, rin, rout);
    lemma_cp_out_bounds(b1, rin, rout);
    lemma_after_fee_monotone(g1, g2, on, od);
}

/// A fee-free round trip through a constant-product venue cannot create
/// value: quoting the first quote's output back, against the same
/// reserves, returns at most the original input.
pub proof fn lemma_quote_round_trip(
    a: int,
    amp: int,
    fees: Fees,
    rin: int,
    rout: int,
    v1: int,
    v2: int,
)
    requires
        0 <= a,
        1 <= rin,
        1 <= rout,
        fees.is_zero(),
        pool_quote_spec(a, CurveType::ConstantProduct, amp, fees, rin, rout) == Ok::<
            int,
            PoolError,
        >(v1),
        pool_quote_spec(v1, CurveType::ConstantProduct, amp, fees, rout, rin) == Ok::<
            int,
            PoolError,
        >(v2),
    ensures
        v2 <= a,
{
    assert(v1 == cp_out_spec(a, rin, rout));
    assert(v2 == cp_out_spec(v1, rout, rin));
    lemma_cp_out_round_trip(a, rin, rout);
}

/// A successful quote always fits the amount range: it is bounded by
/// the gross curve output, which the curve keeps within the output
/// reserve (constant product) or within 128 bits (stable).
pub proof fn lemma_pool_quote_ok_range(
    amount: int,
    ctype: CurveType,
    amp: int,
    fees: Fees,
    rin: int,
    rout: int,
    v: int,
)
    requires
        pool_quote_spec(amount, ctype, amp, fees, rin, rout) == Ok::<int, PoolError>(v),
        0 <= amount,
        0 <= amp,
        0 <= rin <= u128::MAX,
        0 <= rout <= u128::MAX,
    ensures
        0 <= v <= u128::MAX,
{
    let tf = fee_spec(amount, fees.trade_fee_numerator as int, fees.trade_fee_denominator as int);
    let a2 = amount - tf;
    match ctype {
        CurveType::ConstantProduct => {
            lemma_cp_out_bounds(a2, rin, rout);
        },
        CurveType::Stable => {
            crate::stable::lemma_stable_out_ok_range(
                a2,
                rin,
                rout,
                amp,
                match crate::stable::stable_out_spec(a2, rin, rout, amp) {
                    Ok(g) => g,
                    Err(_) => 0,
                },
            );
        },
    }
}

} // verus!
