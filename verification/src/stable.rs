//! Stable-swap pricing.
//!
//! The stable curve keeps a sum-dominant invariant near the peg and a
//! product-dominant one away from it, tuned by an amplification
//! coefficient.  Solving the invariant has no closed form: both the
//! invariant `D` and the post-trade balance `Y` are found by a Newton
//! iteration run to a tolerance of one unit, bounded by a fixed round
//! count.  The spec functions below mirror the iteration exactly, so the
//! executable solver is proved to return precisely the value the
//! iteration defines, `ConvergenceFailure` when the rounds run out, and
//! `ArithmeticOverflow` when a step leaves 128-bit range.

use vstd::prelude::*;
use vstd::arithmetic::div_mod::lemma_div_pos_is_pos;
use crate::errors::PoolError;

verus! {

/// Newton rounds granted to either solve before it is declared failed.
pub const STABLE_SOLVE_ROUNDS: u32 = 32;

/// How an executable `Result` over `u128` realizes a spec-level `Result`
/// over unbounded integers.
pub open spec fn quote_matches(r: Result<u128, PoolError>, s: Result<int, PoolError>) -> bool {
    match r {
        Ok(v) => s == Ok::<int, PoolError>(v as int),
        Err(e) => s == Err::<int, PoolError>(e),
    }
}

/// One Newton step of the invariant solve:
/// `d' = (ann*sum + 2*(d^3/(4xy))) * d / ((ann-1)*d + 3*(d^3/(4xy)))`,
/// with every intermediate checked against 128-bit range.
pub open spec fn d_step_spec(x: int, y: int, ann: int, sum: int, d: int) -> Result<int, PoolError> {
    if d * d > u128::MAX {
        Err(PoolError::ArithmeticOverflow)
    } else if 2 * x > u128::MAX || 2 * y > u128::MAX {
        Err(PoolError::ArithmeticOverflow)
    } else {
        let dp1 = d * d / (2 * x);
        if dp1 * d > u128::MAX {
            Err(PoolError::ArithmeticOverflow)
        } else {
            let dp = dp1 * d / (2 * y);
            if ann * sum > u128::MAX || 2 * dp > u128::MAX || ann * sum + 2 * dp > u128::MAX {
                Err(PoolError::ArithmeticOverflow)
            } else if (ann * sum + 2 * dp) * d > u128::MAX {
                Err(PoolError::ArithmeticOverflow)
            } else if (ann - 1) * d > u128::MAX || 3 * dp > u128::MAX || (ann - 1) * d + 3 * dp
                > u128::MAX {
                Err(PoolError::ArithmeticOverflow)
            } else if (ann - 1) * d + 3 * dp == 0 {
                Err(PoolError::ConvergenceFailure)
            } else {
                Ok((ann * sum + 2 * dp) * d / ((ann - 1) * d + 3 * dp))
            }
        }
    }
}

/// Runs the invariant solve for `rounds` more steps, stopping when two
/// consecutive iterates differ by at most one unit.
pub open spec fn d_loop_spec(x: int, y: int, ann: int, sum: int, d: int, rounds: nat) -> Result<
    int,
    PoolError,
>
    decreases rounds,
{
    if rounds == 0 {
        Err(PoolError::ConvergenceFailure)
    } else {
        match d_step_spec(x, y, ann, sum, d) {
            Err(e) => Err(e),
            Ok(d_next) => if -1 <= d_next - d <= 1 {
                Ok(d_next)
            } else {
                d_loop_spec(x, y, ann, sum, d_next, (rounds - 1) as nat)
            },
        }
    }
}

/// The invariant `D` of reserves `(x, y)` under amplification `ann`,
/// found by Newton iteration seeded with the plain sum.
pub open spec fn compute_d_spec(x: int, y: int, ann: int) -> Result<int, PoolError> {
    if x + y > u128::MAX {
        Err(PoolError::ArithmeticOverflow)
    } else {
        d_loop_spec(x, y, ann, x + y, x + y, STABLE_SOLVE_ROUNDS as nat)
    }
}

/// One Newton step of the balance solve: `y' = (y^2 + c) / (2y + b - d)`,
/// with every intermediate checked against 128-bit range.  A collapsed
/// denominator means the iteration cannot make progress.
pub open spec fn y_step_spec(c: int, b: int, d: int, y: int) -> Result<int, PoolError> {
    if y * y > u128::MAX || y * y + c > u128::MAX {
        Err(PoolError::ArithmeticOverflow)
    } else if 2 * y > u128::MAX || 2 * y + b > u128::MAX {
        Err(PoolError::ArithmeticOverflow)
    } else if 2 * y + b <= d {
        Err(PoolError::ConvergenceFailure)
    } else {
        Ok((y * y + c) / (2 * y + b - d))
    }
}

/// Runs the balance solve for `rounds` more steps, stopping when two
/// consecutive iterates differ by at most one unit.
pub open spec fn y_loop_spec(c: int, b: int, d: int, y: int, rounds: nat) -> Result<int, PoolError>
    decreases rounds,
{
    if rounds == 0 {
        Err(PoolError::ConvergenceFailure)
    } else {
        match y_step_spec(c, b, d, y) {
            Err(e) => Err(e),
            Ok(y_next) => if -1 <= y_next - y <= 1 {
                Ok(y_next)
            } else {
                y_loop_spec(c, b, d, y_next, (rounds - 1) as nat)
            },
        }
    }
}

/// The balance the out-side reserve must fall to when the in-side reserve
/// becomes `x2` and the invariant is `d`: Newton iteration seeded with
/// `d`, on coefficients `c = d^3 / (4 x2 ann)` and `b = x2 + d / ann`.
pub open spec fn compute_y_spec(x2: int, d: int, ann: int) -> Result<int, PoolError> {
    if d * d > u128::MAX || 2 * x2 > u128::MAX {
        Err(PoolError::ArithmeticOverflow)
    } else {
        let c1 = d * d / (2 * x2);
        if c1 * d > u128::MAX {
            Err(PoolError::ArithmeticOverflow)
        } else {
            let c = c1 * d / (2 * ann);
            if x2 + d / ann > u128::MAX {
                Err(PoolError::ArithmeticOverflow)
            } else {
                y_loop_spec(c, x2 + d / ann, d, d, STABLE_SOLVE_ROUNDS as nat)
            }
        }
    }
}

/// The gross stable-curve output for `a2` units after trade fees, against
/// reserves `(rin, rout)` and amplification coefficient `amp`.
pub open spec fn stable_out_spec(a2: int, rin: int, rout: int, amp: int) -> Result<
    int,
    PoolError,
> {
    if amp == 0 {
        Err(PoolError::InvalidCurveParameters)
    } else {
        match compute_d_spec(rin, rout, amp * 4) {
            Err(e) => Err(e),
            Ok(d) => if rin + a2 > u128::MAX {
                Err(PoolError::ArithmeticOverflow)
            } else {
                match compute_y_spec(rin + a2, d, amp * 4) {
                    Err(e) => Err(e),
                    Ok(y) => Ok(
                        if rout > y {
                            rout - y
                        } else {
                            0
                        },
                    ),
                }
            },
        }
    }
}

/// Multiplies two 128-bit amounts, reporting whether the product fits.
pub(crate) fn checked_mul_u128(a: u128, b: u128) -> (r: Option<u128>)
    ensures
        match r {
            Some(v) => v == a * b && a * b <= u128::MAX,
            None => a * b > u128::MAX,
        },
{
    if a == 0 {
        proof {
            assert(a * b == 0) by (nonlinear_arith)
                requires
                    a == 0,
            ;
        }
        Some(0)
    } else if b > u128::MAX / a {
        proof {
            crate::math::lemma_mul_div_order_exceeded(b as int, a as int, u128::MAX as int);
        }
        None
    } else {
        proof {
            crate::math::lemma_mul_div_order_kept(b as int, a as int, u128::MAX as int);
        }
        Some(a * b)
    }
}

/// Adds two 128-bit amounts, reporting whether the sum fits.
pub(crate) fn checked_add_u128(a: u128, b: u128) -> (r: Option<u128>)
    ensures
        match r {
            Some(v) => v == a + b && a + b <= u128::MAX,
            None => a + b > u128::MAX,
        },
{
    if a > u128::MAX - b {
        None
    } else {
        Some(a + b)
    }
}

/// One executable Newton step of the invariant solve.
fn d_step(x: u128, y: u128, ann: u128, sum: u128, d: u128) -> (r: Result<u128, PoolError>)
    requires
        x >= 1,
        y >= 1,
        ann >= 1,
    ensures
        quote_matches(r, d_step_spec(x as int, y as int, ann as int, sum as int, d as int)),
{
    let dd = match checked_mul_u128(d, d) {
        Some(v) => v,
        None => {
            return Err(PoolError::ArithmeticOverflow);
        },
    };
    let two_x = match checked_mul_u128(2, x) {
        Some(v) => v,
        None => {
            return Err(PoolError::ArithmeticOverflow);
        },
    };
    let two_y = match checked_mul_u128(2, y) {
        Some(v) => v,
        None => {
            return Err(PoolError::ArithmeticOverflow);
        },
    };
    let dp1 = dd / two_x;
    let dp1d = match checked_mul_u128(dp1, d) {
        Some(v) => v,
        None => {
            return Err(PoolError::ArithmeticOverflow);
        },
    };
    let dp = dp1d / two_y;
    let lead = match checked_mul_u128(ann, sum) {
        Some(v) => v,
        None => {
            return Err(PoolError::ArithmeticOverflow);
        },
    };
    let two_dp = match checked_mul_u128(2, dp) {
        Some(v) => v,
        None => {
            return Err(PoolError::ArithmeticOverflow);
        },
    };
    let numer_base = match checked_add_u128(lead, two_dp) {
        Some(v) => v,
        None => {
            return Err(PoolError::ArithmeticOverflow);
        },
    };
    let numer = match checked_mul_u128(numer_base, d) {
        Some(v) => v,
        None => {
            return Err(PoolError::ArithmeticOverflow);
        },
    };
    let ann1d = match checked_mul_u128(ann - 1, d) {
        Some(v) => v,
        None => {
            return Err(PoolError::ArithmeticOverflow);
        },
    };
    let three_dp = match checked_mul_u128(3, dp) {
        Some(v) => v,
        None => {
            return Err(PoolError::ArithmeticOverflow);
        },
    };
    let denom = match checked_add_u128(ann1d, three_dp) {
        Some(v) => v,
        None => {
            return Err(PoolError::ArithmeticOverflow);
        },
    };
    if denom == 0 {
        return Err(PoolError::ConvergenceFailure);
    }
    Ok(numer / denom)
}

/// Runs the executable invariant solve for `rounds` more steps.
fn d_iterate(x: u128, y: u128, ann: u128, sum: u128, d: u128, rounds: u32) -> (r: Result<
    u128,
    PoolError,
>)
    requires
        x >= 1,
        y >= 1,
        ann >= 1,
    ensures
        quote_matches(
            r,
            d_loop_spec(x as int, y as int, ann as int, sum as int, d as int, rounds as nat),
        ),
    decreases rounds,
{
    if rounds == 0 {
        return Err(PoolError::ConvergenceFailure);
    }
    match d_step(x, y, ann, sum, d) {
        Err(e) => Err(e),
        Ok(d_next) => {
            let diff = if d_next > d {
                d_next - d
            } else {
                d - d_next
            };
            if diff <= 1 {
                Ok(d_next)
            } else {
                d_iterate(x, y, ann, sum, d_next, rounds - 1)
            }
        },
    }
}

/// Computes the stable invariant `D` for reserves `(x, y)`.
pub fn compute_d(x: u128, y: u128, ann: u128) -> (r: Result<u128, PoolError>)
    requires
        x >= 1,
        y >= 1,
        ann >= 1,
    ensures
        quote_matches(r, compute_d_spec(x as int, y as int, ann as int)),
{
    let sum = match checked_add_u128(x, y) {
        Some(v) => v,
        None => {
            return Err(PoolError::ArithmeticOverflow);
        },
    };
    d_iterate(x, y, ann, sum, sum, STABLE_SOLVE_ROUNDS)
}

/// One executable Newton step of the balance solve.
fn y_step(c: u128, b: u128, d: u128, y: u128) -> (r: Result<u128, PoolError>)
    ensures
        quote_matches(r, y_step_spec(c as int, b as int, d as int, y as int)),
{
    let yy = match checked_mul_u128(y, y) {
        Some(v) => v,
        None => {
            return Err(PoolError::ArithmeticOverflow);
        },
    };
    let numer = match checked_add_u128(yy, c) {
        Some(v) => v,
        None => {
            return Err(PoolError::ArithmeticOverflow);
        },
    };
    let two_y = match checked_mul_u128(2, y) {
        Some(v) => v,
        None => {
            return Err(PoolError::ArithmeticOverflow);
        },
    };
    let denom_lead = match checked_add_u128(two_y, b) {
        Some(v) => v,
        None => {
            return Err(PoolError::ArithmeticOverflow);
        },
    };
    if denom_lead <= d {
        return Err(PoolError::ConvergenceFailure);
    }
    Ok(numer / (denom_lead - d))
}

/// Runs the executable balance solve for `rounds` more steps.
fn y_iterate(c: u128, b: u128, d: u128, y: u128, rounds: u32) -> (r: Result<u128, PoolError>)
    ensures
        quote_matches(r, y_loop_spec(c as int, b as int, d as int, y as int, rounds as nat)),
    decreases rounds,
{
    if rounds == 0 {
        return Err(PoolError::ConvergenceFailure);
    }
    match y_step(c, b, d, y) {
        Err(e) => Err(e),
        Ok(y_next) => {
            let diff = if y_next > y {
                y_next - y
            } else {
                y - y_next
            };
            if diff <= 1 {
                Ok(y_next)
            } else {
                y_iterate(c, b, d, y_next, rounds - 1)
            }
        },
    }
}

/// Computes the post-trade out-side balance for in-side reserve `x2` and
/// invariant `d`.
pub fn compute_y(x2: u128, d: u128, ann: u128) -> (r: Result<u128, PoolError>)
    requires
        x2 >= 1,
        ann >= 1,
        2 * ann <= u128::MAX,
    ensures
        quote_matches(r, compute_y_spec(x2 as int, d as int, ann as int)),
{
    let dd = match checked_mul_u128(d, d) {
        Some(v) => v,
        None => {
            return Err(PoolError::ArithmeticOverflow);
        },
    };
    let two_x2 = match checked_mul_u128(2, x2) {
        Some(v) => v,
        None => {
            return Err(PoolError::ArithmeticOverflow);
        },
    };
    let c1 = dd / two_x2;
    let c1d = match checked_mul_u128(c1, d) {
        Some(v) => v,
        None => {
            return Err(PoolError::ArithmeticOverflow);
        },
    };
    let two_ann = 2 * ann;
    let c = c1d / two_ann;
    let b = match checked_add_u128(x2, d / ann) {
        Some(v) => v,
        None => {
            return Err(PoolError::ArithmeticOverflow);
        },
    };
    y_iterate(c, b, d, d, STABLE_SOLVE_ROUNDS)
}

/// The gross stable-curve output for `a2` input units (already net of
/// trade fees) against reserves `(rin, rout)`.
pub fn stable_quote(a2: u128, reserve_in: u128, reserve_out: u128, amp: u64) -> (r: Result<
    u128,
    PoolError,
>)
    requires
        reserve_in >= 1,
        reserve_out >= 1,
    ensures
        quote_matches(
            r,
            stable_out_spec(a2 as int, reserve_in as int, reserve_out as int, amp as int),
        ),
{
    if amp == 0 {
        return Err(PoolError::InvalidCurveParameters);
    }
    let ann = (amp as u128) * 4;
    let d = match compute_d(reserve_in, reserve_out, ann) {
        Ok(v) => v,
        Err(e) => {
            return Err(e);
        },
    };
    let x2 = match checked_add_u128(reserve_in, a2) {
        Some(v) => v,
        None => {
            return Err(PoolError::ArithmeticOverflow);
        },
    };
    let y = match compute_y(x2, d, ann) {
        Ok(v) => v,
        Err(e) => {
            return Err(e);
        },
    };
    if reserve_out > y {
        Ok(reserve_out - y)
    } else {
        Ok(0)
    }
}

/// The invariant solve never produces a negative iterate: every value
/// in the Newton sequence is a quotient of non-negative terms.
proof fn lemma_d_loop_nonneg(x: int, y: int, ann: int, sum: int, d: int, rounds: nat)
    requires
        x >= 1,
        y >= 1,
        ann >= 1,
        sum >= 0,
        d >= 0,
    ensures
        match d_loop_spec(x, y, ann, sum, d, rounds) {
            Ok(v) => v >= 0,
            Err(_) => true,
        },
    decreases rounds,
{
    if rounds == 0 {
    } else {
        match d_step_spec(x, y, ann, sum, d) {
            Err(_) => {},
            Ok(d_next) => {
                let dd = d * d;
                assert(dd >= 0) by (nonlinear_arith)
                    requires
                        dd == d * d,
                ;
                let dp1 = dd / (2 * x);
                lemma_div_pos_is_pos(dd, 2 * x);
                let ddp = dp1 * d;
                assert(ddp >= 0) by (nonlinear_arith)
                    requires
                        dp1 >= 0,
                        d >= 0,
                        ddp == dp1 * d,
                ;
                let dp = ddp / (2 * y);
                lemma_div_pos_is_pos(ddp, 2 * y);
                let lead = ann * sum;
                assert(lead >= 0) by (nonlinear_arith)
                    requires
                        ann >= 1,
                        sum >= 0,
                        lead == ann * sum,
                ;
                let numer = (lead + 2 * dp) * d;
                assert(numer >= 0) by (nonlinear_arith)
                    requires
                        lead >= 0,
                        dp >= 0,
                        d >= 0,
                        numer == (lead + 2 * dp) * d,
                ;
                let denom = (ann - 1) * d + 3 * dp;
                assert(denom >= 0) by (nonlinear_arith)
                    requires
                        ann >= 1,
                        d >= 0,
                        dp >= 0,
                        denom == (ann - 1) * d + 3 * dp,
                ;
                assert(denom != 0);
                lemma_div_pos_is_pos(numer, denom);
                assert(d_next >= 0);
                if -1 <= d_next - d <= 1 {
                } else {
                    lemma_d_loop_nonneg(x, y, ann, sum, d_next, (rounds - 1) as nat);
                }
            },
        }
    }
}

/// The balance solve never produces a negative iterate when its
/// constant coefficient is non-negative.
proof fn lemma_y_loop_nonneg(c: int, b: int, d: int, y: int, rounds: nat)
    requires
        c >= 0,
    ensures
        match y_loop_spec(c, b, d, y, rounds) {
            Ok(v) => v >= 0,
            Err(_) => true,
        },
    decreases rounds,
{
    if rounds == 0 {
    } else {
        match y_step_spec(c, b, d, y) {
            Err(_) => {},
            Ok(y_next) => {
                assert(y * y >= 0) by (nonlinear_arith);
                assert(2 * y + b - d > 0);
                lemma_div_pos_is_pos(y * y + c, 2 * y + b - d);
                if -1 <= y_next - y <= 1 {
                } else {
                    lemma_y_loop_nonneg(c, b, d, y_next, (rounds - 1) as nat);
                }
            },
        }
    }
}

/// A successful stable-curve quote lies between zero and the output
/// reserve.
pub proof fn lemma_stable_out_ok_range(a2: int, rin: int, rout: int, amp: int, v: int)
    requires
        stable_out_spec(a2, rin, rout, amp) == Ok::<int, PoolError>(v),
        0 <= a2,
        0 <= amp,
        1 <= rin,
        1 <= rout,
    ensures
        0 <= v <= rout,
{
    let ann = amp * 4;
    assert(amp != 0);
    assert(amp >= 1 && ann >= 4) by (nonlinear_arith)
        requires
            amp >= 1,
            ann == amp * 4,
    ;
    match compute_d_spec(rin, rout, ann) {
        Err(_) => {
            assert(false);
        },
        Ok(d) => {
            lemma_d_loop_nonneg(rin, rout, ann, rin + rout, rin + rout, STABLE_SOLVE_ROUNDS as nat);
            assert(d >= 0);
            let x2 = rin + a2;
            match compute_y_spec(x2, d, ann) {
                Err(_) => {
                    assert(false);
                },
                Ok(y) => {
                    let c1 = d * d / (2 * x2);
                    assert(d * d >= 0) by (nonlinear_arith);
                    assert(2 * x2 > 0);
                    assert(2 * x2 > 0);
                    lemma_div_pos_is_pos(d * d, 2 * x2);
                    assert(c1 * d >= 0) by (nonlinear_arith)
                        requires
                            c1 >= 0,
                            d >= 0,
                            c1 == d * d / (2 * x2),
                    ;
                    lemma_div_pos_is_pos(c1 * d, 2 * ann);
                    lemma_y_loop_nonneg(
                        c1 * d / (2 * ann),
                        x2 + d / ann,
                        d,
                        d,
                        STABLE_SOLVE_ROUNDS as nat,
                    );
                    assert(y >= 0);
                },
            }
        },
    }
}

} // verus!
