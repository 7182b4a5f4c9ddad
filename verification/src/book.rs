//! Order-book matching.
//!
//! An order-book venue is quoted by walking a price-ordered snapshot of
//! the resting orders on the opposing side, filling the best order first.
//! The walk operates on a working copy taken at quoting time and never
//! touches live venue state, so repeated quotes are reproducible.  Each
//! call of an iteration step consumes at most one resting order, exactly
//! as much of it as the remaining budget allows.

use vstd::prelude::*;
use vstd::pervasive::VecAdditionalExecFns;
use vstd::arithmetic::div_mod::{lemma_fundamental_div_mod, lemma_div_is_ordered};
use crate::errors::PoolError;
use crate::math::fee_spec;

verus! {

/// The direction of a market order against a book: a bid spends quote
/// currency to buy base, an ask spends base to buy quote.
#[derive(Clone, Copy, Debug, PartialEq, Eq, Structural)]
pub enum Side {
    Bid,
    Ask,
}

/// A resting order in a book snapshot: a stable identifier, a price in
/// quote lots per base lot, and a quantity in base lots.
#[derive(Clone, Copy, Debug, PartialEq, Eq, Structural)]
pub struct Order {
    pub order_id: u64,
    pub price: u64,
    pub quantity: u64,
}

/// The taker fee schedule of an order-book venue, as a rate of at most
/// one: `taker_fee_numerator / taker_fee_denominator`.
#[derive(Clone, Copy, Debug, PartialEq, Eq, Structural)]
pub struct FeeTier {
    pub taker_fee_numerator: u64,
    pub taker_fee_denominator: u64,
}

/// Running state of a match: what is left of the order and what it has
/// bought so far.
#[derive(Clone, Copy, Debug, PartialEq, Eq, Structural)]
pub struct Iteration {
    pub amount_in: u64,
    pub amount_out: u64,
}

/// The largest budget whose fee-inclusive total stays within `amount`:
/// `amount * den / (den + num)`.
pub open spec fn remove_fee_spec(amount: int, num: int, den: int) -> int {
    amount * den / (den + num)
}

/// A usable book side: every resting order has a positive price and a
/// positive quantity.
pub open spec fn side_wf(s: Seq<Order>) -> bool {
    forall|i: int|
        0 <= i < s.len() ==> (#[trigger] s[i]).quantity >= 1 && s[i].price >= 1
}

/// Ask-side order: prices never decrease away from the front.
pub open spec fn side_prices_ascending(s: Seq<Order>) -> bool {
    forall|i: int, j: int| 0 <= i < j < s.len() ==> (#[trigger] s[i]).price <= (#[trigger] s[j]).price
}

/// Bid-side order: prices never increase away from the front.
pub open spec fn side_prices_descending(s: Seq<Order>) -> bool {
    forall|i: int, j: int| 0 <= i < j < s.len() ==> (#[trigger] s[i]).price >= (#[trigger] s[j]).price
}

/// Total resting quantity on a book side, in base lots.
pub open spec fn qty_sum(s: Seq<Order>) -> int
    decreases s.len(),
{
    if s.len() == 0 {
        0
    } else {
        s[0].quantity + qty_sum(s.drop_first())
    }
}

/// The smaller of two values.
pub open spec fn min2(a: int, b: int) -> int {
    if a < b {
        a
    } else {
        b
    }
}

impl FeeTier {
    /// A meaningful schedule: a positive denominator and a rate of at
    /// most one.
    pub open spec fn wf(self) -> bool {
        1 <= self.taker_fee_denominator && self.taker_fee_numerator <= self.taker_fee_denominator
    }

    /// The taker fee charged on a filled value.
    pub fn taker_fee(&self, pc_qty: u64) -> (r: u64)
        requires
            self.wf(),
        ensures
            r == fee_spec(
                pc_qty as int,
                self.taker_fee_numerator as int,
                self.taker_fee_denominator as int,
            ),
            r <= pc_qty,
    {
        let num = self.taker_fee_numerator as u128;
        let den = self.taker_fee_denominator as u128;
        proof {
            assert(pc_qty as int * num as int <= u128::MAX) by (nonlinear_arith)
                requires
                    0 <= pc_qty <= u64::MAX,
                    0 <= num <= u64::MAX,
            ;
        }
        let wide = (pc_qty as u128) * num;
        let f = wide / den;
        proof {
            assert(pc_qty as int * num as int <= pc_qty as int * den as int) by (nonlinear_arith)
                requires
                    num <= den,
                    pc_qty >= 0,
            ;
            lemma_div_is_ordered(pc_qty as int * num as int, pc_qty as int * den as int, den as int);
            assert((pc_qty as int * den as int) / (den as int) == pc_qty as int) by {
                vstd::arithmetic::div_mod::lemma_div_multiples_vanish(pc_qty as int, den as int);
                vstd::arithmetic::mul::lemma_mul_is_commutative(pc_qty as int, den as int);
            }
            if num == 0 {
                assert((0int * den as int) == 0) by (nonlinear_arith);
                assert(pc_qty as int * 0 == 0) by (nonlinear_arith);
                assert(0int / den as int == 0) by {
                    vstd::arithmetic::div_mod::lemma_div_multiples_vanish(0, den as int);
                    assert(den as int * 0 == 0) by (nonlinear_arith);
                }
            }
        }
        f as u64
    }

    /// The largest spend whose fill plus taker fee stays within `amount`.
    pub fn remove_taker_fee(&self, amount: u64) -> (r: u64)
        requires
            self.wf(),
        ensures
            r == remove_fee_spec(
                amount as int,
                self.taker_fee_numerator as int,
                self.taker_fee_denominator as int,
            ),
            r <= amount,
    {
        let num = self.taker_fee_numerator as u128;
        let den = self.taker_fee_denominator as u128;
        let total = den + num;
        proof {
            assert(amount as int * den as int <= u128::MAX) by (nonlinear_arith)
                requires
                    0 <= amount <= u64::MAX,
                    0 <= den <= u64::MAX,
            ;
        }
        let wide = (amount as u128) * den;
        let f = wide / total;
        proof {
            assert(amount as int * den as int <= amount as int * total as int) by (nonlinear_arith)
                requires
                    den <= total,
                    amount >= 0,
            ;
            lemma_div_is_ordered(amount as int * den as int, amount as int * total as int, total as int);
            assert((amount as int * total as int) / (total as int) == amount as int) by {
                vstd::arithmetic::div_mod::lemma_div_multiples_vanish(amount as int, total as int);
                vstd::arithmetic::mul::lemma_mul_is_commutative(amount as int, total as int);
            }
        }
        f as u64
    }
}

/// One step of a bid match against the ask side, in spec form: take the
/// best ask, fill as many lots as the fee-adjusted remaining budget
/// allows, charge the taker fee on the filled value, and consume the
/// filled quantity from the book.  `done` reports that no further
/// progress is possible.
pub open spec fn bid_step_spec(
    it: Iteration,
    fee: FeeTier,
    asks: Seq<Order>,
    qlot: int,
    blot: int,
) -> Result<(Iteration, Seq<Order>, bool), PoolError> {
    let rf = remove_fee_spec(
        it.amount_in as int,
        fee.taker_fee_numerator as int,
        fee.taker_fee_denominator as int,
    );
    let max_pc_qty = rf / qlot;
    if asks.len() == 0 {
        Ok((it, asks, true))
    } else {
        let best = asks[0];
        let trade_qty = min2(best.quantity as int, max_pc_qty / best.price as int);
        if trade_qty == 0 {
            Ok((it, asks, true))
        } else {
            let fill_native = trade_qty * best.price as int * qlot;
            let fee_amt = fee_spec(
                fill_native,
                fee.taker_fee_numerator as int,
                fee.taker_fee_denominator as int,
            );
            if it.amount_out + trade_qty * blot > u64::MAX {
                Err(PoolError::ArithmeticOverflow)
            } else {
                let asks2 = if trade_qty == best.quantity as int {
                    asks.drop_first()
                } else {
                    asks.update(
                        0,
                        Order {
                            order_id: best.order_id,
                            price: best.price,
                            quantity: (best.quantity - trade_qty) as u64,
                        },
                    )
                };
                Ok(
                    (
                        Iteration {
                            amount_in: (it.amount_in - fill_native - fee_amt) as u64,
                            amount_out: (it.amount_out + trade_qty * blot) as u64,
                        },
                        asks2,
                        false,
                    ),
                )
            }
        }
    }
}

/// A fill and its fee never exceed the amount the budget was derived
/// from.
proof fn lemma_fill_fee_le_start(start: int, fill: int, num: int, den: int)
    requires
        1 <= den,
        0 <= num,
        0 <= start,
        0 <= fill <= remove_fee_spec(start, num, den),
    ensures
        fill + fee_spec(fill, num, den) <= start,
{
    let total = den + num;
    let rf = remove_fee_spec(start, num, den);
    lemma_fundamental_div_mod(start * den, total);
    assert(rf * total <= start * den) by (nonlinear_arith)
        requires
            start * den == total * rf + (start * den) % total,
            (start * den) % total >= 0,
    ;
    assert((start * den) % total >= 0) by {
        vstd::arithmetic::div_mod::lemma_mod_division_less_than_divisor(start * den, total);
    }
    if num == 0 || den == 0 {
        assert(fee_spec(fill, num, den) == 0);
        assert(fill * total <= start * den) by (nonlinear_arith)
            requires
                fill <= rf,
                rf * total <= start * den,
                total >= 1,
                fill >= 0,
                rf >= 0,
        ;
        assert(fill <= start) by (nonlinear_arith)
            requires
                fill * total <= start * den,
                den == total,
                total >= 1,
        ;
    } else {
        let fee = fill * num / den;
        lemma_fundamental_div_mod(fill * num, den);
        assert(fee * den <= fill * num) by (nonlinear_arith)
            requires
                fill * num == den * fee + (fill * num) % den,
                (fill * num) % den >= 0,
        ;
        assert((fill * num) % den >= 0) by {
            vstd::arithmetic::div_mod::lemma_mod_division_less_than_divisor(fill * num, den);
        }
        assert((fill + fee) * den <= start * den) by (nonlinear_arith)
            requires
                fee * den <= fill * num,
                fill <= rf,
                rf * total <= start * den,
                total == den + num,
                den >= 1,
                num >= 1,
                fill >= 0,
                rf >= 0,
        ;
        assert(fill + fee <= start) by (nonlinear_arith)
            requires
                (fill + fee) * den <= start * den,
                den >= 1,
        ;
    }
}

/// One executable step of a bid match.  Behaves exactly as
/// `bid_step_spec`; on an error nothing is modified.
pub fn bid_iteration(
    iteration: &mut Iteration,
    fee_tier: &FeeTier,
    asks: &mut Vec<Order>,
    quote_lot_size: u64,
    base_lot_size: u64,
) -> (r: Result<bool, PoolError>)
    requires
        fee_tier.wf(),
        quote_lot_size >= 1,
        base_lot_size >= 1,
        side_wf(old(asks)@),
    ensures
        match r {
            Ok(done) => bid_step_spec(
                *old(iteration),
                *fee_tier,
                old(asks)@,
                quote_lot_size as int,
                base_lot_size as int,
            ) == Ok::<(Iteration, Seq<Order>, bool), PoolError>(
                (*final(iteration), final(asks)@, done),
            ),
            Err(e) => {
                &&& bid_step_spec(
                    *old(iteration),
                    *fee_tier,
                    old(asks)@,
                    quote_lot_size as int,
                    base_lot_size as int,
                ) == Err::<(Iteration, Seq<Order>, bool), PoolError>(e)
                &&& *final(iteration) == *old(iteration)
                &&& final(asks)@ == old(asks)@
            },
        },
        side_wf(final(asks)@),
        side_prices_ascending(old(asks)@) ==> side_prices_ascending(final(asks)@),
{
    let start_amount_in = iteration.amount_in;
    let rf = fee_tier.remove_taker_fee(start_amount_in);
    let max_pc_qty = rf / quote_lot_size;
    if asks.len() == 0 {
        return Ok(true);
    }
    let best = asks[0];
    assert(best.price >= 1 && best.quantity >= 1);
    let budget_qty = max_pc_qty / best.price;
    let trade_qty = if best.quantity < budget_qty {
        best.quantity
    } else {
        budget_qty
    };
    if trade_qty == 0 {
        return Ok(true);
    }
    proof {
        crate::math::lemma_mul_div_order_kept(trade_qty as int, best.price as int, max_pc_qty as int);
        crate::math::lemma_mul_div_order_kept(
            trade_qty as int * best.price as int,
            quote_lot_size as int,
            rf as int,
        );
    }
    let fill_lots = trade_qty * best.price;
    let fill_native = fill_lots * quote_lot_size;
    let fee_amt = fee_tier.taker_fee(fill_native);
    proof {
        lemma_fill_fee_le_start(
            start_amount_in as int,
            fill_native as int,
            fee_tier.taker_fee_numerator as int,
            fee_tier.taker_fee_denominator as int,
        );
    }
    proof {
        assert(trade_qty as int * base_lot_size as int <= u128::MAX) by (nonlinear_arith)
            requires
                0 <= trade_qty <= u64::MAX,
                0 <= base_lot_size <= u64::MAX,
        ;
    }
    let add_out_wide = (trade_qty as u128) * (base_lot_size as u128);
    proof {
        assert(iteration.amount_out as int + trade_qty as int * base_lot_size as int <= u128::MAX)
            by (nonlinear_arith)
            requires
                0 <= trade_qty <= u64::MAX,
                0 <= base_lot_size <= u64::MAX,
                0 <= iteration.amount_out <= u64::MAX,
        ;
    }
    let new_out_wide = (iteration.amount_out as u128) + add_out_wide;
    if new_out_wide > u64::MAX as u128 {
        return Err(PoolError::ArithmeticOverflow);
    }
    iteration.amount_in = start_amount_in - fill_native - fee_amt;
    iteration.amount_out = new_out_wide as u64;
    if trade_qty == best.quantity {
        let _consumed = asks.remove(0);
        proof {
            assert(asks@ =~= old(asks)@.drop_first());
        }
    } else {
        asks.set(
            0,
            Order { order_id: best.order_id, price: best.price, quantity: best.quantity - trade_qty },
        );
    }
    Ok(false)
}

/// One step of an ask match against the bid side, in spec form: take the
/// best bid, fill as many base lots as remain unfilled, and credit the
/// filled value net of the taker fee.  The remaining input is rounded
/// down to a whole number of base lots.
pub open spec fn ask_step_spec(
    it: Iteration,
    fee: FeeTier,
    bids: Seq<Order>,
    pc_lot: int,
    coin_lot: int,
) -> Result<(Iteration, Seq<Order>, bool), PoolError> {
    let unfilled = it.amount_in as int / coin_lot;
    if bids.len() == 0 {
        Ok(
            (
                Iteration { amount_in: (unfilled * coin_lot) as u64, amount_out: it.amount_out },
                bids,
                true,
            ),
        )
    } else {
        let best = bids[0];
        let trade_qty = min2(best.quantity as int, unfilled);
        if trade_qty == 0 {
            Ok(
                (
                    Iteration { amount_in: (unfilled * coin_lot) as u64, amount_out: it.amount_out },
                    bids,
                    true,
                ),
            )
        } else {
            let native_pc = trade_qty * best.price as int * pc_lot;
            if native_pc > u64::MAX {
                Err(PoolError::ArithmeticOverflow)
            } else {
                let fee_amt = fee_spec(
                    native_pc,
                    fee.taker_fee_numerator as int,
                    fee.taker_fee_denominator as int,
                );
                let net = native_pc - fee_amt;
                if it.amount_out + net > u64::MAX {
                    Err(PoolError::ArithmeticOverflow)
                } else {
                    let bids2 = if trade_qty == best.quantity as int {
                        bids.drop_first()
                    } else {
                        bids.update(
                            0,
                            Order {
                                order_id: best.order_id,
                                price: best.price,
                                quantity: (best.quantity - trade_qty) as u64,
                            },
                        )
                    };
                    Ok(
                        (
                            Iteration {
                                amount_in: ((unfilled - trade_qty) * coin_lot) as u64,
                                amount_out: (it.amount_out + net) as u64,
                            },
                            bids2,
                            false,
                        ),
                    )
                }
            }
        }
    }
}

/// One executable step of an ask match.  Behaves exactly as
/// `ask_step_spec`; on an error nothing is modified.
pub fn ask_iteration(
    iteration: &mut Iteration,
    fee_tier: &FeeTier,
    bids: &mut Vec<Order>,
    pc_lot_size: u64,
    coin_lot_size: u64,
) -> (r: Result<bool, PoolError>)
    requires
        fee_tier.wf(),
        pc_lot_size >= 1,
        coin_lot_size >= 1,
        side_wf(old(bids)@),
    ensures
        match r {
            Ok(done) => ask_step_spec(
                *old(iteration),
                *fee_tier,
                old(bids)@,
                pc_lot_size as int,
                coin_lot_size as int,
            ) == Ok::<(Iteration, Seq<Order>, bool), PoolError>(
                (*final(iteration), final(bids)@, done),
            ),
            Err(e) => {
                &&& ask_step_spec(
                    *old(iteration),
                    *fee_tier,
                    old(bids)@,
                    pc_lot_size as int,
                    coin_lot_size as int,
                ) == Err::<(Iteration, Seq<Order>, bool), PoolError>(e)
                &&& *final(iteration) == *old(iteration)
                &&& final(bids)@ == old(bids)@
            },
        },
        side_wf(final(bids)@),
        side_prices_ascending(old(bids)@) ==> side_prices_ascending(final(bids)@),
        side_prices_descending(old(bids)@) ==> side_prices_descending(final(bids)@),
{
    let start_amount_in = iteration.amount_in;
    let unfilled = start_amount_in / coin_lot_size;
    proof {
        crate::math::lemma_mul_div_order_kept(
            unfilled as int,
            coin_lot_size as int,
            start_amount_in as int,
        );
    }
    if bids.len() == 0 {
        iteration.amount_in = unfilled * coin_lot_size;
        return Ok(true);
    }
    let best = bids[0];
    assert(best.price >= 1 && best.quantity >= 1);
    let trade_qty = if best.quantity < unfilled {
        best.quantity
    } else {
        unfilled
    };
    if trade_qty == 0 {
        iteration.amount_in = unfilled * coin_lot_size;
        return Ok(true);
    }
    proof {
        assert(trade_qty as int * best.price as int <= u128::MAX) by (nonlinear_arith)
            requires
                0 <= trade_qty <= u64::MAX,
                0 <= best.price <= u64::MAX,
        ;
    }
    let lots_value = (trade_qty as u128) * (best.price as u128);
    let native_wide = match crate::stable::checked_mul_u128(lots_value, pc_lot_size as u128) {
        Some(v) => v,
        None => {
            return Err(PoolError::ArithmeticOverflow);
        },
    };
    if native_wide > u64::MAX as u128 {
        return Err(PoolError::ArithmeticOverflow);
    }
    let native_pc = native_wide as u64;
    let fee_amt = fee_tier.taker_fee(native_pc);
    let net = native_pc - fee_amt;
    let new_out_wide = (iteration.amount_out as u128) + (net as u128);
    if new_out_wide > u64::MAX as u128 {
        return Err(PoolError::ArithmeticOverflow);
    }
    proof {
        crate::math::lemma_mul_div_order_kept(
            (unfilled - trade_qty) as int,
            coin_lot_size as int,
            start_amount_in as int,
        );
    }
    iteration.amount_in = (unfilled - trade_qty) * coin_lot_size;
    iteration.amount_out = new_out_wide as u64;
    if trade_qty == best.quantity {
        let _consumed = bids.remove(0);
        proof {
            assert(bids@ =~= old(bids)@.drop_first());
        }
    } else {
        bids.set(
            0,
            Order { order_id: best.order_id, price: best.price, quantity: best.quantity - trade_qty },
        );
    }
    Ok(false)
}

/// One match step in either direction.
pub open spec fn match_step_spec(
    side: Side,
    it: Iteration,
    fee: FeeTier,
    book: Seq<Order>,
    pc_lot: int,
    coin_lot: int,
) -> Result<(Iteration, Seq<Order>, bool), PoolError> {
    match side {
        Side::Bid => bid_step_spec(it, fee, book, pc_lot, coin_lot),
        Side::Ask => ask_step_spec(it, fee, book, pc_lot, coin_lot),
    }
}

/// The whole match: steps are taken until one reports that no further
/// progress is possible.  Every step that makes progress consumes at
/// least one lot from the front order, which bounds the walk.
pub open spec fn match_loop_spec(
    side: Side,
    it: Iteration,
    fee: FeeTier,
    book: Seq<Order>,
    pc_lot: int,
    coin_lot: int,
) -> Result<(Iteration, Seq<Order>), PoolError>
    decreases book.len(), (if book.len() > 0 {
        book[0].quantity as int
    } else {
        0int
    }),
{
    match match_step_spec(side, it, fee, book, pc_lot, coin_lot) {
        Err(e) => Err(e),
        Ok((it2, book2, done)) => if done {
            Ok((it2, book2))
        } else if book2.len() < book.len() || (book2.len() == book.len() && book.len() > 0
            && book2[0].quantity < book[0].quantity) {
            match_loop_spec(side, it2, fee, book2, pc_lot, coin_lot)
        } else {
            // a step that reports progress always consumes part of the
            // front order; this arm is unreachable and only bounds the
            // recursion
            Err(PoolError::ConvergenceFailure)
        },
    }
}

/// Simulates a market order against a book-side snapshot: walks the
/// price-ordered side, filling the best resting order first, until the
/// budget is exhausted, the side is empty, or the next order cannot even
/// be partially filled.  Returns what was bought together with the
/// unfilled remainder of the input, and removes the consumed quantities
/// from the snapshot.
pub fn match_market_order(
    side: Side,
    amount_in: u64,
    fee_tier: &FeeTier,
    book_side: &mut Vec<Order>,
    pc_lot_size: u64,
    coin_lot_size: u64,
) -> (r: Result<Iteration, PoolError>)
    requires
        fee_tier.wf(),
        pc_lot_size >= 1,
        coin_lot_size >= 1,
        side_wf(old(book_side)@),
    ensures
        match r {
            Ok(it) => match_loop_spec(
                side,
                Iteration { amount_in, amount_out: 0 },
                *fee_tier,
                old(book_side)@,
                pc_lot_size as int,
                coin_lot_size as int,
            ) == Ok::<(Iteration, Seq<Order>), PoolError>((it, final(book_side)@)),
            Err(e) => match_loop_spec(
                side,
                Iteration { amount_in, amount_out: 0 },
                *fee_tier,
                old(book_side)@,
                pc_lot_size as int,
                coin_lot_size as int,
            ) == Err::<(Iteration, Seq<Order>), PoolError>(e),
        },
        side_wf(final(book_side)@),
{
    let mut it = Iteration { amount_in, amount_out: 0 };
    let ghost goal = match_loop_spec(
        side,
        it,
        *fee_tier,
        book_side@,
        pc_lot_size as int,
        coin_lot_size as int,
    );
    loop
        invariant
            fee_tier.wf(),
            pc_lot_size >= 1,
            coin_lot_size >= 1,
            side_wf(book_side@),
            goal == match_loop_spec(
                side,
                Iteration { amount_in, amount_out: 0 },
                *fee_tier,
                old(book_side)@,
                pc_lot_size as int,
                coin_lot_size as int,
            ),
            match_loop_spec(
                side,
                it,
                *fee_tier,
                book_side@,
                pc_lot_size as int,
                coin_lot_size as int,
            ) == goal,
        decreases book_side@.len(), (if book_side@.len() > 0 {
            book_side@[0].quantity as int
        } else {
            0int
        }),
    {
        let step = match side {
            Side::Bid => bid_iteration(&mut it, fee_tier, book_side, pc_lot_size, coin_lot_size),
            Side::Ask => ask_iteration(&mut it, fee_tier, book_side, pc_lot_size, coin_lot_size),
        };
        match step {
            Err(e) => {
                return Err(e);
            },
            Ok(true) => {
                return Ok(it);
            },
            Ok(false) => {},
        }
    }
}

/// Replacing the front order changes the side's total quantity by the
/// difference of the front quantities.
proof fn lemma_qty_sum_update_first(s: Seq<Order>, o: Order)
    requires
        s.len() > 0,
    ensures
        qty_sum(s.update(0, o)) == qty_sum(s) - s[0].quantity + o.quantity,
{
    let s2 = s.update(0, o);
    assert(s2.drop_first() =~= s.drop_first());
}

/// What a bid match pays out is exactly the resting quantity it removed
/// from the ask side, valued in base lots; and the side it leaves behind
/// is still well formed.
pub proof fn lemma_bid_match_fill(
    it: Iteration,
    fee: FeeTier,
    asks: Seq<Order>,
    pc_lot: int,
    coin_lot: int,
    it2: Iteration,
    asks2: Seq<Order>,
)
    requires
        fee.wf(),
        pc_lot >= 1,
        coin_lot >= 1,
        side_wf(asks),
        match_loop_spec(Side::Bid, it, fee, asks, pc_lot, coin_lot) == Ok::<
            (Iteration, Seq<Order>),
            PoolError,
        >((it2, asks2)),
    ensures
        it2.amount_out - it.amount_out == (qty_sum(asks) - qty_sum(asks2)) * coin_lot,
        side_wf(asks2),
    decreases asks.len(), (if asks.len() > 0 {
        asks[0].quantity as int
    } else {
        0int
    }),
{
    match bid_step_spec(it, fee, asks, pc_lot, coin_lot) {
        Err(e) => {
            assert(false);
        },
        Ok((it_m, asks_m, done)) => {
            if done {
                assert(it2 == it && asks2 =~= asks);
                assert((qty_sum(asks) - qty_sum(asks2)) * coin_lot == 0) by (nonlinear_arith)
                    requires
                        qty_sum(asks) == qty_sum(asks2),
                ;
            } else {
                let best = asks[0];
                let rf = remove_fee_spec(
                    it.amount_in as int,
                    fee.taker_fee_numerator as int,
                    fee.taker_fee_denominator as int,
                );
                let tq = min2(best.quantity as int, (rf / pc_lot) / best.price as int);
                assert(tq >= 1);
                assert(tq * coin_lot >= 0) by (nonlinear_arith)
                    requires
                        tq >= 1,
                        coin_lot >= 1,
                ;
                assert(it_m.amount_out == it.amount_out + tq * coin_lot);
                if tq == best.quantity as int {
                    assert(asks_m =~= asks.drop_first());
                    assert(qty_sum(asks_m) == qty_sum(asks) - tq);
                } else {
                    lemma_qty_sum_update_first(
                        asks,
                        Order {
                            order_id: best.order_id,
                            price: best.price,
                            quantity: (best.quantity - tq) as u64,
                        },
                    );
                    assert(qty_sum(asks_m) == qty_sum(asks) - tq);
                }
                assert(side_wf(asks_m)) by {
                    assert forall|i: int| 0 <= i < asks_m.len() implies (#[trigger] asks_m[i]).quantity
                        >= 1 && asks_m[i].price >= 1 by {
                        if tq == best.quantity as int {
                            assert(asks_m[i] == asks[i + 1]);
                        } else {
                            if i > 0 {
                                assert(asks_m[i] == asks[i]);
                            }
                        }
                    }
                }
                lemma_bid_match_fill(it_m, fee, asks_m, pc_lot, coin_lot, it2, asks2);
                assert(it2.amount_out - it.amount_out == (qty_sum(asks) - qty_sum(asks2))
                    * coin_lot) by (nonlinear_arith)
                    requires
                        it2.amount_out - it_m.amount_out == (qty_sum(asks_m) - qty_sum(asks2))
                            * coin_lot,
                        it_m.amount_out == it.amount_out + tq * coin_lot,
                        qty_sum(asks_m) == qty_sum(asks) - tq,
                ;
            }
        },
    }
}

/// What an ask match consumes of its input, counted in base lots, is
/// exactly the resting quantity it removed from the bid side; and the
/// side it leaves behind is still well formed.
pub proof fn lemma_ask_match_fill(
    it: Iteration,
    fee: FeeTier,
    bids: Seq<Order>,
    pc_lot: int,
    coin_lot: int,
    it2: Iteration,
    bids2: Seq<Order>,
)
    requires
        fee.wf(),
        pc_lot >= 1,
        coin_lot >= 1,
        side_wf(bids),
        match_loop_spec(Side::Ask, it, fee, bids, pc_lot, coin_lot) == Ok::<
            (Iteration, Seq<Order>),
            PoolError,
        >((it2, bids2)),
    ensures
        it.amount_in as int / coin_lot - it2.amount_in as int / coin_lot == qty_sum(bids)
            - qty_sum(bids2),
        side_wf(bids2),
    decreases bids.len(), (if bids.len() > 0 {
        bids[0].quantity as int
    } else {
        0int
    }),
{
    let unfilled = it.amount_in as int / coin_lot;
    assert(unfilled >= 0) by {
        vstd::arithmetic::div_mod::lemma_div_pos_is_pos(it.amount_in as int, coin_lot);
    }
    crate::math::lemma_mul_div_order_kept(unfilled, coin_lot, it.amount_in as int);
    match ask_step_spec(it, fee, bids, pc_lot, coin_lot) {
        Err(e) => {
            assert(false);
        },
        Ok((it_m, bids_m, done)) => {
            if done {
                assert(it2 == it_m && bids2 =~= bids);
                assert(it2.amount_in == (unfilled * coin_lot) as u64);
                assert(it2.amount_in as int / coin_lot == unfilled) by {
                    vstd::arithmetic::div_mod::lemma_div_by_multiple(unfilled, coin_lot);
                }
            } else {
                let best = bids[0];
                let tq = min2(best.quantity as int, unfilled);
                assert(tq >= 1);
                assert(0 <= (unfilled - tq) * coin_lot <= unfilled * coin_lot) by (nonlinear_arith)
                    requires
                        1 <= tq <= unfilled,
                        coin_lot >= 1,
                ;
                assert(it_m.amount_in == ((unfilled - tq) * coin_lot) as u64);
                assert(it_m.amount_in as int / coin_lot == unfilled - tq) by {
                    vstd::arithmetic::div_mod::lemma_div_by_multiple(unfilled - tq, coin_lot);
                }
                if tq == best.quantity as int {
                    assert(bids_m =~= bids.drop_first());
                    assert(qty_sum(bids_m) == qty_sum(bids) - tq);
                } else {
                    lemma_qty_sum_update_first(
                        bids,
                        Order {
                            order_id: best.order_id,
                            price: best.price,
                            quantity: (best.quantity - tq) as u64,
                        },
                    );
                    assert(qty_sum(bids_m) == qty_sum(bids) - tq);
                }
                assert(side_wf(bids_m)) by {
                    assert forall|i: int| 0 <= i < bids_m.len() implies (#[trigger] bids_m[i]).quantity
                        >= 1 && bids_m[i].price >= 1 by {
                        if tq == best.quantity as int {
                            assert(bids_m[i] == bids[i + 1]);
                        } else {
                            if i > 0 {
                                assert(bids_m[i] == bids[i]);
                            }
                        }
                    }
                }
                lemma_ask_match_fill(it_m, fee, bids_m, pc_lot, coin_lot, it2, bids2);
            }
        },
    }
}

/// Copies a book side into a working snapshot, so that matching never
/// touches the venue's live state.
pub fn copy_orders(src: &Vec<Order>) -> (r: Vec<Order>)
    ensures
        r@ == src@,
{
    let mut r: Vec<Order> = Vec::new();
    let mut i: usize = 0;
    while i < src.len()
        invariant
            i <= src.len(),
            r@ == src@.subrange(0, i as int),
        decreases src.len() - i,
    {
        r.push(src[i]);
        proof {
            assert(r@ =~= src@.subrange(0, i as int + 1));
        }
        i += 1;
    }
    proof {
        assert(r@ =~= src@);
    }
    r
}

/// Checks that a snapshot is a usable book side: positive prices and
/// quantities throughout, and prices ordered in the given direction.
pub fn check_book_side(orders: &Vec<Order>, ascending: bool) -> (r: bool)
    ensures
        ascending ==> r == (side_wf(orders@) && side_prices_ascending(orders@)),
        !ascending ==> r == (side_wf(orders@) && side_prices_descending(orders@)),
{
    let mut i: usize = 0;
    while i < orders.len()
        invariant
            i <= orders.len(),
            forall|k: int|
                0 <= k < i ==> (#[trigger] orders@[k]).quantity >= 1 && orders@[k].price >= 1,
            ascending ==> forall|k1: int, k2: int|
                0 <= k1 < k2 < i ==> (#[trigger] orders@[k1]).price <= (#[trigger] orders@[k2]).price,
            !ascending ==> forall|k1: int, k2: int|
                0 <= k1 < k2 < i ==> (#[trigger] orders@[k1]).price >= (#[trigger] orders@[k2]).price,
        decreases orders.len() - i,
    {
        let o = orders[i];
        if o.quantity == 0 || o.price == 0 {
            return false;
        }
        if i > 0 {
            let prev = orders[i - 1];
            if ascending && prev.price > o.price {
                return false;
            }
            if !ascending && prev.price < o.price {
                return false;
            }
            proof {
                if ascending {
                    assert forall|k1: int, k2: int| 0 <= k1 < k2 < i + 1 implies (#[trigger] orders@[k1]).price
                        <= (#[trigger] orders@[k2]).price by {
                        if k2 == i {
                            assert(orders@[k1].price <= orders@[i - 1].price || k1 == i - 1);
                        }
                    }
                } else {
                    assert forall|k1: int, k2: int| 0 <= k1 < k2 < i + 1 implies (#[trigger] orders@[k1]).price
                        >= (#[trigger] orders@[k2]).price by {
                        if k2 == i {
                            assert(orders@[k1].price >= orders@[i - 1].price || k1 == i - 1);
                        }
                    }
                }
            }
        }
        i += 1;
    }
    true
}

} // verus!
