use client_pool::book::{
    ask_iteration, bid_iteration, match_market_order, FeeTier, Iteration, Order, Side,
};

fn order(order_id: u64, price: u64, quantity: u64) -> Order {
    Order { order_id, price, quantity }
}

fn no_fee() -> FeeTier {
    FeeTier { taker_fee_numerator: 0, taker_fee_denominator: 1 }
}

fn one_percent() -> FeeTier {
    FeeTier { taker_fee_numerator: 1, taker_fee_denominator: 100 }
}

fn qty_total(side: &Vec<Order>) -> u64 {
    side.iter().map(|o| o.quantity).sum()
}

#[test]
fn fee_tier_exact_values() {
    let tier = one_percent();
    assert_eq!(tier.taker_fee(600), 6);
    assert_eq!(tier.remove_taker_fee(1000), 990);
    assert_eq!(no_fee().taker_fee(600), 0);
    assert_eq!(no_fee().remove_taker_fee(1000), 1000);
}

#[test]
fn bid_match_without_fee_exact() {
    let mut asks = vec![order(1, 2, 300), order(2, 4, 500)];
    let it = match_market_order(Side::Bid, 1000, &no_fee(), &mut asks, 1, 1).unwrap();
    assert_eq!(it.amount_out, 400);
    assert_eq!(it.amount_in, 0);
    assert_eq!(asks, vec![order(2, 4, 400)]);
}

#[test]
fn bid_match_with_fee_reports_remainder() {
    let mut asks = vec![order(1, 2, 300), order(2, 4, 500)];
    let it = match_market_order(Side::Bid, 1000, &one_percent(), &mut asks, 1, 1).unwrap();
    assert_eq!(it.amount_out, 397);
    assert_eq!(it.amount_in, 3);
    assert_eq!(asks, vec![order(2, 4, 403)]);
}

#[test]
fn bid_match_conserves_resting_quantity() {
    // quantity removed from the book equals the base quantity bought
    let asks0 = vec![order(1, 2, 300), order(2, 4, 500)];
    let before = qty_total(&asks0);
    let mut asks = asks0.clone();
    let it = match_market_order(Side::Bid, 1000, &no_fee(), &mut asks, 1, 1).unwrap();
    let after = qty_total(&asks);
    assert_eq!(before - after, it.amount_out);
    assert!(asks.iter().all(|o| o.quantity > 0));
}

#[test]
fn ask_match_without_fee_exact() {
    let mut bids = vec![order(5, 3, 400), order(6, 2, 400)];
    let it = match_market_order(Side::Ask, 700, &no_fee(), &mut bids, 1, 1).unwrap();
    assert_eq!(it.amount_out, 1800);
    assert_eq!(it.amount_in, 0);
    assert_eq!(bids, vec![order(6, 2, 100)]);
}

#[test]
fn ask_match_with_fee_exact() {
    let mut bids = vec![order(5, 3, 400), order(6, 2, 400)];
    let tier = FeeTier { taker_fee_numerator: 2, taker_fee_denominator: 100 };
    let it = match_market_order(Side::Ask, 700, &tier, &mut bids, 1, 1).unwrap();
    assert_eq!(it.amount_out, 1764);
    assert_eq!(it.amount_in, 0);
    assert_eq!(bids, vec![order(6, 2, 100)]);
}

#[test]
fn ask_match_conserves_resting_quantity() {
    let bids0 = vec![order(5, 3, 400), order(6, 2, 400)];
    let before = qty_total(&bids0);
    let mut bids = bids0.clone();
    let it = match_market_order(Side::Ask, 700, &no_fee(), &mut bids, 1, 1).unwrap();
    let after = qty_total(&bids);
    // base lots consumed from the order equal the resting lots removed
    assert_eq!(before - after, 700 - it.amount_in);
    assert!(bids.iter().all(|o| o.quantity > 0));
}

#[test]
fn empty_side_matches_nothing() {
    let mut asks: Vec<Order> = Vec::new();
    let it = match_market_order(Side::Bid, 1000, &no_fee(), &mut asks, 1, 1).unwrap();
    assert_eq!(it.amount_out, 0);
    assert_eq!(it.amount_in, 1000);
}

#[test]
fn unaffordable_best_order_stops_match() {
    // the budget cannot buy even one lot at the best price
    let mut asks = vec![order(1, 5000, 10)];
    let it = match_market_order(Side::Bid, 1000, &no_fee(), &mut asks, 1, 1).unwrap();
    assert_eq!(it.amount_out, 0);
    assert_eq!(it.amount_in, 1000);
    assert_eq!(asks, vec![order(1, 5000, 10)]);
}

#[test]
fn lot_sizes_scale_the_match() {
    // quote lots of 10, base lots of 100
    let mut asks = vec![order(1, 2, 300)];
    let it = match_market_order(Side::Bid, 1000, &no_fee(), &mut asks, 10, 100).unwrap();
    // budget 1000 / quote lot 10 = 100 quote lots; best price 2 -> 50 base lots
    assert_eq!(it.amount_out, 50 * 100);
    assert_eq!(it.amount_in, 0);
    assert_eq!(asks, vec![order(1, 2, 250)]);
}

#[test]
fn single_bid_iteration_consumes_one_order() {
    let mut it = Iteration { amount_in: 1000, amount_out: 0 };
    let mut asks = vec![order(1, 2, 300), order(2, 4, 500)];
    let done = bid_iteration(&mut it, &no_fee(), &mut asks, 1, 1).unwrap();
    assert!(!done);
    assert_eq!(it.amount_out, 300);
    assert_eq!(it.amount_in, 400);
    assert_eq!(asks.len(), 1);
}

#[test]
fn single_ask_iteration_consumes_one_order() {
    let mut it = Iteration { amount_in: 700, amount_out: 0 };
    let mut bids = vec![order(5, 3, 400), order(6, 2, 400)];
    let done = ask_iteration(&mut it, &no_fee(), &mut bids, 1, 1).unwrap();
    assert!(!done);
    assert_eq!(it.amount_out, 1200);
    assert_eq!(it.amount_in, 300);
    assert_eq!(bids.len(), 1);
}
