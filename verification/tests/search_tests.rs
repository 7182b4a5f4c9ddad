use client_pool::arb::{best_opportunity, Arbitrager, FingerprintSet, Opportunity};
use client_pool::book::{FeeTier, Order};
use client_pool::graph::build_graph;
use client_pool::keys::AccountId;
use client_pool::math::Fees;
use client_pool::pool::{OrcaPool, Pool, SerumPool};

fn key(n: u64) -> AccountId {
    AccountId { w0: n, w1: 0, w2: 0, w3: 0 }
}

fn cp_pool(address: u64, mint_a: u64, mint_b: u64, amount_a: u128, amount_b: u128) -> Pool {
    Pool::Orca(OrcaPool {
        address: key(address),
        mint_a: key(mint_a),
        mint_b: key(mint_b),
        scale_a: 6,
        scale_b: 9,
        vault_a: key(1000 + address),
        vault_b: key(2000 + address),
        fees: Fees {
            trade_fee_numerator: 0,
            trade_fee_denominator: 0,
            owner_trade_fee_numerator: 0,
            owner_trade_fee_denominator: 0,
        },
        curve_type: 0,
        amp: 0,
        pool_amount_a: amount_a,
        pool_amount_b: amount_b,
    })
}

fn arbitrager(pools: Vec<Pool>) -> Arbitrager {
    let (reg, graph) = build_graph(&pools);
    Arbitrager { token_mints: reg.mints, graph, pools }
}

/// Token graph of the worked scenario: USDC is index 0, SOL index 1,
/// USDT index 2; three zero-fee constant-product venues close the
/// triangle.  The middle venue's USDT reserve decides whether the cycle
/// gains.
fn triangle(usdt_reserve_of_v2: u128) -> Arbitrager {
    arbitrager(vec![
        cp_pool(101, 1, 2, 1_000_000_000, 5_000_000_000), // V1 USDC/SOL
        cp_pool(102, 2, 3, 5_000_000_000, usdt_reserve_of_v2), // V2 SOL/USDT
        cp_pool(103, 3, 1, 1_010_000_000, 1_000_000_000), // V3 USDT/USDC
    ])
}

#[test]
fn balanced_triangle_closes_no_profitable_cycle() {
    // with V2 at 1_010_000_000 the marginal prices multiply to exactly
    // one, so slippage makes every cycle a strict loss: composing the
    // three quotes gives 1_000_000 -> 4_995_004 -> 1_007_983 -> 997_007
    let arb = triangle(1_010_000_000);
    let usdc = 0usize;
    let mut sent = FingerprintSet::new();
    let found = arb.brute_force_search(usdc, 1_000_000, 3, &mut sent);
    assert!(found.is_empty());
    assert!(sent.fingerprints.is_empty());
}

#[test]
fn skewed_triangle_finds_exactly_one_opportunity() {
    // raising V2's USDT reserve to 1_020_000_000 tips the price product
    // above one: the forward cycle gains, the reverse one still loses
    let arb = triangle(1_020_000_000);
    let usdc = 0usize;
    let mut sent = FingerprintSet::new();
    let found = arb.brute_force_search(usdc, 1_000_000, 3, &mut sent);
    assert_eq!(found.len(), 1);
    let opp = &found[0];
    assert_eq!(opp.path_tokens, vec![0, 1, 2, 0]);
    assert_eq!(opp.venue_ids, vec![key(101), key(102), key(103)]);
    assert_eq!(opp.amounts, vec![1_000_000, 4_995_004, 1_017_963, 1_006_869]);
    assert_eq!(opp.original_notional, 1_000_000);
    assert_eq!(opp.final_amount, 1_006_869);
    assert_eq!(opp.profit, 6_869);
    assert_eq!(sent.fingerprints, vec![vec![key(101), key(102), key(103)]]);
}

#[test]
fn search_is_deterministic() {
    // same snapshot, same inputs, fresh fingerprint sets: identical runs
    let arb = triangle(1_020_000_000);
    let mut sent1 = FingerprintSet::new();
    let mut sent2 = FingerprintSet::new();
    let run1 = arb.brute_force_search(0, 1_000_000, 3, &mut sent1);
    let run2 = arb.brute_force_search(0, 1_000_000, 3, &mut sent2);
    assert_eq!(run1.len(), run2.len());
    for (a, b) in run1.iter().zip(run2.iter()) {
        assert_eq!(a.path_tokens, b.path_tokens);
        assert_eq!(a.venue_ids, b.venue_ids);
        assert_eq!(a.amounts, b.amounts);
        assert_eq!(a.profit, b.profit);
    }
    assert_eq!(sent1.fingerprints, sent2.fingerprints);
}

#[test]
fn carried_fingerprints_suppress_reemission() {
    // a second search with the carried set re-emits nothing, even at a
    // smaller notional where the cycle is still discoverable
    let arb = triangle(1_020_000_000);
    let mut sent = FingerprintSet::new();
    let first = arb.brute_force_search(0, 1_000_000, 3, &mut sent);
    assert_eq!(first.len(), 1);
    let second = arb.brute_force_search(0, 1_000_000, 3, &mut sent);
    assert!(second.is_empty());
    let halved = arb.brute_force_search(0, 500_000, 3, &mut sent);
    assert!(halved.is_empty());
    assert_eq!(sent.fingerprints.len(), 1);
}

#[test]
fn hop_bound_one_never_produces_a_cycle() {
    let arb = triangle(1_020_000_000);
    let mut sent = FingerprintSet::new();
    let found = arb.brute_force_search(0, 1_000_000, 1, &mut sent);
    assert!(found.is_empty());
    assert!(sent.fingerprints.is_empty());
}

#[test]
fn hop_bound_below_cycle_length_finds_nothing() {
    // the only gaining cycle needs three hops
    let arb = triangle(1_020_000_000);
    let mut sent = FingerprintSet::new();
    let found = arb.brute_force_search(0, 1_000_000, 2, &mut sent);
    assert!(found.is_empty());
}

#[test]
fn two_hop_cycle_through_parallel_venues() {
    // two venues on the same pair at different prices close a two-hop
    // cycle one way round only
    let arb = arbitrager(vec![
        cp_pool(201, 1, 2, 1_000_000_000, 5_000_000_000),
        cp_pool(202, 1, 2, 1_100_000_000, 5_200_000_000),
    ]);
    let mut sent = FingerprintSet::new();
    let found = arb.brute_force_search(0, 1_000_000, 2, &mut sent);
    assert_eq!(found.len(), 1);
    let opp = &found[0];
    assert_eq!(opp.path_tokens, vec![0, 1, 0]);
    assert_eq!(opp.venue_ids, vec![key(201), key(202)]);
    assert_eq!(opp.amounts, vec![1_000_000, 4_995_004, 1_055_621]);
    assert_eq!(opp.profit, 55_621);
}

#[test]
fn one_venue_is_never_reused_within_a_path() {
    // a single venue cannot close a cycle with itself
    let arb = arbitrager(vec![cp_pool(301, 1, 2, 1_000_000_000, 5_000_000_000)]);
    let mut sent = FingerprintSet::new();
    let found = arb.brute_force_search(0, 1_000_000, 4, &mut sent);
    assert!(found.is_empty());
}

#[test]
fn dead_venue_never_appears_in_an_opportunity() {
    // V4 is an order-book venue on the USDC/SOL pair whose books are
    // empty: its liveness check fails in both directions, so no emitted
    // opportunity may use it, while the profitable cycle is still found
    let dead = Pool::Serum(SerumPool {
        own_address: key(400),
        base_mint: key(2),
        quote_mint: key(1),
        base_scale: 9,
        quote_scale: 6,
        bids_account: key(1400),
        asks_account: key(2400),
        coin_lot_size: 1,
        pc_lot_size: 1,
        fee_tier: FeeTier { taker_fee_numerator: 0, taker_fee_denominator: 1 },
        bids: Vec::<Order>::new(),
        asks: Vec::<Order>::new(),
    });
    let arb = arbitrager(vec![
        cp_pool(101, 1, 2, 1_000_000_000, 5_000_000_000),
        cp_pool(102, 2, 3, 5_000_000_000, 1_020_000_000),
        cp_pool(103, 3, 1, 1_010_000_000, 1_000_000_000),
        dead,
    ]);
    let mut sent = FingerprintSet::new();
    let found = arb.brute_force_search(0, 1_000_000, 3, &mut sent);
    assert_eq!(found.len(), 1);
    for opp in &found {
        assert!(!opp.venue_ids.contains(&key(400)));
    }
}

#[test]
fn fingerprint_set_records_and_answers_membership() {
    let mut set = FingerprintSet::new();
    let fp1 = vec![key(1), key(2)];
    let fp2 = vec![key(2), key(1)];
    assert!(!set.contains(&fp1));
    set.insert(fp1.clone());
    assert!(set.contains(&fp1));
    assert!(!set.contains(&fp2));
}

fn opportunity(profit: u128, hops: usize) -> Opportunity {
    Opportunity {
        path_tokens: vec![0; hops + 1],
        venue_ids: vec![key(9); hops],
        amounts: vec![1; hops + 1],
        original_notional: 100,
        final_amount: 100 + profit,
        profit,
    }
}

#[test]
fn best_opportunity_prefers_profit_then_short_path() {
    let opps = vec![opportunity(5, 3), opportunity(9, 4), opportunity(9, 2)];
    assert_eq!(best_opportunity(&opps), Some(2));
    let empty: Vec<Opportunity> = Vec::new();
    assert_eq!(best_opportunity(&empty), None);
}
