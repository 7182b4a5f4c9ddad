use client_pool::book::{FeeTier, Order};
use client_pool::errors::PoolError;
use client_pool::keys::AccountId;
use client_pool::math::Fees;
use client_pool::pool::{
    unpack_token_amount, AccountUpdate, OrcaPool, Pool, RaydiumPool, SerumPool,
};

fn key(n: u64) -> AccountId {
    AccountId { w0: n, w1: 0, w2: 0, w3: 0 }
}

fn order(order_id: u64, price: u64, quantity: u64) -> Order {
    Order { order_id, price, quantity }
}

fn zero_fees() -> Fees {
    Fees {
        trade_fee_numerator: 0,
        trade_fee_denominator: 0,
        owner_trade_fee_numerator: 0,
        owner_trade_fee_denominator: 0,
    }
}

fn orca(address: u64, mint_a: u64, mint_b: u64, amount_a: u128, amount_b: u128) -> OrcaPool {
    OrcaPool {
        address: key(address),
        mint_a: key(mint_a),
        mint_b: key(mint_b),
        scale_a: 6,
        scale_b: 9,
        vault_a: key(1000 + address),
        vault_b: key(2000 + address),
        fees: zero_fees(),
        curve_type: 0,
        amp: 0,
        pool_amount_a: amount_a,
        pool_amount_b: amount_b,
    }
}

fn raydium(address: u64, mint_a: u64, mint_b: u64, amount_a: u128, amount_b: u128) -> RaydiumPool {
    RaydiumPool {
        address: key(address),
        mint_a: key(mint_a),
        mint_b: key(mint_b),
        scale_a: 6,
        scale_b: 9,
        vault_a: key(1000 + address),
        vault_b: key(2000 + address),
        trade_fee_numerator: 0,
        trade_fee_denominator: 0,
        pool_amount_a: amount_a,
        pool_amount_b: amount_b,
    }
}

fn serum(address: u64, base: u64, quote: u64, bids: Vec<Order>, asks: Vec<Order>) -> SerumPool {
    SerumPool {
        own_address: key(address),
        base_mint: key(base),
        quote_mint: key(quote),
        base_scale: 9,
        quote_scale: 6,
        bids_account: key(1000 + address),
        asks_account: key(2000 + address),
        coin_lot_size: 1,
        pc_lot_size: 1,
        fee_tier: FeeTier { taker_fee_numerator: 0, taker_fee_denominator: 1 },
        bids,
        asks,
    }
}

fn token_payload(amount: u64) -> Vec<u8> {
    let mut data = vec![0u8; 165];
    data[64..72].copy_from_slice(&amount.to_le_bytes());
    data
}

#[test]
fn unpack_reads_little_endian_amount() {
    assert_eq!(unpack_token_amount(&token_payload(123_456_789)), Ok(123_456_789));
    assert_eq!(unpack_token_amount(&token_payload(u64::MAX)), Ok(u64::MAX));
}

#[test]
fn unpack_rejects_short_payload() {
    assert_eq!(
        unpack_token_amount(&vec![0u8; 71]),
        Err(PoolError::MalformedAccountData)
    );
}

#[test]
fn orca_quote_exact() {
    let p = orca(7, 1, 2, 10_000, 10_000);
    assert_eq!(
        p.get_quote_with_amounts_scaled(1000, &key(1), &key(2)),
        Ok(909)
    );
}

#[test]
fn orca_quote_rejects_foreign_mint() {
    let p = orca(7, 1, 2, 10_000, 10_000);
    assert_eq!(
        p.get_quote_with_amounts_scaled(1000, &key(1), &key(3)),
        Err(PoolError::InvalidMint)
    );
    assert_eq!(
        p.get_quote_with_amounts_scaled(1000, &key(1), &key(1)),
        Err(PoolError::InvalidMint)
    );
}

#[test]
fn orca_unknown_curve_discriminator_is_unsupported() {
    let mut p = orca(7, 1, 2, 10_000, 10_000);
    p.curve_type = 1;
    assert_eq!(
        p.get_quote_with_amounts_scaled(1000, &key(1), &key(2)),
        Err(PoolError::UnsupportedCurveType)
    );
}

#[test]
fn orca_can_trade_needs_both_reserves() {
    assert!(orca(7, 1, 2, 10, 10).can_trade(&key(1), &key(2)));
    assert!(!orca(7, 1, 2, 0, 10).can_trade(&key(1), &key(2)));
    assert!(!orca(7, 1, 2, 10, 0).can_trade(&key(1), &key(2)));
}

#[test]
fn orca_refresh_replaces_reserves_wholesale() {
    let mut p = orca(7, 1, 2, 0, 0);
    let accounts = vec![Some(token_payload(111)), Some(token_payload(222))];
    assert_eq!(p.set_update_accounts(&accounts), Ok(()));
    // mint 1 sorts before mint 2, so the first payload is mint 1's vault
    assert_eq!(p.pool_amount_a, 111);
    assert_eq!(p.pool_amount_b, 222);
}

#[test]
fn orca_refresh_missing_account_reported() {
    let mut p = orca(7, 1, 2, 5, 5);
    let accounts = vec![Some(token_payload(111)), None];
    assert_eq!(p.set_update_accounts(&accounts), Err(PoolError::MissingAccount));
    assert_eq!(p.pool_amount_a, 5);
    assert_eq!(p.pool_amount_b, 5);
    let short: Vec<Option<Vec<u8>>> = vec![Some(token_payload(111))];
    assert_eq!(p.set_update_accounts(&short), Err(PoolError::MissingAccount));
}

#[test]
fn orca_refresh_malformed_payload_reported() {
    let mut p = orca(7, 1, 2, 5, 5);
    let accounts = vec![Some(vec![0u8; 10]), Some(token_payload(222))];
    assert_eq!(
        p.set_update_accounts(&accounts),
        Err(PoolError::MalformedAccountData)
    );
    assert_eq!(p.pool_amount_a, 5);
}

#[test]
fn orca_update_accounts_follow_canonical_mint_order() {
    let p = orca(7, 2, 1, 10, 10);
    // mint 1 (held as mint_b) sorts first, so its vault comes first
    assert_eq!(p.get_update_accounts(), vec![key(2007), key(1007)]);
    let mints = p.get_mints();
    assert_eq!(mints, (key(1), key(2)));
}

#[test]
fn raydium_quote_exact() {
    let p = raydium(8, 1, 2, 10_000, 10_000);
    assert_eq!(
        p.get_quote_with_amounts_scaled(1000, &key(2), &key(1)),
        Ok(909)
    );
}

#[test]
fn serum_quote_walks_the_asks_for_a_bid() {
    // spending quote currency buys base from the ask side
    let p = serum(9, 2, 1, vec![], vec![order(1, 2, 300), order(2, 4, 500)]);
    assert_eq!(
        p.get_quote_with_amounts_scaled(1000, &key(1), &key(2)),
        Ok(400)
    );
    // the live snapshot is untouched: quoting twice gives the same answer
    assert_eq!(
        p.get_quote_with_amounts_scaled(1000, &key(1), &key(2)),
        Ok(400)
    );
}

#[test]
fn serum_quote_walks_the_bids_for_an_ask() {
    let p = serum(9, 2, 1, vec![order(5, 3, 400), order(6, 2, 400)], vec![]);
    assert_eq!(
        p.get_quote_with_amounts_scaled(700, &key(2), &key(1)),
        Ok(1800)
    );
}

#[test]
fn serum_quote_rejects_oversized_amount() {
    let p = serum(9, 2, 1, vec![], vec![order(1, 2, 300)]);
    assert_eq!(
        p.get_quote_with_amounts_scaled(u64::MAX as u128 + 1, &key(1), &key(2)),
        Err(PoolError::ArithmeticOverflow)
    );
}

#[test]
fn serum_can_trade_is_per_direction() {
    let p = serum(9, 2, 1, vec![order(5, 3, 400)], vec![]);
    // no asks: spending quote cannot fill
    assert!(!p.can_trade(&key(1), &key(2)));
    // bids exist: spending base can fill
    assert!(p.can_trade(&key(2), &key(1)));
}

#[test]
fn serum_refresh_rejects_unsorted_book() {
    let mut p = serum(9, 2, 1, vec![], vec![]);
    // asks must not decrease in price
    let r = p.set_update_accounts(vec![], vec![order(1, 5, 10), order(2, 4, 10)]);
    assert_eq!(r, Err(PoolError::MalformedAccountData));
    // a zero-quantity order is malformed
    let r2 = p.set_update_accounts(vec![order(3, 2, 0)], vec![]);
    assert_eq!(r2, Err(PoolError::MalformedAccountData));
    // a well-formed snapshot is accepted
    let r3 = p.set_update_accounts(vec![order(4, 9, 5)], vec![order(5, 10, 5)]);
    assert_eq!(r3, Ok(()));
    assert_eq!(p.bids, vec![order(4, 9, 5)]);
    assert_eq!(p.asks, vec![order(5, 10, 5)]);
}

#[test]
fn pool_dispatch_is_uniform() {
    let o = Pool::Orca(orca(7, 1, 2, 10_000, 10_000));
    let r = Pool::Raydium(raydium(8, 1, 2, 10_000, 10_000));
    let s = Pool::Serum(serum(9, 2, 1, vec![], vec![order(1, 2, 300)]));
    assert_eq!(o.get_name(), "Orca");
    assert_eq!(r.get_name(), "Raydium");
    assert_eq!(s.get_name(), "Serum");
    assert_eq!(o.address(), key(7));
    assert_eq!(s.address(), key(9));
    assert_eq!(o.get_quote_with_amounts_scaled(1000, &key(1), &key(2)), Ok(909));
    assert_eq!(s.get_quote_with_amounts_scaled(1000, &key(1), &key(2)), Ok(300));
    assert_eq!(o.get_mints(), (key(1), key(2)));
    assert_eq!(o.mint_2_scale(&key(3)), Err(PoolError::InvalidMint));
    assert_eq!(s.get_update_accounts().len(), 3);
}

#[test]
fn pool_refresh_rejects_batch_of_wrong_shape() {
    let mut o = Pool::Orca(orca(7, 1, 2, 10, 10));
    assert_eq!(
        o.set_update_accounts(AccountUpdate::BookSnapshot { bids: vec![], asks: vec![] }),
        Err(PoolError::MalformedAccountData)
    );
    let mut s = Pool::Serum(serum(9, 2, 1, vec![], vec![]));
    assert_eq!(
        s.set_update_accounts(AccountUpdate::TokenAccounts(vec![])),
        Err(PoolError::MalformedAccountData)
    );
    assert_eq!(
        s.set_update_accounts(AccountUpdate::BookSnapshot {
            bids: vec![],
            asks: vec![order(1, 2, 3)],
        }),
        Ok(())
    );
}
