//! Venues.
//!
//! A venue is a tradable market between exactly two tokens: a
//! constant-product or stable AMM, or an order-book market.  Every venue
//! exposes the same quoting contract — which mints it connects, whether
//! it is live, what a given input amount buys — behind a closed tagged
//! union, so the cycle search stays venue-agnostic and adding a venue
//! kind is a compile-time change at every dispatch site.

use vstd::prelude::*;
use crate::errors::PoolError;
use crate::keys::AccountId;
use crate::math::{Fees, CurveType, pool_quote_spec, get_pool_quote_with_amounts};
use crate::book::{
    Order, FeeTier, Iteration, Side, side_wf, side_prices_ascending, side_prices_descending,
    match_loop_spec, match_market_order,
};

verus! {

/// A fresh view of a venue's backing accounts, handed in by the layer
/// that fetched them: raw token-account payloads for AMM venues, an
/// already decoded book snapshot for order-book venues.
pub enum AccountUpdate {
    TokenAccounts(Vec<Option<Vec<u8>>>),
    BookSnapshot { bids: Vec<Order>, asks: Vec<Order> },
}

/// The token amount held by an SPL token account, as little-endian bytes
/// at a fixed offset of the account payload.
pub open spec fn token_amount_spec(data: Seq<u8>) -> int {
    data[64] + 0x100 * (data[65] + 0x100 * (data[66] + 0x100 * (data[67] + 0x100 * (data[68]
        + 0x100 * (data[69] + 0x100 * (data[70] + 0x100 * data[71]))))))
}

/// Decodes the amount field of an SPL token-account payload.  A payload
/// too short to carry the field is malformed.
pub fn unpack_token_amount(data: &Vec<u8>) -> (r: Result<u64, PoolError>)
    ensures
        match r {
            Ok(v) => data@.len() >= 72 && v as int == token_amount_spec(data@),
            Err(e) => e == PoolError::MalformedAccountData && data@.len() < 72,
        },
{
    if data.len() < 72 {
        return Err(PoolError::MalformedAccountData);
    }
    let b0 = data[64] as u64;
    let b1 = data[65] as u64;
    let b2 = data[66] as u64;
    let b3 = data[67] as u64;
    let b4 = data[68] as u64;
    let b5 = data[69] as u64;
    let b6 = data[70] as u64;
    let b7 = data[71] as u64;
    let v = b0 + 0x100 * (b1 + 0x100 * (b2 + 0x100 * (b3 + 0x100 * (b4 + 0x100 * (b5 + 0x100 * (b6
        + 0x100 * b7))))));
    Ok(v)
}

/// Maps a venue's curve discriminator to a pricing law.  Discriminators
/// this library does not know have no law and make the venue unusable.
pub open spec fn curve_of_spec(discriminator: int) -> Option<CurveType> {
    if discriminator == 0 {
        Some(CurveType::ConstantProduct)
    } else if discriminator == 2 {
        Some(CurveType::Stable)
    } else {
        None
    }
}

/// Executable twin of `curve_of_spec`.
pub fn curve_of(discriminator: u8) -> (r: Option<CurveType>)
    ensures
        r == curve_of_spec(discriminator as int),
{
    if discriminator == 0 {
        Some(CurveType::ConstantProduct)
    } else if discriminator == 2 {
        Some(CurveType::Stable)
    } else {
        None
    }
}

/// An AMM venue that can price under either the constant-product or the
/// stable curve, with a trade fee and an owner fee.
pub struct OrcaPool {
    /// The venue's own account address.
    pub address: AccountId,
    /// The two mints the venue connects.
    pub mint_a: AccountId,
    pub mint_b: AccountId,
    /// Decimal scales of the two mints.
    pub scale_a: u64,
    pub scale_b: u64,
    /// The venue's vault accounts holding the two reserves.
    pub vault_a: AccountId,
    pub vault_b: AccountId,
    /// Fee schedule.
    pub fees: Fees,
    /// Curve discriminator: `0` is constant-product, `2` is stable.
    pub curve_type: u8,
    /// Amplification coefficient, meaningful for the stable curve only.
    pub amp: u64,
    /// Current reserves, replaced wholesale on refresh.
    pub pool_amount_a: u128,
    pub pool_amount_b: u128,
}

/// An AMM venue pricing under the constant-product curve with a trade
/// fee only.
pub struct RaydiumPool {
    /// The venue's own account address.
    pub address: AccountId,
    /// The two mints the venue connects.
    pub mint_a: AccountId,
    pub mint_b: AccountId,
    /// Decimal scales of the two mints.
    pub scale_a: u64,
    pub scale_b: u64,
    /// The venue's vault accounts holding the two reserves.
    pub vault_a: AccountId,
    pub vault_b: AccountId,
    /// Trade fee rate.
    pub trade_fee_numerator: u64,
    pub trade_fee_denominator: u64,
    /// Current reserves, replaced wholesale on refresh.
    pub pool_amount_a: u128,
    pub pool_amount_b: u128,
}

impl OrcaPool {
    /// Whether the pair `(mint_in, mint_out)` is exactly this venue's
    /// pair, in either direction.
    pub open spec fn connects_spec(self, mint_in: AccountId, mint_out: AccountId) -> bool {
        &&& mint_in != mint_out
        &&& (mint_in == self.mint_a || mint_in == self.mint_b)
        &&& (mint_out == self.mint_a || mint_out == self.mint_b)
    }

    /// The reserve backing a given mint.
    pub open spec fn reserve_spec(self, mint: AccountId) -> int {
        if mint == self.mint_a {
            self.pool_amount_a as int
        } else {
            self.pool_amount_b as int
        }
    }

    /// What a quote through this venue returns, for every input.
    pub open spec fn quote_spec(self, amount: int, mint_in: AccountId, mint_out: AccountId)
        -> Result<int, PoolError> {
        if !self.connects_spec(mint_in, mint_out) {
            Err(PoolError::InvalidMint)
        } else {
            match curve_of_spec(self.curve_type as int) {
                None => Err(PoolError::UnsupportedCurveType),
                Some(ct) => pool_quote_spec(
                    amount,
                    ct,
                    self.amp as int,
                    self.fees,
                    self.reserve_spec(mint_in),
                    self.reserve_spec(mint_out),
                ),
            }
        }
    }

    /// Liveness: the venue can be traded through only while both
    /// reserves are funded.
    pub open spec fn can_trade_spec(self) -> bool {
        self.pool_amount_a != 0 && self.pool_amount_b != 0
    }

    /// Quotes a swap of `scaled_amount_in` of `mint_in` into `mint_out`.
    pub fn get_quote_with_amounts_scaled(
        &self,
        scaled_amount_in: u128,
        mint_in: &AccountId,
        mint_out: &AccountId,
    ) -> (r: Result<u128, PoolError>)
        ensures
            crate::stable::quote_matches(
                r,
                self.quote_spec(scaled_amount_in as int, *mint_in, *mint_out),
            ),
            self.curve_type == 0 && r is Ok ==> (r matches Ok(v) && v < self.reserve_spec(
                *mint_out,
            )),
    {
        if mint_in == mint_out {
            return Err(PoolError::InvalidMint);
        }
        let in_is_a = *mint_in == self.mint_a;
        let in_is_b = *mint_in == self.mint_b;
        let out_is_a = *mint_out == self.mint_a;
        let out_is_b = *mint_out == self.mint_b;
        if !(in_is_a || in_is_b) || !(out_is_a || out_is_b) {
            return Err(PoolError::InvalidMint);
        }
        let ct = match curve_of(self.curve_type) {
            Some(c) => c,
            None => {
                return Err(PoolError::UnsupportedCurveType);
            },
        };
        let pool_src_amount = if in_is_a {
            self.pool_amount_a
        } else {
            self.pool_amount_b
        };
        let pool_dst_amount = if out_is_a {
            self.pool_amount_a
        } else {
            self.pool_amount_b
        };
        get_pool_quote_with_amounts(
            scaled_amount_in,
            ct,
            self.amp,
            &self.fees,
            pool_src_amount,
            pool_dst_amount,
        )
    }

    /// Liveness check; the mints play no role, an unfunded reserve on
    /// either side rules the venue out in both directions.
    pub fn can_trade(&self, _mint_in: &AccountId, _mint_out: &AccountId) -> (r: bool)
        ensures
            r == self.can_trade_spec(),
    {
        self.pool_amount_a != 0 && self.pool_amount_b != 0
    }

    /// The venue's two mints in canonical order.
    pub fn get_mints(&self) -> (r: (AccountId, AccountId))
        ensures
            r.0.le_spec(r.1),
            r.0 == self.mint_a || r.0 == self.mint_b,
            r.1 == self.mint_a || r.1 == self.mint_b,
            self.mint_a != self.mint_b ==> r.0 != r.1,
    {
        proof {
            crate::keys::lemma_account_id_order_total(self.mint_a, self.mint_b);
        }
        if self.mint_a.le(&self.mint_b) {
            (self.mint_a, self.mint_b)
        } else {
            (self.mint_b, self.mint_a)
        }
    }

    /// The vault backing a given mint.
    pub fn mint_2_addr(&self, mint: &AccountId) -> (r: Result<AccountId, PoolError>)
        ensures
            *mint == self.mint_a ==> r == Ok::<AccountId, PoolError>(self.vault_a),
            *mint != self.mint_a && *mint == self.mint_b ==> r == Ok::<AccountId, PoolError>(
                self.vault_b,
            ),
            *mint != self.mint_a && *mint != self.mint_b ==> r == Err::<AccountId, PoolError>(
                PoolError::InvalidMint,
            ),
    {
        if *mint == self.mint_a {
            Ok(self.vault_a)
        } else if *mint == self.mint_b {
            Ok(self.vault_b)
        } else {
            Err(PoolError::InvalidMint)
        }
    }

    /// The decimal scale of a given mint.
    pub fn mint_2_scale(&self, mint: &AccountId) -> (r: Result<u64, PoolError>)
        ensures
            *mint == self.mint_a ==> r == Ok::<u64, PoolError>(self.scale_a),
            *mint != self.mint_a && *mint == self.mint_b ==> r == Ok::<u64, PoolError>(
                self.scale_b,
            ),
            *mint != self.mint_a && *mint != self.mint_b ==> r == Err::<u64, PoolError>(
                PoolError::InvalidMint,
            ),
    {
        if *mint == self.mint_a {
            Ok(self.scale_a)
        } else if *mint == self.mint_b {
            Ok(self.scale_b)
        } else {
            Err(PoolError::InvalidMint)
        }
    }

    /// The accounts a refresh must fetch: the two vaults, in canonical
    /// mint order.
    pub fn get_update_accounts(&self) -> (r: Vec<AccountId>)
        ensures
            r@.len() == 2,
            self.mint_a.le_spec(self.mint_b) ==> r@ == seq![self.vault_a, self.vault_b],
            !self.mint_a.le_spec(self.mint_b) ==> r@ == seq![self.vault_b, self.vault_a],
    {
        let mut r: Vec<AccountId> = Vec::new();
        if self.mint_a.le(&self.mint_b) {
            r.push(self.vault_a);
            r.push(self.vault_b);
            proof {
                assert(r@ =~= seq![self.vault_a, self.vault_b]);
            }
        } else {
            r.push(self.vault_b);
            r.push(self.vault_a);
            proof {
                assert(r@ =~= seq![self.vault_b, self.vault_a]);
            }
        }
        r
    }

    /// What a refresh from the given payloads leaves behind: both
    /// reserves decoded from the vault payloads in canonical mint order,
    /// or the error that rules the venue out of the current pass.
    pub open spec fn refresh_spec(self, accounts: Seq<Option<Seq<u8>>>) -> Result<
        OrcaPool,
        PoolError,
    > {
        if accounts.len() < 2 {
            Err(PoolError::MissingAccount)
        } else if accounts[0] is None || accounts[1] is None {
            Err(PoolError::MissingAccount)
        } else {
            let d0 = accounts[0]->0;
            let d1 = accounts[1]->0;
            if d0.len() < 72 || d1.len() < 72 {
                Err(PoolError::MalformedAccountData)
            } else {
                let amount0 = token_amount_spec(d0);
                let amount1 = token_amount_spec(d1);
                if self.mint_a.le_spec(self.mint_b) {
                    Ok(
                        OrcaPool {
                            pool_amount_a: amount0 as u128,
                            pool_amount_b: amount1 as u128,
                            ..self
                        },
                    )
                } else {
                    Ok(
                        OrcaPool {
                            pool_amount_a: amount1 as u128,
                            pool_amount_b: amount0 as u128,
                            ..self
                        },
                    )
                }
            }
        }
    }

    /// Replaces both reserves wholesale from freshly fetched vault
    /// payloads, in the order `get_update_accounts` declared.  On any
    /// error the venue is left untouched.
    pub fn set_update_accounts(&mut self, accounts: &Vec<Option<Vec<u8>>>) -> (r: Result<
        (),
        PoolError,
    >)
        ensures
            match r {
                Ok(()) => old(self).refresh_spec(accounts@.map_values(|o: Option<Vec<u8>>| opt_view(o)))
                    == Ok::<OrcaPool, PoolError>(*final(self)),
                Err(e) => {
                    &&& old(self).refresh_spec(
                        accounts@.map_values(|o: Option<Vec<u8>>| opt_view(o)),
                    ) == Err::<OrcaPool, PoolError>(e)
                    &&& *final(self) == *old(self)
                },
            },
    {
        if accounts.len() < 2 {
            return Err(PoolError::MissingAccount);
        }
        let d0 = match &accounts[0] {
            Some(d) => d,
            None => {
                return Err(PoolError::MissingAccount);
            },
        };
        let d1 = match &accounts[1] {
            Some(d) => d,
            None => {
                return Err(PoolError::MissingAccount);
            },
        };
        let amount0 = match unpack_token_amount(d0) {
            Ok(v) => v,
            Err(e) => {
                return Err(e);
            },
        };
        let amount1 = match unpack_token_amount(d1) {
            Ok(v) => v,
            Err(e) => {
                return Err(e);
            },
        };
        if self.mint_a.le(&self.mint_b) {
            self.pool_amount_a = amount0 as u128;
            self.pool_amount_b = amount1 as u128;
        } else {
            self.pool_amount_a = amount1 as u128;
            self.pool_amount_b = amount0 as u128;
        }
        Ok(())
    }

    /// The display name of the venue kind.
    pub fn get_name(&self) -> (r: &'static str)
        ensures
            r@ == "Orca"@,
    {
        "Orca"
    }
}

/// The payload sequence carried by an optional account.
pub open spec fn opt_view(o: Option<Vec<u8>>) -> Option<Seq<u8>> {
    match o {
        Some(v) => Some(v@),
        None => None,
    }
}

impl RaydiumPool {
    /// Whether the pair `(mint_in, mint_out)` is exactly this venue's
    /// pair, in either direction.
    pub open spec fn connects_spec(self, mint_in: AccountId, mint_out: AccountId) -> bool {
        &&& mint_in != mint_out
        &&& (mint_in == self.mint_a || mint_in == self.mint_b)
        &&& (mint_out == self.mint_a || mint_out == self.mint_b)
    }

    /// The reserve backing a given mint.
    pub open spec fn reserve_spec(self, mint: AccountId) -> int {
        if mint == self.mint_a {
            self.pool_amount_a as int
        } else {
            self.pool_amount_b as int
        }
    }

    /// The venue's fee schedule: a trade fee only.
    pub open spec fn fees_spec(self) -> Fees {
        Fees {
            trade_fee_numerator: self.trade_fee_numerator,
            trade_fee_denominator: self.trade_fee_denominator,
            owner_trade_fee_numerator: 0,
            owner_trade_fee_denominator: 0,
        }
    }

    /// What a quote through this venue returns, for every input.
    pub open spec fn quote_spec(self, amount: int, mint_in: AccountId, mint_out: AccountId)
        -> Result<int, PoolError> {
        if !self.connects_spec(mint_in, mint_out) {
            Err(PoolError::InvalidMint)
        } else {
            pool_quote_spec(
                amount,
                CurveType::ConstantProduct,
                0,
                self.fees_spec(),
                self.reserve_spec(mint_in),
                self.reserve_spec(mint_out),
            )
        }
    }

    /// Liveness: the venue can be traded through only while both
    /// reserves are funded.
    pub open spec fn can_trade_spec(self) -> bool {
        self.pool_amount_a != 0 && self.pool_amount_b != 0
    }

    /// Quotes a swap of `scaled_amount_in` of `mint_in` into `mint_out`
    /// under the constant-product curve.
    pub fn get_quote_with_amounts_scaled(
        &self,
        scaled_amount_in: u128,
        mint_in: &AccountId,
        mint_out: &AccountId,
    ) -> (r: Result<u128, PoolError>)
        ensures
            crate::stable::quote_matches(
                r,
                self.quote_spec(scaled_amount_in as int, *mint_in, *mint_out),
            ),
            r is Ok ==> (r matches Ok(v) && v < self.reserve_spec(*mint_out)),
    {
        if mint_in == mint_out {
            return Err(PoolError::InvalidMint);
        }
        let in_is_a = *mint_in == self.mint_a;
        let in_is_b = *mint_in == self.mint_b;
        let out_is_a = *mint_out == self.mint_a;
        let out_is_b = *mint_out == self.mint_b;
        if !(in_is_a || in_is_b) || !(out_is_a || out_is_b) {
            return Err(PoolError::InvalidMint);
        }
        let fees = Fees {
            trade_fee_numerator: self.trade_fee_numerator,
            trade_fee_denominator: self.trade_fee_denominator,
            owner_trade_fee_numerator: 0,
            owner_trade_fee_denominator: 0,
        };
        let pool_src_amount = if in_is_a {
            self.pool_amount_a
        } else {
            self.pool_amount_b
        };
        let pool_dst_amount = if out_is_a {
            self.pool_amount_a
        } else {
            self.pool_amount_b
        };
        get_pool_quote_with_amounts(
            scaled_amount_in,
            CurveType::ConstantProduct,
            0,
            &fees,
            pool_src_amount,
            pool_dst_amount,
        )
    }

    /// Liveness check; the mints play no role, an unfunded reserve on
    /// either side rules the venue out in both directions.
    pub fn can_trade(&self, _mint_in: &AccountId, _mint_out: &AccountId) -> (r: bool)
        ensures
            r == self.can_trade_spec(),
    {
        self.pool_amount_a != 0 && self.pool_amount_b != 0
    }

    /// The venue's two mints in canonical order.
    pub fn get_mints(&self) -> (r: (AccountId, AccountId))
        ensures
            r.0.le_spec(r.1),
            r.0 == self.mint_a || r.0 == self.mint_b,
            r.1 == self.mint_a || r.1 == self.mint_b,
            self.mint_a != self.mint_b ==> r.0 != r.1,
    {
        proof {
            crate::keys::lemma_account_id_order_total(self.mint_a, self.mint_b);
        }
        if self.mint_a.le(&self.mint_b) {
            (self.mint_a, self.mint_b)
        } else {
            (self.mint_b, self.mint_a)
        }
    }

    /// The vault backing a given mint.
    pub fn mint_2_addr(&self, mint: &AccountId) -> (r: Result<AccountId, PoolError>)
        ensures
            *mint == self.mint_a ==> r == Ok::<AccountId, PoolError>(self.vault_a),
            *mint != self.mint_a && *mint == self.mint_b ==> r == Ok::<AccountId, PoolError>(
                self.vault_b,
            ),
            *mint != self.mint_a && *mint != self.mint_b ==> r == Err::<AccountId, PoolError>(
                PoolError::InvalidMint,
            ),
    {
        if *mint == self.mint_a {
            Ok(self.vault_a)
        } else if *mint == self.mint_b {
            Ok(self.vault_b)
        } else {
            Err(PoolError::InvalidMint)
        }
    }

    /// The decimal scale of a given mint.
    pub fn mint_2_scale(&self, mint: &AccountId) -> (r: Result<u64, PoolError>)
        ensures
            *mint == self.mint_a ==> r == Ok::<u64, PoolError>(self.scale_a),
            *mint != self.mint_a && *mint == self.mint_b ==> r == Ok::<u64, PoolError>(
                self.scale_b,
            ),
            *mint != self.mint_a && *mint != self.mint_b ==> r == Err::<u64, PoolError>(
                PoolError::InvalidMint,
            ),
    {
        if *mint == self.mint_a {
            Ok(self.scale_a)
        } else if *mint == self.mint_b {
            Ok(self.scale_b)
        } else {
            Err(PoolError::InvalidMint)
        }
    }

    /// The accounts a refresh must fetch: the two vaults, in canonical
    /// mint order.
    pub fn get_update_accounts(&self) -> (r: Vec<AccountId>)
        ensures
            r@.len() == 2,
            self.mint_a.le_spec(self.mint_b) ==> r@ == seq![self.vault_a, self.vault_b],
            !self.mint_a.le_spec(self.mint_b) ==> r@ == seq![self.vault_b, self.vault_a],
    {
        let mut r: Vec<AccountId> = Vec::new();
        if self.mint_a.le(&self.mint_b) {
            r.push(self.vault_a);
            r.push(self.vault_b);
            proof {
                assert(r@ =~= seq![self.vault_a, self.vault_b]);
            }
        } else {
            r.push(self.vault_b);
            r.push(self.vault_a);
            proof {
                assert(r@ =~= seq![self.vault_b, self.vault_a]);
            }
        }
        r
    }

    /// What a refresh from the given payloads leaves behind: both
    /// reserves decoded from the vault payloads in canonical mint order,
    /// or the error that rules the venue out of the current pass.
    pub open spec fn refresh_spec(self, accounts: Seq<Option<Seq<u8>>>) -> Result<
        RaydiumPool,
        PoolError,
    > {
        if accounts.len() < 2 {
            Err(PoolError::MissingAccount)
        } else if accounts[0] is None || accounts[1] is None {
            Err(PoolError::MissingAccount)
        } else {
            let d0 = accounts[0]->0;
            let d1 = accounts[1]->0;
            if d0.len() < 72 || d1.len() < 72 {
                Err(PoolError::MalformedAccountData)
            } else {
                let amount0 = token_amount_spec(d0);
                let amount1 = token_amount_spec(d1);
                if self.mint_a.le_spec(self.mint_b) {
                    Ok(
                        RaydiumPool {
                            pool_amount_a: amount0 as u128,
                            pool_amount_b: amount1 as u128,
                            ..self
                        },
                    )
                } else {
                    Ok(
                        RaydiumPool {
                            pool_amount_a: amount1 as u128,
                            pool_amount_b: amount0 as u128,
                            ..self
                        },
                    )
                }
            }
        }
    }

    /// Replaces both reserves wholesale from freshly fetched vault
    /// payloads, in the order `get_update_accounts` declared.  On any
    /// error the venue is left untouched.
    pub fn set_update_accounts(&mut self, accounts: &Vec<Option<Vec<u8>>>) -> (r: Result<
        (),
        PoolError,
    >)
        ensures
            match r {
                Ok(()) => old(self).refresh_spec(
                    accounts@.map_values(|o: Option<Vec<u8>>| opt_view(o)),
                ) == Ok::<RaydiumPool, PoolError>(*final(self)),
                Err(e) => {
                    &&& old(self).refresh_spec(
                        accounts@.map_values(|o: Option<Vec<u8>>| opt_view(o)),
                    ) == Err::<RaydiumPool, PoolError>(e)
                    &&& *final(self) == *old(self)
                },
            },
    {
        if accounts.len() < 2 {
            return Err(PoolError::MissingAccount);
        }
        let d0 = match &accounts[0] {
            Some(d) => d,
            None => {
                return Err(PoolError::MissingAccount);
            },
        };
        let d1 = match &accounts[1] {
            Some(d) => d,
            None => {
                return Err(PoolError::MissingAccount);
            },
        };
        let amount0 = match unpack_token_amount(d0) {
            Ok(v) => v,
            Err(e) => {
                return Err(e);
            },
        };
        let amount1 = match unpack_token_amount(d1) {
            Ok(v) => v,
            Err(e) => {
                return Err(e);
            },
        };
        if self.mint_a.le(&self.mint_b) {
            self.pool_amount_a = amount0 as u128;
            self.pool_amount_b = amount1 as u128;
        } else {
            self.pool_amount_a = amount1 as u128;
            self.pool_amount_b = amount0 as u128;
        }
        Ok(())
    }

    /// The display name of the venue kind.
    pub fn get_name(&self) -> (r: &'static str)
        ensures
            r@ == "Raydium"@,
    {
        "Raydium"
    }
}

/// An order-book venue: price discovery happens by matching a market
/// order against the resting orders of the opposite side of the book.
pub struct SerumPool {
    /// The market's own account address.
    pub own_address: AccountId,
    /// The base and quote mints the market connects.
    pub base_mint: AccountId,
    pub quote_mint: AccountId,
    /// Decimal scales of the two mints.
    pub base_scale: u64,
    pub quote_scale: u64,
    /// Account addresses of the resting bid and ask books.
    pub bids_account: AccountId,
    pub asks_account: AccountId,
    /// Minimum tradable increments for base and quote quantities.
    pub coin_lot_size: u64,
    pub pc_lot_size: u64,
    /// Taker fee schedule.
    pub fee_tier: FeeTier,
    /// Current book snapshot, replaced wholesale on refresh: bids with
    /// the best (highest) price first, asks with the best (lowest)
    /// price first.
    pub bids: Vec<Order>,
    pub asks: Vec<Order>,
}

impl SerumPool {
    /// A usable market: positive lot sizes, a sub-unit fee rate, and
    /// book sides that are well formed and price-ordered.
    pub open spec fn wf(self) -> bool {
        &&& self.fee_tier.wf()
        &&& self.coin_lot_size >= 1
        &&& self.pc_lot_size >= 1
        &&& side_wf(self.bids@)
        &&& side_wf(self.asks@)
        &&& side_prices_descending(self.bids@)
        &&& side_prices_ascending(self.asks@)
    }

    /// Whether the pair `(mint_in, mint_out)` is exactly this market's
    /// pair, in either direction.
    pub open spec fn connects_spec(self, mint_in: AccountId, mint_out: AccountId) -> bool {
        &&& mint_in != mint_out
        &&& (mint_in == self.base_mint || mint_in == self.quote_mint)
        &&& (mint_out == self.base_mint || mint_out == self.quote_mint)
    }

    /// What a quote through this market returns, for every input:
    /// spending quote currency walks the asks, spending base walks the
    /// bids, and the result is what the walk bought net of taker fees.
    pub open spec fn quote_spec(self, amount: int, mint_in: AccountId, mint_out: AccountId)
        -> Result<int, PoolError> {
        if !self.connects_spec(mint_in, mint_out) {
            Err(PoolError::InvalidMint)
        } else if amount > u64::MAX {
            Err(PoolError::ArithmeticOverflow)
        } else {
            let is_bid = mint_in == self.quote_mint;
            let walk = if is_bid {
                match_loop_spec(
                    Side::Bid,
                    Iteration { amount_in: amount as u64, amount_out: 0 },
                    self.fee_tier,
                    self.asks@,
                    self.pc_lot_size as int,
                    self.coin_lot_size as int,
                )
            } else {
                match_loop_spec(
                    Side::Ask,
                    Iteration { amount_in: amount as u64, amount_out: 0 },
                    self.fee_tier,
                    self.bids@,
                    self.pc_lot_size as int,
                    self.coin_lot_size as int,
                )
            };
            match walk {
                Err(e) => Err(e),
                Ok((it2, _rest)) => Ok(it2.amount_out as int),
            }
        }
    }

    /// Liveness per direction: a bid needs at least one resting ask, an
    /// ask at least one resting bid.  The wrong side being empty rules
    /// out that direction only.
    pub open spec fn can_trade_spec(self, mint_in: AccountId) -> bool {
        if mint_in == self.quote_mint {
            self.asks@.len() > 0
        } else {
            self.bids@.len() > 0
        }
    }

    /// Quotes a swap of `amount_in` of `mint_in` into `mint_out` by
    /// simulating the match on a working copy of the book; the venue's
    /// own snapshot is never touched.
    pub fn get_quote_with_amounts_scaled(
        &self,
        amount_in: u128,
        mint_in: &AccountId,
        mint_out: &AccountId,
    ) -> (r: Result<u128, PoolError>)
        requires
            self.wf(),
        ensures
            crate::stable::quote_matches(
                r,
                self.quote_spec(amount_in as int, *mint_in, *mint_out),
            ),
    {
        if mint_in == mint_out {
            return Err(PoolError::InvalidMint);
        }
        let in_is_base = *mint_in == self.base_mint;
        let in_is_quote = *mint_in == self.quote_mint;
        let out_is_base = *mint_out == self.base_mint;
        let out_is_quote = *mint_out == self.quote_mint;
        if !(in_is_base || in_is_quote) || !(out_is_base || out_is_quote) {
            return Err(PoolError::InvalidMint);
        }
        if amount_in > u64::MAX as u128 {
            return Err(PoolError::ArithmeticOverflow);
        }
        let amount = amount_in as u64;
        let is_bid = in_is_quote;
        let mut working = if is_bid {
            crate::book::copy_orders(&self.asks)
        } else {
            crate::book::copy_orders(&self.bids)
        };
        let side = if is_bid {
            Side::Bid
        } else {
            Side::Ask
        };
        match match_market_order(
            side,
            amount,
            &self.fee_tier,
            &mut working,
            self.pc_lot_size,
            self.coin_lot_size,
        ) {
            Ok(it) => Ok(it.amount_out as u128),
            Err(e) => Err(e),
        }
    }

    /// Liveness check for the direction starting at `mint_in`.
    pub fn can_trade(&self, mint_in: &AccountId, _mint_out: &AccountId) -> (r: bool)
        ensures
            r == self.can_trade_spec(*mint_in),
    {
        if *mint_in == self.quote_mint {
            self.asks.len() > 0
        } else {
            self.bids.len() > 0
        }
    }

    /// The market's two mints in canonical order.
    pub fn get_mints(&self) -> (r: (AccountId, AccountId))
        ensures
            r.0.le_spec(r.1),
            r.0 == self.base_mint || r.0 == self.quote_mint,
            r.1 == self.base_mint || r.1 == self.quote_mint,
            self.base_mint != self.quote_mint ==> r.0 != r.1,
    {
        proof {
            crate::keys::lemma_account_id_order_total(self.base_mint, self.quote_mint);
        }
        if self.base_mint.le(&self.quote_mint) {
            (self.base_mint, self.quote_mint)
        } else {
            (self.quote_mint, self.base_mint)
        }
    }

    /// The decimal scale of a given mint.
    pub fn mint_2_scale(&self, mint: &AccountId) -> (r: Result<u64, PoolError>)
        ensures
            *mint == self.base_mint ==> r == Ok::<u64, PoolError>(self.base_scale),
            *mint != self.base_mint && *mint == self.quote_mint ==> r == Ok::<u64, PoolError>(
                self.quote_scale,
            ),
            *mint != self.base_mint && *mint != self.quote_mint ==> r == Err::<u64, PoolError>(
                PoolError::InvalidMint,
            ),
    {
        if *mint == self.base_mint {
            Ok(self.base_scale)
        } else if *mint == self.quote_mint {
            Ok(self.quote_scale)
        } else {
            Err(PoolError::InvalidMint)
        }
    }

    /// The accounts a refresh must fetch: the market itself and its two
    /// book accounts.
    pub fn get_update_accounts(&self) -> (r: Vec<AccountId>)
        ensures
            r@ == seq![self.own_address, self.bids_account, self.asks_account],
    {
        let mut r: Vec<AccountId> = Vec::new();
        r.push(self.own_address);
        r.push(self.bids_account);
        r.push(self.asks_account);
        proof {
            assert(r@ =~= seq![self.own_address, self.bids_account, self.asks_account]);
        }
        r
    }

    /// Whether a decoded snapshot is acceptable as this market's new
    /// book.
    pub open spec fn snapshot_ok(bids: Seq<Order>, asks: Seq<Order>) -> bool {
        &&& side_wf(bids)
        &&& side_wf(asks)
        &&& side_prices_descending(bids)
        &&& side_prices_ascending(asks)
    }

    /// Replaces the book snapshot wholesale from a freshly decoded pair
    /// of sides.  A snapshot that is not price-ordered, or that carries
    /// an order of zero price or quantity, is malformed and leaves the
    /// market untouched.
    pub fn set_update_accounts(&mut self, bids: Vec<Order>, asks: Vec<Order>) -> (r: Result<
        (),
        PoolError,
    >)
        ensures
            match r {
                Ok(()) => {
                    &&& SerumPool::snapshot_ok(bids@, asks@)
                    &&& final(self).bids@ == bids@
                    &&& final(self).asks@ == asks@
                    &&& final(self).own_address == old(self).own_address
                    &&& final(self).base_mint == old(self).base_mint
                    &&& final(self).quote_mint == old(self).quote_mint
                    &&& final(self).base_scale == old(self).base_scale
                    &&& final(self).quote_scale == old(self).quote_scale
                    &&& final(self).bids_account == old(self).bids_account
                    &&& final(self).asks_account == old(self).asks_account
                    &&& final(self).coin_lot_size == old(self).coin_lot_size
                    &&& final(self).pc_lot_size == old(self).pc_lot_size
                    &&& final(self).fee_tier == old(self).fee_tier
                },
                Err(e) => {
                    &&& e == PoolError::MalformedAccountData
                    &&& !SerumPool::snapshot_ok(bids@, asks@)
                    &&& *final(self) == *old(self)
                },
            },
            old(self).wf() ==> final(self).wf(),
    {
        if !crate::book::check_book_side(&bids, false) {
            return Err(PoolError::MalformedAccountData);
        }
        if !crate::book::check_book_side(&asks, true) {
            return Err(PoolError::MalformedAccountData);
        }
        self.bids = bids;
        self.asks = asks;
        Ok(())
    }

    /// The display name of the venue kind.
    pub fn get_name(&self) -> (r: &'static str)
        ensures
            r@ == "Serum"@,
    {
        "Serum"
    }
}

/// A venue: one tradable market between exactly two tokens, of any of
/// the supported kinds, behind one uniform quoting contract.
pub enum Pool {
    Orca(OrcaPool),
    Raydium(RaydiumPool),
    Serum(SerumPool),
}

impl Pool {
    /// Structural soundness of the venue's own state.  AMM venues carry
    /// no structural obligations; an order-book venue must hold a
    /// price-ordered book and positive lot sizes.
    pub open spec fn wf(self) -> bool {
        match self {
            Pool::Orca(_) => true,
            Pool::Raydium(_) => true,
            Pool::Serum(p) => p.wf(),
        }
    }

    /// The venue's own address, its identity for deduplication.
    pub open spec fn address_spec(self) -> AccountId {
        match self {
            Pool::Orca(p) => p.address,
            Pool::Raydium(p) => p.address,
            Pool::Serum(p) => p.own_address,
        }
    }

    /// The venue's pair, as stored (not canonically ordered).
    pub open spec fn mints_spec(self) -> (AccountId, AccountId) {
        match self {
            Pool::Orca(p) => (p.mint_a, p.mint_b),
            Pool::Raydium(p) => (p.mint_a, p.mint_b),
            Pool::Serum(p) => (p.base_mint, p.quote_mint),
        }
    }

    /// What a quote through the venue returns, for every input.
    pub open spec fn quote_spec(self, amount: int, mint_in: AccountId, mint_out: AccountId)
        -> Result<int, PoolError> {
        match self {
            Pool::Orca(p) => p.quote_spec(amount, mint_in, mint_out),
            Pool::Raydium(p) => p.quote_spec(amount, mint_in, mint_out),
            Pool::Serum(p) => p.quote_spec(amount, mint_in, mint_out),
        }
    }

    /// The venue's liveness for the direction `mint_in -> mint_out`.
    pub open spec fn can_trade_spec(self, mint_in: AccountId, mint_out: AccountId) -> bool {
        match self {
            Pool::Orca(p) => p.can_trade_spec(),
            Pool::Raydium(p) => p.can_trade_spec(),
            Pool::Serum(p) => p.can_trade_spec(mint_in),
        }
    }

    /// The venue's own address.
    pub fn address(&self) -> (r: AccountId)
        ensures
            r == self.address_spec(),
    {
        match self {
            Pool::Orca(p) => p.address,
            Pool::Raydium(p) => p.address,
            Pool::Serum(p) => p.own_address,
        }
    }

    /// Quotes a swap of `scaled_amount_in` of `mint_in` into `mint_out`
    /// under the venue's own pricing law, fees included.
    pub fn get_quote_with_amounts_scaled(
        &self,
        scaled_amount_in: u128,
        mint_in: &AccountId,
        mint_out: &AccountId,
    ) -> (r: Result<u128, PoolError>)
        requires
            self.wf(),
        ensures
            crate::stable::quote_matches(
                r,
                self.quote_spec(scaled_amount_in as int, *mint_in, *mint_out),
            ),
    {
        match self {
            Pool::Orca(p) => p.get_quote_with_amounts_scaled(scaled_amount_in, mint_in, mint_out),
            Pool::Raydium(p) => p.get_quote_with_amounts_scaled(
                scaled_amount_in,
                mint_in,
                mint_out,
            ),
            Pool::Serum(p) => p.get_quote_with_amounts_scaled(scaled_amount_in, mint_in, mint_out),
        }
    }

    /// Liveness for the direction `mint_in -> mint_out`.
    pub fn can_trade(&self, mint_in: &AccountId, mint_out: &AccountId) -> (r: bool)
        ensures
            r == self.can_trade_spec(*mint_in, *mint_out),
    {
        match self {
            Pool::Orca(p) => p.can_trade(mint_in, mint_out),
            Pool::Raydium(p) => p.can_trade(mint_in, mint_out),
            Pool::Serum(p) => p.can_trade(mint_in, mint_out),
        }
    }

    /// The venue's two mints in canonical order.
    pub fn get_mints(&self) -> (r: (AccountId, AccountId))
        ensures
            r.0.le_spec(r.1),
            r.0 == self.mints_spec().0 || r.0 == self.mints_spec().1,
            r.1 == self.mints_spec().0 || r.1 == self.mints_spec().1,
            self.mints_spec().0 != self.mints_spec().1 ==> r.0 != r.1,
    {
        match self {
            Pool::Orca(p) => p.get_mints(),
            Pool::Raydium(p) => p.get_mints(),
            Pool::Serum(p) => p.get_mints(),
        }
    }

    /// The decimal scale of a given mint.
    pub fn mint_2_scale(&self, mint: &AccountId) -> (r: Result<u64, PoolError>)
        ensures
            *mint == self.mints_spec().0 || *mint == self.mints_spec().1 ==> r is Ok,
            *mint != self.mints_spec().0 && *mint != self.mints_spec().1 ==> r == Err::<
                u64,
                PoolError,
            >(PoolError::InvalidMint),
    {
        match self {
            Pool::Orca(p) => p.mint_2_scale(mint),
            Pool::Raydium(p) => p.mint_2_scale(mint),
            Pool::Serum(p) => p.mint_2_scale(mint),
        }
    }

    /// The accounts a refresh must fetch for this venue: the two vaults
    /// of an AMM venue, or an order-book venue's market and book
    /// accounts.
    pub fn get_update_accounts(&self) -> (r: Vec<AccountId>)
        ensures
            self is Serum ==> (self matches Pool::Serum(p) && r@ == seq![
                p.own_address,
                p.bids_account,
                p.asks_account,
            ]),
            !(self is Serum) ==> r@.len() == 2,
    {
        match self {
            Pool::Orca(p) => p.get_update_accounts(),
            Pool::Raydium(p) => p.get_update_accounts(),
            Pool::Serum(p) => p.get_update_accounts(),
        }
    }

    /// Replaces the venue's live state wholesale from a refresh batch:
    /// token-account payloads for an AMM venue, a decoded book snapshot
    /// for an order-book venue.  A batch of the wrong shape is
    /// malformed.  On any error the venue is untouched and is expected
    /// to be excluded from the current graph build by the caller.
    pub fn set_update_accounts(&mut self, update: AccountUpdate) -> (r: Result<(), PoolError>)
        ensures
            old(self).wf() ==> final(self).wf(),
            r is Err ==> *final(self) == *old(self),
            final(self).address_spec() == old(self).address_spec(),
            final(self).mints_spec() == old(self).mints_spec(),
            match (*old(self), update) {
                (Pool::Orca(p), AccountUpdate::TokenAccounts(accounts)) => match r {
                    Ok(()) => p.refresh_spec(accounts@.map_values(|o: Option<Vec<u8>>| opt_view(o)))
                        matches Ok(p2) && *final(self) == Pool::Orca(p2),
                    Err(e) => p.refresh_spec(accounts@.map_values(|o: Option<Vec<u8>>| opt_view(o)))
                        == Err::<OrcaPool, PoolError>(e),
                },
                (Pool::Raydium(p), AccountUpdate::TokenAccounts(accounts)) => match r {
                    Ok(()) => p.refresh_spec(accounts@.map_values(|o: Option<Vec<u8>>| opt_view(o)))
                        matches Ok(p2) && *final(self) == Pool::Raydium(p2),
                    Err(e) => p.refresh_spec(accounts@.map_values(|o: Option<Vec<u8>>| opt_view(o)))
                        == Err::<RaydiumPool, PoolError>(e),
                },
                (Pool::Serum(p), AccountUpdate::BookSnapshot { bids, asks }) => match r {
                    Ok(()) => {
                        &&& SerumPool::snapshot_ok(bids@, asks@)
                        &&& (*final(self) matches Pool::Serum(p2) && p2.bids@ == bids@ && p2.asks@
                            == asks@ && p2 == SerumPool { bids: p2.bids, asks: p2.asks, ..p })
                    },
                    Err(e) => e == PoolError::MalformedAccountData && !SerumPool::snapshot_ok(
                        bids@,
                        asks@,
                    ),
                },
                _ => r == Err::<(), PoolError>(PoolError::MalformedAccountData),
            },
    {
        match self {
            Pool::Orca(p) => match update {
                AccountUpdate::TokenAccounts(accounts) => p.set_update_accounts(&accounts),
                AccountUpdate::BookSnapshot { .. } => Err(PoolError::MalformedAccountData),
            },
            Pool::Raydium(p) => match update {
                AccountUpdate::TokenAccounts(accounts) => p.set_update_accounts(&accounts),
                AccountUpdate::BookSnapshot { .. } => Err(PoolError::MalformedAccountData),
            },
            Pool::Serum(p) => match update {
                AccountUpdate::BookSnapshot { bids, asks } => p.set_update_accounts(bids, asks),
                AccountUpdate::TokenAccounts(_) => Err(PoolError::MalformedAccountData),
            },
        }
    }

    /// The display name of the venue kind.
    pub fn get_name(&self) -> (r: &'static str)
        ensures
            self is Orca ==> r@ == "Orca"@,
            self is Raydium ==> r@ == "Raydium"@,
            self is Serum ==> r@ == "Serum"@,
    {
        match self {
            Pool::Orca(p) => p.get_name(),
            Pool::Raydium(p) => p.get_name(),
            Pool::Serum(p) => p.get_name(),
        }
    }
}

/// A successful quote through any venue fits the 128-bit amount range.
pub proof fn lemma_quote_ok_range(
    p: Pool,
    amount: u128,
    mint_in: AccountId,
    mint_out: AccountId,
    v: int,
)
    requires
        p.quote_spec(amount as int, mint_in, mint_out) == Ok::<int, PoolError>(v),
    ensures
        0 <= v <= u128::MAX,
{
    match p {
        Pool::Orca(op) => {
            match curve_of_spec(op.curve_type as int) {
                Some(ct) => {
                    crate::math::lemma_pool_quote_ok_range(
                        amount as int,
                        ct,
                        op.amp as int,
                        op.fees,
                        op.reserve_spec(mint_in),
                        op.reserve_spec(mint_out),
                        v,
                    );
                },
                None => {
                    assert(false);
                },
            }
        },
        Pool::Raydium(rp) => {
            crate::math::lemma_pool_quote_ok_range(
                amount as int,
                crate::math::CurveType::ConstantProduct,
                0,
                rp.fees_spec(),
                rp.reserve_spec(mint_in),
                rp.reserve_spec(mint_out),
                v,
            );
        },
        Pool::Serum(_) => {},
    }
}

} // verus!
