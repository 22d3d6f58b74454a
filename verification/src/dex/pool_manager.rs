//! What other parts of a runtime ask of the exchange.

use super::state::{value_or, Pallet};
use super::swap::{quote_of, swap_effects, swap_error, swap_next, tier_bps, SwapContext, SwapRequest};
use super::types::{Effect, Error};
use crate::accounts::canonical;
use crate::primitives::{AccountId, AssetKind, AssetPair, Balance, BlockNumber, Preservation};
use vstd::prelude::*;

verus! {

/// A person's swap: it counts as market activity, and leaves its owner's account
/// standing.
pub open spec fn trade_request(
    who: AccountId,
    asset_in: AssetKind,
    asset_out: AssetKind,
    amount_in: Balance,
    amount_out_min: Balance,
    recipient: AccountId,
) -> SwapRequest {
    SwapRequest {
        who,
        asset_in,
        asset_out,
        amount_in,
        amount_out_min,
        recipient,
        is_trade: true,
        input: Preservation::Preserve,
    }
}

/// A swap on behalf of an account that another part of the runtime owns: it is
/// delivered to that account and is no market activity.
pub open spec fn house_request(
    who: AccountId,
    asset_in: AssetKind,
    asset_out: AssetKind,
    amount_in: Balance,
    amount_out_min: Balance,
) -> SwapRequest {
    SwapRequest {
        is_trade: false,
        ..trade_request(who, asset_in, asset_out, amount_in, amount_out_min, who)
    }
}

impl Pallet {
    /// Swap an exact amount for as much as the pool yields.
    pub fn swap_exact_tokens_for_tokens(
        &mut self,
        who: AccountId,
        asset_in: AssetKind,
        asset_out: AssetKind,
        amount_in: Balance,
        amount_out_min: Balance,
        recipient: AccountId,
        ctx: &SwapContext,
    ) -> (r: Result<(Balance, Vec<Effect>), Error>)
        ensures
            ({
                let req = trade_request(
                    who,
                    asset_in,
                    asset_out,
                    amount_in,
                    amount_out_min,
                    recipient,
                );
                match r {
                    Ok((amount_out, effects)) => {
                        &&& swap_error(old(self)@, req, *ctx) is None
                        &&& amount_out == quote_of(old(self)@, req, *ctx).amount_out
                        &&& effects@ == swap_effects(old(self)@, req, *ctx)
                        &&& final(self)@ == swap_next(old(self)@, req, *ctx)
                    },
                    Err(e) => {
                        &&& swap_error(old(self)@, req, *ctx) == Some(e)
                        &&& final(self)@ == old(self)@
                    },
                }
            }),
    {
        self.do_swap(
            &SwapRequest {
                who,
                asset_in,
                asset_out,
                amount_in,
                amount_out_min,
                recipient,
                is_trade: true,
                input: Preservation::Preserve,
            },
            ctx,
        )
    }

    /// Swap an exact amount on behalf of an account the caller owns.
    pub fn swap_for(
        &mut self,
        who: AccountId,
        asset_in: AssetKind,
        asset_out: AssetKind,
        amount_in: Balance,
        amount_out_min: Balance,
        ctx: &SwapContext,
    ) -> (r: Result<(Balance, Vec<Effect>), Error>)
        ensures
            ({
                let req = house_request(who, asset_in, asset_out, amount_in, amount_out_min);
                match r {
                    Ok((amount_out, effects)) => {
                        &&& swap_error(old(self)@, req, *ctx) is None
                        &&& amount_out == quote_of(old(self)@, req, *ctx).amount_out
                        &&& effects@ == swap_effects(old(self)@, req, *ctx)
                        &&& final(self)@ == swap_next(old(self)@, req, *ctx)
                    },
                    Err(e) => {
                        &&& swap_error(old(self)@, req, *ctx) == Some(e)
                        &&& final(self)@ == old(self)@
                    },
                }
            }),
    {
        self.do_swap(
            &SwapRequest {
                who,
                asset_in,
                asset_out,
                amount_in,
                amount_out_min,
                recipient: who,
                is_trade: false,
                input: Preservation::Preserve,
            },
            ctx,
        )
    }

    /// The native pool's live reserves, native side first, given the pool
    /// account's balances; nothing where there is no such pool.
    pub fn native_reserves(&self, asset: AssetKind, native_held: Balance, asset_held: Balance) -> (r:
        Option<(Balance, Balance)>)
        ensures
            r == (if self@.pools.dom().contains(canonical(self@.config.native_asset, asset)) {
                Some((native_held, asset_held))
            } else {
                None
            }),
    {
        if self.pool_exists(self.config.native_asset, asset) {
            Some((native_held, asset_held))
        } else {
            None
        }
    }

    /// The native pool's swap fee in basis points.
    pub fn fee_bps(&self, asset: AssetKind) -> (r: Option<u16>)
        ensures
            ({
                let pair = canonical(self@.config.native_asset, asset);
                match r {
                    Some(bps) => self@.pools.dom().contains(pair) && bps == tier_bps(
                        self@.pools[pair].fee_tier,
                    ),
                    None => !self@.pools.dom().contains(pair),
                }
            }),
    {
        let pair: AssetPair = Pallet::canonical_pair(self.config.native_asset, asset);
        match self.pools.get(&pair) {
            Some(pool) => {
                let scaled: u32 = (pool.fee_tier % 65_536) * 10;
                Some(
                    if scaled <= 65_535 {
                        scaled as u16
                    } else {
                        65_535
                    },
                )
            },
            None => None,
        }
    }

    /// The last block a person's swap ran against the native pool; block zero
    /// where none has.
    pub fn last_swap_block(&self, asset: AssetKind) -> (r: Option<BlockNumber>)
        ensures
            ({
                let pair = canonical(self@.config.native_asset, asset);
                r == (if self@.pools.dom().contains(pair) {
                    Some(value_or(self@.last_swap_block, pair, 0))
                } else {
                    None
                })
            }),
    {
        let pair: AssetPair = Pallet::canonical_pair(self.config.native_asset, asset);
        if self.pools.contains_key(&pair) {
            match self.last_swap_block.get(&pair) {
                Some(n) => Some(n),
                None => Some(0),
            }
        } else {
            None
        }
    }
}

} // verus!
