//! Seeding: the only way a pool for a reserved asset comes into existence.

use super::liquidity::{
    empty_pool, lacks_default, new_routing, pool_created, valid_tier, with_empty_pool,
};
use super::pricing::{sqrt_floor, sqrt_of_product};
use super::state::{value_or, DexState, Pallet, Pool, Position};
use super::types::{
    make_transfer, make_transfer_or, plain_transfer, transfer_or, Effect, Error, Event, FeeRouting,
    MINIMUM_LIQUIDITY,
};
use crate::accounts::canonical;
use crate::primitives::{AccountId, AssetKind, AssetPair, Balance, BlockNumber, Preservation};
use vstd::prelude::*;

verus! {

/// A seed somebody asks for.
#[derive(Clone, Copy, Debug, PartialEq, Eq)]
pub struct SeedRequest {
    /// Whose balances fund the seed, and who owns the locked position.
    pub who: AccountId,
    /// The reserved asset.
    pub asset: AssetKind,
    /// The asset it is quoted in.
    pub quote: AssetKind,
    pub amount_asset: Balance,
    pub amount_quote: Balance,
    pub fee_tier: u32,
}

/// The pool a seed would fill.
#[derive(Clone, Copy, Debug, PartialEq, Eq)]
pub struct SeedPlan {
    /// The pair, in canonical order.
    pub pair: AssetPair,
    /// The record the seed fills.
    pub pool: Pool,
    /// Whether the record is new.
    pub opens: bool,
}

/// The pair of a seed.
pub open spec fn seed_pair(req: SeedRequest) -> AssetPair {
    canonical(req.asset, req.quote)
}

/// The record a seed fills: the one that stands there, or a new one.
pub open spec fn seed_pool(st: DexState, req: SeedRequest) -> Pool {
    let pair = seed_pair(req);
    if st.pools.dom().contains(pair) {
        st.pools[pair]
    } else {
        empty_pool(pair, req.fee_tier, new_routing(st, pair, req.fee_tier, true))
    }
}

/// Why a seed has no pool to fill, if it has none.
pub open spec fn seed_plan_error(st: DexState, req: SeedRequest) -> Option<Error> {
    let pair = seed_pair(req);
    if req.amount_asset == 0 || req.amount_quote == 0 {
        Some(Error::ZeroAmount)
    } else if !st.config.reserves(req.asset) || st.config.reserves(req.quote) {
        Some(Error::NotReservedAsset)
    } else if !valid_tier(req.fee_tier) {
        Some(Error::InvalidFeeTier)
    } else if !st.pools.dom().contains(pair) {
        if lacks_default(st, pair, req.fee_tier, true) {
            Some(Error::NoDefaultFeeRouting)
        } else if !new_routing(st, pair, req.fee_tier, true).valid_for(req.fee_tier as int) {
            Some(Error::InvalidFeeRouting)
        } else {
            None
        }
    } else if value_or(st.total_liquidity, pair, 0) != 0 {
        Some(Error::PoolAlreadySeeded)
    } else if st.pools[pair].fee_tier != req.fee_tier {
        Some(Error::InvalidFeeTier)
    } else if st.pools[pair].reserve_a != 0 || st.pools[pair].reserve_b != 0 {
        Some(Error::PoolAlreadySeeded)
    } else {
        None
    }
}

/// The amounts of a seed in the pair's order.
pub open spec fn seed_amounts(req: SeedRequest) -> (Balance, Balance) {
    if seed_pair(req).0 == req.asset {
        (req.amount_asset, req.amount_quote)
    } else {
        (req.amount_quote, req.amount_asset)
    }
}

/// All the shares a seed makes.
pub open spec fn seed_total(req: SeedRequest) -> int {
    sqrt_floor(seed_amounts(req).0 * seed_amounts(req).1)
}

/// Why a seed is refused, if it is.
pub open spec fn seed_error(st: DexState, req: SeedRequest) -> Option<Error> {
    if seed_plan_error(st, req) is Some {
        seed_plan_error(st, req)
    } else if seed_total(req) <= MINIMUM_LIQUIDITY {
        Some(Error::InsufficientInitialLiquidity)
    } else {
        None
    }
}

/// The exchange after a seed: the pool holds exactly the seeded amounts, and
/// `who`'s position is locked for good.
pub open spec fn seed_next(st: DexState, req: SeedRequest, now: BlockNumber) -> DexState {
    let pair = seed_pair(req);
    let opened = if st.pools.dom().contains(pair) {
        st
    } else {
        with_empty_pool(st, pair, req.fee_tier, new_routing(st, pair, req.fee_tier, true))
    };
    DexState {
        pools: opened.pools.insert(
            pair,
            Pool {
                reserve_a: seed_amounts(req).0,
                reserve_b: seed_amounts(req).1,
                ..seed_pool(st, req)
            },
        ),
        total_liquidity: opened.total_liquidity.insert(pair, seed_total(req) as u128),
        liquidity_positions: opened.liquidity_positions.insert(
            (req.who, pair),
            Position {
                shares: (seed_total(req) - MINIMUM_LIQUIDITY) as u128,
                entry_block: now,
                locked_until: Some(u64::MAX),
            },
        ),
        ..opened
    }
}

/// Moving out what the pool account held of `asset` before the seed.
pub open spec fn sweep_effects(
    pair: AssetPair,
    account: AccountId,
    to: AccountId,
    asset: AssetKind,
    held: Balance,
) -> Seq<Effect> {
    if held == 0 {
        Seq::empty()
    } else {
        seq![
            transfer_or(
                asset,
                account,
                to,
                held,
                Preservation::Expendable,
                Error::ExcessRecipientCannotReceive,
            ),
            Effect::Emit(Event::PreSeedBalanceSwept { pool: pair, asset, amount: held, to }),
        ]
    }
}

/// What a seed asks of the world: a new pool's event, what was parked at the
/// pool's account out of it (the reserved asset first), then the seeded amounts
/// into it (the quote first).
pub open spec fn seed_effects(
    st: DexState,
    req: SeedRequest,
    held_asset: Balance,
    held_quote: Balance,
) -> Seq<Effect> {
    let pair = seed_pair(req);
    let account = seed_pool(st, req).pool_account;
    let to = st.config.excess_recipient;
    let shares = (seed_total(req) - MINIMUM_LIQUIDITY) as u128;
    (if st.pools.dom().contains(pair) {
        Seq::empty()
    } else {
        seq![pool_created(pair, req.fee_tier)]
    }) + sweep_effects(pair, account, to, req.asset, held_asset) + sweep_effects(
        pair,
        account,
        to,
        req.quote,
        held_quote,
    ) + seq![
        plain_transfer(req.quote, req.who, account, req.amount_quote, Preservation::Expendable),
        plain_transfer(req.asset, req.who, account, req.amount_asset, Preservation::Expendable),
        Effect::Emit(
            Event::LiquidityAdded {
                provider: req.who,
                asset_a: pair.0,
                asset_b: pair.1,
                amount_a: seed_amounts(req).0,
                amount_b: seed_amounts(req).1,
                shares_minted: shares,
            },
        ),
        Effect::Emit(
            Event::LiquidityLocked { who: req.who, pool: pair, locked_until: u64::MAX },
        ),
        Effect::Emit(
            Event::ReservedPoolSeeded {
                who: req.who,
                asset: req.asset,
                quote: req.quote,
                amount_asset: req.amount_asset,
                amount_quote: req.amount_quote,
                shares,
            },
        ),
    ]
}

impl Pallet {
    /// The pool a seed fills, before anything moves. What its account holds of
    /// either asset has to leave first.
    pub fn plan_seed(&self, req: &SeedRequest) -> (r: Result<SeedPlan, Error>)
        ensures
            match r {
                Ok(plan) => {
                    &&& seed_plan_error(self@, *req) is None
                    &&& plan.pair == seed_pair(*req)
                    &&& plan.pool == seed_pool(self@, *req)
                    &&& plan.opens == !self@.pools.dom().contains(seed_pair(*req))
                },
                Err(e) => seed_plan_error(self@, *req) == Some(e),
            },
    {
        if req.amount_asset == 0 || req.amount_quote == 0 {
            return Err(Error::ZeroAmount);
        }
        if !self.config.is_reserved(&req.asset) || self.config.is_reserved(&req.quote) {
            return Err(Error::NotReservedAsset);
        }
        match Pallet::ensure_valid_fee_tier(req.fee_tier) {
            Ok(()) => {},
            Err(e) => return Err(e),
        }
        let pair: AssetPair = Pallet::canonical_pair(req.asset, req.quote);
        match self.pools.get(&pair) {
            None => {
                let routing: FeeRouting = match self.routing_for_new_pool(
                    &pair,
                    req.fee_tier,
                    true,
                ) {
                    Ok(x) => x,
                    Err(e) => return Err(e),
                };
                if !routing.is_valid_for(req.fee_tier) {
                    return Err(Error::InvalidFeeRouting);
                }
                let pool: Pool = Pool {
                    reserve_a: 0,
                    reserve_b: 0,
                    fee_tier: req.fee_tier,
                    total_fees_collected: 0,
                    pool_account: Pallet::pool_account_for(pair.0, pair.1),
                    routing,
                };
                Ok(SeedPlan { pair, pool, opens: true })
            },
            Some(existing) => {
                let total: u128 = match self.total_liquidity.get(&pair) {
                    Some(t) => t,
                    None => 0,
                };
                if total != 0 {
                    return Err(Error::PoolAlreadySeeded);
                }
                if existing.fee_tier != req.fee_tier {
                    return Err(Error::InvalidFeeTier);
                }
                if existing.reserve_a != 0 || existing.reserve_b != 0 {
                    return Err(Error::PoolAlreadySeeded);
                }
                Ok(SeedPlan { pair, pool: existing, opens: false })
            },
        }
    }

    /// What takes `held` of `asset` out of the pool's account before a seed. A host
    /// does this, for the reserved asset and then for the quote, before it asks for
    /// the seed itself, whose effects hold it.
    pub fn sweep_before_seed(&self, plan: &SeedPlan, asset: AssetKind, held: Balance) -> (r: Vec<
        Effect,
    >)
        ensures
            r@ == sweep_effects(
                plan.pair,
                plan.pool.pool_account,
                self@.config.excess_recipient,
                asset,
                held,
            ),
    {
        let to: AccountId = self.config.excess_recipient;
        let mut effects: Vec<Effect> = Vec::new();
        if held != 0 {
            effects.push(
                make_transfer_or(
                    asset,
                    plan.pool.pool_account,
                    to,
                    held,
                    Preservation::Expendable,
                    Error::ExcessRecipientCannotReceive,
                ),
            );
            effects.push(
                Effect::Emit(
                    Event::PreSeedBalanceSwept { pool: plan.pair, asset, amount: held, to },
                ),
            );
        }
        assert(effects@ =~= sweep_effects(
            plan.pair,
            plan.pool.pool_account,
            to,
            asset,
            held,
        ));
        effects
    }

    /// Seed the pool of a reserved asset with `req.who`'s funds and lock the
    /// position for good. `held_asset` is what the pool account can give up of
    /// the reserved asset, and `held_quote` what it can give up of the quote once
    /// that has left. Returns the shares credited to `req.who`.
    pub fn do_seed_reserved_pool_for(
        &mut self,
        req: &SeedRequest,
        held_asset: Balance,
        held_quote: Balance,
        now: BlockNumber,
    ) -> (r: Result<(Balance, Vec<Effect>), Error>)
        ensures
            match r {
                Ok((shares, effects)) => {
                    &&& seed_error(old(self)@, *req) is None
                    &&& shares == seed_total(*req) - MINIMUM_LIQUIDITY
                    &&& effects@ == seed_effects(old(self)@, *req, held_asset, held_quote)
                    &&& final(self)@ == seed_next(old(self)@, *req, now)
                },
                Err(e) => {
                    &&& seed_error(old(self)@, *req) == Some(e)
                    &&& final(self)@ == old(self)@
                },
            },
    {
        let ghost st = self@;
        let plan: SeedPlan = match self.plan_seed(req) {
            Ok(p) => p,
            Err(e) => return Err(e),
        };
        let pair: AssetPair = plan.pair;
        let (amount_a, amount_b): (u128, u128) = if pair.0 == req.asset {
            (req.amount_asset, req.amount_quote)
        } else {
            (req.amount_quote, req.amount_asset)
        };
        let raw: u128 = sqrt_of_product(amount_a, amount_b);
        let locked: u128 = MINIMUM_LIQUIDITY as u128;
        if raw <= locked {
            return Err(Error::InsufficientInitialLiquidity);
        }
        let shares: u128 = raw - locked;
        let mut effects: Vec<Effect> = Vec::new();
        if plan.opens {
            effects.push(
                Effect::Emit(
                    Event::PoolCreated {
                        asset_a: pair.0,
                        asset_b: pair.1,
                        fee_tier: req.fee_tier,
                    },
                ),
            );
        }
        let mut swept: Vec<Effect> = self.sweep_before_seed(&plan, req.asset, held_asset);
        effects.append(&mut swept);
        let mut rest: Vec<Effect> = self.sweep_before_seed(&plan, req.quote, held_quote);
        effects.append(&mut rest);
        // The quote goes in first: the pool account may not exist yet, and needs
        // it to be able to hold the reserved asset.
        let account: AccountId = plan.pool.pool_account;
        effects.push(
            make_transfer(req.quote, req.who, account, req.amount_quote, Preservation::Expendable),
        );
        effects.push(
            make_transfer(req.asset, req.who, account, req.amount_asset, Preservation::Expendable),
        );
        let mut pool: Pool = plan.pool;
        pool.reserve_a = amount_a;
        pool.reserve_b = amount_b;
        self.pools.insert(pair, pool);
        self.total_liquidity.insert(pair, raw);
        let forever: u64 = u64::MAX;
        self.liquidity_positions.insert(
            (req.who, pair),
            Position { shares, entry_block: now, locked_until: Some(forever) },
        );
        effects.push(
            Effect::Emit(
                Event::LiquidityAdded {
                    provider: req.who,
                    asset_a: pair.0,
                    asset_b: pair.1,
                    amount_a,
                    amount_b,
                    shares_minted: shares,
                },
            ),
        );
        effects.push(
            Effect::Emit(
                Event::LiquidityLocked { who: req.who, pool: pair, locked_until: forever },
            ),
        );
        effects.push(
            Effect::Emit(
                Event::ReservedPoolSeeded {
                    who: req.who,
                    asset: req.asset,
                    quote: req.quote,
                    amount_asset: req.amount_asset,
                    amount_quote: req.amount_quote,
                    shares,
                },
            ),
        );
        assert(effects@ =~= seed_effects(st, *req, held_asset, held_quote));
        assert(self@ =~= seed_next(st, *req, now));
        Ok((shares, effects))
    }
}

} // verus!
