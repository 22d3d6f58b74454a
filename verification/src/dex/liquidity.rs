//! Pools and liquidity positions.

use super::pricing::{mul_div_floor, sqrt_floor, sqrt_of_product};
use super::state::{pool_account, value_or, DexState, Pallet, Pool, Position};
use super::types::{
    make_transfer, plain_transfer, Effect, Error, Event, FeeRouting, MINIMUM_LIQUIDITY,
};
use crate::accounts::{asset_bytes, canonical, lex_le};
use crate::arith::{lemma_floor, lemma_floor_bounds, min_int};
use crate::primitives::{AccountId, AssetKind, AssetPair, Balance, BlockNumber, Preservation};
use vstd::prelude::*;

verus! {

/// The fee tiers a pool may have: 0.1 %, 0.3 % and 1 %.
pub open spec fn valid_tier(fee_tier: u32) -> bool {
    fee_tier == 1 || fee_tier == 3 || fee_tier == 10
}

/// The split a new pool of `fee_tier` gets: nothing without a native side, the
/// tier's default whole where the launchpad seeds it, and the default's protocol
/// share alone where it does not.
pub open spec fn new_routing(
    st: DexState,
    pair: AssetPair,
    fee_tier: u32,
    seeded: bool,
) -> FeeRouting {
    let native = st.config.native_asset;
    if (pair.0 != native && pair.1 != native) || !st.default_fee_routing.dom().contains(fee_tier) {
        FeeRouting::none()
    } else if seeded {
        st.default_fee_routing[fee_tier]
    } else {
        FeeRouting {
            protocol_bps: st.default_fee_routing[fee_tier].protocol_bps,
            creator_bps: 0,
            treasury_bps: 0,
        }
    }
}

/// A seed with a native side needs a default split for its tier.
pub open spec fn lacks_default(
    st: DexState,
    pair: AssetPair,
    fee_tier: u32,
    seeded: bool,
) -> bool {
    &&& seeded
    &&& pair.0 == st.config.native_asset || pair.1 == st.config.native_asset
    &&& !st.default_fee_routing.dom().contains(fee_tier)
}

/// An empty pool.
pub open spec fn empty_pool(pair: AssetPair, fee_tier: u32, routing: FeeRouting) -> Pool {
    Pool {
        reserve_a: 0,
        reserve_b: 0,
        fee_tier,
        total_fees_collected: 0,
        pool_account: pool_account(canonical(pair.0, pair.1)),
        routing,
    }
}

/// The exchange with an empty pool added for `pair`.
pub open spec fn with_empty_pool(
    st: DexState,
    pair: AssetPair,
    fee_tier: u32,
    routing: FeeRouting,
) -> DexState {
    DexState {
        pools: st.pools.insert(pair, empty_pool(pair, fee_tier, routing)),
        total_liquidity: st.total_liquidity.insert(pair, 0),
        ..st
    }
}

/// The event of a new pool.
pub open spec fn pool_created(pair: AssetPair, fee_tier: u32) -> Effect {
    Effect::Emit(Event::PoolCreated { asset_a: pair.0, asset_b: pair.1, fee_tier })
}

/// Why a pool cannot be created, if it cannot.
pub open spec fn create_error(
    st: DexState,
    asset_a: AssetKind,
    asset_b: AssetKind,
    fee_tier: u32,
) -> Option<Error> {
    let pair = canonical(asset_a, asset_b);
    if st.config.reserves(asset_a) || st.config.reserves(asset_b) {
        Some(Error::ReservedAsset)
    } else if !valid_tier(fee_tier) {
        Some(Error::InvalidFeeTier)
    } else if st.pools.dom().contains(pair) {
        Some(Error::PoolAlreadyExists)
    } else if !new_routing(st, pair, fee_tier, false).valid_for(fee_tier as int) {
        Some(Error::InvalidFeeRouting)
    } else {
        None
    }
}

/// What a deposit takes and gives.
#[derive(Clone, Copy, Debug, PartialEq, Eq, Structural)]
pub struct Deposit {
    /// Taken of the pair's first asset.
    pub amount_a: Balance,
    /// Taken of the pair's second asset.
    pub amount_b: Balance,
    /// Shares the pool's total grows by.
    pub new_shares: Balance,
    /// Shares the depositor gets.
    pub shares: Balance,
}

/// What depositing up to `a` and `b` into a pool takes and gives.
///
/// A first deposit is taken whole, is worth the square root of its product, and
/// leaves [`MINIMUM_LIQUIDITY`] of that with nobody. A later one is cut down to
/// the pool's ratio and is worth its smaller share of the reserves.
pub open spec fn deposit_plan(total: int, reserve_a: int, reserve_b: int, a: int, b: int) -> Result<
    Deposit,
    Error,
> {
    if total == 0 {
        let raw = sqrt_floor(a * b);
        if raw <= MINIMUM_LIQUIDITY {
            Err(Error::InsufficientInitialLiquidity)
        } else {
            Ok(
                Deposit {
                    amount_a: a as u128,
                    amount_b: b as u128,
                    new_shares: raw as u128,
                    shares: (raw - MINIMUM_LIQUIDITY) as u128,
                },
            )
        }
    } else if reserve_a == 0 {
        Err(Error::InsufficientLiquidity)
    } else if a * reserve_b / reserve_a > u128::MAX {
        Err(Error::Overflow)
    } else {
        let (x, y) = if a * reserve_b / reserve_a <= b {
            (a, a * reserve_b / reserve_a)
        } else {
            (b * reserve_a / reserve_b, b)
        };
        if x * total / reserve_a > u128::MAX {
            Err(Error::Overflow)
        } else if reserve_b == 0 {
            Err(Error::InsufficientLiquidity)
        } else if y * total / reserve_b > u128::MAX {
            Err(Error::Overflow)
        } else {
            let shares = min_int(x * total / reserve_a, y * total / reserve_b) as u128;
            Ok(Deposit { amount_a: x as u128, amount_b: y as u128, new_shares: shares, shares })
        }
    }
}

/// A deposit somebody asks for, with each amount and minimum beside its asset.
#[derive(Clone, Copy, Debug, PartialEq, Eq)]
pub struct DepositRequest {
    pub who: AccountId,
    pub asset_a: AssetKind,
    pub asset_b: AssetKind,
    pub amount_a: Balance,
    pub amount_b: Balance,
    pub amount_a_min: Balance,
    pub amount_b_min: Balance,
}

/// `x` and `y` in the canonical order of the assets they belong to.
pub open spec fn in_pair_order<V>(a: AssetKind, b: AssetKind, x: V, y: V) -> (V, V) {
    if lex_le(asset_bytes(a), asset_bytes(b)) {
        (x, y)
    } else {
        (y, x)
    }
}

/// What a requested deposit takes and gives, against live reserves.
pub open spec fn requested_deposit(
    st: DexState,
    req: DepositRequest,
    held_a: Balance,
    held_b: Balance,
) -> Result<Deposit, Error> {
    let pair = canonical(req.asset_a, req.asset_b);
    let (a, b) = in_pair_order(req.asset_a, req.asset_b, req.amount_a, req.amount_b);
    deposit_plan(
        value_or(st.total_liquidity, pair, 0) as int,
        held_a as int,
        held_b as int,
        a as int,
        b as int,
    )
}

/// Shares `who` already has in `pair`.
pub open spec fn shares_of(st: DexState, who: AccountId, pair: AssetPair) -> int {
    if st.liquidity_positions.dom().contains((who, pair)) {
        st.liquidity_positions[(who, pair)].shares as int
    } else {
        0
    }
}

/// Why a deposit is refused before anything moves, if it is.
pub open spec fn deposit_refusal(
    st: DexState,
    req: DepositRequest,
    held_a: Balance,
    held_b: Balance,
) -> Option<Error> {
    let pair = canonical(req.asset_a, req.asset_b);
    let (min_a, min_b) = in_pair_order(
        req.asset_a,
        req.asset_b,
        req.amount_a_min,
        req.amount_b_min,
    );
    if req.amount_a == 0 || req.amount_b == 0 {
        Some(Error::ZeroAmount)
    } else if !st.pools.dom().contains(pair) {
        Some(Error::PoolNotFound)
    } else {
        match requested_deposit(st, req, held_a, held_b) {
            Err(e) => Some(e),
            Ok(d) => if d.shares == 0 {
                Some(Error::ZeroAmount)
            } else if d.amount_a < min_a || d.amount_b < min_b {
                Some(Error::SlippageExceeded)
            } else {
                None
            },
        }
    }
}

/// Why a deposit is refused, if it is: before anything moves, or because a sum
/// leaves `u128` once it has.
pub open spec fn deposit_error(
    st: DexState,
    req: DepositRequest,
    held_a: Balance,
    held_b: Balance,
) -> Option<Error> {
    let pair = canonical(req.asset_a, req.asset_b);
    let d = requested_deposit(st, req, held_a, held_b)->Ok_0;
    if deposit_refusal(st, req, held_a, held_b) is Some {
        deposit_refusal(st, req, held_a, held_b)
    } else if held_a + d.amount_a > u128::MAX || held_b + d.amount_b > u128::MAX || value_or(
        st.total_liquidity,
        pair,
        0,
    ) + d.new_shares > u128::MAX || shares_of(st, req.who, pair) + d.shares > u128::MAX {
        Some(Error::Overflow)
    } else {
        None
    }
}

/// The exchange after a deposit.
pub open spec fn deposit_next(
    st: DexState,
    req: DepositRequest,
    held_a: Balance,
    held_b: Balance,
    now: BlockNumber,
) -> DexState {
    let pair = canonical(req.asset_a, req.asset_b);
    let d = requested_deposit(st, req, held_a, held_b)->Ok_0;
    let key = (req.who, pair);
    DexState {
        pools: st.pools.insert(
            pair,
            Pool {
                reserve_a: (held_a + d.amount_a) as u128,
                reserve_b: (held_b + d.amount_b) as u128,
                ..st.pools[pair]
            },
        ),
        total_liquidity: st.total_liquidity.insert(
            pair,
            (value_or(st.total_liquidity, pair, 0) + d.new_shares) as u128,
        ),
        liquidity_positions: st.liquidity_positions.insert(
            key,
            if st.liquidity_positions.dom().contains(key) {
                Position {
                    shares: (st.liquidity_positions[key].shares + d.shares) as u128,
                    ..st.liquidity_positions[key]
                }
            } else {
                Position { shares: d.shares, entry_block: now, locked_until: None }
            },
        ),
        ..st
    }
}

/// What a deposit moves.
pub open spec fn deposit_legs(
    st: DexState,
    req: DepositRequest,
    held_a: Balance,
    held_b: Balance,
) -> Seq<Effect> {
    let pair = canonical(req.asset_a, req.asset_b);
    let d = requested_deposit(st, req, held_a, held_b)->Ok_0;
    let account = st.pools[pair].pool_account;
    seq![
        plain_transfer(pair.0, req.who, account, d.amount_a, Preservation::Expendable),
        plain_transfer(pair.1, req.who, account, d.amount_b, Preservation::Expendable),
    ]
}

/// What a deposit asks of the world: its legs, then its event.
pub open spec fn deposit_effects(
    st: DexState,
    req: DepositRequest,
    held_a: Balance,
    held_b: Balance,
) -> Seq<Effect> {
    let pair = canonical(req.asset_a, req.asset_b);
    let d = requested_deposit(st, req, held_a, held_b)->Ok_0;
    deposit_legs(st, req, held_a, held_b) + seq![
        Effect::Emit(
            Event::LiquidityAdded {
                provider: req.who,
                asset_a: pair.0,
                asset_b: pair.1,
                amount_a: d.amount_a,
                amount_b: d.amount_b,
                shares_minted: d.shares,
            },
        ),
    ]
}

/// A withdrawal somebody asks for, with each minimum beside its asset.
#[derive(Clone, Copy, Debug, PartialEq, Eq)]
pub struct WithdrawalRequest {
    pub who: AccountId,
    pub asset_a: AssetKind,
    pub asset_b: AssetKind,
    pub shares: Balance,
    pub amount_a_min: Balance,
    pub amount_b_min: Balance,
}

/// What `shares` out of `total` are worth of `reserve`, rounded down.
pub open spec fn share_value(shares: int, reserve: int, total: int) -> int {
    shares * reserve / total
}

/// Why a withdrawal is refused before anything moves, if it is.
pub open spec fn withdrawal_refusal(
    st: DexState,
    req: WithdrawalRequest,
    held_a: Balance,
    held_b: Balance,
    now: BlockNumber,
) -> Option<Error> {
    let pair = canonical(req.asset_a, req.asset_b);
    let key = (req.who, pair);
    let (min_a, min_b) = in_pair_order(
        req.asset_a,
        req.asset_b,
        req.amount_a_min,
        req.amount_b_min,
    );
    let total = st.total_liquidity[pair];
    let position = st.liquidity_positions[key];
    let a = share_value(req.shares as int, held_a as int, total as int);
    let b = share_value(req.shares as int, held_b as int, total as int);
    if req.shares == 0 {
        Some(Error::ZeroAmount)
    } else if !st.pools.dom().contains(pair) || !st.total_liquidity.dom().contains(pair) {
        Some(Error::PoolNotFound)
    } else if total == 0 {
        Some(Error::InsufficientLiquidity)
    } else if !st.liquidity_positions.dom().contains(key) || position.shares < req.shares {
        Some(Error::InsufficientShares)
    } else if position.locked_until is Some && now < position.locked_until->0 {
        Some(Error::PoolLocked)
    } else if a > u128::MAX || b > u128::MAX {
        Some(Error::Overflow)
    } else if a < min_a || b < min_b {
        Some(Error::SlippageExceeded)
    } else {
        None
    }
}

/// Why a withdrawal is refused, if it is: before anything moves, or because the
/// records do not cover what has moved.
pub open spec fn withdrawal_error(
    st: DexState,
    req: WithdrawalRequest,
    held_a: Balance,
    held_b: Balance,
    now: BlockNumber,
) -> Option<Error> {
    let total = st.total_liquidity[canonical(req.asset_a, req.asset_b)];
    if withdrawal_refusal(st, req, held_a, held_b, now) is Some {
        withdrawal_refusal(st, req, held_a, held_b, now)
    } else if share_value(req.shares as int, held_a as int, total as int) > held_a || share_value(
        req.shares as int,
        held_b as int,
        total as int,
    ) > held_b {
        Some(Error::InsufficientLiquidity)
    } else if req.shares > total {
        Some(Error::Overflow)
    } else {
        None
    }
}

/// The exchange after a withdrawal.
pub open spec fn withdrawal_next(
    st: DexState,
    req: WithdrawalRequest,
    held_a: Balance,
    held_b: Balance,
) -> DexState {
    let pair = canonical(req.asset_a, req.asset_b);
    let key = (req.who, pair);
    let total = st.total_liquidity[pair];
    let position = st.liquidity_positions[key];
    let a = share_value(req.shares as int, held_a as int, total as int);
    let b = share_value(req.shares as int, held_b as int, total as int);
    DexState {
        pools: st.pools.insert(
            pair,
            Pool {
                reserve_a: (held_a - a) as u128,
                reserve_b: (held_b - b) as u128,
                ..st.pools[pair]
            },
        ),
        total_liquidity: st.total_liquidity.insert(pair, (total - req.shares) as u128),
        liquidity_positions: if position.shares == req.shares {
            st.liquidity_positions.remove(key)
        } else {
            st.liquidity_positions.insert(
                key,
                Position { shares: (position.shares - req.shares) as u128, ..position },
            )
        },
        ..st
    }
}

/// What a withdrawal moves.
pub open spec fn withdrawal_legs(
    st: DexState,
    req: WithdrawalRequest,
    held_a: Balance,
    held_b: Balance,
) -> Seq<Effect> {
    let pair = canonical(req.asset_a, req.asset_b);
    let total = st.total_liquidity[pair];
    let account = st.pools[pair].pool_account;
    let a = share_value(req.shares as int, held_a as int, total as int) as u128;
    let b = share_value(req.shares as int, held_b as int, total as int) as u128;
    seq![
        plain_transfer(pair.0, account, req.who, a, Preservation::Expendable),
        plain_transfer(pair.1, account, req.who, b, Preservation::Expendable),
    ]
}

/// What a withdrawal asks of the world: its legs, then its event.
pub open spec fn withdrawal_effects(
    st: DexState,
    req: WithdrawalRequest,
    held_a: Balance,
    held_b: Balance,
) -> Seq<Effect> {
    let pair = canonical(req.asset_a, req.asset_b);
    let total = st.total_liquidity[pair];
    withdrawal_legs(st, req, held_a, held_b) + seq![
        Effect::Emit(
            Event::LiquidityRemoved {
                provider: req.who,
                asset_a: pair.0,
                asset_b: pair.1,
                amount_a: share_value(req.shares as int, held_a as int, total as int) as u128,
                amount_b: share_value(req.shares as int, held_b as int, total as int) as u128,
                shares_burned: req.shares,
            },
        ),
    ]
}

/// Why a lock is refused, if it is.
pub open spec fn lock_error(
    st: DexState,
    who: AccountId,
    pair: AssetPair,
    lock_until: BlockNumber,
) -> Option<Error> {
    if !st.liquidity_positions.dom().contains((who, pair)) {
        Some(Error::InsufficientShares)
    } else if st.liquidity_positions[(who, pair)].locked_until is Some && lock_until
        < st.liquidity_positions[(who, pair)].locked_until->0 {
        Some(Error::LockCannotBeShortened)
    } else {
        None
    }
}

/// The exchange after a lock.
pub open spec fn lock_next(
    st: DexState,
    who: AccountId,
    pair: AssetPair,
    lock_until: BlockNumber,
) -> DexState {
    DexState {
        liquidity_positions: st.liquidity_positions.insert(
            (who, pair),
            Position {
                locked_until: Some(lock_until),
                ..st.liquidity_positions[(who, pair)]
            },
        ),
        ..st
    }
}

/// What depositing up to `a` and `b` into a pool takes and gives.
fn plan_deposit(
    total: Balance,
    reserve_a: Balance,
    reserve_b: Balance,
    a: Balance,
    b: Balance,
) -> (r: Result<Deposit, Error>)
    ensures
        r == deposit_plan(total as int, reserve_a as int, reserve_b as int, a as int, b as int),
{
    if total == 0 {
        let raw: u128 = sqrt_of_product(a, b);
        let locked: u128 = MINIMUM_LIQUIDITY as u128;
        if raw <= locked {
            return Err(Error::InsufficientInitialLiquidity);
        }
        return Ok(Deposit { amount_a: a, amount_b: b, new_shares: raw, shares: raw - locked });
    }
    let optimal_b: u128 = match mul_div_floor(a, reserve_b, reserve_a) {
        Ok(x) => x,
        Err(e) => return Err(e),
    };
    let (x, y): (u128, u128) = if optimal_b <= b {
        (a, optimal_b)
    } else {
        proof {
            // `b < a * rb / ra`, so `b * ra < a * rb` and the matching amount is
            // below `a`.
            let n = a * reserve_b;
            lemma_floor(n, reserve_a as int);
            assert(b * reserve_a < a * reserve_b) by (nonlinear_arith)
                requires
                    (n / reserve_a as int) * reserve_a <= n,
                    b < n / reserve_a as int,
                    n == a * reserve_b,
                    reserve_a > 0,
            ;
            assert(reserve_b > 0) by (nonlinear_arith)
                requires
                    b * reserve_a < a * reserve_b,
                    b >= 0,
                    reserve_a >= 0,
                    reserve_b >= 0,
            ;
            lemma_floor_bounds(b * reserve_a, reserve_b as int, a as int);
        }
        match mul_div_floor(b, reserve_a, reserve_b) {
            Ok(x) => (x, b),
            Err(e) => return Err(e),
        }
    };
    let share_a: u128 = match mul_div_floor(x, total, reserve_a) {
        Ok(s) => s,
        Err(e) => return Err(e),
    };
    let share_b: u128 = match mul_div_floor(y, total, reserve_b) {
        Ok(s) => s,
        Err(e) => return Err(e),
    };
    let shares: u128 = if share_a < share_b {
        share_a
    } else {
        share_b
    };
    Ok(Deposit { amount_a: x, amount_b: y, new_shares: shares, shares })
}

impl Pallet {
    /// Accept only the whitelisted fee tiers.
    pub fn ensure_valid_fee_tier(fee_tier: u32) -> (r: Result<(), Error>)
        ensures
            r == (if valid_tier(fee_tier) {
                Ok(())
            } else {
                Err(Error::InvalidFeeTier)
            }),
    {
        if fee_tier == 1 || fee_tier == 3 || fee_tier == 10 {
            Ok(())
        } else {
            Err(Error::InvalidFeeTier)
        }
    }

    /// The split a new pool takes.
    pub fn routing_for_new_pool(&self, pair: &AssetPair, fee_tier: u32, seeded: bool) -> (r: Result<
        FeeRouting,
        Error,
    >)
        ensures
            r == (if lacks_default(self@, *pair, fee_tier, seeded) {
                Err(Error::NoDefaultFeeRouting)
            } else {
                Ok(new_routing(self@, *pair, fee_tier, seeded))
            }),
    {
        let native = self.config.native_asset;
        if pair.0 != native && pair.1 != native {
            return Ok(FeeRouting { protocol_bps: 0, creator_bps: 0, treasury_bps: 0 });
        }
        match self.default_fee_routing.get(&fee_tier) {
            Some(d) => if seeded {
                Ok(d)
            } else {
                Ok(FeeRouting { protocol_bps: d.protocol_bps, creator_bps: 0, treasury_bps: 0 })
            },
            None => if seeded {
                Err(Error::NoDefaultFeeRouting)
            } else {
                Ok(FeeRouting { protocol_bps: 0, creator_bps: 0, treasury_bps: 0 })
            },
        }
    }

    /// Write a fresh, empty pool record for a canonical pair that has none.
    pub(crate) fn insert_new_pool(
        &mut self,
        pair: &AssetPair,
        fee_tier: u32,
        routing: FeeRouting,
    ) -> (r: Result<Effect, Error>)
        ensures
            match r {
                Ok(event) => {
                    &&& routing.valid_for(fee_tier as int)
                    &&& event == pool_created(*pair, fee_tier)
                    &&& final(self)@ == with_empty_pool(old(self)@, *pair, fee_tier, routing)
                },
                Err(e) => {
                    &&& !routing.valid_for(fee_tier as int)
                    &&& e == Error::InvalidFeeRouting
                    &&& final(self)@ == old(self)@
                },
            },
    {
        let ghost st = self@;
        if !routing.is_valid_for(fee_tier) {
            return Err(Error::InvalidFeeRouting);
        }
        let pool: Pool = Pool {
            reserve_a: 0,
            reserve_b: 0,
            fee_tier,
            total_fees_collected: 0,
            pool_account: Pallet::pool_account_for(pair.0, pair.1),
            routing,
        };
        self.pools.insert(*pair, pool);
        self.total_liquidity.insert(*pair, 0);
        assert(self@ =~= with_empty_pool(st, *pair, fee_tier, routing));
        Ok(Effect::Emit(Event::PoolCreated { asset_a: pair.0, asset_b: pair.1, fee_tier }))
    }

    /// Create a pool for a pair, given in either order. Reserved assets are
    /// refused whoever asks.
    pub fn do_create_pool(&mut self, asset_a: AssetKind, asset_b: AssetKind, fee_tier: u32) -> (r:
        Result<Vec<Effect>, Error>)
        ensures
            match r {
                Ok(effects) => {
                    let pair = canonical(asset_a, asset_b);
                    &&& create_error(old(self)@, asset_a, asset_b, fee_tier) is None
                    &&& effects@ == seq![pool_created(pair, fee_tier)]
                    &&& final(self)@ == with_empty_pool(
                        old(self)@,
                        pair,
                        fee_tier,
                        new_routing(old(self)@, pair, fee_tier, false),
                    )
                },
                Err(e) => {
                    &&& create_error(old(self)@, asset_a, asset_b, fee_tier) == Some(e)
                    &&& final(self)@ == old(self)@
                },
            },
    {
        if self.config.is_reserved(&asset_a) || self.config.is_reserved(&asset_b) {
            return Err(Error::ReservedAsset);
        }
        match Pallet::ensure_valid_fee_tier(fee_tier) {
            Ok(()) => {},
            Err(e) => return Err(e),
        }
        let pair: AssetPair = Pallet::canonical_pair(asset_a, asset_b);
        if self.pools.contains_key(&pair) {
            return Err(Error::PoolAlreadyExists);
        }
        let routing: FeeRouting = match self.routing_for_new_pool(&pair, fee_tier, false) {
            Ok(x) => x,
            Err(e) => return Err(e),
        };
        match self.insert_new_pool(&pair, fee_tier, routing) {
            Ok(event) => {
                let mut effects: Vec<Effect> = Vec::new();
                effects.push(event);
                Ok(effects)
            },
            Err(e) => Err(e),
        }
    }

    /// Read and price a deposit: the pair, its pool, its shares, and what the
    /// deposit takes and gives.
    fn price_deposit(&self, req: &DepositRequest, held_a: Balance, held_b: Balance) -> (r: Result<
        (AssetPair, Pool, Balance, Deposit),
        Error,
    >)
        ensures
            match r {
                Ok((pair, pool, total, d)) => {
                    &&& deposit_refusal(self@, *req, held_a, held_b) is None
                    &&& pair == canonical(req.asset_a, req.asset_b)
                    &&& self@.pools.dom().contains(pair) && pool == self@.pools[pair]
                    &&& total == value_or(self@.total_liquidity, pair, 0)
                    &&& requested_deposit(self@, *req, held_a, held_b) == Ok::<Deposit, Error>(d)
                },
                Err(e) => deposit_refusal(self@, *req, held_a, held_b) == Some(e),
            },
    {
        if req.amount_a == 0 || req.amount_b == 0 {
            return Err(Error::ZeroAmount);
        }
        let (pair, (amount_a, min_a), (amount_b, min_b)): (
            AssetPair,
            (u128, u128),
            (u128, u128),
        ) = Pallet::canonical_pair_with(
            req.asset_a,
            req.asset_b,
            (req.amount_a, req.amount_a_min),
            (req.amount_b, req.amount_b_min),
        );
        let pool: Pool = match self.pools.get(&pair) {
            Some(p) => p,
            None => return Err(Error::PoolNotFound),
        };
        let total: u128 = match self.total_liquidity.get(&pair) {
            Some(t) => t,
            None => 0,
        };
        let d: Deposit = match plan_deposit(total, held_a, held_b, amount_a, amount_b) {
            Ok(d) => d,
            Err(e) => return Err(e),
        };
        if d.shares == 0 {
            return Err(Error::ZeroAmount);
        }
        if d.amount_a < min_a || d.amount_b < min_b {
            return Err(Error::SlippageExceeded);
        }
        Ok((pair, pool, total, d))
    }

    /// What a deposit moves. A host makes these transfers before it asks for the
    /// deposit itself, whose effects begin with them.
    pub fn legs_of_deposit(&self, req: &DepositRequest, held_a: Balance, held_b: Balance) -> (r:
        Result<Vec<Effect>, Error>)
        ensures
            match r {
                Ok(legs) => {
                    &&& deposit_refusal(self@, *req, held_a, held_b) is None
                    &&& legs@ == deposit_legs(self@, *req, held_a, held_b)
                },
                Err(e) => deposit_refusal(self@, *req, held_a, held_b) == Some(e),
            },
    {
        let (pair, pool, _, d): (AssetPair, Pool, u128, Deposit) = match self.price_deposit(
            req,
            held_a,
            held_b,
        ) {
            Ok(x) => x,
            Err(e) => return Err(e),
        };
        let mut legs: Vec<Effect> = Vec::new();
        legs.push(
            make_transfer(pair.0, req.who, pool.pool_account, d.amount_a, Preservation::Expendable),
        );
        legs.push(
            make_transfer(pair.1, req.who, pool.pool_account, d.amount_b, Preservation::Expendable),
        );
        assert(legs@ =~= deposit_legs(self@, *req, held_a, held_b));
        Ok(legs)
    }

    /// Add liquidity from `req.who`'s balances. `held_a` and `held_b` are the
    /// pool account's balances in canonical order. Returns the shares minted.
    pub fn do_add_liquidity_for(
        &mut self,
        req: &DepositRequest,
        held_a: Balance,
        held_b: Balance,
        now: BlockNumber,
    ) -> (r: Result<(Balance, Vec<Effect>), Error>)
        ensures
            match r {
                Ok((shares, effects)) => {
                    &&& deposit_error(old(self)@, *req, held_a, held_b) is None
                    &&& requested_deposit(old(self)@, *req, held_a, held_b) matches Ok(d)
                        && shares == d.shares
                    &&& effects@ == deposit_effects(old(self)@, *req, held_a, held_b)
                    &&& final(self)@ == deposit_next(old(self)@, *req, held_a, held_b, now)
                },
                Err(e) => {
                    &&& deposit_error(old(self)@, *req, held_a, held_b) == Some(e)
                    &&& final(self)@ == old(self)@
                },
            },
    {
        let ghost st = self@;
        let (pair, found, total, d): (AssetPair, Pool, u128, Deposit) = match self.price_deposit(
            req,
            held_a,
            held_b,
        ) {
            Ok(x) => x,
            Err(e) => return Err(e),
        };
        let mut effects: Vec<Effect> = match self.legs_of_deposit(req, held_a, held_b) {
            Ok(legs) => legs,
            Err(e) => return Err(e),
        };
        let reserve_a: u128 = match held_a.checked_add(d.amount_a) {
            Some(x) => x,
            None => return Err(Error::Overflow),
        };
        let reserve_b: u128 = match held_b.checked_add(d.amount_b) {
            Some(x) => x,
            None => return Err(Error::Overflow),
        };
        let new_total: u128 = match total.checked_add(d.new_shares) {
            Some(x) => x,
            None => return Err(Error::Overflow),
        };
        let key: (AccountId, AssetPair) = (req.who, pair);
        let position: Position = match self.liquidity_positions.get(&key) {
            Some(p) => match p.shares.checked_add(d.shares) {
                // A top-up keeps the block the position was opened at.
                Some(x) => Position {
                    shares: x,
                    entry_block: p.entry_block,
                    locked_until: p.locked_until,
                },
                None => return Err(Error::Overflow),
            },
            None => Position { shares: d.shares, entry_block: now, locked_until: None },
        };
        let mut pool: Pool = found;
        pool.reserve_a = reserve_a;
        pool.reserve_b = reserve_b;
        self.pools.insert(pair, pool);
        self.total_liquidity.insert(pair, new_total);
        self.liquidity_positions.insert(key, position);
        effects.push(
            Effect::Emit(
                Event::LiquidityAdded {
                    provider: req.who,
                    asset_a: pair.0,
                    asset_b: pair.1,
                    amount_a: d.amount_a,
                    amount_b: d.amount_b,
                    shares_minted: d.shares,
                },
            ),
        );
        assert(effects@ =~= deposit_effects(st, *req, held_a, held_b));
        assert(self@ =~= deposit_next(st, *req, held_a, held_b, now));
        Ok((d.shares, effects))
    }

    /// Read and price a withdrawal: the pair, its pool, its shares, the position,
    /// and what the withdrawal gives of either asset.
    fn price_withdrawal(
        &self,
        req: &WithdrawalRequest,
        held_a: Balance,
        held_b: Balance,
        now: BlockNumber,
    ) -> (r: Result<(AssetPair, Pool, Balance, Position, (Balance, Balance)), Error>)
        ensures
            match r {
                Ok((pair, pool, total, position, (a, b))) => {
                    &&& withdrawal_refusal(self@, *req, held_a, held_b, now) is None
                    &&& pair == canonical(req.asset_a, req.asset_b)
                    &&& self@.pools.dom().contains(pair) && pool == self@.pools[pair]
                    &&& total == self@.total_liquidity[pair]
                    &&& position == self@.liquidity_positions[(req.who, pair)]
                    &&& a == share_value(req.shares as int, held_a as int, total as int)
                    &&& b == share_value(req.shares as int, held_b as int, total as int)
                },
                Err(e) => withdrawal_refusal(self@, *req, held_a, held_b, now) == Some(e),
            },
    {
        if req.shares == 0 {
            return Err(Error::ZeroAmount);
        }
        let (pair, min_a, min_b): (AssetPair, u128, u128) = Pallet::canonical_pair_with(
            req.asset_a,
            req.asset_b,
            req.amount_a_min,
            req.amount_b_min,
        );
        let pool: Pool = match self.pools.get(&pair) {
            Some(p) => p,
            None => return Err(Error::PoolNotFound),
        };
        let total: u128 = match self.total_liquidity.get(&pair) {
            Some(t) => t,
            None => return Err(Error::PoolNotFound),
        };
        if total == 0 {
            return Err(Error::InsufficientLiquidity);
        }
        let position: Position = match self.liquidity_positions.get(&(req.who, pair)) {
            Some(p) => p,
            None => return Err(Error::InsufficientShares),
        };
        if position.shares < req.shares {
            return Err(Error::InsufficientShares);
        }
        if let Some(until) = position.locked_until {
            if now < until {
                return Err(Error::PoolLocked);
            }
        }
        let amount_a: u128 = match mul_div_floor(req.shares, held_a, total) {
            Ok(x) => x,
            Err(e) => return Err(e),
        };
        let amount_b: u128 = match mul_div_floor(req.shares, held_b, total) {
            Ok(x) => x,
            Err(e) => return Err(e),
        };
        if amount_a < min_a || amount_b < min_b {
            return Err(Error::SlippageExceeded);
        }
        Ok((pair, pool, total, position, (amount_a, amount_b)))
    }

    /// What a withdrawal moves. A host makes these transfers before it asks for
    /// the withdrawal itself, whose effects begin with them.
    pub fn legs_of_withdrawal(
        &self,
        req: &WithdrawalRequest,
        held_a: Balance,
        held_b: Balance,
        now: BlockNumber,
    ) -> (r: Result<Vec<Effect>, Error>)
        ensures
            match r {
                Ok(legs) => {
                    &&& withdrawal_refusal(self@, *req, held_a, held_b, now) is None
                    &&& legs@ == withdrawal_legs(self@, *req, held_a, held_b)
                },
                Err(e) => withdrawal_refusal(self@, *req, held_a, held_b, now) == Some(e),
            },
    {
        let (pair, pool, _, _, (a, b)): (AssetPair, Pool, u128, Position, (u128, u128)) =
            match self.price_withdrawal(req, held_a, held_b, now) {
            Ok(x) => x,
            Err(e) => return Err(e),
        };
        let mut legs: Vec<Effect> = Vec::new();
        legs.push(make_transfer(pair.0, pool.pool_account, req.who, a, Preservation::Expendable));
        legs.push(make_transfer(pair.1, pool.pool_account, req.who, b, Preservation::Expendable));
        assert(legs@ =~= withdrawal_legs(self@, *req, held_a, held_b));
        Ok(legs)
    }

    /// Remove liquidity. `held_a` and `held_b` are the pool account's balances in
    /// canonical order.
    pub fn remove_liquidity(
        &mut self,
        req: &WithdrawalRequest,
        held_a: Balance,
        held_b: Balance,
        now: BlockNumber,
    ) -> (r: Result<Vec<Effect>, Error>)
        ensures
            match r {
                Ok(effects) => {
                    &&& withdrawal_error(old(self)@, *req, held_a, held_b, now) is None
                    &&& effects@ == withdrawal_effects(old(self)@, *req, held_a, held_b)
                    &&& final(self)@ == withdrawal_next(old(self)@, *req, held_a, held_b)
                },
                Err(e) => {
                    &&& withdrawal_error(old(self)@, *req, held_a, held_b, now) == Some(e)
                    &&& final(self)@ == old(self)@
                },
            },
    {
        let ghost st = self@;
        let (pair, found, total, held, (amount_a, amount_b)): (
            AssetPair,
            Pool,
            u128,
            Position,
            (u128, u128),
        ) = match self.price_withdrawal(req, held_a, held_b, now) {
            Ok(x) => x,
            Err(e) => return Err(e),
        };
        let mut effects: Vec<Effect> = match self.legs_of_withdrawal(req, held_a, held_b, now) {
            Ok(legs) => legs,
            Err(e) => return Err(e),
        };
        if amount_a > held_a || amount_b > held_b {
            return Err(Error::InsufficientLiquidity);
        }
        if req.shares > total {
            return Err(Error::Overflow);
        }
        let key: (AccountId, AssetPair) = (req.who, pair);
        let mut pool: Pool = found;
        let mut position: Position = held;
        pool.reserve_a = held_a - amount_a;
        pool.reserve_b = held_b - amount_b;
        self.pools.insert(pair, pool);
        self.total_liquidity.insert(pair, total - req.shares);
        position.shares = position.shares - req.shares;
        if position.shares == 0 {
            self.liquidity_positions.remove(&key);
        } else {
            self.liquidity_positions.insert(key, position);
        }
        effects.push(
            Effect::Emit(
                Event::LiquidityRemoved {
                    provider: req.who,
                    asset_a: pair.0,
                    asset_b: pair.1,
                    amount_a,
                    amount_b,
                    shares_burned: req.shares,
                },
            ),
        );
        assert(effects@ =~= withdrawal_effects(st, *req, held_a, held_b));
        assert(self@ =~= withdrawal_next(st, *req, held_a, held_b));
        Ok(effects)
    }

    /// Extend the lock on `who`'s position to `lock_until`. A lock can be kept or
    /// extended, never shortened.
    pub fn do_lock_liquidity_for(
        &mut self,
        who: &AccountId,
        asset_a: AssetKind,
        asset_b: AssetKind,
        lock_until: BlockNumber,
    ) -> (r: Result<Vec<Effect>, Error>)
        ensures
            match r {
                Ok(effects) => {
                    let pair = canonical(asset_a, asset_b);
                    &&& lock_error(old(self)@, *who, pair, lock_until) is None
                    &&& effects@ == seq![
                        Effect::Emit(
                            Event::LiquidityLocked {
                                who: *who,
                                pool: pair,
                                locked_until: lock_until,
                            },
                        ),
                    ]
                    &&& final(self)@ == lock_next(old(self)@, *who, pair, lock_until)
                },
                Err(e) => {
                    &&& lock_error(old(self)@, *who, canonical(asset_a, asset_b), lock_until)
                        == Some(e)
                    &&& final(self)@ == old(self)@
                },
            },
    {
        let ghost st = self@;
        let pair: AssetPair = Pallet::canonical_pair(asset_a, asset_b);
        let key: (AccountId, AssetPair) = (*who, pair);
        let mut position: Position = match self.liquidity_positions.get(&key) {
            Some(p) => p,
            None => return Err(Error::InsufficientShares),
        };
        if let Some(existing) = position.locked_until {
            if lock_until < existing {
                return Err(Error::LockCannotBeShortened);
            }
        }
        position.locked_until = Some(lock_until);
        self.liquidity_positions.insert(key, position);
        let mut effects: Vec<Effect> = Vec::new();
        effects.push(
            Effect::Emit(
                Event::LiquidityLocked { who: *who, pool: pair, locked_until: lock_until },
            ),
        );
        assert(self@ =~= lock_next(st, *who, pair, lock_until));
        Ok(effects)
    }
}

} // verus!
