//! What liquidity gives for what it takes.

use super::flows::{inflow, lemma_inflow_three};
use super::liquidity::{
    deposit_effects, deposit_error, deposit_next, deposit_plan, lock_error, lock_next,
    withdrawal_effects, withdrawal_error, withdrawal_next, DepositRequest, WithdrawalRequest,
};
use super::pool_laws::lemma_sqrt_exists;
use super::pricing::is_sqrt;
use super::seed::{seed_error, seed_next, SeedRequest};
use super::state::{pool_account, DexState, Position};
use super::types::{Error, FeeRouting};
use crate::accounts::{canonical, lemma_pair_order};
use crate::arith::{is_largest, lemma_floor, lemma_floor_is};
use crate::primitives::{AccountId, AssetPair, Balance, BlockNumber};
use vstd::prelude::*;

verus! {

/// Amounts are taken at the ratio of the reserves: one offer is used up, and of the
/// other as much as the ratio allows and no more than was offered. The first offer
/// is the one used up wherever the second covers its match.
pub open spec fn taken_at_ratio(
    reserve_a: int,
    reserve_b: int,
    a: int,
    b: int,
    x: int,
    y: int,
) -> bool {
    ||| x == a && y <= b && is_largest(y, a * reserve_b, reserve_a)
    ||| y == b && x <= a && is_largest(x, b * reserve_a, reserve_b) && (b + 1) * reserve_a <= a
        * reserve_b
}

/// Shares are worth their whole part of the reserves, and one share more would be
/// worth more than was put in of one side.
pub open spec fn worth_their_part(
    reserve_a: int,
    reserve_b: int,
    total: int,
    x: int,
    y: int,
    s: int,
) -> bool {
    &&& s * reserve_a <= x * total
    &&& s * reserve_b <= y * total
    &&& (s + 1) * reserve_a > x * total || (s + 1) * reserve_b > y * total
}

/// A deposit into a pool with shares takes amounts at the ratio of what the pool
/// holds, meets the minimums, and mints the most shares that are worth no more than
/// the amounts; they all go to the provider. Nobody else's position changes, and
/// neither does anything else the exchange remembers.
pub proof fn law_deposit_mints_its_whole_part(
    st: DexState,
    req: DepositRequest,
    held_a: Balance,
    held_b: Balance,
    now: BlockNumber,
)
    requires
        deposit_error(st, req, held_a, held_b) is None,
        st.total_liquidity.dom().contains(canonical(req.asset_a, req.asset_b)),
        st.total_liquidity[canonical(req.asset_a, req.asset_b)] > 0,
    ensures
        ({
            let pair = canonical(req.asset_a, req.asset_b);
            let key = (req.who, pair);
            let next = deposit_next(st, req, held_a, held_b, now);
            let total = st.total_liquidity[pair];
            let x = next.pools[pair].reserve_a - held_a;
            let y = next.pools[pair].reserve_b - held_b;
            let s = next.total_liquidity[pair] - total;
            let (a, min_a, b, min_b) = if pair == (req.asset_a, req.asset_b) {
                (req.amount_a, req.amount_a_min, req.amount_b, req.amount_b_min)
            } else {
                (req.amount_b, req.amount_b_min, req.amount_a, req.amount_a_min)
            };
            &&& taken_at_ratio(held_a as int, held_b as int, a as int, b as int, x, y)
            &&& worth_their_part(held_a as int, held_b as int, total as int, x, y, s)
            &&& s > 0 && x >= min_a && y >= min_b
            &&& next.liquidity_positions == st.liquidity_positions.insert(
                key,
                if st.liquidity_positions.dom().contains(key) {
                    Position {
                        shares: (st.liquidity_positions[key].shares + s) as u128,
                        ..st.liquidity_positions[key]
                    }
                } else {
                    Position { shares: s as u128, entry_block: now, locked_until: None }
                },
            )
            &&& next == (DexState {
                pools: next.pools,
                total_liquidity: next.total_liquidity,
                liquidity_positions: next.liquidity_positions,
                ..st
            })
            &&& next.pools.remove(pair) == st.pools.remove(pair)
            &&& next.total_liquidity.remove(pair) == st.total_liquidity.remove(pair)
        }),
{
    lemma_pair_order(req.asset_a, req.asset_b);
    let pair = canonical(req.asset_a, req.asset_b);
    let next = deposit_next(st, req, held_a, held_b, now);
    let total = st.total_liquidity[pair] as int;
    let (ra, rb) = (held_a as int, held_b as int);
    let (a, b) = if pair == (req.asset_a, req.asset_b) {
        (req.amount_a as int, req.amount_b as int)
    } else {
        (req.amount_b as int, req.amount_a as int)
    };
    lemma_priced(total, ra, rb, a, b);
    assert(next.pools.remove(pair) =~= st.pools.remove(pair));
    assert(next.total_liquidity.remove(pair) =~= st.total_liquidity.remove(pair));
}

/// How a deposit into a pool with shares is priced.
proof fn lemma_priced(total: int, ra: int, rb: int, a: int, b: int)
    requires
        0 < total <= u128::MAX,
        0 <= ra <= u128::MAX,
        0 <= rb <= u128::MAX,
        0 <= a <= u128::MAX,
        0 <= b <= u128::MAX,
        deposit_plan(total, ra, rb, a, b) is Ok,
    ensures
        ({
            let d = deposit_plan(total, ra, rb, a, b)->Ok_0;
            let (x, y) = (d.amount_a as int, d.amount_b as int);
            &&& 0 < ra && 0 < rb
            &&& taken_at_ratio(ra, rb, a, b, x, y)
            &&& worth_their_part(ra, rb, total, x, y, d.new_shares as int)
            &&& d.shares == d.new_shares
        }),
{
    assert(0 <= a * rb && 0 <= b * ra) by (nonlinear_arith)
        requires
            0 <= a,
            0 <= b,
            0 <= ra,
            0 <= rb,
    ;
    lemma_floor(a * rb, ra);
    lemma_floor(b * ra, rb);
    let optimal = a * rb / ra;
    let (x, y) = if optimal <= b {
        (a, optimal)
    } else {
        (b * ra / rb, b)
    };
    if optimal > b {
        assert((b + 1) * ra <= a * rb) by (nonlinear_arith)
            requires
                optimal * ra <= a * rb,
                b + 1 <= optimal,
                0 < ra,
        ;
        assert(x <= a) by (nonlinear_arith)
            requires
                x * rb <= b * ra,
                (b + 1) * ra <= a * rb,
                0 < rb,
                0 < ra,
        ;
    }
    assert(0 <= x * total && 0 <= y * total) by (nonlinear_arith)
        requires
            0 <= x,
            0 <= y,
            0 < total,
    ;
    lemma_floor(x * total, ra);
    lemma_floor(y * total, rb);
    let (sa, sb) = (x * total / ra, y * total / rb);
    let s = if sa <= sb {
        sa
    } else {
        sb
    };
    assert(s * ra <= x * total) by (nonlinear_arith)
        requires
            s <= sa,
            sa * ra <= x * total,
            0 < ra,
    ;
    assert(s * rb <= y * total) by (nonlinear_arith)
        requires
            s <= sb,
            sb * rb <= y * total,
            0 < rb,
    ;
}

/// A deposit into a pool with shares is owed wherever amounts at the ratio meet the
/// minimums and are worth a share, as long as every sum and quotient on the way fits
/// in `u128`.
pub proof fn law_deposit_is_owed(
    st: DexState,
    req: DepositRequest,
    held_a: Balance,
    held_b: Balance,
    x: int,
    y: int,
    s: int,
)
    requires
        req.amount_a > 0 && req.amount_b > 0,
        held_a > 0 && held_b > 0,
        ({
            let pair = canonical(req.asset_a, req.asset_b);
            let key = (req.who, pair);
            let total = st.total_liquidity[pair];
            let (a, min_a, b, min_b) = if pair == (req.asset_a, req.asset_b) {
                (req.amount_a, req.amount_a_min, req.amount_b, req.amount_b_min)
            } else {
                (req.amount_b, req.amount_b_min, req.amount_a, req.amount_a_min)
            };
            &&& st.pools.dom().contains(pair)
            &&& st.total_liquidity.dom().contains(pair) && total > 0
            &&& taken_at_ratio(held_a as int, held_b as int, a as int, b as int, x, y)
            &&& worth_their_part(held_a as int, held_b as int, total as int, x, y, s)
            &&& s > 0 && x >= min_a && y >= min_b
            &&& a * held_b < (u128::MAX + 1) * held_a
            &&& x * total < (u128::MAX + 1) * held_a && y * total < (u128::MAX + 1) * held_b
            &&& held_a + x <= u128::MAX && held_b + y <= u128::MAX && total + s <= u128::MAX
            &&& st.liquidity_positions.dom().contains(key) ==> st.liquidity_positions[key].shares
                + s <= u128::MAX
        }),
    ensures
        deposit_error(st, req, held_a, held_b) is None,
{
    lemma_pair_order(req.asset_a, req.asset_b);
    let pair = canonical(req.asset_a, req.asset_b);
    let total = st.total_liquidity[pair] as int;
    let (ra, rb) = (held_a as int, held_b as int);
    let (a, b) = if pair == (req.asset_a, req.asset_b) {
        (req.amount_a as int, req.amount_b as int)
    } else {
        (req.amount_b as int, req.amount_a as int)
    };
    assert(0 <= a * rb && 0 <= b * ra) by (nonlinear_arith)
        requires
            0 <= a,
            0 <= b,
            0 <= ra,
            0 <= rb,
    ;
    lemma_floor(a * rb, ra);
    lemma_floor(b * ra, rb);
    let optimal = a * rb / ra;
    assert(optimal <= u128::MAX) by (nonlinear_arith)
        requires
            optimal * ra <= a * rb,
            a * rb < (u128::MAX + 1) * ra,
            0 < ra,
    ;
    if x == a && y <= b && is_largest(y, a * rb, ra) {
        lemma_floor_is(a * rb, ra, y);
    } else {
        assert(optimal > b) by (nonlinear_arith)
            requires
                (b + 1) * ra <= a * rb,
                a * rb < (optimal + 1) * ra,
                0 < ra,
        ;
        lemma_floor_is(b * ra, rb, x);
    }
    assert(0 <= x * total && 0 <= y * total) by (nonlinear_arith)
        requires
            0 <= x,
            0 <= y,
            0 < total,
    ;
    lemma_floor(x * total, ra);
    lemma_floor(y * total, rb);
    let (sa, sb) = (x * total / ra, y * total / rb);
    assert(sa <= u128::MAX) by (nonlinear_arith)
        requires
            sa * ra <= x * total,
            x * total < (u128::MAX + 1) * ra,
            0 < ra,
    ;
    assert(sb <= u128::MAX) by (nonlinear_arith)
        requires
            sb * rb <= y * total,
            y * total < (u128::MAX + 1) * rb,
            0 < rb,
    ;
    assert(s <= sa) by (nonlinear_arith)
        requires
            s * ra <= x * total,
            x * total < (sa + 1) * ra,
            0 < ra,
    ;
    assert(s <= sb) by (nonlinear_arith)
        requires
            s * rb <= y * total,
            y * total < (sb + 1) * rb,
            0 < rb,
    ;
    if s < sa && s < sb {
        assert((s + 1) * ra <= x * total) by (nonlinear_arith)
            requires
                s + 1 <= sa,
                sa * ra <= x * total,
                0 < ra,
        ;
        assert((s + 1) * rb <= y * total) by (nonlinear_arith)
            requires
                s + 1 <= sb,
                sb * rb <= y * total,
                0 < rb,
        ;
    }
}

/// A first deposit takes both offers whole. The pool's shares are the square root of
/// their product, rounded down, and all but a thousand of them go to the provider. It
/// is refused exactly where there would be no more than that thousand.
pub proof fn law_first_deposit_mints_the_root(
    st: DexState,
    req: DepositRequest,
    held_a: Balance,
    held_b: Balance,
    now: BlockNumber,
)
    requires
        req.amount_a > 0 && req.amount_b > 0,
        st.pools.dom().contains(canonical(req.asset_a, req.asset_b)),
        st.total_liquidity.dom().contains(canonical(req.asset_a, req.asset_b)) ==> st.total_liquidity[
            canonical(req.asset_a, req.asset_b)
        ] == 0,
        !st.liquidity_positions.dom().contains((req.who, canonical(req.asset_a, req.asset_b))),
    ensures
        ({
            let pair = canonical(req.asset_a, req.asset_b);
            let key = (req.who, pair);
            let next = deposit_next(st, req, held_a, held_b, now);
            let total = next.total_liquidity[pair];
            let (a, b) = if pair == (req.asset_a, req.asset_b) {
                (req.amount_a as int, req.amount_b as int)
            } else {
                (req.amount_b as int, req.amount_a as int)
            };
            deposit_error(st, req, held_a, held_b) is None ==> {
                &&& total * total <= req.amount_a * req.amount_b < (total + 1) * (total + 1)
                &&& total > 1_000
                &&& next.pools[pair].reserve_a == held_a + a
                &&& next.pools[pair].reserve_b == held_b + b
                &&& next.liquidity_positions[key].shares == total - 1_000
                &&& next.liquidity_positions[key].locked_until is None
            }
        }),
        req.amount_a * req.amount_b < 1_001 * 1_001 <==> deposit_error(st, req, held_a, held_b)
            == Some(Error::InsufficientInitialLiquidity),
        req.amount_a * req.amount_b >= 1_001 * 1_001 && held_a + req.amount_a <= u128::MAX && held_a
            + req.amount_b <= u128::MAX && held_b + req.amount_a <= u128::MAX && held_b
            + req.amount_b <= u128::MAX && req.amount_a_min <= req.amount_a && req.amount_b_min
            <= req.amount_b ==> deposit_error(st, req, held_a, held_b) is None,
{
    lemma_pair_order(req.asset_a, req.asset_b);
    let p = req.amount_a * req.amount_b;
    assert(req.amount_b * req.amount_a == p) by (nonlinear_arith)
        requires
            p == req.amount_a * req.amount_b,
    ;
    lemma_sqrt_exists(req.amount_a as int, req.amount_b as int);
    let r = super::pricing::sqrt_floor(p);
    assert(is_sqrt(r, p));
    assert(p < 1_001 * 1_001 <==> r <= 1_000) by (nonlinear_arith)
        requires
            0 <= r,
            r * r <= p < (r + 1) * (r + 1),
    ;
}

/// A withdrawal gives the most of either asset that the shares are worth, takes
/// exactly those shares, and touches nothing else.
pub proof fn law_withdrawal_gives_its_whole_part(
    st: DexState,
    req: WithdrawalRequest,
    held_a: Balance,
    held_b: Balance,
    now: BlockNumber,
)
    requires
        withdrawal_error(st, req, held_a, held_b, now) is None,
    ensures
        ({
            let pair = canonical(req.asset_a, req.asset_b);
            let key = (req.who, pair);
            let next = withdrawal_next(st, req, held_a, held_b);
            let total = st.total_liquidity[pair];
            let position = st.liquidity_positions[key];
            let x = held_a - next.pools[pair].reserve_a;
            let y = held_b - next.pools[pair].reserve_b;
            let (min_a, min_b) = if pair == (req.asset_a, req.asset_b) {
                (req.amount_a_min, req.amount_b_min)
            } else {
                (req.amount_b_min, req.amount_a_min)
            };
            &&& is_largest(x, req.shares * held_a, total as int) && x >= min_a
            &&& is_largest(y, req.shares * held_b, total as int) && y >= min_b
            &&& next.total_liquidity == st.total_liquidity.insert(
                pair,
                (total - req.shares) as u128,
            )
            &&& 0 < req.shares <= position.shares && req.shares <= total
            &&& position.locked_until matches Some(until) ==> until <= now
            &&& next.liquidity_positions == if req.shares == position.shares {
                st.liquidity_positions.remove(key)
            } else {
                st.liquidity_positions.insert(
                    key,
                    Position { shares: (position.shares - req.shares) as u128, ..position },
                )
            }
            &&& next == (DexState {
                pools: next.pools,
                total_liquidity: next.total_liquidity,
                liquidity_positions: next.liquidity_positions,
                ..st
            })
            &&& next.pools.remove(pair) == st.pools.remove(pair)
        }),
{
    lemma_pair_order(req.asset_a, req.asset_b);
    let pair = canonical(req.asset_a, req.asset_b);
    let next = withdrawal_next(st, req, held_a, held_b);
    let total = st.total_liquidity[pair] as int;
    assert(0 <= req.shares * held_a && 0 <= req.shares * held_b) by (nonlinear_arith);
    lemma_floor(req.shares * held_a, total);
    lemma_floor(req.shares * held_b, total);
    assert(next.pools.remove(pair) =~= st.pools.remove(pair));
}

/// Whoever has the shares, unlocked, can withdraw them for amounts that meet the
/// minimums.
pub proof fn law_withdrawal_is_owed(
    st: DexState,
    req: WithdrawalRequest,
    held_a: Balance,
    held_b: Balance,
    now: BlockNumber,
    x: int,
    y: int,
)
    requires
        ({
            let pair = canonical(req.asset_a, req.asset_b);
            let key = (req.who, pair);
            let total = st.total_liquidity[pair];
            let (min_a, min_b) = if pair == (req.asset_a, req.asset_b) {
                (req.amount_a_min, req.amount_b_min)
            } else {
                (req.amount_b_min, req.amount_a_min)
            };
            &&& st.pools.dom().contains(pair) && st.total_liquidity.dom().contains(pair)
            &&& st.liquidity_positions.dom().contains(key)
            &&& 0 < req.shares <= st.liquidity_positions[key].shares
            &&& req.shares <= total
            &&& st.liquidity_positions[key].locked_until matches Some(until) ==> until <= now
            &&& is_largest(x, req.shares * held_a, total as int) && x >= min_a
            &&& is_largest(y, req.shares * held_b, total as int) && y >= min_b
        }),
    ensures
        withdrawal_error(st, req, held_a, held_b, now) is None,
{
    lemma_pair_order(req.asset_a, req.asset_b);
    let pair = canonical(req.asset_a, req.asset_b);
    let total = st.total_liquidity[pair] as int;
    lemma_floor_is(req.shares * held_a, total, x);
    lemma_floor_is(req.shares * held_b, total, y);
    let s = req.shares as int;
    assert(x <= held_a && y <= held_b) by (nonlinear_arith)
        requires
            x * total <= s * held_a,
            y * total <= s * held_b,
            0 < s <= total,
            0 <= held_a,
            0 <= held_b,
    ;
}

/// What moves between a provider and a pool: a deposit brings the pool what the
/// record gains, out of the provider's own funds, and a withdrawal hands the provider
/// what the record loses.
pub proof fn law_provider_and_pool_settle_up(
    st: DexState,
    deposit: DepositRequest,
    withdrawal: WithdrawalRequest,
    held_a: Balance,
    held_b: Balance,
    now: BlockNumber,
)
    ensures
        ({
            let pair = canonical(deposit.asset_a, deposit.asset_b);
            let account = st.pools[pair].pool_account;
            let effects = deposit_effects(st, deposit, held_a, held_b);
            let next = deposit_next(st, deposit, held_a, held_b, now);
            deposit_error(st, deposit, held_a, held_b) is None && deposit.who != account && pair.0
                != pair.1 ==> {
                &&& inflow(effects, pair.0, deposit.who) == held_a - next.pools[pair].reserve_a
                &&& inflow(effects, pair.1, deposit.who) == held_b - next.pools[pair].reserve_b
            }
        }),
        ({
            let pair = canonical(withdrawal.asset_a, withdrawal.asset_b);
            let account = st.pools[pair].pool_account;
            let effects = withdrawal_effects(st, withdrawal, held_a, held_b);
            let next = withdrawal_next(st, withdrawal, held_a, held_b);
            withdrawal_error(st, withdrawal, held_a, held_b, now) is None && withdrawal.who
                != account && pair.0 != pair.1 ==> {
                &&& inflow(effects, pair.0, withdrawal.who) == held_a - next.pools[pair].reserve_a
                &&& inflow(effects, pair.1, withdrawal.who) == held_b - next.pools[pair].reserve_b
            }
        }),
{
    let pair = canonical(deposit.asset_a, deposit.asset_b);
    let e = deposit_effects(st, deposit, held_a, held_b);
    assert(e =~= seq![e[0], e[1], e[2]]);
    lemma_inflow_three(e[0], e[1], e[2], pair.0, deposit.who);
    lemma_inflow_three(e[0], e[1], e[2], pair.1, deposit.who);
    let at = canonical(withdrawal.asset_a, withdrawal.asset_b);
    let f = withdrawal_effects(st, withdrawal, held_a, held_b);
    assert(f =~= seq![f[0], f[1], f[2]]);
    lemma_inflow_three(f[0], f[1], f[2], at.0, withdrawal.who);
    lemma_inflow_three(f[0], f[1], f[2], at.1, withdrawal.who);
    if withdrawal_error(st, withdrawal, held_a, held_b, now) is None {
        let total = st.total_liquidity[at] as int;
        assert(0 <= withdrawal.shares * held_a && 0 <= withdrawal.shares * held_b)
            by (nonlinear_arith);
        lemma_floor(withdrawal.shares * held_a, total);
        lemma_floor(withdrawal.shares * held_b, total);
    }
}

/// Whoever has a position can lock it to any block that is not before the lock it
/// has, and a lock changes nothing but its end.
pub proof fn law_lock_is_owed(
    st: DexState,
    who: AccountId,
    pair: AssetPair,
    lock_until: BlockNumber,
)
    ensures
        lock_error(st, who, pair, lock_until) is None <==> {
            &&& st.liquidity_positions.dom().contains((who, pair))
            &&& st.liquidity_positions[(who, pair)].locked_until matches Some(before) ==> before
                <= lock_until
        },
        ({
            let next = lock_next(st, who, pair, lock_until);
            let position = next.liquidity_positions[(who, pair)];
            &&& position.locked_until == Some(lock_until)
            &&& position.shares == st.liquidity_positions[(who, pair)].shares
            &&& position.entry_block == st.liquidity_positions[(who, pair)].entry_block
            &&& next.liquidity_positions.remove((who, pair)) == st.liquidity_positions.remove(
                (who, pair),
            )
            &&& next == (DexState { liquidity_positions: next.liquidity_positions, ..st })
        }),
{
    let next = lock_next(st, who, pair, lock_until);
    assert(next.liquidity_positions.remove((who, pair)) =~= st.liquidity_positions.remove(
        (who, pair),
    ));
}

/// A seed puts exactly its two amounts into a pool that holds no shares, mints the
/// square root of their product and locks all but a thousand of it for good, in the
/// seeder's name. A pool that it opens has no fees behind it yet, its own tier, and
/// the tier's whole default split where one side is native. Nothing else changes.
pub proof fn law_seed_fills_an_empty_pool(st: DexState, req: SeedRequest, now: BlockNumber)
    requires
        seed_error(st, req) is None,
    ensures
        ({
            let pair = canonical(req.asset, req.quote);
            let next = seed_next(st, req, now);
            let pool = next.pools[pair];
            let total = next.total_liquidity[pair];
            let native = st.config.native_asset;
            &&& st.total_liquidity.dom().contains(pair) && st.pools.dom().contains(pair)
                ==> st.total_liquidity[pair] == 0
            &&& total * total <= req.amount_asset * req.amount_quote < (total + 1) * (total + 1)
            &&& total > 1_000
            &&& if pair.0 == req.asset {
                pool.reserve_a == req.amount_asset && pool.reserve_b == req.amount_quote
            } else {
                pool.reserve_a == req.amount_quote && pool.reserve_b == req.amount_asset
            }
            &&& pool.fee_tier == req.fee_tier
            &&& next.liquidity_positions == st.liquidity_positions.insert(
                (req.who, pair),
                Position {
                    shares: (total - 1_000) as u128,
                    entry_block: now,
                    locked_until: Some(u64::MAX),
                },
            )
            &&& !st.pools.dom().contains(pair) ==> {
                &&& pool.total_fees_collected == 0
                &&& pool.pool_account == pool_account(pair)
                &&& if pair.0 == native || pair.1 == native {
                    st.default_fee_routing.dom().contains(req.fee_tier) && pool.routing
                        == st.default_fee_routing[req.fee_tier]
                } else {
                    pool.routing == (FeeRouting {
                        protocol_bps: 0,
                        creator_bps: 0,
                        treasury_bps: 0,
                    })
                }
            }
            &&& next.pools.remove(pair) == st.pools.remove(pair)
            &&& next.total_liquidity.remove(pair) == st.total_liquidity.remove(pair)
            &&& next == (DexState {
                pools: next.pools,
                total_liquidity: next.total_liquidity,
                liquidity_positions: next.liquidity_positions,
                ..st
            })
        }),
{
    let pair = canonical(req.asset, req.quote);
    let next = seed_next(st, req, now);
    lemma_sqrt_exists(req.amount_asset as int, req.amount_quote as int);
    assert(req.amount_quote * req.amount_asset == req.amount_asset * req.amount_quote)
        by (nonlinear_arith);
    crate::accounts::law_canonical_pair(req.asset, req.quote);
    crate::accounts::law_canonical_pair(pair.0, pair.1);
    assert(next.pools.remove(pair) =~= st.pools.remove(pair));
    assert(next.total_liquidity.remove(pair) =~= st.total_liquidity.remove(pair));
}

/// A seed is owed to a reserved asset against one that is not, at one of the three
/// tiers, for a pool that does not exist or is still empty at that tier, where the
/// amounts are worth more than the thousand shares that nobody owns. A new pool with
/// a native side needs a default that leaves the pool ten basis points, or half of a
/// smaller tier.
pub proof fn law_seed_is_owed(st: DexState, req: SeedRequest)
    ensures
        ({
            let pair = canonical(req.asset, req.quote);
            let native = st.config.native_asset;
            let d = st.default_fee_routing[req.fee_tier];
            seed_error(st, req) is None <==> {
                &&& req.amount_asset > 0 && req.amount_quote > 0
                &&& st.config.reserves(req.asset) && !st.config.reserves(req.quote)
                &&& req.fee_tier == 1 || req.fee_tier == 3 || req.fee_tier == 10
                &&& if st.pools.dom().contains(pair) {
                    &&& st.total_liquidity.dom().contains(pair) ==> st.total_liquidity[pair] == 0
                    &&& st.pools[pair].fee_tier == req.fee_tier
                    &&& st.pools[pair].reserve_a == 0 && st.pools[pair].reserve_b == 0
                } else {
                    pair.0 == native || pair.1 == native ==> {
                        &&& st.default_fee_routing.dom().contains(req.fee_tier)
                        &&& d.protocol_bps + d.creator_bps + d.treasury_bps <= if req.fee_tier
                            == 1 {
                            5
                        } else if req.fee_tier == 3 {
                            20
                        } else {
                            90int
                        }
                    }
                }
                &&& req.amount_asset * req.amount_quote >= 1_001 * 1_001
            }
        }),
{
    let p = req.amount_asset * req.amount_quote;
    lemma_sqrt_exists(req.amount_asset as int, req.amount_quote as int);
    assert(req.amount_quote * req.amount_asset == p) by (nonlinear_arith)
        requires
            p == req.amount_asset * req.amount_quote,
    ;
    let r = super::pricing::sqrt_floor(p);
    assert(is_sqrt(r, p));
    assert(p < 1_001 * 1_001 <==> r <= 1_000) by (nonlinear_arith)
        requires
            0 <= r,
            r * r <= p < (r + 1) * (r + 1),
    ;
}

} // verus!
