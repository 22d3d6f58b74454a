//! Upgrades of a running chain's exchange.

use super::liquidity::valid_tier;
use super::state::{pool_account, DexState, Pallet, Pool};
use super::types::{FeeRouting, MIN_LAUNCH_FEE_TIER, PALLET_ID};
use crate::accounts::{
    account_with, asset_bytes, canonical, lemma_account_with, pair_key_bytes, plain_pair_account,
    sub_account_bytes,
};
use crate::arith::min_int;
use crate::primitives::{AccountId, AssetKind, AssetPair, Balance, Key};
use crate::table::{distinct_keys, has_key, index_of, lemma_lookup, map_of};
use vstd::prelude::*;

verus! {

/// A pool record from before fees were routed.
#[derive(Clone, Copy, Debug, PartialEq, Eq)]
pub struct UnroutedPool<Balance, AccountId> {
    pub reserve_a: Balance,
    pub reserve_b: Balance,
    pub fee_tier: u32,
    pub total_fees_collected: Balance,
    pub pool_account: AccountId,
}

/// A split from before there was a treasury share.
#[derive(Clone, Copy, Debug, PartialEq, Eq, Structural)]
pub struct OldFeeRouting {
    pub protocol_bps: u16,
    pub creator_bps: u16,
}

/// A pool record from before there was a treasury share.
#[derive(Clone, Copy, Debug, PartialEq, Eq)]
pub struct OldPoolInfo<Balance, AccountId> {
    pub reserve_a: Balance,
    pub reserve_b: Balance,
    pub fee_tier: u32,
    pub total_fees_collected: Balance,
    pub pool_account: AccountId,
    pub routing: OldFeeRouting,
}

/// The record with a split that routes nothing.
pub open spec fn routed_nothing(old: UnroutedPool<Balance, AccountId>) -> Pool {
    Pool {
        reserve_a: old.reserve_a,
        reserve_b: old.reserve_b,
        fee_tier: old.fee_tier,
        total_fees_collected: old.total_fees_collected,
        pool_account: old.pool_account,
        routing: FeeRouting::none(),
    }
}

/// The split with no treasury share.
pub open spec fn widened(old: OldFeeRouting) -> FeeRouting {
    FeeRouting { protocol_bps: old.protocol_bps, creator_bps: old.creator_bps, treasury_bps: 0 }
}

/// The record with no treasury share in its split.
pub open spec fn widened_pool(old: OldPoolInfo<Balance, AccountId>) -> Pool {
    Pool {
        reserve_a: old.reserve_a,
        reserve_b: old.reserve_b,
        fee_tier: old.fee_tier,
        total_fees_collected: old.total_fees_collected,
        pool_account: old.pool_account,
        routing: widened(old.routing),
    }
}

/// The account a pair's reserves were kept at before it was derived from a
/// digest.
pub open spec fn plain_account(pair: AssetPair) -> AccountId {
    account_with(
        sub_account_bytes(
            PALLET_ID@,
            pair_key_bytes(asset_bytes(pair.0), asset_bytes(pair.1)),
        ),
    )
}

/// A pool whose reserves have to move to another account.
#[derive(Clone, Copy, Debug, PartialEq, Eq)]
pub struct PoolMove {
    pub pair: AssetPair,
    pub from: AccountId,
    pub to: AccountId,
}

/// One step of moving a pool's reserves.
#[derive(Clone, Copy, Debug, PartialEq, Eq, Structural)]
pub enum MoveStep {
    /// Move what can go while the old account stays alive.
    KeepAlive(AssetKind),
    /// Move all there is.
    All(AssetKind),
}

/// The pool's reserves have to move.
pub open spec fn must_move(pair: AssetPair, pool: Pool) -> bool {
    pool.pool_account == plain_account(pair) && plain_account(pair) != pool_account(
        canonical(pair.0, pair.1),
    )
}

/// The moves of the first `k` entries of a list of pools, in their order.
pub open spec fn moves_of(entries: Seq<(AssetPair, Pool)>, k: int) -> Seq<PoolMove>
    decreases k,
{
    if k <= 0 {
        Seq::empty()
    } else {
        let (pair, pool) = entries[k - 1];
        let before = moves_of(entries, k - 1);
        if must_move(pair, pool) {
            before.push(
                PoolMove {
                    pair,
                    from: plain_account(pair),
                    to: pool_account(canonical(pair.0, pair.1)),
                },
            )
        } else {
            before
        }
    }
}

/// Move `i` went through. One that nothing is said of did not.
pub open spec fn went_through(moved: Seq<bool>, i: int) -> bool {
    0 <= i < moved.len() && moved[i]
}

/// How many of the first `k` moves went through.
pub open spec fn moves_made(moved: Seq<bool>, k: int) -> int
    decreases k,
{
    if k <= 0 {
        0
    } else {
        moves_made(moved, k - 1) + if went_through(moved, k - 1) {
            1int
        } else {
            0
        }
    }
}

/// The pools once the first `k` moves are over: those that went through are at
/// their new account.
pub open spec fn pools_after_moves(
    pools: Map<AssetPair, Pool>,
    moves: Seq<PoolMove>,
    moved: Seq<bool>,
    k: int,
) -> Map<AssetPair, Pool>
    decreases k,
{
    if k <= 0 {
        pools
    } else {
        let before = pools_after_moves(pools, moves, moved, k - 1);
        let m = moves[k - 1];
        if went_through(moved, k - 1) && before.dom().contains(m.pair) {
            before.insert(m.pair, Pool { pool_account: m.to, ..before[m.pair] })
        } else {
            before
        }
    }
}

/// The steps of moving a pair's reserves. With a native side, most of it goes
/// first so that the new account can hold the other asset, and the rest goes last
/// so that the old account can let go of it.
pub open spec fn move_steps(native: AssetKind, pair: AssetPair) -> Seq<MoveStep> {
    if pair.0 == native {
        if pair.1 == native {
            seq![MoveStep::KeepAlive(native), MoveStep::All(native)]
        } else {
            seq![MoveStep::KeepAlive(native), MoveStep::All(pair.1), MoveStep::All(native)]
        }
    } else if pair.1 == native {
        seq![MoveStep::KeepAlive(native), MoveStep::All(pair.0), MoveStep::All(native)]
    } else {
        seq![MoveStep::All(pair.0), MoveStep::All(pair.1)]
    }
}

/// The default splits once the single one has become the launch tier's, where it
/// fits that tier.
pub open spec fn defaults_after_split(
    defaults: Map<u32, FeeRouting>,
    single: Option<FeeRouting>,
) -> Map<u32, FeeRouting> {
    match single {
        Some(routing) => if routing.valid_for(MIN_LAUNCH_FEE_TIER as int) {
            defaults.insert(MIN_LAUNCH_FEE_TIER, routing)
        } else {
            defaults
        },
        None => defaults,
    }
}

/// Which moves a list of pools has: one for each pool that must move, and no other.
proof fn lemma_moves(entries: Seq<(AssetPair, Pool)>, k: int)
    requires
        distinct_keys(entries),
        0 <= k <= entries.len(),
    ensures
        forall|i: int|
            0 <= i < moves_of(entries, k).len() ==> is_move_of(
                entries,
                k,
                #[trigger] moves_of(entries, k)[i],
            ),
        forall|i: int, j: int|
            0 <= i < j < moves_of(entries, k).len() ==> (#[trigger] moves_of(entries, k)[i]).pair
                != (#[trigger] moves_of(entries, k)[j]).pair,
        forall|e: int|
            0 <= e < k && must_move((#[trigger] entries[e]).0, entries[e].1) ==> has_move(
                moves_of(entries, k),
                entries[e].0,
            ),
    decreases k,
{
    if k > 0 {
        lemma_moves(entries, k - 1);
        let before = moves_of(entries, k - 1);
        let after = moves_of(entries, k);
        let n = before.len() as int;
        assert forall|i: int| 0 <= i < after.len() implies is_move_of(
            entries,
            k,
            #[trigger] after[i],
        ) by {
            if i < n {
                assert(is_move_of(entries, k - 1, before[i]));
            } else {
                assert(entries[k - 1].0 == after[i].pair);
            }
        }
        assert forall|i: int, j: int| 0 <= i < j < after.len() implies (#[trigger] after[i]).pair
            != (#[trigger] after[j]).pair by {
            assert(is_move_of(entries, k - 1, before[i]));
            if j < n {
                assert(before[i].pair != before[j].pair);
            } else {
                let e = choose|e: int|
                    0 <= e < k - 1 && (#[trigger] entries[e]).0 == before[i].pair && must_move(
                        entries[e].0,
                        entries[e].1,
                    );
                assert(entries[e].0 != entries[k - 1].0);
            }
        }
        assert forall|e: int|
            0 <= e < k && must_move((#[trigger] entries[e]).0, entries[e].1) implies has_move(
            after,
            entries[e].0,
        ) by {
            if e < k - 1 {
                assert(has_move(before, entries[e].0));
                let i = choose|i: int|
                    0 <= i < before.len() && (#[trigger] before[i]).pair == entries[e].0;
                assert(after[i] == before[i]);
            } else {
                assert(after[n].pair == entries[e].0);
            }
        }
    }
}

/// The move is that of one of the first `k` entries, which must move.
pub open spec fn is_move_of(entries: Seq<(AssetPair, Pool)>, k: int, m: PoolMove) -> bool {
    &&& m.from == plain_account(m.pair)
    &&& m.to == pool_account(canonical(m.pair.0, m.pair.1))
    &&& exists|e: int|
        0 <= e < k && (#[trigger] entries[e]).0 == m.pair && must_move(entries[e].0, entries[e].1)
}

/// One of the moves is the pair's.
pub open spec fn has_move(moves: Seq<PoolMove>, pair: AssetPair) -> bool {
    exists|i: int| 0 <= i < moves.len() && (#[trigger] moves[i]).pair == pair
}

/// What the first `k` moves make of one pool.
proof fn lemma_pool_after_moves(
    pools: Map<AssetPair, Pool>,
    moves: Seq<PoolMove>,
    moved: Seq<bool>,
    k: int,
    pair: AssetPair,
)
    requires
        0 <= k <= moves.len(),
        pools.dom().contains(pair),
        forall|i: int, j: int|
            0 <= i < j < moves.len() ==> (#[trigger] moves[i]).pair != (#[trigger] moves[j]).pair,
    ensures
        ({
            let after = pools_after_moves(pools, moves, moved, k);
            &&& after.dom() == pools.dom()
            &&& after[pair] == (Pool { pool_account: after[pair].pool_account, ..pools[pair] })
            &&& (forall|i: int|
                0 <= i < k && went_through(moved, i) ==> (#[trigger] moves[i]).pair != pair)
                ==> after[pair] == pools[pair]
            &&& forall|i: int|
                0 <= i < k && went_through(moved, i) && (#[trigger] moves[i]).pair == pair
                    ==> after[pair].pool_account == moves[i].to
        }),
    decreases k,
{
    if k > 0 {
        lemma_pool_after_moves(pools, moves, moved, k - 1, pair);
        let before = pools_after_moves(pools, moves, moved, k - 1);
        let after = pools_after_moves(pools, moves, moved, k);
        let m = moves[k - 1];
        assert(after.dom() =~= pools.dom());
        if went_through(moved, k - 1) && m.pair == pair {
            assert forall|i: int|
                0 <= i < k && went_through(moved, i) && (#[trigger] moves[i]).pair
                    == pair implies after[pair].pool_account == moves[i].to by {
                if i < k - 1 {
                    assert(moves[i].pair != moves[k - 1].pair);
                }
            }
        }
    }
}

/// Moving pools to their hashed accounts touches nothing but accounts. No pool
/// comes or goes, and each keeps all but its account. Exactly the pools that must
/// move have a move, from where they are. A pool whose move went through is at its
/// new account and need not move again; one whose move failed is as it was. Once
/// every move went through a second run has none.
pub proof fn law_moves_touch_only_accounts(entries: Seq<(AssetPair, Pool)>, moved: Seq<bool>)
    requires
        distinct_keys(entries),
    ensures
        ({
            let pools = map_of(entries);
            let moves = moves_of(entries, entries.len() as int);
            let after = pools_after_moves(pools, moves, moved, moves.len() as int);
            &&& after.dom() == pools.dom()
            &&& forall|pair: AssetPair| #[trigger]
                pools.dom().contains(pair) ==> {
                    &&& after[pair] == (Pool {
                        pool_account: after[pair].pool_account,
                        ..pools[pair]
                    })
                    &&& must_move(pair, pools[pair]) <==> has_move(moves, pair)
                    &&& !must_move(pair, pools[pair]) ==> after[pair] == pools[pair]
                }
            &&& forall|i: int|
                0 <= i < moves.len() ==> {
                    let m = #[trigger] moves[i];
                    &&& pools.dom().contains(m.pair)
                    &&& m.from == pools[m.pair].pool_account
                    &&& if went_through(moved, i) {
                        after[m.pair].pool_account == m.to && !must_move(m.pair, after[m.pair])
                    } else {
                        after[m.pair] == pools[m.pair]
                    }
                }
            &&& (forall|i: int| 0 <= i < moves.len() ==> #[trigger] went_through(moved, i)) ==> (
            forall|pair: AssetPair| #[trigger]
                pools.dom().contains(pair) ==> !must_move(pair, after[pair]))
        }),
{
    let pools = map_of(entries);
    let n = entries.len() as int;
    let moves = moves_of(entries, n);
    let k = moves.len() as int;
    let after = pools_after_moves(pools, moves, moved, k);
    lemma_moves(entries, n);
    assert forall|i: int| 0 <= i < k implies {
        let m = #[trigger] moves[i];
        &&& pools.dom().contains(m.pair)
        &&& must_move(m.pair, pools[m.pair])
    } by {
        assert(is_move_of(entries, n, moves[i]));
        let e = choose|e: int|
            0 <= e < n && (#[trigger] entries[e]).0 == moves[i].pair && must_move(
                entries[e].0,
                entries[e].1,
            );
        lemma_lookup(entries, e);
    }
    assert forall|pair: AssetPair| #[trigger] pools.dom().contains(pair) implies {
        &&& after[pair] == (Pool { pool_account: after[pair].pool_account, ..pools[pair] })
        &&& must_move(pair, pools[pair]) <==> has_move(moves, pair)
        &&& !must_move(pair, pools[pair]) ==> after[pair] == pools[pair]
    } by {
        lemma_pool_after_moves(pools, moves, moved, k, pair);
        assert(has_key(entries, pair));
        let e = index_of(entries, pair);
        lemma_lookup(entries, e);
        assert(entries[e].0 == pair);
        if has_move(moves, pair) {
            let i = choose|i: int| 0 <= i < moves.len() && (#[trigger] moves[i]).pair == pair;
            assert(must_move(moves[i].pair, pools[moves[i].pair]));
        }
    }
    lemma_moves_keep_pairs(pools, moves, moved, k);
    assert forall|i: int| 0 <= i < k implies {
        let m = #[trigger] moves[i];
        &&& pools.dom().contains(m.pair)
        &&& m.from == pools[m.pair].pool_account
        &&& if went_through(moved, i) {
            after[m.pair].pool_account == m.to && !must_move(m.pair, after[m.pair])
        } else {
            after[m.pair] == pools[m.pair]
        }
    } by {
        assert(is_move_of(entries, n, moves[i]));
        lemma_pool_after_moves(pools, moves, moved, k, moves[i].pair);
        if !went_through(moved, i) {
            assert forall|j: int| 0 <= j < k && went_through(moved, j) implies (
            #[trigger] moves[j]).pair != moves[i].pair by {
                if j < i {
                    assert(moves[j].pair != moves[i].pair);
                } else {
                    assert(moves[i].pair != moves[j].pair);
                }
            }
        }
    }
    if forall|i: int| 0 <= i < k ==> #[trigger] went_through(moved, i) {
        assert forall|pair: AssetPair| #[trigger] pools.dom().contains(pair) implies !must_move(
            pair,
            after[pair],
        ) by {
            if has_move(moves, pair) {
                let i = choose|i: int| 0 <= i < moves.len() && (#[trigger] moves[i]).pair == pair;
                assert(went_through(moved, i));
            }
        }
    }
}

/// A move went through exactly where that was reported of it, and as many are counted
/// as there are such moves.
pub proof fn law_moves_are_counted(moved: Seq<bool>, k: int)
    requires
        0 <= k,
    ensures
        forall|i: int| #[trigger]
            went_through(moved, i) <==> 0 <= i < moved.len() && moved[i],
        ({
            let through = Set::new(|i: int| 0 <= i < k && i < moved.len() && moved[i]);
            through.finite() && moves_made(moved, k) == through.len()
        }),
    decreases k,
{
    let through = Set::new(|i: int| 0 <= i < k && i < moved.len() && moved[i]);
    if k == 0 {
        assert(through =~= Set::empty());
    } else {
        law_moves_are_counted(moved, k - 1);
        let before = Set::new(|i: int| 0 <= i < k - 1 && i < moved.len() && moved[i]);
        if k - 1 < moved.len() && moved[k - 1] {
            assert(through =~= before.insert(k - 1));
        } else {
            assert(through =~= before);
        }
    }
}

/// No pool comes or goes.
proof fn lemma_moves_keep_pairs(
    pools: Map<AssetPair, Pool>,
    moves: Seq<PoolMove>,
    moved: Seq<bool>,
    k: int,
)
    ensures
        pools_after_moves(pools, moves, moved, k).dom() == pools.dom(),
    decreases k,
{
    if k > 0 {
        lemma_moves_keep_pairs(pools, moves, moved, k - 1);
        assert(pools_after_moves(pools, moves, moved, k).dom() =~= pools.dom());
    }
}

/// Give a record from before fees were routed a split that routes nothing.
pub fn route_nothing(old: &UnroutedPool<Balance, AccountId>) -> (r: Pool)
    ensures
        r == routed_nothing(*old),
{
    Pool {
        reserve_a: old.reserve_a,
        reserve_b: old.reserve_b,
        fee_tier: old.fee_tier,
        total_fees_collected: old.total_fees_collected,
        pool_account: old.pool_account,
        routing: FeeRouting { protocol_bps: 0, creator_bps: 0, treasury_bps: 0 },
    }
}

/// Give a split from before there was a treasury share one of zero.
pub fn widen(old: OldFeeRouting) -> (r: FeeRouting)
    ensures
        r == widened(old),
{
    FeeRouting { protocol_bps: old.protocol_bps, creator_bps: old.creator_bps, treasury_bps: 0 }
}

/// Give a record from before there was a treasury share one of zero.
pub fn widen_pool(old: &OldPoolInfo<Balance, AccountId>) -> (r: Pool)
    ensures
        r == widened_pool(*old),
{
    Pool {
        reserve_a: old.reserve_a,
        reserve_b: old.reserve_b,
        fee_tier: old.fee_tier,
        total_fees_collected: old.total_fees_collected,
        pool_account: old.pool_account,
        routing: widen(old.routing),
    }
}

/// The account a pair's reserves were kept at before it was derived from a
/// digest.
pub fn old_pool_account_for(pair: &AssetPair) -> (r: AccountId)
    ensures
        r == plain_account(*pair),
{
    let r = plain_pair_account(PALLET_ID, pair);
    proof {
        lemma_account_with(r);
    }
    r
}

impl Pallet {
    /// The pools whose reserves have to move to a digest-derived account.
    pub fn plan_moves(&self) -> (r: Vec<PoolMove>)
        ensures
            r@ == moves_of(self.pools.entries(), self.pools.entries().len() as int),
    {
        let n: usize = self.pools.len();
        let ghost all = self.pools.entries();
        let mut moves: Vec<PoolMove> = Vec::new();
        let mut i: usize = 0;
        while i < n
            invariant
                0 <= i <= n,
                n == all.len(),
                all == self.pools.entries(),
                moves@ == moves_of(all, i as int),
            decreases n - i,
        {
            let (pair, pool): (AssetPair, Pool) = self.pools.entry(i);
            let from: AccountId = old_pool_account_for(&pair);
            let to: AccountId = Pallet::pool_account_for(pair.0, pair.1);
            if pool.pool_account.same(&from) && !from.same(&to) {
                moves.push(PoolMove { pair, from, to });
            }
            i = i + 1;
        }
        moves
    }

    /// The steps of moving one pool's reserves, in order. A step moves nothing
    /// where the account has nothing to give.
    pub fn steps_of_move(&self, pair: &AssetPair) -> (r: Vec<MoveStep>)
        ensures
            r@ == move_steps(self@.config.native_asset, *pair),
    {
        let native: AssetKind = self.config.native_asset;
        let mut steps: Vec<MoveStep> = Vec::new();
        let has_native = pair.0 == native || pair.1 == native;
        if has_native {
            steps.push(MoveStep::KeepAlive(native));
        }
        if pair.0 != native {
            steps.push(MoveStep::All(pair.0));
        }
        if pair.1 != native {
            steps.push(MoveStep::All(pair.1));
        }
        if has_native {
            steps.push(MoveStep::All(native));
        }
        assert(steps@ =~= move_steps(native, *pair));
        steps
    }

    /// Point the pools whose move went through at their new account. A pool whose
    /// move did not keeps its record. Returns how many did.
    pub fn finish_moves(&mut self, moves: &Vec<PoolMove>, moved: &Vec<bool>) -> (r: u64)
        ensures
            r == min_int(moves_made(moved@, moves@.len() as int), u64::MAX as int),
            final(self)@ == (DexState {
                pools: pools_after_moves(
                    old(self)@.pools,
                    moves@,
                    moved@,
                    moves@.len() as int,
                ),
                ..old(self)@
            }),
    {
        let ghost st = self@;
        let mut count: u64 = 0;
        let mut i: usize = 0;
        while i < moves.len()
            invariant
                0 <= i <= moves@.len(),
                count == min_int(moves_made(moved@, i as int), u64::MAX as int),
                self@ == (DexState {
                    pools: pools_after_moves(st.pools, moves@, moved@, i as int),
                    ..st
                }),
            decreases moves@.len() - i,
        {
            if i < moved.len() && moved[i] {
                let m: PoolMove = moves[i];
                if let Some(p) = self.pools.get(&m.pair) {
                    let mut pool: Pool = p;
                    pool.pool_account = m.to;
                    self.pools.insert(m.pair, pool);
                }
                count = count.saturating_add(1);
            }
            i = i + 1;
            assert(self@ =~= (DexState {
                pools: pools_after_moves(st.pools, moves@, moved@, i as int),
                ..st
            }));
        }
        count
    }

    /// Whether no two pools were kept at one account before; a shared account's
    /// reserves could not be told apart.
    pub fn old_accounts_distinct(&self) -> (r: bool)
        ensures
            r == (forall|i: int, j: int|
                0 <= i < j < self.pools.entries().len() ==> plain_account(
                    #[trigger] self.pools.entries()[i].0,
                ) != plain_account(#[trigger] self.pools.entries()[j].0)),
    {
        let n: usize = self.pools.len();
        let ghost all = self.pools.entries();
        let mut seen: Vec<AccountId> = Vec::new();
        let mut i: usize = 0;
        while i < n
            invariant
                0 <= i <= n,
                n == all.len(),
                all == self.pools.entries(),
                seen@.len() == i,
                forall|j: int| 0 <= j < i ==> seen@[j] == plain_account(#[trigger] all[j].0),
                forall|a: int, b: int|
                    0 <= a < b < i ==> plain_account(#[trigger] all[a].0) != plain_account(
                        #[trigger] all[b].0,
                    ),
            decreases n - i,
        {
            let (pair, _): (AssetPair, Pool) = self.pools.entry(i);
            let old: AccountId = old_pool_account_for(&pair);
            let mut j: usize = 0;
            while j < i
                invariant
                    0 <= j <= i < n,
                    n == all.len(),
                    seen@.len() == i,
                    all == self.pools.entries(),
                    old == plain_account(all[i as int].0),
                    forall|a: int|
                        0 <= a < i ==> seen@[a] == plain_account(#[trigger] all[a].0),
                    forall|a: int|
                        0 <= a < j ==> plain_account(#[trigger] all[a].0) != old,
                decreases i - j,
            {
                if seen[j].same(&old) {
                    assert(plain_account(all[j as int].0) == plain_account(all[i as int].0));
                    return false;
                }
                j = j + 1;
            }
            seen.push(old);
            i = i + 1;
        }
        true
    }

    /// Whether one pool is where it belongs: its record points at the
    /// digest-derived account, its former account has nothing left to give, and
    /// its account holds at least the recorded reserves.
    pub fn move_holds(
        pair: &AssetPair,
        pool: &Pool,
        left_a: Balance,
        left_b: Balance,
        held_a: Balance,
        held_b: Balance,
    ) -> (r: bool)
        ensures
            r == (pool.pool_account == pool_account(canonical(pair.0, pair.1)) && left_a == 0
                && left_b == 0 && held_a >= pool.reserve_a && held_b >= (if pair.1 == pair.0 {
                pool.reserve_a
            } else {
                pool.reserve_b
            })),
    {
        let to: AccountId = Pallet::pool_account_for(pair.0, pair.1);
        let second: u128 = if pair.1 == pair.0 {
            pool.reserve_a
        } else {
            pool.reserve_b
        };
        pool.pool_account.same(&to) && left_a == 0 && left_b == 0 && held_a >= pool.reserve_a
            && held_b >= second
    }

    /// Make the single default split the launch tier's, where it fits that tier.
    /// A split that does not is dropped. No pool is touched.
    pub fn split_default(&mut self, single: Option<FeeRouting>)
        ensures
            final(self)@ == (DexState {
                default_fee_routing: defaults_after_split(
                    old(self)@.default_fee_routing,
                    single,
                ),
                ..old(self)@
            }),
    {
        let ghost st = self@;
        if let Some(routing) = single {
            if routing.is_valid_for(MIN_LAUNCH_FEE_TIER) {
                self.default_fee_routing.insert(MIN_LAUNCH_FEE_TIER, routing);
            }
        }
        assert(self@.default_fee_routing =~= defaults_after_split(st.default_fee_routing, single));
    }

    /// Whether no pool routes anything.
    pub fn pools_route_nothing(&self) -> (r: bool)
        ensures
            r == (forall|pair: AssetPair|
                self@.pools.dom().contains(pair) ==> (#[trigger] self@.pools[pair]).routing
                    == FeeRouting::none()),
    {
        let n: usize = self.pools.len();
        let ghost all = self.pools.entries();
        let mut i: usize = 0;
        while i < n
            invariant
                0 <= i <= n,
                n == all.len(),
                all == self.pools.entries(),
                distinct_keys(all),
                map_of(all) == self.pools@,
                forall|j: int| 0 <= j < i ==> (#[trigger] all[j]).1.routing == FeeRouting::none(),
            decreases n - i,
        {
            let (pair, pool): (AssetPair, Pool) = self.pools.entry(i);
            if pool.routing.protocol_bps != 0 || pool.routing.creator_bps != 0
                || pool.routing.treasury_bps != 0 {
                proof {
                    lemma_lookup(all, i as int);
                    assert(!(self@.pools[pair].routing == FeeRouting::none()));
                }
                return false;
            }
            i = i + 1;
        }
        proof {
            assert forall|pair: AssetPair| self@.pools.dom().contains(pair) implies (
            #[trigger] self@.pools[pair]).routing == FeeRouting::none() by {
                assert(has_key(all, pair));
                let j = index_of(all, pair);
                assert(all[j].1.routing == FeeRouting::none());
            }
        }
        true
    }

    /// Whether no pool feeds a treasury.
    pub fn pools_feed_no_treasury(&self) -> (r: bool)
        ensures
            r == (forall|pair: AssetPair|
                self@.pools.dom().contains(pair) ==> (
                #[trigger] self@.pools[pair]).routing.treasury_bps == 0),
    {
        let n: usize = self.pools.len();
        let ghost all = self.pools.entries();
        let mut i: usize = 0;
        while i < n
            invariant
                0 <= i <= n,
                n == all.len(),
                all == self.pools.entries(),
                distinct_keys(all),
                map_of(all) == self.pools@,
                forall|j: int| 0 <= j < i ==> (#[trigger] all[j]).1.routing.treasury_bps == 0,
            decreases n - i,
        {
            let (pair, pool): (AssetPair, Pool) = self.pools.entry(i);
            if pool.routing.treasury_bps != 0 {
                proof {
                    lemma_lookup(all, i as int);
                    assert(!(self@.pools[pair].routing.treasury_bps == 0));
                }
                return false;
            }
            i = i + 1;
        }
        proof {
            assert forall|pair: AssetPair| self@.pools.dom().contains(pair) implies (
            #[trigger] self@.pools[pair]).routing.treasury_bps == 0 by {
                assert(has_key(all, pair));
                let j = index_of(all, pair);
                assert(all[j].1.routing.treasury_bps == 0);
            }
        }
        true
    }

    /// Whether the tiers' defaults are what [`Pallet::split_default`] makes of a chain
    /// that had `single` and nothing else.
    pub fn split_holds(&self, single: Option<FeeRouting>) -> (r: bool)
        ensures
            r == ({
                let made = defaults_after_split(Map::empty(), single);
                forall|tier: u32|
                    valid_tier(tier) ==> (self@.default_fee_routing.dom().contains(tier)
                        <==> #[trigger] made.dom().contains(tier)) && (made.dom().contains(tier)
                        ==> self@.default_fee_routing[tier] == made[tier])
            }),
    {
        let ghost made = defaults_after_split(Map::empty(), single);
        let ghost st = self@;
        let expected: Option<FeeRouting> = match single {
            Some(routing) => if routing.is_valid_for(MIN_LAUNCH_FEE_TIER) {
                Some(routing)
            } else {
                None
            },
            None => None,
        };
        let launch = match (self.default_fee_routing.get(&MIN_LAUNCH_FEE_TIER), expected) {
            (Some(set), Some(due)) => set == due,
            (None, None) => true,
            _ => false,
        };
        let others = self.default_fee_routing.contains_key(&1)
            || self.default_fee_routing.contains_key(&10);
        assert(valid_tier(1) && valid_tier(MIN_LAUNCH_FEE_TIER) && valid_tier(10));
        assert(!made.dom().contains(1) && !made.dom().contains(10));
        assert(made.dom().contains(MIN_LAUNCH_FEE_TIER) == (expected is Some));
        launch && !others
    }

    /// Whether every pool routes no more than it charges.
    pub fn pools_fit_their_tier(&self) -> (r: bool)
        ensures
            r == (forall|pair: AssetPair|
                self@.pools.dom().contains(pair) ==> #[trigger] self@.pools[pair].routing.fits(
                    self@.pools[pair].fee_tier as int,
                )),
    {
        let n: usize = self.pools.len();
        let ghost all = self.pools.entries();
        let mut i: usize = 0;
        while i < n
            invariant
                0 <= i <= n,
                n == all.len(),
                all == self.pools.entries(),
                distinct_keys(all),
                map_of(all) == self.pools@,
                forall|j: int|
                    0 <= j < i ==> (#[trigger] all[j]).1.routing.fits(all[j].1.fee_tier as int),
            decreases n - i,
        {
            let (pair, pool): (AssetPair, Pool) = self.pools.entry(i);
            if !pool.routing.fits_tier(pool.fee_tier) {
                proof {
                    lemma_lookup(all, i as int);
                    assert(!self@.pools[pair].routing.fits(self@.pools[pair].fee_tier as int));
                }
                return false;
            }
            i = i + 1;
        }
        proof {
            assert forall|pair: AssetPair|
                self@.pools.dom().contains(pair) implies #[trigger] self@.pools[pair].routing.fits(
                self@.pools[pair].fee_tier as int,
            ) by {
                assert(has_key(all, pair));
                let j = index_of(all, pair);
                assert(all[j].1.routing.fits(all[j].1.fee_tier as int));
            }
        }
        true
    }
}

} // verus!
