//! What staking earns a launch, and where the stake sits.

use super::accumulator::{claim_of, harvest_fails, harvested, settled, stake_value, unharvested};
use super::staking::{
    even_split, retarget_error, stake_effects, stake_error, stake_next, stake_plan_error,
    stake_shares, survivors, StakeSight,
};
use super::state::{terms_ok, Record, Terms, TreasuryState};
use super::types::{Effect, Error, LaunchId, TreasuryStatus};
use crate::arith::{
    is_largest, is_least, lemma_ceil, lemma_ceil_bounds, lemma_floor, lemma_floor_bounds,
    lemma_floor_is, max_int, min_int,
};
use crate::primitives::{AccountId, Balance};
use vstd::prelude::*;

verus! {

/// A harvest gives every share the same, the most that what has arrived goes round for
/// (in units of a quintillionth), and counts it as attributed. Without shares, or where
/// nothing has arrived, nothing happens. It fails exactly where that leaves `u128`.
pub proof fn law_harvest_goes_round(st: TreasuryState, held: Balance)
    ensures
        ({
            let arrived = held - st.lnrg_accounted;
            let next = harvested(st, held);
            let inc = next.lnrg_per_share - st.lnrg_per_share;
            let total = st.total_shares as int;
            &&& total == 0 || arrived <= 0 ==> next == st && !harvest_fails(st, held)
            &&& total > 0 && arrived > 0 ==> {
                &&& harvest_fails(st, held) <==> arrived * 1_000_000_000_000_000_000 >= (u128::MAX
                    + 1) * total
                &&& !harvest_fails(st, held) && next.lnrg_per_share < u128::MAX ==> is_largest(
                    inc,
                    arrived * 1_000_000_000_000_000_000,
                    total,
                )
                &&& next.lnrg_accounted == held
                &&& next == (TreasuryState {
                    lnrg_per_share: next.lnrg_per_share,
                    lnrg_accounted: held,
                    ..st
                })
            }
            &&& unharvested(st, held) == if total > 0 && arrived > 0 {
                arrived
            } else {
                0
            }
        }),
{
    let arrived = held - st.lnrg_accounted;
    let total = st.total_shares as int;
    if total > 0 && arrived > 0 {
        let n = arrived * 1_000_000_000_000_000_000;
        lemma_floor(n, total);
        lemma_floor_bounds(n, total, u128::MAX + 1);
    }
}

/// What a launch can realise is what it has accrued, and the most that its shares are
/// owed at the accumulator as far as that is past its mark. Settling accrues exactly
/// that and moves the mark, and leaves nothing to settle.
pub proof fn law_claim_is_what_shares_are_owed(per_share: u128, t: Record, gross: int)
    requires
        is_largest(gross, t.shares * per_share, 1_000_000_000_000_000_000),
        gross <= u128::MAX,
        t.lnrg_accrued + gross <= u128::MAX,
    ensures
        ({
            let owed = if gross > t.lnrg_debt {
                gross - t.lnrg_debt
            } else {
                0
            };
            let s = settled(per_share, t);
            &&& claim_of(per_share, t) == t.lnrg_accrued + owed
            &&& s == (Record {
                lnrg_accrued: (t.lnrg_accrued + owed) as u128,
                lnrg_debt: if gross > t.lnrg_debt {
                    gross as u128
                } else {
                    t.lnrg_debt
                },
                ..t
            })
            &&& claim_of(per_share, s) == claim_of(per_share, t)
        }),
{
    lemma_floor_is(t.shares * per_share, 1_000_000_000_000_000_000, gross);
}

/// A stake mints the most shares that are worth no more of the pooled stake than it
/// adds, or one for one where there are none yet. What is bonded comes off what was
/// pending, the claim is kept, and the mark is the least that covers the new shares. No
/// sum goes past the end of `u128`, and no difference below zero.
pub proof fn law_stake_mints_its_whole_part(
    st: TreasuryState,
    launch_id: LaunchId,
    sight: StakeSight,
    s: int,
)
    requires
        stake_error(st, launch_id, sight) is None,
        ({
            let added = sight.active_after - sight.active_before;
            if st.total_shares == 0 {
                s == added
            } else {
                is_largest(s, added * st.total_shares, sight.active_before as int)
            }
        }),
    ensures
        ({
            let t = st.treasuries[launch_id];
            let h = harvested(st, sight.lnrg_held);
            let next = stake_next(st, launch_id, sight);
            let after = next.treasuries[launch_id];
            let added = sight.active_after - sight.active_before;
            &&& added > 0
            &&& next.total_shares == min_int(st.total_shares + s, u128::MAX as int)
            &&& after.shares == min_int(t.shares + s, u128::MAX as int)
            &&& after.pending == max_int(t.pending - added, 0)
            &&& after.lnrg_accrued == claim_of(h.lnrg_per_share, t)
            &&& is_least(
                after.lnrg_debt as int,
                after.shares * h.lnrg_per_share,
                1_000_000_000_000_000_000,
            )
            &&& after == (Record {
                pending: after.pending,
                shares: after.shares,
                lnrg_accrued: after.lnrg_accrued,
                lnrg_debt: after.lnrg_debt,
                ..t
            })
            &&& next == (TreasuryState {
                treasuries: st.treasuries.insert(launch_id, after),
                total_shares: next.total_shares,
                ..h
            })
        }),
{
    let t = st.treasuries[launch_id];
    let h = harvested(st, sight.lnrg_held);
    let next = stake_next(st, launch_id, sight);
    let added = sight.active_after - sight.active_before;
    if st.total_shares != 0 {
        lemma_floor_is(added * st.total_shares, sight.active_before as int, s);
    }
    let shares = next.treasuries[launch_id].shares;
    assert(0 <= shares * h.lnrg_per_share) by (nonlinear_arith);
    lemma_ceil(shares * h.lnrg_per_share, 1_000_000_000_000_000_000);
    assert(next.treasuries =~= st.treasuries.insert(launch_id, next.treasuries[launch_id]));
}

/// A stake is owed to every active treasury whose pending fees reach the least stake,
/// unless there are shares with nothing behind them, or the bond added nothing, or a
/// number on the way leaves `u128`; and to no other. It bonds all that is pending.
pub proof fn law_stake_is_owed(st: TreasuryState, launch_id: LaunchId, sight: StakeSight)
    ensures
        ({
            let t = st.treasuries[launch_id];
            let held = sight.lnrg_held;
            let p = harvested(st, held).lnrg_per_share;
            let ready = {
                &&& st.treasuries.dom().contains(launch_id)
                &&& t.status == TreasuryStatus::Active
                &&& t.pending >= st.terms.min_stake
                &&& st.total_shares == 0 || sight.active_before > 0
            };
            let added = sight.active_after - sight.active_before;
            let fits = {
                &&& !harvest_fails(st, held)
                &&& t.shares * p < (u128::MAX + 1) * 1_000_000_000_000_000_000
                &&& added * st.total_shares < (u128::MAX + 1) * sight.active_before
                    || st.total_shares == 0
                &&& (t.shares + stake_shares(st, sight)) * p <= u128::MAX
                    * 1_000_000_000_000_000_000
                &&& t.shares + stake_shares(st, sight) <= u128::MAX
            };
            &&& stake_error(st, launch_id, sight) is None ==> ready && added > 0
            &&& ready && added > 0 && fits ==> stake_error(st, launch_id, sight) is None
            &&& ready && added <= 0 && fits ==> stake_error(st, launch_id, sight) == Some(
                Error::NothingToDo,
            )
            &&& stake_plan_error(st, launch_id, held, sight.active_before) is None ==> ready
            &&& ready && fits ==> stake_plan_error(st, launch_id, held, sight.active_before) is None
            &&& st.treasuries.dom().contains(launch_id) && t.status == TreasuryStatus::Active
                && t.pending < st.terms.min_stake ==> stake_error(st, launch_id, sight) == Some(
                Error::BelowMinStake,
            )
            &&& stake_effects(st, launch_id, sight).contains(
                if sight.bonded {
                    Effect::BondExtra { value: t.pending }
                } else {
                    Effect::Bond { value: t.pending }
                },
            )
        }),
{
    let t = st.treasuries[launch_id];
    let p = harvested(st, sight.lnrg_held).lnrg_per_share;
    let n = t.shares * p;
    assert(0 <= n) by (nonlinear_arith)
        requires
            n == t.shares * p,
    ;
    lemma_floor_bounds(n, 1_000_000_000_000_000_000, u128::MAX + 1);
    let added = sight.active_after - sight.active_before;
    if st.total_shares != 0 && sight.active_before > 0 && added > 0 {
        assert(0 <= added * st.total_shares) by (nonlinear_arith)
            requires
                0 <= added,
        ;
        lemma_floor(added * st.total_shares, sight.active_before as int);
        lemma_floor_bounds(
            added * st.total_shares,
            sight.active_before as int,
            u128::MAX + 1,
        );
    }
    let m = (t.shares + stake_shares(st, sight)) * p;
    lemma_ceil_bounds(m, 1_000_000_000_000_000_000, u128::MAX as int);
    let effects = stake_effects(st, launch_id, sight);
    assert(effects[effects.len() - 2] == if sight.bonded {
        Effect::BondExtra { value: t.pending }
    } else {
        Effect::Bond { value: t.pending }
    });
}

/// What a launch's shares are worth is the most that they are owed of the pooled stake.
pub proof fn law_stake_value_is_its_whole_part(st: TreasuryState, t: Record, active: Balance)
    ensures
        t.shares > 0 && st.total_shares > 0 ==> is_largest(
            stake_value(st, t, active),
            t.shares * active,
            st.total_shares as int,
        ),
        t.shares == 0 || st.total_shares == 0 ==> stake_value(st, t, active) == 0,
{
    assert(0 <= t.shares * active) by (nonlinear_arith);
    if st.total_shares > 0 {
        lemma_floor(t.shares * active, st.total_shares as int);
    }
}

/// `picks` are the places, in rising order, of exactly the targets that are flagged.
pub open spec fn picks_flagged(
    picks: Seq<int>,
    targets: Seq<AccountId>,
    flags: Seq<bool>,
    chosen: Seq<AccountId>,
) -> bool {
    &&& picks.len() == chosen.len()
    &&& forall|j: int|
        0 <= j < picks.len() ==> {
            let i = #[trigger] picks[j];
            0 <= i < targets.len() && i < flags.len() && flags[i] && chosen[j] == targets[i]
        }
    &&& forall|j: int, k: int|
        0 <= j < k < picks.len() ==> #[trigger] picks[j] < #[trigger] picks[k]
    &&& forall|i: int|
        0 <= i < targets.len() && i < flags.len() && #[trigger] flags[i] ==> picks.contains(i)
}

/// The vault cooperates with exactly the targets that can be cooperated with, in their
/// order.
pub proof fn law_survivors_are_the_flagged(targets: Seq<AccountId>, flags: Seq<bool>) -> (picks:
    Seq<int>)
    ensures
        picks_flagged(picks, targets, flags, survivors(targets, flags)),
    decreases targets.len(),
{
    if targets.len() == 0 {
        Seq::empty()
    } else {
        let n = targets.len() - 1;
        let before = law_survivors_are_the_flagged(targets.drop_last(), flags);
        if n < flags.len() && flags[n] {
            let picks = before.push(n);
            assert forall|i: int|
                0 <= i < targets.len() && i < flags.len()
                    && #[trigger] flags[i] implies picks.contains(i) by {
                if i < n {
                    assert(before.contains(i));
                    let j = choose|j: int| 0 <= j < before.len() && before[j] == i;
                    assert(picks[j] == i);
                } else {
                    assert(picks[before.len() as int] == i);
                }
            }
            picks
        } else {
            before
        }
    }
}

/// The stake is spread evenly over the targets: each gets the most that goes round, and
/// the first what is left over as well. It is spread wherever it reaches the least bond
/// and somebody can be cooperated with.
pub proof fn law_stake_is_spread_evenly(
    st: TreasuryState,
    active: Balance,
    min_bond: Balance,
    flags: Seq<bool>,
    validators: Seq<AccountId>,
    i: int,
)
    ensures
        retarget_error(st, active, min_bond, flags) is None <==> active >= min_bond && survivors(
            st.targets,
            flags,
        ).len() > 0,
        active < min_bond ==> retarget_error(st, active, min_bond, flags) == Some(
            Error::NothingToDo,
        ),
        active >= min_bond && survivors(st.targets, flags).len() == 0 ==> retarget_error(
            st,
            active,
            min_bond,
            flags,
        ) == Some(Error::NoTargets),
        0 <= i < validators.len() ==> {
            let n = validators.len() as int;
            let split = even_split(active as int, validators);
            &&& split.len() == n
            &&& split[i].0 == validators[i]
            &&& i > 0 ==> is_largest(split[i].1 as int, active as int, n)
            &&& n > 1 && i > 0 ==> split[0].1 + split[i].1 * (n - 1) == active
            &&& n == 1 ==> split[0].1 == active
        },
{
    if 0 <= i < validators.len() {
        let n = validators.len() as int;
        lemma_floor(active as int, n);
        let each = active as int / n;
        assert(each * n <= active);
        assert(each * (n - 1) == each * n - each) by (nonlinear_arith);
        assert(0 <= each * (n - 1)) by (nonlinear_arith)
            requires
                0 <= each,
                1 <= n,
        ;
        if n == 1 {
            assert(each * 1 == each);
        }
    }
}

/// Terms may be set within these bounds and no others.
pub proof fn law_terms_are_bounded(t: Terms)
    ensures
        terms_ok(t) <==> {
            &&& 10 <= t.max_burn_impact_bps && t.max_burn_impact_bps <= 200
            &&& t.keeper_bounty_bps <= 200
            &&& t.dormancy_blocks > 0 && t.min_stake > 0
        },
{
}

} // verus!
