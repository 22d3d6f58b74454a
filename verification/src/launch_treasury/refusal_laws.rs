//! What a refusal says. Every refusal names a fault that is there, and the first one
//! in the order in which a request is looked at.

use super::accumulator::{gross_owed, harvest_fails, harvested};
use super::compound::{begin_error, slice_error, slice_impact, venue_reserve, VenueSight};
use super::retire::{
    expected_of, finalize_error, finalize_plan_error, matured, retire_error, RetireSight,
};
use super::staking::{stake_error, stake_plan_error, StakeSight};
use super::state::TreasuryState;
use super::types::{EraIndex, Error, LaunchId, Phase, TreasuryStatus};
use crate::arith::lemma_floor_bounds;
use crate::primitives::Balance;
use vstd::prelude::*;

verus! {

/// The amount cannot be divided out in `u128`: `n / d` is past its end.
pub open spec fn leaves_u128(n: int, d: int) -> bool {
    n >= (u128::MAX + 1) * d
}

/// What the launches are owed for what the vault holds leaves `u128`, for all of them
/// together or for the launch.
pub open spec fn owes_too_much(st: TreasuryState, launch_id: LaunchId, held: Balance) -> bool {
    let p = harvested(st, held).lnrg_per_share;
    let arrived = held - st.lnrg_accounted;
    ||| st.total_shares > 0 && arrived > 0 && leaves_u128(
        arrived * 1_000_000_000_000_000_000,
        st.total_shares as int,
    )
    ||| leaves_u128(st.treasuries[launch_id].shares * p, 1_000_000_000_000_000_000)
}

proof fn lemma_owes_too_much(st: TreasuryState, launch_id: LaunchId, held: Balance)
    ensures
        owes_too_much(st, launch_id, held) <==> {
            ||| harvest_fails(st, held)
            ||| gross_owed(
                harvested(st, held).lnrg_per_share,
                st.treasuries[launch_id].shares,
            ) > u128::MAX
        },
{
    let p = harvested(st, held).lnrg_per_share;
    let arrived = held - st.lnrg_accounted;
    lemma_floor_bounds(
        st.treasuries[launch_id].shares * p,
        1_000_000_000_000_000_000,
        u128::MAX + 1,
    );
    if st.total_shares > 0 && arrived > 0 {
        lemma_floor_bounds(
            arrived * 1_000_000_000_000_000_000,
            st.total_shares as int,
            u128::MAX + 1,
        );
    }
}

/// Why a stake is refused.
pub proof fn law_stake_refusals(st: TreasuryState, launch_id: LaunchId, sight: StakeSight)
    ensures
        ({
            let t = st.treasuries[launch_id];
            let known = st.treasuries.dom().contains(launch_id);
            let active = known && t.status == TreasuryStatus::Active;
            let enough = active && t.pending >= st.terms.min_stake;
            let solvent = enough && (st.total_shares == 0 || sight.active_before > 0);
            let fits = solvent && !owes_too_much(st, launch_id, sight.lnrg_held);
            let planned = stake_plan_error(st, launch_id, sight.lnrg_held, sight.active_before);
            &&& match planned {
                None => fits,
                Some(Error::NoTreasury) => !known,
                Some(Error::NotActive) => known && !active,
                Some(Error::BelowMinStake) => active && !enough,
                Some(Error::VaultInsolvent) => enough && !solvent,
                Some(Error::ArithmeticOverflow) => solvent && !fits,
                Some(_) => false,
            }
            &&& planned is Some ==> stake_error(st, launch_id, sight) == planned
            &&& planned is None ==> match stake_error(st, launch_id, sight) {
                None => sight.active_after > sight.active_before,
                Some(Error::NothingToDo) => sight.active_after <= sight.active_before,
                Some(Error::ArithmeticOverflow) => sight.active_after > sight.active_before,
                Some(_) => false,
            }
        }),
{
    lemma_owes_too_much(st, launch_id, sight.lnrg_held);
}

/// Why a compounding cannot begin, and why its slice cannot be burned.
pub proof fn law_compound_refusals(
    st: TreasuryState,
    launch_id: LaunchId,
    held: Balance,
    max_impact: u16,
    venue: VenueSight,
)
    ensures
        ({
            let known = st.treasuries.dom().contains(launch_id);
            match begin_error(st, launch_id, held) {
                None => known && !owes_too_much(st, launch_id, held),
                Some(Error::NoTreasury) => !known,
                Some(Error::ArithmeticOverflow) => known && owes_too_much(st, launch_id, held),
                Some(_) => false,
            }
        }),
        match slice_error(max_impact, venue) {
            None => venue.phase is Some,
            Some(Error::NoTreasury) => venue.phase is None,
            Some(Error::ArithmeticOverflow) => {
                let reserve = if venue.phase == Some(Phase::Graduated) {
                    venue.pool_reserve
                } else {
                    venue.curve_reserve
                };
                &&& venue.phase == Some(Phase::Graduated) || venue.phase == Some(Phase::Trading)
                &&& reserve matches Some(r) && leaves_u128(r * max_impact, 20_000)
            },
            Some(_) => false,
        },
{
    lemma_owes_too_much(st, launch_id, held);
    if venue.phase is Some && venue_reserve(venue) is Some {
        let r = venue_reserve(venue)->0;
        let impact = slice_impact(max_impact, venue);
        lemma_floor_bounds(r * impact, 20_000, u128::MAX + 1);
        assert(r * impact <= r * max_impact) by (nonlinear_arith)
            requires
                impact <= max_impact,
        ;
    }
}

/// Why a retirement is refused.
pub proof fn law_retire_refusals(st: TreasuryState, launch_id: LaunchId, sight: RetireSight)
    ensures
        ({
            let t = st.treasuries[launch_id];
            let known = st.treasuries.dom().contains(launch_id);
            let active = known && t.status == TreasuryStatus::Active;
            let listed = active && sight.last_trade is Some;
            let dormant = listed && (t.dormancy_blocks == 0 || sight.now >= sight.last_trade->0
                + t.dormancy_blocks);
            let worthless = t.shares == 0 || st.total_shares == 0;
            let fits = {
                &&& dormant && !owes_too_much(st, launch_id, sight.lnrg_held)
                &&& worthless || !leaves_u128(t.shares * sight.active, st.total_shares as int)
            };
            let full = st.retiring_queue.len() >= st.config.max_unlocking_chunks;
            match retire_error(st, launch_id, sight) {
                None => fits,
                Some(Error::NoTreasury) => !known || (active && !listed),
                Some(Error::NotActive) => known && !active,
                Some(Error::NotDormant) => listed && !dormant,
                Some(Error::ArithmeticOverflow) => dormant && !fits,
                Some(Error::QueueFull) => fits && full && !worthless && t.shares * sight.active
                    >= st.total_shares,
                Some(_) => false,
            }
        }),
{
    let t = st.treasuries[launch_id];
    lemma_owes_too_much(st, launch_id, sight.lnrg_held);
    if st.total_shares > 0 {
        lemma_floor_bounds(t.shares * sight.active, st.total_shares as int, u128::MAX + 1);
        lemma_floor_bounds(t.shares * sight.active, st.total_shares as int, 1);
    }
}

/// Why a finalization is refused.
pub proof fn law_finalize_refusals(st: TreasuryState, launch_id: LaunchId, era: EraIndex)
    ensures
        ({
            let known = st.treasuries.dom().contains(launch_id);
            let status = st.treasuries[launch_id].status;
            let planned = finalize_plan_error(st, launch_id, era);
            &&& match planned {
                None => known && (status matches TreasuryStatus::Retiring { chunk_era } && chunk_era
                    <= era),
                Some(Error::NoTreasury) => !known,
                Some(Error::NotRetiring) => known && !(status is Retiring),
                Some(Error::NotMatured) => known && (status matches TreasuryStatus::Retiring {
                    chunk_era,
                } && chunk_era > era),
                Some(_) => false,
            }
            &&& planned is Some ==> finalize_error(st, launch_id, era) == planned
            &&& planned is None ==> match finalize_error(st, launch_id, era) {
                None => expected_of(matured(st.retiring_queue, era)) > 0,
                Some(Error::NothingToDo) => expected_of(matured(st.retiring_queue, era)) == 0,
                Some(_) => false,
            }
        }),
{
}

} // verus!
