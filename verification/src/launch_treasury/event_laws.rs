//! What an operation asks of the staking ledger and tells the outside agrees with what
//! it records.

use super::accumulator::harvest_events;
use super::retire::{
    credit_events, credit_of, expected_of, retire_effects, retire_error, retire_next, RetireSight,
};
use super::staking::{stake_effects, stake_error, StakeSight};
use super::state::{Retirement, TreasuryState};
use super::types::{Effect, Event, LaunchId};
use crate::arith::{is_largest, lemma_floor, lemma_floor_is};
use crate::primitives::Balance;
use vstd::prelude::*;

verus! {

/// A harvest tells of what has arrived, where something has and there are shares.
pub open spec fn tells_harvest(st: TreasuryState, held: Balance) -> Seq<Effect> {
    if st.total_shares > 0 && held > st.lnrg_accounted {
        seq![Effect::Emit(Event::Harvested { lnrg: (held - st.lnrg_accounted) as u128 })]
    } else {
        Seq::empty()
    }
}

/// A stake harvests, bonds all that was pending, on top where the vault has a bond
/// already, and tells of what the bond grew by and of the shares that were minted for it.
pub proof fn law_stake_is_told(
    st: TreasuryState,
    launch_id: LaunchId,
    sight: StakeSight,
    shares: int,
)
    requires
        stake_error(st, launch_id, sight) is None,
        ({
            let added = sight.active_after - sight.active_before;
            if st.total_shares == 0 {
                shares == added
            } else {
                is_largest(shares, added * st.total_shares, sight.active_before as int)
            }
        }),
    ensures
        harvest_events(st, sight.lnrg_held) == tells_harvest(st, sight.lnrg_held),
        ({
            let value = st.treasuries[launch_id].pending;
            stake_effects(st, launch_id, sight) == tells_harvest(st, sight.lnrg_held) + seq![
                if sight.bonded {
                    Effect::BondExtra { value }
                } else {
                    Effect::Bond { value }
                },
                Effect::Emit(
                    Event::Staked {
                        launch_id,
                        amount: (sight.active_after - sight.active_before) as u128,
                        shares: shares as u128,
                    },
                ),
            ]
        }),
{
    let added = sight.active_after - sight.active_before;
    if st.total_shares != 0 {
        lemma_floor_is(added * st.total_shares, sight.active_before as int, shares);
    }
}

/// A retirement harvests, and tells of the entry that it put on the queue, which it
/// unbonds; where it put none there, of the launch's retirement with nothing.
pub proof fn law_retirement_is_told(st: TreasuryState, launch_id: LaunchId, sight: RetireSight)
    requires
        retire_error(st, launch_id, sight) is None,
    ensures
        ({
            let next = retire_next(st, launch_id, sight);
            let effects = retire_effects(st, launch_id, sight);
            let told = tells_harvest(st, sight.lnrg_held);
            let n = effects.len() as int;
            if next.retiring_queue.len() == st.retiring_queue.len() {
                effects == told.push(Effect::Emit(Event::Retired { launch_id, amount: 0 }))
            } else {
                let (id, chunk_era, amount) = next.retiring_queue.last();
                &&& id == launch_id && amount > 0
                &&& n == told.len() + 2 || (n == told.len() + 3 && effects[n - 3]
                    == Effect::Chill)
                &&& effects.take(told.len() as int) == told
                &&& effects[n - 2] == Effect::Unbond { value: amount }
                &&& effects[n - 1] == Effect::Emit(
                    Event::Retiring { launch_id, amount, chunk_era },
                )
            }
        }),
{
    let effects = retire_effects(st, launch_id, sight);
    let told = tells_harvest(st, sight.lnrg_held);
    assert(harvest_events(st, sight.lnrg_held) == told);
    let next = retire_next(st, launch_id, sight);
    assert(0 <= st.treasuries[launch_id].shares * sight.active) by (nonlinear_arith);
    if st.total_shares > 0 {
        lemma_floor(
            st.treasuries[launch_id].shares * sight.active,
            st.total_shares as int,
        );
    }
    if next.retiring_queue.len() == st.retiring_queue.len() {
        assert(effects =~= told.push(Effect::Emit(Event::Retired { launch_id, amount: 0 })));
    } else {
        assert(effects.take(told.len() as int) =~= told);
    }
}

/// A finalization tells of every matured entry, in their order, with its credit.
pub proof fn law_credits_are_told(entries: Seq<Retirement>, withdrawn: Balance, i: int)
    requires
        0 <= i < entries.len(),
    ensures
        ({
            let told = credit_events(entries, withdrawn, expected_of(entries));
            &&& told.len() == entries.len()
            &&& told[i] == Effect::Emit(
                Event::Retired {
                    launch_id: entries[i].0,
                    amount: credit_of(entries, i, withdrawn, expected_of(entries)),
                },
            )
        }),
{
}

} // verus!
