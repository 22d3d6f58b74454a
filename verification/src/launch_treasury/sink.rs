//! Where fee slices arrive.

use super::state::{vault_of, Pallet, Record, TreasuryState};
use super::types::{Effect, Event, LaunchId, TreasuryStatus};
use crate::arith::{sat_add, sat_sub};
use crate::primitives::{AccountId, Balance, BlockNumber};
use vstd::prelude::*;

verus! {

/// The launch takes fees: it has no treasury yet, or an active one.
pub open spec fn takes_fees(st: TreasuryState, launch_id: LaunchId) -> bool {
    st.treasuries.dom().contains(launch_id) ==> st.treasuries[launch_id].status
        == TreasuryStatus::Active
}

/// What of a fee is noted: all of it, but for the vault's minimum balance out of
/// the very first one.
pub open spec fn noted_amount(
    st: TreasuryState,
    amount: Balance,
    existential_deposit: Balance,
) -> Balance {
    if st.vault_funded {
        amount
    } else {
        sat_sub(amount, existential_deposit)
    }
}

/// A treasury that has just been opened.
pub open spec fn new_record(st: TreasuryState, now: BlockNumber) -> Record {
    Record {
        pending: 0,
        shares: 0,
        lnrg_debt: 0,
        lnrg_accrued: 0,
        pending_burn: 0,
        last_burn_block: now,
        dormancy_blocks: st.terms.dormancy_blocks,
        status: TreasuryStatus::Active,
    }
}

/// The launch's record after a fee.
pub open spec fn fed_record(
    st: TreasuryState,
    launch_id: LaunchId,
    amount: Balance,
    now: BlockNumber,
) -> Record {
    let t = if st.treasuries.dom().contains(launch_id) {
        st.treasuries[launch_id]
    } else {
        new_record(st, now)
    };
    if t.status == TreasuryStatus::Active {
        Record { pending: sat_add(t.pending, amount), ..t }
    } else {
        t
    }
}

/// The treasuries after a fee of a launch.
pub open spec fn fee_next(
    st: TreasuryState,
    launch_id: LaunchId,
    amount: Balance,
    now: BlockNumber,
    existential_deposit: Balance,
) -> TreasuryState {
    TreasuryState {
        treasuries: st.treasuries.insert(
            launch_id,
            fed_record(st, launch_id, noted_amount(st, amount, existential_deposit), now),
        ),
        vault_funded: true,
        ..st
    }
}

impl Pallet {
    /// The account that takes the treasury slice of `launch`'s asset, where
    /// there is a launch and it still takes fees.
    pub fn account_for(&self, launch: Option<LaunchId>) -> (r: Option<AccountId>)
        ensures
            r == (match launch {
                Some(id) => if takes_fees(self@, id) {
                    Some(vault_of(self@.config))
                } else {
                    None
                },
                None => None,
            }),
    {
        match launch {
            Some(id) => match self.treasuries.get(&id) {
                None => Some(self.vault()),
                Some(t) => if t.status == TreasuryStatus::Active {
                    Some(self.vault())
                } else {
                    None
                },
            },
            None => None,
        }
    }

    /// Note a fee slice that has reached the vault for `launch`.
    pub fn note_fee(
        &mut self,
        launch: Option<LaunchId>,
        amount: Balance,
        now: BlockNumber,
        existential_deposit: Balance,
    ) -> (r: Vec<Effect>)
        ensures
            match launch {
                Some(launch_id) => {
                    &&& r@ == seq![
                        Effect::Emit(
                            Event::FeeNoted {
                                launch_id,
                                amount: noted_amount(old(self)@, amount, existential_deposit),
                            },
                        ),
                    ]
                    &&& final(self)@ == fee_next(
                        old(self)@,
                        launch_id,
                        amount,
                        now,
                        existential_deposit,
                    )
                },
                None => r@ == Seq::<Effect>::empty() && final(self)@ == old(self)@,
            },
    {
        let ghost st = self@;
        let mut effects: Vec<Effect> = Vec::new();
        let launch_id: u64 = match launch {
            Some(id) => id,
            None => return effects,
        };
        // The first fee leaves the vault's own minimum balance behind, unless it
        // has been put there before.
        let noted: u128 = if self.vault_funded {
            amount
        } else {
            self.vault_funded = true;
            amount.saturating_sub(existential_deposit)
        };
        let mut t: Record = match self.treasuries.get(&launch_id) {
            Some(t) => t,
            None => Record {
                pending: 0,
                shares: 0,
                lnrg_debt: 0,
                lnrg_accrued: 0,
                pending_burn: 0,
                last_burn_block: now,
                dormancy_blocks: self.terms.dormancy_blocks,
                status: TreasuryStatus::Active,
            },
        };
        if t.status == TreasuryStatus::Active {
            t.pending = t.pending.saturating_add(noted);
        }
        self.treasuries.insert(launch_id, t);
        effects.push(Effect::Emit(Event::FeeNoted { launch_id, amount: noted }));
        assert(self@ =~= fee_next(st, launch_id, amount, now, existential_deposit));
        effects
    }
}

} // verus!
