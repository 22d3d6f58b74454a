//! The reward accumulator: LNRG that staking pays into the vault, attributed to
//! shares.

use super::state::{mul_div, Pallet, Record, TreasuryState};
use super::types::{Effect, Error, Event, SCALE};
use crate::arith::{ceil_div, lemma_product_fits, max_int, monus, sat_add};
use crate::primitives::Balance;
use crate::wide::U256;
use vstd::prelude::*;

verus! {

/// LNRG that has arrived since the last harvest and has shares to go to.
pub open spec fn unharvested(st: TreasuryState, held: Balance) -> int {
    if st.total_shares == 0 {
        0
    } else {
        monus(held as int, st.lnrg_accounted as int)
    }
}

/// What a harvest adds to the accumulator.
pub open spec fn harvest_inc(st: TreasuryState, held: Balance) -> int {
    unharvested(st, held) * SCALE / st.total_shares as int
}

/// A harvest whose increment leaves `u128` is refused.
pub open spec fn harvest_fails(st: TreasuryState, held: Balance) -> bool {
    unharvested(st, held) > 0 && harvest_inc(st, held) > u128::MAX
}

/// The treasuries after a harvest.
pub open spec fn harvested(st: TreasuryState, held: Balance) -> TreasuryState {
    if unharvested(st, held) == 0 {
        st
    } else {
        TreasuryState {
            lnrg_per_share: sat_add(st.lnrg_per_share, harvest_inc(st, held) as u128),
            lnrg_accounted: held,
            ..st
        }
    }
}

/// The event of a harvest, if it attributes anything.
pub open spec fn harvest_events(st: TreasuryState, held: Balance) -> Seq<Effect> {
    if unharvested(st, held) == 0 {
        Seq::empty()
    } else {
        seq![Effect::Emit(Event::Harvested { lnrg: unharvested(st, held) as u128 })]
    }
}

/// `shares * LNRG per share / SCALE`, rounded down.
pub open spec fn gross_owed(per_share: u128, shares: Balance) -> int {
    shares * per_share / SCALE as int
}

/// The mark of new shares: `shares * LNRG per share / SCALE`, rounded up, so that
/// they claim nothing of what was attributed before them.
pub open spec fn mark_of(per_share: u128, shares: Balance) -> int {
    ceil_div(shares * per_share, SCALE as int)
}

/// A record whose claim has been moved into `lnrg_accrued`. A mark that was rounded
/// up stays until the claim has grown past it.
pub open spec fn settled(per_share: u128, t: Record) -> Record {
    let gross = gross_owed(per_share, t.shares);
    Record {
        lnrg_accrued: sat_add(t.lnrg_accrued, monus(gross, t.lnrg_debt as int) as u128),
        lnrg_debt: max_int(gross, t.lnrg_debt as int) as u128,
        ..t
    }
}

/// What a launch could realise right now.
pub open spec fn claim_of(per_share: u128, t: Record) -> Balance {
    settled(per_share, t).lnrg_accrued
}

/// `shares * LNRG per share / SCALE`.
pub(crate) fn owed_gross(per_share: u128, shares: Balance) -> (r: Result<u128, Error>)
    ensures
        match r {
            Ok(g) => g == gross_owed(per_share, shares),
            Err(e) => gross_owed(per_share, shares) > u128::MAX && e == Error::ArithmeticOverflow,
        },
{
    mul_div(shares, per_share, SCALE)
}

/// `shares * LNRG per share / SCALE`, rounded up.
pub(crate) fn owed_mark(per_share: u128, shares: Balance) -> (r: Result<u128, Error>)
    ensures
        match r {
            Ok(m) => m == mark_of(per_share, shares),
            Err(e) => mark_of(per_share, shares) > u128::MAX && e == Error::ArithmeticOverflow,
        },
{
    proof {
        lemma_product_fits(shares as int, per_share as int);
    }
    let product = U256::from_u128(shares).times(U256::from_u128(per_share));
    match product.ceil_div(U256::from_u128(SCALE)).to_u128() {
        Some(m) => Ok(m),
        None => Err(Error::ArithmeticOverflow),
    }
}

/// Move a record's claim into `lnrg_accrued` and mark the point.
pub(crate) fn settle(per_share: u128, t: &Record) -> (r: Result<Record, Error>)
    ensures
        match r {
            Ok(s) => gross_owed(per_share, t.shares) <= u128::MAX && s == settled(per_share, *t),
            Err(e) => gross_owed(per_share, t.shares) > u128::MAX && e
                == Error::ArithmeticOverflow,
        },
{
    let gross: u128 = match owed_gross(per_share, t.shares) {
        Ok(g) => g,
        Err(e) => return Err(e),
    };
    let owed: u128 = gross.saturating_sub(t.lnrg_debt);
    let mut out: Record = *t;
    out.lnrg_accrued = t.lnrg_accrued.saturating_add(owed);
    if gross > t.lnrg_debt {
        out.lnrg_debt = gross;
    }
    Ok(out)
}

impl Pallet {
    /// Attribute the LNRG that has arrived since the last harvest to shares,
    /// given what the vault holds. Returns what was attributed; without shares it
    /// waits.
    pub fn do_harvest(&mut self, lnrg_held: Balance) -> (r: Result<(Balance, Vec<Effect>), Error>)
        ensures
            match r {
                Ok((delta, effects)) => {
                    &&& !harvest_fails(old(self)@, lnrg_held)
                    &&& delta == unharvested(old(self)@, lnrg_held)
                    &&& effects@ == harvest_events(old(self)@, lnrg_held)
                    &&& final(self)@ == harvested(old(self)@, lnrg_held)
                },
                Err(e) => {
                    &&& harvest_fails(old(self)@, lnrg_held)
                    &&& e == Error::ArithmeticOverflow
                    &&& final(self)@ == old(self)@
                },
            },
    {
        let ghost st = self@;
        let mut effects: Vec<Effect> = Vec::new();
        let delta: u128 = lnrg_held.saturating_sub(self.lnrg_accounted);
        if delta == 0 || self.total_shares == 0 {
            assert(effects@ =~= harvest_events(st, lnrg_held));
            return Ok((0, effects));
        }
        let inc: u128 = match mul_div(delta, SCALE, self.total_shares) {
            Ok(x) => x,
            Err(e) => return Err(e),
        };
        self.lnrg_per_share = self.lnrg_per_share.saturating_add(inc);
        self.lnrg_accounted = lnrg_held;
        effects.push(Effect::Emit(Event::Harvested { lnrg: delta }));
        assert(effects@ =~= harvest_events(st, lnrg_held));
        assert(self@ =~= harvested(st, lnrg_held));
        Ok((delta, effects))
    }

    /// A harvest on its own, which must attribute something.
    pub fn harvest(&mut self, lnrg_held: Balance) -> (r: Result<Vec<Effect>, Error>)
        ensures
            match r {
                Ok(effects) => {
                    &&& unharvested(old(self)@, lnrg_held) > 0
                    &&& !harvest_fails(old(self)@, lnrg_held)
                    &&& effects@ == harvest_events(old(self)@, lnrg_held)
                    &&& final(self)@ == harvested(old(self)@, lnrg_held)
                },
                Err(e) => {
                    &&& e == (if harvest_fails(old(self)@, lnrg_held) {
                        Error::ArithmeticOverflow
                    } else {
                        Error::NothingToDo
                    })
                    &&& harvest_fails(old(self)@, lnrg_held) || unharvested(
                        old(self)@,
                        lnrg_held,
                    ) == 0
                    &&& final(self)@ == old(self)@
                },
            },
    {
        match self.do_harvest(lnrg_held) {
            Ok((delta, effects)) => if delta > 0 {
                Ok(effects)
            } else {
                Err(Error::NothingToDo)
            },
            Err(e) => Err(e),
        }
    }

    /// LNRG the launch could realise right now, not counting what has arrived and
    /// has not been harvested.
    pub fn claimable_lnrg(&self, launch_id: u64) -> (r: Option<Balance>)
        ensures
            r == (if self@.treasuries.dom().contains(launch_id) && gross_owed(
                self@.lnrg_per_share,
                self@.treasuries[launch_id].shares,
            ) <= u128::MAX {
                Some(claim_of(self@.lnrg_per_share, self@.treasuries[launch_id]))
            } else {
                None
            }),
    {
        match self.treasuries.get(&launch_id) {
            Some(t) => match settle(self.lnrg_per_share, &t) {
                Ok(s) => Some(s.lnrg_accrued),
                Err(_) => None,
            },
            None => None,
        }
    }

    /// The launch's claim on a pooled stake of `active`, at the current share
    /// price.
    pub fn staked_value(&self, launch_id: u64, active: Balance) -> (r: Option<Balance>)
        ensures
            ({
                let t = self@.treasuries[launch_id];
                match r {
                    Some(v) => self@.treasuries.dom().contains(launch_id) && v == stake_value(
                        self@,
                        t,
                        active,
                    ),
                    None => !self@.treasuries.dom().contains(launch_id) || stake_value(
                        self@,
                        t,
                        active,
                    ) > u128::MAX,
                }
            }),
    {
        let t: Record = match self.treasuries.get(&launch_id) {
            Some(t) => t,
            None => return None,
        };
        if t.shares == 0 || self.total_shares == 0 {
            return Some(0);
        }
        match mul_div(t.shares, active, self.total_shares) {
            Ok(v) => Some(v),
            Err(_) => None,
        }
    }
}

/// A record's part of a pooled stake of `active`, rounded down.
pub open spec fn stake_value(st: TreasuryState, t: Record, active: Balance) -> int {
    if t.shares == 0 || st.total_shares == 0 {
        0
    } else {
        t.shares * active / st.total_shares as int
    }
}

} // verus!
