//! Staking pending fees, and spreading the stake over validators.

use super::accumulator::{
    gross_owed, harvest_events, harvest_fails, harvested, mark_of, owed_gross, owed_mark, settle,
    settled,
};
use super::state::{copy_accounts, mul_div, terms_ok, Pallet, Record, Terms, TreasuryState};
use super::types::{Effect, Error, Event, LaunchId, StaleReason, TreasuryStatus, SCALE};
use crate::arith::{lemma_floor, monus, sat_add, sat_sub};
use crate::primitives::{AccountId, Balance};
use vstd::prelude::*;

verus! {

/// What the staking ledger and the vault show around a stake.
#[derive(Clone, Copy, Debug, PartialEq, Eq)]
pub struct StakeSight {
    /// The vault's LNRG before the stake.
    pub lnrg_held: Balance,
    /// The vault's active stake before it bonds.
    pub active_before: Balance,
    /// The vault's active stake once it has bonded.
    pub active_after: Balance,
    /// Whether the vault had bonded before.
    pub bonded: bool,
}

/// Why a stake is refused before anything is bonded, if it is.
pub open spec fn stake_plan_error(
    st: TreasuryState,
    launch_id: LaunchId,
    lnrg_held: Balance,
    active_before: Balance,
) -> Option<Error> {
    let t = st.treasuries[launch_id];
    if !st.treasuries.dom().contains(launch_id) {
        Some(Error::NoTreasury)
    } else if t.status != TreasuryStatus::Active {
        Some(Error::NotActive)
    } else if t.pending < st.terms.min_stake {
        Some(Error::BelowMinStake)
    } else if st.total_shares != 0 && active_before == 0 {
        Some(Error::VaultInsolvent)
    } else if harvest_fails(st, lnrg_held) || gross_owed(
        harvested(st, lnrg_held).lnrg_per_share,
        t.shares,
    ) > u128::MAX {
        Some(Error::ArithmeticOverflow)
    } else {
        None
    }
}

/// What the bond added to the active stake.
pub open spec fn stake_added(sight: StakeSight) -> int {
    monus(sight.active_after as int, sight.active_before as int)
}

/// Shares minted for a stake: as many as it adds at the current share price,
/// rounded down; one to one while there are none.
pub open spec fn stake_shares(st: TreasuryState, sight: StakeSight) -> int {
    if st.total_shares == 0 {
        stake_added(sight)
    } else {
        stake_added(sight) * st.total_shares / sight.active_before as int
    }
}

/// A launch's shares after a stake.
pub open spec fn shares_after(st: TreasuryState, launch_id: LaunchId, sight: StakeSight) -> u128 {
    sat_add(st.treasuries[launch_id].shares, stake_shares(st, sight) as u128)
}

/// Why a stake is refused, if it is.
pub open spec fn stake_error(
    st: TreasuryState,
    launch_id: LaunchId,
    sight: StakeSight,
) -> Option<Error> {
    if stake_plan_error(st, launch_id, sight.lnrg_held, sight.active_before) is Some {
        stake_plan_error(st, launch_id, sight.lnrg_held, sight.active_before)
    } else if stake_added(sight) == 0 {
        Some(Error::NothingToDo)
    } else if stake_shares(st, sight) > u128::MAX || mark_of(
        harvested(st, sight.lnrg_held).lnrg_per_share,
        shares_after(st, launch_id, sight),
    ) > u128::MAX {
        Some(Error::ArithmeticOverflow)
    } else {
        None
    }
}

/// The launch's record after a stake.
pub open spec fn staked_record(
    st: TreasuryState,
    launch_id: LaunchId,
    sight: StakeSight,
) -> Record {
    let per_share = harvested(st, sight.lnrg_held).lnrg_per_share;
    let t = st.treasuries[launch_id];
    Record {
        pending: sat_sub(t.pending, stake_added(sight) as u128),
        shares: shares_after(st, launch_id, sight),
        lnrg_debt: mark_of(per_share, shares_after(st, launch_id, sight)) as u128,
        ..settled(per_share, t)
    }
}

/// The treasuries after a stake.
pub open spec fn stake_next(
    st: TreasuryState,
    launch_id: LaunchId,
    sight: StakeSight,
) -> TreasuryState {
    TreasuryState {
        treasuries: st.treasuries.insert(launch_id, staked_record(st, launch_id, sight)),
        total_shares: sat_add(st.total_shares, stake_shares(st, sight) as u128),
        ..harvested(st, sight.lnrg_held)
    }
}

/// What a stake asks of the world.
pub open spec fn stake_effects(
    st: TreasuryState,
    launch_id: LaunchId,
    sight: StakeSight,
) -> Seq<Effect> {
    let value = st.treasuries[launch_id].pending;
    harvest_events(st, sight.lnrg_held) + seq![
        if sight.bonded {
            Effect::BondExtra { value }
        } else {
            Effect::Bond { value }
        },
        Effect::Emit(
            Event::Staked {
                launch_id,
                amount: stake_added(sight) as u128,
                shares: stake_shares(st, sight) as u128,
            },
        ),
    ]
}

/// Target `i` can be cooperated with. One that nothing is said of cannot.
pub open spec fn can_cooperate(cooperable: Seq<bool>, i: int) -> bool {
    0 <= i < cooperable.len() && cooperable[i]
}

/// The targets that can be cooperated with, in their order.
pub open spec fn survivors(targets: Seq<AccountId>, cooperable: Seq<bool>) -> Seq<AccountId>
    decreases targets.len(),
{
    if targets.len() == 0 {
        Seq::empty()
    } else {
        let rest = survivors(targets.drop_last(), cooperable);
        if can_cooperate(cooperable, targets.len() - 1) {
            rest.push(targets.last())
        } else {
            rest
        }
    }
}

/// `active` in equal parts, with what does not divide added to the first.
pub open spec fn even_split(active: int, validators: Seq<AccountId>) -> Seq<(AccountId, Balance)> {
    let n = validators.len() as int;
    let each = active / n;
    Seq::new(
        validators.len(),
        |i: int|
            (
                validators[i],
                if i == 0 {
                    (each + (active - each * n)) as u128
                } else {
                    each as u128
                },
            ),
    )
}

/// Why the vault cannot cooperate, if it cannot.
pub open spec fn retarget_error(
    st: TreasuryState,
    active: Balance,
    min_bond: Balance,
    cooperable: Seq<bool>,
) -> Option<Error> {
    if active < min_bond {
        Some(Error::NothingToDo)
    } else if survivors(st.targets, cooperable).len() == 0 {
        Some(Error::NoTargets)
    } else {
        None
    }
}

/// The effect tells of cooperation with exactly these stakes.
pub open spec fn is_retargeted(effect: Effect, stakes: Seq<(AccountId, Balance)>) -> bool {
    effect matches Effect::Emit(Event::Retargeted { targets }) && targets@ == stakes
}

/// Another vector with the same stakes.
fn copy_stakes(v: &Vec<(AccountId, Balance)>) -> (r: Vec<(AccountId, Balance)>)
    ensures
        r@ == v@,
{
    let mut out: Vec<(AccountId, Balance)> = Vec::new();
    let mut i: usize = 0;
    while i < v.len()
        invariant
            0 <= i <= v@.len(),
            out@ == v@.take(i as int),
        decreases v@.len() - i,
    {
        out.push(v[i]);
        i = i + 1;
        assert(out@ =~= v@.take(i as int));
    }
    assert(out@ =~= v@);
    out
}

/// The stakes of a list of cooperation targets together.
pub open spec fn total_cooperation(split: Seq<(AccountId, Balance)>) -> int
    decreases split.len(),
{
    if split.len() == 0 {
        0
    } else {
        total_cooperation(split.drop_last()) + split.last().1
    }
}

/// A split hands out exactly the active stake.
pub proof fn law_split_is_whole(active: Balance, validators: Seq<AccountId>)
    requires
        validators.len() > 0,
    ensures
        total_cooperation(even_split(active as int, validators)) == active,
{
    let n = validators.len() as int;
    let each = active as int / n;
    lemma_floor(active as int, n);
    lemma_split_sum(active, validators, validators.len());
    assert(even_split(active as int, validators).take(n) =~= even_split(
        active as int,
        validators,
    ));
}

proof fn lemma_split_sum(active: Balance, validators: Seq<AccountId>, k: nat)
    requires
        0 < validators.len(),
        0 < k <= validators.len(),
    ensures
        ({
            let n = validators.len() as int;
            let each = active as int / n;
            total_cooperation(even_split(active as int, validators).take(k as int)) == each * k + (
            active - each * n)
        }),
    decreases k,
{
    let n = validators.len() as int;
    let each = active as int / n;
    lemma_floor(active as int, n);
    let split = even_split(active as int, validators);
    let head = split.take(k as int);
    assert(each * n <= active) by {
        assert(each * n == n * each) by (nonlinear_arith);
    }
    assert(0 <= each * (n - 1)) by (nonlinear_arith)
        requires
            each >= 0,
            n >= 1,
    ;
    assert(each * (n - 1) == each * n - each) by (nonlinear_arith);
    if k == 1 {
        assert(head.drop_last() =~= Seq::empty());
        assert(total_cooperation(head.drop_last()) == 0);
        assert(head.last() == split[0]);
    } else {
        lemma_split_sum(active, validators, (k - 1) as nat);
        assert(head.drop_last() =~= split.take(k - 1));
        assert(head.last() == split[k - 1]);
        assert(each * (k - 1) + each == each * k) by (nonlinear_arith);
    }
}

impl Pallet {
    /// The accumulator a harvest would leave.
    pub(crate) fn peek_harvest(&self, lnrg_held: Balance) -> (r: Result<u128, Error>)
        ensures
            match r {
                Ok(p) => !harvest_fails(self@, lnrg_held) && p == harvested(
                    self@,
                    lnrg_held,
                ).lnrg_per_share,
                Err(e) => harvest_fails(self@, lnrg_held) && e == Error::ArithmeticOverflow,
            },
    {
        let delta: u128 = lnrg_held.saturating_sub(self.lnrg_accounted);
        if delta == 0 || self.total_shares == 0 {
            return Ok(self.lnrg_per_share);
        }
        match mul_div(delta, SCALE, self.total_shares) {
            Ok(inc) => Ok(self.lnrg_per_share.saturating_add(inc)),
            Err(e) => Err(e),
        }
    }

    /// What a stake of the launch would bond, before anything moves.
    pub fn plan_stake(&self, launch_id: LaunchId, lnrg_held: Balance, active_before: Balance) -> (r:
        Result<Balance, Error>)
        ensures
            match r {
                Ok(value) => {
                    &&& stake_plan_error(self@, launch_id, lnrg_held, active_before) is None
                    &&& value == self@.treasuries[launch_id].pending
                },
                Err(e) => stake_plan_error(self@, launch_id, lnrg_held, active_before) == Some(e),
            },
    {
        let t: Record = match self.treasuries.get(&launch_id) {
            Some(t) => t,
            None => return Err(Error::NoTreasury),
        };
        if t.status != TreasuryStatus::Active {
            return Err(Error::NotActive);
        }
        if t.pending < self.terms.min_stake {
            return Err(Error::BelowMinStake);
        }
        if self.total_shares != 0 && active_before == 0 {
            return Err(Error::VaultInsolvent);
        }
        let per_share: u128 = match self.peek_harvest(lnrg_held) {
            Ok(p) => p,
            Err(e) => return Err(e),
        };
        match owed_gross(per_share, t.shares) {
            Ok(_) => Ok(t.pending),
            Err(e) => Err(e),
        }
    }

    /// Bond a launch's pending fees into the pooled stake and mint its shares.
    /// The bond is what [`Pallet::plan_stake`] gives.
    pub fn do_stake(&mut self, launch_id: LaunchId, sight: &StakeSight) -> (r: Result<
        Vec<Effect>,
        Error,
    >)
        ensures
            match r {
                Ok(effects) => {
                    &&& stake_error(old(self)@, launch_id, *sight) is None
                    &&& effects@ == stake_effects(old(self)@, launch_id, *sight)
                    &&& final(self)@ == stake_next(old(self)@, launch_id, *sight)
                },
                Err(e) => {
                    &&& stake_error(old(self)@, launch_id, *sight) == Some(e)
                    &&& final(self)@ == old(self)@
                },
            },
    {
        let ghost st = self@;
        let value: u128 = match self.plan_stake(launch_id, sight.lnrg_held, sight.active_before) {
            Ok(v) => v,
            Err(e) => return Err(e),
        };
        let t: Record = match self.treasuries.get(&launch_id) {
            Some(t) => t,
            None => return Err(Error::NoTreasury),
        };
        let per_share: u128 = match self.peek_harvest(sight.lnrg_held) {
            Ok(p) => p,
            Err(e) => return Err(e),
        };
        let mut record: Record = match settle(per_share, &t) {
            Ok(s) => s,
            Err(e) => return Err(e),
        };
        let added: u128 = sight.active_after.saturating_sub(sight.active_before);
        if added == 0 {
            return Err(Error::NothingToDo);
        }
        let shares: u128 = if self.total_shares == 0 {
            added
        } else {
            match mul_div(added, self.total_shares, sight.active_before) {
                Ok(x) => x,
                Err(e) => return Err(e),
            }
        };
        record.pending = value.saturating_sub(added);
        record.shares = t.shares.saturating_add(shares);
        // The new shares start with nothing of what is attributed already.
        record.lnrg_debt = match owed_mark(per_share, record.shares) {
            Ok(m) => m,
            Err(e) => return Err(e),
        };
        let total: u128 = self.total_shares.saturating_add(shares);
        let mut effects: Vec<Effect> = match self.do_harvest(sight.lnrg_held) {
            Ok((_, effects)) => effects,
            Err(e) => return Err(e),
        };
        self.treasuries.insert(launch_id, record);
        self.total_shares = total;
        effects.push(
            if sight.bonded {
                Effect::BondExtra { value }
            } else {
                Effect::Bond { value }
            },
        );
        effects.push(Effect::Emit(Event::Staked { launch_id, amount: added, shares }));
        assert(effects@ =~= stake_effects(st, launch_id, *sight));
        assert(self@ =~= stake_next(st, launch_id, *sight));
        Ok(effects)
    }

    /// The targets that can be cooperated with.
    fn surviving_targets(&self, cooperable: &Vec<bool>) -> (r: Vec<AccountId>)
        ensures
            r@ == survivors(self@.targets, cooperable@),
    {
        let mut out: Vec<AccountId> = Vec::new();
        let mut i: usize = 0;
        assert(self.targets@.take(0) =~= Seq::empty());
        while i < self.targets.len()
            invariant
                0 <= i <= self.targets@.len(),
                out@ == survivors(self.targets@.take(i as int), cooperable@),
            decreases self.targets@.len() - i,
        {
            if i < cooperable.len() && cooperable[i] {
                out.push(self.targets[i]);
            }
            assert(self.targets@.take(i + 1).drop_last() =~= self.targets@.take(i as int));
            i = i + 1;
        }
        assert(self.targets@.take(i as int) =~= self.targets@);
        out
    }

    /// The stakes the vault would cooperate with: the active stake spread over
    /// the targets that can be cooperated with.
    pub fn plan_retarget(&self, active: Balance, min_bond: Balance, cooperable: &Vec<bool>) -> (r:
        Result<Vec<(AccountId, Balance)>, Error>)
        ensures
            match r {
                Ok(targets) => {
                    &&& retarget_error(self@, active, min_bond, cooperable@) is None
                    &&& targets@ == even_split(
                        active as int,
                        survivors(self@.targets, cooperable@),
                    )
                },
                Err(e) => retarget_error(self@, active, min_bond, cooperable@) == Some(e),
            },
    {
        if active < min_bond {
            return Err(Error::NothingToDo);
        }
        let chosen: Vec<AccountId> = self.surviving_targets(cooperable);
        if chosen.len() == 0 {
            return Err(Error::NoTargets);
        }
        let n: u128 = chosen.len() as u128;
        let each: u128 = active / n;
        proof {
            lemma_floor(active as int, n as int);
            assert(each * n == n * each) by (nonlinear_arith);
        }
        let first_extra: u128 = active - each * n;
        proof {
            assert(each * n >= each) by (nonlinear_arith)
                requires
                    n >= 1,
                    each >= 0,
            ;
        }
        let ghost split = even_split(active as int, chosen@);
        let mut targets: Vec<(AccountId, Balance)> = Vec::new();
        let mut i: usize = 0;
        while i < chosen.len()
            invariant
                0 <= i <= chosen@.len(),
                chosen@.len() > 0,
                n == chosen@.len(),
                each == active as int / n as int,
                first_extra == active - each * n,
                each + first_extra <= u128::MAX,
                split == even_split(active as int, chosen@),
                targets@ == split.take(i as int),
            decreases chosen@.len() - i,
        {
            let part: u128 = if i == 0 {
                each + first_extra
            } else {
                each
            };
            targets.push((chosen[i], part));
            assert(targets@ =~= split.take(i + 1));
            i = i + 1;
        }
        assert(split.take(i as int) =~= split);
        Ok(targets)
    }

    /// Cooperate with the current targets. The stakes returned are to be
    /// submitted to the staking ledger.
    pub fn do_retarget(&mut self, active: Balance, min_bond: Balance, cooperable: &Vec<bool>) -> (r:
        Result<(Vec<(AccountId, Balance)>, Effect), Error>)
        ensures
            match r {
                Ok((targets, event)) => {
                    &&& retarget_error(old(self)@, active, min_bond, cooperable@) is None
                    &&& targets@ == even_split(
                        active as int,
                        survivors(old(self)@.targets, cooperable@),
                    )
                    &&& is_retargeted(event, targets@)
                    &&& final(self)@ == (TreasuryState { cooperation_stale: false, ..old(self)@ })
                },
                Err(e) => {
                    &&& retarget_error(old(self)@, active, min_bond, cooperable@) == Some(e)
                    &&& final(self)@ == old(self)@
                },
            },
    {
        match self.plan_retarget(active, min_bond, cooperable) {
            Ok(targets) => {
                self.cooperation_stale = false;
                let event = Effect::Emit(Event::Retargeted { targets: copy_stakes(&targets) });
                Ok((targets, event))
            },
            Err(e) => Err(e),
        }
    }

    /// What follows every bond change: cooperation with the current targets,
    /// where `submitted` is what the staking ledger answered to the stakes that
    /// [`Pallet::plan_retarget`] gives. A failure is recorded and not returned;
    /// the bond stands.
    pub fn retarget_after_bond_change(
        &mut self,
        active: Balance,
        min_bond: Balance,
        cooperable: &Vec<bool>,
        submitted: Result<(), sp_runtime::DispatchError>,
    ) -> (r: Effect)
        ensures
            ({
                let refused = retarget_error(old(self)@, active, min_bond, cooperable@);
                &&& match (refused, submitted) {
                    (None, Ok(_)) => is_retargeted(
                        r,
                        even_split(
                            active as int,
                            survivors(old(self)@.targets, cooperable@),
                        ),
                    ),
                    (None, Err(e)) => r == Effect::Emit(
                        Event::CooperationStale { reason: StaleReason::Ledger(e) },
                    ),
                    (Some(e), _) => r == Effect::Emit(
                        Event::CooperationStale { reason: StaleReason::Treasury(e) },
                    ),
                }
                &&& final(self)@ == (TreasuryState {
                    cooperation_stale: refused is Some || submitted is Err,
                    ..old(self)@
                })
            }),
    {
        let reason: StaleReason = match self.plan_retarget(active, min_bond, cooperable) {
            Ok(targets) => match submitted {
                Ok(_) => {
                    self.cooperation_stale = false;
                    return Effect::Emit(Event::Retargeted { targets });
                },
                Err(e) => StaleReason::Ledger(e),
            },
            Err(e) => StaleReason::Treasury(e),
        };
        self.cooperation_stale = true;
        Effect::Emit(Event::CooperationStale { reason })
    }

    /// Replace the operational terms.
    pub fn set_terms(&mut self, terms: Terms) -> (r: Result<Vec<Effect>, Error>)
        ensures
            match r {
                Ok(effects) => {
                    &&& terms_ok(terms)
                    &&& effects@ == seq![Effect::Emit(Event::TermsSet)]
                    &&& final(self)@ == (TreasuryState { terms, ..old(self)@ })
                },
                Err(e) => {
                    &&& !terms_ok(terms)
                    &&& e == Error::TermsOutOfBounds
                    &&& final(self)@ == old(self)@
                },
            },
    {
        if !Pallet::terms_in_bounds(&terms) {
            return Err(Error::TermsOutOfBounds);
        }
        self.terms = terms;
        let mut effects: Vec<Effect> = Vec::new();
        effects.push(Effect::Emit(Event::TermsSet));
        Ok(effects)
    }

    /// Replace the validators the vault cooperates with. A bonded vault then
    /// cooperates anew, as after any bond change.
    pub fn set_targets(&mut self, targets: Vec<AccountId>) -> (r: Result<Vec<Effect>, Error>)
        ensures
            match r {
                Ok(effects) => {
                    &&& targets@.len() <= old(self)@.config.max_targets
                    &&& effects@.len() == 1
                    &&& effects@[0] matches Effect::Emit(
                        Event::TargetsSet { targets: set },
                    ) && set@ == targets@
                    &&& final(self)@ == (TreasuryState { targets: targets@, ..old(self)@ })
                },
                Err(e) => {
                    &&& targets@.len() > old(self)@.config.max_targets
                    &&& e == Error::TermsOutOfBounds
                    &&& final(self)@ == old(self)@
                },
            },
    {
        if targets.len() as u64 > self.config.max_targets as u64 {
            return Err(Error::TermsOutOfBounds);
        }
        let mut effects: Vec<Effect> = Vec::new();
        effects.push(Effect::Emit(Event::TargetsSet { targets: copy_accounts(&targets) }));
        self.targets = targets;
        Ok(effects)
    }
}

} // verus!
