//! Retiring a dormant launch, and crediting what its stake brings back.

use super::accumulator::{
    gross_owed, harvest_events, harvest_fails, harvested, settle, settled, stake_value,
};
use super::state::{mul_div, Pallet, Record, Retirement, TreasuryState};
use super::types::{Effect, EraIndex, Error, Event, LaunchId, TreasuryStatus};
use crate::arith::{lemma_floor, lemma_floor_bounds, min_int, monus, sat_add, sat_sub};
use crate::primitives::{Balance, BlockNumber};
use vstd::prelude::*;

verus! {

/// What the venue, the staking ledger and the vault show around a retirement.
#[derive(Clone, Copy, Debug, PartialEq, Eq)]
pub struct RetireSight {
    /// Current block.
    pub now: BlockNumber,
    /// The block the launch's venue last traded, if it has a venue.
    pub last_trade: Option<BlockNumber>,
    /// The vault's LNRG.
    pub lnrg_held: Balance,
    /// The vault's active stake.
    pub active: Balance,
    /// The least stake that can cooperate.
    pub min_bond: Balance,
    /// Whether the vault cooperates.
    pub cooperating: bool,
    /// Current era.
    pub era: EraIndex,
    /// Eras between unbonding and withdrawal.
    pub bonding_duration: EraIndex,
}

/// What the launch's shares redeem for.
pub open spec fn redeemed(st: TreasuryState, launch_id: LaunchId, active: Balance) -> int {
    stake_value(st, st.treasuries[launch_id], active)
}

/// The era an unbonding of now matures at.
pub open spec fn maturity(sight: RetireSight) -> EraIndex {
    min_int(sight.era + sight.bonding_duration, u32::MAX as int) as u32
}

/// Why a retirement is refused, if it is.
pub open spec fn retire_error(
    st: TreasuryState,
    launch_id: LaunchId,
    sight: RetireSight,
) -> Option<Error> {
    let t = st.treasuries[launch_id];
    if !st.treasuries.dom().contains(launch_id) {
        Some(Error::NoTreasury)
    } else if t.status != TreasuryStatus::Active {
        Some(Error::NotActive)
    } else if sight.last_trade is None {
        Some(Error::NoTreasury)
    } else if monus(sight.now as int, sight.last_trade->0 as int) < t.dormancy_blocks {
        Some(Error::NotDormant)
    } else if harvest_fails(st, sight.lnrg_held) || gross_owed(
        harvested(st, sight.lnrg_held).lnrg_per_share,
        t.shares,
    ) > u128::MAX || redeemed(st, launch_id, sight.active) > u128::MAX {
        Some(Error::ArithmeticOverflow)
    } else if redeemed(st, launch_id, sight.active) > 0 && st.retiring_queue.len()
        >= st.config.max_unlocking_chunks {
        Some(Error::QueueFull)
    } else {
        None
    }
}

/// The launch's record after a retirement: no shares, fees waiting to be burned
/// with the rest, and the stake on its way back where there was any.
pub open spec fn retired_record(
    st: TreasuryState,
    launch_id: LaunchId,
    sight: RetireSight,
) -> Record {
    let t = settled(
        harvested(st, sight.lnrg_held).lnrg_per_share,
        st.treasuries[launch_id],
    );
    Record {
        pending: 0,
        pending_burn: sat_add(t.pending_burn, t.pending),
        shares: 0,
        lnrg_debt: 0,
        status: if redeemed(st, launch_id, sight.active) == 0 {
            TreasuryStatus::Retired
        } else {
            TreasuryStatus::Retiring { chunk_era: maturity(sight) }
        },
        ..t
    }
}

/// The treasuries after a retirement.
pub open spec fn retire_next(
    st: TreasuryState,
    launch_id: LaunchId,
    sight: RetireSight,
) -> TreasuryState {
    let v = redeemed(st, launch_id, sight.active);
    TreasuryState {
        treasuries: st.treasuries.insert(launch_id, retired_record(st, launch_id, sight)),
        total_shares: sat_sub(st.total_shares, st.treasuries[launch_id].shares),
        retiring_queue: if v == 0 {
            st.retiring_queue
        } else {
            st.retiring_queue.push((launch_id, maturity(sight), v as u128))
        },
        ..harvested(st, sight.lnrg_held)
    }
}

/// What a retirement asks of the world. Cooperation stops first where what stays
/// could not keep it up.
pub open spec fn retire_effects(
    st: TreasuryState,
    launch_id: LaunchId,
    sight: RetireSight,
) -> Seq<Effect> {
    let v = redeemed(st, launch_id, sight.active);
    harvest_events(st, sight.lnrg_held) + if v == 0 {
        seq![Effect::Emit(Event::Retired { launch_id, amount: 0 })]
    } else {
        (if monus(sight.active as int, v) < sight.min_bond && sight.cooperating {
            seq![Effect::Chill]
        } else {
            Seq::empty()
        }) + seq![
            Effect::Unbond { value: v as u128 },
            Effect::Emit(
                Event::Retiring { launch_id, amount: v as u128, chunk_era: maturity(sight) },
            ),
        ]
    }
}

/// Why nothing can be finalized for a launch, if nothing can.
pub open spec fn finalize_plan_error(
    st: TreasuryState,
    launch_id: LaunchId,
    era: EraIndex,
) -> Option<Error> {
    if !st.treasuries.dom().contains(launch_id) {
        Some(Error::NoTreasury)
    } else {
        match st.treasuries[launch_id].status {
            TreasuryStatus::Retiring { chunk_era } => if era < chunk_era {
                Some(Error::NotMatured)
            } else {
                None
            },
            _ => Some(Error::NotRetiring),
        }
    }
}

/// The entries of a queue whose era has come, in their order.
pub open spec fn matured(queue: Seq<Retirement>, era: EraIndex) -> Seq<Retirement> {
    queue.filter(|x: Retirement| x.1 <= era)
}

/// The entries of a queue whose era has not come, in their order.
pub open spec fn waiting(queue: Seq<Retirement>, era: EraIndex) -> Seq<Retirement> {
    queue.filter(|x: Retirement| x.1 > era)
}

/// The amounts of a queue together, as far as they fit in `u128`.
pub open spec fn expected_of(queue: Seq<Retirement>) -> u128
    decreases queue.len(),
{
    if queue.len() == 0 {
        0
    } else {
        sat_add(expected_of(queue.drop_last()), queue.last().2)
    }
}

/// What each matured entry but the last is credited: its part of what came back,
/// rounded down.
pub open spec fn pro_rata(entry: Retirement, withdrawn: Balance, expected: Balance) -> int {
    entry.2 * withdrawn / expected as int
}

/// What the first `k` entries are credited together, short of the last one.
pub open spec fn credited_before(
    entries: Seq<Retirement>,
    k: int,
    withdrawn: Balance,
    expected: Balance,
) -> int
    decreases k,
{
    if k <= 0 {
        0
    } else {
        credited_before(entries, k - 1, withdrawn, expected) + pro_rata(
            entries[k - 1],
            withdrawn,
            expected,
        )
    }
}

/// What entry `i` is credited; the last one gets whatever is left.
pub open spec fn credit_of(
    entries: Seq<Retirement>,
    i: int,
    withdrawn: Balance,
    expected: Balance,
) -> Balance {
    if i == entries.len() - 1 {
        monus(withdrawn as int, credited_before(entries, i, withdrawn, expected)) as u128
    } else {
        pro_rata(entries[i], withdrawn, expected) as u128
    }
}

/// A record that has been credited.
pub open spec fn credited_record(t: Record, credit: Balance) -> Record {
    Record {
        pending_burn: sat_add(t.pending_burn, credit),
        status: TreasuryStatus::Retired,
        ..t
    }
}

/// The records once the first `k` entries have been credited.
pub open spec fn credited_records(
    records: Map<LaunchId, Record>,
    entries: Seq<Retirement>,
    k: int,
    withdrawn: Balance,
    expected: Balance,
) -> Map<LaunchId, Record>
    decreases k,
{
    if k <= 0 {
        records
    } else {
        let before = credited_records(records, entries, k - 1, withdrawn, expected);
        let id = entries[k - 1].0;
        if before.dom().contains(id) {
            before.insert(
                id,
                credited_record(before[id], credit_of(entries, k - 1, withdrawn, expected)),
            )
        } else {
            before
        }
    }
}

/// The events of crediting.
pub open spec fn credit_events(
    entries: Seq<Retirement>,
    withdrawn: Balance,
    expected: Balance,
) -> Seq<Effect> {
    Seq::new(
        entries.len(),
        |i: int|
            Effect::Emit(
                Event::Retired {
                    launch_id: entries[i].0,
                    amount: credit_of(entries, i, withdrawn, expected),
                },
            ),
    )
}

/// Why a finalization is refused, if it is.
pub open spec fn finalize_error(
    st: TreasuryState,
    launch_id: LaunchId,
    era: EraIndex,
) -> Option<Error> {
    if finalize_plan_error(st, launch_id, era) is Some {
        finalize_plan_error(st, launch_id, era)
    } else if expected_of(matured(st.retiring_queue, era)) == 0 {
        Some(Error::NothingToDo)
    } else {
        None
    }
}

/// The treasuries after a finalization that brought `withdrawn` back.
pub open spec fn finalize_next(
    st: TreasuryState,
    era: EraIndex,
    withdrawn: Balance,
) -> TreasuryState {
    let due = matured(st.retiring_queue, era);
    TreasuryState {
        treasuries: credited_records(
            st.treasuries,
            due,
            due.len() as int,
            withdrawn,
            expected_of(due),
        ),
        retiring_queue: waiting(st.retiring_queue, era),
        ..st
    }
}

/// Every entry is at most what is expected altogether.
pub(crate) proof fn lemma_entry_within(entries: Seq<Retirement>, i: int)
    requires
        0 <= i < entries.len(),
    ensures
        entries[i].2 <= expected_of(entries),
    decreases entries.len(),
{
    if i < entries.len() - 1 {
        lemma_entry_within(entries.drop_last(), i);
        assert(entries.drop_last()[i] == entries[i]);
    }
}

/// The amounts of the first `k` entries together.
pub open spec fn amount_before(entries: Seq<Retirement>, k: int) -> int
    decreases k,
{
    if k <= 0 {
        0
    } else {
        amount_before(entries, k - 1) + entries[k - 1].2
    }
}

/// Amounts that fit in `u128` together are expected exactly.
pub(crate) proof fn lemma_expected_exact(entries: Seq<Retirement>)
    requires
        amount_before(entries, entries.len() as int) <= u128::MAX,
    ensures
        expected_of(entries) == amount_before(entries, entries.len() as int),
    decreases entries.len(),
{
    if entries.len() > 0 {
        let front = entries.drop_last();
        lemma_prefix_amount(entries, front, front.len() as int);
        lemma_expected_exact(front);
    }
}

proof fn lemma_prefix_amount(a: Seq<Retirement>, b: Seq<Retirement>, k: int)
    requires
        0 <= k <= b.len() <= a.len(),
        forall|i: int| 0 <= i < k ==> a[i] == b[i],
    ensures
        amount_before(a, k) == amount_before(b, k),
        0 <= amount_before(a, k),
    decreases k,
{
    if k > 0 {
        lemma_prefix_amount(a, b, k - 1);
    }
}

/// Rounded-down parts never add up to more than their part of the whole.
pub(crate) proof fn lemma_credited_bound(
    entries: Seq<Retirement>,
    k: int,
    withdrawn: Balance,
    expected: Balance,
)
    requires
        0 <= k <= entries.len(),
        0 < expected,
    ensures
        0 <= credited_before(entries, k, withdrawn, expected),
        credited_before(entries, k, withdrawn, expected) * expected <= amount_before(entries, k)
            * withdrawn,
    decreases k,
{
    if k > 0 {
        lemma_credited_bound(entries, k - 1, withdrawn, expected);
        let n = entries[k - 1].2 * withdrawn;
        assert(0 <= n) by (nonlinear_arith)
            requires
                n == entries[k - 1].2 * withdrawn,
        ;
        lemma_floor(n, expected as int);
        let c = credited_before(entries, k - 1, withdrawn, expected);
        let p = n / expected as int;
        let a = amount_before(entries, k - 1);
        let e = entries[k - 1].2 as int;
        let w = withdrawn as int;
        assert((c + p) * expected <= (a + e) * w) by (nonlinear_arith)
            requires
                c * expected <= a * w,
                p * expected <= e * w,
        ;
    } else {
        assert(0 * expected <= 0 * withdrawn) by (nonlinear_arith);
    }
}

/// What all entries are credited together.
pub open spec fn credit_total(
    entries: Seq<Retirement>,
    k: int,
    withdrawn: Balance,
    expected: Balance,
) -> int
    decreases k,
{
    if k <= 0 {
        0
    } else {
        credit_total(entries, k - 1, withdrawn, expected) + credit_of(
            entries,
            k - 1,
            withdrawn,
            expected,
        )
    }
}

proof fn lemma_credit_total(
    entries: Seq<Retirement>,
    k: int,
    withdrawn: Balance,
    expected: Balance,
)
    requires
        0 <= k < entries.len(),
        expected == expected_of(entries),
        0 < expected,
    ensures
        credit_total(entries, k, withdrawn, expected) == credited_before(
            entries,
            k,
            withdrawn,
            expected,
        ),
    decreases k,
{
    if k > 0 {
        lemma_credit_total(entries, k - 1, withdrawn, expected);
        lemma_pro_rata_fits(entries, k - 1, withdrawn);
    }
}

/// A part of what came back is at most what came back.
proof fn lemma_pro_rata_fits(entries: Seq<Retirement>, i: int, withdrawn: Balance)
    requires
        0 <= i < entries.len(),
        0 < expected_of(entries),
    ensures
        0 <= pro_rata(entries[i], withdrawn, expected_of(entries)) <= withdrawn,
{
    let e = expected_of(entries);
    lemma_entry_within(entries, i);
    let v = entries[i].2;
    assert(0 <= v * withdrawn && v * withdrawn <= withdrawn * e) by (nonlinear_arith)
        requires
            v <= e,
    ;
    lemma_floor(v * withdrawn, e as int);
    lemma_floor_bounds(v * withdrawn, e as int, withdrawn as int);
}

/// What came back is credited to the last unit, as long as the amounts of the
/// matured entries fit in `u128` together.
pub proof fn law_finalize_credits_everything(entries: Seq<Retirement>, withdrawn: Balance)
    requires
        0 < amount_before(entries, entries.len() as int) <= u128::MAX,
    ensures
        credit_total(entries, entries.len() as int, withdrawn, expected_of(entries)) == withdrawn,
{
    let n = entries.len() as int;
    let expected = expected_of(entries);
    lemma_expected_exact(entries);
    lemma_credit_total(entries, n - 1, withdrawn, expected);
    lemma_credited_bound(entries, n - 1, withdrawn, expected);
    let c = credited_before(entries, n - 1, withdrawn, expected);
    let a = amount_before(entries, n - 1);
    assert(c <= withdrawn) by (nonlinear_arith)
        requires
            c * expected <= a * withdrawn,
            a <= expected,
            0 < expected,
            0 <= withdrawn,
    ;
}

impl Pallet {
    /// The block the launch's venue last traded: the later of the curve's record and
    /// the pool's, where a pool that never traded counts as nothing.
    pub fn last_trade_block(curve: Option<BlockNumber>, pool: Option<BlockNumber>) -> (r: Option<
        BlockNumber,
    >)
        ensures
            r == (match (curve, pool) {
                (None, _) => None,
                (Some(c), Some(p)) => Some(
                    if p > c {
                        p
                    } else {
                        c
                    },
                ),
                (Some(c), None) => Some(c),
            }),
            r is None <==> curve is None,
            r matches Some(last) ==> {
                &&& last >= curve->0 && (pool matches Some(p) ==> last >= p)
                &&& r == curve || r == pool
            },
    {
        match curve {
            None => None,
            Some(c) => match pool {
                Some(p) => if p > c {
                    Some(p)
                } else {
                    Some(c)
                },
                None => Some(c),
            },
        }
    }

    /// Retire a dormant launch: redeem its shares and unbond what they are worth.
    pub fn do_retire(&mut self, launch_id: LaunchId, sight: &RetireSight) -> (r: Result<
        Vec<Effect>,
        Error,
    >)
        ensures
            match r {
                Ok(effects) => {
                    &&& retire_error(old(self)@, launch_id, *sight) is None
                    &&& effects@ == retire_effects(old(self)@, launch_id, *sight)
                    &&& final(self)@ == retire_next(old(self)@, launch_id, *sight)
                },
                Err(e) => {
                    &&& retire_error(old(self)@, launch_id, *sight) == Some(e)
                    &&& final(self)@ == old(self)@
                },
            },
    {
        let ghost st = self@;
        let t: Record = match self.treasuries.get(&launch_id) {
            Some(t) => t,
            None => return Err(Error::NoTreasury),
        };
        if t.status != TreasuryStatus::Active {
            return Err(Error::NotActive);
        }
        let last: u64 = match sight.last_trade {
            Some(n) => n,
            None => return Err(Error::NoTreasury),
        };
        if sight.now.saturating_sub(last) < t.dormancy_blocks {
            return Err(Error::NotDormant);
        }
        let per_share: u128 = match self.peek_harvest(sight.lnrg_held) {
            Ok(p) => p,
            Err(e) => return Err(e),
        };
        let mut record: Record = match settle(per_share, &t) {
            Ok(s) => s,
            Err(e) => return Err(e),
        };
        let v: u128 = if t.shares == 0 || self.total_shares == 0 {
            0
        } else {
            match mul_div(t.shares, sight.active, self.total_shares) {
                Ok(x) => x,
                Err(e) => return Err(e),
            }
        };
        if v != 0 && self.retiring_queue.len() as u64 >= self.config.max_unlocking_chunks as u64 {
            return Err(Error::QueueFull);
        }
        let total: u128 = self.total_shares.saturating_sub(t.shares);
        let mut effects: Vec<Effect> = match self.do_harvest(sight.lnrg_held) {
            Ok((_, effects)) => effects,
            Err(e) => return Err(e),
        };
        // Fees that were not staked retire with the rest.
        record.pending_burn = record.pending_burn.saturating_add(record.pending);
        record.pending = 0;
        record.shares = 0;
        record.lnrg_debt = 0;
        if v == 0 {
            record.status = TreasuryStatus::Retired;
            effects.push(Effect::Emit(Event::Retired { launch_id, amount: 0 }));
        } else {
            if sight.active.saturating_sub(v) < sight.min_bond && sight.cooperating {
                effects.push(Effect::Chill);
            }
            effects.push(Effect::Unbond { value: v });
            let chunk_era: u32 = sight.era.saturating_add(sight.bonding_duration);
            self.retiring_queue.push((launch_id, chunk_era, v));
            record.status = TreasuryStatus::Retiring { chunk_era };
            effects.push(Effect::Emit(Event::Retiring { launch_id, amount: v, chunk_era }));
        }
        self.total_shares = total;
        self.treasuries.insert(launch_id, record);
        assert(effects@ =~= retire_effects(st, launch_id, *sight));
        assert(self@ =~= retire_next(st, launch_id, *sight));
        Ok(effects)
    }

    /// Whether a finalization for the launch may withdraw from the staking
    /// ledger.
    pub fn plan_finalize(&self, launch_id: LaunchId, era: EraIndex) -> (r: Result<(), Error>)
        ensures
            match r {
                Ok(()) => finalize_plan_error(self@, launch_id, era) is None,
                Err(e) => finalize_plan_error(self@, launch_id, era) == Some(e),
            },
    {
        let t: Record = match self.treasuries.get(&launch_id) {
            Some(t) => t,
            None => return Err(Error::NoTreasury),
        };
        match t.status {
            TreasuryStatus::Retiring { chunk_era } => if era < chunk_era {
                Err(Error::NotMatured)
            } else {
                Ok(())
            },
            _ => Err(Error::NotRetiring),
        }
    }

    /// The queue in two: what has matured, and what has not.
    fn split_queue(&self, era: EraIndex) -> (r: (Vec<Retirement>, Vec<Retirement>))
        ensures
            r.0@ == matured(self@.retiring_queue, era),
            r.1@ == waiting(self@.retiring_queue, era),
    {
        let mut due: Vec<Retirement> = Vec::new();
        let mut rest: Vec<Retirement> = Vec::new();
        let ghost q = self.retiring_queue@;
        let ghost is_due = |x: Retirement| x.1 <= era;
        let ghost is_not = |x: Retirement| x.1 > era;
        let mut i: usize = 0;
        proof {
            reveal(Seq::filter);
        }
        assert(q.take(0) =~= Seq::empty());
        while i < self.retiring_queue.len()
            invariant
                0 <= i <= self.retiring_queue@.len(),
                q == self.retiring_queue@,
                is_due == (|x: Retirement| x.1 <= era),
                is_not == (|x: Retirement| x.1 > era),
                due@ == q.take(i as int).filter(is_due),
                rest@ == q.take(i as int).filter(is_not),
            decreases self.retiring_queue@.len() - i,
        {
            let x: Retirement = self.retiring_queue[i];
            proof {
                reveal(Seq::filter);
                assert(q.take(i + 1).drop_last() =~= q.take(i as int));
            }
            if x.1 <= era {
                due.push(x);
            } else {
                rest.push(x);
            }
            i = i + 1;
        }
        assert(q.take(i as int) =~= q);
        (due, rest)
    }

    /// Credit every matured retirement with its part of `withdrawn`, which is
    /// what the staking ledger gave back.
    pub fn do_finalize(&mut self, launch_id: LaunchId, era: EraIndex, withdrawn: Balance) -> (r:
        Result<Vec<Effect>, Error>)
        ensures
            match r {
                Ok(effects) => {
                    let due = matured(old(self)@.retiring_queue, era);
                    &&& finalize_error(old(self)@, launch_id, era) is None
                    &&& effects@ == credit_events(due, withdrawn, expected_of(due))
                    &&& final(self)@ == finalize_next(old(self)@, era, withdrawn)
                },
                Err(e) => {
                    &&& finalize_error(old(self)@, launch_id, era) == Some(e)
                    &&& final(self)@ == old(self)@
                },
            },
    {
        let ghost st = self@;
        match self.plan_finalize(launch_id, era) {
            Ok(()) => {},
            Err(e) => return Err(e),
        }
        let (due, rest): (Vec<Retirement>, Vec<Retirement>) = self.split_queue(era);
        let expected: u128 = expected_sum(&due);
        if expected == 0 {
            return Err(Error::NothingToDo);
        }
        let mut effects: Vec<Effect> = Vec::new();
        let mut credited: u128 = 0;
        let mut i: usize = 0;
        let n: usize = due.len();
        let ghost events = credit_events(due@, withdrawn, expected);
        while i < n
            invariant
                0 <= i <= n,
                n == due@.len(),
                expected == expected_of(due@),
                0 < expected,
                events == credit_events(due@, withdrawn, expected),
                i < n ==> credited == min_int(
                    credited_before(due@, i as int, withdrawn, expected),
                    u128::MAX as int,
                ),
                effects@ == events.take(i as int),
                self@ == (TreasuryState {
                    treasuries: credited_records(
                        st.treasuries,
                        due@,
                        i as int,
                        withdrawn,
                        expected,
                    ),
                    ..st
                }),
            decreases n - i,
        {
            let (id, _, v): Retirement = due[i];
            proof {
                lemma_pro_rata_fits(due@, i as int, withdrawn);
                lemma_credited_bound(due@, i as int, withdrawn, expected);
            }
            let credit: u128 = if i + 1 == n {
                withdrawn.saturating_sub(credited)
            } else {
                match mul_div(v, withdrawn, expected) {
                    Ok(x) => x,
                    Err(_) => 0,
                }
            };
            assert(credit == credit_of(due@, i as int, withdrawn, expected));
            credited = credited.saturating_add(credit);
            let ghost before = self@.treasuries;
            if let Some(t) = self.treasuries.get(&id) {
                let mut record: Record = t;
                record.pending_burn = record.pending_burn.saturating_add(credit);
                record.status = TreasuryStatus::Retired;
                self.treasuries.insert(id, record);
            }
            effects.push(Effect::Emit(Event::Retired { launch_id: id, amount: credit }));
            i = i + 1;
            assert(effects@ =~= events.take(i as int));
            assert(self@ =~= (TreasuryState {
                treasuries: credited_records(st.treasuries, due@, i as int, withdrawn, expected),
                ..st
            }));
        }
        self.retiring_queue = rest;
        assert(effects@ =~= events);
        assert(self@ =~= finalize_next(st, era, withdrawn));
        Ok(effects)
    }
}

/// The amounts of a queue together, as far as they fit in `u128`.
fn expected_sum(queue: &Vec<Retirement>) -> (r: u128)
    ensures
        r == expected_of(queue@),
{
    let mut sum: u128 = 0;
    let mut i: usize = 0;
    assert(queue@.take(0) =~= Seq::empty());
    while i < queue.len()
        invariant
            0 <= i <= queue@.len(),
            sum == expected_of(queue@.take(i as int)),
        decreases queue@.len() - i,
    {
        sum = sum.saturating_add(queue[i].2);
        assert(queue@.take(i + 1).drop_last() =~= queue@.take(i as int));
        i = i + 1;
    }
    assert(queue@.take(i as int) =~= queue@);
    sum
}

} // verus!
