//! How a launch's treasury fills, retires and is paid out.

use super::accumulator::{claim_of, gross_owed, harvest_fails, harvested};
use super::checks::{burn_term, claim_term, pending_term, shares_term, violation, VaultSight};
use super::queue_laws::{is_queued, launches_differ, lemma_filtered};
use super::retire::{
    amount_before, credit_of, credited_before, credited_record, credited_records, expected_of,
    finalize_error, finalize_next, finalize_plan_error, lemma_credited_bound, lemma_entry_within,
    lemma_expected_exact, matured, redeemed, retire_effects, retire_error, retire_next, waiting,
    RetireSight,
};
use super::sink::{fee_next, noted_amount, takes_fees};
use super::state::{Record, Retirement, TreasuryState};
use super::types::{Effect, EraIndex, Error, LaunchId, TreasuryStatus};
use crate::arith::{
    is_largest, lemma_floor, lemma_floor_bounds, lemma_floor_is, max_int, min_int,
};
use crate::primitives::{Balance, BlockNumber};
use crate::sums::sum_map;
use vstd::prelude::*;

verus! {

/// A fee goes to a launch's own treasury while that is active, or is not there yet; the
/// first fee of all leaves the vault's minimum balance behind. A treasury that is not
/// active any more is left as it is. No other treasury changes.
pub proof fn law_fee_goes_to_its_own_launch(
    st: TreasuryState,
    launch_id: LaunchId,
    amount: Balance,
    now: BlockNumber,
    existential_deposit: Balance,
)
    ensures
        takes_fees(st, launch_id) <==> !st.treasuries.dom().contains(launch_id)
            || st.treasuries[launch_id].status == TreasuryStatus::Active,
        ({
            let next = fee_next(st, launch_id, amount, now, existential_deposit);
            let t = st.treasuries[launch_id];
            let noted = if st.vault_funded {
                amount as int
            } else if amount >= existential_deposit {
                amount - existential_deposit
            } else {
                0
            };
            &&& noted_amount(st, amount, existential_deposit) == noted
            &&& !st.treasuries.dom().contains(launch_id) ==> next.treasuries[launch_id] == (
            Record {
                pending: noted as u128,
                shares: 0,
                lnrg_debt: 0,
                lnrg_accrued: 0,
                pending_burn: 0,
                last_burn_block: now,
                dormancy_blocks: st.terms.dormancy_blocks,
                status: TreasuryStatus::Active,
            })
            &&& st.treasuries.dom().contains(launch_id) && t.status == TreasuryStatus::Active
                ==> next.treasuries[launch_id] == (Record {
                pending: min_int(t.pending + noted, u128::MAX as int) as u128,
                ..t
            })
            &&& st.treasuries.dom().contains(launch_id) && t.status != TreasuryStatus::Active
                ==> next.treasuries[launch_id] == t
            &&& next.treasuries.remove(launch_id) == st.treasuries.remove(launch_id)
            &&& next.vault_funded
            &&& next == (TreasuryState {
                treasuries: next.treasuries,
                vault_funded: true,
                ..st
            })
        }),
{
    let next = fee_next(st, launch_id, amount, now, existential_deposit);
    assert(next.treasuries.remove(launch_id) =~= st.treasuries.remove(launch_id));
}

/// What a retirement redeems: the most that the launch's shares are owed of the active
/// stake.
pub open spec fn is_redeemed(st: TreasuryState, t: Record, active: Balance, v: int) -> bool {
    if t.shares == 0 || st.total_shares == 0 {
        v == 0
    } else {
        is_largest(v, t.shares * active, st.total_shares as int)
    }
}

/// A launch can be retired exactly while it is active and nobody has traded it for its
/// dormancy, if the queue has room for a stake that it redeems, short of an overflow.
pub proof fn law_dormant_launch_can_retire(
    st: TreasuryState,
    launch_id: LaunchId,
    sight: RetireSight,
)
    ensures
        ({
            let t = st.treasuries[launch_id];
            let p = harvested(st, sight.lnrg_held).lnrg_per_share;
            let v = redeemed(st, launch_id, sight.active);
            let dormant = {
                &&& st.treasuries.dom().contains(launch_id)
                &&& t.status == TreasuryStatus::Active
                &&& sight.last_trade matches Some(last) && (sight.now >= last + t.dormancy_blocks
                    || t.dormancy_blocks == 0)
            };
            let fits = !harvest_fails(st, sight.lnrg_held) && gross_owed(p, t.shares) <= u128::MAX
                && v <= u128::MAX;
            let room = v > 0 ==> st.retiring_queue.len() < st.config.max_unlocking_chunks;
            &&& is_redeemed(st, t, sight.active, v)
            &&& dormant && fits ==> (retire_error(st, launch_id, sight) is None <==> room)
            &&& dormant && fits && !room ==> retire_error(st, launch_id, sight) == Some(
                Error::QueueFull,
            )
            &&& retire_error(st, launch_id, sight) is None ==> dormant && room
        }),
{
    let t = st.treasuries[launch_id];
    assert(0 <= t.shares * sight.active) by (nonlinear_arith);
    if st.total_shares > 0 {
        lemma_floor(t.shares * sight.active, st.total_shares as int);
    }
}

/// A retirement gives up every share, keeps the claim, and sends what was pending to be
/// burned with the rest. What the shares redeem is unbonded and queued under the era it
/// matures at, bonding duration from now; a launch that redeems nothing is retired at
/// once. Cooperation stops first exactly where what stays is under the least bond.
pub proof fn law_retirement_redeems_every_share(
    st: TreasuryState,
    launch_id: LaunchId,
    sight: RetireSight,
    v: int,
)
    requires
        retire_error(st, launch_id, sight) is None,
        is_redeemed(st, st.treasuries[launch_id], sight.active, v),
    ensures
        ({
            let t = st.treasuries[launch_id];
            let h = harvested(st, sight.lnrg_held);
            let next = retire_next(st, launch_id, sight);
            let effects = retire_effects(st, launch_id, sight);
            let era = min_int(sight.era + sight.bonding_duration, u32::MAX as int) as u32;
            &&& next.treasuries == st.treasuries.insert(
                launch_id,
                Record {
                    pending: 0,
                    shares: 0,
                    lnrg_debt: 0,
                    lnrg_accrued: claim_of(h.lnrg_per_share, t),
                    pending_burn: min_int(t.pending_burn + t.pending, u128::MAX as int) as u128,
                    status: if v == 0 {
                        TreasuryStatus::Retired
                    } else {
                        TreasuryStatus::Retiring { chunk_era: era }
                    },
                    ..t
                },
            )
            &&& next.total_shares == max_int(st.total_shares - t.shares, 0)
            &&& next.retiring_queue == if v == 0 {
                st.retiring_queue
            } else {
                st.retiring_queue.push((launch_id, era, v as u128))
            }
            &&& next == (TreasuryState {
                treasuries: next.treasuries,
                total_shares: next.total_shares,
                retiring_queue: next.retiring_queue,
                ..h
            })
            &&& v > 0 ==> {
                let n = effects.len() as int;
                &&& effects[n - 2] == Effect::Unbond { value: v as u128 }
                &&& effects.contains(Effect::Chill) <==> max_int(sight.active - v, 0)
                    < sight.min_bond && sight.cooperating
                &&& effects.contains(Effect::Chill) ==> effects[n - 3] == Effect::Chill
            }
        }),
{
    let t = st.treasuries[launch_id];
    let h = harvested(st, sight.lnrg_held);
    let next = retire_next(st, launch_id, sight);
    assert(0 <= t.shares * sight.active) by (nonlinear_arith);
    if t.shares != 0 && st.total_shares != 0 {
        lemma_floor_is(t.shares * sight.active, st.total_shares as int, v);
    }
    let effects = retire_effects(st, launch_id, sight);
    if v > 0 {
        let n = effects.len() as int;
        let chills = max_int(sight.active - v, 0) < sight.min_bond && sight.cooperating;
        if chills {
            assert(effects[n - 3] == Effect::Chill);
        } else if effects.contains(Effect::Chill) {
            let i = choose|i: int| 0 <= i < effects.len() && effects[i] == Effect::Chill;
            assert(effects[i] == Effect::Chill);
        }
    }
}

/// A finalization is owed to a retiring launch from the era it matures at. It takes
/// exactly the entries that have matured off the queue, in their order.
pub proof fn law_matured_entries_are_paid(
    st: TreasuryState,
    launch_id: LaunchId,
    era: EraIndex,
    withdrawn: Balance,
    entry: Retirement,
)
    ensures
        finalize_plan_error(st, launch_id, era) is None <==> {
            &&& st.treasuries.dom().contains(launch_id)
            &&& st.treasuries[launch_id].status matches TreasuryStatus::Retiring {
                chunk_era,
            } && chunk_era <= era
        },
        finalize_error(st, launch_id, era) is None ==> finalize_plan_error(st, launch_id, era)
            is None,
        ({
            let due = matured(st.retiring_queue, era);
            let rest = finalize_next(st, era, withdrawn).retiring_queue;
            &&& due.contains(entry) <==> st.retiring_queue.contains(entry) && entry.1 <= era
            &&& rest.contains(entry) <==> st.retiring_queue.contains(entry) && entry.1 > era
            &&& due.len() + rest.len() == st.retiring_queue.len()
        }),
{
    let q = st.retiring_queue;
    lemma_filtered(q, |x: Retirement| x.1 <= era);
    lemma_filtered(q, |x: Retirement| x.1 > era);
    let due = matured(q, era);
    let rest = waiting(q, era);
    if due.contains(entry) {
        let i = choose|i: int| 0 <= i < due.len() && due[i] == entry;
        assert(due[i] == entry);
    }
    if rest.contains(entry) {
        let i = choose|i: int| 0 <= i < rest.len() && rest[i] == entry;
        assert(rest[i] == entry);
    }
    if q.contains(entry) {
        let i = choose|i: int| 0 <= i < q.len() && q[i] == entry;
        assert(q[i] == entry);
    }
    lemma_parted(q, era);
}

proof fn lemma_parted(q: Seq<Retirement>, era: EraIndex)
    ensures
        matured(q, era).len() + waiting(q, era).len() == q.len(),
    decreases q.len(),
{
    reveal(Seq::filter);
    if q.len() > 0 {
        lemma_parted(q.drop_last(), era);
    }
}

/// Each matured entry but the last is credited the most of what came back that its
/// amount is owed, pro rata, and the last one the rest. So nothing that came back is
/// lost, and where everything came back everybody is made whole.
pub proof fn law_credits_are_pro_rata(entries: Seq<Retirement>, withdrawn: Balance, i: int)
    requires
        0 <= i < entries.len(),
        0 < amount_before(entries, entries.len() as int) <= u128::MAX,
    ensures
        ({
            let n = entries.len() as int;
            let sum = amount_before(entries, n);
            let credit = credit_of(entries, i, withdrawn, expected_of(entries));
            &&& i < n - 1 ==> is_largest(credit as int, entries[i].2 * withdrawn, sum)
            &&& i == n - 1 ==> credit == withdrawn - credited_before(
                entries,
                n - 1,
                withdrawn,
                expected_of(entries),
            )
            &&& i < n - 1 && withdrawn == sum ==> credit == entries[i].2
        }),
{
    let n = entries.len() as int;
    let sum = amount_before(entries, n);
    lemma_expected_exact(entries);
    assert(0 <= entries[i].2 * withdrawn) by (nonlinear_arith);
    lemma_floor(entries[i].2 * withdrawn, sum);
    lemma_entry_within(entries, i);
    let c = entries[i].2 * withdrawn / sum;
    assert(c <= withdrawn) by (nonlinear_arith)
        requires
            c * sum <= entries[i].2 * withdrawn,
            entries[i].2 <= sum,
            0 < sum,
    ;
    if withdrawn == sum {
        let a = entries[i].2 as int;
        assert((a + 1) * sum == a * sum + sum) by (nonlinear_arith);
        lemma_floor_is(entries[i].2 * withdrawn, sum, entries[i].2 as int);
    }
    let before = credited_before(entries, n - 1, withdrawn, expected_of(entries));
    let part = amount_before(entries, n - 1);
    lemma_credited_bound(entries, n - 1, withdrawn, expected_of(entries));
    assert(before <= withdrawn) by (nonlinear_arith)
        requires
            before * sum <= part * withdrawn,
            part <= sum,
            0 < sum,
    ;
}

/// `picks` are the places of `kept` in the queue, in rising order.
pub open spec fn keeps_order(
    picks: Seq<int>,
    queue: Seq<Retirement>,
    kept: Seq<Retirement>,
) -> bool {
    &&& picks.len() == kept.len()
    &&& forall|j: int|
        0 <= j < picks.len() ==> 0 <= #[trigger] picks[j] < queue.len() && kept[j]
            == queue[picks[j]]
    &&& forall|j: int, k: int|
        0 <= j < k < picks.len() ==> #[trigger] picks[j] < #[trigger] picks[k]
}

/// What is paid and what waits each keep the order of the queue.
pub proof fn law_queue_keeps_its_order(queue: Seq<Retirement>, era: EraIndex) -> (r: (
    Seq<int>,
    Seq<int>,
))
    ensures
        keeps_order(r.0, queue, matured(queue, era)),
        keeps_order(r.1, queue, waiting(queue, era)),
    decreases queue.len(),
{
    reveal(Seq::filter);
    if queue.len() == 0 {
        (Seq::empty(), Seq::empty())
    } else {
        let n = queue.len() - 1;
        let (due, rest) = law_queue_keeps_its_order(queue.drop_last(), era);
        if queue[n].1 <= era {
            (due.push(n), rest)
        } else {
            (due, rest.push(n))
        }
    }
}

/// A finalization adds each matured entry's credit to what its launch is to burn and
/// retires the launch. Every other treasury, and the rest of the state, stays.
pub proof fn law_credit_goes_to_its_launch(
    st: TreasuryState,
    era: EraIndex,
    withdrawn: Balance,
    i: int,
    other: LaunchId,
)
    requires
        launches_differ(st.retiring_queue),
        0 <= i < matured(st.retiring_queue, era).len(),
        !is_queued(matured(st.retiring_queue, era), other),
        st.treasuries.dom().contains(matured(st.retiring_queue, era)[i].0),
    ensures
        ({
            let due = matured(st.retiring_queue, era);
            let id = due[i].0;
            let next = finalize_next(st, era, withdrawn);
            let credit = credit_of(due, i, withdrawn, expected_of(due));
            let t = st.treasuries[id];
            &&& next.treasuries[id] == (Record {
                pending_burn: min_int(t.pending_burn + credit, u128::MAX as int) as u128,
                status: TreasuryStatus::Retired,
                ..t
            })
            &&& next.treasuries.dom() == st.treasuries.dom()
            &&& st.treasuries.dom().contains(other) ==> next.treasuries[other]
                == st.treasuries[other]
            &&& next == (TreasuryState {
                treasuries: next.treasuries,
                retiring_queue: next.retiring_queue,
                ..st
            })
        }),
{
    let due = matured(st.retiring_queue, era);
    let n = due.len() as int;
    lemma_filtered(st.retiring_queue, |x: Retirement| x.1 <= era);
    assert(launches_differ(due));
    lemma_credited_once(st.treasuries, due, n, withdrawn, expected_of(due), i);
    lemma_credited_not(st.treasuries, due, n, withdrawn, expected_of(due), other);
}

proof fn lemma_credited_not(
    records: Map<LaunchId, Record>,
    entries: Seq<Retirement>,
    k: int,
    withdrawn: Balance,
    expected: Balance,
    id: LaunchId,
)
    requires
        0 <= k <= entries.len(),
        forall|j: int| 0 <= j < k ==> (#[trigger] entries[j]).0 != id,
    ensures
        credited_records(records, entries, k, withdrawn, expected).dom() =~= records.dom(),
        credited_records(records, entries, k, withdrawn, expected)[id] == records[id],
    decreases k,
{
    if k > 0 {
        lemma_credited_not(records, entries, k - 1, withdrawn, expected, id);
        assert(entries[k - 1].0 != id);
    }
}

proof fn lemma_credited_once(
    records: Map<LaunchId, Record>,
    entries: Seq<Retirement>,
    k: int,
    withdrawn: Balance,
    expected: Balance,
    i: int,
)
    requires
        launches_differ(entries),
        0 <= i < k <= entries.len(),
        records.dom().contains(entries[i].0),
    ensures
        ({
            let id = entries[i].0;
            let after = credited_records(records, entries, k, withdrawn, expected);
            &&& after.dom() =~= records.dom()
            &&& after[id] == credited_record(
                records[id],
                credit_of(entries, i, withdrawn, expected),
            )
        }),
    decreases k,
{
    if i < k - 1 {
        lemma_credited_once(records, entries, k - 1, withdrawn, expected, i);
        assert(entries[i].0 != entries[k - 1].0);
    } else {
        lemma_credited_not(records, entries, k - 1, withdrawn, expected, entries[i].0);
    }
}

/// What the sums over the treasuries count of one: its shares, its fees that wait to be
/// staked, what it is to burn, and what it could realise, which is nothing where what
/// its shares are owed leaves `u128`.
pub proof fn law_sums_count_each_treasury(per_share: u128, id: LaunchId, t: Record)
    ensures
        shares_term()(id, t) == t.shares,
        pending_term()(id, t) == t.pending,
        burn_term()(id, t) == t.pending_burn,
        claim_term(per_share)(id, t) == if t.shares * per_share >= (u128::MAX + 1)
            * 1_000_000_000_000_000_000 {
            0
        } else {
            claim_of(per_share, t) as int
        },
{
    lemma_floor_bounds(t.shares * per_share, 1_000_000_000_000_000_000, u128::MAX + 1);
}

/// The check on the state finds nothing exactly where the records' shares are the total,
/// the claims are within the attributed LNRG and that within what the vault holds, the
/// vault holds at least what the records and the staking ledger account for and its
/// own minimum balance, and cooperation is at most a unit for each target below the
/// active stake while it is meant to match. (The sums fit in `u128`.)
pub proof fn law_check_finds_what_is_broken(st: TreasuryState, sight: VaultSight)
    requires
        ({
            let own = if st.vault_funded {
                sight.existential_deposit as int
            } else {
                0
            };
            &&& sum_map(st.treasuries, shares_term()) <= u128::MAX
            &&& sum_map(st.treasuries, claim_term(st.lnrg_per_share)) <= u128::MAX
            &&& own + sum_map(st.treasuries, pending_term()) + sum_map(st.treasuries, burn_term())
                + sight.ledger_total <= u128::MAX
            &&& sum_map(st.treasuries, pending_term()) >= 0
            &&& sum_map(st.treasuries, burn_term()) >= 0
        }),
    ensures
        ({
            let own = if st.vault_funded {
                sight.existential_deposit as int
            } else {
                0
            };
            violation(st, sight) is None <==> {
                &&& sum_map(st.treasuries, shares_term()) == st.total_shares
                &&& sum_map(st.treasuries, claim_term(st.lnrg_per_share)) <= st.lnrg_accounted
                &&& st.lnrg_accounted <= sight.lnrg_held
                &&& own + sum_map(st.treasuries, pending_term()) + sum_map(
                    st.treasuries,
                    burn_term(),
                ) + sight.ledger_total <= sight.native_held
                &&& !st.cooperation_stale && sight.cooperating ==> sight.cooperated <= sight.active
                    <= sight.cooperated + st.config.max_targets
            }
        }),
{
}

} // verus!
