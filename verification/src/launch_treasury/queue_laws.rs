//! What holds of the retiring queue across operations.

use super::compound::{finished_record, Compounding};
use super::laws::with_record;
use super::retire::{
    credited_records, expected_of, finalize_error, finalize_next, finalize_plan_error, matured,
    retire_error, retire_next, waiting, RetireSight,
};
use super::sink::fee_next;
use super::staking::{stake_error, stake_next, StakeSight};
use super::state::{fresh_treasuries, Record, Retirement, Terms, TreasuryState};
use super::types::{EraIndex, LaunchId, TreasuryConfig, TreasuryStatus};
use crate::primitives::{Balance, BlockNumber};
use vstd::prelude::*;

verus! {

/// An entry of the queue stands for a launch that retires at the entry's era, and
/// for a stake that is something.
pub open spec fn entry_holds(records: Map<LaunchId, Record>, entry: Retirement) -> bool {
    &&& records.dom().contains(entry.0)
    &&& records[entry.0].status == TreasuryStatus::Retiring { chunk_era: entry.1 }
    &&& entry.2 > 0
}

/// No launch occurs twice.
pub open spec fn launches_differ(queue: Seq<Retirement>) -> bool {
    forall|i: int, j: int|
        0 <= i < j < queue.len() ==> (#[trigger] queue[i]).0 != (#[trigger] queue[j]).0
}

/// The launch occurs in the queue.
pub open spec fn is_queued(queue: Seq<Retirement>, id: LaunchId) -> bool {
    exists|i: int| 0 <= i < queue.len() && (#[trigger] queue[i]).0 == id
}

/// The queue holds every retiring launch, each once, and nothing else.
pub open spec fn queue_is_sound(st: TreasuryState) -> bool {
    &&& forall|i: int|
        0 <= i < st.retiring_queue.len() ==> entry_holds(
            st.treasuries,
            #[trigger] st.retiring_queue[i],
        )
    &&& launches_differ(st.retiring_queue)
    &&& forall|id: LaunchId| #[trigger]
        st.treasuries.dom().contains(id) && st.treasuries[id].status is Retiring ==> is_queued(
            st.retiring_queue,
            id,
        )
}

/// The queue starts out sound.
pub proof fn law_fresh_queue_is_sound(config: TreasuryConfig, terms: Terms)
    ensures
        queue_is_sound(fresh_treasuries(config, terms)),
{
}

/// Every operation keeps the queue sound.
pub proof fn law_queue_stays_sound(
    st: TreasuryState,
    launch_id: LaunchId,
    stake: StakeSight,
    retire: RetireSight,
    amount: Balance,
    now: BlockNumber,
    existential_deposit: Balance,
    c: Compounding,
    era: EraIndex,
    withdrawn: Balance,
)
    requires
        queue_is_sound(st),
    ensures
        stake_error(st, launch_id, stake) is None ==> queue_is_sound(
            stake_next(st, launch_id, stake),
        ),
        retire_error(st, launch_id, retire) is None ==> queue_is_sound(
            retire_next(st, launch_id, retire),
        ),
        queue_is_sound(fee_next(st, launch_id, amount, now, existential_deposit)),
        st.treasuries.dom().contains(c.launch_id) && c.record.status
            == st.treasuries[c.launch_id].status ==> queue_is_sound(
            with_record(st, c.launch_id, finished_record(c, existential_deposit)),
        ),
        queue_is_sound(finalize_next(st, era, withdrawn)),
{
    let q = st.retiring_queue;
    if retire_error(st, launch_id, retire) is None {
        let next = retire_next(st, launch_id, retire);
        let p = next.retiring_queue;
        assert forall|i: int| 0 <= i < p.len() implies entry_holds(
            next.treasuries,
            #[trigger] p[i],
        ) by {
            if i < q.len() {
                assert(entry_holds(st.treasuries, q[i]));
            }
        }
        assert forall|i: int, j: int| 0 <= i < j < p.len() implies (#[trigger] p[i]).0 != (
        #[trigger] p[j]).0 by {
            assert(entry_holds(st.treasuries, q[i]));
        }
        assert forall|id: LaunchId| #[trigger]
            next.treasuries.dom().contains(id) && next.treasuries[id].status
                is Retiring implies is_queued(p, id) by {
            if id == launch_id {
                assert(p[q.len() as int].0 == id);
            } else {
                let i = choose|i: int| 0 <= i < q.len() && (#[trigger] q[i]).0 == id;
                assert(p[i] == q[i]);
            }
        }
    }
    lemma_finalize_keeps_queue(st, era, withdrawn);
}

/// What a filter keeps, it keeps in order.
pub(crate) proof fn lemma_filtered(queue: Seq<Retirement>, keep: spec_fn(Retirement) -> bool)
    ensures
        forall|i: int|
            0 <= i < queue.filter(keep).len() ==> keep(#[trigger] queue.filter(keep)[i])
                && queue.contains(queue.filter(keep)[i]),
        forall|i: int|
            0 <= i < queue.len() && keep(#[trigger] queue[i]) ==> queue.filter(keep).contains(
                queue[i],
            ),
        launches_differ(queue) ==> launches_differ(queue.filter(keep)),
    decreases queue.len(),
{
    reveal(Seq::filter);
    let kept = queue.filter(keep);
    if queue.len() > 0 {
        let rest = queue.drop_last();
        lemma_filtered(rest, keep);
        let last = queue.last();
        let before = rest.filter(keep);
        assert forall|i: int| 0 <= i < kept.len() implies keep(#[trigger] kept[i])
            && queue.contains(kept[i]) by {
            if i < before.len() {
                assert(kept[i] == before[i]);
                let j = choose|j: int| 0 <= j < rest.len() && rest[j] == before[i];
                assert(queue[j] == kept[i]);
            } else {
                assert(queue[queue.len() - 1] == kept[i]);
            }
        }
        assert forall|i: int| 0 <= i < queue.len() && keep(#[trigger] queue[i]) implies kept
            .contains(queue[i]) by {
            if i < rest.len() {
                assert(rest[i] == queue[i]);
                let j = choose|j: int| 0 <= j < before.len() && before[j] == rest[i];
                assert(kept[j] == queue[i]);
            } else {
                assert(kept[kept.len() - 1] == queue[i]);
            }
        }
        if launches_differ(queue) {
            assert(launches_differ(rest));
            assert forall|i: int, j: int| 0 <= i < j < kept.len() implies (#[trigger] kept[i]).0
                != (#[trigger] kept[j]).0 by {
                assert(kept[i] == before[i]);
                if j < before.len() {
                    assert(kept[j] == before[j]);
                } else {
                    let k = choose|k: int| 0 <= k < rest.len() && rest[k] == before[i];
                    assert(queue[k] == kept[i]);
                    assert(queue[queue.len() - 1] == kept[j]);
                }
            }
        }
    }
}

/// Crediting retires the launches of the entries, and leaves everything but the
/// status and the amount to burn as it was.
pub(crate) proof fn lemma_credited(
    records: Map<LaunchId, Record>,
    entries: Seq<Retirement>,
    k: int,
    withdrawn: Balance,
    expected: Balance,
    id: LaunchId,
)
    requires
        0 <= k <= entries.len(),
    ensures
        ({
            let after = credited_records(records, entries, k, withdrawn, expected);
            &&& after.dom() =~= records.dom()
            &&& records.dom().contains(id) ==> after[id] == (Record {
                pending_burn: after[id].pending_burn,
                status: if is_queued(entries.take(k), id) {
                    TreasuryStatus::Retired
                } else {
                    records[id].status
                },
                ..records[id]
            })
        }),
    decreases k,
{
    if k > 0 {
        lemma_credited(records, entries, k - 1, withdrawn, expected, id);
        let before = credited_records(records, entries, k - 1, withdrawn, expected);
        let head = entries.take(k);
        let shorter = entries.take(k - 1);
        if entries[k - 1].0 == id {
            assert(head[k - 1].0 == id);
        } else if is_queued(head, id) {
            let i = choose|i: int| 0 <= i < head.len() && (#[trigger] head[i]).0 == id;
            assert(shorter[i].0 == id);
        } else if is_queued(shorter, id) {
            let i = choose|i: int| 0 <= i < shorter.len() && (#[trigger] shorter[i]).0 == id;
            assert(head[i].0 == id);
        }
    } else {
        assert(!is_queued(entries.take(0), id));
    }
}

proof fn lemma_finalize_keeps_queue(st: TreasuryState, era: EraIndex, withdrawn: Balance)
    requires
        queue_is_sound(st),
    ensures
        queue_is_sound(finalize_next(st, era, withdrawn)),
{
    let q = st.retiring_queue;
    let due = matured(q, era);
    let rest = waiting(q, era);
    let next = finalize_next(st, era, withdrawn);
    let expected = expected_of(due);
    lemma_filtered(q, |x: Retirement| x.1 <= era);
    lemma_filtered(q, |x: Retirement| x.1 > era);
    assert(due.take(due.len() as int) =~= due);
    assert forall|i: int| 0 <= i < rest.len() implies entry_holds(
        next.treasuries,
        #[trigger] rest[i],
    ) by {
        let j = choose|j: int| 0 <= j < q.len() && q[j] == rest[i];
        assert(entry_holds(st.treasuries, q[j]));
        let id = rest[i].0;
        lemma_credited(st.treasuries, due, due.len() as int, withdrawn, expected, id);
        if is_queued(due, id) {
            let k = choose|k: int| 0 <= k < due.len() && (#[trigger] due[k]).0 == id;
            let l = choose|l: int| 0 <= l < q.len() && q[l] == due[k];
            assert(q[l].0 == q[j].0);
        }
    }
    assert forall|id: LaunchId| #[trigger]
        next.treasuries.dom().contains(id) && next.treasuries[id].status
            is Retiring implies is_queued(rest, id) by {
        lemma_credited(st.treasuries, due, due.len() as int, withdrawn, expected, id);
        assert(st.treasuries.dom().contains(id));
        let j = choose|j: int| 0 <= j < q.len() && (#[trigger] q[j]).0 == id;
        if q[j].1 <= era {
            let k = choose|k: int| 0 <= k < due.len() && due[k] == q[j];
            assert(due[k].0 == id);
        } else {
            let k = choose|k: int| 0 <= k < rest.len() && rest[k] == q[j];
            assert(rest[k].0 == id);
        }
    }
}

/// A matured retirement can always be finalized, and is finished then.
pub proof fn law_matured_retirement_finalizes(
    st: TreasuryState,
    launch_id: LaunchId,
    era: EraIndex,
    withdrawn: Balance,
)
    requires
        queue_is_sound(st),
        finalize_plan_error(st, launch_id, era) is None,
    ensures
        finalize_error(st, launch_id, era) is None,
        finalize_next(st, era, withdrawn).treasuries[launch_id].status == TreasuryStatus::Retired,
{
    let q = st.retiring_queue;
    let due = matured(q, era);
    assert(st.treasuries.dom().contains(launch_id));
    let j = choose|j: int| 0 <= j < q.len() && (#[trigger] q[j]).0 == launch_id;
    assert(entry_holds(st.treasuries, q[j]));
    lemma_filtered(q, |x: Retirement| x.1 <= era);
    let k = choose|k: int| 0 <= k < due.len() && due[k] == q[j];
    assert(due[k].0 == launch_id);
    super::retire::lemma_entry_within(due, k);
    assert(due.take(due.len() as int) =~= due);
    lemma_credited(st.treasuries, due, due.len() as int, withdrawn, expected_of(due), launch_id);
}

} // verus!
