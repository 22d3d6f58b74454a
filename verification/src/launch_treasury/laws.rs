//! What holds of the treasuries across operations.

use super::accumulator::{
    claim_of, gross_owed, harvest_fails, harvest_inc, harvested, mark_of, settled, unharvested,
};
use super::checks::{burn_term, claim_or_zero, claim_term, pending_term, shares_term};
use super::compound::{
    after_burn, after_sale, begin_error, begun, bounty_effects, bounty_of, burn_effects, closes,
    finish_effects, finished_record, pending_now, sale_bounty, slice_bounty, spent_of, Compounding,
};
use super::queue_laws::{entry_holds, lemma_credited, lemma_filtered, queue_is_sound};
use super::retire::{
    amount_before, credit_events, credit_of, credit_total, credited_record, credited_records,
    expected_of, finalize_error, finalize_next, law_finalize_credits_everything,
    lemma_expected_exact, matured, retire_effects, retire_error, retire_next, retired_record,
    RetireSight,
};
use super::sink::{fed_record, fee_next, noted_amount, takes_fees};
use super::staking::{
    stake_added, stake_effects, stake_error, stake_next, stake_shares, staked_record, StakeSight,
};
use super::state::{
    fresh_treasuries, terms_ok, vault_of, Record, Retirement, Terms, TreasuryState,
};
use super::types::{Effect, EraIndex, LaunchId, TreasuryConfig, TreasuryStatus, BPS, SCALE};
use crate::accounts::{account_with, lemma_some_account, pair_seed, sub_account_bytes};
use crate::arith::{
    lemma_ceil, lemma_ceil_bounds, lemma_ceil_monotone, lemma_floor, max_int, monus, sat_sub,
};
use crate::dex::market_laws::lemma_account_bytes;
use crate::dex::state::{
    dex_account_bytes, fee_escrow, fee_escrow_seed, intent_escrow, intent_escrow_seed,
    pool_account, protocol_treasury, protocol_treasury_seed, solver_escrow, solver_escrow_seed,
};
use crate::dex::types::PALLET_ID;
use crate::primitives::{AccountId, AssetPair, Balance, BlockNumber};
use crate::sums::{
    lemma_sum_bounds, lemma_sum_insert, lemma_sum_linear, lemma_sum_monotone, sum_map,
};
use vstd::prelude::*;

verus! {

/// The records' shares are the total.
pub open spec fn shares_match(st: TreasuryState) -> bool {
    &&& st.treasuries.dom().finite()
    &&& sum_map(st.treasuries, shares_term()) == st.total_shares
}

/// The treasuries with one record written back.
pub open spec fn with_record(st: TreasuryState, launch_id: LaunchId, t: Record) -> TreasuryState {
    TreasuryState { treasuries: st.treasuries.insert(launch_id, t), ..st }
}

/// A record's shares are within the total.
proof fn lemma_shares_within(st: TreasuryState, launch_id: LaunchId)
    requires
        shares_match(st),
        st.treasuries.dom().contains(launch_id),
    ensures
        st.treasuries[launch_id].shares <= st.total_shares,
{
    let m = st.treasuries;
    let f = shares_term();
    assert forall|k: LaunchId| m.dom().contains(k) implies #[trigger] f(k, m[k]) >= 0 by {}
    lemma_sum_bounds(m, f);
    assert(f(launch_id, m[launch_id]) == m[launch_id].shares);
}

/// Staking, as long as the total has room, and retiring, a fee and a compound
/// keep the records' shares the total.
pub proof fn law_shares_stay_the_total(
    st: TreasuryState,
    launch_id: LaunchId,
    stake: StakeSight,
    retire: RetireSight,
    amount: Balance,
    now: BlockNumber,
    existential_deposit: Balance,
    c: Compounding,
)
    requires
        shares_match(st),
    ensures
        stake_error(st, launch_id, stake) is None && st.total_shares + stake_shares(st, stake)
            <= u128::MAX ==> shares_match(stake_next(st, launch_id, stake)),
        retire_error(st, launch_id, retire) is None ==> shares_match(
            retire_next(st, launch_id, retire),
        ),
        shares_match(fee_next(st, launch_id, amount, now, existential_deposit)),
        st.treasuries.dom().contains(c.launch_id) && c.record.shares
            == st.treasuries[c.launch_id].shares ==> shares_match(
            with_record(st, c.launch_id, finished_record(c, existential_deposit)),
        ),
{
    let m = st.treasuries;
    let f = shares_term();
    if st.treasuries.dom().contains(launch_id) {
        lemma_shares_within(st, launch_id);
    }
    if stake_error(st, launch_id, stake) is None && st.total_shares + stake_shares(st, stake)
        <= u128::MAX {
        assert(stake_shares(st, stake) >= 0) by {
            lemma_stake_shares(st, stake);
        }
        lemma_sum_insert(m, launch_id, staked_record(st, launch_id, stake), f);
    }
    if retire_error(st, launch_id, retire) is None {
        lemma_sum_insert(m, launch_id, retired_record(st, launch_id, retire), f);
    }
    lemma_sum_insert(
        m,
        launch_id,
        fed_record(st, launch_id, noted_amount(st, amount, existential_deposit), now),
        f,
    );
    lemma_sum_insert(m, c.launch_id, finished_record(c, existential_deposit), f);
}

proof fn lemma_stake_shares(st: TreasuryState, stake: StakeSight)
    requires
        st.total_shares == 0 || stake.active_before > 0,
    ensures
        0 <= stake_shares(st, stake),
{
    if st.total_shares != 0 {
        let n = stake_added(stake) * st.total_shares;
        assert(0 <= n) by (nonlinear_arith)
            requires
                n == stake_added(stake) * st.total_shares,
                stake_added(stake) >= 0,
        ;
        lemma_floor(n, stake.active_before as int);
    }
}

/// A record's claim on LNRG times the scale, with nothing rounded off: what it has
/// accrued, and what its shares are owed past its mark.
pub open spec fn exact_claim(per_share: u128, t: Record) -> int {
    t.lnrg_accrued * SCALE + monus(t.shares * per_share, t.lnrg_debt * SCALE)
}

/// See [`exact_claim`].
pub open spec fn exact_term(per_share: u128) -> spec_fn(LaunchId, Record) -> int {
    |id: LaunchId, t: Record| exact_claim(per_share, t)
}

/// Attributed LNRG above what the records claim, times the scale.
pub open spec fn slack(st: TreasuryState) -> int {
    st.lnrg_accounted * SCALE - sum_map(st.treasuries, exact_term(st.lnrg_per_share))
}

/// The records' shares are the total, and every claim is backed by attributed LNRG.
pub open spec fn is_backed(st: TreasuryState) -> bool {
    shares_match(st) && slack(st) >= 0
}

/// No record has been marked beyond what it was owed, rounded up.
pub open spec fn marks_within(st: TreasuryState) -> bool {
    forall|id: LaunchId| #[trigger]
        st.treasuries.dom().contains(id) ==> st.treasuries[id].lnrg_debt <= mark_of(
            st.lnrg_per_share,
            st.treasuries[id].shares,
        )
}

/// A mark never falls as the accumulator grows, and is at least what is owed.
proof fn lemma_marks(p: u128, q: u128, shares: Balance)
    requires
        p <= q,
    ensures
        mark_of(p, shares) <= mark_of(q, shares),
        0 <= gross_owed(p, shares) <= mark_of(p, shares),
        gross_owed(p, shares) * SCALE <= shares * p <= mark_of(p, shares) * SCALE,
{
    assert(0 <= shares * p && shares * p <= shares * q) by (nonlinear_arith)
        requires
            p <= q,
    ;
    lemma_ceil_monotone(shares * p, shares * q, SCALE as int);
    lemma_floor(shares * p, SCALE as int);
    lemma_ceil(shares * p, SCALE as int);
    lemma_ceil_bounds(shares * p, SCALE as int, gross_owed(p, shares));
}

/// No operation marks a record beyond what it is owed, rounded up.
pub proof fn law_marks_stay_within(
    st: TreasuryState,
    launch_id: LaunchId,
    held: Balance,
    stake: StakeSight,
    retire: RetireSight,
    amount: Balance,
    now: BlockNumber,
    existential_deposit: Balance,
    c: Compounding,
    era: EraIndex,
    withdrawn: Balance,
)
    requires
        marks_within(st),
    ensures
        !harvest_fails(st, held) ==> marks_within(harvested(st, held)),
        stake_error(st, launch_id, stake) is None ==> marks_within(
            stake_next(st, launch_id, stake),
        ),
        retire_error(st, launch_id, retire) is None ==> marks_within(
            retire_next(st, launch_id, retire),
        ),
        marks_within(fee_next(st, launch_id, amount, now, existential_deposit)),
        c.record.lnrg_debt <= mark_of(st.lnrg_per_share, c.record.shares) ==> marks_within(
            with_record(st, c.launch_id, finished_record(c, existential_deposit)),
        ),
        marks_within(finalize_next(st, era, withdrawn)),
{
    lemma_marks_after_harvest(st, held);
    let due = matured(st.retiring_queue, era);
    let credited = finalize_next(st, era, withdrawn);
    assert forall|id: LaunchId| #[trigger] credited.treasuries.dom().contains(id) implies credited
        .treasuries[id].lnrg_debt <= mark_of(
        credited.lnrg_per_share,
        credited.treasuries[id].shares,
    ) by {
        lemma_credited(st.treasuries, due, due.len() as int, withdrawn, expected_of(due), id);
    }
    let written = with_record(st, c.launch_id, finished_record(c, existential_deposit));
    if c.record.lnrg_debt <= mark_of(st.lnrg_per_share, c.record.shares) {
        assert forall|id: LaunchId| #[trigger]
            written.treasuries.dom().contains(id) implies written.treasuries[id].lnrg_debt
            <= mark_of(written.lnrg_per_share, written.treasuries[id].shares) by {
            if id != c.launch_id {
                assert(st.treasuries.dom().contains(id));
            }
        }
    }
    if stake_error(st, launch_id, stake) is None {
        lemma_marks_after_harvest(st, stake.lnrg_held);
        let h = harvested(st, stake.lnrg_held);
        let next = stake_next(st, launch_id, stake);
        assert forall|id: LaunchId| #[trigger] next.treasuries.dom().contains(id) implies next
            .treasuries[id].lnrg_debt <= mark_of(
            next.lnrg_per_share,
            next.treasuries[id].shares,
        ) by {
            if id != launch_id {
                assert(h.treasuries.dom().contains(id));
            } else {
                lemma_marks(next.lnrg_per_share, next.lnrg_per_share, next.treasuries[id].shares);
            }
        }
    }
    if retire_error(st, launch_id, retire) is None {
        lemma_marks_after_harvest(st, retire.lnrg_held);
        let h = harvested(st, retire.lnrg_held);
        let next = retire_next(st, launch_id, retire);
        assert forall|id: LaunchId| #[trigger] next.treasuries.dom().contains(id) implies next
            .treasuries[id].lnrg_debt <= mark_of(
            next.lnrg_per_share,
            next.treasuries[id].shares,
        ) by {
            if id != launch_id {
                assert(h.treasuries.dom().contains(id));
            } else {
                lemma_marks(next.lnrg_per_share, next.lnrg_per_share, 0);
            }
        }
    }
    let next = fee_next(st, launch_id, amount, now, existential_deposit);
    assert forall|id: LaunchId| #[trigger] next.treasuries.dom().contains(id) implies next
        .treasuries[id].lnrg_debt <= mark_of(
        next.lnrg_per_share,
        next.treasuries[id].shares,
    ) by {
        if !st.treasuries.dom().contains(id) {
            lemma_marks(next.lnrg_per_share, next.lnrg_per_share, 0);
        }
    }
}

/// The accumulator never falls.
proof fn lemma_harvest_grows(st: TreasuryState, held: Balance)
    requires
        !harvest_fails(st, held),
    ensures
        st.lnrg_per_share <= harvested(st, held).lnrg_per_share,
        unharvested(st, held) != 0 ==> {
            &&& 0 <= harvest_inc(st, held) <= u128::MAX
            &&& harvested(st, held).lnrg_per_share <= st.lnrg_per_share + harvest_inc(st, held)
            &&& harvest_inc(st, held) * st.total_shares <= unharvested(st, held) * SCALE
        },
{
    if unharvested(st, held) != 0 {
        let n = unharvested(st, held) * SCALE;
        assert(n >= 0) by (nonlinear_arith)
            requires
                n == unharvested(st, held) * SCALE,
                unharvested(st, held) >= 0,
        ;
        lemma_floor(n, st.total_shares as int);
    }
}

proof fn lemma_marks_after_harvest(st: TreasuryState, held: Balance)
    requires
        marks_within(st),
    ensures
        !harvest_fails(st, held) ==> marks_within(harvested(st, held)),
{
    let h = harvested(st, held);
    if !harvest_fails(st, held) {
        lemma_harvest_grows(st, held);
        assert forall|id: LaunchId| #[trigger] h.treasuries.dom().contains(id) implies h.treasuries[
            id
        ].lnrg_debt <= mark_of(h.lnrg_per_share, h.treasuries[id].shares) by {
            assert(st.treasuries.dom().contains(id));
            lemma_marks(st.lnrg_per_share, h.lnrg_per_share, st.treasuries[id].shares);
        }
    }
}

/// Attributed LNRG stays within what the vault holds: a harvest attributes at
/// most that, and a sale lowers both by what left.
pub proof fn law_attributed_is_held(st: TreasuryState, held: Balance, sold: Balance)
    requires
        st.lnrg_accounted <= held,
        sold <= held,
    ensures
        harvested(st, held).lnrg_accounted <= held,
        sat_sub(st.lnrg_accounted, sold) <= held - sold,
{
}

/// A harvest never takes from what backs the claims.
pub proof fn law_harvest_keeps_backing(st: TreasuryState, held: Balance)
    requires
        shares_match(st),
        !harvest_fails(st, held),
    ensures
        slack(harvested(st, held)) >= slack(st),
{
    let delta = unharvested(st, held);
    lemma_harvest_grows(st, held);
    if delta != 0 {
        let inc = harvest_inc(st, held);
        let p = st.lnrg_per_share;
        let q = harvested(st, held).lnrg_per_share;
        let m = st.treasuries;
        let grown = |id: LaunchId, t: Record| exact_claim(p, t) + inc * (t.shares as int);
        assert forall|k: LaunchId| m.dom().contains(k) implies #[trigger] grown(k, m[k])
            == exact_term(p)(k, m[k]) + inc * shares_term()(k, m[k]) by {}
        lemma_sum_linear(m, grown, exact_term(p), shares_term(), inc);
        assert forall|k: LaunchId| m.dom().contains(k) implies #[trigger] exact_term(q)(k, m[k])
            <= grown(k, m[k]) by {
            let s = m[k].shares as int;
            assert(s * q <= s * p + inc * s && 0 <= inc * s) by (nonlinear_arith)
                requires
                    q <= p + inc,
                    s >= 0,
                    inc >= 0,
            ;
        }
        lemma_sum_monotone(m, exact_term(q), grown);
        assert(held * SCALE == st.lnrg_accounted * SCALE + delta * SCALE) by (nonlinear_arith)
            requires
                held == st.lnrg_accounted + delta,
        ;
    }
}

/// Settling a record moves its claim about and adds nothing to it; it loses
/// nothing either, unless it leaves `u128`.
pub proof fn law_settling_keeps_claim(per_share: u128, t: Record)
    requires
        gross_owed(per_share, t.shares) <= u128::MAX,
    ensures
        exact_claim(per_share, settled(per_share, t)) <= exact_claim(per_share, t),
        ({
            let owed = monus(gross_owed(per_share, t.shares), t.lnrg_debt as int);
            t.lnrg_accrued + owed <= u128::MAX ==> exact_claim(per_share, settled(per_share, t))
                == exact_claim(per_share, t)
        }),
        claim_of(per_share, settled(per_share, t)) == claim_of(per_share, t),
{
    let gross = gross_owed(per_share, t.shares);
    lemma_marks(per_share, per_share, t.shares);
    let (a, d) = (t.lnrg_accrued as int, t.lnrg_debt as int);
    let b = settled(per_share, t).lnrg_accrued as int;
    if gross >= d {
        assert(gross * SCALE >= d * SCALE) by (nonlinear_arith)
            requires
                gross >= d,
        ;
        assert((a + (gross - d)) * SCALE == a * SCALE + gross * SCALE - d * SCALE)
            by (nonlinear_arith);
        assert(b * SCALE <= (a + (gross - d)) * SCALE) by (nonlinear_arith)
            requires
                b <= a + (gross - d),
        ;
    }
}

/// What a claim is in full units is at most what it is exactly.
proof fn lemma_claim_floor(per_share: u128, t: Record)
    ensures
        0 <= claim_or_zero(per_share, t),
        claim_or_zero(per_share, t) * SCALE <= exact_claim(per_share, t),
{
    let gross = gross_owed(per_share, t.shares);
    lemma_marks(per_share, per_share, t.shares);
    let (a, d) = (t.lnrg_accrued as int, t.lnrg_debt as int);
    let owed = monus(gross, d);
    assert(0 <= a * SCALE) by (nonlinear_arith)
        requires
            a >= 0,
    ;
    assert((a + owed) * SCALE == a * SCALE + owed * SCALE) by (nonlinear_arith);
    assert(gross >= d ==> owed * SCALE == gross * SCALE - d * SCALE) by (nonlinear_arith)
        requires
            gross >= d ==> owed == gross - d,
    ;
    assert(gross < d ==> owed * SCALE == 0) by (nonlinear_arith)
        requires
            gross < d ==> owed == 0,
    ;
    let x = claim_of(per_share, t) as int;
    if gross <= u128::MAX {
        assert(x * SCALE <= (a + owed) * SCALE) by (nonlinear_arith)
            requires
                x <= a + owed,
        ;
    }
}

/// What every launch could realise together is at most the attributed LNRG less
/// the slack; where nothing is missing, at most the attributed LNRG.
pub proof fn law_claims_are_backed(st: TreasuryState)
    requires
        st.treasuries.dom().finite(),
    ensures
        sum_map(st.treasuries, claim_term(st.lnrg_per_share)) * SCALE <= st.lnrg_accounted * SCALE
            - slack(st),
        slack(st) >= 0 ==> sum_map(st.treasuries, claim_term(st.lnrg_per_share))
            <= st.lnrg_accounted,
{
    let p = st.lnrg_per_share;
    let m = st.treasuries;
    let claims = claim_term(p);
    let zero = |id: LaunchId, t: Record| 0int;
    let scaled = |id: LaunchId, t: Record| SCALE * claim_or_zero(p, t);
    assert forall|k: LaunchId| m.dom().contains(k) implies #[trigger] scaled(k, m[k]) == zero(
        k,
        m[k],
    ) + SCALE * claims(k, m[k]) by {}
    lemma_sum_linear(m, scaled, zero, claims, SCALE as int);
    assert(sum_map(m, zero) == 0) by {
        crate::sums::lemma_sum_zero(m, zero);
    }
    assert forall|k: LaunchId| m.dom().contains(k) implies #[trigger] scaled(k, m[k])
        <= exact_term(p)(k, m[k]) by {
        lemma_claim_floor(p, m[k]);
        let x = claim_or_zero(p, m[k]);
        assert(SCALE * x == x * SCALE) by (nonlinear_arith);
    }
    lemma_sum_monotone(m, scaled, exact_term(p));
    let total = sum_map(m, claims);
    assert(SCALE * total == total * SCALE) by (nonlinear_arith);
    if slack(st) >= 0 {
        assert(total <= st.lnrg_accounted) by (nonlinear_arith)
            requires
                SCALE * total <= st.lnrg_accounted * SCALE,
                SCALE > 0,
        ;
    }
}

/// A stake never takes from what backs the claims: its mark is rounded up, so the
/// new shares claim nothing that was attributed before them.
pub proof fn law_stake_keeps_backing(st: TreasuryState, launch_id: LaunchId, sight: StakeSight)
    requires
        shares_match(st),
        stake_error(st, launch_id, sight) is None,
    ensures
        slack(stake_next(st, launch_id, sight)) >= slack(st),
        ({
            let next = stake_next(st, launch_id, sight);
            claim_of(next.lnrg_per_share, next.treasuries[launch_id]) == claim_of(
                next.lnrg_per_share,
                st.treasuries[launch_id],
            )
        }),
{
    let p = harvested(st, sight.lnrg_held).lnrg_per_share;
    let m = st.treasuries;
    let t = m[launch_id];
    let after = staked_record(st, launch_id, sight);
    law_harvest_keeps_backing(st, sight.lnrg_held);
    lemma_sum_insert(m, launch_id, after, exact_term(p));
    law_settling_keeps_claim(p, t);
    lemma_marks(p, p, after.shares);
}

/// A sale takes as much from the claims as from the attributed LNRG, and a record
/// that is written back without one takes nothing.
pub proof fn law_compound_keeps_backing(
    st: TreasuryState,
    c: Compounding,
    lnrg: Balance,
    out: Balance,
    can_deposit: bool,
)
    requires
        st.treasuries.dom().finite(),
        st.treasuries.dom().contains(c.launch_id),
        gross_owed(st.lnrg_per_share, st.treasuries[c.launch_id].shares) <= u128::MAX,
        c.record == settled(st.lnrg_per_share, st.treasuries[c.launch_id]),
        lnrg <= c.record.lnrg_accrued,
        lnrg <= st.lnrg_accounted,
    ensures
        slack(with_record(st, c.launch_id, c.record)) >= slack(st),
        slack(
            with_record(
                TreasuryState { lnrg_accounted: sat_sub(st.lnrg_accounted, lnrg), ..st },
                c.launch_id,
                after_sale(st, c, lnrg, out, can_deposit).record,
            ),
        ) >= slack(st),
{
    let p = st.lnrg_per_share;
    let m = st.treasuries;
    let sold = after_sale(st, c, lnrg, out, can_deposit).record;
    law_settling_keeps_claim(p, m[c.launch_id]);
    lemma_sum_insert(m, c.launch_id, c.record, exact_term(p));
    lemma_sum_insert(m, c.launch_id, sold, exact_term(p));
    let (a, x, n) = (c.record.lnrg_accrued as int, lnrg as int, st.lnrg_accounted as int);
    assert((a - x) * SCALE == a * SCALE - x * SCALE) by (nonlinear_arith);
    assert((n - x) * SCALE == n * SCALE - x * SCALE) by (nonlinear_arith);
}

/// A retirement never takes from what backs the claims, and neither does a fee or
/// a finalization.
pub proof fn law_retire_keeps_backing(
    st: TreasuryState,
    launch_id: LaunchId,
    sight: RetireSight,
    amount: Balance,
    now: BlockNumber,
    existential_deposit: Balance,
    era: EraIndex,
    withdrawn: Balance,
)
    requires
        shares_match(st),
    ensures
        retire_error(st, launch_id, sight) is None ==> slack(retire_next(st, launch_id, sight))
            >= slack(st),
        slack(fee_next(st, launch_id, amount, now, existential_deposit)) == slack(st),
        slack(finalize_next(st, era, withdrawn)) == slack(st),
{
    let m = st.treasuries;
    let p = harvested(st, sight.lnrg_held).lnrg_per_share;
    if retire_error(st, launch_id, sight) is None {
        law_harvest_keeps_backing(st, sight.lnrg_held);
        let gone = retired_record(st, launch_id, sight);
        lemma_sum_insert(m, launch_id, gone, exact_term(p));
        law_settling_keeps_claim(p, m[launch_id]);
        assert(gone.shares * p == 0 && gone.lnrg_debt * SCALE == 0) by (nonlinear_arith)
            requires
                gone.shares == 0,
                gone.lnrg_debt == 0,
        ;
    }
    let fed = fed_record(st, launch_id, noted_amount(st, amount, existential_deposit), now);
    lemma_sum_insert(m, launch_id, fed, exact_term(st.lnrg_per_share));
    if !m.dom().contains(launch_id) {
        let q = st.lnrg_per_share;
        assert(fed.shares * q == 0 && fed.lnrg_debt * SCALE == 0 && fed.lnrg_accrued * SCALE == 0)
            by (nonlinear_arith)
            requires
                fed.shares == 0,
                fed.lnrg_debt == 0,
                fed.lnrg_accrued == 0,
        ;
    }
    let due = matured(st.retiring_queue, era);
    lemma_credit_keeps(
        m,
        due,
        due.len() as int,
        withdrawn,
        expected_of(due),
        exact_term(st.lnrg_per_share),
    );
}

/// Crediting keeps every sum that does not look at statuses or amounts to burn.
proof fn lemma_credit_keeps(
    records: Map<LaunchId, Record>,
    entries: Seq<Retirement>,
    k: int,
    withdrawn: Balance,
    expected: Balance,
    f: spec_fn(LaunchId, Record) -> int,
)
    requires
        records.dom().finite(),
        forall|id: LaunchId, t: Record, credit: Balance|
            #![trigger f(id, credited_record(t, credit))]
            f(id, credited_record(t, credit)) == f(id, t),
    ensures
        credited_records(records, entries, k, withdrawn, expected).dom().finite(),
        sum_map(credited_records(records, entries, k, withdrawn, expected), f) == sum_map(
            records,
            f,
        ),
    decreases k,
{
    if k > 0 {
        lemma_credit_keeps(records, entries, k - 1, withdrawn, expected, f);
        let before = credited_records(records, entries, k - 1, withdrawn, expected);
        let id = entries[k - 1].0;
        let credit = credit_of(entries, k - 1, withdrawn, expected);
        if before.dom().contains(id) {
            lemma_sum_insert(before, id, credited_record(before[id], credit), f);
        }
    }
}

/// Treasuries that nothing has happened to are backed.
pub proof fn law_fresh_claims_are_backed(config: TreasuryConfig, terms: Terms)
    ensures
        is_backed(fresh_treasuries(config, terms)),
{
}

/// Every claim stays backed: what all launches could realise together is at most
/// the attributed LNRG after any operation. A stake needs room in the total of the
/// shares; a compound sells no more than the claim it has settled.
pub proof fn law_claims_stay_backed(
    st: TreasuryState,
    launch_id: LaunchId,
    held: Balance,
    stake: StakeSight,
    retire: RetireSight,
    amount: Balance,
    now: BlockNumber,
    existential_deposit: Balance,
    era: EraIndex,
    withdrawn: Balance,
    c: Compounding,
    lnrg: Balance,
    out: Balance,
    can_deposit: bool,
)
    requires
        is_backed(st),
    ensures
        sum_map(st.treasuries, claim_term(st.lnrg_per_share)) <= st.lnrg_accounted,
        !harvest_fails(st, held) ==> is_backed(harvested(st, held)),
        stake_error(st, launch_id, stake) is None && st.total_shares + stake_shares(st, stake)
            <= u128::MAX ==> is_backed(stake_next(st, launch_id, stake)),
        retire_error(st, launch_id, retire) is None ==> is_backed(
            retire_next(st, launch_id, retire),
        ),
        is_backed(fee_next(st, launch_id, amount, now, existential_deposit)),
        is_backed(finalize_next(st, era, withdrawn)),
        st.treasuries.dom().contains(c.launch_id) && gross_owed(
            st.lnrg_per_share,
            st.treasuries[c.launch_id].shares,
        ) <= u128::MAX && c.record == settled(st.lnrg_per_share, st.treasuries[c.launch_id])
            && lnrg <= c.record.lnrg_accrued && lnrg <= st.lnrg_accounted ==> is_backed(
            with_record(
                TreasuryState { lnrg_accounted: sat_sub(st.lnrg_accounted, lnrg), ..st },
                c.launch_id,
                after_sale(st, c, lnrg, out, can_deposit).record,
            ),
        ),
{
    law_claims_are_backed(st);
    if !harvest_fails(st, held) {
        law_harvest_keeps_backing(st, held);
    }
    law_shares_stay_the_total(
        st,
        launch_id,
        stake,
        retire,
        amount,
        now,
        existential_deposit,
        c,
    );
    if stake_error(st, launch_id, stake) is None {
        law_stake_keeps_backing(st, launch_id, stake);
    }
    law_retire_keeps_backing(
        st,
        launch_id,
        retire,
        amount,
        now,
        existential_deposit,
        era,
        withdrawn,
    );
    let due = matured(st.retiring_queue, era);
    lemma_credit_keeps(
        st.treasuries,
        due,
        due.len() as int,
        withdrawn,
        expected_of(due),
        shares_term(),
    );
    if st.treasuries.dom().contains(c.launch_id) && gross_owed(
        st.lnrg_per_share,
        st.treasuries[c.launch_id].shares,
    ) <= u128::MAX && c.record == settled(st.lnrg_per_share, st.treasuries[c.launch_id]) && lnrg
        <= c.record.lnrg_accrued && lnrg <= st.lnrg_accounted {
        law_compound_keeps_backing(st, c, lnrg, out, can_deposit);
        let sold = after_sale(st, c, lnrg, out, can_deposit).record;
        lemma_sum_insert(st.treasuries, c.launch_id, sold, shares_term());
    }
}

/// VTRS in the vault, bonded stake aside, that the records account for.
pub open spec fn accounted_native(st: TreasuryState, existential_deposit: Balance) -> int {
    (if st.vault_funded {
        existential_deposit as int
    } else {
        0
    }) + sum_map(st.treasuries, pending_term()) + sum_map(st.treasuries, burn_term())
}

/// A fee adds to the records what reached the vault; the first one covers the
/// vault's own minimum balance as well.
pub proof fn law_fee_is_accounted(
    st: TreasuryState,
    launch_id: LaunchId,
    amount: Balance,
    now: BlockNumber,
    existential_deposit: Balance,
)
    requires
        st.treasuries.dom().finite(),
        takes_fees(st, launch_id),
        st.vault_funded || amount >= existential_deposit,
        st.treasuries.dom().contains(launch_id) ==> st.treasuries[launch_id].pending + amount
            <= u128::MAX,
    ensures
        accounted_native(
            fee_next(st, launch_id, amount, now, existential_deposit),
            existential_deposit,
        ) == accounted_native(st, existential_deposit) + amount,
{
    let fed = fed_record(st, launch_id, noted_amount(st, amount, existential_deposit), now);
    lemma_sum_insert(st.treasuries, launch_id, fed, pending_term());
    lemma_sum_insert(st.treasuries, launch_id, fed, burn_term());
}

/// A stake takes off the records exactly what it bonds, and a retirement leaves
/// their sum alone.
pub proof fn law_stake_and_retire_are_accounted(
    st: TreasuryState,
    launch_id: LaunchId,
    stake: StakeSight,
    retire: RetireSight,
    existential_deposit: Balance,
)
    requires
        st.treasuries.dom().finite(),
    ensures
        stake_error(st, launch_id, stake) is None && stake_added(stake)
            <= st.treasuries[launch_id].pending ==> accounted_native(
            stake_next(st, launch_id, stake),
            existential_deposit,
        ) == accounted_native(st, existential_deposit) - stake_added(stake),
        retire_error(st, launch_id, retire) is None && st.treasuries[launch_id].pending
            + st.treasuries[launch_id].pending_burn <= u128::MAX ==> accounted_native(
            retire_next(st, launch_id, retire),
            existential_deposit,
        ) == accounted_native(st, existential_deposit),
{
    let m = st.treasuries;
    lemma_sum_insert(m, launch_id, staked_record(st, launch_id, stake), pending_term());
    lemma_sum_insert(m, launch_id, staked_record(st, launch_id, stake), burn_term());
    lemma_sum_insert(m, launch_id, retired_record(st, launch_id, retire), pending_term());
    lemma_sum_insert(m, launch_id, retired_record(st, launch_id, retire), burn_term());
}

/// A compound changes the records by exactly what it changes the vault by: a sale
/// by what it brings less its bounty, a slice by the fall of the balance and its
/// bounty, and closing by the dust that leaves.
pub proof fn law_compound_is_accounted(
    st: TreasuryState,
    c: Compounding,
    lnrg: Balance,
    out: Balance,
    before: Balance,
    after: Balance,
    tokens: Balance,
    can_deposit: bool,
    existential_deposit: Balance,
)
    requires
        st.treasuries.dom().finite(),
    ensures
        ({
            let bounty = sale_bounty(st, c, out, can_deposit);
            bounty <= out && c.record.pending_burn + out <= u128::MAX ==> accounted_native(
                with_record(
                    st,
                    c.launch_id,
                    after_sale(st, c, lnrg, out, can_deposit).record,
                ),
                existential_deposit,
            ) == accounted_native(with_record(st, c.launch_id, c.record), existential_deposit)
                + out - bounty
        }),
        ({
            let arrived = pending_now(st, c) - c.record.pending;
            let spent = before + arrived - after;
            0 <= arrived && before + arrived <= u128::MAX && 0 <= spent <= c.record.pending_burn
                ==> accounted_native(
                with_record(
                    st,
                    c.launch_id,
                    after_burn(st, c, before, after, tokens, can_deposit).record,
                ),
                existential_deposit,
            ) == accounted_native(with_record(st, c.launch_id, c.record), existential_deposit) + (
            after - before) - slice_bounty(st, c, spent_of(st, c, before, after), can_deposit)
        }),
        accounted_native(
            with_record(st, c.launch_id, finished_record(c, existential_deposit)),
            existential_deposit,
        ) == accounted_native(with_record(st, c.launch_id, c.record), existential_deposit) - (
        if closes(c, existential_deposit) {
            c.record.pending_burn as int
        } else {
            0
        }),
{
    let m = st.treasuries;
    let id = c.launch_id;
    let sold = after_sale(st, c, lnrg, out, can_deposit).record;
    let burned = after_burn(st, c, before, after, tokens, can_deposit).record;
    let done = finished_record(c, existential_deposit);
    lemma_sum_insert(m, id, c.record, pending_term());
    lemma_sum_insert(m, id, c.record, burn_term());
    lemma_sum_insert(m, id, sold, pending_term());
    lemma_sum_insert(m, id, sold, burn_term());
    lemma_sum_insert(m, id, burned, pending_term());
    lemma_sum_insert(m, id, burned, burn_term());
    lemma_sum_insert(m, id, done, pending_term());
    lemma_sum_insert(m, id, done, burn_term());
    let share = bounty_of(st, spent_of(st, c, before, after) as int);
    let spent = spent_of(st, c, before, after);
    assert(share >= 0) by {
        let n = spent * st.terms.keeper_bounty_bps;
        assert(n >= 0) by (nonlinear_arith)
            requires
                n == spent * st.terms.keeper_bounty_bps,
        ;
        lemma_floor(n, BPS as int);
    }
}

/// A compound from end to end, with a sale and with a slice that brings `fed` back
/// in fees: the claim falls by what was sold, what waits to be burned grows by the
/// proceeds and falls by what was spent and by both bounties, and nothing else of
/// the launch changes but its fees and the block of its last slice.
pub proof fn law_compound_end_to_end(
    st: TreasuryState,
    caller: AccountId,
    launch_id: LaunchId,
    held: Balance,
    now: BlockNumber,
    lnrg: Balance,
    out: Balance,
    before: Balance,
    after: Balance,
    fed: Balance,
    tokens: Balance,
    can_deposit: bool,
)
    requires
        begin_error(st, launch_id, held) is None,
        terms_ok(st.terms),
        ({
            let t = st.treasuries[launch_id];
            let claim = claim_of(harvested(st, held).lnrg_per_share, t);
            &&& lnrg <= claim
            &&& t.pending_burn + out <= u128::MAX
            &&& t.pending + fed <= u128::MAX
            &&& after <= before + fed <= u128::MAX
            &&& (before + fed - after) + sale_bounty(
                harvested(st, held),
                begun(st, caller, launch_id, held, now),
                out,
                can_deposit,
            ) <= t.pending_burn + out
        }),
    ensures
        ({
            let t = st.treasuries[launch_id];
            let h = harvested(st, held);
            let begun_c = begun(st, caller, launch_id, held, now);
            let sold = after_sale(h, begun_c, lnrg, out, can_deposit);
            // The slice's own fees arrive in the stored record.
            let paid = with_record(
                TreasuryState { lnrg_accounted: sat_sub(h.lnrg_accounted, lnrg), ..h },
                launch_id,
                Record { pending: (t.pending + fed) as u128, ..t },
            );
            let done = after_burn(paid, sold, before, after, tokens, can_deposit);
            let spent = before + fed - after;
            &&& done.burned_in == spent
            &&& done.realised == out
            &&& done.lnrg_sold == lnrg
            &&& done.tokens_burned == tokens
            &&& done.bounty <= bounty_of(st, out as int) + bounty_of(st, spent)
            &&& done.record == (Record {
                pending: (t.pending + fed) as u128,
                lnrg_accrued: (claim_of(h.lnrg_per_share, t) - lnrg) as u128,
                lnrg_debt: max_int(gross_owed(h.lnrg_per_share, t.shares), t.lnrg_debt as int)
                    as u128,
                pending_burn: (t.pending_burn + out - spent - done.bounty) as u128,
                last_burn_block: now,
                ..t
            })
            &&& spent + done.bounty <= t.pending_burn + out
        }),
{
    let t = st.treasuries[launch_id];
    let h = harvested(st, held);
    let c = begun(st, caller, launch_id, held, now);
    let sold = after_sale(h, c, lnrg, out, can_deposit);
    law_bounty_is_bounded(st, out);
    law_bounty_is_bounded(st, (before + fed - after) as u128);
    assert(bounty_of(h, out as int) == bounty_of(st, out as int));
}

/// A finalization adds to the records exactly what came back, as long as they have
/// room and the matured amounts fit in `u128` together, and leaves the shares
/// alone.
pub proof fn law_finalize_is_accounted(
    st: TreasuryState,
    launch_id: LaunchId,
    era: EraIndex,
    withdrawn: Balance,
    existential_deposit: Balance,
)
    requires
        st.treasuries.dom().finite(),
        queue_is_sound(st),
        finalize_error(st, launch_id, era) is None,
        ({
            let due = matured(st.retiring_queue, era);
            amount_before(due, due.len() as int) <= u128::MAX
        }),
        sum_map(st.treasuries, burn_term()) + withdrawn <= u128::MAX,
    ensures
        accounted_native(finalize_next(st, era, withdrawn), existential_deposit)
            == accounted_native(st, existential_deposit) + withdrawn,
        shares_match(st) ==> shares_match(finalize_next(st, era, withdrawn)),
{
    let due = matured(st.retiring_queue, era);
    let n = due.len() as int;
    lemma_filtered(st.retiring_queue, |x: Retirement| x.1 <= era);
    assert forall|i: int| 0 <= i < due.len() implies st.treasuries.dom().contains(
        (#[trigger] due[i]).0,
    ) by {
        let j = choose|j: int|
            0 <= j < st.retiring_queue.len() && st.retiring_queue[j] == due[i];
        assert(entry_holds(st.treasuries, st.retiring_queue[j]));
    }
    lemma_expected_exact(due);
    law_finalize_credits_everything(due, withdrawn);
    lemma_credit_sums(st.treasuries, due, n, withdrawn, expected_of(due));
}

proof fn lemma_credit_sums(
    records: Map<LaunchId, Record>,
    entries: Seq<Retirement>,
    k: int,
    withdrawn: Balance,
    expected: Balance,
)
    requires
        records.dom().finite(),
        0 <= k <= entries.len(),
        forall|i: int|
            0 <= i < entries.len() ==> records.dom().contains((#[trigger] entries[i]).0),
        sum_map(records, burn_term()) + credit_total(entries, k, withdrawn, expected) <= u128::MAX,
    ensures
        ({
            let after = credited_records(records, entries, k, withdrawn, expected);
            &&& after.dom() == records.dom()
            &&& sum_map(after, burn_term()) == sum_map(records, burn_term()) + credit_total(
                entries,
                k,
                withdrawn,
                expected,
            )
            &&& sum_map(after, pending_term()) == sum_map(records, pending_term())
            &&& sum_map(after, shares_term()) == sum_map(records, shares_term())
        }),
    decreases k,
{
    if k > 0 {
        lemma_credit_sums(records, entries, k - 1, withdrawn, expected);
        let before = credited_records(records, entries, k - 1, withdrawn, expected);
        let id = entries[k - 1].0;
        assert(records.dom().contains(entries[k - 1].0));
        let credit = credit_of(entries, k - 1, withdrawn, expected);
        let f = burn_term();
        assert forall|x: LaunchId| before.dom().contains(x) implies #[trigger] f(x, before[x])
            >= 0 by {}
        lemma_sum_bounds(before, f);
        assert(f(id, before[id]) <= sum_map(before, f));
        let t = credited_record(before[id], credit);
        lemma_sum_insert(before, id, t, burn_term());
        lemma_sum_insert(before, id, t, pending_term());
        lemma_sum_insert(before, id, t, shares_term());
        assert(before.insert(id, t).dom() =~= records.dom());
    }
}

/// Native funds only ever leave the vault for a keeper's bounty, within its share
/// of what was realised or spent, or as the dust of a treasury that closes.
pub proof fn law_no_other_exit(
    st: TreasuryState,
    launch_id: LaunchId,
    stake: StakeSight,
    retire: RetireSight,
    entries: Seq<Retirement>,
    c: Compounding,
    out: Balance,
    before: Balance,
    after: Balance,
    tokens: Balance,
    can_deposit: bool,
    existential_deposit: Balance,
    withdrawn: Balance,
    i: int,
)
    ensures
        0 <= i < stake_effects(st, launch_id, stake).len() ==> !(stake_effects(
            st,
            launch_id,
            stake,
        )[i] is Pay),
        0 <= i < retire_effects(st, launch_id, retire).len() ==> !(retire_effects(
            st,
            launch_id,
            retire,
        )[i] is Pay),
        0 <= i < entries.len() ==> !(credit_events(entries, withdrawn, expected_of(entries))[i] is Pay),
        ({
            let effects = bounty_effects(c, sale_bounty(st, c, out, can_deposit));
            0 <= i < effects.len() ==> (effects[i] matches Effect::Pay { to, amount, .. } ==> to
                == c.caller && amount == bounty_of(st, out as int) as u128)
        }),
        ({
            let effects = burn_effects(st, c, before, after, tokens, can_deposit);
            0 <= i < effects.len() ==> (effects[i] matches Effect::Pay { to, amount, .. } ==> to
                == c.caller && amount == bounty_of(
                st,
                spent_of(st, c, before, after) as int,
            ) as u128)
        }),
        ({
            let effects = finish_effects(st, c, existential_deposit);
            0 <= i < effects.len() ==> (effects[i] matches Effect::Pay { to, amount, .. } ==> to
                == st.config.protocol_recipient && amount < existential_deposit)
        }),
{
}

/// A bounty within the terms' bounds is at most two percent.
pub proof fn law_bounty_is_bounded(st: TreasuryState, amount: Balance)
    requires
        terms_ok(st.terms),
    ensures
        0 <= bounty_of(st, amount as int) <= amount,
        bounty_of(st, amount as int) * 50 <= amount,
{
    let b = st.terms.keeper_bounty_bps;
    let n = amount * b;
    assert(0 <= n && n <= amount * 200) by (nonlinear_arith)
        requires
            n == amount * b,
            0 <= b <= 200,
    ;
    lemma_floor(n, BPS as int);
}

/// The vault is none of the exchange's accounts, neither an escrow nor a pool's,
/// as long as the two are derived from different ids.
pub proof fn law_vault_is_apart(config: TreasuryConfig, solver_id: u64, pair: AssetPair)
    requires
        config.pallet_id@ != PALLET_ID@,
    ensures
        vault_of(config) != fee_escrow(),
        vault_of(config) != intent_escrow(),
        vault_of(config) != protocol_treasury(),
        vault_of(config) != solver_escrow(solver_id),
        vault_of(config) != pool_account(pair),
{
    lemma_vault_is_apart(config, fee_escrow_seed());
    lemma_vault_is_apart(config, intent_escrow_seed());
    lemma_vault_is_apart(config, protocol_treasury_seed());
    lemma_vault_is_apart(config, solver_escrow_seed(solver_id));
    lemma_vault_is_apart(config, pair_seed(pair));
}

/// No seed leads the exchange to the vault.
proof fn lemma_vault_is_apart(config: TreasuryConfig, seed: Seq<u8>)
    requires
        config.pallet_id@ != PALLET_ID@,
    ensures
        vault_of(config) != account_with(dex_account_bytes(seed)),
{
    let v = sub_account_bytes(config.pallet_id@, Seq::empty());
    let d = dex_account_bytes(seed);
    lemma_account_bytes(seed);
    lemma_some_account(v);
    assert(vault_of(config).bytes@ == v);
    if v == d {
        assert(config.pallet_id@ =~= PALLET_ID@) by {
            assert forall|i: int| 0 <= i < 8 implies config.pallet_id@[i] == PALLET_ID@[i] by {
                assert(v[4 + i] == config.pallet_id@[i]);
                assert(d[4 + i] == PALLET_ID@[i]);
            }
        }
    }
}

/// The launch has a treasury that is not active.
pub open spec fn has_left(records: Map<LaunchId, Record>, id: LaunchId) -> bool {
    records.dom().contains(id) && records[id].status != TreasuryStatus::Active
}

/// A treasury that has left active life never comes back to it, and no record
/// ever goes away.
pub proof fn law_retired_stays_retired(
    st: TreasuryState,
    id: LaunchId,
    launch_id: LaunchId,
    stake: StakeSight,
    retire: RetireSight,
    amount: Balance,
    now: BlockNumber,
    existential_deposit: Balance,
    c: Compounding,
    era: EraIndex,
    withdrawn: Balance,
)
    requires
        has_left(st.treasuries, id),
    ensures
        stake_error(st, launch_id, stake) is None ==> has_left(
            stake_next(st, launch_id, stake).treasuries,
            id,
        ),
        retire_error(st, launch_id, retire) is None ==> has_left(
            retire_next(st, launch_id, retire).treasuries,
            id,
        ),
        has_left(fee_next(st, launch_id, amount, now, existential_deposit).treasuries, id),
        fee_next(st, id, amount, now, existential_deposit).treasuries[id] == st.treasuries[id],
        c.record.status == st.treasuries[c.launch_id].status ==> has_left(
            with_record(st, c.launch_id, finished_record(c, existential_deposit)).treasuries,
            id,
        ),
        has_left(finalize_next(st, era, withdrawn).treasuries, id),
{
    let due = matured(st.retiring_queue, era);
    lemma_credit_leaves(
        st.treasuries,
        due,
        due.len() as int,
        withdrawn,
        expected_of(due),
        id,
    );
}

proof fn lemma_credit_leaves(
    records: Map<LaunchId, Record>,
    entries: Seq<Retirement>,
    k: int,
    withdrawn: Balance,
    expected: Balance,
    id: LaunchId,
)
    requires
        has_left(records, id),
    ensures
        has_left(credited_records(records, entries, k, withdrawn, expected), id),
    decreases k,
{
    if k > 0 {
        lemma_credit_leaves(records, entries, k - 1, withdrawn, expected, id);
    }
}

} // verus!
