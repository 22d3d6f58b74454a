//! What holds of the solver marketplace across operations.

use super::flows::{inflow, lemma_inflow_concat, lemma_inflow_one};
use super::market::{
    cancel_error, commit_error, commit_next, deregister_error, deregister_next, intent_ended,
    is_active_solver, payout, refund_error, register_next, settle_effects, settle_error, settle_fee,
    settle_net, settle_next, settle_payouts, settle_profit, settling_swap, slash_error, slash_next,
    submit_error, submit_next, IntentRequest,
};
use super::pool_laws::lemma_swap_inflow;
use super::state::{
    dex_account_bytes, fee_escrow, fee_escrow_seed, intent_escrow, intent_escrow_seed,
    protocol_treasury, protocol_treasury_seed, solver_escrow, solver_escrow_seed, Commitment,
    DexIntent, DexState, Solver,
};
use super::swap::{lemma_quote_ranges, quote_of, requested_pool, swap_effects, SwapContext};
use super::types::PALLET_ID;
use crate::accounts::{account_with, lemma_some_account};
use crate::primitives::{AccountId, AssetKind, Balance, BlockNumber};
use crate::settlement::{law_split_conserves, IntentStatus, SOLVER_PROFIT_FEE_BPS};
use crate::sums::{
    lemma_sum_bounds, lemma_sum_insert, lemma_sum_remove, lemma_sum_zero, sum_map,
};
use vstd::bytes::{
    lemma_auto_spec_u64_to_from_le_bytes, spec_u64_from_le_bytes, spec_u64_to_le_bytes,
};
use vstd::prelude::*;

verus! {

/// The intent is still to be filled.
pub open spec fn is_live(status: IntentStatus) -> bool {
    status == IntentStatus::Open || status == IntentStatus::Committed
}

/// Whether a commitment is one of `solver_id`'s.
pub open spec fn commitments_by(solver_id: u64) -> spec_fn(u64, Commitment) -> int {
    |id: u64, c: Commitment|
        if c.solver_id == solver_id {
            1
        } else {
            0
        }
}

/// How many intents `solver_id` is committed to.
pub open spec fn commitment_count(st: DexState, solver_id: u64) -> int {
    sum_map(st.fill_commitments, commitments_by(solver_id))
}

/// Every intent is filed under its id, below the next one.
pub open spec fn intents_are_filed(st: DexState) -> bool {
    forall|id: u64| #[trigger]
        st.intents.dom().contains(id) ==> st.intents[id].id == id && id < st.next_intent_id
}

/// The escrow holds an intent's input exactly while it is live.
pub open spec fn escrow_follows_intents(st: DexState) -> bool {
    &&& forall|id: u64| #[trigger]
        st.intent_escrow_balances.dom().contains(id) <==> st.intents.dom().contains(id) && is_live(
            st.intents[id].status,
        )
    &&& forall|id: u64| #[trigger]
        st.intent_escrow_balances.dom().contains(id) ==> st.intent_escrow_balances[id] == (
            st.intents[id].token_in,
            st.intents[id].amount_in,
        )
}

/// An intent has a commitment exactly while it is committed, for no less than it
/// asks, by a solver that is on file.
pub open spec fn commitments_follow_intents(st: DexState) -> bool {
    &&& st.fill_commitments.dom().finite()
    &&& forall|id: u64| #[trigger]
        st.fill_commitments.dom().contains(id) <==> st.intents.dom().contains(id)
            && st.intents[id].status == IntentStatus::Committed
    &&& forall|id: u64| #[trigger]
        st.fill_commitments.dom().contains(id) ==> {
            let c = st.fill_commitments[id];
            &&& c.intent_id == id
            &&& c.committed_amount_out >= st.intents[id].min_amount_out
            &&& st.solvers.dom().contains(c.solver_id)
            &&& st.solvers[c.solver_id].account == c.solver_account
        }
}

/// Every solver is filed under its id, below the next one, and counts its
/// commitments; and every account in the index is that of its solver.
pub open spec fn solvers_are_filed(st: DexState) -> bool {
    &&& forall|s: u64| #[trigger]
        st.solvers.dom().contains(s) ==> {
            &&& st.solvers[s].id == s && s < st.next_solver_id
            &&& st.solvers[s].active_commitments == commitment_count(st, s)
        }
    &&& forall|a: AccountId| #[trigger]
        st.solver_account_to_id.dom().contains(a) ==> {
            let s = st.solver_account_to_id[a];
            st.solvers.dom().contains(s) && st.solvers[s].account == a
        }
}

/// The marketplace's records agree with each other.
pub open spec fn market_is_sound(st: DexState) -> bool {
    &&& intents_are_filed(st)
    &&& escrow_follows_intents(st)
    &&& commitments_follow_intents(st)
    &&& solvers_are_filed(st)
}

/// A marketplace that nothing has happened to is sound.
pub proof fn law_fresh_market_is_sound(config: super::types::Config)
    ensures
        market_is_sound(super::state::fresh_state(config)),
{
}

/// Registering keeps the marketplace sound while ids last.
pub proof fn law_register_keeps_sound(st: DexState, who: AccountId, now: BlockNumber)
    requires
        market_is_sound(st),
        !is_active_solver(st, who),
        st.next_solver_id < u64::MAX,
    ensures
        market_is_sound(register_next(st, who, now)),
{
    let next = register_next(st, who, now);
    let fresh = st.next_solver_id;
    assert(commitment_count(st, fresh) == 0) by {
        let f = commitments_by(fresh);
        assert forall|id: u64| st.fill_commitments.dom().contains(id) implies #[trigger] f(
            id,
            st.fill_commitments[id],
        ) == 0 by {
            assert(st.solvers.dom().contains(st.fill_commitments[id].solver_id));
        }
        lemma_sum_zero(st.fill_commitments, f);
    }
    assert forall|s: u64| #[trigger] next.solvers.dom().contains(s) implies next.solvers[s].id == s
        && s < next.next_solver_id && next.solvers[s].active_commitments == commitment_count(
        next,
        s,
    ) by {
        if s != fresh {
            assert(st.solvers.dom().contains(s));
        }
    }
    assert forall|id: u64| #[trigger] next.fill_commitments.dom().contains(id) implies {
        let c = next.fill_commitments[id];
        &&& c.intent_id == id
        &&& c.committed_amount_out >= next.intents[id].min_amount_out
        &&& next.solvers.dom().contains(c.solver_id)
        &&& next.solvers[c.solver_id].account == c.solver_account
    } by {
        assert(st.fill_commitments.dom().contains(id));
        assert(st.solvers.dom().contains(st.fill_commitments[id].solver_id));
    }
    assert forall|a: AccountId| #[trigger] next.solver_account_to_id.dom().contains(a) implies {
        let s = next.solver_account_to_id[a];
        next.solvers.dom().contains(s) && next.solvers[s].account == a
    } by {
        if a != who {
            assert(st.solver_account_to_id.dom().contains(a));
            assert(st.solvers.dom().contains(st.solver_account_to_id[a]));
        }
    }
}

/// Deregistering keeps the marketplace sound.
pub proof fn law_deregister_keeps_sound(st: DexState, who: AccountId)
    requires
        market_is_sound(st),
        deregister_error(st, who) is None,
    ensures
        market_is_sound(deregister_next(st, who)),
{
    let id = st.solver_account_to_id[who];
    let s = st.solvers[id];
    lemma_same_solver_account(
        st,
        DexState {
            solvers: st.solvers.insert(id, Solver { active: false, bond: 0, ..s }),
            ..st
        },
        id,
    );
}

/// Rewriting one solver's record with the same id, account and count keeps the
/// marketplace sound.
proof fn lemma_same_solver_account(st: DexState, next: DexState, id: u64)
    requires
        market_is_sound(st),
        st.solvers.dom().contains(id),
        next == (DexState { solvers: next.solvers, ..st }),
        next.solvers == st.solvers.insert(id, next.solvers[id]),
        next.solvers[id].id == id,
        next.solvers[id].account == st.solvers[id].account,
        next.solvers[id].active_commitments == st.solvers[id].active_commitments,
    ensures
        market_is_sound(next),
{
    assert forall|s: u64| #[trigger] next.solvers.dom().contains(s) implies next.solvers[s].id == s
        && s < next.next_solver_id && next.solvers[s].active_commitments == commitment_count(
        next,
        s,
    ) by {
        assert(st.solvers.dom().contains(s));
    }
    assert forall|k: u64| #[trigger] next.fill_commitments.dom().contains(k) implies {
        let c = next.fill_commitments[k];
        &&& c.intent_id == k
        &&& c.committed_amount_out >= next.intents[k].min_amount_out
        &&& next.solvers.dom().contains(c.solver_id)
        &&& next.solvers[c.solver_id].account == c.solver_account
    } by {
        assert(st.fill_commitments.dom().contains(k));
    }
    assert forall|a: AccountId| #[trigger] next.solver_account_to_id.dom().contains(a) implies {
        let s = next.solver_account_to_id[a];
        next.solvers.dom().contains(s) && next.solvers[s].account == a
    } by {
        assert(st.solver_account_to_id.dom().contains(a));
    }
}

/// Submitting keeps the marketplace sound while ids last.
pub proof fn law_submit_keeps_sound(st: DexState, req: IntentRequest, now: BlockNumber)
    requires
        market_is_sound(st),
        submit_error(req, now) is None,
        st.next_intent_id < u64::MAX,
    ensures
        market_is_sound(submit_next(st, req, now)),
        !st.intents.dom().contains(st.next_intent_id),
{
    let next = submit_next(st, req, now);
    let fresh = st.next_intent_id;
    assert(!st.intents.dom().contains(fresh));
    assert(!st.fill_commitments.dom().contains(fresh));
    assert forall|id: u64| #[trigger] next.intent_escrow_balances.dom().contains(id)
        <==> next.intents.dom().contains(id) && is_live(next.intents[id].status) by {
        if id != fresh {
            assert(st.intent_escrow_balances.dom().contains(id) <==> st.intents.dom().contains(id)
                && is_live(st.intents[id].status));
        }
    }
    assert forall|id: u64| #[trigger] next.intent_escrow_balances.dom().contains(id) implies next
        .intent_escrow_balances[id] == (next.intents[id].token_in, next.intents[id].amount_in) by {
        if id != fresh {
            assert(st.intent_escrow_balances.dom().contains(id));
        }
    }
    assert forall|id: u64| #[trigger] next.fill_commitments.dom().contains(id)
        <==> next.intents.dom().contains(id) && next.intents[id].status
        == IntentStatus::Committed by {
        if id != fresh {
            assert(st.fill_commitments.dom().contains(id) <==> st.intents.dom().contains(id)
                && st.intents[id].status == IntentStatus::Committed);
        }
    }
    assert forall|s: u64| #[trigger] next.solvers.dom().contains(s) implies next.solvers[s].id == s
        && s < next.next_solver_id && next.solvers[s].active_commitments == commitment_count(
        next,
        s,
    ) by {
        assert(st.solvers.dom().contains(s));
    }
}

/// Ending an open intent keeps the marketplace sound.
proof fn lemma_end_open(st: DexState, id: u64, status: IntentStatus)
    requires
        market_is_sound(st),
        st.intents.dom().contains(id),
        st.intents[id].status == IntentStatus::Open,
        !is_live(status),
    ensures
        market_is_sound(intent_ended(st, id, status)),
{
    let next = intent_ended(st, id, status);
    assert(!st.fill_commitments.dom().contains(id));
    assert forall|k: u64| #[trigger] next.intent_escrow_balances.dom().contains(k)
        <==> next.intents.dom().contains(k) && is_live(next.intents[k].status) by {
        assert(st.intent_escrow_balances.dom().contains(k) <==> st.intents.dom().contains(k)
            && is_live(st.intents[k].status));
    }
    assert forall|k: u64| #[trigger] next.intent_escrow_balances.dom().contains(k) implies next
        .intent_escrow_balances[k] == (next.intents[k].token_in, next.intents[k].amount_in) by {
        assert(st.intent_escrow_balances.dom().contains(k));
    }
    assert forall|k: u64| #[trigger] next.fill_commitments.dom().contains(k)
        <==> next.intents.dom().contains(k) && next.intents[k].status
        == IntentStatus::Committed by {
        assert(st.fill_commitments.dom().contains(k) <==> st.intents.dom().contains(k)
            && st.intents[k].status == IntentStatus::Committed);
    }
    assert forall|s: u64| #[trigger] next.solvers.dom().contains(s) implies next.solvers[s].id == s
        && s < next.next_solver_id && next.solvers[s].active_commitments == commitment_count(
        next,
        s,
    ) by {
        assert(st.solvers.dom().contains(s));
    }
}

/// Cancelling and refunding keep the marketplace sound.
pub proof fn law_owner_exit_keeps_sound(st: DexState, who: AccountId, id: u64, now: BlockNumber)
    requires
        market_is_sound(st),
    ensures
        cancel_error(st, who, id) is None ==> market_is_sound(
            intent_ended(st, id, IntentStatus::Cancelled),
        ),
        refund_error(st, who, id, now) is None ==> market_is_sound(
            intent_ended(st, id, IntentStatus::Expired),
        ),
{
    if cancel_error(st, who, id) is None {
        lemma_end_open(st, id, IntentStatus::Cancelled);
    }
    if refund_error(st, who, id, now) is None {
        lemma_end_open(st, id, IntentStatus::Expired);
    }
}

/// A bid keeps the marketplace sound while the bidder's count has room. A solver
/// that raises its own bid keeps its count, and one that is displaced loses one.
pub proof fn law_commit_keeps_sound(
    st: DexState,
    who: AccountId,
    id: u64,
    committed: Balance,
    now: BlockNumber,
)
    requires
        market_is_sound(st),
        commit_error(st, who, id, committed, now) is None,
        st.solvers[st.solver_account_to_id[who]].active_commitments < u32::MAX,
    ensures
        market_is_sound(commit_next(st, who, id, committed, now)),
{
    let next = commit_next(st, who, id, committed, now);
    let mine = st.solver_account_to_id[who];
    let c = next.fill_commitments[id];
    assert(st.solver_account_to_id.dom().contains(who));
    assert(st.solvers.dom().contains(mine) && st.solvers[mine].account == who);
    assert(st.fill_commitments.dom().contains(id) <==> st.intents.dom().contains(id)
        && st.intents[id].status == IntentStatus::Committed);
    assert(st.intent_escrow_balances.dom().contains(id) <==> st.intents.dom().contains(id)
        && is_live(st.intents[id].status));
    assert forall|s: u64| #[trigger] next.solvers.dom().contains(s) implies next.solvers[s].id == s
        && s < next.next_solver_id && next.solvers[s].active_commitments == commitment_count(
        next,
        s,
    ) by {
        assert(st.solvers.dom().contains(s));
        lemma_sum_insert(st.fill_commitments, id, c, commitments_by(s));
        if st.fill_commitments.dom().contains(id) {
            let prior = st.fill_commitments[id];
            assert(st.solvers.dom().contains(prior.solver_id));
            lemma_count_positive(st, id);
        }
    }
    assert(next.fill_commitments.dom().finite()) by {
        lemma_sum_insert(st.fill_commitments, id, c, commitments_by(mine));
    }
    assert forall|k: u64| #[trigger] next.fill_commitments.dom().contains(k)
        <==> next.intents.dom().contains(k) && next.intents[k].status
        == IntentStatus::Committed by {
        if k != id {
            assert(st.fill_commitments.dom().contains(k) <==> st.intents.dom().contains(k)
                && st.intents[k].status == IntentStatus::Committed);
        }
    }
    assert forall|k: u64| #[trigger] next.fill_commitments.dom().contains(k) implies {
        let c = next.fill_commitments[k];
        &&& c.intent_id == k
        &&& c.committed_amount_out >= next.intents[k].min_amount_out
        &&& next.solvers.dom().contains(c.solver_id)
        &&& next.solvers[c.solver_id].account == c.solver_account
    } by {
        if k != id {
            assert(st.fill_commitments.dom().contains(k));
        }
    }
    assert forall|k: u64| #[trigger] next.intent_escrow_balances.dom().contains(k)
        <==> next.intents.dom().contains(k) && is_live(next.intents[k].status) by {
        assert(st.intent_escrow_balances.dom().contains(k) <==> st.intents.dom().contains(k)
            && is_live(st.intents[k].status));
    }
    assert forall|k: u64| #[trigger] next.intent_escrow_balances.dom().contains(k) implies next
        .intent_escrow_balances[k] == (next.intents[k].token_in, next.intents[k].amount_in) by {
        assert(st.intent_escrow_balances.dom().contains(k));
    }
    assert forall|a: AccountId| #[trigger] next.solver_account_to_id.dom().contains(a) implies {
        let s = next.solver_account_to_id[a];
        next.solvers.dom().contains(s) && next.solvers[s].account == a
    } by {
        assert(st.solver_account_to_id.dom().contains(a));
    }
}

/// A solver that is committed to an intent counts at least one.
proof fn lemma_count_positive(st: DexState, id: u64)
    requires
        market_is_sound(st),
        st.fill_commitments.dom().contains(id),
    ensures
        commitment_count(st, st.fill_commitments[id].solver_id) >= 1,
{
    let m = st.fill_commitments;
    let f = commitments_by(m[id].solver_id);
    assert forall|k: u64| m.dom().contains(k) implies #[trigger] f(k, m[k]) >= 0 by {}
    lemma_sum_bounds(m, f);
    assert(f(id, m[id]) == 1);
}

/// Ending a committed intent and taking its commitment off its solver keeps the
/// marketplace sound.
proof fn lemma_end_committed(st: DexState, next: DexState, id: u64, status: IntentStatus)
    requires
        market_is_sound(st),
        st.fill_commitments.dom().contains(id),
        !is_live(status),
        next.intents == st.intents.insert(id, DexIntent { status, ..st.intents[id] }),
        next.intent_escrow_balances == st.intent_escrow_balances.remove(id),
        next.fill_commitments == st.fill_commitments.remove(id),
        next.solver_account_to_id == st.solver_account_to_id,
        next.next_intent_id == st.next_intent_id,
        next.next_solver_id == st.next_solver_id,
        ({
            let s = st.fill_commitments[id].solver_id;
            &&& next.solvers == st.solvers.insert(s, next.solvers[s])
            &&& next.solvers[s].id == s
            &&& next.solvers[s].account == st.solvers[s].account
            &&& next.solvers[s].active_commitments == st.solvers[s].active_commitments - 1
        }),
    ensures
        market_is_sound(next),
{
    let filler = st.fill_commitments[id].solver_id;
    assert(st.solvers.dom().contains(filler));
    assert forall|s: u64| #[trigger] next.solvers.dom().contains(s) implies next.solvers[s].id == s
        && s < next.next_solver_id && next.solvers[s].active_commitments == commitment_count(
        next,
        s,
    ) by {
        assert(st.solvers.dom().contains(s));
        lemma_sum_remove(st.fill_commitments, id, commitments_by(s));
    }
    lemma_sum_remove(st.fill_commitments, id, commitments_by(filler));
    assert forall|k: u64| #[trigger] next.fill_commitments.dom().contains(k)
        <==> next.intents.dom().contains(k) && next.intents[k].status
        == IntentStatus::Committed by {
        assert(st.fill_commitments.dom().contains(k) <==> st.intents.dom().contains(k)
            && st.intents[k].status == IntentStatus::Committed);
    }
    assert forall|k: u64| #[trigger] next.fill_commitments.dom().contains(k) implies {
        let c = next.fill_commitments[k];
        &&& c.intent_id == k
        &&& c.committed_amount_out >= next.intents[k].min_amount_out
        &&& next.solvers.dom().contains(c.solver_id)
        &&& next.solvers[c.solver_id].account == c.solver_account
    } by {
        assert(st.fill_commitments.dom().contains(k));
    }
    assert forall|k: u64| #[trigger] next.intent_escrow_balances.dom().contains(k)
        <==> next.intents.dom().contains(k) && is_live(next.intents[k].status) by {
        assert(st.intent_escrow_balances.dom().contains(k) <==> st.intents.dom().contains(k)
            && is_live(st.intents[k].status));
    }
    assert forall|k: u64| #[trigger] next.intent_escrow_balances.dom().contains(k) implies next
        .intent_escrow_balances[k] == (next.intents[k].token_in, next.intents[k].amount_in) by {
        assert(st.intent_escrow_balances.dom().contains(k));
    }
    assert forall|k: u64| #[trigger] next.intents.dom().contains(k) implies next.intents[k].id == k
        && k < next.next_intent_id by {
        assert(st.intents.dom().contains(k)) by {
            assert(st.fill_commitments.dom().contains(id));
        }
    }
    assert forall|a: AccountId| #[trigger] next.solver_account_to_id.dom().contains(a) implies {
        let s = next.solver_account_to_id[a];
        next.solvers.dom().contains(s) && next.solvers[s].account == a
    } by {
        assert(st.solver_account_to_id.dom().contains(a));
    }
}

/// Settling keeps the marketplace sound.
pub proof fn law_settle_keeps_sound(st: DexState, who: AccountId, id: u64, ctx: SwapContext)
    requires
        market_is_sound(st),
        settle_error(st, who, id, ctx) is None,
    ensures
        market_is_sound(settle_next(st, id, ctx)),
{
    let s = st.fill_commitments[id].solver_id;
    assert(st.fill_commitments.dom().contains(id));
    assert(st.solvers.dom().contains(s));
    lemma_count_positive(st, id);
    lemma_end_committed(st, settle_next(st, id, ctx), id, IntentStatus::Settled);
}

/// Slashing keeps the marketplace sound.
pub proof fn law_slash_keeps_sound(st: DexState, id: u64, now: BlockNumber)
    requires
        market_is_sound(st),
        slash_error(st, id, now) is None,
    ensures
        market_is_sound(slash_next(st, id)),
{
    let s = st.fill_commitments[id].solver_id;
    assert(st.fill_commitments.dom().contains(id));
    assert(st.solvers.dom().contains(s));
    lemma_count_positive(st, id);
    lemma_end_committed(st, slash_next(st, id), id, IntentStatus::Expired);
}

/// A solver without commitments is never the one of a commitment, so a bond that
/// is handed back backs nothing.
pub proof fn law_deregistered_backs_nothing(st: DexState, who: AccountId, id: u64)
    requires
        market_is_sound(st),
        deregister_error(st, who) is None,
        st.fill_commitments.dom().contains(id),
    ensures
        st.fill_commitments[id].solver_id != st.solver_account_to_id[who],
{
    lemma_count_positive(st, id);
    assert(st.solvers.dom().contains(st.solver_account_to_id[who]));
}

/// An intent that has ended stays as it is, whatever happens to the marketplace.
pub proof fn law_ended_is_final(
    st: DexState,
    ended: u64,
    who: AccountId,
    id: u64,
    req: IntentRequest,
    committed: Balance,
    ctx: SwapContext,
)
    requires
        market_is_sound(st),
        st.next_intent_id < u64::MAX,
        st.intents.dom().contains(ended),
        !is_live(st.intents[ended].status),
    ensures
        submit_next(st, req, ctx.now).intents[ended] == st.intents[ended],
        cancel_error(st, who, id) is None ==> intent_ended(
            st,
            id,
            IntentStatus::Cancelled,
        ).intents[ended] == st.intents[ended],
        refund_error(st, who, id, ctx.now) is None ==> intent_ended(
            st,
            id,
            IntentStatus::Expired,
        ).intents[ended] == st.intents[ended],
        commit_error(st, who, id, committed, ctx.now) is None ==> commit_next(
            st,
            who,
            id,
            committed,
            ctx.now,
        ).intents[ended] == st.intents[ended],
        settle_error(st, who, id, ctx) is None ==> settle_next(st, id, ctx).intents[ended]
            == st.intents[ended],
        slash_error(st, id, ctx.now) is None ==> slash_next(st, id).intents[ended]
            == st.intents[ended],
{
}

/// A settlement hands the user exactly what was committed, which is no less than
/// they asked for, and what the swap brought above that goes to the protocol and
/// the solver to the last unit.
pub proof fn law_settlement_pays_out(st: DexState, who: AccountId, id: u64, ctx: SwapContext)
    requires
        market_is_sound(st),
        settle_error(st, who, id, ctx) is None,
    ensures
        st.fill_commitments[id].committed_amount_out >= st.intents[id].min_amount_out,
        0 <= settle_fee(st, id, ctx),
        0 <= settle_net(st, id, ctx),
        st.fill_commitments[id].committed_amount_out + settle_fee(st, id, ctx) + settle_net(
            st,
            id,
            ctx,
        ) == quote_of(st, settling_swap(st, id), ctx).amount_out,
{
    assert(st.fill_commitments.dom().contains(id));
    lemma_quote_ranges(st, settling_swap(st, id), ctx);
    law_split_conserves(settle_profit(st, id, ctx) as u128, SOLVER_PROFIT_FEE_BPS);
}

/// A settlement takes exactly the intent's input out of the intent escrow and
/// leaves nothing of its output in it. The accounts that receive are not the
/// escrow itself.
pub proof fn law_settlement_leaves_escrow_whole(
    st: DexState,
    who: AccountId,
    id: u64,
    ctx: SwapContext,
)
    requires
        market_is_sound(st),
        settle_error(st, who, id, ctx) is None,
        st.intents[id].token_in != st.intents[id].token_out,
        st.intents[id].user != intent_escrow(),
        who != intent_escrow(),
        requested_pool(st, settling_swap(st, id)).pool_account != intent_escrow(),
        ctx.sink != Some(intent_escrow()),
    ensures
        inflow(settle_effects(st, who, id, ctx), st.intents[id].token_in, intent_escrow())
            == -st.intents[id].amount_in,
        inflow(settle_effects(st, who, id, ctx), st.intents[id].token_out, intent_escrow()) == 0,
{
    law_settlement_pays_out(st, who, id, ctx);
    law_escrows_are_apart();
    let req = settling_swap(st, id);
    let escrow = intent_escrow();
    let token_in = st.intents[id].token_in;
    let token_out = st.intents[id].token_out;
    lemma_quote_ranges(st, req, ctx);
    lemma_swap_inflow(st, req, ctx, token_in, escrow);
    lemma_swap_inflow(st, req, ctx, token_out, escrow);
    lemma_payouts_inflow(st, who, id, ctx, token_in);
    lemma_payouts_inflow(st, who, id, ctx, token_out);
    let swapped = swap_effects(st, req, ctx);
    let paid = settle_payouts(st, who, id, ctx);
    let event = settle_effects(st, who, id, ctx).last();
    assert(settle_effects(st, who, id, ctx) =~= swapped + paid + seq![event]);
    lemma_inflow_concat(swapped + paid, seq![event], token_in, escrow);
    lemma_inflow_concat(swapped, paid, token_in, escrow);
    lemma_inflow_one(event, token_in, escrow);
    lemma_inflow_concat(swapped + paid, seq![event], token_out, escrow);
    lemma_inflow_concat(swapped, paid, token_out, escrow);
    lemma_inflow_one(event, token_out, escrow);
}

/// What a settlement's payouts take out of the intent escrow.
proof fn lemma_payouts_inflow(
    st: DexState,
    who: AccountId,
    id: u64,
    ctx: SwapContext,
    asset: AssetKind,
)
    requires
        market_is_sound(st),
        settle_error(st, who, id, ctx) is None,
        st.intents[id].user != intent_escrow(),
        who != intent_escrow(),
        protocol_treasury() != intent_escrow(),
    ensures
        inflow(settle_payouts(st, who, id, ctx), asset, intent_escrow()) == (if asset
            == st.intents[id].token_out {
            -quote_of(st, settling_swap(st, id), ctx).amount_out
        } else {
            0
        }),
{
    law_settlement_pays_out(st, who, id, ctx);
    let escrow = intent_escrow();
    let out = st.intents[id].token_out;
    let fee = settle_fee(st, id, ctx) as u128;
    let net = settle_net(st, id, ctx) as u128;
    let all = settle_payouts(st, who, id, ctx);
    let to_user = all[0];
    let to_treasury = payout(out, protocol_treasury(), fee);
    let to_solver = payout(out, who, net);
    assert(all =~= seq![to_user] + to_treasury + to_solver);
    lemma_inflow_concat(seq![to_user] + to_treasury, to_solver, asset, escrow);
    lemma_inflow_concat(seq![to_user], to_treasury, asset, escrow);
    lemma_inflow_one(to_user, asset, escrow);
    if fee != 0 {
        lemma_inflow_one(to_treasury[0], asset, escrow);
        assert(to_treasury =~= seq![to_treasury[0]]);
    }
    if net != 0 {
        lemma_inflow_one(to_solver[0], asset, escrow);
        assert(to_solver =~= seq![to_solver[0]]);
    }
}

/// The exchange's own escrow accounts are different accounts.
pub proof fn law_escrows_are_apart()
    ensures
        fee_escrow() != intent_escrow(),
        protocol_treasury() != intent_escrow(),
        fee_escrow() != protocol_treasury(),
{
    lemma_account_bytes(fee_escrow_seed());
    lemma_account_bytes(intent_escrow_seed());
    lemma_account_bytes(protocol_treasury_seed());
    assert(dex_account_bytes(fee_escrow_seed())[12] == 0x66);
    assert(dex_account_bytes(intent_escrow_seed())[12] == 0x69);
    assert(dex_account_bytes(protocol_treasury_seed())[12] == 0x66);
    assert(dex_account_bytes(fee_escrow_seed())[15] == 0x73);
    assert(dex_account_bytes(protocol_treasury_seed())[15] == 0x5f);
}

/// An account derived from a seed has that seed's bytes.
pub(crate) proof fn lemma_account_bytes(seed: Seq<u8>)
    ensures
        PALLET_ID@.len() == 8,
        dex_account_bytes(seed).len() == 20,
        account_with(dex_account_bytes(seed)).bytes@ == dex_account_bytes(seed),
{
    let b = dex_account_bytes(seed);
    lemma_some_account(b);
}

/// Different solvers have different bond accounts, so no slash or refund reaches
/// another's bond.
pub proof fn law_bond_accounts_are_apart(a: u64, b: u64)
    requires
        solver_escrow(a) == solver_escrow(b),
    ensures
        a == b,
{
    lemma_auto_spec_u64_to_from_le_bytes();
    lemma_account_bytes(solver_escrow_seed(a));
    lemma_account_bytes(solver_escrow_seed(b));
    let x = dex_account_bytes(solver_escrow_seed(a));
    let y = dex_account_bytes(solver_escrow_seed(b));
    assert(x == y);
    let p = spec_u64_to_le_bytes(a);
    let q = spec_u64_to_le_bytes(b);
    assert(p =~= q) by {
        assert forall|i: int| 0 <= i < 8 implies p[i] == q[i] by {
            assert(x[12 + i] == p[i]);
            assert(y[12 + i] == q[i]);
        }
    }
    assert(spec_u64_from_le_bytes(p) == a);
}

} // verus!
