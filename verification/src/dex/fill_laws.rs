//! What the marketplace promises users and solvers.

use super::flows::{
    inflow, lemma_inflow_concat, lemma_inflow_one, lemma_inflow_three, lemma_inflow_two,
};
use super::market::{
    bond_payout, cancel_error, commit_error, commit_next, deregister_effects, deregister_error,
    deregister_next, escrow_return, intent_ended, is_active_solver, payout, refund_error,
    register_effects, register_next, settle_effects, settle_error, settle_fee, settle_net,
    settle_next, settle_payouts, settle_profit, settling_swap, slash_effects, slash_error,
    slash_next, submit_effects, submit_error, submit_next, IntentRequest,
};
use super::state::{
    intent_escrow, protocol_treasury, solver_escrow, Commitment, DexIntent, DexState, Solver,
};
use super::swap::{
    lemma_quote_ranges, quote_of, swap_effects, swap_error, swap_next, SwapContext, SwapRequest,
};
use crate::arith::{is_largest, lemma_floor, max_int, min_int};
use crate::primitives::{AccountId, AssetKind, Balance, BlockNumber, Preservation};
use crate::settlement::{
    bps_share, law_split_conserves, IntentStatus, SLASHER_REWARD_BPS, SOLVER_PROFIT_FEE_BPS,
};
use vstd::prelude::*;

verus! {

/// While an intent is committed, a bid that is accepted is strictly above the
/// commitment it displaces, so what the user is promised never falls; no other
/// operation of the marketplace changes a standing promise, short of ending it.
pub proof fn law_promises_only_rise(
    st: DexState,
    id: u64,
    who: AccountId,
    other: u64,
    committed: Balance,
    req: IntentRequest,
    now: BlockNumber,
)
    requires
        st.fill_commitments.dom().contains(id),
    ensures
        commit_error(st, who, other, committed, now) is None ==> {
            let next = commit_next(st, who, other, committed, now);
            &&& next.fill_commitments.dom().contains(id)
            &&& if other == id {
                next.fill_commitments[id].committed_amount_out
                    > st.fill_commitments[id].committed_amount_out
            } else {
                next.fill_commitments[id] == st.fill_commitments[id]
            }
        },
        submit_next(st, req, now).fill_commitments == st.fill_commitments,
        register_next(st, who, now).fill_commitments == st.fill_commitments,
        deregister_next(st, who).fill_commitments == st.fill_commitments,
{
}

/// A bid is accepted from an active solver, on an intent that is open or committed,
/// at no less than the user's minimum and above any standing commitment, until the
/// bid window closes and before the deadline; and from nobody else and at no other
/// time.
pub proof fn law_bid_is_owed(
    st: DexState,
    who: AccountId,
    id: u64,
    committed: Balance,
    now: BlockNumber,
)
    ensures
        commit_error(st, who, id, committed, now) is None <==> {
            let s = st.solver_account_to_id[who];
            let intent = st.intents[id];
            let window = match st.bid_window_blocks {
                Some(n) => n,
                None => st.config.default_bid_window_blocks,
            };
            &&& st.solver_account_to_id.dom().contains(who)
            &&& st.solvers.dom().contains(s) && st.solvers[s].active
            &&& st.intents.dom().contains(id)
            &&& intent.status == IntentStatus::Open || intent.status == IntentStatus::Committed
            &&& committed >= intent.min_amount_out
            &&& now <= intent.submitted_at + window
            &&& now < intent.deadline
            &&& st.fill_commitments.dom().contains(id) ==> committed
                > st.fill_commitments[id].committed_amount_out
        },
{
}

/// An accepted bid stands in the bidder's name for exactly what was bid, to be settled
/// within the settlement window from now. It moves one count of commitments to the
/// bidder, off the solver it displaces, and changes nothing of the intent but its
/// status. No one else's record changes.
pub proof fn law_bid_is_recorded(
    st: DexState,
    who: AccountId,
    id: u64,
    committed: Balance,
    now: BlockNumber,
    solver: u64,
)
    requires
        commit_error(st, who, id, committed, now) is None,
    ensures
        ({
            let s = st.solver_account_to_id[who];
            let next = commit_next(st, who, id, committed, now);
            let window = match st.settlement_window_blocks {
                Some(n) => n,
                None => st.config.default_settlement_window_blocks,
            };
            let c = next.fill_commitments[id];
            let had = st.fill_commitments.dom().contains(id);
            let prior = st.fill_commitments[id].solver_id;
            &&& c == (Commitment {
                intent_id: id,
                solver_id: s,
                solver_account: who,
                committed_amount_out: committed,
                committed_at: now,
                settle_by: c.settle_by,
            })
            &&& c.settle_by == min_int(now + window, u64::MAX as int)
            &&& next.intents == st.intents.insert(
                id,
                DexIntent { status: IntentStatus::Committed, ..st.intents[id] },
            )
            &&& next.fill_commitments.remove(id) == st.fill_commitments.remove(id)
            &&& next.solvers.dom() == st.solvers.dom()
            &&& st.solvers.dom().contains(solver) ==> {
                let before = st.solvers[solver];
                let after = next.solvers[solver];
                &&& after == (Solver { active_commitments: after.active_commitments, ..before })
                &&& if solver == s && !(had && prior == s) {
                    after.active_commitments == min_int(
                        before.active_commitments + 1,
                        u32::MAX as int,
                    )
                } else if solver != s && had && prior == solver {
                    after.active_commitments == max_int(before.active_commitments - 1, 0)
                } else {
                    after == before
                }
            }
            &&& next == (DexState {
                fill_commitments: next.fill_commitments,
                solvers: next.solvers,
                intents: next.intents,
                ..st
            })
        }),
{
    let next = commit_next(st, who, id, committed, now);
    assert(next.fill_commitments.remove(id) =~= st.fill_commitments.remove(id));
    assert(next.solvers.dom() =~= st.solvers.dom());
}

/// An intent is taken exactly where it offers something for another asset by a later
/// block. It is filed under a new id as it was asked for, open, and what it offers is
/// taken from the user and held for it.
pub proof fn law_intent_is_taken_as_asked(st: DexState, req: IntentRequest, now: BlockNumber)
    ensures
        submit_error(req, now) is None <==> req.amount_in > 0 && req.token_in != req.token_out
            && now < req.deadline,
        ({
            let id = st.next_intent_id;
            let next = submit_next(st, req, now);
            &&& next.intents == st.intents.insert(
                id,
                DexIntent {
                    id,
                    user: req.who,
                    token_in: req.token_in,
                    token_out: req.token_out,
                    amount_in: req.amount_in,
                    min_amount_out: req.min_amount_out,
                    deadline: req.deadline,
                    submitted_at: now,
                    status: IntentStatus::Open,
                },
            )
            &&& next.intent_escrow_balances == st.intent_escrow_balances.insert(
                id,
                (req.token_in, req.amount_in),
            )
            &&& next.next_intent_id == min_int(id + 1, u64::MAX as int)
            &&& next == (DexState {
                intents: next.intents,
                intent_escrow_balances: next.intent_escrow_balances,
                next_intent_id: next.next_intent_id,
                ..st
            })
            &&& req.who != intent_escrow() ==> {
                &&& inflow(submit_effects(st, req), req.token_in, req.who) == -req.amount_in
                &&& inflow(submit_effects(st, req), req.token_in, intent_escrow())
                    == req.amount_in
            }
        }),
{
    let e = submit_effects(st, req);
    assert(e =~= seq![e[0], e[1]]);
    lemma_inflow_two(e[0], e[1], req.token_in, req.who);
    lemma_inflow_two(e[0], e[1], req.token_in, intent_escrow());
}

/// An open intent can be called back by its owner at any time, and refunded to them
/// from its deadline on; nobody else can do either, and a committed one cannot be.
/// Exactly what is held for it goes back.
pub proof fn law_open_intent_goes_back_to_its_owner(
    st: DexState,
    who: AccountId,
    id: u64,
    now: BlockNumber,
    status: IntentStatus,
)
    ensures
        cancel_error(st, who, id) is None <==> {
            &&& st.intents.dom().contains(id) && st.intent_escrow_balances.dom().contains(id)
            &&& st.intents[id].user == who && st.intents[id].status == IntentStatus::Open
        },
        refund_error(st, who, id, now) is None <==> {
            &&& st.intents.dom().contains(id) && st.intent_escrow_balances.dom().contains(id)
            &&& st.intents[id].user == who && st.intents[id].status == IntentStatus::Open
            &&& st.intents[id].deadline <= now
        },
        ({
            let next = intent_ended(st, id, status);
            let (asset, amount) = st.intent_escrow_balances[id];
            &&& next.intents == st.intents.insert(id, DexIntent { status, ..st.intents[id] })
            &&& next.intent_escrow_balances == st.intent_escrow_balances.remove(id)
            &&& next == (DexState {
                intents: next.intents,
                intent_escrow_balances: next.intent_escrow_balances,
                ..st
            })
            &&& who != intent_escrow() ==> {
                &&& inflow(seq![escrow_return(st, id, who)], asset, who) == amount
                &&& inflow(seq![escrow_return(st, id, who)], asset, intent_escrow()) == -amount
            }
        }),
{
    let asset = st.intent_escrow_balances[id].0;
    lemma_inflow_one(escrow_return(st, id, who), asset, who);
    lemma_inflow_one(escrow_return(st, id, who), asset, intent_escrow());
}

/// Anyone who is not an active solver can become one for the bond of the day, under a
/// new id, with a blank record. An active solver without commitments can leave and is
/// handed exactly its bond.
pub proof fn law_solvers_come_and_go_for_their_bond(
    st: DexState,
    who: AccountId,
    now: BlockNumber,
)
    ensures
        is_active_solver(st, who) <==> {
            &&& st.solver_account_to_id.dom().contains(who)
            &&& st.solvers.dom().contains(st.solver_account_to_id[who])
            &&& st.solvers[st.solver_account_to_id[who]].active
        },
        ({
            let id = st.next_solver_id;
            let bond = match st.solver_bond_amount {
                Some(b) => b,
                None => st.config.default_solver_bond_amount,
            };
            let next = register_next(st, who, now);
            &&& next.solvers == st.solvers.insert(
                id,
                Solver {
                    id,
                    account: who,
                    bond,
                    reputation: 0,
                    fills_completed: 0,
                    fills_slashed: 0,
                    active_commitments: 0,
                    registered_at: now,
                    active: true,
                },
            )
            &&& next.solver_account_to_id == st.solver_account_to_id.insert(who, id)
            &&& next.next_solver_id == min_int(id + 1, u64::MAX as int)
            &&& next == (DexState {
                solvers: next.solvers,
                solver_account_to_id: next.solver_account_to_id,
                next_solver_id: next.next_solver_id,
                ..st
            })
            &&& who != solver_escrow(id) ==> inflow(
                register_effects(st, who),
                st.config.native_asset,
                who,
            ) == -bond
        }),
        deregister_error(st, who) is None <==> {
            let s = st.solver_account_to_id[who];
            &&& st.solver_account_to_id.dom().contains(who) && st.solvers.dom().contains(s)
            &&& st.solvers[s].active && st.solvers[s].active_commitments == 0
        },
        ({
            let s = st.solver_account_to_id[who];
            let next = deregister_next(st, who);
            &&& next.solvers == st.solvers.insert(
                s,
                Solver { active: false, bond: 0, ..st.solvers[s] },
            )
            &&& next == (DexState { solvers: next.solvers, ..st })
            &&& who != solver_escrow(s) ==> inflow(
                deregister_effects(st, who),
                st.config.native_asset,
                who,
            ) == st.solvers[s].bond
        }),
{
    let native = st.config.native_asset;
    let e = register_effects(st, who);
    assert(e =~= seq![e[0], e[1]]);
    lemma_inflow_two(e[0], e[1], native, who);
    let d = deregister_effects(st, who);
    assert(d =~= seq![d[0], d[1]]);
    lemma_inflow_two(d[0], d[1], native, who);
}

/// The swap that fills an intent: all of its input, out of the intent escrow and back
/// into it, for no less than was committed.
pub open spec fn filling_swap(st: DexState, id: u64) -> SwapRequest {
    SwapRequest {
        who: intent_escrow(),
        asset_in: st.intents[id].token_in,
        asset_out: st.intents[id].token_out,
        amount_in: st.intents[id].amount_in,
        amount_out_min: st.fill_commitments[id].committed_amount_out,
        recipient: intent_escrow(),
        is_trade: true,
        input: Preservation::Expendable,
    }
}

/// A committed intent is settled by the solver that committed to it and by nobody
/// else, up to the last block of its window, if its swap goes through; from the block
/// after that anybody can slash the solver.
pub proof fn law_window_decides_between_settling_and_slashing(
    st: DexState,
    who: AccountId,
    id: u64,
    ctx: SwapContext,
)
    ensures
        settle_error(st, who, id, ctx) is None <==> {
            &&& st.fill_commitments.dom().contains(id) && st.intents.dom().contains(id)
            &&& st.fill_commitments[id].solver_account == who
            &&& ctx.now <= st.fill_commitments[id].settle_by
            &&& st.intents[id].status == IntentStatus::Committed
            &&& swap_error(st, filling_swap(st, id), ctx) is None
        },
        slash_error(st, id, ctx.now) is None <==> {
            &&& st.fill_commitments.dom().contains(id) && st.intents.dom().contains(id)
            &&& ctx.now > st.fill_commitments[id].settle_by
            &&& st.intents[id].status == IntentStatus::Committed
            &&& st.solvers.dom().contains(st.fill_commitments[id].solver_id)
            &&& st.intent_escrow_balances.dom().contains(id)
        },
{
}

/// What the payouts of a settlement add to one account.
proof fn lemma_payout_inflow(asset: AssetKind, to: AccountId, amount: Balance, account: AccountId)
    requires
        account != intent_escrow(),
    ensures
        inflow(payout(asset, to, amount), asset, account) == (if to == account {
            amount as int
        } else {
            0
        }),
{
    let e = payout(asset, to, amount);
    if amount != 0 {
        assert(e =~= seq![e[0]]);
        lemma_inflow_one(e[0], asset, account);
    }
}

/// A settlement pays the user exactly what was committed. Of what the swap brought
/// above that a fifth, rounded down, goes to the protocol, and all the rest to the
/// solver. (What is paid is what the settlement moves beyond its swap; the three are
/// different accounts, and none is the escrow.)
pub proof fn law_settlement_pays_what_was_committed(
    st: DexState,
    who: AccountId,
    id: u64,
    ctx: SwapContext,
)
    requires
        settle_error(st, who, id, ctx) is None,
        ({
            let user = st.intents[id].user;
            &&& user != intent_escrow() && who != intent_escrow()
            &&& protocol_treasury() != intent_escrow()
            &&& user != who && user != protocol_treasury() && who != protocol_treasury()
        }),
    ensures
        ({
            let swap = filling_swap(st, id);
            let token = st.intents[id].token_out;
            let out = quote_of(st, swap, ctx).amount_out;
            let committed = st.fill_commitments[id].committed_amount_out;
            let paid = |account: AccountId|
                inflow(settle_effects(st, who, id, ctx), token, account) - inflow(
                    swap_effects(st, swap, ctx),
                    token,
                    account,
                );
            let fee = paid(protocol_treasury());
            &&& committed <= out
            &&& paid(st.intents[id].user) == committed
            &&& is_largest(fee, out - committed, 5)
            &&& paid(who) == out - committed - fee
        }),
{
    let swap = filling_swap(st, id);
    let token = st.intents[id].token_out;
    let user = st.intents[id].user;
    assert(settling_swap(st, id) == swap);
    lemma_quote_ranges(st, swap, ctx);
    let profit = settle_profit(st, id, ctx);
    law_split_conserves(profit as u128, SOLVER_PROFIT_FEE_BPS);
    lemma_settle_inflow(st, who, id, ctx, user);
    lemma_settle_inflow(st, who, id, ctx, protocol_treasury());
    lemma_settle_inflow(st, who, id, ctx, who);
    let fee = settle_fee(st, id, ctx);
    lemma_floor(profit * 2_000, 10_000);
}

/// What a settlement adds to an account beyond its swap.
proof fn lemma_settle_inflow(
    st: DexState,
    who: AccountId,
    id: u64,
    ctx: SwapContext,
    account: AccountId,
)
    requires
        account != intent_escrow(),
    ensures
        ({
            let token = st.intents[id].token_out;
            inflow(settle_effects(st, who, id, ctx), token, account) == inflow(
                swap_effects(st, settling_swap(st, id), ctx),
                token,
                account,
            ) + (if st.intents[id].user == account {
                st.fill_commitments[id].committed_amount_out as int
            } else {
                0
            }) + (if protocol_treasury() == account {
                (settle_fee(st, id, ctx) as u128) as int
            } else {
                0
            }) + (if who == account {
                (settle_net(st, id, ctx) as u128) as int
            } else {
                0
            })
        }),
{
    let token = st.intents[id].token_out;
    let fee = settle_fee(st, id, ctx) as u128;
    let net = settle_net(st, id, ctx) as u128;
    let swapped = swap_effects(st, settling_swap(st, id), ctx);
    let paid = settle_payouts(st, who, id, ctx);
    let all = settle_effects(st, who, id, ctx);
    let event = all.last();
    assert(all =~= swapped + paid + seq![event]);
    lemma_inflow_concat(swapped + paid, seq![event], token, account);
    lemma_inflow_concat(swapped, paid, token, account);
    lemma_inflow_one(event, token, account);
    let first = seq![paid[0]];
    let second = payout(token, protocol_treasury(), fee);
    let third = payout(token, who, net);
    assert(paid =~= first + second + third);
    lemma_inflow_concat(first + second, third, token, account);
    lemma_inflow_concat(first, second, token, account);
    lemma_inflow_one(paid[0], token, account);
    lemma_payout_inflow(token, protocol_treasury(), fee, account);
    lemma_payout_inflow(token, who, net, account);
}

/// A settlement ends the intent as settled, lets go of its commitment and its escrow,
/// and counts one fill, one point of reputation and one commitment less for the
/// solver. The pools are those that its swap leaves.
pub proof fn law_settlement_ends_the_intent(
    st: DexState,
    who: AccountId,
    id: u64,
    ctx: SwapContext,
)
    requires
        settle_error(st, who, id, ctx) is None,
    ensures
        ({
            let s = st.fill_commitments[id].solver_id;
            let next = settle_next(st, id, ctx);
            let swapped = swap_next(st, filling_swap(st, id), ctx);
            &&& next.intents == st.intents.insert(
                id,
                DexIntent { status: IntentStatus::Settled, ..st.intents[id] },
            )
            &&& next.fill_commitments == st.fill_commitments.remove(id)
            &&& next.intent_escrow_balances == st.intent_escrow_balances.remove(id)
            &&& next.solvers.remove(s) == st.solvers.remove(s)
            &&& st.solvers.dom().contains(s) ==> {
                let (before, after) = (st.solvers[s], next.solvers[s]);
                &&& after.reputation == min_int(before.reputation + 1, i64::MAX as int)
                &&& after.fills_completed == min_int(before.fills_completed + 1, u64::MAX as int)
                &&& after.active_commitments == max_int(before.active_commitments - 1, 0)
                &&& after == (Solver {
                    reputation: after.reputation,
                    fills_completed: after.fills_completed,
                    active_commitments: after.active_commitments,
                    ..before
                })
            }
            &&& next == (DexState {
                intents: next.intents,
                fill_commitments: next.fill_commitments,
                intent_escrow_balances: next.intent_escrow_balances,
                solvers: next.solvers,
                ..swapped
            })
        }),
{
    let s = st.fill_commitments[id].solver_id;
    let next = settle_next(st, id, ctx);
    assert(next.solvers.remove(s) =~= st.solvers.remove(s));
}

/// A slash takes the whole bond: a tenth, rounded down, for whoever slashes and the rest
/// for the protocol. The user gets back exactly what was held for them. (The accounts
/// that receive are different, and none is one that pays.)
pub proof fn law_slash_divides_the_bond(
    st: DexState,
    slasher: AccountId,
    id: u64,
    now: BlockNumber,
)
    requires
        slash_error(st, id, now) is None,
        ({
            let user = st.intents[id].user;
            let bonds = solver_escrow(st.fill_commitments[id].solver_id);
            &&& slasher != protocol_treasury() && slasher != user && user != protocol_treasury()
            &&& slasher != bonds && protocol_treasury() != bonds && user != bonds
            &&& slasher != intent_escrow() && protocol_treasury() != intent_escrow() && user
                != intent_escrow()
        }),
    ensures
        ({
            let native = st.config.native_asset;
            let bond = st.solvers[st.fill_commitments[id].solver_id].bond;
            let effects = slash_effects(st, slasher, id);
            let reward = inflow(effects, native, slasher);
            &&& is_largest(reward, bond as int, 10)
            &&& inflow(effects, native, protocol_treasury()) == bond - reward
            &&& inflow(effects, st.intent_escrow_balances[id].0, st.intents[id].user)
                == st.intent_escrow_balances[id].1
        }),
{
    let native = st.config.native_asset;
    let bond = st.solvers[st.fill_commitments[id].solver_id].bond;
    law_split_conserves(bond, SLASHER_REWARD_BPS);
    lemma_floor(bond * 1_000, 10_000);
    lemma_slash_pays(st, slasher, id, native, slasher);
    lemma_slash_pays(st, slasher, id, native, protocol_treasury());
    lemma_slash_pays(st, slasher, id, st.intent_escrow_balances[id].0, st.intents[id].user);
}

/// What a slash adds to an account that pays none of it.
proof fn lemma_slash_pays(
    st: DexState,
    slasher: AccountId,
    id: u64,
    asset: AssetKind,
    account: AccountId,
)
    requires
        account != intent_escrow(),
        account != solver_escrow(st.fill_commitments[id].solver_id),
    ensures
        ({
            let bond = st.solvers[st.fill_commitments[id].solver_id].bond;
            let reward = bps_share(bond as int, 1_000);
            let native = st.config.native_asset;
            inflow(slash_effects(st, slasher, id), asset, account) == (if asset == native
                && protocol_treasury() == account {
                bond - reward
            } else {
                0
            }) + (if asset == native && slasher == account {
                reward
            } else {
                0
            }) + (if asset == st.intent_escrow_balances[id].0 && st.intents[id].user == account {
                st.intent_escrow_balances[id].1 as int
            } else {
                0
            })
        }),
{
    let s = st.fill_commitments[id].solver_id;
    let bond = st.solvers[s].bond;
    law_split_conserves(bond, SLASHER_REWARD_BPS);
    let reward = bps_share(bond as int, 1_000) as u128;
    let rest = (bond - reward) as u128;
    let all = slash_effects(st, slasher, id);
    let n = all.len() as int;
    let first = bond_payout(st, s, protocol_treasury(), rest);
    let second = bond_payout(st, s, slasher, reward);
    let tail = seq![all[n - 3], all[n - 2], all[n - 1]];
    assert(all =~= first + second + tail);
    lemma_inflow_concat(first + second, tail, asset, account);
    lemma_inflow_concat(first, second, asset, account);
    lemma_inflow_three(all[n - 3], all[n - 2], all[n - 1], asset, account);
    if rest != 0 {
        assert(first =~= seq![first[0]]);
        lemma_inflow_one(first[0], asset, account);
    }
    if reward != 0 {
        assert(second =~= seq![second[0]]);
        lemma_inflow_one(second[0], asset, account);
    }
}

/// A slash ends the intent as expired, lets go of its commitment and its escrow, and
/// leaves the solver inactive without a bond, ten points of reputation lower, with one
/// slash more and one commitment less.
pub proof fn law_slash_ends_the_solver(st: DexState, id: u64, now: BlockNumber)
    requires
        slash_error(st, id, now) is None,
    ensures
        ({
            let s = st.fill_commitments[id].solver_id;
            let next = slash_next(st, id);
            let (before, after) = (st.solvers[s], next.solvers[s]);
            &&& next.intents == st.intents.insert(
                id,
                DexIntent { status: IntentStatus::Expired, ..st.intents[id] },
            )
            &&& next.fill_commitments == st.fill_commitments.remove(id)
            &&& next.intent_escrow_balances == st.intent_escrow_balances.remove(id)
            &&& next.solvers.remove(s) == st.solvers.remove(s)
            &&& after.reputation == max_int(before.reputation - 10, i64::MIN as int)
            &&& after.fills_slashed == min_int(before.fills_slashed + 1, u64::MAX as int)
            &&& after.active_commitments == max_int(before.active_commitments - 1, 0)
            &&& after == (Solver {
                bond: 0,
                active: false,
                reputation: after.reputation,
                fills_slashed: after.fills_slashed,
                active_commitments: after.active_commitments,
                ..before
            })
            &&& next == (DexState {
                intents: next.intents,
                fill_commitments: next.fill_commitments,
                intent_escrow_balances: next.intent_escrow_balances,
                solvers: next.solvers,
                ..st
            })
        }),
{
    let s = st.fill_commitments[id].solver_id;
    let next = slash_next(st, id);
    assert(next.solvers.remove(s) =~= st.solvers.remove(s));
}

} // verus!
