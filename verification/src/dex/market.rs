//! The solver marketplace: solvers, intents, commitments and their settlement.

use super::state::{
    intent_escrow, protocol_treasury, solver_escrow, Commitment, DexIntent, DexState, Pallet,
    Solver,
};
use super::swap::{
    lemma_quote_ranges, quote_of, swap_effects, swap_error, swap_next, SwapContext, SwapRequest,
};
use super::types::{make_transfer_or, transfer_or, Effect, Error, Event};
use crate::arith::{max_int, min_int, monus};
use crate::primitives::{AccountId, AssetKind, Balance, BlockNumber, Key, Preservation};
use crate::settlement::{
    bps_share, law_split_conserves, split_slashed_bond_u128, split_solver_profit_u128, IntentStatus,
    REPUTATION_FILL_REWARD, REPUTATION_SLASH_PENALTY, SLASHER_REWARD_BPS, SOLVER_PROFIT_FEE_BPS,
};
use vstd::prelude::*;

verus! {

/// `a + b`, stopping at `u64::MAX`.
pub open spec fn later(a: u64, b: u64) -> u64 {
    min_int(a + b, u64::MAX as int) as u64
}

/// One more, stopping at `u64::MAX`.
pub open spec fn next_id(id: u64) -> u64 {
    later(id, 1)
}

/// The solver `who` is registered as, if any.
pub open spec fn solver_of(st: DexState, who: AccountId) -> Option<Solver> {
    if st.solver_account_to_id.dom().contains(who) && st.solvers.dom().contains(
        st.solver_account_to_id[who],
    ) {
        Some(st.solvers[st.solver_account_to_id[who]])
    } else {
        None
    }
}

/// `who` has a registration that still counts.
pub open spec fn is_active_solver(st: DexState, who: AccountId) -> bool {
    solver_of(st, who) matches Some(s) && s.active
}

/// A solver's record on registering.
pub open spec fn new_solver(st: DexState, who: AccountId, now: BlockNumber) -> Solver {
    Solver {
        id: st.next_solver_id,
        account: who,
        bond: st.solver_bond(),
        reputation: 0,
        fills_completed: 0,
        fills_slashed: 0,
        active_commitments: 0,
        registered_at: now,
        active: true,
    }
}

/// The exchange after `who` has registered.
pub open spec fn register_next(st: DexState, who: AccountId, now: BlockNumber) -> DexState {
    DexState {
        solvers: st.solvers.insert(st.next_solver_id, new_solver(st, who, now)),
        solver_account_to_id: st.solver_account_to_id.insert(who, st.next_solver_id),
        next_solver_id: next_id(st.next_solver_id),
        ..st
    }
}

/// What registering asks of the world.
pub open spec fn register_effects(st: DexState, who: AccountId) -> Seq<Effect> {
    seq![
        transfer_or(
            st.config.native_asset,
            who,
            solver_escrow(st.next_solver_id),
            st.solver_bond(),
            Preservation::Preserve,
            Error::InsufficientBondFunds,
        ),
        Effect::Emit(
            Event::SolverRegistered {
                solver_id: st.next_solver_id,
                account: who,
                bond: st.solver_bond(),
            },
        ),
    ]
}

/// Why `who` cannot deregister, if they cannot.
pub open spec fn deregister_error(st: DexState, who: AccountId) -> Option<Error> {
    match solver_of(st, who) {
        None => Some(Error::SolverNotRegistered),
        Some(s) => if !s.active {
            Some(Error::SolverNotActive)
        } else if s.active_commitments != 0 {
            Some(Error::ActiveCommitmentsExist)
        } else {
            None
        },
    }
}

/// The exchange after `who` has deregistered.
pub open spec fn deregister_next(st: DexState, who: AccountId) -> DexState {
    let id = st.solver_account_to_id[who];
    DexState {
        solvers: st.solvers.insert(id, Solver { active: false, bond: 0, ..st.solvers[id] }),
        ..st
    }
}

/// What deregistering asks of the world.
pub open spec fn deregister_effects(st: DexState, who: AccountId) -> Seq<Effect> {
    let id = st.solver_account_to_id[who];
    seq![
        transfer_or(
            st.config.native_asset,
            solver_escrow(id),
            who,
            st.solvers[id].bond,
            Preservation::Expendable,
            Error::InsufficientBondFunds,
        ),
        Effect::Emit(
            Event::SolverDeregistered {
                solver_id: id,
                account: who,
                bond_refunded: st.solvers[id].bond,
            },
        ),
    ]
}

/// What a user asks for.
#[derive(Clone, Copy, Debug, PartialEq, Eq)]
pub struct IntentRequest {
    pub who: AccountId,
    pub token_in: AssetKind,
    pub token_out: AssetKind,
    pub amount_in: Balance,
    pub min_amount_out: Balance,
    pub deadline: BlockNumber,
}

/// Why an intent is refused, if it is.
pub open spec fn submit_error(req: IntentRequest, now: BlockNumber) -> Option<Error> {
    if req.amount_in == 0 || req.token_in == req.token_out {
        Some(Error::InvalidAmount)
    } else if req.deadline <= now {
        Some(Error::InvalidDeadline)
    } else {
        None
    }
}

/// An intent's record on submission.
pub open spec fn new_intent(st: DexState, req: IntentRequest, now: BlockNumber) -> DexIntent {
    DexIntent {
        id: st.next_intent_id,
        user: req.who,
        token_in: req.token_in,
        token_out: req.token_out,
        amount_in: req.amount_in,
        min_amount_out: req.min_amount_out,
        deadline: req.deadline,
        submitted_at: now,
        status: IntentStatus::Open,
    }
}

/// The exchange after an intent has been submitted.
pub open spec fn submit_next(st: DexState, req: IntentRequest, now: BlockNumber) -> DexState {
    DexState {
        intents: st.intents.insert(st.next_intent_id, new_intent(st, req, now)),
        intent_escrow_balances: st.intent_escrow_balances.insert(
            st.next_intent_id,
            (req.token_in, req.amount_in),
        ),
        next_intent_id: next_id(st.next_intent_id),
        ..st
    }
}

/// What submitting asks of the world.
pub open spec fn submit_effects(st: DexState, req: IntentRequest) -> Seq<Effect> {
    seq![
        transfer_or(
            req.token_in,
            req.who,
            intent_escrow(),
            req.amount_in,
            Preservation::Preserve,
            Error::InvalidAmount,
        ),
        Effect::Emit(
            Event::IntentSubmitted {
                intent_id: st.next_intent_id,
                user: req.who,
                token_in: req.token_in,
                token_out: req.token_out,
                amount_in: req.amount_in,
                min_amount_out: req.min_amount_out,
                deadline: req.deadline,
            },
        ),
    ]
}

/// Why an intent cannot be handed back to `who` by its owner, if it cannot:
/// before its deadline by cancelling, from then on by refunding.
pub open spec fn owner_error(st: DexState, who: AccountId, id: u64) -> Option<Error> {
    if !st.intents.dom().contains(id) {
        Some(Error::IntentNotFound)
    } else if st.intents[id].user != who {
        Some(Error::NotIntentOwner)
    } else if st.intents[id].status != IntentStatus::Open {
        Some(Error::IntentNotOpen)
    } else {
        None
    }
}

/// Why an intent cannot be cancelled, if it cannot.
pub open spec fn cancel_error(st: DexState, who: AccountId, id: u64) -> Option<Error> {
    if owner_error(st, who, id) is Some {
        owner_error(st, who, id)
    } else if !st.intent_escrow_balances.dom().contains(id) {
        Some(Error::IntentNotFound)
    } else {
        None
    }
}

/// Why an intent cannot be refunded, if it cannot.
pub open spec fn refund_error(
    st: DexState,
    who: AccountId,
    id: u64,
    now: BlockNumber,
) -> Option<Error> {
    if owner_error(st, who, id) is Some {
        owner_error(st, who, id)
    } else if now < st.intents[id].deadline {
        Some(Error::DeadlineNotPassed)
    } else if !st.intent_escrow_balances.dom().contains(id) {
        Some(Error::IntentNotFound)
    } else {
        None
    }
}

/// The exchange after an intent has ended with `status` and its escrow entry is
/// gone.
pub open spec fn intent_ended(st: DexState, id: u64, status: IntentStatus) -> DexState {
    DexState {
        intents: st.intents.insert(id, DexIntent { status, ..st.intents[id] }),
        intent_escrow_balances: st.intent_escrow_balances.remove(id),
        ..st
    }
}

/// Handing an intent's escrow to `to`.
pub open spec fn escrow_return(st: DexState, id: u64, to: AccountId) -> Effect {
    transfer_or(
        st.intent_escrow_balances[id].0,
        intent_escrow(),
        to,
        st.intent_escrow_balances[id].1,
        Preservation::Expendable,
        Error::InvalidAmount,
    )
}

/// Why a bid is refused, if it is.
pub open spec fn commit_error(
    st: DexState,
    who: AccountId,
    id: u64,
    committed: Balance,
    now: BlockNumber,
) -> Option<Error> {
    let intent = st.intents[id];
    if solver_of(st, who) is None {
        Some(Error::SolverNotRegistered)
    } else if !is_active_solver(st, who) {
        Some(Error::SolverNotActive)
    } else if !st.intents.dom().contains(id) {
        Some(Error::IntentNotFound)
    } else if intent.status != IntentStatus::Open && intent.status != IntentStatus::Committed {
        Some(Error::IntentNotOpen)
    } else if committed < intent.min_amount_out {
        Some(Error::BelowMinAmountOut)
    } else if now > later(intent.submitted_at, st.bid_window()) {
        Some(Error::BidWindowClosed)
    } else if now >= intent.deadline {
        Some(Error::IntentExpired)
    } else if st.fill_commitments.dom().contains(id) && committed
        <= st.fill_commitments[id].committed_amount_out {
        Some(Error::BidNotBetter)
    } else {
        None
    }
}

/// A solver's record with one commitment fewer.
pub open spec fn one_fewer(s: Solver) -> Solver {
    Solver { active_commitments: monus(s.active_commitments as int, 1) as u32, ..s }
}

/// A solver's record with one commitment more.
pub open spec fn one_more(s: Solver) -> Solver {
    Solver {
        active_commitments: min_int(s.active_commitments + 1, u32::MAX as int) as u32,
        ..s
    }
}

/// The solvers once a bid by `solver_id` has displaced whatever stood there: the
/// displaced solver has one commitment fewer and the new one one more, and a
/// solver that raises its own bid keeps its count.
pub open spec fn solvers_after_bid(st: DexState, solver_id: u64, id: u64) -> Map<u64, Solver> {
    if !st.fill_commitments.dom().contains(id) {
        st.solvers.insert(solver_id, one_more(st.solvers[solver_id]))
    } else {
        let prior = st.fill_commitments[id].solver_id;
        if prior == solver_id {
            st.solvers
        } else if st.solvers.dom().contains(prior) {
            st.solvers.insert(prior, one_fewer(st.solvers[prior])).insert(
                solver_id,
                one_more(st.solvers[solver_id]),
            )
        } else {
            st.solvers.insert(solver_id, one_more(st.solvers[solver_id]))
        }
    }
}

/// The commitment a bid makes.
pub open spec fn new_commitment(
    st: DexState,
    who: AccountId,
    id: u64,
    committed: Balance,
    now: BlockNumber,
) -> Commitment {
    Commitment {
        intent_id: id,
        solver_id: st.solver_account_to_id[who],
        solver_account: who,
        committed_amount_out: committed,
        committed_at: now,
        settle_by: later(now, st.settlement_window()),
    }
}

/// The exchange after a bid.
pub open spec fn commit_next(
    st: DexState,
    who: AccountId,
    id: u64,
    committed: Balance,
    now: BlockNumber,
) -> DexState {
    DexState {
        fill_commitments: st.fill_commitments.insert(
            id,
            new_commitment(st, who, id, committed, now),
        ),
        solvers: solvers_after_bid(st, st.solver_account_to_id[who], id),
        intents: st.intents.insert(
            id,
            DexIntent { status: IntentStatus::Committed, ..st.intents[id] },
        ),
        ..st
    }
}

/// Why `who` may not settle an intent, if they may not.
pub open spec fn settle_plan_error(
    st: DexState,
    who: AccountId,
    id: u64,
    now: BlockNumber,
) -> Option<Error> {
    if !st.fill_commitments.dom().contains(id) {
        Some(Error::IntentNotCommitted)
    } else if st.fill_commitments[id].solver_account != who {
        Some(Error::NotCommittedSolver)
    } else if now > st.fill_commitments[id].settle_by {
        Some(Error::SettlementWindowPassed)
    } else if !st.intents.dom().contains(id) {
        Some(Error::IntentNotFound)
    } else if st.intents[id].status != IntentStatus::Committed {
        Some(Error::IntentNotCommitted)
    } else {
        None
    }
}

/// The swap that settles an intent: its input out of the intent escrow, its
/// output back into it, for no less than was committed.
pub open spec fn settling_swap(st: DexState, id: u64) -> SwapRequest {
    SwapRequest {
        who: intent_escrow(),
        asset_in: st.intents[id].token_in,
        asset_out: st.intents[id].token_out,
        amount_in: st.intents[id].amount_in,
        amount_out_min: st.fill_commitments[id].committed_amount_out,
        recipient: intent_escrow(),
        is_trade: true,
        input: Preservation::Expendable,
    }
}

/// Why a settlement is refused, if it is.
pub open spec fn settle_error(
    st: DexState,
    who: AccountId,
    id: u64,
    ctx: SwapContext,
) -> Option<Error> {
    if settle_plan_error(st, who, id, ctx.now) is Some {
        settle_plan_error(st, who, id, ctx.now)
    } else {
        swap_error(st, settling_swap(st, id), ctx)
    }
}

/// What the swap brought above what was committed.
pub open spec fn settle_profit(st: DexState, id: u64, ctx: SwapContext) -> int {
    quote_of(st, settling_swap(st, id), ctx).amount_out
        - st.fill_commitments[id].committed_amount_out
}

/// The protocol's part of the profit.
pub open spec fn settle_fee(st: DexState, id: u64, ctx: SwapContext) -> int {
    bps_share(settle_profit(st, id, ctx), SOLVER_PROFIT_FEE_BPS as int)
}

/// The solver's part of the profit.
pub open spec fn settle_net(st: DexState, id: u64, ctx: SwapContext) -> int {
    settle_profit(st, id, ctx) - settle_fee(st, id, ctx)
}

/// A solver's record after a fill.
pub open spec fn after_fill(s: Solver) -> Solver {
    Solver {
        reputation: min_int(s.reputation + REPUTATION_FILL_REWARD, i64::MAX as int) as i64,
        fills_completed: next_id(s.fills_completed),
        ..one_fewer(s)
    }
}

/// The exchange after a settlement.
pub open spec fn settle_next(st: DexState, id: u64, ctx: SwapContext) -> DexState {
    let swapped = swap_next(st, settling_swap(st, id), ctx);
    let solver_id = st.fill_commitments[id].solver_id;
    DexState {
        fill_commitments: st.fill_commitments.remove(id),
        solvers: if st.solvers.dom().contains(solver_id) {
            st.solvers.insert(solver_id, after_fill(st.solvers[solver_id]))
        } else {
            st.solvers
        },
        ..intent_ended(swapped, id, IntentStatus::Settled)
    }
}

/// Handing out of the intent escrow, unless it is nothing.
pub open spec fn payout(asset: AssetKind, to: AccountId, amount: Balance) -> Seq<Effect> {
    if amount == 0 {
        Seq::empty()
    } else {
        seq![
            transfer_or(
                asset,
                intent_escrow(),
                to,
                amount,
                Preservation::Expendable,
                Error::InvalidAmount,
            ),
        ]
    }
}

/// What follows the swap of a settlement: the committed amount to the user, then
/// the fee and the rest of the profit.
pub open spec fn settle_payouts(
    st: DexState,
    who: AccountId,
    id: u64,
    ctx: SwapContext,
) -> Seq<Effect> {
    let out = st.intents[id].token_out;
    let fee = settle_fee(st, id, ctx) as u128;
    let net = settle_net(st, id, ctx) as u128;
    seq![
        transfer_or(
            out,
            intent_escrow(),
            st.intents[id].user,
            st.fill_commitments[id].committed_amount_out,
            Preservation::Expendable,
            Error::InvalidAmount,
        ),
    ] + payout(out, protocol_treasury(), fee) + payout(out, who, net)
}

/// What a settlement asks of the world.
pub open spec fn settle_effects(
    st: DexState,
    who: AccountId,
    id: u64,
    ctx: SwapContext,
) -> Seq<Effect> {
    swap_effects(st, settling_swap(st, id), ctx) + settle_payouts(st, who, id, ctx) + seq![
        Effect::Emit(
            Event::IntentSettled {
                intent_id: id,
                solver_id: st.fill_commitments[id].solver_id,
                user: st.intents[id].user,
                amount_out_to_user: st.fill_commitments[id].committed_amount_out,
                solver_net_profit: settle_net(st, id, ctx) as u128,
                protocol_fee: settle_fee(st, id, ctx) as u128,
            },
        ),
    ]
}

/// Why a slash is refused before anything moves, if it is.
pub open spec fn slash_refusal(st: DexState, id: u64, now: BlockNumber) -> Option<Error> {
    if !st.fill_commitments.dom().contains(id) {
        Some(Error::IntentNotCommitted)
    } else if now <= st.fill_commitments[id].settle_by {
        Some(Error::SettlementWindowNotPassed)
    } else if !st.intents.dom().contains(id) {
        Some(Error::IntentNotFound)
    } else if st.intents[id].status != IntentStatus::Committed {
        Some(Error::IntentNotCommitted)
    } else if !st.solvers.dom().contains(st.fill_commitments[id].solver_id) {
        Some(Error::SolverNotRegistered)
    } else {
        None
    }
}

/// Why a slash is refused, if it is: before anything moves, or because nothing is
/// escrowed for the intent.
pub open spec fn slash_error(st: DexState, id: u64, now: BlockNumber) -> Option<Error> {
    if slash_refusal(st, id, now) is Some {
        slash_refusal(st, id, now)
    } else if !st.intent_escrow_balances.dom().contains(id) {
        Some(Error::IntentNotFound)
    } else {
        None
    }
}

/// A solver's record after a slash.
pub open spec fn after_slash(s: Solver) -> Solver {
    Solver {
        bond: 0,
        reputation: max_int(s.reputation + REPUTATION_SLASH_PENALTY, i64::MIN as int) as i64,
        fills_slashed: next_id(s.fills_slashed),
        active: false,
        ..one_fewer(s)
    }
}

/// The exchange after a slash.
pub open spec fn slash_next(st: DexState, id: u64) -> DexState {
    let solver_id = st.fill_commitments[id].solver_id;
    DexState {
        fill_commitments: st.fill_commitments.remove(id),
        solvers: st.solvers.insert(solver_id, after_slash(st.solvers[solver_id])),
        ..intent_ended(st, id, IntentStatus::Expired)
    }
}

/// Handing out of a solver's bond account, unless it is nothing.
pub open spec fn bond_payout(
    st: DexState,
    solver_id: u64,
    to: AccountId,
    amount: Balance,
) -> Seq<Effect> {
    if amount == 0 {
        Seq::empty()
    } else {
        seq![
            transfer_or(
                st.config.native_asset,
                solver_escrow(solver_id),
                to,
                amount,
                Preservation::Expendable,
                Error::InsufficientBondFunds,
            ),
        ]
    }
}

/// What a slash moves first: the bond to the treasury and the slasher.
pub open spec fn slash_legs(st: DexState, slasher: AccountId, id: u64) -> Seq<Effect> {
    let solver_id = st.fill_commitments[id].solver_id;
    let bond = st.solvers[solver_id].bond;
    let reward = bps_share(bond as int, SLASHER_REWARD_BPS as int) as u128;
    bond_payout(st, solver_id, protocol_treasury(), (bond - reward) as u128) + bond_payout(
        st,
        solver_id,
        slasher,
        reward,
    )
}

/// What a slash asks of the world: its legs, and the intent's input back to its
/// user.
pub open spec fn slash_effects(st: DexState, slasher: AccountId, id: u64) -> Seq<Effect> {
    let solver_id = st.fill_commitments[id].solver_id;
    let bond = st.solvers[solver_id].bond;
    let reward = bps_share(bond as int, SLASHER_REWARD_BPS as int) as u128;
    let rest = (bond - reward) as u128;
    slash_legs(st, slasher, id) + seq![
        escrow_return(st, id, st.intents[id].user),
        Effect::Emit(
            Event::SolverSlashed {
                solver_id,
                intent_id: id,
                slashed_amount: bond,
                to_treasury: rest,
                to_slasher: reward,
                slasher,
            },
        ),
        Effect::Emit(
            Event::IntentRefunded {
                intent_id: id,
                user: st.intents[id].user,
                amount_refunded: st.intent_escrow_balances[id].1,
            },
        ),
    ]
}

/// `a + b`, stopping at the ends of `i64`.
fn saturating_sum(a: i64, b: i64) -> (r: i64)
    ensures
        r == max_int(min_int(a + b, i64::MAX as int), i64::MIN as int),
{
    match a.checked_add(b) {
        Some(x) => x,
        None => if b > 0 {
            i64::MAX
        } else {
            i64::MIN
        },
    }
}

/// The solver `who` is registered as, with its id.
fn find_solver(st: &Pallet, who: &AccountId) -> (r: Option<(u64, Solver)>)
    ensures
        match r {
            Some((id, s)) => {
                &&& solver_of(st@, *who) == Some(s)
                &&& st@.solver_account_to_id.dom().contains(*who)
                &&& id == st@.solver_account_to_id[*who]
                &&& st@.solvers.dom().contains(id)
                &&& s == st@.solvers[id]
            },
            None => solver_of(st@, *who) is None,
        },
{
    match st.solver_account_to_id.get(who) {
        Some(id) => match st.solvers.get(&id) {
            Some(s) => Some((id, s)),
            None => None,
        },
        None => None,
    }
}

impl Pallet {
    /// Register `who` as a solver. An earlier registration that no longer counts
    /// is replaced by a new one with a new id.
    pub fn register_solver(&mut self, who: &AccountId, now: BlockNumber) -> (r: Result<
        Vec<Effect>,
        Error,
    >)
        ensures
            match r {
                Ok(effects) => {
                    &&& !is_active_solver(old(self)@, *who)
                    &&& effects@ == register_effects(old(self)@, *who)
                    &&& final(self)@ == register_next(old(self)@, *who, now)
                },
                Err(e) => {
                    &&& is_active_solver(old(self)@, *who)
                    &&& e == Error::SolverAlreadyRegistered
                    &&& final(self)@ == old(self)@
                },
            },
    {
        let ghost st = self@;
        if let Some((_, s)) = find_solver(self, who) {
            if s.active {
                return Err(Error::SolverAlreadyRegistered);
            }
        }
        let bond: u128 = self.current_solver_bond();
        let solver_id: u64 = self.next_solver_id;
        let mut effects: Vec<Effect> = Vec::new();
        effects.push(
            make_transfer_or(
                self.config.native_asset,
                *who,
                Pallet::solver_escrow_account(solver_id),
                bond,
                Preservation::Preserve,
                Error::InsufficientBondFunds,
            ),
        );
        let info: Solver = Solver {
            id: solver_id,
            account: *who,
            bond,
            reputation: 0,
            fills_completed: 0,
            fills_slashed: 0,
            active_commitments: 0,
            registered_at: now,
            active: true,
        };
        self.solvers.insert(solver_id, info);
        self.solver_account_to_id.insert(*who, solver_id);
        self.next_solver_id = solver_id.saturating_add(1);
        effects.push(
            Effect::Emit(Event::SolverRegistered { solver_id, account: *who, bond }),
        );
        assert(effects@ =~= register_effects(st, *who));
        assert(self@ =~= register_next(st, *who, now));
        Ok(effects)
    }

    /// Deregister `who` and hand the bond back.
    pub fn deregister_solver(&mut self, who: &AccountId) -> (r: Result<Vec<Effect>, Error>)
        ensures
            match r {
                Ok(effects) => {
                    &&& deregister_error(old(self)@, *who) is None
                    &&& effects@ == deregister_effects(old(self)@, *who)
                    &&& final(self)@ == deregister_next(old(self)@, *who)
                },
                Err(e) => {
                    &&& deregister_error(old(self)@, *who) == Some(e)
                    &&& final(self)@ == old(self)@
                },
            },
    {
        let ghost st = self@;
        let (solver_id, found): (u64, Solver) = match find_solver(self, who) {
            Some(x) => x,
            None => return Err(Error::SolverNotRegistered),
        };
        if !found.active {
            return Err(Error::SolverNotActive);
        }
        if found.active_commitments != 0 {
            return Err(Error::ActiveCommitmentsExist);
        }
        let bond: u128 = found.bond;
        let mut solver: Solver = found;
        solver.active = false;
        solver.bond = 0;
        self.solvers.insert(solver_id, solver);
        let mut effects: Vec<Effect> = Vec::new();
        effects.push(
            make_transfer_or(
                self.config.native_asset,
                Pallet::solver_escrow_account(solver_id),
                *who,
                bond,
                Preservation::Expendable,
                Error::InsufficientBondFunds,
            ),
        );
        effects.push(
            Effect::Emit(
                Event::SolverDeregistered { solver_id, account: *who, bond_refunded: bond },
            ),
        );
        assert(effects@ =~= deregister_effects(st, *who));
        assert(self@ =~= deregister_next(st, *who));
        Ok(effects)
    }

    /// Submit an intent and put its input into escrow.
    pub fn submit_intent(&mut self, req: &IntentRequest, now: BlockNumber) -> (r: Result<
        Vec<Effect>,
        Error,
    >)
        ensures
            match r {
                Ok(effects) => {
                    &&& submit_error(*req, now) is None
                    &&& effects@ == submit_effects(old(self)@, *req)
                    &&& final(self)@ == submit_next(old(self)@, *req, now)
                },
                Err(e) => {
                    &&& submit_error(*req, now) == Some(e)
                    &&& final(self)@ == old(self)@
                },
            },
    {
        let ghost st = self@;
        if req.amount_in == 0 || req.token_in == req.token_out {
            return Err(Error::InvalidAmount);
        }
        if req.deadline <= now {
            return Err(Error::InvalidDeadline);
        }
        let intent_id: u64 = self.next_intent_id;
        let intent: DexIntent = DexIntent {
            id: intent_id,
            user: req.who,
            token_in: req.token_in,
            token_out: req.token_out,
            amount_in: req.amount_in,
            min_amount_out: req.min_amount_out,
            deadline: req.deadline,
            submitted_at: now,
            status: IntentStatus::Open,
        };
        self.intents.insert(intent_id, intent);
        self.intent_escrow_balances.insert(intent_id, (req.token_in, req.amount_in));
        self.next_intent_id = intent_id.saturating_add(1);
        let mut effects: Vec<Effect> = Vec::new();
        effects.push(
            make_transfer_or(
                req.token_in,
                req.who,
                Pallet::intent_escrow_account(),
                req.amount_in,
                Preservation::Preserve,
                Error::InvalidAmount,
            ),
        );
        effects.push(
            Effect::Emit(
                Event::IntentSubmitted {
                    intent_id,
                    user: req.who,
                    token_in: req.token_in,
                    token_out: req.token_out,
                    amount_in: req.amount_in,
                    min_amount_out: req.min_amount_out,
                    deadline: req.deadline,
                },
            ),
        );
        assert(effects@ =~= submit_effects(st, *req));
        assert(self@ =~= submit_next(st, *req, now));
        Ok(effects)
    }

    /// The open intent `id` of `who`.
    fn open_intent(&self, who: &AccountId, id: u64) -> (r: Result<DexIntent, Error>)
        ensures
            match r {
                Ok(intent) => owner_error(self@, *who, id) is None && intent == self@.intents[id],
                Err(e) => owner_error(self@, *who, id) == Some(e),
            },
    {
        let intent: DexIntent = match self.intents.get(&id) {
            Some(i) => i,
            None => return Err(Error::IntentNotFound),
        };
        if !intent.user.same(who) {
            return Err(Error::NotIntentOwner);
        }
        if intent.status != IntentStatus::Open {
            return Err(Error::IntentNotOpen);
        }
        Ok(intent)
    }

    /// End an intent with `status`, drop its escrow entry and hand the escrow to
    /// `to`.
    fn end_and_return(
        &mut self,
        id: u64,
        status: IntentStatus,
        intent: DexIntent,
        escrow: (AssetKind, Balance),
        to: AccountId,
    ) -> (r: Effect)
        requires
            old(self)@.intents.dom().contains(id),
            intent == old(self)@.intents[id],
            old(self)@.intent_escrow_balances.dom().contains(id),
            escrow == old(self)@.intent_escrow_balances[id],
        ensures
            final(self)@ == intent_ended(old(self)@, id, status),
            r == escrow_return(old(self)@, id, to),
    {
        let ghost st = self@;
        let mut ended: DexIntent = intent;
        ended.status = status;
        self.intents.insert(id, ended);
        self.intent_escrow_balances.remove(&id);
        assert(self@ =~= intent_ended(st, id, status));
        make_transfer_or(
            escrow.0,
            Pallet::intent_escrow_account(),
            to,
            escrow.1,
            Preservation::Expendable,
            Error::InvalidAmount,
        )
    }

    /// Cancel an open intent; only its owner may.
    pub fn cancel_intent(&mut self, who: &AccountId, intent_id: u64) -> (r: Result<
        Vec<Effect>,
        Error,
    >)
        ensures
            match r {
                Ok(effects) => {
                    &&& cancel_error(old(self)@, *who, intent_id) is None
                    &&& effects@ == seq![
                        escrow_return(old(self)@, intent_id, *who),
                        Effect::Emit(Event::IntentCancelled { intent_id, user: *who }),
                    ]
                    &&& final(self)@ == intent_ended(
                        old(self)@,
                        intent_id,
                        IntentStatus::Cancelled,
                    )
                },
                Err(e) => {
                    &&& cancel_error(old(self)@, *who, intent_id) == Some(e)
                    &&& final(self)@ == old(self)@
                },
            },
    {
        let intent: DexIntent = match self.open_intent(who, intent_id) {
            Ok(i) => i,
            Err(e) => return Err(e),
        };
        let escrow: (AssetKind, u128) = match self.intent_escrow_balances.get(&intent_id) {
            Some(x) => x,
            None => return Err(Error::IntentNotFound),
        };
        let back = self.end_and_return(intent_id, IntentStatus::Cancelled, intent, escrow, *who);
        let mut effects: Vec<Effect> = Vec::new();
        effects.push(back);
        effects.push(Effect::Emit(Event::IntentCancelled { intent_id, user: *who }));
        Ok(effects)
    }

    /// Refund an intent that nobody committed to by its deadline.
    pub fn refund_expired_intent(&mut self, who: &AccountId, intent_id: u64, now: BlockNumber) -> (r:
        Result<Vec<Effect>, Error>)
        ensures
            match r {
                Ok(effects) => {
                    &&& refund_error(old(self)@, *who, intent_id, now) is None
                    &&& effects@ == seq![
                        escrow_return(old(self)@, intent_id, *who),
                        Effect::Emit(
                            Event::IntentRefunded {
                                intent_id,
                                user: *who,
                                amount_refunded: old(self)@.intent_escrow_balances[intent_id].1,
                            },
                        ),
                    ]
                    &&& final(self)@ == intent_ended(old(self)@, intent_id, IntentStatus::Expired)
                },
                Err(e) => {
                    &&& refund_error(old(self)@, *who, intent_id, now) == Some(e)
                    &&& final(self)@ == old(self)@
                },
            },
    {
        let intent: DexIntent = match self.open_intent(who, intent_id) {
            Ok(i) => i,
            Err(e) => return Err(e),
        };
        if now < intent.deadline {
            return Err(Error::DeadlineNotPassed);
        }
        let escrow: (AssetKind, u128) = match self.intent_escrow_balances.get(&intent_id) {
            Some(x) => x,
            None => return Err(Error::IntentNotFound),
        };
        let back = self.end_and_return(intent_id, IntentStatus::Expired, intent, escrow, *who);
        let mut effects: Vec<Effect> = Vec::new();
        effects.push(back);
        effects.push(
            Effect::Emit(
                Event::IntentRefunded { intent_id, user: *who, amount_refunded: escrow.1 },
            ),
        );
        Ok(effects)
    }

    /// Commit to fill an intent at `committed_amount_out`, displacing any lower
    /// bid.
    pub fn commit_fill(
        &mut self,
        who: &AccountId,
        intent_id: u64,
        committed_amount_out: Balance,
        now: BlockNumber,
    ) -> (r: Result<Vec<Effect>, Error>)
        ensures
            match r {
                Ok(effects) => {
                    let st = old(self)@;
                    &&& commit_error(st, *who, intent_id, committed_amount_out, now) is None
                    &&& effects@ == seq![
                        Effect::Emit(
                            Event::FillCommitted {
                                intent_id,
                                solver_id: st.solver_account_to_id[*who],
                                committed_amount_out,
                                settle_by: later(now, st.settlement_window()),
                            },
                        ),
                    ]
                    &&& final(self)@ == commit_next(
                        st,
                        *who,
                        intent_id,
                        committed_amount_out,
                        now,
                    )
                },
                Err(e) => {
                    &&& commit_error(old(self)@, *who, intent_id, committed_amount_out, now)
                        == Some(e)
                    &&& final(self)@ == old(self)@
                },
            },
    {
        let ghost st = self@;
        let (solver_id, found): (u64, Solver) = match find_solver(self, who) {
            Some(x) => x,
            None => return Err(Error::SolverNotRegistered),
        };
        if !found.active {
            return Err(Error::SolverNotActive);
        }
        let mut intent: DexIntent = match self.intents.get(&intent_id) {
            Some(i) => i,
            None => return Err(Error::IntentNotFound),
        };
        if intent.status != IntentStatus::Open && intent.status != IntentStatus::Committed {
            return Err(Error::IntentNotOpen);
        }
        if committed_amount_out < intent.min_amount_out {
            return Err(Error::BelowMinAmountOut);
        }
        let bid_deadline: u64 = intent.submitted_at.saturating_add(self.current_bid_window());
        if now > bid_deadline {
            return Err(Error::BidWindowClosed);
        }
        if now >= intent.deadline {
            return Err(Error::IntentExpired);
        }
        let mut self_replaced = false;
        if let Some(prior) = self.fill_commitments.get(&intent_id) {
            if committed_amount_out <= prior.committed_amount_out {
                return Err(Error::BidNotBetter);
            }
            if prior.solver_id == solver_id {
                self_replaced = true;
            } else if let Some(d) = self.solvers.get(&prior.solver_id) {
                let mut displaced: Solver = d;
                displaced.active_commitments = displaced.active_commitments.saturating_sub(1);
                self.solvers.insert(prior.solver_id, displaced);
            }
        }
        let settle_by: u64 = now.saturating_add(self.current_settlement_window());
        let commitment: Commitment = Commitment {
            intent_id,
            solver_id,
            solver_account: *who,
            committed_amount_out,
            committed_at: now,
            settle_by,
        };
        self.fill_commitments.insert(intent_id, commitment);
        if !self_replaced {
            let mut solver: Solver = found;
            solver.active_commitments = solver.active_commitments.saturating_add(1);
            self.solvers.insert(solver_id, solver);
        }
        intent.status = IntentStatus::Committed;
        self.intents.insert(intent_id, intent);
        let mut effects: Vec<Effect> = Vec::new();
        effects.push(
            Effect::Emit(
                Event::FillCommitted { intent_id, solver_id, committed_amount_out, settle_by },
            ),
        );
        assert(self@ =~= commit_next(st, *who, intent_id, committed_amount_out, now));
        Ok(effects)
    }

    /// The swap that would settle an intent, for the committed solver inside the
    /// settlement window.
    pub fn plan_settlement(&self, who: &AccountId, intent_id: u64, now: BlockNumber) -> (r: Result<
        SwapRequest,
        Error,
    >)
        ensures
            match r {
                Ok(req) => {
                    &&& settle_plan_error(self@, *who, intent_id, now) is None
                    &&& req == settling_swap(self@, intent_id)
                },
                Err(e) => settle_plan_error(self@, *who, intent_id, now) == Some(e),
            },
    {
        let commitment: Commitment = match self.fill_commitments.get(&intent_id) {
            Some(c) => c,
            None => return Err(Error::IntentNotCommitted),
        };
        if !commitment.solver_account.same(who) {
            return Err(Error::NotCommittedSolver);
        }
        if now > commitment.settle_by {
            return Err(Error::SettlementWindowPassed);
        }
        let intent: DexIntent = match self.intents.get(&intent_id) {
            Some(i) => i,
            None => return Err(Error::IntentNotFound),
        };
        if intent.status != IntentStatus::Committed {
            return Err(Error::IntentNotCommitted);
        }
        let escrow: AccountId = Pallet::intent_escrow_account();
        Ok(
            SwapRequest {
                who: escrow,
                asset_in: intent.token_in,
                asset_out: intent.token_out,
                amount_in: intent.amount_in,
                amount_out_min: commitment.committed_amount_out,
                recipient: escrow,
                is_trade: true,
                input: Preservation::Expendable,
            },
        )
    }

    /// Settle a committed intent: swap its input, hand the user what was
    /// committed, and split what the swap brought above that.
    pub fn settle_intent(&mut self, who: &AccountId, intent_id: u64, ctx: &SwapContext) -> (r:
        Result<Vec<Effect>, Error>)
        ensures
            match r {
                Ok(effects) => {
                    &&& settle_error(old(self)@, *who, intent_id, *ctx) is None
                    &&& effects@ == settle_effects(old(self)@, *who, intent_id, *ctx)
                    &&& final(self)@ == settle_next(old(self)@, intent_id, *ctx)
                },
                Err(e) => {
                    &&& settle_error(old(self)@, *who, intent_id, *ctx) == Some(e)
                    &&& final(self)@ == old(self)@
                },
            },
    {
        let ghost st = self@;
        let req: SwapRequest = match self.plan_settlement(who, intent_id, ctx.now) {
            Ok(req) => req,
            Err(e) => return Err(e),
        };
        let commitment: Commitment = match self.fill_commitments.get(&intent_id) {
            Some(c) => c,
            None => return Err(Error::IntentNotCommitted),
        };
        let mut intent: DexIntent = match self.intents.get(&intent_id) {
            Some(i) => i,
            None => return Err(Error::IntentNotFound),
        };
        let (actual_out, swapped): (u128, Vec<Effect>) = match self.do_swap(&req, ctx) {
            Ok(x) => x,
            Err(e) => return Err(e),
        };
        let mut effects: Vec<Effect> = swapped;
        proof {
            lemma_quote_ranges(st, req, *ctx);
        }
        let profit: u128 = actual_out - commitment.committed_amount_out;
        proof {
            law_split_conserves(profit, SOLVER_PROFIT_FEE_BPS);
        }
        let (net_profit, protocol_fee): (u128, u128) = split_solver_profit_u128(
            profit,
            SOLVER_PROFIT_FEE_BPS,
        );
        let escrow: AccountId = Pallet::intent_escrow_account();
        effects.push(
            make_transfer_or(
                intent.token_out,
                escrow,
                intent.user,
                commitment.committed_amount_out,
                Preservation::Expendable,
                Error::InvalidAmount,
            ),
        );
        if protocol_fee != 0 {
            effects.push(
                make_transfer_or(
                    intent.token_out,
                    escrow,
                    Pallet::protocol_treasury_account(),
                    protocol_fee,
                    Preservation::Expendable,
                    Error::InvalidAmount,
                ),
            );
        }
        if net_profit != 0 {
            effects.push(
                make_transfer_or(
                    intent.token_out,
                    escrow,
                    *who,
                    net_profit,
                    Preservation::Expendable,
                    Error::InvalidAmount,
                ),
            );
        }
        assert(effects@ =~= swap_effects(st, req, *ctx) + settle_payouts(
            st,
            *who,
            intent_id,
            *ctx,
        ));
        self.intent_escrow_balances.remove(&intent_id);
        intent.status = IntentStatus::Settled;
        self.intents.insert(intent_id, intent);
        self.fill_commitments.remove(&intent_id);
        if let Some(s) = self.solvers.get(&commitment.solver_id) {
            let mut solver: Solver = s;
            solver.reputation = saturating_sum(solver.reputation, REPUTATION_FILL_REWARD);
            solver.fills_completed = solver.fills_completed.saturating_add(1);
            solver.active_commitments = solver.active_commitments.saturating_sub(1);
            self.solvers.insert(commitment.solver_id, solver);
        }
        effects.push(
            Effect::Emit(
                Event::IntentSettled {
                    intent_id,
                    solver_id: commitment.solver_id,
                    user: intent.user,
                    amount_out_to_user: commitment.committed_amount_out,
                    solver_net_profit: net_profit,
                    protocol_fee,
                },
            ),
        );
        assert(effects@ =~= settle_effects(st, *who, intent_id, *ctx));
        assert(self@ =~= settle_next(st, intent_id, *ctx));
        Ok(effects)
    }

    /// Read a slash: the commitment, the intent and the solver.
    fn read_slash(&self, intent_id: u64, now: BlockNumber) -> (r: Result<
        (Commitment, DexIntent, Solver),
        Error,
    >)
        ensures
            match r {
                Ok((c, i, s)) => {
                    &&& slash_refusal(self@, intent_id, now) is None
                    &&& c == self@.fill_commitments[intent_id]
                    &&& i == self@.intents[intent_id]
                    &&& s == self@.solvers[c.solver_id]
                },
                Err(e) => slash_refusal(self@, intent_id, now) == Some(e),
            },
    {
        let commitment: Commitment = match self.fill_commitments.get(&intent_id) {
            Some(c) => c,
            None => return Err(Error::IntentNotCommitted),
        };
        if now <= commitment.settle_by {
            return Err(Error::SettlementWindowNotPassed);
        }
        let intent: DexIntent = match self.intents.get(&intent_id) {
            Some(i) => i,
            None => return Err(Error::IntentNotFound),
        };
        if intent.status != IntentStatus::Committed {
            return Err(Error::IntentNotCommitted);
        }
        match self.solvers.get(&commitment.solver_id) {
            Some(s) => Ok((commitment, intent, s)),
            None => Err(Error::SolverNotRegistered),
        }
    }

    /// What a slash moves first. A host makes these transfers before it asks for the
    /// slash itself, whose effects begin with them.
    pub fn legs_of_slash(&self, slasher: &AccountId, intent_id: u64, now: BlockNumber) -> (r:
        Result<Vec<Effect>, Error>)
        ensures
            match r {
                Ok(legs) => {
                    &&& slash_refusal(self@, intent_id, now) is None
                    &&& legs@ == slash_legs(self@, *slasher, intent_id)
                },
                Err(e) => slash_refusal(self@, intent_id, now) == Some(e),
            },
    {
        let (commitment, _, solver): (Commitment, DexIntent, Solver) = match self.read_slash(
            intent_id,
            now,
        ) {
            Ok(x) => x,
            Err(e) => return Err(e),
        };
        proof {
            law_split_conserves(solver.bond, SLASHER_REWARD_BPS);
        }
        let (to_treasury, to_slasher): (u128, u128) = split_slashed_bond_u128(
            solver.bond,
            SLASHER_REWARD_BPS,
        );
        let native: AssetKind = self.config.native_asset;
        let account: AccountId = Pallet::solver_escrow_account(commitment.solver_id);
        let mut legs: Vec<Effect> = Vec::new();
        if to_treasury != 0 {
            legs.push(
                make_transfer_or(
                    native,
                    account,
                    Pallet::protocol_treasury_account(),
                    to_treasury,
                    Preservation::Expendable,
                    Error::InsufficientBondFunds,
                ),
            );
        }
        if to_slasher != 0 {
            legs.push(
                make_transfer_or(
                    native,
                    account,
                    *slasher,
                    to_slasher,
                    Preservation::Expendable,
                    Error::InsufficientBondFunds,
                ),
            );
        }
        assert(legs@ =~= slash_legs(self@, *slasher, intent_id));
        Ok(legs)
    }

    /// Slash a solver that let the settlement window pass, and refund the user.
    pub fn slash_solver(&mut self, slasher: &AccountId, intent_id: u64, now: BlockNumber) -> (r:
        Result<Vec<Effect>, Error>)
        ensures
            match r {
                Ok(effects) => {
                    &&& slash_error(old(self)@, intent_id, now) is None
                    &&& effects@ == slash_effects(old(self)@, *slasher, intent_id)
                    &&& final(self)@ == slash_next(old(self)@, intent_id)
                },
                Err(e) => {
                    &&& slash_error(old(self)@, intent_id, now) == Some(e)
                    &&& final(self)@ == old(self)@
                },
            },
    {
        let ghost st = self@;
        let (commitment, intent, found): (Commitment, DexIntent, Solver) = match self.read_slash(
            intent_id,
            now,
        ) {
            Ok(x) => x,
            Err(e) => return Err(e),
        };
        let mut effects: Vec<Effect> = match self.legs_of_slash(slasher, intent_id, now) {
            Ok(legs) => legs,
            Err(e) => return Err(e),
        };
        let escrow: (AssetKind, u128) = match self.intent_escrow_balances.get(&intent_id) {
            Some(x) => x,
            None => return Err(Error::IntentNotFound),
        };
        let bond: u128 = found.bond;
        proof {
            law_split_conserves(bond, SLASHER_REWARD_BPS);
        }
        let (to_treasury, to_slasher): (u128, u128) = split_slashed_bond_u128(
            bond,
            SLASHER_REWARD_BPS,
        );
        let back = self.end_and_return(
            intent_id,
            IntentStatus::Expired,
            intent,
            escrow,
            intent.user,
        );
        effects.push(back);
        self.fill_commitments.remove(&intent_id);
        let mut solver: Solver = found;
        solver.bond = 0;
        solver.reputation = saturating_sum(solver.reputation, REPUTATION_SLASH_PENALTY);
        solver.fills_slashed = solver.fills_slashed.saturating_add(1);
        solver.active_commitments = solver.active_commitments.saturating_sub(1);
        solver.active = false;
        self.solvers.insert(commitment.solver_id, solver);
        effects.push(
            Effect::Emit(
                Event::SolverSlashed {
                    solver_id: commitment.solver_id,
                    intent_id,
                    slashed_amount: bond,
                    to_treasury,
                    to_slasher,
                    slasher: *slasher,
                },
            ),
        );
        effects.push(
            Effect::Emit(
                Event::IntentRefunded {
                    intent_id,
                    user: intent.user,
                    amount_refunded: escrow.1,
                },
            ),
        );
        assert(effects@ =~= slash_effects(st, *slasher, intent_id));
        assert(self@ =~= slash_next(st, intent_id));
        Ok(effects)
    }
}

} // verus!
