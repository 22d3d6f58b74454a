//! What an operation asks of the ledger and tells the outside agrees with what it
//! records.

use super::fill_laws::filling_swap;
use super::governance::{claim_effects, withdraw_effects};
use super::liquidity::{
    deposit_effects, deposit_error, deposit_legs, deposit_next, pool_created, withdrawal_effects,
    withdrawal_error, withdrawal_legs, withdrawal_next, DepositRequest, WithdrawalRequest,
};
use super::market::{
    deregister_effects, deregister_next, escrow_return, register_effects, register_next,
    settle_effects, settle_error, settle_fee, settle_payouts, settle_profit, settling_swap,
    slash_effects, slash_error, slash_legs, slash_next, submit_effects, submit_next, IntentRequest,
};
use super::seed::{seed_effects, seed_error, seed_next, SeedRequest};
use super::state::{
    fee_escrow, intent_escrow, protocol_treasury, solver_escrow, DexState,
};
use super::swap::{
    lemma_quote_ranges, quote_of, swap_effects, swap_error, swap_legs, SwapContext, SwapRequest,
};
use super::types::{Effect, Error, Event, Transfer};
use crate::accounts::canonical;
use crate::arith::{is_largest, lemma_floor, lemma_floor_is};
use crate::primitives::{AccountId, AssetKind, AssetPair, Balance, BlockNumber, Preservation};
use crate::settlement::{law_split_conserves, SLASHER_REWARD_BPS, SOLVER_PROFIT_FEE_BPS};
use vstd::prelude::*;

verus! {

/// A payment that may empty the account it comes from.
pub open spec fn pays(
    asset: AssetKind,
    from: AccountId,
    to: AccountId,
    amount: int,
    on_failure: Option<Error>,
) -> Effect {
    Effect::Transfer(
        Transfer {
            asset,
            from,
            to,
            amount: amount as u128,
            preservation: Preservation::Expendable,
            on_failure,
        },
    )
}

/// A payment that leaves the account it comes from alive.
pub open spec fn pays_and_lives(
    asset: AssetKind,
    from: AccountId,
    to: AccountId,
    amount: int,
    on_failure: Option<Error>,
) -> Effect {
    Effect::Transfer(
        Transfer {
            asset,
            from,
            to,
            amount: amount as u128,
            preservation: Preservation::Preserve,
            on_failure,
        },
    )
}

/// The payment, where it is of anything.
pub open spec fn unless_nothing(amount: int, e: Effect) -> Seq<Effect> {
    if amount > 0 {
        seq![e]
    } else {
        Seq::empty()
    }
}

/// A deposit pays in what the reserves grow by and tells of that and of the shares that
/// the provider's position grew by.
pub proof fn law_deposit_is_told(
    st: DexState,
    req: DepositRequest,
    held_a: Balance,
    held_b: Balance,
    now: BlockNumber,
)
    requires
        deposit_error(st, req, held_a, held_b) is None,
    ensures
        ({
            let pair = canonical(req.asset_a, req.asset_b);
            let key = (req.who, pair);
            let next = deposit_next(st, req, held_a, held_b, now);
            let pool = next.pools[pair];
            let (x, y) = (pool.reserve_a - held_a, pool.reserve_b - held_b);
            let before = if st.liquidity_positions.dom().contains(key) {
                st.liquidity_positions[key].shares as int
            } else {
                0
            };
            let legs = seq![
                pays(pair.0, req.who, pool.pool_account, x, None),
                pays(pair.1, req.who, pool.pool_account, y, None),
            ];
            &&& deposit_legs(st, req, held_a, held_b) == legs
            &&& deposit_effects(st, req, held_a, held_b) == legs.push(
                Effect::Emit(
                    Event::LiquidityAdded {
                        provider: req.who,
                        asset_a: pair.0,
                        asset_b: pair.1,
                        amount_a: x as u128,
                        amount_b: y as u128,
                        shares_minted: (next.liquidity_positions[key].shares - before) as u128,
                    },
                ),
            )
        }),
{
    let pair = canonical(req.asset_a, req.asset_b);
    let pool = deposit_next(st, req, held_a, held_b, now).pools[pair];
    let legs = deposit_legs(st, req, held_a, held_b);
    let all = deposit_effects(st, req, held_a, held_b);
    assert(all =~= legs.push(all[2]));
    assert(legs =~= seq![
        pays(pair.0, req.who, pool.pool_account, pool.reserve_a - held_a, None),
        pays(pair.1, req.who, pool.pool_account, pool.reserve_b - held_b, None),
    ]);
}

/// A withdrawal pays out what the reserves fall by and tells of that and of the shares
/// that are gone.
pub proof fn law_withdrawal_is_told(
    st: DexState,
    req: WithdrawalRequest,
    held_a: Balance,
    held_b: Balance,
    now: BlockNumber,
)
    requires
        withdrawal_error(st, req, held_a, held_b, now) is None,
    ensures
        ({
            let pair = canonical(req.asset_a, req.asset_b);
            let next = withdrawal_next(st, req, held_a, held_b);
            let pool = next.pools[pair];
            let (x, y) = (held_a - pool.reserve_a, held_b - pool.reserve_b);
            let legs = seq![
                pays(pair.0, pool.pool_account, req.who, x, None),
                pays(pair.1, pool.pool_account, req.who, y, None),
            ];
            &&& withdrawal_legs(st, req, held_a, held_b) == legs
            &&& withdrawal_effects(st, req, held_a, held_b) == legs.push(
                Effect::Emit(
                    Event::LiquidityRemoved {
                        provider: req.who,
                        asset_a: pair.0,
                        asset_b: pair.1,
                        amount_a: x as u128,
                        amount_b: y as u128,
                        shares_burned: (st.total_liquidity[pair] - next.total_liquidity[pair]) as
                            u128,
                    },
                ),
            )
        }),
{
    let pair = canonical(req.asset_a, req.asset_b);
    let total = st.total_liquidity[pair] as int;
    let pool = withdrawal_next(st, req, held_a, held_b).pools[pair];
    assert(0 <= req.shares * held_a && 0 <= req.shares * held_b) by (nonlinear_arith);
    lemma_floor(req.shares * held_a, total);
    lemma_floor(req.shares * held_b, total);
    let legs = withdrawal_legs(st, req, held_a, held_b);
    let all = withdrawal_effects(st, req, held_a, held_b);
    assert(all =~= legs.push(all[2]));
    assert(legs =~= seq![
        pays(pair.0, pool.pool_account, req.who, held_a - pool.reserve_a, None),
        pays(pair.1, pool.pool_account, req.who, held_b - pool.reserve_b, None),
    ]);
}

/// A swap pays the input into the pool and the output out of it. Then the slices leave
/// the pool: what is owed to the protocol and the creator for the fee escrow, and the
/// treasury's for its sink, which is told of it under the asset that is not native. It
/// tells of what was paid, of the fee, and of the slices where there are any.
pub proof fn law_swap_is_told(st: DexState, req: SwapRequest, ctx: SwapContext)
    requires
        swap_error(st, req, ctx) is None,
    ensures
        ({
            let pair = canonical(req.asset_in, req.asset_out);
            let native = st.config.native_asset;
            let account = st.pools[pair].pool_account;
            let q = quote_of(st, req, ctx);
            let other = if req.asset_in == native {
                req.asset_out
            } else {
                req.asset_in
            };
            let escrowed = q.protocol + q.creator;
            let legs = seq![
                if req.asset_in == native && req.input == Preservation::Preserve {
                    pays_and_lives(req.asset_in, req.who, account, req.amount_in as int, None)
                } else {
                    pays(req.asset_in, req.who, account, req.amount_in as int, None)
                },
                pays(req.asset_out, account, req.recipient, q.amount_out as int, None),
            ];
            let to_escrow = if escrowed >= ctx.existential_deposit || ctx.escrow_exists {
                escrowed
            } else {
                0
            };
            let to_sink = if ctx.sink is Some && (q.treasury >= ctx.existential_deposit
                || ctx.vault_exists) {
                q.treasury as int
            } else {
                0
            };
            &&& swap_legs(req, q) == legs
            &&& swap_effects(st, req, ctx) == legs + unless_nothing(
                to_escrow,
                pays(native, account, fee_escrow(), to_escrow, None),
            ) + unless_nothing(
                to_sink,
                pays(native, account, ctx.sink->0, to_sink, None),
            ) + unless_nothing(
                to_sink,
                Effect::NoteFee { asset: other, amount: to_sink as u128 },
            ) + seq![
                Effect::Emit(
                    Event::SwapExecuted {
                        who: req.who,
                        asset_in: req.asset_in,
                        asset_out: req.asset_out,
                        amount_in: req.amount_in,
                        amount_out: q.amount_out,
                        fee: q.fee,
                    },
                ),
                Effect::Emit(
                    Event::FeesCollected { pool: pair, amount: q.fee, recipient: account },
                ),
            ] + unless_nothing(
                q.protocol + q.creator + q.treasury,
                Effect::Emit(
                    Event::FeesRouted {
                        pool: pair,
                        protocol: q.protocol,
                        creator: q.creator,
                        treasury: q.treasury,
                    },
                ),
            )
        }),
{
    let pair = canonical(req.asset_in, req.asset_out);
    let native = st.config.native_asset;
    let account = st.pools[pair].pool_account;
    let q = quote_of(st, req, ctx);
    lemma_quote_ranges(st, req, ctx);
    let legs = swap_legs(req, q);
    assert(legs =~= seq![
        if req.asset_in == native && req.input == Preservation::Preserve {
            pays_and_lives(req.asset_in, req.who, account, req.amount_in as int, None)
        } else {
            pays(req.asset_in, req.who, account, req.amount_in as int, None)
        },
        pays(req.asset_out, account, req.recipient, q.amount_out as int, None),
    ]);
    let other = if req.asset_in == native {
        req.asset_out
    } else {
        req.asset_in
    };
    let escrowed = q.protocol + q.creator;
    let to_escrow = if escrowed >= ctx.existential_deposit || ctx.escrow_exists {
        escrowed
    } else {
        0
    };
    let to_sink = if ctx.sink is Some && (q.treasury >= ctx.existential_deposit
        || ctx.vault_exists) {
        q.treasury as int
    } else {
        0
    };
    assert(swap_effects(st, req, ctx) =~= legs + unless_nothing(
        to_escrow,
        pays(native, account, fee_escrow(), to_escrow, None),
    ) + unless_nothing(
        to_sink,
        pays(native, account, ctx.sink->0, to_sink, None),
    ) + unless_nothing(
        to_sink,
        Effect::NoteFee { asset: other, amount: to_sink as u128 },
    ) + seq![
        Effect::Emit(
            Event::SwapExecuted {
                who: req.who,
                asset_in: req.asset_in,
                asset_out: req.asset_out,
                amount_in: req.amount_in,
                amount_out: q.amount_out,
                fee: q.fee,
            },
        ),
        Effect::Emit(Event::FeesCollected { pool: pair, amount: q.fee, recipient: account }),
    ] + unless_nothing(
        q.protocol + q.creator + q.treasury,
        Effect::Emit(
            Event::FeesRouted {
                pool: pair,
                protocol: q.protocol,
                creator: q.creator,
                treasury: q.treasury,
            },
        ),
    ));
}

/// A seed tells of a pool that it opens, sweeps what the account held before to the
/// excess recipient, pays the quote in and then the asset, and tells of the liquidity,
/// of the lock and of the seed.
pub proof fn law_seed_is_told(
    st: DexState,
    req: SeedRequest,
    held_asset: Balance,
    held_quote: Balance,
    now: BlockNumber,
)
    requires
        seed_error(st, req) is None,
    ensures
        ({
            let pair = canonical(req.asset, req.quote);
            let next = seed_next(st, req, now);
            let pool = next.pools[pair];
            let position = next.liquidity_positions[(req.who, pair)];
            let swept = |asset: AssetKind, held: Balance|
                if held > 0 {
                    seq![
                        pays(
                            asset,
                            pool.pool_account,
                            st.config.excess_recipient,
                            held as int,
                            Some(Error::ExcessRecipientCannotReceive),
                        ),
                        Effect::Emit(
                            Event::PreSeedBalanceSwept {
                                pool: pair,
                                asset,
                                amount: held,
                                to: st.config.excess_recipient,
                            },
                        ),
                    ]
                } else {
                    Seq::empty()
                };
            let opened = if st.pools.dom().contains(pair) {
                Seq::empty()
            } else {
                seq![
                    Effect::Emit(
                        Event::PoolCreated {
                            asset_a: pair.0,
                            asset_b: pair.1,
                            fee_tier: req.fee_tier,
                        },
                    ),
                ]
            };
            seed_effects(st, req, held_asset, held_quote) == opened + swept(
                req.asset,
                held_asset,
            ) + swept(req.quote, held_quote) + seq![
                pays(req.quote, req.who, pool.pool_account, req.amount_quote as int, None),
                pays(req.asset, req.who, pool.pool_account, req.amount_asset as int, None),
                Effect::Emit(
                    Event::LiquidityAdded {
                        provider: req.who,
                        asset_a: pair.0,
                        asset_b: pair.1,
                        amount_a: pool.reserve_a,
                        amount_b: pool.reserve_b,
                        shares_minted: position.shares,
                    },
                ),
                Effect::Emit(
                    Event::LiquidityLocked {
                        who: req.who,
                        pool: pair,
                        locked_until: position.locked_until->0,
                    },
                ),
                Effect::Emit(
                    Event::ReservedPoolSeeded {
                        who: req.who,
                        asset: req.asset,
                        quote: req.quote,
                        amount_asset: req.amount_asset,
                        amount_quote: req.amount_quote,
                        shares: position.shares,
                    },
                ),
            ]
        }),
{
}

/// A pool that is created is told of under its pair.
pub proof fn law_creation_is_told(pair: AssetPair, fee_tier: u32)
    ensures
        pool_created(pair, fee_tier) == Effect::Emit(
            Event::PoolCreated { asset_a: pair.0, asset_b: pair.1, fee_tier },
        ),
{
}

/// Accrued fees leave the fee escrow whole, and are told of as they are paid.
pub proof fn law_fees_are_told(st: DexState, who: AccountId, asset: AssetKind)
    ensures
        ({
            let native = st.config.native_asset;
            let pair = canonical(asset, native);
            let amount = st.creator_fees_unclaimed[pair];
            claim_effects(st, who, asset) == seq![
                pays(native, fee_escrow(), who, amount as int, None),
                Effect::Emit(Event::CreatorFeesClaimed { pool: pair, recipient: who, amount }),
            ]
        }),
        ({
            let recipient = match st.protocol_fee_recipient {
                Some(r) => r,
                None => st.config.default_protocol_fee_recipient,
            };
            let amount = st.protocol_fees_unclaimed;
            withdraw_effects(st) == seq![
                pays(st.config.native_asset, fee_escrow(), recipient, amount as int, None),
                Effect::Emit(Event::ProtocolFeesWithdrawn { recipient, amount }),
            ]
        }),
{
}

/// A solver pays its bond into an escrow of its own and gets it back from there. An
/// intent's offer is paid into the intent escrow and comes back from there.
pub proof fn law_bonds_and_offers_are_told(
    st: DexState,
    who: AccountId,
    req: IntentRequest,
    id: u64,
    now: BlockNumber,
)
    ensures
        ({
            let native = st.config.native_asset;
            let solver_id = st.next_solver_id;
            let bond = register_next(st, who, now).solvers[solver_id].bond;
            register_effects(st, who) == seq![
                pays_and_lives(
                    native,
                    who,
                    solver_escrow(solver_id),
                    bond as int,
                    Some(Error::InsufficientBondFunds),
                ),
                Effect::Emit(Event::SolverRegistered { solver_id, account: who, bond }),
            ]
        }),
        ({
            let native = st.config.native_asset;
            let solver_id = st.solver_account_to_id[who];
            let left = deregister_next(st, who).solvers[solver_id].bond;
            let bond = st.solvers[solver_id].bond - left;
            deregister_effects(st, who) == seq![
                pays(
                    native,
                    solver_escrow(solver_id),
                    who,
                    bond,
                    Some(Error::InsufficientBondFunds),
                ),
                Effect::Emit(
                    Event::SolverDeregistered {
                        solver_id,
                        account: who,
                        bond_refunded: bond as u128,
                    },
                ),
            ]
        }),
        ({
            let intent_id = st.next_intent_id;
            let intent = submit_next(st, req, now).intents[intent_id];
            submit_effects(st, req) == seq![
                pays_and_lives(
                    intent.token_in,
                    intent.user,
                    intent_escrow(),
                    intent.amount_in as int,
                    Some(Error::InvalidAmount),
                ),
                Effect::Emit(
                    Event::IntentSubmitted {
                        intent_id,
                        user: intent.user,
                        token_in: intent.token_in,
                        token_out: intent.token_out,
                        amount_in: intent.amount_in,
                        min_amount_out: intent.min_amount_out,
                        deadline: intent.deadline,
                    },
                ),
            ]
        }),
        escrow_return(st, id, who) == pays(
            st.intent_escrow_balances[id].0,
            intent_escrow(),
            who,
            st.intent_escrow_balances[id].1 as int,
            Some(Error::InvalidAmount),
        ),
{
}

/// A settlement makes its swap and then pays, out of the intent escrow, the user what
/// was committed, the protocol a fifth of what the swap brought beyond that, rounded
/// down, and the solver the rest, and tells of the three. Nothing is paid where nothing
/// is due.
pub proof fn law_settlement_is_told(
    st: DexState,
    who: AccountId,
    id: u64,
    ctx: SwapContext,
    fee: int,
)
    requires
        settle_error(st, who, id, ctx) is None,
        is_largest(
            fee,
            quote_of(st, filling_swap(st, id), ctx).amount_out
                - st.fill_commitments[id].committed_amount_out,
            5,
        ),
    ensures
        ({
            let swap = filling_swap(st, id);
            let token = st.intents[id].token_out;
            let user = st.intents[id].user;
            let committed = st.fill_commitments[id].committed_amount_out;
            let net = quote_of(st, swap, ctx).amount_out - committed - fee;
            let refused = Some(Error::InvalidAmount);
            settle_effects(st, who, id, ctx) == swap_effects(st, swap, ctx) + seq![
                pays(token, intent_escrow(), user, committed as int, refused),
            ] + unless_nothing(
                fee,
                pays(token, intent_escrow(), protocol_treasury(), fee, refused),
            ) + unless_nothing(
                net,
                pays(token, intent_escrow(), who, net, refused),
            ) + seq![
                Effect::Emit(
                    Event::IntentSettled {
                        intent_id: id,
                        solver_id: st.fill_commitments[id].solver_id,
                        user,
                        amount_out_to_user: committed,
                        solver_net_profit: net as u128,
                        protocol_fee: fee as u128,
                    },
                ),
            ]
        }),
{
    let swap = filling_swap(st, id);
    assert(settling_swap(st, id) == swap);
    lemma_quote_ranges(st, swap, ctx);
    let profit = settle_profit(st, id, ctx);
    law_split_conserves(profit as u128, SOLVER_PROFIT_FEE_BPS);
    lemma_floor_is(profit * 2_000, 10_000, fee);
    assert(settle_fee(st, id, ctx) == fee);
    let token = st.intents[id].token_out;
    let user = st.intents[id].user;
    let committed = st.fill_commitments[id].committed_amount_out;
    let net = profit - fee;
    let refused = Some(Error::InvalidAmount);
    assert(settle_payouts(st, who, id, ctx) =~= seq![
        pays(token, intent_escrow(), user, committed as int, refused),
    ] + unless_nothing(
        fee,
        pays(token, intent_escrow(), protocol_treasury(), fee, refused),
    ) + unless_nothing(net, pays(token, intent_escrow(), who, net, refused)));
    let all = settle_effects(st, who, id, ctx);
    assert(all =~= swap_effects(st, swap, ctx) + seq![
        pays(token, intent_escrow(), user, committed as int, refused),
    ] + unless_nothing(
        fee,
        pays(token, intent_escrow(), protocol_treasury(), fee, refused),
    ) + unless_nothing(net, pays(token, intent_escrow(), who, net, refused)) + seq![all.last()]);
}

/// A slash pays the bond out of the solver's escrow, to the protocol all but a tenth,
/// rounded down, and that to whoever slashes; it returns the offer to the user, and
/// tells of both.
pub proof fn law_slash_is_told(
    st: DexState,
    slasher: AccountId,
    id: u64,
    now: BlockNumber,
    reward: int,
)
    requires
        slash_error(st, id, now) is None,
        is_largest(reward, st.solvers[st.fill_commitments[id].solver_id].bond as int, 10),
    ensures
        ({
            let native = st.config.native_asset;
            let solver_id = st.fill_commitments[id].solver_id;
            let left = slash_next(st, id).solvers[solver_id].bond;
            let bond = st.solvers[solver_id].bond - left;
            let user = st.intents[id].user;
            let (asset, amount) = st.intent_escrow_balances[id];
            let refused = Some(Error::InsufficientBondFunds);
            let escrow = solver_escrow(solver_id);
            let legs = unless_nothing(
                bond - reward,
                pays(native, escrow, protocol_treasury(), bond - reward, refused),
            ) + unless_nothing(reward, pays(native, escrow, slasher, reward, refused));
            &&& slash_legs(st, slasher, id) == legs
            &&& slash_effects(st, slasher, id) == legs + seq![
                pays(asset, intent_escrow(), user, amount as int, Some(Error::InvalidAmount)),
                Effect::Emit(
                    Event::SolverSlashed {
                        solver_id,
                        intent_id: id,
                        slashed_amount: bond as u128,
                        to_treasury: (bond - reward) as u128,
                        to_slasher: reward as u128,
                        slasher,
                    },
                ),
                Effect::Emit(
                    Event::IntentRefunded { intent_id: id, user, amount_refunded: amount },
                ),
            ]
        }),
{
    let solver_id = st.fill_commitments[id].solver_id;
    let bond = st.solvers[solver_id].bond;
    law_split_conserves(bond, SLASHER_REWARD_BPS);
    lemma_floor_is(bond * 1_000, 10_000, reward);
    let native = st.config.native_asset;
    let escrow = solver_escrow(solver_id);
    let refused = Some(Error::InsufficientBondFunds);
    assert(slash_legs(st, slasher, id) =~= unless_nothing(
        bond - reward,
        pays(native, escrow, protocol_treasury(), bond - reward, refused),
    ) + unless_nothing(reward, pays(native, escrow, slasher, reward, refused)));
}

} // verus!
