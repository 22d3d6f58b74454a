//! What the marketplace's escrows are owed is what they hold.

use super::flows::{
    inflow, lemma_inflow_concat, lemma_inflow_one, lemma_inflow_three, lemma_inflow_two,
};
use super::market::{
    bond_payout, deregister_effects, deregister_error, deregister_next, escrow_return,
    intent_ended, register_effects, register_next, settle_effects, settle_error, settle_next,
    settling_swap, slash_effects, slash_error, slash_next, submit_effects, submit_error,
    submit_next, IntentRequest,
};
use super::market_laws::{
    law_settlement_leaves_escrow_whole, lemma_account_bytes, market_is_sound,
};
use super::state::{
    dex_account_bytes, fee_escrow, fee_escrow_seed, intent_escrow, intent_escrow_seed,
    protocol_treasury, protocol_treasury_seed, solver_escrow, solver_escrow_seed, DexState,
};
use super::swap::{requested_pool, SwapContext};
use crate::primitives::{AccountId, AssetKind, Balance, BlockNumber};
use crate::settlement::{bps_share, law_split_conserves, IntentStatus, SLASHER_REWARD_BPS};
use crate::sums::{lemma_sum_insert, lemma_sum_remove, sum_map};
use vstd::bytes::{
    lemma_auto_spec_u64_to_from_le_bytes, spec_u64_to_le_bytes, spec_u64_to_le_bytes_to_open,
};
use vstd::prelude::*;

verus! {

/// An escrow entry's part of what is owed in `asset`.
pub open spec fn escrowed(asset: AssetKind) -> spec_fn(u64, (AssetKind, Balance)) -> int {
    |id: u64, entry: (AssetKind, Balance)|
        if entry.0 == asset {
            entry.1 as int
        } else {
            0
        }
}

/// What the intent escrow owes in `asset`.
pub open spec fn owed(st: DexState, asset: AssetKind) -> int {
    sum_map(st.intent_escrow_balances, escrowed(asset))
}

/// A submission brings the intent escrow what it then owes more.
pub proof fn law_submission_fills_escrow(
    st: DexState,
    req: IntentRequest,
    now: BlockNumber,
    asset: AssetKind,
)
    requires
        st.intent_escrow_balances.dom().finite(),
        market_is_sound(st),
        submit_error(req, now) is None,
        req.who != intent_escrow(),
    ensures
        owed(submit_next(st, req, now), asset) == owed(st, asset) + inflow(
            submit_effects(st, req),
            asset,
            intent_escrow(),
        ),
{
    let e = submit_effects(st, req);
    let id = st.next_intent_id;
    assert(!st.intent_escrow_balances.dom().contains(id)) by {
        if st.intents.dom().contains(id) {
            assert(id < st.next_intent_id);
        }
    }
    assert(e =~= seq![e[0], e[1]]);
    lemma_inflow_two(e[0], e[1], asset, intent_escrow());
    lemma_sum_insert(
        st.intent_escrow_balances,
        id,
        (req.token_in, req.amount_in),
        escrowed(asset),
    );
}

/// An intent that ends, however it does, takes out of the intent escrow what that
/// then owes less.
pub proof fn law_return_empties_escrow(
    st: DexState,
    id: u64,
    status: IntentStatus,
    to: AccountId,
    asset: AssetKind,
)
    requires
        st.intent_escrow_balances.dom().finite(),
        st.intent_escrow_balances.dom().contains(id),
        to != intent_escrow(),
    ensures
        owed(intent_ended(st, id, status), asset) == owed(st, asset) + inflow(
            seq![escrow_return(st, id, to)],
            asset,
            intent_escrow(),
        ),
{
    lemma_inflow_one(escrow_return(st, id, to), asset, intent_escrow());
    lemma_sum_remove(st.intent_escrow_balances, id, escrowed(asset));
}

/// A settlement takes out of the intent escrow what that then owes less, in either
/// of the intent's assets. The accounts that receive are not the escrow itself.
pub proof fn law_settlement_empties_escrow(
    st: DexState,
    who: AccountId,
    id: u64,
    ctx: SwapContext,
    asset: AssetKind,
)
    requires
        st.intent_escrow_balances.dom().finite(),
        market_is_sound(st),
        settle_error(st, who, id, ctx) is None,
        st.intents[id].token_in != st.intents[id].token_out,
        st.intents[id].user != intent_escrow(),
        who != intent_escrow(),
        requested_pool(st, settling_swap(st, id)).pool_account != intent_escrow(),
        ctx.sink != Some(intent_escrow()),
        asset == st.intents[id].token_in || asset == st.intents[id].token_out,
    ensures
        owed(settle_next(st, id, ctx), asset) == owed(st, asset) + inflow(
            settle_effects(st, who, id, ctx),
            asset,
            intent_escrow(),
        ),
{
    law_settlement_leaves_escrow_whole(st, who, id, ctx);
    assert(st.intent_escrow_balances.dom().contains(id)) by {
        assert(st.fill_commitments.dom().contains(id));
    }
    lemma_sum_remove(st.intent_escrow_balances, id, escrowed(asset));
}

/// What a bond payout adds to an account.
proof fn lemma_bond_payout(
    st: DexState,
    solver_id: u64,
    to: AccountId,
    amount: Balance,
    asset: AssetKind,
    account: AccountId,
)
    requires
        to != account,
    ensures
        inflow(bond_payout(st, solver_id, to, amount), asset, account) == (if asset
            == st.config.native_asset && solver_escrow(solver_id) == account {
            -amount
        } else {
            0
        }),
{
    let e = bond_payout(st, solver_id, to, amount);
    if amount != 0 {
        assert(e =~= seq![e[0]]);
        lemma_inflow_one(e[0], asset, account);
    }
}

/// What a slash adds to an account that receives nothing of it.
proof fn lemma_slash_inflow(
    st: DexState,
    slasher: AccountId,
    id: u64,
    asset: AssetKind,
    account: AccountId,
)
    requires
        protocol_treasury() != account,
        slasher != account,
        st.intents[id].user != account,
    ensures
        ({
            let solver_id = st.fill_commitments[id].solver_id;
            inflow(slash_effects(st, slasher, id), asset, account) == (if asset
                == st.config.native_asset && solver_escrow(solver_id) == account {
                -st.solvers[solver_id].bond
            } else {
                0
            }) - (if asset == st.intent_escrow_balances[id].0 && intent_escrow() == account {
                st.intent_escrow_balances[id].1 as int
            } else {
                0
            })
        }),
{
    let solver_id = st.fill_commitments[id].solver_id;
    let bond = st.solvers[solver_id].bond;
    let reward = bps_share(bond as int, SLASHER_REWARD_BPS as int) as u128;
    law_split_conserves(bond, SLASHER_REWARD_BPS);
    let rest = (bond - reward) as u128;
    let all = slash_effects(st, slasher, id);
    let n = all.len() as int;
    let first = bond_payout(st, solver_id, protocol_treasury(), rest);
    let second = bond_payout(st, solver_id, slasher, reward);
    let tail = seq![all[n - 3], all[n - 2], all[n - 1]];
    assert(all =~= first + second + tail);
    lemma_inflow_concat(first + second, tail, asset, account);
    lemma_inflow_concat(first, second, asset, account);
    lemma_inflow_three(all[n - 3], all[n - 2], all[n - 1], asset, account);
    lemma_bond_payout(st, solver_id, protocol_treasury(), rest, asset, account);
    lemma_bond_payout(st, solver_id, slasher, reward, asset, account);
}

/// A slash takes out of the intent escrow what that then owes less, and all of the
/// bond out of the solver's account. The accounts that receive are neither.
pub proof fn law_slash_empties_escrows(
    st: DexState,
    slasher: AccountId,
    id: u64,
    now: BlockNumber,
    asset: AssetKind,
)
    requires
        st.intent_escrow_balances.dom().finite(),
        slash_error(st, id, now) is None,
        ({
            let bond_account = solver_escrow(st.fill_commitments[id].solver_id);
            &&& bond_account != intent_escrow()
            &&& protocol_treasury() != intent_escrow() && protocol_treasury() != bond_account
            &&& slasher != intent_escrow() && slasher != bond_account
            &&& st.intents[id].user != intent_escrow() && st.intents[id].user != bond_account
        }),
    ensures
        ({
            let solver_id = st.fill_commitments[id].solver_id;
            let effects = slash_effects(st, slasher, id);
            let next = slash_next(st, id);
            &&& owed(next, asset) == owed(st, asset) + inflow(effects, asset, intent_escrow())
            &&& next.solvers[solver_id].bond == st.solvers[solver_id].bond + inflow(
                effects,
                st.config.native_asset,
                solver_escrow(solver_id),
            )
        }),
{
    let solver_id = st.fill_commitments[id].solver_id;
    lemma_slash_inflow(st, slasher, id, asset, intent_escrow());
    lemma_slash_inflow(st, slasher, id, st.config.native_asset, solver_escrow(solver_id));
    lemma_sum_remove(st.intent_escrow_balances, id, escrowed(asset));
}

/// Registering and deregistering move exactly the bond on record into and out of
/// the solver's account.
pub proof fn law_bond_follows_record(st: DexState, who: AccountId, now: BlockNumber)
    ensures
        ({
            let id = st.next_solver_id;
            who != solver_escrow(id) ==> register_next(st, who, now).solvers[id].bond == inflow(
                register_effects(st, who),
                st.config.native_asset,
                solver_escrow(id),
            )
        }),
        deregister_error(st, who) is None && who != solver_escrow(st.solver_account_to_id[who])
            ==> ({
            let id = st.solver_account_to_id[who];
            deregister_next(st, who).solvers[id].bond == st.solvers[id].bond + inflow(
                deregister_effects(st, who),
                st.config.native_asset,
                solver_escrow(id),
            )
        }),
{
    let native = st.config.native_asset;
    let e = register_effects(st, who);
    assert(e =~= seq![e[0], e[1]]);
    lemma_inflow_two(e[0], e[1], native, solver_escrow(st.next_solver_id));
    let d = deregister_effects(st, who);
    assert(d =~= seq![d[0], d[1]]);
    lemma_inflow_two(d[0], d[1], native, solver_escrow(st.solver_account_to_id[who]));
}

/// A solver's bond account is none of the exchange's escrows, but for the three ids
/// whose bytes spell an escrow's name.
pub proof fn law_bond_accounts_clear_escrows(solver_id: u64)
    ensures
        solver_id != 0x7365_6566 ==> solver_escrow(solver_id) != fee_escrow(),
        solver_id != 0x0073_746e_6574_6e69 ==> solver_escrow(solver_id) != intent_escrow(),
        solver_id != 0x7973_7274_5f65_6566 ==> solver_escrow(solver_id) != protocol_treasury(),
{
    lemma_auto_spec_u64_to_from_le_bytes();
    spec_u64_to_le_bytes_to_open(solver_id);
    let p = spec_u64_to_le_bytes(solver_id);
    let x = dex_account_bytes(solver_escrow_seed(solver_id));
    lemma_account_bytes(solver_escrow_seed(solver_id));
    lemma_account_bytes(fee_escrow_seed());
    lemma_account_bytes(intent_escrow_seed());
    lemma_account_bytes(protocol_treasury_seed());
    assert forall|i: int| 0 <= i < 8 implies x[12 + i] == #[trigger] p[i] by {}
    let s = solver_id;
    if solver_escrow(solver_id) == fee_escrow() {
        let y = dex_account_bytes(fee_escrow_seed());
        assert(x == y);
        assert(y[12] == 0x66 && y[13] == 0x65 && y[14] == 0x65 && y[15] == 0x73);
        assert(y[16] == 0 && y[17] == 0 && y[18] == 0 && y[19] == 0);
        assert(p[0] == x[12] && p[1] == x[13] && p[2] == x[14] && p[3] == x[15]);
        assert(p[4] == x[16] && p[5] == x[17] && p[6] == x[18] && p[7] == x[19]);
        assert(s == 0x7365_6566) by (bit_vector)
            requires
                (s & 0xff) as u8 == 0x66,
                ((s >> 8) & 0xff) as u8 == 0x65,
                ((s >> 16) & 0xff) as u8 == 0x65,
                ((s >> 24) & 0xff) as u8 == 0x73,
                ((s >> 32) & 0xff) as u8 == 0,
                ((s >> 40) & 0xff) as u8 == 0,
                ((s >> 48) & 0xff) as u8 == 0,
                ((s >> 56) & 0xff) as u8 == 0,
        ;
    }
    if solver_escrow(solver_id) == intent_escrow() {
        let y = dex_account_bytes(intent_escrow_seed());
        assert(x == y);
        assert(y[12] == 0x69 && y[13] == 0x6e && y[14] == 0x74 && y[15] == 0x65);
        assert(y[16] == 0x6e && y[17] == 0x74 && y[18] == 0x73 && y[19] == 0);
        assert(p[0] == x[12] && p[1] == x[13] && p[2] == x[14] && p[3] == x[15]);
        assert(p[4] == x[16] && p[5] == x[17] && p[6] == x[18] && p[7] == x[19]);
        assert(s == 0x0073_746e_6574_6e69) by (bit_vector)
            requires
                (s & 0xff) as u8 == 0x69,
                ((s >> 8) & 0xff) as u8 == 0x6e,
                ((s >> 16) & 0xff) as u8 == 0x74,
                ((s >> 24) & 0xff) as u8 == 0x65,
                ((s >> 32) & 0xff) as u8 == 0x6e,
                ((s >> 40) & 0xff) as u8 == 0x74,
                ((s >> 48) & 0xff) as u8 == 0x73,
                ((s >> 56) & 0xff) as u8 == 0,
        ;
    }
    if solver_escrow(solver_id) == protocol_treasury() {
        let y = dex_account_bytes(protocol_treasury_seed());
        assert(x == y);
        assert(y[12] == 0x66 && y[13] == 0x65 && y[14] == 0x65 && y[15] == 0x5f);
        assert(y[16] == 0x74 && y[17] == 0x72 && y[18] == 0x73 && y[19] == 0x79);
        assert(p[0] == x[12] && p[1] == x[13] && p[2] == x[14] && p[3] == x[15]);
        assert(p[4] == x[16] && p[5] == x[17] && p[6] == x[18] && p[7] == x[19]);
        assert(s == 0x7973_7274_5f65_6566) by (bit_vector)
            requires
                (s & 0xff) as u8 == 0x66,
                ((s >> 8) & 0xff) as u8 == 0x65,
                ((s >> 16) & 0xff) as u8 == 0x65,
                ((s >> 24) & 0xff) as u8 == 0x5f,
                ((s >> 32) & 0xff) as u8 == 0x74,
                ((s >> 40) & 0xff) as u8 == 0x72,
                ((s >> 48) & 0xff) as u8 == 0x73,
                ((s >> 56) & 0xff) as u8 == 0x79,
        ;
    }
}

} // verus!
