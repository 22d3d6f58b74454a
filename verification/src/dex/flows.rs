//! Where an operation's transfers leave an account.

use super::types::Effect;
use crate::primitives::{AccountId, AssetKind};
use vstd::prelude::*;

verus! {

/// What one effect adds to `account`'s holding of `asset`.
pub open spec fn effect_inflow(e: Effect, asset: AssetKind, account: AccountId) -> int {
    match e {
        Effect::Transfer(t) => if t.asset == asset {
            (if t.to == account {
                t.amount as int
            } else {
                0
            }) - (if t.from == account {
                t.amount as int
            } else {
                0
            })
        } else {
            0
        },
        _ => 0,
    }
}

/// What all effects together add to `account`'s holding of `asset`.
pub open spec fn inflow(effects: Seq<Effect>, asset: AssetKind, account: AccountId) -> int
    decreases effects.len(),
{
    if effects.len() == 0 {
        0
    } else {
        inflow(effects.drop_last(), asset, account) + effect_inflow(effects.last(), asset, account)
    }
}

/// Effects in a row add up.
pub proof fn lemma_inflow_concat(
    a: Seq<Effect>,
    b: Seq<Effect>,
    asset: AssetKind,
    account: AccountId,
)
    ensures
        inflow(a + b, asset, account) == inflow(a, asset, account) + inflow(b, asset, account),
    decreases b.len(),
{
    if b.len() == 0 {
        assert(a + b =~= a);
    } else {
        lemma_inflow_concat(a, b.drop_last(), asset, account);
        assert((a + b).drop_last() =~= a + b.drop_last());
        assert((a + b).last() == b.last());
    }
}

/// One effect alone.
pub proof fn lemma_inflow_one(e: Effect, asset: AssetKind, account: AccountId)
    ensures
        inflow(seq![e], asset, account) == effect_inflow(e, asset, account),
{
    assert(seq![e].drop_last() =~= Seq::<Effect>::empty());
    assert(inflow(seq![e].drop_last(), asset, account) == 0);
}

/// Two effects in a row.
pub proof fn lemma_inflow_two(d: Effect, e: Effect, asset: AssetKind, account: AccountId)
    ensures
        inflow(seq![d, e], asset, account) == effect_inflow(d, asset, account) + effect_inflow(
            e,
            asset,
            account,
        ),
{
    assert(seq![d, e] =~= seq![d] + seq![e]);
    lemma_inflow_concat(seq![d], seq![e], asset, account);
    lemma_inflow_one(d, asset, account);
    lemma_inflow_one(e, asset, account);
}

/// Three effects in a row.
pub proof fn lemma_inflow_three(
    d: Effect,
    e: Effect,
    f: Effect,
    asset: AssetKind,
    account: AccountId,
)
    ensures
        inflow(seq![d, e, f], asset, account) == effect_inflow(d, asset, account) + effect_inflow(
            e,
            asset,
            account,
        ) + effect_inflow(f, asset, account),
{
    assert(seq![d, e, f] =~= seq![d, e] + seq![f]);
    lemma_inflow_concat(seq![d, e], seq![f], asset, account);
    lemma_inflow_two(d, e, asset, account);
    lemma_inflow_one(f, asset, account);
}

} // verus!
