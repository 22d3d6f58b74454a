//! Upgrades of a running chain's treasuries.

use super::checks::{capped_sum, claim_term};
use super::state::{Pallet, TreasuryState};
use crate::arith::min_int;
use crate::primitives::Balance;
use vstd::prelude::*;

verus! {

impl Pallet {
    /// Whether the vault still has to be paid its minimum balance.
    pub fn needs_funding(vault_held: Balance, existential_deposit: Balance) -> (r: bool)
        ensures
            r == (vault_held < existential_deposit),
    {
        vault_held < existential_deposit
    }

    /// Note whether the vault holds its minimum balance: it did before, or
    /// `paid` says that the payment it needed went through. Where neither holds
    /// the first fee withholds it instead.
    pub fn fund_vault(&mut self, vault_held: Balance, existential_deposit: Balance, paid: bool)
        ensures
            final(self)@ == (TreasuryState {
                vault_funded: old(self)@.vault_funded || vault_held >= existential_deposit || paid,
                ..old(self)@
            }),
    {
        if vault_held >= existential_deposit || paid {
            self.vault_funded = true;
        }
    }

    /// Whether the vault holds its minimum balance and is known to.
    pub fn vault_is_funded(&self, vault_held: Balance, existential_deposit: Balance) -> (r: bool)
        ensures
            r == (self@.vault_funded && vault_held >= existential_deposit),
    {
        self.vault_funded && vault_held >= existential_deposit
    }

    /// Recount the attributed LNRG as what every launch could realise, as far as
    /// the vault holds it. Returns the new count.
    pub fn recount_accounted(&mut self, lnrg_held: Balance) -> (r: Balance)
        ensures
            r == min_int(
                capped_sum(old(self)@.treasuries, claim_term(old(self)@.lnrg_per_share)),
                lnrg_held as int,
            ),
            final(self)@ == (TreasuryState { lnrg_accounted: r, ..old(self)@ }),
    {
        let claims: u128 = self.total_claims();
        let after: u128 = if claims <= lnrg_held {
            claims
        } else {
            lnrg_held
        };
        self.lnrg_accounted = after;
        after
    }

    /// Whether the attributed LNRG lies between what launches could realise and
    /// what the vault holds.
    pub fn recount_holds(&self, lnrg_held: Balance) -> (r: bool)
        ensures
            r == (capped_sum(self@.treasuries, claim_term(self@.lnrg_per_share))
                <= self@.lnrg_accounted <= lnrg_held),
    {
        self.lnrg_accounted <= lnrg_held && self.total_claims() <= self.lnrg_accounted
    }
}

} // verus!
