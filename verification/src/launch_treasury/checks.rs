//! What must hold of the treasuries at any time, checked against the ledgers.

use super::accumulator::{claim_of, gross_owed};
use super::state::{Pallet, Record, TreasuryState};
use super::types::LaunchId;
use crate::arith::min_int;
use crate::primitives::Balance;
use crate::sums::{lemma_sum_bounds, lemma_sum_entries, sum_entries, sum_map};
use crate::table::{lemma_lookup, map_of};
use vstd::prelude::*;

verus! {

/// What the ledgers show of the vault.
#[derive(Clone, Copy, Debug, PartialEq, Eq)]
pub struct VaultSight {
    /// LNRG the vault holds.
    pub lnrg_held: Balance,
    /// VTRS the vault holds, bonded or not.
    pub native_held: Balance,
    /// The native asset's minimum balance.
    pub existential_deposit: Balance,
    /// The vault's stake, active and unlocking.
    pub ledger_total: Balance,
    /// The vault's active stake.
    pub active: Balance,
    /// What the vault cooperates with.
    pub cooperated: Balance,
    /// Whether the vault cooperates.
    pub cooperating: bool,
}

/// What is found broken.
#[derive(Clone, Copy, Debug, PartialEq, Eq, Structural)]
pub enum Violation {
    /// The records' shares are not the total.
    Shares,
    /// Claims exceed the attributed LNRG.
    Claims,
    /// Attributed LNRG exceeds what the vault holds.
    Attributed,
    /// The records claim more VTRS than the vault holds.
    Vault,
    /// The vault cooperates with something else than its active stake.
    Cooperation,
}

/// A record's shares.
pub open spec fn shares_term() -> spec_fn(LaunchId, Record) -> int {
    |id: LaunchId, t: Record| t.shares as int
}

/// A record's unbonded VTRS that is not to be burned.
pub open spec fn pending_term() -> spec_fn(LaunchId, Record) -> int {
    |id: LaunchId, t: Record| t.pending as int
}

/// A record's VTRS to be burned.
pub open spec fn burn_term() -> spec_fn(LaunchId, Record) -> int {
    |id: LaunchId, t: Record| t.pending_burn as int
}

/// A record's claim on LNRG, or nothing where it cannot be computed.
pub open spec fn claim_or_zero(per_share: u128, t: Record) -> int {
    if gross_owed(per_share, t.shares) <= u128::MAX {
        claim_of(per_share, t) as int
    } else {
        0
    }
}

/// See [`claim_or_zero`].
pub open spec fn claim_term(per_share: u128) -> spec_fn(LaunchId, Record) -> int {
    |id: LaunchId, t: Record| claim_or_zero(per_share, t)
}

/// A sum over all records, as far as it fits in `u128`.
pub open spec fn capped_sum(
    records: Map<LaunchId, Record>,
    f: spec_fn(LaunchId, Record) -> int,
) -> int {
    min_int(sum_map(records, f), u128::MAX as int)
}

/// What the vault must hold of VTRS.
pub open spec fn expected_native(st: TreasuryState, sight: VaultSight) -> int {
    min_int(
        (if st.vault_funded {
            sight.existential_deposit as int
        } else {
            0
        }) + capped_sum(st.treasuries, pending_term()) + capped_sum(st.treasuries, burn_term())
            + sight.ledger_total,
        u128::MAX as int,
    )
}

/// The first thing found broken, if anything is.
pub open spec fn violation(st: TreasuryState, sight: VaultSight) -> Option<Violation> {
    if capped_sum(st.treasuries, shares_term()) != st.total_shares {
        Some(Violation::Shares)
    } else if capped_sum(st.treasuries, claim_term(st.lnrg_per_share)) > st.lnrg_accounted {
        Some(Violation::Claims)
    } else if st.lnrg_accounted > sight.lnrg_held {
        Some(Violation::Attributed)
    } else if sight.native_held < expected_native(st, sight) {
        Some(Violation::Vault)
    } else if !st.cooperation_stale && sight.cooperating && (sight.cooperated > sight.active
        || sight.active - sight.cooperated > st.config.max_targets) {
        Some(Violation::Cooperation)
    } else {
        None
    }
}

/// Sums over all records, each as far as it fits in `u128`.
struct Totals {
    pending: u128,
    burn: u128,
    shares: u128,
    claims: u128,
}

impl Pallet {
    /// Add up what the records hold.
    fn totals(&self) -> (r: Totals)
        ensures
            self@.treasuries.dom().finite(),
            r.pending == capped_sum(self@.treasuries, pending_term()),
            r.burn == capped_sum(self@.treasuries, burn_term()),
            r.shares == capped_sum(self@.treasuries, shares_term()),
            r.claims == capped_sum(self@.treasuries, claim_term(self@.lnrg_per_share)),
    {
        let n: usize = self.treasuries.len();
        let ghost all = self.treasuries.entries();
        let ghost per_share = self.lnrg_per_share;
        let mut pending: u128 = 0;
        let mut burn: u128 = 0;
        let mut shares: u128 = 0;
        let mut claims: u128 = 0;
        let mut i: usize = 0;
        assert(all.take(0) =~= Seq::empty());
        while i < n
            invariant
                0 <= i <= n,
                n == all.len(),
                all == self.treasuries.entries(),
                map_of(all) == self.treasuries@,
                crate::table::distinct_keys(all),
                per_share == self.lnrg_per_share,
                pending == min_int(sum_entries(all.take(i as int), pending_term()), u128::MAX as int),
                burn == min_int(sum_entries(all.take(i as int), burn_term()), u128::MAX as int),
                shares == min_int(sum_entries(all.take(i as int), shares_term()), u128::MAX as int),
                claims == min_int(
                    sum_entries(all.take(i as int), claim_term(per_share)),
                    u128::MAX as int,
                ),
                sum_entries(all.take(i as int), pending_term()) >= 0,
                sum_entries(all.take(i as int), burn_term()) >= 0,
                sum_entries(all.take(i as int), shares_term()) >= 0,
                sum_entries(all.take(i as int), claim_term(per_share)) >= 0,
            decreases n - i,
        {
            let (id, t): (u64, Record) = self.treasuries.entry(i);
            proof {
                assert(all.take(i + 1).drop_last() =~= all.take(i as int));
                assert(all.take(i + 1).last() == all[i as int]);
                lemma_lookup(all, i as int);
            }
            pending = pending.saturating_add(t.pending);
            burn = burn.saturating_add(t.pending_burn);
            shares = shares.saturating_add(t.shares);
            let claim: u128 = match self.claimable_lnrg(id) {
                Some(c) => c,
                None => 0,
            };
            claims = claims.saturating_add(claim);
            i = i + 1;
        }
        proof {
            assert(all.take(n as int) =~= all);
            lemma_sum_entries(all, pending_term());
            lemma_sum_entries(all, burn_term());
            lemma_sum_entries(all, shares_term());
            lemma_sum_entries(all, claim_term(per_share));
        }
        Totals { pending, burn, shares, claims }
    }

    /// Check the records against each other and against the ledgers.
    pub fn do_try_state(&self, sight: &VaultSight) -> (r: Result<(), Violation>)
        ensures
            match r {
                Ok(()) => violation(self@, *sight) is None,
                Err(v) => violation(self@, *sight) == Some(v),
            },
    {
        let t = self.totals();
        if t.shares != self.total_shares {
            return Err(Violation::Shares);
        }
        if t.claims > self.lnrg_accounted {
            return Err(Violation::Claims);
        }
        if self.lnrg_accounted > sight.lnrg_held {
            return Err(Violation::Attributed);
        }
        let own: u128 = if self.vault_funded {
            sight.existential_deposit
        } else {
            0
        };
        let expected: u128 = own.saturating_add(t.pending).saturating_add(t.burn).saturating_add(
            sight.ledger_total,
        );
        proof {
            let m = self@.treasuries;
            assert forall|k: LaunchId| m.dom().contains(k) implies #[trigger] pending_term()(
                k,
                m[k],
            ) >= 0 by {}
            assert forall|k: LaunchId| m.dom().contains(k) implies #[trigger] burn_term()(
                k,
                m[k],
            ) >= 0 by {}
            lemma_sum_bounds(m, pending_term());
            lemma_sum_bounds(m, burn_term());
        }
        if sight.native_held < expected {
            return Err(Violation::Vault);
        }
        if !self.cooperation_stale && sight.cooperating {
            if sight.cooperated > sight.active || sight.active - sight.cooperated
                > self.config.max_targets as u128 {
                return Err(Violation::Cooperation);
            }
        }
        Ok(())
    }

    /// What every launch could realise, added up.
    pub(crate) fn total_claims(&self) -> (r: Balance)
        ensures
            self@.treasuries.dom().finite(),
            r == capped_sum(self@.treasuries, claim_term(self@.lnrg_per_share)),
    {
        self.totals().claims
    }
}

} // verus!
