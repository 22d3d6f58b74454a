//! What the treasuries remember.

use super::types::{EraIndex, Error, LaunchId, TreasuryConfig, TreasuryRecord, TreasuryTerms};
use crate::accounts::{
    account_with, into_sub_account_truncating, lemma_account_with, sub_account_bytes,
};
use crate::arith::lemma_product_fits;
use crate::primitives::{AccountId, Balance, BlockNumber};
use crate::table::Table;
use crate::wide::U256;
use vstd::prelude::*;

verus! {

/// A launch's treasury.
pub type Record = TreasuryRecord<Balance, BlockNumber>;

/// Operational terms.
pub type Terms = TreasuryTerms<Balance, BlockNumber>;

/// An entry of the retiring queue: launch, era its chunk matures at, amount.
pub type Retirement = (LaunchId, EraIndex, Balance);

/// The launch treasuries.
#[derive(Debug)]
pub struct Pallet {
    pub config: TreasuryConfig,
    pub treasuries: Table<LaunchId, Record>,
    pub total_shares: Balance,
    /// LNRG per share since the beginning, times the scale.
    pub lnrg_per_share: u128,
    /// LNRG in the vault that has been attributed to shares.
    pub lnrg_accounted: Balance,
    pub terms: Terms,
    /// Validators the vault cooperates with.
    pub targets: Vec<AccountId>,
    /// Set between a bond change without cooperation and the next success.
    pub cooperation_stale: bool,
    /// Whether the vault holds its minimum balance above what records claim.
    pub vault_funded: bool,
    /// Retiring launches in the order they unbonded.
    pub retiring_queue: Vec<Retirement>,
}

/// The treasuries' memory as maps and sequences.
#[verifier::ext_equal]
pub struct TreasuryState {
    pub config: TreasuryConfig,
    pub treasuries: Map<LaunchId, Record>,
    pub total_shares: Balance,
    pub lnrg_per_share: u128,
    pub lnrg_accounted: Balance,
    pub terms: Terms,
    pub targets: Seq<AccountId>,
    pub cooperation_stale: bool,
    pub vault_funded: bool,
    pub retiring_queue: Seq<Retirement>,
}

impl View for Pallet {
    type V = TreasuryState;

    open spec fn view(&self) -> TreasuryState {
        TreasuryState {
            config: self.config,
            treasuries: self.treasuries@,
            total_shares: self.total_shares,
            lnrg_per_share: self.lnrg_per_share,
            lnrg_accounted: self.lnrg_accounted,
            terms: self.terms,
            targets: self.targets@,
            cooperation_stale: self.cooperation_stale,
            vault_funded: self.vault_funded,
            retiring_queue: self.retiring_queue@,
        }
    }
}

/// Treasuries that nothing has happened to.
pub open spec fn fresh_treasuries(config: TreasuryConfig, terms: Terms) -> TreasuryState {
    TreasuryState {
        config,
        treasuries: Map::empty(),
        total_shares: 0,
        lnrg_per_share: 0,
        lnrg_accounted: 0,
        terms,
        targets: Seq::empty(),
        cooperation_stale: false,
        vault_funded: false,
        retiring_queue: Seq::empty(),
    }
}

/// The vault: stash, controller and payee of the pooled stake.
pub open spec fn vault_of(config: TreasuryConfig) -> AccountId {
    account_with(sub_account_bytes(config.pallet_id@, Seq::empty()))
}

/// Bounds that terms must keep. The impact is a ceiling; a slice is also sized
/// under the venue's own round-trip fee.
pub open spec fn terms_ok(t: Terms) -> bool {
    &&& 10 <= t.max_burn_impact_bps <= 200
    &&& t.keeper_bounty_bps <= 200
    &&& t.dormancy_blocks != 0
    &&& t.min_stake != 0
}

/// `a * b / c` rounded down; refused for `c == 0` or a result above `u128`.
pub fn mul_div(a: Balance, b: Balance, c: Balance) -> (r: Result<Balance, Error>)
    ensures
        match r {
            Ok(x) => c != 0 && x == a * b / c as int,
            Err(e) => (c == 0 || a * b / c as int > u128::MAX) && e == Error::ArithmeticOverflow,
        },
{
    proof {
        lemma_product_fits(a as int, b as int);
    }
    if c == 0 {
        return Err(Error::ArithmeticOverflow);
    }
    let quotient = U256::from_u128(a).times(U256::from_u128(b)).over(U256::from_u128(c));
    match quotient.to_u128() {
        Some(x) => Ok(x),
        None => Err(Error::ArithmeticOverflow),
    }
}

/// Another vector with the same accounts.
pub(crate) fn copy_accounts(v: &Vec<AccountId>) -> (r: Vec<AccountId>)
    ensures
        r@ == v@,
{
    let mut out: Vec<AccountId> = Vec::new();
    let mut i: usize = 0;
    while i < v.len()
        invariant
            0 <= i <= v@.len(),
            out@ == v@.subrange(0, i as int),
        decreases v@.len() - i,
    {
        out.push(v[i]);
        i = i + 1;
        assert(out@ =~= v@.subrange(0, i as int));
    }
    assert(out@ =~= v@);
    out
}

/// Another vector with the same entries.
fn copy_queue(v: &Vec<Retirement>) -> (r: Vec<Retirement>)
    ensures
        r@ == v@,
{
    let mut out: Vec<Retirement> = Vec::new();
    let mut i: usize = 0;
    while i < v.len()
        invariant
            0 <= i <= v@.len(),
            out@ == v@.subrange(0, i as int),
        decreases v@.len() - i,
    {
        out.push(v[i]);
        i = i + 1;
        assert(out@ =~= v@.subrange(0, i as int));
    }
    assert(out@ =~= v@);
    out
}

impl Pallet {
    /// Treasuries that nothing has happened to.
    pub fn new(config: TreasuryConfig, terms: Terms) -> (r: Pallet)
        ensures
            r@ == fresh_treasuries(config, terms),
    {
        Pallet {
            config,
            treasuries: Table::new(),
            total_shares: 0,
            lnrg_per_share: 0,
            lnrg_accounted: 0,
            terms,
            targets: Vec::new(),
            cooperation_stale: false,
            vault_funded: false,
            retiring_queue: Vec::new(),
        }
    }

    /// The treasuries as they stand, to go back to when an operation is undone.
    pub fn snapshot(&self) -> (r: Pallet)
        ensures
            r@ == self@,
    {
        Pallet {
            config: self.config,
            treasuries: self.treasuries.duplicate(),
            total_shares: self.total_shares,
            lnrg_per_share: self.lnrg_per_share,
            lnrg_accounted: self.lnrg_accounted,
            terms: self.terms,
            targets: copy_accounts(&self.targets),
            cooperation_stale: self.cooperation_stale,
            vault_funded: self.vault_funded,
            retiring_queue: copy_queue(&self.retiring_queue),
        }
    }

    /// The vault: stash, controller and payee of the pooled stake.
    pub fn vault(&self) -> (r: AccountId)
        ensures
            r == vault_of(self@.config),
    {
        let seed: [u8; 0] = [];
        assert(seed@ =~= Seq::<u8>::empty());
        let r = into_sub_account_truncating(self.config.pallet_id, seed);
        proof {
            lemma_account_with(r);
        }
        r
    }

    /// Whether terms keep their bounds.
    pub fn terms_in_bounds(t: &Terms) -> (r: bool)
        ensures
            r == terms_ok(*t),
    {
        10 <= t.max_burn_impact_bps && t.max_burn_impact_bps <= 200 && t.keeper_bounty_bps <= 200
            && t.dormancy_blocks != 0 && t.min_stake != 0
    }
}

} // verus!
