//! The exchange driven through a small ledger, the way a chain drives it.

use frame_support::{traits::fungible::NativeOrWithId, PalletId};
use parity_scale_codec::Encode;
use power_plant::dex::liquidity::{DepositRequest, WithdrawalRequest};
use power_plant::dex::market::IntentRequest;
use power_plant::dex::migrations::{
    old_pool_account_for, route_nothing, widen, widen_pool, MoveStep, OldFeeRouting, OldPoolInfo,
    UnroutedPool,
};
use power_plant::dex::seed::SeedRequest;
use power_plant::dex::state::{Commitment, DexIntent, Pallet, Pool, Position, Solver};
use power_plant::dex::swap::{SwapContext, SwapRequest};
use power_plant::dex::types::{
    pool_floor_bps, Config, Effect, Error, Event, FeeRouting, PoolInfo, MINIMUM_LIQUIDITY,
    MIN_FEE_TIER, MIN_LAUNCH_FEE_TIER, MIN_POOL_BPS,
};
use power_plant::primitives::{AccountId, AssetKind, AssetPair, Preservation};
use power_plant::settlement::{
    IntentStatus, REPUTATION_FILL_REWARD, REPUTATION_SLASH_PENALTY,
};
use sp_runtime::traits::AccountIdConversion;
use std::collections::BTreeMap;

const ALICE: AccountId = AccountId { bytes: [1; 20] };
const BOB: AccountId = AccountId { bytes: [2; 20] };
const CHARLIE: AccountId = AccountId { bytes: [3; 20] };
const ESCROW: AccountId = AccountId { bytes: [42; 20] };
const CREATOR: AccountId = AccountId { bytes: [77; 20] };
const VAULT: AccountId = AccountId { bytes: [88; 20] };
const TREASURY: AccountId = AccountId { bytes: [99; 20] };

const USDC_ID: u128 = 1;
const VNRG_ID: u128 = 2;
const MEME_ID: u128 = 7;
const RESERVED_ASSET_BASE: u128 = 1_000;
const LAUNCH_ID: u128 = RESERVED_ASSET_BASE + 1;

/// Sub-units per whole unit.
const UNIT: u128 = 1_000_000_000_000_000_000;
/// Seed amounts: ten thousand native against two hundred million tokens.
const SEED_NATIVE: u128 = 10_000 * UNIT;
const SEED_TOKEN: u128 = 200_000_000 * UNIT;

#[derive(Clone, Copy, Debug, PartialEq, Eq)]
enum Fail {
    Dex(Error),
    Ledger(&'static str),
    BadOrigin,
}

impl From<Error> for Fail {
    fn from(e: Error) -> Fail {
        Fail::Dex(e)
    }
}

#[derive(Clone, Copy, Debug, PartialEq, Eq)]
enum Origin {
    Root,
    Signed(AccountId),
}

fn root() -> Origin {
    Origin::Root
}

fn signed(who: AccountId) -> Origin {
    Origin::Signed(who)
}

fn ensure_root(o: Origin) -> Result<(), Fail> {
    match o {
        Origin::Root => Ok(()),
        Origin::Signed(_) => Err(Fail::BadOrigin),
    }
}

fn ensure_signed(o: Origin) -> Result<AccountId, Fail> {
    match o {
        Origin::Root => Err(Fail::BadOrigin),
        Origin::Signed(who) => Ok(who),
    }
}

fn ok<T>(r: Result<T, Fail>) -> T {
    match r {
        Ok(x) => x,
        Err(e) => panic!("expected success, got {:?}", e),
    }
}

/// A call that fails with `e` and changes nothing.
fn noop<T, E: Into<Fail>>(
    w: &mut World,
    call: impl FnOnce(&mut World) -> Result<T, Fail>,
    e: E,
) {
    let before = format!("{:?}", w);
    match call(w) {
        Ok(_) => panic!("expected {:?}, got success", e.into()),
        Err(got) => assert_eq!(got, e.into()),
    }
    assert_eq!(format!("{:?}", w), before);
}

fn native() -> AssetKind {
    AssetKind::Native
}

fn usdc() -> AssetKind {
    AssetKind::WithId(USDC_ID)
}

fn vnrg() -> AssetKind {
    AssetKind::WithId(VNRG_ID)
}

fn meme() -> AssetKind {
    AssetKind::WithId(MEME_ID)
}

fn launch() -> AssetKind {
    AssetKind::WithId(LAUNCH_ID)
}

fn pair() -> AssetPair {
    (usdc(), vnrg())
}

/// Balances of the native asset and of registered assets. A registered asset is
/// sufficient or not: one that is not can only be held by an account that exists
/// already, and keeps that account from going away.
#[derive(Clone, Debug)]
struct Ledger {
    ed: u128,
    natives: BTreeMap<[u8; 20], u128>,
    assets: BTreeMap<(u128, [u8; 20]), u128>,
    sufficient: BTreeMap<u128, bool>,
}

impl Ledger {
    fn native_of(&self, who: &AccountId) -> u128 {
        self.natives.get(&who.bytes).copied().unwrap_or(0)
    }

    fn asset_of(&self, id: u128, who: &AccountId) -> u128 {
        self.assets.get(&(id, who.bytes)).copied().unwrap_or(0)
    }

    fn balance(&self, asset: AssetKind, who: &AccountId) -> u128 {
        match asset {
            AssetKind::Native => self.native_of(who),
            AssetKind::WithId(id) => self.asset_of(id, who),
        }
    }

    fn holds_insufficient(&self, who: &AccountId) -> bool {
        self.assets
            .iter()
            .any(|((id, a), v)| *a == who.bytes && *v > 0 && !self.sufficient.get(id).copied().unwrap_or(false))
    }

    fn holds_sufficient(&self, who: &AccountId) -> bool {
        self.assets
            .iter()
            .any(|((id, a), v)| *a == who.bytes && *v > 0 && self.sufficient.get(id).copied().unwrap_or(false))
    }

    fn is_open(&self, who: &AccountId) -> bool {
        self.native_of(who) >= self.ed || self.holds_sufficient(who)
    }

    /// What can leave the account under `p`.
    fn reducible(&self, asset: AssetKind, who: &AccountId, p: Preservation) -> u128 {
        let held = self.balance(asset, who);
        let keep = match (asset, p) {
            (AssetKind::Native, Preservation::Preserve) => self.ed,
            (AssetKind::Native, Preservation::Expendable) => {
                if self.holds_insufficient(who) {
                    self.ed
                } else {
                    0
                }
            },
            (AssetKind::WithId(_), Preservation::Preserve) => 1,
            (AssetKind::WithId(_), Preservation::Expendable) => 0,
        };
        held.saturating_sub(keep)
    }

    fn transfer(
        &mut self,
        asset: AssetKind,
        from: &AccountId,
        to: &AccountId,
        amount: u128,
        p: Preservation,
    ) -> Result<(), &'static str> {
        if self.balance(asset, from) < amount {
            return Err("FundsUnavailable");
        }
        if from == to {
            return Ok(());
        }
        if self.reducible(asset, from, p) < amount {
            return Err("NotExpendable");
        }
        match asset {
            AssetKind::Native => {
                let there = self.native_of(to) + amount;
                if there < self.ed {
                    return Err("BelowMinimum");
                }
                let left = self.native_of(from) - amount;
                self.natives.insert(from.bytes, if left < self.ed { 0 } else { left });
                self.natives.insert(to.bytes, there);
            },
            AssetKind::WithId(id) => {
                let sufficient = match self.sufficient.get(&id) {
                    Some(s) => *s,
                    None => return Err("UnknownAsset"),
                };
                if amount == 0 && self.asset_of(id, to) == 0 {
                    return Err("BelowMinimum");
                }
                if self.asset_of(id, to) == 0 && !sufficient && !self.is_open(to) {
                    return Err("CannotCreate");
                }
                let left = self.asset_of(id, from) - amount;
                let there = self.asset_of(id, to) + amount;
                self.assets.insert((id, from.bytes), left);
                self.assets.insert((id, to.bytes), there);
            },
        }
        Ok(())
    }
}

#[derive(Debug)]
struct World {
    dex: Pallet,
    ledger: Ledger,
    block: u64,
    events: Vec<Event>,
    sink_vault: Option<AccountId>,
    noted: Vec<(u128, u128)>,
}

impl World {
    fn new() -> World {
        let config = Config {
            native_asset: native(),
            energy_asset: vnrg(),
            reserved_first: RESERVED_ASSET_BASE,
            reserved_last: u128::MAX,
            excess_recipient: TREASURY,
            default_protocol_fee_recipient: TREASURY,
            default_bid_window_blocks: 10,
            default_settlement_window_blocks: 5,
            default_solver_bond_amount: 1_000_000_000_000,
        };
        let mut ledger = Ledger {
            ed: 1,
            natives: BTreeMap::new(),
            assets: BTreeMap::new(),
            sufficient: BTreeMap::new(),
        };
        for id in [USDC_ID, VNRG_ID] {
            ledger.sufficient.insert(id, true);
        }
        for who in [ALICE, BOB, CHARLIE] {
            ledger.natives.insert(who.bytes, 10_000_000_000_000);
            for id in [USDC_ID, VNRG_ID] {
                ledger.assets.insert((id, who.bytes), 1_000_000);
            }
        }
        World {
            dex: Pallet::new(config),
            ledger,
            block: 1,
            events: Vec::new(),
            sink_vault: None,
            noted: Vec::new(),
        }
    }

    /// Run `f`, and undo everything if it fails.
    fn tx<T>(&mut self, f: impl FnOnce(&mut World) -> Result<T, Fail>) -> Result<T, Fail> {
        let dex = self.dex.snapshot();
        let ledger = self.ledger.clone();
        let events = self.events.clone();
        let noted = self.noted.clone();
        match f(self) {
            Ok(x) => Ok(x),
            Err(e) => {
                self.dex = dex;
                self.ledger = ledger;
                self.events = events;
                self.noted = noted;
                Err(e)
            },
        }
    }

    fn apply(&mut self, effects: &[Effect]) -> Result<(), Fail> {
        for e in effects {
            match e {
                Effect::Transfer(t) => {
                    match self.ledger.transfer(t.asset, &t.from, &t.to, t.amount, t.preservation) {
                        Ok(()) => {},
                        Err(m) => {
                            return Err(match t.on_failure {
                                Some(e) => Fail::Dex(e),
                                None => Fail::Ledger(m),
                            })
                        },
                    }
                },
                Effect::NoteFee { asset, amount } => {
                    if let AssetKind::WithId(id) = asset {
                        self.noted.push((*id, *amount));
                    }
                },
                Effect::Emit(event) => self.events.push(*event),
            }
        }
        Ok(())
    }

    /// Apply what is left of `effects` once `made` has been, which must be among
    /// them in the same order.
    fn apply_rest(&mut self, effects: &[Effect], made: &[Effect]) -> Result<(), Fail> {
        let mut done = 0;
        for e in effects {
            if done < made.len() && made[done] == *e {
                done += 1;
            } else {
                self.apply(&[*e])?;
            }
        }
        assert_eq!(done, made.len());
        Ok(())
    }

    fn assert_event(&self, event: Event) {
        assert!(self.events.contains(&event), "missing {:?}", event);
    }

    fn native_of(&self, who: AccountId) -> u128 {
        self.ledger.native_of(&who)
    }

    fn asset_of(&self, id: u128, who: AccountId) -> u128 {
        self.ledger.asset_of(id, &who)
    }

    fn set_native(&mut self, who: AccountId, amount: u128) {
        self.ledger.natives.insert(who.bytes, amount);
    }

    fn create_asset(&mut self, id: u128, sufficient: bool) {
        self.ledger.sufficient.insert(id, sufficient);
    }

    fn mint(&mut self, id: u128, who: AccountId, amount: u128) {
        let held = self.asset_of(id, who);
        self.ledger.assets.insert((id, who.bytes), held + amount);
    }

    fn send(&mut self, asset: AssetKind, from: AccountId, to: AccountId, amount: u128) -> Result<(), Fail> {
        self.ledger.transfer(asset, &from, &to, amount, Preservation::Expendable).map_err(Fail::Ledger)
    }

    fn total_supply(&self, id: u128) -> u128 {
        self.ledger.assets.iter().filter(|((i, _), _)| *i == id).map(|(_, v)| *v).sum()
    }

    fn pool(&self, pair: AssetPair) -> Option<Pool> {
        self.dex.pools.get(&pair)
    }

    fn total(&self, pair: AssetPair) -> Option<u128> {
        self.dex.total_liquidity.get(&pair)
    }

    fn position(&self, who: AccountId, pair: AssetPair) -> Option<Position> {
        self.dex.liquidity_positions.get(&(who, pair))
    }

    fn positions_of(&self, who: AccountId) -> usize {
        let assets = [native(), usdc(), vnrg(), meme(), launch()];
        let mut n: usize = 0;
        for a in assets {
            for b in assets {
                if self.position(who, (a, b)).is_some() {
                    n += 1;
                }
            }
        }
        n
    }

    fn creator_fees(&self, pair: AssetPair) -> u128 {
        self.dex.creator_fees_unclaimed.get(&pair).unwrap_or(0)
    }

    fn solver(&self, id: u64) -> Option<Solver> {
        self.dex.solvers.get(&id)
    }

    fn intent(&self, id: u64) -> Option<DexIntent> {
        self.dex.intents.get(&id)
    }

    fn commitment(&self, id: u64) -> Option<Commitment> {
        self.dex.fill_commitments.get(&id)
    }

    fn held(&self, a: AssetKind, b: AssetKind) -> (u128, u128) {
        let pair = Pallet::canonical_pair(a, b);
        match self.dex.pools.get(&pair) {
            Some(p) => (
                self.ledger.balance(pair.0, &p.pool_account),
                self.ledger.balance(pair.1, &p.pool_account),
            ),
            None => (0, 0),
        }
    }

    fn sink_for(&self, asset: AssetKind) -> Option<AccountId> {
        if asset == launch() {
            self.sink_vault
        } else {
            None
        }
    }

    fn creator_of(&self, asset: AssetKind) -> Option<AccountId> {
        if asset == launch() {
            Some(CREATOR)
        } else {
            None
        }
    }

    fn pool_exists(&self, a: AssetKind, b: AssetKind) -> bool {
        self.dex.pool_exists(a, b)
    }

    fn do_create_pool(&mut self, a: AssetKind, b: AssetKind, tier: u32) -> Result<(), Fail> {
        self.tx(|w| {
            let fx = w.dex.do_create_pool(a, b, tier)?;
            w.apply(&fx)
        })
    }

    fn create_pool(&mut self, o: Origin, a: AssetKind, b: AssetKind, tier: u32) -> Result<(), Fail> {
        ensure_root(o)?;
        self.do_create_pool(a, b, tier)
    }

    fn do_add_liquidity_for(
        &mut self,
        who: &AccountId,
        asset_a: AssetKind,
        asset_b: AssetKind,
        amount_a: u128,
        amount_b: u128,
        amount_a_min: u128,
        amount_b_min: u128,
    ) -> Result<u128, Fail> {
        let req = DepositRequest {
            who: *who,
            asset_a,
            asset_b,
            amount_a,
            amount_b,
            amount_a_min,
            amount_b_min,
        };
        self.tx(|w| {
            let (held_a, held_b) = w.held(asset_a, asset_b);
            let legs = w.dex.legs_of_deposit(&req, held_a, held_b)?;
            w.apply(&legs)?;
            let (shares, fx) = w.dex.do_add_liquidity_for(&req, held_a, held_b, w.block)?;
            w.apply_rest(&fx, &legs)?;
            Ok(shares)
        })
    }

    fn add_liquidity(
        &mut self,
        o: Origin,
        asset_a: AssetKind,
        asset_b: AssetKind,
        amount_a: u128,
        amount_b: u128,
        amount_a_min: u128,
        amount_b_min: u128,
    ) -> Result<u128, Fail> {
        let who = ensure_signed(o)?;
        self.do_add_liquidity_for(
            &who,
            asset_a,
            asset_b,
            amount_a,
            amount_b,
            amount_a_min,
            amount_b_min,
        )
    }

    fn remove_liquidity(
        &mut self,
        o: Origin,
        asset_a: AssetKind,
        asset_b: AssetKind,
        shares: u128,
        amount_a_min: u128,
        amount_b_min: u128,
    ) -> Result<(), Fail> {
        let who = ensure_signed(o)?;
        let req = WithdrawalRequest { who, asset_a, asset_b, shares, amount_a_min, amount_b_min };
        self.tx(|w| {
            let (held_a, held_b) = w.held(asset_a, asset_b);
            let legs = w.dex.legs_of_withdrawal(&req, held_a, held_b, w.block)?;
            w.apply(&legs)?;
            let fx = w.dex.remove_liquidity(&req, held_a, held_b, w.block)?;
            w.apply_rest(&fx, &legs)
        })
    }

    fn do_lock_liquidity_for(
        &mut self,
        who: &AccountId,
        a: AssetKind,
        b: AssetKind,
        until: u64,
    ) -> Result<(), Fail> {
        self.tx(|w| {
            let fx = w.dex.do_lock_liquidity_for(who, a, b, until)?;
            w.apply(&fx)
        })
    }

    fn lock_liquidity(&mut self, o: Origin, a: AssetKind, b: AssetKind, until: u64) -> Result<(), Fail> {
        let who = ensure_signed(o)?;
        self.do_lock_liquidity_for(&who, a, b, until)
    }

    fn swap_context(&self, asset_in: AssetKind, asset_out: AssetKind) -> SwapContext {
        let (held_a, held_b) = self.held(asset_in, asset_out);
        let other = if asset_in == native() { asset_out } else { asset_in };
        SwapContext {
            held_a,
            held_b,
            sink: self.sink_for(other),
            existential_deposit: self.ledger.ed,
            escrow_exists: false,
            vault_exists: false,
            now: self.block,
        }
    }

    /// Make the two legs of a swap and look at the accounts again.
    fn make_legs(&mut self, req: &SwapRequest, ctx: &mut SwapContext) -> Result<Vec<Effect>, Fail> {
        let q = self.dex.quote_swap(req, ctx)?;
        let legs = Pallet::legs_of_swap(req, &q);
        self.apply(&legs)?;
        ctx.escrow_exists = self.ledger.is_open(&Pallet::fee_escrow_account());
        ctx.vault_exists = match ctx.sink {
            Some(v) => self.ledger.is_open(&v),
            None => false,
        };
        Ok(legs)
    }

    fn do_swap(&mut self, req: SwapRequest) -> Result<u128, Fail> {
        self.tx(|w| {
            let mut ctx = w.swap_context(req.asset_in, req.asset_out);
            let legs = w.make_legs(&req, &mut ctx)?;
            let (out, fx) = w.dex.do_swap(&req, &ctx)?;
            w.apply_rest(&fx, &legs)?;
            Ok(out)
        })
    }

    fn swap_exact_tokens_for_tokens(
        &mut self,
        o: Origin,
        asset_in: AssetKind,
        asset_out: AssetKind,
        amount_in: u128,
        amount_out_min: u128,
        recipient: AccountId,
    ) -> Result<u128, Fail> {
        let who = ensure_signed(o)?;
        self.do_swap(SwapRequest {
            who,
            asset_in,
            asset_out,
            amount_in,
            amount_out_min,
            recipient,
            is_trade: true,
            input: Preservation::Preserve,
        })
    }

    fn swap_for(
        &mut self,
        who: &AccountId,
        asset_in: AssetKind,
        asset_out: AssetKind,
        amount_in: u128,
        amount_out_min: u128,
    ) -> Result<u128, Fail> {
        self.do_swap(SwapRequest {
            who: *who,
            asset_in,
            asset_out,
            amount_in,
            amount_out_min,
            recipient: *who,
            is_trade: false,
            input: Preservation::Preserve,
        })
    }

    fn native_reserves(&self, asset: AssetKind) -> Option<(u128, u128)> {
        let account = Pallet::pool_account_for(native(), asset);
        self.dex.native_reserves(
            asset,
            self.ledger.balance(native(), &account),
            self.ledger.balance(asset, &account),
        )
    }

    fn last_swap_block(&self, asset: AssetKind) -> Option<u64> {
        self.dex.last_swap_block(asset)
    }

    fn seed_reserved_pool_for(
        &mut self,
        who: &AccountId,
        asset: AssetKind,
        quote: AssetKind,
        amount_asset: u128,
        amount_quote: u128,
        fee_tier: u32,
    ) -> Result<u128, Fail> {
        let req = SeedRequest { who: *who, asset, quote, amount_asset, amount_quote, fee_tier };
        self.tx(|w| {
            let plan = w.dex.plan_seed(&req)?;
            let mut made: Vec<Effect> = Vec::new();
            let mut held: Vec<u128> = Vec::new();
            for swept in [asset, quote] {
                let amount =
                    w.ledger.reducible(swept, &plan.pool.pool_account, Preservation::Expendable);
                let fx = w.dex.sweep_before_seed(&plan, swept, amount);
                made.extend(fx.into_iter().filter(|e| matches!(e, Effect::Transfer(_))));
                let done = held.iter().filter(|h| **h > 0).count();
                w.apply(&made[done..])?;
                held.push(amount);
            }
            let (shares, fx) = w.dex.do_seed_reserved_pool_for(&req, held[0], held[1], w.block)?;
            w.apply_rest(&fx, &made)?;
            Ok(shares)
        })
    }

    fn set_default_fee_routing(
        &mut self,
        o: Origin,
        tier: u32,
        protocol_bps: u16,
        creator_bps: u16,
        treasury_bps: u16,
    ) -> Result<(), Fail> {
        ensure_root(o)?;
        self.tx(|w| {
            let fx = w.dex.set_default_fee_routing(tier, protocol_bps, creator_bps, treasury_bps)?;
            w.apply(&fx)
        })
    }

    fn default_routing(&self, tier: u32) -> Option<FeeRouting> {
        self.dex.default_fee_routing.get(&tier)
    }

    fn set_protocol_fee_recipient(&mut self, o: Origin, r: Option<AccountId>) -> Result<(), Fail> {
        ensure_root(o)?;
        let fx = self.dex.set_protocol_fee_recipient(r);
        self.apply(&fx)
    }

    fn claim_pool_creator_fees(&mut self, o: Origin, asset: AssetKind) -> Result<(), Fail> {
        let who = ensure_signed(o)?;
        let creator = self.creator_of(asset);
        self.tx(|w| {
            let fx = w.dex.claim_pool_creator_fees(&who, asset, creator)?;
            w.apply(&fx)
        })
    }

    fn withdraw_protocol_fees(&mut self, o: Origin) -> Result<(), Fail> {
        ensure_signed(o)?;
        self.tx(|w| {
            let fx = w.dex.withdraw_protocol_fees()?;
            w.apply(&fx)
        })
    }

    fn set_bid_window(&mut self, o: Origin, n: u64) -> Result<(), Fail> {
        ensure_root(o)?;
        let fx = self.dex.set_bid_window(n)?;
        self.apply(&fx)
    }

    fn set_settlement_window(&mut self, o: Origin, n: u64) -> Result<(), Fail> {
        ensure_root(o)?;
        let fx = self.dex.set_settlement_window(n)?;
        self.apply(&fx)
    }

    fn set_solver_bond_amount(&mut self, o: Origin, n: u128) -> Result<(), Fail> {
        ensure_root(o)?;
        let fx = self.dex.set_solver_bond_amount(n)?;
        self.apply(&fx)
    }

    fn register_solver(&mut self, o: Origin) -> Result<(), Fail> {
        let who = ensure_signed(o)?;
        self.tx(|w| {
            let fx = w.dex.register_solver(&who, w.block)?;
            w.apply(&fx)
        })
    }

    fn deregister_solver(&mut self, o: Origin) -> Result<(), Fail> {
        let who = ensure_signed(o)?;
        self.tx(|w| {
            let fx = w.dex.deregister_solver(&who)?;
            w.apply(&fx)
        })
    }

    fn submit_intent(
        &mut self,
        o: Origin,
        token_in: AssetKind,
        token_out: AssetKind,
        amount_in: u128,
        min_amount_out: u128,
        deadline: u64,
    ) -> Result<(), Fail> {
        let who = ensure_signed(o)?;
        let req = IntentRequest { who, token_in, token_out, amount_in, min_amount_out, deadline };
        self.tx(|w| {
            let fx = w.dex.submit_intent(&req, w.block)?;
            w.apply(&fx)
        })
    }

    fn cancel_intent(&mut self, o: Origin, id: u64) -> Result<(), Fail> {
        let who = ensure_signed(o)?;
        self.tx(|w| {
            let fx = w.dex.cancel_intent(&who, id)?;
            w.apply(&fx)
        })
    }

    fn commit_fill(&mut self, o: Origin, id: u64, amount: u128) -> Result<(), Fail> {
        let who = ensure_signed(o)?;
        self.tx(|w| {
            let fx = w.dex.commit_fill(&who, id, amount, w.block)?;
            w.apply(&fx)
        })
    }

    fn settle_intent(&mut self, o: Origin, id: u64) -> Result<(), Fail> {
        let who = ensure_signed(o)?;
        self.tx(|w| {
            let req = w.dex.plan_settlement(&who, id, w.block)?;
            let mut ctx = w.swap_context(req.asset_in, req.asset_out);
            let legs = w.make_legs(&req, &mut ctx)?;
            let fx = w.dex.settle_intent(&who, id, &ctx)?;
            w.apply_rest(&fx, &legs)
        })
    }

    fn slash_solver(&mut self, o: Origin, id: u64) -> Result<(), Fail> {
        let who = ensure_signed(o)?;
        self.tx(|w| {
            let legs = w.dex.legs_of_slash(&who, id, w.block)?;
            w.apply(&legs)?;
            let fx = w.dex.slash_solver(&who, id, w.block)?;
            w.apply_rest(&fx, &legs)
        })
    }

    fn refund_expired_intent(&mut self, o: Origin, id: u64) -> Result<(), Fail> {
        let who = ensure_signed(o)?;
        self.tx(|w| {
            let fx = w.dex.refund_expired_intent(&who, id, w.block)?;
            w.apply(&fx)
        })
    }

    /// Move every pool that has to move, one step after the other.
    fn move_pools(&mut self) -> u64 {
        let moves = self.dex.plan_moves();
        let mut moved: Vec<bool> = Vec::new();
        for m in moves.iter() {
            let steps = self.dex.steps_of_move(&m.pair);
            let before = self.ledger.clone();
            let mut fine = true;
            for step in steps {
                let (asset, p) = match step {
                    MoveStep::KeepAlive(a) => (a, Preservation::Preserve),
                    MoveStep::All(a) => (a, Preservation::Expendable),
                };
                let amount = self.ledger.reducible(asset, &m.from, p);
                if amount > 0 && self.ledger.transfer(asset, &m.from, &m.to, amount, p).is_err() {
                    fine = false;
                    break;
                }
            }
            if !fine {
                self.ledger = before;
            }
            moved.push(fine);
        }
        self.dex.finish_moves(&moves, &moved)
    }
}

/// Rounded square root of a product.
fn isqrt_u256(a: u128, b: u128) -> u128 {
    let p = sp_core::U256::from(a) * sp_core::U256::from(b);
    p.integer_sqrt().try_into().expect("fits")
}

/// Rounded quotient of a product.
fn mul_div_u256(a: u128, b: u128, c: u128) -> u128 {
    let x = sp_core::U256::from(a) * sp_core::U256::from(b) / sp_core::U256::from(c);
    x.try_into().expect("fits")
}

/// Funds the seeder and the trader at full scale and creates the pool.
fn setup_scale_pool(w: &mut World) -> AssetPair {
    w.set_native(ALICE, 1_000_000_000 * UNIT);
    w.set_native(BOB, 1_000_000_000 * UNIT);
    w.create_asset(MEME_ID, false);
    w.mint(MEME_ID, ALICE, 1_000_000_000 * UNIT);
    w.mint(MEME_ID, BOB, 1_000_000_000 * UNIT);
    ok(w.create_pool(root(), native(), meme(), 3));
    Pallet::canonical_pair(native(), meme())
}

/// Mints the reserved asset and funds the seeder. Creates no pool.
fn setup_reserved_asset(w: &mut World) {
    w.set_native(ESCROW, 1_000_000 * UNIT);
    w.set_native(BOB, 1_000_000 * UNIT);
    w.create_asset(LAUNCH_ID, false);
    w.mint(LAUNCH_ID, ESCROW, 1_000_000_000 * UNIT);
    w.mint(LAUNCH_ID, BOB, 1_000_000_000 * UNIT);
}

fn seed(w: &mut World, who: AccountId) -> Result<u128, Fail> {
    if w.default_routing(3).is_none() {
        ok(w.set_default_fee_routing(root(), 3, 0, 0, 0));
    }
    w.seed_reserved_pool_for(&who, launch(), native(), SEED_TOKEN, SEED_NATIVE, 3)
}

fn set_routing(w: &mut World, protocol_bps: u16, creator_bps: u16) {
    if protocol_bps <= pool_floor_bps(1) {
        ok(w.set_default_fee_routing(root(), 1, protocol_bps, 0, 0));
    }
    for tier in [3, 10] {
        ok(w.set_default_fee_routing(root(), tier, protocol_bps, creator_bps, 0));
    }
}

fn set_routing3(w: &mut World, protocol_bps: u16, creator_bps: u16, treasury_bps: u16) {
    if protocol_bps <= pool_floor_bps(1) {
        ok(w.set_default_fee_routing(root(), 1, protocol_bps, 0, 0));
    }
    let routed = protocol_bps + creator_bps + treasury_bps;
    for tier in [3, 10] {
        if (FeeRouting { protocol_bps, creator_bps, treasury_bps }).is_valid_for(tier) {
            ok(w.set_default_fee_routing(root(), tier, protocol_bps, creator_bps, treasury_bps));
        } else {
            assert!(routed > 0);
        }
    }
}

fn escrow() -> AccountId {
    Pallet::fee_escrow_account()
}

fn seeded_launch_pool(w: &mut World, protocol_bps: u16, creator_bps: u16) -> AssetPair {
    setup_reserved_asset(w);
    set_routing(w, protocol_bps, creator_bps);
    ok(seed(w, ESCROW));
    Pallet::canonical_pair(native(), launch())
}

fn seeded_launch_pool3(
    w: &mut World,
    protocol_bps: u16,
    creator_bps: u16,
    treasury_bps: u16,
) -> AssetPair {
    setup_reserved_asset(w);
    set_routing3(w, protocol_bps, creator_bps, treasury_bps);
    ok(seed(w, ESCROW));
    Pallet::canonical_pair(native(), launch())
}

/// Registers `who` as a solver and returns the id they were given.
fn register_solver_for(w: &mut World, who: AccountId) -> u64 {
    let id = w.dex.next_solver_id;
    ok(w.register_solver(signed(who)));
    id
}

/// A pool of the native asset and USDC with half a million of each.
fn setup_pool_native_usdc(w: &mut World) {
    ok(w.create_pool(root(), native(), usdc(), 10));
    ok(w.add_liquidity(signed(ALICE), native(), usdc(), 500_000, 500_000, 0, 0));
}

#[test]
fn test_create_pool_success() {
    let mut w = World::new();
    ok(w.create_pool(root(), usdc(), vnrg(), 10,));

    let pool = w.pool(pair()).expect("pool stored");
    assert_eq!(pool.reserve_a, 0);
    assert_eq!(pool.reserve_b, 0);
    assert_eq!(pool.fee_tier, 10);
    assert_eq!(pool.total_fees_collected, 0);
    assert_eq!(w.total(pair()), Some(0));

    w.assert_event(Event::PoolCreated { asset_a: usdc(), asset_b: vnrg(), fee_tier: 10 });
}

#[test]
fn test_create_pool_duplicate_fails() {
    let mut w = World::new();
    ok(w.create_pool(root(), usdc(), vnrg(), 10,));
    noop(&mut w, |w| w.create_pool(root(), usdc(), vnrg(), 10), Error::PoolAlreadyExists);
}

#[test]
fn test_add_liquidity_first_deposit() {
    let mut w = World::new();
    ok(w.create_pool(root(), usdc(), vnrg(), 10,));
    ok(w.add_liquidity(
        signed(ALICE),
        usdc(),
        vnrg(),
        10_000,
        40_000,
        0,
        0,
    ));

    assert_eq!(w.total(pair()), Some(20_000));
    let pos = w.position(ALICE, pair()).unwrap();
    assert_eq!(pos.shares, 19_000);

    let pool = w.pool(pair()).unwrap();
    assert_eq!(pool.reserve_a, 10_000);
    assert_eq!(pool.reserve_b, 40_000);
}

#[test]
fn test_add_liquidity_subsequent_deposit() {
    let mut w = World::new();
    ok(w.create_pool(root(), usdc(), vnrg(), 10,));
    ok(w.add_liquidity(
        signed(ALICE),
        usdc(),
        vnrg(),
        10_000,
        40_000,
        0,
        0,
    ));
    ok(w.add_liquidity(
        signed(BOB),
        usdc(),
        vnrg(),
        5_000,
        20_000,
        0,
        0,
    ));

    assert_eq!(w.total(pair()), Some(30_000));
    let bob_pos = w.position(BOB, pair()).unwrap();
    assert_eq!(bob_pos.shares, 10_000);

    let pool = w.pool(pair()).unwrap();
    assert_eq!(pool.reserve_a, 15_000);
    assert_eq!(pool.reserve_b, 60_000);
}

#[test]
fn test_remove_liquidity_full() {
    let mut w = World::new();
    ok(w.create_pool(root(), usdc(), vnrg(), 10,));
    ok(w.add_liquidity(
        signed(ALICE),
        usdc(),
        vnrg(),
        10_000,
        40_000,
        0,
        0,
    ));

    ok(w.remove_liquidity(
        signed(ALICE),
        usdc(),
        vnrg(),
        19_000,
        0,
        0,
    ));

    let pool = w.pool(pair()).unwrap();
    assert_eq!(pool.reserve_a, 500);
    assert_eq!(pool.reserve_b, 2_000);
    assert_eq!(w.total(pair()), Some(1_000));
    assert!(w.position(ALICE, pair()).is_none());
}

#[test]
fn test_swap_exact_tokens() {
    let mut w = World::new();
    ok(w.create_pool(root(), usdc(), vnrg(), 10,));
    ok(w.add_liquidity(
        signed(ALICE),
        usdc(),
        vnrg(),
        10_000,
        10_000,
        0,
        0,
    ));

    ok(w.swap_exact_tokens_for_tokens(
        signed(BOB),
        usdc(),
        vnrg(),
        100,
        0,
        BOB,
    ));

    let pool = w.pool(pair()).unwrap();
    assert_eq!(pool.reserve_a, 10_099);
    assert_eq!(pool.reserve_b, 9_902);
    assert_eq!(pool.total_fees_collected, 1);

    w.assert_event(Event::SwapExecuted {
            who: BOB,
            asset_in: usdc(),
            asset_out: vnrg(),
            amount_in: 100,
            amount_out: 98,
            fee: 1,
        });
}

#[test]
fn test_swap_insufficient_liquidity() {
    let mut w = World::new();
    ok(w.create_pool(root(), usdc(), vnrg(), 10,));
    noop(&mut w, |w| w.swap_exact_tokens_for_tokens(
            signed(BOB),
            usdc(),
            vnrg(),
            100,
            0,
            BOB,
        ), Error::InsufficientLiquidity);
}

#[test]
fn test_swap_slippage_protection() {
    let mut w = World::new();
    ok(w.create_pool(root(), usdc(), vnrg(), 10,));
    ok(w.add_liquidity(
        signed(ALICE),
        usdc(),
        vnrg(),
        10_000,
        10_000,
        0,
        0,
    ));

    noop(&mut w, |w| w.swap_exact_tokens_for_tokens(
            signed(BOB),
            usdc(),
            vnrg(),
            100,
            500,
            BOB,
        ), Error::SlippageExceeded);
}

#[test]
fn do_create_pool_direct_creates_pool_without_origin() {
    let mut w = World::new();
    assert!(!w.pool_exists(usdc(), vnrg()));

    ok(w.do_create_pool(usdc(), vnrg(), 3));

    assert!(w.pool_exists(usdc(), vnrg()));
    assert!(w.pool_exists(vnrg(), usdc()));

    let pool = w.pool(pair()).expect("pool stored");
    assert_eq!(pool.reserve_a, 0);
    assert_eq!(pool.reserve_b, 0);
    assert_eq!(pool.fee_tier, 3);
    assert_eq!(w.total(pair()), Some(0));
    w.assert_event(Event::PoolCreated { asset_a: usdc(), asset_b: vnrg(), fee_tier: 3 });

    noop(&mut w, |w| w.create_pool(signed(ALICE), usdc(), native(), 3), Fail::BadOrigin);
    assert!(!w.pool_exists(usdc(), native()));
}

#[test]
fn do_create_pool_direct_enforces_fee_tier_and_uniqueness() {
    let mut w = World::new();
    noop(&mut w, |w| w.do_create_pool(usdc(), vnrg(), 5), Error::InvalidFeeTier);
    ok(w.do_create_pool(usdc(), vnrg(), 1));
    noop(&mut w, |w| w.do_create_pool(vnrg(), usdc(), 1), Error::PoolAlreadyExists);
}

#[test]
fn do_add_liquidity_for_direct_credits_who_and_returns_shares() {
    let mut w = World::new();
    ok(w.do_create_pool(usdc(), vnrg(), 10));

    let bob_usdc_before = w.asset_of(USDC_ID, BOB);
    let bob_vnrg_before = w.asset_of(VNRG_ID, BOB);

    let minted = w.do_add_liquidity_for(&BOB, usdc(), vnrg(), 10_000, 40_000, 0, 0)
        .expect("first deposit");
    assert_eq!(minted, 19_000);

    assert_eq!(w.asset_of(USDC_ID, BOB), bob_usdc_before - 10_000);
    assert_eq!(w.asset_of(VNRG_ID, BOB), bob_vnrg_before - 40_000);
    assert_eq!(w.asset_of(USDC_ID, ALICE), 1_000_000);

    let pos = w.position(BOB, pair()).expect("position");
    assert_eq!(pos.shares, 19_000);
    assert_eq!(pos.entry_block, 1);
    assert_eq!(pos.locked_until, None);
    assert_eq!(w.total(pair()), Some(20_000));

    let pool = w.pool(pair()).unwrap();
    assert_eq!(pool.reserve_a, 10_000);
    assert_eq!(pool.reserve_b, 40_000);

    w.assert_event(Event::LiquidityAdded {
            provider: BOB,
            asset_a: usdc(),
            asset_b: vnrg(),
            amount_a: 10_000,
            amount_b: 40_000,
            shares_minted: 19_000,
        });

    let minted2 =
        w.do_add_liquidity_for(&CHARLIE, usdc(), vnrg(), 5_000, 20_000, 0, 0)
            .expect("second deposit");
    assert_eq!(minted2, 10_000);
    assert_eq!(w.position(CHARLIE, pair()).unwrap().shares, 10_000);
    assert_eq!(w.total(pair()), Some(30_000));
}

#[test]
fn do_add_liquidity_for_direct_rejects_missing_pool_and_slippage() {
    let mut w = World::new();
    noop(&mut w, |w| w.do_add_liquidity_for(&BOB, usdc(), vnrg(), 10_000, 40_000, 0, 0), Error::PoolNotFound);

    ok(w.do_create_pool(usdc(), vnrg(), 10));
    noop(&mut w, |w| w.do_add_liquidity_for(&BOB, usdc(), vnrg(), 0, 40_000, 0, 0), Error::ZeroAmount);
    ok(w.do_add_liquidity_for(&BOB, usdc(), vnrg(), 10_000, 40_000, 0, 0));

    noop(&mut w, |w| w.do_add_liquidity_for(&CHARLIE, usdc(), vnrg(), 5_000, 30_000, 0, 25_000), Error::SlippageExceeded);
}

#[test]
fn do_lock_liquidity_for_direct_locks_position() {
    let mut w = World::new();
    ok(w.do_create_pool(usdc(), vnrg(), 10));
    ok(w.do_add_liquidity_for(&BOB, usdc(), vnrg(), 10_000, 40_000, 0, 0));

    noop(&mut w, |w| w.do_lock_liquidity_for(&CHARLIE, usdc(), vnrg(), 50), Error::InsufficientShares);

    ok(w.do_lock_liquidity_for(&BOB, usdc(), vnrg(), 50));
    assert_eq!(w.position(BOB, pair()).unwrap().locked_until, Some(50));
    w.assert_event(Event::LiquidityLocked { who: BOB, pool: pair(), locked_until: 50 });

    noop(&mut w, |w| w.remove_liquidity(signed(BOB), usdc(), vnrg(), 1_000, 0, 0), Error::PoolLocked);
    w.block = 50;
    ok(w.remove_liquidity(
        signed(BOB),
        usdc(),
        vnrg(),
        1_000,
        0,
        0
    ));
}

#[test]
fn scale_add_liquidity_first_deposit_at_seed_amounts() {
    let mut w = World::new();
    let key = setup_scale_pool(&mut w);

    ok(w.add_liquidity(
        signed(ALICE),
        native(),
        meme(),
        SEED_NATIVE,
        SEED_TOKEN,
        SEED_NATIVE,
        SEED_TOKEN,
    ));

    let expected_total = isqrt_u256(SEED_NATIVE, SEED_TOKEN);
    assert_eq!(w.total(key), Some(expected_total));
    let pos = w.position(ALICE, key).expect("position");
    assert_eq!(pos.shares, expected_total - u128::from(MINIMUM_LIQUIDITY));

    let pool = w.pool(key).unwrap();
    assert_eq!(pool.reserve_a, SEED_NATIVE);
    assert_eq!(pool.reserve_b, SEED_TOKEN);
}

#[test]
fn scale_add_liquidity_subsequent_deposit_uses_optimal_amounts() {
    let mut w = World::new();
    let key = setup_scale_pool(&mut w);
    ok(w.add_liquidity(
        signed(ALICE),
        native(),
        meme(),
        SEED_NATIVE,
        SEED_TOKEN,
        0,
        0,
    ));
    let total_before = w.total(key).unwrap();

    let offer_native = 1_000 * UNIT;
    let offer_token = 100_000_000 * UNIT;
    let optimal_token = mul_div_u256(offer_native, SEED_TOKEN, SEED_NATIVE);
    assert!(optimal_token < offer_token);

    let token_before = w.asset_of(MEME_ID, BOB);
    ok(w.add_liquidity(
        signed(BOB),
        native(),
        meme(),
        offer_native,
        offer_token,
        offer_native,
        optimal_token,
    ));
    assert_eq!(token_before - w.asset_of(MEME_ID, BOB), optimal_token);

    let share_a = mul_div_u256(offer_native, total_before, SEED_NATIVE);
    let share_b = mul_div_u256(optimal_token, total_before, SEED_TOKEN);
    let expected = share_a.min(share_b);
    let pos = w.position(BOB, key).expect("position");
    assert_eq!(pos.shares, expected);
}

#[test]
fn scale_swap_native_for_token_at_seed_amounts() {
    let mut w = World::new();
    let key = setup_scale_pool(&mut w);
    ok(w.add_liquidity(
        signed(ALICE),
        native(),
        meme(),
        SEED_NATIVE,
        SEED_TOKEN,
        0,
        0,
    ));

    let amount_in = 100 * UNIT;
    let fee = amount_in * 3 / 1_000;
    let after_fee = amount_in - fee;
    let expected_out = mul_div_u256(SEED_TOKEN, after_fee, SEED_NATIVE + after_fee);
    assert!(expected_out > 0);

    let token_before = w.asset_of(MEME_ID, BOB);
    ok(w.swap_exact_tokens_for_tokens(
        signed(BOB),
        native(),
        meme(),
        amount_in,
        expected_out,
        BOB,
    ));
    assert_eq!(w.asset_of(MEME_ID, BOB) - token_before, expected_out);

    let pool = w.pool(key).unwrap();
    assert_eq!(pool.reserve_a, SEED_NATIVE + after_fee);
    assert_eq!(pool.reserve_b, SEED_TOKEN - expected_out);
    assert_eq!(pool.total_fees_collected, fee);

    let k_before = sp_core::U256::from(SEED_NATIVE) * sp_core::U256::from(SEED_TOKEN);
    let k_after = sp_core::U256::from(pool.reserve_a) * sp_core::U256::from(pool.reserve_b);
    assert!(k_after >= k_before);
}

#[test]
fn scale_swap_token_for_native_at_seed_amounts() {
    let mut w = World::new();
    let key = setup_scale_pool(&mut w);
    ok(w.add_liquidity(
        signed(ALICE),
        native(),
        meme(),
        SEED_NATIVE,
        SEED_TOKEN,
        0,
        0,
    ));

    let amount_in = 1_000_000 * UNIT;
    let fee = amount_in * 3 / 1_000;
    let after_fee = amount_in - fee;
    let expected_out = mul_div_u256(SEED_NATIVE, after_fee, SEED_TOKEN + after_fee);
    assert!(expected_out > 0);

    let native_before = w.native_of(BOB);
    ok(w.swap_exact_tokens_for_tokens(
        signed(BOB),
        meme(),
        native(),
        amount_in,
        expected_out,
        BOB,
    ));
    assert_eq!(w.native_of(BOB) - native_before, expected_out);

    let pool = w.pool(key).unwrap();
    assert_eq!(pool.reserve_a, SEED_NATIVE - expected_out);
    assert_eq!(pool.reserve_b, SEED_TOKEN + after_fee);

    let k_before = sp_core::U256::from(SEED_NATIVE) * sp_core::U256::from(SEED_TOKEN);
    let k_after = sp_core::U256::from(pool.reserve_a) * sp_core::U256::from(pool.reserve_b);
    assert!(k_after >= k_before);
}

#[test]
fn scale_remove_liquidity_at_seed_amounts() {
    let mut w = World::new();
    let key = setup_scale_pool(&mut w);
    ok(w.add_liquidity(
        signed(ALICE),
        native(),
        meme(),
        SEED_NATIVE,
        SEED_TOKEN,
        0,
        0,
    ));
    let total = w.total(key).unwrap();
    let pos = w.position(ALICE, key).unwrap();
    let shares = pos.shares / 2;

    let expected_native = mul_div_u256(shares, SEED_NATIVE, total);
    let expected_token = mul_div_u256(shares, SEED_TOKEN, total);

    let native_before = w.native_of(ALICE);
    let token_before = w.asset_of(MEME_ID, ALICE);
    ok(w.remove_liquidity(
        signed(ALICE),
        native(),
        meme(),
        shares,
        expected_native,
        expected_token,
    ));
    assert_eq!(w.native_of(ALICE) - native_before, expected_native);
    assert_eq!(w.asset_of(MEME_ID, ALICE) - token_before, expected_token);

    let pool = w.pool(key).unwrap();
    assert_eq!(pool.reserve_a, SEED_NATIVE - expected_native);
    assert_eq!(pool.reserve_b, SEED_TOKEN - expected_token);
    assert_eq!(w.total(key), Some(total - shares));
}

#[test]
fn scale_narrowing_errors_instead_of_truncating() {
    let mut w = World::new();
    let key = setup_scale_pool(&mut w);
    ok(w.add_liquidity(
        signed(ALICE),
        native(),
        meme(),
        SEED_NATIVE,
        SEED_TOKEN,
        0,
        0,
    ));
    w.set_native(BOB, u128::MAX);
    let huge_native: u128 = 100_000_000_000_000_000_000_000_000_000_000_000_000;
    let total_before = w.total(key).unwrap();

    noop(&mut w, |w| w.add_liquidity(
            signed(BOB),
            native(),
            meme(),
            huge_native,
            u128::MAX,
            0,
            0,
        ), Error::Overflow);
    assert_eq!(w.total(key), Some(total_before));
    assert!(w.position(BOB, Pallet::canonical_pair(native(), meme()))
        .is_none());
}

#[test]
fn canonical_pair_orders_native_before_with_id() {
    let (a, b) = Pallet::canonical_pair(launch(), native());
    assert_eq!(a, native());
    assert_eq!(b, launch());
    let (a, b) = Pallet::canonical_pair(native(), launch());
    assert_eq!(a, native());
    assert_eq!(b, launch());
}

#[test]
fn reserved_asset_rejected_by_create_pool_for_every_caller() {
    let mut w = World::new();
    setup_reserved_asset(&mut w);

    noop(&mut w, |w| w.create_pool(root(), native(), launch(), 3), Error::ReservedAsset);
    noop(&mut w, |w| w.create_pool(root(), launch(), native(), 3), Error::ReservedAsset);
    noop(&mut w, |w| w.create_pool(root(), usdc(), launch(), 3), Error::ReservedAsset);
    noop(&mut w, |w| w.do_create_pool(
            native(),
            launch(),
            3
        ), Error::ReservedAsset);
    noop(&mut w, |w| w.do_create_pool(launch(), native(), 3), Error::ReservedAsset);
    noop(&mut w, |w| w.do_create_pool(launch(), native(), 7), Error::ReservedAsset);

    assert!(!w.pool_exists(native(), launch()));
    assert!(w.pool(Pallet::canonical_pair(native(), launch())).is_none());

    ok(w.create_pool(root(), usdc(), vnrg(), 3));
}

#[test]
fn seed_reserved_pool_creates_pool_deposits_stored_amounts_and_locks_forever() {
    let mut w = World::new();
    setup_reserved_asset(&mut w);
    let key = Pallet::canonical_pair(native(), launch());
    let pool_account = Pallet::pool_account_for(native(), launch());
    assert_eq!(w.native_of(pool_account), 0);

    let native_before = w.native_of(ESCROW);
    let token_before = w.asset_of(LAUNCH_ID, ESCROW);

    let shares = seed(&mut w, ESCROW).expect("seed");

    let expected_total = isqrt_u256(SEED_NATIVE, SEED_TOKEN);
    assert_eq!(shares, expected_total - u128::from(MINIMUM_LIQUIDITY));
    assert_eq!(w.total(key), Some(expected_total));

    assert_eq!(native_before - w.native_of(ESCROW), SEED_NATIVE);
    assert_eq!(token_before - w.asset_of(LAUNCH_ID, ESCROW), SEED_TOKEN);
    assert_eq!(w.native_of(pool_account), SEED_NATIVE);
    assert_eq!(w.asset_of(LAUNCH_ID, pool_account), SEED_TOKEN);

    let pool = w.pool(key).unwrap();
    assert_eq!(pool.pool_account, pool_account);
    assert_eq!(pool.fee_tier, 3);
    assert_eq!((pool.reserve_a, pool.reserve_b), (SEED_NATIVE, SEED_TOKEN));

    let pos = w.position(ESCROW, key).expect("position");
    assert_eq!(pos.shares, shares);
    assert_eq!(pos.locked_until, Some(u64::MAX));

    assert_eq!(w.positions_of(ALICE), 0);
    assert_eq!(w.positions_of(BOB), 0);

    w.block = u64::MAX - 1;
    noop(&mut w, |w| w.remove_liquidity(
            signed(ESCROW),
            native(),
            launch(),
            1,
            0,
            0
        ), Error::PoolLocked);
    noop(&mut w, |w| w.lock_liquidity(signed(ESCROW), native(), launch(), 10), Error::LockCannotBeShortened);
    noop(&mut w, |w| w.do_lock_liquidity_for(
            &ESCROW,
            native(),
            launch(),
            u64::MAX - 1
        ), Error::LockCannotBeShortened);
    assert_eq!(
        w.position(ESCROW, key).unwrap().locked_until,
        Some(u64::MAX)
    );

    w.assert_event(Event::ReservedPoolSeeded {
            who: ESCROW,
            asset: launch(),
            quote: native(),
            amount_asset: SEED_TOKEN,
            amount_quote: SEED_NATIVE,
            shares,
        });
    w.assert_event(Event::LiquidityLocked { who: ESCROW, pool: key, locked_until: u64::MAX });

    ok(w.add_liquidity(
        signed(BOB),
        native(),
        launch(),
        UNIT,
        u128::MAX / 4,
        0,
        0,
    ));
}

#[test]
fn seed_sweeps_pre_seed_donations_so_opening_price_is_stored_ratio() {
    let mut w = World::new();
    setup_reserved_asset(&mut w);
    let key = Pallet::canonical_pair(native(), launch());
    let pool_account = Pallet::pool_account_for(native(), launch());

    w.set_native(TREASURY, UNIT);

    let donated_token = 3 * SEED_TOKEN;
    let donated_native = 5 * UNIT;
    ok(w.send(native(), BOB, pool_account,
        donated_native
    ));
    ok(w.send(AssetKind::WithId(LAUNCH_ID), BOB, pool_account,
        donated_token
    ));
    assert_eq!(w.native_of(pool_account), donated_native);
    assert_eq!(w.asset_of(LAUNCH_ID, pool_account), donated_token);
    assert_eq!(w.native_of(TREASURY), UNIT);
    assert_eq!(w.asset_of(LAUNCH_ID, TREASURY), 0);

    let shares = seed(&mut w, ESCROW).expect("seed");

    assert_eq!(w.native_of(TREASURY), UNIT + donated_native);
    assert_eq!(w.asset_of(LAUNCH_ID, TREASURY), donated_token);
    assert_eq!(w.native_of(pool_account), SEED_NATIVE);
    assert_eq!(w.asset_of(LAUNCH_ID, pool_account), SEED_TOKEN);
    w.assert_event(Event::PreSeedBalanceSwept {
            pool: key,
            asset: launch(),
            amount: donated_token,
            to: TREASURY,
        });
    w.assert_event(Event::PreSeedBalanceSwept {
            pool: key,
            asset: native(),
            amount: donated_native,
            to: TREASURY,
        });

    let pool = w.pool(key).unwrap();
    assert_eq!((pool.reserve_a, pool.reserve_b), (SEED_NATIVE, SEED_TOKEN));
    assert_eq!(
        shares,
        isqrt_u256(SEED_NATIVE, SEED_TOKEN) - u128::from(MINIMUM_LIQUIDITY)
    );

    let amount_in = 100 * UNIT;
    let after_fee = amount_in - amount_in * 3 / 1_000;
    let expected_out = mul_div_u256(SEED_TOKEN, after_fee, SEED_NATIVE + after_fee);
    let bob_before = w.asset_of(LAUNCH_ID, BOB);
    ok(w.swap_exact_tokens_for_tokens(
        signed(BOB),
        native(),
        launch(),
        amount_in,
        expected_out,
        BOB,
    ));
    assert_eq!(w.asset_of(LAUNCH_ID, BOB) - bob_before, expected_out);
    let pool = w.pool(key).unwrap();
    assert_eq!(pool.reserve_a, SEED_NATIVE + after_fee);
    assert_eq!(pool.reserve_b, SEED_TOKEN - expected_out);
}

#[test]
fn seed_is_transactional_when_sweep_or_deposit_fails() {
    let mut w = World::new();
    setup_reserved_asset(&mut w);
    let pool_account = Pallet::pool_account_for(native(), launch());
    ok(w.send(native(), BOB, pool_account,
        5 * UNIT
    ));

    w.set_native(ESCROW, 1);
    assert!(seed(&mut w, ESCROW).is_err());
    assert_eq!(w.native_of(pool_account), 5 * UNIT);
    assert_eq!(w.native_of(TREASURY), 0);
    assert!(!w.pool_exists(native(), launch()));
    assert!(w.pool(Pallet::canonical_pair(native(), launch())).is_none());
}

#[test]
fn lock_can_be_extended_but_never_shortened() {
    let mut w = World::new();
    ok(w.do_create_pool(usdc(), vnrg(), 10));
    ok(w.do_add_liquidity_for(&BOB, usdc(), vnrg(), 10_000, 40_000, 0, 0));

    ok(w.lock_liquidity(signed(BOB), usdc(), vnrg(), 50));
    assert_eq!(w.position(BOB, pair()).unwrap().locked_until, Some(50));
    ok(w.lock_liquidity(signed(BOB), usdc(), vnrg(), 50));
    ok(w.lock_liquidity(signed(BOB), usdc(), vnrg(), 80));
    assert_eq!(w.position(BOB, pair()).unwrap().locked_until, Some(80));
    noop(&mut w, |w| w.lock_liquidity(signed(BOB), usdc(), vnrg(), 79), Error::LockCannotBeShortened);
    noop(&mut w, |w| w.do_lock_liquidity_for(
            &BOB,
            usdc(),
            vnrg(),
            0
        ), Error::LockCannotBeShortened);
    assert_eq!(w.position(BOB, pair()).unwrap().locked_until, Some(80));

    w.block = 100;
    noop(&mut w, |w| w.lock_liquidity(signed(BOB), usdc(), vnrg(), 60), Error::LockCannotBeShortened);
    ok(w.lock_liquidity(signed(BOB), usdc(), vnrg(), 200));
}

#[test]
fn seed_burns_pre_seed_donation_when_recipient_cannot_receive_it() {
    let mut w = World::new();
    setup_reserved_asset(&mut w);
    let key = Pallet::canonical_pair(native(), launch());
    let pool_account = Pallet::pool_account_for(native(), launch());
    assert_eq!(w.native_of(TREASURY), 0);
    let donated_native = 5 * UNIT;
    let donated_token = 3 * SEED_TOKEN;
    ok(w.send(native(), BOB, pool_account,
        donated_native
    ));
    ok(w.send(AssetKind::WithId(LAUNCH_ID), BOB, pool_account,
        donated_token
    ));
    let issuance_before = w.total_supply(LAUNCH_ID);
    let escrow_native_before = w.native_of(ESCROW);
    let escrow_token_before = w.asset_of(LAUNCH_ID, ESCROW);

    ok(w.set_default_fee_routing(root(), 3, 0, 0, 0));
    noop(&mut w, |w| seed(w, ESCROW), Error::ExcessRecipientCannotReceive);

    assert!(w.pool(key).is_none());
    assert!(w.total(key).is_none());
    assert!(w.position(ESCROW, key).is_none());
    assert_eq!(w.total_supply(LAUNCH_ID), issuance_before);
    assert_eq!(w.asset_of(LAUNCH_ID, pool_account), donated_token);
    assert_eq!(w.native_of(pool_account), donated_native);
    assert_eq!(w.asset_of(LAUNCH_ID, TREASURY), 0);
    assert_eq!(w.native_of(TREASURY), 0);
    assert_eq!(w.native_of(ESCROW), escrow_native_before);
    assert_eq!(w.asset_of(LAUNCH_ID, ESCROW), escrow_token_before);

    w.set_native(TREASURY, UNIT);
    ok(seed(&mut w, ESCROW));
    assert_eq!(w.asset_of(LAUNCH_ID, TREASURY), donated_token);
    assert_eq!(w.native_of(TREASURY), UNIT + donated_native);
    assert_eq!(w.asset_of(LAUNCH_ID, pool_account), SEED_TOKEN);
    assert_eq!(w.native_of(pool_account), SEED_NATIVE);
}

#[test]
fn d5_add_liquidity_non_canonical_order_maps_amounts_to_assets() {
    let mut w = World::new();
    ok(w.create_pool(root(), usdc(), native(), 3));
    let key = Pallet::canonical_pair(usdc(), native());
    assert_eq!(key, (native(), usdc()));

    let native_before = w.native_of(ALICE);
    let usdc_before = w.asset_of(USDC_ID, ALICE);
    ok(w.add_liquidity(
        signed(ALICE),
        usdc(),
        native(),
        100_000,
        40_000,
        100_000,
        40_000,
    ));
    assert_eq!(native_before - w.native_of(ALICE), 40_000);
    assert_eq!(usdc_before - w.asset_of(USDC_ID, ALICE), 100_000);
    let pool = w.pool(key).unwrap();
    assert_eq!(pool.reserve_a, 40_000);
    assert_eq!(pool.reserve_b, 100_000);
    w.assert_event(Event::LiquidityAdded {
            provider: ALICE,
            asset_a: native(),
            asset_b: usdc(),
            amount_a: 40_000,
            amount_b: 100_000,
            shares_minted: 63_245 - 1_000,
        });

    let native_before = w.native_of(BOB);
    let usdc_before = w.asset_of(USDC_ID, BOB);
    ok(w.add_liquidity(
        signed(BOB),
        usdc(),
        native(),
        50_000,
        30_000,
        50_000,
        20_000,
    ));
    assert_eq!(usdc_before - w.asset_of(USDC_ID, BOB), 50_000);
    assert_eq!(native_before - w.native_of(BOB), 20_000);
    let pool = w.pool(key).unwrap();
    assert_eq!((pool.reserve_a, pool.reserve_b), (60_000, 150_000));
}

#[test]
fn d5_remove_liquidity_non_canonical_order_maps_minimums() {
    let mut w = World::new();
    ok(w.create_pool(root(), native(), usdc(), 3));
    ok(w.add_liquidity(
        signed(ALICE),
        native(),
        usdc(),
        40_000,
        100_000,
        0,
        0,
    ));
    let key = Pallet::canonical_pair(native(), usdc());
    let pos = w.position(ALICE, key).unwrap();
    let total = w.total(key).unwrap();
    let shares = pos.shares / 2;
    let expect_native = shares * 40_000 / total;
    let expect_usdc = shares * 100_000 / total;
    assert!(expect_usdc > expect_native);

    let native_before = w.native_of(ALICE);
    let usdc_before = w.asset_of(USDC_ID, ALICE);
    ok(w.remove_liquidity(
        signed(ALICE),
        usdc(),
        native(),
        shares,
        expect_usdc,
        expect_native,
    ));
    assert_eq!(w.asset_of(USDC_ID, ALICE) - usdc_before, expect_usdc);
    assert_eq!(w.native_of(ALICE) - native_before, expect_native);

    let pool = w.pool(key).unwrap();
    let total = w.total(key).unwrap();
    let payout_usdc = shares * pool.reserve_b / total;
    noop(&mut w, |w| w.remove_liquidity(
            signed(ALICE),
            usdc(),
            native(),
            shares,
            payout_usdc + 1,
            0,
        ), Error::SlippageExceeded);
}

#[test]
fn d5_pool_manager_add_liquidity_for_non_canonical_order() {
    let mut w = World::new();
    ok(w.do_create_pool(native(), usdc(), 3));
    let minted =
        w.do_add_liquidity_for(
            &CHARLIE,
            usdc(),
            native(),
            100_000,
            40_000,
            100_000,
            40_000,
        )
        .expect("deposit");
    assert_eq!(minted, 63_245 - 1_000);
    let pool = w.pool(Pallet::canonical_pair(native(), usdc())).unwrap();
    assert_eq!((pool.reserve_a, pool.reserve_b), (40_000, 100_000));
}

#[test]
fn d4_default_routing_is_zero_and_swaps_route_nothing() {
    let mut w = World::new();
    assert_eq!(w.default_routing(3), None);
    let key = seeded_launch_pool(&mut w, 0, 0);
    assert_eq!(w.pool(key).unwrap().routing, FeeRouting::default());

    ok(w.swap_exact_tokens_for_tokens(
        signed(BOB),
        native(),
        launch(),
        100 * UNIT,
        0,
        BOB,
    ));
    assert_eq!(w.native_of(escrow()), 0);
    assert_eq!(w.dex.protocol_fees_unclaimed, 0);
    assert_eq!(w.creator_fees(key), 0);
    assert!(!w.events.iter().any(|e| matches!(e, Event::FeesRouted { .. })));
}

#[test]
fn d4_set_default_fee_routing_validates_and_requires_manage_origin() {
    let mut w = World::new();
    noop(&mut w, |w| w.set_default_fee_routing(signed(ALICE), 3, 5, 5, 0), Fail::BadOrigin);
    noop(&mut w, |w| w.set_default_fee_routing(root(), 2, 5, 5, 0), Error::InvalidFeeTier);
    noop(&mut w, |w| w.set_default_fee_routing(root(), 1, 6, 0, 0), Error::InvalidFeeRouting);
    noop(&mut w, |w| w.set_default_fee_routing(root(), 1, 0, 5, 0), Error::InvalidFeeRouting);
    noop(&mut w, |w| w.set_default_fee_routing(root(), 3, 5, 5, 11), Error::InvalidFeeRouting);
    set_routing(&mut w, 5, 5);
    assert_eq!(
        w.default_routing(3),
        Some(FeeRouting { protocol_bps: 5, creator_bps: 5, treasury_bps: 0 })
    );
    assert_eq!(
        w.default_routing(1),
        Some(FeeRouting { protocol_bps: 5, creator_bps: 0, treasury_bps: 0 }));
    w.assert_event(Event::DefaultFeeRoutingSet {
            fee_tier: 3,
            routing: FeeRouting { protocol_bps: 5, creator_bps: 5, treasury_bps: 0 },
        });
    ok(w.set_default_fee_routing(root(), 10, 5, 5, 60));
    assert_eq!(w.default_routing(10).unwrap().routed_bps(), 70);
    noop(&mut w, |w| w.set_default_fee_routing(root(), 3, 5, 5, 60), Error::InvalidFeeRouting);
}

#[test]
fn d4_create_pool_snapshots_protocol_share_and_folds_creator_share() {
    let mut w = World::new();
    set_routing(&mut w, 5, 5);
    ok(w.create_pool(root(), native(), usdc(), 3));
    let key = Pallet::canonical_pair(native(), usdc());
    assert_eq!(
        w.pool(key).unwrap().routing,
        FeeRouting { protocol_bps: 5, creator_bps: 0, treasury_bps: 0 }
    );
    ok(w.create_pool(root(), usdc(), vnrg(), 3));
    assert_eq!(w.pool(pair()).unwrap().routing, FeeRouting::default());
}

#[test]
fn d4_seed_snapshots_full_default_and_later_changes_never_touch_existing_pools() {
    let mut w = World::new();
    let key = seeded_launch_pool(&mut w, 5, 5);
    assert_eq!(
        w.pool(key).unwrap().routing,
        FeeRouting { protocol_bps: 5, creator_bps: 5, treasury_bps: 0 }
    );

    set_routing(&mut w, 4, 0);
    assert_eq!(
        w.pool(key).unwrap().routing,
        FeeRouting { protocol_bps: 5, creator_bps: 5, treasury_bps: 0 });
    ok(w.create_pool(root(), native(), usdc(), 1));
    let usdc_key = Pallet::canonical_pair(native(), usdc());
    assert_eq!(
        w.pool(usdc_key).unwrap().routing,
        FeeRouting { protocol_bps: 4, creator_bps: 0, treasury_bps: 0 }
    );
}

#[test]
fn d4_swap_native_in_routes_slices_out_of_the_fee() {
    let mut w = World::new();
    let key = seeded_launch_pool(&mut w, 5, 5);
    let pool_account = Pallet::pool_account_for(native(), launch());

    let amount_in = 100 * UNIT;
    let fee = amount_in * 3 / 1_000;
    let after_fee = amount_in - fee;
    let expected_out = mul_div_u256(SEED_TOKEN, after_fee, SEED_NATIVE + after_fee);
    let protocol = amount_in * 5 / 10_000;
    let creator = amount_in * 5 / 10_000;
    assert!(protocol + creator < fee);

    let token_before = w.asset_of(LAUNCH_ID, BOB);
    ok(w.swap_exact_tokens_for_tokens(
        signed(BOB),
        native(),
        launch(),
        amount_in,
        expected_out,
        BOB,
    ));
    assert_eq!(w.asset_of(LAUNCH_ID, BOB) - token_before, expected_out);

    assert_eq!(w.native_of(escrow()), protocol + creator);
    assert_eq!(w.dex.protocol_fees_unclaimed, protocol);
    assert_eq!(w.creator_fees(key), creator);
    w.assert_event(Event::FeesRouted { pool: key, protocol, creator, treasury: 0 });

    let pool = w.pool(key).unwrap();
    assert_eq!(pool.reserve_a, SEED_NATIVE + after_fee);
    assert_eq!(pool.reserve_b, SEED_TOKEN - expected_out);
    assert_eq!(pool.total_fees_collected, fee);
    assert_eq!(
        w.native_of(pool_account),
        pool.reserve_a + (fee - protocol - creator)
    );

    let k_before = sp_core::U256::from(SEED_NATIVE) * sp_core::U256::from(SEED_TOKEN);
    let k_after = sp_core::U256::from(pool.reserve_a) * sp_core::U256::from(pool.reserve_b);
    assert!(k_after >= k_before);
}

#[test]
fn d4_swap_native_out_routes_slices_from_the_gross_output() {
    let mut w = World::new();
    let key = seeded_launch_pool(&mut w, 5, 5);
    let pool_account = Pallet::pool_account_for(native(), launch());

    let amount_in = 1_000_000 * UNIT;
    let fee = amount_in * 20 / 10_000;
    let after_fee = amount_in - fee;
    let gross = mul_div_u256(SEED_NATIVE, after_fee, SEED_TOKEN + after_fee);
    let protocol = gross * 5 / 10_000;
    let creator = gross * 5 / 10_000;
    let net = gross - protocol - creator;
    assert!(net > 0);

    noop(&mut w, |w| w.swap_exact_tokens_for_tokens(
            signed(BOB),
            launch(),
            native(),
            amount_in,
            net + 1,
            BOB,
        ), Error::SlippageExceeded);
    let native_before = w.native_of(BOB);
    ok(w.swap_exact_tokens_for_tokens(
        signed(BOB),
        launch(),
        native(),
        amount_in,
        net,
        BOB,
    ));
    assert_eq!(w.native_of(BOB) - native_before, net);
    assert_eq!(w.native_of(escrow()), protocol + creator);
    assert_eq!(w.dex.protocol_fees_unclaimed, protocol);
    assert_eq!(w.creator_fees(key), creator);

    let pool = w.pool(key).unwrap();
    assert_eq!(pool.reserve_a, SEED_NATIVE - gross);
    assert_eq!(pool.reserve_b, SEED_TOKEN + after_fee);
    assert_eq!(pool.total_fees_collected, fee);
    assert_eq!(w.native_of(pool_account), pool.reserve_a);
    assert_eq!(w.asset_of(LAUNCH_ID, pool_account), pool.reserve_b + fee);

    let k_before = sp_core::U256::from(SEED_NATIVE) * sp_core::U256::from(SEED_TOKEN);
    let k_after = sp_core::U256::from(pool.reserve_a) * sp_core::U256::from(pool.reserve_b);
    assert!(k_after >= k_before);
}

#[test]
fn d4_pool_without_native_side_routes_nothing() {
    let mut w = World::new();
    set_routing(&mut w, 5, 5);
    ok(w.create_pool(root(), usdc(), vnrg(), 3));
    ok(w.add_liquidity(
        signed(ALICE),
        usdc(),
        vnrg(),
        100_000,
        100_000,
        0,
        0
    ));
    ok(w.swap_exact_tokens_for_tokens(
        signed(BOB),
        usdc(),
        vnrg(),
        10_000,
        0,
        BOB,
    ));
    assert_eq!(w.native_of(escrow()), 0);
    assert_eq!(w.dex.protocol_fees_unclaimed, 0);
    assert_eq!(w.creator_fees(pair()), 0);
    assert_eq!(w.pool(pair()).unwrap().total_fees_collected, 10_000 * 3 / 1_000);
}

#[test]
fn d4_claim_pool_creator_fees_pays_only_the_lookup_recipient() {
    let mut w = World::new();
    let key = seeded_launch_pool(&mut w, 5, 5);
    ok(w.swap_exact_tokens_for_tokens(
        signed(BOB),
        native(),
        launch(),
        100 * UNIT,
        0,
        BOB,
    ));
    let accrued = w.creator_fees(key);
    assert_eq!(accrued, 100 * UNIT * 5 / 10_000);

    noop(&mut w, |w| w.claim_pool_creator_fees(signed(BOB), launch()), Error::NotCreatorFeeRecipient);
    noop(&mut w, |w| w.claim_pool_creator_fees(signed(ALICE), usdc()), Error::NoCreatorForAsset);

    let before = w.native_of(CREATOR);
    ok(w.claim_pool_creator_fees(signed(CREATOR), launch()));
    assert_eq!(w.native_of(CREATOR) - before, accrued);
    assert_eq!(w.creator_fees(key), 0);
    w.assert_event(Event::CreatorFeesClaimed { pool: key, recipient: CREATOR, amount: accrued });
    assert_eq!(w.dex.protocol_fees_unclaimed, 100 * UNIT * 5 / 10_000);
    assert_eq!(w.native_of(escrow()), w.dex.protocol_fees_unclaimed);

    noop(&mut w, |w| w.claim_pool_creator_fees(signed(CREATOR), launch()), Error::ZeroAmount);
}

#[test]
fn d6_add_liquidity_cannot_capture_unsynced_fees() {
    let mut w = World::new();
    ok(w.create_pool(root(), usdc(), vnrg(), 10));
    ok(w.add_liquidity(
        signed(ALICE),
        usdc(),
        vnrg(),
        10_000,
        40_000,
        0,
        0,
    ));
    assert_eq!(w.total(pair()), Some(20_000));

    ok(w.swap_exact_tokens_for_tokens(
        signed(CHARLIE),
        usdc(),
        vnrg(),
        1_000,
        0,
        CHARLIE,
    ));
    let pool_account = Pallet::pool_account_for(usdc(), vnrg());
    let pool = w.pool(pair()).unwrap();
    assert_eq!(pool.reserve_a, 10_990);
    assert_eq!(pool.reserve_b, 36_397);
    assert_eq!(w.asset_of(USDC_ID, pool_account), 11_000);

    let bob_usdc_before = w.asset_of(USDC_ID, BOB);
    let bob_vnrg_before = w.asset_of(VNRG_ID, BOB);
    ok(w.add_liquidity(
        signed(BOB),
        usdc(),
        vnrg(),
        10_990,
        36_397,
        0,
        0,
    ));
    let recorded_after_add = w.pool(pair()).unwrap();
    let held_after_add =
        (w.asset_of(USDC_ID, pool_account), w.asset_of(VNRG_ID, pool_account));

    let bob_shares = w.position(BOB, pair()).unwrap().shares;
    ok(w.remove_liquidity(
        signed(BOB),
        usdc(),
        vnrg(),
        bob_shares,
        0,
        0,
    ));
    assert!(w.asset_of(USDC_ID, BOB) <= bob_usdc_before);
    assert!(w.asset_of(VNRG_ID, BOB) <= bob_vnrg_before);
    assert!(w.asset_of(USDC_ID, pool_account) >= 11_000);
    assert_eq!(recorded_after_add.reserve_a, held_after_add.0);
    assert_eq!(recorded_after_add.reserve_b, held_after_add.1);
}

#[test]
fn d6_add_liquidity_matches_optimal_amount_against_synced_reserves() {
    let mut w = World::new();
    ok(w.create_pool(root(), usdc(), vnrg(), 10));
    ok(w.add_liquidity(
        signed(ALICE),
        usdc(),
        vnrg(),
        10_000,
        40_000,
        0,
        0,
    ));
    ok(w.swap_exact_tokens_for_tokens(
        signed(CHARLIE),
        usdc(),
        vnrg(),
        1_000,
        0,
        CHARLIE,
    ));
    let bob_usdc_before = w.asset_of(USDC_ID, BOB);
    let bob_vnrg_before = w.asset_of(VNRG_ID, BOB);
    ok(w.add_liquidity(
        signed(BOB),
        usdc(),
        vnrg(),
        10_990,
        36_397,
        0,
        0,
    ));
    assert_eq!(bob_usdc_before - w.asset_of(USDC_ID, BOB), 10_990);
    assert_eq!(bob_vnrg_before - w.asset_of(VNRG_ID, BOB), 36_363);
    assert_eq!(w.position(BOB, pair()).unwrap().shares, 19_981);
    assert_eq!(w.total(pair()), Some(39_981));
    let pool = w.pool(pair()).unwrap();
    assert_eq!(pool.reserve_a, 21_990);
    assert_eq!(pool.reserve_b, 72_760);
}

#[test]
fn d8_distinct_pairs_derive_distinct_pool_accounts() {
    let a = Pallet::pool_account_for(native(), usdc());
    let b = Pallet::pool_account_for(native(), vnrg());
    assert_ne!(a, b);
    let c = Pallet::pool_account_for(usdc(), vnrg());
    assert_ne!(a, c);
    assert_ne!(b, c);
    assert_eq!(Pallet::pool_account_for(vnrg(), native()), b);
}

#[test]
fn d8_second_pool_on_a_shared_account_would_read_the_first_pools_reserves() {
    let mut w = World::new();
    ok(w.create_pool(root(), native(), usdc(), 3));
    ok(w.add_liquidity(
        signed(ALICE),
        native(),
        usdc(),
        1_000_000,
        10_000,
        0,
        0,
    ));
    let usdc_pool = w.pool(Pallet::canonical_pair(native(), usdc())).unwrap();
    assert_eq!((usdc_pool.reserve_a, usdc_pool.reserve_b), (1_000_000, 10_000));

    ok(w.create_pool(root(), native(), vnrg(), 3));
    let vnrg_pair = Pallet::canonical_pair(native(), vnrg());
    let vnrg_pool = w.pool(vnrg_pair).unwrap();

    let bob_before = w.native_of(BOB);
    ok(w.add_liquidity(
        signed(BOB),
        native(),
        vnrg(),
        10_000,
        10_000,
        0,
        0,
    ));
    let bob_shares = w.position(BOB, vnrg_pair).unwrap().shares;
    ok(w.remove_liquidity(signed(BOB), native(), vnrg(), bob_shares, 0, 0));
    let bob_after = w.native_of(BOB);
    assert!(
        bob_after <= bob_before,
        "Bob deposited 10_000 VTRS into an empty pool and withdrew {} more than he had; the USDC pool's account went from 1_000_000 to {}",
        bob_after - bob_before,
        w.native_of(usdc_pool.pool_account),
    );
    assert_eq!(w.native_of(usdc_pool.pool_account), 1_000_000);
    let usdc_pool_after = w.pool(Pallet::canonical_pair(native(), usdc())).unwrap();
    assert_eq!((usdc_pool_after.reserve_a, usdc_pool_after.reserve_b), (1_000_000, 10_000));

    assert_ne!(vnrg_pool.pool_account, usdc_pool.pool_account);
    assert!(w.native_of(vnrg_pool.pool_account) <= 10_000);
}

#[test]
fn d9_routing_is_tier_relative() {
    let r = FeeRouting { protocol_bps: 5, creator_bps: 5, treasury_bps: 10 };
    assert!(r.is_valid_for(3) && r.is_valid_for(10));
    assert!(!r.is_valid_for(1));
    assert_eq!((MIN_FEE_TIER, MIN_LAUNCH_FEE_TIER, MIN_POOL_BPS), (1, 3, 10));
    assert_eq!((pool_floor_bps(1), pool_floor_bps(3), pool_floor_bps(10)), (5, 10, 10));
    assert!(
    !FeeRouting { protocol_bps: 10, creator_bps: 10, treasury_bps: 10 }.is_valid_for(3));
    assert!(FeeRouting { protocol_bps: 5, creator_bps: 5, treasury_bps: 60 }.is_valid_for(10));
    assert!(
    !FeeRouting { protocol_bps: 5, creator_bps: 5, treasury_bps: 81 }.is_valid_for(10));
    assert!(FeeRouting { protocol_bps: 5, creator_bps: 0, treasury_bps: 0 }.is_valid_for(1));
    assert!(!FeeRouting { protocol_bps: 6, creator_bps: 0, treasury_bps: 0 }.is_valid_for(1));
    assert!(FeeRouting { protocol_bps: 10, creator_bps: 10, treasury_bps: 10 }.fits_tier(3));
    assert!(!FeeRouting { protocol_bps: 10, creator_bps: 10, treasury_bps: 11 }.fits_tier(3));

    let mut w = World::new();
    set_routing3(&mut w, 5, 5, 10);
    ok(w.create_pool(root(), native(), usdc(), 1));
    let key = Pallet::canonical_pair(native(), usdc());
    assert_eq!(
        w.pool(key).unwrap().routing,
        FeeRouting { protocol_bps: 5, creator_bps: 0, treasury_bps: 0 }
    );
    let key = seeded_launch_pool3(&mut w, 5, 5, 10);
    assert_eq!(
        w.pool(key).unwrap().routing,
        FeeRouting { protocol_bps: 5, creator_bps: 5, treasury_bps: 10 }
    );
}

#[test]
fn d9_treasury_push_goes_to_vault_and_notes() {
    let mut w = World::new();
    w.sink_vault = Some(VAULT);
    let key = seeded_launch_pool3(&mut w, 5, 5, 10);
    let pool_account = Pallet::pool_account_for(native(), launch());

    let amount_in = 100 * UNIT;
    let fee = amount_in * 3 / 1_000;
    let after_fee = amount_in - fee;
    let expected_out = mul_div_u256(SEED_TOKEN, after_fee, SEED_NATIVE + after_fee);
    let (protocol, creator, treasury) =
        (amount_in * 5 / 10_000, amount_in * 5 / 10_000, amount_in * 10 / 10_000);
    assert_eq!(protocol + creator + treasury, fee * 2 / 3);

    ok(w.swap_exact_tokens_for_tokens(
        signed(BOB),
        native(),
        launch(),
        amount_in,
        expected_out,
        BOB
    ));

    assert_eq!(w.native_of(VAULT), treasury);
    assert_eq!(w.noted, vec![(LAUNCH_ID, treasury)]);
    assert_eq!(w.native_of(escrow()), protocol + creator);
    assert_eq!(w.dex.protocol_fees_unclaimed, protocol);
    assert_eq!(w.creator_fees(key), creator);
    w.assert_event(Event::FeesRouted { pool: key, protocol, creator, treasury });

    let pool = w.pool(key).unwrap();
    assert_eq!(pool.reserve_a, SEED_NATIVE + after_fee);
    assert_eq!(
        w.native_of(pool_account),
        pool.reserve_a + (fee - protocol - creator - treasury)
    );

    let tokens_in = 1_000_000 * UNIT;
    let pool_bps = 30 - 20;
    let token_fee = tokens_in * pool_bps / 10_000;
    let (r_native, r_token) =
        (w.native_of(pool_account), w.asset_of(LAUNCH_ID, pool_account));
    let gross =
        mul_div_u256(r_native, tokens_in - token_fee, r_token + (tokens_in - token_fee));
    let (p2, c2, t2) = (gross * 5 / 10_000, gross * 5 / 10_000, gross * 10 / 10_000);
    let vtrs_before = w.native_of(BOB);
    ok(w.swap_exact_tokens_for_tokens(
        signed(BOB),
        launch(),
        native(),
        tokens_in,
        gross - p2 - c2 - t2,
        BOB
    ));
    assert_eq!(w.native_of(BOB) - vtrs_before, gross - p2 - c2 - t2);
    assert_eq!(w.native_of(VAULT), treasury + t2);
    assert_eq!(w.noted.len(), 2);
    assert_eq!(w.dex.last_swap_block.get(&key), Some(1));
}

#[test]
fn d9_no_sink_folds_into_protocol() {
    let mut w = World::new();
    w.sink_vault = None;
    let key = seeded_launch_pool3(&mut w, 5, 5, 10);
    let amount_in = 100 * UNIT;
    let (protocol, creator, treasury) =
        (amount_in * 5 / 10_000, amount_in * 5 / 10_000, amount_in * 10 / 10_000);
    ok(w.swap_exact_tokens_for_tokens(
        signed(BOB),
        native(),
        launch(),
        amount_in,
        0,
        BOB
    ));
    assert_eq!(w.native_of(VAULT), 0);
    assert!(w.noted.is_empty());
    assert_eq!(w.dex.protocol_fees_unclaimed, protocol + treasury);
    assert_eq!(w.creator_fees(key), creator);
    assert_eq!(w.native_of(escrow()), protocol + creator + treasury);
    w.assert_event(Event::FeesRouted { pool: key, protocol: protocol + treasury, creator, treasury: 0 });
}

#[test]
fn d9_seed_rejects_a_split_the_tier_cannot_carry() {
    let mut w = World::new();
    setup_reserved_asset(&mut w);
    noop(&mut w, |w| w.seed_reserved_pool_for(
            &ESCROW, launch(), native(), SEED_TOKEN, SEED_NATIVE, 3
        ), Error::NoDefaultFeeRouting);
    ok(w.set_default_fee_routing(root(), 10, 5, 5, 60));
    noop(&mut w, |w| w.seed_reserved_pool_for(
            &ESCROW, launch(), native(), SEED_TOKEN, SEED_NATIVE, 3
        ), Error::NoDefaultFeeRouting);
    ok(w.seed_reserved_pool_for(
        &ESCROW, launch(), native(), SEED_TOKEN, SEED_NATIVE, 10
    ));
    let key = Pallet::canonical_pair(native(), launch());
    assert_eq!(
        w.pool(key).unwrap().routing,
        FeeRouting { protocol_bps: 5, creator_bps: 5, treasury_bps: 60 }
    );
}

#[test]
fn d10_unset_tier_blocks_a_seed_but_not_a_create_pool() {
    let mut w = World::new();
    ok(w.create_pool(root(), native(), usdc(), 3));
    assert_eq!(
        w.pool(Pallet::canonical_pair(native(), usdc())).unwrap().routing,
        FeeRouting::default()
    );
    setup_reserved_asset(&mut w);
    noop(&mut w, |w| w.seed_reserved_pool_for(
            &ESCROW, launch(), native(), SEED_TOKEN, SEED_NATIVE, 3
        ), Error::NoDefaultFeeRouting);
    ok(w.set_default_fee_routing(root(), 3, 5, 5, 10));
    ok(w.seed_reserved_pool_for(
        &ESCROW, launch(), native(), SEED_TOKEN, SEED_NATIVE, 3
    ));
}

#[test]
fn d9_swap_for_native_reserves_and_last_swap_block() {
    let mut w = World::new();
    w.sink_vault = Some(VAULT);
    let key = seeded_launch_pool3(&mut w, 5, 5, 10);
    assert_eq!(w.native_reserves(launch()), Some((SEED_NATIVE, SEED_TOKEN)));
    assert_eq!(w.native_reserves(usdc()), None);
    assert_eq!(w.last_swap_block(launch()), Some(0));
    assert_eq!(w.last_swap_block(usdc()), None);

    w.block = 7;
    let amount_in = 10 * UNIT;
    let before = w.asset_of(LAUNCH_ID, BOB);
    let out = w.swap_for(&BOB, native(), launch(), amount_in, 0).unwrap();
    assert_eq!(w.asset_of(LAUNCH_ID, BOB) - before, out);
    assert_eq!(w.native_of(VAULT), amount_in * 10 / 10_000);
    assert_eq!(w.dex.last_swap_block.get(&key), None);
    assert_eq!(w.last_swap_block(launch()), Some(0));
    ok(w.swap_exact_tokens_for_tokens(signed(BOB), native(), launch(), amount_in, 0, BOB));
    assert_eq!(w.dex.last_swap_block.get(&key), Some(7));
    noop(&mut w, |w| w.swap_for(&BOB, native(), launch(), amount_in, u128::MAX / 4), Error::SlippageExceeded);
}

#[test]
fn set_bid_window_works_under_manage_origin() {
    let mut w = World::new();
    ok(w.set_bid_window(root(), 42));
    assert_eq!(w.dex.bid_window_blocks, Some(42));

    w.assert_event(Event::BidWindowUpdated {
        new_value: 42,
    });
}

#[test]
fn set_bid_window_rejects_non_manage_origin() {
    let mut w = World::new();
    noop(&mut w, |w| w.set_bid_window(signed(ALICE), 42), Fail::BadOrigin);
}

#[test]
fn set_bid_window_rejects_zero() {
    let mut w = World::new();
    noop(&mut w, |w| w.set_bid_window(root(), 0), Error::InvalidAmount);
}

#[test]
fn set_settlement_window_works() {
    let mut w = World::new();
    ok(w.set_settlement_window(root(), 7));
    assert_eq!(w.dex.settlement_window_blocks, Some(7));
}

#[test]
fn set_solver_bond_amount_works() {
    let mut w = World::new();
    ok(w.set_solver_bond_amount(root(), 2_000_000_000_000,));
    assert_eq!(w.dex.solver_bond_amount, Some(2_000_000_000_000),);
}

#[test]
fn current_bid_window_falls_back_to_default_when_unset() {
    let mut w = World::new();
    assert_eq!(w.dex.bid_window_blocks, None);
    assert_eq!(w.dex.current_bid_window(), 10);
}

#[test]
fn current_bid_window_uses_storage_when_set() {
    let mut w = World::new();
    w.dex.bid_window_blocks = Some(99);
    assert_eq!(w.dex.current_bid_window(), 99);
}

#[test]
fn current_settlement_window_falls_back_to_default() {
    let mut w = World::new();
    assert_eq!(w.dex.current_settlement_window(), 5);
}

#[test]
fn current_solver_bond_falls_back_to_default() {
    let mut w = World::new();
    assert_eq!(w.dex.current_solver_bond(), 1_000_000_000_000);
}

#[test]
fn solver_escrow_accounts_are_distinct_per_solver_id() {
    let a = Pallet::solver_escrow_account(1);
    let b = Pallet::solver_escrow_account(2);
    assert_ne!(a, b);
}

#[test]
fn solver_escrow_account_is_deterministic() {
    let first = Pallet::solver_escrow_account(42);
    let second = Pallet::solver_escrow_account(42);
    assert_eq!(first, second);
}

#[test]
fn intent_escrow_is_distinct_from_solver_escrows() {
    let intent_acc = Pallet::intent_escrow_account();
    let solver_acc = Pallet::solver_escrow_account(0);
    assert_ne!(intent_acc, solver_acc);
}

#[test]
fn protocol_treasury_is_distinct_from_escrows() {
    let treasury = Pallet::protocol_treasury_account();
    assert_ne!(treasury, Pallet::intent_escrow_account());
    assert_ne!(treasury, Pallet::solver_escrow_account(0));
}

#[test]
fn register_solver_assigns_sequential_ids_and_escrows_bond() {
    let mut w = World::new();
    let alice_id = register_solver_for(&mut w, ALICE);
    assert_eq!(alice_id, 0);
    let bob_id = register_solver_for(&mut w, BOB);
    assert_eq!(bob_id, 1);

    let alice_solver = w.solver(0).expect("registered");
    assert!(alice_solver.active);
    assert_eq!(alice_solver.account, ALICE);
    assert_eq!(alice_solver.bond, 1_000_000_000_000);
    assert_eq!(alice_solver.active_commitments, 0);
    assert_eq!(alice_solver.reputation, 0);
    assert_eq!(alice_solver.fills_completed, 0);
    assert_eq!(alice_solver.fills_slashed, 0);

    assert_eq!(w.dex.solver_account_to_id.get(&ALICE), Some(0));
    assert_eq!(w.dex.solver_account_to_id.get(&BOB), Some(1));
    assert_eq!(w.dex.next_solver_id, 2);
}

#[test]
fn register_solver_rejects_duplicate_while_active() {
    let mut w = World::new();
    register_solver_for(&mut w, ALICE);
    noop(&mut w, |w| w.register_solver(signed(ALICE)), Error::SolverAlreadyRegistered);
}

#[test]
fn deregister_solver_refunds_bond_and_deactivates() {
    let mut w = World::new();
    let id = register_solver_for(&mut w, ALICE);
    ok(w.deregister_solver(signed(ALICE)));

    let solver = w.solver(id).expect("still indexed after deregister");
    assert!(!solver.active);
    assert_eq!(solver.bond, 0);

    w.assert_event(Event::SolverDeregistered {
        solver_id: id,
        account: ALICE,
        bond_refunded: 1_000_000_000_000,
    });
}

#[test]
fn deregister_solver_fails_if_not_registered() {
    let mut w = World::new();
    noop(&mut w, |w| w.deregister_solver(signed(ALICE)), Error::SolverNotRegistered);
}

#[test]
fn register_after_deregister_gives_fresh_solver_id() {
    let mut w = World::new();
    let first_id = register_solver_for(&mut w, ALICE);
    ok(w.deregister_solver(signed(ALICE)));
    let second_id = register_solver_for(&mut w, ALICE);

    assert_ne!(first_id, second_id);
    assert_eq!(second_id, 1);

    let new_solver = w.solver(second_id).expect("registered");
    assert!(new_solver.active);
    assert_eq!(new_solver.reputation, 0);
    assert_eq!(new_solver.fills_completed, 0);
    assert_eq!(new_solver.bond, 1_000_000_000_000);

    assert_eq!(w.dex.solver_account_to_id.get(&ALICE), Some(second_id));
}

#[test]
fn submit_intent_escrows_token_in_and_stores_intent() {
    let mut w = World::new();
    let now = w.block;
    let deadline = now + 100;

    ok(w.submit_intent(
        signed(ALICE),
        usdc(),
        vnrg(),
        500_000,
        450_000,
        deadline,
    ));

    let intent = w.intent(0).expect("stored");
    assert_eq!(intent.user, ALICE);
    assert_eq!(intent.token_in, usdc());
    assert_eq!(intent.token_out, vnrg());
    assert_eq!(intent.amount_in, 500_000);
    assert_eq!(intent.min_amount_out, 450_000);
    assert_eq!(intent.deadline, deadline);
    assert_eq!(intent.status, IntentStatus::Open);

    assert_eq!(w.dex.intent_escrow_balances.get(&0), Some((usdc(), 500_000)),);
    assert_eq!(w.dex.next_intent_id, 1);
}

#[test]
fn submit_intent_rejects_zero_amount_in() {
    let mut w = World::new();
    noop(&mut w, |w| w.submit_intent(
            signed(ALICE),
            usdc(),
            vnrg(),
            0,
            0,
            w.block + 100,
        ), Error::InvalidAmount);
}

#[test]
fn submit_intent_rejects_same_token() {
    let mut w = World::new();
    noop(&mut w, |w| w.submit_intent(
            signed(ALICE),
            usdc(),
            usdc(),
            500_000,
            400_000,
            w.block + 100,
        ), Error::InvalidAmount);
}

#[test]
fn submit_intent_rejects_past_deadline() {
    let mut w = World::new();
    let now = w.block;
    w.block = now + 10;
    noop(&mut w, |w| w.submit_intent(
            signed(ALICE),
            usdc(),
            vnrg(),
            500_000,
            450_000,
            now,
        ), Error::InvalidDeadline);
}

#[test]
fn cancel_intent_refunds_and_marks_cancelled() {
    let mut w = World::new();
    ok(w.submit_intent(
        signed(ALICE),
        usdc(),
        vnrg(),
        500_000,
        450_000,
        w.block + 100,
    ));

    ok(w.cancel_intent(signed(ALICE), 0));

    let intent = w.intent(0).expect("still indexed");
    assert_eq!(intent.status, IntentStatus::Cancelled);
    assert!(w.dex.intent_escrow_balances.get(&0).is_none());
}

#[test]
fn cancel_intent_rejects_non_owner() {
    let mut w = World::new();
    ok(w.submit_intent(
        signed(ALICE),
        usdc(),
        vnrg(),
        500_000,
        450_000,
        w.block + 100,
    ));

    noop(&mut w, |w| w.cancel_intent(signed(BOB), 0), Error::NotIntentOwner);
}

#[test]
fn cancel_intent_rejects_unknown_intent() {
    let mut w = World::new();
    noop(&mut w, |w| w.cancel_intent(signed(ALICE), 999), Error::IntentNotFound);
}

#[test]
fn events_for_register_intent_cancel_have_correct_payloads() {
    let mut w = World::new();
    ok(w.register_solver(signed(ALICE)));
    w.assert_event(Event::SolverRegistered {
        solver_id: 0,
        account: ALICE,
        bond: 1_000_000_000_000,
    });

    let deadline = w.block + 100;
    ok(w.submit_intent(
        signed(ALICE),
        usdc(),
        vnrg(),
        500_000,
        450_000,
        deadline,
    ));
    w.assert_event(Event::IntentSubmitted {
        intent_id: 0,
        user: ALICE,
        token_in: usdc(),
        token_out: vnrg(),
        amount_in: 500_000,
        min_amount_out: 450_000,
        deadline,
    });

    ok(w.cancel_intent(signed(ALICE), 0));
    w.assert_event(Event::IntentCancelled {
        intent_id: 0,
        user: ALICE,
    });
}

#[test]
fn fill_commitments_storage_is_empty_after_registration() {
    let mut w = World::new();
    register_solver_for(&mut w, ALICE);
    assert!(w.dex.fill_commitments.len() == 0);
}

#[test]
fn commit_fill_marks_intent_committed_and_increments_active() {
    let mut w = World::new();
    let solver_id = register_solver_for(&mut w, BOB);
    ok(w.submit_intent(
        signed(ALICE),
        usdc(),
        AssetKind::Native,
        10_000,
        9_000,
        w.block + 100,
    ));

    ok(w.commit_fill(signed(BOB), 0, 9_500,));

    let intent = w.intent(0).expect("present");
    assert_eq!(intent.status, IntentStatus::Committed);

    let commitment = w.commitment(0).expect("present");
    assert_eq!(commitment.solver_id, solver_id);
    assert_eq!(commitment.committed_amount_out, 9_500);

    let solver = w.solver(solver_id).expect("present");
    assert_eq!(solver.active_commitments, 1);
}

#[test]
fn commit_fill_rejects_below_min_amount_out() {
    let mut w = World::new();
    register_solver_for(&mut w, BOB);
    ok(w.submit_intent(
        signed(ALICE),
        usdc(),
        AssetKind::Native,
        10_000,
        9_000,
        w.block + 100,
    ));

    noop(&mut w, |w| w.commit_fill(signed(BOB), 0, 8_000), Error::BelowMinAmountOut);
}

#[test]
fn commit_fill_rejects_unregistered_solver() {
    let mut w = World::new();
    ok(w.submit_intent(
        signed(ALICE),
        usdc(),
        AssetKind::Native,
        10_000,
        9_000,
        w.block + 100,
    ));

    noop(&mut w, |w| w.commit_fill(signed(BOB), 0, 9_500), Error::SolverNotRegistered);
}

#[test]
fn commit_fill_overbid_replaces_prior_and_fixes_active_counts() {
    let mut w = World::new();
    register_solver_for(&mut w, BOB);
    register_solver_for(&mut w, CHARLIE);
    ok(w.submit_intent(
        signed(ALICE),
        usdc(),
        AssetKind::Native,
        10_000,
        9_000,
        w.block + 100,
    ));

    ok(w.commit_fill(signed(BOB), 0, 9_500));
    ok(w.commit_fill(signed(CHARLIE), 0, 9_700));

    let commitment = w.commitment(0).expect("present");
    assert_eq!(commitment.committed_amount_out, 9_700);
    assert_eq!(commitment.solver_account, CHARLIE);

    let bob = w.solver(0).expect("present");
    let charlie = w.solver(1).expect("present");
    assert_eq!(bob.active_commitments, 0);
    assert_eq!(charlie.active_commitments, 1);
}

#[test]
fn commit_fill_rejects_overbid_not_strictly_better() {
    let mut w = World::new();
    register_solver_for(&mut w, BOB);
    register_solver_for(&mut w, CHARLIE);
    ok(w.submit_intent(
        signed(ALICE),
        usdc(),
        AssetKind::Native,
        10_000,
        9_000,
        w.block + 100,
    ));

    ok(w.commit_fill(signed(BOB), 0, 9_500));
    noop(&mut w, |w| w.commit_fill(signed(CHARLIE), 0, 9_500), Error::BidNotBetter);
}

#[test]
fn commit_fill_rejects_past_bid_window() {
    let mut w = World::new();
    register_solver_for(&mut w, BOB);
    ok(w.submit_intent(
        signed(ALICE),
        usdc(),
        AssetKind::Native,
        10_000,
        9_000,
        w.block + 100,
    ));

    let now = w.block;
    w.block = now + 11;

    noop(&mut w, |w| w.commit_fill(signed(BOB), 0, 9_500), Error::BidWindowClosed);
}

#[test]
fn settle_intent_happy_path_distributes_correctly() {
    let mut w = World::new();
    setup_pool_native_usdc(&mut w);
    register_solver_for(&mut w, BOB);

    ok(w.submit_intent(
        signed(ALICE),
        usdc(),
        AssetKind::Native,
        10_000,
        9_000,
        w.block + 100,
    ));
    ok(w.commit_fill(signed(BOB), 0, 9_500));

    let alice_native_before = w.native_of(ALICE);

    ok(w.settle_intent(signed(BOB), 0));

    let intent = w.intent(0).expect("present");
    assert_eq!(intent.status, IntentStatus::Settled);
    assert!(w.commitment(0).is_none());
    assert!(w.dex.intent_escrow_balances.get(&0).is_none());

    let alice_native_after = w.native_of(ALICE);
    assert_eq!(alice_native_after - alice_native_before, 9_500);

    let bob = w.solver(0).expect("present");
    assert_eq!(bob.reputation, REPUTATION_FILL_REWARD);
    assert_eq!(bob.fills_completed, 1);
    assert_eq!(bob.active_commitments, 0);
}

#[test]
fn settle_intent_rejects_non_committed_solver() {
    let mut w = World::new();
    setup_pool_native_usdc(&mut w);
    register_solver_for(&mut w, BOB);
    register_solver_for(&mut w, CHARLIE);

    ok(w.submit_intent(
        signed(ALICE),
        usdc(),
        AssetKind::Native,
        10_000,
        9_000,
        w.block + 100,
    ));
    ok(w.commit_fill(signed(BOB), 0, 9_500));

    noop(&mut w, |w| w.settle_intent(signed(CHARLIE), 0), Error::NotCommittedSolver);
}

#[test]
fn settle_intent_rejects_past_settlement_window() {
    let mut w = World::new();
    setup_pool_native_usdc(&mut w);
    register_solver_for(&mut w, BOB);
    ok(w.submit_intent(
        signed(ALICE),
        usdc(),
        AssetKind::Native,
        10_000,
        9_000,
        w.block + 100,
    ));
    ok(w.commit_fill(signed(BOB), 0, 9_500));

    let now = w.block;
    w.block = now + 6;

    noop(&mut w, |w| w.settle_intent(signed(BOB), 0), Error::SettlementWindowPassed);
}

#[test]
fn slash_solver_happy_path_pays_slasher_and_refunds_user() {
    let mut w = World::new();
    register_solver_for(&mut w, BOB);
    ok(w.submit_intent(
        signed(ALICE),
        usdc(),
        AssetKind::Native,
        10_000,
        9_000,
        w.block + 100,
    ));
    ok(w.commit_fill(signed(BOB), 0, 9_500));

    let alice_usdc_before = w.asset_of(USDC_ID, ALICE);
    let charlie_native_before = w.native_of(CHARLIE);

    let now = w.block;
    w.block = now + 10;

    ok(w.slash_solver(signed(CHARLIE), 0));

    let bob = w.solver(0).expect("present");
    assert!(!bob.active);
    assert_eq!(bob.bond, 0);
    assert_eq!(bob.reputation, REPUTATION_SLASH_PENALTY);
    assert_eq!(bob.fills_slashed, 1);
    assert_eq!(bob.active_commitments, 0);

    let alice_usdc_after = w.asset_of(USDC_ID, ALICE);
    assert_eq!(alice_usdc_after - alice_usdc_before, 10_000);

    let charlie_native_after = w.native_of(CHARLIE);
    assert_eq!(charlie_native_after - charlie_native_before, 100_000_000_000);

    let intent = w.intent(0).expect("present");
    assert_eq!(intent.status, IntentStatus::Expired);
}

#[test]
fn slash_solver_rejects_before_settlement_window_passes() {
    let mut w = World::new();
    register_solver_for(&mut w, BOB);
    ok(w.submit_intent(
        signed(ALICE),
        usdc(),
        AssetKind::Native,
        10_000,
        9_000,
        w.block + 100,
    ));
    ok(w.commit_fill(signed(BOB), 0, 9_500));

    noop(&mut w, |w| w.slash_solver(signed(CHARLIE), 0), Error::SettlementWindowNotPassed);
}

#[test]
fn slash_solver_rejects_if_already_settled() {
    let mut w = World::new();
    setup_pool_native_usdc(&mut w);
    register_solver_for(&mut w, BOB);
    ok(w.submit_intent(
        signed(ALICE),
        usdc(),
        AssetKind::Native,
        10_000,
        9_000,
        w.block + 100,
    ));
    ok(w.commit_fill(signed(BOB), 0, 9_500));
    ok(w.settle_intent(signed(BOB), 0));

    let now = w.block;
    w.block = now + 10;

    noop(&mut w, |w| w.slash_solver(signed(CHARLIE), 0), Error::IntentNotCommitted);
}

#[test]
fn refund_expired_intent_works_if_never_committed() {
    let mut w = World::new();
    ok(w.submit_intent(
        signed(ALICE),
        usdc(),
        AssetKind::Native,
        10_000,
        9_000,
        w.block + 5,
    ));

    let alice_usdc_before = w.asset_of(USDC_ID, ALICE);

    w.block = w.block + 10;

    ok(w.refund_expired_intent(signed(ALICE), 0));

    let alice_usdc_after = w.asset_of(USDC_ID, ALICE);
    assert_eq!(alice_usdc_after - alice_usdc_before, 10_000);

    let intent = w.intent(0).expect("present");
    assert_eq!(intent.status, IntentStatus::Expired);
}

#[test]
fn refund_expired_intent_rejects_if_committed() {
    let mut w = World::new();
    register_solver_for(&mut w, BOB);
    ok(w.submit_intent(
        signed(ALICE),
        usdc(),
        AssetKind::Native,
        10_000,
        9_000,
        w.block + 5,
    ));
    ok(w.commit_fill(signed(BOB), 0, 9_500));

    w.block = w.block + 10;

    noop(&mut w, |w| w.refund_expired_intent(signed(ALICE), 0), Error::IntentNotOpen);
}

#[test]
fn refund_expired_intent_rejects_non_owner() {
    let mut w = World::new();
    ok(w.submit_intent(
        signed(ALICE),
        usdc(),
        AssetKind::Native,
        10_000,
        9_000,
        w.block + 5,
    ));

    w.block = w.block + 10;

    noop(&mut w, |w| w.refund_expired_intent(signed(BOB), 0), Error::NotIntentOwner);
}

#[test]
fn refund_expired_intent_rejects_before_deadline() {
    let mut w = World::new();
    ok(w.submit_intent(
        signed(ALICE),
        usdc(),
        AssetKind::Native,
        10_000,
        9_000,
        w.block + 100,
    ));

    noop(&mut w, |w| w.refund_expired_intent(signed(ALICE), 0), Error::DeadlineNotPassed);
}

#[test]
fn end_to_end_two_solvers_overbid_settle() {
    let mut w = World::new();
    setup_pool_native_usdc(&mut w);
    register_solver_for(&mut w, BOB);
    register_solver_for(&mut w, CHARLIE);

    ok(w.submit_intent(
        signed(ALICE),
        usdc(),
        AssetKind::Native,
        10_000,
        9_000,
        w.block + 100,
    ));

    ok(w.commit_fill(signed(BOB), 0, 9_200));
    ok(w.commit_fill(signed(CHARLIE), 0, 9_600));

    noop(&mut w, |w| w.settle_intent(signed(BOB), 0), Error::NotCommittedSolver);
    ok(w.settle_intent(signed(CHARLIE), 0));

    let charlie = w.solver(1).expect("present");
    assert_eq!(charlie.reputation, REPUTATION_FILL_REWARD);
    assert_eq!(charlie.fills_completed, 1);

    let bob = w.solver(0).expect("present");
    assert_eq!(bob.active_commitments, 0);
}

#[test]
fn r6_a_solver_raising_its_own_bid_locks_its_bond_forever() {
    let mut w = World::new();
    register_solver_for(&mut w, BOB);
    ok(w.submit_intent(
        signed(ALICE),
        usdc(),
        AssetKind::Native,
        10_000,
        9_000,
        w.block + 100,
    ));
    ok(w.commit_fill(signed(BOB), 0, 9_500));
    ok(w.commit_fill(signed(BOB), 0, 9_700));
    assert_eq!(
        w.solver(0).expect("present").active_commitments,
        1);
    w.block = w.block + 200;
    ok(w.slash_solver(signed(CHARLIE), 0));
    assert_eq!(
        w.solver(0).expect("present").active_commitments,
        0);
}

#[test]
fn pool_manager_trait_supports_full_graduation_flow() {
    let mut w = World::new();
    assert!(!w.pool_exists(native(), usdc()));
    ok(w.do_create_pool(native(), usdc(), 3));
    assert!(w.pool_exists(native(), usdc()));

    let native_before = w.native_of(CHARLIE);
    let minted =
        ok(w.do_add_liquidity_for(&CHARLIE, native(), usdc(), 100_000, 40_000, 100_000, 40_000));
    assert_eq!(minted, 63_245 - 1_000);
    assert_eq!(w.native_of(CHARLIE), native_before - 100_000);

    ok(w.do_lock_liquidity_for(&CHARLIE, native(), usdc(), 1_000));

    let canonical = Pallet::canonical_pair(native(), usdc());
    let pos = w.position(CHARLIE, canonical).expect("position");
    assert_eq!(pos.shares, minted);
    assert_eq!(pos.locked_until, Some(1_000));
    assert_eq!(w.total(canonical), Some(63_245));
}

#[test]
fn seed_rejects_wrong_assets_double_seed_and_mismatched_adoption() {
    let mut w = World::new();
    setup_reserved_asset(&mut w);
    let s = |w: &mut World, asset: AssetKind, quote: AssetKind, fee: u32| {
        w.seed_reserved_pool_for(&ESCROW, asset, quote, SEED_TOKEN, SEED_NATIVE, fee)
    };

    noop(&mut w, |w| s(w, usdc(), native(), 3), Error::NotReservedAsset);
    noop(&mut w, |w| s(w, launch(), AssetKind::WithId(RESERVED_ASSET_BASE + 2), 3), Error::NotReservedAsset);
    noop(&mut w, |w| s(w, launch(), launch(), 3), Error::NotReservedAsset);
    noop(&mut w, |w| s(w, launch(), native(), 7), Error::InvalidFeeTier);
    noop(&mut w, |w| w.seed_reserved_pool_for(&ESCROW, launch(), native(), 0, SEED_NATIVE, 3), Error::ZeroAmount);

    let key = Pallet::canonical_pair(native(), launch());
    w.dex.pools.insert(
        key,
        PoolInfo {
            reserve_a: 0,
            reserve_b: 0,
            fee_tier: 10,
            total_fees_collected: 0,
            pool_account: Pallet::pool_account_for(native(), launch()),
            routing: FeeRouting::default(),
        },
    );
    w.dex.total_liquidity.insert(key, 0u128);
    noop(&mut w, |w| s(w, launch(), native(), 3), Error::InvalidFeeTier);
    ok(s(&mut w, launch(), native(), 10));
    assert_eq!(w.pool(key).unwrap().reserve_b, SEED_TOKEN);

    noop(&mut w, |w| s(w, launch(), native(), 10), Error::PoolAlreadySeeded);
}

#[test]
fn finding14_genesis_funds_the_fee_escrow() {
    let mut w = World::new();
    let exists = w.ledger.is_open(&Pallet::fee_escrow_account());
    if let Some((who, amount)) = Pallet::genesis_endowment(w.ledger.ed, exists) {
        w.set_native(who, amount);
    }
    assert!(w.ledger.is_open(&Pallet::fee_escrow_account()));
    assert_eq!(Pallet::genesis_endowment(w.ledger.ed, true), None);
}

#[test]
fn d4_withdraw_protocol_fees_is_permissionless_and_follows_the_recipient() {
    let mut w = World::new();
    noop(&mut w, |w| w.withdraw_protocol_fees(signed(BOB)), Error::ZeroAmount);
    seeded_launch_pool(&mut w, 5, 5);
    let swap = |w: &mut World| {
        ok(w.swap_exact_tokens_for_tokens(signed(BOB), native(), launch(), 100 * UNIT, 0, BOB));
    };
    let slice = 100 * UNIT * 5 / 10_000;

    swap(&mut w);
    assert_eq!(w.dex.protocol_fee_recipient(), TREASURY);
    let treasury_before = w.native_of(TREASURY);
    ok(w.withdraw_protocol_fees(signed(BOB)));
    assert_eq!(w.native_of(TREASURY) - treasury_before, slice);
    assert_eq!(w.dex.protocol_fees_unclaimed, 0);
    w.assert_event(Event::ProtocolFeesWithdrawn { recipient: TREASURY, amount: slice });

    swap(&mut w);
    noop(&mut w, |w| w.set_protocol_fee_recipient(signed(ALICE), Some(CHARLIE)), Fail::BadOrigin);
    ok(w.set_protocol_fee_recipient(root(), Some(CHARLIE)));
    assert_eq!(w.dex.protocol_fee_recipient, Some(CHARLIE));
    let charlie_before = w.native_of(CHARLIE);
    ok(w.withdraw_protocol_fees(signed(ALICE)));
    assert_eq!(w.native_of(CHARLIE) - charlie_before, slice);

    ok(w.set_protocol_fee_recipient(root(), None));
    assert_eq!(w.dex.protocol_fee_recipient, None);
    assert_eq!(w.dex.protocol_fee_recipient(), TREASURY);
    let key = Pallet::canonical_pair(native(), launch());
    assert_eq!(w.creator_fees(key), 2 * slice);
    assert_eq!(w.native_of(escrow()), 2 * slice);
}

#[test]
fn d4_migration_v1_gives_existing_pools_zero_routing() {
    let mut w = World::new();
    let key = Pallet::canonical_pair(native(), usdc());
    let old = UnroutedPool {
        reserve_a: 5u128,
        reserve_b: 7u128,
        fee_tier: 3,
        total_fees_collected: 11u128,
        pool_account: Pallet::pool_account_for(native(), usdc()),
    };
    assert!(w.pool(key).is_none());
    w.dex.pools.insert(key, route_nothing(&old));

    let pool = w.pool(key).expect("migrated");
    assert_eq!(
        (pool.reserve_a, pool.reserve_b, pool.fee_tier, pool.total_fees_collected),
        (5, 7, 3, 11)
    );
    assert_eq!(pool.pool_account, Pallet::pool_account_for(native(), usdc()));
    assert_eq!(pool.routing, FeeRouting::default());
}

#[test]
fn d8_migration_v2_moves_reserves_to_the_hash_derived_account() {
    let mut w = World::new();
    ok(w.create_pool(root(), native(), usdc(), 3));
    ok(w.add_liquidity(signed(ALICE), native(), usdc(), 1_000_000, 10_000, 0, 0));
    let pair = Pallet::canonical_pair(native(), usdc());
    let new = Pallet::pool_account_for(native(), usdc());
    let old = old_pool_account_for(&pair);
    assert_ne!(old, new);

    ok(w.send(native(), new, old, 1_000_000));
    ok(w.send(usdc(), new, old, 10_000));
    let mut pool = w.pool(pair).unwrap();
    pool.pool_account = old;
    w.dex.pools.insert(pair, pool);
    assert_eq!(w.native_of(old), 1_000_000);
    assert_eq!(w.asset_of(USDC_ID, old), 10_000);
    assert!(w.dex.old_accounts_distinct());

    assert_eq!(w.move_pools(), 1);

    let pool = w.pool(pair).unwrap();
    assert_eq!(pool.pool_account, new);
    assert_eq!(w.native_of(new), 1_000_000);
    assert_eq!(w.asset_of(USDC_ID, new), 10_000);
    assert_eq!(w.native_of(old), 0);
    assert_eq!(w.asset_of(USDC_ID, old), 0);
    assert_eq!((pool.reserve_a, pool.reserve_b), (1_000_000, 10_000));
    assert!(Pallet::move_holds(&pair, &pool, 0, 0, 1_000_000, 10_000));
    assert!(!Pallet::move_holds(&pair, &pool, 0, 1, 1_000_000, 10_000));
    assert!(!Pallet::move_holds(&pair, &pool, 0, 0, 1_000_000, 9_999));

    let shares = w.position(ALICE, pair).unwrap().shares;
    ok(w.remove_liquidity(signed(ALICE), native(), usdc(), shares, 0, 0));

    assert_eq!(w.move_pools(), 0);
    assert_eq!(w.pool(pair).unwrap().pool_account, new);
}

#[test]
fn d10_migration_moves_the_single_default_to_tier_three() {
    let mut w = World::new();
    let single = FeeRouting { protocol_bps: 5, creator_bps: 5, treasury_bps: 10 };
    w.dex.split_default(Some(single));
    assert_eq!(
        w.default_routing(3),
        Some(FeeRouting { protocol_bps: 5, creator_bps: 5, treasury_bps: 10 })
    );
    assert_eq!(w.default_routing(1), None);
    assert_eq!(w.default_routing(10), None);
}

#[test]
fn d10_migration_drops_a_default_the_floor_no_longer_allows() {
    let mut w = World::new();
    let single = FeeRouting { protocol_bps: 10, creator_bps: 10, treasury_bps: 10 };
    w.dex.split_default(Some(single));
    assert_eq!(w.default_routing(3), None);
    setup_reserved_asset(&mut w);
    noop(&mut w, |w| w.seed_reserved_pool_for(&ESCROW, launch(), native(), SEED_TOKEN, SEED_NATIVE, 3), Error::NoDefaultFeeRouting);
}

#[test]
fn d10_existing_pools_keep_their_snapshot_across_the_migration() {
    let mut w = World::new();
    let key = seeded_launch_pool3(&mut w, 5, 5, 10);
    let legacy = FeeRouting { protocol_bps: 10, creator_bps: 10, treasury_bps: 10 };
    let mut pool = w.pool(key).unwrap();
    pool.routing = legacy;
    w.dex.pools.insert(key, pool);
    let before = w.pool(key).unwrap().routing;
    assert_eq!(before.routed_bps(), 30);
    assert!(!before.is_valid_for(3));
    assert!(before.fits_tier(3));
    assert!(w.dex.pools_fit_their_tier());

    w.dex.split_default(None);

    assert_eq!(w.pool(key).unwrap().routing, before);
}

#[test]
fn d9_migration_v3_widens_routing_on_every_pool_and_the_default() {
    let mut w = World::new();
    set_routing(&mut w, 5, 5);
    ok(w.create_pool(root(), native(), usdc(), 3));
    ok(w.add_liquidity(signed(ALICE), native(), usdc(), 1_000_000, 10_000, 0, 0));
    let pair = Pallet::canonical_pair(native(), usdc());
    let pool = w.pool(pair).unwrap();

    let old = OldPoolInfo {
        reserve_a: pool.reserve_a,
        reserve_b: pool.reserve_b,
        fee_tier: pool.fee_tier,
        total_fees_collected: pool.total_fees_collected,
        pool_account: pool.pool_account,
        routing: OldFeeRouting { protocol_bps: 5, creator_bps: 5 },
    };
    w.dex.pools.insert(pair, widen_pool(&old));

    let migrated = w.pool(pair).expect("pool");
    assert_eq!(
        migrated.routing,
        FeeRouting { protocol_bps: 5, creator_bps: 5, treasury_bps: 0 }
    );
    assert_eq!(
        (migrated.reserve_a, migrated.reserve_b, migrated.pool_account),
        (pool.reserve_a, pool.reserve_b, pool.pool_account)
    );
    assert_eq!(
        widen(OldFeeRouting { protocol_bps: 5, creator_bps: 5 }),
        FeeRouting { protocol_bps: 5, creator_bps: 5, treasury_bps: 0 }
    );
    ok(w.swap_exact_tokens_for_tokens(signed(BOB), native(), usdc(), 1_000, 0, BOB));
    assert_eq!(w.pool(pair).unwrap().routing.treasury_bps, 0);
}

#[test]
fn every_derived_account_starts_with_the_pallet_tag() {
    let id = Pallet::account_id();
    assert_eq!(&id.bytes[..12], b"modlvtrs/dex");
    assert_eq!(&id.bytes[12..], &[0u8; 8]);
    assert_eq!(&Pallet::fee_escrow_account().bytes[12..], b"fees\0\0\0\0");
    assert_eq!(&Pallet::intent_escrow_account().bytes[12..], b"intents\0");
    assert_eq!(&Pallet::protocol_treasury_account().bytes[12..], b"fee_trsy");
    assert_eq!(&Pallet::solver_escrow_account(0x0102).bytes[12..], &[2, 1, 0, 0, 0, 0, 0, 0]);
}

#[test]
fn pool_accounts_come_from_a_digest_of_the_encoded_pair() {
    let mut key: Vec<u8> = vec![4, 0, 68, 1];
    key.extend_from_slice(&USDC_ID.to_le_bytes());
    let digest = sp_core::hashing::blake2_256(&key);
    let account = Pallet::pool_account_for(usdc(), native());
    assert_eq!(&account.bytes[..12], b"modlvtrs/dex");
    assert_eq!(&account.bytes[12..], &digest[..8]);
    let plain = old_pool_account_for(&(native(), usdc()));
    assert_eq!(&plain.bytes[12..], &key[..8]);
}

#[test]
fn canonical_order_is_that_of_little_endian_encodings() {
    let a = AssetKind::WithId(256);
    let b = AssetKind::WithId(1);
    assert_eq!(Pallet::canonical_pair(a, b), (a, b));
    assert_eq!(Pallet::canonical_pair(b, a), (a, b));
    assert_eq!(Pallet::canonical_pair_with(b, a, 10, 20), ((a, b), 20, 10));
}

#[test]
fn a_slice_below_the_minimum_stays_in_the_pool_until_its_account_exists() {
    let mut w = World::new();
    w.ledger.ed = 1_000;
    w.set_native(ALICE, 10_000_000);
    w.set_native(BOB, 10_000_000);
    set_routing(&mut w, 5, 0);
    ok(w.create_pool(root(), native(), usdc(), 3));
    ok(w.add_liquidity(signed(ALICE), native(), usdc(), 1_000_000, 500_000, 0, 0));
    let key = Pallet::canonical_pair(native(), usdc());

    ok(w.swap_exact_tokens_for_tokens(signed(BOB), native(), usdc(), 100_000, 0, BOB));
    assert_eq!(w.dex.protocol_fees_unclaimed, 0);
    assert_eq!(w.native_of(escrow()), 0);
    w.assert_event(Event::FeesRouted { pool: key, protocol: 50, creator: 0, treasury: 0 });
    assert_eq!(w.native_of(Pallet::pool_account_for(native(), usdc())), 1_100_000);

    w.set_native(escrow(), 1_000);
    ok(w.swap_exact_tokens_for_tokens(signed(BOB), native(), usdc(), 100_000, 0, BOB));
    assert_eq!(w.dex.protocol_fees_unclaimed, 50);
    assert_eq!(w.native_of(escrow()), 1_050);
}

#[test]
fn a_slice_at_the_minimum_opens_its_account() {
    let mut w = World::new();
    w.ledger.ed = 50;
    set_routing(&mut w, 5, 0);
    ok(w.create_pool(root(), native(), usdc(), 3));
    ok(w.add_liquidity(signed(ALICE), native(), usdc(), 1_000_000, 500_000, 0, 0));
    ok(w.swap_exact_tokens_for_tokens(signed(BOB), native(), usdc(), 100_000, 0, BOB));
    assert_eq!(w.dex.protocol_fees_unclaimed, 50);
    assert_eq!(w.native_of(escrow()), 50);
}

#[test]
fn swap_refusals_each_have_their_input() {
    let mut w = World::new();
    noop(&mut w, |w| w.swap_exact_tokens_for_tokens(signed(BOB), usdc(), vnrg(), 0, 0, BOB), Error::ZeroAmount);
    noop(&mut w, |w| w.swap_exact_tokens_for_tokens(signed(BOB), usdc(), vnrg(), 10, 0, BOB), Error::PoolNotFound);
    ok(w.create_pool(root(), usdc(), vnrg(), 10));
    ok(w.add_liquidity(signed(ALICE), usdc(), vnrg(), 1_000_000, 2_000, 0, 0));
    // An output that rounds to nothing.
    noop(&mut w, |w| w.swap_exact_tokens_for_tokens(signed(BOB), usdc(), vnrg(), 100, 0, BOB), Error::ZeroAmount);
    // An input that the reserve cannot be added to.
    let mut ctx = w.swap_context(usdc(), vnrg());
    ctx.held_a = u128::MAX;
    let req = SwapRequest {
        who: BOB,
        asset_in: usdc(),
        asset_out: vnrg(),
        amount_in: 1_000,
        amount_out_min: 0,
        recipient: BOB,
        is_trade: true,
        input: Preservation::Preserve,
    };
    assert_eq!(w.dex.quote_swap(&req, &ctx), Err(Error::Overflow));
    assert_eq!(w.dex.do_swap(&req, &ctx), Err(Error::Overflow));
}

#[test]
fn a_refused_swap_leaves_the_exchange_alone() {
    let mut w = World::new();
    ok(w.create_pool(root(), usdc(), vnrg(), 10));
    ok(w.add_liquidity(signed(ALICE), usdc(), vnrg(), 10_000, 10_000, 0, 0));
    let before = w.pool(pair()).unwrap();
    let ctx = w.swap_context(usdc(), vnrg());
    let out = w.dex.swap_exact_tokens_for_tokens(BOB, usdc(), vnrg(), 100, 99, BOB, &ctx);
    assert_eq!(out, Err(Error::SlippageExceeded));
    let out = w.dex.swap_for(BOB, usdc(), vnrg(), 100, 99, &ctx);
    assert_eq!(out, Err(Error::SlippageExceeded));
    assert_eq!(w.pool(pair()).unwrap(), before);
    assert_eq!(w.dex.last_swap_block.get(&pair()), None);
    let (amount, effects) =
        w.dex.swap_exact_tokens_for_tokens(BOB, usdc(), vnrg(), 100, 98, BOB, &ctx).unwrap();
    assert_eq!(amount, 98);
    assert_eq!(effects.len(), 4);
    assert_eq!(w.dex.last_swap_block.get(&pair()), Some(1));
}

#[test]
fn liquidity_refusals_each_have_their_input() {
    let mut w = World::new();
    ok(w.create_pool(root(), usdc(), vnrg(), 10));
    noop(&mut w, |w| w.add_liquidity(signed(ALICE), usdc(), vnrg(), 1_000, 1_000, 0, 0), Error::InsufficientInitialLiquidity);
    noop(&mut w, |w| w.remove_liquidity(signed(ALICE), usdc(), vnrg(), 0, 0, 0), Error::ZeroAmount);
    noop(&mut w, |w| w.remove_liquidity(signed(ALICE), usdc(), native(), 1, 0, 0), Error::PoolNotFound);
    noop(&mut w, |w| w.remove_liquidity(signed(ALICE), usdc(), vnrg(), 1, 0, 0), Error::InsufficientLiquidity);
    ok(w.add_liquidity(signed(ALICE), usdc(), vnrg(), 10_000, 40_000, 0, 0));
    noop(&mut w, |w| w.remove_liquidity(signed(BOB), usdc(), vnrg(), 1, 0, 0), Error::InsufficientShares);
    noop(&mut w, |w| w.remove_liquidity(signed(ALICE), usdc(), vnrg(), 19_001, 0, 0), Error::InsufficientShares);
    // A deposit too small for a single share.
    noop(&mut w, |w| w.add_liquidity(signed(BOB), usdc(), vnrg(), 1, 1, 0, 0), Error::ZeroAmount);
    assert_eq!(w.dex.fee_bps(usdc()), None);
    ok(w.create_pool(root(), native(), usdc(), 3));
    assert_eq!(w.dex.fee_bps(usdc()), Some(30));
}

#[test]
fn the_minimum_liquidity_never_leaves() {
    let mut w = World::new();
    ok(w.create_pool(root(), usdc(), vnrg(), 3));
    ok(w.add_liquidity(signed(ALICE), usdc(), vnrg(), 50_000, 50_000, 0, 0));
    ok(w.add_liquidity(signed(BOB), usdc(), vnrg(), 10_000, 10_000, 0, 0));
    for who in [ALICE, BOB] {
        let shares = w.position(who, pair()).unwrap().shares;
        ok(w.remove_liquidity(signed(who), usdc(), vnrg(), shares, 0, 0));
    }
    assert_eq!(w.total(pair()), Some(u128::from(MINIMUM_LIQUIDITY)));
    assert_eq!(w.positions_of(ALICE) + w.positions_of(BOB), 0);
}

#[test]
fn a_solver_with_commitments_cannot_leave() {
    let mut w = World::new();
    register_solver_for(&mut w, BOB);
    ok(w.submit_intent(signed(ALICE), usdc(), native(), 10_000, 9_000, 101));
    ok(w.commit_fill(signed(BOB), 0, 9_500));
    noop(&mut w, |w| w.deregister_solver(signed(BOB)), Error::ActiveCommitmentsExist);
    noop(&mut w, |w| w.cancel_intent(signed(ALICE), 0), Error::IntentNotOpen);
    w.block = 10;
    ok(w.slash_solver(signed(CHARLIE), 0));
    noop(&mut w, |w| w.deregister_solver(signed(BOB)), Error::SolverNotActive);
    noop(&mut w, |w| w.commit_fill(signed(BOB), 0, 9_900), Error::SolverNotActive);
    noop(&mut w, |w| w.slash_solver(signed(CHARLIE), 0), Error::IntentNotCommitted);
    noop(&mut w, |w| w.settle_intent(signed(BOB), 0), Error::IntentNotCommitted);
}

#[test]
fn bids_stop_at_the_deadline_and_on_ended_intents() {
    let mut w = World::new();
    register_solver_for(&mut w, BOB);
    ok(w.submit_intent(signed(ALICE), usdc(), native(), 10_000, 9_000, 5));
    noop(&mut w, |w| w.commit_fill(signed(BOB), 9, 9_500), Error::IntentNotFound);
    w.block = 5;
    noop(&mut w, |w| w.commit_fill(signed(BOB), 0, 9_500), Error::IntentExpired);
    ok(w.refund_expired_intent(signed(ALICE), 0));
    noop(&mut w, |w| w.commit_fill(signed(BOB), 0, 9_500), Error::IntentNotOpen);
    noop(&mut w, |w| w.refund_expired_intent(signed(ALICE), 0), Error::IntentNotOpen);
    noop(&mut w, |w| w.refund_expired_intent(signed(ALICE), 7), Error::IntentNotFound);
}

#[test]
fn a_settlement_splits_the_surplus_to_the_last_unit() {
    let mut w = World::new();
    setup_pool_native_usdc(&mut w);
    register_solver_for(&mut w, BOB);
    ok(w.submit_intent(signed(ALICE), usdc(), native(), 10_000, 9_000, 101));
    ok(w.commit_fill(signed(BOB), 0, 9_500));
    let treasury = Pallet::protocol_treasury_account();
    let bob = w.native_of(BOB);
    ok(w.settle_intent(signed(BOB), 0));
    // 10_000 in, one percent fee: 500_000 * 9_900 / 509_900 = 9_707 out.
    assert_eq!(w.native_of(treasury), (9_707 - 9_500) * 2_000 / 10_000);
    assert_eq!(w.native_of(BOB) - bob, 207 - 41);
    assert_eq!(w.native_of(Pallet::intent_escrow_account()), 0);
    assert_eq!(w.asset_of(USDC_ID, Pallet::intent_escrow_account()), 0);
    w.assert_event(Event::IntentSettled {
        intent_id: 0,
        solver_id: 0,
        user: ALICE,
        amount_out_to_user: 9_500,
        solver_net_profit: 166,
        protocol_fee: 41,
    });
}

#[test]
fn a_bond_that_cannot_be_posted_registers_nobody() {
    let mut w = World::new();
    w.set_native(BOB, 1_000);
    noop(&mut w, |w| w.register_solver(signed(BOB)), Error::InsufficientBondFunds);
    assert_eq!(w.dex.next_solver_id, 0);
    assert_eq!(w.dex.solver_account_to_id.get(&BOB), None);
    noop(&mut w, |w| w.submit_intent(signed(BOB), native(), usdc(), 1_001, 1, 50), Error::InvalidAmount);
    assert_eq!(w.dex.next_intent_id, 0);
}

#[test]
fn moves_of_reserves_have_an_order() {
    let w = World::new();
    assert_eq!(
        w.dex.steps_of_move(&(native(), usdc())),
        vec![MoveStep::KeepAlive(native()), MoveStep::All(usdc()), MoveStep::All(native())]
    );
    assert_eq!(
        w.dex.steps_of_move(&(usdc(), vnrg())),
        vec![MoveStep::All(usdc()), MoveStep::All(vnrg())]
    );
}

#[test]
fn pool_accounts_are_derived_from_a_digest_of_the_pair() {
    let key = (
        NativeOrWithId::<u128>::Native.encode(),
        NativeOrWithId::<u128>::WithId(77).encode(),
    );
    let seed = sp_io::hashing::blake2_256(&key.encode());
    let bytes: [u8; 20] = PalletId(*b"vtrs/dex").into_sub_account_truncating(seed);
    let expected = AccountId { bytes };
    assert_eq!(Pallet::pool_account_for(AssetKind::WithId(77), native()), expected);
    let plain: [u8; 20] = PalletId(*b"vtrs/dex").into_sub_account_truncating(&key);
    assert_eq!(old_pool_account_for(&(native(), AssetKind::WithId(77))), AccountId { bytes: plain });
    assert_ne!(bytes, plain);
}

#[test]
fn pairs_are_ordered_by_their_encoding() {
    // The least significant byte of an id comes first in its encoding.
    let (one, many) = (AssetKind::WithId(1), AssetKind::WithId(256));
    assert_eq!(Pallet::canonical_pair(one, many), (many, one));
    assert_eq!(Pallet::canonical_pair(many, one), (many, one));
    assert_eq!(Pallet::canonical_pair(one, native()), (native(), one));
    assert_eq!(Pallet::canonical_pair_with(one, many, 'a', 'b'), ((many, one), 'b', 'a'));
}

#[test]
fn bond_accounts_meet_an_escrow_at_one_id_each() {
    let escrows = [
        (0x7365_6566, Pallet::fee_escrow_account()),
        (0x0073_746e_6574_6e69, Pallet::intent_escrow_account()),
        (0x7973_7274_5f65_6566, Pallet::protocol_treasury_account()),
    ];
    for (id, escrow) in escrows {
        assert_eq!(Pallet::solver_escrow_account(id), escrow);
        assert_ne!(Pallet::solver_escrow_account(id - 1), escrow);
        assert_ne!(Pallet::solver_escrow_account(0), escrow);
    }
    assert_ne!(Pallet::solver_escrow_account(0), Pallet::solver_escrow_account(1));
}

#[test]
fn the_intent_escrow_holds_what_it_owes() {
    let mut w = World::new();
    let escrow = Pallet::intent_escrow_account();
    let before = w.ledger.balance(native(), &escrow);
    ok(w.submit_intent(signed(ALICE), native(), usdc(), 70_000, 1, 50));
    ok(w.submit_intent(signed(BOB), native(), usdc(), 30_000, 1, 50));
    assert_eq!(w.ledger.balance(native(), &escrow), before + 100_000);
    assert_eq!(w.dex.intent_escrow_balances.get(&0), Some((native(), 70_000)));
    ok(w.cancel_intent(signed(ALICE), 0));
    assert_eq!(w.ledger.balance(native(), &escrow), before + 30_000);
    assert_eq!(w.dex.intent_escrow_balances.get(&0), None);
    assert_eq!(w.dex.intent_escrow_balances.len(), 1);
}

#[test]
fn a_deposit_nobody_can_pay_is_the_ledgers_to_refuse() {
    let mut w = World::new();
    ok(w.create_pool(root(), usdc(), vnrg(), 10));
    ok(w.add_liquidity(signed(ALICE), usdc(), vnrg(), 10_000, 10_000, 0, 0));
    // The reserves would leave their type, but the funds are missing first.
    noop(
        &mut w,
        |w| w.add_liquidity(signed(BOB), usdc(), vnrg(), u128::MAX, u128::MAX, 0, 0),
        Fail::Ledger("FundsUnavailable"),
    );
    let req = DepositRequest {
        who: BOB,
        asset_a: usdc(),
        asset_b: vnrg(),
        amount_a: u128::MAX,
        amount_b: u128::MAX,
        amount_a_min: 0,
        amount_b_min: 0,
    };
    assert_eq!(w.dex.legs_of_deposit(&req, 10_000, 10_000).map(|legs| legs.len()), Ok(2));
    assert_eq!(w.dex.do_add_liquidity_for(&req, 10_000, 10_000, 1), Err(Error::Overflow));
}

#[test]
fn a_slash_pays_the_bond_out_before_it_looks_for_the_escrow() {
    let mut w = World::new();
    setup_pool_native_usdc(&mut w);
    register_solver_for(&mut w, BOB);
    ok(w.submit_intent(signed(ALICE), native(), usdc(), 1_000, 1, 100));
    ok(w.commit_fill(signed(BOB), 0, 900));
    w.block = 50;
    w.dex.intent_escrow_balances.remove(&0);
    let legs = w.dex.legs_of_slash(&CHARLIE, 0, 50).unwrap();
    assert_eq!(legs.len(), 2);
    assert_eq!(w.dex.slash_solver(&CHARLIE, 0, 50), Err(Error::IntentNotFound));
    // Without the bond its error comes first.
    w.set_native(Pallet::solver_escrow_account(0), 0);
    noop(&mut w, |w| w.slash_solver(signed(CHARLIE), 0), Error::InsufficientBondFunds);
}

#[test]
fn a_move_that_fails_changes_nothing_and_one_that_does_not_is_not_repeated() {
    let mut w = World::new();
    ok(w.create_pool(root(), native(), usdc(), 3));
    ok(w.create_pool(root(), usdc(), vnrg(), 10));
    for pair in [Pallet::canonical_pair(native(), usdc()), Pallet::canonical_pair(usdc(), vnrg())] {
        let mut pool = w.pool(pair).unwrap();
        pool.pool_account = old_pool_account_for(&pair);
        w.dex.pools.insert(pair, pool);
    }
    let moves = w.dex.plan_moves();
    assert_eq!(moves.len(), 2);
    let before: Vec<Pool> = moves.iter().map(|m| w.pool(m.pair).unwrap()).collect();
    // Nothing is said of the second move.
    assert_eq!(w.dex.finish_moves(&moves, &vec![true]), 1);
    assert_eq!(w.pool(moves[0].pair), Some(Pool { pool_account: moves[0].to, ..before[0] }));
    assert_eq!(w.pool(moves[1].pair), Some(before[1]));
    assert_eq!(w.dex.plan_moves(), vec![moves[1]]);
    assert_eq!(w.dex.finish_moves(&vec![moves[1]], &vec![true]), 1);
    assert!(w.dex.plan_moves().is_empty());
}

#[test]
fn what_an_upgrade_leaves_is_checked() {
    let mut w = World::new();
    ok(w.create_pool(root(), native(), usdc(), 3));
    assert!(w.dex.pools_route_nothing() && w.dex.pools_feed_no_treasury());
    let pair = Pallet::canonical_pair(native(), usdc());
    let mut pool = w.pool(pair).unwrap();
    pool.routing.creator_bps = 5;
    w.dex.pools.insert(pair, pool);
    assert!(!w.dex.pools_route_nothing() && w.dex.pools_feed_no_treasury());
    pool.routing.treasury_bps = 5;
    w.dex.pools.insert(pair, pool);
    assert!(!w.dex.pools_feed_no_treasury());

    let fits = FeeRouting { protocol_bps: 5, creator_bps: 5, treasury_bps: 10 };
    let over = FeeRouting { protocol_bps: 5, creator_bps: 6, treasury_bps: 10 };
    assert!(w.dex.split_holds(None) && w.dex.split_holds(Some(over)));
    assert!(!w.dex.split_holds(Some(fits)));
    w.dex.split_default(Some(fits));
    assert!(w.dex.split_holds(Some(fits)) && !w.dex.split_holds(None));
    w.dex.default_fee_routing.insert(10, fits);
    assert!(!w.dex.split_holds(Some(fits)));
}
