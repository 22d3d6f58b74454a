//! What the exchange remembers, and its accounts.

use super::types::{Config, FeeRouting, LiquidityPosition, PoolInfo, PALLET_ID};
use crate::accounts::{
    account_with, asset_bytes, canonical, hashed_pair_account, in_order,
    into_sub_account_truncating, lemma_account_with, lex_le, pair_seed, sub_account_bytes,
};
use crate::primitives::{AccountId, AssetKind, AssetPair, Balance, BlockNumber};
use crate::settlement::{FillCommitment, Intent, SolverInfo};
use crate::table::Table;
use vstd::bytes::{lemma_auto_spec_u64_to_from_le_bytes, spec_u64_to_le_bytes, u64_to_le_bytes};
use vstd::prelude::*;

verus! {

/// A pool record.
pub type Pool = PoolInfo<Balance, AccountId>;

/// A liquidity position.
pub type Position = LiquidityPosition<Balance, BlockNumber>;

/// An intent of the solver marketplace.
pub type DexIntent = Intent<AccountId, AssetKind, Balance, BlockNumber>;

/// A solver of the marketplace.
pub type Solver = SolverInfo<AccountId, Balance, BlockNumber>;

/// A commitment of the marketplace.
pub type Commitment = FillCommitment<AccountId, Balance, BlockNumber>;

/// The exchange.
#[derive(Debug)]
pub struct Pallet {
    pub config: Config,
    /// Pools by their canonical pair.
    pub pools: Table<AssetPair, Pool>,
    /// Liquidity positions by provider and canonical pair.
    pub liquidity_positions: Table<(AccountId, AssetPair), Position>,
    /// Shares outstanding by canonical pair.
    pub total_liquidity: Table<AssetPair, Balance>,
    /// Split given to new pools, by fee tier; absent where none is set.
    pub default_fee_routing: Table<u32, FeeRouting>,
    /// Who receives protocol fees, where that is set.
    pub protocol_fee_recipient: Option<AccountId>,
    /// Creator fees accrued by canonical pair, held in the fee escrow.
    pub creator_fees_unclaimed: Table<AssetPair, Balance>,
    /// Protocol fees accrued over all pools, held in the fee escrow.
    pub protocol_fees_unclaimed: Balance,
    /// Last block a person's swap ran against each canonical pair.
    pub last_swap_block: Table<AssetPair, BlockNumber>,
    /// Bid window in blocks, where that is set.
    pub bid_window_blocks: Option<BlockNumber>,
    /// Settlement window in blocks, where that is set.
    pub settlement_window_blocks: Option<BlockNumber>,
    /// Solver bond, where that is set.
    pub solver_bond_amount: Option<Balance>,
    /// Id of the next intent.
    pub next_intent_id: u64,
    /// Id of the next solver.
    pub next_solver_id: u64,
    /// Intents by id.
    pub intents: Table<u64, DexIntent>,
    /// Solver ids by account.
    pub solver_account_to_id: Table<AccountId, u64>,
    /// Solvers by id.
    pub solvers: Table<u64, Solver>,
    /// Commitments by intent id.
    pub fill_commitments: Table<u64, Commitment>,
    /// What the intent escrow holds for each intent.
    pub intent_escrow_balances: Table<u64, (AssetKind, Balance)>,
}

/// The exchange's memory as maps.
#[verifier::ext_equal]
pub struct DexState {
    pub config: Config,
    pub pools: Map<AssetPair, Pool>,
    pub liquidity_positions: Map<(AccountId, AssetPair), Position>,
    pub total_liquidity: Map<AssetPair, Balance>,
    pub default_fee_routing: Map<u32, FeeRouting>,
    pub protocol_fee_recipient: Option<AccountId>,
    pub creator_fees_unclaimed: Map<AssetPair, Balance>,
    pub protocol_fees_unclaimed: Balance,
    pub last_swap_block: Map<AssetPair, BlockNumber>,
    pub bid_window_blocks: Option<BlockNumber>,
    pub settlement_window_blocks: Option<BlockNumber>,
    pub solver_bond_amount: Option<Balance>,
    pub next_intent_id: u64,
    pub next_solver_id: u64,
    pub intents: Map<u64, DexIntent>,
    pub solver_account_to_id: Map<AccountId, u64>,
    pub solvers: Map<u64, Solver>,
    pub fill_commitments: Map<u64, Commitment>,
    pub intent_escrow_balances: Map<u64, (AssetKind, Balance)>,
}

impl View for Pallet {
    type V = DexState;

    open spec fn view(&self) -> DexState {
        DexState {
            config: self.config,
            pools: self.pools@,
            liquidity_positions: self.liquidity_positions@,
            total_liquidity: self.total_liquidity@,
            default_fee_routing: self.default_fee_routing@,
            protocol_fee_recipient: self.protocol_fee_recipient,
            creator_fees_unclaimed: self.creator_fees_unclaimed@,
            protocol_fees_unclaimed: self.protocol_fees_unclaimed,
            last_swap_block: self.last_swap_block@,
            bid_window_blocks: self.bid_window_blocks,
            settlement_window_blocks: self.settlement_window_blocks,
            solver_bond_amount: self.solver_bond_amount,
            next_intent_id: self.next_intent_id,
            next_solver_id: self.next_solver_id,
            intents: self.intents@,
            solver_account_to_id: self.solver_account_to_id@,
            solvers: self.solvers@,
            fill_commitments: self.fill_commitments@,
            intent_escrow_balances: self.intent_escrow_balances@,
        }
    }
}

/// An exchange that nothing has happened to.
pub open spec fn fresh_state(config: Config) -> DexState {
    DexState {
        config,
        pools: Map::empty(),
        liquidity_positions: Map::empty(),
        total_liquidity: Map::empty(),
        default_fee_routing: Map::empty(),
        protocol_fee_recipient: None,
        creator_fees_unclaimed: Map::empty(),
        protocol_fees_unclaimed: 0,
        last_swap_block: Map::empty(),
        bid_window_blocks: None,
        settlement_window_blocks: None,
        solver_bond_amount: None,
        next_intent_id: 0,
        next_solver_id: 0,
        intents: Map::empty(),
        solver_account_to_id: Map::empty(),
        solvers: Map::empty(),
        fill_commitments: Map::empty(),
        intent_escrow_balances: Map::empty(),
    }
}

/// The value under `k`, or `d` where there is none.
pub open spec fn value_or<K, V>(m: Map<K, V>, k: K, d: V) -> V {
    if m.dom().contains(k) {
        m[k]
    } else {
        d
    }
}

impl DexState {
    /// Where protocol fees are paid.
    pub open spec fn fee_recipient(&self) -> AccountId {
        match self.protocol_fee_recipient {
            Some(r) => r,
            None => self.config.default_protocol_fee_recipient,
        }
    }

    /// How long solvers may bid on an intent.
    pub open spec fn bid_window(&self) -> BlockNumber {
        match self.bid_window_blocks {
            Some(n) => n,
            None => self.config.default_bid_window_blocks,
        }
    }

    /// How long a committed solver has to settle.
    pub open spec fn settlement_window(&self) -> BlockNumber {
        match self.settlement_window_blocks {
            Some(n) => n,
            None => self.config.default_settlement_window_blocks,
        }
    }

    /// What a solver posts to register.
    pub open spec fn solver_bond(&self) -> Balance {
        match self.solver_bond_amount {
            Some(b) => b,
            None => self.config.default_solver_bond_amount,
        }
    }
}

/// The bytes of an account derived from the pallet id and `seed`.
pub open spec fn dex_account_bytes(seed: Seq<u8>) -> Seq<u8> {
    sub_account_bytes(PALLET_ID@, seed)
}

/// Seed of the account that holds routed fees: `fees`.
pub open spec fn fee_escrow_seed() -> Seq<u8> {
    seq![0x66u8, 0x65, 0x65, 0x73]
}

/// Seed of the account that holds every intent's input: `intents`.
pub open spec fn intent_escrow_seed() -> Seq<u8> {
    seq![0x69u8, 0x6e, 0x74, 0x65, 0x6e, 0x74, 0x73]
}

/// Seed of the account that receives the protocol's share of solver profits:
/// `fee_trsy`.
pub open spec fn protocol_treasury_seed() -> Seq<u8> {
    seq![0x66u8, 0x65, 0x65, 0x5f, 0x74, 0x72, 0x73, 0x79]
}

/// Seed of a solver's bond account: its id with the least significant byte
/// first, then `slvr`.
pub open spec fn solver_escrow_seed(solver_id: u64) -> Seq<u8> {
    spec_u64_to_le_bytes(solver_id) + seq![0x73u8, 0x6c, 0x76, 0x72]
}

/// The account that holds routed fees.
pub open spec fn fee_escrow() -> AccountId {
    account_with(dex_account_bytes(fee_escrow_seed()))
}

/// The account that holds every intent's input.
pub open spec fn intent_escrow() -> AccountId {
    account_with(dex_account_bytes(intent_escrow_seed()))
}

/// The account that receives the protocol's share of solver profits.
pub open spec fn protocol_treasury() -> AccountId {
    account_with(dex_account_bytes(protocol_treasury_seed()))
}

/// The account that holds a solver's bond.
pub open spec fn solver_escrow(solver_id: u64) -> AccountId {
    account_with(dex_account_bytes(solver_escrow_seed(solver_id)))
}

/// The account that holds the reserves of a canonical pair.
pub open spec fn pool_account(pair: AssetPair) -> AccountId {
    account_with(dex_account_bytes(pair_seed(pair)))
}

impl Pallet {
    /// An exchange that nothing has happened to.
    pub fn new(config: Config) -> (r: Pallet)
        ensures
            r@ == fresh_state(config),
    {
        Pallet {
            config,
            pools: Table::new(),
            liquidity_positions: Table::new(),
            total_liquidity: Table::new(),
            default_fee_routing: Table::new(),
            protocol_fee_recipient: None,
            creator_fees_unclaimed: Table::new(),
            protocol_fees_unclaimed: 0,
            last_swap_block: Table::new(),
            bid_window_blocks: None,
            settlement_window_blocks: None,
            solver_bond_amount: None,
            next_intent_id: 0,
            next_solver_id: 0,
            intents: Table::new(),
            solver_account_to_id: Table::new(),
            solvers: Table::new(),
            fill_commitments: Table::new(),
            intent_escrow_balances: Table::new(),
        }
    }

    /// The exchange as it stands, to go back to when an operation is undone.
    pub fn snapshot(&self) -> (r: Pallet)
        ensures
            r@ == self@,
    {
        Pallet {
            config: self.config,
            pools: self.pools.duplicate(),
            liquidity_positions: self.liquidity_positions.duplicate(),
            total_liquidity: self.total_liquidity.duplicate(),
            default_fee_routing: self.default_fee_routing.duplicate(),
            protocol_fee_recipient: self.protocol_fee_recipient,
            creator_fees_unclaimed: self.creator_fees_unclaimed.duplicate(),
            protocol_fees_unclaimed: self.protocol_fees_unclaimed,
            last_swap_block: self.last_swap_block.duplicate(),
            bid_window_blocks: self.bid_window_blocks,
            settlement_window_blocks: self.settlement_window_blocks,
            solver_bond_amount: self.solver_bond_amount,
            next_intent_id: self.next_intent_id,
            next_solver_id: self.next_solver_id,
            intents: self.intents.duplicate(),
            solver_account_to_id: self.solver_account_to_id.duplicate(),
            solvers: self.solvers.duplicate(),
            fill_commitments: self.fill_commitments.duplicate(),
            intent_escrow_balances: self.intent_escrow_balances.duplicate(),
        }
    }

    /// The exchange's own account.
    pub fn account_id() -> (r: AccountId)
        ensures
            r == account_with(dex_account_bytes(Seq::empty())),
    {
        let seed: [u8; 0] = [];
        assert(seed@ =~= Seq::<u8>::empty());
        let r = into_sub_account_truncating(PALLET_ID, seed);
        proof {
            lemma_account_with(r);
        }
        r
    }

    /// The account that holds routed fees until they are claimed or withdrawn.
    pub fn fee_escrow_account() -> (r: AccountId)
        ensures
            r == fee_escrow(),
    {
        let seed: [u8; 4] = [0x66, 0x65, 0x65, 0x73];
        assert(seed@ =~= fee_escrow_seed());
        let r = into_sub_account_truncating(PALLET_ID, seed);
        proof {
            lemma_account_with(r);
        }
        r
    }

    /// The account that holds every pending intent's input.
    pub fn intent_escrow_account() -> (r: AccountId)
        ensures
            r == intent_escrow(),
    {
        let seed: [u8; 7] = [0x69, 0x6e, 0x74, 0x65, 0x6e, 0x74, 0x73];
        assert(seed@ =~= intent_escrow_seed());
        let r = into_sub_account_truncating(PALLET_ID, seed);
        proof {
            lemma_account_with(r);
        }
        r
    }

    /// The account that receives the protocol's share of solver profits.
    pub fn protocol_treasury_account() -> (r: AccountId)
        ensures
            r == protocol_treasury(),
    {
        let seed: [u8; 8] = [0x66, 0x65, 0x65, 0x5f, 0x74, 0x72, 0x73, 0x79];
        assert(seed@ =~= protocol_treasury_seed());
        let r = into_sub_account_truncating(PALLET_ID, seed);
        proof {
            lemma_account_with(r);
        }
        r
    }

    /// The account that holds a solver's bond.
    pub fn solver_escrow_account(solver_id: u64) -> (r: AccountId)
        ensures
            r == solver_escrow(solver_id),
    {
        proof {
            lemma_auto_spec_u64_to_from_le_bytes();
        }
        let id = u64_to_le_bytes(solver_id);
        let seed: [u8; 12] = [
            id[0],
            id[1],
            id[2],
            id[3],
            id[4],
            id[5],
            id[6],
            id[7],
            0x73,
            0x6c,
            0x76,
            0x72,
        ];
        assert(seed@ =~= solver_escrow_seed(solver_id));
        let r = into_sub_account_truncating(PALLET_ID, seed);
        proof {
            lemma_account_with(r);
        }
        r
    }

    /// The account that holds the reserves of a pair, given in either order.
    pub fn pool_account_for(asset_a: AssetKind, asset_b: AssetKind) -> (r: AccountId)
        ensures
            r == pool_account(canonical(asset_a, asset_b)),
    {
        let pair: AssetPair = Pallet::canonical_pair(asset_a, asset_b);
        let r = hashed_pair_account(PALLET_ID, &pair);
        proof {
            lemma_account_with(r);
        }
        r
    }

    /// The pair with the asset whose encoding comes first in front.
    pub fn canonical_pair(a: AssetKind, b: AssetKind) -> (r: AssetPair)
        ensures
            r == canonical(a, b),
    {
        if in_order(&a, &b) {
            (a, b)
        } else {
            (b, a)
        }
    }

    /// The canonical pair, with two per-asset values put in the same order.
    pub fn canonical_pair_with<V>(a: AssetKind, b: AssetKind, x_a: V, x_b: V) -> (r: (
        AssetPair,
        V,
        V,
    ))
        ensures
            r == (if lex_le(asset_bytes(a), asset_bytes(b)) {
                ((a, b), x_a, x_b)
            } else {
                ((b, a), x_b, x_a)
            }),
    {
        if in_order(&a, &b) {
            ((a, b), x_a, x_b)
        } else {
            ((b, a), x_b, x_a)
        }
    }

    /// Whether a pool exists for the pair, given in either order.
    pub fn pool_exists(&self, asset_a: AssetKind, asset_b: AssetKind) -> (r: bool)
        ensures
            r == self@.pools.dom().contains(canonical(asset_a, asset_b)),
    {
        self.pools.contains_key(&Pallet::canonical_pair(asset_a, asset_b))
    }

    /// Where protocol fees are paid right now.
    pub fn protocol_fee_recipient(&self) -> (r: AccountId)
        ensures
            r == self@.fee_recipient(),
    {
        match self.protocol_fee_recipient {
            Some(r) => r,
            None => self.config.default_protocol_fee_recipient,
        }
    }

    /// Current bid window, in blocks.
    pub fn current_bid_window(&self) -> (r: BlockNumber)
        ensures
            r == self@.bid_window(),
    {
        match self.bid_window_blocks {
            Some(n) => n,
            None => self.config.default_bid_window_blocks,
        }
    }

    /// Current settlement window, in blocks.
    pub fn current_settlement_window(&self) -> (r: BlockNumber)
        ensures
            r == self@.settlement_window(),
    {
        match self.settlement_window_blocks {
            Some(n) => n,
            None => self.config.default_settlement_window_blocks,
        }
    }

    /// Current solver bond.
    pub fn current_solver_bond(&self) -> (r: Balance)
        ensures
            r == self@.solver_bond(),
    {
        match self.solver_bond_amount {
            Some(b) => b,
            None => self.config.default_solver_bond_amount,
        }
    }
}

} // verus!
