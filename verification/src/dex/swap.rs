//! Swaps: pricing, the split of the fee, and the record left behind.

use super::pricing::{bps_of, lemma_slice, mul_div_floor, slice_of};
use super::state::{fee_escrow, value_or, DexState, Pallet, Pool};
use super::types::{
    make_transfer, plain_transfer, Effect, Error, Event, FeeRouting, FEE_DENOMINATOR,
};
use crate::accounts::canonical;
use crate::arith::{lemma_floor, lemma_floor_bounds, min_int, monus, sat_add};
use crate::primitives::{AccountId, AssetKind, AssetPair, Balance, BlockNumber, Preservation};
use vstd::prelude::*;

verus! {

/// A swap somebody asks for.
#[derive(Clone, Copy, Debug, PartialEq, Eq)]
pub struct SwapRequest {
    /// Whose funds go in.
    pub who: AccountId,
    pub asset_in: AssetKind,
    pub asset_out: AssetKind,
    pub amount_in: Balance,
    /// The least output that is acceptable.
    pub amount_out_min: Balance,
    /// Who receives the output.
    pub recipient: AccountId,
    /// Whether the swap counts as market activity.
    pub is_trade: bool,
    /// How `amount_in` leaves `who`, where it is the native asset.
    pub input: Preservation,
}

/// What the world around the exchange shows at the time of a swap.
#[derive(Clone, Copy, Debug, PartialEq, Eq)]
pub struct SwapContext {
    /// The pool account's balance of the canonical pair's first asset.
    pub held_a: Balance,
    /// The pool account's balance of the canonical pair's second asset.
    pub held_b: Balance,
    /// Where the treasury slice of the pair's non-native side goes, if anywhere.
    pub sink: Option<AccountId>,
    /// The native asset's minimum balance.
    pub existential_deposit: Balance,
    /// Whether the fee escrow exists once input and output have moved.
    pub escrow_exists: bool,
    /// Whether the sink's account exists at the time of the treasury slice.
    pub vault_exists: bool,
    /// Current block.
    pub now: BlockNumber,
}

/// A priced swap.
#[derive(Clone, Copy, Debug, PartialEq, Eq)]
pub struct SwapQuote {
    /// The pair, in canonical order.
    pub pair: AssetPair,
    /// Whether the input is the pair's second asset.
    pub flipped: bool,
    /// Account that holds the pool's reserves.
    pub pool_account: AccountId,
    /// Fee taken from the input.
    pub fee: Balance,
    /// Input less the fee: what the reserves gain.
    pub net_in: Balance,
    /// What the reserves give up.
    pub gross_out: Balance,
    /// What the recipient gets.
    pub amount_out: Balance,
    /// Native amount accrued for the protocol.
    pub protocol: Balance,
    /// Native amount accrued for the pool's creator.
    pub creator: Balance,
    /// Native amount pushed to the sink.
    pub treasury: Balance,
    /// How the input leaves its owner.
    pub input: Preservation,
}

/// A tier in basis points, as swaps read it.
pub open spec fn tier_bps(fee_tier: u32) -> int {
    min_int((fee_tier % 65_536) * 10, u16::MAX as int)
}

/// The fee taken from the input: the whole tier, or, where slices are routed
/// out of a native output, only the pool's own part of it.
pub open spec fn input_fee(
    routing: FeeRouting,
    fee_tier: u32,
    native_out: bool,
    amount_in: int,
) -> int {
    if native_out && routing.routed() > 0 {
        slice_of(amount_in, monus(tier_bps(fee_tier), routing.routed()))
    } else {
        amount_in * fee_tier / FEE_DENOMINATOR as int
    }
}

/// What a constant-product pool gives for `net_in`, rounded down.
pub open spec fn product_out(reserve_in: int, reserve_out: int, net_in: int) -> int {
    reserve_out * net_in / (reserve_in + net_in)
}

/// The numbers of a swap.
pub struct SwapMath {
    pub fee: int,
    pub net_in: int,
    pub gross_out: int,
    pub protocol: int,
    pub creator: int,
    pub treasury: int,
    pub routed: int,
    pub amount_out: int,
}

/// The numbers of a swap of `amount_in` against the given reserves. Slices are
/// taken of the native side; without a sink the treasury's joins the protocol's.
pub open spec fn swap_math(
    pool: Pool,
    native_in: bool,
    native_out: bool,
    has_sink: bool,
    reserve_in: int,
    reserve_out: int,
    amount_in: int,
) -> SwapMath {
    let routing = if native_in || native_out {
        pool.routing
    } else {
        FeeRouting::none()
    };
    let fee = input_fee(routing, pool.fee_tier, native_out, amount_in);
    let net_in = amount_in - fee;
    let gross_out = product_out(reserve_in, reserve_out, net_in);
    let base = if native_in {
        amount_in
    } else {
        gross_out
    };
    let p = slice_of(base, routing.protocol_bps as int);
    let c = slice_of(base, routing.creator_bps as int);
    let t = slice_of(base, routing.treasury_bps as int);
    SwapMath {
        fee,
        net_in,
        gross_out,
        protocol: if has_sink {
            p
        } else {
            p + t
        },
        creator: c,
        treasury: if has_sink {
            t
        } else {
            0
        },
        routed: p + c + t,
        amount_out: if native_out {
            gross_out - (p + c + t)
        } else {
            gross_out
        },
    }
}

/// The input is the canonical pair's second asset.
pub open spec fn is_flipped(req: SwapRequest) -> bool {
    canonical(req.asset_in, req.asset_out).0 != req.asset_in
}

/// The live reserve on the input's side.
pub open spec fn live_in(req: SwapRequest, ctx: SwapContext) -> int {
    if is_flipped(req) {
        ctx.held_b as int
    } else {
        ctx.held_a as int
    }
}

/// The live reserve on the output's side.
pub open spec fn live_out(req: SwapRequest, ctx: SwapContext) -> int {
    if is_flipped(req) {
        ctx.held_a as int
    } else {
        ctx.held_b as int
    }
}

/// The pool a request runs against.
pub open spec fn requested_pool(st: DexState, req: SwapRequest) -> Pool {
    st.pools[canonical(req.asset_in, req.asset_out)]
}

/// The numbers of a requested swap.
pub open spec fn request_math(st: DexState, req: SwapRequest, ctx: SwapContext) -> SwapMath {
    swap_math(
        requested_pool(st, req),
        req.asset_in == st.config.native_asset,
        req.asset_out == st.config.native_asset,
        ctx.sink is Some,
        live_in(req, ctx),
        live_out(req, ctx),
        req.amount_in as int,
    )
}

/// Why a swap has no price, if it has none.
pub open spec fn quote_error(st: DexState, req: SwapRequest, ctx: SwapContext) -> Option<Error> {
    let m = request_math(st, req, ctx);
    if req.amount_in == 0 {
        Some(Error::ZeroAmount)
    } else if !st.pools.dom().contains(canonical(req.asset_in, req.asset_out)) {
        Some(Error::PoolNotFound)
    } else if ctx.held_a == 0 || ctx.held_b == 0 {
        Some(Error::InsufficientLiquidity)
    } else if m.fee > req.amount_in || live_in(req, ctx) + m.net_in > u128::MAX || m.routed
        > u128::MAX || m.amount_out < 0 {
        Some(Error::Overflow)
    } else if m.amount_out < req.amount_out_min {
        Some(Error::SlippageExceeded)
    } else if m.amount_out == 0 {
        Some(Error::ZeroAmount)
    } else {
        None
    }
}

/// The price of a swap that has one.
pub open spec fn quote_of(st: DexState, req: SwapRequest, ctx: SwapContext) -> SwapQuote {
    let m = request_math(st, req, ctx);
    SwapQuote {
        pair: canonical(req.asset_in, req.asset_out),
        flipped: is_flipped(req),
        pool_account: requested_pool(st, req).pool_account,
        fee: m.fee as u128,
        net_in: m.net_in as u128,
        gross_out: m.gross_out as u128,
        amount_out: m.amount_out as u128,
        protocol: m.protocol as u128,
        creator: m.creator as u128,
        treasury: m.treasury as u128,
        input: if req.asset_in == st.config.native_asset {
            req.input
        } else {
            Preservation::Expendable
        },
    }
}

/// The escrowed slices move: there are any, and the escrow can receive them.
pub open spec fn routes_escrow(q: SwapQuote, ctx: SwapContext) -> bool {
    &&& q.protocol + q.creator > 0
    &&& q.protocol + q.creator >= ctx.existential_deposit || ctx.escrow_exists
}

/// The treasury slice moves: there is one, and the sink can receive it.
pub open spec fn routes_vault(q: SwapQuote, ctx: SwapContext) -> bool {
    &&& ctx.sink is Some
    &&& q.treasury > 0
    &&& q.treasury >= ctx.existential_deposit || ctx.vault_exists
}

/// Why a swap is refused, if it is.
pub open spec fn swap_error(st: DexState, req: SwapRequest, ctx: SwapContext) -> Option<Error> {
    if quote_error(st, req, ctx) is Some {
        quote_error(st, req, ctx)
    } else if requested_pool(st, req).total_fees_collected + quote_of(st, req, ctx).fee
        > u128::MAX {
        Some(Error::Overflow)
    } else {
        None
    }
}

/// The input into the pool and the output out of it.
pub open spec fn swap_legs(req: SwapRequest, q: SwapQuote) -> Seq<Effect> {
    seq![
        plain_transfer(req.asset_in, req.who, q.pool_account, req.amount_in, q.input),
        plain_transfer(
            req.asset_out,
            q.pool_account,
            req.recipient,
            q.amount_out,
            Preservation::Expendable,
        ),
    ]
}

/// The routed slices out of the pool.
pub open spec fn swap_routes(
    st: DexState,
    req: SwapRequest,
    ctx: SwapContext,
    q: SwapQuote,
) -> Seq<Effect> {
    let native = st.config.native_asset;
    let other = if req.asset_in == native {
        req.asset_out
    } else {
        req.asset_in
    };
    (if routes_escrow(q, ctx) {
        seq![
            plain_transfer(
                native,
                q.pool_account,
                fee_escrow(),
                (q.protocol + q.creator) as u128,
                Preservation::Expendable,
            ),
        ]
    } else {
        Seq::empty()
    }) + (if routes_vault(q, ctx) {
        seq![
            plain_transfer(
                native,
                q.pool_account,
                ctx.sink->0,
                q.treasury,
                Preservation::Expendable,
            ),
            Effect::NoteFee { asset: other, amount: q.treasury },
        ]
    } else {
        Seq::empty()
    })
}

/// The events of a swap.
pub open spec fn swap_events(req: SwapRequest, q: SwapQuote) -> Seq<Effect> {
    seq![
        Effect::Emit(
            Event::SwapExecuted {
                who: req.who,
                asset_in: req.asset_in,
                asset_out: req.asset_out,
                amount_in: req.amount_in,
                amount_out: q.amount_out,
                fee: q.fee,
            },
        ),
        Effect::Emit(
            Event::FeesCollected { pool: q.pair, amount: q.fee, recipient: q.pool_account },
        ),
    ] + (if q.protocol + q.creator + q.treasury > 0 {
        seq![
            Effect::Emit(
                Event::FeesRouted {
                    pool: q.pair,
                    protocol: q.protocol,
                    creator: q.creator,
                    treasury: q.treasury,
                },
            ),
        ]
    } else {
        Seq::empty()
    })
}

/// Everything a swap asks of the world, in order.
pub open spec fn swap_effects(st: DexState, req: SwapRequest, ctx: SwapContext) -> Seq<Effect> {
    let q = quote_of(st, req, ctx);
    swap_legs(req, q) + swap_routes(st, req, ctx, q) + swap_events(req, q)
}

/// The pool record a swap leaves: live reserves moved by the net input and the
/// gross output, and the fee added to the pool's total.
pub open spec fn pool_after_swap(st: DexState, req: SwapRequest, ctx: SwapContext) -> Pool {
    let q = quote_of(st, req, ctx);
    let pool = requested_pool(st, req);
    let (reserve_a, reserve_b) = if q.flipped {
        (ctx.held_a - q.gross_out, ctx.held_b + q.net_in)
    } else {
        (ctx.held_a + q.net_in, ctx.held_b - q.gross_out)
    };
    Pool {
        reserve_a: reserve_a as u128,
        reserve_b: reserve_b as u128,
        total_fees_collected: (pool.total_fees_collected + q.fee) as u128,
        ..pool
    }
}

/// The exchange after a swap.
pub open spec fn swap_next(st: DexState, req: SwapRequest, ctx: SwapContext) -> DexState {
    let q = quote_of(st, req, ctx);
    DexState {
        pools: st.pools.insert(q.pair, pool_after_swap(st, req, ctx)),
        last_swap_block: if req.is_trade {
            st.last_swap_block.insert(q.pair, ctx.now)
        } else {
            st.last_swap_block
        },
        protocol_fees_unclaimed: if routes_escrow(q, ctx) {
            sat_add(st.protocol_fees_unclaimed, q.protocol)
        } else {
            st.protocol_fees_unclaimed
        },
        creator_fees_unclaimed: if routes_escrow(q, ctx) && q.creator > 0 {
            st.creator_fees_unclaimed.insert(
                q.pair,
                sat_add(value_or(st.creator_fees_unclaimed, q.pair, 0), q.creator),
            )
        } else {
            st.creator_fees_unclaimed
        },
        ..st
    }
}

/// The gross output leaves something in the pool, and the net input and it keep
/// the product of the reserves.
pub proof fn lemma_product_out(reserve_in: int, reserve_out: int, net_in: int)
    requires
        0 < reserve_in,
        0 < reserve_out,
        0 <= net_in,
    ensures
        0 <= product_out(reserve_in, reserve_out, net_in) < reserve_out,
        (reserve_in + net_in) * (reserve_out - product_out(reserve_in, reserve_out, net_in))
            >= reserve_in * reserve_out,
{
    let n = reserve_out * net_in;
    let d = reserve_in + net_in;
    let g = n / d;
    assert(0 <= n && n < reserve_out * d) by (nonlinear_arith)
        requires
            0 < reserve_in,
            0 < reserve_out,
            0 <= net_in,
            n == reserve_out * net_in,
            d == reserve_in + net_in,
    ;
    lemma_floor(n, d);
    lemma_floor_bounds(n, d, reserve_out);
    assert(d * (reserve_out - g) >= reserve_in * reserve_out) by (nonlinear_arith)
        requires
            g * d <= reserve_out * net_in,
            d == reserve_in + net_in,
    ;
}

impl Pallet {
    /// Price a swap against the pool account's live balances.
    #[verifier::spinoff_prover]
    pub fn quote_swap(&self, req: &SwapRequest, ctx: &SwapContext) -> (r: Result<SwapQuote, Error>)
        ensures
            match r {
                Ok(q) => quote_error(self@, *req, *ctx) is None && q == quote_of(
                    self@,
                    *req,
                    *ctx,
                ),
                Err(e) => quote_error(self@, *req, *ctx) == Some(e),
            },
    {
        if req.amount_in == 0 {
            return Err(Error::ZeroAmount);
        }
        let pair: AssetPair = Pallet::canonical_pair(req.asset_in, req.asset_out);
        let pool: Pool = match self.pools.get(&pair) {
            Some(p) => p,
            None => return Err(Error::PoolNotFound),
        };
        let flipped = pair.0 != req.asset_in;
        let reserve_in: u128 = if flipped {
            ctx.held_b
        } else {
            ctx.held_a
        };
        let reserve_out: u128 = if flipped {
            ctx.held_a
        } else {
            ctx.held_b
        };
        if reserve_in == 0 || reserve_out == 0 {
            return Err(Error::InsufficientLiquidity);
        }
        let native_in = req.asset_in == self.config.native_asset;
        let native_out = req.asset_out == self.config.native_asset;
        let routing: FeeRouting = if native_in || native_out {
            pool.routing
        } else {
            FeeRouting { protocol_bps: 0, creator_bps: 0, treasury_bps: 0 }
        };
        let fee: u128 = match Pallet::fee_on_input(&routing, pool.fee_tier, native_out, req.amount_in) {
            Ok(f) => f,
            Err(e) => return Err(e),
        };
        if fee > req.amount_in {
            return Err(Error::Overflow);
        }
        let net_in: u128 = req.amount_in - fee;
        let denom: u128 = match reserve_in.checked_add(net_in) {
            Some(d) => d,
            None => return Err(Error::Overflow),
        };
        proof {
            lemma_product_out(reserve_in as int, reserve_out as int, net_in as int);
        }
        let gross_out: u128 = match mul_div_floor(reserve_out, net_in, denom) {
            Ok(x) => x,
            Err(e) => return Err(e),
        };
        let base: u128 = if native_in {
            req.amount_in
        } else {
            gross_out
        };
        let (protocol, creator, treasury): (u128, u128, u128) = match Pallet::split_slices(
            &routing,
            base,
            ctx.sink.is_some(),
        ) {
            Ok(x) => x,
            Err(e) => return Err(e),
        };
        let routed: u128 = protocol + creator + treasury;
        let amount_out: u128 = if native_out {
            match gross_out.checked_sub(routed) {
                Some(x) => x,
                None => return Err(Error::Overflow),
            }
        } else {
            gross_out
        };
        if amount_out < req.amount_out_min {
            return Err(Error::SlippageExceeded);
        }
        if amount_out == 0 {
            return Err(Error::ZeroAmount);
        }
        // Only the native side has a minimum its holder must keep.
        let input = if native_in {
            req.input
        } else {
            Preservation::Expendable
        };
        Ok(
            SwapQuote {
                pair,
                flipped,
                pool_account: pool.pool_account,
                fee,
                net_in,
                gross_out,
                amount_out,
                protocol,
                creator,
                treasury,
                input,
            },
        )
    }

    /// The routed slices of `base`: the protocol's, the creator's and the
    /// treasury's. Without a sink the treasury's folds into the protocol's.
    fn split_slices(routing: &FeeRouting, base: Balance, has_sink: bool) -> (r: Result<
        (Balance, Balance, Balance),
        Error,
    >)
        ensures
            ({
                let p = slice_of(base as int, routing.protocol_bps as int);
                let c = slice_of(base as int, routing.creator_bps as int);
                let t = slice_of(base as int, routing.treasury_bps as int);
                match r {
                    Ok((protocol, creator, treasury)) => {
                        &&& p + c + t <= u128::MAX
                        &&& creator == c
                        &&& has_sink ==> protocol == p && treasury == t
                        &&& !has_sink ==> protocol == p + t && treasury == 0
                    },
                    Err(e) => p + c + t > u128::MAX && e == Error::Overflow,
                }
            }),
    {
        proof {
            lemma_slice(base as int, routing.protocol_bps as int);
            lemma_slice(base as int, routing.creator_bps as int);
            lemma_slice(base as int, routing.treasury_bps as int);
        }
        let own: u128 = match bps_of(base, routing.protocol_bps) {
            Ok(x) => x,
            Err(e) => return Err(e),
        };
        let creator: u128 = match bps_of(base, routing.creator_bps) {
            Ok(x) => x,
            Err(e) => return Err(e),
        };
        let pushed: u128 = match bps_of(base, routing.treasury_bps) {
            Ok(x) => x,
            Err(e) => return Err(e),
        };
        let escrowed: u128 = match own.checked_add(creator) {
            Some(x) => x,
            None => return Err(Error::Overflow),
        };
        match escrowed.checked_add(pushed) {
            Some(_) => {},
            None => return Err(Error::Overflow),
        }
        if has_sink {
            Ok((own, creator, pushed))
        } else {
            Ok((own + pushed, creator, 0))
        }
    }

    /// The fee taken from the input.
    fn fee_on_input(routing: &FeeRouting, fee_tier: u32, native_out: bool, amount_in: Balance) -> (r:
        Result<Balance, Error>)
        ensures
            match r {
                Ok(f) => f == input_fee(*routing, fee_tier, native_out, amount_in as int),
                Err(e) => input_fee(*routing, fee_tier, native_out, amount_in as int) > u128::MAX
                    && e == Error::Overflow,
            },
    {
        if native_out && routing.routed_bps() > 0 {
            let low: u32 = fee_tier % 65_536;
            let scaled: u32 = low * 10;
            let tier: u16 = if scaled <= 65_535 {
                scaled as u16
            } else {
                65_535
            };
            bps_of(amount_in, tier.saturating_sub(routing.routed_bps()))
        } else {
            mul_div_floor(amount_in, fee_tier as u128, FEE_DENOMINATOR as u128)
        }
    }

    /// What a swap quoted at `q` moves first: the input into the pool and the output
    /// out of it. A host makes these transfers before it asks for the swap itself,
    /// whose effects begin with them.
    pub fn legs_of_swap(req: &SwapRequest, q: &SwapQuote) -> (r: Vec<Effect>)
        ensures
            r@ == swap_legs(*req, *q),
    {
        let mut legs: Vec<Effect> = Vec::new();
        legs.push(make_transfer(req.asset_in, req.who, q.pool_account, req.amount_in, q.input));
        legs.push(
            make_transfer(
                req.asset_out,
                q.pool_account,
                req.recipient,
                q.amount_out,
                Preservation::Expendable,
            ),
        );
        assert(legs@ =~= swap_legs(*req, *q));
        legs
    }

    /// Swap on behalf of `req.who`, delivering to `req.recipient`. Returns what
    /// the recipient gets.
    ///
    /// A routed slice below the native minimum balance cannot open an account
    /// that does not exist yet; such a slice stays in the pool and accrues to its
    /// liquidity providers, and the running totals do not count it.
    pub fn do_swap(&mut self, req: &SwapRequest, ctx: &SwapContext) -> (r: Result<
        (Balance, Vec<Effect>),
        Error,
    >)
        ensures
            match r {
                Ok((amount_out, effects)) => {
                    &&& swap_error(old(self)@, *req, *ctx) is None
                    &&& amount_out == quote_of(old(self)@, *req, *ctx).amount_out
                    &&& effects@ == swap_effects(old(self)@, *req, *ctx)
                    &&& final(self)@ == swap_next(old(self)@, *req, *ctx)
                },
                Err(e) => {
                    &&& swap_error(old(self)@, *req, *ctx) == Some(e)
                    &&& final(self)@ == old(self)@
                },
            },
    {
        let ghost st = self@;
        let q: SwapQuote = match self.quote_swap(req, ctx) {
            Ok(q) => q,
            Err(e) => return Err(e),
        };
        let mut pool: Pool = match self.pools.get(&q.pair) {
            Some(p) => p,
            None => return Err(Error::PoolNotFound),
        };
        proof {
            lemma_quote_ranges(st, *req, *ctx);
        }
        let total: u128 = match pool.total_fees_collected.checked_add(q.fee) {
            Some(t) => t,
            None => return Err(Error::Overflow),
        };
        let native: AssetKind = self.config.native_asset;
        let mut effects: Vec<Effect> = Pallet::legs_of_swap(req, &q);
        let escrowed: u128 = q.protocol + q.creator;
        if escrowed != 0 && (escrowed >= ctx.existential_deposit || ctx.escrow_exists) {
            effects.push(
                make_transfer(native, q.pool_account, Pallet::fee_escrow_account(), escrowed, Preservation::Expendable),
            );
            self.protocol_fees_unclaimed = self.protocol_fees_unclaimed.saturating_add(q.protocol);
            if q.creator != 0 {
                let accrued: u128 = match self.creator_fees_unclaimed.get(&q.pair) {
                    Some(x) => x,
                    None => 0,
                };
                self.creator_fees_unclaimed.insert(q.pair, accrued.saturating_add(q.creator));
            }
        }
        if let Some(vault) = ctx.sink {
            if q.treasury != 0 && (q.treasury >= ctx.existential_deposit || ctx.vault_exists) {
                effects.push(
                    make_transfer(native, q.pool_account, vault, q.treasury, Preservation::Expendable),
                );
                let other: AssetKind = if req.asset_in == native {
                    req.asset_out
                } else {
                    req.asset_in
                };
                effects.push(Effect::NoteFee { asset: other, amount: q.treasury });
            }
        }
        assert(effects@ =~= swap_legs(*req, q) + swap_routes(st, *req, *ctx, q));
        // The pool's share of the fee stays in its account, uncounted until the
        // next operation reads the balances again.
        if q.flipped {
            pool.reserve_a = ctx.held_a - q.gross_out;
            pool.reserve_b = ctx.held_b + q.net_in;
        } else {
            pool.reserve_a = ctx.held_a + q.net_in;
            pool.reserve_b = ctx.held_b - q.gross_out;
        }
        pool.total_fees_collected = total;
        self.pools.insert(q.pair, pool);
        if req.is_trade {
            self.last_swap_block.insert(q.pair, ctx.now);
        }
        effects.push(
            Effect::Emit(
                Event::SwapExecuted {
                    who: req.who,
                    asset_in: req.asset_in,
                    asset_out: req.asset_out,
                    amount_in: req.amount_in,
                    amount_out: q.amount_out,
                    fee: q.fee,
                },
            ),
        );
        effects.push(
            Effect::Emit(
                Event::FeesCollected { pool: q.pair, amount: q.fee, recipient: q.pool_account },
            ),
        );
        if escrowed != 0 || q.treasury != 0 {
            effects.push(
                Effect::Emit(
                    Event::FeesRouted {
                        pool: q.pair,
                        protocol: q.protocol,
                        creator: q.creator,
                        treasury: q.treasury,
                    },
                ),
            );
        }
        assert(effects@ =~= swap_effects(st, *req, *ctx));
        assert(self@ =~= swap_next(st, *req, *ctx));
        Ok((q.amount_out, effects))
    }
}

/// The numbers of a priced swap are balances, and fit where they are added up.
pub proof fn lemma_quote_ranges(st: DexState, req: SwapRequest, ctx: SwapContext)
    requires
        quote_error(st, req, ctx) is None,
    ensures
        ({
            let m = request_math(st, req, ctx);
            let q = quote_of(st, req, ctx);
            &&& q.fee == m.fee && q.net_in == m.net_in && q.gross_out == m.gross_out
            &&& q.protocol == m.protocol && q.creator == m.creator && q.treasury == m.treasury
            &&& q.amount_out == m.amount_out
            &&& q.fee + q.net_in == req.amount_in
            &&& 0 < q.amount_out <= q.gross_out < live_out(req, ctx)
            &&& live_in(req, ctx) + q.net_in <= u128::MAX
            &&& q.protocol + q.creator + q.treasury == m.routed
            &&& m.routed <= u128::MAX
            &&& (live_in(req, ctx) + q.net_in) * (live_out(req, ctx) - q.gross_out) >= live_in(
                req,
                ctx,
            ) * live_out(req, ctx)
        }),
{
    let m = request_math(st, req, ctx);
    let pool = requested_pool(st, req);
    let native_in = req.asset_in == st.config.native_asset;
    let native_out = req.asset_out == st.config.native_asset;
    let routing = if native_in || native_out {
        pool.routing
    } else {
        FeeRouting::none()
    };
    assert(m.fee >= 0) by {
        lemma_slice(req.amount_in as int, monus(tier_bps(pool.fee_tier), routing.routed()));
        assert(0 <= req.amount_in * pool.fee_tier) by (nonlinear_arith);
        lemma_floor(req.amount_in * pool.fee_tier, FEE_DENOMINATOR as int);
    }
    lemma_product_out(live_in(req, ctx), live_out(req, ctx), m.net_in);
    let base = if native_in {
        req.amount_in as int
    } else {
        m.gross_out
    };
    lemma_slice(base, routing.protocol_bps as int);
    lemma_slice(base, routing.creator_bps as int);
    lemma_slice(base, routing.treasury_bps as int);
}

} // verus!
