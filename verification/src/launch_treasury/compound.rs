//! Compounding: selling a launch's LNRG, then buying its token and burning it.
//!
//! The exchange, the launch's venue and the ledger are asked between the steps,
//! so a compound is a [`Compounding`] that is begun, told what was sold and what
//! was burned, and finished.

use super::accumulator::{
    gross_owed, harvest_events, harvest_fails, harvested, settle, settled,
};
use super::state::{mul_div, vault_of, Pallet, Record, TreasuryState};
use super::types::{Effect, Error, Event, LaunchId, Phase, TreasuryStatus, BPS};
use crate::arith::{is_least, lemma_floor, min_int, monus, sat_add, sat_sub};
use crate::primitives::{AccountId, Balance, BlockNumber, Key, Preservation};
use vstd::prelude::*;

verus! {

/// `quote` answers as `g` does, whatever it is asked.
pub open spec fn answers_as<F: Fn(Balance) -> Option<Balance>>(
    quote: F,
    g: spec_fn(Balance) -> Option<Balance>,
) -> bool {
    forall|x: Balance, y: Option<Balance>| call_ensures(quote, (x,), y) ==> y == g(x)
}

/// A compound on its way.
#[derive(Clone, Copy, Debug, PartialEq, Eq)]
pub struct Compounding {
    pub launch_id: LaunchId,
    /// Who runs the compound and is paid its bounty.
    pub caller: AccountId,
    /// Current block.
    pub now: BlockNumber,
    /// The launch's record, not yet written back.
    pub record: Record,
    pub did_something: bool,
    pub lnrg_sold: Balance,
    pub realised: Balance,
    pub bounty: Balance,
    pub burned_in: Balance,
    pub tokens_burned: Balance,
}

/// Why a compound cannot begin, if it cannot.
pub open spec fn begin_error(
    st: TreasuryState,
    launch_id: LaunchId,
    lnrg_held: Balance,
) -> Option<Error> {
    if !st.treasuries.dom().contains(launch_id) {
        Some(Error::NoTreasury)
    } else if harvest_fails(st, lnrg_held) || gross_owed(
        harvested(st, lnrg_held).lnrg_per_share,
        st.treasuries[launch_id].shares,
    ) > u128::MAX {
        Some(Error::ArithmeticOverflow)
    } else {
        None
    }
}

/// A compound that has just begun: rewards harvested, the launch's claim settled.
pub open spec fn begun(
    st: TreasuryState,
    caller: AccountId,
    launch_id: LaunchId,
    lnrg_held: Balance,
    now: BlockNumber,
) -> Compounding {
    Compounding {
        launch_id,
        caller,
        now,
        record: settled(
            harvested(st, lnrg_held).lnrg_per_share,
            st.treasuries[launch_id],
        ),
        did_something: false,
        lnrg_sold: 0,
        realised: 0,
        bounty: 0,
        burned_in: 0,
        tokens_burned: 0,
    }
}

/// What a market's answer is worth: an amount that it cannot quote brings nothing.
pub open spec fn worth(answer: Option<Balance>) -> Balance {
    match answer {
        Some(q) => q,
        None => 0,
    }
}

/// A quote that never falls as the amount grows up to `most`. An amount that the
/// market cannot quote counts as zero.
pub open spec fn is_rising(quote: spec_fn(Balance) -> Option<Balance>, most: Balance) -> bool {
    forall|x: Balance, y: Balance|
        1 <= x <= y <= most ==> worth(#[trigger] quote(x)) <= worth(#[trigger] quote(y))
}

/// The market can pay for `x`.
pub open spec fn is_payable(
    quote: spec_fn(Balance) -> Option<Balance>,
    x: Balance,
    depth: Balance,
) -> bool {
    worth(quote(x)) <= depth
}

/// The largest amount in `1..=most` that the market can pay for; zero where there
/// is none.
pub open spec fn largest_payable(
    quote: spec_fn(Balance) -> Option<Balance>,
    most: Balance,
    depth: Balance,
) -> Balance
    decreases most,
{
    if most == 0 || is_payable(quote, most, depth) {
        most
    } else {
        largest_payable(quote, (most - 1) as u128, depth)
    }
}

/// Selling `x`, with its quote, unless it would bring nothing.
pub open spec fn sale_of(quote: spec_fn(Balance) -> Option<Balance>, x: Balance) -> Option<
    (Balance, Balance),
> {
    if x == 0 || worth(quote(x)) == 0 {
        None
    } else {
        Some((x, worth(quote(x))))
    }
}

/// The most that can be sold of `want` at all.
pub open spec fn most_of(want: Balance, can_part_with: Balance) -> Balance {
    min_int(want as int, can_part_with as int) as u128
}

/// What to sell of `want`, with its quote: the largest amount that the vault can
/// part with and the market can pay for, unless it would bring nothing.
pub open spec fn largest_sale(
    quote: spec_fn(Balance) -> Option<Balance>,
    want: Balance,
    depth: Balance,
    can_part_with: Balance,
) -> Option<(Balance, Balance)> {
    if depth == 0 {
        None
    } else {
        sale_of(quote, largest_payable(quote, most_of(want, can_part_with), depth))
    }
}

/// The market can pay for `x`, or `x` is nothing, and it cannot pay for one unit more
/// unless `x` is all there is to sell.
pub open spec fn is_edge(
    quote: spec_fn(Balance) -> Option<Balance>,
    most: Balance,
    depth: Balance,
    x: Balance,
) -> bool {
    &&& x <= most
    &&& x > 0 ==> is_payable(quote, x, depth)
    &&& x < most ==> !is_payable(quote, (x + 1) as u128, depth)
}

/// The keeper's share of `amount`.
pub open spec fn bounty_of(st: TreasuryState, amount: int) -> int {
    amount * st.terms.keeper_bounty_bps / BPS as int
}

/// A bounty is paid: it is something, it does not go to the vault itself, and the
/// ledger would take it.
pub open spec fn lands(
    st: TreasuryState,
    caller: AccountId,
    amount: int,
    can_deposit: bool,
) -> bool {
    caller != vault_of(st.config) && amount != 0 && can_deposit
}

/// The bounty a sale that brought `out` pays.
pub open spec fn sale_bounty(
    st: TreasuryState,
    c: Compounding,
    out: Balance,
    can_deposit: bool,
) -> Balance {
    if lands(st, c.caller, bounty_of(st, out as int), can_deposit) {
        bounty_of(st, out as int) as u128
    } else {
        0
    }
}

/// A compound after a sale of `lnrg` that brought `out`.
pub open spec fn after_sale(
    st: TreasuryState,
    c: Compounding,
    lnrg: Balance,
    out: Balance,
    can_deposit: bool,
) -> Compounding {
    let bounty = sale_bounty(st, c, out, can_deposit);
    Compounding {
        record: Record {
            lnrg_accrued: sat_sub(c.record.lnrg_accrued, lnrg),
            pending_burn: sat_add(c.record.pending_burn, sat_sub(out, bounty)),
            ..c.record
        },
        did_something: true,
        lnrg_sold: lnrg,
        realised: out,
        bounty,
        ..c
    }
}

/// A payment to the caller, unless it is nothing.
pub open spec fn bounty_effects(c: Compounding, amount: Balance) -> Seq<Effect> {
    if amount == 0 {
        Seq::empty()
    } else {
        seq![Effect::Pay { to: c.caller, amount, preservation: Preservation::Preserve }]
    }
}

/// What the launch's venue shows.
#[derive(Clone, Copy, Debug, PartialEq, Eq)]
pub struct VenueSight {
    /// The launch's phase; nothing where there is no such launch.
    pub phase: Option<Phase>,
    /// Native reserve of the launch's pool.
    pub pool_reserve: Option<Balance>,
    /// Virtual quote reserve of the launch's curve.
    pub curve_reserve: Option<Balance>,
    /// The pool's swap fee, in bps.
    pub pool_fee_bps: Option<u16>,
    /// The curve's trading fee, in bps.
    pub curve_fee_bps: Option<u16>,
}

/// The quote reserve of the venue, where there is one to buy on.
pub open spec fn venue_reserve(venue: VenueSight) -> Option<Balance> {
    match venue.phase {
        Some(Phase::Graduated) => venue.pool_reserve,
        Some(Phase::Trading) => venue.curve_reserve,
        _ => None,
    }
}

/// The venue's fee; nothing counts as zero.
pub open spec fn venue_fee(venue: VenueSight) -> int {
    let fee = if venue.phase == Some(Phase::Graduated) {
        venue.pool_fee_bps
    } else {
        venue.curve_fee_bps
    };
    match fee {
        Some(bps) => bps as int,
        None => 0,
    }
}

/// The impact a slice may have: the term, and less than the venue's fee twice
/// over.
pub open spec fn slice_impact(max_impact: u16, venue: VenueSight) -> int {
    min_int(max_impact as int, min_int(monus(2 * venue_fee(venue), 1), u16::MAX as int))
}

/// The most a slice of that impact may spend.
pub open spec fn slice_cap(reserve: Balance, impact: int) -> int {
    reserve * impact / (2 * BPS)
}

/// What a slice of `pending` spends: nothing without a venue, an impact or an
/// amount.
pub open spec fn slice_of(pending: Balance, max_impact: u16, venue: VenueSight) -> int {
    if venue_reserve(venue) is None {
        0
    } else {
        min_int(
            pending as int,
            slice_cap(venue_reserve(venue)->0, slice_impact(max_impact, venue)),
        )
    }
}

/// A slice is due: there is something to burn, and the last slice is long enough
/// ago.
pub open spec fn slice_due(st: TreasuryState, c: Compounding) -> bool {
    &&& c.record.pending_burn != 0
    &&& monus(c.now as int, c.record.last_burn_block as int) >= st.terms.min_burn_interval
}

/// Why a due slice has no size, if it has none.
pub open spec fn slice_error(max_impact: u16, venue: VenueSight) -> Option<Error> {
    if venue.phase is None {
        Some(Error::NoTreasury)
    } else if venue_reserve(venue) is Some && slice_cap(
        venue_reserve(venue)->0,
        slice_impact(max_impact, venue),
    ) > u128::MAX {
        Some(Error::ArithmeticOverflow)
    } else {
        None
    }
}

/// Why a venue did not sell.
#[derive(Clone, Copy, Debug, PartialEq, Eq, Structural)]
pub enum VenueError {
    /// The offer is too small to be quoted.
    Unquotable,
    /// The offer comes to nothing.
    ZeroAmount,
    /// Anything else.
    Other,
}

/// The launch's fees as they stand after the venue has been paid, which may have
/// fed this very launch.
pub open spec fn pending_now(st: TreasuryState, c: Compounding) -> Balance {
    if st.treasuries.dom().contains(c.launch_id) {
        st.treasuries[c.launch_id].pending
    } else {
        c.record.pending
    }
}

/// What a slice spent: the fall of the vault's balance, corrected for fees that
/// arrived meanwhile.
pub open spec fn spent_of(
    st: TreasuryState,
    c: Compounding,
    before: Balance,
    after: Balance,
) -> Balance {
    sat_sub(sat_add(before, sat_sub(pending_now(st, c), c.record.pending)), after)
}

/// The bounty a slice pays: its share of what was spent, where what is left to
/// burn covers it.
pub open spec fn slice_bounty(
    st: TreasuryState,
    c: Compounding,
    spent: Balance,
    can_deposit: bool,
) -> Balance {
    let share = bounty_of(st, spent as int);
    if share <= sat_sub(c.record.pending_burn, spent) && lands(
        st,
        c.caller,
        share,
        can_deposit,
    ) {
        share as u128
    } else {
        0
    }
}

/// A compound after a slice that bought `tokens`.
pub open spec fn after_burn(
    st: TreasuryState,
    c: Compounding,
    before: Balance,
    after: Balance,
    tokens: Balance,
    can_deposit: bool,
) -> Compounding {
    let spent = spent_of(st, c, before, after);
    let bounty = slice_bounty(st, c, spent, can_deposit);
    Compounding {
        record: Record {
            pending: pending_now(st, c),
            pending_burn: sat_sub(sat_sub(c.record.pending_burn, spent), bounty),
            last_burn_block: c.now,
            ..c.record
        },
        did_something: true,
        burned_in: spent,
        tokens_burned: tokens,
        bounty: sat_add(c.bounty, bounty),
        ..c
    }
}

/// What a slice asks of the world once the venue has delivered.
pub open spec fn burn_effects(
    st: TreasuryState,
    c: Compounding,
    before: Balance,
    after: Balance,
    tokens: Balance,
    can_deposit: bool,
) -> Seq<Effect> {
    (if tokens == 0 {
        Seq::empty()
    } else {
        seq![Effect::BurnTokens { amount: tokens }]
    }) + bounty_effects(c, slice_bounty(st, c, spent_of(st, c, before, after), can_deposit))
}

/// A retired treasury closes: nothing is left in it but less than the native
/// minimum balance.
pub open spec fn closes(c: Compounding, existential_deposit: Balance) -> bool {
    &&& c.record.status == TreasuryStatus::Retired
    &&& c.record.shares == 0
    &&& c.record.lnrg_accrued == 0
    &&& c.record.pending == 0
    &&& 0 < c.record.pending_burn < existential_deposit
}

/// The record a compound writes back.
pub open spec fn finished_record(c: Compounding, existential_deposit: Balance) -> Record {
    if closes(c, existential_deposit) {
        Record { pending_burn: 0, ..c.record }
    } else {
        c.record
    }
}

/// What finishing asks of the world.
pub open spec fn finish_effects(
    st: TreasuryState,
    c: Compounding,
    existential_deposit: Balance,
) -> Seq<Effect> {
    if closes(c, existential_deposit) {
        seq![
            Effect::Pay {
                to: st.config.protocol_recipient,
                amount: c.record.pending_burn,
                preservation: Preservation::Preserve,
            },
            Effect::Emit(
                Event::DustSwept { launch_id: c.launch_id, amount: c.record.pending_burn },
            ),
        ]
    } else {
        seq![
            Effect::Emit(
                Event::Compounded {
                    launch_id: c.launch_id,
                    lnrg_sold: c.lnrg_sold,
                    vtrs_realised: c.realised,
                    bounty: c.bounty,
                    vtrs_burned_in: c.burned_in,
                    tokens_burned: c.tokens_burned,
                },
            ),
        ]
    }
}

/// What a sale was found for is something the vault and the market can carry, and
/// the market cannot carry any more of it. Where none was found under a rising
/// quote, nothing that the market can carry would bring anything.
pub proof fn law_sale_is_payable(
    quote: spec_fn(Balance) -> Option<Balance>,
    want: Balance,
    depth: Balance,
    can_part_with: Balance,
)
    ensures
        largest_sale(quote, want, depth, can_part_with) matches Some((x, q)) ==> {
            &&& 0 < x <= want
            &&& x <= can_part_with
            &&& quote(x) == Some(q)
            &&& 0 < q <= depth
            &&& forall|y: Balance|
                x < y <= most_of(want, can_part_with) ==> !#[trigger] is_payable(quote, y, depth)
        },
        largest_sale(quote, want, depth, can_part_with) is None && depth > 0 && is_rising(
            quote,
            most_of(want, can_part_with),
        ) ==> forall|y: Balance|
            1 <= y <= most_of(want, can_part_with) && #[trigger] is_payable(quote, y, depth)
                ==> worth(quote(y)) == 0,
{
    let most = most_of(want, can_part_with);
    lemma_largest(quote, most, depth);
    let x = largest_payable(quote, most, depth);
    if largest_sale(quote, want, depth, can_part_with) is None && depth > 0 && is_rising(
        quote,
        most,
    ) {
        assert forall|y: Balance|
            1 <= y <= most && #[trigger] is_payable(quote, y, depth) implies worth(quote(y))
            == 0 by {
            assert(y <= x);
            assert(worth(quote(y)) <= worth(quote(x)));
        }
    }
}

/// The largest payable amount is payable, and nothing above it is.
proof fn lemma_largest(quote: spec_fn(Balance) -> Option<Balance>, most: Balance, depth: Balance)
    ensures
        ({
            let x = largest_payable(quote, most, depth);
            &&& x <= most
            &&& x > 0 ==> is_payable(quote, x, depth)
            &&& forall|y: Balance| x < y <= most ==> !#[trigger] is_payable(quote, y, depth)
        }),
    decreases most,
{
    if most != 0 && !is_payable(quote, most, depth) {
        lemma_largest(quote, (most - 1) as u128, depth);
    }
}

/// Under a rising quote there is one edge, and it is the largest payable amount.
proof fn lemma_edge_is_largest(
    quote: spec_fn(Balance) -> Option<Balance>,
    most: Balance,
    depth: Balance,
    x: Balance,
)
    requires
        is_rising(quote, most),
        is_edge(quote, most, depth, x),
    ensures
        largest_payable(quote, most, depth) == x,
{
    lemma_largest(quote, most, depth);
    let y = largest_payable(quote, most, depth);
    if y > x {
        let next = (x + 1) as u128;
        assert(worth(quote(next)) <= worth(quote(y)));
    } else if y < x {
        assert(!is_payable(quote, x, depth));
    }
}

/// A slice spends at most `reserve * impact / (2 * BPS)`, at an impact under both
/// bounds. At an impact that terms allow it then moves the price of a
/// constant-product venue, `((reserve + y) / reserve)^2`, by less than the venue's
/// fee twice over.
pub proof fn law_slice_is_capped(pending: Balance, max_impact: u16, venue: VenueSight)
    requires
        venue_reserve(venue) is Some,
    ensures
        0 <= slice_of(pending, max_impact, venue) <= pending,
        slice_of(pending, max_impact, venue) > 0 ==> {
            &&& slice_impact(max_impact, venue) <= max_impact
            &&& 0 < slice_impact(max_impact, venue) < 2 * venue_fee(venue)
            &&& slice_of(pending, max_impact, venue) * 2 * BPS <= venue_reserve(venue)->0
                * slice_impact(max_impact, venue)
        },
        slice_of(pending, max_impact, venue) > 0 && max_impact <= 200 ==> {
            let reserve = venue_reserve(venue)->0 as int;
            let y = slice_of(pending, max_impact, venue);
            (reserve + y) * (reserve + y) * BPS < reserve * reserve * (BPS + 2 * venue_fee(venue))
        },
{
    let reserve = venue_reserve(venue)->0 as int;
    let impact = slice_impact(max_impact, venue);
    let y = slice_of(pending, max_impact, venue);
    let n = reserve * impact;
    assert(0 <= n) by (nonlinear_arith)
        requires
            n == reserve * impact,
            0 <= impact,
            0 <= reserve,
    ;
    lemma_floor(n, 2 * BPS as int);
    if y > 0 {
        if impact == 0 {
            assert(n == 0) by (nonlinear_arith)
                requires
                    n == reserve * impact,
                    impact == 0,
            ;
        }
        if max_impact <= 200 {
            lemma_price_moves(reserve, y, impact, venue_fee(venue));
        }
    }
}

/// The square of a small step, bounded.
proof fn lemma_price_moves(reserve: int, y: int, impact: int, fee: int)
    requires
        0 <= reserve,
        0 < y,
        0 < impact <= 200,
        impact < 2 * fee,
        y * 20_000 <= reserve * impact,
    ensures
        (reserve + y) * (reserve + y) * 10_000 < reserve * reserve * (10_000 + 2 * fee),
{
    let wide = (reserve + y) * 20_000;
    let most = reserve * (20_000 + impact);
    assert(reserve > 0) by (nonlinear_arith)
        requires
            0 <= reserve,
            0 < y,
            y * 20_000 <= reserve * impact,
    ;
    assert(most == reserve * 20_000 + reserve * impact) by (nonlinear_arith)
        requires
            most == reserve * (20_000 + impact),
    ;
    assert(wide * wide <= most * most) by (nonlinear_arith)
        requires
            0 <= wide <= most,
    ;
    assert(wide * wide == (reserve + y) * (reserve + y) * 400_000_000) by (nonlinear_arith)
        requires
            wide == (reserve + y) * 20_000,
    ;
    assert(most * most == reserve * reserve * ((20_000 + impact) * (20_000 + impact)))
        by (nonlinear_arith)
        requires
            most == reserve * (20_000 + impact),
    ;
    // The fee is a whole number of basis points, so the last one covers the square.
    assert((20_000 + impact) * (20_000 + impact) < 40_000 * (10_000 + 2 * fee))
        by (nonlinear_arith)
        requires
            0 < impact <= 200,
            impact < 2 * fee,
            impact == 200 ==> 2 * fee >= 202,
    ;
    let k = reserve * reserve;
    assert(k > 0) by (nonlinear_arith)
        requires
            reserve > 0,
            k == reserve * reserve,
    ;
    let a = (20_000 + impact) * (20_000 + impact);
    let b = 40_000 * (10_000 + 2 * fee);
    assert(k * a < k * b) by (nonlinear_arith)
        requires
            a < b,
            k > 0,
    ;
    assert(k * b == 40_000 * (k * (10_000 + 2 * fee))) by (nonlinear_arith)
        requires
            b == 40_000 * (10_000 + 2 * fee),
    ;
}

impl Pallet {
    /// Begin a compound: harvest, and settle the launch's claim.
    pub fn begin_compound(
        &mut self,
        caller: &AccountId,
        launch_id: LaunchId,
        lnrg_held: Balance,
        now: BlockNumber,
    ) -> (r: Result<(Compounding, Vec<Effect>), Error>)
        ensures
            match r {
                Ok((c, effects)) => {
                    &&& begin_error(old(self)@, launch_id, lnrg_held) is None
                    &&& c == begun(old(self)@, *caller, launch_id, lnrg_held, now)
                    &&& effects@ == harvest_events(old(self)@, lnrg_held)
                    &&& final(self)@ == harvested(old(self)@, lnrg_held)
                },
                Err(e) => {
                    &&& begin_error(old(self)@, launch_id, lnrg_held) == Some(e)
                    &&& final(self)@ == old(self)@
                },
            },
    {
        let t: Record = match self.treasuries.get(&launch_id) {
            Some(t) => t,
            None => return Err(Error::NoTreasury),
        };
        let per_share: u128 = match self.peek_harvest(lnrg_held) {
            Ok(p) => p,
            Err(e) => return Err(e),
        };
        let record: Record = match settle(per_share, &t) {
            Ok(s) => s,
            Err(e) => return Err(e),
        };
        match self.do_harvest(lnrg_held) {
            Ok((_, effects)) => Ok(
                (
                    Compounding {
                        launch_id,
                        caller: *caller,
                        now,
                        record,
                        did_something: false,
                        lnrg_sold: 0,
                        realised: 0,
                        bounty: 0,
                        burned_in: 0,
                        tokens_burned: 0,
                    },
                    effects,
                ),
            ),
            Err(e) => Err(e),
        }
    }

    /// What to sell of `want`, with its quote: the largest amount that the vault
    /// can part with and the market can pay for. `quote` is what the market would
    /// pay right now for an amount of LNRG, where it can say.
    ///
    /// The whole amount is sold wherever the market can pay for it. Where the quote
    /// rises and falls, the sale is one that the market can pay for while it cannot
    /// pay for one unit more.
    pub fn sellable<F: Fn(Balance) -> Option<Balance>>(
        quote: F,
        want: Balance,
        depth: Balance,
        can_part_with: Balance,
    ) -> (r: Option<(Balance, Balance)>)
        requires
            forall|x: Balance| call_requires(quote, (x,)),
        ensures
            forall|g: spec_fn(Balance) -> Option<Balance>|
                answers_as(quote, g) && is_rising(g, most_of(want, can_part_with)) ==> r
                    == #[trigger] largest_sale(g, want, depth, can_part_with),
            forall|g: spec_fn(Balance) -> Option<Balance>| #[trigger]
                answers_as(quote, g) && depth > 0 ==> {
                    let most = most_of(want, can_part_with);
                    &&& worth(g(most)) <= depth ==> r == sale_of(g, most)
                    &&& exists|x: Balance| #[trigger]
                        is_edge(g, most, depth, x) && r == sale_of(g, x)
                },
            r matches Some((x, q)) ==> {
                &&& call_ensures(quote, (x,), Some(q))
                &&& 0 < x <= want && x <= can_part_with
                &&& 0 < q <= depth
            },
            depth == 0 || want == 0 || can_part_with == 0 ==> r is None,
    {
        let most: u128 = if want <= can_part_with {
            want
        } else {
            can_part_with
        };
        if depth == 0 || most == 0 {
            assert forall|g: spec_fn(Balance) -> Option<Balance>|
                answers_as(quote, g) implies is_edge(g, most, depth, 0) || depth == 0 by {}
            return None;
        }
        let answer: Option<u128> = quote(most);
        let all: u128 = match answer {
            Some(q) => q,
            None => 0,
        };
        if all <= depth {
            proof {
                assert forall|g: spec_fn(Balance) -> Option<Balance>| #[trigger]
                    answers_as(quote, g) implies is_edge(g, most, depth, most) && sale_of(g, most)
                    == (if all == 0 {
                    None
                } else {
                    Some((most, all))
                }) && (is_rising(g, most) ==> largest_payable(g, most, depth) == most) by {
                    assert(g(most) == answer);
                    if is_rising(g, most) {
                        lemma_edge_is_largest(g, most, depth, most);
                    }
                }
            }
            return if all == 0 {
                None
            } else {
                Some((most, all))
            };
        }
        // The market can pay for `low` and not for `high`.
        let mut low: u128 = 0;
        let mut high: u128 = most;
        let mut low_quote: u128 = 0;
        let ghost mut low_answer: Option<u128> = None;
        let ghost mut high_answer: Option<u128> = answer;
        while high - low > 1
            invariant
                depth != 0,
                most == most_of(want, can_part_with),
                low < high <= most,
                forall|x: Balance| call_requires(quote, (x,)),
                low > 0 ==> call_ensures(quote, (low,), low_answer),
                low_quote == worth(low_answer),
                low == 0 ==> low_quote == 0,
                low_quote <= depth,
                call_ensures(quote, (high,), high_answer),
                worth(high_answer) > depth,
            decreases high - low,
        {
            let mid: u128 = low + (high - low) / 2;
            let given: Option<u128> = quote(mid);
            // What cannot be quoted is too little to be quoted.
            let q: u128 = match given {
                Some(q) => q,
                None => 0,
            };
            if q <= depth {
                low = mid;
                low_quote = q;
                proof {
                    low_answer = given;
                }
            } else {
                high = mid;
                proof {
                    high_answer = given;
                }
            }
        }
        proof {
            assert forall|g: spec_fn(Balance) -> Option<Balance>| #[trigger]
                answers_as(quote, g) implies is_edge(g, most, depth, low) && !is_payable(
                g,
                most,
                depth,
            ) && sale_of(g, low) == (if low_quote == 0 {
                None
            } else {
                Some((low, low_quote))
            }) && (is_rising(g, most) ==> largest_payable(g, most, depth) == low) by {
                assert(g(high) == high_answer);
                assert(g(most) == answer);
                if low > 0 {
                    assert(g(low) == low_answer);
                }
                if is_rising(g, most) {
                    lemma_edge_is_largest(g, most, depth, low);
                }
            }
        }
        if low_quote == 0 {
            None
        } else {
            Some((low, low_quote))
        }
    }

    /// The least a sale quoted at `q` must bring: a tenth of a percent under it.
    pub fn least_proceeds(q: Balance) -> (r: Balance)
        ensures
            r == q - q as int / 1_000,
            is_least(r as int, q * 999, 1_000),
    {
        q - q / 1_000
    }

    /// The keeper's share of `amount`.
    pub fn bounty_on(&self, amount: Balance) -> (r: Result<Balance, Error>)
        ensures
            match r {
                Ok(b) => b == bounty_of(self@, amount as int),
                Err(e) => bounty_of(self@, amount as int) > u128::MAX && e
                    == Error::ArithmeticOverflow,
            },
    {
        mul_div(amount, self.terms.keeper_bounty_bps as u128, BPS)
    }

    /// Whether paying `amount` to `who` would actually land, where `can_deposit`
    /// is the ledger's word on it. The vault paying itself would move nothing.
    pub fn bounty_lands(&self, who: &AccountId, amount: Balance, can_deposit: bool) -> (r: bool)
        ensures
            r == lands(self@, *who, amount as int, can_deposit),
    {
        !who.same(&self.vault()) && amount != 0 && can_deposit
    }

    /// Take a sale of `lnrg` into account that brought `out`. `can_deposit` is
    /// whether the ledger would take [`Pallet::bounty_on`] of it for the caller.
    pub fn note_sale(&mut self, c: &mut Compounding, lnrg: Balance, out: Balance, can_deposit: bool) -> (r:
        Result<Vec<Effect>, Error>)
        ensures
            match r {
                Ok(effects) => {
                    &&& bounty_of(old(self)@, out as int) <= u128::MAX
                    &&& *final(c) == after_sale(old(self)@, *old(c), lnrg, out, can_deposit)
                    &&& effects@ == bounty_effects(
                        *old(c),
                        sale_bounty(old(self)@, *old(c), out, can_deposit),
                    )
                    &&& final(self)@ == (TreasuryState {
                        lnrg_accounted: sat_sub(old(self)@.lnrg_accounted, lnrg),
                        ..old(self)@
                    })
                },
                Err(e) => {
                    &&& bounty_of(old(self)@, out as int) > u128::MAX
                    &&& e == Error::ArithmeticOverflow
                    &&& *final(c) == *old(c)
                    &&& final(self)@ == old(self)@
                },
            },
    {
        let ghost st = self@;
        let ghost before = *c;
        let share: u128 = match self.bounty_on(out) {
            Ok(b) => b,
            Err(e) => return Err(e),
        };
        let mut effects: Vec<Effect> = Vec::new();
        let bounty: u128 = if self.bounty_lands(&c.caller, share, can_deposit) {
            effects.push(
                Effect::Pay {
                    to: c.caller,
                    amount: share,
                    preservation: Preservation::Preserve,
                },
            );
            share
        } else {
            0
        };
        assert(effects@ =~= bounty_effects(before, bounty));
        c.record.lnrg_accrued = c.record.lnrg_accrued.saturating_sub(lnrg);
        // What left the vault was attributed, so the accumulator's baseline
        // follows it down.
        self.lnrg_accounted = self.lnrg_accounted.saturating_sub(lnrg);
        c.record.pending_burn = c.record.pending_burn.saturating_add(out.saturating_sub(bounty));
        c.did_something = true;
        c.lnrg_sold = lnrg;
        c.realised = out;
        c.bounty = bounty;
        Ok(effects)
    }

    /// What a slice would spend on the launch's venue, if one is due and the
    /// venue can take it.
    pub fn burn_slice(&self, c: &Compounding, venue: &VenueSight) -> (r: Result<
        Option<Balance>,
        Error,
    >)
        ensures
            ({
                let size = slice_of(
                    c.record.pending_burn,
                    self@.terms.max_burn_impact_bps,
                    *venue,
                );
                match r {
                    Ok(Some(y)) => {
                        &&& slice_due(self@, *c)
                        &&& slice_error(self@.terms.max_burn_impact_bps, *venue) is None
                        &&& y == size && y > 0
                    },
                    Ok(None) => !slice_due(self@, *c) || (slice_error(
                        self@.terms.max_burn_impact_bps,
                        *venue,
                    ) is None && size == 0),
                    Err(e) => slice_due(self@, *c) && slice_error(
                        self@.terms.max_burn_impact_bps,
                        *venue,
                    ) == Some(e),
                }
            }),
    {
        if c.record.pending_burn == 0 || c.now.saturating_sub(c.record.last_burn_block)
            < self.terms.min_burn_interval {
            return Ok(None);
        }
        let phase: Phase = match venue.phase {
            Some(p) => p,
            None => return Err(Error::NoTreasury),
        };
        let reserve: Option<u128> = match phase {
            Phase::Graduated => venue.pool_reserve,
            Phase::Trading => venue.curve_reserve,
            Phase::Complete => None,
        };
        let quote_reserve: u128 = match reserve {
            Some(x) => x,
            None => return Ok(None),
        };
        let fee: Option<u16> = match phase {
            Phase::Graduated => venue.pool_fee_bps,
            _ => venue.curve_fee_bps,
        };
        let fee_bps: u32 = match fee {
            Some(x) => x as u32,
            None => 0,
        };
        // A slice whose impact reaches the venue's round-trip fee would be worth
        // bracketing; the term is a ceiling and the fee is the bound.
        let bound: u32 = (fee_bps * 2).saturating_sub(1);
        let term: u32 = self.terms.max_burn_impact_bps as u32;
        let impact: u32 = if term <= bound {
            term
        } else {
            bound
        };
        proof {
            assert(quote_reserve * 0 == 0);
            assert(slice_cap(quote_reserve, 0) == 0) by (nonlinear_arith);
        }
        if impact == 0 {
            return Ok(None);
        }
        let cap: u128 = match mul_div(quote_reserve, impact as u128, 2 * BPS) {
            Ok(x) => x,
            Err(e) => return Err(e),
        };
        let y: u128 = if c.record.pending_burn <= cap {
            c.record.pending_burn
        } else {
            cap
        };
        if y == 0 {
            return Ok(None);
        }
        Ok(Some(y))
    }

    /// What a venue's answer to a slice means: tokens, nothing to burn this time
    /// where the offer was too small, or its error.
    pub fn tokens_bought(answer: Result<Balance, VenueError>) -> (r: Result<
        Option<Balance>,
        VenueError,
    >)
        ensures
            r == (match answer {
                Ok(tokens) => Ok(Some(tokens)),
                Err(VenueError::Other) => Err(VenueError::Other),
                Err(_) => Ok(None),
            }),
    {
        match answer {
            Ok(tokens) => Ok(Some(tokens)),
            Err(VenueError::Other) => Err(VenueError::Other),
            Err(_) => Ok(None),
        }
    }

    /// What a slice spent, given the vault's native balance before and after.
    pub fn spent_on_slice(&self, c: &Compounding, before: Balance, after: Balance) -> (r: Balance)
        ensures
            r == spent_of(self@, *c, before, after),
    {
        let pending: u128 = match self.treasuries.get(&c.launch_id) {
            Some(t) => t.pending,
            None => c.record.pending,
        };
        before.saturating_add(pending.saturating_sub(c.record.pending)).saturating_sub(after)
    }

    /// Take a slice into account that bought `tokens`, given the vault's native
    /// balance before and after. `can_deposit` is whether the ledger would take
    /// [`Pallet::bounty_on`] of what was spent for the caller.
    pub fn note_burn(
        &self,
        c: &mut Compounding,
        before: Balance,
        after: Balance,
        tokens: Balance,
        can_deposit: bool,
    ) -> (r: Result<Vec<Effect>, Error>)
        ensures
            ({
                let spent = spent_of(self@, *old(c), before, after);
                match r {
                    Ok(effects) => {
                        &&& bounty_of(self@, spent as int) <= u128::MAX
                        &&& *final(c) == after_burn(
                            self@,
                            *old(c),
                            before,
                            after,
                            tokens,
                            can_deposit,
                        )
                        &&& effects@ == burn_effects(
                            self@,
                            *old(c),
                            before,
                            after,
                            tokens,
                            can_deposit,
                        )
                    },
                    Err(e) => {
                        &&& bounty_of(self@, spent as int) > u128::MAX
                        &&& e == Error::ArithmeticOverflow
                        &&& *final(c) == *old(c)
                    },
                }
            }),
    {
        let ghost c0 = *c;
        let spent: u128 = self.spent_on_slice(c, before, after);
        let share: u128 = match self.bounty_on(spent) {
            Ok(b) => b,
            Err(e) => return Err(e),
        };
        let mut effects: Vec<Effect> = Vec::new();
        if tokens != 0 {
            effects.push(Effect::BurnTokens { amount: tokens });
        }
        let pending: u128 = match self.treasuries.get(&c.launch_id) {
            Some(t) => t.pending,
            None => c.record.pending,
        };
        let left: u128 = c.record.pending_burn.saturating_sub(spent);
        let bounty: u128 = if share <= left && self.bounty_lands(&c.caller, share, can_deposit) {
            effects.push(
                Effect::Pay {
                    to: c.caller,
                    amount: share,
                    preservation: Preservation::Preserve,
                },
            );
            share
        } else {
            0
        };
        assert(effects@ =~= burn_effects(self@, c0, before, after, tokens, can_deposit));
        c.record.pending = pending;
        c.record.pending_burn = left.saturating_sub(bounty);
        c.record.last_burn_block = c.now;
        c.did_something = true;
        c.burned_in = spent;
        c.tokens_burned = tokens;
        c.bounty = c.bounty.saturating_add(bounty);
        Ok(effects)
    }

    /// Finish a compound: close a retired treasury that has nothing left worth
    /// burning, or write the record back. The record itself always stays.
    pub fn finish_compound(&mut self, c: &Compounding, existential_deposit: Balance) -> (r: Result<
        Vec<Effect>,
        Error,
    >)
        ensures
            match r {
                Ok(effects) => {
                    &&& c.did_something || closes(*c, existential_deposit)
                    &&& effects@ == finish_effects(old(self)@, *c, existential_deposit)
                    &&& final(self)@ == (TreasuryState {
                        treasuries: old(self)@.treasuries.insert(
                            c.launch_id,
                            finished_record(*c, existential_deposit),
                        ),
                        ..old(self)@
                    })
                },
                Err(e) => {
                    &&& !c.did_something && !closes(*c, existential_deposit)
                    &&& e == Error::NothingToDo
                    &&& final(self)@ == old(self)@
                },
            },
    {
        let ghost st = self@;
        let mut record: Record = c.record;
        let mut effects: Vec<Effect> = Vec::new();
        if record.status == TreasuryStatus::Retired && record.shares == 0 && record.lnrg_accrued
            == 0 && record.pending == 0 && record.pending_burn != 0 && record.pending_burn
            < existential_deposit {
            effects.push(
                Effect::Pay {
                    to: self.config.protocol_recipient,
                    amount: record.pending_burn,
                    preservation: Preservation::Preserve,
                },
            );
            effects.push(
                Effect::Emit(
                    Event::DustSwept { launch_id: c.launch_id, amount: record.pending_burn },
                ),
            );
            record.pending_burn = 0;
            self.treasuries.insert(c.launch_id, record);
            assert(effects@ =~= finish_effects(st, *c, existential_deposit));
            return Ok(effects);
        }
        if !c.did_something {
            return Err(Error::NothingToDo);
        }
        self.treasuries.insert(c.launch_id, record);
        effects.push(
            Effect::Emit(
                Event::Compounded {
                    launch_id: c.launch_id,
                    lnrg_sold: c.lnrg_sold,
                    vtrs_realised: c.realised,
                    bounty: c.bounty,
                    vtrs_burned_in: c.burned_in,
                    tokens_burned: c.tokens_burned,
                },
            ),
        );
        assert(effects@ =~= finish_effects(st, *c, existential_deposit));
        Ok(effects)
    }
}

} // verus!
