//! What a compound sells, pays and burns.

use super::accumulator::{claim_of, gross_owed, harvested};
use super::compound::{
    after_burn, after_sale, begin_error, begun, bounty_effects, bounty_of, burn_effects, closes,
    finish_effects, finished_record, is_edge, is_payable, is_rising, largest_sale,
    law_sale_is_payable, most_of, sale_bounty, sale_of, slice_bounty, slice_due, slice_error,
    slice_impact, slice_of, spent_of, venue_reserve, worth, Compounding, VenueSight,
};
use super::state::{vault_of, Record, TreasuryState};
use super::types::{Effect, Error, Event, LaunchId, Phase, TreasuryStatus};
use crate::arith::{is_largest, lemma_floor, lemma_floor_is, max_int, min_int};
use crate::primitives::{AccountId, Balance, BlockNumber, Preservation};
use vstd::prelude::*;

verus! {

/// The reserve that a slice buys against: the pool's once the launch has graduated, the
/// curve's while it trades, and none in between.
pub open spec fn buys_against(venue: VenueSight) -> Option<Balance> {
    if venue.phase == Some(Phase::Graduated) {
        venue.pool_reserve
    } else if venue.phase == Some(Phase::Trading) {
        venue.curve_reserve
    } else {
        None
    }
}

/// The fee of the venue that a slice buys on, where it has one.
pub open spec fn charged_by(venue: VenueSight) -> int {
    let fee = if venue.phase == Some(Phase::Graduated) {
        venue.pool_fee_bps
    } else {
        venue.curve_fee_bps
    };
    if fee is Some {
        fee->0 as int
    } else {
        0
    }
}

/// A slice is as large as both bounds allow: it spends all that is waiting, or one unit
/// more would go over `reserve * impact / 20_000` at the largest impact that stays
/// within the term and under the venue's fee twice over. Without a venue there is none.
pub proof fn law_slice_is_as_large_as_allowed(
    pending: Balance,
    max_impact: u16,
    venue: VenueSight,
    impact: int,
)
    requires
        0 <= impact <= max_impact,
        impact < 2 * charged_by(venue) || impact == 0,
        impact == max_impact || impact + 1 >= 2 * charged_by(venue),
    ensures
        ({
            let y = slice_of(pending, max_impact, venue);
            match buys_against(venue) {
                Some(reserve) => {
                    &&& 0 <= y <= pending
                    &&& y * 20_000 <= reserve * impact
                    &&& y == pending || (y + 1) * 20_000 > reserve * impact
                },
                None => y == 0,
            }
        }),
{
    if let Some(reserve) = buys_against(venue) {
        assert(venue_reserve(venue) == Some(reserve));
        assert(slice_impact(max_impact, venue) == impact);
        assert(0 <= reserve * impact) by (nonlinear_arith)
            requires
                0 <= impact,
        ;
        lemma_floor(reserve * impact, 20_000);
    }
}

/// A slice is due exactly where something waits to be burned and the interval has
/// passed since the last one. A due slice has a size for every launch there is, at any
/// impact that terms allow.
pub proof fn law_slice_waits_for_its_interval(
    st: TreasuryState,
    c: Compounding,
    max_impact: u16,
    venue: VenueSight,
)
    ensures
        slice_due(st, c) <==> {
            &&& c.record.pending_burn > 0
            &&& c.now >= c.record.last_burn_block + st.terms.min_burn_interval
                || st.terms.min_burn_interval == 0
        },
        venue.phase is None ==> slice_error(max_impact, venue) == Some(Error::NoTreasury),
        venue.phase is Some && max_impact <= 200 ==> slice_error(max_impact, venue) is None,
{
    if venue.phase is Some && max_impact <= 200 && venue_reserve(venue) is Some {
        let reserve = venue_reserve(venue)->0;
        let impact = slice_impact(max_impact, venue);
        let n = reserve * impact;
        assert(0 <= n && n <= reserve * 200) by (nonlinear_arith)
            requires
                n == reserve * impact,
                0 <= impact <= 200,
        ;
        lemma_floor(n, 20_000);
    }
}

/// What the market would pay for `x`, where it can say.
pub open spec fn brings(quote: spec_fn(Balance) -> Option<Balance>, x: Balance) -> int {
    match quote(x) {
        Some(q) => q as int,
        None => 0,
    }
}

/// A sale is of no more than is wanted and than the vault can part with, brings
/// something that the market can pay, and no larger one would do. Where none is made
/// under a rising quote, no amount would do. The whole of the smaller bound is sold
/// wherever the market can pay for it.
pub proof fn law_sale_is_the_largest(
    quote: spec_fn(Balance) -> Option<Balance>,
    want: Balance,
    depth: Balance,
    can_part_with: Balance,
    y: Balance,
)
    requires
        0 < y <= want && y <= can_part_with,
    ensures
        match largest_sale(quote, want, depth, can_part_with) {
            Some((x, q)) => {
                &&& 0 < x <= want && x <= can_part_with
                &&& q == brings(quote, x) && 0 < q <= depth
                &&& y > x ==> brings(quote, y) > depth
            },
            None => {
                ||| depth == 0
                ||| brings(quote, y) == 0
                ||| brings(quote, y) > depth
                ||| exists|a: Balance, b: Balance|
                    1 <= a <= b && b <= want && b <= can_part_with && #[trigger] brings(quote, a)
                        > #[trigger] brings(quote, b)
            },
        },
        ({
            let most = if want <= can_part_with {
                want
            } else {
                can_part_with
            };
            &&& most_of(want, can_part_with) == most
            &&& 0 < brings(quote, most) <= depth ==> largest_sale(
                quote,
                want,
                depth,
                can_part_with,
            ) == Some((most, brings(quote, most) as u128))
        }),
{
    let most = most_of(want, can_part_with);
    law_sale_is_payable(quote, want, depth, can_part_with);
    if let Some((x, _)) = largest_sale(quote, want, depth, can_part_with) {
        assert(y > x ==> !is_payable(quote, y, depth));
    } else if !is_rising(quote, most) {
        let (a, b) = choose|a: Balance, b: Balance|
            1 <= a <= b <= most && worth(#[trigger] quote(a)) > worth(#[trigger] quote(b));
        assert(brings(quote, a) > brings(quote, b));
    } else {
        assert(is_payable(quote, y, depth) ==> worth(quote(y)) == 0);
    }
}

/// An edge is an amount within the bound that the market can pay for, or none, while it
/// cannot pay for one unit more; what is sold there is that amount, where it brings
/// something.
pub proof fn law_edge_is_where_the_market_stops(
    quote: spec_fn(Balance) -> Option<Balance>,
    most: Balance,
    depth: Balance,
    x: Balance,
)
    ensures
        is_edge(quote, most, depth, x) <==> {
            &&& x <= most
            &&& x == 0 || brings(quote, x) <= depth
            &&& x == most || brings(quote, (x + 1) as u128) > depth
        },
        sale_of(quote, x) == if x > 0 && brings(quote, x) > 0 {
            Some((x, brings(quote, x) as u128))
        } else {
            None
        },
{
}

/// Whether a bounty of `amount` reaches the caller: it is something, the caller is not
/// the vault, and the ledger takes it.
pub open spec fn reaches(
    st: TreasuryState,
    c: Compounding,
    amount: int,
    can_deposit: bool,
) -> bool {
    amount > 0 && c.caller != vault_of(st.config) && can_deposit
}

/// A sale takes what was sold off the launch's claim and adds what it brought to what
/// waits to be burned, less a bounty: the most that the keeper's rate gives of it, where
/// that reaches the caller. The caller is paid exactly that.
pub proof fn law_sale_goes_to_the_burn(
    st: TreasuryState,
    c: Compounding,
    lnrg: Balance,
    out: Balance,
    can_deposit: bool,
    share: int,
)
    requires
        is_largest(share, out * st.terms.keeper_bounty_bps, 10_000),
        share <= u128::MAX,
    ensures
        ({
            let done = after_sale(st, c, lnrg, out, can_deposit);
            let bounty = if reaches(st, c, share, can_deposit) {
                share
            } else {
                0
            };
            &&& bounty_of(st, out as int) == share
            &&& done.record == (Record {
                lnrg_accrued: max_int(c.record.lnrg_accrued - lnrg, 0) as u128,
                pending_burn: min_int(
                    c.record.pending_burn + max_int(out - bounty, 0),
                    u128::MAX as int,
                ) as u128,
                ..c.record
            })
            &&& done.lnrg_sold == lnrg && done.realised == out && done.bounty == bounty
            &&& done.did_something
            &&& done == (Compounding {
                record: done.record,
                did_something: true,
                lnrg_sold: lnrg,
                realised: out,
                bounty: done.bounty,
                ..c
            })
            &&& sale_bounty(st, c, out, can_deposit) == bounty
            &&& bounty_effects(c, bounty as u128) == if bounty > 0 {
                seq![
                    Effect::Pay {
                        to: c.caller,
                        amount: bounty as u128,
                        preservation: Preservation::Preserve,
                    },
                ]
            } else {
                Seq::empty()
            }
        }),
{
    lemma_floor_is(out * st.terms.keeper_bounty_bps, 10_000, share);
}

/// A slice takes what it spent off what waits to be burned, and a bounty: the most that
/// the keeper's rate gives of it, where what is left covers that and it reaches the
/// caller. Whatever the venue paid into the launch's own fees meanwhile is kept. The
/// tokens are burned, all of them, and the slice is the launch's last one.
pub proof fn law_slice_comes_off_the_burn(
    st: TreasuryState,
    c: Compounding,
    before: Balance,
    after: Balance,
    tokens: Balance,
    can_deposit: bool,
    spent: int,
    share: int,
)
    requires
        st.treasuries.dom().contains(c.launch_id),
        ({
            let arrived = max_int(st.treasuries[c.launch_id].pending - c.record.pending, 0);
            spent == max_int(min_int(before + arrived, u128::MAX as int) - after, 0)
        }),
        is_largest(share, spent * st.terms.keeper_bounty_bps, 10_000),
    ensures
        ({
            let done = after_burn(st, c, before, after, tokens, can_deposit);
            let left = max_int(c.record.pending_burn - spent, 0);
            let bounty = if share <= left && reaches(st, c, share, can_deposit) {
                share
            } else {
                0
            };
            &&& spent_of(st, c, before, after) == spent
            &&& bounty_of(st, spent) == share
            &&& done == (Compounding {
                record: Record {
                    pending: st.treasuries[c.launch_id].pending,
                    pending_burn: (left - bounty) as u128,
                    last_burn_block: c.now,
                    ..c.record
                },
                did_something: true,
                burned_in: spent as u128,
                tokens_burned: tokens,
                bounty: min_int(c.bounty + bounty, u128::MAX as int) as u128,
                ..c
            })
            &&& burn_effects(st, c, before, after, tokens, can_deposit) == (if tokens > 0 {
                seq![Effect::BurnTokens { amount: tokens }]
            } else {
                Seq::empty()
            }) + (if bounty > 0 {
                seq![
                    Effect::Pay {
                        to: c.caller,
                        amount: bounty as u128,
                        preservation: Preservation::Preserve,
                    },
                ]
            } else {
                Seq::empty()
            })
        }),
{
    lemma_floor_is(spent * st.terms.keeper_bounty_bps, 10_000, share);
    assert(slice_bounty(st, c, spent as u128, can_deposit) <= share);
}

/// A compound begins for every launch that has a treasury, with its claim moved into
/// what it has accrued and nothing else done, short of an overflow.
pub proof fn law_compound_begins_with_the_claim(
    st: TreasuryState,
    caller: AccountId,
    launch_id: LaunchId,
    held: Balance,
    now: BlockNumber,
)
    ensures
        begin_error(st, launch_id, held) == Some(Error::NoTreasury)
            <==> !st.treasuries.dom().contains(launch_id),
        begin_error(st, launch_id, held) is Some ==> begin_error(st, launch_id, held) == Some(
            Error::NoTreasury,
        ) || begin_error(st, launch_id, held) == Some(Error::ArithmeticOverflow),
        begin_error(st, launch_id, held) is None ==> {
            let t = st.treasuries[launch_id];
            let p = harvested(st, held).lnrg_per_share;
            let c = begun(st, caller, launch_id, held, now);
            &&& c.record.lnrg_accrued == claim_of(p, t)
            &&& c.record.lnrg_debt >= t.lnrg_debt && c.record.lnrg_debt >= gross_owed(p, t.shares)
            &&& c.record == (Record {
                lnrg_accrued: c.record.lnrg_accrued,
                lnrg_debt: c.record.lnrg_debt,
                ..t
            })
            &&& c.launch_id == launch_id && c.caller == caller && c.now == now
            &&& !c.did_something && c.lnrg_sold == 0 && c.realised == 0
            &&& c.bounty == 0 && c.burned_in == 0 && c.tokens_burned == 0
        },
{
}

/// A retired treasury with nothing left but less than a minimum balance to burn pays
/// that to the protocol and is empty; every other compound writes its record back as it
/// stands and tells of what it did.
pub proof fn law_compound_closes_or_writes_back(
    st: TreasuryState,
    c: Compounding,
    existential_deposit: Balance,
)
    ensures
        closes(c, existential_deposit) <==> {
            &&& c.record.status == TreasuryStatus::Retired
            &&& c.record.shares == 0 && c.record.lnrg_accrued == 0 && c.record.pending == 0
            &&& 0 < c.record.pending_burn && c.record.pending_burn < existential_deposit
        },
        closes(c, existential_deposit) ==> {
            &&& finished_record(c, existential_deposit) == (Record { pending_burn: 0, ..c.record })
            &&& finish_effects(st, c, existential_deposit) == seq![
                Effect::Pay {
                    to: st.config.protocol_recipient,
                    amount: c.record.pending_burn,
                    preservation: Preservation::Preserve,
                },
                Effect::Emit(
                    Event::DustSwept { launch_id: c.launch_id, amount: c.record.pending_burn },
                ),
            ]
        },
        !closes(c, existential_deposit) ==> {
            &&& finished_record(c, existential_deposit) == c.record
            &&& finish_effects(st, c, existential_deposit) == seq![
                Effect::Emit(
                    Event::Compounded {
                        launch_id: c.launch_id,
                        lnrg_sold: c.lnrg_sold,
                        vtrs_realised: c.realised,
                        bounty: c.bounty,
                        vtrs_burned_in: c.burned_in,
                        tokens_burned: c.tokens_burned,
                    },
                ),
            ]
        },
{
}

} // verus!
