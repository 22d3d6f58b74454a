//! Bonding-curve pricing.

use power_plant::curve::{
    fee_on, invariant_k, quote_buy, quote_sell, raise_at_sellout, MathError, State, Terms,
    MAX_TRADE_IN,
};
use power_plant::wide::U256;

const UNIT: u128 = 1_000_000_000_000_000_000;
const SELLABLE: u128 = 800_000_000 * UNIT;

fn terms() -> Terms {
    Terms { virtual_quote: 1_000 * UNIT, token_floor: 266_666_667 * UNIT, fee_bps: 100 }
}

fn value(k: U256) -> sp_core::U256 {
    sp_core::U256(k.limbs)
}

#[test]
fn buy_then_sell_back_never_pays_more_than_taken() {
    let t = terms();
    let mut s = State { real_quote: 0, tokens_remaining: SELLABLE };
    let b = quote_buy(&t, &s, 10 * UNIT).unwrap();
    s.real_quote += b.quote_net_used;
    s.tokens_remaining -= b.tokens_out;
    let sl = quote_sell(&t, &s, b.tokens_out).unwrap();
    assert!(sl.quote_gross <= b.quote_net_used);
    assert!(sl.quote_out < 10 * UNIT);
}

#[test]
fn crossing_charges_no_more_than_offered_and_raise_matches_target() {
    let t = terms();
    let s = State { real_quote: 0, tokens_remaining: SELLABLE };
    let b = quote_buy(&t, &s, 1_000_000 * UNIT).unwrap();
    assert!(b.crossed);
    assert_eq!(b.tokens_out, SELLABLE);
    assert!(b.quote_used <= 1_000_000 * UNIT);
    let r = raise_at_sellout(&t, SELLABLE).unwrap();
    assert_eq!(b.quote_net_used, r);
    let target = 3_000 * UNIT;
    let short = target - r;
    assert!(short * 1_000_000_000 <= target * 2, "raise {} vs target {} (short {})", r, target, short);
    assert!(short * 1_000_000_000 >= target, "raise {} vs target {} (short {})", r, target, short);
}

#[test]
fn k_never_decreases_over_a_random_walk() {
    let t = terms();
    let mut s = State { real_quote: 0, tokens_remaining: SELLABLE };
    let mut x: u64 = 0x9E3779B97F4A7C15;
    let mut next = || {
        x ^= x << 13;
        x ^= x >> 7;
        x ^= x << 17;
        x
    };
    for _ in 0..5_000 {
        let k0 = invariant_k(&t, &s).unwrap();
        let r = next();
        if r % 3 != 0 || s.tokens_remaining == SELLABLE {
            let amt = match r % 5 {
                0 => 1,
                1 => (r % 1_000) as u128 + 1,
                2 => (r as u128 % 50) * UNIT + 1,
                _ => (r as u128 % 5_000) * UNIT,
            };
            match quote_buy(&t, &s, amt) {
                Ok(b) => {
                    s.real_quote += b.quote_net_used;
                    s.tokens_remaining -= b.tokens_out;
                    if b.crossed {
                        assert_eq!(s.tokens_remaining, 0);
                        break;
                    }
                },
                Err(MathError::Unquotable) | Err(MathError::ZeroAmount) => {},
                Err(e) => panic!("buy {amt}: {e:?}"),
            }
        } else {
            let sold = SELLABLE - s.tokens_remaining;
            if sold == 0 {
                continue;
            }
            let amt = match r % 4 {
                0 => 1,
                1 => sold,
                _ => (r as u128 % sold).max(1),
            };
            match quote_sell(&t, &s, amt) {
                Ok(sl) => {
                    s.real_quote -= sl.quote_gross;
                    s.tokens_remaining += amt;
                },
                Err(MathError::Unquotable) => {},
                Err(e) => panic!("sell {amt}: {e:?}"),
            }
        }
        let k1 = invariant_k(&t, &s).unwrap();
        assert!(value(k1) >= value(k0), "k decreased");
    }
}

#[test]
fn fees_round_up() {
    assert_eq!(fee_on(0, 100), Ok(0));
    assert_eq!(fee_on(1, 100), Ok(1));
    assert_eq!(fee_on(10_000, 100), Ok(100));
    assert_eq!(fee_on(10_001, 100), Ok(101));
    assert_eq!(fee_on(u128::MAX, 0), Ok(0));
    assert_eq!(fee_on(u128::MAX, 2), Err(MathError::Overflow));
}

#[test]
fn a_small_buy_and_sell_by_hand() {
    let t = Terms { virtual_quote: 1_000, token_floor: 1_000, fee_bps: 100 };
    let s = State { real_quote: 0, tokens_remaining: 3_000 };
    // fee 10, net 990, k = 4_000_000, 4_000_000 / 1_990 = 2_010.05
    let b = quote_buy(&t, &s, 1_000).unwrap();
    assert_eq!((b.fee, b.quote_net_used, b.quote_used), (10, 990, 1_000));
    assert_eq!((b.tokens_out, b.crossed), (4_000 - 2_011, false));
    let s1 = State { real_quote: 990, tokens_remaining: 3_000 - 1_989 };
    // k = 1_990 * 2_011 = 4_001_890; 4_001_890 / 4_000 = 1_000.4
    let q = quote_sell(&t, &s1, 1_989).unwrap();
    assert_eq!(q.quote_gross, 1_990 - 1_001);
    assert_eq!((q.fee, q.quote_out), (10, 979));
    assert_eq!(value(invariant_k(&t, &s1).unwrap()), sp_core::U256::from(4_001_890u128));
}

#[test]
fn a_crossing_buy_by_hand() {
    let t = Terms { virtual_quote: 1_000, token_floor: 1_000, fee_bps: 100 };
    let s = State { real_quote: 0, tokens_remaining: 3_000 };
    let b = quote_buy(&t, &s, 1_000_000).unwrap();
    assert!(b.crossed);
    assert_eq!(b.tokens_out, 3_000);
    assert_eq!(b.quote_net_used, 3_000);
    // ceil(3_000 * 100 / 9_900) = 31
    assert_eq!((b.fee, b.quote_used), (31, 3_031));
    assert_eq!(raise_at_sellout(&t, 3_000), Some(3_000));
}

#[test]
fn every_buy_error_has_its_input() {
    let t = terms();
    let s = State { real_quote: 0, tokens_remaining: SELLABLE };
    assert_eq!(quote_buy(&t, &s, 0), Err(MathError::ZeroAmount));
    assert_eq!(quote_buy(&t, &s, MAX_TRADE_IN + 1), Err(MathError::Overflow));
    let sold_out = State { real_quote: 0, tokens_remaining: 0 };
    assert_eq!(quote_buy(&t, &sold_out, 1), Err(MathError::BadState));
    let all_fee = Terms { fee_bps: 10_000, ..t };
    assert_eq!(quote_buy(&all_fee, &s, 100), Err(MathError::BadState));
    assert_eq!(quote_buy(&t, &s, 1), Err(MathError::Unquotable));
    let full = State { real_quote: u128::MAX, tokens_remaining: 1 };
    assert_eq!(quote_buy(&t, &full, UNIT), Err(MathError::BadState));
    let edge = Terms { virtual_quote: 0, token_floor: 1, fee_bps: 0 };
    let near = State { real_quote: u128::MAX, tokens_remaining: 1 };
    assert_eq!(quote_buy(&edge, &near, 1), Err(MathError::Overflow));
}

#[test]
fn every_sell_error_has_its_input() {
    let t = terms();
    let s = State { real_quote: 10 * UNIT, tokens_remaining: SELLABLE / 2 };
    assert_eq!(quote_sell(&t, &s, 0), Err(MathError::ZeroAmount));
    let all_fee = Terms { fee_bps: 10_000, ..t };
    assert_eq!(quote_sell(&all_fee, &s, 1), Err(MathError::BadState));
    let empty = State { real_quote: u128::MAX, tokens_remaining: 1 };
    assert_eq!(quote_sell(&t, &empty, 1), Err(MathError::BadState));
    assert_eq!(quote_sell(&t, &s, u128::MAX), Err(MathError::Overflow));
    assert_eq!(quote_sell(&t, &s, 1), Err(MathError::Unquotable));
}

#[test]
fn sums_that_leave_the_range_have_no_k_and_no_raise() {
    let t = terms();
    assert!(invariant_k(&t, &State { real_quote: u128::MAX, tokens_remaining: 0 }).is_none());
    assert_eq!(raise_at_sellout(&t, u128::MAX), None);
    let steep = Terms { virtual_quote: u128::MAX, token_floor: 1, fee_bps: 0 };
    assert_eq!(raise_at_sellout(&steep, 1), None);
}

#[test]
fn a_raise_whose_end_reserve_does_not_fit_is_none() {
    let t = Terms { virtual_quote: u128::MAX, token_floor: 1, fee_bps: 0 };
    assert_eq!(raise_at_sellout(&t, 1), None);
    assert_eq!(raise_at_sellout(&t, 0), Some(0));
    let half = Terms { virtual_quote: u128::MAX / 2, token_floor: 1, fee_bps: 0 };
    assert_eq!(raise_at_sellout(&half, 1), Some(u128::MAX / 2));
    assert_eq!(raise_at_sellout(&half, 2), None);
    assert_eq!(raise_at_sellout(&half, u128::MAX), None);
}
