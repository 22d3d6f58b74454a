use power_plant::settlement::{split_slashed_bond_u128, split_solver_profit_u128};

#[test]
fn split_slashed_bond_standard_case() {
    let (treasury, slasher) = split_slashed_bond_u128(1_000, 1_000);
    assert_eq!(treasury, 900);
    assert_eq!(slasher, 100);
}

#[test]
fn split_slashed_bond_zero_bond() {
    let (treasury, slasher) = split_slashed_bond_u128(0, 1_000);
    assert_eq!(treasury, 0);
    assert_eq!(slasher, 0);
}

#[test]
fn split_slashed_bond_zero_reward() {
    let (treasury, slasher) = split_slashed_bond_u128(1_000, 0);
    assert_eq!(treasury, 1_000);
    assert_eq!(slasher, 0);
}

#[test]
fn split_slashed_bond_full_reward() {
    let (treasury, slasher) = split_slashed_bond_u128(1_000, 10_000);
    assert_eq!(treasury, 0);
    assert_eq!(slasher, 1_000);
}

#[test]
fn split_solver_profit_standard_case() {
    let (solver, fee) = split_solver_profit_u128(100, 2_000);
    assert_eq!(solver, 80);
    assert_eq!(fee, 20);
}

#[test]
fn split_solver_profit_zero_profit() {
    let (solver, fee) = split_solver_profit_u128(0, 2_000);
    assert_eq!(solver, 0);
    assert_eq!(fee, 0);
}

#[test]
fn split_solver_profit_rounding_behavior() {
    // Dust on small fills goes to the solver, not the protocol.
    let (solver, fee) = split_solver_profit_u128(1, 2_000);
    assert_eq!(solver, 1);
    assert_eq!(fee, 0);
}

#[test]
fn split_slashed_bond_large_values_no_overflow() {
    let huge = 1_000_000_000_000_000_000_000_000_000_000u128;
    let (treasury, slasher) = split_slashed_bond_u128(huge, 1_000);
    assert_eq!(treasury + slasher, huge);
    assert_eq!(slasher, huge / 10);
}

#[test]
fn a_rate_above_one_hands_out_no_more_than_there_is() {
    assert_eq!(split_slashed_bond_u128(1_000, 20_000), (0, 1_000));
    assert_eq!(split_slashed_bond_u128(1_000, 10_001), (0, 1_000));
    assert_eq!(split_solver_profit_u128(u128::MAX, 20_000), (0, u128::MAX));
}

#[test]
fn a_split_is_exact_where_the_product_needs_more_than_its_type() {
    let (rest, reward) = split_slashed_bond_u128(u128::MAX, 1_000);
    assert_eq!(reward, u128::MAX / 10);
    assert_eq!(rest, u128::MAX - u128::MAX / 10);
}
