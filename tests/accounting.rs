use tuxedo::accounting::{
    assets_for_shares, basis_reduction, share_value, shares_minted, split_yield,
};
use tuxedo::{VaultError, BPS_DENOMINATOR, PLATFORM_FEE_BPS, SCALE};

#[test]
fn share_value_is_par_without_shares() {
    assert_eq!(share_value(0, 0), Ok(SCALE));
    assert_eq!(share_value(12_345, 0), Ok(SCALE));
}

#[test]
fn share_value_scales_assets_per_share() {
    assert_eq!(share_value(1_100, 1_000), Ok(11_000_000));
    assert_eq!(share_value(1, 3), Ok(3_333_333));
    assert_eq!(share_value(i128::MAX / SCALE + 1, 1), Err(VaultError::ArithmeticOverflow));
}

#[test]
fn minted_shares_round_down() {
    assert_eq!(shares_minted(600, SCALE), Ok(600));
    assert_eq!(shares_minted(10, 3_333_333), Ok(30));
    assert_eq!(shares_minted(7, 0), Ok(7));
    assert_eq!(shares_minted(1, 20_000_000), Ok(0));
}

#[test]
fn assets_for_shares_round_down() {
    assert_eq!(assets_for_shares(600, SCALE), Ok(600));
    assert_eq!(assets_for_shares(30, 3_333_333), Ok(9));
    assert_eq!(assets_for_shares(i128::MAX, 2), Err(VaultError::ArithmeticOverflow));
}

#[test]
fn basis_reduction_is_proportional() {
    assert_eq!(basis_reduction(1_000, 600, 1_000), Ok(600));
    assert_eq!(basis_reduction(1_000, 1, 3), Ok(333));
    // With no shares outstanding the whole basis goes.
    assert_eq!(basis_reduction(100, 0, 0), Ok(100));
    assert_eq!(basis_reduction(i128::MAX, 2, 4), Err(VaultError::ArithmeticOverflow));
}

#[test]
fn yield_split_takes_two_percent() {
    assert_eq!(PLATFORM_FEE_BPS * 100 / BPS_DENOMINATOR, 2);
    assert_eq!(split_yield(1_100_000_000, 1_000_000_000), Ok((100_000_000, 2_000_000)));
    assert_eq!(split_yield(1_000, 1_000), Err(VaultError::NoYieldToDistribute));
    assert_eq!(split_yield(10, 1_000), Err(VaultError::NoYieldToDistribute));
    assert_eq!(split_yield(1_049, 1_000), Err(VaultError::NoYieldToDistribute));
    assert_eq!(split_yield(i128::MAX, 0), Err(VaultError::ArithmeticOverflow));
}
