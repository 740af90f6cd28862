use vstd::prelude::*;

use crate::error::{int_result, VaultError};

verus! {

/// Fixed-point scale of a share value: one asset unit per share (7 decimals).
pub const SCALE: i128 = 10_000_000;

/// Platform fee on distributed yield, in basis points (2%).
pub const PLATFORM_FEE_BPS: i128 = 200;

/// One hundred percent, in basis points.
pub const BPS_DENOMINATOR: i128 = 10_000;

pub open spec fn fits_i128(x: int) -> bool {
    i128::MIN <= x <= i128::MAX
}

/// Assets per share, scaled by `SCALE`; par when no share exists.
pub open spec fn share_value_of(assets: int, total_shares: int) -> int {
    if total_shares == 0 {
        SCALE as int
    } else {
        assets * SCALE / total_shares
    }
}

/// Outcome of computing a share value with checked `i128` arithmetic.
pub open spec fn share_value_outcome(assets: int, total_shares: int) -> Result<int, VaultError> {
    if total_shares == 0 {
        Ok(SCALE as int)
    } else if !fits_i128(assets * SCALE) {
        Err(VaultError::ArithmeticOverflow)
    } else {
        Ok(share_value_of(assets, total_shares))
    }
}

/// Shares minted for a deposit of `amount` at share value `value`.
pub open spec fn shares_minted_of(amount: int, value: int) -> int {
    if value == 0 {
        amount
    } else {
        amount * SCALE / value
    }
}

pub open spec fn shares_minted_outcome(amount: int, value: int) -> Result<int, VaultError> {
    if value != 0 && !fits_i128(amount * SCALE) {
        Err(VaultError::ArithmeticOverflow)
    } else {
        Ok(shares_minted_of(amount, value))
    }
}

/// Assets paid out for burning `shares` at share value `value`.
pub open spec fn assets_for_shares_of(shares: int, value: int) -> int {
    shares * value / (SCALE as int)
}

pub open spec fn assets_for_shares_outcome(shares: int, value: int) -> Result<int, VaultError> {
    if !fits_i128(shares * value) {
        Err(VaultError::ArithmeticOverflow)
    } else {
        Ok(assets_for_shares_of(shares, value))
    }
}

/// The part of the deposit basis that leaves with `shares` out of `total_shares`.
pub open spec fn basis_reduction_of(basis: int, shares: int, total_shares: int) -> int {
    if total_shares > 0 {
        basis * shares / total_shares
    } else {
        basis
    }
}

pub open spec fn basis_reduction_outcome(basis: int, shares: int, total_shares: int) -> Result<
    int,
    VaultError,
> {
    if total_shares > 0 && !fits_i128(basis * shares) {
        Err(VaultError::ArithmeticOverflow)
    } else {
        Ok(basis_reduction_of(basis, shares, total_shares))
    }
}

/// The platform's cut of `yield_earned`.
pub open spec fn platform_fee_of(yield_earned: int) -> int {
    yield_earned * PLATFORM_FEE_BPS / (BPS_DENOMINATOR as int)
}

/// Outcome of measuring yield against the basis: `(yield_earned, platform_fee)`.
pub open spec fn yield_split_outcome(live_assets: int, basis: int) -> Result<(int, int), VaultError> {
    let y = live_assets - basis;
    if y <= 0 {
        Err(VaultError::NoYieldToDistribute)
    } else if !fits_i128(y * PLATFORM_FEE_BPS) {
        Err(VaultError::ArithmeticOverflow)
    } else if platform_fee_of(y) <= 0 {
        Err(VaultError::NoYieldToDistribute)
    } else {
        Ok((y, platform_fee_of(y)))
    }
}

/// Outcome of a deposit of `amount` into a vault holding `live_assets` against
/// `total_shares` shares and `basis`: the shares minted, or why it is refused.
pub open spec fn deposit_outcome(amount: int, live_assets: int, total_shares: int, basis: int) -> Result<
    int,
    VaultError,
> {
    if amount <= 0 {
        Err(VaultError::InvalidAmount)
    } else {
        match share_value_outcome(live_assets, total_shares) {
            Err(e) => Err(e),
            Ok(v) => match shares_minted_outcome(amount, v) {
                Err(e) => Err(e),
                Ok(m) => if m <= 0 {
                    Err(VaultError::InvalidAmount)
                } else if !fits_i128(total_shares + m) || !fits_i128(basis + amount) {
                    Err(VaultError::ArithmeticOverflow)
                } else {
                    Ok(m)
                },
            },
        }
    }
}

/// Outcome of burning `shares` out of a balance of `held`: the assets returned,
/// or why it is refused.
pub open spec fn withdraw_outcome(
    shares: int,
    held: int,
    live_assets: int,
    total_shares: int,
    basis: int,
) -> Result<int, VaultError> {
    if shares <= 0 {
        Err(VaultError::InvalidAmount)
    } else if held < shares {
        Err(VaultError::InsufficientShares)
    } else {
        match share_value_outcome(live_assets, total_shares) {
            Err(e) => Err(e),
            Ok(v) => match assets_for_shares_outcome(shares, v) {
                Err(e) => Err(e),
                Ok(a) => if a <= 0 {
                    Err(VaultError::InvalidAmount)
                } else if live_assets < a {
                    Err(VaultError::InsufficientBalance)
                } else {
                    match basis_reduction_outcome(basis, shares, total_shares) {
                        Err(e) => Err(e),
                        Ok(_) => Ok(a),
                    }
                },
            },
        }
    }
}

/// Current share value for `assets` held against `total_shares` shares.
pub fn share_value(assets: i128, total_shares: i128) -> (r: Result<i128, VaultError>)
    requires
        assets >= 0,
        total_shares >= 0,
    ensures
        int_result(r) == share_value_outcome(assets as int, total_shares as int),
        r matches Ok(v) ==> v >= 0,
{
    if total_shares == 0 {
        return Ok(SCALE);
    }
    match assets.checked_mul(SCALE) {
        Some(p) => Ok(p / total_shares),
        None => Err(VaultError::ArithmeticOverflow),
    }
}

/// Shares that a deposit of `amount` buys at share value `value`, rounded down.
pub fn shares_minted(amount: i128, value: i128) -> (r: Result<i128, VaultError>)
    requires
        amount > 0,
        value >= 0,
    ensures
        int_result(r) == shares_minted_outcome(amount as int, value as int),
{
    if value == 0 {
        return Ok(amount);
    }
    match amount.checked_mul(SCALE) {
        Some(p) => Ok(p / value),
        None => Err(VaultError::ArithmeticOverflow),
    }
}

/// Assets that burning `shares` returns at share value `value`, rounded down.
pub fn assets_for_shares(shares: i128, value: i128) -> (r: Result<i128, VaultError>)
    requires
        shares > 0,
        value >= 0,
    ensures
        int_result(r) == assets_for_shares_outcome(shares as int, value as int),
{
    match shares.checked_mul(value) {
        Some(p) => Ok(p / SCALE),
        None => Err(VaultError::ArithmeticOverflow),
    }
}

/// Proportional part of `basis` that `shares` out of `total_shares` carry away.
pub fn basis_reduction(basis: i128, shares: i128, total_shares: i128) -> (r: Result<i128, VaultError>)
    requires
        basis >= 0,
        shares >= 0,
        total_shares >= 0,
    ensures
        int_result(r) == basis_reduction_outcome(basis as int, shares as int, total_shares as int),
{
    if total_shares > 0 {
        match basis.checked_mul(shares) {
            Some(p) => Ok(p / total_shares),
            None => Err(VaultError::ArithmeticOverflow),
        }
    } else {
        Ok(basis)
    }
}

/// Yield accrued above `basis` and the platform fee taken from it.
pub fn split_yield(live_assets: i128, basis: i128) -> (r: Result<(i128, i128), VaultError>)
    requires
        live_assets >= 0,
        basis >= 0,
    ensures
        match r {
            Ok((y, f)) => yield_split_outcome(live_assets as int, basis as int) == Ok::<
                (int, int),
                VaultError,
            >((y as int, f as int)),
            Err(e) => yield_split_outcome(live_assets as int, basis as int) == Err::<
                (int, int),
                VaultError,
            >(e),
        },
{
    let yield_earned = live_assets - basis;
    if yield_earned <= 0 {
        return Err(VaultError::NoYieldToDistribute);
    }
    let fee = match yield_earned.checked_mul(PLATFORM_FEE_BPS) {
        Some(p) => p / BPS_DENOMINATOR,
        None => {
            return Err(VaultError::ArithmeticOverflow);
        },
    };
    if fee <= 0 {
        return Err(VaultError::NoYieldToDistribute);
    }
    Ok((yield_earned, fee))
}

} // verus!

verus! {

/// Shares never claim more than the vault holds: the share value times the
/// outstanding shares, unscaled, is at most the live assets.
pub proof fn lemma_shares_backed(assets: int, total_shares: int)
    requires
        assets >= 0,
        total_shares >= 0,
    ensures
        share_value_of(assets, total_shares) >= 0,
        share_value_of(assets, total_shares) * total_shares / (SCALE as int) <= assets,
{
    let s = SCALE as int;
    if total_shares == 0 {
        assert(s * 0 / s == 0);
    } else {
        let v = assets * s / total_shares;
        assert(v >= 0) by (nonlinear_arith)
            requires
                assets >= 0,
                total_shares > 0,
                s > 0,
                v == assets * s / total_shares,
        ;
        assert(v * total_shares <= assets * s) by (nonlinear_arith)
            requires
                assets >= 0,
                total_shares > 0,
                s > 0,
                v == assets * s / total_shares,
        ;
        assert(v * total_shares / s <= assets) by (nonlinear_arith)
            requires
                v * total_shares <= assets * s,
                v >= 0,
                total_shares > 0,
                s > 0,
        ;
    }
}

/// A first deposit into a vault with no shares mints exactly `amount` shares;
/// if the vault held no assets, the share value is then par.
pub proof fn lemma_first_deposit(amount: int, live_assets: int, basis: int)
    requires
        amount > 0,
        live_assets >= 0,
        basis >= 0,
        fits_i128(amount * SCALE),
        fits_i128(basis + amount),
    ensures
        deposit_outcome(amount, live_assets, 0, basis) == Ok::<int, VaultError>(amount),
        live_assets == 0 ==> share_value_outcome(live_assets + amount, amount) == Ok::<
            int,
            VaultError,
        >(SCALE as int),
{
    let s = SCALE as int;
    assert(amount * s / s == amount) by (nonlinear_arith)
        requires
            s > 0,
    ;
    assert(amount * s / amount == s) by (nonlinear_arith)
        requires
            amount > 0,
    ;
}

/// In a vault whose live assets equal its outstanding shares (share value at
/// par, the empty vault included), depositing `amount` and at once withdrawing
/// every share it minted returns exactly `amount`.
pub proof fn lemma_round_trip_at_par(amount: int, live_assets: int, held: int, basis: int)
    requires
        amount > 0,
        live_assets >= 0,
        0 <= held <= live_assets,
        basis >= 0,
        fits_i128((live_assets + amount) * SCALE),
        fits_i128((basis + amount) * amount),
    ensures
        deposit_outcome(amount, live_assets, live_assets, basis) == Ok::<int, VaultError>(amount),
        withdraw_outcome(
            amount,
            held + amount,
            live_assets + amount,
            live_assets + amount,
            basis + amount,
        ) == Ok::<int, VaultError>(amount),
{
    let s = SCALE as int;
    let l = live_assets;
    assert(amount * s <= (l + amount) * s) by (nonlinear_arith)
        requires
            l >= 0,
            s > 0,
    ;
    assert(l * s <= (l + amount) * s) by (nonlinear_arith)
        requires
            amount >= 0,
            s > 0,
    ;
    assert(amount * s / s == amount) by (nonlinear_arith)
        requires
            s > 0,
    ;
    if l > 0 {
        assert(l * s / l == s) by (nonlinear_arith)
            requires
                l > 0,
        ;
    }
    assert((l + amount) * s / (l + amount) == s) by (nonlinear_arith)
        requires
            l + amount > 0,
    ;
    assert(l + amount <= (l + amount) * s) by (nonlinear_arith)
        requires
            l + amount >= 0,
            s >= 1,
    ;
    assert(basis + amount <= (basis + amount) * amount) by (nonlinear_arith)
        requires
            basis + amount >= 0,
            amount >= 1,
    ;
    assert(0 <= (basis + amount) * amount) by (nonlinear_arith)
        requires
            basis + amount >= 0,
            amount >= 0,
    ;
}

/// After a distribution succeeds, the fee has left the vault and the rest of the
/// yield has joined the basis, so a second call with no asset change in between
/// finds no yield.
pub proof fn lemma_no_double_distribution(live_assets: int, basis: int)
    requires
        yield_split_outcome(live_assets, basis) is Ok,
    ensures
        ({
            let (y, f) = yield_split_outcome(live_assets, basis)->Ok_0;
            yield_split_outcome(live_assets - f, basis + y - f) == Err::<(int, int), VaultError>(
                VaultError::NoYieldToDistribute,
            )
        }),
{
}

} // verus!
