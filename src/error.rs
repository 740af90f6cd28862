use vstd::prelude::*;

verus! {

/// Why a vault operation was refused. A refused operation changes nothing.
#[derive(Clone, Copy, Debug, PartialEq, Eq, PartialOrd, Ord, Structural)]
pub enum VaultError {
    AlreadyInitialized,
    NotAuthorized,
    InvalidAmount,
    InsufficientShares,
    InsufficientBalance,
    NoYieldToDistribute,
    InvalidAsset,
    TransferFailed,
    DivisionByZero,
    ArithmeticOverflow,
}

/// An `i128` outcome read as a mathematical integer.
pub open spec fn int_result(r: Result<i128, VaultError>) -> Result<int, VaultError> {
    match r {
        Ok(v) => Ok(v as int),
        Err(e) => Err(e),
    }
}

} // verus!
