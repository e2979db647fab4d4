use vstd::prelude::*;

verus! {

/// The errors with which a vault operation is refused.
#[derive(Clone, Copy, Debug, PartialEq, Eq, Structural)]
pub enum ContractError {
    NotInitialized,
    AlreadyInitialized,
    NoAssetAllocation,
    RoleNotFound,
    Unauthorized,
    AmountNotAllowed,
    InsufficientBalance,
    WrongAmountsLength,
    InsufficientAmount,
    NoOptimalAmounts,
    AmountOverTotalSupply,
    ArithmeticError,
    StrategyNotFound,
    DuplicatedAsset,
    DuplicatedStrategy,
    MaximumFeeExceeded,
    /// An amount handed in a host vector is not an `i128`.
    ConversionError,
}

} // verus!
