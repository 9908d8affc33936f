use vstd::prelude::*;

verus! {

/// Every way an operation on the pool can fail.
#[derive(Clone, Copy, Debug, PartialEq, Eq, Structural)]
pub enum LPError {
    AlreadyInitialized,
    AmountMustBePositive,
    AddressNotRegistered,
    BalanceNotAvailableForAmountRequested,
    BorrowerAlreadyRegistered,
    BorrowerNotRegistered,
    InsufficientBalance,
    LoanNotFoundOrExists,
    LenderAlreadyRegistered,
    LenderNotRegistered,
    AdminNotFound,
    TokenNotFound,
    LenderNotFoundInContributions,
    LenderBalanceNotFound,
    LenderNotFound,
    BorrowerNotFound,
    BorrowerDisabled,
    LenderDisabled,
    LoanAmountOutsideWithdrawalLimits,
    VaultNotFound,
    OverflowError,
    UnderflowError,
}

} // verus!
