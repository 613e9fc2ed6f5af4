//! The error taxonomy of the lending core.
//!
//! Every entry point returns a single outcome: success, or one specific
//! error from this list.  The caller can tell from the kind whether to
//! retry with a smaller amount (capacity and risk rejections), refresh the
//! price (oracle failures), or treat the failure as a configuration bug.

use vstd::prelude::*;

verus! {

/// One specific failure of a core operation.
#[derive(Clone, Copy, PartialEq, Eq, Structural, Debug)]
pub enum MarginfiError {
    /// Intermediate arithmetic overflowed or lost required precision.
    MathError,
    /// A deposit would push the bank's total assets above its deposit limit.
    BankAssetCapacityExceeded,
    /// A borrow would push the bank's total liabilities above its borrow limit.
    BankLiabilityCapacityExceeded,
    /// The bank's liquidity vault does not hold the tokens the action would pay out.
    BankLiquidityInsufficient,
    /// The bank is paused; no action may touch it.
    BankPaused,
    /// The bank is in reduce-only state; actions that grow exposure are refused.
    BankReduceOnly,
    /// The account is disabled.
    AccountDisabled,
    /// A balance was asked to do something its share state does not allow.
    IllegalBalanceState,
    /// The one-isolated-liability rule would be violated.
    IsolatedAccountIllegalState,
    /// A repay-all was requested but the balance holds no liability.
    NoLiabilityFound,
    /// A withdraw-all was requested but the balance holds no assets.
    NoAssetFound,
    /// The account has no balance for the requested bank.
    BankAccountNotFound,
    /// The account has no free balance slot left.
    LendingAccountBalanceSlotsFull,
    /// The initial-requirement health check rejected the action.
    RiskEngineInitRejected,
    /// The liquidation is not permitted: healthy target, wrong banks,
    /// insufficient collateral, or too severe a seizure.
    IllegalLiquidation,
    /// The account does not qualify for bankruptcy handling.
    AccountNotBankrupt,
    /// The flag is not user-settable.
    IllegalFlag,
    /// The flashloan bracket is malformed.
    IllegalFlashloan,
    /// The account authority may not be transferred.
    IllegalAccountAuthorityTransfer,
    /// The price snapshot is older than the bank tolerates.
    StaleOracle,
    /// The price feed does not match the bank's configured oracle.
    OracleValidationFailed,
    /// A referenced bank has no price snapshot supplied.
    MissingPrice,
    /// A configuration parameter is out of its allowed range.
    InvalidConfig,
}

} // verus!
