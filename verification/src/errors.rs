//! Every failure of the ledger is an explicit result variant; no operation
//! panics and a failed call leaves the state unchanged.

use vstd::prelude::*;

verus! {

/// The error taxonomy of the ledger: authorization, lifecycle state, input
/// validation, not-found, conflict, capacity, financial and consistency
/// failures. Every error is surfaced to the caller verbatim.
#[derive(Clone, Copy, Debug, PartialEq, Eq, Structural)]
pub enum Error {
    /// The caller is not the administrative owner (or the pending nominee).
    NotOwner,
    /// Claims are suspended while the pause switch is engaged.
    ContractIsPaused,
    /// A structural parameter (base payment, periodicity) was zero.
    InvalidParams,
    /// An initial beneficiary's weight list does not match the multiplier count.
    InvalidMultipliersLength,
    /// The same account appears twice among the initial beneficiaries.
    DuplicatedBeneficiaries,
    /// The same multiplier id appears twice in one weight list.
    DuplicatedMultipliers,
    /// No beneficiary is registered under the given account.
    AccountNotFound,
    /// No multiplier is registered under the given id.
    MultiplierNotFound,
    /// A beneficiary is already registered under the given account.
    AccountAlreadyExists,
    /// The multiplier is already scheduled for deactivation.
    MultiplierAlreadyDeactivated,
    /// Registering one more beneficiary would exceed the bound.
    MaxBeneficiariesExceeded,
    /// Registering one more multiplier would exceed the bound.
    MaxMultipliersExceeded,
    /// The claimed amount exceeds the treasury balance.
    NotEnoughBalanceInTreasury,
    /// The claimed amount exceeds what the beneficiary is owed.
    ClaimedAmountIsBiggerThanAvailable,
    /// The host's transfer primitive reported a failure.
    TransferFailed,
    /// Some beneficiary has not settled the current period.
    NotAllClaimedInPeriod,
    /// The multiplier has no deactivation schedule set.
    MultiplierNotDeactivated,
    /// The multiplier's deactivation block has not yet passed.
    MultiplierNotExpired,
    /// Some beneficiary's record is not up to date with the current period.
    PaymentsNotUpToDate,
}

} // verus!
