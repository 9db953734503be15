use vstd::prelude::*;

verus! {

/// Failure taxonomy of the ledger core.
///
/// Every precondition violation aborts the operation before any store
/// mutation and is surfaced as one of these values; the core never retries.
#[derive(Clone, Copy, Debug, PartialEq, Eq)]
pub enum ContractError {
    /// A singleton (pool configuration or token-service address) was read
    /// before ever being set.
    Uninitialized,
    /// A supplied identity fails the well-formedness rule.
    InvalidAddress,
    /// A withdrawal was attempted by an identity with no registered balance.
    Unauthorized,
    /// A withdrawal amount exceeds the user's recorded balance.
    InsufficientFunds,
    /// A registered identity has no record, or a ranking was requested while
    /// no user is registered.
    CorruptedState,
}

} // verus!
