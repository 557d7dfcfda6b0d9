use vstd::prelude::*;

verus! {

/// Why a vault operation was refused. A refused operation changes nothing.
#[derive(Clone, Copy, Debug, PartialEq, Eq, Structural)]
pub enum VaultError {
    /// An operation other than `initialize` ran before the vault was initialised.
    NotInitialized,
    /// `initialize` ran on a vault that is already initialised.
    AlreadyInitialized,
    /// The recorded storage layout version is not one this code supports.
    UnsupportedStorageVersion,
    /// An admin-only operation named an address other than the admin.
    NotAuthorized,
    /// A deposit or a new lock was attempted while the emergency pause is active.
    ContractPaused,
    /// A deposit of zero or a negative amount.
    InvalidDepositAmount,
    /// A withdrawal of zero or a negative amount.
    InvalidWithdrawalAmount,
    /// A lock of zero or a negative amount.
    InvalidLockAmount,
    /// A pause of zero seconds.
    InvalidPauseDuration,
    /// A withdrawal larger than the available balance.
    InsufficientBalance,
    /// A lock larger than the available balance.
    InsufficientBalanceToLock,
    /// A lock whose unlock time is not after the current time.
    UnlockTimeNotInFuture,
    /// No lock with the requested id exists for the user.
    LockNotFound,
    /// The requested lock has not reached its unlock time.
    LockNotMatured,
    /// An amount, a sum, a lock id or a time left the range of its integer type.
    ArithmeticOverflow,
}

impl VaultError {
    /// The diagnostic text that the contract reports for this refusal.
    pub fn message(&self) -> (m: &'static str)
        ensures
            m@ == error_message(*self)@,
    {
        match self {
            VaultError::NotInitialized => "Contract is not initialized",
            VaultError::AlreadyInitialized => "Contract is already initialized",
            VaultError::UnsupportedStorageVersion => "Unsupported storage version",
            VaultError::NotAuthorized => "Not authorized",
            VaultError::ContractPaused => "Contract is paused",
            VaultError::InvalidDepositAmount => "Deposit amount must be greater than zero",
            VaultError::InvalidWithdrawalAmount => "Withdrawal amount must be greater than zero",
            VaultError::InvalidLockAmount => "Lock amount must be greater than zero",
            VaultError::InvalidPauseDuration => "Pause duration must be greater than zero",
            VaultError::InsufficientBalance => "Insufficient balance",
            VaultError::InsufficientBalanceToLock => "Insufficient balance to lock",
            VaultError::UnlockTimeNotInFuture => "Unlock time must be in the future",
            VaultError::LockNotFound => "Lock not found",
            VaultError::LockNotMatured => "Lock has not matured yet",
            VaultError::ArithmeticOverflow => "attempt to add with overflow",
        }
    }
}

/// The diagnostic text of each refusal.
pub open spec fn error_message(e: VaultError) -> &'static str {
    match e {
        VaultError::NotInitialized => "Contract is not initialized",
        VaultError::AlreadyInitialized => "Contract is already initialized",
        VaultError::UnsupportedStorageVersion => "Unsupported storage version",
        VaultError::NotAuthorized => "Not authorized",
        VaultError::ContractPaused => "Contract is paused",
        VaultError::InvalidDepositAmount => "Deposit amount must be greater than zero",
        VaultError::InvalidWithdrawalAmount => "Withdrawal amount must be greater than zero",
        VaultError::InvalidLockAmount => "Lock amount must be greater than zero",
        VaultError::InvalidPauseDuration => "Pause duration must be greater than zero",
        VaultError::InsufficientBalance => "Insufficient balance",
        VaultError::InsufficientBalanceToLock => "Insufficient balance to lock",
        VaultError::UnlockTimeNotInFuture => "Unlock time must be in the future",
        VaultError::LockNotFound => "Lock not found",
        VaultError::LockNotMatured => "Lock has not matured yet",
        VaultError::ArithmeticOverflow => "attempt to add with overflow",
    }
}

} // verus!
