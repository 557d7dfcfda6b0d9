//! Savings vault: per-user available balances, time-locked lock entries,
//! a one-time initialised configuration with an admin, and an emergency pause.
//!
//! The library holds the vault's rules. The chain-facing shell loads the
//! instance configuration and the acting user's account, checks the caller's
//! signature, calls the operation here, performs the token transfer that the
//! returned receipt names, and stores the results back. A refused operation
//! leaves both the configuration and the account as they were.

pub mod account;
pub mod error;
pub mod laws;
pub mod lock;
pub mod operation_laws;
pub mod vault;

pub use account::{
    AccountView, DepositReceipt, LockReceipt, UserAccount, WithdrawLockReceipt, WithdrawReceipt,
    MAX_LOCK_PAGE_SIZE,
};
pub use error::VaultError;
pub use lock::{Lock, LockEntry};
pub use vault::{SavingsVault, VaultConfig, STORAGE_VERSION};
