use vstd::prelude::*;

use crate::account::{
    available, deposit_result, find_lock, find_lock_record, lock_page, lock_records, lock_result, locked,
    withdraw_lock_result, withdraw_result, AccountView, DepositReceipt, LockReceipt, UserAccount,
    WithdrawLockReceipt, WithdrawReceipt,
};
use crate::error::VaultError;
use crate::lock::{Lock, LockEntry};

verus! {

/// The storage layout version this code writes and reads.
pub const STORAGE_VERSION: u64 = 1;

/// The vault-wide settings recorded at initialisation.
pub struct VaultConfig {
    /// The admin address (its strkey text).
    pub admin: String,
    /// The address of the token contract that deposits and withdrawals move.
    pub token: String,
    /// The recorded storage layout version; `None` on a vault set up before
    /// versions were recorded, which counts as version 1.
    pub storage_version: Option<u64>,
    /// When an emergency pause is set, the time at which it lifts by itself.
    pub paused_until: Option<u64>,
}

/// The vault's instance state: `None` until it is initialised.
pub struct SavingsVault {
    pub config: Option<VaultConfig>,
}

/// The recorded storage version is one this code reads.
pub open spec fn version_supported(c: VaultConfig) -> bool {
    c.storage_version is None || c.storage_version == Some(STORAGE_VERSION)
}

/// The emergency pause is in force at `now`.
pub open spec fn paused_at(c: VaultConfig, now: u64) -> bool {
    c.paused_until matches Some(expiry) && now < expiry
}

/// The settings an operation may run under, or why it may not run: the vault
/// must be initialised and its storage version supported.
pub open spec fn readiness(v: SavingsVault) -> Result<VaultConfig, VaultError> {
    match v.config {
        None => Err(VaultError::NotInitialized),
        Some(c) => if version_supported(c) {
            Ok(c)
        } else {
            Err(VaultError::UnsupportedStorageVersion)
        },
    }
}

/// The settings that `initialize` records.
pub open spec fn initial_config(admin: String, token: String) -> VaultConfig {
    VaultConfig { admin, token, storage_version: Some(STORAGE_VERSION), paused_until: None }
}

/// A query result: the vault's readiness first, then `value`.
pub open spec fn gated<T>(v: SavingsVault, value: Result<T, VaultError>) -> Result<T, VaultError> {
    match readiness(v) {
        Err(e) => Err(e),
        Ok(_) => value,
    }
}

/// What a deposit does to the account, with the vault's own checks first.
pub open spec fn vault_deposit_result(v: SavingsVault, a: AccountView, amount: i128, now: u64) -> Result<
    AccountView,
    VaultError,
> {
    match readiness(v) {
        Err(e) => Err(e),
        Ok(c) => if paused_at(c, now) {
            Err(VaultError::ContractPaused)
        } else {
            deposit_result(a, amount, now)
        },
    }
}

/// What a lock does to the account, with the vault's own checks first.
pub open spec fn vault_lock_result(
    v: SavingsVault,
    a: AccountView,
    amount: i128,
    unlock_time: u64,
    now: u64,
) -> Result<AccountView, VaultError> {
    match readiness(v) {
        Err(e) => Err(e),
        Ok(c) => if paused_at(c, now) {
            Err(VaultError::ContractPaused)
        } else {
            lock_result(a, amount, unlock_time, now)
        },
    }
}

/// What a withdrawal does to the account, with the vault's own checks first.
pub open spec fn vault_withdraw_result(v: SavingsVault, a: AccountView, amount: i128, now: u64) -> Result<
    AccountView,
    VaultError,
> {
    gated(v, withdraw_result(a, amount, now))
}

/// What withdrawing one lock does to the account, with the vault's own checks first.
pub open spec fn vault_withdraw_lock_result(v: SavingsVault, a: AccountView, lock_id: u64, now: u64) -> Result<
    AccountView,
    VaultError,
> {
    gated(v, withdraw_lock_result(a, lock_id, now))
}

/// The available balance as `get_balance` reports it.
pub open spec fn balance_result(v: SavingsVault, a: AccountView, now: u64) -> Result<i128, VaultError> {
    gated(
        v,
        if available(a, now) > i128::MAX {
            Err(VaultError::ArithmeticOverflow)
        } else {
            Ok(available(a, now) as i128)
        },
    )
}

/// The locked balance as `get_locked_balance` reports it.
pub open spec fn locked_balance_result(v: SavingsVault, a: AccountView, now: u64) -> Result<i128, VaultError> {
    gated(
        v,
        if locked(a, now) > i128::MAX {
            Err(VaultError::ArithmeticOverflow)
        } else {
            Ok(locked(a, now) as i128)
        },
    )
}

/// Some lock of the account has matured at `now`.
pub open spec fn has_matured_lock(a: AccountView, now: u64) -> bool {
    exists|i: int| 0 <= i < a.locks.len() && now >= #[trigger] a.locks[i].unlock_time
}

impl SavingsVault {
    /// A vault that has not been initialised.
    pub fn new() -> (r: SavingsVault)
        ensures
            r.config is None,
    {
        SavingsVault { config: None }
    }

    /// The settings to run under, or why nothing may run.
    fn ready(&self) -> (r: Result<&VaultConfig, VaultError>)
        ensures
            match readiness(*self) {
                Ok(c) => r == Ok::<&VaultConfig, VaultError>(&c),
                Err(e) => r == Err::<&VaultConfig, VaultError>(e),
            },
    {
        match &self.config {
            None => Err(VaultError::NotInitialized),
            Some(c) => {
                let supported = match c.storage_version {
                    None => true,
                    Some(v) => v == STORAGE_VERSION,
                };
                if supported {
                    Ok(c)
                } else {
                    Err(VaultError::UnsupportedStorageVersion)
                }
            },
        }
    }

    /// Records the admin and the token once; a second call is refused.
    pub fn initialize(&mut self, admin: String, token: String) -> (r: Result<(), VaultError>)
        ensures
            old(self).config is Some ==> r == Err::<(), VaultError>(VaultError::AlreadyInitialized)
                && final(self).config == old(self).config,
            old(self).config is None ==> r is Ok && final(self).config == Some(initial_config(admin, token)),
    {
        if self.config.is_some() {
            return Err(VaultError::AlreadyInitialized);
        }
        self.config = Some(
            VaultConfig { admin, token, storage_version: Some(STORAGE_VERSION), paused_until: None },
        );
        Ok(())
    }

    /// The contract version, "0.1.0". It is fixed in the code: no vault state
    /// is read.
    pub fn get_version() -> (r: &'static str)
        ensures
            r@ == "0.1.0"@,
    {
        "0.1.0"
    }

    /// The token contract address.
    pub fn get_token(&self) -> (r: Result<String, VaultError>)
        ensures
            match readiness(*self) {
                Ok(c) => r == Ok::<String, VaultError>(c.token),
                Err(e) => r == Err::<String, VaultError>(e),
            },
    {
        match self.ready() {
            Ok(c) => Ok(c.token.clone()),
            Err(e) => Err(e),
        }
    }

    /// The admin address. Only initialisation is required.
    pub fn get_admin(&self) -> (r: Result<String, VaultError>)
        ensures
            match self.config {
                Some(c) => r == Ok::<String, VaultError>(c.admin),
                None => r == Err::<String, VaultError>(VaultError::NotInitialized),
            },
    {
        match &self.config {
            Some(c) => Ok(c.admin.clone()),
            None => Err(VaultError::NotInitialized),
        }
    }

    /// Hands the admin role from `admin`, who must be the current admin, to
    /// `new_admin`; gives back the previous admin. Nothing else changes.
    pub fn transfer_admin(&mut self, admin: &String, new_admin: String) -> (r: Result<String, VaultError>)
        ensures
            match old(self).config {
                None => r == Err::<String, VaultError>(VaultError::NotInitialized) && final(self).config
                    == old(self).config,
                Some(c) => if c.admin@ != admin@ {
                    r == Err::<String, VaultError>(VaultError::NotAuthorized) && final(self).config
                        == old(self).config
                } else {
                    r == Ok::<String, VaultError>(c.admin) && final(self).config == Some(
                        (VaultConfig { admin: new_admin, ..c }),
                    )
                },
            },
    {
        match &mut self.config {
            None => Err(VaultError::NotInitialized),
            Some(c) => {
                if !admin.eq(&c.admin) {
                    return Err(VaultError::NotAuthorized);
                }
                let mut previous = new_admin;
                std::mem::swap(&mut c.admin, &mut previous);
                Ok(previous)
            },
        }
    }

    /// Sets the emergency pause for `duration_secs` seconds from `now`; only the
    /// admin may. Gives back the time at which the pause lifts by itself.
    pub fn pause(&mut self, admin: &String, duration_secs: u64, now: u64) -> (r: Result<u64, VaultError>)
        ensures
            match readiness(*old(self)) {
                Err(e) => r == Err::<u64, VaultError>(e) && final(self).config == old(self).config,
                Ok(c) => if c.admin@ != admin@ {
                    r == Err::<u64, VaultError>(VaultError::NotAuthorized) && final(self).config
                        == old(self).config
                } else if duration_secs == 0 {
                    r == Err::<u64, VaultError>(VaultError::InvalidPauseDuration) && final(self).config
                        == old(self).config
                } else if now + duration_secs > u64::MAX {
                    r == Err::<u64, VaultError>(VaultError::ArithmeticOverflow) && final(self).config
                        == old(self).config
                } else {
                    r == Ok::<u64, VaultError>((now + duration_secs) as u64) && final(self).config
                        == Some((VaultConfig { paused_until: Some((now + duration_secs) as u64), ..c }))
                },
            },
    {
        if let Err(e) = self.ready() {
            return Err(e);
        }
        match &mut self.config {
            None => Err(VaultError::NotInitialized),
            Some(c) => {
                if !admin.eq(&c.admin) {
                    return Err(VaultError::NotAuthorized);
                }
                if duration_secs == 0 {
                    return Err(VaultError::InvalidPauseDuration);
                }
                let expiry = match now.checked_add(duration_secs) {
                    Some(t) => t,
                    None => {
                        return Err(VaultError::ArithmeticOverflow);
                    },
                };
                c.paused_until = Some(expiry);
                Ok(expiry)
            },
        }
    }

    /// Lifts the emergency pause; only the admin may.
    pub fn unpause(&mut self, admin: &String) -> (r: Result<(), VaultError>)
        ensures
            match readiness(*old(self)) {
                Err(e) => r == Err::<(), VaultError>(e) && final(self).config == old(self).config,
                Ok(c) => if c.admin@ != admin@ {
                    r == Err::<(), VaultError>(VaultError::NotAuthorized) && final(self).config
                        == old(self).config
                } else {
                    r is Ok && final(self).config == Some((VaultConfig { paused_until: None, ..c }))
                },
            },
    {
        if let Err(e) = self.ready() {
            return Err(e);
        }
        match &mut self.config {
            None => Err(VaultError::NotInitialized),
            Some(c) => {
                if !admin.eq(&c.admin) {
                    return Err(VaultError::NotAuthorized);
                }
                c.paused_until = None;
                Ok(())
            },
        }
    }

    /// Whether the emergency pause is in force at `now`.
    pub fn is_paused(&self, now: u64) -> (r: Result<bool, VaultError>)
        ensures
            match readiness(*self) {
                Ok(c) => r == Ok::<bool, VaultError>(paused_at(c, now)),
                Err(e) => r == Err::<bool, VaultError>(e),
            },
    {
        match self.ready() {
            Ok(c) => Ok(
                match c.paused_until {
                    Some(expiry) => now < expiry,
                    None => false,
                },
            ),
            Err(e) => Err(e),
        }
    }

    /// Credits a deposit of `amount` to `account`. On success the receipt names
    /// the amount to transfer from the user into the vault and the available
    /// balance after the deposit.
    pub fn deposit(&self, account: &mut UserAccount, amount: i128, now: u64) -> (r: Result<DepositReceipt, VaultError>)
        requires
            old(account).wf(),
        ensures
            final(account).wf(),
            match vault_deposit_result(*self, old(account)@, amount, now) {
                Ok(a) => final(account)@ == a && r == Ok::<DepositReceipt, VaultError>(
                    (DepositReceipt { amount, new_balance: available(a, now) as i128 }),
                ),
                Err(e) => final(account)@ == old(account)@ && r == Err::<DepositReceipt, VaultError>(e),
            },
    {
        let c = match self.ready() {
            Ok(c) => c,
            Err(e) => {
                return Err(e);
            },
        };
        if let Some(expiry) = c.paused_until {
            if now < expiry {
                return Err(VaultError::ContractPaused);
            }
        }
        account.apply_deposit(amount, now)
    }

    /// Withdraws `amount` at `now`, from the deposited balance first and then
    /// from matured locks, oldest first. On success the receipt names the
    /// amount to transfer from the vault to the user, and the available and the
    /// locked balance after the withdrawal.
    pub fn withdraw(&self, account: &mut UserAccount, amount: i128, now: u64) -> (r: Result<WithdrawReceipt, VaultError>)
        requires
            old(account).wf(),
        ensures
            final(account).wf(),
            match vault_withdraw_result(*self, old(account)@, amount, now) {
                Ok(a) => final(account)@ == a && r == Ok::<WithdrawReceipt, VaultError>(
                    (WithdrawReceipt {
                        amount,
                        new_balance: available(a, now) as i128,
                        new_locked: locked(a, now) as i128,
                    }),
                ),
                Err(e) => final(account)@ == old(account)@ && r == Err::<WithdrawReceipt, VaultError>(e),
            },
    {
        if let Err(e) = self.ready() {
            return Err(e);
        }
        account.apply_withdraw(amount, now)
    }

    /// Withdraws the matured lock `lock_id` in full at `now`. On success the
    /// receipt names the amount to transfer from the vault to the user.
    pub fn withdraw_lock(&self, account: &mut UserAccount, lock_id: u64, now: u64) -> (r: Result<
        WithdrawLockReceipt,
        VaultError,
    >)
        requires
            old(account).wf(),
        ensures
            final(account).wf(),
            match vault_withdraw_lock_result(*self, old(account)@, lock_id, now) {
                Ok(a) => final(account)@ == a && r == Ok::<WithdrawLockReceipt, VaultError>(
                    (WithdrawLockReceipt {
                        lock_id,
                        amount: find_lock(old(account)@.locks, lock_id).unwrap().amount,
                    }),
                ),
                Err(e) => final(account)@ == old(account)@ && r == Err::<WithdrawLockReceipt, VaultError>(e),
            },
    {
        if let Err(e) = self.ready() {
            return Err(e);
        }
        account.apply_withdraw_lock(lock_id, now)
    }

    /// Locks `amount` until `unlock_time`, at `now`, drawing it from the
    /// available balance: the deposited balance first, then matured locks,
    /// oldest first.
    /// On success the receipt carries the new lock's id, and the available and
    /// the locked balance after the lock.
    pub fn lock_funds(&self, account: &mut UserAccount, amount: i128, unlock_time: u64, now: u64) -> (r: Result<
        LockReceipt,
        VaultError,
    >)
        requires
            old(account).wf(),
        ensures
            final(account).wf(),
            match vault_lock_result(*self, old(account)@, amount, unlock_time, now) {
                Ok(a) => final(account)@ == a && r == Ok::<LockReceipt, VaultError>(
                    (LockReceipt {
                        lock_id: old(account)@.next_lock_id,
                        amount,
                        unlock_time,
                        new_balance: available(a, now) as i128,
                        new_locked: locked(a, now) as i128,
                    }),
                ),
                Err(e) => final(account)@ == old(account)@ && r == Err::<LockReceipt, VaultError>(e),
            },
    {
        let c = match self.ready() {
            Ok(c) => c,
            Err(e) => {
                return Err(e);
            },
        };
        if let Some(expiry) = c.paused_until {
            if now < expiry {
                return Err(VaultError::ContractPaused);
            }
        }
        account.apply_lock(amount, unlock_time, now)
    }

    /// The available balance at `now`: the deposited balance plus every
    /// matured lock.
    pub fn get_balance(&self, account: &UserAccount, now: u64) -> (r: Result<i128, VaultError>)
        requires
            account.wf(),
        ensures
            r == balance_result(*self, account@, now),
    {
        if let Err(e) = self.ready() {
            return Err(e);
        }
        account.available_at(now)
    }

    /// The balance still locked at `now`: every lock that has not matured.
    pub fn get_locked_balance(&self, account: &UserAccount, now: u64) -> (r: Result<i128, VaultError>)
        requires
            account.wf(),
        ensures
            r == locked_balance_result(*self, account@, now),
    {
        if let Err(e) = self.ready() {
            return Err(e);
        }
        account.locked_at(now)
    }

    /// Whether some lock has matured at `now` (the unlock time counts as matured).
    pub fn can_withdraw(&self, account: &UserAccount, now: u64) -> (r: Result<bool, VaultError>)
        ensures
            r == gated(*self, Ok::<bool, VaultError>(has_matured_lock(account@, now))),
    {
        if let Err(e) = self.ready() {
            return Err(e);
        }
        Ok(account.has_matured_lock(now))
    }

    /// The lock with id `lock_id`, if the user has one.
    pub fn get_lock(&self, account: &UserAccount, lock_id: u64) -> (r: Result<Option<LockEntry>, VaultError>)
        ensures
            r == gated(*self, Ok::<Option<LockEntry>, VaultError>(find_lock_record(account@, lock_id))),
    {
        if let Err(e) = self.ready() {
            return Err(e);
        }
        Ok(account.lock_by_id(lock_id))
    }

    /// A page of at most `limit` (capped at 50) lock entries from position
    /// `offset`, oldest first.
    pub fn list_locks(&self, account: &UserAccount, offset: u32, limit: u32) -> (r: Result<
        Vec<LockEntry>,
        VaultError,
    >)
        ensures
            match readiness(*self) {
                Ok(_) => r matches Ok(page) && page@ == lock_records(
                    account@,
                    lock_page(account@.locks, offset, limit),
                ),
                Err(e) => r == Err::<Vec<LockEntry>, VaultError>(e),
            },
    {
        if let Err(e) = self.ready() {
            return Err(e);
        }
        Ok(account.lock_page_of(offset, limit))
    }
}

} // verus!
