#![allow(dead_code)]

// A stand-in for the chain around the vault: each user's stored account, a
// token ledger that custody transfers move between wallets and the vault, the
// ledger clock, and the events published. An invocation either completes or
// leaves every piece of state as it was, as a chain transaction does.

use savings_vault::{Lock, LockEntry, SavingsVault, UserAccount, VaultError};
use std::collections::HashMap;

const VAULT_ADDRESS: &str = "CVAULT";

#[derive(Clone, Debug, PartialEq)]
enum EventData {
    Address(String),
    Deposit(i128, i128),
    Withdraw(i128, i128, i128),
    Lock(i128, u64, i128, i128),
    WithdrawLock(u64, i128),
    Pause(u64),
    Unpause,
}

#[derive(Clone, Debug, PartialEq)]
struct Event {
    topic: &'static str,
    subject: String,
    data: EventData,
}

struct Chain {
    vault: SavingsVault,
    accounts: HashMap<String, UserAccount>,
    tokens: HashMap<String, i128>,
    now: u64,
    events: Vec<Event>,
    next_address: u32,
}

fn refusal(e: VaultError) -> String {
    e.message().to_string()
}

impl Chain {
    /// The vault contract registered but not initialised.
    fn unregistered() -> Chain {
        Chain {
            vault: SavingsVault::new(),
            accounts: HashMap::new(),
            tokens: HashMap::new(),
            now: 0,
            events: Vec::new(),
            next_address: 0,
        }
    }

    /// The vault contract initialised with a fresh admin and a token.
    fn initialized() -> (Chain, String, String) {
        let mut chain = Chain::unregistered();
        let admin = chain.new_user();
        let token = chain.new_token_address();
        chain.initialize(&admin, &token);
        (chain, admin, token)
    }

    fn new_user(&mut self) -> String {
        self.next_address += 1;
        format!("GUSER{}", self.next_address)
    }

    fn new_token_address(&mut self) -> String {
        self.next_address += 1;
        format!("CTOKEN{}", self.next_address)
    }

    fn set_ledger_timestamp(&mut self, t: u64) {
        self.now = t;
    }

    fn account(&self, user: &str) -> UserAccount {
        match self.accounts.get(user) {
            Some(a) => a.clone(),
            None => UserAccount::new(user.to_string()),
        }
    }

    fn mint(&mut self, user: &str, amount: i128) {
        let b = self.token_balance(user);
        self.tokens.insert(user.to_string(), b + amount);
    }

    fn token_balance(&self, who: &str) -> i128 {
        *self.tokens.get(who).unwrap_or(&0)
    }

    fn token_transfer(&mut self, from: &str, to: &str, amount: i128) -> Result<(), String> {
        let from_balance = self.token_balance(from);
        if amount < 0 || from_balance < amount {
            return Err("balance is not sufficient to spend".to_string());
        }
        let to_balance = match self.token_balance(to).checked_add(amount) {
            Some(b) => b,
            None => return Err("balance overflow".to_string()),
        };
        self.tokens.insert(from.to_string(), from_balance - amount);
        self.tokens.insert(to.to_string(), to_balance);
        Ok(())
    }

    fn try_initialize(&mut self, admin: &str, token: &str) -> Result<(), String> {
        self.vault.initialize(admin.to_string(), token.to_string()).map_err(refusal)?;
        self.events.push(Event {
            topic: "initialize",
            subject: admin.to_string(),
            data: EventData::Address(token.to_string()),
        });
        Ok(())
    }

    fn initialize(&mut self, admin: &str, token: &str) {
        self.try_initialize(admin, token).unwrap_or_else(|m| panic!("{}", m))
    }

    fn try_deposit(&mut self, user: &str, amount: i128) -> Result<(), String> {
        let mut acct = self.account(user);
        let receipt = self.vault.deposit(&mut acct, amount, self.now).map_err(refusal)?;
        self.token_transfer(user, VAULT_ADDRESS, receipt.amount)?;
        self.accounts.insert(user.to_string(), acct);
        self.events.push(Event {
            topic: "deposit",
            subject: user.to_string(),
            data: EventData::Deposit(receipt.amount, receipt.new_balance),
        });
        Ok(())
    }

    fn deposit(&mut self, user: &str, amount: i128) {
        self.try_deposit(user, amount).unwrap_or_else(|m| panic!("{}", m))
    }

    fn try_withdraw(&mut self, user: &str, amount: i128) -> Result<(), String> {
        let mut acct = self.account(user);
        let receipt = self.vault.withdraw(&mut acct, amount, self.now).map_err(refusal)?;
        self.token_transfer(VAULT_ADDRESS, user, receipt.amount)?;
        self.accounts.insert(user.to_string(), acct);
        self.events.push(Event {
            topic: "withdraw",
            subject: user.to_string(),
            data: EventData::Withdraw(receipt.amount, receipt.new_balance, receipt.new_locked),
        });
        Ok(())
    }

    fn withdraw(&mut self, user: &str, amount: i128) {
        self.try_withdraw(user, amount).unwrap_or_else(|m| panic!("{}", m))
    }

    fn try_withdraw_lock(&mut self, user: &str, lock_id: u64) -> Result<(), String> {
        let mut acct = self.account(user);
        let receipt = self.vault.withdraw_lock(&mut acct, lock_id, self.now).map_err(refusal)?;
        self.token_transfer(VAULT_ADDRESS, user, receipt.amount)?;
        self.accounts.insert(user.to_string(), acct);
        self.events.push(Event {
            topic: "withdraw_lock",
            subject: user.to_string(),
            data: EventData::WithdrawLock(receipt.lock_id, receipt.amount),
        });
        Ok(())
    }

    fn withdraw_lock(&mut self, user: &str, lock_id: u64) {
        self.try_withdraw_lock(user, lock_id).unwrap_or_else(|m| panic!("{}", m))
    }

    fn try_lock_funds(&mut self, user: &str, amount: i128, unlock_time: u64) -> Result<u64, String> {
        let mut acct = self.account(user);
        let receipt = self.vault.lock_funds(&mut acct, amount, unlock_time, self.now).map_err(refusal)?;
        self.accounts.insert(user.to_string(), acct);
        self.events.push(Event {
            topic: "lock",
            subject: user.to_string(),
            data: EventData::Lock(receipt.amount, receipt.unlock_time, receipt.new_balance, receipt.new_locked),
        });
        Ok(receipt.lock_id)
    }

    fn lock_funds(&mut self, user: &str, amount: i128, unlock_time: u64) -> u64 {
        self.try_lock_funds(user, amount, unlock_time).unwrap_or_else(|m| panic!("{}", m))
    }

    fn get_balance(&self, user: &str) -> i128 {
        self.vault.get_balance(&self.account(user), self.now).unwrap_or_else(|e| panic!("{}", e.message()))
    }

    fn get_locked_balance(&self, user: &str) -> i128 {
        self.vault
            .get_locked_balance(&self.account(user), self.now)
            .unwrap_or_else(|e| panic!("{}", e.message()))
    }

    fn can_withdraw(&self, user: &str) -> bool {
        self.vault.can_withdraw(&self.account(user), self.now).unwrap_or_else(|e| panic!("{}", e.message()))
    }

    fn get_lock(&self, user: &str, lock_id: u64) -> Option<LockEntry> {
        self.vault.get_lock(&self.account(user), lock_id).unwrap_or_else(|e| panic!("{}", e.message()))
    }

    fn list_locks(&self, user: &str, offset: u32, limit: u32) -> Vec<LockEntry> {
        self.vault
            .list_locks(&self.account(user), offset, limit)
            .unwrap_or_else(|e| panic!("{}", e.message()))
    }

    fn get_admin(&self) -> String {
        self.vault.get_admin().unwrap_or_else(|e| panic!("{}", e.message()))
    }

    fn get_token(&self) -> String {
        self.vault.get_token().unwrap_or_else(|e| panic!("{}", e.message()))
    }

    fn get_version(&self) -> String {
        SavingsVault::get_version().to_string()
    }

    fn try_transfer_admin(&mut self, admin: &str, new_admin: &str) -> Result<(), String> {
        let old = self.vault.transfer_admin(&admin.to_string(), new_admin.to_string()).map_err(refusal)?;
        self.events.push(Event {
            topic: "xferadmin",
            subject: old,
            data: EventData::Address(new_admin.to_string()),
        });
        Ok(())
    }

    fn transfer_admin(&mut self, admin: &str, new_admin: &str) {
        self.try_transfer_admin(admin, new_admin).unwrap_or_else(|m| panic!("{}", m))
    }

    fn try_pause(&mut self, admin: &str, duration_secs: u64) -> Result<u64, String> {
        let expiry = self.vault.pause(&admin.to_string(), duration_secs, self.now).map_err(refusal)?;
        self.events.push(Event { topic: "pause", subject: admin.to_string(), data: EventData::Pause(expiry) });
        Ok(expiry)
    }

    fn pause(&mut self, admin: &str, duration_secs: u64) -> u64 {
        self.try_pause(admin, duration_secs).unwrap_or_else(|m| panic!("{}", m))
    }

    fn try_unpause(&mut self, admin: &str) -> Result<(), String> {
        self.vault.unpause(&admin.to_string()).map_err(refusal)?;
        self.events.push(Event { topic: "unpause", subject: admin.to_string(), data: EventData::Unpause });
        Ok(())
    }

    fn unpause(&mut self, admin: &str) {
        self.try_unpause(admin).unwrap_or_else(|m| panic!("{}", m))
    }

    fn is_paused(&self) -> bool {
        self.vault.is_paused(self.now).unwrap_or_else(|e| panic!("{}", e.message()))
    }

    fn has_event(&self, topic: &str) -> bool {
        self.events.iter().any(|e| e.topic == topic)
    }
}

/// An initialised vault, as `init_contract` sets one up.
fn init_contract() -> Chain {
    Chain::initialized().0
}

/// Mints `amount` to the user and deposits it.
fn deposit_balance(chain: &mut Chain, user: &str, amount: i128) {
    chain.mint(user, amount);
    chain.deposit(user, amount);
}

// Amounts at the i128 limits. A sum that would leave the range aborts the
// invocation and leaves every balance as it was.

const I128_MAX: i128 = i128::MAX;
const I128_MAX_MINUS_1: i128 = i128::MAX - 1;
const I128_MAX_HALF: i128 = i128::MAX / 2;

#[test]
fn test_deposit_i128_max_succeeds() {
    let mut chain = init_contract();
    let user = chain.new_user();
    deposit_balance(&mut chain, &user, I128_MAX);
    assert_eq!(chain.get_balance(&user), I128_MAX);
}

#[test]
fn test_deposit_after_i128_max_preserves_balance_on_overflow() {
    let mut chain = init_contract();
    let user = chain.new_user();
    deposit_balance(&mut chain, &user, I128_MAX);
    let balance_before = chain.get_balance(&user);
    let result = chain.try_deposit(&user, 1);
    assert!(result.is_err(), "expected overflow to abort the transaction");
    assert_eq!(chain.get_balance(&user), balance_before, "balance must not change after failed deposit");
}

#[test]
fn test_multiple_large_deposits_without_overflow() {
    let mut chain = init_contract();
    let user = chain.new_user();
    deposit_balance(&mut chain, &user, I128_MAX_HALF);
    deposit_balance(&mut chain, &user, I128_MAX_HALF);
    assert_eq!(chain.get_balance(&user), I128_MAX_HALF * 2);
}

#[test]
fn test_withdraw_i128_max_after_deposit_succeeds() {
    let mut chain = init_contract();
    let user = chain.new_user();
    chain.mint(&user, I128_MAX);
    chain.deposit(&user, I128_MAX);
    chain.withdraw(&user, I128_MAX);
    assert_eq!(chain.get_balance(&user), 0);
}

#[test]
fn test_withdraw_over_large_balance_does_not_mutate() {
    let mut chain = init_contract();
    let user = chain.new_user();
    chain.mint(&user, I128_MAX_MINUS_1);
    chain.deposit(&user, I128_MAX_MINUS_1);
    let balance_before = chain.get_balance(&user);
    let result = chain.try_withdraw(&user, I128_MAX);
    assert!(result.is_err(), "expected withdrawal exceeding balance to fail");
    assert_eq!(chain.get_balance(&user), balance_before, "balance must not change after failed withdrawal");
}

#[test]
fn test_withdraw_partial_from_large_balance_preserves_remainder() {
    let mut chain = init_contract();
    let user = chain.new_user();
    chain.mint(&user, I128_MAX);
    chain.deposit(&user, I128_MAX);
    chain.withdraw(&user, 1);
    assert_eq!(chain.get_balance(&user), I128_MAX - 1);
    assert!(chain.get_balance(&user) >= 0, "partial withdrawal must not make balance negative");
}

#[test]
fn test_lock_i128_max_succeeds() {
    let mut chain = init_contract();
    let user = chain.new_user();
    chain.set_ledger_timestamp(1_000);
    deposit_balance(&mut chain, &user, I128_MAX);
    let unlock_time = chain.now + 10_000;
    chain.lock_funds(&user, I128_MAX, unlock_time);
    assert_eq!(chain.get_balance(&user), 0);
    assert_eq!(chain.get_locked_balance(&user), I128_MAX);
}

#[test]
fn test_lock_over_large_balance_does_not_mutate() {
    let mut chain = init_contract();
    let user = chain.new_user();
    chain.set_ledger_timestamp(1_000);
    deposit_balance(&mut chain, &user, I128_MAX_MINUS_1);
    let available_before = chain.get_balance(&user);
    let locked_before = chain.get_locked_balance(&user);
    let unlock_time = chain.now + 10_000;
    let result = chain.try_lock_funds(&user, I128_MAX, unlock_time);
    assert!(result.is_err(), "expected lock exceeding balance to fail");
    assert_eq!(chain.get_balance(&user), available_before, "available balance must not change after failed lock");
    assert_eq!(chain.get_locked_balance(&user), locked_before, "locked balance must not change after failed lock");
}

#[test]
fn test_lock_partial_from_large_balance_preserves_state() {
    let mut chain = init_contract();
    let user = chain.new_user();
    chain.set_ledger_timestamp(1_000);
    deposit_balance(&mut chain, &user, I128_MAX);
    let unlock_time = chain.now + 10_000;
    chain.lock_funds(&user, 1, unlock_time);
    assert_eq!(chain.get_balance(&user), I128_MAX - 1);
    assert_eq!(chain.get_locked_balance(&user), 1);
}

#[test]
fn test_deposit_half_max_twice_equals_max() {
    let mut chain = init_contract();
    let user = chain.new_user();
    deposit_balance(&mut chain, &user, I128_MAX_HALF);
    deposit_balance(&mut chain, &user, I128_MAX_HALF);
    assert_eq!(chain.get_balance(&user), I128_MAX_HALF * 2);
}

#[test]
fn test_large_lock_keeps_available_and_locked_consistent() {
    let mut chain = init_contract();
    let user = chain.new_user();
    chain.set_ledger_timestamp(1_000);
    let deposited = I128_MAX_HALF;
    deposit_balance(&mut chain, &user, deposited);
    let lock_amount = I128_MAX_HALF - 1;
    let unlock_time = chain.now + 10_000;
    chain.lock_funds(&user, lock_amount, unlock_time);
    let available = chain.get_balance(&user);
    let locked = chain.get_locked_balance(&user);
    assert_eq!(available + locked, deposited);
    assert!(available >= 0, "available balance must not be negative");
    assert!(locked >= 0, "locked balance must not be negative");
}

#[test]
fn test_large_withdraw_spans_available_and_matured_locks() {
    let mut chain = init_contract();
    let user = chain.new_user();
    chain.set_ledger_timestamp(1_000);
    let total_deposited = I128_MAX_HALF;
    chain.mint(&user, total_deposited);
    chain.deposit(&user, total_deposited);
    let lock_amount = total_deposited / 2;
    let unlock_time = chain.now + 10_000;
    chain.lock_funds(&user, lock_amount, unlock_time);
    chain.set_ledger_timestamp(unlock_time + 1);
    chain.withdraw(&user, total_deposited);
    assert_eq!(chain.get_balance(&user), 0);
    assert_eq!(chain.get_locked_balance(&user), 0);
}

#[test]
fn test_documentation_i128_max_half_boundary() {
    assert_eq!(I128_MAX_HALF * 2, I128_MAX - 1);
    assert_eq!(I128_MAX_HALF + I128_MAX_HALF, I128_MAX - 1);
    assert!(I128_MAX_HALF > 0);
}

#[test]
fn test_documentation_i128_max_is_representable() {
    assert!(I128_MAX > 0);
    assert!(I128_MAX_MINUS_1 > 0);
    assert_eq!(I128_MAX - 1, I128_MAX_MINUS_1);
}

// An account whose deposited balance and locks together hold more than i128
// can count: the sums that reach past the range are refused rather than
// wrapped, and nothing changes.
#[test]
fn locked_sum_beyond_i128_is_refused() {
    let mut vault = SavingsVault::new();
    vault.initialize("GADMIN".to_string(), "CTOKEN".to_string()).unwrap();
    let lock = Lock { id: 1, amount: I128_MAX, created_time: 0, unlock_time: 5_000 };
    let mut acct = UserAccount::from_parts("GUSER1".to_string(), I128_MAX, vec![lock], 2).unwrap();
    assert_eq!(vault.lock_funds(&mut acct, 1, 5_000, 1_000), Err(VaultError::ArithmeticOverflow));
    assert_eq!(acct.balance(), I128_MAX);
    assert_eq!(acct.locks(), &vec![lock]);
    assert_eq!(vault.get_balance(&acct, 1_000), Ok(I128_MAX));
    assert_eq!(vault.get_locked_balance(&acct, 1_000), Ok(I128_MAX));
    assert_eq!(vault.get_balance(&acct, 5_000), Err(VaultError::ArithmeticOverflow));
    assert_eq!(vault.withdraw(&mut acct, 1, 5_000), Err(VaultError::ArithmeticOverflow));
    assert_eq!(vault.deposit(&mut acct, 1, 1_000), Err(VaultError::ArithmeticOverflow));
}

// Stored parts that break the account invariant are not accepted back.
#[test]
fn inconsistent_stored_parts_are_rejected() {
    let a = Lock { id: 1, amount: 5, created_time: 0, unlock_time: 10 };
    let b = Lock { id: 2, amount: 7, created_time: 0, unlock_time: 10 };
    assert!(UserAccount::from_parts("GUSER1".to_string(), 0, vec![a, b], 3).is_some());
    assert!(UserAccount::from_parts("GUSER1".to_string(), -1, vec![], 1).is_none());
    assert!(UserAccount::from_parts("GUSER1".to_string(), 0, vec![b, a], 3).is_none());
    assert!(UserAccount::from_parts("GUSER1".to_string(), 0, vec![a, b], 2).is_none());
    assert!(UserAccount::from_parts("GUSER1".to_string(), 0, vec![Lock { id: 1, amount: 0, created_time: 0, unlock_time: 10 }], 2).is_none());
    assert!(UserAccount::from_parts("GUSER1".to_string(), 0, vec![], 0).is_none());
}
