#![allow(dead_code)]

// A stand-in for the chain around the vault: each user's stored account, a
// token ledger that custody transfers move between wallets and the vault, the
// ledger clock, and the events published. An invocation either completes or
// leaves every piece of state as it was, as a chain transaction does.

use savings_vault::{LockEntry, SavingsVault, UserAccount, VaultError};
use std::collections::HashMap;

const VAULT_ADDRESS: &str = "CVAULT";

#[derive(Clone, Debug, PartialEq)]
enum EventData {
    Address(String),
    Deposit(i128, i128),
    Withdraw(i128, i128, i128),
    Lock(i128, u64, i128, i128),
    WithdrawLock(u64, i128),
    Pause(u64),
    Unpause,
}

#[derive(Clone, Debug, PartialEq)]
struct Event {
    topic: &'static str,
    subject: String,
    data: EventData,
}

struct Chain {
    vault: SavingsVault,
    accounts: HashMap<String, UserAccount>,
    tokens: HashMap<String, i128>,
    now: u64,
    events: Vec<Event>,
    next_address: u32,
}

fn refusal(e: VaultError) -> String {
    e.message().to_string()
}

impl Chain {
    /// The vault contract registered but not initialised.
    fn unregistered() -> Chain {
        Chain {
            vault: SavingsVault::new(),
            accounts: HashMap::new(),
            tokens: HashMap::new(),
            now: 0,
            events: Vec::new(),
            next_address: 0,
        }
    }

    /// The vault contract initialised with a fresh admin and a token.
    fn initialized() -> (Chain, String, String) {
        let mut chain = Chain::unregistered();
        let admin = chain.new_user();
        let token = chain.new_token_address();
        chain.initialize(&admin, &token);
        (chain, admin, token)
    }

    fn new_user(&mut self) -> String {
        self.next_address += 1;
        format!("GUSER{}", self.next_address)
    }

    fn new_token_address(&mut self) -> String {
        self.next_address += 1;
        format!("CTOKEN{}", self.next_address)
    }

    fn set_ledger_timestamp(&mut self, t: u64) {
        self.now = t;
    }

    fn account(&self, user: &str) -> UserAccount {
        match self.accounts.get(user) {
            Some(a) => a.clone(),
            None => UserAccount::new(user.to_string()),
        }
    }

    fn mint(&mut self, user: &str, amount: i128) {
        let b = self.token_balance(user);
        self.tokens.insert(user.to_string(), b + amount);
    }

    fn token_balance(&self, who: &str) -> i128 {
        *self.tokens.get(who).unwrap_or(&0)
    }

    fn token_transfer(&mut self, from: &str, to: &str, amount: i128) -> Result<(), String> {
        let from_balance = self.token_balance(from);
        if amount < 0 || from_balance < amount {
            return Err("balance is not sufficient to spend".to_string());
        }
        let to_balance = match self.token_balance(to).checked_add(amount) {
            Some(b) => b,
            None => return Err("balance overflow".to_string()),
        };
        self.tokens.insert(from.to_string(), from_balance - amount);
        self.tokens.insert(to.to_string(), to_balance);
        Ok(())
    }

    fn try_initialize(&mut self, admin: &str, token: &str) -> Result<(), String> {
        self.vault.initialize(admin.to_string(), token.to_string()).map_err(refusal)?;
        self.events.push(Event {
            topic: "initialize",
            subject: admin.to_string(),
            data: EventData::Address(token.to_string()),
        });
        Ok(())
    }

    fn initialize(&mut self, admin: &str, token: &str) {
        self.try_initialize(admin, token).unwrap_or_else(|m| panic!("{}", m))
    }

    fn try_deposit(&mut self, user: &str, amount: i128) -> Result<(), String> {
        let mut acct = self.account(user);
        let receipt = self.vault.deposit(&mut acct, amount, self.now).map_err(refusal)?;
        self.token_transfer(user, VAULT_ADDRESS, receipt.amount)?;
        self.accounts.insert(user.to_string(), acct);
        self.events.push(Event {
            topic: "deposit",
            subject: user.to_string(),
            data: EventData::Deposit(receipt.amount, receipt.new_balance),
        });
        Ok(())
    }

    fn deposit(&mut self, user: &str, amount: i128) {
        self.try_deposit(user, amount).unwrap_or_else(|m| panic!("{}", m))
    }

    fn try_withdraw(&mut self, user: &str, amount: i128) -> Result<(), String> {
        let mut acct = self.account(user);
        let receipt = self.vault.withdraw(&mut acct, amount, self.now).map_err(refusal)?;
        self.token_transfer(VAULT_ADDRESS, user, receipt.amount)?;
        self.accounts.insert(user.to_string(), acct);
        self.events.push(Event {
            topic: "withdraw",
            subject: user.to_string(),
            data: EventData::Withdraw(receipt.amount, receipt.new_balance, receipt.new_locked),
        });
        Ok(())
    }

    fn withdraw(&mut self, user: &str, amount: i128) {
        self.try_withdraw(user, amount).unwrap_or_else(|m| panic!("{}", m))
    }

    fn try_withdraw_lock(&mut self, user: &str, lock_id: u64) -> Result<(), String> {
        let mut acct = self.account(user);
        let receipt = self.vault.withdraw_lock(&mut acct, lock_id, self.now).map_err(refusal)?;
        self.token_transfer(VAULT_ADDRESS, user, receipt.amount)?;
        self.accounts.insert(user.to_string(), acct);
        self.events.push(Event {
            topic: "withdraw_lock",
            subject: user.to_string(),
            data: EventData::WithdrawLock(receipt.lock_id, receipt.amount),
        });
        Ok(())
    }

    fn withdraw_lock(&mut self, user: &str, lock_id: u64) {
        self.try_withdraw_lock(user, lock_id).unwrap_or_else(|m| panic!("{}", m))
    }

    fn try_lock_funds(&mut self, user: &str, amount: i128, unlock_time: u64) -> Result<u64, String> {
        let mut acct = self.account(user);
        let receipt = self.vault.lock_funds(&mut acct, amount, unlock_time, self.now).map_err(refusal)?;
        self.accounts.insert(user.to_string(), acct);
        self.events.push(Event {
            topic: "lock",
            subject: user.to_string(),
            data: EventData::Lock(receipt.amount, receipt.unlock_time, receipt.new_balance, receipt.new_locked),
        });
        Ok(receipt.lock_id)
    }

    fn lock_funds(&mut self, user: &str, amount: i128, unlock_time: u64) -> u64 {
        self.try_lock_funds(user, amount, unlock_time).unwrap_or_else(|m| panic!("{}", m))
    }

    fn get_balance(&self, user: &str) -> i128 {
        self.vault.get_balance(&self.account(user), self.now).unwrap_or_else(|e| panic!("{}", e.message()))
    }

    fn get_locked_balance(&self, user: &str) -> i128 {
        self.vault
            .get_locked_balance(&self.account(user), self.now)
            .unwrap_or_else(|e| panic!("{}", e.message()))
    }

    fn can_withdraw(&self, user: &str) -> bool {
        self.vault.can_withdraw(&self.account(user), self.now).unwrap_or_else(|e| panic!("{}", e.message()))
    }

    fn get_lock(&self, user: &str, lock_id: u64) -> Option<LockEntry> {
        self.vault.get_lock(&self.account(user), lock_id).unwrap_or_else(|e| panic!("{}", e.message()))
    }

    fn list_locks(&self, user: &str, offset: u32, limit: u32) -> Vec<LockEntry> {
        self.vault
            .list_locks(&self.account(user), offset, limit)
            .unwrap_or_else(|e| panic!("{}", e.message()))
    }

    fn get_admin(&self) -> String {
        self.vault.get_admin().unwrap_or_else(|e| panic!("{}", e.message()))
    }

    fn get_token(&self) -> String {
        self.vault.get_token().unwrap_or_else(|e| panic!("{}", e.message()))
    }

    fn get_version(&self) -> String {
        SavingsVault::get_version().to_string()
    }

    fn try_transfer_admin(&mut self, admin: &str, new_admin: &str) -> Result<(), String> {
        let old = self.vault.transfer_admin(&admin.to_string(), new_admin.to_string()).map_err(refusal)?;
        self.events.push(Event {
            topic: "xferadmin",
            subject: old,
            data: EventData::Address(new_admin.to_string()),
        });
        Ok(())
    }

    fn transfer_admin(&mut self, admin: &str, new_admin: &str) {
        self.try_transfer_admin(admin, new_admin).unwrap_or_else(|m| panic!("{}", m))
    }

    fn try_pause(&mut self, admin: &str, duration_secs: u64) -> Result<u64, String> {
        let expiry = self.vault.pause(&admin.to_string(), duration_secs, self.now).map_err(refusal)?;
        self.events.push(Event { topic: "pause", subject: admin.to_string(), data: EventData::Pause(expiry) });
        Ok(expiry)
    }

    fn pause(&mut self, admin: &str, duration_secs: u64) -> u64 {
        self.try_pause(admin, duration_secs).unwrap_or_else(|m| panic!("{}", m))
    }

    fn try_unpause(&mut self, admin: &str) -> Result<(), String> {
        self.vault.unpause(&admin.to_string()).map_err(refusal)?;
        self.events.push(Event { topic: "unpause", subject: admin.to_string(), data: EventData::Unpause });
        Ok(())
    }

    fn unpause(&mut self, admin: &str) {
        self.try_unpause(admin).unwrap_or_else(|m| panic!("{}", m))
    }

    fn is_paused(&self) -> bool {
        self.vault.is_paused(self.now).unwrap_or_else(|e| panic!("{}", e.message()))
    }

    fn has_event(&self, topic: &str) -> bool {
        self.events.iter().any(|e| e.topic == topic)
    }
}

/// An initialised vault, as `init_contract` sets one up.
fn init_contract() -> Chain {
    Chain::initialized().0
}

/// Mints `amount` to the user and deposits it.
fn deposit_balance(chain: &mut Chain, user: &str, amount: i128) {
    chain.mint(user, amount);
    chain.deposit(user, amount);
}

// A lock whose unlock time equals the current time is rejected; the shortest
// lock accepted lasts one second.

#[test]
#[should_panic(expected = "Unlock time must be in the future")]
fn test_lock_zero_duration_unlock_time_equals_now_panics() {
    let mut chain = init_contract();
    let user = chain.new_user();
    chain.set_ledger_timestamp(1_000);
    deposit_balance(&mut chain, &user, 100);
    chain.lock_funds(&user, 50, 1_000);
}

#[test]
#[should_panic(expected = "Unlock time must be in the future")]
fn test_lock_zero_duration_at_nonzero_timestamp_panics() {
    let mut chain = init_contract();
    let user = chain.new_user();
    chain.set_ledger_timestamp(999_999);
    deposit_balance(&mut chain, &user, 100);
    chain.lock_funds(&user, 50, 999_999);
}

#[test]
fn test_lock_zero_duration_does_not_mutate_available_or_locked_balance() {
    let mut chain = init_contract();
    let user = chain.new_user();
    chain.set_ledger_timestamp(1_000);
    deposit_balance(&mut chain, &user, 100);
    let balance_before = chain.get_balance(&user);
    let locked_before = chain.get_locked_balance(&user);
    let result = chain.try_lock_funds(&user, 50, 1_000);
    assert!(result.is_err(), "expected zero-duration lock to be rejected");
    assert_eq!(chain.get_balance(&user), balance_before, "available balance must not change after a rejected zero-duration lock");
    assert_eq!(chain.get_locked_balance(&user), locked_before, "locked balance must not change after a rejected zero-duration lock");
    assert_eq!(chain.can_withdraw(&user), false, "no lock entry should have been created");
}

#[test]
fn test_lock_zero_duration_panic_allows_subsequent_valid_lock() {
    let mut chain = init_contract();
    let user = chain.new_user();
    chain.set_ledger_timestamp(1_000);
    deposit_balance(&mut chain, &user, 100);
    let result = chain.try_lock_funds(&user, 50, 1_000);
    assert!(result.is_err());
    chain.lock_funds(&user, 100, 2_000);
    assert_eq!(chain.get_balance(&user), 0);
    assert_eq!(chain.get_locked_balance(&user), 100);
}

#[test]
fn test_lock_minimal_one_second_duration_succeeds_and_is_not_yet_matured() {
    let mut chain = init_contract();
    let user = chain.new_user();
    chain.set_ledger_timestamp(1_000);
    deposit_balance(&mut chain, &user, 100);
    chain.lock_funds(&user, 100, 1_001);
    assert_eq!(chain.get_balance(&user), 0);
    assert_eq!(chain.get_locked_balance(&user), 100);
    assert_eq!(chain.can_withdraw(&user), false);
}

#[test]
fn test_lock_minimal_one_second_duration_matures_after_advancing_one_second() {
    let mut chain = init_contract();
    let user = chain.new_user();
    chain.set_ledger_timestamp(1_000);
    deposit_balance(&mut chain, &user, 100);
    chain.lock_funds(&user, 100, 1_001);
    chain.set_ledger_timestamp(1_001);
    assert_eq!(chain.can_withdraw(&user), true);
    assert_eq!(chain.get_locked_balance(&user), 0);
    assert_eq!(chain.get_balance(&user), 100);
}

#[test]
fn test_withdraw_succeeds_immediately_after_minimal_duration_lock_matures() {
    let mut chain = init_contract();
    let user = chain.new_user();
    chain.set_ledger_timestamp(1_000);
    chain.mint(&user, 10_000);
    chain.deposit(&user, 100);
    chain.token_transfer(&user, VAULT_ADDRESS, 100).unwrap();
    chain.lock_funds(&user, 100, 1_001);
    assert_eq!(chain.get_balance(&user), 0);
    chain.set_ledger_timestamp(1_001);
    assert_eq!(chain.can_withdraw(&user), true);
    chain.withdraw(&user, 100);
    assert_eq!(chain.get_balance(&user), 0);
    assert_eq!(chain.get_locked_balance(&user), 0);
}
