use vstd::prelude::*;

use crate::account::{
    account_wf, available, draw_available, lemma_draw_available, lock_page, MAX_LOCK_PAGE_SIZE, deposit_result, empty_account, find_lock, has_lock, holdings, is_first_position,
    lemma_first_position_unique, lock_position, lock_result, locked, new_lock_entry, withdraw_lock_result,
    withdraw_result, AccountView,
};
use crate::lock::{
    active_sum, all_positive, ids_above, lemma_consume_matured, lemma_matured_plus_active, lemma_sum_concat,
    lemma_sum_nonneg, lock_sum, locks_total, matured_sum, Lock, LockFilter,
};
use crate::error::VaultError;
use crate::vault::{
    balance_result, locked_balance_result, paused_at, readiness, vault_deposit_result, vault_lock_result, vault_withdraw_lock_result,
    vault_withdraw_result, SavingsVault, VaultConfig,
};

verus! {

/// Whatever the time, the available balance and the locked balance add up to
/// everything the vault holds for the user.
pub proof fn law_available_plus_locked_is_holdings(a: AccountView, now: u64)
    ensures
        available(a, now) + locked(a, now) == holdings(a),
{
    lemma_matured_plus_active(a.locks, now);
}

/// A deposit that goes through adds exactly the deposited (positive) amount to
/// the available balance and to the holdings, and leaves the locked balance
/// as it was, at every time.
pub proof fn law_deposit_credits_amount(a: AccountView, amount: i128, now: u64, t: u64)
    requires
        account_wf(a),
        deposit_result(a, amount, now) is Ok,
    ensures
        amount > 0,
        holdings(deposit_result(a, amount, now)->Ok_0) == holdings(a) + amount,
        available(deposit_result(a, amount, now)->Ok_0, t) == available(a, t) + amount,
        locked(deposit_result(a, amount, now)->Ok_0, t) == locked(a, t),
{
    lemma_sum_nonneg(a.locks, now, LockFilter::Matured);
}


/// A withdrawal that goes through takes a positive amount no larger than the
/// available balance; it lowers the available balance and the holdings by
/// exactly that amount and leaves the locked balance as it was.
pub proof fn law_withdraw_debits_amount(a: AccountView, amount: i128, now: u64)
    requires
        account_wf(a),
        withdraw_result(a, amount, now) is Ok,
    ensures
        0 < amount <= available(a, now),
        holdings(withdraw_result(a, amount, now)->Ok_0) == holdings(a) - amount,
        available(withdraw_result(a, amount, now)->Ok_0, now) == available(a, now) - amount,
        locked(withdraw_result(a, amount, now)->Ok_0, now) == locked(a, now),
{
    crate::account::lemma_draw_available(a, amount as int, now);
}

/// Removing the entry at `p` removes its share from every sum.
pub proof fn lemma_sum_remove(locks: Seq<Lock>, p: int, now: u64, filter: LockFilter)
    requires
        0 <= p < locks.len(),
    ensures
        lock_sum(locks.remove(p), now, filter) == lock_sum(locks, now, filter) - (if crate::lock::selected(
            locks[p],
            now,
            filter,
        ) {
            locks[p].amount as int
        } else {
            0
        }),
{
    let front = locks.take(p);
    let back = locks.skip(p);
    assert(locks =~= front + back);
    assert(locks.remove(p) =~= front + back.drop_first());
    lemma_sum_concat(front, back, now, filter);
    lemma_sum_concat(front, back.drop_first(), now, filter);
    crate::lock::lemma_sum_first(back, now, filter);
    assert(back[0] == locks[p]);
}

/// Withdrawing a lock that goes through hands out exactly that lock's amount:
/// the lock had matured, the holdings and the available balance drop by its
/// amount, and the locked balance stays as it was.
pub proof fn law_withdraw_lock_releases_lock(a: AccountView, lock_id: u64, now: u64)
    requires
        withdraw_lock_result(a, lock_id, now) is Ok,
    ensures
        find_lock(a.locks, lock_id) is Some,
        now >= find_lock(a.locks, lock_id)->Some_0.unlock_time,
        holdings(withdraw_lock_result(a, lock_id, now)->Ok_0) == holdings(a) - find_lock(
            a.locks,
            lock_id,
        )->Some_0.amount,
        available(withdraw_lock_result(a, lock_id, now)->Ok_0, now) == available(a, now)
            - find_lock(a.locks, lock_id)->Some_0.amount,
        locked(withdraw_lock_result(a, lock_id, now)->Ok_0, now) == locked(a, now),
        find_lock(withdraw_lock_result(a, lock_id, now)->Ok_0.locks, lock_id) is None || !account_wf(a),
{
    let p = lock_position(a.locks, lock_id);
    let b = withdraw_lock_result(a, lock_id, now)->Ok_0;
    crate::account::lemma_lock_position(a.locks, lock_id);
    lemma_sum_remove(a.locks, p, now, LockFilter::Matured);
    lemma_sum_remove(a.locks, p, now, LockFilter::Active);
    lemma_sum_remove(a.locks, p, 0, LockFilter::All);
    if account_wf(a) && has_lock(b.locks, lock_id) {
        let q = choose|q: int| 0 <= q < b.locks.len() && b.locks[q].id == lock_id;
        if q < p {
            assert(b.locks[q] == a.locks[q]);
        } else {
            assert(b.locks[q] == a.locks[q + 1]);
            assert(a.locks[p].id < a.locks[q + 1].id);
        }
    }
}

/// A lock that goes through draws its amount from the available balance (the
/// deposited balance first, then matured locks, oldest first) and moves it to
/// the locked balance: the holdings stay, the available balance drops and the
/// locked balance grows by exactly the amount. The new entry gets the next
/// lock id (which then advances by one), can be read back by that id, and
/// every other entry keeps an id the account already had.
pub proof fn law_lock_moves_amount(a: AccountView, amount: i128, unlock_time: u64, now: u64)
    requires
        account_wf(a),
        lock_result(a, amount, unlock_time, now) is Ok,
    ensures
        amount > 0,
        unlock_time > now,
        amount <= available(a, now),
        account_wf(lock_result(a, amount, unlock_time, now)->Ok_0),
        holdings(lock_result(a, amount, unlock_time, now)->Ok_0) == holdings(a),
        available(lock_result(a, amount, unlock_time, now)->Ok_0, now) == available(a, now) - amount,
        locked(lock_result(a, amount, unlock_time, now)->Ok_0, now) == locked(a, now) + amount,
        lock_result(a, amount, unlock_time, now)->Ok_0.next_lock_id == a.next_lock_id + 1,
        find_lock(lock_result(a, amount, unlock_time, now)->Ok_0.locks, a.next_lock_id) == Some(
            new_lock_entry(a, amount, unlock_time, now),
        ),
        forall|i: int|
            0 <= i < lock_result(a, amount, unlock_time, now)->Ok_0.locks.len() ==> (#[trigger] lock_result(
                a,
                amount,
                unlock_time,
                now,
            )->Ok_0.locks[i].id == a.next_lock_id || exists|j: int|
                0 <= j < a.locks.len() && a.locks[j].id == lock_result(a, amount, unlock_time, now)->Ok_0.locks[i].id),
{
    let b = lock_result(a, amount, unlock_time, now)->Ok_0;
    let d = draw_available(a, amount as int, now);
    let e = new_lock_entry(a, amount, unlock_time, now);
    lemma_draw_available(a, amount as int, now);
    lemma_matured_plus_active(b.locks, now);
    lemma_matured_plus_active(d.locks, now);
    assert(b.locks =~= d.locks.push(e));
    assert(b.locks.drop_last() =~= d.locks);
    assert(b.locks.last() == e);
    assert(matured_sum(b.locks, now) == matured_sum(d.locks, now));
    assert(active_sum(b.locks, now) == active_sum(d.locks, now) + amount);
    let last = d.locks.len() as int;
    assert(b.locks[last] == e);
    assert forall|i: int| 0 <= i < b.locks.len() implies #[trigger] b.locks[i].amount > 0 by {
        if i < last {
            assert(b.locks[i] == d.locks[i]);
        }
    }
    assert forall|i: int, j: int| 0 <= i < j < b.locks.len() implies b.locks[i].id < b.locks[j].id by {
        assert(b.locks[i] == d.locks[i]);
        if j < last {
            assert(b.locks[j] == d.locks[j]);
        }
    }
    assert forall|i: int| 0 <= i < b.locks.len() implies 1 <= #[trigger] b.locks[i].id < b.next_lock_id by {
        if i < last {
            assert(b.locks[i] == d.locks[i]);
        }
    }
    assert forall|j: int| 0 <= j < last implies b.locks[j].id != a.next_lock_id by {
        assert(b.locks[j] == d.locks[j]);
    }
    assert forall|i: int| 0 <= i < b.locks.len() implies (#[trigger] b.locks[i].id == a.next_lock_id
        || exists|j: int| 0 <= j < a.locks.len() && a.locks[j].id == b.locks[i].id) by {
        if i < last {
            assert(b.locks[i] == d.locks[i]);
        }
    }
    assert(is_first_position(b.locks, a.next_lock_id, last));
    lemma_first_position_unique(b.locks, a.next_lock_id, last);
}

/// Locks only ever mature: the later the time, the larger the matured sum and
/// the smaller the locked balance.
pub proof fn law_maturity_is_monotone(a: AccountView, t1: u64, t2: u64)
    requires
        account_wf(a),
        t1 <= t2,
    ensures
        matured_sum(a.locks, t1) <= matured_sum(a.locks, t2),
        available(a, t1) <= available(a, t2),
        locked(a, t2) <= locked(a, t1),
{
    lemma_matured_monotone(a.locks, t1, t2);
    lemma_matured_plus_active(a.locks, t1);
    lemma_matured_plus_active(a.locks, t2);
}

/// The matured sum grows with time when amounts are positive.
proof fn lemma_matured_monotone(locks: Seq<Lock>, t1: u64, t2: u64)
    requires
        all_positive(locks),
        t1 <= t2,
    ensures
        matured_sum(locks, t1) <= matured_sum(locks, t2),
    decreases locks.len(),
{
    if locks.len() > 0 {
        let init = locks.drop_last();
        assert(all_positive(init)) by {
            assert forall|i: int| 0 <= i < init.len() implies #[trigger] init[i].amount > 0 by {
                assert(init[i] == locks[i]);
            }
        }
        lemma_matured_monotone(init, t1, t2);
        assert(locks[locks.len() - 1].amount > 0);
    }
}

/// Before initialisation every operation on an account, and every query, is
/// refused as not initialised.
pub proof fn law_nothing_before_initialization(
    v: SavingsVault,
    a: AccountView,
    amount: i128,
    unlock_time: u64,
    lock_id: u64,
    now: u64,
)
    requires
        v.config is None,
    ensures
        vault_deposit_result(v, a, amount, now) == Err::<AccountView, VaultError>(VaultError::NotInitialized),
        vault_withdraw_result(v, a, amount, now) == Err::<AccountView, VaultError>(VaultError::NotInitialized),
        vault_lock_result(v, a, amount, unlock_time, now) == Err::<AccountView, VaultError>(
            VaultError::NotInitialized,
        ),
        vault_withdraw_lock_result(v, a, lock_id, now) == Err::<AccountView, VaultError>(
            VaultError::NotInitialized,
        ),
        balance_result(v, a, now) == Err::<i128, VaultError>(VaultError::NotInitialized),
        locked_balance_result(v, a, now) == Err::<i128, VaultError>(VaultError::NotInitialized),
        readiness(v) == Err::<VaultConfig, VaultError>(VaultError::NotInitialized),
{
}

/// While the pause is in force, deposits and new locks are refused.
pub proof fn law_pause_blocks_deposits_and_locks(
    v: SavingsVault,
    a: AccountView,
    amount: i128,
    unlock_time: u64,
    now: u64,
)
    requires
        readiness(v) is Ok,
        paused_at(readiness(v)->Ok_0, now),
    ensures
        vault_deposit_result(v, a, amount, now) == Err::<AccountView, VaultError>(VaultError::ContractPaused),
        vault_lock_result(v, a, amount, unlock_time, now) == Err::<AccountView, VaultError>(
            VaultError::ContractPaused,
        ),
{
}

/// The pause never touches withdrawals: with or without a pause in force,
/// `withdraw` and `withdraw_lock` do the same.
pub proof fn law_pause_leaves_withdrawals_open(c: VaultConfig, a: AccountView, amount: i128, lock_id: u64, now: u64)
    ensures
        vault_withdraw_result(SavingsVault { config: Some(c) }, a, amount, now) == vault_withdraw_result(
            SavingsVault { config: Some((VaultConfig { paused_until: None, ..c })) },
            a,
            amount,
            now,
        ),
        vault_withdraw_lock_result(SavingsVault { config: Some(c) }, a, lock_id, now)
            == vault_withdraw_lock_result(
            SavingsVault { config: Some((VaultConfig { paused_until: None, ..c })) },
            a,
            lock_id,
            now,
        ),
{
}

/// A pause lifts by itself once its expiry time is reached.
pub proof fn law_pause_expires(c: VaultConfig, now: u64)
    requires
        c.paused_until is Some,
        now >= c.paused_until->Some_0,
    ensures
        !paused_at(c, now),
{
}

/// The first lock of an account that has never locked anything gets id 1.
pub proof fn law_first_lock_id_is_one(owner: String, balance: i128, amount: i128, unlock_time: u64, now: u64)
    requires
        lock_result(AccountView { balance, ..empty_account(owner) }, amount, unlock_time, now) is Ok,
    ensures
        new_lock_entry(AccountView { balance, ..empty_account(owner) }, amount, unlock_time, now).id == 1,
        lock_result(AccountView { balance, ..empty_account(owner) }, amount, unlock_time, now)->Ok_0.locks == seq![
            new_lock_entry(AccountView { balance, ..empty_account(owner) }, amount, unlock_time, now),
        ],
{
    let a = AccountView { balance, ..empty_account(owner) };
    assert(a.locks.push(new_lock_entry(a, amount, unlock_time, now)) =~= seq![new_lock_entry(a, amount, unlock_time, now)]);
}

/// Every account operation that goes through keeps the account invariant:
/// no negative balance, positive lock amounts, and unique increasing lock ids
/// below the next id.
pub proof fn law_operations_keep_invariant(a: AccountView, step: Step)
    requires
        account_wf(a),
        step_result(a, step) is Ok,
    ensures
        account_wf(step_result(a, step)->Ok_0),
{
    let b = step_result(a, step)->Ok_0;
    match step.op {
        AccountOp::Deposit { amount } => {
            lemma_sum_nonneg(a.locks, step.now, LockFilter::Matured);
        },
        AccountOp::Withdraw { amount } => {
            crate::account::lemma_draw_available(a, amount as int, step.now);
        },
        AccountOp::Lock { amount, unlock_time } => {
            law_lock_moves_amount(a, amount, unlock_time, step.now);
        },
        AccountOp::WithdrawLock { lock_id } => {
            let p = lock_position(a.locks, lock_id);
            crate::account::lemma_lock_position(a.locks, lock_id);
            assert forall|i: int| 0 <= i < b.locks.len() implies b.locks[i] == (if i < p {
                a.locks[i]
            } else {
                a.locks[i + 1]
            }) by {}
            assert forall|i: int| 0 <= i < b.locks.len() implies #[trigger] b.locks[i].amount > 0 by {
                if i >= p {
                    assert(b.locks[i] == a.locks[i + 1]);
                }
            }
            assert forall|i: int, j: int| 0 <= i < j < b.locks.len() implies b.locks[i].id < b.locks[j].id by {
                if i >= p {
                    assert(b.locks[i] == a.locks[i + 1]);
                }
                if j >= p {
                    assert(b.locks[j] == a.locks[j + 1]);
                }
            }
            assert forall|i: int| 0 <= i < b.locks.len() implies 1 <= #[trigger] b.locks[i].id
                < b.next_lock_id by {
                if i >= p {
                    assert(b.locks[i] == a.locks[i + 1]);
                }
            }
        },
    }
}

/// One operation on a user's account.
pub enum AccountOp {
    Deposit { amount: i128 },
    Withdraw { amount: i128 },
    Lock { amount: i128, unlock_time: u64 },
    WithdrawLock { lock_id: u64 },
}

/// An operation together with the ledger time it runs at.
pub struct Step {
    pub op: AccountOp,
    pub now: u64,
}

/// What a step does to the account (the account-level rules).
pub open spec fn step_result(a: AccountView, step: Step) -> Result<AccountView, VaultError> {
    match step.op {
        AccountOp::Deposit { amount } => deposit_result(a, amount, step.now),
        AccountOp::Withdraw { amount } => withdraw_result(a, amount, step.now),
        AccountOp::Lock { amount, unlock_time } => lock_result(a, amount, unlock_time, step.now),
        AccountOp::WithdrawLock { lock_id } => withdraw_lock_result(a, lock_id, step.now),
    }
}

/// The tokens a step moves into the vault (negative when they leave it);
/// nothing moves when the step is refused.
pub open spec fn step_flow(a: AccountView, step: Step) -> int {
    if step_result(a, step) is Err {
        0
    } else {
        match step.op {
            AccountOp::Deposit { amount } => amount as int,
            AccountOp::Withdraw { amount } => -(amount as int),
            AccountOp::Lock { .. } => 0,
            AccountOp::WithdrawLock { lock_id } => -(find_lock(a.locks, lock_id)->Some_0.amount as int),
        }
    }
}

/// The account after running `steps` in order; a refused step changes nothing.
pub open spec fn replay(a: AccountView, steps: Seq<Step>) -> AccountView
    decreases steps.len(),
{
    if steps.len() == 0 {
        a
    } else {
        let before = replay(a, steps.drop_last());
        match step_result(before, steps.last()) {
            Ok(b) => b,
            Err(_) => before,
        }
    }
}

/// The net tokens that `steps` move into the vault: deposits less withdrawals.
pub open spec fn net_flow(a: AccountView, steps: Seq<Step>) -> int
    decreases steps.len(),
{
    if steps.len() == 0 {
        0
    } else {
        net_flow(a, steps.drop_last()) + step_flow(replay(a, steps.drop_last()), steps.last())
    }
}

/// Conservation: over any history of operations, and at any time, the
/// available balance plus the locked balance equals what the account started
/// with plus everything deposited less everything withdrawn; the account
/// invariant holds throughout.
pub proof fn law_balance_conservation(a: AccountView, steps: Seq<Step>, t: u64)
    requires
        account_wf(a),
    ensures
        account_wf(replay(a, steps)),
        holdings(replay(a, steps)) == holdings(a) + net_flow(a, steps),
        available(replay(a, steps), t) + locked(replay(a, steps), t) == holdings(a) + net_flow(a, steps),
    decreases steps.len(),
{
    law_available_plus_locked_is_holdings(replay(a, steps), t);
    if steps.len() > 0 {
        let init = steps.drop_last();
        law_balance_conservation(a, init, t);
        let before = replay(a, init);
        let step = steps.last();
        if step_result(before, step) is Ok {
            law_operations_keep_invariant(before, step);
            match step.op {
                AccountOp::Deposit { amount } => {
                    law_deposit_credits_amount(before, amount, step.now, t);
                },
                AccountOp::Withdraw { amount } => {
                    law_withdraw_debits_amount(before, amount, step.now);
                },
                AccountOp::Lock { amount, unlock_time } => {
                    law_lock_moves_amount(before, amount, unlock_time, step.now);
                },
                AccountOp::WithdrawLock { lock_id } => {
                    law_withdraw_lock_releases_lock(before, lock_id, step.now);
                },
            }
        }
    }
}

/// Once the vault is initialised with a supported storage version (and, for
/// deposits and locks, not paused), every account operation follows the
/// account rules unchanged.
pub proof fn law_ready_vault_applies_account_rules(
    v: SavingsVault,
    a: AccountView,
    amount: i128,
    unlock_time: u64,
    lock_id: u64,
    now: u64,
)
    requires
        readiness(v) is Ok,
    ensures
        vault_withdraw_result(v, a, amount, now) == withdraw_result(a, amount, now),
        vault_withdraw_lock_result(v, a, lock_id, now) == withdraw_lock_result(a, lock_id, now),
        !paused_at(readiness(v)->Ok_0, now) ==> vault_deposit_result(v, a, amount, now) == deposit_result(
            a,
            amount,
            now,
        ),
        !paused_at(readiness(v)->Ok_0, now) ==> vault_lock_result(v, a, amount, unlock_time, now)
            == lock_result(a, amount, unlock_time, now),
{
}

/// A page of locks holds at most `MAX_LOCK_PAGE_SIZE` and at most `limit`
/// entries, and they are the stored entries from position `offset` on, in
/// creation order.
pub proof fn law_lock_page_is_ordered_slice(locks: Seq<Lock>, offset: u32, limit: u32)
    ensures
        lock_page(locks, offset, limit).len() <= MAX_LOCK_PAGE_SIZE,
        lock_page(locks, offset, limit).len() <= limit,
        forall|i: int|
            0 <= i < lock_page(locks, offset, limit).len() ==> #[trigger] lock_page(locks, offset, limit)[i]
                == locks[offset + i],
{
}

/// After the admin role is handed to a different address, the previous admin
/// no longer passes the admin check.
pub proof fn law_previous_admin_loses_power(c: VaultConfig, caller: String, new_admin: String)
    requires
        c.admin@ == caller@,
        new_admin@ != caller@,
    ensures
        (VaultConfig { admin: new_admin, ..c }).admin@ != caller@,
{
}

/// An operation by one of several users, named by position.
pub struct UserStep {
    pub user: usize,
    pub step: Step,
}

/// Everything the vault holds across all users.
pub open spec fn total_holdings(accounts: Seq<AccountView>) -> int
    decreases accounts.len(),
{
    if accounts.len() == 0 {
        0
    } else {
        total_holdings(accounts.drop_last()) + holdings(accounts.last())
    }
}

/// One user's step applied to the vault: only that user's account can change.
pub open spec fn apply_user_step(accounts: Seq<AccountView>, s: UserStep) -> Seq<AccountView> {
    if s.user < accounts.len() {
        match step_result(accounts[s.user as int], s.step) {
            Ok(b) => accounts.update(s.user as int, b),
            Err(_) => accounts,
        }
    } else {
        accounts
    }
}

/// The tokens one user's step moves into the vault.
pub open spec fn user_step_flow(accounts: Seq<AccountView>, s: UserStep) -> int {
    if s.user < accounts.len() {
        step_flow(accounts[s.user as int], s.step)
    } else {
        0
    }
}

/// All accounts after running `steps` in order.
pub open spec fn replay_all(accounts: Seq<AccountView>, steps: Seq<UserStep>) -> Seq<AccountView>
    decreases steps.len(),
{
    if steps.len() == 0 {
        accounts
    } else {
        apply_user_step(replay_all(accounts, steps.drop_last()), steps.last())
    }
}

/// The net tokens that `steps` move into the vault, over all users.
pub open spec fn net_flow_all(accounts: Seq<AccountView>, steps: Seq<UserStep>) -> int
    decreases steps.len(),
{
    if steps.len() == 0 {
        0
    } else {
        net_flow_all(accounts, steps.drop_last()) + user_step_flow(
            replay_all(accounts, steps.drop_last()),
            steps.last(),
        )
    }
}

/// Replacing one account changes the total by the difference.
proof fn lemma_total_update(accounts: Seq<AccountView>, i: int, b: AccountView)
    requires
        0 <= i < accounts.len(),
    ensures
        total_holdings(accounts.update(i, b)) == total_holdings(accounts) - holdings(accounts[i]) + holdings(b),
    decreases accounts.len(),
{
    let u = accounts.update(i, b);
    if i == accounts.len() - 1 {
        assert(u.drop_last() =~= accounts.drop_last());
    } else {
        lemma_total_update(accounts.drop_last(), i, b);
        assert(u.drop_last() =~= accounts.drop_last().update(i, b));
    }
}

/// Isolation: a user's step leaves every other user's account exactly as it was.
pub proof fn law_users_are_isolated(accounts: Seq<AccountView>, s: UserStep, other: int)
    requires
        0 <= other < accounts.len(),
        other != s.user,
    ensures
        apply_user_step(accounts, s).len() == accounts.len(),
        apply_user_step(accounts, s)[other] == accounts[other],
{
}

/// Custody: over any history of operations by any users, what the vault holds
/// for all users together equals what it held at the start plus the tokens
/// that moved in less the tokens that moved out; no user's invariant breaks.
pub proof fn law_global_custody(accounts: Seq<AccountView>, steps: Seq<UserStep>)
    requires
        forall|i: int| 0 <= i < accounts.len() ==> account_wf(#[trigger] accounts[i]),
    ensures
        replay_all(accounts, steps).len() == accounts.len(),
        forall|i: int| 0 <= i < accounts.len() ==> account_wf(#[trigger] replay_all(accounts, steps)[i]),
        total_holdings(replay_all(accounts, steps)) == total_holdings(accounts) + net_flow_all(accounts, steps),
    decreases steps.len(),
{
    if steps.len() > 0 {
        let init = steps.drop_last();
        law_global_custody(accounts, init);
        let before = replay_all(accounts, init);
        let s = steps.last();
        if s.user < before.len() {
            let a = before[s.user as int];
            if step_result(a, s.step) is Ok {
                let b = step_result(a, s.step)->Ok_0;
                law_operations_keep_invariant(a, s.step);
                law_balance_conservation(a, seq![s.step], 0);
                assert(seq![s.step].drop_last() =~= Seq::<Step>::empty());
                assert(seq![s.step].last() == s.step);
                assert(net_flow(a, Seq::<Step>::empty()) == 0);
                assert(replay(a, seq![s.step]) == b);
                assert(net_flow(a, seq![s.step]) == step_flow(a, s.step));
                lemma_total_update(before, s.user as int, b);
                let after = before.update(s.user as int, b);
                assert forall|i: int| 0 <= i < accounts.len() implies account_wf(#[trigger] after[i]) by {
                    if i != s.user {
                        assert(after[i] == before[i]);
                    }
                }
            }
        }
    }
}

/// `lock_id` has been handed out and no lock holds it any more.
pub open spec fn id_retired(a: AccountView, lock_id: u64) -> bool {
    lock_id < a.next_lock_id && !has_lock(a.locks, lock_id)
}

/// No operation brings a retired lock id back.
proof fn lemma_step_keeps_retired(a: AccountView, step: Step, lock_id: u64)
    requires
        account_wf(a),
        id_retired(a, lock_id),
        step_result(a, step) is Ok,
    ensures
        id_retired(step_result(a, step)->Ok_0, lock_id),
{
    let b = step_result(a, step)->Ok_0;
    match step.op {
        AccountOp::Deposit { amount } => {},
        AccountOp::Withdraw { amount } => {
            lemma_draw_available(a, amount as int, step.now);
            if has_lock(b.locks, lock_id) {
                let i = choose|i: int| 0 <= i < b.locks.len() && b.locks[i].id == lock_id;
                assert(exists|j: int| 0 <= j < a.locks.len() && a.locks[j].id == b.locks[i].id);
            }
        },
        AccountOp::Lock { amount, unlock_time } => {
            law_lock_moves_amount(a, amount, unlock_time, step.now);
            if has_lock(b.locks, lock_id) {
                let i = choose|i: int| 0 <= i < b.locks.len() && b.locks[i].id == lock_id;
                assert(b.locks[i].id == a.next_lock_id || exists|j: int|
                    0 <= j < a.locks.len() && a.locks[j].id == b.locks[i].id);
            }
        },
        AccountOp::WithdrawLock { lock_id: other } => {
            let p = lock_position(a.locks, other);
            crate::account::lemma_lock_position(a.locks, other);
            if has_lock(b.locks, lock_id) {
                let i = choose|i: int| 0 <= i < b.locks.len() && b.locks[i].id == lock_id;
                if i < p {
                    assert(b.locks[i] == a.locks[i]);
                } else {
                    assert(b.locks[i] == a.locks[i + 1]);
                }
            }
        },
    }
}

/// A retired lock id stays retired over any later history.
proof fn lemma_replay_keeps_retired(a: AccountView, steps: Seq<Step>, lock_id: u64)
    requires
        account_wf(a),
        id_retired(a, lock_id),
    ensures
        id_retired(replay(a, steps), lock_id),
    decreases steps.len(),
{
    if steps.len() > 0 {
        let init = steps.drop_last();
        lemma_replay_keeps_retired(a, init, lock_id);
        law_balance_conservation(a, init, 0);
        let before = replay(a, init);
        if step_result(before, steps.last()) is Ok {
            lemma_step_keeps_retired(before, steps.last(), lock_id);
        }
    }
}

/// A lock is paid out at most once: after `withdraw_lock` has paid out the
/// lock `lock_id`, whatever operations follow, a later `withdraw_lock` for
/// that id is refused as not found and `get_lock` finds nothing, because lock
/// ids are never handed out again.
pub proof fn law_withdrawn_lock_is_paid_once(a: AccountView, lock_id: u64, now: u64, later: Seq<Step>, t: u64)
    requires
        account_wf(a),
        withdraw_lock_result(a, lock_id, now) is Ok,
    ensures
        withdraw_lock_result(replay(withdraw_lock_result(a, lock_id, now)->Ok_0, later), lock_id, t)
            == Err::<AccountView, VaultError>(VaultError::LockNotFound),
        find_lock(replay(withdraw_lock_result(a, lock_id, now)->Ok_0, later).locks, lock_id) is None,
{
    let b = withdraw_lock_result(a, lock_id, now)->Ok_0;
    let step = Step { op: AccountOp::WithdrawLock { lock_id }, now };
    assert(step_result(a, step) == withdraw_lock_result(a, lock_id, now));
    law_operations_keep_invariant(a, step);
    law_withdraw_lock_releases_lock(a, lock_id, now);
    crate::account::lemma_lock_position(a.locks, lock_id);
    assert(id_retired(b, lock_id));
    lemma_replay_keeps_retired(b, later, lock_id);
}
} // verus!
