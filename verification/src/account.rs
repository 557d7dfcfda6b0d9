use vstd::prelude::*;

use crate::error::VaultError;
use crate::lock::{
    active_sum, all_positive, checked_lock_sum, consume_matured, ids_increasing, ids_above,
    lemma_consume_ids, lemma_consume_matured, lemma_matured_plus_active, lemma_sum_nonneg, locks_total, matured_sum, take_from_matured,
    Lock, LockEntry, LockFilter,
};

verus! {

/// One user's records in the vault: the owner's address, the deposited
/// (unlocked) balance, the lock entries in creation order, and the id the
/// next lock will receive.
#[derive(Clone)]
pub struct UserAccount {
    owner: String,
    balance: i128,
    locks: Vec<Lock>,
    next_lock_id: u64,
}

/// The mathematical content of a [`UserAccount`].
pub struct AccountView {
    pub owner: String,
    pub balance: i128,
    pub locks: Seq<Lock>,
    pub next_lock_id: u64,
}

impl View for UserAccount {
    type V = AccountView;

    closed spec fn view(&self) -> AccountView {
        AccountView {
            owner: self.owner,
            balance: self.balance,
            locks: self.locks@,
            next_lock_id: self.next_lock_id,
        }
    }
}

/// The invariant every stored account keeps: the deposited balance is not
/// negative, every lock holds a positive amount, and lock ids strictly
/// increase, start at 1 and stay below the next id to be handed out.
pub open spec fn account_wf(a: AccountView) -> bool {
    &&& a.balance >= 0
    &&& a.next_lock_id >= 1
    &&& all_positive(a.locks)
    &&& ids_increasing(a.locks)
    &&& forall|i: int| 0 <= i < a.locks.len() ==> 1 <= #[trigger] a.locks[i].id < a.next_lock_id
}

/// An account that has never been used.
pub open spec fn empty_account(owner: String) -> AccountView {
    AccountView { owner, balance: 0, locks: Seq::empty(), next_lock_id: 1 }
}

/// The balance a user can withdraw at `now`: the deposited balance plus every
/// matured lock.
pub open spec fn available(a: AccountView, now: u64) -> int {
    a.balance + matured_sum(a.locks, now)
}

/// The balance still locked at `now`: every lock that has not matured.
pub open spec fn locked(a: AccountView, now: u64) -> int {
    active_sum(a.locks, now)
}

/// Everything the vault holds for the user, whatever the time.
pub open spec fn holdings(a: AccountView) -> int {
    a.balance + locks_total(a.locks)
}

/// Whether the user has a lock with id `lock_id`.
pub open spec fn has_lock(locks: Seq<Lock>, lock_id: u64) -> bool {
    exists|i: int| 0 <= i < locks.len() && locks[i].id == lock_id
}

/// `i` is the first position of a lock with id `lock_id`.
pub open spec fn is_first_position(locks: Seq<Lock>, lock_id: u64, i: int) -> bool {
    &&& 0 <= i < locks.len()
    &&& locks[i].id == lock_id
    &&& forall|j: int| 0 <= j < i ==> locks[j].id != lock_id
}

/// The first position of a lock with id `lock_id` (meaningful when `has_lock`).
pub open spec fn lock_position(locks: Seq<Lock>, lock_id: u64) -> int {
    choose|i: int| is_first_position(locks, lock_id, i)
}

/// The lock with id `lock_id`, if the user has one.
pub open spec fn find_lock(locks: Seq<Lock>, lock_id: u64) -> Option<Lock> {
    if has_lock(locks, lock_id) {
        Some(locks[lock_position(locks, lock_id)])
    } else {
        None
    }
}

/// The most lock entries one page of `list_locks` returns.
pub const MAX_LOCK_PAGE_SIZE: u32 = 50;

/// Where a page that starts at `offset` with at most `limit` entries ends: the
/// page size is capped at `MAX_LOCK_PAGE_SIZE`, the end saturates at
/// `u32::MAX`, and the page stops at the last lock.
pub open spec fn page_end(len: int, offset: u32, limit: u32) -> int {
    let size = if limit < MAX_LOCK_PAGE_SIZE {
        limit as int
    } else {
        MAX_LOCK_PAGE_SIZE as int
    };
    let end = if offset + size > u32::MAX {
        u32::MAX as int
    } else {
        offset + size
    };
    if end < len {
        end
    } else {
        len
    }
}

/// The page of lock entries from position `offset`, oldest first: empty when
/// `limit` is zero or `offset` is past the last lock.
pub open spec fn lock_page(locks: Seq<Lock>, offset: u32, limit: u32) -> Seq<Lock> {
    if limit == 0 || offset >= locks.len() {
        Seq::empty()
    } else {
        locks.subrange(offset as int, page_end(locks.len() as int, offset, limit))
    }
}

/// The record that the read operations report for `lock` of `owner`: a
/// stored lock has not been withdrawn.
pub open spec fn lock_record(owner: String, lock: Lock) -> LockEntry {
    LockEntry {
        id: lock.id,
        owner,
        amount: lock.amount,
        created_time: lock.created_time,
        unlock_time: lock.unlock_time,
        withdrawn: false,
    }
}

/// The records of `locks`, in order, as reported for the account's owner.
pub open spec fn lock_records(a: AccountView, locks: Seq<Lock>) -> Seq<LockEntry> {
    locks.map_values(|l: Lock| lock_record(a.owner, l))
}

/// The record of the account's lock with id `lock_id`, if it has one.
pub open spec fn find_lock_record(a: AccountView, lock_id: u64) -> Option<LockEntry> {
    match find_lock(a.locks, lock_id) {
        Some(l) => Some(lock_record(a.owner, l)),
        None => None,
    }
}

/// A first position, where one exists, is the one `lock_position` names.
pub proof fn lemma_first_position_unique(locks: Seq<Lock>, lock_id: u64, i: int)
    requires
        is_first_position(locks, lock_id, i),
    ensures
        has_lock(locks, lock_id),
        lock_position(locks, lock_id) == i,
{
    let p = lock_position(locks, lock_id);
    assert(is_first_position(locks, lock_id, p));
    if p < i {
        assert(locks[p].id != lock_id);
    } else if p > i {
        assert(locks[i].id != lock_id);
    }
}

/// Where a lock with id `lock_id` exists, `lock_position` is the first one.
pub proof fn lemma_lock_position(locks: Seq<Lock>, lock_id: u64)
    requires
        has_lock(locks, lock_id),
    ensures
        is_first_position(locks, lock_id, lock_position(locks, lock_id)),
{
    let i = choose|i: int| 0 <= i < locks.len() && locks[i].id == lock_id;
    lemma_first_position_exists(locks, lock_id, i);
}

proof fn lemma_first_position_exists(locks: Seq<Lock>, lock_id: u64, i: int)
    requires
        0 <= i < locks.len(),
        locks[i].id == lock_id,
    ensures
        exists|k: int| is_first_position(locks, lock_id, k),
    decreases i,
{
    if exists|j: int| 0 <= j < i && locks[j].id == lock_id {
        let j = choose|j: int| 0 <= j < i && locks[j].id == lock_id;
        lemma_first_position_exists(locks, lock_id, j);
    } else {
        assert(is_first_position(locks, lock_id, i));
    }
}

/// What a deposit of `amount` at `now` does to the account. The deposit is
/// refused where the available balance after it would leave the range of
/// `i128`.
pub open spec fn deposit_result(a: AccountView, amount: i128, now: u64) -> Result<AccountView, VaultError> {
    if amount <= 0 {
        Err(VaultError::InvalidDepositAmount)
    } else if available(a, now) + amount > i128::MAX {
        Err(VaultError::ArithmeticOverflow)
    } else {
        Ok(AccountView { balance: (a.balance + amount) as i128, ..a })
    }
}

/// The account after `amount` is drawn at `now` from what is available:
/// from the deposited balance first, then from the matured locks, oldest
/// first (see `consume_matured`).
pub open spec fn draw_available(a: AccountView, amount: int, now: u64) -> AccountView {
    if amount <= a.balance {
        AccountView { balance: (a.balance - amount) as i128, ..a }
    } else {
        AccountView { balance: 0, locks: consume_matured(a.locks, now, amount - a.balance), ..a }
    }
}

/// Drawing a positive amount no larger than the available balance keeps the
/// account invariant, lowers the holdings and the available balance by that
/// amount, leaves the locked balance and the next id alone, and keeps only
/// lock ids the account already had.
pub proof fn lemma_draw_available(a: AccountView, amount: int, now: u64)
    requires
        account_wf(a),
        0 < amount <= available(a, now),
    ensures
        account_wf(draw_available(a, amount, now)),
        holdings(draw_available(a, amount, now)) == holdings(a) - amount,
        available(draw_available(a, amount, now), now) == available(a, now) - amount,
        locked(draw_available(a, amount, now), now) == locked(a, now),
        draw_available(a, amount, now).next_lock_id == a.next_lock_id,
        forall|i: int|
            0 <= i < draw_available(a, amount, now).locks.len() ==> exists|j: int|
                0 <= j < a.locks.len() && a.locks[j].id == #[trigger] draw_available(
                    a,
                    amount,
                    now,
                ).locks[i].id,
{
    let d = draw_available(a, amount, now);
    lemma_matured_plus_active(a.locks, now);
    lemma_matured_plus_active(d.locks, now);
    if amount > a.balance {
        lemma_sum_nonneg(a.locks, now, LockFilter::Matured);
        assert(ids_above(a.locks, 0));
        lemma_consume_matured(a.locks, now, amount - a.balance, 0, a.next_lock_id as int);
        lemma_consume_ids(a.locks, now, amount - a.balance);
    } else {
        assert forall|i: int| 0 <= i < d.locks.len() implies exists|j: int|
            0 <= j < a.locks.len() && a.locks[j].id == #[trigger] d.locks[i].id by {
            assert(a.locks[i].id == d.locks[i].id);
        }
    }
}

/// What a withdrawal of `amount` at `now` does to the account: it is drawn
/// from the available balance (see `draw_available`).
pub open spec fn withdraw_result(a: AccountView, amount: i128, now: u64) -> Result<AccountView, VaultError> {
    if amount <= 0 {
        Err(VaultError::InvalidWithdrawalAmount)
    } else if available(a, now) > i128::MAX {
        Err(VaultError::ArithmeticOverflow)
    } else if amount > available(a, now) {
        Err(VaultError::InsufficientBalance)
    } else if locked(a, now) > i128::MAX {
        Err(VaultError::ArithmeticOverflow)
    } else {
        Ok(draw_available(a, amount as int, now))
    }
}

/// The entry that a lock of `amount` until `unlock_time`, made at `now`, adds.
pub open spec fn new_lock_entry(a: AccountView, amount: i128, unlock_time: u64, now: u64) -> Lock {
    Lock { id: a.next_lock_id, amount, created_time: now, unlock_time }
}

/// What locking `amount` until `unlock_time` at `now` does to the account:
/// the amount is drawn from the available balance (see `draw_available`) and
/// becomes a new lock entry with the next id.
pub open spec fn lock_result(a: AccountView, amount: i128, unlock_time: u64, now: u64) -> Result<
    AccountView,
    VaultError,
> {
    if amount <= 0 {
        Err(VaultError::InvalidLockAmount)
    } else if unlock_time <= now {
        Err(VaultError::UnlockTimeNotInFuture)
    } else if available(a, now) > i128::MAX {
        Err(VaultError::ArithmeticOverflow)
    } else if amount > available(a, now) {
        Err(VaultError::InsufficientBalanceToLock)
    } else if a.next_lock_id == u64::MAX {
        Err(VaultError::ArithmeticOverflow)
    } else if locked(a, now) + amount > i128::MAX {
        Err(VaultError::ArithmeticOverflow)
    } else {
        Ok(
            AccountView {
                balance: draw_available(a, amount as int, now).balance,
                locks: draw_available(a, amount as int, now).locks.push(new_lock_entry(a, amount, unlock_time, now)),
                next_lock_id: (a.next_lock_id + 1) as u64,
                ..a
            },
        )
    }
}

/// What withdrawing the lock `lock_id` in full at `now` does to the account.
pub open spec fn withdraw_lock_result(a: AccountView, lock_id: u64, now: u64) -> Result<
    AccountView,
    VaultError,
> {
    if !has_lock(a.locks, lock_id) {
        Err(VaultError::LockNotFound)
    } else if now < a.locks[lock_position(a.locks, lock_id)].unlock_time {
        Err(VaultError::LockNotMatured)
    } else {
        Ok(
            AccountView { locks: a.locks.remove(lock_position(a.locks, lock_id)), ..a },
        )
    }
}

/// A deposit that went through: `amount` is to be transferred from the user
/// into the vault; `new_balance` is the user's available balance (deposited
/// plus matured locks) after it.
#[derive(Clone, Copy, Debug, PartialEq, Eq, Structural)]
pub struct DepositReceipt {
    pub amount: i128,
    pub new_balance: i128,
}

/// A withdrawal that went through: `amount` is to be transferred from the vault
/// to the user; `new_balance` is the available balance (deposited plus matured
/// locks) after it and `new_locked` the balance still locked (unmatured locks).
#[derive(Clone, Copy, Debug, PartialEq, Eq, Structural)]
pub struct WithdrawReceipt {
    pub amount: i128,
    pub new_balance: i128,
    pub new_locked: i128,
}

/// A lock that went through: `lock_id` names the new entry; `new_balance` is
/// the available balance (deposited plus matured locks) after it and
/// `new_locked` the balance still locked (unmatured locks, the new one
/// included).
#[derive(Clone, Copy, Debug, PartialEq, Eq, Structural)]
pub struct LockReceipt {
    pub lock_id: u64,
    pub amount: i128,
    pub unlock_time: u64,
    pub new_balance: i128,
    pub new_locked: i128,
}

/// A lock withdrawal that went through: `amount` is to be transferred from the
/// vault to the user.
#[derive(Clone, Copy, Debug, PartialEq, Eq, Structural)]
pub struct WithdrawLockReceipt {
    pub lock_id: u64,
    pub amount: i128,
}

/// Appending the entry of a fresh lock to an account whose ids stay below
/// `id`, and handing out `id + 1` next, keeps the account invariant; it
/// raises the locked balance by the amount and leaves the available balance
/// alone.
proof fn lemma_push_new_lock(d: AccountView, amount: i128, unlock_time: u64, now: u64, id: u64, next: u64)
    requires
        account_wf(d),
        d.next_lock_id == id,
        next == id + 1,
        amount > 0,
        unlock_time > now,
    ensures
        ({
            let e = Lock { id, amount, created_time: now, unlock_time };
            let r = AccountView { locks: d.locks.push(e), next_lock_id: next, ..d };
            &&& account_wf(r)
            &&& locked(r, now) == locked(d, now) + amount
            &&& available(r, now) == available(d, now)
        }),
{
    let e = Lock { id, amount, created_time: now, unlock_time };
    let new_locks = d.locks.push(e);
    assert(new_locks.drop_last() =~= d.locks);
    assert(new_locks.last() == e);
    assert(active_sum(new_locks, now) == active_sum(d.locks, now) + amount);
    assert(matured_sum(new_locks, now) == matured_sum(d.locks, now));
    assert forall|i: int| 0 <= i < new_locks.len() implies #[trigger] new_locks[i].amount > 0 by {
        if i < d.locks.len() {
            assert(new_locks[i] == d.locks[i]);
        }
    }
    assert forall|i: int, j: int| 0 <= i < j < new_locks.len() implies new_locks[i].id
        < new_locks[j].id by {
        assert(new_locks[i] == d.locks[i]);
        if j < d.locks.len() {
            assert(new_locks[j] == d.locks[j]);
        }
    }
    assert forall|i: int| 0 <= i < new_locks.len() implies 1 <= #[trigger] new_locks[i].id < next by {
        if i < d.locks.len() {
            assert(new_locks[i] == d.locks[i]);
        }
    }
}

impl UserAccount {
    /// The invariant of the account's contents.
    pub open spec fn wf(&self) -> bool {
        account_wf(self@)
    }

    /// An account of `owner` with nothing deposited and no locks; the first
    /// lock gets id 1.
    pub fn new(owner: String) -> (r: UserAccount)
        ensures
            r@ == empty_account(owner),
            r.wf(),
    {
        UserAccount { owner, balance: 0, locks: Vec::new(), next_lock_id: 1 }
    }

    /// Rebuilds an account from stored parts, or `None` where the parts break
    /// the account invariant.
    pub fn from_parts(owner: String, balance: i128, locks: Vec<Lock>, next_lock_id: u64) -> (r: Option<
        UserAccount,
    >)
        ensures
            match r {
                Some(acct) => acct@ == (AccountView { owner, balance, locks: locks@, next_lock_id }),
                None => !account_wf(AccountView { owner, balance, locks: locks@, next_lock_id }),
            },
            r matches Some(acct) ==> acct.wf(),
    {
        if balance < 0 || next_lock_id < 1 {
            return None;
        }
        let n = locks.len();
        let mut i: usize = 0;
        while i < n
            invariant
                n == locks@.len(),
                0 <= i <= n,
                forall|k: int| 0 <= k < i ==> #[trigger] locks@[k].amount > 0,
                forall|k: int| 0 <= k < i ==> 1 <= #[trigger] locks@[k].id < next_lock_id,
                forall|k: int, j: int| 0 <= k < j < i ==> locks@[k].id < locks@[j].id,
            decreases n - i,
        {
            let lock = locks[i];
            if lock.amount <= 0 || lock.id < 1 || lock.id >= next_lock_id {
                return None;
            }
            if i > 0 && locks[i - 1].id >= lock.id {
                return None;
            }
            proof {
                assert forall|k: int, j: int| 0 <= k < j < i + 1 implies locks@[k].id < locks@[j].id by {
                    if j == i && k < i - 1 {
                        assert(locks@[k].id < locks@[i - 1].id);
                    }
                }
            }
            i = i + 1;
        }
        Some(UserAccount { owner, balance, locks, next_lock_id })
    }

    /// The owner's address.
    pub fn owner(&self) -> (r: &String)
        ensures
            *r == self@.owner,
    {
        &self.owner
    }

    /// The deposited (not locked) balance.
    pub fn balance(&self) -> (r: i128)
        ensures
            r == self@.balance,
    {
        self.balance
    }

    /// The lock entries, oldest first.
    pub fn locks(&self) -> (r: &Vec<Lock>)
        ensures
            r@ == self@.locks,
    {
        &self.locks
    }

    /// The id the next lock will receive.
    pub fn next_lock_id(&self) -> (r: u64)
        ensures
            r == self@.next_lock_id,
    {
        self.next_lock_id
    }

    /// Credits a deposit of `amount` at `now`.
    pub(crate) fn apply_deposit(&mut self, amount: i128, now: u64) -> (r: Result<DepositReceipt, VaultError>)
        requires
            old(self).wf(),
        ensures
            final(self).wf(),
            match deposit_result(old(self)@, amount, now) {
                Ok(a) => final(self)@ == a && r == Ok::<DepositReceipt, VaultError>(
                    (DepositReceipt { amount, new_balance: available(a, now) as i128 }),
                ),
                Err(e) => final(self)@ == old(self)@ && r == Err::<DepositReceipt, VaultError>(e),
            },
    {
        if amount <= 0 {
            return Err(VaultError::InvalidDepositAmount);
        }
        proof {
            lemma_sum_nonneg(self.locks@, now, LockFilter::Matured);
        }
        let available = match self.checked_available(now) {
            Some(v) => v,
            None => {
                return Err(VaultError::ArithmeticOverflow);
            },
        };
        match available.checked_add(amount) {
            Some(new_available) => {
                self.balance = self.balance + amount;
                Ok(DepositReceipt { amount, new_balance: new_available })
            },
            None => Err(VaultError::ArithmeticOverflow),
        }
    }

    /// The available balance at `now`, or `None` where it leaves the range of `i128`.
    fn checked_available(&self, now: u64) -> (r: Option<i128>)
        requires
            self.wf(),
        ensures
            match r {
                Some(v) => v == available(self@, now),
                None => available(self@, now) > i128::MAX,
            },
    {
        proof {
            lemma_sum_nonneg(self.locks@, now, LockFilter::Matured);
        }
        match checked_lock_sum(&self.locks, now, LockFilter::Matured) {
            Some(m) => self.balance.checked_add(m),
            None => None,
        }
    }

    /// Draws `amount` from the available balance (see `draw_available`).
    fn draw(&mut self, amount: i128, now: u64)
        requires
            old(self).wf(),
            0 < amount <= available(old(self)@, now),
        ensures
            final(self)@ == draw_available(old(self)@, amount as int, now),
            final(self).wf(),
    {
        proof {
            lemma_draw_available(self@, amount as int, now);
        }
        if amount <= self.balance {
            self.balance = self.balance - amount;
        } else {
            let remaining = amount - self.balance;
            let new_locks = take_from_matured(&self.locks, now, remaining);
            self.balance = 0;
            self.locks = new_locks;
        }
    }

    /// Withdraws `amount` at `now`: from the deposited balance first, then from
    /// the matured locks, oldest first.
    pub(crate) fn apply_withdraw(&mut self, amount: i128, now: u64) -> (r: Result<WithdrawReceipt, VaultError>)
        requires
            old(self).wf(),
        ensures
            final(self).wf(),
            match withdraw_result(old(self)@, amount, now) {
                Ok(a) => final(self)@ == a && r == Ok::<WithdrawReceipt, VaultError>(
                    (WithdrawReceipt {
                        amount,
                        new_balance: available(a, now) as i128,
                        new_locked: locked(a, now) as i128,
                    }),
                ),
                Err(e) => final(self)@ == old(self)@ && r == Err::<WithdrawReceipt, VaultError>(e),
            },
    {
        if amount <= 0 {
            return Err(VaultError::InvalidWithdrawalAmount);
        }
        let available = match self.checked_available(now) {
            Some(v) => v,
            None => {
                return Err(VaultError::ArithmeticOverflow);
            },
        };
        if amount > available {
            return Err(VaultError::InsufficientBalance);
        }
        let new_locked = match checked_lock_sum(&self.locks, now, LockFilter::Active) {
            Some(v) => v,
            None => {
                return Err(VaultError::ArithmeticOverflow);
            },
        };
        proof {
            lemma_draw_available(self@, amount as int, now);
        }
        self.draw(amount, now);
        Ok(WithdrawReceipt { amount, new_balance: available - amount, new_locked })
    }

    /// Locks `amount` until `unlock_time`, at `now`, drawing it from the
    /// available balance: the deposited balance first, then matured locks,
    /// oldest first.
    pub(crate) fn apply_lock(&mut self, amount: i128, unlock_time: u64, now: u64) -> (r: Result<LockReceipt, VaultError>)
        requires
            old(self).wf(),
        ensures
            final(self).wf(),
            match lock_result(old(self)@, amount, unlock_time, now) {
                Ok(a) => final(self)@ == a && r == Ok::<LockReceipt, VaultError>(
                    (LockReceipt {
                        lock_id: old(self)@.next_lock_id,
                        amount,
                        unlock_time,
                        new_balance: available(a, now) as i128,
                        new_locked: locked(a, now) as i128,
                    }),
                ),
                Err(e) => final(self)@ == old(self)@ && r == Err::<LockReceipt, VaultError>(e),
            },
    {
        if amount <= 0 {
            return Err(VaultError::InvalidLockAmount);
        }
        if unlock_time <= now {
            return Err(VaultError::UnlockTimeNotInFuture);
        }
        let available = match self.checked_available(now) {
            Some(v) => v,
            None => {
                return Err(VaultError::ArithmeticOverflow);
            },
        };
        if amount > available {
            return Err(VaultError::InsufficientBalanceToLock);
        }
        let id = self.next_lock_id;
        let next = match id.checked_add(1) {
            Some(n) => n,
            None => {
                return Err(VaultError::ArithmeticOverflow);
            },
        };
        let active = match checked_lock_sum(&self.locks, now, LockFilter::Active) {
            Some(t) => t,
            None => {
                proof {
                    lemma_sum_nonneg(self.locks@, now, LockFilter::Active);
                }
                return Err(VaultError::ArithmeticOverflow);
            },
        };
        let new_locked = match active.checked_add(amount) {
            Some(t) => t,
            None => {
                return Err(VaultError::ArithmeticOverflow);
            },
        };
        let ghost before = self@;
        proof {
            lemma_draw_available(before, amount as int, now);
            lemma_push_new_lock(draw_available(before, amount as int, now), amount, unlock_time, now, id, next);
        }
        self.draw(amount, now);
        let entry = Lock { id, amount, created_time: now, unlock_time };
        self.locks.push(entry);
        self.next_lock_id = next;
        assert(self@ == lock_result(before, amount, unlock_time, now)->Ok_0);
        Ok(LockReceipt { lock_id: id, amount, unlock_time, new_balance: available - amount, new_locked })
    }

    /// The first position of a lock with id `lock_id`, if any.
    fn position_of(&self, lock_id: u64) -> (r: Option<usize>)
        ensures
            match r {
                Some(i) => is_first_position(self@.locks, lock_id, i as int),
                None => !has_lock(self@.locks, lock_id),
            },
    {
        let n = self.locks.len();
        let mut i: usize = 0;
        while i < n
            invariant
                n == self.locks@.len(),
                0 <= i <= n,
                forall|j: int| 0 <= j < i ==> self.locks@[j].id != lock_id,
            decreases n - i,
        {
            if self.locks[i].id == lock_id {
                return Some(i);
            }
            i = i + 1;
        }
        None
    }

    /// Withdraws the matured lock `lock_id` in full at `now`.
    pub(crate) fn apply_withdraw_lock(&mut self, lock_id: u64, now: u64) -> (r: Result<WithdrawLockReceipt, VaultError>)
        requires
            old(self).wf(),
        ensures
            final(self).wf(),
            match withdraw_lock_result(old(self)@, lock_id, now) {
                Ok(a) => final(self)@ == a && r == Ok::<WithdrawLockReceipt, VaultError>(
                    (WithdrawLockReceipt {
                        lock_id,
                        amount: old(self)@.locks[lock_position(old(self)@.locks, lock_id)].amount,
                    }),
                ),
                Err(e) => final(self)@ == old(self)@ && r == Err::<WithdrawLockReceipt, VaultError>(e),
            },
    {
        let index = match self.position_of(lock_id) {
            Some(i) => i,
            None => {
                return Err(VaultError::LockNotFound);
            },
        };
        proof {
            lemma_first_position_unique(self@.locks, lock_id, index as int);
        }
        let lock = self.locks[index];
        if now < lock.unlock_time {
            return Err(VaultError::LockNotMatured);
        }
        let ghost old_locks = self.locks@;
        let removed = self.locks.remove(index);
        proof {
            let new_locks = old_locks.remove(index as int);
            assert forall|i: int| 0 <= i < new_locks.len() implies new_locks[i] == (if i < index {
                old_locks[i]
            } else {
                old_locks[i + 1]
            }) by {}
            assert forall|i: int| 0 <= i < new_locks.len() implies #[trigger] new_locks[i].amount > 0 by {
                if i >= index {
                    assert(new_locks[i] == old_locks[i + 1]);
                }
            }
            assert forall|i: int, j: int| 0 <= i < j < new_locks.len() implies new_locks[i].id
                < new_locks[j].id by {
                if i >= index {
                    assert(new_locks[i] == old_locks[i + 1]);
                }
                if j >= index {
                    assert(new_locks[j] == old_locks[j + 1]);
                }
            }
            assert forall|i: int| 0 <= i < new_locks.len() implies 1 <= #[trigger] new_locks[i].id
                < self.next_lock_id by {
                if i >= index {
                    assert(new_locks[i] == old_locks[i + 1]);
                }
            }
        }
        Ok(WithdrawLockReceipt { lock_id, amount: removed.amount })
    }

    /// The available balance at `now`: deposited plus matured locks.
    pub(crate) fn available_at(&self, now: u64) -> (r: Result<i128, VaultError>)
        requires
            self.wf(),
        ensures
            match r {
                Ok(v) => v == available(self@, now),
                Err(e) => e == VaultError::ArithmeticOverflow && available(self@, now) > i128::MAX,
            },
    {
        proof {
            lemma_sum_nonneg(self.locks@, now, LockFilter::Matured);
        }
        let matured = match checked_lock_sum(&self.locks, now, LockFilter::Matured) {
            Some(m) => m,
            None => {
                return Err(VaultError::ArithmeticOverflow);
            },
        };
        match self.balance.checked_add(matured) {
            Some(v) => Ok(v),
            None => Err(VaultError::ArithmeticOverflow),
        }
    }

    /// The balance still locked at `now`.
    pub(crate) fn locked_at(&self, now: u64) -> (r: Result<i128, VaultError>)
        requires
            self.wf(),
        ensures
            match r {
                Ok(v) => v == locked(self@, now),
                Err(e) => e == VaultError::ArithmeticOverflow && locked(self@, now) > i128::MAX,
            },
    {
        match checked_lock_sum(&self.locks, now, LockFilter::Active) {
            Some(v) => Ok(v),
            None => Err(VaultError::ArithmeticOverflow),
        }
    }

    /// Whether some lock has matured at `now`.
    pub(crate) fn has_matured_lock(&self, now: u64) -> (r: bool)
        ensures
            r == exists|i: int| 0 <= i < self@.locks.len() && now >= #[trigger] self@.locks[i].unlock_time,
    {
        let n = self.locks.len();
        let mut i: usize = 0;
        while i < n
            invariant
                n == self.locks@.len(),
                0 <= i <= n,
                forall|j: int| 0 <= j < i ==> now < #[trigger] self.locks@[j].unlock_time,
            decreases n - i,
        {
            if now >= self.locks[i].unlock_time {
                assert(now >= self@.locks[i as int].unlock_time);
                return true;
            }
            i = i + 1;
        }
        false
    }

    /// The record that the read operations report for `lock`.
    fn record_of(&self, lock: Lock) -> (r: LockEntry)
        ensures
            r == lock_record(self@.owner, lock),
    {
        LockEntry {
            id: lock.id,
            owner: self.owner.clone(),
            amount: lock.amount,
            created_time: lock.created_time,
            unlock_time: lock.unlock_time,
            withdrawn: false,
        }
    }

    /// The record of the lock with id `lock_id`, if any.
    pub(crate) fn lock_by_id(&self, lock_id: u64) -> (r: Option<LockEntry>)
        ensures
            r == find_lock_record(self@, lock_id),
    {
        match self.position_of(lock_id) {
            Some(i) => {
                proof {
                    lemma_first_position_unique(self@.locks, lock_id, i as int);
                }
                Some(self.record_of(self.locks[i]))
            },
            None => None,
        }
    }

    /// One page of lock entries, oldest first (see `lock_page`).
    pub(crate) fn lock_page_of(&self, offset: u32, limit: u32) -> (r: Vec<LockEntry>)
        ensures
            r@ == lock_records(self@, lock_page(self@.locks, offset, limit)),
    {
        if limit == 0 {
            return Vec::new();
        }
        let page_limit = if limit < MAX_LOCK_PAGE_SIZE {
            limit
        } else {
            MAX_LOCK_PAGE_SIZE
        };
        let total = self.locks.len();
        if offset as usize >= total {
            return Vec::new();
        }
        let end_u32 = offset.saturating_add(page_limit);
        let end: usize = if (end_u32 as usize) < total {
            end_u32 as usize
        } else {
            total
        };
        let mut page: Vec<LockEntry> = Vec::new();
        let mut i: usize = offset as usize;
        while i < end
            invariant
                offset <= i <= end <= total,
                total == self.locks@.len(),
                page@ == lock_records(self@, self.locks@.subrange(offset as int, i as int)),
            decreases end - i,
        {
            let record = self.record_of(self.locks[i]);
            page.push(record);
            proof {
                assert(self.locks@.subrange(offset as int, i + 1) =~= self.locks@.subrange(
                    offset as int,
                    i as int,
                ).push(self.locks@[i as int]));
                assert(lock_records(self@, self.locks@.subrange(offset as int, i + 1)) =~= lock_records(
                    self@,
                    self.locks@.subrange(offset as int, i as int),
                ).push(record));
            }
            i = i + 1;
        }
        page
    }
}

} // verus!
