use vstd::prelude::*;

use crate::account::{
    account_wf, available, deposit_result, is_first_position, lemma_first_position_unique, lock_page,
    lock_result, locked, withdraw_lock_result, withdraw_result, AccountView, MAX_LOCK_PAGE_SIZE,
};
use crate::error::VaultError;
use crate::lock::{
    all_positive, consume_matured, ids_above, lemma_consume_matured, lemma_consume_nothing,
    lemma_matured_plus_active, lemma_sum_nonneg, locks_total, matured_sum, Lock, LockFilter,
};
use crate::vault::{balance_result, has_matured_lock, locked_balance_result, readiness, SavingsVault};

verus! {

/// The locks of `locks` that have not matured at `now`, in their order.
pub open spec fn unmatured_only(locks: Seq<Lock>, now: u64) -> Seq<Lock>
    decreases locks.len(),
{
    if locks.len() == 0 {
        locks
    } else if now >= locks[0].unlock_time {
        unmatured_only(locks.drop_first(), now)
    } else {
        seq![locks[0]] + unmatured_only(locks.drop_first(), now)
    }
}

/// `after` is `before` with an amount taken from the matured locks, oldest
/// first, stopping at position `k`: before `k` every matured lock is gone and
/// every unmatured one stays; from `k` on the locks stay as they were, except
/// that the lock at `k`, where it has matured, may keep only part of its
/// amount (same id and times, a smaller positive amount).
pub open spec fn taken_up_to(before: Seq<Lock>, after: Seq<Lock>, now: u64, k: int) -> bool {
    let kept = unmatured_only(before.take(k), now);
    ||| after == kept + before.skip(k)
    ||| {
        &&& k < before.len()
        &&& now >= before[k].unlock_time
        &&& after.len() == kept.len() + before.len() - k
        &&& after.take(kept.len() as int) == kept
        &&& after.skip(kept.len() as int + 1) == before.skip(k + 1)
        &&& after[kept.len() as int].id == before[k].id
        &&& after[kept.len() as int].created_time == before[k].created_time
        &&& after[kept.len() as int].unlock_time == before[k].unlock_time
        &&& 0 < after[kept.len() as int].amount < before[k].amount
    }
}

/// `after` is `before` with an amount taken from the matured locks, oldest
/// first (see `taken_up_to`).
pub open spec fn taken_oldest_first(before: Seq<Lock>, after: Seq<Lock>, now: u64) -> bool {
    exists|k: int| 0 <= k <= before.len() && #[trigger] taken_up_to(before, after, now, k)
}

/// Taking from the matured locks removes or shrinks them oldest first and
/// leaves every other lock in place.
pub proof fn lemma_consume_is_oldest_first(locks: Seq<Lock>, now: u64, remaining: int) -> (k: int)
    requires
        remaining >= 0,
    ensures
        0 <= k <= locks.len(),
        taken_up_to(locks, consume_matured(locks, now, remaining), now, k),
    decreases locks.len(),
{
    let result = consume_matured(locks, now, remaining);
    if remaining == 0 || locks.len() == 0 {
        lemma_consume_nothing(locks, now);
        assert(locks.take(0) =~= Seq::<Lock>::empty());
        assert(unmatured_only(locks.take(0), now) == Seq::<Lock>::empty());
        assert(locks.skip(0) =~= locks);
        assert(result =~= unmatured_only(locks.take(0), now) + locks.skip(0));
        return 0;
    }
    let first = locks[0];
    let rest = locks.drop_first();
    if now >= first.unlock_time {
        if first.amount <= remaining {
            let k0 = lemma_consume_is_oldest_first(rest, now, remaining - first.amount);
            let k = k0 + 1;
            assert(locks.take(k).drop_first() =~= rest.take(k0));
            assert(locks.take(k)[0] == first);
            assert(unmatured_only(locks.take(k), now) == unmatured_only(rest.take(k0), now));
            assert(locks.skip(k) =~= rest.skip(k0));
            if k0 < rest.len() {
                assert(locks.skip(k + 1) =~= rest.skip(k0 + 1));
                assert(rest[k0] == locks[k]);
            }
            assert(taken_up_to(locks, result, now, k));
            k
        } else {
            assert(locks.take(0) =~= Seq::<Lock>::empty());
            let kept = unmatured_only(locks.take(0), now);
            assert(kept == Seq::<Lock>::empty());
            assert(result.take(0) =~= kept);
            assert(result.skip(1) =~= rest);
            assert(locks.skip(1) =~= rest);
            assert(taken_up_to(locks, result, now, 0));
            0
        }
    } else {
        let k0 = lemma_consume_is_oldest_first(rest, now, remaining);
        let k = k0 + 1;
        let tail = consume_matured(rest, now, remaining);
        assert(result == seq![first] + tail);
        assert(locks.take(k).drop_first() =~= rest.take(k0));
        assert(locks.take(k)[0] == first);
        let kept0 = unmatured_only(rest.take(k0), now);
        let kept = unmatured_only(locks.take(k), now);
        assert(kept == seq![first] + kept0);
        assert(locks.skip(k) =~= rest.skip(k0));
        if tail == kept0 + rest.skip(k0) {
            assert(result =~= kept + locks.skip(k));
        } else {
            assert(locks.skip(k + 1) =~= rest.skip(k0 + 1));
            assert(rest[k0] == locks[k]);
            assert(result.take(kept.len() as int) =~= seq![first] + tail.take(kept0.len() as int));
            assert(result.skip(kept.len() as int + 1) =~= tail.skip(kept0.len() as int + 1));
            assert(result[kept.len() as int] == tail[kept0.len() as int]);
        }
        assert(taken_up_to(locks, result, now, k));
        k
    }
}

/// Withdrawing a lock depends on that lock alone. Where the account holds a
/// lock with id `lock_id` (at position `i`) that has matured at `now`, the
/// withdrawal goes through and removes exactly that entry, leaving the
/// deposited balance, every other lock and the next id as they were, whatever
/// the other locks are; where that lock has not matured, it is refused as not
/// matured.
pub proof fn law_withdraw_lock_depends_on_that_lock_only(a: AccountView, lock_id: u64, now: u64, i: int)
    requires
        account_wf(a),
        0 <= i < a.locks.len(),
        a.locks[i].id == lock_id,
    ensures
        now >= a.locks[i].unlock_time ==> withdraw_lock_result(a, lock_id, now) == Ok::<
            AccountView,
            VaultError,
        >(AccountView { locks: a.locks.remove(i), ..a }),
        now < a.locks[i].unlock_time ==> withdraw_lock_result(a, lock_id, now) == Err::<
            AccountView,
            VaultError,
        >(VaultError::LockNotMatured),
{
    assert(is_first_position(a.locks, lock_id, i)) by {
        assert forall|j: int| 0 <= j < i implies a.locks[j].id != lock_id by {
            assert(a.locks[j].id < a.locks[i].id);
        }
    }
    lemma_first_position_unique(a.locks, lock_id, i);
}

/// Withdrawing a lock id the account does not hold is refused as not found.
pub proof fn law_withdraw_lock_unknown_id(a: AccountView, lock_id: u64, now: u64)
    requires
        forall|i: int| 0 <= i < a.locks.len() ==> #[trigger] a.locks[i].id != lock_id,
    ensures
        withdraw_lock_result(a, lock_id, now) == Err::<AccountView, VaultError>(VaultError::LockNotFound),
{
}

/// A withdrawal of a positive amount no larger than the available balance goes
/// through wherever no sum leaves the range of `i128`. It is drawn from the
/// deposited balance first: where that covers it, the locks stay exactly as
/// they were; otherwise the deposited balance is emptied and the rest is taken
/// from the matured locks, oldest first, leaving every lock not needed for it
/// in place. The owner and the next lock id do not change.
pub proof fn law_withdraw_takes_deposit_then_oldest_matured(a: AccountView, amount: i128, now: u64)
    requires
        account_wf(a),
        0 < amount <= available(a, now),
        available(a, now) <= i128::MAX,
        locked(a, now) <= i128::MAX,
    ensures
        withdraw_result(a, amount, now) is Ok,
        withdraw_result(a, amount, now)->Ok_0.owner == a.owner,
        withdraw_result(a, amount, now)->Ok_0.next_lock_id == a.next_lock_id,
        amount <= a.balance ==> withdraw_result(a, amount, now)->Ok_0.balance == a.balance - amount
            && withdraw_result(a, amount, now)->Ok_0.locks == a.locks,
        amount > a.balance ==> withdraw_result(a, amount, now)->Ok_0.balance == 0 && taken_oldest_first(
            a.locks,
            withdraw_result(a, amount, now)->Ok_0.locks,
            now,
        ) && matured_sum(withdraw_result(a, amount, now)->Ok_0.locks, now) == matured_sum(a.locks, now)
            - (amount - a.balance),
{
    if amount > a.balance {
        let b = withdraw_result(a, amount, now)->Ok_0;
        let k = lemma_consume_is_oldest_first(a.locks, now, amount - a.balance);
        assert(taken_up_to(a.locks, b.locks, now, k));
        lemma_sum_nonneg(a.locks, now, LockFilter::Matured);
        assert(ids_above(a.locks, 0));
        lemma_consume_matured(a.locks, now, amount - a.balance, 0, a.next_lock_id as int);
    }
}

/// Locking has no upper bound on the unlock time: for a positive amount no
/// larger than the available balance and any unlock time after `now`, the
/// lock goes through wherever no sum leaves the range of `i128` and ids are
/// not exhausted. The new entry, last in the list, has the next id, the amount,
/// `now` as its creation time and the unlock time asked for; the next id
/// advances by one; the amount is drawn from the deposited balance first, then
/// from the matured locks, oldest first.
pub proof fn law_lock_accepts_any_future_unlock_time(a: AccountView, amount: i128, unlock_time: u64, now: u64)
    requires
        account_wf(a),
        0 < amount <= available(a, now),
        unlock_time > now,
        available(a, now) <= i128::MAX,
        locked(a, now) + amount <= i128::MAX,
        a.next_lock_id < u64::MAX,
    ensures
        lock_result(a, amount, unlock_time, now) is Ok,
        lock_result(a, amount, unlock_time, now)->Ok_0.locks.len() > 0,
        lock_result(a, amount, unlock_time, now)->Ok_0.locks.last() == (Lock {
            id: a.next_lock_id,
            amount,
            created_time: now,
            unlock_time,
        }),
        lock_result(a, amount, unlock_time, now)->Ok_0.next_lock_id == a.next_lock_id + 1,
        lock_result(a, amount, unlock_time, now)->Ok_0.owner == a.owner,
        amount <= a.balance ==> lock_result(a, amount, unlock_time, now)->Ok_0.balance == a.balance - amount
            && lock_result(a, amount, unlock_time, now)->Ok_0.locks.drop_last() == a.locks,
        amount > a.balance ==> lock_result(a, amount, unlock_time, now)->Ok_0.balance == 0
            && taken_oldest_first(a.locks, lock_result(a, amount, unlock_time, now)->Ok_0.locks.drop_last(), now),
{
    let b = lock_result(a, amount, unlock_time, now)->Ok_0;
    if amount > a.balance {
        let k = lemma_consume_is_oldest_first(a.locks, now, amount - a.balance);
        assert(b.locks.drop_last() =~= consume_matured(a.locks, now, amount - a.balance));
        assert(taken_up_to(a.locks, b.locks.drop_last(), now, k));
    } else {
        assert(b.locks.drop_last() =~= a.locks);
    }
}

/// The only refusal on time: a lock of a positive amount is refused as not in
/// the future exactly when its unlock time is not after `now`.
pub proof fn law_lock_time_refusal(a: AccountView, amount: i128, unlock_time: u64, now: u64)
    requires
        amount > 0,
    ensures
        (lock_result(a, amount, unlock_time, now) == Err::<AccountView, VaultError>(
            VaultError::UnlockTimeNotInFuture,
        )) <==> unlock_time <= now,
{
}

/// With positive amounts, the matured locks hold funds exactly when some lock
/// has matured.
proof fn lemma_matured_sum_positive(locks: Seq<Lock>, now: u64)
    requires
        all_positive(locks),
    ensures
        matured_sum(locks, now) > 0 <==> exists|i: int| 0 <= i < locks.len() && now >= #[trigger] locks[i].unlock_time,
    decreases locks.len(),
{
    if locks.len() > 0 {
        let init = locks.drop_last();
        assert(all_positive(init)) by {
            assert forall|i: int| 0 <= i < init.len() implies #[trigger] init[i].amount > 0 by {
                assert(init[i] == locks[i]);
            }
        }
        lemma_matured_sum_positive(init, now);
        lemma_sum_nonneg(init, now, LockFilter::Matured);
        assert(locks.last() == locks[locks.len() - 1]);
        if exists|i: int| 0 <= i < locks.len() && now >= #[trigger] locks[i].unlock_time {
            let i = choose|i: int| 0 <= i < locks.len() && now >= #[trigger] locks[i].unlock_time;
            if i < locks.len() - 1 {
                assert(init[i] == locks[i]);
            }
        }
        if exists|i: int| 0 <= i < init.len() && now >= #[trigger] init[i].unlock_time {
            let i = choose|i: int| 0 <= i < init.len() && now >= #[trigger] init[i].unlock_time;
            assert(locks[i] == init[i]);
        }
    }
}

/// `can_withdraw` looks at every lock: once any one of them, wherever it
/// stands in the list, has matured at `now`, the answer is yes.
pub proof fn law_can_withdraw_sees_every_lock(a: AccountView, now: u64, i: int)
    requires
        0 <= i < a.locks.len(),
        now >= a.locks[i].unlock_time,
    ensures
        has_matured_lock(a, now),
{
}

/// `can_withdraw` answers yes exactly when matured locks add funds to the
/// available balance beyond the deposited balance.
pub proof fn law_can_withdraw_means_matured_funds(a: AccountView, now: u64)
    requires
        account_wf(a),
    ensures
        has_matured_lock(a, now) <==> available(a, now) > a.balance,
{
    lemma_matured_sum_positive(a.locks, now);
}

/// A page is as long as it may be: empty where `limit` is zero or `offset` is
/// past the last lock, and otherwise as long as the smallest of `limit`, the
/// page cap and the number of locks from `offset` on (for a list that a `u32`
/// can count).
pub proof fn law_lock_page_is_full(locks: Seq<Lock>, offset: u32, limit: u32)
    requires
        locks.len() <= u32::MAX,
    ensures
        (limit == 0 || offset >= locks.len()) ==> lock_page(locks, offset, limit).len() == 0,
        (limit > 0 && offset < locks.len()) ==> lock_page(locks, offset, limit).len() == {
            let cap = if limit < MAX_LOCK_PAGE_SIZE { limit as int } else { MAX_LOCK_PAGE_SIZE as int };
            let left = locks.len() - offset;
            if cap < left { cap } else { left }
        },
{
}

/// A deposit of a positive amount goes through wherever the available balance
/// after it stays within `i128`, and adds the amount to the deposited balance
/// alone; a deposit of zero or less is refused as an invalid amount.
pub proof fn law_deposit_outcomes(a: AccountView, amount: i128, now: u64)
    ensures
        amount <= 0 ==> deposit_result(a, amount, now) == Err::<AccountView, VaultError>(
            VaultError::InvalidDepositAmount,
        ),
        amount > 0 && available(a, now) + amount <= i128::MAX ==> deposit_result(a, amount, now) == Ok::<
            AccountView,
            VaultError,
        >(AccountView { balance: (a.balance + amount) as i128, ..a }),
{
}

/// A withdrawal of zero or less is refused as an invalid amount, and one
/// larger than the available balance as an insufficient balance.
pub proof fn law_withdraw_refusals(a: AccountView, amount: i128, now: u64)
    ensures
        amount <= 0 ==> withdraw_result(a, amount, now) == Err::<AccountView, VaultError>(
            VaultError::InvalidWithdrawalAmount,
        ),
        amount > 0 && available(a, now) <= i128::MAX && amount > available(a, now) ==> withdraw_result(
            a,
            amount,
            now,
        ) == Err::<AccountView, VaultError>(VaultError::InsufficientBalance),
{
}

/// A lock of zero or less is refused as an invalid amount, and one of a
/// positive amount with a future unlock time that exceeds the available
/// balance as an insufficient balance to lock.
pub proof fn law_lock_refusals(a: AccountView, amount: i128, unlock_time: u64, now: u64)
    ensures
        amount <= 0 ==> lock_result(a, amount, unlock_time, now) == Err::<AccountView, VaultError>(
            VaultError::InvalidLockAmount,
        ),
        amount > 0 && unlock_time > now && available(a, now) <= i128::MAX && amount > available(a, now)
            ==> lock_result(a, amount, unlock_time, now) == Err::<AccountView, VaultError>(
            VaultError::InsufficientBalanceToLock,
        ),
{
}

/// On a ready vault, for an account whose holdings fit in `i128`, the two
/// balance reads succeed and split the holdings between them: the available
/// balance is the deposited balance plus the matured locks, the locked balance
/// is the rest.
pub proof fn law_balance_reads_split_holdings(v: SavingsVault, a: AccountView, now: u64)
    requires
        readiness(v) is Ok,
        account_wf(a),
        a.balance + locks_total(a.locks) <= i128::MAX,
    ensures
        balance_result(v, a, now) == Ok::<i128, VaultError>((a.balance + matured_sum(a.locks, now)) as i128),
        locked_balance_result(v, a, now) is Ok,
        balance_result(v, a, now)->Ok_0 + locked_balance_result(v, a, now)->Ok_0 == a.balance + locks_total(
            a.locks,
        ),
        balance_result(v, a, now)->Ok_0 >= a.balance,
        locked_balance_result(v, a, now)->Ok_0 >= 0,
{
    lemma_matured_plus_active(a.locks, now);
    lemma_sum_nonneg(a.locks, now, LockFilter::Matured);
    lemma_sum_nonneg(a.locks, now, LockFilter::Active);
}

} // verus!
