use vstd::prelude::*;

verus! {

/// A time-locked portion of a user's funds, as the account stores it.
///
/// `id` is unique per user and assigned in increasing order starting at 1;
/// `amount` is the locked amount; `created_time` is the Unix time (seconds)
/// at which the lock was made; `unlock_time` is the Unix time from which the
/// entry counts as matured.
#[derive(Clone, Copy, Debug, PartialEq, Eq, Structural)]
pub struct Lock {
    pub id: u64,
    pub amount: i128,
    pub created_time: u64,
    pub unlock_time: u64,
}

/// A lock entry as the read operations report it: its id, its owner's
/// address, the locked amount, when it was made, when it matures, and whether
/// it has been withdrawn (a withdrawn lock is removed, so a reported entry
/// never has been).
#[derive(Clone, Debug, PartialEq, Eq)]
pub struct LockEntry {
    pub id: u64,
    pub owner: String,
    pub amount: i128,
    pub created_time: u64,
    pub unlock_time: u64,
    pub withdrawn: bool,
}

/// Which lock entries a sum ranges over.
#[derive(Clone, Copy, Debug, PartialEq, Eq, Structural)]
pub enum LockFilter {
    /// Locks whose unlock time has been reached.
    Matured,
    /// Locks whose unlock time lies in the future.
    Active,
    /// Every lock.
    All,
}

/// A lock has matured at `now` once `now` has reached its unlock time
/// (the boundary is inclusive).
pub open spec fn is_matured(lock: Lock, now: u64) -> bool {
    now >= lock.unlock_time
}

/// Whether `lock` is counted by `filter` at time `now`.
pub open spec fn selected(lock: Lock, now: u64, filter: LockFilter) -> bool {
    match filter {
        LockFilter::Matured => is_matured(lock, now),
        LockFilter::Active => !is_matured(lock, now),
        LockFilter::All => true,
    }
}

/// Sum of the amounts of the locks that `filter` selects at `now`.
pub open spec fn lock_sum(locks: Seq<Lock>, now: u64, filter: LockFilter) -> int
    decreases locks.len(),
{
    if locks.len() == 0 {
        0
    } else {
        lock_sum(locks.drop_last(), now, filter) + if selected(locks.last(), now, filter) {
            locks.last().amount as int
        } else {
            0
        }
    }
}

/// Sum of the amounts of the locks that have matured at `now`.
pub open spec fn matured_sum(locks: Seq<Lock>, now: u64) -> int {
    lock_sum(locks, now, LockFilter::Matured)
}

/// Sum of the amounts of the locks that are still active at `now`.
pub open spec fn active_sum(locks: Seq<Lock>, now: u64) -> int {
    lock_sum(locks, now, LockFilter::Active)
}

/// Sum of the amounts of all locks.
pub open spec fn locks_total(locks: Seq<Lock>) -> int {
    lock_sum(locks, 0, LockFilter::All)
}

/// Every lock holds a strictly positive amount.
pub open spec fn all_positive(locks: Seq<Lock>) -> bool {
    forall|i: int| 0 <= i < locks.len() ==> #[trigger] locks[i].amount > 0
}

/// The time an `All` sum is taken at plays no role.
pub proof fn lemma_total_any_time(locks: Seq<Lock>, now: u64)
    ensures
        lock_sum(locks, now, LockFilter::All) == locks_total(locks),
    decreases locks.len(),
{
    if locks.len() > 0 {
        lemma_total_any_time(locks.drop_last(), now);
    }
}

/// The matured and the active locks together make up all locks.
pub proof fn lemma_matured_plus_active(locks: Seq<Lock>, now: u64)
    ensures
        matured_sum(locks, now) + active_sum(locks, now) == locks_total(locks),
    decreases locks.len(),
{
    lemma_total_any_time(locks, now);
    if locks.len() > 0 {
        lemma_matured_plus_active(locks.drop_last(), now);
        lemma_total_any_time(locks.drop_last(), now);
    }
}

/// With positive amounts, every sum over a prefix lies between 0 and the sum
/// over the whole sequence.
pub proof fn lemma_prefix_sum_bounded(locks: Seq<Lock>, now: u64, filter: LockFilter, k: int)
    requires
        all_positive(locks),
        0 <= k <= locks.len(),
    ensures
        0 <= lock_sum(locks.take(k), now, filter) <= lock_sum(locks, now, filter),
    decreases locks.len(),
{
    if k == locks.len() {
        assert(locks.take(k) =~= locks);
        lemma_sum_nonneg(locks, now, filter);
    } else {
        let init = locks.drop_last();
        assert(all_positive(init)) by {
            assert forall|i: int| 0 <= i < init.len() implies #[trigger] init[i].amount > 0 by {
                assert(init[i] == locks[i]);
            }
        }
        lemma_prefix_sum_bounded(init, now, filter, k);
        assert(init.take(k) =~= locks.take(k));
        assert(locks[locks.len() - 1].amount > 0);
    }
}

/// With positive amounts, sums are never negative.
pub proof fn lemma_sum_nonneg(locks: Seq<Lock>, now: u64, filter: LockFilter)
    requires
        all_positive(locks),
    ensures
        lock_sum(locks, now, filter) >= 0,
    decreases locks.len(),
{
    if locks.len() > 0 {
        let init = locks.drop_last();
        assert(all_positive(init)) by {
            assert forall|i: int| 0 <= i < init.len() implies #[trigger] init[i].amount > 0 by {
                assert(init[i] == locks[i]);
            }
        }
        lemma_sum_nonneg(init, now, filter);
        assert(locks[locks.len() - 1].amount > 0);
    }
}

/// One more element of a prefix adds that element's share.
pub proof fn lemma_sum_take_step(locks: Seq<Lock>, now: u64, filter: LockFilter, k: int)
    requires
        0 <= k < locks.len(),
    ensures
        lock_sum(locks.take(k + 1), now, filter) == lock_sum(locks.take(k), now, filter) + if selected(
            locks[k],
            now,
            filter,
        ) {
            locks[k].amount as int
        } else {
            0
        },
{
    assert(locks.take(k + 1).drop_last() =~= locks.take(k));
    assert(locks.take(k + 1).last() == locks[k]);
}

/// Sum of the amounts that `filter` selects at `now`, or `None` where the sum
/// leaves the range of `i128`.
pub fn checked_lock_sum(locks: &Vec<Lock>, now: u64, filter: LockFilter) -> (r: Option<i128>)
    requires
        all_positive(locks@),
    ensures
        match r {
            Some(s) => s == lock_sum(locks@, now, filter),
            None => lock_sum(locks@, now, filter) > i128::MAX,
        },
{
    let mut total: i128 = 0;
    let n = locks.len();
    let mut i: usize = 0;
    while i < n
        invariant
            n == locks@.len(),
            0 <= i <= n,
            all_positive(locks@),
            total == lock_sum(locks@.take(i as int), now, filter),
        decreases n - i,
    {
        let lock = locks[i];
        proof {
            lemma_sum_take_step(locks@, now, filter, i as int);
            lemma_prefix_sum_bounded(locks@, now, filter, i as int + 1);
        }
        let counts = match filter {
            LockFilter::Matured => now >= lock.unlock_time,
            LockFilter::Active => now < lock.unlock_time,
            LockFilter::All => true,
        };
        if counts {
            match total.checked_add(lock.amount) {
                Some(t) => {
                    total = t;
                },
                None => {
                    return None;
                },
            }
        }
        i = i + 1;
    }
    proof {
        assert(locks@.take(n as int) =~= locks@);
    }
    Some(total)
}


/// The locks left after `remaining` is taken from the matured locks, oldest
/// first: a matured lock no larger than what is still to be taken is removed,
/// the first matured lock larger than that is reduced by it, and every other
/// lock stays as it is, in its place.
pub open spec fn consume_matured(locks: Seq<Lock>, now: u64, remaining: int) -> Seq<Lock>
    decreases locks.len(),
{
    if locks.len() == 0 {
        locks
    } else {
        let first = locks[0];
        let rest = locks.drop_first();
        if is_matured(first, now) && remaining > 0 {
            if first.amount <= remaining {
                consume_matured(rest, now, remaining - first.amount)
            } else {
                seq![
                    Lock {
                        id: first.id,
                        amount: (first.amount - remaining) as i128,
                        created_time: first.created_time,
                        unlock_time: first.unlock_time,
                    },
                ]
                    + rest
            }
        } else {
            seq![first] + consume_matured(rest, now, remaining)
        }
    }
}

/// Sums split over concatenation.
pub proof fn lemma_sum_concat(a: Seq<Lock>, b: Seq<Lock>, now: u64, filter: LockFilter)
    ensures
        lock_sum(a + b, now, filter) == lock_sum(a, now, filter) + lock_sum(b, now, filter),
    decreases b.len(),
{
    if b.len() == 0 {
        assert(a + b =~= a);
    } else {
        lemma_sum_concat(a, b.drop_last(), now, filter);
        assert((a + b).drop_last() =~= a + b.drop_last());
        assert((a + b).last() == b.last());
    }
}

/// A sum over a sequence is its first element's share plus the sum over the rest.
pub proof fn lemma_sum_first(locks: Seq<Lock>, now: u64, filter: LockFilter)
    requires
        locks.len() > 0,
    ensures
        lock_sum(locks, now, filter) == (if selected(locks[0], now, filter) {
            locks[0].amount as int
        } else {
            0
        }) + lock_sum(locks.drop_first(), now, filter),
{
    assert(locks =~= seq![locks[0]] + locks.drop_first());
    lemma_sum_concat(seq![locks[0]], locks.drop_first(), now, filter);
    let single = seq![locks[0]];
    assert(single.drop_last() =~= Seq::<Lock>::empty());
    assert(single.last() == locks[0]);
    assert(lock_sum(single.drop_last(), now, filter) == 0);
}

/// Taking nothing leaves the locks as they are.
pub proof fn lemma_consume_nothing(locks: Seq<Lock>, now: u64)
    ensures
        consume_matured(locks, now, 0) == locks,
    decreases locks.len(),
{
    if locks.len() > 0 {
        lemma_consume_nothing(locks.drop_first(), now);
        assert(seq![locks[0]] + locks.drop_first() =~= locks);
    }
}

/// Lock ids all lie strictly above `lo`.
pub open spec fn ids_above(locks: Seq<Lock>, lo: int) -> bool {
    forall|i: int| 0 <= i < locks.len() ==> #[trigger] locks[i].id > lo
}

/// Lock ids strictly increase along the sequence.
pub open spec fn ids_increasing(locks: Seq<Lock>) -> bool {
    forall|i: int, j: int| 0 <= i < j < locks.len() ==> locks[i].id < locks[j].id
}

/// Taking from the matured locks keeps amounts positive, keeps ids in order
/// and within their bounds, leaves the active locks untouched and lowers the
/// matured sum by exactly what was taken.
pub proof fn lemma_consume_matured(locks: Seq<Lock>, now: u64, remaining: int, lo: int, hi: int)
    requires
        all_positive(locks),
        ids_increasing(locks),
        ids_above(locks, lo),
        forall|i: int| 0 <= i < locks.len() ==> #[trigger] locks[i].id < hi,
        0 <= remaining <= matured_sum(locks, now),
    ensures
        all_positive(consume_matured(locks, now, remaining)),
        ids_increasing(consume_matured(locks, now, remaining)),
        ids_above(consume_matured(locks, now, remaining), lo),
        forall|i: int|
            0 <= i < consume_matured(locks, now, remaining).len() ==> #[trigger] consume_matured(
                locks,
                now,
                remaining,
            )[i].id < hi,
        active_sum(consume_matured(locks, now, remaining), now) == active_sum(locks, now),
        matured_sum(consume_matured(locks, now, remaining), now) == matured_sum(locks, now) - remaining,
    decreases locks.len(),
{
    let result = consume_matured(locks, now, remaining);
    if locks.len() > 0 {
        let first = locks[0];
        let rest = locks.drop_first();
        lemma_sum_first(locks, now, LockFilter::Matured);
        lemma_sum_first(locks, now, LockFilter::Active);
        assert(all_positive(rest)) by {
            assert forall|i: int| 0 <= i < rest.len() implies #[trigger] rest[i].amount > 0 by {
                assert(rest[i] == locks[i + 1]);
            }
        }
        assert(ids_increasing(rest)) by {
            assert forall|i: int, j: int| 0 <= i < j < rest.len() implies rest[i].id < rest[j].id by {
                assert(rest[i] == locks[i + 1]);
                assert(rest[j] == locks[j + 1]);
            }
        }
        assert(ids_above(rest, first.id as int)) by {
            assert forall|i: int| 0 <= i < rest.len() implies #[trigger] rest[i].id > first.id as int by {
                assert(rest[i] == locks[i + 1]);
            }
        }
        assert(ids_above(rest, lo)) by {
            assert forall|i: int| 0 <= i < rest.len() implies #[trigger] rest[i].id > lo by {
                assert(rest[i] == locks[i + 1]);
            }
        }
        assert forall|i: int| 0 <= i < rest.len() implies #[trigger] rest[i].id < hi by {
            assert(rest[i] == locks[i + 1]);
        }
        lemma_sum_nonneg(rest, now, LockFilter::Matured);
        if is_matured(first, now) && remaining > 0 {
            if first.amount <= remaining {
                lemma_consume_matured(rest, now, remaining - first.amount, lo, hi);
            } else {
                let reduced = Lock {
                    id: first.id,
                    amount: (first.amount - remaining) as i128,
                    created_time: first.created_time,
                    unlock_time: first.unlock_time,
                };
                assert(result == seq![reduced] + rest);
                lemma_sum_first(result, now, LockFilter::Matured);
                lemma_sum_first(result, now, LockFilter::Active);
                assert(result.drop_first() =~= rest);
                assert(result[0] == reduced);
                assert forall|i: int| 0 <= i < result.len() implies #[trigger] result[i].amount > 0 by {
                    if i > 0 {
                        assert(result[i] == rest[i - 1]);
                    }
                }
                assert forall|i: int, j: int| 0 <= i < j < result.len() implies result[i].id
                    < result[j].id by {
                    assert(result[j] == rest[j - 1]);
                    if i > 0 {
                        assert(result[i] == rest[i - 1]);
                    }
                }
                assert forall|i: int| 0 <= i < result.len() implies #[trigger] result[i].id > lo
                    && result[i].id < hi by {
                    if i > 0 {
                        assert(result[i] == rest[i - 1]);
                    }
                }
            }
        } else {
            lemma_consume_matured(rest, now, remaining, first.id as int, hi);
            lemma_consume_matured(rest, now, remaining, lo, hi);
            let tail = consume_matured(rest, now, remaining);
            assert(result == seq![first] + tail);
            lemma_sum_first(result, now, LockFilter::Matured);
            lemma_sum_first(result, now, LockFilter::Active);
            assert(result.drop_first() =~= tail);
            assert(result[0] == first);
            assert forall|i: int| 0 <= i < result.len() implies #[trigger] result[i].amount > 0 by {
                if i > 0 {
                    assert(result[i] == tail[i - 1]);
                }
            }
            assert forall|i: int, j: int| 0 <= i < j < result.len() implies result[i].id
                < result[j].id by {
                assert(result[j] == tail[j - 1]);
                if i > 0 {
                    assert(result[i] == tail[i - 1]);
                }
            }
            assert forall|i: int| 0 <= i < result.len() implies #[trigger] result[i].id > lo
                && result[i].id < hi by {
                if i > 0 {
                    assert(result[i] == tail[i - 1]);
                }
            }
        }
    }
}

/// Every lock left after taking from the matured locks carries the id of one
/// of the original locks.
pub proof fn lemma_consume_ids(locks: Seq<Lock>, now: u64, remaining: int)
    ensures
        forall|i: int|
            0 <= i < consume_matured(locks, now, remaining).len() ==> exists|j: int|
                0 <= j < locks.len() && locks[j].id == #[trigger] consume_matured(locks, now, remaining)[i].id,
    decreases locks.len(),
{
    let result = consume_matured(locks, now, remaining);
    if locks.len() > 0 {
        let first = locks[0];
        let rest = locks.drop_first();
        if is_matured(first, now) && remaining > 0 {
            if first.amount <= remaining {
                lemma_consume_ids(rest, now, remaining - first.amount);
                assert(result == consume_matured(rest, now, remaining - first.amount));
                assert forall|i: int| 0 <= i < result.len() implies exists|j: int|
                    0 <= j < locks.len() && locks[j].id == #[trigger] result[i].id by {
                    assert(exists|k: int| 0 <= k < rest.len() && rest[k].id == result[i].id);
                    let k = choose|k: int| 0 <= k < rest.len() && rest[k].id == result[i].id;
                    assert(locks[k + 1] == rest[k]);
                }
            } else {
                assert forall|i: int| 0 <= i < result.len() implies exists|j: int|
                    0 <= j < locks.len() && locks[j].id == #[trigger] result[i].id by {
                    if i == 0 {
                        assert(locks[0].id == result[0].id);
                    } else {
                        assert(result[i] == rest[i - 1]);
                        assert(locks[i] == rest[i - 1]);
                    }
                }
            }
        } else {
            lemma_consume_ids(rest, now, remaining);
            let tail = consume_matured(rest, now, remaining);
            assert(result == seq![first] + tail);
            assert forall|i: int| 0 <= i < result.len() implies exists|j: int|
                0 <= j < locks.len() && locks[j].id == #[trigger] result[i].id by {
                if i == 0 {
                    assert(locks[0].id == result[0].id);
                } else {
                    assert(result[i] == tail[i - 1]);
                    assert(exists|k: int| 0 <= k < rest.len() && rest[k].id == tail[i - 1].id);
                    let k = choose|k: int| 0 <= k < rest.len() && rest[k].id == tail[i - 1].id;
                    assert(locks[k + 1] == rest[k]);
                }
            }
        }
    }
}

/// Takes `remaining` from the matured locks, oldest first (see `consume_matured`).
pub fn take_from_matured(locks: &Vec<Lock>, now: u64, remaining: i128) -> (r: Vec<Lock>)
    requires
        all_positive(locks@),
        remaining >= 0,
    ensures
        r@ == consume_matured(locks@, now, remaining as int),
{
    let mut out: Vec<Lock> = Vec::new();
    let mut rem: i128 = remaining;
    let n = locks.len();
    let mut i: usize = 0;
    proof {
        assert(locks@.skip(0) =~= locks@);
        assert(out@ + consume_matured(locks@, now, remaining as int) =~= consume_matured(locks@, now, remaining as int));
    }
    while i < n
        invariant
            n == locks@.len(),
            0 <= i <= n,
            rem >= 0,
            all_positive(locks@),
            out@ + consume_matured(locks@.skip(i as int), now, rem as int) == consume_matured(
                locks@,
                now,
                remaining as int,
            ),
        decreases n - i,
    {
        let lock = locks[i];
        let ghost suffix = locks@.skip(i as int);
        proof {
            assert(suffix[0] == lock);
            assert(suffix.drop_first() =~= locks@.skip(i as int + 1));
            assert(lock.amount > 0);
        }
        if now >= lock.unlock_time && rem > 0 {
            if lock.amount <= rem {
                rem = rem - lock.amount;
            } else {
                let reduced = Lock {
                    id: lock.id,
                    amount: lock.amount - rem,
                    created_time: lock.created_time,
                    unlock_time: lock.unlock_time,
                };
                proof {
                    lemma_consume_nothing(locks@.skip(i as int + 1), now);
                    assert(out@.push(reduced) + locks@.skip(i as int + 1) =~= out@ + (seq![reduced]
                        + locks@.skip(i as int + 1)));
                }
                out.push(reduced);
                rem = 0;
            }
        } else {
            proof {
                assert(out@.push(lock) + consume_matured(locks@.skip(i as int + 1), now, rem as int)
                    =~= out@ + (seq![lock] + consume_matured(locks@.skip(i as int + 1), now, rem as int)));
            }
            out.push(lock);
        }
        i = i + 1;
    }
    proof {
        assert(locks@.skip(n as int) =~= Seq::<Lock>::empty());
        assert(out@ + Seq::<Lock>::empty() =~= out@);
    }
    out
}
} // verus!
