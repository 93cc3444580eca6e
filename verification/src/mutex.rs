//! The lock on the console, for a single core without interrupts.
//!
//! The mutex owns the value it protects. Locking moves the value into a
//! guard and leaves the mutex marked as held; unlocking moves it back. While
//! the mutex is held it has no value to hand out, so a second guard cannot
//! exist. One attempt to lock is one turn of the busy-wait: a caller that
//! finds the mutex held tries again.
//!
//! Each mutex keeps, as ghost data, the record of every attempt to lock it
//! and every unlock. Contracts of code that writes through a lock speak of
//! that record: what was added to it is a run of locks, each given back
//! before the next was taken.

use vstd::prelude::*;

verus! {

/// Something done to a mutex.
pub enum LockOp {
    /// One attempt to lock it.
    TryLock,
    /// Giving back the guard.
    Unlock,
}

/// Whether the operation hands out a guard: an attempt to lock a mutex that
/// is not held.
pub open spec fn grants(held: bool, op: LockOp) -> bool {
    op is TryLock && !held
}

/// Whether the mutex is held after the operation.
pub open spec fn held_after(held: bool, op: LockOp) -> bool {
    op is TryLock
}

/// Whether the operation can be made: a guard can only be given back while
/// the mutex is held, since only then one exists.
pub open spec fn permitted(held: bool, op: LockOp) -> bool {
    op is Unlock ==> held
}

/// Whether each operation of the run can be made when its turn comes, on a
/// mutex that is at first held or not as `held` says.
pub open spec fn run_permitted(held: bool, ops: Seq<LockOp>) -> bool
    decreases ops.len(),
{
    ops.len() > 0 ==> run_permitted(held, ops.drop_last()) && permitted(
        held_after_run(held, ops.drop_last()),
        ops.last(),
    )
}

/// Whether the mutex is held after the run of operations.
pub open spec fn held_after_run(held: bool, ops: Seq<LockOp>) -> bool
    decreases ops.len(),
{
    if ops.len() == 0 {
        held
    } else {
        held_after(held_after_run(held, ops.drop_last()), ops.last())
    }
}

/// Number of guards that exist after the run of operations on a mutex that
/// was not held at first: each grant adds one, each unlock takes one away.
pub open spec fn guards_after_run(ops: Seq<LockOp>) -> int
    decreases ops.len(),
{
    if ops.len() == 0 {
        0
    } else {
        let before = guards_after_run(ops.drop_last());
        let held = held_after_run(false, ops.drop_last());
        if grants(held, ops.last()) {
            before + 1
        } else if ops.last() is Unlock {
            before - 1
        } else {
            before
        }
    }
}

/// Whatever is done to a mutex, in whatever order, at most one guard exists
/// at any time, and one exists exactly while the mutex is held.
pub proof fn lemma_one_guard(ops: Seq<LockOp>)
    requires
        run_permitted(false, ops),
    ensures
        0 <= guards_after_run(ops) <= 1,
        guards_after_run(ops) == 1 <==> held_after_run(false, ops),
    decreases ops.len(),
{
    if ops.len() > 0 {
        lemma_one_guard(ops.drop_last());
    }
}

/// The same law at every instant of the run, not only at its end: after
/// each of its operations at most one guard exists.
pub proof fn lemma_one_guard_throughout(ops: Seq<LockOp>, k: int)
    requires
        run_permitted(false, ops),
        0 <= k <= ops.len(),
    ensures
        run_permitted(false, ops.take(k)),
        0 <= guards_after_run(ops.take(k)) <= 1,
        guards_after_run(ops.take(k)) == 1 <==> held_after_run(false, ops.take(k)),
    decreases ops.len(),
{
    if k == ops.len() {
        assert(ops.take(k) =~= ops);
    } else {
        assert(ops.drop_last().take(k) =~= ops.take(k));
        lemma_one_guard_throughout(ops.drop_last(), k);
    }
    lemma_one_guard(ops.take(k));
}

/// `n` times over: one successful attempt to lock, then the unlock.
pub open spec fn lock_pairs(n: nat) -> Seq<LockOp>
    decreases n,
{
    if n == 0 {
        Seq::empty()
    } else {
        lock_pairs((n - 1) as nat) + seq![LockOp::TryLock, LockOp::Unlock]
    }
}

/// Whether the record `after` is the record `before` followed by locks that
/// were each given back before the next was taken.
pub open spec fn settled(before: Seq<LockOp>, after: Seq<LockOp>) -> bool {
    exists|n: nat| after == before + #[trigger] lock_pairs(n)
}

/// Nothing done is settled.
pub proof fn lemma_settled_none(record: Seq<LockOp>)
    ensures
        settled(record, record),
{
    assert(record =~= record + lock_pairs(0));
}

/// One lock that is given back is settled.
pub proof fn lemma_settled_one(record: Seq<LockOp>)
    ensures
        settled(record, record.push(LockOp::TryLock).push(LockOp::Unlock)),
{
    assert(lock_pairs(1) =~= seq![LockOp::TryLock, LockOp::Unlock]) by {
        assert(lock_pairs(0) =~= Seq::<LockOp>::empty());
    }
    assert(record.push(LockOp::TryLock).push(LockOp::Unlock) =~= record + lock_pairs(1));
}

proof fn lemma_lock_pairs_add(a: nat, b: nat)
    ensures
        lock_pairs(a) + lock_pairs(b) == lock_pairs(a + b),
    decreases b,
{
    if b == 0 {
        assert(lock_pairs(a) + lock_pairs(0) =~= lock_pairs(a));
    } else {
        lemma_lock_pairs_add(a, (b - 1) as nat);
        assert(lock_pairs(a) + (lock_pairs((b - 1) as nat) + seq![LockOp::TryLock, LockOp::Unlock])
            =~= lock_pairs(a) + lock_pairs((b - 1) as nat) + seq![
            LockOp::TryLock,
            LockOp::Unlock,
        ]);
    }
}

/// What is settled twice over is settled.
pub proof fn lemma_settled_twice(first: Seq<LockOp>, second: Seq<LockOp>, third: Seq<LockOp>)
    requires
        settled(first, second),
        settled(second, third),
    ensures
        settled(first, third),
{
    let a = choose|n: nat| second == first + #[trigger] lock_pairs(n);
    let b = choose|n: nat| third == second + #[trigger] lock_pairs(n);
    lemma_lock_pairs_add(a, b);
    assert(third =~= first + lock_pairs(a + b));
}

proof fn lemma_pairs_keep_free(before: Seq<LockOp>, n: nat)
    requires
        run_permitted(false, before),
        !held_after_run(false, before),
    ensures
        run_permitted(false, before + lock_pairs(n)),
        !held_after_run(false, before + lock_pairs(n)),
        guards_after_run(before + lock_pairs(n)) == guards_after_run(before),
    decreases n,
{
    if n == 0 {
        assert(before + lock_pairs(0) =~= before);
    } else {
        let inner = before + lock_pairs((n - 1) as nat);
        lemma_pairs_keep_free(before, (n - 1) as nat);
        let locked = inner.push(LockOp::TryLock);
        let all = locked.push(LockOp::Unlock);
        assert(all =~= before + lock_pairs(n));
        assert(locked.drop_last() =~= inner);
        assert(locked.last() is TryLock);
        assert(run_permitted(false, locked));
        assert(held_after_run(false, locked));
        assert(guards_after_run(locked) == guards_after_run(inner) + 1);
        assert(all.drop_last() =~= locked);
        assert(all.last() is Unlock);
        assert(run_permitted(false, all));
        assert(!held_after_run(false, all));
        assert(guards_after_run(all) == guards_after_run(locked) - 1);
    }
}

/// Locks that were each given back leave a free mutex free, with as many
/// guards as before: none.
pub proof fn lemma_settled_is_free(before: Seq<LockOp>, after: Seq<LockOp>)
    requires
        run_permitted(false, before),
        !held_after_run(false, before),
        settled(before, after),
    ensures
        run_permitted(false, after),
        !held_after_run(false, after),
        guards_after_run(after) == 0,
{
    let n = choose|n: nat| after == before + #[trigger] lock_pairs(n);
    lemma_pairs_keep_free(before, n);
    lemma_one_guard(before);
}

/// On a free mutex, locks that are each given back before the next is taken
/// never leave two guards: at every instant up to the end of `after` at
/// most one exists, and at the end none.
pub proof fn lemma_settled_one_guard(before: Seq<LockOp>, after: Seq<LockOp>, k: int)
    requires
        run_permitted(false, before),
        !held_after_run(false, before),
        settled(before, after),
        0 <= k <= after.len(),
    ensures
        0 <= guards_after_run(after.take(k)) <= 1,
        guards_after_run(after) == 0,
        !held_after_run(false, after),
{
    lemma_settled_is_free(before, after);
    lemma_one_guard_throughout(after, k);
}

/// The guard of a locked mutex: it holds the protected value until it is
/// given back.
pub struct MutexGuard<T> {
    value: T,
}

impl<T> View for MutexGuard<T> {
    type V = T;

    closed spec fn view(&self) -> T {
        self.value
    }
}

impl<T> MutexGuard<T> {
    /// The protected value.
    pub fn get(&self) -> (r: &T)
        ensures
            *r == self@,
    {
        &self.value
    }

    /// The protected value, to be changed in place.
    pub fn get_mut(&mut self) -> (r: &mut T)
        ensures
            *r == old(self)@,
            final(self)@ == *final(r),
    {
        &mut self.value
    }
}

/// A value behind a lock.
pub struct Mutex<T> {
    slot: Option<T>,
    record: Ghost<Seq<LockOp>>,
}

impl<T> Mutex<T> {
    #[verifier::type_invariant]
    spec fn recorded(&self) -> bool {
        &&& run_permitted(false, self.record@)
        &&& held_after_run(false, self.record@) == (self.slot is None)
    }

    /// Whether a guard is out.
    pub closed spec fn held(&self) -> bool {
        self.slot is None
    }

    /// The protected value, while no guard is out.
    pub closed spec fn value(&self) -> T
        recommends
            !self.held(),
    {
        self.slot->0
    }

    /// Everything done to the mutex since it was made, in order.
    pub closed spec fn history(&self) -> Seq<LockOp> {
        self.record@
    }

    /// A mutex that protects `value` and is not held.
    pub fn new(value: T) -> (m: Mutex<T>)
        ensures
            !m.held(),
            m.value() == value,
            m.history() == Seq::<LockOp>::empty(),
    {
        Mutex { slot: Some(value), record: Ghost(Seq::empty()) }
    }

    /// Whether a guard is out. What was done to the mutex so far could all
    /// be done, and leaves it held or not as it is.
    pub fn is_locked(&self) -> (b: bool)
        ensures
            b == self.held(),
            run_permitted(false, self.history()),
            self.held() == held_after_run(false, self.history()),
    {
        proof {
            use_type_invariant(self);
        }
        self.slot.is_none()
    }

    /// One attempt to lock: hands out the guard if none is out, and marks
    /// the mutex as held.
    pub fn try_lock(&mut self) -> (g: Option<MutexGuard<T>>)
        ensures
            final(self).held() == held_after(old(self).held(), LockOp::TryLock),
            g is Some == grants(old(self).held(), LockOp::TryLock),
            g matches Some(guard) ==> guard@ == old(self).value(),
            final(self).history() == old(self).history().push(LockOp::TryLock),
    {
        proof {
            use_type_invariant(&*self);
        }
        let ghost before = self.record@;
        proof {
            let after = before.push(LockOp::TryLock);
            assert(after.drop_last() =~= before);
            assert(after.last() is TryLock);
            assert(run_permitted(false, after));
            assert(held_after_run(false, after));
        }
        let mut taken = Mutex { slot: None, record: Ghost(before.push(LockOp::TryLock)) };
        core::mem::swap(self, &mut taken);
        match taken.slot {
            Some(value) => Some(MutexGuard { value }),
            None => None,
        }
    }

    /// Gives the guard back: the mutex protects the value that the guard
    /// holds, and is no longer held.
    pub fn unlock(&mut self, guard: MutexGuard<T>)
        requires
            permitted(old(self).held(), LockOp::Unlock),
        ensures
            final(self).held() == held_after(old(self).held(), LockOp::Unlock),
            final(self).value() == guard@,
            final(self).history() == old(self).history().push(LockOp::Unlock),
    {
        proof {
            use_type_invariant(&*self);
        }
        let ghost before = self.record@;
        proof {
            let after = before.push(LockOp::Unlock);
            assert(after.drop_last() =~= before);
            assert(after.last() is Unlock);
            assert(run_permitted(false, after));
            assert(!held_after_run(false, after));
        }
        *self = Mutex { slot: Some(guard.value), record: Ghost(before.push(LockOp::Unlock)) };
    }
}

} // verus!
