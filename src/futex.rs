use vstd::prelude::*;

use crate::task::{TaskControlBlockInner, TaskStatus};
use crate::wait_queue::WaitQueue;

verus! {

/// Futex operation codes. Only `Wait` and `Wake` are carried out.
#[derive(Clone, Copy, Debug, PartialEq, Eq, Structural)]
pub enum FutexOp {
    Wait,
    Wake,
    Fd,
    Requeue,
    CmpRequeue,
    WakeOp,
    LockPi,
    UnlockPi,
    TrylockPi,
    WaitBitset,
    WakeBitset,
    WaitRequeuePi,
    CmpRequeuePi,
    LockPi2,
}

/// The operation with numeric code `code`, if it is one.
pub open spec fn futex_op_spec(code: isize) -> Option<FutexOp> {
    if code == 0 {
        Some(FutexOp::Wait)
    } else if code == 1 {
        Some(FutexOp::Wake)
    } else if code == 2 {
        Some(FutexOp::Fd)
    } else if code == 3 {
        Some(FutexOp::Requeue)
    } else if code == 4 {
        Some(FutexOp::CmpRequeue)
    } else if code == 5 {
        Some(FutexOp::WakeOp)
    } else if code == 6 {
        Some(FutexOp::LockPi)
    } else if code == 7 {
        Some(FutexOp::UnlockPi)
    } else if code == 8 {
        Some(FutexOp::TrylockPi)
    } else if code == 9 {
        Some(FutexOp::WaitBitset)
    } else if code == 10 {
        Some(FutexOp::WakeBitset)
    } else if code == 11 {
        Some(FutexOp::WaitRequeuePi)
    } else if code == 12 {
        Some(FutexOp::CmpRequeuePi)
    } else if code == 13 {
        Some(FutexOp::LockPi2)
    } else {
        None
    }
}

/// Parses an operation code; `Err(())` for a code that names no operation.
pub fn futex_op_from(code: isize) -> (r: Result<FutexOp, ()>)
    ensures
        futex_op_spec(code) matches Some(op) ==> r == Ok::<FutexOp, ()>(op),
        futex_op_spec(code).is_none() ==> r is Err,
{
    match code {
        0 => Ok(FutexOp::Wait),
        1 => Ok(FutexOp::Wake),
        2 => Ok(FutexOp::Fd),
        3 => Ok(FutexOp::Requeue),
        4 => Ok(FutexOp::CmpRequeue),
        5 => Ok(FutexOp::WakeOp),
        6 => Ok(FutexOp::LockPi),
        7 => Ok(FutexOp::UnlockPi),
        8 => Ok(FutexOp::TrylockPi),
        9 => Ok(FutexOp::WaitBitset),
        10 => Ok(FutexOp::WakeBitset),
        11 => Ok(FutexOp::WaitRequeuePi),
        12 => Ok(FutexOp::CmpRequeuePi),
        13 => Ok(FutexOp::LockPi2),
        _ => Err(()),
    }
}

/// The wait queue of one user address.
pub struct FutexEntry {
    pub addr: usize,
    pub queue: WaitQueue,
}

/// A process's futex table: one wait queue per user address ever waited or
/// woken on. Entries are never removed.
pub struct FutexTable {
    pub entries: Vec<FutexEntry>,
}

impl FutexTable {
    /// Addresses are unique and no queue's lock is held between calls.
    pub open spec fn wf(&self) -> bool {
        &&& forall|i: int, j: int|
            0 <= i < j < self.entries@.len() ==> self.entries@[i].addr != self.entries@[j].addr
        &&& forall|i: int| 0 <= i < self.entries@.len() ==> !(#[trigger] self.entries@[i]).queue.is_locked()
    }

    pub open spec fn has(&self, addr: usize) -> bool {
        exists|i: int| 0 <= i < self.entries@.len() && self.entries@[i].addr == addr
    }

    /// The threads waiting on `addr`, oldest first.
    pub open spec fn waiters(&self, addr: usize) -> Seq<usize> {
        if self.has(addr) {
            let i = choose|i: int| 0 <= i < self.entries@.len() && self.entries@[i].addr == addr;
            self.entries@[i].queue@
        } else {
            Seq::empty()
        }
    }

    pub proof fn lemma_waiters_at(&self, i: int)
        requires
            self.wf(),
            0 <= i < self.entries@.len(),
        ensures
            self.has(self.entries@[i].addr),
            self.waiters(self.entries@[i].addr) == self.entries@[i].queue@,
    {
        let a = self.entries@[i].addr;
        assert(self.has(a));
        let j = choose|j: int| 0 <= j < self.entries@.len() && self.entries@[j].addr == a;
        if j < i {
            assert(self.entries@[j].addr != self.entries@[i].addr);
        } else if i < j {
            assert(self.entries@[i].addr != self.entries@[j].addr);
        }
    }

    /// Changing the queue of entry `i` leaves the waiters of every other
    /// address alone.
    pub proof fn lemma_update_keeps_others(old_t: &FutexTable, new_t: &FutexTable, i: int)
        requires
            old_t.wf(),
            new_t.wf(),
            0 <= i < old_t.entries@.len(),
            new_t.entries@.len() == old_t.entries@.len(),
            new_t.entries@[i].addr == old_t.entries@[i].addr,
            forall|j: int| 0 <= j < old_t.entries@.len() && j != i ==> new_t.entries@[j] == old_t.entries@[j],
        ensures
            forall|a: usize| a != old_t.entries@[i].addr ==> new_t.waiters(a) == old_t.waiters(a),
    {
        assert forall|a: usize| a != old_t.entries@[i].addr implies new_t.waiters(a) == old_t.waiters(a) by {
            if old_t.has(a) {
                let j = choose|j: int| 0 <= j < old_t.entries@.len() && old_t.entries@[j].addr == a;
                old_t.lemma_waiters_at(j);
                new_t.lemma_waiters_at(j);
            } else {
                if new_t.has(a) {
                    let j = choose|j: int| 0 <= j < new_t.entries@.len() && new_t.entries@[j].addr == a;
                    assert(old_t.entries@[j].addr == a);
                }
            }
        }
    }

    pub fn new() -> (r: FutexTable)
        ensures
            r.wf(),
            forall|a: usize| r.waiters(a) == Seq::<usize>::empty(),
    {
        FutexTable { entries: Vec::new() }
    }

    /// Index of the entry of `addr`, created empty if there was none.
    fn entry_index(&mut self, addr: usize) -> (i: usize)
        requires
            old(self).wf(),
        ensures
            final(self).wf(),
            i < final(self).entries@.len(),
            final(self).entries@[i as int].addr == addr,
            forall|a: usize| final(self).waiters(a) == old(self).waiters(a),
    {
        let n = self.entries.len();
        let mut k: usize = 0;
        while k < n
            invariant
                n == self.entries@.len(),
                *self == *old(self),
                self.wf(),
                k <= n,
                forall|j: int| 0 <= j < k ==> self.entries@[j].addr != addr,
            decreases n - k,
        {
            if self.entries[k].addr == addr {
                return k;
            }
            k = k + 1;
        }
        let ghost old_t = *self;
        self.entries.push(FutexEntry { addr, queue: WaitQueue::new() });
        proof {
            assert forall|a: usize| self.waiters(a) == old_t.waiters(a) by {
                if a == addr {
                    self.lemma_waiters_at(n as int);
                    assert(!old_t.has(a));
                } else if old_t.has(a) {
                    let j = choose|j: int| 0 <= j < old_t.entries@.len() && old_t.entries@[j].addr == a;
                    old_t.lemma_waiters_at(j);
                    self.lemma_waiters_at(j);
                } else {
                    if self.has(a) {
                        let j = choose|j: int| 0 <= j < self.entries@.len() && self.entries@[j].addr == a;
                        assert(j < n);
                        assert(old_t.entries@[j].addr == a);
                    }
                }
            }
        }
        n
    }

    /// The wait half of a futex: with the queue of `addr` locked, compares
    /// `value` (the word read at `addr`) with `expected`. When they differ
    /// nothing is queued and `false` is returned. Otherwise the caller is
    /// marked blocked, queued at the back, and `true` says that it must
    /// give the core away.
    pub fn wait(
        &mut self,
        addr: usize,
        expected: u32,
        value: u32,
        current: usize,
        task_inner: &mut TaskControlBlockInner,
    ) -> (r: bool)
        requires
            old(self).wf(),
        ensures
            final(self).wf(),
            r == (value == expected),
            r ==> final(self).waiters(addr) == old(self).waiters(addr).push(current),
            r ==> final(task_inner).task_status == TaskStatus::Blocked,
            !r ==> *final(task_inner) == *old(task_inner),
            !r ==> final(self).waiters(addr) == old(self).waiters(addr),
            forall|a: usize| a != addr ==> final(self).waiters(a) == old(self).waiters(a),
            final(task_inner).exit_code == old(task_inner).exit_code,
    {
        let i = self.entry_index(addr);
        let ghost mid = *self;
        proof {
            mid.lemma_waiters_at(i as int);
        }
        let q = &mut self.entries[i].queue;
        let mut guard = q.lock();
        if value != expected {
            q.unlock(guard);
            proof {
                assert(self.entries@[i as int].queue@ == mid.entries@[i as int].queue@);
                self.lemma_waiters_at(i as int);
                FutexTable::lemma_update_keeps_others(&mid, self, i as int);
            }
            return false;
        }
        guard.add(q, current, task_inner);
        q.unlock(guard);
        proof {
            self.lemma_waiters_at(i as int);
            FutexTable::lemma_update_keeps_others(&mid, self, i as int);
        }
        true
    }

    /// The wake half of a futex: takes up to `n` of the oldest waiters of
    /// `addr` off its queue and returns them, oldest first. Their status is
    /// the caller's to change.
    pub fn wake(&mut self, addr: usize, n: u32) -> (r: Vec<usize>)
        requires
            old(self).wf(),
        ensures
            final(self).wf(),
            r@.len() == if old(self).waiters(addr).len() < n { old(self).waiters(addr).len() } else { n as nat },
            r@ == old(self).waiters(addr).take(r@.len() as int),
            final(self).waiters(addr) == old(self).waiters(addr).skip(r@.len() as int),
            forall|a: usize| a != addr ==> final(self).waiters(a) == old(self).waiters(a),
    {
        let i = self.entry_index(addr);
        let ghost mid = *self;
        proof {
            mid.lemma_waiters_at(i as int);
        }
        let ghost w0 = mid.entries@[i as int].queue@;
        let q = &mut self.entries[i].queue;
        let mut guard = q.lock();
        let mut woken: Vec<usize> = Vec::new();
        let mut count: u32 = 0;
        while count < n && q.len() > 0
            invariant
                q.is_locked(),
                count <= n,
                count as int == woken@.len(),
                woken@.len() <= w0.len(),
                woken@ == w0.take(woken@.len() as int),
                q@ == w0.skip(woken@.len() as int),
            decreases n - count,
        {
            let t = guard.take(q);
            proof {
                assert(w0.take(woken@.len() as int + 1) == w0.take(woken@.len() as int).push(
                    w0[woken@.len() as int],
                ));
                assert(w0.skip(woken@.len() as int).drop_first() == w0.skip(woken@.len() as int + 1));
            }
            woken.push(t.unwrap());
            count = count + 1;
        }
        q.unlock(guard);
        proof {
            if woken@.len() < n {
                assert(q@.len() == 0);
            }
            self.lemma_waiters_at(i as int);
            FutexTable::lemma_update_keeps_others(&mid, self, i as int);
        }
        woken
    }
}

} // verus!
