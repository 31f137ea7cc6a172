use std::collections::VecDeque;
use vstd::prelude::*;

use crate::task::{TaskControlBlockInner, TaskStatus};

verus! {

/// A FIFO of blocked threads (by handle), guarded by a binary lock.
pub struct WaitQueue {
    queue: VecDeque<usize>,
    locked: bool,
}

/// Witness that a wait queue's lock is held; `add` and `take` go through it
/// and `WaitQueue::unlock` consumes it.
pub struct WaitQueueLockGuard {
    held: bool,
}

impl View for WaitQueue {
    type V = Seq<usize>;

    closed spec fn view(&self) -> Seq<usize> {
        self.queue@
    }
}

impl WaitQueue {
    pub closed spec fn is_locked(&self) -> bool {
        self.locked
    }

    pub fn new() -> (r: WaitQueue)
        ensures
            r@ == Seq::<usize>::empty(),
            !r.is_locked(),
    {
        WaitQueue { queue: VecDeque::new(), locked: false }
    }

    pub fn len(&self) -> (r: usize)
        ensures
            r == self@.len(),
    {
        self.queue.len()
    }

    /// Takes the lock. On a single core the lock is never found held: a
    /// holder always releases it before handing the core away.
    pub fn lock(&mut self) -> (g: WaitQueueLockGuard)
        requires
            !old(self).is_locked(),
        ensures
            final(self).is_locked(),
            final(self)@ == old(self)@,
    {
        self.locked = true;
        WaitQueueLockGuard { held: true }
    }

    /// Releases the lock held through `guard`.
    pub fn unlock(&mut self, guard: WaitQueueLockGuard)
        requires
            old(self).is_locked(),
        ensures
            !final(self).is_locked(),
            final(self)@ == old(self)@,
    {
        let _ = guard.held;
        self.locked = false;
    }
}

impl WaitQueueLockGuard {
    /// Removes the oldest waiter; its status is the caller's to change.
    pub fn take(&mut self, q: &mut WaitQueue) -> (r: Option<usize>)
        requires
            old(q).is_locked(),
        ensures
            final(q).is_locked(),
            old(q)@.len() == 0 ==> r.is_none() && final(q)@ == old(q)@,
            old(q)@.len() > 0 ==> r == Some(old(q)@[0]) && final(q)@ == old(q)@.drop_first(),
    {
        q.queue.pop_front()
    }

    /// Marks the thread blocked and appends it at the back.
    pub fn add(&mut self, q: &mut WaitQueue, task: usize, task_inner: &mut TaskControlBlockInner)
        requires
            old(q).is_locked(),
        ensures
            final(q).is_locked(),
            final(q)@ == old(q)@.push(task),
            final(task_inner).task_status == TaskStatus::Blocked,
            final(task_inner).exit_code == old(task_inner).exit_code,
    {
        task_inner.task_status = TaskStatus::Blocked;
        q.queue.push_back(task);
    }
}

} // verus!
