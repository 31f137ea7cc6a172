use std::collections::VecDeque;
use vstd::prelude::*;

verus! {

/// Counter and FIFO of waiters of a counting semaphore. A negative count is
/// the number of threads waiting.
pub struct SemaphoreInner {
    pub count: isize,
    pub wait_queue: VecDeque<usize>,
}

pub struct Semaphore {
    pub inner: SemaphoreInner,
}

/// `down` on a semaphore with count `count` and waiters `w`, by thread `t`:
/// the new count, the new waiters, and whether `t` must block.
pub open spec fn sem_down_spec(count: int, w: Seq<usize>, t: usize) -> (int, Seq<usize>, bool) {
    if count - 1 < 0 {
        (count - 1, w.push(t), true)
    } else {
        (count - 1, w, false)
    }
}

/// `up` on a semaphore with count `count` and waiters `w`: the new count,
/// the new waiters, and the thread woken, if any.
pub open spec fn sem_up_spec(count: int, w: Seq<usize>) -> (int, Seq<usize>, Option<usize>) {
    if count + 1 <= 0 && w.len() > 0 {
        (count + 1, w.drop_first(), Some(w[0]))
    } else {
        (count + 1, w, None)
    }
}

/// First-in first-out wake-up: on a semaphore that no thread holds and
/// none waits on, threads `a`, `b`, `c` that call `down` in that order all
/// block, and the next three `up` calls wake `a`, then `b`, then `c`.
pub proof fn lemma_semaphore_fifo(a: usize, b: usize, c: usize)
    ensures
        ({
            let d1 = sem_down_spec(0, Seq::empty(), a);
            let d2 = sem_down_spec(d1.0, d1.1, b);
            let d3 = sem_down_spec(d2.0, d2.1, c);
            let u1 = sem_up_spec(d3.0, d3.1);
            let u2 = sem_up_spec(u1.0, u1.1);
            let u3 = sem_up_spec(u2.0, u2.1);
            &&& d1.2 && d2.2 && d3.2
            &&& u1.2 == Some(a) && u2.2 == Some(b) && u3.2 == Some(c)
            &&& u3.0 == 0 && u3.1 == Seq::<usize>::empty()
        }),
{
    let d1 = sem_down_spec(0, Seq::empty(), a);
    let d2 = sem_down_spec(d1.0, d1.1, b);
    let d3 = sem_down_spec(d2.0, d2.1, c);
    assert(d3.1 =~= seq![a, b, c]);
    let u1 = sem_up_spec(d3.0, d3.1);
    assert(u1.1 =~= seq![b, c]);
    let u2 = sem_up_spec(u1.0, u1.1);
    assert(u2.1 =~= seq![c]);
    let u3 = sem_up_spec(u2.0, u2.1);
    assert(u3.1 =~= Seq::<usize>::empty());
}

impl Semaphore {
    /// Every waiter is accounted for by the negative part of the count.
    pub open spec fn wf(&self) -> bool {
        &&& self.inner.count >= 0 ==> self.inner.wait_queue@.len() == 0
        &&& self.inner.count < 0 ==> self.inner.wait_queue@.len() == -self.inner.count
    }

    pub open spec fn waiters(&self) -> Seq<usize> {
        self.inner.wait_queue@
    }

    pub fn new(res_count: usize) -> (r: Semaphore)
        requires
            res_count <= isize::MAX,
        ensures
            r.wf(),
            r.inner.count == res_count,
            r.waiters() == Seq::<usize>::empty(),
    {
        Semaphore { inner: SemaphoreInner { count: res_count as isize, wait_queue: VecDeque::new() } }
    }

    /// Releases one unit. When a thread was waiting, the oldest one is taken
    /// off the queue and returned, to be made ready by the caller.
    pub fn up(&mut self) -> (r: Option<usize>)
        requires
            old(self).wf(),
            old(self).inner.count < isize::MAX,
        ensures
            final(self).wf(),
            (final(self).inner.count as int, final(self).waiters(), r) == sem_up_spec(old(self).inner.count as int, old(self).waiters()),
            final(self).inner.count == old(self).inner.count + 1,
            old(self).inner.count < 0 ==> r == Some(old(self).waiters()[0]) && final(self).waiters()
                == old(self).waiters().drop_first(),
            old(self).inner.count >= 0 ==> r.is_none() && final(self).waiters()
                == old(self).waiters(),
    {
        self.inner.count = self.inner.count + 1;
        if self.inner.count <= 0 {
            self.inner.wait_queue.pop_front()
        } else {
            None
        }
    }

    /// Takes one unit. When none is left the caller is queued at the back
    /// and `true` says that it must block.
    pub fn down(&mut self, current: usize) -> (r: bool)
        requires
            old(self).wf(),
            old(self).inner.count > isize::MIN,
        ensures
            final(self).wf(),
            (final(self).inner.count as int, final(self).waiters(), r) == sem_down_spec(old(self).inner.count as int, old(self).waiters(), current),
            final(self).inner.count == old(self).inner.count - 1,
            r == (old(self).inner.count <= 0),
            r ==> final(self).waiters() == old(self).waiters().push(current),
            !r ==> final(self).waiters() == old(self).waiters(),
    {
        self.inner.count = self.inner.count - 1;
        if self.inner.count < 0 {
            self.inner.wait_queue.push_back(current);
            true
        } else {
            false
        }
    }
}

/// A lock that is only polled: a thread that finds it held yields and tries
/// again.
pub struct MutexSpin {
    pub locked: bool,
}

impl MutexSpin {
    pub fn new() -> (r: MutexSpin)
        ensures
            !r.locked,
    {
        MutexSpin { locked: false }
    }

    /// Takes the lock if it is free; `false` means: yield and retry.
    pub fn lock(&mut self) -> (r: bool)
        ensures
            r == !old(self).locked,
            final(self).locked,
    {
        if self.locked {
            false
        } else {
            self.locked = true;
            true
        }
    }

    /// Releases the lock; `false` when it was not held.
    pub fn unlock(&mut self) -> (r: bool)
        ensures
            r == old(self).locked,
            !final(self).locked,
    {
        let was = self.locked;
        self.locked = false;
        was
    }
}

/// A lock whose contenders wait in FIFO order. Release hands the lock
/// straight to the oldest waiter.
pub struct MutexBlocking {
    pub locked: bool,
    pub wait_queue: VecDeque<usize>,
}

impl MutexBlocking {
    /// Only a held lock has waiters.
    pub open spec fn wf(&self) -> bool {
        !self.locked ==> self.wait_queue@.len() == 0
    }

    pub fn new() -> (r: MutexBlocking)
        ensures
            r.wf(),
            !r.locked,
            r.wait_queue@ == Seq::<usize>::empty(),
    {
        MutexBlocking { locked: false, wait_queue: VecDeque::new() }
    }

    /// Takes the lock for `current`, or queues it; `true` means it must
    /// block.
    pub fn lock(&mut self, current: usize) -> (r: bool)
        requires
            old(self).wf(),
        ensures
            final(self).wf(),
            final(self).locked,
            r == old(self).locked,
            r ==> final(self).wait_queue@ == old(self).wait_queue@.push(current),
            !r ==> final(self).wait_queue@ == old(self).wait_queue@,
    {
        if self.locked {
            self.wait_queue.push_back(current);
            true
        } else {
            self.locked = true;
            false
        }
    }

    /// Releases the lock. `Err(())` when it was not held. `Ok(Some(t))`: the
    /// lock passed to the oldest waiter `t`, which the caller makes ready.
    pub fn unlock(&mut self) -> (r: Result<Option<usize>, ()>)
        requires
            old(self).wf(),
        ensures
            final(self).wf(),
            !old(self).locked ==> r is Err && *final(self) == *old(self),
            old(self).locked && old(self).wait_queue@.len() == 0 ==> r == Ok::<Option<usize>, ()>(
                None,
            ) && !final(self).locked && final(self).wait_queue@ == old(self).wait_queue@,
            old(self).locked && old(self).wait_queue@.len() > 0 ==> r == Ok::<Option<usize>, ()>(
                Some(old(self).wait_queue@[0]),
            ) && final(self).locked && final(self).wait_queue@ == old(self).wait_queue@.drop_first(),
    {
        if !self.locked {
            return Err(());
        }
        match self.wait_queue.pop_front() {
            Some(t) => Ok(Some(t)),
            None => {
                self.locked = false;
                Ok(None)
            },
        }
    }
}

/// A process-local mutex, of either kind.
pub enum Mutex {
    Spin(MutexSpin),
    Blocking(MutexBlocking),
}

impl Mutex {
    pub open spec fn is_blocking(&self) -> bool {
        self is Blocking
    }

    pub open spec fn locked(&self) -> bool {
        match self {
            Mutex::Spin(s) => s.locked,
            Mutex::Blocking(b) => b.locked,
        }
    }

    /// Threads queued for the mutex, oldest first; a spinning mutex has none.
    pub open spec fn waiters(&self) -> Seq<usize> {
        match self {
            Mutex::Spin(_) => Seq::empty(),
            Mutex::Blocking(b) => b.wait_queue@,
        }
    }

    pub open spec fn wf(&self) -> bool {
        match self {
            Mutex::Spin(_) => true,
            Mutex::Blocking(m) => m.wf(),
        }
    }
}

/// A condition variable: only a FIFO of waiters.
pub struct Condvar {
    pub wait_queue: VecDeque<usize>,
}

impl Condvar {
    pub fn new() -> (r: Condvar)
        ensures
            r.wait_queue@ == Seq::<usize>::empty(),
    {
        Condvar { wait_queue: VecDeque::new() }
    }

    /// Takes the oldest waiter off the queue, to be made ready by the caller.
    pub fn signal(&mut self) -> (r: Option<usize>)
        ensures
            old(self).wait_queue@.len() == 0 ==> r.is_none()
                && final(self).wait_queue@ == old(self).wait_queue@,
            old(self).wait_queue@.len() > 0 ==> r == Some(old(self).wait_queue@[0])
                && final(self).wait_queue@ == old(self).wait_queue@.drop_first(),
    {
        self.wait_queue.pop_front()
    }

    /// Queues `current` at the back.
    pub fn wait(&mut self, current: usize)
        ensures
            final(self).wait_queue@ == old(self).wait_queue@.push(current),
    {
        self.wait_queue.push_back(current);
    }
}

} // verus!
