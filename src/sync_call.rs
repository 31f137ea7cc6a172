use vstd::prelude::*;

use crate::kernel::Kernel;
use crate::process::ProcessControlBlockInner;
use crate::futex::{FutexOp, futex_op_from, futex_op_spec};
use crate::sync::{Condvar, Mutex, MutexBlocking, MutexSpin, Semaphore, sem_down_spec, sem_up_spec};
use crate::task::TaskStatus;

verus! {

/// Error number returned (negated) by a futex wait whose word has changed.
pub const EAGAIN: isize = 11;

impl Kernel {
    /// Pid of the process of the running thread.
    pub open spec fn cur_pid(&self) -> int {
        self.task(self.processor@->0 as int).pid as int
    }

    /// The state of the running thread's process.
    pub open spec fn cur_inner(&self) -> ProcessControlBlockInner {
        self.pcb(self.cur_pid()).inner
    }

    /// Semaphore `id` of the running process exists.
    pub open spec fn sem_valid(&self, id: usize) -> bool {
        id < self.cur_inner().semaphore_list@.len() && self.cur_inner().semaphore_list@[id as int] is Some
    }

    pub open spec fn sem(&self, p: int, id: int) -> Semaphore {
        self.pcb(p).inner.semaphore_list@[id]->0
    }

    /// Mutex `id` of the running process exists.
    pub open spec fn mutex_valid(&self, id: usize) -> bool {
        id < self.cur_inner().mutex_list@.len() && self.cur_inner().mutex_list@[id as int] is Some
    }

    /// Condition variable `id` of the running process exists.
    pub open spec fn condvar_valid(&self, id: usize) -> bool {
        id < self.cur_inner().condvar_list@.len() && self.cur_inner().condvar_list@[id as int] is Some
    }

    /// What `sys_semaphore_create` guarantees, from state `k0` to state `k1`.
    pub open spec fn sys_semaphore_create_post(k0: Kernel, k1: Kernel, res_count: usize, r: isize) -> bool {
        &&& (k1.processor == k0.processor)
        &&& (k1.manager == k0.manager)
        &&& (k1.tasks == k0.tasks)
        &&& ({
            let l = k0.cur_inner().semaphore_list@;
            &&& r == -1 <==> (res_count > isize::MAX || l.len() >= isize::MAX)
            &&& r == -1 ==> k1 == k0
            &&& r != -1 ==> {
                &&& 0 <= r <= l.len()
                &&& r < l.len() ==> l[r as int].is_none()
                &&& forall|i: int| 0 <= i < r ==> l[i].is_some()
                &&& k1.sem_valid(r as usize)
                &&& k1.sem(k1.cur_pid(), r as int).inner.count == res_count
                &&& k1.sem(k1.cur_pid(), r as int).waiters() == Seq::<usize>::empty()
            }
        })
    }

    /// `semaphore_create`: a semaphore with `res_count` units in the lowest
    /// free slot of the running process (the list grows when none is
    /// free); returns its id. -1 when the count or the id does not fit.
    pub fn sys_semaphore_create(&mut self, res_count: usize) -> (r: isize)
        requires
            old(self).wf(),
            old(self).processor@ is Some,
        ensures
            final(self).wf(),
            Kernel::sys_semaphore_create_post(*old(self), *final(self), res_count, r),
    {
        let ghost old_k = *self;
        let p = self.current_process();
        proof {
            assert(old_k.proc_ok(p as int));
        }
        let l = &self.procs[p].as_ref().unwrap().inner.semaphore_list;
        let n = l.len();
        if res_count > isize::MAX as usize || n >= isize::MAX as usize {
            return -1;
        }
        let mut id: usize = 0;
        while id < n && l[id].is_some()
            invariant
                n == l@.len(),
                id <= n,
                forall|j: int| 0 <= j < id ==> l@[j].is_some(),
            decreases n - id,
        {
            id = id + 1;
        }
        let sem = Semaphore::new(res_count);
        match &mut self.procs[p] {
            Some(pp) => {
                if id == pp.inner.semaphore_list.len() {
                    pp.inner.semaphore_list.push(Some(sem));
                } else {
                    pp.inner.semaphore_list.set(id, Some(sem));
                }
            },
            None => {},
        }
        proof {
            let a = old_k.pcb(p as int).inner;
            let b = self.pcb(p as int).inner;
            assert forall|i: int| 0 <= i < b.semaphore_list@.len() && (#[trigger] b.semaphore_list@[i]) is Some implies b.semaphore_list@[i]->0.wf() by {
                if i != id {
                    assert(a.semaphore_list@[i] == b.semaphore_list@[i]);
                }
            }
            Kernel::lemma_inner_update(&old_k, self, p as int);
        }
        id as isize
    }

    /// What `sys_semaphore_up` guarantees, from state `k0` to state `k1`.
    pub open spec fn sys_semaphore_up_post(k0: Kernel, k1: Kernel, sem_id: usize, r: isize) -> bool {
        &&& (k1.processor == k0.processor)
        &&& ({
            let p = k0.cur_pid();
            let s = k0.sem(p, sem_id as int);
            let u = sem_up_spec(s.inner.count as int, s.waiters());
            &&& r == -1 <==> s.inner.count == isize::MAX
            &&& r == -1 ==> k1 == k0
            &&& r == 0 ==> {
                &&& k1.sem(p, sem_id as int).inner.count == u.0
                &&& k1.sem(p, sem_id as int).waiters() == u.1
                &&& u.2 is None ==> k1.manager@ == k0.manager@
                &&& u.2 is Some && k0.wakeable(u.2->0 as int) ==> k1.manager@ == k0.manager@.push(u.2->0)
                    && k1.status(u.2->0 as int) == TaskStatus::Ready
                &&& u.2 is Some && !k0.wakeable(u.2->0 as int) ==> k1.manager@ == k0.manager@
            }
        })
    }

    /// `semaphore_up` on semaphore `sem_id` of the running process (which
    /// must exist). The count goes up by one; when a thread was waiting, the
    /// oldest is woken. -1, with nothing changed, when the count is at its
    /// maximum.
    pub fn sys_semaphore_up(&mut self, sem_id: usize) -> (r: isize)
        requires
            old(self).wf(),
            old(self).processor@ is Some,
            old(self).sem_valid(sem_id),
        ensures
            final(self).wf(),
            Kernel::sys_semaphore_up_post(*old(self), *final(self), sem_id, r),
    {
        let ghost old_k = *self;
        let p = self.current_process();
        proof {
            assert(old_k.proc_ok(p as int));
        }
        if self.procs[p].as_ref().unwrap().inner.semaphore_list[sem_id].as_ref().unwrap().inner.count == isize::MAX {
            return -1;
        }
        let mut woken: Option<usize> = None;
        match &mut self.procs[p] {
            Some(pp) => {
                match &mut pp.inner.semaphore_list[sem_id] {
                    Some(s) => {
                        woken = s.up();
                    },
                    None => {},
                }
            },
            None => {},
        }
        proof {
            ProcessControlBlockInner::lemma_wf_semaphore_update(&old_k.pcb(p as int).inner, &self.pcb(p as int).inner, sem_id as int);
            Kernel::lemma_inner_update(&old_k, self, p as int);
        }
        if let Some(t) = woken {
            self.wakeup_task(t);
        }
        0
    }

    /// What `sys_semaphore_down` guarantees, from state `k0` to state `k1`.
    pub open spec fn sys_semaphore_down_post(k0: Kernel, k1: Kernel, sem_id: usize, r: isize) -> bool {
        &&& ({
            let h = k0.processor@->0;
            let p = k0.cur_pid();
            let s = k0.sem(p, sem_id as int);
            let d = sem_down_spec(s.inner.count as int, s.waiters(), h);
            &&& r == -1 <==> s.inner.count == isize::MIN
            &&& r == -1 ==> k1 == k0
            &&& r == 0 ==> {
                &&& k1.sem(p, sem_id as int).inner.count == d.0
                &&& k1.sem(p, sem_id as int).waiters() == d.1
                &&& !d.2 ==> k1.processor == k0.processor && k1.manager == k0.manager
                &&& d.2 ==> k1.status(h as int) == TaskStatus::Blocked && k1.processor@ != Some(h)
            }
        })
    }

    /// `semaphore_down` on semaphore `sem_id` of the running process (which
    /// must exist). The count goes down by one; when no unit was left the
    /// caller is queued, blocks, and the next ready thread runs. -1, with
    /// nothing changed, when the count is at its minimum.
    pub fn sys_semaphore_down(&mut self, sem_id: usize) -> (r: isize)
        requires
            old(self).wf(),
            old(self).processor@ is Some,
            old(self).sem_valid(sem_id),
        ensures
            final(self).wf(),
            Kernel::sys_semaphore_down_post(*old(self), *final(self), sem_id, r),
    {
        let ghost old_k = *self;
        let h = self.processor.current().unwrap();
        let p = self.current_process();
        proof {
            assert(old_k.proc_ok(p as int));
        }
        if self.procs[p].as_ref().unwrap().inner.semaphore_list[sem_id].as_ref().unwrap().inner.count == isize::MIN {
            return -1;
        }
        let mut block = false;
        match &mut self.procs[p] {
            Some(pp) => {
                match &mut pp.inner.semaphore_list[sem_id] {
                    Some(s) => {
                        block = s.down(h);
                    },
                    None => {},
                }
            },
            None => {},
        }
        proof {
            ProcessControlBlockInner::lemma_wf_semaphore_update(&old_k.pcb(p as int).inner, &self.pcb(p as int).inner, sem_id as int);
            Kernel::lemma_inner_update(&old_k, self, p as int);
        }
        let ghost k1 = *self;
        if block {
            self.block_current_and_run_next();
            proof {
                if self.processor@ is Some {
                    assert(k1.ready_ok(0));
                }
            }
        }
        0
    }

    pub open spec fn mutex(&self, p: int, id: int) -> Mutex {
        self.pcb(p).inner.mutex_list@[id]->0
    }

    pub open spec fn condvar(&self, p: int, id: int) -> Condvar {
        self.pcb(p).inner.condvar_list@[id]->0
    }

    /// What `sys_mutex_create` guarantees, from state `k0` to state `k1`.
    pub open spec fn sys_mutex_create_post(k0: Kernel, k1: Kernel, blocking: bool, r: isize) -> bool {
        &&& (k1.processor == k0.processor)
        &&& (k1.manager == k0.manager)
        &&& (k1.tasks == k0.tasks)
        &&& ({
            let l = k0.cur_inner().mutex_list@;
            &&& r == -1 <==> l.len() >= isize::MAX
            &&& r == -1 ==> k1 == k0
            &&& r != -1 ==> {
                &&& 0 <= r <= l.len()
                &&& r < l.len() ==> l[r as int].is_none()
                &&& forall|i: int| 0 <= i < r ==> l[i].is_some()
                &&& k1.mutex_valid(r as usize)
                &&& k1.mutex(k1.cur_pid(), r as int).is_blocking() == blocking
                &&& !k1.mutex(k1.cur_pid(), r as int).locked()
                &&& k1.mutex(k1.cur_pid(), r as int).waiters() == Seq::<usize>::empty()
            }
        })
    }

    /// `mutex_create`: a free mutex, blocking or spinning, in the lowest
    /// free slot of the running process (the list grows when none is
    /// free); returns its id. -1 when the id does not fit.
    pub fn sys_mutex_create(&mut self, blocking: bool) -> (r: isize)
        requires
            old(self).wf(),
            old(self).processor@ is Some,
        ensures
            final(self).wf(),
            Kernel::sys_mutex_create_post(*old(self), *final(self), blocking, r),
    {
        let ghost old_k = *self;
        let p = self.current_process();
        proof {
            assert(old_k.proc_ok(p as int));
        }
        let l = &self.procs[p].as_ref().unwrap().inner.mutex_list;
        let n = l.len();
        if n >= isize::MAX as usize {
            return -1;
        }
        let mut id: usize = 0;
        while id < n && l[id].is_some()
            invariant
                n == l@.len(),
                id <= n,
                forall|j: int| 0 <= j < id ==> l@[j].is_some(),
            decreases n - id,
        {
            id = id + 1;
        }
        let m = if blocking {
            Mutex::Blocking(MutexBlocking::new())
        } else {
            Mutex::Spin(MutexSpin::new())
        };
        match &mut self.procs[p] {
            Some(pp) => {
                if id == pp.inner.mutex_list.len() {
                    pp.inner.mutex_list.push(Some(m));
                } else {
                    pp.inner.mutex_list.set(id, Some(m));
                }
            },
            None => {},
        }
        proof {
            let a = old_k.pcb(p as int).inner;
            let b = self.pcb(p as int).inner;
            assert forall|i: int| 0 <= i < b.mutex_list@.len() && (#[trigger] b.mutex_list@[i]) is Some implies b.mutex_list@[i]->0.wf() by {
                if i != id {
                    assert(a.mutex_list@[i] == b.mutex_list@[i]);
                }
            }
            Kernel::lemma_inner_update(&old_k, self, p as int);
        }
        id as isize
    }

    /// What `sys_mutex_lock` guarantees, from state `k0` to state `k1`.
    pub open spec fn sys_mutex_lock_post(k0: Kernel, k1: Kernel, mutex_id: usize, r: isize) -> bool {
        &&& ({
            let h = k0.processor@->0;
            let p = k0.cur_pid();
            let m = k0.mutex(p, mutex_id as int);
            let m2 = k1.mutex(p, mutex_id as int);
            &&& !m.is_blocking() && m.locked() ==> r == -2 && k1.procs == k0.procs
                && k1.manager@ == Kernel::yield_spec(h, k0.manager@).1
                && k1.processor@ == Some(Kernel::yield_spec(h, k0.manager@).0)
            &&& !m.is_blocking() && !m.locked() ==> r == 0 && !m2.is_blocking() && m2.locked()
                && k1.processor == k0.processor && k1.manager == k0.manager
            &&& m.is_blocking() ==> {
                &&& r == 0
                &&& m2.is_blocking() && m2.locked()
                &&& m.locked() ==> m2.waiters() == m.waiters().push(h)
                &&& !m.locked() ==> m2.waiters() == m.waiters()
                &&& !m.locked() ==> k1.processor == k0.processor && k1.manager == k0.manager
                &&& m.locked() ==> k1.status(h as int) == TaskStatus::Blocked && k1.processor@ != Some(h)
            }
        })
    }

    /// `mutex_lock` on mutex `mutex_id` of the running process (which must
    /// exist). A free mutex is taken and 0 returned. A held spinning mutex
    /// makes the caller yield and -2 says to try again once it runs. A held
    /// blocking mutex queues the caller, which blocks until `unlock` hands
    /// the mutex to it; 0 is returned.
    pub fn sys_mutex_lock(&mut self, mutex_id: usize) -> (r: isize)
        requires
            old(self).wf(),
            old(self).processor@ is Some,
            old(self).mutex_valid(mutex_id),
        ensures
            final(self).wf(),
            Kernel::sys_mutex_lock_post(*old(self), *final(self), mutex_id, r),
    {
        let ghost old_k = *self;
        let h = self.processor.current().unwrap();
        let p = self.current_process();
        proof {
            assert(old_k.proc_ok(p as int));
        }
        let spin_held = match &self.procs[p].as_ref().unwrap().inner.mutex_list[mutex_id] {
            Some(Mutex::Spin(s)) => s.locked,
            _ => false,
        };
        if spin_held {
            self.suspend_current_and_run_next();
            return -2;
        }
        let mut block = false;
        match &mut self.procs[p] {
            Some(pp) => {
                match &mut pp.inner.mutex_list[mutex_id] {
                    Some(Mutex::Spin(s)) => {
                        let _ = s.lock();
                    },
                    Some(Mutex::Blocking(b)) => {
                        block = b.lock(h);
                    },
                    None => {},
                }
            },
            None => {},
        }
        proof {
            ProcessControlBlockInner::lemma_wf_mutex_update(&old_k.pcb(p as int).inner, &self.pcb(p as int).inner, mutex_id as int);
            Kernel::lemma_inner_update(&old_k, self, p as int);
        }
        let ghost k1 = *self;
        if block {
            self.block_current_and_run_next();
            proof {
                if self.processor@ is Some {
                    assert(k1.ready_ok(0));
                }
            }
        }
        0
    }

    /// What `sys_mutex_unlock` guarantees, from state `k0` to state `k1`.
    pub open spec fn sys_mutex_unlock_post(k0: Kernel, k1: Kernel, mutex_id: usize, r: isize) -> bool {
        &&& (k1.processor == k0.processor)
        &&& ({
            let p = k0.cur_pid();
            let m = k0.mutex(p, mutex_id as int);
            let m2 = k1.mutex(p, mutex_id as int);
            &&& r == (if m.locked() { 0isize } else { -1isize })
            &&& !m.locked() ==> k1 == k0
            &&& m.locked() ==> {
                &&& k1.tasks@.len() == k0.tasks@.len()
                &&& k1.tasks@[k0.processor@->0 as int] == k0.tasks@[k0.processor@->0 as int]
                &&& k1.procs@.len() == k0.procs@.len()
                &&& k1.proc_exists(p)
                &&& k1.pcb(p).inner.condvar_list == k0.pcb(p).inner.condvar_list
                &&& k1.pcb(p).inner.parent == k0.pcb(p).inner.parent
                &&& m2.is_blocking() == m.is_blocking()
                &&& m.waiters().len() == 0 ==> !m2.locked() && m2.waiters() == m.waiters()
                    && k1.manager == k0.manager
                &&& m.waiters().len() > 0 ==> m2.locked() && m2.waiters() == m.waiters().drop_first()
                &&& m.waiters().len() > 0 && k0.wakeable(m.waiters()[0] as int) ==> k1.manager@
                    == k0.manager@.push(m.waiters()[0]) && k1.status(m.waiters()[0] as int) == TaskStatus::Ready
                &&& m.waiters().len() > 0 && !k0.wakeable(m.waiters()[0] as int) ==> k1.manager@ == k0.manager@
            }
        })
    }

    /// `mutex_unlock` on mutex `mutex_id` of the running process (which
    /// must exist). -1, with nothing changed, when it is not held. A
    /// blocking mutex with waiters passes straight to the oldest, which is
    /// woken; otherwise the mutex becomes free. Returns 0.
    pub fn sys_mutex_unlock(&mut self, mutex_id: usize) -> (r: isize)
        requires
            old(self).wf(),
            old(self).processor@ is Some,
            old(self).mutex_valid(mutex_id),
        ensures
            final(self).wf(),
            Kernel::sys_mutex_unlock_post(*old(self), *final(self), mutex_id, r),
    {
        let ghost old_k = *self;
        let p = self.current_process();
        proof {
            assert(old_k.proc_ok(p as int));
        }
        let held = match &self.procs[p].as_ref().unwrap().inner.mutex_list[mutex_id] {
            Some(Mutex::Spin(s)) => s.locked,
            Some(Mutex::Blocking(b)) => b.locked,
            None => false,
        };
        if !held {
            return -1;
        }
        let mut woken: Option<usize> = None;
        match &mut self.procs[p] {
            Some(pp) => {
                match &mut pp.inner.mutex_list[mutex_id] {
                    Some(Mutex::Spin(s)) => {
                        let _ = s.unlock();
                    },
                    Some(Mutex::Blocking(b)) => {
                        if let Ok(w) = b.unlock() {
                            woken = w;
                        }
                    },
                    None => {},
                }
            },
            None => {},
        }
        proof {
            ProcessControlBlockInner::lemma_wf_mutex_update(&old_k.pcb(p as int).inner, &self.pcb(p as int).inner, mutex_id as int);
            Kernel::lemma_inner_update(&old_k, self, p as int);
        }
        let ghost k1 = *self;
        let h = self.processor.current().unwrap();
        proof {
            assert(k1.status(h as int) == TaskStatus::Running);
        }
        if let Some(t) = woken {
            self.wakeup_task(t);
        }
        0
    }

    /// What `sys_condvar_create` guarantees, from state `k0` to state `k1`.
    pub open spec fn sys_condvar_create_post(k0: Kernel, k1: Kernel, r: isize) -> bool {
        &&& (k1.processor == k0.processor)
        &&& (k1.manager == k0.manager)
        &&& (k1.tasks == k0.tasks)
        &&& ({
            let l = k0.cur_inner().condvar_list@;
            &&& r == -1 <==> l.len() >= isize::MAX
            &&& r == -1 ==> k1 == k0
            &&& r != -1 ==> {
                &&& 0 <= r <= l.len()
                &&& r < l.len() ==> l[r as int].is_none()
                &&& forall|i: int| 0 <= i < r ==> l[i].is_some()
                &&& k1.condvar_valid(r as usize)
                &&& k1.condvar(k1.cur_pid(), r as int).wait_queue@ == Seq::<usize>::empty()
            }
        })
    }

    /// `condvar_create`: an empty condition variable in the lowest free
    /// slot of the running process (the list grows when none is free);
    /// returns its id. -1 when the id does not fit.
    pub fn sys_condvar_create(&mut self) -> (r: isize)
        requires
            old(self).wf(),
            old(self).processor@ is Some,
        ensures
            final(self).wf(),
            Kernel::sys_condvar_create_post(*old(self), *final(self), r),
    {
        let ghost old_k = *self;
        let p = self.current_process();
        proof {
            assert(old_k.proc_ok(p as int));
        }
        let l = &self.procs[p].as_ref().unwrap().inner.condvar_list;
        let n = l.len();
        if n >= isize::MAX as usize {
            return -1;
        }
        let mut id: usize = 0;
        while id < n && l[id].is_some()
            invariant
                n == l@.len(),
                id <= n,
                forall|j: int| 0 <= j < id ==> l@[j].is_some(),
            decreases n - id,
        {
            id = id + 1;
        }
        match &mut self.procs[p] {
            Some(pp) => {
                if id == pp.inner.condvar_list.len() {
                    pp.inner.condvar_list.push(Some(Condvar::new()));
                } else {
                    pp.inner.condvar_list.set(id, Some(Condvar::new()));
                }
            },
            None => {},
        }
        proof {
            Kernel::lemma_inner_update(&old_k, self, p as int);
        }
        id as isize
    }

    /// What `sys_condvar_signal` guarantees, from state `k0` to state `k1`.
    pub open spec fn sys_condvar_signal_post(k0: Kernel, k1: Kernel, condvar_id: usize, r: isize) -> bool {
        &&& (r == 0)
        &&& (k1.processor == k0.processor)
        &&& ({
            let p = k0.cur_pid();
            let w = k0.condvar(p, condvar_id as int).wait_queue@;
            &&& w.len() == 0 ==> k1.condvar(p, condvar_id as int).wait_queue@ == w
                && k1.manager == k0.manager
            &&& w.len() > 0 ==> k1.condvar(p, condvar_id as int).wait_queue@ == w.drop_first()
            &&& w.len() > 0 && k0.wakeable(w[0] as int) ==> k1.manager@ == k0.manager@.push(w[0])
                && k1.status(w[0] as int) == TaskStatus::Ready
            &&& w.len() > 0 && !k0.wakeable(w[0] as int) ==> k1.manager@ == k0.manager@
        })
    }

    /// `condvar_signal` on condition variable `condvar_id` of the running
    /// process (which must exist): wakes its oldest waiter, if any.
    pub fn sys_condvar_signal(&mut self, condvar_id: usize) -> (r: isize)
        requires
            old(self).wf(),
            old(self).processor@ is Some,
            old(self).condvar_valid(condvar_id),
        ensures
            final(self).wf(),
            Kernel::sys_condvar_signal_post(*old(self), *final(self), condvar_id, r),
    {
        let ghost old_k = *self;
        let p = self.current_process();
        proof {
            assert(old_k.proc_ok(p as int));
        }
        let mut woken: Option<usize> = None;
        match &mut self.procs[p] {
            Some(pp) => {
                match &mut pp.inner.condvar_list[condvar_id] {
                    Some(c) => {
                        woken = c.signal();
                    },
                    None => {},
                }
            },
            None => {},
        }
        proof {
            Kernel::lemma_inner_update(&old_k, self, p as int);
        }
        if let Some(t) = woken {
            self.wakeup_task(t);
        }
        0
    }

    /// What `sys_condvar_wait` guarantees, from state `k0` to state `k1`.
    pub open spec fn sys_condvar_wait_post(k0: Kernel, k1: Kernel, condvar_id: usize, mutex_id: usize, r: isize) -> bool {
        &&& ({
            let h = k0.processor@->0;
            let p = k0.cur_pid();
            let held = k0.mutex(p, mutex_id as int).locked();
            &&& r == (if held { 0isize } else { -1isize })
            &&& !held ==> k1 == k0
            &&& held ==> k1.condvar(p, condvar_id as int).wait_queue@ == k0.condvar(p, condvar_id as int).wait_queue@.push(h)
                && k1.status(h as int) == TaskStatus::Blocked && k1.processor@ != Some(h)
            &&& held ==> {
                let m = k0.mutex(p, mutex_id as int);
                let m2 = k1.mutex(p, mutex_id as int);
                &&& m2.is_blocking() == m.is_blocking()
                &&& m.waiters().len() == 0 ==> !m2.locked() && m2.waiters() == m.waiters()
                &&& m.waiters().len() > 0 ==> m2.locked() && m2.waiters() == m.waiters().drop_first()
            }
        })
    }

    /// `condvar_wait` on condition variable `condvar_id` with mutex
    /// `mutex_id` of the running process (both must exist): the mutex is
    /// released as by `mutex_unlock` (-1, with nothing changed, when it is
    /// not held), the caller is queued on the condition variable and
    /// blocks. Once woken it holds no mutex: taking it again is the
    /// caller's business. Returns 0.
    pub fn sys_condvar_wait(&mut self, condvar_id: usize, mutex_id: usize) -> (r: isize)
        requires
            old(self).wf(),
            old(self).processor@ is Some,
            old(self).condvar_valid(condvar_id),
            old(self).mutex_valid(mutex_id),
        ensures
            final(self).wf(),
            Kernel::sys_condvar_wait_post(*old(self), *final(self), condvar_id, mutex_id, r),
    {
        let ghost old_k = *self;
        let h = self.processor.current().unwrap();
        let p = self.current_process();
        let r = self.sys_mutex_unlock(mutex_id);
        if r == -1 {
            return -1;
        }
        let ghost k1 = *self;
        proof {
            assert(k1.proc_ok(p as int));
            assert(k1.task(h as int) == old_k.task(h as int));
        }
        match &mut self.procs[p] {
            Some(pp) => {
                match &mut pp.inner.condvar_list[condvar_id] {
                    Some(c) => {
                        c.wait(h);
                    },
                    None => {},
                }
            },
            None => {},
        }
        proof {
            Kernel::lemma_inner_update(&k1, self, p as int);
        }
        let ghost k2 = *self;
        proof {
            assert(k2.pcb(p as int).inner.mutex_list == k1.pcb(p as int).inner.mutex_list);
        }
        self.block_current_and_run_next();
        proof {
            if self.processor@ is Some {
                assert(k2.ready_ok(0));
            }
        }
        0
    }

    /// What `sys_futex_wait` guarantees, from state `k0` to state `k1`.
    pub open spec fn sys_futex_wait_post(k0: Kernel, k1: Kernel, uaddr: usize, expected: u32, word: u32, r: isize) -> bool {
        &&& ({
            let h = k0.processor@->0;
            let p = k0.cur_pid();
            let ft = k1.pcb(p).inner.futex_table;
            let ft0 = k0.pcb(p).inner.futex_table;
            &&& word != expected ==> {
                &&& r == -EAGAIN
                &&& k1.processor == k0.processor
                &&& k1.manager == k0.manager
                &&& k1.tasks == k0.tasks
                &&& forall|a: usize| ft.waiters(a) == ft0.waiters(a)
            }
            &&& word == expected ==> {
                &&& r == 0
                &&& ft.waiters(uaddr) == ft0.waiters(uaddr).push(h)
                &&& forall|a: usize| a != uaddr ==> ft.waiters(a) == ft0.waiters(a)
                &&& k1.status(h as int) == TaskStatus::Blocked
                &&& k1.processor@ != Some(h)
            }
        })
    }

    /// `futex` wait on user address `uaddr` of the running process, where
    /// `word` is the 32-bit value the trap layer read there. When it
    /// differs from `expected` the call returns -EAGAIN at once and nothing
    /// observable changes. Otherwise the caller is queued on the address,
    /// blocks, and 0 is returned once it is woken.
    pub fn sys_futex_wait(&mut self, uaddr: usize, expected: u32, word: u32) -> (r: isize)
        requires
            old(self).wf(),
            old(self).processor@ is Some,
        ensures
            final(self).wf(),
            Kernel::sys_futex_wait_post(*old(self), *final(self), uaddr, expected, word, r),
    {
        let ghost old_k = *self;
        let h = self.processor.current().unwrap();
        let p = self.current_process();
        proof {
            assert(old_k.proc_ok(p as int));
        }
        let mut scratch = self.tasks[h].unwrap().inner;
        let mut block = false;
        match &mut self.procs[p] {
            Some(pp) => {
                block = pp.inner.futex_table.wait(uaddr, expected, word, h, &mut scratch);
            },
            None => {},
        }
        proof {
            Kernel::lemma_inner_update(&old_k, self, p as int);
        }
        if !block {
            return -EAGAIN;
        }
        let ghost k1 = *self;
        self.block_current_and_run_next();
        proof {
            if self.processor@ is Some {
                assert(k1.ready_ok(0));
            }
        }
        0
    }

    /// What `sys_futex_wake` guarantees, from state `k0` to state `k1`.
    pub open spec fn sys_futex_wake_post(k0: Kernel, k1: Kernel, uaddr: usize, n: u32, r: isize) -> bool {
        &&& (k1.processor == k0.processor)
        &&& ({
            let p = k0.cur_pid();
            let w = k0.pcb(p).inner.futex_table.waiters(uaddr);
            let k = if w.len() < n { w.len() } else { n as nat };
            &&& r == if k > isize::MAX { isize::MAX as int } else { k as int }
            &&& k1.pcb(p).inner.futex_table.waiters(uaddr) == w.skip(k as int)
            &&& forall|a: usize| a != uaddr ==> k1.pcb(p).inner.futex_table.waiters(a) == k0.pcb(p).inner.futex_table.waiters(a)
            &&& k1.manager@ == k0.manager@ + k0.wake_list(w.take(k as int))
            &&& forall|h: int| 0 <= h < k0.tasks@.len() ==> #[trigger] k1.tasks@[h] == if k0.wake_list(
                w.take(k as int)).contains(h as usize) { Kernel::readied(k0.tasks@[h]) } else { k0.tasks@[h] }
        })
    }

    /// `futex` wake on user address `uaddr` of the running process: up to
    /// `n` of its oldest waiters are taken off the queue, and those that
    /// are blocked threads of a live process are made ready and appended to
    /// the ready queue, oldest first; returns how many were taken off.
    pub fn sys_futex_wake(&mut self, uaddr: usize, n: u32) -> (r: isize)
        requires
            old(self).wf(),
            old(self).processor@ is Some,
        ensures
            final(self).wf(),
            Kernel::sys_futex_wake_post(*old(self), *final(self), uaddr, n, r),
    {
        let p = self.current_process();
        let k = self.futex_wake_in(p, uaddr, n);
        proof {
            let w = old(self).pcb(p as int).inner.futex_table.waiters(uaddr);
            assert(k == if w.len() < n { w.len() } else { n as nat });
        }
        if k as usize > isize::MAX as usize {
            isize::MAX
        } else {
            k as isize
        }
    }

    /// What `sys_futex` guarantees, from state `k0` to state `k1`.
    pub open spec fn sys_futex_post(k0: Kernel, k1: Kernel, uaddr: usize, futex_op: isize, val: u32, word: u32, r: isize) -> bool {
        &&& (futex_op_spec(futex_op) == Some(FutexOp::Wait) ==> Kernel::sys_futex_wait_post(k0, k1, uaddr, val, word, r))
        &&& (futex_op_spec(futex_op) == Some(FutexOp::Wake) ==> Kernel::sys_futex_wake_post(k0, k1, uaddr, val, r))
        &&& (futex_op_spec(futex_op) != Some(FutexOp::Wait) && futex_op_spec(futex_op) != Some(FutexOp::Wake)
            ==> r == -1 && k1 == k0)
    }

    /// `futex`: operation `futex_op` on user address `uaddr`; `word` is the
    /// 32-bit value the trap layer read there. A wait compares it with
    /// `val` (see `sys_futex_wait`); a wake wakes up to `val` waiters (see
    /// `sys_futex_wake`). Any other code, known or not, returns -1 with
    /// nothing changed.
    pub fn sys_futex(&mut self, uaddr: usize, futex_op: isize, val: u32, word: u32) -> (r: isize)
        requires
            old(self).wf(),
            old(self).processor@ is Some,
        ensures
            final(self).wf(),
            Kernel::sys_futex_post(*old(self), *final(self), uaddr, futex_op, val, word, r),
    {
        match futex_op_from(futex_op) {
            Ok(FutexOp::Wait) => self.sys_futex_wait(uaddr, val, word),
            Ok(FutexOp::Wake) => self.sys_futex_wake(uaddr, val),
            _ => -1,
        }
    }
}

} // verus!
