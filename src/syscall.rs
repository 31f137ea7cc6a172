use vstd::prelude::*;

use crate::kernel::{Kernel, ExitOutcome, CLONE_VM, CLONE_PARENT_SETTID, INIT_PID};
use crate::process::{ProcessControlBlock, ProcessControlBlockInner, Tms};
use crate::exec::{ArgvLayout, exec_argv_layout, layout_ok};
use crate::task::{TaskStatus, TaskStruct};

verus! {

/// Signal bits: bit `n` stands for signal number `n`.
pub const SIGINT: u32 = 1 << 2;

pub const SIGILL: u32 = 1 << 4;

pub const SIGABRT: u32 = 1 << 6;

pub const SIGFPE: u32 = 1 << 8;

pub const SIGSEGV: u32 = 1 << 11;

/// Signals that may be sent.
pub const SIGNAL_MASK: u32 = SIGINT | SIGILL | SIGABRT | SIGFPE | SIGSEGV;

impl Kernel {
    /// What `sys_yield` guarantees, from state `k0` to state `k1`.
    pub open spec fn sys_yield_post(k0: Kernel, k1: Kernel, r: isize) -> bool {
        &&& (r == 0)
        &&& (k1.procs == k0.procs)
        &&& ({
            let (next, q) = Kernel::yield_spec(k0.processor@->0, k0.manager@);
            k1.processor@ == Some(next) && k1.manager@ == q
        })
    }

    /// `sched_yield`: the running thread goes to the back of the ready
    /// queue and the front one runs.
    pub fn sys_yield(&mut self) -> (r: isize)
        requires
            old(self).wf(),
            old(self).processor@ is Some,
        ensures
            final(self).wf(),
            Kernel::sys_yield_post(*old(self), *final(self), r),
    {
        self.suspend_current_and_run_next();
        0
    }

    /// Pid of the running thread's process.
    pub fn sys_getpid(&self) -> (r: isize)
        requires
            self.wf(),
            self.processor@ is Some,
        ensures
            r == self.task(self.processor@->0 as int).pid,
    {
        let p = self.current_process();
        p as isize
    }

    /// Thread id of the running thread within its process.
    pub fn sys_gettid(&self) -> (r: isize)
        requires
            self.wf(),
            self.processor@ is Some,
        ensures
            self.task(self.processor@->0 as int).tid <= isize::MAX ==> r == self.task(self.processor@->0 as int).tid,
            self.task(self.processor@->0 as int).tid > isize::MAX ==> r == -1,
    {
        let h = self.processor.current().unwrap();
        let tid = self.tasks[h].unwrap().tid;
        if tid > isize::MAX as usize {
            -1
        } else {
            tid as isize
        }
    }

    /// What `sys_exit` guarantees, from state `k0` to state `k1`.
    pub open spec fn sys_exit_post(k0: Kernel, k1: Kernel, exit_code: i32, r: ExitOutcome) -> bool {
        &&& (Kernel::exit_current_and_run_next_post(k0, k1, exit_code, r))
    }

    /// `exit`: ends the running thread (see `exit_current_and_run_next`).
    pub fn sys_exit(&mut self, exit_code: i32) -> (r: ExitOutcome)
        requires
            old(self).wf(),
            old(self).processor@ is Some,
        ensures
            final(self).wf(),
            Kernel::sys_exit_post(*old(self), *final(self), exit_code, r),
    {
        self.exit_current_and_run_next(exit_code)
    }

    /// What `sys_wait4` guarantees, from state `k0` to state `k1`.
    pub open spec fn sys_wait4_post(k0: Kernel, k1: Kernel, pid: isize, r: (isize, i32)) -> bool {
        &&& (r.0 != -2 ==> Kernel::waitpid_post(k0, k1, pid, r))
        &&& (r.0 == -2 ==> Kernel::waitpid_post(k0, k0, pid, r) && k1.procs == k0.procs
            && k1.processor@ == Some(Kernel::yield_spec(k0.processor@->0, k0.manager@).0)
            && k1.manager@ == Kernel::yield_spec(k0.processor@->0, k0.manager@).1)
    }

    /// `wait4`: one attempt of `waitpid`. When a child matches but none has
    /// exited yet (-2), the caller yields and the attempt is to be repeated
    /// once it runs again; -2 never leaves the system call layer.
    pub fn sys_wait4(&mut self, pid: isize) -> (r: (isize, i32))
        requires
            old(self).wf(),
            old(self).processor@ is Some,
        ensures
            final(self).wf(),
            Kernel::sys_wait4_post(*old(self), *final(self), pid, r),
    {
        let r = self.waitpid(pid);
        proof {
            reveal(Kernel::waitpid_post);
        }
        if r.0 == -2 {
            self.suspend_current_and_run_next();
        }
        r
    }

    /// What `sys_kill` guarantees, from state `k0` to state `k1`.
    pub open spec fn sys_kill_post(k0: Kernel, k1: Kernel, pid: usize, signal: u32, r: isize) -> bool {
        &&& (r == 0 || r == -1)
        &&& (r == 0 <==> k0.proc_live(pid as int) && signal & !SIGNAL_MASK == 0)
        &&& (r == -1 ==> k1 == k0)
        &&& (r == 0 ==> k1.pcb(pid as int).inner.signals == k0.pcb(pid as int).inner.signals | signal)
        &&& (k1.procs@.len() == k0.procs@.len())
        &&& (forall|q: int| 0 <= q < k0.procs@.len() && q != pid ==> k1.procs@[q] == k0.procs@[q])
    }

    /// `kill`: adds `signal` to the pending signals of live process `pid`.
    /// -1 when there is no such process or `signal` has bits of no known
    /// signal.
    pub fn sys_kill(&mut self, pid: usize, signal: u32) -> (r: isize)
        requires
            old(self).wf(),
        ensures
            final(self).wf(),
            Kernel::sys_kill_post(*old(self), *final(self), pid, signal, r),
    {
        if !self.is_live(pid) || signal & !SIGNAL_MASK != 0 {
            return -1;
        }
        let ghost old_k = *self;
        match &mut self.procs[pid] {
            Some(pp) => {
                pp.inner.signals = pp.inner.signals | signal;
            },
            None => {},
        }
        proof {
            assert(old_k.proc_ok(pid as int));
            Kernel::lemma_inner_update(&old_k, self, pid as int);
        }
        0
    }

    /// What `create_thread` guarantees, from state `k0` to state `k1`.
    pub open spec fn create_thread_post(k0: Kernel, k1: Kernel, flags: usize, ctid: usize, r: isize) -> bool {
        &&& (k1.processor == k0.processor)
        &&& ({
            let p = k0.task(k0.processor@->0 as int).pid as int;
            let hn = k0.tasks@.len();
            let slots = k0.pcb(p).inner.tasks@;
            &&& r == -1 <==> (hn == usize::MAX || slots.len() >= isize::MAX)
            &&& r == -1 ==> k1 == k0
            &&& r != -1 ==> {
                &&& 0 <= r <= slots.len()
                &&& r < slots.len() ==> slots[r as int].is_none()
                &&& forall|i: int| 0 <= i < r ==> slots[i].is_some()
                &&& k1.pcb(p).inner.tasks@ == if r == slots.len() { slots.push(Some(hn as usize)) } else { slots.update(r as int, Some(hn as usize)) }
                &&& k1.tasks@ == k0.tasks@.push(Some(TaskStruct::new_spec(p as usize, r as usize, flags, ctid)))
                &&& k1.manager@ == k0.manager@.push(hn as usize)
                &&& k1.procs@.len() == k0.procs@.len()
                &&& forall|q: int| 0 <= q < k0.procs@.len() && q != p ==> k1.procs@[q] == k0.procs@[q]
            }
        })
    }

    /// Adds a thread to the running process: it takes the lowest vacant
    /// thread id (the table grows by one slot when none is vacant), gets the
    /// next unused handle, and is queued as ready. Returns its thread id, or
    /// -1 when no handle or thread id is left.
    pub fn create_thread(&mut self, flags: usize, ctid: usize) -> (r: isize)
        requires
            old(self).wf(),
            old(self).processor@ is Some,
        ensures
            final(self).wf(),
            Kernel::create_thread_post(*old(self), *final(self), flags, ctid, r),
    {
        let ghost old_k = *self;
        let h = self.processor.current().unwrap();
        let p = self.tasks[h].unwrap().pid;
        let hn = self.tasks.len();
        proof {
            assert(old_k.task_live(h as int));
            assert(old_k.proc_ok(p as int));
        }
        let pcb = self.procs[p].as_ref().unwrap();
        if hn == usize::MAX || pcb.inner.tasks.len() >= isize::MAX as usize {
            return -1;
        }
        let tid = pcb.inner.alloc_tid();
        match &mut self.procs[p] {
            Some(pp) => {
                if tid == pp.inner.tasks.len() {
                    pp.inner.tasks.push(Some(hn));
                } else {
                    pp.inner.tasks.set(tid, Some(hn));
                }
            },
            None => {},
        }
        proof {
            Kernel::lemma_inner_update(&old_k, self, p as int);
        }
        let ghost k1 = *self;
        self.tasks.push(Some(TaskStruct::new(p, tid, flags, ctid)));
        self.manager.add(hn);
        proof {
            Kernel::lemma_same_procs(&k1, self);
            assert forall|i: int| 0 <= i < self.manager@.len() implies #[trigger] self.ready_ok(i) by {
                if i < k1.manager@.len() {
                    assert(k1.ready_ok(i));
                    assert(self.tasks@[k1.manager@[i] as int] == k1.tasks@[k1.manager@[i] as int]);
                }
            }
            assert(!k1.manager@.contains(hn)) by {
                if k1.manager@.contains(hn) {
                    let i = choose|i: int| 0 <= i < k1.manager@.len() && k1.manager@[i] == hn;
                    assert(k1.ready_ok(i));
                }
            }
            assert(self.tasks@[h as int] == k1.tasks@[h as int]);
        }
        tid as isize
    }

    /// What `sys_clone` guarantees, from state `k0` to state `k1`.
    pub open spec fn sys_clone_post(k0: Kernel, k1: Kernel, flags: usize, stack: usize, ptid: usize, tls: usize, ctid: usize, r: isize) -> bool {
        &&& (flags & CLONE_VM == 0 ==> Kernel::sys_fork_post(k0, k1, r))
        &&& (flags & CLONE_VM != 0 && flags & CLONE_PARENT_SETTID != 0 && ptid == 0 ==> r == -1 && k1 == k0)
        &&& (flags & CLONE_VM != 0 && !(flags & CLONE_PARENT_SETTID != 0 && ptid == 0) ==> Kernel::create_thread_post(
            k0, k1, flags, ctid, r))
    }

    /// `clone`: without `CLONE_VM` a fork (see `sys_fork`); with it, a new
    /// thread of the running process (see `create_thread`). Either way the
    /// trap layer gives the new thread the caller's register image with a0
    /// set to 0 and, when `stack` is not 0, sp set to `stack`; the new
    /// thread starts at the caller's point. With
    /// `CLONE_PARENT_SETTID` and a null `ptid` nothing is created and -1 is
    /// returned; otherwise the trap layer stores the thread id at `ptid`.
    pub fn sys_clone(&mut self, flags: usize, stack: usize, ptid: usize, tls: usize, ctid: usize) -> (r: isize)
        requires
            old(self).wf(),
            old(self).processor@ is Some,
        ensures
            final(self).wf(),
            Kernel::sys_clone_post(*old(self), *final(self), flags, stack, ptid, tls, ctid, r),
    {
        if flags & CLONE_VM == 0 {
            return self.sys_fork();
        }
        if flags & CLONE_PARENT_SETTID != 0 && ptid == 0 {
            return -1;
        }
        self.create_thread(flags, ctid)
    }

    /// What `sys_thread_create` guarantees, from state `k0` to state `k1`.
    pub open spec fn sys_thread_create_post(k0: Kernel, k1: Kernel, entry: usize, arg: usize, r: isize) -> bool {
        &&& (Kernel::create_thread_post(k0, k1, CLONE_VM, 0, r))
    }

    /// `thread_create`: a new thread of the running process, which the trap
    /// layer starts at `entry` with argument `arg` (see `create_thread`).
    pub fn sys_thread_create(&mut self, entry: usize, arg: usize) -> (r: isize)
        requires
            old(self).wf(),
            old(self).processor@ is Some,
        ensures
            final(self).wf(),
            Kernel::sys_thread_create_post(*old(self), *final(self), entry, arg, r),
    {
        self.create_thread(CLONE_VM, 0)
    }

    /// What `sys_waittid` guarantees, from state `k0` to state `k1`.
    /// Handle `j` holds an exited thread `tid` of process `p`, not yet joined.
    pub open spec fn joinable(&self, p: int, tid: usize, j: int) -> bool {
        &&& self.task_exists(j)
        &&& self.task(j).pid == p
        &&& self.task(j).tid == tid
        &&& self.task(j).inner.exit_code is Some
    }

    /// What `sys_waittid` guarantees, from state `k0` to state `k1`.
    pub open spec fn sys_waittid_post(k0: Kernel, k1: Kernel, tid: usize, r: isize) -> bool {
        let h = k0.processor@->0 as int;
        let p = k0.task(h).pid as int;
        let slots = k0.pcb(p).inner.tasks@;
        let occupied = tid < slots.len() && slots[tid as int] is Some;
        let x = slots[tid as int]->0 as int;
        &&& tid == k0.task(h).tid ==> r == -1 && k1 == k0
        &&& tid != k0.task(h).tid && occupied && !k0.task_exists(x) ==> r == -1 && k1 == k0
        &&& tid != k0.task(h).tid && occupied && k0.task_exists(x) ==> {
            &&& k0.task(x).inner.exit_code.is_none() ==> r == -2 && k1 == k0
            &&& k0.task(x).inner.exit_code matches Some(c) ==> {
                &&& r == c
                &&& k1.pcb(p).inner.tasks@ == slots.update(tid as int, None)
                &&& k1.tasks@ == k0.tasks@.update(x, None)
                &&& k1.manager == k0.manager
                &&& k1.processor == k0.processor
            }
        }
        &&& tid != k0.task(h).tid && !occupied ==> {
            &&& (forall|j: int| !k0.joinable(p, tid, j)) ==> r == -1 && k1 == k0
            &&& (exists|j: int| k0.joinable(p, tid, j)) ==> exists|j: int| {
                &&& #[trigger] k0.joinable(p, tid, j)
                &&& forall|i: int| 0 <= i < j ==> !k0.joinable(p, tid, i)
                &&& r == k0.task(j).inner.exit_code->0
                &&& k1.tasks@ == k0.tasks@.update(j, None)
                &&& k1.procs == k0.procs
                &&& k1.manager == k0.manager
                &&& k1.processor == k0.processor
            }
        }
    }

    /// `waittid`: joins thread `tid` of the running process. -1 when `tid`
    /// is the caller or names no thread; -2 while it has not exited (the
    /// caller retries). An exited thread is dropped (its slot vacated, if
    /// it still had one) and its exit code returned; one that vacated its
    /// slot on exit is found among the unjoined exited threads, lowest
    /// handle first.
    pub fn sys_waittid(&mut self, tid: usize) -> (r: isize)
        requires
            old(self).wf(),
            old(self).processor@ is Some,
        ensures
            final(self).wf(),
            Kernel::sys_waittid_post(*old(self), *final(self), tid, r),
    {
        let ghost old_k = *self;
        let h = self.processor.current().unwrap();
        let me = self.tasks[h].unwrap();
        let p = me.pid;
        proof {
            assert(old_k.task_live(h as int));
            assert(old_k.proc_ok(p as int));
        }
        if tid == me.tid {
            return -1;
        }
        let pcb = self.procs[p].as_ref().unwrap();
        if tid < pcb.inner.tasks.len() && pcb.inner.tasks[tid].is_some() {
            let x = pcb.inner.tasks[tid].unwrap();
            if x >= self.tasks.len() {
                return -1;
            }
            let code = match self.tasks[x] {
                None => return -1,
                Some(t) => match t.inner.exit_code {
                    None => return -2,
                    Some(c) => c,
                },
            };
            match &mut self.procs[p] {
                Some(pp) => {
                    pp.inner.tasks.set(tid, None);
                },
                None => {},
            }
            proof {
                Kernel::lemma_inner_update(&old_k, self, p as int);
            }
            let ghost k1 = *self;
            self.tasks.set(x, None);
            proof {
                Kernel::lemma_same_procs(&k1, self);
                assert forall|i: int| 0 <= i < self.manager@.len() implies #[trigger] self.ready_ok(i) by {
                    assert(k1.ready_ok(i));
                    assert(k1.manager@[i] != x);
                }
            }
            return code as isize;
        }
        let n = self.tasks.len();
        let mut j: usize = 0;
        while j < n
            invariant
                *self == old_k,
                old_k == *old(self),
                old_k.wf(),
                old_k.processor@ == Some(h),
                old_k.task(h as int).pid == p,
                tid != old_k.task(h as int).tid,
                !(tid < old_k.pcb(p as int).inner.tasks@.len() && old_k.pcb(p as int).inner.tasks@[tid as int] is Some),
                n == self.tasks@.len(),
                j <= n,
                forall|i: int| 0 <= i < j ==> !old_k.joinable(p as int, tid, i),
            decreases n - j,
        {
            let hit = match self.tasks[j] {
                Some(t) => t.pid == p && t.tid == tid && t.inner.exit_code.is_some(),
                None => false,
            };
            if hit {
                let code = self.tasks[j].unwrap().inner.exit_code.unwrap();
                proof {
                    assert(old_k.joinable(p as int, tid, j as int));
                }
                self.tasks.set(j, None);
                proof {
                    Kernel::lemma_same_procs(&old_k, self);
                    assert forall|i: int| 0 <= i < self.manager@.len() implies #[trigger] self.ready_ok(i) by {
                        assert(old_k.ready_ok(i));
                        assert(old_k.manager@[i] != j);
                    }
                    assert(old_k.task_live(h as int));
                    assert(h != j);
                    assert(old_k.joinable(p as int, tid, j as int) && (forall|i: int| 0 <= i < j ==> !old_k.joinable(p as int, tid, i))
                        && code == old_k.task(j as int).inner.exit_code->0 && self.tasks@ == old_k.tasks@.update(j as int, None));
                }
                return code as isize;
            }
            j = j + 1;
        }
        proof {
            assert forall|i: int| !old_k.joinable(p as int, tid, i) by {}
        }
        -1
    }

    /// What `sys_close` guarantees, from state `k0` to state `k1`.
    pub open spec fn sys_close_post(k0: Kernel, k1: Kernel, fd: usize, r: isize) -> bool {
        &&& ({
            let p = k0.task(k0.processor@->0 as int).pid as int;
            let t = k0.pcb(p).inner.fd_table@;
            &&& r == 0 || r == -1
            &&& r == -1 <==> !(fd < t.len() && t[fd as int] is Some)
            &&& r == -1 ==> k1 == k0
            &&& r == 0 ==> k1.pcb(p).inner.fd_table@ == t.update(fd as int, None)
                && k1.manager == k0.manager && k1.processor == k0.processor
        })
    }

    /// `close`: empties descriptor `fd` of the running process; -1, with
    /// nothing changed, when it is not open.
    pub fn sys_close(&mut self, fd: usize) -> (r: isize)
        requires
            old(self).wf(),
            old(self).processor@ is Some,
        ensures
            final(self).wf(),
            Kernel::sys_close_post(*old(self), *final(self), fd, r),
    {
        let ghost old_k = *self;
        let p = self.current_process();
        proof {
            assert(old_k.proc_ok(p as int));
        }
        let t = &self.procs[p].as_ref().unwrap().inner.fd_table;
        if fd >= t.len() || t[fd].is_none() {
            return -1;
        }
        match &mut self.procs[p] {
            Some(pp) => {
                pp.inner.fd_table.set(fd, None);
            },
            None => {},
        }
        proof {
            Kernel::lemma_inner_update(&old_k, self, p as int);
        }
        0
    }

    /// What `sys_dup` guarantees, from state `k0` to state `k1`.
    pub open spec fn sys_dup_post(k0: Kernel, k1: Kernel, fd: usize, r: isize) -> bool {
        &&& ({
            let p = k0.task(k0.processor@->0 as int).pid as int;
            let t = k0.pcb(p).inner.fd_table@;
            &&& r == -1 <==> !(fd < t.len() && t[fd as int] is Some && t.len() < isize::MAX)
            &&& r == -1 ==> k1 == k0
            &&& r != -1 ==> {
                &&& 0 <= r <= t.len()
                &&& r < t.len() ==> t[r as int] is None
                &&& forall|i: int| 0 <= i < r ==> t[i] is Some
                &&& k1.pcb(p).inner.fd_table@ == if r == t.len() { t.push(t[fd as int]) } else { t.update(r as int, t[fd as int]) }
                &&& k1.manager == k0.manager && k1.processor == k0.processor
            }
        })
    }

    /// `dup`: puts the file of open descriptor `fd` also in the lowest free
    /// descriptor of the running process (the table grows when none is
    /// free) and returns it; -1, with nothing changed, when `fd` is not
    /// open or the table cannot grow.
    pub fn sys_dup(&mut self, fd: usize) -> (r: isize)
        requires
            old(self).wf(),
            old(self).processor@ is Some,
        ensures
            final(self).wf(),
            Kernel::sys_dup_post(*old(self), *final(self), fd, r),
    {
        let ghost old_k = *self;
        let p = self.current_process();
        proof {
            assert(old_k.proc_ok(p as int));
        }
        let t = &self.procs[p].as_ref().unwrap().inner.fd_table;
        if fd >= t.len() || t[fd].is_none() || t.len() >= isize::MAX as usize {
            return -1;
        }
        let file = t[fd];
        proof {
            assert(file == old_k.pcb(p as int).inner.fd_table@[fd as int]);
        }
        let mut new_fd: usize = 0;
        match &mut self.procs[p] {
            Some(pp) => {
                new_fd = pp.inner.alloc_fd();
                pp.inner.fd_table.set(new_fd, file);
            },
            None => {},
        }
        proof {
            Kernel::lemma_inner_update(&old_k, self, p as int);
            let t0 = old_k.pcb(p as int).inner.fd_table@;
            if new_fd == t0.len() {
                assert(self.pcb(p as int).inner.fd_table@ =~= t0.push(t0[fd as int]));
            } else {
                assert(self.pcb(p as int).inner.fd_table@ =~= t0.update(new_fd as int, t0[fd as int]));
            }
        }
        new_fd as isize
    }

    /// CPU time charged to the children of `p`: its own record of reaped
    /// children plus, for each of its first `n` children that is a zombie,
    /// that child's time and its children's; sums saturate. `sys` picks
    /// system time, else user time.
    pub open spec fn child_time(&self, p: int, n: int, sys: bool) -> usize
        decreases n,
    {
        let t = self.pcb(p).inner.times;
        if n <= 0 {
            if sys { t.tms_child_systime } else { t.tms_child_usrtime }
        } else {
            let prev = self.child_time(p, n - 1, sys);
            let ct = self.pcb(self.children(p)[n - 1] as int).inner.times;
            if self.pcb(self.children(p)[n - 1] as int).inner.is_zombie {
                if sys {
                    prev.saturating_add(ct.tms_systime.saturating_add(ct.tms_child_systime))
                } else {
                    prev.saturating_add(ct.tms_usrtime.saturating_add(ct.tms_child_usrtime))
                }
            } else {
                prev
            }
        }
    }

    /// `times`: the running process's user and system time, and those of
    /// its children (reaped, or zombies not yet reaped), in units of
    /// `clock_freq` ticks, to be stored at user address `times_uaddr`.
    /// `None` (the call returns -1 and stores nothing) for a null address.
    pub fn sys_times(&self, times_uaddr: usize, clock_freq: usize) -> (r: Option<Tms>)
        requires
            self.wf(),
            self.processor@ is Some,
            clock_freq > 0,
        ensures
            times_uaddr == 0 ==> r is None,
            times_uaddr != 0 ==> r is Some,
            r matches Some(r) ==> ({
                let p = self.cur_pid();
                let t = self.pcb(p).inner.times;
                let n = self.children(p).len() as int;
                &&& r.tms_usrtime == t.tms_usrtime / clock_freq
                &&& r.tms_systime == t.tms_systime / clock_freq
                &&& r.tms_child_usrtime == self.child_time(p, n, false) / clock_freq
                &&& r.tms_child_systime == self.child_time(p, n, true) / clock_freq
            }),
    {
        if times_uaddr == 0 {
            return None;
        }
        let p = self.current_process();
        proof {
            assert(self.proc_ok(p as int));
        }
        let pcb = self.procs[p].as_ref().unwrap();
        let t = pcb.inner.times;
        let mut child_usr = t.tms_child_usrtime;
        let mut child_sys = t.tms_child_systime;
        let n = pcb.inner.children.len();
        let mut i: usize = 0;
        while i < n
            invariant
                self.wf(),
                self.proc_ok(p as int),
                self.proc_exists(p as int),
                *pcb == self.pcb(p as int),
                n == self.children(p as int).len(),
                i <= n,
                child_usr == self.child_time(p as int, i as int, false),
                child_sys == self.child_time(p as int, i as int, true),
            decreases n - i,
        {
            let c = pcb.inner.children[i];
            proof {
                assert(self.children(p as int)[i as int] == c);
                assert(self.proc_exists(c as int));
            }
            let child = self.procs[c].as_ref().unwrap();
            if child.inner.is_zombie {
                let ct = child.inner.times;
                child_usr = child_usr.saturating_add(ct.tms_usrtime.saturating_add(ct.tms_child_usrtime));
                child_sys = child_sys.saturating_add(ct.tms_systime.saturating_add(ct.tms_child_systime));
            }
            i = i + 1;
        }
        Some(Tms {
            tms_systime: t.tms_systime / clock_freq,
            tms_usrtime: t.tms_usrtime / clock_freq,
            tms_child_systime: child_sys / clock_freq,
            tms_child_usrtime: child_usr / clock_freq,
        })
    }

    /// The exit code owed to pending signals `signals`: minus the number of
    /// the first fatal one pending, in the order SIGINT (2), SIGILL (4),
    /// SIGABRT (6), SIGFPE (8), SIGSEGV (11); `None` when none is.
    pub open spec fn signal_exit_spec(signals: u32) -> Option<i32> {
        if signals & SIGINT != 0 {
            Some(-2i32)
        } else if signals & SIGILL != 0 {
            Some(-4i32)
        } else if signals & SIGABRT != 0 {
            Some(-6i32)
        } else if signals & SIGFPE != 0 {
            Some(-8i32)
        } else if signals & SIGSEGV != 0 {
            Some(-11i32)
        } else {
            None
        }
    }

    /// Checked on the way back to user mode: the exit code with which the
    /// running thread is to exit because of a pending fatal signal of its
    /// process, if any.
    pub fn check_signals_of_current(&self) -> (r: Option<i32>)
        requires
            self.wf(),
            self.processor@ is Some,
        ensures
            r == Kernel::signal_exit_spec(self.pcb(self.task(self.processor@->0 as int).pid as int).inner.signals),
    {
        let p = self.current_process();
        let signals = self.procs[p].as_ref().unwrap().inner.signals;
        if signals & SIGINT != 0 {
            Some(-2)
        } else if signals & SIGILL != 0 {
            Some(-4)
        } else if signals & SIGABRT != 0 {
            Some(-6)
        } else if signals & SIGFPE != 0 {
            Some(-8)
        } else if signals & SIGSEGV != 0 {
            Some(-11)
        } else {
            None
        }
    }

    /// Marks `signal` pending on the running thread's process (the trap
    /// layer does this for a fault it caught).
    pub fn current_add_signal(&mut self, signal: u32)
        requires
            old(self).wf(),
            old(self).processor@ is Some,
        ensures
            final(self).wf(),
            ({
                let p = old(self).task(old(self).processor@->0 as int).pid as int;
                &&& final(self).pcb(p).inner.signals == old(self).pcb(p).inner.signals | signal
                &&& final(self).procs@.len() == old(self).procs@.len()
                &&& forall|q: int| 0 <= q < old(self).procs@.len() && q != p ==> final(self).procs@[q] == old(self).procs@[q]
                &&& final(self).processor == old(self).processor
                &&& final(self).manager == old(self).manager
            }),
    {
        let ghost old_k = *self;
        let p = self.current_process();
        proof {
            assert(old_k.proc_ok(p as int));
        }
        match &mut self.procs[p] {
            Some(pp) => {
                pp.inner.signals = pp.inner.signals | signal;
            },
            None => {},
        }
        proof {
            Kernel::lemma_inner_update(&old_k, self, p as int);
        }
    }

    /// Charges `ticks` of system time to the running thread's process, as
    /// the scheduler does when the thread leaves the core; the sum
    /// saturates.
    pub fn accumulate_systime(&mut self, ticks: usize)
        requires
            old(self).wf(),
            old(self).processor@ is Some,
        ensures
            final(self).wf(),
            ({
                let p = old(self).task(old(self).processor@->0 as int).pid as int;
                &&& final(self).pcb(p).inner.times.tms_systime == old(self).pcb(p).inner.times.tms_systime.saturating_add(ticks)
                &&& final(self).processor == old(self).processor
                &&& final(self).manager == old(self).manager
            }),
    {
        let ghost old_k = *self;
        let p = self.current_process();
        proof {
            assert(old_k.proc_ok(p as int));
        }
        match &mut self.procs[p] {
            Some(pp) => {
                pp.inner.times.tms_systime = pp.inner.times.tms_systime.saturating_add(ticks);
            },
            None => {},
        }
        proof {
            Kernel::lemma_inner_update(&old_k, self, p as int);
        }
    }

    /// `exec` for the running process: only a process with a single thread
    /// slot may replace its program. Returns where the arguments of the
    /// given byte lengths go below `ustack_top` (see `exec_argv_layout`), or
    /// `None` when the process has other thread slots or they do not fit.
    pub fn exec(&self, ustack_top: usize, arg_lens: &Vec<usize>) -> (r: Option<ArgvLayout>)
        requires
            self.wf(),
            self.processor@ is Some,
        ensures
            self.cur_inner().tasks@.len() != 1 ==> r is None,
            self.cur_inner().tasks@.len() == 1 ==> layout_ok(ustack_top, arg_lens@, r),
    {
        let p = self.current_process();
        proof {
            assert(self.proc_ok(p as int));
        }
        if self.procs[p].as_ref().unwrap().inner.tasks.len() != 1 {
            return None;
        }
        exec_argv_layout(ustack_top, arg_lens)
    }
}

} // verus!
