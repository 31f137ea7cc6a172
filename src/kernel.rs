use vstd::prelude::*;

use crate::manager::{Processor, TaskManager, in_flags};
use crate::process::{Privilege, ProcessControlBlock, ProcessControlBlockInner, Tms};
use crate::task::{TaskStatus, TaskStruct};

verus! {

/// Pid of the init process, which adopts orphans and never becomes a zombie.
pub const INIT_PID: usize = 0;

/// `clone` flag: the new thread shares the address space.
pub const CLONE_VM: usize = 0x100;

/// `clone` flag: store the new thread id at the parent's user address.
pub const CLONE_PARENT_SETTID: usize = 0x100000;

/// `clone` flag: on exit, zero the word at the child's address and wake one
/// futex waiter there.
pub const CLONE_CHILD_CLEARTID: usize = 0x200000;

/// What the trap layer still has to do after a thread exited.
#[derive(Clone, Copy, Debug, PartialEq, Eq, Structural)]
pub struct ExitOutcome {
    /// User address whose 32-bit word is to be zeroed (its waiter is
    /// already woken).
    pub clear_child_tid: Option<usize>,
    /// Set when the init process's main thread exited: the machine shuts
    /// down, reporting failure when `true`.
    pub shutdown: Option<bool>,
}

/// Whole-kernel scheduling and lifecycle state. Threads are held in `tasks`
/// and named everywhere else by their index there (their handle);
/// processes are held in `procs`, indexed by pid.
pub struct Kernel {
    pub tasks: Vec<Option<TaskStruct>>,
    pub procs: Vec<Option<ProcessControlBlock>>,
    pub manager: TaskManager,
    pub processor: Processor,
}

impl Kernel {
    pub open spec fn pcb(&self, p: int) -> ProcessControlBlock {
        self.procs@[p]->0
    }

    pub open spec fn task(&self, h: int) -> TaskStruct {
        self.tasks@[h]->0
    }

    /// Process `p` exists (it may be a zombie).
    pub open spec fn proc_exists(&self, p: int) -> bool {
        0 <= p < self.procs@.len() && self.procs@[p] is Some
    }

    /// Process `p` exists and has not exited.
    pub open spec fn proc_live(&self, p: int) -> bool {
        self.proc_exists(p) && !self.pcb(p).inner.is_zombie
    }

    pub open spec fn task_exists(&self, h: int) -> bool {
        0 <= h < self.tasks@.len() && self.tasks@[h] is Some
    }

    /// Thread `h` exists and its process has not exited.
    pub open spec fn task_live(&self, h: int) -> bool {
        self.task_exists(h) && self.proc_live(self.task(h).pid as int)
    }

    pub open spec fn status(&self, h: int) -> TaskStatus {
        self.task(h).inner.task_status
    }

    /// Thread `h` is blocked, has not exited, and its process is alive: a
    /// wake-up makes it ready.
    pub open spec fn wakeable(&self, h: int) -> bool {
        self.task_live(h) && self.status(h) == TaskStatus::Blocked && self.task(h).inner.exit_code.is_none()
    }

    /// Which of `ts`, woken one after the other from this state, are made
    /// ready and queued, in order: each wakeable thread at its first
    /// occurrence.
    pub open spec fn wake_list(&self, ts: Seq<usize>) -> Seq<usize>
        decreases ts.len(),
    {
        if ts.len() == 0 {
            Seq::empty()
        } else {
            let prev = self.wake_list(ts.drop_last());
            let t = ts.last();
            if self.wakeable(t as int) && !prev.contains(t) {
                prev.push(t)
            } else {
                prev
            }
        }
    }

    pub proof fn lemma_wake_list_same(k1: &Kernel, k2: &Kernel, ts: Seq<usize>)
        requires
            forall|h: int| k1.wakeable(h) == k2.wakeable(h),
        ensures
            k1.wake_list(ts) == k2.wake_list(ts),
        decreases ts.len(),
    {
        if ts.len() > 0 {
            Kernel::lemma_wake_list_same(k1, k2, ts.drop_last());
        }
    }

    pub proof fn lemma_wake_list_wakeable(k: &Kernel, ts: Seq<usize>)
        ensures
            forall|i: int| 0 <= i < k.wake_list(ts).len() ==> k.wakeable(#[trigger] k.wake_list(ts)[i] as int),
        decreases ts.len(),
    {
        if ts.len() > 0 {
            Kernel::lemma_wake_list_wakeable(k, ts.drop_last());
            let prev = k.wake_list(ts.drop_last());
            let t = ts.last();
            if k.wakeable(t as int) && !prev.contains(t) {
                assert forall|i: int| 0 <= i < k.wake_list(ts).len() implies k.wakeable(#[trigger] k.wake_list(ts)[i] as int) by {
                    if i < prev.len() {
                        assert(k.wake_list(ts)[i] == prev[i]);
                    }
                }
            }
        }
    }

    /// Slot `t` with its thread marked ready.
    pub open spec fn readied(t: Option<TaskStruct>) -> Option<TaskStruct> {
        match t {
            Some(x) => Some(TaskStruct {
                inner: crate::task::TaskControlBlockInner { task_status: TaskStatus::Ready, ..x.inner },
                ..x
            }),
            None => None,
        }
    }

    pub open spec fn children(&self, p: int) -> Seq<usize> {
        self.pcb(p).inner.children@
    }

    /// Every child of `p` exists and links back to `p`, once each.
    pub open spec fn proc_ok(&self, p: int) -> bool {
        self.proc_exists(p) ==> {
            &&& self.pcb(p).pid_handle == p
            &&& self.pcb(p).inner.wf()
            &&& self.children(p).no_duplicates()
            &&& forall|i: int|
                0 <= i < self.children(p).len() ==> {
                    let c = #[trigger] self.children(p)[i] as int;
                    self.proc_exists(c) && self.pcb(c).inner.parent == Some(p as usize)
                }
        }
    }

    /// Entry `i` of the ready queue is a ready thread of a live process.
    pub open spec fn ready_ok(&self, i: int) -> bool {
        let h = self.manager@[i] as int;
        self.task_live(h) && self.status(h) == TaskStatus::Ready && self.task(h).inner.exit_code.is_none()
    }

    pub open spec fn wf(&self) -> bool {
        &&& self.proc_live(INIT_PID as int)
        &&& self.procs@.len() <= isize::MAX
        &&& self.pcb(INIT_PID as int).inner.parent.is_none()
        &&& forall|p: int| #[trigger] self.proc_ok(p)
        &&& forall|i: int| 0 <= i < self.manager@.len() ==> #[trigger] self.ready_ok(i)
        &&& self.manager@.no_duplicates()
        &&& self.processor@ matches Some(h) ==> self.task_live(h as int) && self.status(h as int)
            == TaskStatus::Running && self.task(h as int).inner.exit_code.is_none()
    }

    /// The thread queue after the running thread `cur` yields: `cur` goes to
    /// the back and the front thread takes the core.
    pub open spec fn yield_spec(cur: usize, q: Seq<usize>) -> (usize, Seq<usize>) {
        let q2 = q.push(cur);
        (q2[0], q2.drop_first())
    }

    /// A kernel holding only the init process, whose main thread (handle 0)
    /// waits on the ready queue. `stdio` is the handle of the console file,
    /// `root_inode` that of the root directory.
    pub fn new(stdio: u64, root_inode: u64) -> (r: Kernel)
        ensures
            r.wf(),
            r.procs@.len() == 1,
            r.tasks@.len() == 1,
            r.manager@ == seq![0usize],
            r.processor@.is_none(),
            r.task(0).pid == INIT_PID,
            r.task(0).tid == 0,
            r.pcb(INIT_PID as int).inner.tasks@ == seq![Some(0usize)],
    {
        let mut inner = ProcessControlBlockInner::new(None, stdio, root_inode, Privilege::User);
        inner.tasks.push(Some(0));
        let mut procs: Vec<Option<ProcessControlBlock>> = Vec::new();
        procs.push(Some(ProcessControlBlock { pid_handle: INIT_PID, inner }));
        let mut tasks: Vec<Option<TaskStruct>> = Vec::new();
        tasks.push(Some(TaskStruct::new(INIT_PID, 0, 0, 0)));
        let mut manager = TaskManager::new();
        manager.add(0);
        let r = Kernel { tasks, procs, manager, processor: Processor::new() };
        proof {
            assert(r.pcb(INIT_PID as int).inner.tasks@ =~= seq![Some(0usize)]);
            assert(r.manager@ =~= seq![0usize]);
            assert forall|p: int| #[trigger] r.proc_ok(p) by {}
            assert forall|i: int| 0 <= i < r.manager@.len() implies #[trigger] r.ready_ok(i) by {}
        }
        r
    }

    /// Handle of the running thread.
    pub fn current_task(&self) -> (r: Option<usize>)
        ensures
            r == self.processor@,
    {
        self.processor.current()
    }

    /// Pid of the process of the running thread.
    pub fn current_process(&self) -> (r: usize)
        requires
            self.wf(),
            self.processor@ is Some,
        ensures
            r == self.task(self.processor@->0 as int).pid,
            self.proc_live(r as int),
    {
        let h = self.processor.current().unwrap();
        self.tasks[h].unwrap().pid
    }

    /// Wakes thread `h` if it is blocked, has not exited, and its process is alive: it is
    /// marked ready and appended to the ready queue. Otherwise nothing
    /// changes.
    pub fn wakeup_task(&mut self, h: usize)
        requires
            old(self).wf(),
        ensures
            final(self).wf(),
            final(self).procs == old(self).procs,
            final(self).processor == old(self).processor,
            final(self).tasks@.len() == old(self).tasks@.len(),
            old(self).wakeable(h as int) ==> final(self).manager@ == old(self).manager@.push(h)
                && final(self).tasks@ == old(self).tasks@.update(h as int, Kernel::readied(old(self).tasks@[h as int])),
            !old(self).wakeable(h as int) ==> final(self).manager@ == old(self).manager@
                && final(self).tasks@ == old(self).tasks@,
    {
        if h >= self.tasks.len() {
            return;
        }
        let t = match self.tasks[h] {
            Some(t) => t,
            None => return,
        };
        if t.inner.task_status != TaskStatus::Blocked || t.inner.exit_code.is_some() || !self.is_live(t.pid) {
            return;
        }
        let mut t2 = t;
        t2.inner.task_status = TaskStatus::Ready;
        let ghost old_k = *self;
        proof {
            assert(!old_k.manager@.contains(h)) by {
                if old_k.manager@.contains(h) {
                    let i = choose|i: int| 0 <= i < old_k.manager@.len() && old_k.manager@[i] == h;
                    assert(old_k.ready_ok(i));
                }
            }
        }
        self.tasks.set(h, Some(t2));
        self.manager.add(h);
        proof {
            assert forall|p: int| #[trigger] self.proc_ok(p) by {
                assert(old_k.proc_ok(p));
                if self.proc_exists(p) {
                    assert forall|i: int| 0 <= i < self.children(p).len() implies {
                        let c = #[trigger] self.children(p)[i] as int;
                        self.proc_exists(c) && self.pcb(c).inner.parent == Some(p as usize)
                    } by {
                        assert(old_k.children(p)[i] == self.children(p)[i]);
                    }
                }
            }
            assert forall|i: int| 0 <= i < self.manager@.len() implies #[trigger] self.ready_ok(i) by {
                if i < old_k.manager@.len() {
                    assert(old_k.ready_ok(i));
                }
            }
        }
    }

    /// The process part of the invariant depends on `procs` alone.
    pub proof fn lemma_same_procs(old_k: &Kernel, new_k: &Kernel)
        requires
            forall|p: int| #[trigger] old_k.proc_ok(p),
            new_k.procs@ == old_k.procs@,
        ensures
            forall|p: int| #[trigger] new_k.proc_ok(p),
    {
        assert forall|p: int| #[trigger] new_k.proc_ok(p) by {
            assert(old_k.proc_ok(p));
            if new_k.proc_exists(p) {
                assert forall|i: int| 0 <= i < new_k.children(p).len() implies {
                    let c = #[trigger] new_k.children(p)[i] as int;
                    new_k.proc_exists(c) && new_k.pcb(c).inner.parent == Some(p as usize)
                } by {
                    assert(old_k.children(p)[i] == new_k.children(p)[i]);
                }
            }
        }
    }

    /// Changing the status of thread `h`, which is neither queued nor
    /// running afterwards, keeps the invariant.
    pub proof fn lemma_set_status(old_k: &Kernel, new_k: &Kernel, h: int)
        requires
            old_k.wf(),
            new_k.procs@ == old_k.procs@,
            new_k.manager@ == old_k.manager@,
            old_k.task_exists(h),
            !old_k.manager@.contains(h as usize),
            new_k.tasks@ == old_k.tasks@.update(h, Some(TaskStruct {
                inner: crate::task::TaskControlBlockInner { task_status: new_k.status(h), ..old_k.task(h).inner },
                ..old_k.task(h)
            })),
            new_k.processor@ matches Some(c) ==> (c as int != h && old_k.processor@ == Some(c)),
        ensures
            new_k.wf(),
    {
        Kernel::lemma_same_procs(old_k, new_k);
        assert forall|i: int| 0 <= i < new_k.manager@.len() implies #[trigger] new_k.ready_ok(i) by {
            assert(old_k.ready_ok(i));
            assert(new_k.manager@[i] as int != h);
        }
    }

    /// One turn of the idle loop: the thread at the front of the ready queue
    /// is marked running and given the core. `false` when no thread is
    /// ready.
    pub fn run_tasks(&mut self) -> (r: bool)
        requires
            old(self).wf(),
            old(self).processor@.is_none(),
        ensures
            final(self).wf(),
            final(self).procs == old(self).procs,
            final(self).tasks@.len() == old(self).tasks@.len(),
            r == (old(self).manager@.len() > 0),
            !r ==> final(self).manager@ == old(self).manager@ && final(self).tasks == old(self).tasks
                && final(self).processor == old(self).processor,
            r ==> {
                let h = old(self).manager@[0];
                &&& final(self).processor@ == Some(h)
                &&& final(self).manager@ == old(self).manager@.drop_first()
                &&& final(self).tasks@ == old(self).tasks@.update(h as int, Some(TaskStruct {
                    inner: crate::task::TaskControlBlockInner { task_status: TaskStatus::Running, ..old(self).task(h as int).inner },
                    ..old(self).task(h as int)
                }))
            },
    {
        let ghost old_k = *self;
        match self.manager.fetch() {
            None => {
                proof {
                    Kernel::lemma_same_procs(&old_k, self);
                    assert forall|i: int| 0 <= i < self.manager@.len() implies #[trigger] self.ready_ok(i) by {
                        assert(old_k.ready_ok(i));
                    }
                }
                false
            },
            Some(h) => {
                proof {
                    assert(old_k.ready_ok(0));
                }
                let mut t = self.tasks[h].unwrap();
                t.inner.task_status = TaskStatus::Running;
                self.tasks.set(h, Some(t));
                self.processor.set_current(h);
                proof {
                    Kernel::lemma_same_procs(&old_k, self);
                    assert forall|i: int| 0 <= i < self.manager@.len() implies #[trigger] self.ready_ok(i) by {
                        assert(old_k.ready_ok(i + 1));
                        assert(old_k.manager@[i + 1] != old_k.manager@[0]);
                    }
                }
                true
            },
        }
    }

    /// The running thread gives up the core: it is marked ready and queued
    /// at the back, and the front thread runs next.
    pub fn suspend_current_and_run_next(&mut self)
        requires
            old(self).wf(),
            old(self).processor@ is Some,
        ensures
            final(self).wf(),
            final(self).procs == old(self).procs,
            final(self).tasks@.len() == old(self).tasks@.len(),
            ({
                let (next, q) = Kernel::yield_spec(old(self).processor@->0, old(self).manager@);
                final(self).processor@ == Some(next) && final(self).manager@ == q
            }),
    {
        let ghost old_k = *self;
        let h = self.processor.take_current().unwrap();
        let mut t = self.tasks[h].unwrap();
        t.inner.task_status = TaskStatus::Ready;
        self.tasks.set(h, Some(t));
        proof {
            assert(!old_k.manager@.contains(h)) by {
                if old_k.manager@.contains(h) {
                    let i = choose|i: int| 0 <= i < old_k.manager@.len() && old_k.manager@[i] == h;
                    assert(old_k.ready_ok(i));
                }
            }
        }
        self.manager.add(h);
        proof {
            Kernel::lemma_same_procs(&old_k, self);
            assert forall|i: int| 0 <= i < self.manager@.len() implies #[trigger] self.ready_ok(i) by {
                if i < old_k.manager@.len() {
                    assert(old_k.ready_ok(i));
                    assert(old_k.manager@[i] != h);
                }
            }
        }
        let _ = self.run_tasks();
    }

    /// The running thread, already queued on some wait queue, is marked
    /// blocked and leaves the core; the front ready thread runs next.
    pub fn block_current_and_run_next(&mut self)
        requires
            old(self).wf(),
            old(self).processor@ is Some,
        ensures
            final(self).wf(),
            final(self).procs == old(self).procs,
            final(self).tasks@.len() == old(self).tasks@.len(),
            final(self).task(old(self).processor@->0 as int).inner.task_status == TaskStatus::Blocked,
            old(self).manager@.len() > 0 ==> final(self).processor@ == Some(old(self).manager@[0])
                && final(self).manager@ == old(self).manager@.drop_first(),
            old(self).manager@.len() == 0 ==> final(self).processor@.is_none()
                && final(self).manager@ == old(self).manager@,
    {
        let ghost old_k = *self;
        let h = self.processor.take_current().unwrap();
        let mut t = self.tasks[h].unwrap();
        t.inner.task_status = TaskStatus::Blocked;
        self.tasks.set(h, Some(t));
        proof {
            assert(!old_k.manager@.contains(h)) by {
                if old_k.manager@.contains(h) {
                    let i = choose|i: int| 0 <= i < old_k.manager@.len() && old_k.manager@[i] == h;
                    assert(old_k.ready_ok(i));
                }
            }
            Kernel::lemma_set_status(&old_k, self, h as int);
        }
        let ran = self.run_tasks();
        proof {
            if ran {
                assert(old_k.manager@[0] != h) by {
                    assert(old_k.ready_ok(0));
                }
            }
        }
    }

    /// What `sys_fork` guarantees, from state `k0` to state `k1`.
    pub open spec fn sys_fork_post(k0: Kernel, k1: Kernel, r: isize) -> bool {
        &&& (k1.processor == k0.processor)
        &&& ({
            let p = k0.task(k0.processor@->0 as int).pid as int;
            let c = k0.procs@.len();
            let hc = k0.tasks@.len();
            let ok = k0.pcb(p).inner.tasks@.len() == 1 && c < isize::MAX && hc < usize::MAX;
            &&& !ok ==> r == -1 && k1 == k0
            &&& ok ==> {
                &&& r == c
                &&& k1.procs@.len() == c + 1
                &&& k1.tasks@.len() == hc + 1
                &&& k1.task(hc as int) == TaskStruct::new_spec(c as usize, 0, 0, 0)
                &&& k1.pcb(c as int).pid_handle == c
                &&& k1.pcb(c as int).inner.parent == Some(p as usize)
                &&& !k1.pcb(c as int).inner.is_zombie
                &&& k1.pcb(c as int).inner.exit_code == 0
                &&& k1.children(c as int) == Seq::<usize>::empty()
                &&& k1.pcb(c as int).inner.tasks@ == seq![Some(hc as usize)]
                &&& k1.pcb(c as int).inner.fd_table@ == k0.pcb(p).inner.fd_table@
                &&& k1.pcb(c as int).inner.dir_struct.inner.inode == k0.pcb(p).inner.dir_struct.inner.inode
                &&& k1.pcb(c as int).inner.dir_struct.inner.cwd@ == seq![47u8]
                &&& k1.children(p) == k0.children(p).push(c as usize)
                &&& k1.manager@ == k0.manager@.push(hc as usize)
                &&& forall|q: int| 0 <= q < c && q != p ==> k1.procs@[q] == k0.procs@[q]
                &&& forall|h: int| 0 <= h < hc ==> k1.tasks@[h] == k0.tasks@[h]
            }
        })
    }

    /// `fork`: the single-threaded running process gets a child with a copy
    /// of its descriptor table, a working directory on the same inode (path
    /// `/`), and a fresh main thread, queued as ready. The
    /// child's pid is the next unused one and is returned; -1 when the
    /// process has more than one thread slot, or when no pid is left.
    pub fn sys_fork(&mut self) -> (r: isize)
        requires
            old(self).wf(),
            old(self).processor@ is Some,
        ensures
            final(self).wf(),
            Kernel::sys_fork_post(*old(self), *final(self), r),
    {
        let ghost old_k = *self;
        let h = self.processor.current().unwrap();
        let p = self.tasks[h].unwrap().pid;
        let c = self.procs.len();
        let hc = self.tasks.len();
        let parent = self.procs[p].as_ref().unwrap();
        if parent.inner.tasks.len() != 1 || c >= isize::MAX as usize || hc == usize::MAX {
            return -1;
        }
        let mut fd_table: Vec<Option<u64>> = Vec::new();
        let n = parent.inner.fd_table.len();
        let mut i: usize = 0;
        while i < n
            invariant
                n == parent.inner.fd_table@.len(),
                i <= n,
                fd_table@ == parent.inner.fd_table@.take(i as int),
            decreases n - i,
        {
            fd_table.push(parent.inner.fd_table[i]);
            proof {
                assert(parent.inner.fd_table@.take(i as int + 1) == parent.inner.fd_table@.take(i as int).push(parent.inner.fd_table@[i as int]));
            }
            i = i + 1;
        }
        proof {
            assert(parent.inner.fd_table@.take(n as int) =~= parent.inner.fd_table@);
        }
        let cwd_inode = parent.inner.dir_struct.get_current_inode();
        let mut inner = ProcessControlBlockInner::new(Some(p), 0, cwd_inode, Privilege::User);
        inner.fd_table = fd_table;
        inner.tasks.push(Some(hc));
        self.procs.push(Some(ProcessControlBlock { pid_handle: c, inner }));
        self.tasks.push(Some(TaskStruct::new(c, 0, 0, 0)));
        match &mut self.procs[p] {
            Some(pcb) => {
                pcb.inner.children.push(c);
            },
            None => {},
        }
        self.manager.add(hc);
        proof {
            assert(self.pcb(c as int).inner.tasks@ =~= seq![Some(hc)]);
            assert(!old_k.children(p as int).contains(c)) by {
                assert(old_k.proc_ok(p as int));
                if old_k.children(p as int).contains(c) {
                    let i = choose|i: int| 0 <= i < old_k.children(p as int).len() && old_k.children(p as int)[i] == c;
                }
            }
            assert forall|q: int| #[trigger] self.proc_ok(q) by {
                if q == c {
                } else if self.proc_exists(q) {
                    assert(old_k.proc_ok(q));
                    assert forall|i: int| 0 <= i < self.children(q).len() implies {
                        let d = #[trigger] self.children(q)[i] as int;
                        self.proc_exists(d) && self.pcb(d).inner.parent == Some(q as usize)
                    } by {
                        if q == p && i == old_k.children(q).len() {
                        } else {
                            assert(self.children(q)[i] == old_k.children(q)[i]);
                            let d = old_k.children(q)[i] as int;
                            assert(old_k.proc_exists(d));
                        }
                    }
                }
            }
            assert forall|i: int| 0 <= i < self.manager@.len() implies #[trigger] self.ready_ok(i) by {
                if i < old_k.manager@.len() {
                    assert(old_k.ready_ok(i));
                    let hh = old_k.manager@[i] as int;
                    assert(old_k.task_exists(hh));
                    let pp = old_k.task(hh).pid as int;
                    assert(old_k.proc_live(pp));
                    assert(self.tasks@[hh] == old_k.tasks@[hh]);
                    if pp == p as int {
                    } else {
                        assert(self.procs@[pp] == old_k.procs@[pp]);
                    }
                }
            }
            assert(!old_k.manager@.contains(hc)) by {
                if old_k.manager@.contains(hc) {
                    let i = choose|i: int| 0 <= i < old_k.manager@.len() && old_k.manager@[i] == hc;
                    assert(old_k.ready_ok(i));
                }
            }
            let cur = old_k.processor@->0 as int;
            assert(old_k.task_live(cur));
            assert(self.tasks@[cur] == old_k.tasks@[cur]);
        }
        c as isize
    }

    /// Child `c` is one that a wait for `pid` accepts: -1 accepts any.
    pub open spec fn wait_match(pid: isize, c: usize) -> bool {
        pid == -1 || (pid >= 0 && c == pid)
    }

    /// Some child of `p` is accepted by a wait for `pid`.
    pub open spec fn has_match(&self, p: int, pid: isize) -> bool {
        exists|i: int| 0 <= i < self.children(p).len() && Kernel::wait_match(pid, #[trigger] self.children(p)[i])
    }

    /// Index of the first zombie child of `p` accepted by a wait for `pid`.
    pub open spec fn first_zombie(&self, p: int, pid: isize, i: int) -> bool {
        &&& 0 <= i < self.children(p).len()
        &&& Kernel::wait_match(pid, self.children(p)[i])
        &&& self.pcb(self.children(p)[i] as int).inner.is_zombie
        &&& forall|j: int| 0 <= j < i ==> !(Kernel::wait_match(pid, #[trigger] self.children(p)[j])
            && self.pcb(self.children(p)[j] as int).inner.is_zombie)
    }

    /// Task slot `t` once process `c` is reaped.
    pub open spec fn reaped_slot(t: Option<TaskStruct>, c: usize) -> Option<TaskStruct> {
        match t {
            Some(x) => if x.pid == c { None } else { t },
            None => None,
        }
    }

    /// What `waitpid` guarantees, from state `k0` to state `k1`.
    #[verifier::opaque]
    pub open spec fn waitpid_post(k0: Kernel, k1: Kernel, pid: isize, r: (isize, i32)) -> bool {
        &&& ({
            let p = k0.task(k0.processor@->0 as int).pid as int;
            &&& r.0 == -1 <==> !k0.has_match(p, pid)
            &&& r.0 < 0 ==> k1 == k0 && r.1 == 0
            &&& r.0 == -2 ==> forall|i: int| !k0.first_zombie(p, pid, i)
            &&& r.0 >= 0 ==> {
                let c = r.0 as usize;
                exists|i: int| {
                    &&& k0.first_zombie(p, pid, i)
                    &&& k0.children(p)[i] == c
                    &&& k1.children(p) == k0.children(p).remove(i)
                }
            }
            &&& r.0 != -1 && r.0 != -2 ==> {
                let c = r.0 as usize;
                &&& r.0 >= 0
                &&& k0.proc_exists(c as int)
                &&& k0.pcb(c as int).inner.is_zombie
                &&& r.1 == k0.pcb(c as int).inner.exit_code
                &&& k1.pcb(p).inner.times == ({
                    let pt = k0.pcb(p).inner.times;
                    let ct = k0.pcb(c as int).inner.times;
                    Tms {
                        tms_systime: pt.tms_systime.saturating_add(ct.tms_systime.saturating_add(ct.tms_child_systime)),
                        ..pt
                    }
                })
                &&& !k1.proc_exists(c as int)
                &&& !k1.has_match(p, c as isize)
                &&& forall|q: int| k1.proc_exists(q) ==> !(#[trigger] k1.children(q)).contains(c)
                &&& forall|h: int| k1.task_exists(h) ==> #[trigger] k1.task(h).pid != c
                &&& k1.tasks@.len() == k0.tasks@.len()
                &&& forall|h: int| 0 <= h < k0.tasks@.len() ==> #[trigger] k1.tasks@[h] == Kernel::reaped_slot(k0.tasks@[h], c)
                &&& k1.proc_exists(p)
                &&& k1.pcb(p).pid_handle == k0.pcb(p).pid_handle
                &&& k1.pcb(p).inner == (ProcessControlBlockInner {
                    children: k1.pcb(p).inner.children,
                    times: k1.pcb(p).inner.times,
                    ..k0.pcb(p).inner
                })
                &&& k1.processor == k0.processor
                &&& k1.manager@ == k0.manager@
                &&& k1.procs@.len() == k0.procs@.len()
                &&& forall|q: int| 0 <= q < k0.procs@.len() && q != p && q != c ==> k1.procs@[q] == k0.procs@[q]
            }
        })
    }

    /// Reaps a zombie child of the running process. With no child accepted
    /// by `pid` (-1 accepts any): `(-1, 0)`. With such children but no
    /// zombie among them: `(-2, 0)`, the caller must retry. Otherwise the
    /// first such zombie is removed from the children, its system time (with
    /// that of its own reaped children) is added to the caller's system
    /// time, the process and all its threads are dropped, and its
    /// pid and exit code are returned; nothing refers to it afterwards.
    pub fn waitpid(&mut self, pid: isize) -> (r: (isize, i32))
        requires
            old(self).wf(),
            old(self).processor@ is Some,
        ensures
            final(self).wf(),
            Kernel::waitpid_post(*old(self), *final(self), pid, r),
    {
        proof {
            reveal(Kernel::waitpid_post);
        }
        let ghost old_k = *self;
        let h = self.processor.current().unwrap();
        let p = self.tasks[h].unwrap().pid;
        proof {
            assert(old_k.task_live(h as int));
            assert(old_k.proc_ok(p as int));
        }
        let pcb = self.procs[p].as_ref().unwrap();
        let n = pcb.inner.children.len();
        let mut any = false;
        let mut found: Option<usize> = None;
        let mut i: usize = 0;
        while i < n
            invariant
                *self == old_k,
                *pcb == old_k.pcb(p as int),
                n == old_k.children(p as int).len(),
                old_k.proc_ok(p as int),
                old_k.proc_exists(p as int),
                i <= n,
                any == exists|j: int| 0 <= j < i && Kernel::wait_match(pid, #[trigger] old_k.children(p as int)[j]),
                found.is_none() ==> forall|j: int| 0 <= j < i ==> !(Kernel::wait_match(pid, #[trigger] old_k.children(p as int)[j])
                    && old_k.pcb(old_k.children(p as int)[j] as int).inner.is_zombie),
                found matches Some(k) ==> old_k.first_zombie(p as int, pid, k as int),
            decreases n - i,
        {
            let c = pcb.inner.children[i];
            proof {
                assert(old_k.proc_exists(c as int)) by {
                    assert(old_k.children(p as int)[i as int] == c);
                }
            }
            if pid == -1 || (pid >= 0 && c == pid as usize) {
                any = true;
                if found.is_none() && self.procs[c].as_ref().unwrap().inner.is_zombie {
                    found = Some(i);
                }
            }
            i = i + 1;
        }
        if !any {
            return (-1, 0);
        }
        let idx = match found {
            None => {
                proof {
                    assert forall|i: int| !old_k.first_zombie(p as int, pid, i) by {
                        if old_k.first_zombie(p as int, pid, i) {
                            assert(Kernel::wait_match(pid, old_k.children(p as int)[i]));
                        }
                    }
                }
                return (-2, 0);
            },
            Some(idx) => idx,
        };
        let c = pcb.inner.children[idx];
        let child = self.procs[c].as_ref().unwrap();
        let exit_code = child.inner.exit_code;
        let spent = child.inner.times.tms_systime.saturating_add(child.inner.times.tms_child_systime);
        proof {
            assert(old_k.children(p as int)[idx as int] == c);
            assert(c != p) by {
                assert(old_k.pcb(c as int).inner.is_zombie);
            }
        }
        match &mut self.procs[p] {
            Some(pp) => {
                let _ = pp.inner.children.remove(idx);
                pp.inner.times.tms_systime = pp.inner.times.tms_systime.saturating_add(spent);
            },
            None => {},
        }
        self.procs.set(c, None);
        let ghost mid = *self;
        let nt = self.tasks.len();
        let mut k: usize = 0;
        while k < nt
            invariant
                nt == self.tasks@.len(),
                nt == old_k.tasks@.len(),
                k <= nt,
                self.procs == mid.procs,
                self.manager == mid.manager,
                self.processor == mid.processor,
                forall|j: int| 0 <= j < k ==> #[trigger] self.tasks@[j] == (if old_k.tasks@[j] matches Some(t) && t.pid == c { None } else { old_k.tasks@[j] }),
                forall|j: int| k <= j < nt ==> #[trigger] self.tasks@[j] == old_k.tasks@[j],
            decreases nt - k,
        {
            let drop_it = match self.tasks[k] {
                Some(t) => t.pid == c,
                None => false,
            };
            if drop_it {
                self.tasks.set(k, None);
            }
            k = k + 1;
        }
        proof {
            let pi = p as int;
            let ci = c as int;
            let ii = idx as int;
            assert(old_k.children(pi).no_duplicates());
            assert(self.children(pi) == old_k.children(pi).remove(ii));
            // No other process lists `c`: its parent link names `p` alone.
            assert forall|q: int| self.proc_exists(q) implies !(#[trigger] self.children(q)).contains(c) by {
                assert(old_k.proc_ok(q));
                if q == pi {
                    if self.children(q).contains(c) {
                        let j = choose|j: int| 0 <= j < self.children(q).len() && self.children(q)[j] == c;
                        if j < ii {
                            assert(old_k.children(pi)[j] == c);
                        } else {
                            assert(old_k.children(pi)[j + 1] == c);
                        }
                    }
                } else {
                    if self.children(q).contains(c) {
                        let j = choose|j: int| 0 <= j < self.children(q).len() && self.children(q)[j] == c;
                        assert(old_k.children(q)[j] == c);
                        assert(old_k.pcb(ci).inner.parent == Some(q as usize));
                        assert(old_k.pcb(ci).inner.parent == Some(p));
                    }
                }
            }
            assert forall|q: int| #[trigger] self.proc_ok(q) by {
                assert(old_k.proc_ok(q));
                if self.proc_exists(q) {
                    assert forall|j: int| 0 <= j < self.children(q).len() implies {
                        let d = #[trigger] self.children(q)[j] as int;
                        self.proc_exists(d) && self.pcb(d).inner.parent == Some(q as usize)
                    } by {
                        let d = self.children(q)[j];
                        if q == pi {
                            if j < ii {
                                assert(old_k.children(pi)[j] == d);
                            } else {
                                assert(old_k.children(pi)[j + 1] == d);
                            }
                        } else {
                            assert(old_k.children(q)[j] == d);
                        }
                        assert(self.children(q).contains(d));
                        assert(d != c);
                    }
                    if q == pi {
                        assert forall|a: int, b: int| 0 <= a < b < self.children(q).len() implies self.children(q)[a] != self.children(q)[b] by {
                            let a2 = if a < ii { a } else { a + 1 };
                            let b2 = if b < ii { b } else { b + 1 };
                            assert(old_k.children(pi)[a2] == self.children(q)[a]);
                            assert(old_k.children(pi)[b2] == self.children(q)[b]);
                        }
                    }
                }
            }
            assert forall|i: int| 0 <= i < self.manager@.len() implies #[trigger] self.ready_ok(i) by {
                assert(old_k.ready_ok(i));
                let hh = old_k.manager@[i] as int;
                assert(old_k.task(hh).pid != c);
                assert(self.tasks@[hh] == old_k.tasks@[hh]);
            }
            let cur = old_k.processor@->0 as int;
            assert(old_k.task_live(cur));
            assert(self.tasks@[cur] == old_k.tasks@[cur]);
            assert forall|h: int| self.task_exists(h) implies #[trigger] self.task(h).pid != c by {
                assert(self.tasks@[h] == (if old_k.tasks@[h] matches Some(t) && t.pid == c { None } else { old_k.tasks@[h] }));
            }
            assert(!self.has_match(pi, c as isize)) by {
                if self.has_match(pi, c as isize) {
                    let j = choose|j: int| 0 <= j < self.children(pi).len() && Kernel::wait_match(c as isize, #[trigger] self.children(pi)[j]);
                    assert(self.children(pi)[j] == c);
                    assert(self.children(pi).contains(c));
                }
            }
            assert(old_k.has_match(pi, pid)) by {
                assert(Kernel::wait_match(pid, old_k.children(pi)[ii]));
            }
        }
        (c as isize, exit_code)
    }

    /// Moves every child of `p` under the init process, keeping their order
    /// at the back of init's children, and leaves `p` childless.
    fn reparent_children(&mut self, p: usize)
        requires
            old(self).proc_exists(p as int),
            old(self).proc_exists(INIT_PID as int),
            p != INIT_PID,
            forall|q: int| #[trigger] old(self).proc_ok(q),
            old(self).pcb(INIT_PID as int).inner.parent.is_none(),
            old(self).procs@.len() <= isize::MAX,
        ensures
            final(self).tasks == old(self).tasks,
            final(self).manager == old(self).manager,
            final(self).processor == old(self).processor,
            final(self).procs@.len() == old(self).procs@.len(),
            final(self).children(INIT_PID as int) == old(self).children(INIT_PID as int) + old(self).children(p as int),
            final(self).children(p as int) == Seq::<usize>::empty(),
            forall|q: int| 0 <= q < old(self).procs@.len() ==> {
                let o = old(self).pcb(q);
                let f = final(self).pcb(q);
                &&& (#[trigger] final(self).procs@[q]) is Some == old(self).procs@[q] is Some
                &&& f.pid_handle == o.pid_handle
                &&& f.inner.is_zombie == o.inner.is_zombie
                &&& f.inner.exit_code == o.inner.exit_code
                &&& f.inner.tasks == o.inner.tasks
                &&& f.inner.fd_table == o.inner.fd_table
                &&& f.inner.signals == o.inner.signals
                &&& f.inner.futex_table == o.inner.futex_table
                &&& f.inner.semaphore_list == o.inner.semaphore_list
                &&& f.inner.mutex_list == o.inner.mutex_list
                &&& f.inner.condvar_list == o.inner.condvar_list
                &&& f.inner.times == o.inner.times
                &&& f.inner.parent == if old(self).children(p as int).contains(q as usize) { Some(INIT_PID) } else { o.inner.parent }
                &&& q != p && q != INIT_PID ==> f.inner.children == o.inner.children
            },
    {
        let ghost old_k = *self;
        let mut kids: Vec<usize> = Vec::new();
        match &mut self.procs[p] {
            Some(pp) => {
                std::mem::swap(&mut kids, &mut pp.inner.children);
            },
            None => {},
        }
        proof {
            assert(old_k.proc_ok(p as int));
            assert(!kids@.contains(INIT_PID)) by {
                if kids@.contains(INIT_PID) {
                    let j = choose|j: int| 0 <= j < kids@.len() && kids@[j] == INIT_PID;
                    assert(old_k.children(p as int)[j] == INIT_PID);
                }
            }
        }
        let ghost mid = *self;
        let n = kids.len();
        let mut i: usize = 0;
        while i < n
            invariant
                n == kids@.len(),
                kids@ == old_k.children(p as int),
                kids@.no_duplicates(),
                !kids@.contains(INIT_PID),
                i <= n,
                forall|j: int| 0 <= j < n ==> old_k.proc_exists(#[trigger] kids@[j] as int),
                forall|j: int| 0 <= j < n ==> self.proc_exists(#[trigger] kids@[j] as int),
                self.proc_exists(INIT_PID as int),
                self.tasks == old_k.tasks,
                self.manager == old_k.manager,
                self.processor == old_k.processor,
                self.procs@.len() == old_k.procs@.len(),
                old_k.procs@.len() <= isize::MAX,
                self.children(INIT_PID as int) == old_k.children(INIT_PID as int) + kids@.take(i as int),
                forall|q: int| 0 <= q < old_k.procs@.len() ==> {
                    let o = mid.pcb(q);
                    let f = self.pcb(q);
                    &&& (#[trigger] self.procs@[q]) is Some == mid.procs@[q] is Some
                    &&& q != INIT_PID ==> f.inner.children == o.inner.children
                    &&& f.inner.parent == if kids@.take(i as int).contains(q as usize) { Some(INIT_PID) } else { o.inner.parent }
                    &&& f.pid_handle == o.pid_handle
                    &&& f.inner.is_zombie == o.inner.is_zombie
                    &&& f.inner.exit_code == o.inner.exit_code
                    &&& f.inner.tasks == o.inner.tasks
                    &&& f.inner.fd_table == o.inner.fd_table
                    &&& f.inner.signals == o.inner.signals
                    &&& f.inner.futex_table == o.inner.futex_table
                    &&& f.inner.semaphore_list == o.inner.semaphore_list
                    &&& f.inner.mutex_list == o.inner.mutex_list
                    &&& f.inner.condvar_list == o.inner.condvar_list
                    &&& f.inner.times == o.inner.times
                },
            decreases n - i,
        {
            let c = kids[i];
            proof {
                assert(old_k.children(p as int)[i as int] == c);
                assert(old_k.proc_exists(c as int));
            }
            let ghost before = *self;
            proof {
                assert(self.proc_exists(kids@[i as int] as int));
            }
            match &mut self.procs[c] {
                Some(pc) => {
                    pc.inner.parent = Some(INIT_PID);
                },
                None => {},
            }
            match &mut self.procs[INIT_PID] {
                Some(pi) => {
                    pi.inner.children.push(c);
                },
                None => {},
            }
            proof {
                assert(kids@.take(i as int + 1) == kids@.take(i as int).push(c));
                assert(old_k.children(INIT_PID as int) + kids@.take(i as int + 1) == (old_k.children(INIT_PID as int) + kids@.take(i as int)).push(c));
                assert forall|q: int| 0 <= q < old_k.procs@.len() implies {
                    let o = mid.pcb(q);
                    let f = self.pcb(q);
                    &&& (#[trigger] self.procs@[q]) is Some == mid.procs@[q] is Some
                    &&& q != INIT_PID ==> f.inner.children == o.inner.children
                    &&& f.inner.parent == if kids@.take(i as int + 1).contains(q as usize) { Some(INIT_PID) } else { o.inner.parent }
                    &&& f.pid_handle == o.pid_handle
                    &&& f.inner.is_zombie == o.inner.is_zombie
                    &&& f.inner.exit_code == o.inner.exit_code
                    &&& f.inner.tasks == o.inner.tasks
                    &&& f.inner.fd_table == o.inner.fd_table
                    &&& f.inner.signals == o.inner.signals
                    &&& f.inner.futex_table == o.inner.futex_table
                    &&& f.inner.semaphore_list == o.inner.semaphore_list
                    &&& f.inner.mutex_list == o.inner.mutex_list
                    &&& f.inner.condvar_list == o.inner.condvar_list
                    &&& f.inner.times == o.inner.times
                } by {
                    assert(before.procs@[q] is Some == mid.procs@[q] is Some);
                    if q == c as int {
                        assert(kids@.take(i as int + 1)[i as int] == c);
                        assert(kids@.take(i as int + 1).contains(c));
                        assert(c != INIT_PID) by {
                            assert(kids@[i as int] == c);
                        }
                        assert(self.pcb(q).inner.parent == Some(INIT_PID));
                    } else {
                        let qq = q as usize;
                        assert(qq as int == q);
                        assert(qq != c);
                        let t0 = kids@.take(i as int);
                        let t1 = kids@.take(i as int + 1);
                        assert(t1 == t0.push(c));
                        if t1.contains(qq) {
                            let j = choose|j: int| 0 <= j < t1.len() && #[trigger] t1[j] == qq;
                            if j < i {
                                assert(t0[j] == qq);
                            } else {
                                assert(t1[j] == c);
                            }
                        }
                        if t0.contains(qq) {
                            let j = choose|j: int| 0 <= j < t0.len() && #[trigger] t0[j] == qq;
                            assert(t1[j] == qq);
                        }
                        assert(t1.contains(qq) == t0.contains(qq));
                        assert(self.pcb(q).inner.parent == before.pcb(q).inner.parent);
                    }
                }
            }
            i = i + 1;
        }
        proof {
            assert(kids@.take(n as int) =~= kids@);
            assert forall|q: int| 0 <= q < old_k.procs@.len() && q != p as int implies mid.procs@[q] == old_k.procs@[q] by {}
            assert(mid.children(p as int) =~= Seq::<usize>::empty());
        }
    }

    /// Replacing the state of process `p` by one with the same pid, tree
    /// links and zombie flag, whose objects are well formed, keeps the
    /// invariant.
    pub proof fn lemma_inner_update(old_k: &Kernel, new_k: &Kernel, p: int)
        requires
            old_k.wf(),
            old_k.proc_exists(p),
            new_k.tasks == old_k.tasks,
            new_k.manager == old_k.manager,
            new_k.processor == old_k.processor,
            new_k.procs@.len() == old_k.procs@.len(),
            new_k.procs@[p] is Some,
            forall|q: int| 0 <= q < old_k.procs@.len() && q != p ==> new_k.procs@[q] == old_k.procs@[q],
            new_k.pcb(p).pid_handle == old_k.pcb(p).pid_handle,
            new_k.pcb(p).inner.children == old_k.pcb(p).inner.children,
            new_k.pcb(p).inner.parent == old_k.pcb(p).inner.parent,
            new_k.pcb(p).inner.is_zombie == old_k.pcb(p).inner.is_zombie,
            new_k.pcb(p).inner.wf(),
        ensures
            new_k.wf(),
            forall|h: int| new_k.wakeable(h) == old_k.wakeable(h),
    {
        assert forall|h: int| new_k.wakeable(h) == old_k.wakeable(h) by {
            if old_k.task_exists(h) {
                let q = old_k.task(h).pid as int;
                if q != p && 0 <= q < old_k.procs@.len() {
                    assert(new_k.procs@[q] == old_k.procs@[q]);
                }
            }
        }
        assert forall|q: int| #[trigger] new_k.proc_ok(q) by {
            assert(old_k.proc_ok(q));
            if new_k.proc_exists(q) {
                assert forall|i: int| 0 <= i < new_k.children(q).len() implies {
                    let c = #[trigger] new_k.children(q)[i] as int;
                    new_k.proc_exists(c) && new_k.pcb(c).inner.parent == Some(q as usize)
                } by {
                    assert(old_k.children(q)[i] == new_k.children(q)[i]);
                }
            }
        }
        assert forall|i: int| 0 <= i < new_k.manager@.len() implies #[trigger] new_k.ready_ok(i) by {
            assert(old_k.ready_ok(i));
        }
    }

    /// Wakes, oldest first, up to `n` threads waiting on user address
    /// `addr` of process `p`; returns how many were taken off the queue.
    /// Each is made ready and queued, unless it has meanwhile stopped
    /// being a blocked thread of a live process.
    pub fn futex_wake_in(&mut self, p: usize, addr: usize, n: u32) -> (r: u32)
        requires
            old(self).wf(),
            old(self).proc_exists(p as int),
        ensures
            final(self).wf(),
            final(self).processor == old(self).processor,
            final(self).tasks@.len() == old(self).tasks@.len(),
            final(self).procs@.len() == old(self).procs@.len(),
            ({
                let w = old(self).pcb(p as int).inner.futex_table.waiters(addr);
                let ft = final(self).pcb(p as int).inner.futex_table;
                &&& r == if w.len() < n { w.len() } else { n as nat }
                &&& ft.waiters(addr) == w.skip(r as int)
                &&& forall|a: usize| a != addr ==> ft.waiters(a) == old(self).pcb(p as int).inner.futex_table.waiters(a)
                &&& final(self).manager@ == old(self).manager@ + old(self).wake_list(w.take(r as int))
                &&& forall|h: int| 0 <= h < old(self).tasks@.len() ==> #[trigger] final(self).tasks@[h] == if old(self).wake_list(
                    w.take(r as int)).contains(h as usize) { Kernel::readied(old(self).tasks@[h]) } else { old(self).tasks@[h] }
            }),
            final(self).proc_exists(p as int),
            final(self).pcb(p as int) == (ProcessControlBlock {
                inner: ProcessControlBlockInner {
                    futex_table: final(self).pcb(p as int).inner.futex_table,
                    ..old(self).pcb(p as int).inner
                },
                ..old(self).pcb(p as int)
            }),
            forall|q: int| 0 <= q < old(self).procs@.len() && q != p ==> final(self).procs@[q] == old(self).procs@[q],
    {
        let ghost old_k = *self;
        proof {
            assert(old_k.proc_ok(p as int));
        }
        let woken = match &mut self.procs[p] {
            Some(pp) => pp.inner.futex_table.wake(addr, n),
            None => Vec::new(),
        };
        proof {
            Kernel::lemma_inner_update(&old_k, self, p as int);
        }
        let ghost mid = *self;
        proof {
            assert forall|h: int| old_k.wakeable(h) == mid.wakeable(h) by {
                if 0 <= h < old_k.tasks@.len() && old_k.tasks@[h] is Some {
                    let q = old_k.task(h).pid as int;
                    if q != p && 0 <= q < old_k.procs@.len() {
                        assert(old_k.procs@[q] == mid.procs@[q]);
                    }
                }
            }
            Kernel::lemma_wake_list_same(&old_k, &mid, woken@);
        }
        let m = woken.len();
        let nt = self.tasks.len();
        let mut i: usize = 0;
        while i < m
            invariant
                m == woken@.len(),
                nt == mid.tasks@.len(),
                i <= m,
                self.wf(),
                self.procs == mid.procs,
                self.processor == mid.processor,
                self.tasks@.len() == mid.tasks@.len(),
                self.manager@ == mid.manager@ + mid.wake_list(woken@.take(i as int)),
                forall|h: int| 0 <= h < mid.tasks@.len() ==> #[trigger] self.tasks@[h] == if mid.wake_list(
                    woken@.take(i as int)).contains(h as usize) { Kernel::readied(mid.tasks@[h]) } else { mid.tasks@[h] },
            decreases m - i,
        {
            let t = woken[i];
            let ghost wl = mid.wake_list(woken@.take(i as int));
            let ghost before = self.tasks@;
            let ghost woke = mid.wakeable(t as int) && !wl.contains(t);
            proof {
                assert(woken@.take(i as int + 1).drop_last() == woken@.take(i as int));
                assert(woken@.take(i as int + 1).last() == t);
                Kernel::lemma_wake_list_wakeable(&mid, woken@.take(i as int));
                if wl.contains(t) {
                    let j = choose|j: int| 0 <= j < wl.len() && wl[j] == t;
                    assert(mid.wakeable(wl[j] as int));
                    assert(self.tasks@[t as int] == Kernel::readied(mid.tasks@[t as int]));
                    assert(!self.wakeable(t as int));
                } else {
                    if 0 <= t < mid.tasks@.len() {
                        assert(self.tasks@[t as int] == mid.tasks@[t as int]);
                    }
                    assert(self.wakeable(t as int) == mid.wakeable(t as int));
                }
            }
            self.wakeup_task(t);
            proof {
                let wl2 = mid.wake_list(woken@.take(i as int + 1));
                assert(wl2 == if woke { wl.push(t) } else { wl });
                if woke {
                    assert(before[t as int] == mid.tasks@[t as int]);
                    assert(self.tasks@ == before.update(t as int, Kernel::readied(mid.tasks@[t as int])));
                } else {
                    assert(self.tasks@ == before);
                }
                assert forall|h: int| 0 <= h < mid.tasks@.len() implies #[trigger] self.tasks@[h] == if wl2.contains(h as usize) {
                    Kernel::readied(mid.tasks@[h]) } else { mid.tasks@[h] } by {
                    assert(before[h] == if wl.contains(h as usize) { Kernel::readied(mid.tasks@[h]) } else { mid.tasks@[h] });
                    if woke {
                        if h == t as int {
                            assert(wl2[wl.len() as int] == t);
                            assert(wl2.contains(t));
                        } else {
                            assert(self.tasks@[h] == before[h]);
                            assert(h as usize != t);
                            assert(wl2.contains(h as usize) == wl.contains(h as usize)) by {
                                if wl2.contains(h as usize) {
                                    let j = choose|j: int| 0 <= j < wl2.len() && wl2[j] == h as usize;
                                    assert(wl[j] == h as usize);
                                }
                                if wl.contains(h as usize) {
                                    let j = choose|j: int| 0 <= j < wl.len() && wl[j] == h as usize;
                                    assert(wl2[j] == h as usize);
                                }
                            }
                        }
                    }
                }
                if wl2 != wl {
                    assert(mid.manager@ + wl2 =~= (mid.manager@ + wl).push(t));
                }
            }
            i = i + 1;
        }
        proof {
            assert(woken@.take(m as int) =~= woken@);
        }
        m as u32
    }

    /// The exit status recorded for a process whose main thread exited with
    /// `code`: its low eight bits, shifted left by eight.
    pub open spec fn zombie_code(code: i32) -> i32 {
        (code & 0xff) << 8
    }

    /// Turns live process `p` (not init) into a zombie: exit status
    /// recorded, children handed to init, descriptors closed, thread table
    /// cut to the main thread's slot, and none of its threads left ready.
    fn zombify(&mut self, p: usize, exit_code: i32)
        requires
            old(self).wf(),
            old(self).processor@.is_none(),
            old(self).proc_live(p as int),
            p != INIT_PID,
        ensures
            final(self).wf(),
            final(self).processor@.is_none(),
            final(self).tasks == old(self).tasks,
            final(self).procs@.len() == old(self).procs@.len(),
            final(self).proc_exists(p as int),
            final(self).pcb(p as int).inner.is_zombie,
            final(self).pcb(p as int).inner.exit_code == Kernel::zombie_code(exit_code),
            final(self).children(p as int) == Seq::<usize>::empty(),
            final(self).pcb(p as int).inner.fd_table@ == Seq::<Option<u64>>::empty(),
            final(self).pcb(p as int).inner.futex_table == old(self).pcb(p as int).inner.futex_table,
            final(self).pcb(p as int).inner.tasks@ == if old(self).pcb(p as int).inner.tasks@.len() >= 1 {
                old(self).pcb(p as int).inner.tasks@.take(1) } else { old(self).pcb(p as int).inner.tasks@ },
            final(self).children(INIT_PID as int) == old(self).children(INIT_PID as int) + old(self).children(p as int),
            forall|i: int| 0 <= i < old(self).children(p as int).len() ==>
                final(self).pcb(#[trigger] old(self).children(p as int)[i] as int).inner.parent == Some(INIT_PID),
            forall|q: int| 0 <= q < old(self).procs@.len() && q != p && q != INIT_PID ==> #[trigger] final(self).children(q)
                == old(self).children(q),
            forall|q: int| 0 <= q < old(self).procs@.len() ==> (#[trigger] final(self).procs@[q]) is Some == old(self).procs@[q] is Some,
            final(self).manager@ == old(self).manager@.filter(|t: usize| !(old(self).task_exists(t as int) && old(self).task(t as int).pid == p)),
            forall|i: int| 0 <= i < final(self).manager@.len() ==> #[trigger] final(self).task(final(self).manager@[i] as int).pid != p,
    {
        let ghost old_k = *self;
        proof {
            assert(old_k.proc_ok(p as int));
        }
        self.reparent_children(p);
        let ghost r1 = *self;
        match &mut self.procs[p] {
            Some(pp) => {
                pp.inner.is_zombie = true;
                pp.inner.exit_code = (exit_code & 0xff) << 8;
                pp.inner.fd_table.clear();
                pp.inner.tasks.truncate(1);
            },
            None => {},
        }
        let nt = self.tasks.len();
        let mut gone: Vec<bool> = Vec::new();
        let mut k: usize = 0;
        while k < nt
            invariant
                nt == self.tasks@.len(),
                self.tasks == old_k.tasks,
                k <= nt,
                gone@.len() == k,
                forall|j: int| 0 <= j < k ==> #[trigger] gone@[j] == (old_k.tasks@[j] is Some && old_k.task(j).pid == p),
            decreases nt - k,
        {
            let g = match self.tasks[k] {
                Some(t) => t.pid == p,
                None => false,
            };
            gone.push(g);
            k = k + 1;
        }
        self.manager.retain_not_in(&gone);
        proof {
            let pi = p as int;
            let ii = INIT_PID as int;
            let kids = old_k.children(pi);
            assert forall|t: usize| #[trigger] in_flags(gone@, t) == (old_k.task_exists(t as int) && old_k.task(t as int).pid == p) by {}
            assert((|t: usize| !in_flags(gone@, t)) =~= (|t: usize| !(old_k.task_exists(t as int) && old_k.task(t as int).pid == p)));
            // A child of `p` has `p` as parent, so it is no child of anyone else.
            assert forall|q: int, j: int| q != pi && old_k.proc_exists(q) && 0 <= j < old_k.children(q).len() implies !kids.contains(#[trigger] old_k.children(q)[j]) by {
                assert(old_k.proc_ok(q));
                let d = old_k.children(q)[j];
                if kids.contains(d) {
                    let m = choose|m: int| 0 <= m < kids.len() && kids[m] == d;
                    assert(old_k.pcb(d as int).inner.parent == Some(p));
                }
            }
            assert(!kids.contains(INIT_PID)) by {
                if kids.contains(INIT_PID) {
                    let m = choose|m: int| 0 <= m < kids.len() && kids[m] == INIT_PID;
                }
            }
            assert forall|q: int| #[trigger] self.proc_ok(q) by {
                assert(old_k.proc_ok(q));
                if self.proc_exists(q) {
                    assert(0 <= q < old_k.procs@.len());
                    assert(r1.procs@[q] is Some == old_k.procs@[q] is Some);
                    assert forall|j: int| 0 <= j < self.children(q).len() implies {
                        let d = #[trigger] self.children(q)[j] as int;
                        self.proc_exists(d) && self.pcb(d).inner.parent == Some(q as usize)
                    } by {
                        let d = self.children(q)[j];
                        if q == ii {
                            if j < old_k.children(ii).len() {
                                assert(d == old_k.children(ii)[j]);
                                assert(!kids.contains(d));
                                assert(r1.procs@[d as int] is Some == old_k.procs@[d as int] is Some);
                            } else {
                                assert(d == kids[j - old_k.children(ii).len()]);
                                assert(kids.contains(d));
                                assert(r1.procs@[d as int] is Some == old_k.procs@[d as int] is Some);
                            }
                        } else {
                            assert(q != pi);
                            assert(d == old_k.children(q)[j]);
                            assert(!kids.contains(d));
                            assert(r1.procs@[d as int] is Some == old_k.procs@[d as int] is Some);
                        }
                    }
                    if q == ii {
                        let a = old_k.children(ii);
                        assert forall|x: int, y: int| 0 <= x < y < self.children(q).len() implies self.children(q)[x] != self.children(q)[y] by {
                            if y >= a.len() && x < a.len() {
                                assert(!kids.contains(a[x]));
                                assert(kids[y - a.len()] == self.children(q)[y]);
                            }
                            if x >= a.len() {
                                assert(kids[x - a.len()] == self.children(q)[x]);
                                assert(kids[y - a.len()] == self.children(q)[y]);
                            }
                        }
                    }
                }
            }
            assert forall|i: int| 0 <= i < self.manager@.len() implies #[trigger] self.ready_ok(i) by {
                let t = self.manager@[i];
                assert(old_k.manager@.contains(t));
                let m = choose|m: int| 0 <= m < old_k.manager@.len() && old_k.manager@[m] == t;
                assert(old_k.ready_ok(m));
                assert(!in_flags(gone@, t));
                let pp = old_k.task(t as int).pid as int;
                assert(pp != pi);
                assert(r1.procs@[pp] is Some == old_k.procs@[pp] is Some);
            }
            assert forall|i: int| 0 <= i < self.manager@.len() implies #[trigger] self.task(self.manager@[i] as int).pid != p by {
                let t = self.manager@[i];
                assert(!in_flags(gone@, t));
                assert(old_k.manager@.contains(t));
                let m = choose|m: int| 0 <= m < old_k.manager@.len() && old_k.manager@[m] == t;
                assert(old_k.ready_ok(m));
            }
            assert(r1.procs@[ii] is Some == old_k.procs@[ii] is Some);
            assert(self.children(pi) =~= Seq::<usize>::empty());
        }
    }

    /// What `exit_current_and_run_next` guarantees, from state `k0` to state `k1`.
    pub open spec fn exit_current_and_run_next_post(k0: Kernel, k1: Kernel, exit_code: i32, r: ExitOutcome) -> bool {
        &&& ({
            let h = k0.processor@->0;
            let t = k0.task(h as int);
            let p = t.pid as int;
            &&& p == INIT_PID && t.tid == 0 ==> r == (ExitOutcome { clear_child_tid: None, shutdown: Some(exit_code != 0) })
                && k1 == k0
            &&& !(p == INIT_PID && t.tid == 0) ==> {
                &&& r.shutdown.is_none()
                &&& r.clear_child_tid == if t.clone_flags & CLONE_CHILD_CLEARTID != 0 { Some(t.ctid_ptr) } else { None::<usize> }
                &&& k1.task_exists(h as int)
                &&& k1.task(h as int).inner.exit_code == Some(exit_code & 0xff)
                &&& k1.processor@ != Some(h)
                &&& k1.procs@.len() == k0.procs@.len()
                &&& k1.tasks@.len() == k0.tasks@.len()
                &&& ({
                    let clear = t.clone_flags & CLONE_CHILD_CLEARTID != 0;
                    let w = k0.pcb(p).inner.futex_table.waiters(t.ctid_ptr);
                    let k = if clear && w.len() > 0 { 1int } else { 0int };
                    let q0 = k0.manager@ + k0.wake_list(w.take(k));
                    let q = if t.tid == 0 {
                        q0.filter(|x: usize| !(k0.task_exists(x as int) && k0.task(x as int).pid == p))
                    } else {
                        q0
                    };
                    &&& k1.pcb(p).inner.futex_table.waiters(t.ctid_ptr) == w.skip(k)
                    &&& q.len() > 0 ==> k1.processor@ == Some(q[0]) && k1.manager@ == q.drop_first()
                    &&& q.len() == 0 ==> k1.processor@.is_none() && k1.manager@ == q
                })
                &&& t.tid != 0 ==> k1.pcb(p).inner.tasks@ == if (t.tid as int) < k0.pcb(p).inner.tasks@.len() {
                    k0.pcb(p).inner.tasks@.update(t.tid as int, None) } else { k0.pcb(p).inner.tasks@ }
                &&& t.tid == 0 ==> {
                    &&& k1.pcb(p).inner.fd_table@ == Seq::<Option<u64>>::empty()
                    &&& k1.pcb(p).inner.tasks@ == if k0.pcb(p).inner.tasks@.len() >= 1 {
                        k0.pcb(p).inner.tasks@.take(1) } else { k0.pcb(p).inner.tasks@ }
                    &&& k1.proc_exists(p)
                    &&& k1.pcb(p).inner.is_zombie
                    &&& k1.pcb(p).inner.exit_code == Kernel::zombie_code(exit_code)
                    &&& k1.children(p) == Seq::<usize>::empty()
                    &&& k1.children(INIT_PID as int) == k0.children(INIT_PID as int) + k0.children(p)
                    &&& forall|q: int| 0 <= q < k0.procs@.len() && q != p && q != INIT_PID ==> #[trigger] k1.children(q)
                        == k0.children(q)
                    &&& forall|i: int| 0 <= i < k0.children(p).len() ==>
                        k1.pcb(#[trigger] k0.children(p)[i] as int).inner.parent == Some(INIT_PID)
                    &&& forall|i: int| 0 <= i < k1.manager@.len() ==> #[trigger] k1.task(k1.manager@[i] as int).pid != p
                }
            }
        })
    }

    /// Ends the running thread. Its exit code keeps the low eight bits of
    /// `exit_code`; when it asked for it, one futex waiter on its clear-tid
    /// address is woken and the address is handed back to be zeroed. A
    /// thread other than the main one vacates its slot in the thread table and stays in the
    /// task table until joined. When it is the main thread, its process
    /// becomes a zombie (see `zombify`). The next ready thread then takes
    /// the core. The init process's main
    /// thread does not exit: the kernel shuts down instead.
    pub fn exit_current_and_run_next(&mut self, exit_code: i32) -> (r: ExitOutcome)
        requires
            old(self).wf(),
            old(self).processor@ is Some,
        ensures
            final(self).wf(),
            Kernel::exit_current_and_run_next_post(*old(self), *final(self), exit_code, r),
    {
        let ghost old_k = *self;
        let h = self.processor.current().unwrap();
        let t = self.tasks[h].unwrap();
        let p = t.pid;
        if p == INIT_PID && t.tid == 0 {
            return ExitOutcome { clear_child_tid: None, shutdown: Some(exit_code != 0) };
        }
        proof {
            assert(old_k.task_live(h as int));
        }
        let mut clear_child_tid: Option<usize> = None;
        if t.clone_flags & CLONE_CHILD_CLEARTID != 0 {
            clear_child_tid = Some(t.ctid_ptr);
            let _ = self.futex_wake_in(p, t.ctid_ptr, 1);
        } else {
            proof {
                assert(old_k.manager@ + old_k.wake_list(old_k.pcb(p as int).inner.futex_table.waiters(t.ctid_ptr).take(0)) =~= old_k.manager@);
                assert(old_k.pcb(p as int).inner.futex_table.waiters(t.ctid_ptr).skip(0) =~= old_k.pcb(p as int).inner.futex_table.waiters(t.ctid_ptr));
            }
        }
        let ghost k1 = *self;
        proof {
            assert forall|x: int| 0 <= x < old_k.tasks@.len() implies (#[trigger] k1.tasks@[x]) is Some == old_k.tasks@[x] is Some
                && (k1.tasks@[x] is Some ==> k1.tasks@[x]->0.pid == old_k.tasks@[x]->0.pid) by {}
        }
        proof {
            assert(k1.task_live(h as int));
            assert(k1.status(h as int) == TaskStatus::Running);
        }
        let mut t2 = self.tasks[h].unwrap();
        t2.inner.exit_code = Some(exit_code & 0xff);
        self.tasks.set(h, Some(t2));
        let _ = self.processor.take_current();
        proof {
            Kernel::lemma_same_procs(&k1, self);
            assert forall|i: int| 0 <= i < self.manager@.len() implies #[trigger] self.ready_ok(i) by {
                assert(k1.ready_ok(i));
                assert(k1.manager@[i] != h);
            }
        }
        if t.tid != 0 {
            let ghost kk = *self;
            proof {
                assert(kk.proc_ok(p as int));
            }
            match &mut self.procs[p] {
                Some(pp) => {
                    if t.tid < pp.inner.tasks.len() {
                        pp.inner.tasks.set(t.tid, None);
                    }
                },
                None => {},
            }
            proof {
                Kernel::lemma_inner_update(&kk, self, p as int);
            }
        }
        let ghost k2 = *self;
        if t.tid == 0 {
            self.zombify(p, exit_code);
        }
        let ghost k3 = *self;
        proof {
            if t.tid == 0 {
                assert((|x: usize| !(k2.task_exists(x as int) && k2.task(x as int).pid == p)) =~= (|x: usize| !(old_k.task_exists(x as int)
                    && old_k.task(x as int).pid == p))) by {
                    assert forall|x: usize| (!(k2.task_exists(x as int) && k2.task(x as int).pid == p)) == (!(old_k.task_exists(x as int)
                        && old_k.task(x as int).pid == p)) by {
                        if 0 <= x < old_k.tasks@.len() {
                            assert(k1.tasks@[x as int] is Some == old_k.tasks@[x as int] is Some);
                        }
                    }
                }
            }
            assert(k3.task(h as int) == k2.task(h as int));
            assert(k3.status(h as int) == TaskStatus::Running);
        }
        let ran = self.run_tasks();
        proof {
            if ran {
                assert(k3.ready_ok(0));
                if t.tid == 0 {
                    assert forall|i: int| 0 <= i < self.manager@.len() implies #[trigger] self.task(self.manager@[i] as int).pid != p by {
                        let x = k3.manager@[i + 1];
                        assert(k3.ready_ok(i + 1));
                        assert(self.manager@[i] == x);
                        assert(k3.task(x as int).pid != p);
                        if x != k3.manager@[0] {
                            assert(self.tasks@[x as int] == k3.tasks@[x as int]);
                        }
                    }
                }
            }
        }
        proof {
            if t.tid == 0 {
                assert forall|q: int| 0 <= q < old_k.procs@.len() && q != p && q != INIT_PID implies #[trigger] self.children(q)
                    == old_k.children(q) by {
                    assert(k1.procs@[q] == old_k.procs@[q]);
                    assert(k2.procs@[q] == k1.procs@[q]);
                    assert(k3.children(q) == k2.children(q));
                }
            }
        }
        ExitOutcome { clear_child_tid, shutdown: None }
    }

    /// The running thread and ready queue after `n` yields in a row, from
    /// running thread `cur` and ready queue `q`.
    pub open spec fn yields(cur: usize, q: Seq<usize>, n: nat) -> (usize, Seq<usize>)
        decreases n,
    {
        if n == 0 {
            (cur, q)
        } else {
            let (c, qq) = Kernel::yields(cur, q, (n - 1) as nat);
            Kernel::yield_spec(c, qq)
        }
    }

    /// Round-robin order: with no thread blocking, the running thread
    /// followed by the ready queue, `s`, only ever rotates. After `n` yields
    /// the thread at position `n mod |s|` of `s` runs, with the rest of `s`
    /// queued behind it in cyclic order.
    #[verifier::rlimit(100)]
    pub proof fn lemma_round_robin(cur: usize, q: Seq<usize>, n: nat)
        ensures
            ({
                let s = seq![cur] + q;
                let k = (n % s.len()) as int;
                let (c, q2) = Kernel::yields(cur, q, n);
                &&& c == s[k]
                &&& seq![c] + q2 == s.skip(k) + s.take(k)
            }),
        decreases n,
    {
        let s = seq![cur] + q;
        let l = s.len();
        if n == 0 {
            let (c, q2) = Kernel::yields(cur, q, n);
            assert(s.skip(0) + s.take(0) =~= s);
            assert(seq![c] + q2 =~= s);
            assert(n % l == 0) by (nonlinear_arith)
                requires
                    n == 0,
                    l > 0,
            ;
        } else {
            Kernel::lemma_round_robin(cur, q, (n - 1) as nat);
            let k0 = ((n - 1) as nat % l) as int;
            let (c0, q0) = Kernel::yields(cur, q, (n - 1) as nat);
            let r0 = s.skip(k0) + s.take(k0);
            assert(seq![c0] + q0 == r0);
            assert(q0 =~= r0.drop_first());
            let q1 = q0.push(c0);
            let k = (n % l) as int;
            assert(n % l == if (n - 1) as nat % l + 1 == l { 0 } else { (n - 1) as nat % l + 1 }) by (nonlinear_arith)
                requires
                    l > 0,
                    n >= 1,
            {
                let m = (n - 1) as nat;
                assert(m == l * (m / l) + m % l);
                if m % l + 1 == l {
                    assert(n == l * (m / l + 1));
                } else {
                    assert(n == l * (m / l) + (m % l + 1));
                }
            }
            let (c, q2) = Kernel::yields(cur, q, n);
            if k0 + 1 == l {
                assert(q1 =~= s);
                assert(k == 0);
                assert(s.skip(0) + s.take(0) =~= s);
            } else {
                assert(q1 =~= s.skip(k0 + 1) + s.take(k0 + 1));
                assert(k == k0 + 1);
            }
            assert(seq![c] + q2 =~= q1);
            assert((seq![c] + q2)[0] == c);
            assert((s.skip(k) + s.take(k))[0] == s[k]);
        }
    }

    /// Once child `c` has been reaped, that is once no process `c` exists,
    /// a wait for `c` finds no such child: it is reaped at most once.
    pub proof fn lemma_reaped_child_gone(k: &Kernel, p: int, c: usize)
        requires
            k.wf(),
            k.proc_exists(p),
            !k.proc_exists(c as int),
            c <= isize::MAX,
        ensures
            !k.has_match(p, c as isize),
    {
        if k.has_match(p, c as isize) {
            let i = choose|i: int| 0 <= i < k.children(p).len() && Kernel::wait_match(c as isize, #[trigger] k.children(p)[i]);
            assert(k.proc_ok(p));
            assert(k.children(p)[i] == c);
        }
    }

    /// The status a parent collects for a child whose main thread exited
    /// with `code`: the low eight bits of `code`, shifted left by eight.
    pub proof fn lemma_zombie_code(code: i32)
        ensures
            0 <= Kernel::zombie_code(code) <= 0xff00,
            Kernel::zombie_code(code) % 256 == 0,
            Kernel::zombie_code(code) / 256 == code & 0xff,
    {
        assert(0 <= ((code & 0xff) << 8) <= 0xff00) by (bit_vector);
        assert(((code & 0xff) << 8) % 256 == 0) by (bit_vector);
        assert(((code & 0xff) << 8) / 256 == code & 0xff) by (bit_vector);
    }

    /// No thread is both running and waiting on the ready queue, and no
    /// thread waits there twice.
    pub proof fn lemma_current_not_ready(k: &Kernel)
        requires
            k.wf(),
        ensures
            k.processor@ matches Some(h) ==> !k.manager@.contains(h),
            k.manager@.no_duplicates(),
    {
        if k.processor@ is Some {
            let h = k.processor@->0;
            if k.manager@.contains(h) {
                let i = choose|i: int| 0 <= i < k.manager@.len() && k.manager@[i] == h;
                assert(k.ready_ok(i));
            }
        }
    }

    /// A new process loaded from a program image, with no parent: the next
    /// unused pid, the standard descriptors on `stdio`, working directory
    /// `/` on `root_inode`, and one main thread, queued as ready. User
    /// programs and kernel threads differ in `privilege` only. `None` when
    /// no pid or handle is left.
    pub fn new_process(&mut self, privilege: Privilege, stdio: u64, root_inode: u64) -> (r: Option<usize>)
        requires
            old(self).wf(),
        ensures
            final(self).wf(),
            final(self).processor == old(self).processor,
            ({
                let c = old(self).procs@.len();
                let hc = old(self).tasks@.len();
                &&& r is None <==> (c >= isize::MAX || hc == usize::MAX)
                &&& r is None ==> *final(self) == *old(self)
                &&& r matches Some(pid) ==> {
                    &&& pid == c
                    &&& final(self).procs@.len() == c + 1
                    &&& final(self).tasks@ == old(self).tasks@.push(Some(TaskStruct::new_spec(pid, 0, 0, 0)))
                    &&& final(self).manager@ == old(self).manager@.push(hc as usize)
                    &&& final(self).pcb(c as int).pid_handle == c
                    &&& final(self).pcb(c as int).inner.parent.is_none()
                    &&& final(self).pcb(c as int).inner.privilege == privilege
                    &&& final(self).pcb(c as int).inner.fd_table@ == seq![Some(stdio), Some(stdio), Some(stdio)]
                    &&& final(self).pcb(c as int).inner.dir_struct.inner.cwd@ == seq![47u8]
                    &&& final(self).pcb(c as int).inner.dir_struct.inner.inode == root_inode
                    &&& final(self).pcb(c as int).inner.exit_code == 0
                    &&& !final(self).pcb(c as int).inner.is_zombie
                    &&& final(self).children(c as int) == Seq::<usize>::empty()
                    &&& final(self).pcb(c as int).inner.tasks@ == seq![Some(hc as usize)]
                    &&& forall|q: int| 0 <= q < c ==> final(self).procs@[q] == old(self).procs@[q]
                }
            }),
    {
        let ghost old_k = *self;
        let c = self.procs.len();
        let hc = self.tasks.len();
        if c >= isize::MAX as usize || hc == usize::MAX {
            return None;
        }
        let mut inner = ProcessControlBlockInner::new(None, stdio, root_inode, privilege);
        inner.tasks.push(Some(hc));
        self.procs.push(Some(ProcessControlBlock { pid_handle: c, inner }));
        self.tasks.push(Some(TaskStruct::new(c, 0, 0, 0)));
        self.manager.add(hc);
        proof {
            assert(self.pcb(c as int).inner.tasks@ =~= seq![Some(hc)]);
            assert forall|q: int| #[trigger] self.proc_ok(q) by {
                if q != c && self.proc_exists(q) {
                    assert(old_k.proc_ok(q));
                    assert forall|i: int| 0 <= i < self.children(q).len() implies {
                        let d = #[trigger] self.children(q)[i] as int;
                        self.proc_exists(d) && self.pcb(d).inner.parent == Some(q as usize)
                    } by {
                        assert(self.children(q)[i] == old_k.children(q)[i]);
                        assert(old_k.proc_exists(old_k.children(q)[i] as int));
                    }
                }
            }
            assert forall|i: int| 0 <= i < self.manager@.len() implies #[trigger] self.ready_ok(i) by {
                if i < old_k.manager@.len() {
                    assert(old_k.ready_ok(i));
                    let hh = old_k.manager@[i] as int;
                    assert(self.tasks@[hh] == old_k.tasks@[hh]);
                    assert(self.procs@[old_k.task(hh).pid as int] == old_k.procs@[old_k.task(hh).pid as int]);
                }
            }
            assert(!old_k.manager@.contains(hc)) by {
                if old_k.manager@.contains(hc) {
                    let i = choose|i: int| 0 <= i < old_k.manager@.len() && old_k.manager@[i] == hc;
                    assert(old_k.ready_ok(i));
                }
            }
            if old_k.processor@ is Some {
                let cur = old_k.processor@->0 as int;
                assert(old_k.task_live(cur));
                assert(self.tasks@[cur] == old_k.tasks@[cur]);
                assert(self.procs@[old_k.task(cur).pid as int] == old_k.procs@[old_k.task(cur).pid as int]);
            }
        }
        Some(c)
    }

    /// A child's exit status is collected once: when the main thread of
    /// child `c` of process `pp` exits with `code` (state `k0` to `k1`) and
    /// a thread of `pp` then waits for `c` (state `k1` to `k2`), the wait
    /// returns `c` and the low eight bits of `code` shifted left by eight,
    /// and a later wait for `c` finds no such child.
    pub proof fn lemma_exit_then_wait(
        k0: Kernel,
        k1: Kernel,
        k2: Kernel,
        pp: int,
        code: i32,
        out: ExitOutcome,
        r: (isize, i32),
    )
        requires
            k0.wf(),
            k0.processor@ is Some,
            k0.task(k0.processor@->0 as int).tid == 0,
            k0.task(k0.processor@->0 as int).pid != INIT_PID,
            k0.proc_exists(pp),
            pp != k0.task(k0.processor@->0 as int).pid,
            k0.children(pp).contains(k0.task(k0.processor@->0 as int).pid),
            Kernel::exit_current_and_run_next_post(k0, k1, code, out),
            k1.wf(),
            k1.processor@ is Some,
            k1.task(k1.processor@->0 as int).pid == pp,
            Kernel::waitpid_post(k1, k2, k0.task(k0.processor@->0 as int).pid as isize, r),
        ensures
            r == (k0.task(k0.processor@->0 as int).pid as isize, Kernel::zombie_code(code)),
            !k2.has_match(pp, k0.task(k0.processor@->0 as int).pid as isize),
    {
        reveal(Kernel::waitpid_post);
        let c = k0.task(k0.processor@->0 as int).pid;
        assert(k0.task_live(k0.processor@->0 as int));
        assert(k0.proc_ok(c as int));
        assert(c < k0.procs@.len());
        let ci = c as isize;
        assert(ci as usize == c);
        // `c` is still a child of `pp` after the exit.
        assert(k1.children(pp).contains(c)) by {
            let i = choose|i: int| 0 <= i < k0.children(pp).len() && k0.children(pp)[i] == c;
            if pp == INIT_PID as int {
                assert(k1.children(pp)[i] == c);
            } else {
                assert(pp < k0.procs@.len());
                assert(k1.children(pp) == k0.children(pp));
            }
        }
        let i = choose|i: int| 0 <= i < k1.children(pp).len() && k1.children(pp)[i] == c;
        assert(k1.proc_ok(pp));
        assert(Kernel::wait_match(ci, k1.children(pp)[i]));
        assert(k1.has_match(pp, ci));
        assert(k1.first_zombie(pp, ci, i)) by {
            assert forall|j: int| 0 <= j < i implies !(Kernel::wait_match(ci, #[trigger] k1.children(pp)[j])
                && k1.pcb(k1.children(pp)[j] as int).inner.is_zombie) by {
                if Kernel::wait_match(ci, k1.children(pp)[j]) {
                    assert(k1.children(pp)[j] == k1.children(pp)[i]);
                }
            }
        }
        assert(r.0 != -1);
        assert(r.0 != -2);
        let j = choose|j: int| {
            &&& k1.first_zombie(pp, ci, j)
            &&& k1.children(pp)[j] == r.0 as usize
            &&& k2.children(pp) == k1.children(pp).remove(j)
        };
        assert(Kernel::wait_match(ci, k1.children(pp)[j]));
    }

    /// Whether process `p` exists and has not exited.
    pub fn is_live(&self, p: usize) -> (r: bool)
        ensures
            r == self.proc_live(p as int),
    {
        if p < self.procs.len() {
            match &self.procs[p] {
                Some(pcb) => !pcb.inner.is_zombie,
                None => false,
            }
        } else {
            false
        }
    }
}

} // verus!
