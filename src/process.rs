use vstd::prelude::*;
use vstd::string::StringSliceAdditionalSpecFns;

use crate::dir_struct::DirStruct;
use crate::futex::FutexTable;
use crate::sync::{Condvar, Mutex, Semaphore};

verus! {

/// Whether a process runs user code or is a kernel thread.
#[derive(Clone, Copy, Debug, PartialEq, Eq, Structural)]
pub enum Privilege {
    User,
    Kernel,
}

/// Accumulated CPU time of a process and of its reaped children.
#[derive(Clone, Copy, Debug)]
pub struct Tms {
    pub tms_systime: usize,
    pub tms_usrtime: usize,
    pub tms_child_systime: usize,
    pub tms_child_usrtime: usize,
}

impl Tms {
    pub fn new() -> (r: Tms)
        ensures
            r.tms_systime == 0,
            r.tms_usrtime == 0,
            r.tms_child_systime == 0,
            r.tms_child_usrtime == 0,
    {
        Tms { tms_systime: 0, tms_usrtime: 0, tms_child_systime: 0, tms_child_usrtime: 0 }
    }
}

/// The mutable part of a process control block. Threads are named by their
/// handle in the kernel's task table; open files by an opaque handle.
pub struct ProcessControlBlockInner {
    pub is_zombie: bool,
    pub exit_code: i32,
    /// Non-owning link to the parent.
    pub parent: Option<usize>,
    /// Owned children, by pid.
    pub children: Vec<usize>,
    /// Thread table: slot `tid` holds the handle of thread `tid`, if alive.
    pub tasks: Vec<Option<usize>>,
    pub fd_table: Vec<Option<u64>>,
    pub signals: u32,
    pub mutex_list: Vec<Option<Mutex>>,
    pub semaphore_list: Vec<Option<Semaphore>>,
    pub condvar_list: Vec<Option<Condvar>>,
    pub futex_table: FutexTable,
    pub privilege: Privilege,
    pub times: Tms,
    /// Working directory.
    pub dir_struct: DirStruct,
}

impl ProcessControlBlockInner {
    /// The objects held by the process are each well formed.
    pub open spec fn wf(&self) -> bool {
        &&& self.futex_table.wf()
        &&& forall|i: int|
            0 <= i < self.semaphore_list@.len() && (#[trigger] self.semaphore_list@[i]) is Some
                ==> self.semaphore_list@[i]->0.wf()
        &&& forall|i: int|
            0 <= i < self.mutex_list@.len() && (#[trigger] self.mutex_list@[i]) is Some
                ==> self.mutex_list@[i]->0.wf()
    }

    /// Replacing one semaphore by a well-formed one keeps the invariant.
    pub proof fn lemma_wf_semaphore_update(a: &ProcessControlBlockInner, b: &ProcessControlBlockInner, id: int)
        requires
            a.wf(),
            b.futex_table == a.futex_table,
            b.mutex_list == a.mutex_list,
            0 <= id < a.semaphore_list@.len(),
            b.semaphore_list@ == a.semaphore_list@.update(id, b.semaphore_list@[id]),
            b.semaphore_list@[id] is Some ==> b.semaphore_list@[id]->0.wf(),
        ensures
            b.wf(),
    {
        assert forall|i: int| 0 <= i < b.semaphore_list@.len() && (#[trigger] b.semaphore_list@[i]) is Some implies b.semaphore_list@[i]->0.wf() by {
            if i != id {
                assert(a.semaphore_list@[i] == b.semaphore_list@[i]);
            }
        }
    }

    /// Replacing one mutex by a well-formed one keeps the invariant.
    pub proof fn lemma_wf_mutex_update(a: &ProcessControlBlockInner, b: &ProcessControlBlockInner, id: int)
        requires
            a.wf(),
            b.futex_table == a.futex_table,
            b.semaphore_list == a.semaphore_list,
            0 <= id < a.mutex_list@.len(),
            b.mutex_list@ == a.mutex_list@.update(id, b.mutex_list@[id]),
            b.mutex_list@[id] is Some ==> b.mutex_list@[id]->0.wf(),
        ensures
            b.wf(),
    {
        assert forall|i: int| 0 <= i < b.mutex_list@.len() && (#[trigger] b.mutex_list@[i]) is Some implies b.mutex_list@[i]->0.wf() by {
            if i != id {
                assert(a.mutex_list@[i] == b.mutex_list@[i]);
            }
        }
    }

    /// A fresh process state: no children, no threads yet, the three
    /// standard descriptors open on `stdio`, working directory `/` on inode
    /// `cwd_inode`.
    pub fn new(parent: Option<usize>, stdio: u64, cwd_inode: u64, privilege: Privilege) -> (r: ProcessControlBlockInner)
        ensures
            r.dir_struct.inner.cwd@ == seq![47u8],
            r.dir_struct.inner.inode == cwd_inode,
            r.wf(),
            !r.is_zombie,
            r.exit_code == 0,
            r.parent == parent,
            r.children@ == Seq::<usize>::empty(),
            r.tasks@ == Seq::<Option<usize>>::empty(),
            r.fd_table@ == seq![Some(stdio), Some(stdio), Some(stdio)],
            r.signals == 0,
            r.privilege == privilege,
    {
        let mut fd_table: Vec<Option<u64>> = Vec::new();
        fd_table.push(Some(stdio));
        fd_table.push(Some(stdio));
        fd_table.push(Some(stdio));
        let r = ProcessControlBlockInner {
            is_zombie: false,
            exit_code: 0,
            parent,
            children: Vec::new(),
            tasks: Vec::new(),
            fd_table,
            signals: 0,
            mutex_list: Vec::new(),
            semaphore_list: Vec::new(),
            condvar_list: Vec::new(),
            futex_table: FutexTable::new(),
            privilege,
            times: Tms::new(),
            dir_struct: DirStruct::new(cwd_inode),
        };
        proof {
            assert(r.fd_table@ =~= seq![Some(stdio), Some(stdio), Some(stdio)]);
        }
        r
    }

    /// The lowest free descriptor; the table grows by one slot when all are
    /// taken.
    pub fn alloc_fd(&mut self) -> (r: usize)
        requires
            old(self).fd_table@.len() < usize::MAX,
        ensures
            r <= old(self).fd_table@.len(),
            r < final(self).fd_table@.len(),
            final(self).fd_table@[r as int].is_none(),
            forall|i: int| 0 <= i < r ==> old(self).fd_table@[i].is_some(),
            r < old(self).fd_table@.len() ==> final(self).fd_table@ == old(self).fd_table@,
            r == old(self).fd_table@.len() ==> final(self).fd_table@ == old(self).fd_table@.push(None),
            *final(self) == (ProcessControlBlockInner { fd_table: final(self).fd_table, ..*old(self) }),
    {
        let n = self.fd_table.len();
        let mut i: usize = 0;
        while i < n
            invariant
                n == self.fd_table@.len(),
                *self == *old(self),
                i <= n,
                forall|j: int| 0 <= j < i ==> self.fd_table@[j].is_some(),
            decreases n - i,
        {
            if self.fd_table[i].is_none() {
                return i;
            }
            i = i + 1;
        }
        self.fd_table.push(None);
        n
    }

    /// The lowest thread id whose slot is vacant, or the next one past the
    /// end of the table.
    pub fn alloc_tid(&self) -> (r: usize)
        requires
            self.tasks@.len() < usize::MAX,
        ensures
            r <= self.tasks@.len(),
            r < self.tasks@.len() ==> self.tasks@[r as int].is_none(),
            forall|i: int| 0 <= i < r ==> self.tasks@[i].is_some(),
    {
        let n = self.tasks.len();
        let mut i: usize = 0;
        while i < n
            invariant
                n == self.tasks@.len(),
                i <= n,
                forall|j: int| 0 <= j < i ==> self.tasks@[j].is_some(),
            decreases n - i,
        {
            if self.tasks[i].is_none() {
                return i;
            }
            i = i + 1;
        }
        n
    }

    /// Vacates the slot of thread `tid`.
    pub fn dealloc_tid(&mut self, tid: usize)
        requires
            tid < old(self).tasks@.len(),
        ensures
            final(self).tasks@ == old(self).tasks@.update(tid as int, None),
            *final(self) == (ProcessControlBlockInner { tasks: final(self).tasks, ..*old(self) }),
    {
        self.tasks.set(tid, None);
    }

    /// The working path.
    pub fn get_cwd(&self) -> (r: Vec<u8>)
        ensures
            r@ == self.dir_struct.inner.cwd@,
    {
        self.dir_struct.getcwd()
    }

    /// Size of the thread table, vacant slots included.
    pub fn thread_count(&self) -> (r: usize)
        ensures
            r == self.tasks@.len(),
    {
        self.tasks.len()
    }

    /// Handle of thread `tid`, if that slot is occupied.
    pub fn get_task(&self, tid: usize) -> (r: Option<usize>)
        ensures
            tid < self.tasks@.len() ==> r == self.tasks@[tid as int],
            tid >= self.tasks@.len() ==> r.is_none(),
    {
        if tid < self.tasks.len() {
            self.tasks[tid]
        } else {
            None
        }
    }
}

/// A process control block: its pid and its mutable state.
pub struct ProcessControlBlock {
    pub pid_handle: usize,
    pub inner: ProcessControlBlockInner,
}

impl ProcessControlBlock {
    pub fn getpid(&self) -> (r: usize)
        ensures
            r == self.pid_handle,
    {
        self.pid_handle
    }

    /// Takes `path` as the working path; returns 0.
    pub fn chdir(&mut self, path: &str) -> (r: isize)
        ensures
            r == 0,
            final(self).inner.dir_struct.inner.cwd@ == path.spec_bytes(),
            final(self).inner.dir_struct.inner.inode == old(self).inner.dir_struct.inner.inode,
            final(self).inner == (ProcessControlBlockInner { dir_struct: final(self).inner.dir_struct, ..old(self).inner }),
            final(self).pid_handle == old(self).pid_handle,
    {
        self.inner.dir_struct.chdir(path)
    }

    /// The working path.
    pub fn getcwd(&self) -> (r: Vec<u8>)
        ensures
            r@ == self.inner.dir_struct.inner.cwd@,
    {
        self.inner.get_cwd()
    }

    /// Exclusive access to the mutable part of the process.
    pub fn inner_exclusive_access(&mut self) -> (r: &mut ProcessControlBlockInner)
        ensures
            *r == old(self).inner,
            final(self).inner == *final(r),
            final(self).pid_handle == old(self).pid_handle,
    {
        &mut self.inner
    }
}

} // verus!
