use vstd::prelude::*;

verus! {

/// Scheduling state of a thread.
#[derive(Clone, Copy, Debug, PartialEq, Eq, Structural)]
pub enum TaskStatus {
    Ready,
    Running,
    Blocked,
}

/// The mutable part of a thread control block.
#[derive(Clone, Copy, Debug)]
pub struct TaskControlBlockInner {
    pub task_status: TaskStatus,
    /// Low eight bits of the code the thread exited with, once it has exited.
    pub exit_code: Option<i32>,
}

impl TaskControlBlockInner {
    pub fn get_status(&self) -> (r: TaskStatus)
        ensures
            r == self.task_status,
    {
        self.task_status
    }
}

/// A thread control block. Threads live in the kernel's task table and are
/// referred to everywhere else by their index there (their handle).
#[derive(Clone, Copy, Debug)]
pub struct TaskStruct {
    /// Id of the owning process (a non-owning back reference).
    pub pid: usize,
    /// Thread id, unique within the owning process; 0 is the main thread.
    pub tid: usize,
    /// Flags of the `clone` request that created the thread.
    pub clone_flags: usize,
    /// User address to clear and wake on exit, when `clone_flags` asks for it.
    pub ctid_ptr: usize,
    pub inner: TaskControlBlockInner,
}

impl TaskStruct {
    pub open spec fn new_spec(pid: usize, tid: usize, clone_flags: usize, ctid_ptr: usize) -> TaskStruct {
        TaskStruct {
            pid,
            tid,
            clone_flags,
            ctid_ptr,
            inner: TaskControlBlockInner { task_status: TaskStatus::Ready, exit_code: None },
        }
    }

    /// A fresh thread of process `pid`, ready to run.
    pub fn new(pid: usize, tid: usize, clone_flags: usize, ctid_ptr: usize) -> (r: TaskStruct)
        ensures
            r == TaskStruct::new_spec(pid, tid, clone_flags, ctid_ptr),
    {
        TaskStruct {
            pid,
            tid,
            clone_flags,
            ctid_ptr,
            inner: TaskControlBlockInner { task_status: TaskStatus::Ready, exit_code: None },
        }
    }

    /// Exclusive access to the mutable part of the thread.
    pub fn inner_exclusive_access(&mut self) -> (r: &mut TaskControlBlockInner)
        ensures
            *r == old(self).inner,
            *final(self) == (TaskStruct { inner: *final(r), ..*old(self) }),
    {
        &mut self.inner
    }
}

} // verus!
