use vstd::prelude::*;

use crate::kernel::{ExitOutcome, Kernel};
use crate::syscall_nr::{
    ACCEPT, BRK, CHDIR, CLONE, CLOSE, CONDVAR_CREATE, CONDVAR_SIGNAL, CONDVAR_WAIT, CONNECT, DUP3,
    EVENT_GET, EXECVE, EXIT, FCHDIR, FRAMEBUFFER, FRAMEBUFFER_FLUSH, FUTEX, GETCWD, GETPID, GETPPID,
    GETTID, GETTIMEOFDAY, KEY_PRESSED, KILL, LINKAT, LISTEN, MKDIRAT, MMAP, MUNMAP, MUTEX_CREATE,
    MUTEX_LOCK, MUTEX_UNLOCK, NANOSLEEP, OPENAT, PIPE2, READ, SCHED_YIELD, SEMAPHORE_CREATE,
    SEMAPHORE_DOWN, SEMAPHORE_UP, SYMLINKAT, THREAD_CREATE, UNLINKAT, WAIT4, WAITID, WRITE,
};

verus! {

/// What the trap layer does once a system call has been decided.
#[derive(Clone, Copy, Debug, PartialEq, Eq, Structural)]
pub enum SyscallOutcome {
    /// Resume the caller with this value in register a0.
    Return(isize),
    /// `wait4` reaped child `pid`: a0 gets `pid`, and `exit_code` is stored
    /// at the caller's status pointer when it is not null.
    Reaped { pid: isize, exit_code: i32 },
    /// The calling thread exited.
    Exited(ExitOutcome),
    /// The call must wait (no child has exited yet, or a spinning mutex is
    /// held): the caller has yielded, and the trap layer issues the same
    /// call again once it runs. No value reaches user code.
    Retry,
    /// A call served outside this core (files, memory, time, devices,
    /// network): hand it on unchanged.
    Forward,
    /// An unknown call number, or an object id that the kernel never handed
    /// out: a broken kernel invariant, on which the kernel panics.
    Fatal,
}

/// Numbers of the calls served outside this core.
pub open spec fn forwarded(id: usize) -> bool {
    id == OPENAT || id == PIPE2 || id == READ || id == WRITE || id == GETCWD || id == CHDIR
        || id == FCHDIR || id == MKDIRAT || id == UNLINKAT || id == SYMLINKAT || id == LINKAT
        || id == BRK || id == MMAP || id == MUNMAP || id == EXECVE || id == NANOSLEEP
        || id == GETTIMEOFDAY || id == GETPPID || id == CONNECT || id == LISTEN || id == ACCEPT
        || id == FRAMEBUFFER || id == FRAMEBUFFER_FLUSH || id == EVENT_GET || id == KEY_PRESSED
}

/// Numbers of the calls this core serves.
pub open spec fn served(id: usize) -> bool {
    id == DUP3 || id == CLOSE || id == EXIT || id == FUTEX || id == SCHED_YIELD || id == KILL
        || id == GETPID || id == GETTID || id == CLONE || id == WAIT4 || id == THREAD_CREATE
        || id == WAITID || id == MUTEX_CREATE || id == MUTEX_LOCK || id == MUTEX_UNLOCK
        || id == SEMAPHORE_CREATE || id == SEMAPHORE_UP || id == SEMAPHORE_DOWN
        || id == CONDVAR_CREATE || id == CONDVAR_SIGNAL || id == CONDVAR_WAIT
}

impl Kernel {
    /// Whether semaphore `id` of the running process exists.
    fn has_semaphore(&self, id: usize) -> (r: bool)
        requires
            self.wf(),
            self.processor@ is Some,
        ensures
            r == self.sem_valid(id),
    {
        let p = self.current_process();
        let l = &self.procs[p].as_ref().unwrap().inner.semaphore_list;
        id < l.len() && l[id].is_some()
    }

    /// Whether mutex `id` of the running process exists.
    fn has_mutex(&self, id: usize) -> (r: bool)
        requires
            self.wf(),
            self.processor@ is Some,
        ensures
            r == self.mutex_valid(id),
    {
        let p = self.current_process();
        let l = &self.procs[p].as_ref().unwrap().inner.mutex_list;
        id < l.len() && l[id].is_some()
    }

    /// Whether condition variable `id` of the running process exists.
    fn has_condvar(&self, id: usize) -> (r: bool)
        requires
            self.wf(),
            self.processor@ is Some,
        ensures
            r == self.condvar_valid(id),
    {
        let p = self.current_process();
        let l = &self.procs[p].as_ref().unwrap().inner.condvar_list;
        id < l.len() && l[id].is_some()
    }

    /// Serves system call `syscall_id` of the running thread with argument
    /// registers `args`. `word` is the 32-bit user value at `args[0]`, which
    /// only a futex wait reads.
    pub fn syscall(&mut self, syscall_id: usize, args: [usize; 6], word: u32) -> (r: SyscallOutcome)
        requires
            old(self).wf(),
            old(self).processor@ is Some,
        ensures
            final(self).wf(),
            !served(syscall_id) && forwarded(syscall_id) ==> r == SyscallOutcome::Forward && *final(self) == *old(self),
            !served(syscall_id) && !forwarded(syscall_id) ==> r == SyscallOutcome::Fatal && *final(self) == *old(self),
            syscall_id == GETPID ==> r == SyscallOutcome::Return(old(self).cur_pid() as isize),
            syscall_id == GETTID ==> *final(self) == *old(self) && r == SyscallOutcome::Return(
                if old(self).task(old(self).processor@->0 as int).tid <= isize::MAX {
                    old(self).task(old(self).processor@->0 as int).tid as isize
                } else {
                    -1isize
                }),
            syscall_id == SCHED_YIELD ==> (r matches SyscallOutcome::Return(x) && Kernel::sys_yield_post(*old(self), *final(self), x)),
            syscall_id == DUP3 ==> (r matches SyscallOutcome::Return(x) && Kernel::sys_dup_post(*old(self), *final(self), args[0], x)),
            syscall_id == CLOSE ==> (r matches SyscallOutcome::Return(x) && Kernel::sys_close_post(*old(self), *final(self), args[0], x)),
            syscall_id == EXIT ==> (r matches SyscallOutcome::Exited(e) && Kernel::sys_exit_post(*old(self), *final(self), args[0] as i32, e)),
            syscall_id == FUTEX ==> (r matches SyscallOutcome::Return(x) && Kernel::sys_futex_post(*old(self), *final(self), args[0],
                args[1] as isize, args[2] as u32, word, x)),
            syscall_id == KILL ==> (r matches SyscallOutcome::Return(x) && Kernel::sys_kill_post(*old(self), *final(self), args[0],
                args[1] as u32, x)),
            syscall_id == CLONE ==> (r matches SyscallOutcome::Return(x) && Kernel::sys_clone_post(*old(self), *final(self), args[0],
                args[1], args[2], args[3], args[4], x)),
            syscall_id == WAIT4 ==> (r matches SyscallOutcome::Reaped { pid, exit_code } && pid >= 0 && Kernel::sys_wait4_post(
                *old(self), *final(self), args[0] as isize, (pid, exit_code)))
                || (r == SyscallOutcome::Return(-1isize) && Kernel::sys_wait4_post(*old(self), *final(self), args[0] as isize, (-1isize, 0i32)))
                || (r == SyscallOutcome::Retry && Kernel::sys_wait4_post(*old(self), *final(self), args[0] as isize, (-2isize, 0i32))),
            syscall_id == THREAD_CREATE ==> (r matches SyscallOutcome::Return(x) && Kernel::sys_thread_create_post(*old(self), *final(self),
                args[0], args[1], x)),
            syscall_id == WAITID ==> (r matches SyscallOutcome::Return(x) && Kernel::sys_waittid_post(*old(self), *final(self), args[0], x)),
            syscall_id == MUTEX_CREATE ==> (r matches SyscallOutcome::Return(x) && Kernel::sys_mutex_create_post(*old(self), *final(self),
                args[0] == 1, x)),
            syscall_id == MUTEX_LOCK && old(self).mutex_valid(args[0]) ==> (r matches SyscallOutcome::Return(x) && x != -2
                && Kernel::sys_mutex_lock_post(*old(self), *final(self), args[0], x))
                || (r == SyscallOutcome::Retry && Kernel::sys_mutex_lock_post(*old(self), *final(self), args[0], -2isize)),
            syscall_id == MUTEX_UNLOCK && old(self).mutex_valid(args[0]) ==> (r matches SyscallOutcome::Return(x)
                && Kernel::sys_mutex_unlock_post(*old(self), *final(self), args[0], x)),
            syscall_id == SEMAPHORE_CREATE ==> (r matches SyscallOutcome::Return(x) && Kernel::sys_semaphore_create_post(*old(self),
                *final(self), args[0], x)),
            syscall_id == SEMAPHORE_UP && old(self).sem_valid(args[0]) ==> (r matches SyscallOutcome::Return(x)
                && Kernel::sys_semaphore_up_post(*old(self), *final(self), args[0], x)),
            syscall_id == SEMAPHORE_DOWN && old(self).sem_valid(args[0]) ==> (r matches SyscallOutcome::Return(x)
                && Kernel::sys_semaphore_down_post(*old(self), *final(self), args[0], x)),
            syscall_id == CONDVAR_CREATE ==> (r matches SyscallOutcome::Return(x) && Kernel::sys_condvar_create_post(*old(self),
                *final(self), x)),
            syscall_id == CONDVAR_SIGNAL && old(self).condvar_valid(args[0]) ==> (r matches SyscallOutcome::Return(x)
                && Kernel::sys_condvar_signal_post(*old(self), *final(self), args[0], x)),
            syscall_id == CONDVAR_WAIT && old(self).condvar_valid(args[0]) && old(self).mutex_valid(args[1]) ==> (
                r matches SyscallOutcome::Return(x) && Kernel::sys_condvar_wait_post(*old(self), *final(self), args[0], args[1], x)),
            syscall_id == SEMAPHORE_UP && !old(self).sem_valid(args[0]) ==> r == SyscallOutcome::Fatal && *final(self) == *old(self),
            syscall_id == SEMAPHORE_DOWN && !old(self).sem_valid(args[0]) ==> r == SyscallOutcome::Fatal && *final(self) == *old(self),
            syscall_id == MUTEX_LOCK && !old(self).mutex_valid(args[0]) ==> r == SyscallOutcome::Fatal && *final(self) == *old(self),
            syscall_id == MUTEX_UNLOCK && !old(self).mutex_valid(args[0]) ==> r == SyscallOutcome::Fatal && *final(self) == *old(self),
            syscall_id == CONDVAR_SIGNAL && !old(self).condvar_valid(args[0]) ==> r == SyscallOutcome::Fatal && *final(self) == *old(self),
            syscall_id == CONDVAR_WAIT && !(old(self).condvar_valid(args[0]) && old(self).mutex_valid(args[1]))
                ==> r == SyscallOutcome::Fatal && *final(self) == *old(self),
    {
        if syscall_id == DUP3 {
            SyscallOutcome::Return(self.sys_dup(args[0]))
        } else if syscall_id == CLOSE {
            SyscallOutcome::Return(self.sys_close(args[0]))
        } else if syscall_id == EXIT {
            SyscallOutcome::Exited(self.sys_exit(args[0] as i32))
        } else if syscall_id == FUTEX {
            SyscallOutcome::Return(self.sys_futex(args[0], args[1] as isize, args[2] as u32, word))
        } else if syscall_id == SCHED_YIELD {
            SyscallOutcome::Return(self.sys_yield())
        } else if syscall_id == KILL {
            SyscallOutcome::Return(self.sys_kill(args[0], args[1] as u32))
        } else if syscall_id == GETPID {
            SyscallOutcome::Return(self.sys_getpid())
        } else if syscall_id == GETTID {
            SyscallOutcome::Return(self.sys_gettid())
        } else if syscall_id == CLONE {
            SyscallOutcome::Return(self.sys_clone(args[0], args[1], args[2], args[3], args[4]))
        } else if syscall_id == WAIT4 {
            let (pid, exit_code) = self.sys_wait4(args[0] as isize);
            proof {
                reveal(Kernel::waitpid_post);
            }
            if pid >= 0 {
                SyscallOutcome::Reaped { pid, exit_code }
            } else if pid == -2 {
                SyscallOutcome::Retry
            } else {
                SyscallOutcome::Return(pid)
            }
        } else if syscall_id == THREAD_CREATE {
            SyscallOutcome::Return(self.sys_thread_create(args[0], args[1]))
        } else if syscall_id == WAITID {
            SyscallOutcome::Return(self.sys_waittid(args[0]))
        } else if syscall_id == MUTEX_CREATE {
            SyscallOutcome::Return(self.sys_mutex_create(args[0] == 1))
        } else if syscall_id == MUTEX_LOCK {
            if !self.has_mutex(args[0]) {
                return SyscallOutcome::Fatal;
            }
            let x = self.sys_mutex_lock(args[0]);
            if x == -2 {
                SyscallOutcome::Retry
            } else {
                SyscallOutcome::Return(x)
            }
        } else if syscall_id == MUTEX_UNLOCK {
            if !self.has_mutex(args[0]) {
                return SyscallOutcome::Fatal;
            }
            SyscallOutcome::Return(self.sys_mutex_unlock(args[0]))
        } else if syscall_id == SEMAPHORE_CREATE {
            SyscallOutcome::Return(self.sys_semaphore_create(args[0]))
        } else if syscall_id == SEMAPHORE_UP {
            if !self.has_semaphore(args[0]) {
                return SyscallOutcome::Fatal;
            }
            SyscallOutcome::Return(self.sys_semaphore_up(args[0]))
        } else if syscall_id == SEMAPHORE_DOWN {
            if !self.has_semaphore(args[0]) {
                return SyscallOutcome::Fatal;
            }
            SyscallOutcome::Return(self.sys_semaphore_down(args[0]))
        } else if syscall_id == CONDVAR_CREATE {
            SyscallOutcome::Return(self.sys_condvar_create())
        } else if syscall_id == CONDVAR_SIGNAL {
            if !self.has_condvar(args[0]) {
                return SyscallOutcome::Fatal;
            }
            SyscallOutcome::Return(self.sys_condvar_signal(args[0]))
        } else if syscall_id == CONDVAR_WAIT {
            if !self.has_condvar(args[0]) || !self.has_mutex(args[1]) {
                return SyscallOutcome::Fatal;
            }
            SyscallOutcome::Return(self.sys_condvar_wait(args[0], args[1]))
        } else if syscall_id == OPENAT || syscall_id == PIPE2 || syscall_id == READ || syscall_id == WRITE
            || syscall_id == GETCWD || syscall_id == CHDIR || syscall_id == FCHDIR || syscall_id == MKDIRAT
            || syscall_id == UNLINKAT || syscall_id == SYMLINKAT || syscall_id == LINKAT || syscall_id == BRK
            || syscall_id == MMAP || syscall_id == MUNMAP || syscall_id == EXECVE || syscall_id == NANOSLEEP
            || syscall_id == GETTIMEOFDAY || syscall_id == GETPPID || syscall_id == CONNECT || syscall_id == LISTEN
            || syscall_id == ACCEPT || syscall_id == FRAMEBUFFER || syscall_id == FRAMEBUFFER_FLUSH
            || syscall_id == EVENT_GET || syscall_id == KEY_PRESSED {
            SyscallOutcome::Forward
        } else {
            SyscallOutcome::Fatal
        }
    }
}

} // verus!
