use vstd::prelude::*;

use crate::syscall_nr::{
    ACCEPT, BRK, CLONE, CLOSE, CONDVAR_CREATE, CONDVAR_SIGNAL, CONDVAR_WAIT, CONNECT, DUP3,
    EVENT_GET, EXECVE, EXIT, FRAMEBUFFER, FRAMEBUFFER_FLUSH, FUTEX, GETPID, GETTID, GETTIMEOFDAY,
    KEY_PRESSED, KILL, LISTEN, MMAP, MUNMAP, MUTEX_CREATE, MUTEX_LOCK, MUTEX_UNLOCK, NANOSLEEP,
    OPENAT, PIPE2, READ, SCHED_YIELD, SEMAPHORE_CREATE, SEMAPHORE_DOWN, SEMAPHORE_UP, THREAD_CREATE,
    WAIT4, WAITID, WRITE,
};

verus! {

/// A system call as user code issues it: the number goes to register a7,
/// the arguments to a0, a1 and a2. The trap instruction itself is the
/// caller's; its a0 on return is the call's result.
#[derive(Clone, Copy, Debug, PartialEq, Eq, Structural)]
pub struct SyscallRequest {
    pub id: usize,
    pub a0: usize,
    pub a1: usize,
    pub a2: usize,
}

/// Memory protection bits of `mmap`: read 1, write 2, execute 4.
#[derive(Clone, Copy, Debug, PartialEq, Eq, Structural)]
pub struct MapProtect {
    pub bits: u8,
}

/// Seconds and microseconds since the epoch.
#[derive(Clone, Copy, Debug, PartialEq, Eq, Structural)]
pub struct TimeVal {
    pub sec: u64,
    pub usec: u64,
}

impl TimeVal {
    /// The time in milliseconds, from whole seconds, as `sys_get_time`
    /// reports it.
    pub fn as_millis(&self) -> (r: isize)
        requires
            self.sec * 1000 <= isize::MAX,
        ensures
            r == self.sec * 1000,
    {
        (self.sec as isize) * 1000
    }
}

fn request(id: usize, a0: usize, a1: usize, a2: usize) -> (r: SyscallRequest)
    ensures
        r == (SyscallRequest { id, a0, a1, a2 }),
{
    SyscallRequest { id, a0, a1, a2 }
}

/// Duplicates descriptor `fd`.
pub fn sys_dup(fd: usize) -> (r: SyscallRequest)
    ensures
        r == (SyscallRequest { id: DUP3, a0: fd, a1: 0usize, a2: 0usize }),
{
    request(DUP3, fd, 0, 0)
}

/// Connects to `dest` from port `sport` to port `dport`.
pub fn sys_connect(dest: u32, sport: u16, dport: u16) -> (r: SyscallRequest)
    ensures
        r == (SyscallRequest { id: CONNECT, a0: dest as usize, a1: sport as usize, a2: dport as usize }),
{
    request(CONNECT, dest as usize, sport as usize, dport as usize)
}

/// Listens for TCP connections on port `sport`.
pub fn sys_listen(sport: u16) -> (r: SyscallRequest)
    ensures
        r == (SyscallRequest { id: LISTEN, a0: sport as usize, a1: 0usize, a2: 0usize }),
{
    request(LISTEN, sport as usize, 0, 0)
}

/// Accepts a connection on `socket_fd`.
pub fn sys_accept(socket_fd: usize) -> (r: SyscallRequest)
    ensures
        r == (SyscallRequest { id: ACCEPT, a0: socket_fd, a1: 0usize, a2: 0usize }),
{
    request(ACCEPT, socket_fd, 0, 0)
}

/// Opens the NUL-terminated path at user address `path`.
pub fn sys_open(path: usize, flags: u32) -> (r: SyscallRequest)
    ensures
        r == (SyscallRequest { id: OPENAT, a0: path, a1: flags as usize, a2: 0usize }),
{
    request(OPENAT, path, flags as usize, 0)
}

/// Closes descriptor `fd`.
pub fn sys_close(fd: usize) -> (r: SyscallRequest)
    ensures
        r == (SyscallRequest { id: CLOSE, a0: fd, a1: 0usize, a2: 0usize }),
{
    request(CLOSE, fd, 0, 0)
}

/// Creates a pipe; its two descriptors go to the array at `pipe`.
pub fn sys_pipe(pipe: usize) -> (r: SyscallRequest)
    ensures
        r == (SyscallRequest { id: PIPE2, a0: pipe, a1: 0usize, a2: 0usize }),
{
    request(PIPE2, pipe, 0, 0)
}

/// Reads up to `len` bytes from `fd` into the buffer at `buffer`.
pub fn sys_read(fd: usize, buffer: usize, len: usize) -> (r: SyscallRequest)
    ensures
        r == (SyscallRequest { id: READ, a0: fd, a1: buffer, a2: len }),
{
    request(READ, fd, buffer, len)
}

/// Writes `len` bytes at `buffer` to `fd`.
pub fn sys_write(fd: usize, buffer: usize, len: usize) -> (r: SyscallRequest)
    ensures
        r == (SyscallRequest { id: WRITE, a0: fd, a1: buffer, a2: len }),
{
    request(WRITE, fd, buffer, len)
}

/// Ends the calling thread with `exit_code`; the call does not return.
pub fn sys_exit(exit_code: i32) -> (r: SyscallRequest)
    ensures
        r == (SyscallRequest { id: EXIT, a0: exit_code as usize, a1: 0usize, a2: 0usize }),
{
    request(EXIT, exit_code as usize, 0, 0)
}

/// Sleeps for the duration in the `TimeVal` at `time`.
pub fn sys_sleep(time: usize) -> (r: SyscallRequest)
    ensures
        r == (SyscallRequest { id: NANOSLEEP, a0: time, a1: 0usize, a2: 0usize }),
{
    request(NANOSLEEP, time, 0, 0)
}

/// Gives up the core.
pub fn sys_yield() -> (r: SyscallRequest)
    ensures
        r == (SyscallRequest { id: SCHED_YIELD, a0: 0usize, a1: 0usize, a2: 0usize }),
{
    request(SCHED_YIELD, 0, 0, 0)
}

/// Sends `signal` to process `pid`.
pub fn sys_kill(pid: usize, signal: i32) -> (r: SyscallRequest)
    ensures
        r == (SyscallRequest { id: KILL, a0: pid, a1: signal as usize, a2: 0usize }),
{
    request(KILL, pid, signal as usize, 0)
}

/// Fills the `TimeVal` at `time` with the current time.
pub fn sys_get_time(time: usize) -> (r: SyscallRequest)
    ensures
        r == (SyscallRequest { id: GETTIMEOFDAY, a0: time, a1: 0usize, a2: 0usize }),
{
    request(GETTIMEOFDAY, time, 0, 0)
}

/// Pid of the calling process.
pub fn sys_getpid() -> (r: SyscallRequest)
    ensures
        r == (SyscallRequest { id: GETPID, a0: 0usize, a1: 0usize, a2: 0usize }),
{
    request(GETPID, 0, 0, 0)
}

/// Forks the calling process.
pub fn sys_fork() -> (r: SyscallRequest)
    ensures
        r == (SyscallRequest { id: CLONE, a0: 0usize, a1: 0usize, a2: 0usize }),
{
    request(CLONE, 0, 0, 0)
}

/// Runs the program at `path` with the NULL-terminated argument array at `args`.
pub fn sys_exec(path: usize, args: usize) -> (r: SyscallRequest)
    ensures
        r == (SyscallRequest { id: EXECVE, a0: path, a1: args, a2: 0usize }),
{
    request(EXECVE, path, args, 0)
}

/// Waits for child `pid` (-1: any); its status goes to `exit_code` unless null.
pub fn sys_waitpid(pid: isize, exit_code: usize) -> (r: SyscallRequest)
    ensures
        r == (SyscallRequest { id: WAIT4, a0: pid as usize, a1: exit_code, a2: 0usize }),
{
    request(WAIT4, pid as usize, exit_code, 0)
}

/// Starts a thread at `entry` with argument `arg`.
pub fn sys_thread_create(entry: usize, arg: usize) -> (r: SyscallRequest)
    ensures
        r == (SyscallRequest { id: THREAD_CREATE, a0: entry, a1: arg, a2: 0usize }),
{
    request(THREAD_CREATE, entry, arg, 0)
}

/// Thread id of the calling thread.
pub fn sys_gettid() -> (r: SyscallRequest)
    ensures
        r == (SyscallRequest { id: GETTID, a0: 0usize, a1: 0usize, a2: 0usize }),
{
    request(GETTID, 0, 0, 0)
}

/// Joins thread `tid`.
pub fn sys_waittid(tid: usize) -> (r: SyscallRequest)
    ensures
        r == (SyscallRequest { id: WAITID, a0: tid, a1: 0usize, a2: 0usize }),
{
    request(WAITID, tid, 0, 0)
}

/// Creates a mutex, blocking or spinning.
pub fn sys_mutex_create(blocking: bool) -> (r: SyscallRequest)
    ensures
        r == (SyscallRequest { id: MUTEX_CREATE, a0: (if blocking { 1usize } else { 0usize }), a1: 0usize, a2: 0usize }),
{
    request(MUTEX_CREATE, if blocking { 1 } else { 0 }, 0, 0)
}

/// Locks mutex `id`.
pub fn sys_mutex_lock(id: usize) -> (r: SyscallRequest)
    ensures
        r == (SyscallRequest { id: MUTEX_LOCK, a0: id, a1: 0usize, a2: 0usize }),
{
    request(MUTEX_LOCK, id, 0, 0)
}

/// Unlocks mutex `id`.
pub fn sys_mutex_unlock(id: usize) -> (r: SyscallRequest)
    ensures
        r == (SyscallRequest { id: MUTEX_UNLOCK, a0: id, a1: 0usize, a2: 0usize }),
{
    request(MUTEX_UNLOCK, id, 0, 0)
}

/// Futex operation `futex_op` on `uaddr`; only the first three arguments are passed.
pub fn sys_futex(uaddr: usize, futex_op: usize, val: usize, val2: usize, uaddr2: usize, val3: usize) -> (r: SyscallRequest)
    ensures
        r == (SyscallRequest { id: FUTEX, a0: uaddr, a1: futex_op, a2: val }),
{
    request(FUTEX, uaddr, futex_op, val)
}

/// Creates a semaphore holding `res_count` units.
pub fn sys_semaphore_create(res_count: usize) -> (r: SyscallRequest)
    ensures
        r == (SyscallRequest { id: SEMAPHORE_CREATE, a0: res_count, a1: 0usize, a2: 0usize }),
{
    request(SEMAPHORE_CREATE, res_count, 0, 0)
}

/// Releases a unit of semaphore `sem_id`.
pub fn sys_semaphore_up(sem_id: usize) -> (r: SyscallRequest)
    ensures
        r == (SyscallRequest { id: SEMAPHORE_UP, a0: sem_id, a1: 0usize, a2: 0usize }),
{
    request(SEMAPHORE_UP, sem_id, 0, 0)
}

/// Takes a unit of semaphore `sem_id`.
pub fn sys_semaphore_down(sem_id: usize) -> (r: SyscallRequest)
    ensures
        r == (SyscallRequest { id: SEMAPHORE_DOWN, a0: sem_id, a1: 0usize, a2: 0usize }),
{
    request(SEMAPHORE_DOWN, sem_id, 0, 0)
}

/// Creates a condition variable.
pub fn sys_condvar_create() -> (r: SyscallRequest)
    ensures
        r == (SyscallRequest { id: CONDVAR_CREATE, a0: 0usize, a1: 0usize, a2: 0usize }),
{
    request(CONDVAR_CREATE, 0, 0, 0)
}

/// Wakes a waiter of condition variable `condvar_id`.
pub fn sys_condvar_signal(condvar_id: usize) -> (r: SyscallRequest)
    ensures
        r == (SyscallRequest { id: CONDVAR_SIGNAL, a0: condvar_id, a1: 0usize, a2: 0usize }),
{
    request(CONDVAR_SIGNAL, condvar_id, 0, 0)
}

/// Waits on `condvar_id`, releasing mutex `mutex_id`.
pub fn sys_condvar_wait(condvar_id: usize, mutex_id: usize) -> (r: SyscallRequest)
    ensures
        r == (SyscallRequest { id: CONDVAR_WAIT, a0: condvar_id, a1: mutex_id, a2: 0usize }),
{
    request(CONDVAR_WAIT, condvar_id, mutex_id, 0)
}

/// Maps the frame buffer.
pub fn sys_framebuffer() -> (r: SyscallRequest)
    ensures
        r == (SyscallRequest { id: FRAMEBUFFER, a0: 0usize, a1: 0usize, a2: 0usize }),
{
    request(FRAMEBUFFER, 0, 0, 0)
}

/// Flushes the frame buffer.
pub fn sys_framebuffer_flush() -> (r: SyscallRequest)
    ensures
        r == (SyscallRequest { id: FRAMEBUFFER_FLUSH, a0: 0usize, a1: 0usize, a2: 0usize }),
{
    request(FRAMEBUFFER_FLUSH, 0, 0, 0)
}

/// Takes the next input event.
pub fn sys_event_get() -> (r: SyscallRequest)
    ensures
        r == (SyscallRequest { id: EVENT_GET, a0: 0usize, a1: 0usize, a2: 0usize }),
{
    request(EVENT_GET, 0, 0, 0)
}

/// Whether a key is pressed.
pub fn sys_key_pressed() -> (r: SyscallRequest)
    ensures
        r == (SyscallRequest { id: KEY_PRESSED, a0: 0usize, a1: 0usize, a2: 0usize }),
{
    request(KEY_PRESSED, 0, 0, 0)
}

/// Moves the program break by `size`.
pub fn sys_sbrk(size: isize) -> (r: SyscallRequest)
    ensures
        r == (SyscallRequest { id: BRK, a0: size as usize, a1: 0usize, a2: 0usize }),
{
    request(BRK, size as usize, 0, 0)
}

/// Maps `len` bytes at `addr` with protection `prot`.
pub fn sys_mmap(addr: usize, len: usize, prot: MapProtect) -> (r: SyscallRequest)
    ensures
        r == (SyscallRequest { id: MMAP, a0: addr, a1: len, a2: prot.bits as usize }),
{
    request(MMAP, addr, len, prot.bits as usize)
}

/// Unmaps the area at `addr`.
pub fn sys_munmap(addr: usize) -> (r: SyscallRequest)
    ensures
        r == (SyscallRequest { id: MUNMAP, a0: addr, a1: 0usize, a2: 0usize }),
{
    request(MUNMAP, addr, 0, 0)
}

/// The break moved by `size` (see `sys_sbrk`).
pub fn sbrk(size: isize) -> (r: SyscallRequest)
    ensures
        r == (SyscallRequest { id: BRK, a0: size as usize, a1: 0usize, a2: 0usize }),
{
    sys_sbrk(size)
}

/// A mapping (see `sys_mmap`).
pub fn mmap(addr: usize, len: usize, prot: MapProtect) -> (r: SyscallRequest)
    ensures
        r == (SyscallRequest { id: MMAP, a0: addr, a1: len, a2: prot.bits as usize }),
{
    sys_mmap(addr, len, prot)
}

/// An unmapping (see `sys_munmap`).
pub fn munmap(addr: usize) -> (r: SyscallRequest)
    ensures
        r == (SyscallRequest { id: MUNMAP, a0: addr, a1: 0usize, a2: 0usize }),
{
    sys_munmap(addr)
}

/// The futex wait request on `uaddr`: block while the word there is
/// `expected`.
pub fn futex_wait(uaddr: usize, expected: u32) -> (r: SyscallRequest)
    ensures
        r == (SyscallRequest { id: FUTEX, a0: uaddr, a1: 0usize, a2: expected as usize }),
{
    sys_futex(uaddr, 0, expected as usize, 0, 0, 0)
}

/// The futex wake request on `uaddr` for up to `count` waiters.
pub fn futex_wake(uaddr: usize, count: usize) -> (r: SyscallRequest)
    ensures
        r == (SyscallRequest { id: FUTEX, a0: uaddr, a1: 1usize, a2: count }),
{
    sys_futex(uaddr, 1, count, 0, 0, 0)
}

/// One attempt to take a user-space futex lock whose word is `m`: 0 free,
/// 1 held, 2 held with possible waiters. On the first attempt the word is
/// swapped with 1 and, when it was not free, restored; every attempt then
/// swaps it with 2. `true`: the lock is taken. `false`: the caller issues
/// `futex_wait(addr, 2)` and tries again, no longer first.
pub fn futex_mutex_lock(m: &mut u8, first: bool) -> (r: bool)
    ensures
        r == (*old(m) == 0),
        *final(m) == if first && *old(m) == 0 { 1u8 } else { 2u8 },
{
    if first {
        let c = *m;
        *m = 1;
        if c == 0 {
            return true;
        }
        *m = c;
    }
    let c = *m;
    *m = 2;
    c == 0
}

/// Releases a user-space futex lock whose word is `m` (it must be held).
/// The word becomes 0; `true` when it was 2, i.e. a waiter may sleep and
/// the caller issues `futex_wake(addr, 1)`.
pub fn futex_mutex_unlock(m: &mut u8) -> (r: bool)
    requires
        *old(m) != 0,
    ensures
        *final(m) == 0,
        r == (*old(m) != 1),
{
    let c = *m;
    *m = c - 1;
    if c != 1 {
        *m = 0;
        true
    } else {
        false
    }
}

/// Bookkeeping of a thread started with `clone`: the ids the kernel stores,
/// its argument, the result of its body, and its stack.
pub struct ThreadType {
    pub ptid: u32,
    pub ctid: u32,
    pub args: usize,
    pub ret: Option<i32>,
    pub stack: [u8; 2048],
}

impl ThreadType {
    /// A thread not yet started: both ids at `u32::MAX`, no result, a
    /// zeroed stack.
    pub fn new(args: usize) -> (r: ThreadType)
        ensures
            r.ptid == u32::MAX,
            r.ctid == u32::MAX,
            r.args == args,
            r.ret.is_none(),
            r.stack@.len() == 2048,
            forall|i: int| 0 <= i < 2048 ==> r.stack@[i] == 0u8,
    {
        ThreadType { ptid: u32::MAX, ctid: u32::MAX, args, ret: None, stack: [0u8; 2048] }
    }
}

} // verus!
