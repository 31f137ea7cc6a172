use vstd::prelude::*;

verus! {

// System call numbers, as placed in register a7 by user code.
pub const GETCWD: usize = 17;

pub const DUP3: usize = 24;

pub const MKDIRAT: usize = 34;

pub const UNLINKAT: usize = 35;

pub const SYMLINKAT: usize = 36;

pub const LINKAT: usize = 37;

pub const CHDIR: usize = 49;

pub const FCHDIR: usize = 50;

pub const OPENAT: usize = 56;

pub const CLOSE: usize = 57;

pub const PIPE2: usize = 59;

pub const READ: usize = 63;

pub const WRITE: usize = 64;

pub const EXIT: usize = 93;

pub const FUTEX: usize = 98;

pub const NANOSLEEP: usize = 101;

pub const SCHED_YIELD: usize = 124;

pub const KILL: usize = 129;

pub const GETTIMEOFDAY: usize = 169;

pub const GETPID: usize = 172;

pub const GETPPID: usize = 173;

pub const GETTID: usize = 178;

pub const LISTEN: usize = 201;

pub const ACCEPT: usize = 202;

pub const CONNECT: usize = 203;

pub const BRK: usize = 214;

pub const MUNMAP: usize = 215;

pub const CLONE: usize = 220;

pub const EXECVE: usize = 221;

pub const MMAP: usize = 222;

pub const WAIT4: usize = 260;

pub const THREAD_CREATE: usize = 1000;

pub const WAITID: usize = 1002;

pub const MUTEX_CREATE: usize = 1010;

pub const MUTEX_LOCK: usize = 1011;

pub const MUTEX_UNLOCK: usize = 1012;

pub const SEMAPHORE_CREATE: usize = 1020;

pub const SEMAPHORE_UP: usize = 1021;

pub const SEMAPHORE_DOWN: usize = 1022;

pub const CONDVAR_CREATE: usize = 1030;

pub const CONDVAR_SIGNAL: usize = 1031;

pub const CONDVAR_WAIT: usize = 1032;

pub const FRAMEBUFFER: usize = 2000;

pub const FRAMEBUFFER_FLUSH: usize = 2001;

pub const EVENT_GET: usize = 3000;

pub const KEY_PRESSED: usize = 3001;

} // verus!
