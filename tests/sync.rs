use peach_kernel::dispatch::SyscallOutcome;
use peach_kernel::futex::{futex_op_from, FutexOp};
use peach_kernel::kernel::Kernel;
use peach_kernel::sync::{Semaphore, MutexBlocking};
use peach_kernel::sync_call::EAGAIN;
use peach_kernel::syscall_nr;
use peach_kernel::task::TaskStatus;
use peach_kernel::user::{futex_mutex_lock, futex_mutex_unlock};
use peach_kernel::wait_queue::WaitQueue;

const FUTEX_WAIT: isize = 0;
const FUTEX_WAKE: isize = 1;

fn booted() -> Kernel {
    let mut k = Kernel::new(7, 1);
    assert!(k.run_tasks());
    k
}

fn status(k: &Kernel, h: usize) -> TaskStatus {
    k.tasks[h].unwrap().inner.task_status
}

#[test]
fn futex_wait_with_changed_word_returns_eagain() {
    let mut k = booted();
    assert_eq!(k.sys_thread_create(0x1000, 0), 1);
    assert_eq!(k.sys_futex(0x5000, FUTEX_WAIT, 2, 1), -EAGAIN);
    assert_eq!(k.current_task(), Some(0));
    assert_eq!(status(&k, 0), TaskStatus::Running);
    assert_eq!(k.sys_futex(0x5000, FUTEX_WAKE, 1, 0), 0);
    // Same word: the caller blocks and thread 1 runs.
    assert_eq!(k.sys_futex(0x5000, FUTEX_WAIT, 2, 2), 0);
    assert_eq!(k.current_task(), Some(1));
    assert_eq!(status(&k, 0), TaskStatus::Blocked);
    assert_eq!(k.sys_futex(0x5000, FUTEX_WAKE, 5, 0), 1);
    assert_eq!(status(&k, 0), TaskStatus::Ready);
    assert_eq!(k.sys_futex(0x5000, FUTEX_WAKE, 5, 0), 0);
    assert_eq!(k.sys_futex(0x5000, 3, 0, 0), -1);
    assert_eq!(k.sys_futex(0x5000, 99, 0, 0), -1);
}

#[test]
fn futex_op_codes_parse() {
    assert_eq!(futex_op_from(0), Ok(FutexOp::Wait));
    assert_eq!(futex_op_from(1), Ok(FutexOp::Wake));
    assert_eq!(futex_op_from(13), Ok(FutexOp::LockPi2));
    assert_eq!(futex_op_from(14), Err(()));
    assert_eq!(futex_op_from(-1), Err(()));
}

#[test]
fn semaphore_wakes_in_fifo_order() {
    let mut k = booted();
    for tid in 1..=3 {
        assert_eq!(k.sys_thread_create(0x1000, 0), tid);
    }
    assert_eq!(k.sys_semaphore_create(0), 0);
    // Threads 1, 2, 3 (handles 1, 2, 3) each block on down, in that order.
    k.sys_yield();
    for h in 1..=3 {
        assert_eq!(k.current_task(), Some(h));
        assert_eq!(k.sys_semaphore_down(0), 0);
        assert_eq!(status(&k, h), TaskStatus::Blocked);
    }
    assert_eq!(k.current_task(), Some(0));
    for _ in 0..3 {
        assert_eq!(k.sys_semaphore_up(0), 0);
    }
    let mut woken = Vec::new();
    for _ in 0..3 {
        k.sys_yield();
        woken.push(k.current_task().unwrap());
    }
    assert_eq!(woken, vec![1, 2, 3]);
    let s = k.procs[0].as_ref().unwrap().inner.semaphore_list[0].as_ref().unwrap();
    assert_eq!(s.inner.count, 0);
}

#[test]
fn semaphore_counts_units() {
    let mut s = Semaphore::new(2);
    assert!(!s.down(10));
    assert!(!s.down(11));
    assert!(s.down(12));
    assert_eq!(s.inner.count, -1);
    assert_eq!(s.up(), Some(12));
    assert_eq!(s.up(), None);
    assert_eq!(s.inner.count, 1);
}

#[test]
fn blocking_mutex_hands_over_to_oldest_waiter() {
    let mut m = MutexBlocking::new();
    assert!(!m.lock(1));
    assert!(m.lock(2));
    assert!(m.lock(3));
    assert_eq!(m.unlock(), Ok(Some(2)));
    assert!(m.locked);
    assert_eq!(m.unlock(), Ok(Some(3)));
    assert_eq!(m.unlock(), Ok(None));
    assert!(!m.locked);
    assert_eq!(m.unlock(), Err(()));
}

#[test]
fn mutex_syscalls() {
    let mut k = booted();
    assert_eq!(k.sys_thread_create(0x1000, 0), 1);
    assert_eq!(k.sys_mutex_create(true), 0);
    assert_eq!(k.sys_mutex_create(false), 1);
    assert_eq!(k.sys_mutex_unlock(0), -1);
    assert_eq!(k.sys_mutex_lock(0), 0);
    assert_eq!(k.sys_mutex_lock(1), 0);
    k.sys_yield();
    assert_eq!(k.current_task(), Some(1));
    // Spinning mutex held: yield and retry.
    assert_eq!(k.sys_mutex_lock(1), -2);
    assert_eq!(k.current_task(), Some(0));
    assert_eq!(k.sys_mutex_unlock(1), 0);
    k.sys_yield();
    assert_eq!(k.sys_mutex_lock(1), 0);
    // Blocking mutex held: block until handed over.
    assert_eq!(k.sys_mutex_lock(0), 0);
    assert_eq!(status(&k, 1), TaskStatus::Blocked);
    assert_eq!(k.current_task(), Some(0));
    assert_eq!(k.sys_mutex_unlock(0), 0);
    assert_eq!(status(&k, 1), TaskStatus::Ready);
    k.sys_yield();
    assert_eq!(k.current_task(), Some(1));
    assert_eq!(k.sys_mutex_unlock(0), 0);
    assert_eq!(k.sys_mutex_unlock(0), -1);
}

#[test]
fn condvar_wait_releases_mutex_and_signal_wakes() {
    let mut k = booted();
    assert_eq!(k.sys_thread_create(0x1000, 0), 1);
    assert_eq!(k.sys_mutex_create(true), 0);
    assert_eq!(k.sys_condvar_create(), 0);
    assert_eq!(k.sys_condvar_wait(0, 0), -1);
    assert_eq!(k.sys_mutex_lock(0), 0);
    assert_eq!(k.sys_condvar_wait(0, 0), 0);
    assert_eq!(status(&k, 0), TaskStatus::Blocked);
    assert_eq!(k.current_task(), Some(1));
    // The mutex was released.
    assert_eq!(k.sys_mutex_lock(0), 0);
    assert_eq!(k.current_task(), Some(1));
    assert_eq!(k.sys_condvar_signal(0), 0);
    assert_eq!(status(&k, 0), TaskStatus::Ready);
    assert_eq!(k.sys_condvar_signal(0), 0);
}

#[test]
fn dispatcher_routes_calls() {
    let mut k = booted();
    assert_eq!(k.syscall(syscall_nr::GETPID, [0; 6], 0), SyscallOutcome::Return(0));
    assert_eq!(k.syscall(syscall_nr::READ, [0; 6], 0), SyscallOutcome::Forward);
    assert_eq!(k.syscall(4242, [0; 6], 0), SyscallOutcome::Fatal);
    assert_eq!(k.syscall(syscall_nr::SEMAPHORE_UP, [3, 0, 0, 0, 0, 0], 0), SyscallOutcome::Fatal);
    assert_eq!(k.syscall(syscall_nr::MUTEX_LOCK, [0; 6], 0), SyscallOutcome::Fatal);
    assert_eq!(k.syscall(syscall_nr::WAIT4, [3, 0, 0, 0, 0, 0], 0), SyscallOutcome::Return(-1));
    assert_eq!(k.syscall(syscall_nr::SEMAPHORE_CREATE, [1, 0, 0, 0, 0, 0], 0), SyscallOutcome::Return(0));
    assert_eq!(k.syscall(syscall_nr::SEMAPHORE_DOWN, [0; 6], 0), SyscallOutcome::Return(0));
    assert_eq!(k.syscall(syscall_nr::CLONE, [0; 6], 0), SyscallOutcome::Return(1));
    assert_eq!(k.syscall(syscall_nr::WAIT4, [1, 0, 0, 0, 0, 0], 0), SyscallOutcome::Retry);
    assert_eq!(k.current_task(), Some(1));
    match k.syscall(syscall_nr::EXIT, [6, 0, 0, 0, 0, 0], 0) {
        SyscallOutcome::Exited(e) => assert_eq!(e.shutdown, None),
        other => panic!("unexpected {:?}", other),
    }
    assert_eq!(k.syscall(syscall_nr::WAIT4, [usize::MAX, 0, 0, 0, 0, 0], 0), SyscallOutcome::Reaped { pid: 1, exit_code: 6 << 8 });
    assert_eq!(k.syscall(syscall_nr::FUTEX, [0x10, 0, 1, 0, 0, 0], 2), SyscallOutcome::Return(-EAGAIN));
}

#[test]
fn wait_queue_is_fifo_under_its_lock() {
    let mut k = booted();
    let mut q = WaitQueue::new();
    let mut g = q.lock();
    let mut inner = k.tasks[0].unwrap().inner;
    g.add(&mut q, 4, &mut inner);
    assert_eq!(inner.task_status, TaskStatus::Blocked);
    g.add(&mut q, 5, &mut inner);
    assert_eq!(q.len(), 2);
    assert_eq!(g.take(&mut q), Some(4));
    assert_eq!(g.take(&mut q), Some(5));
    assert_eq!(g.take(&mut q), None);
    q.unlock(g);
    assert_eq!(k.sys_yield(), 0);
}

/// Three threads add +2, +1 and -1 under a futex-based user lock, 10 000
/// times each, with the timer preempting them at changing points.
#[test]
fn futex_lock_counter_is_exact() {
    #[derive(Clone, Copy, PartialEq, Debug)]
    enum Phase {
        Lock(bool),
        Critical,
        Unlock,
        Done,
    }
    const ADDR: usize = 0x7000;
    let mut k = booted();
    let deltas = [2i64, 1, -1];
    for tid in 1..=3 {
        assert_eq!(k.sys_thread_create(0x1000, 0), tid as isize);
    }
    let mut word: u8 = 0;
    let mut counter: i64 = 0;
    let mut phase = [Phase::Done, Phase::Lock(true), Phase::Lock(true), Phase::Lock(true)];
    let mut left = [0u32, 10_000, 10_000, 10_000];
    let mut joined = 0;
    let mut tick: u64 = 0;
    while joined < 3 {
        let h = k.current_task().expect("a thread runs");
        tick += 1;
        if h == 0 {
            match k.sys_waittid(joined + 1) {
                -2 => {
                    k.sys_yield();
                }
                code => {
                    assert_eq!(code, joined as isize + 1);
                    joined += 1;
                }
            }
            continue;
        }
        match phase[h] {
            Phase::Lock(first) => {
                if futex_mutex_lock(&mut word, first) {
                    phase[h] = Phase::Critical;
                } else {
                    phase[h] = Phase::Lock(false);
                    let r = k.sys_futex(ADDR, FUTEX_WAIT, 2, word as u32);
                    assert!(r == 0 || r == -EAGAIN);
                }
            }
            Phase::Critical => {
                counter += deltas[h - 1];
                phase[h] = Phase::Unlock;
            }
            Phase::Unlock => {
                if futex_mutex_unlock(&mut word) {
                    assert!(k.sys_futex(ADDR, FUTEX_WAKE, 1, 0) >= 0);
                }
                left[h] -= 1;
                if left[h] == 0 {
                    phase[h] = Phase::Done;
                    k.sys_exit(h as i32);
                    continue;
                }
                phase[h] = Phase::Lock(true);
            }
            Phase::Done => panic!("finished thread {} runs", h),
        }
        // Timer interrupt at varying points, inside and outside the lock.
        if tick % 7 == 0 || tick % 11 == 3 {
            k.sys_yield();
        }
    }
    assert_eq!(counter, 20_000);
    assert_eq!(word, 0);
}

/// The same three threads, under the kernel's blocking mutex.
#[test]
fn blocking_mutex_counter_is_exact() {
    #[derive(Clone, Copy, PartialEq, Debug)]
    enum Phase {
        Lock,
        Critical,
        Unlock,
        Done,
    }
    let mut k = booted();
    assert_eq!(k.sys_mutex_create(true), 0);
    let deltas = [2i64, 1, -1];
    for tid in 1..=3 {
        assert_eq!(k.sys_thread_create(0x1000, 0), tid as isize);
    }
    let mut counter: i64 = 0;
    let mut phase = [Phase::Done, Phase::Lock, Phase::Lock, Phase::Lock];
    let mut left = [0u32, 10_000, 10_000, 10_000];
    let mut joined = 0;
    let mut tick: u64 = 0;
    while joined < 3 {
        let h = k.current_task().expect("a thread runs");
        tick += 1;
        if h == 0 {
            match k.sys_waittid(joined + 1) {
                -2 => {
                    k.sys_yield();
                }
                code => {
                    assert_eq!(code, joined as isize + 1);
                    joined += 1;
                }
            }
            continue;
        }
        match phase[h] {
            Phase::Lock => {
                // Whether it got the mutex now or blocks until handed it,
                // the thread owns it when it next runs.
                assert_eq!(k.sys_mutex_lock(0), 0);
                phase[h] = Phase::Critical;
                if k.current_task() != Some(h) {
                    continue;
                }
            }
            Phase::Critical => {
                counter += deltas[h - 1];
                phase[h] = Phase::Unlock;
            }
            Phase::Unlock => {
                assert_eq!(k.sys_mutex_unlock(0), 0);
                left[h] -= 1;
                if left[h] == 0 {
                    phase[h] = Phase::Done;
                    k.sys_exit(h as i32);
                    continue;
                }
                phase[h] = Phase::Lock;
            }
            Phase::Done => panic!("finished thread {} runs", h),
        }
        if tick % 5 == 0 || tick % 13 == 4 {
            k.sys_yield();
        }
    }
    assert_eq!(counter, 20_000);
    let m = k.procs[0].as_ref().unwrap().inner.mutex_list[0].as_ref().unwrap();
    assert!(matches!(m, peach_kernel::sync::Mutex::Blocking(b) if !b.locked));
}
