use peach_kernel::kernel::{Kernel, INIT_PID};
use peach_kernel::process::Privilege;
use peach_kernel::syscall::{SIGFPE, SIGILL, SIGSEGV};

fn booted() -> Kernel {
    let mut k = Kernel::new(7, 1);
    assert!(k.run_tasks());
    k
}

#[test]
fn fork_exit_wait_returns_shifted_code_once() {
    let mut k = booted();
    let child = k.sys_fork();
    assert_eq!(child, 1);
    // Parent yields; the child runs and exits with 3.
    assert_eq!(k.sys_yield(), 0);
    assert_eq!(k.current_task(), Some(1));
    let out = k.sys_exit(3);
    assert_eq!(out.shutdown, None);
    assert_eq!(k.current_task(), Some(0));
    assert_eq!(k.waitpid(-1), (1, 3 << 8));
    assert_eq!(k.waitpid(1), (-1, 0));
    assert_eq!(k.waitpid(-1), (-1, 0));
    assert!(!k.is_live(1));
    assert_eq!(k.current_process(), INIT_PID);
}

#[test]
fn reaped_child_leaves_no_reference() {
    let mut k = booted();
    assert_eq!(k.sys_fork(), 1);
    assert_eq!(k.sys_fork(), 2);
    k.sys_yield(); // child 1 runs
    assert_eq!(k.current_task(), Some(1));
    k.sys_exit(0x1ff);
    // child 2 runs next, then exits
    assert_eq!(k.current_task(), Some(2));
    k.sys_exit(5);
    assert_eq!(k.current_task(), Some(0));
    assert_eq!(k.waitpid(2), (2, 5 << 8));
    assert!(k.procs[2].is_none());
    assert!(k.tasks[2].is_none());
    assert!(k.procs[0].as_ref().unwrap().inner.children.iter().all(|c| *c != 2));
    // The low eight bits only.
    assert_eq!(k.waitpid(-1), (1, 0xff << 8));
    assert!(k.tasks[1].is_none());
    assert_eq!(k.waitpid(-1), (-1, 0));
}

#[test]
fn wait_for_running_child_would_block() {
    let mut k = booted();
    assert_eq!(k.sys_fork(), 1);
    assert_eq!(k.waitpid(1), (-2, 0));
    assert_eq!(k.waitpid(5), (-1, 0));
    assert_eq!(k.waitpid(-7), (-1, 0));
    // wait4 yields to the child on -2.
    assert_eq!(k.sys_wait4(1), (-2, 0));
    assert_eq!(k.current_task(), Some(1));
    k.sys_exit(9);
    assert_eq!(k.current_task(), Some(0));
    assert_eq!(k.sys_wait4(1), (1, 9 << 8));
}

#[test]
fn orphans_go_to_init() {
    let mut k = booted();
    assert_eq!(k.sys_fork(), 1);
    k.sys_yield();
    assert_eq!(k.current_task(), Some(1));
    // Process 1 forks two children of its own.
    assert_eq!(k.sys_fork(), 2);
    assert_eq!(k.sys_fork(), 3);
    assert_eq!(k.procs[1].as_ref().unwrap().inner.children, vec![2, 3]);
    k.sys_exit(1);
    let init = k.procs[0].as_ref().unwrap();
    assert_eq!(init.inner.children, vec![1, 2, 3]);
    assert_eq!(k.procs[2].as_ref().unwrap().inner.parent, Some(INIT_PID));
    assert_eq!(k.procs[3].as_ref().unwrap().inner.parent, Some(INIT_PID));
    let zombie = k.procs[1].as_ref().unwrap();
    assert!(zombie.inner.is_zombie);
    assert!(zombie.inner.children.is_empty());
    assert!(zombie.inner.fd_table.is_empty());
}

#[test]
fn init_exit_shuts_down() {
    let mut k = booted();
    let out = k.sys_exit(0);
    assert_eq!(out.shutdown, Some(false));
    assert_eq!(k.current_task(), Some(0));
    let out = k.sys_exit(4);
    assert_eq!(out.shutdown, Some(true));
}

#[test]
fn round_robin_keeps_cyclic_order() {
    let mut k = booted();
    assert_eq!(k.sys_fork(), 1);
    assert_eq!(k.sys_fork(), 2);
    assert_eq!(k.sys_fork(), 3);
    let mut seen = Vec::new();
    for _ in 0..12 {
        seen.push(k.current_task().unwrap());
        assert_eq!(k.sys_yield(), 0);
    }
    assert_eq!(seen, vec![0, 1, 2, 3, 0, 1, 2, 3, 0, 1, 2, 3]);
}

#[test]
fn exited_thread_is_joined_once() {
    let mut k = booted();
    let tid = k.sys_thread_create(0x1000, 0);
    assert_eq!(tid, 1);
    assert_eq!(k.sys_waittid(1), -2);
    assert_eq!(k.sys_waittid(0), -1);
    assert_eq!(k.sys_waittid(9), -1);
    k.sys_yield();
    assert_eq!(k.current_task(), Some(1));
    assert_eq!(k.sys_gettid(), 1);
    assert_eq!(k.sys_getpid(), 0);
    k.sys_exit(0x1234);
    assert_eq!(k.current_task(), Some(0));
    // The slot is vacated on exit; the thread waits in the table to be joined.
    assert_eq!(k.procs[0].as_ref().unwrap().inner.tasks[1], None);
    assert!(k.tasks[1].is_some());
    assert_eq!(k.sys_waittid(1), 0x34);
    assert!(k.tasks[1].is_none());
    assert_eq!(k.sys_waittid(1), -1);
    // The vacated id is handed out again.
    assert_eq!(k.sys_thread_create(0x1000, 0), 1);
}

#[test]
fn clone_without_vm_forks_and_settid_needs_pointer() {
    let mut k = booted();
    assert_eq!(k.sys_clone(0, 0, 0, 0, 0), 1);
    let flags = 0x100 | 0x100000;
    assert_eq!(k.sys_clone(flags, 0x8000, 0, 0, 0), -1);
    // A process with two thread slots cannot fork.
    assert_eq!(k.sys_clone(flags, 0x8000, 0x4000, 0, 0), 1);
    assert_eq!(k.sys_fork(), -1);
}

#[test]
fn kill_marks_live_process_only() {
    let mut k = booted();
    assert_eq!(k.sys_kill(0, 1 << 2), 0);
    assert_eq!(k.procs[0].as_ref().unwrap().inner.signals, 1 << 2);
    assert_eq!(k.sys_kill(0, 1 << 3), -1);
    assert_eq!(k.sys_kill(4, 1 << 2), -1);
    assert_eq!(k.sys_kill(0, 1 << 11), 0);
    assert_eq!(k.procs[0].as_ref().unwrap().inner.signals, (1 << 2) | (1 << 11));
}

#[test]
fn close_and_dup_descriptors() {
    let mut k = booted();
    assert_eq!(k.sys_close(1), 0);
    assert_eq!(k.sys_close(1), -1);
    assert_eq!(k.sys_close(8), -1);
    assert_eq!(k.sys_dup(0), 1);
    assert_eq!(k.sys_dup(0), 3);
    assert_eq!(k.sys_dup(7), -1);
    assert_eq!(k.procs[0].as_ref().unwrap().inner.fd_table, vec![Some(7), Some(7), Some(7), Some(7)]);
}

#[test]
fn child_copies_descriptors() {
    let mut k = booted();
    assert_eq!(k.sys_close(2), 0);
    assert_eq!(k.sys_fork(), 1);
    assert_eq!(k.procs[1].as_ref().unwrap().inner.fd_table, vec![Some(7), Some(7), None]);
    assert_eq!(k.procs[1].as_ref().unwrap().inner.parent, Some(0));
}

#[test]
fn times_count_zombie_children() {
    let mut k = booted();
    assert_eq!(k.sys_fork(), 1);
    k.procs[1].as_mut().unwrap().inner.times.tms_systime = 300;
    k.procs[1].as_mut().unwrap().inner.times.tms_usrtime = 500;
    k.procs[0].as_mut().unwrap().inner.times.tms_systime = 1000;
    assert!(k.sys_times(0, 100).is_none());
    let t = k.sys_times(0x3000, 100).unwrap();
    assert_eq!((t.tms_systime, t.tms_child_systime, t.tms_child_usrtime), (10, 0, 0));
    k.sys_yield();
    k.sys_exit(0);
    let t = k.sys_times(0x3000, 100).unwrap();
    assert_eq!((t.tms_systime, t.tms_child_systime, t.tms_child_usrtime), (10, 3, 5));
    assert_eq!(k.waitpid(1), (1, 0));
    // Reaping charges the child's system time to the parent's own.
    let t = k.sys_times(0x3000, 100).unwrap();
    assert_eq!((t.tms_systime, t.tms_child_systime, t.tms_child_usrtime), (13, 0, 0));
    assert_eq!(k.procs[0].as_ref().unwrap().inner.times.tms_systime, 1300);
}

#[test]
fn process_tables_and_wakeups() {
    let mut k = booted();
    assert_eq!(k.sys_thread_create(0x1000, 0), 1);
    assert_eq!(k.sys_thread_create(0x1000, 0), 2);
    {
        let pcb = k.procs[0].as_mut().unwrap();
        assert_eq!(pcb.getpid(), 0);
        let inner = pcb.inner_exclusive_access();
        assert_eq!(inner.thread_count(), 3);
        assert_eq!(inner.get_task(2), Some(2));
        assert_eq!(inner.get_task(5), None);
        inner.dealloc_tid(1);
        assert_eq!(inner.get_task(1), None);
        assert_eq!(inner.alloc_tid(), 1);
        inner.fd_table[0] = None;
        assert_eq!(inner.alloc_fd(), 0);
        inner.fd_table[0] = Some(1);
        assert_eq!(inner.alloc_fd(), 3);
        assert_eq!(inner.fd_table.len(), 4);
    }
    // Waking a thread that is not blocked changes nothing.
    k.wakeup_task(2);
    k.wakeup_task(99);
    let t = k.tasks[2].as_mut().unwrap();
    assert_eq!(t.inner_exclusive_access().get_status(), peach_kernel::task::TaskStatus::Ready);
    let mut seen = Vec::new();
    for _ in 0..3 {
        k.sys_yield();
        seen.push(k.current_task().unwrap());
    }
    assert_eq!(seen, vec![1, 2, 0]);
}

#[test]
fn pending_signals_decide_exit_code() {
    let mut k = booted();
    assert_eq!(k.check_signals_of_current(), None);
    k.current_add_signal(SIGSEGV);
    assert_eq!(k.check_signals_of_current(), Some(-11));
    k.current_add_signal(SIGFPE);
    assert_eq!(k.check_signals_of_current(), Some(-8));
    assert_eq!(k.sys_kill(0, SIGILL), 0);
    assert_eq!(k.check_signals_of_current(), Some(-4));
    k.accumulate_systime(40);
    k.accumulate_systime(usize::MAX);
    assert_eq!(k.procs[0].as_ref().unwrap().inner.times.tms_systime, usize::MAX);
}

#[test]
fn loaded_process_has_no_parent() {
    let mut k = booted();
    assert_eq!(k.new_process(Privilege::Kernel, 7, 1), Some(1));
    let p = k.procs[1].as_ref().unwrap();
    assert_eq!(p.inner.parent, None);
    assert_eq!(p.inner.privilege, Privilege::Kernel);
    assert_eq!(p.inner.tasks, vec![Some(1)]);
    assert_eq!(p.inner.fd_table, vec![Some(7), Some(7), Some(7)]);
    assert!(k.procs[0].as_ref().unwrap().inner.children.is_empty());
    assert_eq!(k.waitpid(1), (-1, 0));
    k.sys_yield();
    assert_eq!(k.current_task(), Some(1));
    assert_eq!(k.sys_getpid(), 1);
}

#[test]
fn exec_needs_single_thread_slot() {
    let mut k = booted();
    let l = k.exec(0x10000, &vec![3]).unwrap();
    assert_eq!((l.argv_base, l.user_sp), (0x10000 - 16, (0x10000 - 20) & !7));
    assert_eq!(k.sys_thread_create(0x1000, 0), 1);
    assert!(k.exec(0x10000, &vec![3]).is_none());
}

#[test]
fn exiting_thread_wakes_clear_tid_waiter() {
    let mut k = booted();
    // Thread 1 clears and wakes at 0x900 on exit.
    let flags = 0x100 | 0x200000;
    assert_eq!(k.sys_clone(flags, 0x8000, 0, 0, 0x900), 1);
    // Main thread waits on 0x900 (word still 1); thread 1 runs.
    assert_eq!(k.sys_futex(0x900, 0, 1, 1), 0);
    assert_eq!(k.current_task(), Some(1));
    let out = k.sys_exit(0);
    assert_eq!(out.clear_child_tid, Some(0x900));
    assert_eq!(k.current_task(), Some(0));
    assert_eq!(k.sys_waittid(1), 0);
}
