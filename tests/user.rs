use peach_kernel::exec::exec_argv_layout;
use peach_kernel::process::Tms;
use peach_kernel::string::{str_to_u8, str_to_u8_array_10};
use peach_kernel::syscall_nr;
use peach_kernel::user::{
    futex_mutex_lock, futex_mutex_unlock, mmap, munmap, sbrk, sys_exit, sys_fork, sys_futex,
    sys_kill, sys_mutex_create, sys_read, sys_waitpid, MapProtect, SyscallRequest, ThreadType,
    TimeVal,
};
use peach_kernel::user_space::{__kernel, __user};

fn req(id: usize, a0: usize, a1: usize, a2: usize) -> SyscallRequest {
    SyscallRequest { id, a0, a1, a2 }
}

#[test]
fn requests_carry_number_and_registers() {
    assert_eq!(sys_fork(), req(syscall_nr::CLONE, 0, 0, 0));
    assert_eq!(sys_exit(-1), req(syscall_nr::EXIT, usize::MAX, 0, 0));
    assert_eq!(sys_kill(3, 9), req(syscall_nr::KILL, 3, 9, 0));
    assert_eq!(sys_read(1, 0x2000, 64), req(syscall_nr::READ, 1, 0x2000, 64));
    assert_eq!(sys_waitpid(-1, 0x30), req(syscall_nr::WAIT4, usize::MAX, 0x30, 0));
    assert_eq!(sys_mutex_create(true), req(syscall_nr::MUTEX_CREATE, 1, 0, 0));
    assert_eq!(sys_mutex_create(false), req(syscall_nr::MUTEX_CREATE, 0, 0, 0));
    assert_eq!(sys_futex(0x40, 1, 2, 7, 8, 9), req(syscall_nr::FUTEX, 0x40, 1, 2));
    assert_eq!(sbrk(-4096), req(syscall_nr::BRK, (-4096isize) as usize, 0, 0));
    assert_eq!(mmap(0x1000, 0x2000, MapProtect { bits: 3 }), req(syscall_nr::MMAP, 0x1000, 0x2000, 3));
    assert_eq!(munmap(0x1000), req(syscall_nr::MUNMAP, 0x1000, 0, 0));
}

#[test]
fn user_futex_lock_states() {
    let mut w: u8 = 0;
    assert!(futex_mutex_lock(&mut w, true));
    assert_eq!(w, 1);
    assert!(!futex_mutex_lock(&mut w, true));
    assert_eq!(w, 2);
    assert!(futex_mutex_unlock(&mut w));
    assert_eq!(w, 0);
    assert!(futex_mutex_lock(&mut w, false));
    assert_eq!(w, 2);
    let mut v: u8 = 1;
    assert!(!futex_mutex_unlock(&mut v));
    assert_eq!(v, 0);
}

#[test]
fn argv_layout_below_stack_top() {
    let l = exec_argv_layout(0x10000, &vec![3, 0]).unwrap();
    assert_eq!(l.argv_base, 0x10000 - 24);
    assert_eq!(l.arg_addrs, vec![0x10000 - 28, 0x10000 - 29]);
    assert_eq!(l.user_sp, (0x10000 - 29) & !7);
    assert!(exec_argv_layout(16, &vec![1]).is_none());
    assert!(exec_argv_layout(24, &vec![8]).is_none());
    let e = exec_argv_layout(64, &vec![]).unwrap();
    assert_eq!((e.argv_base, e.user_sp), (56, 56));
}

#[test]
fn strings_to_bytes() {
    let mut t = [9u8; 6];
    assert_eq!(str_to_u8("abc", &mut t), 0);
    assert_eq!(t, [b'a', b'b', b'c', 9, 0, 9]);
    assert_eq!(str_to_u8("", &mut t), -1);
    assert_eq!(str_to_u8_array_10("PeachOS"), *b"PeachOS\0\0\0");
    assert_eq!(str_to_u8_array_10("riscv64-unknown"), *b"riscv64-un");
    assert_eq!(str_to_u8_array_10(""), [0u8; 10]);
}

#[test]
fn small_values() {
    assert_eq!(TimeVal { sec: 3, usec: 9 }.as_millis(), 3000);
    let t = ThreadType::new(0x44);
    assert_eq!((t.ptid, t.ctid, t.args, t.ret), (u32::MAX, u32::MAX, 0x44, None));
    assert_eq!(t.stack.len(), 2048);
    assert!(t.stack.iter().all(|b| *b == 0));
    let z = Tms::new();
    assert_eq!(z.tms_systime + z.tms_usrtime + z.tms_child_systime + z.tms_child_usrtime, 0);
    assert_eq!(__user::new(5usize).inner(), 5);
    assert_eq!(__kernel::new(-3i32).inner(), -3);
}
