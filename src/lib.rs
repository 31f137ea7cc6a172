//! The process, thread, scheduling and blocking-synchronisation core of a
//! small single-core teaching kernel, as verified executable code.

pub mod task;
pub mod wait_queue;
pub mod manager;
pub mod sync;
pub mod futex;
pub mod process;
pub mod fd_table;
pub mod dir_struct;
pub mod kernel;
pub mod syscall;
pub mod sync_call;
pub mod dispatch;
pub mod syscall_nr;

pub mod user;
pub mod user_space;
pub mod string;
pub mod exec;
