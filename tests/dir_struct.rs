use peach_kernel::dir_struct::DirStruct;
use peach_kernel::kernel::Kernel;

#[test]
fn working_path_follows_mkdir_and_rmdir() {
    let mut d = DirStruct::new(4);
    assert_eq!(d.getcwd(), b"/".to_vec());
    assert_eq!(d.get_current_inode(), 4);
    assert_eq!(d.chdir("/home"), 0);
    assert_eq!(d.getcwd(), b"/home".to_vec());
    assert_eq!(d.mkdirat("user", Some(9)), Some(9));
    assert_eq!(d.getcwd(), b"/home/user".to_vec());
    assert_eq!(d.mkdirat("x", None), None);
    assert_eq!(d.getcwd(), b"/home/user".to_vec());
    assert_eq!(d.rmdirat("user", Some(9)), Some(9));
    assert_eq!(d.getcwd(), b"/home".to_vec());
    assert_eq!(d.rmdirat("home", None), None);
    assert_eq!(d.getcwd(), b"/home".to_vec());
    assert_eq!(d.chdir("plain"), 0);
    assert_eq!(d.rmdirat("plain", Some(1)), Some(1));
    assert_eq!(d.getcwd(), b"plain".to_vec());
    assert_eq!(d.get_current_inode(), 4);
}

#[test]
fn fork_starts_child_at_root_of_same_directory() {
    let mut k = Kernel::new(7, 3);
    assert!(k.run_tasks());
    assert_eq!(k.procs[0].as_mut().unwrap().chdir("/bin"), 0);
    assert_eq!(k.procs[0].as_ref().unwrap().getcwd(), b"/bin".to_vec());
    assert_eq!(k.sys_fork(), 1);
    let child = k.procs[1].as_ref().unwrap();
    assert_eq!(child.getcwd(), b"/".to_vec());
    assert_eq!(child.inner.get_cwd(), b"/".to_vec());
    assert_eq!(child.inner.dir_struct.get_current_inode(), 3);
}
