use peach_kernel::fd_table::FdTable;

#[test]
fn descriptors_recycle_smallest_first() {
    let mut t = FdTable::new();
    assert_eq!(t.alloc_fd(-1), Some(0));
    assert_eq!(t.alloc_fd(-1), Some(1));
    assert_eq!(t.alloc_fd(-1), Some(2));
    t.dealloc_fd(2);
    t.dealloc_fd(1);
    assert_eq!(t.len(), 3);
    assert_eq!(t.alloc_fd(-1), Some(1));
    assert_eq!(t.alloc_fd(-1), Some(2));
    assert_eq!(t.alloc_fd(-1), Some(3));
}

#[test]
fn descriptors_by_number() {
    let mut t = FdTable::new();
    assert_eq!(t.alloc_fd(-1), Some(0));
    assert_eq!(t.alloc_fd(1), Some(1));
    assert_eq!(t.alloc_fd(1), None);
    assert_eq!(t.alloc_fd(0), None);
    assert_eq!(t.len(), 2);
    // The bound steps over descriptor 1, asked for by number.
    assert_eq!(t.alloc_fd(-1), Some(2));
    t.dealloc_fd(1);
    assert_eq!(t.alloc_fd(1), Some(1));
    assert_eq!(t.alloc_fd(1), None);
    assert_eq!(t.len(), 3);
}

#[test]
fn descriptor_files() {
    let mut t = FdTable::new();
    assert_eq!(t.alloc_fd(-1), Some(0));
    assert!(!t.contains(0));
    assert!(!t.contains(4));
    t.get_mut(0, Some(9));
    assert!(t.contains(0));
    assert_eq!(t.get(0), Some(9));
    let c = t.clone();
    assert_eq!(c.get(0), Some(9));
    assert_eq!(c.len(), 1);
    t.dealloc_fd(0);
    assert_eq!(t.get(0), None);
    assert!(!t.contains(0));
    assert_eq!(c.get(0), Some(9));
    t.clear();
    assert_eq!(t.len(), 0);
    assert_eq!(t.alloc_fd(-1), Some(0));
}
