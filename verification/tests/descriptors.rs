use wasmtime_mysql::fd_table::FdTable;
use wasmtime_mysql::host_files::{close, host_consts, GUEST_FD_BASE};

#[test]
fn hands_out_increasing_numbers_from_the_base() {
    let mut table: FdTable<&str> = FdTable::new(GUEST_FD_BASE);
    assert_eq!(table.insert("a"), 20_000);
    assert_eq!(table.insert("b"), 20_001);
    assert_eq!(table.get(20_000), Some(&"a"));
    assert_eq!(table.get(20_001), Some(&"b"));
    assert_eq!(table.get(20_002), None);
}

#[test]
fn closed_numbers_are_not_reused() {
    let mut table: FdTable<u8> = FdTable::new(5);
    let first = table.insert(1);
    assert_eq!(table.remove(first), Some(1));
    assert_eq!(table.remove(first), None);
    assert_eq!(table.insert(2), 6);
    assert_eq!(table.get(first), None);
}

#[test]
fn counter_is_held_at_the_largest_number() {
    let mut table: FdTable<u8> = FdTable::new(i32::MAX - 1);
    assert_eq!(table.insert(1), i32::MAX - 1);
    assert_eq!(table.insert(2), i32::MAX);
    assert_eq!(table.insert(3), i32::MAX);
    assert_eq!(table.get(i32::MAX), Some(&3));
}

#[test]
fn set_replaces_only_open_descriptors() {
    let mut table: FdTable<u8> = FdTable::new(0);
    let fd = table.insert(1);
    assert!(table.set(fd, 9));
    assert_eq!(table.get(fd), Some(&9));
    assert!(!table.set(fd + 1, 9));
    assert_eq!(table.get(fd + 1), None);
}

#[test]
fn close_reports_unknown_descriptors() {
    let consts = host_consts();
    let mut table: FdTable<u8> = FdTable::new(GUEST_FD_BASE);
    let fd = table.insert(1);
    assert_eq!(close(&mut table, fd, &consts), 0);
    assert_eq!(close(&mut table, fd, &consts), -libc::EBADF);
}

#[test]
fn numbers_count_the_inserts_since_the_base() {
    let mut table: FdTable<u8> = FdTable::new(GUEST_FD_BASE);
    let a = table.insert(1);
    let b = table.insert(2);
    table.remove(a);
    let c = table.insert(3);
    table.remove(c);
    table.remove(b);
    assert_eq!(table.insert(4), GUEST_FD_BASE + 3);
}
