use wasmtime_mysql::cli::Preopen;
use wasmtime_mysql::host_files::{
    checked_len, checked_range, cstr_window, decode_cstr, host_consts, io_count_rc, io_errno,
    io_error_from_errno, neg_errno, plan_open, read_cstr, seek_position_rc, seek_target,
    truncate_size, FileErrno, OpenMode, PreopenTable, SeekTarget, MAX_PATH_LEN, WASI_O_APPEND,
    WASI_O_CREAT, WASI_O_DIRECTORY, WASI_O_EXCL, WASI_O_RDONLY, WASI_O_TRUNC, WASI_O_WRONLY,
};

fn table() -> PreopenTable {
    PreopenTable::new(None, &vec![Preopen { host: "/run".to_string(), guest: "/tmp".to_string() }])
        .unwrap()
}

#[test]
fn open_resolves_and_decodes_flags() {
    let req = plan_open(&table(), "/tmp/data/ibdata1", WASI_O_RDONLY | WASI_O_WRONLY).unwrap();
    assert_eq!(req.host_path, "/run/data/ibdata1");
    assert_eq!(
        req.mode,
        OpenMode { read: true, write: true, append: false, create: false, create_new: false, truncate: false }
    );
    let req = plan_open(&table(), "/tmp/log", WASI_O_WRONLY | WASI_O_CREAT | WASI_O_APPEND).unwrap();
    assert_eq!(
        req.mode,
        OpenMode { read: false, write: true, append: true, create: true, create_new: false, truncate: false }
    );
    let req = plan_open(&table(), "/tmp/new", WASI_O_WRONLY | WASI_O_CREAT | WASI_O_EXCL | WASI_O_TRUNC).unwrap();
    assert_eq!(
        req.mode,
        OpenMode { read: false, write: true, append: false, create: false, create_new: true, truncate: true }
    );
    let req = plan_open(&table(), "/tmp/plain", 0).unwrap();
    assert!(req.mode.read && !req.mode.write);
}

#[test]
fn open_errors_come_in_order() {
    assert_eq!(plan_open(&table(), "/etc/passwd", WASI_O_DIRECTORY).err(), Some(FileErrno::NotCapable));
    assert_eq!(plan_open(&table(), "", 0).err(), Some(FileErrno::NotFound));
    assert_eq!(plan_open(&table(), "/tmp/dir", WASI_O_DIRECTORY).err(), Some(FileErrno::IsDirectory));
}

#[test]
fn errno_values_come_from_the_host() {
    let c = host_consts();
    assert_eq!(FileErrno::NotFound.value_in(&c), libc::ENOENT);
    assert_eq!(FileErrno::IsDirectory.value(), libc::EISDIR);
    assert_eq!(FileErrno::BadDescriptor.value(), libc::EBADF);
    assert_eq!(FileErrno::NameTooLong.value(), libc::ENAMETOOLONG);
    assert_eq!(FileErrno::NotCapable.value(), 76);
    assert_eq!(neg_errno(libc::EINVAL), -libc::EINVAL);
}

#[test]
fn lengths_and_ranges_are_checked() {
    assert_eq!(checked_len(0), Ok(0));
    assert_eq!(checked_len(16 * 1024 * 1024), Ok(16 * 1024 * 1024));
    assert_eq!(checked_len(16 * 1024 * 1024 + 1), Err(FileErrno::Invalid));
    assert_eq!(checked_len(-1), Err(FileErrno::Invalid));
    assert_eq!(checked_range(10, 5, 100), Ok(10..15));
    assert_eq!(checked_range(96, 4, 100), Ok(96..100));
    assert_eq!(checked_range(96, 5, 100), Err(FileErrno::Fault));
    assert_eq!(checked_range(-1, 5, 100), Err(FileErrno::Fault));
    assert_eq!(checked_range(0, -5, 100), Err(FileErrno::Invalid));
}

#[test]
fn reads_guest_c_strings() {
    let mut memory = vec![0u8; 64];
    memory[8..17].copy_from_slice(b"/tmp/data");
    assert_eq!(read_cstr(&memory, 8).unwrap(), "/tmp/data");
    assert_eq!(read_cstr(&memory, 64), Err(FileErrno::Fault));
    assert_eq!(read_cstr(&memory, -1), Err(FileErrno::Fault));
    let unterminated = vec![b'a'; 10];
    assert_eq!(read_cstr(&unterminated, 0), Err(FileErrno::NameTooLong));
    let bad_utf8 = vec![0xff, 0xfe, 0];
    assert_eq!(read_cstr(&bad_utf8, 0), Err(FileErrno::Invalid));
    assert_eq!(decode_cstr("dätä\0rest".as_bytes()).unwrap(), "dätä");
}

#[test]
fn c_string_window_is_capped() {
    assert_eq!(cstr_window(4, 10), Ok(4..10));
    assert_eq!(cstr_window(0, 1 << 20), Ok(0..MAX_PATH_LEN));
    let long = vec![b'x'; MAX_PATH_LEN + 10];
    assert_eq!(read_cstr(&long, 0), Err(FileErrno::NameTooLong));
}

#[test]
fn seek_arguments_and_results() {
    let c = host_consts();
    assert_eq!(seek_target(5, libc::SEEK_SET, &c), Ok(SeekTarget::Start(5)));
    assert_eq!(seek_target(-5, libc::SEEK_SET, &c), Err(FileErrno::Invalid));
    assert_eq!(seek_target(-5, libc::SEEK_CUR, &c), Ok(SeekTarget::Current(-5)));
    assert_eq!(seek_target(3, libc::SEEK_END, &c), Ok(SeekTarget::End(3)));
    assert_eq!(seek_target(3, 77, &c), Err(FileErrno::Invalid));
    assert_eq!(seek_position_rc(42, &c), 42);
    assert_eq!(seek_position_rc(u64::MAX, &c), -(libc::EOVERFLOW as i64));
}

#[test]
fn transfer_counts_and_io_errors() {
    let c = host_consts();
    assert_eq!(io_count_rc(100, &c), 100);
    assert_eq!(io_count_rc(i32::MAX as usize + 1, &c), -libc::EOVERFLOW);
    assert_eq!(io_errno(Some(libc::ENOSPC), &c), libc::ENOSPC);
    assert_eq!(io_errno(None, &c), libc::EIO);
    assert_eq!(io_error_from_errno(libc::ENOENT).raw_os_error(), Some(libc::ENOENT));
    assert_eq!(truncate_size(10), Ok(10));
    assert_eq!(truncate_size(-1), Err(FileErrno::Invalid));
}

#[test]
fn host_constants_are_usable_as_error_results() {
    let c = host_consts();
    assert_eq!((c.seek_set, c.seek_cur, c.seek_end), (libc::SEEK_SET, libc::SEEK_CUR, libc::SEEK_END));
    assert_eq!((c.seek_set, c.seek_cur, c.seek_end), (0, 1, 2));
    for errno in [c.eagain, c.enoent, c.eisdir, c.ebadf, c.einval, c.efault, c.enametoolong, c.eoverflow, c.eio] {
        assert!(errno != 0 && errno > i32::MIN);
    }
    assert_eq!(c.eio, libc::EIO);
    assert_eq!(c.eagain, libc::EAGAIN);
}

#[test]
fn each_error_kind_has_its_host_errno() {
    assert_eq!(FileErrno::NotFound.value(), libc::ENOENT);
    assert_eq!(FileErrno::Invalid.value(), libc::EINVAL);
    assert_eq!(FileErrno::Fault.value(), libc::EFAULT);
    assert_eq!(FileErrno::Overflow.value(), libc::EOVERFLOW);
    assert_eq!(FileErrno::Io.value(), libc::EIO);
}
