use wasmtime_mysql::guest_errno::{
    self as errno, from_host_errno, from_windows_error, translate_host_errno, EACCES, EAGAIN, ENOENT,
};
use wasmtime_mysql::host_sockets_windows::socket_errno;

#[test]
fn maps_native_errno_to_the_guest_abi() {
    assert_eq!(from_host_errno(libc::EAGAIN), EAGAIN);
    assert_eq!(from_host_errno(libc::EACCES), EACCES);
    assert_eq!(from_host_errno(libc::ENOENT), ENOENT);
}

#[test]
fn maps_aliases_and_unknown_codes() {
    assert_eq!(from_host_errno(libc::EWOULDBLOCK), errno::EAGAIN);
    assert_eq!(from_host_errno(libc::EOPNOTSUPP), errno::ENOTSUP);
    assert_eq!(from_host_errno(libc::ENOTSUP), errno::ENOTSUP);
    assert_eq!(from_host_errno(libc::ETIMEDOUT), errno::ETIMEDOUT);
    assert_eq!(from_host_errno(libc::EIO), errno::EIO);
    assert_eq!(from_host_errno(0), errno::EIO);
    assert_eq!(from_host_errno(-5), errno::EIO);
}

#[test]
fn translation_uses_the_given_host_table() {
    let mut hosts = [0i32; 53];
    for (k, slot) in hosts.iter_mut().enumerate() {
        *slot = 1000 + k as i32;
    }
    assert_eq!(translate_host_errno(&hosts, 1000), errno::E2BIG);
    assert_eq!(translate_host_errno(&hosts, 1006), errno::EAGAIN);
    assert_eq!(translate_host_errno(&hosts, 1052), errno::ETIMEDOUT);
    assert_eq!(translate_host_errno(&hosts, 999), errno::EIO);
    hosts[1] = 1000;
    assert_eq!(translate_host_errno(&hosts, 1000), errno::E2BIG);
}

#[test]
fn maps_windows_system_errors() {
    assert_eq!(from_windows_error(2), errno::ENOENT);
    assert_eq!(from_windows_error(3), errno::ENOENT);
    assert_eq!(from_windows_error(5), errno::EACCES);
    assert_eq!(from_windows_error(6), errno::EBADF);
    assert_eq!(from_windows_error(14), errno::ENOMEM);
    assert_eq!(from_windows_error(19), errno::EROFS);
    assert_eq!(from_windows_error(32), errno::EBUSY);
    assert_eq!(from_windows_error(33), errno::EAGAIN);
    assert_eq!(from_windows_error(183), errno::EEXIST);
    assert_eq!(from_windows_error(87), errno::EINVAL);
    assert_eq!(from_windows_error(112), errno::ENOSPC);
    assert_eq!(from_windows_error(145), errno::ENOTEMPTY);
    assert_eq!(from_windows_error(267), errno::ENOTDIR);
    assert_eq!(from_windows_error(995), errno::EINTR);
    assert_eq!(from_windows_error(4), errno::EIO);
}

#[test]
fn maps_winsock_errors() {
    assert_eq!(socket_errno(0), 0);
    assert_eq!(socket_errno(10035), errno::EAGAIN);
    assert_eq!(socket_errno(10054), errno::ECONNRESET);
    assert_eq!(socket_errno(10058), errno::ENOTCONN);
    assert_eq!(socket_errno(10064), errno::EHOSTUNREACH);
    assert_eq!(socket_errno(10044), errno::ENOTSUP);
    assert_eq!(socket_errno(10046), errno::EAFNOSUPPORT);
    assert_eq!(socket_errno(12345), errno::EIO);
}
