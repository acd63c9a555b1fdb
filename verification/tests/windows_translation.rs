use wasmtime_mysql::bytes::{read_i64_le, write_i64_le};
use wasmtime_mysql::host_sockets::GuestPollFd;
use wasmtime_mysql::host_sockets_windows::{fionbio_request, translate_winsock_so_error, windows_pollfds, windows_revents};
use wasmtime_mysql::guest_errno as errno;
use wasmtime_mysql::host_sockets::HostSockets;
use wasmtime_mysql::host_sockets_windows::{
    checked_sockaddr_len, guest_poll_events_to_windows, guest_timeout_to_windows, is_guest_timeout,
    normalize_message_flags, normalize_socket_domain, normalize_socket_option, normalize_socket_type,
    set_status_flags, timeout_millis, windows_poll_events_to_guest, windows_timeout_to_guest,
    WinHostSocket, WinSocketType,
};

fn timeval(seconds: i64, micros: i64) -> Vec<u8> {
    let mut v = seconds.to_le_bytes().to_vec();
    v.extend_from_slice(&micros.to_le_bytes());
    v
}

#[test]
fn socket_types_and_domains() {
    assert_eq!(normalize_socket_type(6 | 0x4000), Ok(WinSocketType { ty: 1, nonblocking: true }));
    assert_eq!(normalize_socket_type(2 | 0x0800), Ok(WinSocketType { ty: 2, nonblocking: true }));
    assert_eq!(normalize_socket_type(1 | 0x2000), Ok(WinSocketType { ty: 1, nonblocking: false }));
    assert_eq!(normalize_socket_type(3), Err(errno::ENOTSUP));
    assert_eq!(normalize_socket_domain(1), 2);
    assert_eq!(normalize_socket_domain(2), 2);
    assert_eq!(normalize_socket_domain(10), 23);
    assert_eq!(normalize_socket_domain(7), 7);
}

#[test]
fn socket_options() {
    assert_eq!(normalize_socket_option(1, 2), (65535, 4));
    assert_eq!(normalize_socket_option(1, 4), (65535, 4103));
    assert_eq!(normalize_socket_option(1, 9), (65535, 8));
    assert_eq!(normalize_socket_option(1, 20), (65535, 4102));
    assert_eq!(normalize_socket_option(1, 21), (65535, 4101));
    assert_eq!(normalize_socket_option(1, 99), (65535, 99));
    assert_eq!(normalize_socket_option(0, 1), (0, 3));
    assert_eq!(normalize_socket_option(41, 26), (41, 27));
    assert_eq!(normalize_socket_option(6, 1), (6, 1));
    assert!(is_guest_timeout(1, 20));
    assert!(is_guest_timeout(1, 21));
    assert!(!is_guest_timeout(0, 20));
}

#[test]
fn timeouts_between_timeval_and_milliseconds() {
    assert_eq!(guest_timeout_to_windows(&timeval(2, 500_000)), 2_500u32.to_ne_bytes().to_vec());
    assert_eq!(guest_timeout_to_windows(&timeval(0, 1)), 1u32.to_ne_bytes().to_vec());
    assert_eq!(guest_timeout_to_windows(&timeval(-5, 0)), 0u32.to_ne_bytes().to_vec());
    assert_eq!(guest_timeout_to_windows(&timeval(i64::MAX, 0)), u32::MAX.to_ne_bytes().to_vec());
    assert_eq!(guest_timeout_to_windows(&[1, 2, 3]), vec![1, 2, 3]);
    assert_eq!(windows_timeout_to_guest(&2_500u32.to_ne_bytes(), 16), timeval(2, 500_000));
    assert_eq!(windows_timeout_to_guest(&[1, 2, 3, 4], 8), vec![1, 2, 3, 4]);
    assert_eq!(timeout_millis(1, -1_000), 999);
    assert_eq!(timeout_millis(i64::MIN, i64::MIN), 0);
}

#[test]
fn timeout_round_trip_keeps_milliseconds() {
    for ms in [0u32, 1, 999, 1_000, 123_456, u32::MAX] {
        let guest = windows_timeout_to_guest(&ms.to_ne_bytes(), 16);
        assert_eq!(guest_timeout_to_windows(&guest), ms.to_ne_bytes().to_vec());
    }
}

#[test]
fn poll_events_and_message_flags() {
    assert_eq!(guest_poll_events_to_windows(1 | 4), 768 | 16);
    assert_eq!(guest_poll_events_to_windows(2 | 8), 1024);
    assert_eq!(windows_poll_events_to_guest(768 | 1 | 2 | 4), 1 | 8 | 0x10 | 0x20);
    assert_eq!(windows_poll_events_to_guest(guest_poll_events_to_windows(0x7f)), 7);
    assert_eq!(normalize_message_flags(0x2 | 0x40 | 0x4000), 0x2);
}

#[test]
fn sockaddr_lengths() {
    assert_eq!(checked_sockaddr_len(16), Ok(16));
    assert_eq!(checked_sockaddr_len(u32::MAX), Err(errno::EINVAL));
    assert_eq!(checked_sockaddr_len(16 * 1024 * 1024 + 1), Err(errno::EINVAL));
}

#[test]
fn status_flags_are_recorded() {
    let mut sockets: HostSockets<WinHostSocket> = HostSockets::new();
    let fd = sockets.insert(WinHostSocket { raw_socket: 5, guest_domain: 2, host_domain: 2, status_flags: 0 });
    assert_eq!(set_status_flags(&mut sockets, fd, 0x4000), Ok(()));
    assert_eq!(sockets.get(fd).unwrap().status_flags, 0x4000);
    assert_eq!(set_status_flags(&mut sockets, fd + 1, 0), Err(errno::EBADF));
}

#[test]
fn whole_millisecond_timevals_come_back() {
    for (seconds, micros) in [(0i64, 0i64), (1, 1_000), (2, 500_000), (4_294_967, 295_000)] {
        let tv = timeval(seconds, micros);
        let windows = guest_timeout_to_windows(&tv);
        assert_eq!(windows_timeout_to_guest(&windows, 16), tv);
    }
}

#[test]
fn fcntl_nonblocking_requests() {
    assert_eq!(fionbio_request(0), 0);
    assert_eq!(fionbio_request(4), 1);
    assert_eq!(fionbio_request(-1), 1);
}

#[test]
fn poll_records_for_winsock() {
    let mut sockets: HostSockets<WinHostSocket> = HostSockets::new();
    let fd = sockets.insert(WinHostSocket { raw_socket: 77, guest_domain: 2, host_domain: 2, status_flags: 0 });
    let guest = vec![GuestPollFd { fd, events: 1 | 4 }, GuestPollFd { fd: -1, events: 1 }];
    assert_eq!(windows_pollfds(&guest, &sockets), Ok(vec![Some((77, 768 | 16)), None]));
    let stray = vec![GuestPollFd { fd: fd + 1, events: 1 }];
    assert_eq!(windows_pollfds(&stray, &sockets), Err(errno::EBADF));
    assert_eq!(windows_revents(None, 768), 0);
    assert_eq!(windows_revents(Some((77, 768)), 768 | 2), 1 | 0x10);
}

#[test]
fn winsock_so_error_is_translated() {
    let mut value = 10061i32.to_ne_bytes().to_vec();
    translate_winsock_so_error(1, 4, &mut value);
    assert_eq!(value, errno::ECONNREFUSED.to_ne_bytes().to_vec());
    let mut zero = 0i32.to_ne_bytes().to_vec();
    translate_winsock_so_error(1, 4, &mut zero);
    assert_eq!(zero, vec![0, 0, 0, 0]);
    let mut other = 10061i32.to_ne_bytes().to_vec();
    translate_winsock_so_error(6, 4, &mut other);
    assert_eq!(other, 10061i32.to_ne_bytes().to_vec());
}

#[test]
fn negative_i64_bytes_read_back() {
    for x in [-1i64, i64::MIN, -1_000, 0, 42, i64::MAX] {
        assert_eq!(write_i64_le(x), x.to_le_bytes());
        assert_eq!(read_i64_le(&write_i64_le(x)), x);
    }
}
