use wasmtime_mysql::host_sockets::checked_reported_len;
use wasmtime_mysql::guest_errno as errno;
use wasmtime_mysql::host_sockets::{
    checked_len, checked_poll_count, checked_range, cvt_i32, cvt_ssize, denormalize_sockaddr_for_guest,
    fcntl_command, guest_errno_of_os_error, guest_status_flags, has_host_sock_cloexec,
    has_host_sock_nonblock, host_pollfds, host_socket_flag_mask, host_status_flags,
    is_guest_socket_level, neg_errno, normalize_sockaddr_for_host, normalize_socket_domain,
    normalize_socket_level, normalize_socket_type, parse_pollfds, revents_ptr, translate_so_error,
    write_sockaddr_family, FcntlCommand, GuestPollFd, HostSocket, HostSockets, NormalizedSocketType,
    WASI_SOL_SOCKET,
};
use wasmtime_mysql::HostSocketConsts;

/// The socket values of this (Linux) host's C library.
fn host_socket_consts() -> HostSocketConsts {
    HostSocketConsts {
        sock_stream: libc::SOCK_STREAM,
        sock_dgram: libc::SOCK_DGRAM,
        sock_cloexec: libc::SOCK_CLOEXEC,
        sock_nonblock: libc::SOCK_NONBLOCK,
        af_inet: libc::AF_INET,
        af_inet6: libc::AF_INET6,
        sol_socket: libc::SOL_SOCKET,
        o_nonblock: libc::O_NONBLOCK,
    }
}

#[test]
fn translates_wasi_sol_socket_to_the_host_value() {
    let c = host_socket_consts();
    assert_eq!(normalize_socket_level(WASI_SOL_SOCKET, &c), libc::SOL_SOCKET);
}

#[test]
fn socket_levels() {
    let c = host_socket_consts();
    assert!(is_guest_socket_level(1));
    assert!(is_guest_socket_level(WASI_SOL_SOCKET));
    assert!(!is_guest_socket_level(0));
    assert_eq!(normalize_socket_level(1, &c), libc::SOL_SOCKET);
    assert_eq!(normalize_socket_level(libc::IPPROTO_TCP, &c), libc::IPPROTO_TCP);
}

#[test]
fn socket_types_in_both_encodings() {
    let c = host_socket_consts();
    assert_eq!(
        normalize_socket_type(6 | 0x4000, &c),
        Ok(NormalizedSocketType { ty: libc::SOCK_STREAM, close_on_exec: false, nonblocking: true })
    );
    assert_eq!(
        normalize_socket_type(libc::SOCK_DGRAM | libc::SOCK_CLOEXEC, &c),
        Ok(NormalizedSocketType { ty: libc::SOCK_DGRAM, close_on_exec: true, nonblocking: false })
    );
    assert_eq!(
        normalize_socket_type(5 | 0x2000, &c),
        Ok(NormalizedSocketType { ty: libc::SOCK_DGRAM, close_on_exec: true, nonblocking: false })
    );
    assert_eq!(normalize_socket_type(3, &c), Err(errno::EOPNOTSUPP));
    assert_eq!(host_socket_flag_mask(&c), libc::SOCK_CLOEXEC | libc::SOCK_NONBLOCK);
    assert!(has_host_sock_cloexec(libc::SOCK_CLOEXEC, &c));
    assert!(has_host_sock_nonblock(libc::SOCK_NONBLOCK, &c));
    assert!(!has_host_sock_nonblock(0, &c));
}

#[test]
fn socket_domains() {
    let c = host_socket_consts();
    assert_eq!(normalize_socket_domain(1, &c), libc::AF_INET);
    assert_eq!(normalize_socket_domain(libc::AF_INET6, &c), libc::AF_INET6);
    assert_eq!(normalize_socket_domain(99, &c), 99);
}

#[test]
fn socket_table_lookups() {
    let mut sockets: HostSockets<HostSocket> = HostSockets::new();
    let s = HostSocket { raw_fd: 3, guest_domain: 1, host_domain: libc::AF_INET };
    let fd = sockets.insert(s);
    assert_eq!(fd, 10_000);
    assert_eq!(sockets.get(fd), Ok(s));
    assert_eq!(sockets.get(fd + 1), Err(errno::EBADF));
    assert_eq!(sockets.remove(fd), Ok(s));
    assert_eq!(sockets.remove(fd), Err(errno::EBADF));
    let a = sockets.insert(s);
    let b = sockets.insert(HostSocket { raw_fd: 4, ..s });
    assert_eq!((a, b), (10_001, 10_002));
    let mut all = sockets.drain();
    all.sort_by_key(|s| s.raw_fd);
    assert_eq!(all.iter().map(|s| s.raw_fd).collect::<Vec<_>>(), vec![3, 4]);
    assert_eq!(sockets.get(a), Err(errno::EBADF));
}

#[test]
fn checks_guest_lengths() {
    assert_eq!(checked_len(-1), Err(errno::EINVAL));
    assert_eq!(checked_range(-1, 1, 10), Err(errno::EFAULT));
    assert_eq!(checked_range(8, 4, 10), Err(errno::EFAULT));
    assert_eq!(checked_range(6, 4, 10), Ok(6..10));
    assert_eq!(checked_poll_count(16_384), Ok(16_384));
    assert_eq!(checked_poll_count(16_385), Err(errno::EINVAL));
    assert_eq!(checked_poll_count(-1), Err(errno::EINVAL));
    assert_eq!(neg_errno(errno::EBADF), -8);
}

#[test]
fn sockaddr_family_is_rewritten_in_place() {
    let mut addr = vec![1u8, 0, 0x0c, 0xeb, 127, 0, 0, 1];
    normalize_sockaddr_for_host(&mut addr, libc::AF_INET);
    assert_eq!(&addr[..2], &(libc::AF_INET as u16).to_ne_bytes());
    assert_eq!(&addr[2..], &[0x0c, 0xeb, 127, 0, 0, 1]);
    denormalize_sockaddr_for_guest(&mut addr, 1);
    assert_eq!(&addr[..2], &1u16.to_ne_bytes());
    let mut short = vec![7u8];
    write_sockaddr_family(&mut short, 2);
    assert_eq!(short, vec![7]);
    let mut addr = vec![9u8, 9, 9];
    write_sockaddr_family(&mut addr, 70_000);
    assert_eq!(addr, vec![9, 9, 9]);
}

#[test]
fn fcntl_status_flags() {
    let c = host_socket_consts();
    assert_eq!(fcntl_command(3), FcntlCommand::GetFlags);
    assert_eq!(fcntl_command(4), FcntlCommand::SetFlags);
    assert_eq!(fcntl_command(1), FcntlCommand::Unsupported);
    assert_eq!(guest_status_flags(libc::O_NONBLOCK | libc::O_RDWR, &c), 4);
    assert_eq!(guest_status_flags(libc::O_RDWR, &c), 0);
    assert_eq!(host_status_flags(libc::O_RDWR, 4, &c), libc::O_RDWR | libc::O_NONBLOCK);
    assert_eq!(host_status_flags(libc::O_RDWR | libc::O_NONBLOCK, 0, &c), libc::O_RDWR);
}

#[test]
fn poll_records_are_parsed_and_mapped() {
    let mut bytes = Vec::new();
    bytes.extend_from_slice(&10_000i32.to_le_bytes());
    bytes.extend_from_slice(&1i16.to_le_bytes());
    bytes.extend_from_slice(&0i16.to_le_bytes());
    bytes.extend_from_slice(&(-1i32).to_le_bytes());
    bytes.extend_from_slice(&(-2i16).to_le_bytes());
    bytes.extend_from_slice(&0i16.to_le_bytes());
    let fds = parse_pollfds(&bytes);
    assert_eq!(fds, vec![GuestPollFd { fd: 10_000, events: 1 }, GuestPollFd { fd: -1, events: -2 }]);
    let mut sockets: HostSockets<HostSocket> = HostSockets::new();
    sockets.insert(HostSocket { raw_fd: 42, guest_domain: 1, host_domain: libc::AF_INET });
    assert_eq!(host_pollfds(&fds, &sockets), Ok(vec![(42, 1), (-1, -2)]));
    let stray = vec![GuestPollFd { fd: 10_001, events: 1 }];
    assert_eq!(host_pollfds(&stray, &sockets), Err(errno::EBADF));
    assert_eq!(revents_ptr(100, 2), Some(122));
    assert_eq!(revents_ptr(i32::MAX - 3, 0), None);
}

#[test]
fn so_error_values_are_translated() {
    let mut optval = libc::ECONNREFUSED.to_ne_bytes().to_vec();
    optval.push(0xaa);
    translate_so_error(1, 4, &mut optval, 4);
    assert_eq!(&optval[..4], &errno::ECONNREFUSED.to_ne_bytes());
    assert_eq!(optval[4], 0xaa);
    let mut other = libc::ECONNREFUSED.to_ne_bytes().to_vec();
    translate_so_error(6, 4, &mut other, 4);
    assert_eq!(other, libc::ECONNREFUSED.to_ne_bytes().to_vec());
}

#[test]
fn host_call_results() {
    assert_eq!(cvt_i32(5), 5);
    assert!(cvt_i32(-1) < 0);
    assert_eq!(cvt_ssize(7), 7);
    assert_eq!(cvt_ssize(i32::MAX as isize + 1), -errno::EOVERFLOW);
    assert_eq!(guest_errno_of_os_error(Some(libc::EPIPE)), errno::EPIPE);
    assert_eq!(guest_errno_of_os_error(None), errno::EIO);
}

#[test]
fn so_error_zero_means_no_pending_error() {
    let mut optval = 0i32.to_ne_bytes().to_vec();
    translate_so_error(WASI_SOL_SOCKET, 4, &mut optval, 4);
    assert_eq!(optval, 0i32.to_ne_bytes().to_vec());
}

#[test]
fn family_written_for_the_host_comes_back_for_the_guest() {
    let original = [1u16.to_ne_bytes().to_vec(), vec![0x0c, 0xeb, 10, 0, 0, 7]].concat();
    let mut addr = original.clone();
    normalize_sockaddr_for_host(&mut addr, libc::AF_INET);
    denormalize_sockaddr_for_guest(&mut addr, 1);
    assert_eq!(addr, original);
}

#[test]
fn status_flags_round_trip() {
    let c = host_socket_consts();
    for host in [libc::O_RDWR, libc::O_RDWR | libc::O_NONBLOCK | libc::O_APPEND] {
        for arg in [0, 4, 4 | 1, 1] {
            let set = host_status_flags(host, arg, &c);
            assert_eq!(guest_status_flags(set, &c), arg & 4);
            assert_eq!(set & !libc::O_NONBLOCK, host & !libc::O_NONBLOCK);
        }
    }
}

#[test]
fn reported_lengths_are_checked() {
    assert_eq!(checked_reported_len(16, 16), Ok(16));
    assert_eq!(checked_reported_len(0, 16), Ok(0));
    assert_eq!(checked_reported_len(28, 16), Err(errno::EIO));
    assert_eq!(checked_reported_len(-1, 16), Err(errno::EIO));
}
