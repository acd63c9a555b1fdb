//! What the library takes from outside: constants of the host C library and
//! of `windows-sys`, the machine's byte order, and OS error codes.
//!
//! Their values differ from one target to the next, so they are named or
//! bounded here, not stated: the logic that uses them takes them as
//! arguments and is verified for every value.

use libc::{
    E2BIG, EACCES, EADDRINUSE, EADDRNOTAVAIL, EAFNOSUPPORT, EAGAIN, EALREADY, EBADF, EBUSY,
    ECONNABORTED, ECONNREFUSED, ECONNRESET, EDESTADDRREQ, EEXIST, EFAULT, EFBIG, EHOSTUNREACH,
    EINPROGRESS, EINTR, EINVAL, EISCONN, EISDIR, ELOOP, EMFILE, EMSGSIZE, ENAMETOOLONG, ENETDOWN,
    ENETRESET, ENETUNREACH, ENFILE, ENOBUFS, ENODEV, ENOENT, ENOMEM, ENOPROTOOPT, ENOSPC, ENOSYS,
    ENOTCONN, ENOTDIR, ENOTEMPTY, ENOTSOCK, ENOTSUP, EOPNOTSUPP, EOVERFLOW, EPERM, EPIPE,
    EPROTONOSUPPORT, EPROTOTYPE, ERANGE, EROFS, ESPIPE, ETIMEDOUT, EWOULDBLOCK,
};
use std::io::Error as IoError;
use windows_sys::Win32::Networking::WinSock as ws;
use vstd::prelude::*;
use vstd::utf8::{decode_utf8, valid_utf8};

verus! {

/// `std::io::Error`, carried opaquely.
#[verifier::external_type_specification]
#[verifier::external_body]
pub struct ExIoError(IoError);

/// The value that the build target's `libc` gives the host errno code at
/// `index` of the translation table (`E2BIG`, `EACCES`, ..., `ETIMEDOUT`, in
/// the order of `guest_errno::guest_errno_order`, with `EWOULDBLOCK` after
/// `EAGAIN` and `EOPNOTSUPP` before `ENOTSUP`), and at index 53 `EIO`,
/// which the table does not list.
pub uninterp spec fn libc_errno_code(index: usize) -> i32;

/// The `libc` errno constant at `index` of the host table (see
/// `libc_errno_code`). Its value depends on the build target and is only
/// named here; the index must lie in the table or be that of `EIO`.
#[verifier::external_body]
pub(crate) fn native_errno_code(index: usize) -> (code: i32)
    requires
        index <= 53,
    ensures
        code == libc_errno_code(index),
{
    [
        E2BIG, EACCES, EADDRINUSE, EADDRNOTAVAIL, EAFNOSUPPORT, EAGAIN, EWOULDBLOCK, EALREADY,
        EBADF, EBUSY, ECONNABORTED, ECONNREFUSED, ECONNRESET, EDESTADDRREQ, EEXIST, EFAULT, EFBIG,
        EHOSTUNREACH, EINPROGRESS, EINTR, EINVAL, EISCONN, EISDIR, ELOOP, EMFILE, EMSGSIZE,
        ENAMETOOLONG, ENETDOWN, ENETRESET, ENETUNREACH, ENFILE, ENOBUFS, ENODEV, ENOENT, ENOMEM,
        ENOPROTOOPT, ENOSPC, ENOSYS, ENOTCONN, ENOTDIR, ENOTEMPTY, ENOTSOCK, EOPNOTSUPP, ENOTSUP,
        EOVERFLOW, EPERM, EPIPE, EPROTONOSUPPORT, EPROTOTYPE, ERANGE, EROFS, ESPIPE, ETIMEDOUT,
        libc::EIO,
    ][index]
}

/// The host C library values that the file and process imports use.
pub struct HostConsts {
    pub eagain: i32,
    pub enoent: i32,
    pub eisdir: i32,
    pub ebadf: i32,
    pub einval: i32,
    pub efault: i32,
    pub enametoolong: i32,
    pub eoverflow: i32,
    pub eio: i32,
    pub seek_set: i32,
    pub seek_cur: i32,
    pub seek_end: i32,
}

/// The `libc` constants `EAGAIN`, `ENOENT`, `EISDIR`, `EBADF`, `EINVAL`, `EFAULT`,
/// `ENAMETOOLONG`, `EOVERFLOW`, `EIO`, `SEEK_SET`, `SEEK_CUR` and `SEEK_END`
/// of the build target. Each errno is the value named by `libc_errno_code`
/// at its index (`native_host_consts`); what is stated of the values holds on
/// every target that `libc` defines them for: each errno is neither 0 nor
/// `i32::MIN`, and the seek values are 0, 1 and 2.
#[verifier::external_body]
pub(crate) fn native_consts() -> (consts: HostConsts)
    ensures
        consts == crate::host_files::native_host_consts(),
        crate::host_files::host_consts_hold(consts),
{
    HostConsts {
        eagain: EAGAIN, enoent: ENOENT, eisdir: EISDIR, ebadf: EBADF, einval: EINVAL, efault: EFAULT,
        enametoolong: ENAMETOOLONG, eoverflow: EOVERFLOW, eio: libc::EIO,
        seek_set: libc::SEEK_SET, seek_cur: libc::SEEK_CUR, seek_end: libc::SEEK_END,
    }
}

/// `std::str::from_utf8`, owned: the documentation promises success exactly
/// for valid UTF-8, which then decodes to the string's characters.
#[verifier::external_body]
pub(crate) fn utf8_to_string(bytes: &[u8]) -> (s: Option<String>)
    ensures
        s is Some <==> valid_utf8(bytes@),
        s matches Some(text) ==> text@ == decode_utf8(bytes@),
{
    std::str::from_utf8(bytes).ok().map(|text| text.to_owned())
}

/// The two bytes of `x` in the machine's byte order (`u16::to_ne_bytes`).
pub uninterp spec fn u16_native_bytes(x: u16) -> Seq<u8>;

/// `u16::to_ne_bytes`: the two bytes of `x` in the machine's byte order,
/// which is one of the two orders.
#[verifier::external_body]
pub(crate) fn u16_to_ne_bytes(x: u16) -> (b: [u8; 2])
    ensures
        b@ == u16_native_bytes(x),
        (b[0] == x % 256 && b[1] == x / 256) || (b[0] == x / 256 && b[1] == x % 256),
{
    x.to_ne_bytes()
}

/// `std::io::Error::last_os_error`: the calling thread's last OS error.
/// Nothing is stated of it: it depends on what the thread did before.
#[verifier::external_body]
pub(crate) fn last_os_error() -> (err: IoError) {
    IoError::last_os_error()
}

/// `std::io::Error::raw_os_error`: of an error made by `from_raw_os_error`
/// it gives back that code, as std documents; of other errors nothing is
/// stated.
#[verifier::external_body]
pub(crate) fn raw_os_error(err: &IoError) -> (code: Option<i32>)
    ensures
        forall|c: i32| *err == io_error_of_os_code(c) ==> code == Some(c),
{
    err.raw_os_error()
}

/// The four bytes of `x` in the machine's byte order (`i32::to_ne_bytes`).
pub uninterp spec fn i32_native_bytes(x: i32) -> Seq<u8>;

/// The four bytes of `x` in the machine's byte order (`u32::to_ne_bytes`).
pub uninterp spec fn u32_native_bytes(x: u32) -> Seq<u8>;

/// `i32::from_ne_bytes`, the inverse of `i32::to_ne_bytes`: the value whose
/// bytes in the machine's order are `b`, and the only one.
#[verifier::external_body]
pub(crate) fn i32_from_ne_bytes(b: [u8; 4]) -> (x: i32)
    ensures
        i32_native_bytes(x) == b@,
        forall|y: i32| #[trigger] i32_native_bytes(y) == b@ ==> y == x,
        x == crate::bytes::i32_from_le(b@) || x == crate::bytes::i32_from_le(b@.reverse()),
{
    i32::from_ne_bytes(b)
}

/// `i32::to_ne_bytes`: the bytes of `x` in the machine's byte order, which
/// is one of the two orders.
#[verifier::external_body]
pub(crate) fn i32_to_ne_bytes(x: i32) -> (b: [u8; 4])
    ensures
        b@ == i32_native_bytes(x),
        b@ == crate::bytes::i32_to_le(x) || b@ == crate::bytes::i32_to_le(x).reverse(),
{
    x.to_ne_bytes()
}

/// `u32::from_ne_bytes`, the inverse of `u32::to_ne_bytes`: the value whose
/// bytes in the machine's order are `b`, and the only one.
#[verifier::external_body]
pub(crate) fn u32_from_ne_bytes(b: [u8; 4]) -> (x: u32)
    ensures
        u32_native_bytes(x) == b@,
        forall|y: u32| #[trigger] u32_native_bytes(y) == b@ ==> y == x,
        x == crate::bytes::u32_from_le(b@) || x == crate::bytes::u32_from_le(b@.reverse()),
{
    u32::from_ne_bytes(b)
}

/// `u32::to_ne_bytes`: the bytes of `x` in the machine's byte order, which
/// is one of the two orders.
#[verifier::external_body]
pub(crate) fn u32_to_ne_bytes(x: u32) -> (b: [u8; 4])
    ensures
        b@ == u32_native_bytes(x),
        b@ == crate::bytes::u32_to_le(x) || b@ == crate::bytes::u32_to_le(x).reverse(),
{
    x.to_ne_bytes()
}

/// WinSock's socket values, as `windows-sys` defines them (the same for
/// every target).
pub struct WinsockConsts {
    pub sock_stream: i32,
    pub sock_dgram: i32,
    pub af_inet: i32,
    pub af_inet6: i32,
    pub sol_socket: i32,
    pub so_reuseaddr: i32,
    pub so_error: i32,
    pub so_keepalive: i32,
    pub so_rcvtimeo: i32,
    pub so_sndtimeo: i32,
    pub ip_tos: i32,
    pub ipv6_v6only: i32,
}

/// The `windows-sys` WinSock constants `SOCK_STREAM`, `SOCK_DGRAM`,
/// `AF_INET`, `AF_INET6`, `SOL_SOCKET`, `SO_REUSEADDR`, `SO_ERROR`,
/// `SO_KEEPALIVE`, `SO_RCVTIMEO`, `SO_SNDTIMEO`, `IP_TOS` and `IPV6_V6ONLY`,
/// with the values that crate gives them.
#[verifier::external_body]
pub(crate) fn winsock_consts() -> (c: WinsockConsts)
    ensures
        c.sock_stream == 1 && c.sock_dgram == 2 && c.af_inet == 2 && c.af_inet6 == 23,
        c.sol_socket == 65535 && c.so_reuseaddr == 4 && c.so_error == 4103,
        c.so_keepalive == 8 && c.so_rcvtimeo == 4102 && c.so_sndtimeo == 4101,
        c.ip_tos == 3 && c.ipv6_v6only == 27,
{
    WinsockConsts {
        sock_stream: ws::SOCK_STREAM, sock_dgram: ws::SOCK_DGRAM, af_inet: ws::AF_INET as i32,
        af_inet6: ws::AF_INET6 as i32, sol_socket: ws::SOL_SOCKET, so_reuseaddr: ws::SO_REUSEADDR,
        so_error: ws::SO_ERROR, so_keepalive: ws::SO_KEEPALIVE, so_rcvtimeo: ws::SO_RCVTIMEO,
        so_sndtimeo: ws::SO_SNDTIMEO, ip_tos: ws::IP_TOS, ipv6_v6only: ws::IPV6_V6ONLY,
    }
}

/// The `windows-sys` WinSock poll bits `POLLIN`, `POLLPRI`, `POLLOUT`,
/// `POLLERR`, `POLLHUP` and `POLLNVAL`, in that order, with the values that
/// crate gives them.
#[verifier::external_body]
pub(crate) fn winsock_poll_bits() -> (bits: [i16; 6])
    ensures
        bits@ == seq![768i16, 1024, 16, 1, 2, 4],
{
    [ws::POLLIN, ws::POLLPRI, ws::POLLOUT, ws::POLLERR, ws::POLLHUP, ws::POLLNVAL]
}

/// The `windows-sys` WinSock error codes that have a guest counterpart, in
/// the order of `host_sockets_windows::winsock_error_order`, with the values
/// that crate gives them.
#[verifier::external_body]
pub(crate) fn winsock_error_codes() -> (codes: [i32; 34])
    ensures
        codes@ == crate::host_sockets_windows::winsock_error_values(),
{
    [
        ws::WSAEINTR, ws::WSAEBADF, ws::WSAEACCES, ws::WSAEFAULT, ws::WSAEINVAL, ws::WSAEMFILE,
        ws::WSAEWOULDBLOCK, ws::WSAEINPROGRESS, ws::WSAEALREADY, ws::WSAENOTSOCK,
        ws::WSAEDESTADDRREQ, ws::WSAEMSGSIZE, ws::WSAEPROTOTYPE, ws::WSAENOPROTOOPT,
        ws::WSAEPROTONOSUPPORT, ws::WSAESOCKTNOSUPPORT, ws::WSAEOPNOTSUPP, ws::WSAEPFNOSUPPORT,
        ws::WSAEAFNOSUPPORT, ws::WSAEADDRINUSE, ws::WSAEADDRNOTAVAIL, ws::WSAENETDOWN,
        ws::WSAENETUNREACH, ws::WSAENETRESET, ws::WSAECONNABORTED, ws::WSAECONNRESET,
        ws::WSAENOBUFS, ws::WSAEISCONN, ws::WSAENOTCONN, ws::WSAESHUTDOWN, ws::WSAETIMEDOUT,
        ws::WSAECONNREFUSED, ws::WSAEHOSTDOWN, ws::WSAEHOSTUNREACH,
    ]
}

/// What `std::io::Error::from_raw_os_error` makes of the OS error code
/// `code`.
pub uninterp spec fn io_error_of_os_code(code: i32) -> IoError;

/// `std::io::Error::from_raw_os_error`: the error of OS code `code`, which
/// depends on `code` alone (only named here).
#[verifier::external_body]
pub(crate) fn io_error_from_raw_os_error(code: i32) -> (err: IoError)
    ensures
        err == io_error_of_os_code(code),
{
    IoError::from_raw_os_error(code)
}

} // verus!

