//! The translations of the socket imports for a Windows host, where the
//! guest's POSIX-like values meet WinSock's.

use vstd::prelude::*;

use crate::bytes::{i64_from_le, read_i64_le, write_i64_le};
use crate::guest_errno::{self as errno, translate_errno, translate_with};
use crate::host_abi;
use crate::host_sockets::{checked_len, GuestPollFd, HostSockets};

pub use crate::host_sockets::{
    denormalize_sockaddr_for_guest, normalize_sockaddr_for_host, write_sockaddr_family,
};

verus! {

pub const GUEST_AF_INET: i32 = 2;
pub const GUEST_AF_INET6: i32 = 10;
pub const GUEST_F_GETFL: i32 = 3;
pub const GUEST_F_SETFL: i32 = 4;
pub const GUEST_POLLIN: i16 = 0x0001;
pub const GUEST_POLLPRI: i16 = 0x0002;
pub const GUEST_POLLOUT: i16 = 0x0004;
pub const GUEST_POLLERR: i16 = 0x0008;
pub const GUEST_POLLHUP: i16 = 0x0010;
pub const GUEST_POLLNVAL: i16 = 0x0020;
pub const GUEST_SO_REUSEADDR: i32 = 2;
pub const GUEST_SO_ERROR: i32 = 4;
pub const GUEST_SO_KEEPALIVE: i32 = 9;
pub const GUEST_SO_RCVTIMEO: i32 = 20;
pub const GUEST_SO_SNDTIMEO: i32 = 21;
pub const GUEST_IP_TOS: i32 = 1;
pub const GUEST_IPV6_V6ONLY: i32 = 26;

/// A guest socket on a Windows host: the WinSock handle, the address family
/// in both encodings, and the status flags the guest last set.
#[derive(Clone, Copy, Debug, PartialEq, Eq, Structural)]
pub struct WinHostSocket {
    pub raw_socket: usize,
    pub guest_domain: i32,
    pub host_domain: i32,
    pub status_flags: i32,
}

/// Records the status flags that the guest set on socket `fd` (`EBADF`
/// when it is not open).
pub fn set_status_flags(
    sockets: &mut crate::host_sockets::HostSockets<WinHostSocket>,
    fd: i32,
    status_flags: i32,
) -> (r: Result<(), i32>)
    ensures
        final(sockets).next_fd() == old(sockets).next_fd(),
        old(sockets).wf() ==> final(sockets).wf(),
        old(sockets).sockets().contains_key(fd) ==> r is Ok && final(sockets).sockets()
            == old(sockets).sockets().insert(
            fd,
            WinHostSocket { status_flags, ..old(sockets).sockets()[fd] },
        ),
        !old(sockets).sockets().contains_key(fd) ==> r == Err::<(), i32>(errno::EBADF)
            && final(sockets).sockets() == old(sockets).sockets(),
{
    let socket = sockets.get(fd)?;
    sockets.replace(fd, WinHostSocket { status_flags, ..socket })
}

/// A socket type in WinSock's encoding and whether it is non-blocking.
#[derive(Clone, Copy, Debug, PartialEq, Eq, Structural)]
pub struct WinSocketType {
    pub ty: i32,
    pub nonblocking: bool,
}

/// The flag bits of a guest socket type, in either encoding.
pub const SOCKET_TYPE_FLAG_MASK: i32 = 0x0000_0800 | 0x0008_0000 | 0x2000 | 0x4000;

/// The WinSock socket type of the guest's `ty`: stream (1 or wasi-libc's 6)
/// or datagram (2 or 5), non-blocking when either encoding's flag is set;
/// anything else is `ENOTSUP`.
pub open spec fn win_socket_type_of(ty: i32) -> Result<WinSocketType, i32> {
    let base = ty & !SOCKET_TYPE_FLAG_MASK;
    let flags = ty & SOCKET_TYPE_FLAG_MASK;
    if base == 1 || base == 6 {
        Ok(WinSocketType { ty: 1, nonblocking: flags & (0x0000_0800 | 0x4000) != 0 })
    } else if base == 2 || base == 5 {
        Ok(WinSocketType { ty: 2, nonblocking: flags & (0x0000_0800 | 0x4000) != 0 })
    } else {
        Err(errno::ENOTSUP)
    }
}

/// Translates the guest's socket type (see `win_socket_type_of`).
pub fn normalize_socket_type(ty: i32) -> (r: Result<WinSocketType, i32>)
    ensures
        r == win_socket_type_of(ty),
{
    let c = host_abi::winsock_consts();
    let base = ty & !SOCKET_TYPE_FLAG_MASK;
    let flags = ty & SOCKET_TYPE_FLAG_MASK;
    let host_ty = if base == c.sock_stream || base == 6 {
        c.sock_stream
    } else if base == c.sock_dgram || base == 5 {
        c.sock_dgram
    } else {
        return Err(errno::ENOTSUP);
    };
    Ok(WinSocketType { ty: host_ty, nonblocking: flags & (0x0000_0800 | 0x4000) != 0 })
}

/// The WinSock address family of the guest's `domain`: 1 and 2 are
/// `AF_INET` (2), 10 and 23 are `AF_INET6` (23), others are passed on.
pub fn normalize_socket_domain(domain: i32) -> (r: i32)
    ensures
        r == if domain == 1 || domain == 2 {
            2
        } else if domain == 10 || domain == 23 {
            23
        } else {
            domain
        },
{
    let c = host_abi::winsock_consts();
    if domain == 1 || domain == GUEST_AF_INET {
        c.af_inet
    } else if domain == GUEST_AF_INET6 || domain == 23 {
        c.af_inet6
    } else {
        domain
    }
}

/// The WinSock level and option of a guest socket option: at level 1
/// (`SOL_SOCKET`) the guest's `SO_REUSEADDR`, `SO_ERROR`, `SO_KEEPALIVE`,
/// `SO_RCVTIMEO` and `SO_SNDTIMEO` are renumbered and the level becomes
/// WinSock's `SOL_SOCKET`; at level 0 `IP_TOS` and at level 41
/// `IPV6_V6ONLY` are renumbered; everything else is passed on.
pub open spec fn socket_option_of(level: i32, optname: i32) -> (i32, i32) {
    if level == 1 {
        (
            65535,
            if optname == GUEST_SO_REUSEADDR {
                4
            } else if optname == GUEST_SO_ERROR {
                4103
            } else if optname == GUEST_SO_KEEPALIVE {
                8
            } else if optname == GUEST_SO_RCVTIMEO {
                4102
            } else if optname == GUEST_SO_SNDTIMEO {
                4101
            } else {
                optname
            },
        )
    } else if level == 0 {
        (0, if optname == GUEST_IP_TOS { 3 } else { optname })
    } else if level == 41 {
        (41, if optname == GUEST_IPV6_V6ONLY { 27 } else { optname })
    } else {
        (level, optname)
    }
}

/// Translates a guest socket option (see `socket_option_of`).
pub fn normalize_socket_option(level: i32, optname: i32) -> (r: (i32, i32))
    ensures
        r == socket_option_of(level, optname),
{
    let c = host_abi::winsock_consts();
    if level == 1 {
        let name = if optname == GUEST_SO_REUSEADDR {
            c.so_reuseaddr
        } else if optname == GUEST_SO_ERROR {
            c.so_error
        } else if optname == GUEST_SO_KEEPALIVE {
            c.so_keepalive
        } else if optname == GUEST_SO_RCVTIMEO {
            c.so_rcvtimeo
        } else if optname == GUEST_SO_SNDTIMEO {
            c.so_sndtimeo
        } else {
            optname
        };
        (c.sol_socket, name)
    } else if level == 0 {
        let name = if optname == GUEST_IP_TOS {
            c.ip_tos
        } else {
            optname
        };
        (0, name)
    } else if level == 41 {
        let name = if optname == GUEST_IPV6_V6ONLY {
            c.ipv6_v6only
        } else {
            optname
        };
        (41, name)
    } else {
        (level, optname)
    }
}

/// Whether a guest option is one of the socket timeouts.
pub fn is_guest_timeout(level: i32, optname: i32) -> (r: bool)
    ensures
        r == (level == 1 && (optname == GUEST_SO_RCVTIMEO || optname == GUEST_SO_SNDTIMEO)),
{
    level == 1 && (optname == GUEST_SO_RCVTIMEO || optname == GUEST_SO_SNDTIMEO)
}

/// `x` held within the range of `i64` (saturating arithmetic).
pub open spec fn saturate_i64(x: int) -> int {
    if x > i64::MAX {
        i64::MAX as int
    } else if x < i64::MIN {
        i64::MIN as int
    } else {
        x
    }
}

/// The milliseconds of a guest `timeval`: seconds times 1000 plus the
/// microseconds rounded up to milliseconds, with `i64` saturation at each
/// step, then held within `0 ..= u32::MAX`.
pub open spec fn timeval_millis(seconds: i64, micros: i64) -> u32 {
    let total = saturate_i64(
        saturate_i64(seconds * 1000) + saturate_i64(micros + 999) / 1000,
    );
    (if total < 0 {
        0
    } else if total > u32::MAX {
        u32::MAX as int
    } else {
        total
    }) as u32
}

fn saturate(x: i128) -> (r: i64)
    ensures
        r == saturate_i64(x as int),
{
    if x > i64::MAX as i128 {
        i64::MAX
    } else if x < i64::MIN as i128 {
        i64::MIN
    } else {
        x as i64
    }
}

/// Floor division by 1000 (`i64::div_euclid(x, 1000)`).
fn div_floor_1000(x: i64) -> (q: i64)
    ensures
        q == x / 1000,
{
    if x >= 0 {
        x / 1000
    } else {
        let y = -(x as i128);
        let q = (y + 999) / 1000;
        assert(-(q as int) == (x as int) / 1000) by {
            assert((x as int) == -(y as int));
        }
        (-q) as i64
    }
}

/// The milliseconds of a guest timeout (see `timeval_millis`).
pub fn timeout_millis(seconds: i64, micros: i64) -> (ms: u32)
    ensures
        ms == timeval_millis(seconds, micros),
{
    let whole = saturate(seconds as i128 * 1000);
    let rounded = saturate(micros as i128 + 999);
    let total = saturate(whole as i128 + div_floor_1000(rounded) as i128);
    if total < 0 {
        0
    } else if total > u32::MAX as i64 {
        u32::MAX
    } else {
        total as u32
    }
}

/// A guest `timeval` option value (two little-endian `i64`: seconds, then
/// microseconds) as WinSock's milliseconds, four bytes in the machine's
/// order; values shorter than 16 bytes are passed on unchanged.
pub fn guest_timeout_to_windows(guest: &[u8]) -> (r: Vec<u8>)
    ensures
        guest@.len() < 16 ==> r@ == guest@,
        guest@.len() >= 16 ==> {
            let ms = timeval_millis(
                i64_from_le(guest@.subrange(0, 8)),
                i64_from_le(guest@.subrange(8, 16)),
            );
            r@ == host_abi::u32_native_bytes(ms)
        },
{
    if guest.len() < 16 {
        let mut copy: Vec<u8> = Vec::new();
        let mut i: usize = 0;
        while i < guest.len()
            invariant
                i <= guest@.len(),
                copy@ == guest@.take(i as int),
            decreases guest.len() - i,
        {
            copy.push(guest[i]);
            i += 1;
            assert(copy@ =~= guest@.take(i as int));
        }
        assert(copy@ =~= guest@);
        return copy;
    }
    let secs_bytes = [
        guest[0],
        guest[1],
        guest[2],
        guest[3],
        guest[4],
        guest[5],
        guest[6],
        guest[7],
    ];
    let micros_bytes = [
        guest[8],
        guest[9],
        guest[10],
        guest[11],
        guest[12],
        guest[13],
        guest[14],
        guest[15],
    ];
    assert(secs_bytes@ =~= guest@.subrange(0, 8));
    assert(micros_bytes@ =~= guest@.subrange(8, 16));
    let seconds = read_i64_le(&secs_bytes);
    let micros = read_i64_le(&micros_bytes);
    let millis = timeout_millis(seconds, micros);
    let b = host_abi::u32_to_ne_bytes(millis);
    let r = vec![b[0], b[1], b[2], b[3]];
    assert(r@ =~= b@);
    r
}

/// A WinSock timeout (milliseconds, four bytes in the machine's order) as a
/// guest `timeval` of two little-endian `i64`: whole seconds, then the
/// remaining milliseconds in microseconds. When the guest asked for fewer
/// than 16 bytes, or WinSock gave fewer than 4, the bytes are passed on.
pub fn windows_timeout_to_guest(windows: &[u8], requested_len: usize) -> (r: Vec<u8>)
    ensures
        requested_len < 16 || windows@.len() < 4 ==> r@ == windows@,
        requested_len >= 16 && windows@.len() >= 4 ==> {
            &&& r@.len() == 16
            &&& exists|ms: u32| #[trigger] host_abi::u32_native_bytes(ms) == windows@.take(4)
            &&& forall|ms: u32| #[trigger]
                host_abi::u32_native_bytes(ms) == windows@.take(4) ==> i64_from_le(
                    r@.subrange(0, 8),
                ) == ms / 1000 && i64_from_le(r@.subrange(8, 16)) == (ms % 1000) * 1000
        },
{
    if requested_len < 16 || windows.len() < 4 {
        let mut copy: Vec<u8> = Vec::new();
        let mut i: usize = 0;
        while i < windows.len()
            invariant
                i <= windows@.len(),
                copy@ == windows@.take(i as int),
            decreases windows.len() - i,
        {
            copy.push(windows[i]);
            i += 1;
            assert(copy@ =~= windows@.take(i as int));
        }
        assert(copy@ =~= windows@);
        return copy;
    }
    let word = [windows[0], windows[1], windows[2], windows[3]];
    assert(word@ =~= windows@.take(4));
    let millis = host_abi::u32_from_ne_bytes(word) as i64;
    let secs = write_i64_le(millis / 1000);
    let micros = write_i64_le((millis % 1000) * 1000);
    let mut guest: Vec<u8> = Vec::new();
    let mut i: usize = 0;
    while i < 8
        invariant
            i <= 8,
            guest@ == secs@.take(i as int),
        decreases 8 - i,
    {
        guest.push(secs[i]);
        i += 1;
        assert(guest@ =~= secs@.take(i as int));
    }
    while i < 16
        invariant
            8 <= i <= 16,
            guest@ == secs@ + micros@.take(i - 8),
        decreases 16 - i,
    {
        guest.push(micros[i - 8]);
        i += 1;
        assert(guest@ =~= secs@ + micros@.take(i - 8));
    }
    assert(guest@.subrange(0, 8) =~= secs@);
    assert(guest@.subrange(8, 16) =~= micros@);
    guest
}

/// Law: a WinSock timeout of `ms` milliseconds, given to the guest and
/// handed back, is `ms` again.
pub proof fn lemma_timeout_round_trip(ms: u32)
    ensures
        timeval_millis((ms / 1000) as i64, ((ms % 1000) * 1000) as i64) == ms,
{
    let s = (ms / 1000) as int;
    let m = ((ms % 1000) * 1000) as int;
    assert(s * 1000 <= i64::MAX);
    assert((m + 999) / 1000 == ms % 1000);
    assert(s * 1000 + ms % 1000 == ms);
}

/// Law: a guest timeout of whole milliseconds (`seconds` and `micros`
/// non-negative, `micros` below a second and a multiple of 1000, the total
/// within `u32`) sent to WinSock and read back is the same `timeval`.
pub proof fn lemma_timeval_round_trip(seconds: i64, micros: i64)
    requires
        0 <= seconds,
        0 <= micros < 1_000_000,
        micros % 1000 == 0,
        seconds * 1000 + micros / 1000 <= u32::MAX,
    ensures
        timeval_millis(seconds, micros) / 1000 == seconds,
        (timeval_millis(seconds, micros) % 1000) * 1000 == micros,
{
    let q = micros / 1000;
    assert(micros == 1000 * q) by (nonlinear_arith)
        requires
            micros % 1000 == 0,
            q == micros / 1000,
    ;
    assert((micros + 999) / 1000 == q) by (nonlinear_arith)
        requires
            micros == 1000 * q,
            0 <= q,
    ;
    assert(0 <= q < 1000);
    assert(seconds * 1000 <= i64::MAX) by (nonlinear_arith)
        requires
            seconds * 1000 + q <= u32::MAX,
            0 <= q,
    ;
    assert(0 <= seconds * 1000) by (nonlinear_arith)
        requires
            0 <= seconds,
    ;
    let ms = seconds * 1000 + q;
    assert(timeval_millis(seconds, micros) == ms);
    assert(ms / 1000 == seconds && ms % 1000 == q) by (nonlinear_arith)
        requires
            ms == seconds * 1000 + q,
            0 <= q < 1000,
            0 <= seconds,
    ;
}

/// Law (bytes): a whole-millisecond guest `timeval` `tv` sent to WinSock
/// (`guest_timeout_to_windows` gives the machine bytes of its milliseconds)
/// and read back (`windows_timeout_to_guest` of those bytes, asking for 16)
/// is `tv` again, byte for byte: any 16 bytes `r` whose two little-endian
/// `i64` are what `windows_timeout_to_guest` gives for those milliseconds
/// are `tv`.
pub proof fn lemma_timeval_bytes_round_trip(tv: Seq<u8>, r: Seq<u8>)
    requires
        tv.len() == 16,
        r.len() == 16,
        0 <= i64_from_le(tv.subrange(0, 8)),
        0 <= i64_from_le(tv.subrange(8, 16)) < 1_000_000,
        i64_from_le(tv.subrange(8, 16)) % 1000 == 0,
        i64_from_le(tv.subrange(0, 8)) * 1000 + i64_from_le(tv.subrange(8, 16)) / 1000
            <= u32::MAX,
        i64_from_le(r.subrange(0, 8)) == timeval_millis(
            i64_from_le(tv.subrange(0, 8)),
            i64_from_le(tv.subrange(8, 16)),
        ) / 1000,
        i64_from_le(r.subrange(8, 16)) == (timeval_millis(
            i64_from_le(tv.subrange(0, 8)),
            i64_from_le(tv.subrange(8, 16)),
        ) % 1000) * 1000,
    ensures
        r == tv,
{
    lemma_timeval_round_trip(i64_from_le(tv.subrange(0, 8)), i64_from_le(tv.subrange(8, 16)));
    crate::bytes::lemma_i64_le_unique(r.subrange(0, 8), tv.subrange(0, 8));
    crate::bytes::lemma_i64_le_unique(r.subrange(8, 16), tv.subrange(8, 16));
    assert(r =~= r.subrange(0, 8) + r.subrange(8, 16));
    assert(tv =~= tv.subrange(0, 8) + tv.subrange(8, 16));
}

/// The message flags WinSock understands: only `MSG_PEEK` (2) is kept.
pub fn normalize_message_flags(flags: i32) -> (r: i32)
    ensures
        r == flags & 0x0002,
{
    flags & 0x0002
}

/// WinSock poll events of guest poll events: `POLLIN`, `POLLPRI` and
/// `POLLOUT` are renumbered, other bits dropped.
pub open spec fn windows_poll_events_of(events: i16) -> i16 {
    (if events & GUEST_POLLIN != 0 { 768i16 } else { 0i16 }) | (if events & GUEST_POLLPRI != 0 {
        1024i16
    } else {
        0i16
    }) | (if events & GUEST_POLLOUT != 0 { 16i16 } else { 0i16 })
}

/// Guest poll events of WinSock ones: the three request bits and `POLLERR`,
/// `POLLHUP` and `POLLNVAL` are renumbered, other bits dropped.
pub open spec fn guest_poll_events_of(events: i16) -> i16 {
    (if events & 768 != 0 { GUEST_POLLIN } else { 0i16 }) | (if events & 1024 != 0 {
        GUEST_POLLPRI
    } else {
        0i16
    }) | (if events & 16 != 0 { GUEST_POLLOUT } else { 0i16 }) | (if events & 1 != 0 {
        GUEST_POLLERR
    } else {
        0i16
    }) | (if events & 2 != 0 { GUEST_POLLHUP } else { 0i16 }) | (if events & 4 != 0 {
        GUEST_POLLNVAL
    } else {
        0i16
    })
}

/// Translates guest poll events for `WSAPoll`.
pub fn guest_poll_events_to_windows(events: i16) -> (r: i16)
    ensures
        r == windows_poll_events_of(events),
{
    let bits = host_abi::winsock_poll_bits();
    let pollin = if events & GUEST_POLLIN != 0 {
        bits[0]
    } else {
        0
    };
    let pollpri = if events & GUEST_POLLPRI != 0 {
        bits[1]
    } else {
        0
    };
    let pollout = if events & GUEST_POLLOUT != 0 {
        bits[2]
    } else {
        0
    };
    pollin | pollpri | pollout
}

/// Translates `WSAPoll` results for the guest.
pub fn windows_poll_events_to_guest(events: i16) -> (r: i16)
    ensures
        r == guest_poll_events_of(events),
{
    let bits = host_abi::winsock_poll_bits();
    let pollin = if events & bits[0] != 0 {
        GUEST_POLLIN
    } else {
        0
    };
    let pollpri = if events & bits[1] != 0 {
        GUEST_POLLPRI
    } else {
        0
    };
    let pollout = if events & bits[2] != 0 {
        GUEST_POLLOUT
    } else {
        0
    };
    let pollerr = if events & bits[3] != 0 {
        GUEST_POLLERR
    } else {
        0
    };
    let pollhup = if events & bits[4] != 0 {
        GUEST_POLLHUP
    } else {
        0
    };
    let pollnval = if events & bits[5] != 0 {
        GUEST_POLLNVAL
    } else {
        0
    };
    pollin | pollpri | pollout | pollerr | pollhup | pollnval
}

/// Law: guest poll requests that go to WinSock and come back as results
/// keep exactly their `POLLIN`, `POLLPRI` and `POLLOUT` bits.
pub proof fn lemma_poll_events_round_trip(events: i16)
    ensures
        guest_poll_events_of(windows_poll_events_of(events)) == events & 7,
{
    assert(guest_poll_events_of(windows_poll_events_of(events)) == events & 7) by (bit_vector);
}

/// A guest length given as `u32` (socket address or option length):
/// beyond `i32::MAX`, or beyond `MAX_IO_LEN`, it is `EINVAL`.
pub fn checked_sockaddr_len(value: u32) -> (r: Result<usize, i32>)
    ensures
        r == if value <= crate::host_sockets::MAX_IO_LEN {
            Ok::<usize, i32>(value as usize)
        } else {
            Err::<usize, i32>(errno::EINVAL)
        },
{
    if value > i32::MAX as u32 {
        return Err(errno::EINVAL);
    }
    checked_len(value as i32)
}

/// The `FIONBIO` argument of the guest's `F_SETFL` with `arg`: non-blocking
/// (1) for any non-zero `arg`, blocking (0) otherwise.
pub fn fionbio_request(arg: i32) -> (r: u32)
    ensures
        r == if arg != 0 {
            1u32
        } else {
            0u32
        },
{
    if arg != 0 {
        1
    } else {
        0
    }
}

/// The `WSAPoll` record of a guest `pollfd`: `Some(None)` for a negative
/// descriptor (polled as no socket, asking nothing), `Some(Some((socket,
/// events)))` for an open guest socket with its events in WinSock's
/// numbering, `None` for any other descriptor.
pub open spec fn windows_poll_fd(p: GuestPollFd, sockets: Map<i32, WinHostSocket>) -> Option<
    Option<(usize, i16)>,
> {
    if p.fd < 0 {
        Some(None)
    } else if sockets.contains_key(p.fd) {
        Some(Some((sockets[p.fd].raw_socket, windows_poll_events_of(p.events))))
    } else {
        None
    }
}

/// The `WSAPoll` records of the guest's `pollfd` array (see
/// `windows_poll_fd`), or `EBADF` when a descriptor is not an open guest
/// socket.
pub fn windows_pollfds(guest: &Vec<GuestPollFd>, sockets: &HostSockets<WinHostSocket>) -> (r: Result<
    Vec<Option<(usize, i16)>>,
    i32,
>)
    ensures
        match r {
            Ok(host) => host@.len() == guest@.len() && forall|k: int|
                0 <= k < guest@.len() ==> windows_poll_fd(#[trigger] guest@[k], sockets.sockets())
                    == Some(host@[k]),
            Err(e) => e == errno::EBADF && exists|k: int|
                0 <= k < guest@.len() && windows_poll_fd(#[trigger] guest@[k], sockets.sockets())
                    is None,
        },
{
    let mut host: Vec<Option<(usize, i16)>> = Vec::new();
    let mut k: usize = 0;
    while k < guest.len()
        invariant
            k <= guest.len(),
            host@.len() == k,
            forall|j: int|
                0 <= j < k ==> windows_poll_fd(#[trigger] guest@[j], sockets.sockets()) == Some(
                    host@[j],
                ),
        decreases guest.len() - k,
    {
        let p = guest[k];
        if p.fd < 0 {
            host.push(None);
        } else {
            match sockets.get(p.fd) {
                Ok(socket) => {
                    host.push(Some((socket.raw_socket, guest_poll_events_to_windows(p.events))));
                },
                Err(e) => {
                    assert(windows_poll_fd(guest@[k as int], sockets.sockets()) is None);
                    return Err(e);
                },
            }
        }
        k += 1;
    }
    Ok(host)
}

/// The guest's `revents` of a polled record: 0 for a record polled as no
/// socket, else WinSock's `revents` in the guest's numbering.
pub fn windows_revents(record: Option<(usize, i16)>, revents: i16) -> (r: i16)
    ensures
        r == match record {
            None => 0i16,
            Some(_) => guest_poll_events_of(revents),
        },
{
    match record {
        None => 0,
        Some(_) => windows_poll_events_to_guest(revents),
    }
}

/// The WinSock error codes of the translation table, in order.
pub open spec fn winsock_error_values() -> Seq<i32> {
    seq![
        10004i32, 10009, 10013, 10014, 10022, 10024, 10035, 10036, 10037, 10038, 10039, 10040, 10041,
        10042, 10043, 10044, 10045, 10046, 10047, 10048, 10049, 10050, 10051, 10052, 10053, 10054,
        10055, 10056, 10057, 10058, 10060, 10061, 10064, 10065,
    ]
}

/// The guest errno of each entry of the WinSock table.
pub open spec fn winsock_error_order() -> Seq<i32> {
    seq![
        errno::EINTR, errno::EBADF, errno::EACCES, errno::EFAULT, errno::EINVAL, errno::EMFILE,
        errno::EAGAIN, errno::EINPROGRESS, errno::EALREADY, errno::ENOTSOCK, errno::EDESTADDRREQ,
        errno::EMSGSIZE, errno::EPROTOTYPE, errno::ENOPROTOOPT, errno::EPROTONOSUPPORT,
        errno::ENOTSUP, errno::ENOTSUP, errno::EAFNOSUPPORT, errno::EAFNOSUPPORT, errno::EADDRINUSE,
        errno::EADDRNOTAVAIL, errno::ENETDOWN, errno::ENETUNREACH, errno::ENETRESET,
        errno::ECONNABORTED, errno::ECONNRESET, errno::ENOBUFS, errno::EISCONN, errno::ENOTCONN,
        errno::ENOTCONN, errno::ETIMEDOUT, errno::ECONNREFUSED, errno::EHOSTUNREACH,
        errno::EHOSTUNREACH,
    ]
}

fn winsock_guest_table() -> (table: [i32; 34])
    ensures
        table@ == winsock_error_order(),
{
    let table: [i32; 34] = [
        errno::EINTR, errno::EBADF, errno::EACCES, errno::EFAULT, errno::EINVAL, errno::EMFILE,
        errno::EAGAIN, errno::EINPROGRESS, errno::EALREADY, errno::ENOTSOCK, errno::EDESTADDRREQ,
        errno::EMSGSIZE, errno::EPROTOTYPE, errno::ENOPROTOOPT, errno::EPROTONOSUPPORT,
        errno::ENOTSUP, errno::ENOTSUP, errno::EAFNOSUPPORT, errno::EAFNOSUPPORT, errno::EADDRINUSE,
        errno::EADDRNOTAVAIL, errno::ENETDOWN, errno::ENETUNREACH, errno::ENETRESET,
        errno::ECONNABORTED, errno::ECONNRESET, errno::ENOBUFS, errno::EISCONN, errno::ENOTCONN,
        errno::ENOTCONN, errno::ETIMEDOUT, errno::ECONNREFUSED, errno::EHOSTUNREACH,
        errno::EHOSTUNREACH,
    ];
    assert(table@ =~= winsock_error_order());
    table
}

/// The guest errno of the WinSock error code `code`: 0 stays 0, listed codes
/// are translated, anything else is `EIO`.
pub open spec fn winsock_errno_of(code: i32) -> i32 {
    if code == 0 {
        0
    } else {
        translate_errno(winsock_error_values(), winsock_error_order(), code)
    }
}

/// The guest errno of a WinSock error code (see `winsock_errno_of`).
pub fn socket_errno(code: i32) -> (e: i32)
    ensures
        e == winsock_errno_of(code),
{
    if code == 0 {
        return 0;
    }
    let hosts = host_abi::winsock_error_codes();
    let guests = winsock_guest_table();
    translate_with(&hosts, &guests, code)
}

/// After a WinSock `getsockopt`: a four-byte `SO_ERROR` value at the
/// guest's level 1 is a WinSock error code, and is put in the guest's
/// numbering (`winsock_errno_of`, both in the machine's byte order). Other
/// options are left alone.
pub fn translate_winsock_so_error(level: i32, optname: i32, optval: &mut Vec<u8>)
    ensures
        !(level == 1 && optname == GUEST_SO_ERROR && old(optval)@.len() == 4) ==> final(optval)@
            == old(optval)@,
        level == 1 && optname == GUEST_SO_ERROR && old(optval)@.len() == 4 ==> {
            &&& final(optval)@.len() == 4
            &&& exists|code: i32| #[trigger] host_abi::i32_native_bytes(code) == old(optval)@
            &&& forall|code: i32| #[trigger]
                host_abi::i32_native_bytes(code) == old(optval)@ ==> final(optval)@
                    == host_abi::i32_native_bytes(winsock_errno_of(code))
        },
{
    if level == 1 && optname == GUEST_SO_ERROR && optval.len() == 4 {
        let word = [optval[0], optval[1], optval[2], optval[3]];
        assert(word@ =~= old(optval)@);
        let code = host_abi::i32_from_ne_bytes(word);
        let bytes = host_abi::i32_to_ne_bytes(socket_errno(code));
        optval.set(0, bytes[0]);
        optval.set(1, bytes[1]);
        optval.set(2, bytes[2]);
        optval.set(3, bytes[3]);
        assert(optval@ =~= bytes@);
    }
}

} // verus!
