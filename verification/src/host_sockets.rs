//! Argument and result translation of the runner's socket imports, and the
//! table of guest socket descriptors.
//!
//! The guest passes socket values in either the POSIX or the wasi-libc
//! encoding; the host's own values come from its C library.

use vstd::prelude::*;

use crate::bytes::{i16_from_le, i32_from_le, read_i16_le, read_i32_le};
use crate::fd_table::FdTable;
use crate::guest_errno::{self as errno, host_errno_to_guest, is_translated_errno};
use crate::host_abi;

verus! {

/// Guest descriptors of host sockets start here.
pub const GUEST_FD_BASE: i32 = 10_000;
pub const MAX_IO_LEN: usize = 16 * 1024 * 1024;
pub const MAX_POLL_FDS: usize = 16_384;
pub const WASI_ALT_AF_INET: i32 = 1;
pub const WASI_ALT_SOCK_DGRAM: i32 = 5;
pub const WASI_ALT_SOCK_STREAM: i32 = 6;
pub const WASI_ALT_SOCK_CLOEXEC: i32 = 0x2000;
pub const WASI_ALT_SOCK_NONBLOCK: i32 = 0x4000;
pub const WASI_SOL_SOCKET: i32 = 0x7fff_ffff;
pub const WASI_F_GETFL: i32 = 3;
pub const WASI_F_SETFL: i32 = 4;
pub const WASI_O_NONBLOCK: i32 = 0x0004;
pub const WASI_SO_ERROR: i32 = 4;

/// The host's values that the socket imports use: its C library's
/// `SOCK_STREAM`, `SOCK_DGRAM`, `AF_INET`, `AF_INET6`, `SOL_SOCKET` and
/// `O_NONBLOCK`, and the socket-type flags `SOCK_CLOEXEC` and
/// `SOCK_NONBLOCK` (0 on hosts that have none). They differ from one host to
/// the next; every translation takes them as an argument.
pub struct HostSocketConsts {
    pub sock_stream: i32,
    pub sock_dgram: i32,
    pub sock_cloexec: i32,
    pub sock_nonblock: i32,
    pub af_inet: i32,
    pub af_inet6: i32,
    pub sol_socket: i32,
    pub o_nonblock: i32,
}

/// A guest socket: the host descriptor and the address family in the
/// guest's and in the host's encoding.
#[derive(Clone, Copy, Debug, PartialEq, Eq, Structural)]
pub struct HostSocket {
    pub raw_fd: i32,
    pub guest_domain: i32,
    pub host_domain: i32,
}

/// The guest socket descriptors.
pub struct HostSockets<S> {
    table: FdTable<S>,
}

impl<S: Copy> HostSockets<S> {
    pub closed spec fn next_fd(&self) -> i32 {
        self.table.next_fd()
    }

    pub closed spec fn sockets(&self) -> Map<i32, S> {
        self.table.entries()
    }

    pub closed spec fn wf(&self) -> bool {
        self.table.wf()
    }

    /// An empty table; the first socket gets `GUEST_FD_BASE`.
    pub fn new() -> (t: Self)
        ensures
            t.next_fd() == GUEST_FD_BASE,
            t.sockets() == Map::<i32, S>::empty(),
            t.wf(),
    {
        HostSockets { table: FdTable::new(GUEST_FD_BASE) }
    }

    /// Registers a socket and returns its guest descriptor.
    pub fn insert(&mut self, socket: S) -> (fd: i32)
        ensures
            fd == old(self).next_fd(),
            final(self).next_fd() == crate::fd_table::next_number(old(self).next_fd()),
            final(self).sockets() == old(self).sockets().insert(fd, socket),
            old(self).wf() ==> final(self).wf(),
            old(self).wf() && old(self).next_fd() < i32::MAX ==> !old(self).sockets().contains_key(fd),
    {
        self.table.insert(socket)
    }

    /// The socket of guest descriptor `fd`, or `EBADF`.
    pub fn get(&self, fd: i32) -> (r: Result<S, i32>)
        ensures
            match r {
                Ok(s) => self.sockets().contains_key(fd) && s == self.sockets()[fd],
                Err(e) => e == errno::EBADF && !self.sockets().contains_key(fd),
            },
    {
        match self.table.get(fd) {
            Some(s) => Ok(*s),
            None => Err(errno::EBADF),
        }
    }

    /// Unregisters guest descriptor `fd` and hands back its socket, or
    /// `EBADF`.
    pub fn remove(&mut self, fd: i32) -> (r: Result<S, i32>)
        ensures
            final(self).sockets() == old(self).sockets().remove(fd),
            final(self).next_fd() == old(self).next_fd(),
            old(self).wf() ==> final(self).wf(),
            match r {
                Ok(s) => old(self).sockets().contains_key(fd) && s == old(self).sockets()[fd],
                Err(e) => e == errno::EBADF && !old(self).sockets().contains_key(fd),
            },
    {
        match self.table.remove(fd) {
            Some(s) => Ok(s),
            None => Err(errno::EBADF),
        }
    }

    /// Replaces the socket of guest descriptor `fd`, or `EBADF`.
    pub fn replace(&mut self, fd: i32, socket: S) -> (r: Result<(), i32>)
        ensures
            final(self).next_fd() == old(self).next_fd(),
            old(self).wf() ==> final(self).wf(),
            old(self).sockets().contains_key(fd) ==> r is Ok && final(self).sockets()
                == old(self).sockets().insert(fd, socket),
            !old(self).sockets().contains_key(fd) ==> r == Err::<(), i32>(errno::EBADF)
                && final(self).sockets() == old(self).sockets(),
    {
        if self.table.set(fd, socket) {
            Ok(())
        } else {
            Err(errno::EBADF)
        }
    }

    /// Unregisters every socket and hands them all back, to be closed.
    pub fn drain(&mut self) -> (all: Vec<S>)
        ensures
            final(self).sockets() == Map::<i32, S>::empty(),
            final(self).next_fd() == old(self).next_fd(),
            all@.len() == old(self).sockets().dom().len(),
            forall|s: S| all@.contains(s) <==> old(self).sockets().values().contains(s),
    {
        let fds = self.table.open_fds();
        let ghost before = self.sockets();
        let mut all: Vec<S> = Vec::new();
        let mut i: usize = 0;
        proof {
            fds@.unique_seq_to_set();
        }
        while i < fds.len()
            invariant
                i <= fds.len(),
                fds@.to_set() == before.dom(),
                fds@.no_duplicates(),
                self.next_fd() == old(self).next_fd(),
                before == old(self).sockets(),
                self.sockets() == before.remove_keys(fds@.take(i as int).to_set()),
                all@.len() == i,
                forall|k: int| 0 <= k < i ==> all@[k] == before[#[trigger] fds@[k]],
            decreases fds.len() - i,
        {
            let fd = fds[i];
            proof {
                assert(fds@.to_set().contains(fd));
                assert(!fds@.take(i as int).contains(fd));
                assert(fds@.take(i + 1) =~= fds@.take(i as int).push(fd));
                fds@.take(i as int).lemma_push_to_set_commute(fd);
                assert(self.sockets().contains_key(fd));
            }
            match self.table.remove(fd) {
                Some(s) => {
                    all.push(s);
                },
                None => {},
            }
            proof {
                assert(self.sockets() =~= before.remove_keys(fds@.take(i + 1).to_set()));
            }
            i += 1;
        }
        proof {
            assert(fds@.take(fds.len() as int) =~= fds@);
            assert(self.sockets() =~= Map::<i32, S>::empty());
            assert forall|s: S| all@.contains(s) <==> before.values().contains(s) by {
                if all@.contains(s) {
                    let k = choose|k: int| 0 <= k < all@.len() && all@[k] == s;
                    assert(fds@.to_set().contains(fds@[k]));
                    assert(before.dom().contains(fds@[k]));
                }
                if before.values().contains(s) {
                    let fd = choose|fd: i32| before.dom().contains(fd) && before[fd] == s;
                    assert(fds@.to_set().contains(fd));
                    let k = choose|k: int| 0 <= k < fds@.len() && fds@[k] == fd;
                    assert(all@[k] == s);
                }
            }
        }
        all
    }
}

} // verus!

verus! {

/// `-errno`, the form in which the imports return an error.
pub fn neg_errno(errno: i32) -> (r: i32)
    requires
        errno > i32::MIN,
    ensures
        r == -errno,
{
    -errno
}

/// A guest length, checked to be neither negative nor above `MAX_IO_LEN`
/// (`EINVAL`).
pub fn checked_len(len: i32) -> (r: Result<usize, i32>)
    ensures
        r == if 0 <= len <= MAX_IO_LEN {
            Ok::<usize, i32>(len as usize)
        } else {
            Err::<usize, i32>(errno::EINVAL)
        },
{
    if len < 0 || len as u32 as usize > MAX_IO_LEN {
        return Err(errno::EINVAL);
    }
    Ok(len as u32 as usize)
}

/// The bytes `ptr .. ptr + len` of a guest memory of `memory_len` bytes: a
/// negative pointer or a range past the end is `EFAULT`, a bad length
/// `EINVAL`.
pub fn checked_range(ptr: i32, len: i32, memory_len: usize) -> (r: Result<
    core::ops::Range<usize>,
    i32,
>)
    ensures
        match r {
            Ok(range) => 0 <= ptr && 0 <= len <= MAX_IO_LEN && range.start == ptr && range.end
                == ptr + len && range.end <= memory_len,
            Err(e) => if ptr < 0 {
                e == errno::EFAULT
            } else if !(0 <= len <= MAX_IO_LEN) {
                e == errno::EINVAL
            } else {
                e == errno::EFAULT && ptr + len > memory_len
            },
        },
{
    if ptr < 0 {
        return Err(errno::EFAULT);
    }
    let start = ptr as u32 as usize;
    let len = checked_len(len)?;
    let end = match start.checked_add(len) {
        Some(end) => end,
        None => return Err(errno::EFAULT),
    };
    if end > memory_len {
        return Err(errno::EFAULT);
    }
    Ok(start..end)
}

/// A length the host reported back (of an address or an option it wrote
/// into a buffer of `capacity` bytes): one beyond the buffer, or a negative
/// one, is `EIO`.
pub fn checked_reported_len(reported: i64, capacity: usize) -> (r: Result<usize, i32>)
    ensures
        r == if 0 <= reported <= capacity {
            Ok::<usize, i32>(reported as usize)
        } else {
            Err::<usize, i32>(errno::EIO)
        },
{
    if reported < 0 {
        return Err(errno::EIO);
    }
    if reported as u64 > capacity as u64 {
        return Err(errno::EIO);
    }
    Ok(reported as usize)
}

/// A guest `nfds`, checked to be neither negative nor above `MAX_POLL_FDS`
/// (`EINVAL`).
pub fn checked_poll_count(nfds: i32) -> (r: Result<usize, i32>)
    ensures
        r == if 0 <= nfds <= MAX_POLL_FDS {
            Ok::<usize, i32>(nfds as usize)
        } else {
            Err::<usize, i32>(errno::EINVAL)
        },
{
    if nfds < 0 || nfds as u32 as usize > MAX_POLL_FDS {
        return Err(errno::EINVAL);
    }
    Ok(nfds as u32 as usize)
}

/// A socket type in the host's encoding, with the flags the guest asked for.
#[derive(Clone, Copy, Debug, PartialEq, Eq, Structural)]
pub struct NormalizedSocketType {
    pub ty: i32,
    pub close_on_exec: bool,
    pub nonblocking: bool,
}

/// The host's socket-type flag bits (`SOCK_CLOEXEC | SOCK_NONBLOCK`).
pub fn host_socket_flag_mask(c: &HostSocketConsts) -> (mask: i32)
    ensures
        mask == c.sock_cloexec | c.sock_nonblock,
{
    c.sock_cloexec | c.sock_nonblock
}

/// Whether `flags` holds the host's `SOCK_CLOEXEC`.
pub fn has_host_sock_cloexec(flags: i32, c: &HostSocketConsts) -> (r: bool)
    ensures
        r == (flags & c.sock_cloexec != 0),
{
    flags & c.sock_cloexec != 0
}

/// Whether `flags` holds the host's `SOCK_NONBLOCK`.
pub fn has_host_sock_nonblock(flags: i32, c: &HostSocketConsts) -> (r: bool)
    ensures
        r == (flags & c.sock_nonblock != 0),
{
    flags & c.sock_nonblock != 0
}

/// The host socket type of the guest's `ty`: the flag bits of either
/// encoding are split off, the base type is `SOCK_STREAM` or `SOCK_DGRAM` in
/// the host's or wasi-libc's numbering, anything else is `EOPNOTSUPP`.
pub open spec fn socket_type_of(ty: i32, c: HostSocketConsts) -> Result<NormalizedSocketType, i32> {
    let mask = c.sock_cloexec | c.sock_nonblock | WASI_ALT_SOCK_CLOEXEC | WASI_ALT_SOCK_NONBLOCK;
    let base = ty & !mask;
    let flags = ty & mask;
    if base == c.sock_stream || base == WASI_ALT_SOCK_STREAM || base == c.sock_dgram || base
        == WASI_ALT_SOCK_DGRAM {
        Ok(
            NormalizedSocketType {
                ty: if base == c.sock_stream || base == WASI_ALT_SOCK_STREAM {
                    c.sock_stream
                } else {
                    c.sock_dgram
                },
                close_on_exec: flags & c.sock_cloexec != 0 || flags & WASI_ALT_SOCK_CLOEXEC != 0,
                nonblocking: flags & c.sock_nonblock != 0 || flags & WASI_ALT_SOCK_NONBLOCK != 0,
            },
        )
    } else {
        Err(errno::EOPNOTSUPP)
    }
}

/// Law (socket type): a type whose base (the type without the host's
/// `SOCK_CLOEXEC`/`SOCK_NONBLOCK` and wasi-libc's 0x2000/0x4000 bits) is the
/// host's stream type or wasi-libc's 6 is a stream socket, one whose base is
/// the host's datagram type or 5 (and not a stream base) a datagram socket,
/// and any other is refused with `EOPNOTSUPP` (58). A socket made is
/// non-blocking exactly when the type holds the host's `SOCK_NONBLOCK` bit or
/// 0x4000, and close-on-exec exactly when it holds the host's `SOCK_CLOEXEC`
/// bit or 0x2000.
pub proof fn lemma_socket_type_flags(ty: i32, c: HostSocketConsts)
    ensures
        ({
            let base = ty & !(c.sock_cloexec | c.sock_nonblock | 0x2000 | 0x4000);
            &&& (base == c.sock_stream || base == 6) ==> (socket_type_of(ty, c) is Ok
                && socket_type_of(ty, c)->Ok_0.ty == c.sock_stream)
            &&& !(base == c.sock_stream || base == 6) && (base == c.sock_dgram || base == 5)
                ==> (socket_type_of(ty, c) is Ok && socket_type_of(ty, c)->Ok_0.ty == c.sock_dgram)
            &&& !(base == c.sock_stream || base == 6 || base == c.sock_dgram || base == 5)
                ==> socket_type_of(ty, c) == Err::<NormalizedSocketType, i32>(58)
        }),
        socket_type_of(ty, c) matches Ok(t) ==> {
            &&& t.nonblocking == (ty & c.sock_nonblock != 0 || ty & 0x4000 != 0)
            &&& t.close_on_exec == (ty & c.sock_cloexec != 0 || ty & 0x2000 != 0)
        },
{
    let a = c.sock_cloexec;
    let b = c.sock_nonblock;
    assert((ty & (a | b | 0x2000 | 0x4000)) & b == ty & b) by (bit_vector);
    assert((ty & (a | b | 0x2000 | 0x4000)) & a == ty & a) by (bit_vector);
    assert((ty & (a | b | 0x2000 | 0x4000)) & 0x4000 == ty & 0x4000) by (bit_vector);
    assert((ty & (a | b | 0x2000 | 0x4000)) & 0x2000 == ty & 0x2000) by (bit_vector);
}

/// Translates the guest's socket type (see `socket_type_of`).
pub fn normalize_socket_type(ty: i32, c: &HostSocketConsts) -> (r: Result<NormalizedSocketType, i32>)
    ensures
        r == socket_type_of(ty, *c),
{
    let flag_mask = host_socket_flag_mask(c) | WASI_ALT_SOCK_CLOEXEC | WASI_ALT_SOCK_NONBLOCK;
    let base = ty & !flag_mask;
    let flags = ty & flag_mask;
    let host_ty = if base == c.sock_stream || base == WASI_ALT_SOCK_STREAM {
        c.sock_stream
    } else if base == c.sock_dgram || base == WASI_ALT_SOCK_DGRAM {
        c.sock_dgram
    } else {
        return Err(errno::EOPNOTSUPP);
    };
    Ok(
        NormalizedSocketType {
            ty: host_ty,
            close_on_exec: has_host_sock_cloexec(flags, c) || flags & WASI_ALT_SOCK_CLOEXEC != 0,
            nonblocking: has_host_sock_nonblock(flags, c) || flags & WASI_ALT_SOCK_NONBLOCK != 0,
        },
    )
}

/// The host address family of the guest's `domain`: wasi-libc's `AF_INET`
/// (1) becomes the host's `AF_INET`; every other value is passed on.
pub fn normalize_socket_domain(domain: i32, c: &HostSocketConsts) -> (r: i32)
    ensures
        r == if domain == WASI_ALT_AF_INET {
            c.af_inet
        } else {
            domain
        },
{
    if domain == WASI_ALT_AF_INET {
        c.af_inet
    } else if domain == c.af_inet {
        c.af_inet
    } else if domain == c.af_inet6 {
        c.af_inet6
    } else {
        domain
    }
}

/// Whether `level` is the guest's `SOL_SOCKET` (1 in the POSIX encoding,
/// `0x7fffffff` in wasi-libc's).
pub fn is_guest_socket_level(level: i32) -> (r: bool)
    ensures
        r == (level == 1 || level == WASI_SOL_SOCKET),
{
    level == 1 || level == WASI_SOL_SOCKET
}

/// The host option level of the guest's `level`: the guest's `SOL_SOCKET`
/// becomes the host's, other levels are passed on.
pub fn normalize_socket_level(level: i32, c: &HostSocketConsts) -> (r: i32)
    ensures
        r == if level == 1 || level == WASI_SOL_SOCKET {
            c.sol_socket
        } else {
            level
        },
{
    if is_guest_socket_level(level) {
        c.sol_socket
    } else {
        level
    }
}

/// What the `fcntl` import does with a command.
#[derive(Clone, Copy, Debug, PartialEq, Eq, Structural)]
pub enum FcntlCommand {
    GetFlags,
    SetFlags,
    Unsupported,
}

/// The command of the guest's `cmd`: `F_GETFL` (3), `F_SETFL` (4) or none.
pub fn fcntl_command(cmd: i32) -> (r: FcntlCommand)
    ensures
        r == if cmd == WASI_F_GETFL {
            FcntlCommand::GetFlags
        } else if cmd == WASI_F_SETFL {
            FcntlCommand::SetFlags
        } else {
            FcntlCommand::Unsupported
        },
{
    if cmd == WASI_F_GETFL {
        FcntlCommand::GetFlags
    } else if cmd == WASI_F_SETFL {
        FcntlCommand::SetFlags
    } else {
        FcntlCommand::Unsupported
    }
}

/// The guest's view of the host status flags `host_flags`: only the
/// non-blocking bit is reported.
pub fn guest_status_flags(host_flags: i32, c: &HostSocketConsts) -> (r: i32)
    ensures
        r == if host_flags & c.o_nonblock != 0 {
            WASI_O_NONBLOCK
        } else {
            0
        },
{
    if host_flags & c.o_nonblock != 0 {
        WASI_O_NONBLOCK
    } else {
        0
    }
}

/// Law (fcntl round trip): after the guest's `F_SETFL` with `arg`, its
/// `F_GETFL` reports exactly the non-blocking bit of `arg`, and every host
/// status flag other than `O_NONBLOCK` is kept; this holds for any non-zero
/// host `O_NONBLOCK`.
pub proof fn lemma_status_flags_round_trip(host_flags: i32, arg: i32, o_nonblock: i32)
    requires
        o_nonblock != 0,
    ensures
        ({
            let set = if arg & WASI_O_NONBLOCK != 0 {
                host_flags | o_nonblock
            } else {
                host_flags & !o_nonblock
            };
            &&& (if set & o_nonblock != 0 {
                WASI_O_NONBLOCK
            } else {
                0
            }) == arg & WASI_O_NONBLOCK
            &&& set & !o_nonblock == host_flags & !o_nonblock
        }),
{
    assert(((host_flags | o_nonblock) & o_nonblock) == o_nonblock) by (bit_vector);
    assert(((host_flags & !o_nonblock) & o_nonblock) == 0) by (bit_vector);
    assert(((host_flags | o_nonblock) & !o_nonblock) == (host_flags & !o_nonblock)) by (bit_vector);
    assert(((host_flags & !o_nonblock) & !o_nonblock) == (host_flags & !o_nonblock)) by (bit_vector);
    assert(arg & 4 == 0 || arg & 4 == 4) by (bit_vector);
}

/// The host status flags after the guest's `F_SETFL` with `arg`: the
/// non-blocking bit follows the guest's, the other bits stay.
pub fn host_status_flags(host_flags: i32, arg: i32, c: &HostSocketConsts) -> (r: i32)
    ensures
        r == if arg & WASI_O_NONBLOCK != 0 {
            host_flags | c.o_nonblock
        } else {
            host_flags & !c.o_nonblock
        },
{
    if arg & WASI_O_NONBLOCK != 0 {
        host_flags | c.o_nonblock
    } else {
        host_flags & !c.o_nonblock
    }
}

/// A socket address `addr` with the address family `family` in its first two
/// bytes, in the machine's byte order; addresses shorter than two bytes, and
/// families that do not fit in 16 bits, stay as they are.
pub open spec fn with_family(addr: Seq<u8>, family: i32) -> Seq<u8> {
    if addr.len() >= 2 && 0 <= family <= u16::MAX {
        let b = host_abi::u16_native_bytes(family as u16);
        addr.update(0, b[0]).update(1, b[1])
    } else {
        addr
    }
}

/// Writes the address family `family` into the first two bytes of a socket
/// address, in the machine's byte order (see `with_family`).
pub fn write_sockaddr_family(addr: &mut Vec<u8>, family: i32)
    ensures
        final(addr)@ == with_family(old(addr)@, family),
{
    if addr.len() < 2 {
        return;
    }
    if family < 0 || family > u16::MAX as i32 {
        return;
    }
    let bytes = host_abi::u16_to_ne_bytes(family as u16);
    addr.set(0, bytes[0]);
    addr.set(1, bytes[1]);
}

/// Puts the host's address family into a guest socket address.
pub fn normalize_sockaddr_for_host(addr: &mut Vec<u8>, host_domain: i32)
    ensures
        final(addr)@ == with_family(old(addr)@, host_domain),
{
    write_sockaddr_family(addr, host_domain);
}

/// Puts the guest's address family into a host socket address.
pub fn denormalize_sockaddr_for_guest(addr: &mut Vec<u8>, guest_domain: i32)
    ensures
        final(addr)@ == with_family(old(addr)@, guest_domain),
{
    write_sockaddr_family(addr, guest_domain);
}

/// Law: writing an address family keeps the length and every byte after the
/// first two, and an address that carried the guest's family `g` (in the
/// machine's byte order) is given back unchanged when the host's family `h`
/// is written and then `g` again.
pub proof fn lemma_family_round_trip(addr: Seq<u8>, g: i32, h: i32)
    requires
        addr.len() >= 2,
        0 <= g <= u16::MAX,
        addr.take(2) == host_abi::u16_native_bytes(g as u16),
    ensures
        with_family(addr, h).len() == addr.len(),
        forall|k: int| 2 <= k < addr.len() ==> #[trigger] with_family(addr, h)[k] == addr[k],
        with_family(with_family(addr, h), g) == addr,
{
    let b = host_abi::u16_native_bytes(g as u16);
    assert(addr[0] == b[0] && addr[1] == b[1]) by {
        assert(addr.take(2)[0] == addr[0]);
        assert(addr.take(2)[1] == addr[1]);
    }
    assert(with_family(with_family(addr, h), g) =~= addr);
}

/// The guest errno of the host OS error `raw`; `EIO` when there is none.
pub fn guest_errno_of_os_error(raw: Option<i32>) -> (e: i32)
    ensures
        is_translated_errno(e),
        raw is None ==> e == errno::EIO,
        raw matches Some(code) ==> e == host_errno_to_guest(errno::native_errno_values(), code),
{
    match raw {
        Some(code) => errno::from_host_errno(code),
        None => errno::EIO,
    }
}

/// The guest errno of the calling thread's last OS error.
pub fn last_errno() -> (e: i32)
    ensures
        is_translated_errno(e),
{
    let err = host_abi::last_os_error();
    guest_errno_of_os_error(host_abi::raw_os_error(&err))
}

/// `-errno` of the calling thread's last OS error, in the guest ABI.
pub fn neg_last_errno() -> (r: i32)
    ensures
        is_translated_errno((-r) as i32),
        r < 0,
{
    let e = last_errno();
    proof {
        lemma_translated_errno_positive(e);
    }
    -e
}

/// Every guest errno a translation yields is positive.
pub proof fn lemma_translated_errno_positive(e: i32)
    requires
        is_translated_errno(e),
    ensures
        0 < e <= errno::ENOTCAPABLE,
{
    if e != errno::EIO {
        let k = choose|k: int| 0 <= k < errno::guest_errno_order().len()
            && errno::guest_errno_order()[k] == e;
        assert(0 < errno::guest_errno_order()[k] <= errno::ENOTCAPABLE);
    }
}

/// The import result of a host call that returned `rc`: `rc` itself, or
/// for a negative `rc` the negated guest errno of the thread's OS error.
pub fn cvt_i32(rc: i32) -> (r: i32)
    ensures
        rc >= 0 ==> r == rc,
        rc < 0 ==> r < 0 && is_translated_errno((-r) as i32),
{
    if rc < 0 {
        neg_last_errno()
    } else {
        rc
    }
}

/// As `cvt_i32` for a byte count; a count beyond `i32::MAX` is
/// `-EOVERFLOW`.
pub fn cvt_ssize(rc: isize) -> (r: i32)
    ensures
        0 <= rc <= i32::MAX ==> r == rc,
        rc > i32::MAX ==> r == -errno::EOVERFLOW,
        rc < 0 ==> r < 0 && is_translated_errno((-r) as i32),
{
    if rc < 0 {
        return neg_last_errno();
    }
    if rc > i32::MAX as isize {
        neg_errno(errno::EOVERFLOW)
    } else {
        rc as i32
    }
}

} // verus!

verus! {

/// One guest `pollfd`: descriptor and requested events.
#[derive(Clone, Copy, Debug, PartialEq, Eq, Structural)]
pub struct GuestPollFd {
    pub fd: i32,
    pub events: i16,
}

/// The guest `pollfd` records in `bytes`, eight bytes each: a
/// little-endian descriptor, then the little-endian events.
pub open spec fn pollfds_of(bytes: Seq<u8>) -> Seq<GuestPollFd> {
    Seq::new(
        bytes.len() / 8,
        |k: int|
            GuestPollFd {
                fd: i32_from_le(bytes.subrange(8 * k, 8 * k + 4)),
                events: i16_from_le(bytes[8 * k + 4], bytes[8 * k + 5]),
            },
    )
}

/// Reads the guest's `pollfd` array.
pub fn parse_pollfds(bytes: &[u8]) -> (fds: Vec<GuestPollFd>)
    ensures
        fds@ == pollfds_of(bytes@),
{
    let len = bytes.len();
    let n = len / 8;
    let mut fds: Vec<GuestPollFd> = Vec::new();
    let mut k: usize = 0;
    while k < n
        invariant
            k <= n == len / 8,
            len == bytes@.len(),
            fds@ == pollfds_of(bytes@).take(k as int),
        decreases n - k,
    {
        assert(8 * k + 8 <= len) by (nonlinear_arith)
            requires
                k < n,
                n == len / 8,
        ;
        let base = 8 * k;
        let word = [bytes[base], bytes[base + 1], bytes[base + 2], bytes[base + 3]];
        assert(word@ =~= bytes@.subrange(base as int, base + 4));
        let fd = read_i32_le(&word);
        let events = read_i16_le(bytes[base + 4], bytes[base + 5]);
        fds.push(GuestPollFd { fd, events });
        k += 1;
        assert(fds@ =~= pollfds_of(bytes@).take(k as int));
    }
    assert(fds@ =~= pollfds_of(bytes@));
    fds
}

/// The host `pollfd` of a guest one: negative descriptors are passed on (the
/// host ignores them), others must be open guest sockets.
pub open spec fn host_poll_fd(p: GuestPollFd, sockets: Map<i32, HostSocket>) -> Option<(i32, i16)> {
    if p.fd < 0 {
        Some((p.fd, p.events))
    } else if sockets.contains_key(p.fd) {
        Some((sockets[p.fd].raw_fd, p.events))
    } else {
        None
    }
}

/// The host descriptors and events to poll, or `EBADF` when a descriptor is
/// not an open guest socket.
pub fn host_pollfds(guest: &Vec<GuestPollFd>, sockets: &HostSockets<HostSocket>) -> (r: Result<
    Vec<(i32, i16)>,
    i32,
>)
    ensures
        match r {
            Ok(host) => host@.len() == guest@.len() && forall|k: int|
                0 <= k < guest@.len() ==> host_poll_fd(#[trigger] guest@[k], sockets.sockets())
                    == Some(host@[k]),
            Err(e) => e == errno::EBADF && exists|k: int|
                0 <= k < guest@.len() && host_poll_fd(#[trigger] guest@[k], sockets.sockets())
                    is None,
        },
{
    let mut host: Vec<(i32, i16)> = Vec::new();
    let mut k: usize = 0;
    while k < guest.len()
        invariant
            k <= guest.len(),
            host@.len() == k,
            forall|j: int|
                0 <= j < k ==> host_poll_fd(#[trigger] guest@[j], sockets.sockets()) == Some(
                    host@[j],
                ),
        decreases guest.len() - k,
    {
        let p = guest[k];
        let raw = if p.fd < 0 {
            p.fd
        } else {
            match sockets.get(p.fd) {
                Ok(socket) => socket.raw_fd,
                Err(e) => {
                    assert(host_poll_fd(guest@[k as int], sockets.sockets()) is None);
                    return Err(e);
                },
            }
        };
        host.push((raw, p.events));
        k += 1;
    }
    Ok(host)
}

/// Where the `revents` of record `index` lies in guest memory: six bytes
/// into the record; `None` when that address does not fit in an `i32`.
pub fn revents_ptr(fds_ptr: i32, index: usize) -> (r: Option<i32>)
    requires
        index < MAX_POLL_FDS,
    ensures
        r == if fds_ptr + 8 * index + 6 <= i32::MAX {
            Some((fds_ptr + 8 * index + 6) as i32)
        } else {
            None::<i32>
        },
{
    let offset = (index as i64) * 8 + 6;
    let ptr = fds_ptr as i64 + offset;
    if ptr > i32::MAX as i64 {
        None
    } else {
        Some(ptr as i32)
    }
}

/// The guest's `SO_ERROR` value of the host's `host`: 0 (no pending error)
/// stays 0, as POSIX and the Windows import report it, rather than becoming
/// `EIO`; any other host errno is put in the guest's numbering.
pub open spec fn so_error_value(host: i32) -> i32 {
    if host == 0 {
        0
    } else {
        host_errno_to_guest(errno::native_errno_values(), host)
    }
}

/// After a host `getsockopt`: a `SO_ERROR` value at the guest's
/// `SOL_SOCKET` level is a host errno, and is put in the guest's numbering
/// (`so_error_value`, both in the machine's byte order). Other options are
/// left alone.
pub fn translate_so_error(level: i32, optname: i32, optval: &mut Vec<u8>, optlen: usize)
    requires
        optlen <= old(optval)@.len(),
    ensures
        final(optval)@.len() == old(optval)@.len(),
        forall|k: int| 4 <= k < old(optval)@.len() ==> final(optval)@[k] == old(optval)@[k],
        !((level == 1 || level == WASI_SOL_SOCKET) && optname == WASI_SO_ERROR && optlen >= 4)
            ==> final(optval)@ == old(optval)@,
        (level == 1 || level == WASI_SOL_SOCKET) && optname == WASI_SO_ERROR && optlen >= 4 ==> {
            &&& exists|host: i32| #[trigger]
                host_abi::i32_native_bytes(host) == old(optval)@.take(4)
            &&& forall|host: i32| #[trigger]
                host_abi::i32_native_bytes(host) == old(optval)@.take(4) ==> final(optval)@.take(4)
                    == host_abi::i32_native_bytes(so_error_value(host))
        },
{
    if is_guest_socket_level(level) && optname == WASI_SO_ERROR && optlen >= 4 {
        let word = [optval[0], optval[1], optval[2], optval[3]];
        assert(word@ =~= old(optval)@.take(4));
        let host_error = host_abi::i32_from_ne_bytes(word);
        let guest_error = if host_error == 0 {
            0
        } else {
            errno::from_host_errno(host_error)
        };
        let bytes = host_abi::i32_to_ne_bytes(guest_error);
        optval.set(0, bytes[0]);
        optval.set(1, bytes[1]);
        optval.set(2, bytes[2]);
        optval.set(3, bytes[3]);
        assert(optval@.take(4) =~= bytes@);
    }
}

} // verus!
