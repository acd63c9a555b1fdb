//! Errno values of the wasm32-wasip1-threads guest ABI, and their translation
//! from host error codes.
//!
//! Host errno numbers depend on the platform. The guest is built against
//! wasi-libc, whose values are the WASI Preview 1 errno enumeration.

use vstd::prelude::*;

use crate::host_abi;

verus! {

pub const E2BIG: i32 = 1;
pub const EACCES: i32 = 2;
pub const EADDRINUSE: i32 = 3;
pub const EADDRNOTAVAIL: i32 = 4;
pub const EAFNOSUPPORT: i32 = 5;
pub const EAGAIN: i32 = 6;
pub const EALREADY: i32 = 7;
pub const EBADF: i32 = 8;
pub const EBUSY: i32 = 10;
pub const ECONNABORTED: i32 = 13;
pub const ECONNREFUSED: i32 = 14;
pub const ECONNRESET: i32 = 15;
pub const EDESTADDRREQ: i32 = 17;
pub const EEXIST: i32 = 20;
pub const EFAULT: i32 = 21;
pub const EFBIG: i32 = 22;
pub const EHOSTUNREACH: i32 = 23;
pub const EINPROGRESS: i32 = 26;
pub const EINTR: i32 = 27;
pub const EINVAL: i32 = 28;
pub const EIO: i32 = 29;
pub const EISCONN: i32 = 30;
pub const EISDIR: i32 = 31;
pub const ELOOP: i32 = 32;
pub const EMFILE: i32 = 33;
pub const EMSGSIZE: i32 = 35;
pub const ENAMETOOLONG: i32 = 37;
pub const ENETDOWN: i32 = 38;
pub const ENETRESET: i32 = 39;
pub const ENETUNREACH: i32 = 40;
pub const ENFILE: i32 = 41;
pub const ENOBUFS: i32 = 42;
pub const ENODEV: i32 = 43;
pub const ENOENT: i32 = 44;
pub const ENOMEM: i32 = 48;
pub const ENOPROTOOPT: i32 = 50;
pub const ENOSPC: i32 = 51;
pub const ENOSYS: i32 = 52;
pub const ENOTCONN: i32 = 53;
pub const ENOTDIR: i32 = 54;
pub const ENOTEMPTY: i32 = 55;
pub const ENOTSOCK: i32 = 57;
pub const ENOTSUP: i32 = 58;
pub const EOPNOTSUPP: i32 = ENOTSUP;
pub const EOVERFLOW: i32 = 61;
pub const EPERM: i32 = 63;
pub const EPIPE: i32 = 64;
pub const EPROTONOSUPPORT: i32 = 66;
pub const EPROTOTYPE: i32 = 67;
pub const ERANGE: i32 = 68;
pub const EROFS: i32 = 69;
pub const ESPIPE: i32 = 70;
pub const ETIMEDOUT: i32 = 73;
pub const ENOTCAPABLE: i32 = 76;

/// Number of host error codes that have a guest counterpart.
pub const HOST_ERRNO_COUNT: usize = 53;

/// The guest errno that each host code of the translation table stands for,
/// in table order. The host table lists `E2BIG, EACCES, EADDRINUSE,
/// EADDRNOTAVAIL, EAFNOSUPPORT, EAGAIN, EWOULDBLOCK, EALREADY, EBADF, ...,
/// ENOTSOCK, EOPNOTSUPP, ENOTSUP, EOVERFLOW, ..., ETIMEDOUT`; the aliases
/// `EWOULDBLOCK` and `EOPNOTSUPP` stand for `EAGAIN` and `ENOTSUP`.
pub open spec fn guest_errno_order() -> Seq<i32> {
    seq![
        E2BIG, EACCES, EADDRINUSE, EADDRNOTAVAIL, EAFNOSUPPORT, EAGAIN, EAGAIN, EALREADY,
        EBADF, EBUSY, ECONNABORTED, ECONNREFUSED, ECONNRESET, EDESTADDRREQ, EEXIST, EFAULT, EFBIG,
        EHOSTUNREACH, EINPROGRESS, EINTR, EINVAL, EISCONN, EISDIR, ELOOP, EMFILE, EMSGSIZE,
        ENAMETOOLONG, ENETDOWN, ENETRESET, ENETUNREACH, ENFILE, ENOBUFS, ENODEV, ENOENT, ENOMEM,
        ENOPROTOOPT, ENOSPC, ENOSYS, ENOTCONN, ENOTDIR, ENOTEMPTY, ENOTSOCK, ENOTSUP, ENOTSUP,
        EOVERFLOW, EPERM, EPIPE, EPROTONOSUPPORT, EPROTOTYPE, ERANGE, EROFS, ESPIPE, ETIMEDOUT,
    ]
}

/// The guest errno of the first table entry whose host code is `code`;
/// `EIO` when no entry has it.
pub open spec fn translate_errno(hosts: Seq<i32>, guests: Seq<i32>, code: i32) -> i32
    decreases hosts.len(),
{
    if hosts.len() == 0 || guests.len() == 0 {
        EIO
    } else if hosts[0] == code {
        guests[0]
    } else {
        translate_errno(hosts.drop_first(), guests.drop_first(), code)
    }
}

/// What the host code `code` becomes in the guest ABI, given the host's own
/// values `hosts` of the table's codes.
pub open spec fn host_errno_to_guest(hosts: Seq<i32>, code: i32) -> i32 {
    translate_errno(hosts, guest_errno_order(), code)
}

/// The guest errno values that a translation can produce.
pub open spec fn is_translated_errno(value: i32) -> bool {
    value == EIO || guest_errno_order().contains(value)
}

fn guest_errno_table() -> (table: [i32; 53])
    ensures
        table@ == guest_errno_order(),
{
    let table: [i32; 53] = [
        E2BIG, EACCES, EADDRINUSE, EADDRNOTAVAIL, EAFNOSUPPORT, EAGAIN, EAGAIN, EALREADY,
        EBADF, EBUSY, ECONNABORTED, ECONNREFUSED, ECONNRESET, EDESTADDRREQ, EEXIST, EFAULT, EFBIG,
        EHOSTUNREACH, EINPROGRESS, EINTR, EINVAL, EISCONN, EISDIR, ELOOP, EMFILE, EMSGSIZE,
        ENAMETOOLONG, ENETDOWN, ENETRESET, ENETUNREACH, ENFILE, ENOBUFS, ENODEV, ENOENT, ENOMEM,
        ENOPROTOOPT, ENOSPC, ENOSYS, ENOTCONN, ENOTDIR, ENOTEMPTY, ENOTSOCK, ENOTSUP, ENOTSUP,
        EOVERFLOW, EPERM, EPIPE, EPROTONOSUPPORT, EPROTOTYPE, ERANGE, EROFS, ESPIPE, ETIMEDOUT,
    ];
    assert(table@ =~= guest_errno_order());
    table
}

proof fn lemma_translate_skip(hosts: Seq<i32>, guests: Seq<i32>, code: i32, i: int)
    requires
        0 <= i < hosts.len(),
        hosts.len() == guests.len(),
        hosts[i] != code,
    ensures
        translate_errno(hosts.skip(i), guests.skip(i), code) == translate_errno(
            hosts.skip(i + 1),
            guests.skip(i + 1),
            code,
        ),
{
    assert(hosts.skip(i).drop_first() =~= hosts.skip(i + 1));
    assert(guests.skip(i).drop_first() =~= guests.skip(i + 1));
}

/// Translates `code` with the table `hosts` → `guests`: the guest value of
/// the first entry whose host value is `code`, `EIO` when there is none.
pub fn translate_with(hosts: &[i32], guests: &[i32], code: i32) -> (guest: i32)
    requires
        hosts@.len() == guests@.len(),
    ensures
        guest == translate_errno(hosts@, guests@, code),
{
    let mut i: usize = 0;
    proof {
        assert(hosts@.skip(0) =~= hosts@);
        assert(guests@.skip(0) =~= guests@);
    }
    while i < hosts.len()
        invariant
            i <= hosts@.len() == guests@.len(),
            translate_errno(hosts@, guests@, code) == translate_errno(
                hosts@.skip(i as int),
                guests@.skip(i as int),
                code,
            ),
        decreases hosts.len() - i,
    {
        if hosts[i] == code {
            return guests[i];
        }
        proof {
            lemma_translate_skip(hosts@, guests@, code, i as int);
        }
        i += 1;
    }
    EIO
}

/// Translates a host error code with the host's table `hosts` (the host
/// values of the table's codes, in table order).
pub fn translate_host_errno(hosts: &[i32; 53], code: i32) -> (guest: i32)
    ensures
        guest == host_errno_to_guest(hosts@, code),
{
    let guests = guest_errno_table();
    translate_with(hosts.as_slice(), guests.as_slice(), code)
}

/// The host's own values of the translation table's codes, as the build
/// target's C library gives them.
pub open spec fn native_errno_values() -> Seq<i32> {
    Seq::new(HOST_ERRNO_COUNT as nat, |k: int| host_abi::libc_errno_code(k as usize))
}

/// Translates an errno of the host C library into the guest ABI: the guest
/// errno of the first table entry whose host value is `code`, `EIO` when no
/// entry has it.
pub fn from_host_errno(code: i32) -> (guest: i32)
    ensures
        guest == host_errno_to_guest(native_errno_values(), code),
        is_translated_errno(guest),
{
    let mut hosts: Vec<i32> = Vec::new();
    let mut k: usize = 0;
    while k < HOST_ERRNO_COUNT
        invariant
            k <= HOST_ERRNO_COUNT,
            hosts@ == native_errno_values().take(k as int),
        decreases HOST_ERRNO_COUNT - k,
    {
        hosts.push(host_abi::native_errno_code(k));
        k += 1;
        assert(hosts@ =~= native_errno_values().take(k as int));
    }
    assert(hosts@ =~= native_errno_values());
    let guests = guest_errno_table();
    let guest = translate_with(hosts.as_slice(), guests.as_slice(), code);
    proof {
        lemma_translation_is_guest_errno(native_errno_values(), code);
    }
    guest
}

/// Law: whatever values the host gives its error codes, a translation yields
/// `EIO` or one of the guest errno values of the table.
pub proof fn lemma_translation_is_guest_errno(hosts: Seq<i32>, code: i32)
    ensures
        is_translated_errno(host_errno_to_guest(hosts, code)),
{
    lemma_translate_in(hosts, guest_errno_order(), code);
}

proof fn lemma_translate_in(hosts: Seq<i32>, guests: Seq<i32>, code: i32)
    ensures
        translate_errno(hosts, guests, code) == EIO || guests.contains(
            translate_errno(hosts, guests, code),
        ),
    decreases hosts.len(),
{
    if hosts.len() == 0 || guests.len() == 0 {
    } else if hosts[0] == code {
        assert(guests[0] == guests[0]);
        assert(guests.contains(guests[0]));
    } else {
        lemma_translate_in(hosts.drop_first(), guests.drop_first(), code);
        let r = translate_errno(hosts.drop_first(), guests.drop_first(), code);
        if r != EIO {
            let j = choose|j: int| 0 <= j < guests.drop_first().len() && guests.drop_first()[j] == r;
            assert(guests[j + 1] == r);
        }
    }
}

/// Law: a host code equal to the host's value of a table entry, and to no
/// earlier one, becomes that entry's guest errno.
pub proof fn lemma_translation_of_listed_code(hosts: Seq<i32>, i: int)
    requires
        hosts.len() == HOST_ERRNO_COUNT,
        0 <= i < HOST_ERRNO_COUNT,
        forall|j: int| 0 <= j < i ==> hosts[j] != hosts[i],
    ensures
        host_errno_to_guest(hosts, hosts[i]) == guest_errno_order()[i],
{
    lemma_translate_at(hosts, guest_errno_order(), hosts[i], i);
}

proof fn lemma_translate_at(hosts: Seq<i32>, guests: Seq<i32>, code: i32, i: int)
    requires
        hosts.len() == guests.len(),
        0 <= i < hosts.len(),
        hosts[i] == code,
        forall|j: int| 0 <= j < i ==> hosts[j] != code,
    ensures
        translate_errno(hosts, guests, code) == guests[i],
    decreases i,
{
    if i > 0 {
        assert(hosts[0] != code);
        lemma_translate_at(hosts.drop_first(), guests.drop_first(), code, i - 1);
    }
}

/// The WASI errno numbers of the table's entries, in table order: `2big` 1,
/// `acces` 2, `addrinuse` 3, `addrnotavail` 4, `afnosupport` 5, `again` 6
/// (twice: `EAGAIN` and `EWOULDBLOCK`), `already` 7, `badf` 8, `busy` 10,
/// ..., `notsup` 58 (twice: `EOPNOTSUPP` and `ENOTSUP`), ..., `timedout` 73.
pub open spec fn wasi_errno_numbers() -> Seq<i32> {
    seq![
        1i32, 2, 3, 4, 5, 6, 6, 7, 8, 10, 13, 14, 15, 17, 20, 21, 22, 23, 26, 27, 28, 30, 31, 32,
        33, 35, 37, 38, 39, 40, 41, 42, 43, 44, 48, 50, 51, 52, 53, 54, 55, 57, 58, 58, 61, 63, 64,
        66, 67, 68, 69, 70, 73,
    ]
}

/// Law (each name to its name): whatever values the host gives its error
/// codes, the host code at entry `k` of the table (when no earlier entry has
/// the same value) becomes the WASI errno of the same name, as numbered by
/// the WASI errno enumeration (`EADDRINUSE` becomes 3, `EADDRNOTAVAIL` 4,
/// ...).
pub proof fn lemma_entry_becomes_wasi_errno_of_its_name(hosts: Seq<i32>, k: int)
    requires
        hosts.len() == HOST_ERRNO_COUNT,
        0 <= k < HOST_ERRNO_COUNT,
        forall|j: int| 0 <= j < k ==> hosts[j] != hosts[k],
    ensures
        host_errno_to_guest(hosts, hosts[k]) == wasi_errno_numbers()[k],
{
    lemma_translation_of_listed_code(hosts, k);
    assert(guest_errno_order() =~= wasi_errno_numbers());
}

/// The guest errno of a Windows system error code.
pub open spec fn windows_error_to_guest(code: i32) -> i32 {
    if code == 2 || code == 3 {
        ENOENT
    } else if code == 5 {
        EACCES
    } else if code == 6 {
        EBADF
    } else if code == 8 || code == 14 {
        ENOMEM
    } else if code == 19 {
        EROFS
    } else if code == 32 {
        EBUSY
    } else if code == 33 {
        EAGAIN
    } else if code == 80 || code == 183 {
        EEXIST
    } else if code == 87 {
        EINVAL
    } else if code == 112 {
        ENOSPC
    } else if code == 145 {
        ENOTEMPTY
    } else if code == 267 {
        ENOTDIR
    } else if code == 995 {
        EINTR
    } else {
        EIO
    }
}

/// Translates a Windows system error code (`GetLastError`) into the guest ABI.
pub fn from_windows_error(code: i32) -> (guest: i32)
    ensures
        guest == windows_error_to_guest(code),
{
    match code {
        2 | 3 => ENOENT,
        5 => EACCES,
        6 => EBADF,
        8 | 14 => ENOMEM,
        19 => EROFS,
        32 => EBUSY,
        33 => EAGAIN,
        80 | 183 => EEXIST,
        87 => EINVAL,
        112 => ENOSPC,
        145 => ENOTEMPTY,
        267 => ENOTDIR,
        995 => EINTR,
        _ => EIO,
    }
}

} // verus!
