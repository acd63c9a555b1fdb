//! Little-endian integers in guest memory.

use vstd::prelude::*;

verus! {

/// The `u32` of four little-endian bytes.
pub open spec fn u32_from_le(b: Seq<u8>) -> u32 {
    (b[0] as int + 256 * b[1] as int + 65536 * b[2] as int + 16777216 * b[3] as int) as u32
}

/// The four little-endian bytes of a `u32`.
pub open spec fn u32_to_le(x: u32) -> Seq<u8> {
    seq![
        (x % 256) as u8,
        ((x / 256) % 256) as u8,
        ((x / 65536) % 256) as u8,
        (x / 16777216) as u8,
    ]
}

/// The `i32` of four little-endian bytes (two's complement).
pub open spec fn i32_from_le(b: Seq<u8>) -> i32 {
    let v = u32_from_le(b) as int;
    (if v > i32::MAX {
        v - 4294967296
    } else {
        v
    }) as i32
}

/// The four little-endian bytes of an `i32` (two's complement).
pub open spec fn i32_to_le(x: i32) -> Seq<u8> {
    u32_to_le(
        (if x < 0 {
            x + 4294967296
        } else {
            x as int
        }) as u32,
    )
}

/// The `i16` of two little-endian bytes (two's complement).
pub open spec fn i16_from_le(b0: u8, b1: u8) -> i16 {
    let v = b0 as int + 256 * b1 as int;
    (if v > i16::MAX {
        v - 65536
    } else {
        v
    }) as i16
}

/// The `u64` of eight little-endian bytes.
pub open spec fn u64_from_le(b: Seq<u8>) -> u64 {
    (b[0] as int + 0x100 * b[1] as int + 0x1_0000 * b[2] as int + 0x100_0000 * b[3] as int
        + 0x1_0000_0000 * b[4] as int + 0x100_0000_0000 * b[5] as int + 0x1_0000_0000_0000
        * b[6] as int + 0x100_0000_0000_0000 * b[7] as int) as u64
}

/// The `i64` of eight little-endian bytes (two's complement).
pub open spec fn i64_from_le(b: Seq<u8>) -> i64 {
    let v = u64_from_le(b) as int;
    (if v > i64::MAX {
        v - 0x1_0000_0000_0000_0000
    } else {
        v
    }) as i64
}

/// Eight little-endian bytes are fixed by the `i64` they encode.
pub proof fn lemma_i64_le_unique(a: Seq<u8>, b: Seq<u8>)
    requires
        a.len() == 8,
        b.len() == 8,
        i64_from_le(a) == i64_from_le(b),
    ensures
        a == b,
{
    assert(u64_from_le(a) == u64_from_le(b));
    let (a0, a1, a2, a3, a4, a5, a6, a7) = (a[0], a[1], a[2], a[3], a[4], a[5], a[6], a[7]);
    let (b0, b1, b2, b3, b4, b5, b6, b7) = (b[0], b[1], b[2], b[3], b[4], b[5], b[6], b[7]);
    assert(a0 == b0 && a1 == b1 && a2 == b2 && a3 == b3 && a4 == b4 && a5 == b5 && a6 == b6
        && a7 == b7) by (bit_vector)
        requires
            a0 + 0x100 * a1 + 0x1_0000 * a2 + 0x100_0000 * a3 + 0x1_0000_0000 * a4
                + 0x100_0000_0000 * a5 + 0x1_0000_0000_0000 * a6 + 0x100_0000_0000_0000 * a7 == b0
                + 0x100 * b1 + 0x1_0000 * b2 + 0x100_0000 * b3 + 0x1_0000_0000 * b4
                + 0x100_0000_0000 * b5 + 0x1_0000_0000_0000 * b6 + 0x100_0000_0000_0000 * b7,
    ;
    assert(a =~= b);
}

/// Reads a little-endian `i64` (`i64::from_le_bytes`).
pub fn read_i64_le(b: &[u8]) -> (x: i64)
    requires
        b@.len() == 8,
    ensures
        x == i64_from_le(b@),
{
    let v: u64 = b[0] as u64 + 0x100 * b[1] as u64 + 0x1_0000 * b[2] as u64 + 0x100_0000
        * b[3] as u64 + 0x1_0000_0000 * b[4] as u64 + 0x100_0000_0000 * b[5] as u64
        + 0x1_0000_0000_0000 * b[6] as u64 + 0x100_0000_0000_0000 * b[7] as u64;
    if v > i64::MAX as u64 {
        (v as i128 - 0x1_0000_0000_0000_0000) as i64
    } else {
        v as i64
    }
}

/// The little-endian bytes of an `i64` (`i64::to_le_bytes`), two's
/// complement for a negative value.
pub fn write_i64_le(x: i64) -> (b: [u8; 8])
    ensures
        i64_from_le(b@) == x,
{
    let q0 = x as u64;
    assert(x < 0 ==> (x as i128) + 0x1_0000_0000_0000_0000i128 == (q0 as i128)) by (bit_vector)
        requires
            q0 == x as u64,
    ;
    assert(x >= 0 ==> (x as i128) == (q0 as i128)) by (bit_vector)
        requires
            q0 == x as u64,
    ;
    let q1 = q0 / 256;
    let q2 = q1 / 256;
    let q3 = q2 / 256;
    let q4 = q3 / 256;
    let q5 = q4 / 256;
    let q6 = q5 / 256;
    let q7 = q6 / 256;
    assert(q0 == q0 % 256 + 256 * q1);
    assert(q1 == q1 % 256 + 256 * q2);
    assert(q2 == q2 % 256 + 256 * q3);
    assert(q3 == q3 % 256 + 256 * q4);
    assert(q4 == q4 % 256 + 256 * q5);
    assert(q5 == q5 % 256 + 256 * q6);
    assert(q6 == q6 % 256 + 256 * q7);
    assert(q7 < 256) by {
        assert(q0 <= u64::MAX);
    }
    let b = [
        (q0 % 256) as u8,
        (q1 % 256) as u8,
        (q2 % 256) as u8,
        (q3 % 256) as u8,
        (q4 % 256) as u8,
        (q5 % 256) as u8,
        (q6 % 256) as u8,
        q7 as u8,
    ];
    assert(u64_from_le(b@) == q0);
    b
}

/// Reads a little-endian `u32` (`u32::from_le_bytes`).
pub fn read_u32_le(b: &[u8]) -> (x: u32)
    requires
        b@.len() == 4,
    ensures
        x == u32_from_le(b@),
{
    b[0] as u32 + 256 * b[1] as u32 + 65536 * b[2] as u32 + 16777216 * b[3] as u32
}

/// The little-endian bytes of a `u32` (`u32::to_le_bytes`).
pub fn write_u32_le(x: u32) -> (b: [u8; 4])
    ensures
        b@ == u32_to_le(x),
{
    let b = [
        (x % 256) as u8,
        ((x / 256) % 256) as u8,
        ((x / 65536) % 256) as u8,
        (x / 16777216) as u8,
    ];
    assert(b@ =~= u32_to_le(x));
    b
}

/// Reads a little-endian `i32` (`i32::from_le_bytes`).
pub fn read_i32_le(b: &[u8]) -> (x: i32)
    requires
        b@.len() == 4,
    ensures
        x == i32_from_le(b@),
{
    let v = read_u32_le(b);
    if v > i32::MAX as u32 {
        (v as i64 - 4294967296) as i32
    } else {
        v as i32
    }
}

/// Reads a little-endian `i16` (`i16::from_le_bytes`).
pub fn read_i16_le(b0: u8, b1: u8) -> (x: i16)
    ensures
        x == i16_from_le(b0, b1),
{
    let v = b0 as u32 + 256 * b1 as u32;
    if v > i16::MAX as u32 {
        (v as i32 - 65536) as i16
    } else {
        v as i16
    }
}

/// The little-endian bytes of an `i16` (`i16::to_le_bytes`).
pub fn write_i16_le(x: i16) -> (b: [u8; 2])
    ensures
        i16_from_le(b[0], b[1]) == x,
{
    let v: u32 = if x < 0 {
        (x as i32 + 65536) as u32
    } else {
        x as u32
    };
    [(v % 256) as u8, (v / 256) as u8]
}

} // verus!
