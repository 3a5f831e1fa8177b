//! Fixed-width integers inside byte strings.
//!
//! The spec functions give the value of a big-endian or little-endian field;
//! the executable readers delegate to the `byteorder` crate.

use byteorder::{BigEndian, ByteOrder, LittleEndian};
use vstd::prelude::*;

verus! {

/// Value of the two leading bytes of `b`, most significant byte first.
pub open spec fn be_u16(b: Seq<u8>) -> int {
    b[0] as int * 0x100 + b[1] as int
}

/// Value of the three leading bytes of `b`, most significant byte first.
pub open spec fn be_u24(b: Seq<u8>) -> int {
    b[0] as int * 0x1_0000 + b[1] as int * 0x100 + b[2] as int
}

/// Value of the four leading bytes of `b`, most significant byte first.
pub open spec fn be_u32(b: Seq<u8>) -> int {
    b[0] as int * 0x100_0000 + b[1] as int * 0x1_0000 + b[2] as int * 0x100 + b[3] as int
}

/// Value of the eight leading bytes of `b`, most significant byte first.
pub open spec fn be_u64(b: Seq<u8>) -> int {
    be_u32(b) * 0x1_0000_0000 + be_u32(b.subrange(4, 8))
}

/// Two's-complement reading of an unsigned 8-bit value.
pub open spec fn signed8(v: int) -> int {
    if v >= 0x80 {
        v - 0x100
    } else {
        v
    }
}

/// Two's-complement reading of an unsigned 16-bit value.
pub open spec fn signed16(v: int) -> int {
    if v >= 0x8000 {
        v - 0x1_0000
    } else {
        v
    }
}

/// Two's-complement reading of an unsigned 32-bit value.
pub open spec fn signed32(v: int) -> int {
    if v >= 0x8000_0000 {
        v - 0x1_0000_0000
    } else {
        v
    }
}

/// Two's-complement reading of an unsigned 64-bit value.
pub open spec fn signed64(v: int) -> int {
    if v >= 0x8000_0000_0000_0000 {
        v - 0x1_0000_0000_0000_0000
    } else {
        v
    }
}

/// The unsigned 64-bit value that has the same two's-complement bits as `n`.
pub open spec fn unsigned64(n: int) -> int {
    if n < 0 {
        n + 0x1_0000_0000_0000_0000
    } else {
        n
    }
}

/// The 256-adic digit `k` of `v`, counted from the least significant one.
pub open spec fn byte_digit(v: int, k: int) -> int
    decreases k,
{
    if k <= 0 {
        v % 0x100
    } else {
        byte_digit(v / 0x100, k - 1)
    }
}

/// The eight bytes of `n` in two's complement, least significant byte first.
pub open spec fn le_i64(n: i64) -> Seq<u8> {
    Seq::new(8, |k: int| byte_digit(unsigned64(n as int), k) as u8)
}

/// `ByteOrder::read_u16` of `BigEndian`: the value of the first two bytes,
/// most significant first. The outside function panics on a shorter slice.
#[verifier::external_body]
pub(crate) fn read_be_u16(b: &[u8]) -> (r: u16)
    requires
        b@.len() >= 2,
    ensures
        r as int == be_u16(b@),
{
    BigEndian::read_u16(b)
}

/// `ByteOrder::read_i16` of `BigEndian`: the first two bytes, most
/// significant first, read as two's complement.
#[verifier::external_body]
pub(crate) fn read_be_i16(b: &[u8]) -> (r: i16)
    requires
        b@.len() >= 2,
    ensures
        r as int == signed16(be_u16(b@)),
{
    BigEndian::read_i16(b)
}

/// `ByteOrder::read_u24` of `BigEndian`: the value of the first three bytes,
/// most significant first.
#[verifier::external_body]
pub(crate) fn read_be_u24(b: &[u8]) -> (r: u32)
    requires
        b@.len() >= 3,
    ensures
        r as int == be_u24(b@),
{
    BigEndian::read_u24(b)
}

/// `ByteOrder::read_u32` of `BigEndian`: the value of the first four bytes,
/// most significant first.
#[verifier::external_body]
pub(crate) fn read_be_u32(b: &[u8]) -> (r: u32)
    requires
        b@.len() >= 4,
    ensures
        r as int == be_u32(b@),
{
    BigEndian::read_u32(b)
}

/// `ByteOrder::read_i32` of `BigEndian`: the first four bytes, most
/// significant first, read as two's complement.
#[verifier::external_body]
pub(crate) fn read_be_i32(b: &[u8]) -> (r: i32)
    requires
        b@.len() >= 4,
    ensures
        r as int == signed32(be_u32(b@)),
{
    BigEndian::read_i32(b)
}

/// `ByteOrder::read_u64` of `BigEndian`: the value of the first eight bytes,
/// most significant first.
#[verifier::external_body]
pub(crate) fn read_be_u64(b: &[u8]) -> (r: u64)
    requires
        b@.len() >= 8,
    ensures
        r as int == be_u64(b@),
{
    BigEndian::read_u64(b)
}

/// `ByteOrder::read_i64` of `BigEndian`: the first eight bytes, most
/// significant first, read as two's complement.
#[verifier::external_body]
pub(crate) fn read_be_i64(b: &[u8]) -> (r: i64)
    requires
        b@.len() >= 8,
    ensures
        r as int == signed64(be_u64(b@)),
{
    BigEndian::read_i64(b)
}

/// `ByteOrder::write_i64` of `LittleEndian` into a fresh eight-byte buffer:
/// the two's-complement bytes of `n`, least significant first.
#[verifier::external_body]
pub(crate) fn write_le_i64(n: i64) -> (r: [u8; 8])
    ensures
        r@ == le_i64(n),
{
    let mut buf = [0u8; 8];
    LittleEndian::write_i64(&mut buf, n);
    buf
}

} // verus!
