//! Big-endian reads from a byte buffer.

use byteorder::{BigEndian, ByteOrder};
use vstd::prelude::*;
use vstd::slice::{slice_subrange, slice_to_vec};

verus! {

/// The unsigned 16-bit number that the two bytes at `at` spell, high byte
/// first.
pub open spec fn be16(s: Seq<u8>, at: int) -> int {
    s[at] as int * 0x100 + s[at + 1] as int
}

/// The unsigned 32-bit number that the four bytes at `at` spell, high byte
/// first.
pub open spec fn be32(s: Seq<u8>, at: int) -> int {
    be16(s, at) * 0x1_0000 + be16(s, at + 2)
}

/// The signed reading of a 16-bit number.
pub open spec fn signed16(v: int) -> int {
    if v < 0x8000 {
        v
    } else {
        v - 0x1_0000
    }
}

/// The signed reading of a 32-bit number.
pub open spec fn signed32(v: int) -> int {
    if v < 0x8000_0000 {
        v
    } else {
        v - 0x1_0000_0000
    }
}

/// `byteorder::BigEndian::read_u16`: the first two bytes of `buf`, read as a
/// big-endian unsigned number. The outside function panics on a shorter
/// slice, which `requires` leaves out.
#[verifier::external_body]
fn big_endian_u16(buf: &[u8]) -> (r: u16)
    requires
        buf@.len() >= 2,
    ensures
        r as int == be16(buf@, 0),
{
    BigEndian::read_u16(buf)
}

/// `byteorder::BigEndian::read_u32`: the first four bytes of `buf`, read as
/// a big-endian unsigned number. The outside function panics on a shorter
/// slice, which `requires` leaves out.
#[verifier::external_body]
fn big_endian_u32(buf: &[u8]) -> (r: u32)
    requires
        buf@.len() >= 4,
    ensures
        r as int == be32(buf@, 0),
{
    BigEndian::read_u32(buf)
}

/// `byteorder::BigEndian::read_i16`: the first two bytes of `buf`, read as a
/// big-endian two's complement number. The outside function panics on a
/// shorter slice, which `requires` leaves out.
#[verifier::external_body]
fn big_endian_i16(buf: &[u8]) -> (r: i16)
    requires
        buf@.len() >= 2,
    ensures
        r as int == signed16(be16(buf@, 0)),
{
    BigEndian::read_i16(buf)
}

/// `byteorder::BigEndian::read_i32`: the first four bytes of `buf`, read as
/// a big-endian two's complement number. The outside function panics on a
/// shorter slice, which `requires` leaves out.
#[verifier::external_body]
fn big_endian_i32(buf: &[u8]) -> (r: i32)
    requires
        buf@.len() >= 4,
    ensures
        r as int == signed32(be32(buf@, 0)),
{
    BigEndian::read_i32(buf)
}

/// The byte at `at`, or `None` past the end.
pub fn read_u8(buf: &[u8], at: usize) -> (r: Option<u8>)
    ensures
        r == if at < buf@.len() { Some(buf@[at as int]) } else { None },
{
    if at < buf.len() {
        Some(buf[at])
    } else {
        None
    }
}

/// The unsigned 16-bit number at `at`, or `None` where the buffer ends
/// before its second byte.
pub fn read_u16(buf: &[u8], at: usize) -> (r: Option<u16>)
    ensures
        r is Some <==> at + 2 <= buf@.len(),
        r is Some ==> r->0 as int == be16(buf@, at as int),
{
    if at <= buf.len() && buf.len() - at >= 2 {
        Some(big_endian_u16(slice_subrange(buf, at, at + 2)))
    } else {
        None
    }
}

/// The unsigned 32-bit number at `at`, or `None` where the buffer ends
/// before its fourth byte.
pub fn read_u32(buf: &[u8], at: usize) -> (r: Option<u32>)
    ensures
        r is Some <==> at + 4 <= buf@.len(),
        r is Some ==> r->0 as int == be32(buf@, at as int),
{
    if at <= buf.len() && buf.len() - at >= 4 {
        Some(big_endian_u32(slice_subrange(buf, at, at + 4)))
    } else {
        None
    }
}

/// The signed 16-bit number at `at`, or `None` where the buffer ends before
/// its second byte.
pub fn read_i16(buf: &[u8], at: usize) -> (r: Option<i16>)
    ensures
        r is Some <==> at + 2 <= buf@.len(),
        r is Some ==> r->0 as int == signed16(be16(buf@, at as int)),
{
    if at <= buf.len() && buf.len() - at >= 2 {
        Some(big_endian_i16(slice_subrange(buf, at, at + 2)))
    } else {
        None
    }
}

/// The signed 32-bit number at `at`, or `None` where the buffer ends before
/// its fourth byte.
pub fn read_i32(buf: &[u8], at: usize) -> (r: Option<i32>)
    ensures
        r is Some <==> at + 4 <= buf@.len(),
        r is Some ==> r->0 as int == signed32(be32(buf@, at as int)),
{
    if at <= buf.len() && buf.len() - at >= 4 {
        Some(big_endian_i32(slice_subrange(buf, at, at + 4)))
    } else {
        None
    }
}

/// A copy of the `len` bytes at `at`, or `None` where they overrun the
/// buffer.
pub fn read_bytes(buf: &[u8], at: usize, len: usize) -> (r: Option<Vec<u8>>)
    ensures
        r is Some <==> at + len <= buf@.len(),
        r is Some ==> r->0@ == buf@.subrange(at as int, at + len),
{
    if at <= buf.len() && buf.len() - at >= len {
        Some(slice_to_vec(slice_subrange(buf, at, at + len)))
    } else {
        None
    }
}

} // verus!
