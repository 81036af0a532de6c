//! Big-endian interpretation of byte sequences.
//!
//! The IDX container stores every multi-byte quantity big-endian. The spec
//! functions here say what a big-endian field means as a number; the
//! executable decoders call into `byteorder` and are trusted to agree with
//! those spec functions.

use vstd::prelude::*;

use byteorder::ByteOrder;

verus! {

/// The unsigned 16-bit value stored big-endian in the first two bytes of `b`.
pub open spec fn be_u16(b: Seq<u8>) -> u16
    recommends
        b.len() >= 2,
{
    (b[0] * 0x100 + b[1]) as u16
}

/// The unsigned 32-bit value stored big-endian in the first four bytes of `b`.
pub open spec fn be_u32(b: Seq<u8>) -> u32
    recommends
        b.len() >= 4,
{
    (b[0] * 0x1000000 + b[1] * 0x10000 + b[2] * 0x100 + b[3]) as u32
}

/// The signed 16-bit value whose two's-complement bits are stored big-endian
/// in the first two bytes of `b`.
pub open spec fn be_i16(b: Seq<u8>) -> i16
    recommends
        b.len() >= 2,
{
    let u = b[0] * 0x100 + b[1];
    if u < 0x8000 {
        u as i16
    } else {
        (u - 0x10000) as i16
    }
}

/// The signed 32-bit value whose two's-complement bits are stored big-endian
/// in the first four bytes of `b`.
pub open spec fn be_i32(b: Seq<u8>) -> i32
    recommends
        b.len() >= 4,
{
    let u = b[0] * 0x1000000 + b[1] * 0x10000 + b[2] * 0x100 + b[3];
    if u < 0x80000000 {
        u as i32
    } else {
        (u - 0x100000000) as i32
    }
}

/// Relies on `byteorder::BigEndian::read_u16` (an impl of
/// `byteorder::ByteOrder`): it returns `u16::from_be_bytes` of the first two
/// bytes, the most significant byte first.
#[verifier::external_body]
pub(crate) fn read_be_u16(b: &[u8]) -> (r: u16)
    requires
        b@.len() == 2,
    ensures
        r == be_u16(b@),
{
    byteorder::BigEndian::read_u16(b)
}

/// Relies on `byteorder::BigEndian::read_u32` (an impl of
/// `byteorder::ByteOrder`): it returns `u32::from_be_bytes` of the first four
/// bytes, the most significant byte first.
#[verifier::external_body]
pub(crate) fn read_be_u32(b: &[u8]) -> (r: u32)
    requires
        b@.len() == 4,
    ensures
        r == be_u32(b@),
{
    byteorder::BigEndian::read_u32(b)
}

/// Relies on `byteorder::BigEndian::read_i16` (an impl of
/// `byteorder::ByteOrder`): it reinterprets the big-endian 16-bit value of the
/// first two bytes as a two's-complement signed integer.
#[verifier::external_body]
pub(crate) fn read_be_i16(b: &[u8]) -> (r: i16)
    requires
        b@.len() == 2,
    ensures
        r == be_i16(b@),
{
    byteorder::BigEndian::read_i16(b)
}

/// Relies on `byteorder::BigEndian::read_i32` (an impl of
/// `byteorder::ByteOrder`): it reinterprets the big-endian 32-bit value of the
/// first four bytes as a two's-complement signed integer.
#[verifier::external_body]
pub(crate) fn read_be_i32(b: &[u8]) -> (r: i32)
    requires
        b@.len() == 4,
    ensures
        r == be_i32(b@),
{
    byteorder::BigEndian::read_i32(b)
}

} // verus!
