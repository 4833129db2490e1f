//! Big-endian integer encoding, as used throughout the class-file format.

use byteorder::{BigEndian, ByteOrder};
use vstd::prelude::*;

verus! {

/// The unsigned value of two bytes, most significant first.
pub open spec fn word16(hi: u8, lo: u8) -> u16 {
    (((hi as u16) << 8u16) | (lo as u16)) as u16
}

/// The unsigned value of four bytes, most significant first.
pub open spec fn word32(b0: u8, b1: u8, b2: u8, b3: u8) -> u32 {
    (((b0 as u32) << 24u32) | ((b1 as u32) << 16u32) | ((b2 as u32) << 8u32) | (b3 as u32)) as u32
}

/// The two bytes of `n`, most significant first.
pub open spec fn bytes16(n: u16) -> Seq<u8> {
    seq![(n >> 8u16) as u8, n as u8]
}

/// The four bytes of `n`, most significant first.
pub open spec fn bytes32(n: u32) -> Seq<u8> {
    seq![(n >> 24u32) as u8, (n >> 16u32) as u8, (n >> 8u32) as u8, n as u8]
}

/// A byte read as a two's complement value.
pub open spec fn signed8(b: u8) -> int {
    if b < 0x80 { b as int } else { b as int - 0x100 }
}

/// Two bytes read as a two's complement value.
pub open spec fn signed16(u: u16) -> int {
    if u < 0x8000 { u as int } else { u as int - 0x1_0000 }
}

/// Four bytes read as a two's complement value.
pub open spec fn signed32(u: u32) -> int {
    if u < 0x8000_0000 { u as int } else { u as int - 0x1_0000_0000 }
}

/// The two's complement byte of a value in `-128..=127`.
pub open spec fn unsigned8(v: int) -> u8 {
    (if v >= 0 { v } else { v + 0x100 }) as u8
}

/// The two's complement bits of a value in `-32768..=32767`.
pub open spec fn unsigned16(v: int) -> u16 {
    (if v >= 0 { v } else { v + 0x1_0000 }) as u16
}

/// The two's complement bits of an `i32` value.
pub open spec fn unsigned32(v: int) -> u32 {
    (if v >= 0 { v } else { v + 0x1_0000_0000 }) as u32
}

/// The unsigned 16-bit value at `pos`.
pub open spec fn u16_at(b: Seq<u8>, pos: int) -> u16 {
    word16(b[pos], b[pos + 1])
}

/// The unsigned 32-bit value at `pos`.
pub open spec fn u32_at(b: Seq<u8>, pos: int) -> u32 {
    word32(b[pos], b[pos + 1], b[pos + 2], b[pos + 3])
}

pub proof fn lemma_bytes16_word16(hi: u8, lo: u8)
    ensures
        bytes16(word16(hi, lo)) == seq![hi, lo],
{
    assert((((((hi as u16) << 8u16) | (lo as u16)) as u16) >> 8u16) as u8 == hi) by (bit_vector);
    assert(((((hi as u16) << 8u16) | (lo as u16)) as u16) as u8 == lo) by (bit_vector);
    assert(bytes16(word16(hi, lo)) =~= seq![hi, lo]);
}

pub proof fn lemma_bytes32_word32(b0: u8, b1: u8, b2: u8, b3: u8)
    ensures
        bytes32(word32(b0, b1, b2, b3)) == seq![b0, b1, b2, b3],
{
    let w = word32(b0, b1, b2, b3);
    assert(w == (((b0 as u32) << 24u32) | ((b1 as u32) << 16u32) | ((b2 as u32) << 8u32) | (
    b3 as u32)) as u32);
    assert((((((b0 as u32) << 24u32) | ((b1 as u32) << 16u32) | ((b2 as u32) << 8u32) | (
    b3 as u32)) as u32) >> 24u32) as u8 == b0) by (bit_vector);
    assert((((((b0 as u32) << 24u32) | ((b1 as u32) << 16u32) | ((b2 as u32) << 8u32) | (
    b3 as u32)) as u32) >> 16u32) as u8 == b1) by (bit_vector);
    assert((((((b0 as u32) << 24u32) | ((b1 as u32) << 16u32) | ((b2 as u32) << 8u32) | (
    b3 as u32)) as u32) >> 8u32) as u8 == b2) by (bit_vector);
    assert(((((b0 as u32) << 24u32) | ((b1 as u32) << 16u32) | ((b2 as u32) << 8u32) | (
    b3 as u32)) as u32) as u8 == b3) by (bit_vector);
    assert(bytes32(w) =~= seq![b0, b1, b2, b3]);
}

pub proof fn lemma_signed8(b: u8)
    ensures
        -0x80 <= signed8(b) < 0x80,
        unsigned8(signed8(b)) == b,
{
}

pub proof fn lemma_signed16(u: u16)
    ensures
        -0x8000 <= signed16(u) < 0x8000,
        unsigned16(signed16(u)) == u,
{
}

pub proof fn lemma_signed32(u: u32)
    ensures
        -0x8000_0000 <= signed32(u) < 0x8000_0000,
        unsigned32(signed32(u)) == u,
{
}

/// Relies on byteorder's `BigEndian::read_u16`: the two bytes at `pos`, most significant first.
#[verifier::external_body]
pub(crate) fn read_u16(buf: &[u8], pos: usize) -> (r: u16)
    requires
        pos + 2 <= buf@.len(),
    ensures
        r == u16_at(buf@, pos as int),
{
    BigEndian::read_u16(&buf[pos..])
}

/// Relies on byteorder's `BigEndian::read_u32`: the four bytes at `pos`, most significant first.
#[verifier::external_body]
pub(crate) fn read_u32(buf: &[u8], pos: usize) -> (r: u32)
    requires
        pos + 4 <= buf@.len(),
    ensures
        r == u32_at(buf@, pos as int),
{
    BigEndian::read_u32(&buf[pos..])
}

/// Relies on byteorder's `BigEndian::read_i16`: the two bytes at `pos` as a two's complement value.
#[verifier::external_body]
pub(crate) fn read_i16(buf: &[u8], pos: usize) -> (r: i16)
    requires
        pos + 2 <= buf@.len(),
    ensures
        r as int == signed16(u16_at(buf@, pos as int)),
{
    BigEndian::read_i16(&buf[pos..])
}

/// Relies on byteorder's `BigEndian::read_i32`: the four bytes at `pos` as a two's complement value.
#[verifier::external_body]
pub(crate) fn read_i32(buf: &[u8], pos: usize) -> (r: i32)
    requires
        pos + 4 <= buf@.len(),
    ensures
        r as int == signed32(u32_at(buf@, pos as int)),
{
    BigEndian::read_i32(&buf[pos..])
}

/// Relies on byteorder's `BigEndian::write_u16`: appends the two bytes of `n`, most significant first.
#[verifier::external_body]
pub(crate) fn write_u16(out: &mut Vec<u8>, n: u16)
    ensures
        final(out)@ == old(out)@ + bytes16(n),
{
    let mut buf = [0u8; 2];
    BigEndian::write_u16(&mut buf, n);
    out.extend_from_slice(&buf);
}

/// Relies on byteorder's `BigEndian::write_u32`: appends the four bytes of `n`, most significant first.
#[verifier::external_body]
pub(crate) fn write_u32(out: &mut Vec<u8>, n: u32)
    ensures
        final(out)@ == old(out)@ + bytes32(n),
{
    let mut buf = [0u8; 4];
    BigEndian::write_u32(&mut buf, n);
    out.extend_from_slice(&buf);
}

/// Relies on byteorder's `BigEndian::write_i16`: appends the two's complement bytes of `n`.
#[verifier::external_body]
pub(crate) fn write_i16(out: &mut Vec<u8>, n: i16)
    ensures
        final(out)@ == old(out)@ + bytes16(unsigned16(n as int)),
{
    let mut buf = [0u8; 2];
    BigEndian::write_i16(&mut buf, n);
    out.extend_from_slice(&buf);
}

/// Relies on byteorder's `BigEndian::write_i32`: appends the two's complement bytes of `n`.
#[verifier::external_body]
pub(crate) fn write_i32(out: &mut Vec<u8>, n: i32)
    ensures
        final(out)@ == old(out)@ + bytes32(unsigned32(n as int)),
{
    let mut buf = [0u8; 4];
    BigEndian::write_i32(&mut buf, n);
    out.extend_from_slice(&buf);
}

/// A byte as a two's complement value.
pub fn byte_to_i8(b: u8) -> (r: i8)
    ensures
        r as int == signed8(b),
{
    if b < 0x80 {
        b as i8
    } else {
        (b as i16 - 0x100) as i8
    }
}

/// The two's complement byte of `v`.
pub fn i8_to_byte(v: i8) -> (r: u8)
    ensures
        r == unsigned8(v as int),
{
    if v >= 0 {
        v as u8
    } else {
        (v as i16 + 0x100) as u8
    }
}

} // verus!
