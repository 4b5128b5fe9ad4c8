//! Reading single words out of raw bytes, in either byte order.
//!
//! The specification side says what the integer value of a byte sequence is
//! ([`le_value`], [`be_value`], [`word_value`]); the executable side decodes
//! through the byteorder crate and is proved to return exactly that value.

use vstd::prelude::*;

use crate::{AuxvType, Endianness, WordWidth};

verus! {

/// The value of `bytes` read least-significant byte first.
pub open spec fn le_value(bytes: Seq<u8>) -> nat
    decreases bytes.len(),
{
    if bytes.len() == 0 {
        0
    } else {
        bytes[0] as nat + 256 * le_value(bytes.skip(1))
    }
}

/// The value of `bytes` read most-significant byte first.
pub open spec fn be_value(bytes: Seq<u8>) -> nat
    decreases bytes.len(),
{
    if bytes.len() == 0 {
        0
    } else {
        256 * be_value(bytes.drop_last()) + bytes.last() as nat
    }
}

/// The value of `bytes` read in the byte order `endian`.
pub open spec fn word_value(bytes: Seq<u8>, endian: Endianness) -> nat {
    match endian {
        Endianness::Little => le_value(bytes),
        Endianness::Big => be_value(bytes),
    }
}

/// Relies on byteorder's `LittleEndian::read_u32`: the first four bytes of
/// `buf`, least significant first. It panics on fewer than four bytes, so
/// that case is excluded here.
#[verifier::external_body]
fn le_read_u32(buf: &[u8]) -> (r: u32)
    requires
        buf@.len() >= 4,
    ensures
        r as nat == le_value(buf@.subrange(0, 4)),
{
    <byteorder::LittleEndian as byteorder::ByteOrder>::read_u32(buf)
}

/// Relies on byteorder's `LittleEndian::read_u64`: the first eight bytes of
/// `buf`, least significant first. It panics on fewer than eight bytes, so
/// that case is excluded here.
#[verifier::external_body]
fn le_read_u64(buf: &[u8]) -> (r: u64)
    requires
        buf@.len() >= 8,
    ensures
        r as nat == le_value(buf@.subrange(0, 8)),
{
    <byteorder::LittleEndian as byteorder::ByteOrder>::read_u64(buf)
}

/// Relies on byteorder's `BigEndian::read_u32`: the first four bytes of
/// `buf`, most significant first. It panics on fewer than four bytes, so
/// that case is excluded here.
#[verifier::external_body]
fn be_read_u32(buf: &[u8]) -> (r: u32)
    requires
        buf@.len() >= 4,
    ensures
        r as nat == be_value(buf@.subrange(0, 4)),
{
    <byteorder::BigEndian as byteorder::ByteOrder>::read_u32(buf)
}

/// Relies on byteorder's `BigEndian::read_u64`: the first eight bytes of
/// `buf`, most significant first. It panics on fewer than eight bytes, so
/// that case is excluded here.
#[verifier::external_body]
fn be_read_u64(buf: &[u8]) -> (r: u64)
    requires
        buf@.len() >= 8,
    ensures
        r as nat == be_value(buf@.subrange(0, 8)),
{
    <byteorder::BigEndian as byteorder::ByteOrder>::read_u64(buf)
}

/// Decode the word at the front of `buf`: `width` bytes in the byte order
/// `endian`. A 32-bit word lands in the low half of the result.
pub fn read_long(buf: &[u8], endian: Endianness, width: WordWidth) -> (r: AuxvType)
    requires
        buf@.len() >= width.spec_word_bytes(),
    ensures
        r as nat == word_value(buf@.subrange(0, width.spec_word_bytes() as int), endian),
{
    match (endian, width) {
        (Endianness::Little, WordWidth::Width32) => le_read_u32(buf) as u64,
        (Endianness::Little, WordWidth::Width64) => le_read_u64(buf),
        (Endianness::Big, WordWidth::Width32) => be_read_u32(buf) as u64,
        (Endianness::Big, WordWidth::Width64) => be_read_u64(buf),
    }
}

} // verus!
