//! Little- and big-endian integer decoding at byte offsets.

use vstd::prelude::*;
use byteorder::{BigEndian, ByteOrder, LittleEndian};

verus! {

/// The unsigned 32-bit value of the four bytes of `s` at `pos`, least significant first.
pub open spec fn spec_le_u32(s: Seq<u8>, pos: int) -> u32 {
    (s[pos] as int + s[pos + 1] as int * 0x100 + s[pos + 2] as int * 0x1_0000
        + s[pos + 3] as int * 0x100_0000) as u32
}

/// The unsigned 32-bit value of the four bytes of `s` at `pos`, most significant first.
pub open spec fn spec_be_u32(s: Seq<u8>, pos: int) -> u32 {
    (s[pos + 3] as int + s[pos + 2] as int * 0x100 + s[pos + 1] as int * 0x1_0000
        + s[pos] as int * 0x100_0000) as u32
}

/// The unsigned 64-bit value of the eight bytes of `s` at `pos`, least significant first.
pub open spec fn spec_le_u64(s: Seq<u8>, pos: int) -> u64 {
    (spec_le_u32(s, pos) as int + spec_le_u32(s, pos + 4) as int * 0x1_0000_0000) as u64
}

/// `LittleEndian::read_u32` (byteorder): the first four bytes of the buffer, least
/// significant first. It panics on fewer than four bytes, which `requires` rules out.
#[verifier::external_body]
pub(crate) fn le_u32_at(data: &[u8], pos: usize) -> (r: u32)
    requires
        pos + 4 <= data@.len(),
    ensures
        r == spec_le_u32(data@, pos as int),
{
    LittleEndian::read_u32(&data[pos..])
}

/// `BigEndian::read_u32` (byteorder): the first four bytes of the buffer, most
/// significant first. It panics on fewer than four bytes, which `requires` rules out.
#[verifier::external_body]
pub(crate) fn be_u32_at(data: &[u8], pos: usize) -> (r: u32)
    requires
        pos + 4 <= data@.len(),
    ensures
        r == spec_be_u32(data@, pos as int),
{
    BigEndian::read_u32(&data[pos..])
}

/// `LittleEndian::read_u64` (byteorder): the first eight bytes of the buffer, least
/// significant first. It panics on fewer than eight bytes, which `requires` rules out.
#[verifier::external_body]
pub(crate) fn le_u64_at(data: &[u8], pos: usize) -> (r: u64)
    requires
        pos + 8 <= data@.len(),
    ensures
        r == spec_le_u64(data@, pos as int),
{
    LittleEndian::read_u64(&data[pos..])
}

/// Reads a little-endian `u32` at `pos`, or `None` where fewer than four bytes remain.
pub fn read_u32(data: &[u8], pos: usize) -> (r: Option<u32>)
    ensures
        pos + 4 <= data@.len() ==> r == Some(spec_le_u32(data@, pos as int)),
        pos + 4 > data@.len() ==> r is None,
{
    if pos <= data.len() && data.len() - pos >= 4 {
        Some(le_u32_at(data, pos))
    } else {
        None
    }
}

} // verus!
