//! Chunk files: a header, then the chunk's bytes, stored plain or zlib-compressed.

use vstd::prelude::*;
use vstd::slice::{slice_subrange, slice_to_vec};
use crate::bytes::{spec_be_u32, spec_le_u32, be_u32_at, le_u32_at};
use crate::codec::{inflate, zlib_inflate, sha1, sha1_digest};
use crate::manifest::{sha_at, read_sha};
use crate::wire::WireError;

verus! {

pub const CHUNK_MAGIC: u32 = 0xB1FE3AA2;

/// Chunks are padded with zeros to this length before they are hashed.
pub const CHUNK_WINDOW: usize = 1048576;

/// Where the header fields end: the SHA-1 sum and hash type come with version 2,
/// the uncompressed size with version 3.
pub open spec fn chunk_header_end(version: u32) -> int {
    if version >= 3 {
        66
    } else if version >= 2 {
        62
    } else {
        41
    }
}

/// `c` followed by zeros up to `CHUNK_WINDOW` bytes; `c` where it is no shorter.
pub open spec fn pad_to_window(c: Seq<u8>) -> Seq<u8> {
    if c.len() < CHUNK_WINDOW {
        c + Seq::new((CHUNK_WINDOW - c.len()) as nat, |i: int| 0u8)
    } else {
        c
    }
}

/// The header fields that a chunk's body is read after all succeed: the
/// big-endian magic matches and the fixed fields of its version are present.
pub open spec fn chunk_header_readable(d: Seq<u8>) -> bool {
    &&& d.len() >= 4
    &&& spec_be_u32(d, 0) == CHUNK_MAGIC
    &&& d.len() >= 41
    &&& d.len() >= chunk_header_end(spec_le_u32(d, 4))
}

/// Reading a chunk does not fail on a header size that reaches past its end.
pub open spec fn chunk_body_in_bounds(d: Seq<u8>) -> bool {
    chunk_header_readable(d) ==> spec_le_u32(d, 8) <= d.len()
}

/// What `parse_chunk` gives: the chunk's bytes from the offset that the header
/// gives (inflated where bit 0 of the flag byte at 40 is set), cut to the
/// uncompressed size of a version 3 header (1 MiB before it), and checked, from
/// version 2 on, against the header's SHA-1 sum of the zero-padded or the
/// unpadded bytes.
pub open spec fn spec_parse_chunk(d: Seq<u8>) -> Result<Seq<u8>, WireError> {
    if d.len() < 4 {
        Err(WireError::Truncated)
    } else if spec_be_u32(d, 0) != CHUNK_MAGIC {
        Err(WireError::BadChunkMagic(spec_be_u32(d, 0)))
    } else if d.len() < 41 || d.len() < chunk_header_end(spec_le_u32(d, 4)) {
        Err(WireError::Truncated)
    } else {
        let version = spec_le_u32(d, 4);
        let start = spec_le_u32(d, 8) as int;
        let size = if version >= 3 { spec_le_u32(d, 62) as int } else { CHUNK_WINDOW as int };
        let stored = if d[40] & 1 != 0 { zlib_inflate(d.skip(start)) } else { Some(d.skip(start)) };
        match stored {
            None => Err(WireError::Inflate),
            Some(c) => {
                let fin = if c.len() > size { c.take(size) } else { c };
                if version >= 2 && sha1_digest(pad_to_window(fin)) != sha_at(d, 41)
                    && sha1_digest(fin) != sha_at(d, 41) {
                    Err(WireError::ShaMismatch {
                        expected: sha_at(d, 41),
                        padded: sha1_digest(pad_to_window(fin)),
                        raw: sha1_digest(fin),
                    })
                } else {
                    Ok(fin)
                }
            },
        }
    }
}

/// Whether `parse_chunk` can be called on `data`: false exactly where the
/// header's size field reaches past the data's end.
pub fn chunk_header_fits(data: &[u8]) -> (r: bool)
    ensures
        r == chunk_body_in_bounds(data@),
{
    let len = data.len();
    if len < 41 || be_u32_at(data, 0) != CHUNK_MAGIC {
        return true;
    }
    let version = le_u32_at(data, 4);
    let end: usize = if version >= 3 { 66 } else if version >= 2 { 62 } else { 41 };
    if len < end {
        return true;
    }
    le_u32_at(data, 8) as usize <= len
}

/// Copies `c` and pads the copy with zeros to `CHUNK_WINDOW` bytes.
pub(crate) fn padded(c: &[u8]) -> (r: Vec<u8>)
    ensures
        r@ == pad_to_window(c@),
{
    let mut v = slice_to_vec(c);
    if v.len() < CHUNK_WINDOW {
        let ghost start = v@;
        while v.len() < CHUNK_WINDOW
            invariant
                start == c@,
                v@.len() <= CHUNK_WINDOW,
                v@.len() >= start.len(),
                v@ == start + Seq::new((v@.len() - start.len()) as nat, |i: int| 0u8),
            decreases CHUNK_WINDOW - v@.len(),
        {
            let ghost before = v@;
            v.push(0u8);
            assert(v@ =~= start + Seq::new((v@.len() - start.len()) as nat, |i: int| 0u8));
        }
    }
    v
}

/// Whether two SHA-1 sums are equal.
pub fn sha_equal(a: &[u8; 20], b: &[u8; 20]) -> (r: bool)
    ensures
        r == (*a == *b),
{
    let mut i: usize = 0;
    while i < 20
        invariant
            i <= 20,
            forall|j: int| 0 <= j < i ==> a@[j] == b@[j],
        decreases 20 - i,
    {
        if a[i] != b[i] {
            return false;
        }
        i += 1;
    }
    assert(a@ =~= b@);
    proof {
        broadcast use vstd::array::group_array_axioms;
        assert(*a == *b);
    }
    true
}

/// Reads a chunk file: checks its magic and SHA-1 sum, and gives its bytes.
pub fn parse_chunk(data: &[u8]) -> (r: Result<Vec<u8>, WireError>)
    requires
        chunk_body_in_bounds(data@),
    ensures
        match (r, spec_parse_chunk(data@)) {
            (Ok(v), Ok(s)) => v@ == s,
            (Err(e), Err(f)) => e == f,
            _ => false,
        },
{
    let len = data.len();
    if len < 4 {
        return Err(WireError::Truncated);
    }
    let magic = be_u32_at(data, 0);
    if magic != CHUNK_MAGIC {
        return Err(WireError::BadChunkMagic(magic));
    }
    if len < 41 {
        return Err(WireError::Truncated);
    }
    let version = le_u32_at(data, 4);
    let end: usize = if version >= 3 { 66 } else if version >= 2 { 62 } else { 41 };
    if len < end {
        return Err(WireError::Truncated);
    }
    let start = le_u32_at(data, 8) as usize;
    let stored_as = data[40];
    let size: usize = if version >= 3 { le_u32_at(data, 62) as usize } else { CHUNK_WINDOW };
    let rest = slice_subrange(data, start, len);
    assert(rest@ =~= data@.skip(start as int));
    let chunk: Vec<u8> = if stored_as & 1 != 0 {
        match inflate(rest) {
            Some(v) => v,
            None => return Err(WireError::Inflate),
        }
    } else {
        slice_to_vec(rest)
    };
    let fin: Vec<u8> = if chunk.len() > size {
        let cut = slice_to_vec(slice_subrange(chunk.as_slice(), 0, size));
        assert(cut@ =~= chunk@.take(size as int));
        cut
    } else {
        chunk
    };
    if version >= 2 {
        let expected = read_sha(data, 41);
        let pad = padded(fin.as_slice());
        let padded_sum = sha1(pad.as_slice());
        let raw_sum = sha1(fin.as_slice());
        if !sha_equal(&padded_sum, &expected) && !sha_equal(&raw_sum, &expected) {
            return Err(WireError::ShaMismatch { expected, padded: padded_sum, raw: raw_sum });
        }
    }
    Ok(fin)
}

/// What `decompress_chunk` gives: after a little-endian magic and the header
/// fields of the chunk's version, the number of bytes that the compressed-size
/// field at 12 gives, inflated where bit 0 of the flag byte at 40 is set.
pub open spec fn spec_decompress_chunk(d: Seq<u8>) -> Result<Seq<u8>, WireError> {
    if d.len() < 4 {
        Err(WireError::Truncated)
    } else if spec_le_u32(d, 0) != CHUNK_MAGIC {
        Err(WireError::BadChunkMagic(spec_le_u32(d, 0)))
    } else if d.len() < 41 || d.len() < chunk_header_end(spec_le_u32(d, 4)) {
        Err(WireError::Truncated)
    } else {
        let start = chunk_header_end(spec_le_u32(d, 4));
        let end = start + spec_le_u32(d, 12) as int;
        if end > d.len() {
            Err(WireError::CompressedSizeTooLarge)
        } else if d[40] & 1 != 0 {
            match zlib_inflate(d.subrange(start, end)) {
                Some(c) => Ok(c),
                None => Err(WireError::Inflate),
            }
        } else {
            Ok(d.subrange(start, end))
        }
    }
}

/// Reads a downloaded chunk and gives its (inflated) bytes.
pub fn decompress_chunk(buffer: &[u8]) -> (r: Result<Vec<u8>, WireError>)
    ensures
        match (r, spec_decompress_chunk(buffer@)) {
            (Ok(v), Ok(s)) => v@ == s,
            (Err(e), Err(f)) => e == f,
            _ => false,
        },
{
    let len = buffer.len();
    if len < 4 {
        return Err(WireError::Truncated);
    }
    let magic = le_u32_at(buffer, 0);
    if magic != CHUNK_MAGIC {
        return Err(WireError::BadChunkMagic(magic));
    }
    if len < 41 {
        return Err(WireError::Truncated);
    }
    let version = le_u32_at(buffer, 4);
    let start: usize = if version >= 3 { 66 } else if version >= 2 { 62 } else { 41 };
    if len < start {
        return Err(WireError::Truncated);
    }
    let compressed = le_u32_at(buffer, 12) as u64;
    if start as u64 + compressed > len as u64 {
        return Err(WireError::CompressedSizeTooLarge);
    }
    let end = start + compressed as usize;
    let data = slice_subrange(buffer, start, end);
    if buffer[40] & 1 != 0 {
        match inflate(data) {
            Some(v) => Ok(v),
            None => Err(WireError::Inflate),
        }
    } else {
        Ok(slice_to_vec(data))
    }
}

} // verus!
