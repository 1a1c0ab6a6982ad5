//! Readers for the fields of the manifest's binary layout: little-endian
//! integers at byte offsets and length-prefixed strings.

use vstd::prelude::*;
use vstd::utf8::*;
use vstd::slice::slice_subrange;
use crate::bytes::{le_u32_at, le_u64_at, spec_le_u32, spec_le_u64};
use crate::text::{decode_utf8_bytes, string_from_utf16, utf16_decode, string_of};
use crate::codec::{hex_of_int, hex_of_bytes, push_hex_u64, push_hex_bytes};

verus! {

/// Why the bytes of a manifest or chunk could not be read.
#[derive(Debug, Clone, Copy, PartialEq, Eq)]
pub enum WireError {
    /// The data ended before a field that had to be read.
    Truncated,
    /// A manifest did not start with the manifest magic; the value read.
    BadManifestMagic(u32),
    /// A chunk did not start with the chunk magic; the value read.
    BadChunkMagic(u32),
    /// A string was not valid UTF-8 or UTF-16, or its length prefix was `i32::MIN`.
    BadText,
    /// The zlib stream could not be inflated.
    Inflate,
    /// A chunk's SHA-1 did not match the one its header carries: the sum
    /// expected, and those of the zero-padded and of the unpadded bytes.
    ShaMismatch { expected: [u8; 20], padded: [u8; 20], raw: [u8; 20] },
    /// A chunk's compressed size reaches past its end.
    CompressedSizeTooLarge,
}

pub open spec fn sp_u8(s: Seq<u8>, p: int) -> Result<(u8, int), WireError> {
    if 0 <= p && p + 1 <= s.len() {
        Ok((s[p], p + 1))
    } else {
        Err(WireError::Truncated)
    }
}

pub open spec fn sp_u32(s: Seq<u8>, p: int) -> Result<(u32, int), WireError> {
    if 0 <= p && p + 4 <= s.len() {
        Ok((spec_le_u32(s, p), p + 4))
    } else {
        Err(WireError::Truncated)
    }
}

pub open spec fn sp_u64(s: Seq<u8>, p: int) -> Result<(u64, int), WireError> {
    if 0 <= p && p + 8 <= s.len() {
        Ok((spec_le_u64(s, p), p + 8))
    } else {
        Err(WireError::Truncated)
    }
}

/// The little-endian UTF-16 code units in the `2 * n` bytes at `p`.
pub open spec fn utf16_units(s: Seq<u8>, p: int, n: int) -> Seq<u16> {
    Seq::new(n as nat, |k: int| (s[p + 2 * k] as int + s[p + 2 * k + 1] as int * 256) as u16)
}

/// A length-prefixed string: an `i32` length, then for a positive length that
/// many bytes of UTF-8, for a negative length twice its magnitude in bytes of
/// UTF-16; either way the last unit is a terminator that is dropped.
pub open spec fn sp_fstring(s: Seq<u8>, p: int) -> Result<(Seq<char>, int), WireError> {
    match sp_u32(s, p) {
        Err(e) => Err(e),
        Ok((raw, q)) => {
            let len = raw as i32;
            if len == 0 {
                Ok((seq![], q))
            } else if len > 0 {
                if q + len > s.len() {
                    Err(WireError::Truncated)
                } else if valid_utf8(s.subrange(q, q + len - 1)) {
                    Ok((decode_utf8(s.subrange(q, q + len - 1)), q + len))
                } else {
                    Err(WireError::BadText)
                }
            } else if len == i32::MIN {
                Err(WireError::BadText)
            } else {
                let n = -len;
                if q + 2 * n > s.len() {
                    Err(WireError::Truncated)
                } else {
                    match utf16_decode(utf16_units(s, q, n).drop_last()) {
                        Some(cs) => Ok((cs, q + 2 * n)),
                        None => Err(WireError::BadText),
                    }
                }
            }
        },
    }
}

/// `n` strings read one after another from `p`.
pub open spec fn sp_fstrings(s: Seq<u8>, p: int, n: nat) -> Result<(Seq<Seq<char>>, int), WireError>
    decreases n,
{
    if n == 0 {
        Ok((seq![], p))
    } else {
        match sp_fstrings(s, p, (n - 1) as nat) {
            Err(e) => Err(e),
            Ok((v, q)) => match sp_fstring(s, q) {
                Err(e) => Err(e),
                Ok((x, r)) => Ok((v.push(x), r)),
            },
        }
    }
}

pub fn read_u8(data: &[u8], pos: usize) -> (r: Result<(u8, usize), WireError>)
    ensures
        match (r, sp_u8(data@, pos as int)) {
            (Ok((v, q)), Ok((sv, sq))) => v == sv && q == sq,
            (Err(e), Err(se)) => e == se,
            _ => false,
        },
{
    if pos < data.len() {
        Ok((data[pos], pos + 1))
    } else {
        Err(WireError::Truncated)
    }
}

pub fn read_u32(data: &[u8], pos: usize) -> (r: Result<(u32, usize), WireError>)
    ensures
        match (r, sp_u32(data@, pos as int)) {
            (Ok((v, q)), Ok((sv, sq))) => v == sv && q == sq,
            (Err(e), Err(se)) => e == se,
            _ => false,
        },
{
    if pos <= data.len() && data.len() - pos >= 4 {
        Ok((le_u32_at(data, pos), pos + 4))
    } else {
        Err(WireError::Truncated)
    }
}

pub fn read_u64(data: &[u8], pos: usize) -> (r: Result<(u64, usize), WireError>)
    ensures
        match (r, sp_u64(data@, pos as int)) {
            (Ok((v, q)), Ok((sv, sq))) => v == sv && q == sq,
            (Err(e), Err(se)) => e == se,
            _ => false,
        },
{
    if pos <= data.len() && data.len() - pos >= 8 {
        Ok((le_u64_at(data, pos), pos + 8))
    } else {
        Err(WireError::Truncated)
    }
}

/// Reads one length-prefixed string.
pub fn read_fstring(data: &[u8], pos: usize) -> (r: Result<(String, usize), WireError>)
    ensures
        match (r, sp_fstring(data@, pos as int)) {
            (Ok((v, q)), Ok((sv, sq))) => v@ == sv && q == sq,
            (Err(e), Err(se)) => e == se,
            _ => false,
        },
{
    let (raw, q) = match read_u32(data, pos) {
        Ok(x) => x,
        Err(e) => return Err(e),
    };
    let len = raw as i32;
    if len == 0 {
        return Ok((String::new(), q));
    }
    if len > 0 {
        let n = len as usize;
        if data.len() - q < n {
            return Err(WireError::Truncated);
        }
        let body = slice_subrange(data, q, q + n - 1);
        match decode_utf8_bytes(body) {
            Some(s) => Ok((s, q + n)),
            None => Err(WireError::BadText),
        }
    } else if len == i32::MIN {
        Err(WireError::BadText)
    } else {
        let n = (-len) as u64;
        if ((data.len() - q) as u64) < 2 * n {
            return Err(WireError::Truncated);
        }
        let n = n as usize;
        let mut units: Vec<u16> = Vec::new();
        let mut k: usize = 0;
        while k < n
            invariant
                k <= n,
                q + 2 * n <= data@.len(),
                data@.len() <= usize::MAX,
                units@ == utf16_units(data@, q as int, n as int).take(k as int),
            decreases n - k,
        {
            let lo = data[q + 2 * k] as u16;
            let hi = data[q + 2 * k + 1] as u16;
            units.push(lo + hi * 256);
            k += 1;
            assert(units@ =~= utf16_units(data@, q as int, n as int).take(k as int));
        }
        assert(units@ =~= utf16_units(data@, q as int, n as int));
        let prefix = slice_subrange(units.as_slice(), 0, n - 1);
        assert(prefix@ =~= utf16_units(data@, q as int, n as int).drop_last());
        match string_from_utf16(prefix) {
            Some(s) => Ok((s, q + 2 * n)),
            None => Err(WireError::BadText),
        }
    }
}

/// Reads `n` length-prefixed strings one after another.
pub fn read_fstrings(data: &[u8], pos: usize, n: u32) -> (r: Result<(Vec<String>, usize), WireError>)
    ensures
        match (r, sp_fstrings(data@, pos as int, n as nat)) {
            (Ok((v, q)), Ok((sv, sq))) => v@.map_values(|x: String| x@) == sv && q == sq,
            (Err(e), Err(se)) => e == se,
            _ => false,
        },
{
    let mut v: Vec<String> = Vec::new();
    let mut q = pos;
    let mut i: u32 = 0;
    assert(v@.map_values(|x: String| x@) =~= seq![]);
    while i < n
        invariant
            i <= n,
            sp_fstrings(data@, pos as int, i as nat) == Ok::<(Seq<Seq<char>>, int), WireError>((v@.map_values(|x: String| x@), q as int)),
        decreases n - i,
    {
        match read_fstring(data, q) {
            Ok((s, q2)) => {
                let ghost old_v = v@;
                v.push(s);
                q = q2;
                i += 1;
                assert(v@.map_values(|x: String| x@) =~= old_v.map_values(|x: String| x@).push(s@));
            },
            Err(e) => {
                proof {
                    lemma_fstrings_err_persists(data@, pos as int, (i + 1) as nat, n as nat);
                }
                return Err(e);
            },
        }
    }
    Ok((v, q))
}

/// Once reading some strings fails, reading more fails with the same error.
pub proof fn lemma_fstrings_err_persists(s: Seq<u8>, p: int, m: nat, n: nat)
    requires
        m <= n,
        sp_fstrings(s, p, m) is Err,
    ensures
        sp_fstrings(s, p, n) == sp_fstrings(s, p, m),
    decreases n - m,
{
    if m < n {
        lemma_fstrings_err_persists(s, p, m, (n - 1) as nat);
    }
}


/// The text an error is reported with.
pub open spec fn spec_error_text(e: WireError) -> Seq<char> {
    match e {
        WireError::Truncated => "failed to fill whole buffer"@,
        WireError::BadManifestMagic(m) => "Invalid manifest magic: "@ + hex_of_int(m as nat, 8, true),
        WireError::BadChunkMagic(m) => "Invalid chunk magic: "@ + hex_of_int(m as nat, 8, true),
        WireError::BadText => "invalid text in a string field"@,
        WireError::Inflate => "corrupt deflate stream"@,
        WireError::ShaMismatch { expected, padded, raw } => "Chunk SHA1 mismatch. Expected: "@
            + hex_of_bytes(expected@, false) + ", Actual (padded): "@ + hex_of_bytes(padded@, false)
            + ", Actual (raw): "@ + hex_of_bytes(raw@, false),
        WireError::CompressedSizeTooLarge => "Compressed size exceeds buffer"@,
    }
}

impl WireError {
    /// The text the error is reported with.
    pub fn message(&self) -> (r: String)
        ensures
            r@ == spec_error_text(*self),
    {
        let mut v: Vec<char> = Vec::new();
        match self {
            WireError::Truncated => push_text(&mut v, "failed to fill whole buffer"),
            WireError::BadManifestMagic(m) => {
                push_text(&mut v, "Invalid manifest magic: ");
                push_hex_u64(&mut v, *m as u64, 8, true);
            },
            WireError::BadChunkMagic(m) => {
                push_text(&mut v, "Invalid chunk magic: ");
                push_hex_u64(&mut v, *m as u64, 8, true);
            },
            WireError::BadText => push_text(&mut v, "invalid text in a string field"),
            WireError::Inflate => push_text(&mut v, "corrupt deflate stream"),
            WireError::ShaMismatch { expected, padded, raw } => {
                push_text(&mut v, "Chunk SHA1 mismatch. Expected: ");
                push_hex_bytes(&mut v, expected, false);
                push_text(&mut v, ", Actual (padded): ");
                push_hex_bytes(&mut v, padded, false);
                push_text(&mut v, ", Actual (raw): ");
                push_hex_bytes(&mut v, raw, false);
            },
            WireError::CompressedSizeTooLarge => push_text(&mut v, "Compressed size exceeds buffer"),
        }
        assert(v@ =~= spec_error_text(*self));
        string_of(v.as_slice())
    }
}

fn push_text(v: &mut Vec<char>, t: &str)
    ensures
        final(v)@ == old(v)@ + t@,
{
    let c = crate::text::chars_of(t);
    let ghost start = v@;
    let mut i: usize = 0;
    while i < c.len()
        invariant
            i <= c@.len(),
            v@ == start + c@.take(i as int),
        decreases c@.len() - i,
    {
        v.push(c[i]);
        i += 1;
        assert(v@ =~= start + c@.take(i as int));
    }
    assert(c@.take(c@.len() as int) =~= c@);
}

} // verus!
