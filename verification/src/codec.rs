//! Hashing, inflation and hexadecimal text.

use vstd::prelude::*;
use std::io::Read;
use flate2::read::ZlibDecoder;
use sha1::{Digest, Sha1};
use sha2::Sha256;

verus! {

/// What reading the zlib stream at the start of `data` to its end gives, or
/// `None` where the reader reports an error (a malformed stream). Nothing is
/// said here of which inputs fail; a stream cut short may read without error.
pub uninterp spec fn zlib_inflate(data: Seq<u8>) -> Option<Seq<u8>>;

/// The SHA-1 digest of `data`.
pub uninterp spec fn sha1_digest(data: Seq<u8>) -> [u8; 20];

/// The SHA-256 digest of `data`.
pub uninterp spec fn sha256_digest(data: Seq<u8>) -> [u8; 32];

/// `flate2::read::ZlibDecoder` read to its end: the bytes that the zlib stream
/// at the start of `data` inflates to, `None` where reading fails. The result is
/// named, not stated; it depends on `data` alone.
#[verifier::external_body]
pub(crate) fn inflate(data: &[u8]) -> (r: Option<Vec<u8>>)
    ensures
        r is Some <==> zlib_inflate(data@) is Some,
        r matches Some(v) ==> v@ == zlib_inflate(data@).unwrap(),
{
    let mut out = Vec::new();
    match ZlibDecoder::new(data).read_to_end(&mut out) {
        Ok(_) => Some(out),
        Err(_) => None,
    }
}

/// `sha1::Sha1::digest`: the SHA-1 digest of `data`, named and not stated.
#[verifier::external_body]
pub(crate) fn sha1(data: &[u8]) -> (r: [u8; 20])
    ensures
        r == sha1_digest(data@),
{
    Sha1::digest(data).into()
}

/// `sha2::Sha256::digest`: the SHA-256 digest of `data`, named and not stated.
#[verifier::external_body]
pub(crate) fn sha256(data: &[u8]) -> (r: [u8; 32])
    ensures
        r == sha256_digest(data@),
{
    Sha256::digest(data).into()
}

/// The hexadecimal digit for `d`, lower case for `10..16` unless `upper`.
pub open spec fn hex_digit(d: int, upper: bool) -> char {
    if d < 10 {
        (48 + d) as char
    } else if upper {
        (65 + d - 10) as char
    } else {
        (97 + d - 10) as char
    }
}

/// Two hexadecimal digits per byte, high nibble first.
pub open spec fn hex_of_bytes(b: Seq<u8>, upper: bool) -> Seq<char>
    decreases b.len(),
{
    if b.len() == 0 {
        seq![]
    } else {
        hex_of_bytes(b.drop_last(), upper) + seq![
            hex_digit(b.last() as int / 16, upper),
            hex_digit(b.last() as int % 16, upper),
        ]
    }
}

/// The last `width` hexadecimal digits of `v`, most significant first.
pub open spec fn hex_of_int(v: nat, width: nat, upper: bool) -> Seq<char>
    decreases width,
{
    if width == 0 {
        seq![]
    } else {
        hex_of_int(v / 16, (width - 1) as nat, upper) + seq![hex_digit((v % 16) as int, upper)]
    }
}

pub fn hex_digit_char(d: u8, upper: bool) -> (c: char)
    requires
        d < 16,
    ensures
        c == hex_digit(d as int, upper),
{
    if d < 10 {
        (48u8 + d) as char
    } else if upper {
        (65u8 + d - 10) as char
    } else {
        (97u8 + d - 10) as char
    }
}

/// Appends two hexadecimal digits per byte of `b` to `out` (what `hex::encode`
/// gives for lower case).
pub fn push_hex_bytes(out: &mut Vec<char>, b: &[u8], upper: bool)
    ensures
        final(out)@ == old(out)@ + hex_of_bytes(b@, upper),
{
    let ghost start = out@;
    let mut i: usize = 0;
    while i < b.len()
        invariant
            i <= b@.len(),
            out@ == start + hex_of_bytes(b@.take(i as int), upper),
        decreases b@.len() - i,
    {
        let x = b[i];
        out.push(hex_digit_char(x / 16, upper));
        out.push(hex_digit_char(x % 16, upper));
        i += 1;
        assert(b@.take(i as int).drop_last() =~= b@.take(i - 1));
        assert(out@ =~= start + hex_of_bytes(b@.take(i as int), upper));
    }
    assert(b@.take(b@.len() as int) =~= b@);
}

/// Appends the last `width` hexadecimal digits of `v` to `out`, zero-padded
/// (what `{:0width$x}` or `{:0width$X}` gives for a value below `16^width`).
pub fn push_hex_u64(out: &mut Vec<char>, v: u64, width: usize, upper: bool)
    requires
        width <= 16,
    ensures
        final(out)@ == old(out)@ + hex_of_int(v as nat, width as nat, upper),
{
    let ghost start = out@;
    let mut digits: Vec<char> = Vec::new();
    let mut x = v;
    let mut k: usize = 0;
    while k < width
        invariant
            k <= width,
            hex_of_int(v as nat, width as nat, upper)
                == hex_of_int(x as nat, (width - k) as nat, upper) + digits@.reverse(),
        decreases width - k,
    {
        let ghost before = digits@;
        digits.push(hex_digit_char((x % 16) as u8, upper));
        proof {
            assert(digits@.reverse() =~= seq![hex_digit((x % 16) as int, upper)] + before.reverse());
        }
        x = x / 16;
        k += 1;
    }
    let mut i = digits.len();
    while i > 0
        invariant
            i <= digits@.len(),
            out@ == start + digits@.reverse().take(digits@.len() - i),
        decreases i,
    {
        i -= 1;
        out.push(digits[i]);
        assert(out@ =~= start + digits@.reverse().take(digits@.len() - i));
    }
    assert(hex_of_int(x as nat, 0, upper) =~= seq![]);
    assert(digits@.reverse().take(digits@.len() as int) =~= digits@.reverse());
}

} // verus!
