//! The launcher's binary manifest: what it holds, and how it is read.

use vstd::prelude::*;
use crate::bytes::{spec_le_u32, spec_le_u64};
use crate::order::{
    chars_lt, chars_equal, pos_lt, positions_sorted, positions_in_range, sorted_positions,
    lemma_chars_lt_irreflexive, lemma_chars_lt_transitive,
};
use crate::text::chars_of;
use crate::codec::{inflate, zlib_inflate, hex_of_int, push_hex_u64};
use crate::fmt::{dec_padded, push_dec_padded};
use crate::text::string_of;
use crate::order::chars_le;
use std::collections::HashMap;
use crate::wire::{WireError, sp_u32, sp_fstrings, read_u32, read_fstrings};

verus! {

/// Descriptive fields of a manifest.
#[derive(Debug, Clone)]
pub struct ManifestMeta {
    pub app_name: String,
    pub build_version: String,
    pub launch_exe: String,
    pub launch_command: String,
}

pub struct ManifestMetaView {
    pub app_name: Seq<char>,
    pub build_version: Seq<char>,
    pub launch_exe: Seq<char>,
    pub launch_command: Seq<char>,
}

impl View for ManifestMeta {
    type V = ManifestMetaView;

    open spec fn view(&self) -> ManifestMetaView {
        ManifestMetaView {
            app_name: self.app_name@,
            build_version: self.build_version@,
            launch_exe: self.launch_exe@,
            launch_command: self.launch_command@,
        }
    }
}

/// One chunk of game data that files are cut from.
#[derive(Debug, Clone, Copy)]
pub struct ChunkInfo {
    pub guid: [u32; 4],
    pub hash: u64,
    pub sha_hash: [u8; 20],
    pub group_num: u8,
    pub window_size: u32,
    pub file_size: i64,
}

/// A run of bytes of a file, taken from a chunk.
#[derive(Debug, Clone, Copy)]
pub struct ChunkPart {
    pub guid: [u32; 4],
    pub offset: u32,
    pub size: u32,
    pub file_offset: u64,
}

/// One file of an installation.
#[derive(Debug, Clone)]
pub struct FileManifest {
    pub filename: String,
    pub hash: [u8; 20],
    pub chunk_parts: Vec<ChunkPart>,
    pub file_size: u64,
    pub install_tags: Vec<String>,
}

pub struct FileManifestView {
    pub filename: Seq<char>,
    pub hash: [u8; 20],
    pub chunk_parts: Seq<ChunkPart>,
    pub file_size: u64,
    pub install_tags: Seq<Seq<char>>,
}

impl View for FileManifest {
    type V = FileManifestView;

    open spec fn view(&self) -> FileManifestView {
        FileManifestView {
            filename: self.filename@,
            hash: self.hash,
            chunk_parts: self.chunk_parts@,
            file_size: self.file_size,
            install_tags: self.install_tags@.map_values(|t: String| t@),
        }
    }
}

/// The twenty bytes of `s` at `p`.
pub open spec fn sha_at(s: Seq<u8>, p: int) -> [u8; 20] {
    [
        s[p], s[p + 1], s[p + 2], s[p + 3], s[p + 4], s[p + 5], s[p + 6], s[p + 7], s[p + 8],
        s[p + 9], s[p + 10], s[p + 11], s[p + 12], s[p + 13], s[p + 14], s[p + 15], s[p + 16],
        s[p + 17], s[p + 18], s[p + 19],
    ]
}

/// Four little-endian `u32` at `p`.
pub open spec fn guid_at(s: Seq<u8>, p: int) -> [u32; 4] {
    [spec_le_u32(s, p), spec_le_u32(s, p + 4), spec_le_u32(s, p + 8), spec_le_u32(s, p + 12)]
}

/// Reads twenty bytes at `pos`.
pub fn read_sha(data: &[u8], pos: usize) -> (r: [u8; 20])
    requires
        pos + 20 <= data@.len(),
    ensures
        r == sha_at(data@, pos as int),
{
    let mut h = [0u8; 20];
    let len = data.len();
    let mut i: usize = 0;
    while i < 20
        invariant
            i <= 20,
            pos + 20 <= data@.len(),
            len == data@.len(),
            forall|j: int| 0 <= j < i ==> h@[j] == data@[pos + j],
        decreases 20 - i,
    {
        h[i] = data[pos + i];
        i += 1;
    }
    assert(h@ =~= sha_at(data@, pos as int)@);
    h
}

/// Chunk `i` of the `n` chunks whose columns start at `q`: all guids, then all
/// rolling hashes, SHA-1 sums, group numbers, window sizes and file sizes.
pub open spec fn chunk_at(s: Seq<u8>, q: int, n: int, i: int) -> ChunkInfo {
    ChunkInfo {
        guid: guid_at(s, q + 16 * i),
        hash: spec_le_u64(s, q + 16 * n + 8 * i),
        sha_hash: sha_at(s, q + 24 * n + 20 * i),
        group_num: s[q + 44 * n + i],
        window_size: spec_le_u32(s, q + 45 * n + 4 * i),
        file_size: spec_le_u64(s, q + 49 * n + 8 * i) as i64,
    }
}

/// The chunk list of `n` entries at `q`, 57 bytes per entry.
pub open spec fn sp_chunk_block(s: Seq<u8>, q: int, n: nat) -> Result<(Seq<ChunkInfo>, int), WireError> {
    if 0 <= q && q + 57 * n <= s.len() {
        Ok((Seq::new(n, |i: int| chunk_at(s, q, n as int, i)), q + 57 * n))
    } else {
        Err(WireError::Truncated)
    }
}

/// The size field of part `k` of a part list whose entries start at `p`.
pub open spec fn part_size_at(s: Seq<u8>, p: int, k: int) -> u32 {
    spec_le_u32(s, p + 28 * k + 24)
}

/// Where part `k` starts in its file: the sizes of the parts before it, summed
/// with wrapping `u64` addition.
pub open spec fn offset_before(s: Seq<u8>, p: int, k: nat) -> u64
    decreases k,
{
    if k == 0 {
        0
    } else {
        vstd::wrapping::u64_specs::wrapping_add(
            offset_before(s, p, (k - 1) as nat),
            part_size_at(s, p, k - 1) as u64,
        )
    }
}

/// Part `k` of a part list whose 28-byte entries start at `p`: an ignored size
/// field, the chunk's guid, the offset in the chunk and the size.
pub open spec fn part_at(s: Seq<u8>, p: int, k: int) -> ChunkPart {
    ChunkPart {
        guid: guid_at(s, p + 28 * k + 4),
        offset: spec_le_u32(s, p + 28 * k + 20),
        size: part_size_at(s, p, k),
        file_offset: offset_before(s, p, k as nat),
    }
}

/// A part list: a `u32` count, then that many 28-byte entries.
pub open spec fn sp_parts(s: Seq<u8>, p: int) -> Result<(Seq<ChunkPart>, int), WireError> {
    match sp_u32(s, p) {
        Err(e) => Err(e),
        Ok((count, q)) => if q + 28 * count <= s.len() {
            Ok((Seq::new(count as nat, |k: int| part_at(s, q, k)), q + 28 * count))
        } else {
            Err(WireError::Truncated)
        },
    }
}

/// `n` part lists one after another.
pub open spec fn sp_part_lists(s: Seq<u8>, p: int, n: nat) -> Result<(Seq<Seq<ChunkPart>>, int), WireError>
    decreases n,
{
    if n == 0 {
        Ok((seq![], p))
    } else {
        match sp_part_lists(s, p, (n - 1) as nat) {
            Err(e) => Err(e),
            Ok((v, q)) => match sp_parts(s, q) {
                Err(e) => Err(e),
                Ok((x, r)) => Ok((v.push(x), r)),
            },
        }
    }
}

/// A tag list: a `u32` count, then that many strings.
pub open spec fn sp_tags(s: Seq<u8>, p: int) -> Result<(Seq<Seq<char>>, int), WireError> {
    match sp_u32(s, p) {
        Err(e) => Err(e),
        Ok((count, q)) => sp_fstrings(s, q, count as nat),
    }
}

/// `n` tag lists one after another.
pub open spec fn sp_tag_lists(s: Seq<u8>, p: int, n: nat) -> Result<(Seq<Seq<Seq<char>>>, int), WireError>
    decreases n,
{
    if n == 0 {
        Ok((seq![], p))
    } else {
        match sp_tag_lists(s, p, (n - 1) as nat) {
            Err(e) => Err(e),
            Ok((v, q)) => match sp_tags(s, q) {
                Err(e) => Err(e),
                Ok((x, r)) => Ok((v.push(x), r)),
            },
        }
    }
}

/// Reads the chunk list of `n` entries at `q`.
pub fn read_chunk_block(data: &[u8], q: usize, n: u32) -> (r: Result<(Vec<ChunkInfo>, usize), WireError>)
    ensures
        match (r, sp_chunk_block(data@, q as int, n as nat)) {
            (Ok((v, e)), Ok((sv, se))) => v@ == sv && e == se,
            (Err(x), Err(sx)) => x == sx,
            _ => false,
        },
{
    let len = data.len();
    if q > len || ((len - q) as u64) < 57 * (n as u64) {
        return Err(WireError::Truncated);
    }
    let n = n as usize;
    let mut v: Vec<ChunkInfo> = Vec::new();
    let mut i: usize = 0;
    while i < n
        invariant
            i <= n,
            len == data@.len(),
            q + 57 * n <= len,
            v@ =~= Seq::new(i as nat, |k: int| chunk_at(data@, q as int, n as int, k)),
        decreases n - i,
    {
        let g = q + 16 * i;
        let guid = [
            crate::bytes::le_u32_at(data, g),
            crate::bytes::le_u32_at(data, g + 4),
            crate::bytes::le_u32_at(data, g + 8),
            crate::bytes::le_u32_at(data, g + 12),
        ];
        let c = ChunkInfo {
            guid,
            hash: crate::bytes::le_u64_at(data, q + 16 * n + 8 * i),
            sha_hash: read_sha(data, q + 24 * n + 20 * i),
            group_num: data[q + 44 * n + i],
            window_size: crate::bytes::le_u32_at(data, q + 45 * n + 4 * i),
            file_size: crate::bytes::le_u64_at(data, q + 49 * n + 8 * i) as i64,
        };
        v.push(c);
        i += 1;
    }
    Ok((v, q + 57 * n))
}

/// Reads one part list.
pub fn read_parts(data: &[u8], p: usize) -> (r: Result<(Vec<ChunkPart>, usize), WireError>)
    ensures
        match (r, sp_parts(data@, p as int)) {
            (Ok((v, e)), Ok((sv, se))) => v@ == sv && e == se,
            (Err(x), Err(sx)) => x == sx,
            _ => false,
        },
{
    let (count, q) = match read_u32(data, p) {
        Ok(x) => x,
        Err(e) => return Err(e),
    };
    let len = data.len();
    if ((len - q) as u64) < 28 * (count as u64) {
        return Err(WireError::Truncated);
    }
    let n = count as usize;
    let mut v: Vec<ChunkPart> = Vec::new();
    let mut off: u64 = 0;
    let mut k: usize = 0;
    while k < n
        invariant
            k <= n,
            n == count,
            len == data@.len(),
            q + 28 * n <= len,
            off == offset_before(data@, q as int, k as nat),
            v@ =~= Seq::new(k as nat, |j: int| part_at(data@, q as int, j)),
        decreases n - k,
    {
        let e = q + 28 * k;
        let size = crate::bytes::le_u32_at(data, e + 24);
        let part = ChunkPart {
            guid: [
                crate::bytes::le_u32_at(data, e + 4),
                crate::bytes::le_u32_at(data, e + 8),
                crate::bytes::le_u32_at(data, e + 12),
                crate::bytes::le_u32_at(data, e + 16),
            ],
            offset: crate::bytes::le_u32_at(data, e + 20),
            size,
            file_offset: off,
        };
        v.push(part);
        off = off.wrapping_add(size as u64);
        k += 1;
    }
    Ok((v, q + 28 * n))
}

/// Once reading some part lists fails, reading more fails with the same error.
pub proof fn lemma_part_lists_err_persists(s: Seq<u8>, p: int, m: nat, n: nat)
    requires
        m <= n,
        sp_part_lists(s, p, m) is Err,
    ensures
        sp_part_lists(s, p, n) == sp_part_lists(s, p, m),
    decreases n - m,
{
    if m < n {
        lemma_part_lists_err_persists(s, p, m, (n - 1) as nat);
    }
}

/// Once reading some tag lists fails, reading more fails with the same error.
pub proof fn lemma_tag_lists_err_persists(s: Seq<u8>, p: int, m: nat, n: nat)
    requires
        m <= n,
        sp_tag_lists(s, p, m) is Err,
    ensures
        sp_tag_lists(s, p, n) == sp_tag_lists(s, p, m),
    decreases n - m,
{
    if m < n {
        lemma_tag_lists_err_persists(s, p, m, (n - 1) as nat);
    }
}

/// Reads `n` part lists one after another.
pub fn read_part_lists(data: &[u8], p: usize, n: u32) -> (r: Result<(Vec<Vec<ChunkPart>>, usize), WireError>)
    ensures
        match (r, sp_part_lists(data@, p as int, n as nat)) {
            (Ok((v, e)), Ok((sv, se))) => v@.map_values(|x: Vec<ChunkPart>| x@) == sv && e == se,
            (Err(x), Err(sx)) => x == sx,
            _ => false,
        },
{
    let mut v: Vec<Vec<ChunkPart>> = Vec::new();
    let mut q = p;
    let mut i: u32 = 0;
    assert(v@.map_values(|x: Vec<ChunkPart>| x@) =~= seq![]);
    while i < n
        invariant
            i <= n,
            sp_part_lists(data@, p as int, i as nat) == Ok::<(Seq<Seq<ChunkPart>>, int), WireError>((v@.map_values(|x: Vec<ChunkPart>| x@), q as int)),
        decreases n - i,
    {
        match read_parts(data, q) {
            Ok((x, q2)) => {
                let ghost old_v = v@;
                v.push(x);
                q = q2;
                i += 1;
                assert(v@.map_values(|x: Vec<ChunkPart>| x@) =~= old_v.map_values(|x: Vec<ChunkPart>| x@).push(x@));
            },
            Err(e) => {
                proof {
                    lemma_part_lists_err_persists(data@, p as int, (i + 1) as nat, n as nat);
                }
                return Err(e);
            },
        }
    }
    Ok((v, q))
}

/// Reads `n` tag lists one after another.
pub fn read_tag_lists(data: &[u8], p: usize, n: u32) -> (r: Result<(Vec<Vec<String>>, usize), WireError>)
    ensures
        match (r, sp_tag_lists(data@, p as int, n as nat)) {
            (Ok((v, e)), Ok((sv, se))) => v@.map_values(|x: Vec<String>| x@.map_values(|t: String| t@)) == sv && e == se,
            (Err(x), Err(sx)) => x == sx,
            _ => false,
        },
{
    let mut v: Vec<Vec<String>> = Vec::new();
    let mut q = p;
    let mut i: u32 = 0;
    assert(v@.map_values(|x: Vec<String>| x@.map_values(|t: String| t@)) =~= seq![]);
    while i < n
        invariant
            i <= n,
            sp_tag_lists(data@, p as int, i as nat) == Ok::<(Seq<Seq<Seq<char>>>, int), WireError>((v@.map_values(|x: Vec<String>| x@.map_values(|t: String| t@)), q as int)),
        decreases n - i,
    {
        let step = match read_u32(data, q) {
            Ok((count, q1)) => read_fstrings(data, q1, count),
            Err(e) => Err(e),
        };
        match step {
            Ok((x, q2)) => {
                let ghost old_v = v@;
                v.push(x);
                q = q2;
                i += 1;
                assert(v@.map_values(|x: Vec<String>| x@.map_values(|t: String| t@)) =~= old_v.map_values(|x: Vec<String>| x@.map_values(|t: String| t@)).push(x@.map_values(|t: String| t@)));
            },
            Err(e) => {
                proof {
                    lemma_tag_lists_err_persists(data@, p as int, (i + 1) as nat, n as nat);
                }
                return Err(e);
            },
        }
    }
    Ok((v, q))
}

/// The fields of a manifest body as they stand in the data, before files and
/// chunks that share a name or guid are resolved.
pub struct BodyRecord {
    pub meta: Seq<Seq<char>>,
    pub chunks: Seq<ChunkInfo>,
    pub names: Seq<Seq<char>>,
    pub hashes: Seq<[u8; 20]>,
    pub tags: Seq<Seq<Seq<char>>>,
    pub parts: Seq<Seq<ChunkPart>>,
}

/// Reads a manifest body: the meta block (its size first, then four bytes of
/// version and feature fields, an id and four strings); at the offset that
/// size gives, the chunk list (size, version, count, columns); at the offset
/// that the chunk list's size gives after it, the file list (size, version,
/// count, then names, symlink targets, SHA-1 sums, flags, tag lists and part
/// lists, each one entry per file).
#[verifier::opaque]
pub open spec fn spec_parse_body(b: Seq<u8>) -> Result<BodyRecord, WireError> {
    if b.len() < 14 {
        Err(WireError::Truncated)
    } else {
        match sp_fstrings(b, 14, 4) {
            Err(e) => Err(e),
            Ok((meta, _)) => {
                let p1 = spec_le_u32(b, 0) as int;
                if p1 + 9 > b.len() {
                    Err(WireError::Truncated)
                } else {
                    match sp_chunk_block(b, p1 + 9, spec_le_u32(b, p1 + 5) as nat) {
                        Err(e) => Err(e),
                        Ok((chunks, _)) => {
                            let p2 = p1 + spec_le_u32(b, p1) as int;
                            if p2 + 9 > b.len() {
                                Err(WireError::Truncated)
                            } else {
                                let n = spec_le_u32(b, p2 + 5) as nat;
                                match sp_fstrings(b, p2 + 9, n) {
                                    Err(e) => Err(e),
                                    Ok((names, a)) => match sp_fstrings(b, a, n) {
                                        Err(e) => Err(e),
                                        Ok((_, c)) => if c + 21 * n > b.len() {
                                            Err(WireError::Truncated)
                                        } else {
                                            match sp_tag_lists(b, c + 21 * n, n) {
                                                Err(e) => Err(e),
                                                Ok((tags, d)) => match sp_part_lists(b, d, n) {
                                                    Err(e) => Err(e),
                                                    Ok((parts, _)) => Ok(BodyRecord {
                                                        meta,
                                                        chunks,
                                                        names,
                                                        hashes: Seq::new(n, |i: int| sha_at(b, c + 20 * i)),
                                                        tags,
                                                        parts,
                                                    }),
                                                },
                                            }
                                        },
                                    },
                                }
                            }
                        },
                    }
                }
            },
        }
    }
}

/// The columns of a manifest body as read.
pub struct RawBody {
    pub meta: Vec<String>,
    pub chunks: Vec<ChunkInfo>,
    pub names: Vec<String>,
    pub hashes: Vec<[u8; 20]>,
    pub tags: Vec<Vec<String>>,
    pub parts: Vec<Vec<ChunkPart>>,
}

pub open spec fn raw_matches(r: RawBody, b: BodyRecord) -> bool {
    &&& r.meta@.map_values(|x: String| x@) == b.meta
    &&& r.chunks@ == b.chunks
    &&& raw_files_match(r, b)
}

pub open spec fn raw_files_match(r: RawBody, b: BodyRecord) -> bool {
    &&& r.names@.map_values(|x: String| x@) == b.names
    &&& r.hashes@ == b.hashes
    &&& r.tags@.map_values(|x: Vec<String>| x@.map_values(|t: String| t@)) == b.tags
    &&& r.parts@.map_values(|x: Vec<ChunkPart>| x@) == b.parts
}

/// Reads a manifest body.
pub fn parse_body(b: &[u8]) -> (r: Result<RawBody, WireError>)
    ensures
        match (r, spec_parse_body(b@)) {
            (Ok(x), Ok(y)) => raw_matches(x, y),
            (Err(e), Err(f)) => e == f,
            _ => false,
        },
{
    reveal(spec_parse_body);
    let len = b.len();
    if len < 14 {
        return Err(WireError::Truncated);
    }
    let (meta, _) = match read_fstrings(b, 14, 4) {
        Ok(x) => x,
        Err(e) => return Err(e),
    };
    let meta_size = crate::bytes::le_u32_at(b, 0) as u64;
    if meta_size + 9 > len as u64 {
        return Err(WireError::Truncated);
    }
    let p1 = meta_size as usize;
    let cdl_size = crate::bytes::le_u32_at(b, p1);
    let cdl_count = crate::bytes::le_u32_at(b, p1 + 5);
    let (chunks, _) = match read_chunk_block(b, p1 + 9, cdl_count) {
        Ok(x) => x,
        Err(e) => return Err(e),
    };
    let p2w = meta_size + cdl_size as u64;
    if p2w + 9 > len as u64 {
        return Err(WireError::Truncated);
    }
    let p2 = p2w as usize;
    let n = crate::bytes::le_u32_at(b, p2 + 5);
    let (names, a) = match read_fstrings(b, p2 + 9, n) {
        Ok(x) => x,
        Err(e) => return Err(e),
    };
    let (_, c) = match read_fstrings(b, a, n) {
        Ok(x) => x,
        Err(e) => return Err(e),
    };
    if ((len - c) as u64) < 21 * (n as u64) {
        return Err(WireError::Truncated);
    }
    let nn = n as usize;
    let mut hashes: Vec<[u8; 20]> = Vec::new();
    let mut i: usize = 0;
    while i < nn
        invariant
            i <= nn,
            len == b@.len(),
            c + 21 * nn <= len,
            hashes@ =~= Seq::new(i as nat, |k: int| sha_at(b@, c + 20 * k)),
        decreases nn - i,
    {
        hashes.push(read_sha(b, c + 20 * i));
        i += 1;
    }
    let (tags, d) = match read_tag_lists(b, c + 21 * nn, n) {
        Ok(x) => x,
        Err(e) => return Err(e),
    };
    let (parts, _) = match read_part_lists(b, d, n) {
        Ok(x) => x,
        Err(e) => return Err(e),
    };
    Ok(RawBody { meta, chunks, names, hashes, tags, parts })
}

pub proof fn lemma_fstrings_len(s: Seq<u8>, p: int, n: nat)
    ensures
        sp_fstrings(s, p, n) matches Ok((v, _)) ==> v.len() == n,
    decreases n,
{
    if n > 0 {
        lemma_fstrings_len(s, p, (n - 1) as nat);
    }
}

pub proof fn lemma_tag_lists_len(s: Seq<u8>, p: int, n: nat)
    ensures
        sp_tag_lists(s, p, n) matches Ok((v, _)) ==> v.len() == n,
    decreases n,
{
    if n > 0 {
        lemma_tag_lists_len(s, p, (n - 1) as nat);
    }
}

pub proof fn lemma_part_lists_len(s: Seq<u8>, p: int, n: nat)
    ensures
        sp_part_lists(s, p, n) matches Ok((v, _)) ==> v.len() == n,
    decreases n,
{
    if n > 0 {
        lemma_part_lists_len(s, p, (n - 1) as nat);
    }
}

/// The columns of a body read from the data all have one entry per file.
pub proof fn lemma_body_columns(b: Seq<u8>)
    ensures
        spec_parse_body(b) matches Ok(r) ==> {
            &&& r.meta.len() == 4
            &&& r.hashes.len() == r.names.len()
            &&& r.tags.len() == r.names.len()
            &&& r.parts.len() == r.names.len()
        },
{
    reveal(spec_parse_body);
    if b.len() >= 14 {
        lemma_fstrings_len(b, 14, 4);
        let p1 = spec_le_u32(b, 0) as int;
        let p2 = p1 + spec_le_u32(b, p1) as int;
        let n = spec_le_u32(b, p2 + 5) as nat;
        lemma_fstrings_len(b, p2 + 9, n);
        if let Ok((_, a)) = sp_fstrings(b, p2 + 9, n) {
            if let Ok((_, c)) = sp_fstrings(b, a, n) {
                lemma_tag_lists_len(b, c + 21 * n, n);
                if let Ok((_, d)) = sp_tag_lists(b, c + 21 * n, n) {
                    lemma_part_lists_len(b, d, n);
                }
            }
        }
    }
}

/// The sizes of `parts` summed with wrapping `u64` addition.
pub open spec fn parts_total(parts: Seq<ChunkPart>) -> u64
    decreases parts.len(),
{
    if parts.len() == 0 {
        0
    } else {
        vstd::wrapping::u64_specs::wrapping_add(parts_total(parts.drop_last()), parts.last().size as u64)
    }
}

/// File `i` as the body's columns give it; its size is the sum of its parts.
pub open spec fn file_record(r: BodyRecord, i: int) -> FileManifestView {
    FileManifestView {
        filename: r.names[i],
        hash: r.hashes[i],
        chunk_parts: r.parts[i],
        file_size: parts_total(r.parts[i]),
        install_tags: r.tags[i],
    }
}

pub open spec fn file_records(r: BodyRecord) -> Seq<FileManifestView> {
    Seq::new(r.names.len(), |i: int| file_record(r, i))
}

/// Sums the sizes of `parts` with wrapping addition.
pub fn total_of_parts(parts: &Vec<ChunkPart>) -> (t: u64)
    ensures
        t == parts_total(parts@),
{
    let mut t: u64 = 0;
    let mut i: usize = 0;
    while i < parts.len()
        invariant
            i <= parts@.len(),
            t == parts_total(parts@.take(i as int)),
        decreases parts@.len() - i,
    {
        assert(parts@.take(i + 1).drop_last() =~= parts@.take(i as int));
        t = t.wrapping_add(parts[i].size as u64);
        i += 1;
    }
    assert(parts@.take(parts@.len() as int) =~= parts@);
    t
}

pub open spec fn file_views(fs: Seq<FileManifest>) -> Seq<FileManifestView> {
    fs.map_values(|f: FileManifest| f@)
}

/// Zips the file columns of a body into files.
fn assemble_files(raw: RawBody, Ghost(rec): Ghost<BodyRecord>) -> (r: Vec<FileManifest>)
    requires
        raw_files_match(raw, rec),
        rec.hashes.len() == rec.names.len(),
        rec.tags.len() == rec.names.len(),
        rec.parts.len() == rec.names.len(),
    ensures
        file_views(r@) == file_records(rec),
{
    let RawBody { meta: _, chunks: _, mut names, hashes, mut tags, mut parts } = raw;
    let n = names.len();
    let mut out: Vec<FileManifest> = Vec::new();
    let mut i: usize = 0;
    while i < n
        invariant
            n == names@.len(),
            n == rec.names.len(),
            i <= n,
            names@.len() == n,
            tags@.len() == n,
            parts@.len() == n,
            hashes@ == rec.hashes,
            rec.hashes.len() == n,
            rec.tags.len() == n,
            rec.parts.len() == n,
            forall|k: int| i <= k < n ==> (#[trigger] names@[k])@ == rec.names[k],
            forall|k: int| i <= k < n ==> (#[trigger] tags@[k])@.map_values(|t: String| t@) == rec.tags[k],
            forall|k: int| i <= k < n ==> (#[trigger] parts@[k])@ == rec.parts[k],
            file_views(out@) =~= Seq::new(i as nat, |k: int| file_record(rec, k)),
        decreases n - i,
    {
        proof {
            assert(names@[i as int]@ == rec.names[i as int]);
            assert(tags@[i as int]@.map_values(|t: String| t@) == rec.tags[i as int]);
            assert(parts@[i as int]@ == rec.parts[i as int]);
        }
        let mut name = String::new();
        std::mem::swap(&mut name, &mut names[i]);
        let mut t: Vec<String> = Vec::new();
        std::mem::swap(&mut t, &mut tags[i]);
        let mut ps: Vec<ChunkPart> = Vec::new();
        std::mem::swap(&mut ps, &mut parts[i]);
        let size = total_of_parts(&ps);
        let f = FileManifest { filename: name, hash: hashes[i], chunk_parts: ps, file_size: size, install_tags: t };
        let ghost before = out@;
        out.push(f);
        i += 1;
        assert(file_views(out@) =~= file_views(before).push(f@));
    }
    out
}

/// No later file of `fs` has the name of file `i`.
pub open spec fn last_of_name(fs: Seq<FileManifestView>, i: int) -> bool {
    forall|j: int| i < j < fs.len() ==> (#[trigger] fs[j]).filename != fs[i].filename
}

/// `f` is a file of `input` that no later file of `input` shares a name with.
pub open spec fn is_last_file_of(f: FileManifestView, input: Seq<FileManifestView>) -> bool {
    exists|i: int| 0 <= i < input.len() && f == input[i] && last_of_name(input, i)
}

/// Some file of `out` has the name `name`.
pub open spec fn has_file_named(out: Seq<FileManifestView>, name: Seq<char>) -> bool {
    exists|a: int| 0 <= a < out.len() && (#[trigger] out[a]).filename == name
}

/// `out` holds, in strictly increasing order of name, one file per name of
/// `input`: the last file of `input` with that name.
pub open spec fn files_resolved(out: Seq<FileManifestView>, input: Seq<FileManifestView>) -> bool {
    &&& forall|a: int, b: int|
        0 <= a < b < out.len() ==> chars_lt((#[trigger] out[a]).filename, (#[trigger] out[b]).filename)
    &&& forall|a: int| 0 <= a < out.len() ==> is_last_file_of(#[trigger] out[a], input)
    &&& forall|i: int| 0 <= i < input.len() ==> has_file_named(out, (#[trigger] input[i]).filename)
}

/// The position ending a run of equal keys in sorted positions is the last
/// position with its key.
proof fn lemma_run_end_is_last(ks: Seq<Seq<char>>, pos: Seq<usize>, k: int)
    requires
        positions_sorted(ks, pos),
        positions_in_range(ks, pos),
        pos.len() == ks.len(),
        ks.len() <= usize::MAX,
        forall|q: usize| q < ks.len() ==> pos.contains(q),
        0 <= k < pos.len(),
        k + 1 == pos.len() || ks[pos[k] as int] != ks[pos[k + 1] as int],
    ensures
        forall|j: int| pos[k] < j < ks.len() ==> #[trigger] ks[j] != ks[pos[k] as int],
{
    let p = pos[k] as int;
    assert forall|j: int| p < j < ks.len() implies ks[j] != ks[p] by {
        if ks[j] == ks[p] {
            assert(pos.contains(j as usize));
            let m = choose|m: int| 0 <= m < pos.len() && pos[m] == j as usize;
            lemma_chars_lt_irreflexive(ks[p]);
            assert(m != k);
            if m < k {
                assert(pos_lt(ks, pos[m] as int, pos[k] as int));
                assert(false);
            } else {
                let p1 = pos[k + 1] as int;
                assert(pos_lt(ks, p, p1));
                assert(chars_lt(ks[p], ks[p1]));
                if m > k + 1 {
                    assert(pos_lt(ks, p1, pos[m] as int));
                    if chars_lt(ks[p1], ks[j]) {
                        lemma_chars_lt_transitive(ks[p], ks[p1], ks[j]);
                    }
                }
            }
        }
    }
}

/// Orders files by name, keeping of each name the last file that has it.
pub fn resolve_files(files: Vec<FileManifest>) -> (r: Vec<FileManifest>)
    ensures
        files_resolved(file_views(r@), file_views(files@)),
{
    let ghost input = file_views(files@);
    let n = files.len();
    let mut keys: Vec<Vec<char>> = Vec::new();
    let mut i: usize = 0;
    while i < n
        invariant
            n == files@.len(),
            i <= n,
            keys@.len() == i,
            forall|k: int| 0 <= k < i ==> (#[trigger] keys@[k])@ == files@[k].filename@,
        decreases n - i,
    {
        keys.push(chars_of(files[i].filename.as_str()));
        i += 1;
    }
    let ghost ks = keys@.map_values(|k: Vec<char>| k@);
    assert forall|k: int| 0 <= k < n implies ks[k] == (#[trigger] input[k]).filename by {}
    let pos = sorted_positions(&keys);
    let mut files = files;
    let mut out: Vec<FileManifest> = Vec::new();
    let ghost mut last_name: Seq<char> = seq![];
    let mut k: usize = 0;
    while k < n
        invariant
            n == input.len(),
            n == files@.len(),
            n == keys@.len(),
            n == pos@.len(),
            ks == keys@.map_values(|k: Vec<char>| k@),
            forall|q: int| 0 <= q < n ==> ks[q] == (#[trigger] input[q]).filename,
            positions_sorted(ks, pos@),
            positions_in_range(ks, pos@),
            forall|q: usize| q < n ==> pos@.contains(q),
            k <= n,
            forall|q: int| 0 <= q < n && (forall|kk: int| 0 <= kk < k ==> pos@[kk] != q)
                ==> (#[trigger] files@[q])@ == input[q],
            forall|a: int, b: int|
                0 <= a < b < out@.len() ==> chars_lt((#[trigger] file_views(out@)[a]).filename, (#[trigger] file_views(out@)[b]).filename),
            out@.len() > 0 ==> file_views(out@).last().filename == last_name,
            out@.len() > 0 ==> forall|kk: int| k <= kk < n ==> chars_lt(last_name, #[trigger] ks[pos@[kk] as int]),
            forall|a: int| 0 <= a < out@.len() ==> is_last_file_of(#[trigger] file_views(out@)[a], input),
            forall|kk: int| 0 <= kk < k ==> has_file_named(file_views(out@), #[trigger] ks[pos@[kk] as int])
                || (k < n && ks[pos@[kk] as int] == ks[pos@[k as int] as int]),
        decreases n - k,
    {
        let p = pos[k];
        let keep = if k + 1 == n {
            true
        } else {
            !chars_equal(keys[p].as_slice(), keys[pos[k + 1]].as_slice())
        };
        proof {
            assert(ks[p as int] == keys@[p as int]@);
            if k + 1 < n {
                assert(ks[pos@[k + 1] as int] == keys@[pos@[k + 1] as int]@);
            }
        }
        if keep {
            proof {
                assert(ks.len() <= usize::MAX);
                lemma_run_end_is_last(ks, pos@, k as int);
                assert forall|kk: int| 0 <= kk < k implies pos@[kk] != p by {
                    assert(pos_lt(ks, pos@[kk] as int, pos@[k as int] as int));
                    lemma_chars_lt_irreflexive(ks[p as int]);
                }
            }
            let mut f = FileManifest {
                filename: String::new(),
                hash: [0u8; 20],
                chunk_parts: Vec::new(),
                file_size: 0,
                install_tags: Vec::new(),
            };
            std::mem::swap(&mut f, &mut files[p]);
            let ghost before = file_views(out@);
            proof {
                assert(f@ == input[p as int]);
                assert(last_of_name(input, p as int));
                assert(is_last_file_of(f@, input));
                if out@.len() > 0 {
                    assert forall|a: int| 0 <= a < before.len() implies chars_lt(before[a].filename, f@.filename) by {
                        if a < before.len() - 1 {
                            lemma_chars_lt_transitive(before[a].filename, last_name, f@.filename);
                        }
                    }
                }
            }
            out.push(f);
            proof {
                assert(file_views(out@) =~= before.push(f@));
                last_name = ks[p as int];
                if k + 1 < n {
                    let p1 = pos@[k + 1] as int;
                    assert(pos_lt(ks, p as int, p1));
                    assert forall|kk: int| k + 1 <= kk < n implies chars_lt(last_name, #[trigger] ks[pos@[kk] as int]) by {
                        if kk > k + 1 {
                            assert(pos_lt(ks, p1, pos@[kk] as int));
                            if chars_lt(ks[p1], ks[pos@[kk] as int]) {
                                lemma_chars_lt_transitive(last_name, ks[p1], ks[pos@[kk] as int]);
                            }
                        }
                    }
                }
                assert forall|a: int| 0 <= a < out@.len() implies is_last_file_of(#[trigger] file_views(out@)[a], input) by {
                    if a < before.len() {
                        assert(file_views(out@)[a] == before[a]);
                    }
                }
                assert forall|q: int| 0 <= q < n && (forall|kk: int| 0 <= kk < k + 1 ==> pos@[kk] != q)
                    implies (#[trigger] files@[q])@ == input[q] by {
                    assert(pos@[k as int] != q);
                }
                assert forall|kk: int| 0 <= kk < k + 1 implies has_file_named(file_views(out@), #[trigger] ks[pos@[kk] as int])
                    || (k + 1 < n && ks[pos@[kk] as int] == ks[pos@[k + 1] as int]) by {
                    let last = out@.len() - 1;
                    assert(file_views(out@)[last].filename == ks[p as int]);
                    if kk < k && has_file_named(before, ks[pos@[kk] as int]) {
                        let a = choose|a: int| 0 <= a < before.len() && (#[trigger] before[a]).filename == ks[pos@[kk] as int];
                        assert(file_views(out@)[a] == before[a]);
                    }
                }
            }
        } else {
            proof {
                assert forall|kk: int| 0 <= kk < k + 1 implies has_file_named(file_views(out@), #[trigger] ks[pos@[kk] as int])
                    || (k + 1 < n && ks[pos@[kk] as int] == ks[pos@[k + 1] as int]) by {}
            }
        }
        k += 1;
    }
    proof {
        let outv = file_views(out@);
        assert forall|i: int| 0 <= i < input.len() implies has_file_named(outv, (#[trigger] input[i]).filename) by {
            assert(pos@.contains(i as usize));
            let m = choose|m: int| 0 <= m < pos@.len() && pos@[m] == i as usize;
            assert(ks[pos@[m] as int] == input[i].filename);
        }
    }
    out
}

/// No later chunk of `cs` has the guid of chunk `i`.
pub open spec fn last_of_guid(cs: Seq<ChunkInfo>, i: int) -> bool {
    forall|j: int| i < j < cs.len() ==> (#[trigger] cs[j]).guid != cs[i].guid
}

/// `c` is a chunk of `input` that no later chunk of `input` shares a guid with.
pub open spec fn is_last_chunk_of(c: ChunkInfo, input: Seq<ChunkInfo>) -> bool {
    exists|i: int| 0 <= i < input.len() && c == input[i] && last_of_guid(input, i)
}

/// Some chunk of `out` has the guid `g`.
pub open spec fn has_chunk_guid(out: Seq<ChunkInfo>, g: [u32; 4]) -> bool {
    exists|a: int| 0 <= a < out.len() && (#[trigger] out[a]).guid == g
}

/// `out` holds one chunk per guid of `input`, the last chunk of `input` with
/// that guid.
pub open spec fn chunks_resolved(out: Seq<ChunkInfo>, input: Seq<ChunkInfo>) -> bool {
    &&& forall|a: int, b: int| 0 <= a < b < out.len() ==> (#[trigger] out[a]).guid != (#[trigger] out[b]).guid
    &&& forall|a: int| 0 <= a < out.len() ==> is_last_chunk_of(#[trigger] out[a], input)
    &&& forall|i: int| 0 <= i < input.len() ==> has_chunk_guid(out, (#[trigger] input[i]).guid)
}

/// A guid as one 128-bit number, first word least significant.
pub open spec fn guid_key(g: [u32; 4]) -> u128 {
    (g[0] as int + g[1] as int * 0x1_0000_0000 + g[2] as int * 0x1_0000_0000_0000_0000
        + g[3] as int * 0x1_0000_0000_0000_0000_0000_0000) as u128
}

proof fn lemma_guid_key_injective(g: [u32; 4], h: [u32; 4])
    requires
        guid_key(g) == guid_key(h),
    ensures
        g == h,
{
    let a = g[0] as int + g[1] as int * 0x1_0000_0000 + g[2] as int * 0x1_0000_0000_0000_0000
        + g[3] as int * 0x1_0000_0000_0000_0000_0000_0000;
    let b = h[0] as int + h[1] as int * 0x1_0000_0000 + h[2] as int * 0x1_0000_0000_0000_0000
        + h[3] as int * 0x1_0000_0000_0000_0000_0000_0000;
    assert(a == b);
    assert(g[3] == h[3]);
    assert(g[2] == h[2]);
    assert(g[1] == h[1]);
    assert(g[0] == h[0]);
    assert(g@ =~= h@);
}

fn key_of_guid(g: [u32; 4]) -> (k: u128)
    ensures
        k == guid_key(g),
{
    g[0] as u128 + g[1] as u128 * 0x1_0000_0000 + g[2] as u128 * 0x1_0000_0000_0000_0000
        + g[3] as u128 * 0x1_0000_0000_0000_0000_0000_0000
}

/// Keeps of each guid the last chunk that has it.
pub fn resolve_chunks(chunks: &Vec<ChunkInfo>) -> (r: Vec<ChunkInfo>)
    ensures
        chunks_resolved(r@, chunks@),
{
    broadcast use vstd::std_specs::hash::group_hash_axioms;
    let ghost input = chunks@;
    let n = chunks.len();
    let mut index: HashMap<u128, usize> = HashMap::new();
    let mut out: Vec<ChunkInfo> = Vec::new();
    let mut i: usize = 0;
    while i < n
        invariant
            n == input.len(),
            input == chunks@,
            i <= n,
            forall|key: u128| #[trigger] index@.contains_key(key) ==> index@[key] < out@.len()
                && guid_key(out@[index@[key] as int].guid) == key,
            forall|a: int| 0 <= a < out@.len() ==> #[trigger] index@.contains_key(guid_key(out@[a].guid)),
            forall|a: int, b: int| 0 <= a < b < out@.len() ==> (#[trigger] out@[a]).guid != (#[trigger] out@[b]).guid,
            forall|a: int| 0 <= a < out@.len() ==> exists|i0: int| 0 <= i0 < i && (#[trigger] out@[a]) == input[i0]
                && forall|j: int| i0 < j < i ==> (#[trigger] input[j]).guid != input[i0].guid,
            forall|i0: int| 0 <= i0 < i ==> has_chunk_guid(out@, (#[trigger] input[i0]).guid),
        decreases n - i,
    {
        let c = chunks[i];
        let key = key_of_guid(c.guid);
        let ghost before = out@;
        match index.get(&key) {
            Some(a) => {
                let a = *a;
                proof {
                    lemma_guid_key_injective(out@[a as int].guid, c.guid);
                }
                out.set(a, c);
                proof {
                    assert forall|b: int| 0 <= b < out@.len() implies exists|i0: int| 0 <= i0 < i + 1 && (#[trigger] out@[b]) == input[i0]
                        && forall|j: int| i0 < j < i + 1 ==> (#[trigger] input[j]).guid != input[i0].guid by {
                        if b == a {
                            assert(out@[b] == input[i as int]);
                        } else {
                            let i0 = choose|i0: int| 0 <= i0 < i && (#[trigger] before[b]) == input[i0]
                                && forall|j: int| i0 < j < i ==> (#[trigger] input[j]).guid != input[i0].guid;
                            assert(before[b].guid != before[a as int].guid);
                            assert(out@[b] == input[i0]);
                        }
                    }
                    assert forall|i0: int| 0 <= i0 < i + 1 implies has_chunk_guid(out@, (#[trigger] input[i0]).guid) by {
                        if i0 < i {
                            let b = choose|b: int| 0 <= b < before.len() && (#[trigger] before[b]).guid == input[i0].guid;
                            assert(out@[b].guid == input[i0].guid);
                        } else {
                            assert(out@[a as int].guid == input[i0].guid);
                        }
                    }
                }
            },
            None => {
                proof {
                    assert forall|b: int| 0 <= b < before.len() implies (#[trigger] before[b]).guid != c.guid by {
                        assert(index@.contains_key(guid_key(before[b].guid)));
                    }
                }
                index.insert(key, out.len());
                out.push(c);
                proof {
                    assert forall|b: int| 0 <= b < out@.len() implies exists|i0: int| 0 <= i0 < i + 1 && (#[trigger] out@[b]) == input[i0]
                        && forall|j: int| i0 < j < i + 1 ==> (#[trigger] input[j]).guid != input[i0].guid by {
                        if b == before.len() {
                            assert(out@[b] == input[i as int]);
                        } else {
                            let i0 = choose|i0: int| 0 <= i0 < i && (#[trigger] before[b]) == input[i0]
                                && forall|j: int| i0 < j < i ==> (#[trigger] input[j]).guid != input[i0].guid;
                            assert(out@[b] == input[i0]);
                        }
                    }
                    assert forall|i0: int| 0 <= i0 < i + 1 implies has_chunk_guid(out@, (#[trigger] input[i0]).guid) by {
                        if i0 < i {
                            let b = choose|b: int| 0 <= b < before.len() && (#[trigger] before[b]).guid == input[i0].guid;
                            assert(out@[b].guid == input[i0].guid);
                        } else {
                            assert(out@[before.len() as int].guid == input[i0].guid);
                        }
                    }
                    assert forall|key2: u128| #[trigger] index@.contains_key(key2) implies index@[key2] < out@.len()
                        && guid_key(out@[index@[key2] as int].guid) == key2 by {
                        if key2 != key {
                            assert(out@[index@[key2] as int] == before[index@[key2] as int]);
                        }
                    }
                    assert forall|b: int| 0 <= b < out@.len() implies #[trigger] index@.contains_key(guid_key(out@[b].guid)) by {
                        if b < before.len() {
                            assert(out@[b] == before[b]);
                        }
                    }
                }
            },
        }
        i += 1;
    }
    proof {
        assert forall|a: int| 0 <= a < out@.len() implies is_last_chunk_of(#[trigger] out@[a], input) by {
            let i0 = choose|i0: int| 0 <= i0 < n && (#[trigger] out@[a]) == input[i0]
                && forall|j: int| i0 < j < n ==> (#[trigger] input[j]).guid != input[i0].guid;
            assert(last_of_guid(input, i0));
        }
    }
    out
}

/// A parsed manifest: one entry per chunk guid and per file name, files in
/// order of name.
pub struct Manifest {
    pub manifest_version: u32,
    pub meta: ManifestMeta,
    pub chunks: Vec<ChunkInfo>,
    pub files: Vec<FileManifest>,
    pub total_uncompressed_size: u64,
    pub total_download_size: u64,
}

/// The sizes of the files summed with wrapping addition.
pub open spec fn files_total(fs: Seq<FileManifestView>) -> u64
    decreases fs.len(),
{
    if fs.len() == 0 {
        0
    } else {
        vstd::wrapping::u64_specs::wrapping_add(files_total(fs.drop_last()), fs.last().file_size)
    }
}

/// The stored sizes of the chunks, each taken as `u64`, summed with wrapping addition.
pub open spec fn chunks_total(cs: Seq<ChunkInfo>) -> u64
    decreases cs.len(),
{
    if cs.len() == 0 {
        0
    } else {
        vstd::wrapping::u64_specs::wrapping_add(chunks_total(cs.drop_last()), cs.last().file_size as u64)
    }
}

pub const MANIFEST_MAGIC: u32 = 0x44BEC00C;

/// The header of a manifest: a magic number, sizes, a SHA-1 sum, the storage
/// flags at byte 36 and the version at byte 37; the body follows at byte 41,
/// zlib-compressed where bit 0 of the flags is set. The version and the body.
pub open spec fn spec_manifest_body(data: Seq<u8>) -> Result<(u32, Seq<u8>), WireError> {
    if data.len() < 4 {
        Err(WireError::Truncated)
    } else if spec_le_u32(data, 0) != MANIFEST_MAGIC {
        Err(WireError::BadManifestMagic(spec_le_u32(data, 0)))
    } else if data.len() < 41 {
        Err(WireError::Truncated)
    } else if data[36] & 1 != 0 {
        match zlib_inflate(data.skip(41)) {
            Some(body) => Ok((spec_le_u32(data, 37), body)),
            None => Err(WireError::Inflate),
        }
    } else {
        Ok((spec_le_u32(data, 37), data.skip(41)))
    }
}

/// `m` is the manifest of version `version` whose body reads as `rec`.
pub open spec fn manifest_matches(m: Manifest, version: u32, rec: BodyRecord) -> bool {
    &&& m.manifest_version == version
    &&& m.meta@.app_name == rec.meta[0]
    &&& m.meta@.build_version == rec.meta[1]
    &&& m.meta@.launch_exe == rec.meta[2]
    &&& m.meta@.launch_command == rec.meta[3]
    &&& chunks_resolved(m.chunks@, rec.chunks)
    &&& files_resolved(file_views(m.files@), file_records(rec))
    &&& m.total_uncompressed_size == files_total(file_views(m.files@))
    &&& m.total_download_size == chunks_total(m.chunks@)
}

/// What parsing `data` as a manifest gives: the first error met, or a manifest
/// that matches the body read.
pub open spec fn parse_manifest_ok(data: Seq<u8>, r: Result<Manifest, WireError>) -> bool {
    match spec_manifest_body(data) {
        Err(e) => r matches Err(x) && x == e,
        Ok((version, body)) => match spec_parse_body(body) {
            Err(e) => r matches Err(x) && x == e,
            Ok(rec) => r matches Ok(m) && manifest_matches(m, version, rec),
        },
    }
}

fn sum_file_sizes(fs: &Vec<FileManifest>) -> (t: u64)
    ensures
        t == files_total(file_views(fs@)),
{
    let mut t: u64 = 0;
    let mut i: usize = 0;
    while i < fs.len()
        invariant
            i <= fs@.len(),
            t == files_total(file_views(fs@).take(i as int)),
        decreases fs@.len() - i,
    {
        assert(file_views(fs@).take(i + 1).drop_last() =~= file_views(fs@).take(i as int));
        t = t.wrapping_add(fs[i].file_size);
        i += 1;
    }
    assert(file_views(fs@).take(fs@.len() as int) =~= file_views(fs@));
    t
}

fn sum_chunk_sizes(cs: &Vec<ChunkInfo>) -> (t: u64)
    ensures
        t == chunks_total(cs@),
{
    let mut t: u64 = 0;
    let mut i: usize = 0;
    while i < cs.len()
        invariant
            i <= cs@.len(),
            t == chunks_total(cs@.take(i as int)),
        decreases cs@.len() - i,
    {
        assert(cs@.take(i + 1).drop_last() =~= cs@.take(i as int));
        t = t.wrapping_add(cs[i].file_size as u64);
        i += 1;
    }
    assert(cs@.take(cs@.len() as int) =~= cs@);
    t
}

/// Parses a manifest held in `data`.
pub fn parse_manifest(data: &[u8]) -> (r: Result<Manifest, WireError>)
    ensures
        parse_manifest_ok(data@, r),
        r matches Ok(m) ==> manifest_wf(m),
        r matches Ok(m) ==> file_names_distinct(m),
{
    let len = data.len();
    if len < 4 {
        return Err(WireError::Truncated);
    }
    let magic = crate::bytes::le_u32_at(data, 0);
    if magic != MANIFEST_MAGIC {
        return Err(WireError::BadManifestMagic(magic));
    }
    if len < 41 {
        return Err(WireError::Truncated);
    }
    let stored_as = data[36];
    let version = crate::bytes::le_u32_at(data, 37);
    let rest = vstd::slice::slice_subrange(data, 41, len);
    assert(rest@ =~= data@.skip(41));
    let inflated;
    let body: &[u8] = if stored_as & 1 != 0 {
        match inflate(rest) {
            Some(v) => {
                inflated = v;
                inflated.as_slice()
            },
            None => return Err(WireError::Inflate),
        }
    } else {
        rest
    };
    let r = build_manifest(version, body);
    proof {
        assert(parse_manifest_ok(data@, r));
        if r is Ok {
            law_parsed_manifest_wf(data@, r->Ok_0);
        }
    }
    r
}

/// Parses a manifest body and resolves its chunks and files.
fn build_manifest(version: u32, body: &[u8]) -> (r: Result<Manifest, WireError>)
    ensures
        match spec_parse_body(body@) {
            Err(e) => r matches Err(x) && x == e,
            Ok(rec) => r matches Ok(m) && manifest_matches(m, version, rec),
        },
{
    let raw = match parse_body(body) {
        Ok(x) => x,
        Err(e) => return Err(e),
    };
    let ghost rec = spec_parse_body(body@).unwrap();
    proof {
        lemma_body_columns(body@);
    }
    let mut raw = raw;
    proof {
        assert(raw.meta@[0]@ == rec.meta[0]);
        assert(raw.meta@[1]@ == rec.meta[1]);
        assert(raw.meta@[2]@ == rec.meta[2]);
        assert(raw.meta@[3]@ == rec.meta[3]);
    }
    let mut app_name = String::new();
    std::mem::swap(&mut app_name, &mut raw.meta[0]);
    let mut build_version = String::new();
    std::mem::swap(&mut build_version, &mut raw.meta[1]);
    let mut launch_exe = String::new();
    std::mem::swap(&mut launch_exe, &mut raw.meta[2]);
    let mut launch_command = String::new();
    std::mem::swap(&mut launch_command, &mut raw.meta[3]);
    let chunks = resolve_chunks(&raw.chunks);
    let files = resolve_files(assemble_files(raw, Ghost(rec)));
    let total_uncompressed_size = sum_file_sizes(&files);
    let total_download_size = sum_chunk_sizes(&chunks);
    Ok(Manifest {
        manifest_version: version,
        meta: ManifestMeta { app_name, build_version, launch_exe, launch_command },
        chunks,
        files,
        total_uncompressed_size,
        total_download_size,
    })
}

/// The directory that chunks of a manifest version are stored under.
pub open spec fn chunk_dir(version: u32) -> Seq<char> {
    if version >= 15 {
        "ChunksV4"@
    } else if version >= 6 {
        "ChunksV3"@
    } else if version >= 3 {
        "ChunksV2"@
    } else {
        "Chunks"@
    }
}

/// `{dir}/{group:02}/{hash:016X}_{guid words:08X each}.chunk`.
pub open spec fn spec_chunk_path(c: ChunkInfo, version: u32) -> Seq<char> {
    chunk_dir(version) + seq!['/'] + dec_padded(c.group_num as nat, 2) + seq!['/']
        + hex_of_int(c.hash as nat, 16, true) + seq!['_'] + hex_of_int(c.guid[0] as nat, 8, true)
        + hex_of_int(c.guid[1] as nat, 8, true) + hex_of_int(c.guid[2] as nat, 8, true)
        + hex_of_int(c.guid[3] as nat, 8, true) + ".chunk"@
}

impl ChunkInfo {
    /// Where the chunk is stored relative to a CDN base or a cloud-save root.
    pub fn path(&self, manifest_version: u32) -> (r: String)
        ensures
            r@ == spec_chunk_path(*self, manifest_version),
    {
        let dir = if manifest_version >= 15 {
            "ChunksV4"
        } else if manifest_version >= 6 {
            "ChunksV3"
        } else if manifest_version >= 3 {
            "ChunksV2"
        } else {
            "Chunks"
        };
        let mut out: Vec<char> = chars_of(dir);
        out.push('/');
        push_dec_padded(&mut out, self.group_num as u64, 2);
        out.push('/');
        push_hex_u64(&mut out, self.hash, 16, true);
        out.push('_');
        push_hex_u64(&mut out, self.guid[0] as u64, 8, true);
        push_hex_u64(&mut out, self.guid[1] as u64, 8, true);
        push_hex_u64(&mut out, self.guid[2] as u64, 8, true);
        push_hex_u64(&mut out, self.guid[3] as u64, 8, true);
        let ext = chars_of(".chunk");
        push_chars_vec(&mut out, &ext);
        let r = string_of(out.as_slice());
        assert(r@ =~= spec_chunk_path(*self, manifest_version));
        r
    }
}

/// Appends `v` to `out`.
pub fn push_chars_vec(out: &mut Vec<char>, v: &Vec<char>)
    ensures
        final(out)@ == old(out)@ + v@,
{
    let ghost start = out@;
    let mut i: usize = 0;
    while i < v.len()
        invariant
            i <= v@.len(),
            out@ == start + v@.take(i as int),
        decreases v@.len() - i,
    {
        out.push(v[i]);
        i += 1;
        assert(out@ =~= start + v@.take(i as int));
    }
    assert(v@.take(v@.len() as int) =~= v@);
}

/// The text of each string.
pub open spec fn string_views(v: Seq<String>) -> Seq<Seq<char>> {
    v.map_values(|s: String| s@)
}

/// `names` is `files`' names reordered: position `i` of `names` holds the name
/// of file `p[i]`, and no file is used twice.
pub open spec fn is_name_permutation(names: Seq<Seq<char>>, files: Seq<FileManifestView>, p: Seq<usize>) -> bool {
    &&& p.len() == names.len()
    &&& names.len() == files.len()
    &&& forall|i: int| 0 <= i < p.len() ==> #[trigger] p[i] < files.len() && names[i] == files[p[i] as int].filename
    &&& forall|i: int, j: int| 0 <= i < j < p.len() ==> #[trigger] p[i] != #[trigger] p[j]
}

/// No two files of the manifest share a name, as parsing guarantees.
pub open spec fn file_names_distinct(m: Manifest) -> bool {
    forall|a: int, b: int| 0 <= a < b < m.files@.len() ==> (#[trigger] m.files@[a]).filename@ != (#[trigger] m.files@[b]).filename@
}

impl Manifest {
    /// The names of the manifest's files in increasing order; strictly
    /// increasing where no two files share a name.
    pub fn list_files(&self) -> (r: Vec<String>)
        ensures
            forall|a: int, b: int| 0 <= a < b < r@.len() ==> chars_le((#[trigger] r@[a])@, (#[trigger] r@[b])@),
            exists|p: Seq<usize>| #[trigger] is_name_permutation(string_views(r@), file_views(self.files@), p),
            file_names_distinct(*self) ==> forall|a: int, b: int|
                0 <= a < b < r@.len() ==> chars_lt((#[trigger] r@[a])@, (#[trigger] r@[b])@),
    {
        let n = self.files.len();
        let mut keys: Vec<Vec<char>> = Vec::new();
        let mut i: usize = 0;
        while i < n
            invariant
                n == self.files@.len(),
                i <= n,
                keys@.len() == i,
                forall|k: int| 0 <= k < i ==> (#[trigger] keys@[k])@ == self.files@[k].filename@,
            decreases n - i,
        {
            keys.push(chars_of(self.files[i].filename.as_str()));
            i += 1;
        }
        let ghost ks = keys@.map_values(|k: Vec<char>| k@);
        let pos = sorted_positions(&keys);
        let mut out: Vec<String> = Vec::new();
        let mut k: usize = 0;
        while k < n
            invariant
                n == self.files@.len(),
                n == keys@.len(),
                n == pos@.len(),
                ks == keys@.map_values(|k: Vec<char>| k@),
                forall|q: int| 0 <= q < n ==> #[trigger] ks[q] == self.files@[q].filename@,
                positions_sorted(ks, pos@),
                positions_in_range(ks, pos@),
                k <= n,
                out@.len() == k,
                forall|a: int| 0 <= a < k ==> (#[trigger] out@[a])@ == ks[pos@[a] as int],
            decreases n - k,
        {
            let p = pos[k];
            out.push(self.files[p].filename.clone());
            k += 1;
        }
        proof {
            let names = string_views(out@);
            assert forall|a: int, b: int| 0 <= a < b < out@.len() implies chars_le((#[trigger] out@[a])@, (#[trigger] out@[b])@) by {
                assert(pos_lt(ks, pos@[a] as int, pos@[b] as int));
            }
            assert forall|a: int, b: int| 0 <= a < b < pos@.len() implies #[trigger] pos@[a] != #[trigger] pos@[b] by {
                assert(pos_lt(ks, pos@[a] as int, pos@[b] as int));
                lemma_chars_lt_irreflexive(ks[pos@[a] as int]);
            }
            assert(is_name_permutation(names, file_views(self.files@), pos@));
            if file_names_distinct(*self) {
                assert forall|a: int, b: int| 0 <= a < b < out@.len() implies chars_lt((#[trigger] out@[a])@, (#[trigger] out@[b])@) by {
                    let pa = pos@[a] as int;
                    let pb = pos@[b] as int;
                    assert(pos_lt(ks, pa, pb));
                    assert(pa != pb);
                    if pa < pb {
                        assert(self.files@[pa].filename@ != self.files@[pb].filename@);
                    } else {
                        assert(self.files@[pb].filename@ != self.files@[pa].filename@);
                    }
                }
            }
        }
        out
    }
}


/// The parts of a file run on: the first starts at the file's start, and
/// each next one where the one before it ends (sizes added with wrapping).
pub open spec fn parts_run_on(ps: Seq<ChunkPart>) -> bool {
    &&& ps.len() > 0 ==> ps[0].file_offset == 0
    &&& forall|i: int| 0 <= i < ps.len() - 1 ==> (#[trigger] ps[i + 1]).file_offset
        == vstd::wrapping::u64_specs::wrapping_add(ps[i].file_offset, ps[i].size as u64)
}

/// A manifest as parsing gives it: no two files share a name and no two
/// chunks a guid; each file's size is the sum of its parts, which run on;
/// the totals are the sums of the file sizes and of the stored chunk sizes.
pub open spec fn manifest_wf(m: Manifest) -> bool {
    &&& file_names_distinct(m)
    &&& forall|a: int, b: int| 0 <= a < b < m.chunks@.len() ==> (#[trigger] m.chunks@[a]).guid != (#[trigger] m.chunks@[b]).guid
    &&& forall|a: int| 0 <= a < m.files@.len() ==> {
        &&& (#[trigger] m.files@[a]).file_size == parts_total(m.files@[a].chunk_parts@)
        &&& parts_run_on(m.files@[a].chunk_parts@)
    }
    &&& m.total_uncompressed_size == files_total(file_views(m.files@))
    &&& m.total_download_size == chunks_total(m.chunks@)
}

proof fn lemma_parts_run_on(s: Seq<u8>, p: int)
    ensures
        sp_parts(s, p) matches Ok((ps, _)) ==> parts_run_on(ps),
{
    if let Ok((ps, _)) = sp_parts(s, p) {
        let q = p + 4;
        assert forall|i: int| 0 <= i < ps.len() - 1 implies (#[trigger] ps[i + 1]).file_offset
            == vstd::wrapping::u64_specs::wrapping_add(ps[i].file_offset, ps[i].size as u64) by {
            assert(ps[i + 1] == part_at(s, q, i + 1));
            assert(ps[i] == part_at(s, q, i));
        }
        if ps.len() > 0 {
            assert(ps[0] == part_at(s, q, 0));
        }
    }
}

proof fn lemma_part_lists_run_on(s: Seq<u8>, p: int, n: nat)
    ensures
        sp_part_lists(s, p, n) matches Ok((v, _)) ==> forall|i: int| 0 <= i < v.len() ==> parts_run_on(#[trigger] v[i]),
    decreases n,
{
    if n > 0 {
        lemma_part_lists_run_on(s, p, (n - 1) as nat);
        if let Ok((v0, q)) = sp_part_lists(s, p, (n - 1) as nat) {
            lemma_parts_run_on(s, q);
            if let Ok((x, _)) = sp_parts(s, q) {
                let v = v0.push(x);
                assert forall|i: int| 0 <= i < v.len() implies parts_run_on(#[trigger] v[i]) by {
                    if i < v0.len() {
                        assert(v[i] == v0[i]);
                    }
                }
            }
        }
    }
}

proof fn lemma_body_parts_run_on(b: Seq<u8>)
    ensures
        spec_parse_body(b) matches Ok(r) ==> forall|i: int| 0 <= i < r.parts.len() ==> parts_run_on(#[trigger] r.parts[i]),
{
    reveal(spec_parse_body);
    if b.len() >= 14 {
        let p1 = spec_le_u32(b, 0) as int;
        let p2 = p1 + spec_le_u32(b, p1) as int;
        let n = spec_le_u32(b, p2 + 5) as nat;
        if let Ok((_, a)) = sp_fstrings(b, p2 + 9, n) {
            if let Ok((_, c)) = sp_fstrings(b, a, n) {
                if let Ok((_, d)) = sp_tag_lists(b, c + 21 * n, n) {
                    lemma_part_lists_run_on(b, d, n);
                }
            }
        }
    }
}

/// What parsing gives is a well-formed manifest: names and guids are not
/// repeated, each file's size is the sum of its parts and its parts run on,
/// and the totals are the sums of the sizes.
pub proof fn law_parsed_manifest_wf(data: Seq<u8>, m: Manifest)
    requires
        parse_manifest_ok(data, Ok(m)),
    ensures
        manifest_wf(m),
{
    if let Ok((version, body)) = spec_manifest_body(data) {
        if let Ok(rec) = spec_parse_body(body) {
            lemma_body_parts_run_on(body);
            lemma_body_columns(body);
            let fv = file_views(m.files@);
            let input = file_records(rec);
            assert forall|a: int, b: int| 0 <= a < b < m.files@.len()
                implies (#[trigger] m.files@[a]).filename@ != (#[trigger] m.files@[b]).filename@ by {
                assert(fv[a] == m.files@[a]@);
                assert(fv[b] == m.files@[b]@);
                assert(chars_lt(fv[a].filename, fv[b].filename));
                if fv[a].filename == fv[b].filename {
                    crate::order::lemma_chars_lt_irreflexive(fv[a].filename);
                }
            }
            assert forall|a: int| 0 <= a < m.files@.len() implies {
                &&& (#[trigger] m.files@[a]).file_size == parts_total(m.files@[a].chunk_parts@)
                &&& parts_run_on(m.files@[a].chunk_parts@)
            } by {
                assert(fv[a] == m.files@[a]@);
                assert(is_last_file_of(fv[a], input));
                let i = choose|i: int| 0 <= i < input.len() && fv[a] == input[i] && last_of_name(input, i);
                assert(input[i] == file_record(rec, i));
                assert(rec.parts[i] == input[i].chunk_parts);
            }
        }
    }
}

} // verus!
