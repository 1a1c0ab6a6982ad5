//! Cloud saves: how save files are packed into chunks for upload, how a file
//! is put back together from downloaded chunks, and how local and remote
//! saves compare.

use vstd::prelude::*;
use crate::manifest::{ChunkPart, FileManifest};
use crate::codec::{sha1, sha1_digest};
use crate::chunk::sha_equal;
use crate::api::{parse_rfc3339, rfc3339_instant, instant_after, is_after};
use crate::models::CloudSaveFile;
use rand::Rng;

verus! {

/// The size of a save chunk: one mebibyte.
pub const SAVE_CHUNK_SIZE: usize = 1048576;

/// Why a file could not be put back together.
#[derive(Debug, Clone, Copy, PartialEq, Eq, Structural)]
pub enum AssembleError {
    /// A part names a chunk that was not downloaded.
    MissingChunk,
    /// A part reaches past the end of its chunk.
    PartOutOfBounds,
    /// The bytes put together do not have the file's SHA-1 sum.
    HashMismatch,
}

/// The data of the first chunk with guid `g`.
pub open spec fn find_chunk(chunks: Seq<([u32; 4], Seq<u8>)>, g: [u32; 4]) -> Option<Seq<u8>>
    decreases chunks.len(),
{
    if chunks.len() == 0 {
        None
    } else if chunks[0].0 == g {
        Some(chunks[0].1)
    } else {
        find_chunk(chunks.drop_first(), g)
    }
}

/// The bytes of a file taken part by part from the chunks; the first part in
/// order that names a missing chunk, or reaches past its chunk, is the error.
pub open spec fn spec_assemble(parts: Seq<ChunkPart>, chunks: Seq<([u32; 4], Seq<u8>)>) -> Result<Seq<u8>, AssembleError>
    decreases parts.len(),
{
    if parts.len() == 0 {
        Ok(seq![])
    } else {
        match spec_assemble(parts.drop_last(), chunks) {
            Err(e) => Err(e),
            Ok(prefix) => {
                let p = parts.last();
                match find_chunk(chunks, p.guid) {
                    None => Err(AssembleError::MissingChunk),
                    Some(d) => if p.offset + p.size <= d.len() {
                        Ok(prefix + d.subrange(p.offset as int, p.offset + p.size))
                    } else {
                        Err(AssembleError::PartOutOfBounds)
                    },
                }
            },
        }
    }
}

pub open spec fn chunk_views(chunks: Seq<([u32; 4], Vec<u8>)>) -> Seq<([u32; 4], Seq<u8>)> {
    chunks.map_values(|c: ([u32; 4], Vec<u8>)| (c.0, c.1@))
}

fn find_chunk_index(chunks: &Vec<([u32; 4], Vec<u8>)>, g: [u32; 4]) -> (r: Option<usize>)
    ensures
        match (r, find_chunk(chunk_views(chunks@), g)) {
            (Some(i), Some(d)) => i < chunks@.len() && chunks@[i as int].1@ == d,
            (None, None) => true,
            _ => false,
        },
{
    let ghost cs = chunk_views(chunks@);
    let mut i: usize = 0;
    assert(cs.skip(0) =~= cs);
    while i < chunks.len()
        invariant
            i <= chunks@.len(),
            cs == chunk_views(chunks@),
            find_chunk(cs, g) == find_chunk(cs.skip(i as int), g),
        decreases chunks@.len() - i,
    {
        assert(cs.skip(i as int).drop_first() =~= cs.skip(i + 1));
        assert(cs.skip(i as int)[0] == (chunks@[i as int].0, chunks@[i as int].1@));
        let c = &chunks[i];
        if c.0[0] == g[0] && c.0[1] == g[1] && c.0[2] == g[2] && c.0[3] == g[3] {
            assert(c.0 =~= g);
            return Some(i);
        }
        assert(c.0 != g);
        i += 1;
    }
    None
}

/// Puts the bytes of a file together from its parts and the downloaded
/// chunks.
pub fn assemble_parts(parts: &Vec<ChunkPart>, chunks: &Vec<([u32; 4], Vec<u8>)>) -> (r: Result<Vec<u8>, AssembleError>)
    ensures
        match (r, spec_assemble(parts@, chunk_views(chunks@))) {
            (Ok(v), Ok(w)) => v@ == w,
            (Err(a), Err(b)) => a == b,
            _ => false,
        },
{
    let ghost cs = chunk_views(chunks@);
    let mut out: Vec<u8> = Vec::new();
    let mut i: usize = 0;
    assert(parts@.take(0) =~= seq![]);
    while i < parts.len()
        invariant
            i <= parts@.len(),
            cs == chunk_views(chunks@),
            spec_assemble(parts@.take(i as int), cs) == Ok::<Seq<u8>, AssembleError>(out@),
        decreases parts@.len() - i,
    {
        assert(parts@.take(i + 1).drop_last() =~= parts@.take(i as int));
        let p = parts[i];
        match find_chunk_index(chunks, p.guid) {
            None => {
                proof { lemma_assemble_err_persists(parts@, cs, i as int + 1); }
                return Err(AssembleError::MissingChunk);
            },
            Some(k) => {
                let d = &chunks[k].1;
                let start = p.offset as usize;
                let size = p.size as usize;
                if size <= d.len() && start <= d.len() - size {
                    let end = start + size;
                    let ghost before = out@;
                    let mut j = start;
                    while j < end
                        invariant
                            start <= j <= end <= d@.len(),
                            out@ == before + d@.subrange(start as int, j as int),
                        decreases end - j,
                    {
                        out.push(d[j]);
                        j += 1;
                        assert(out@ =~= before + d@.subrange(start as int, j as int));
                    }
                } else {
                    proof { lemma_assemble_err_persists(parts@, cs, i as int + 1); }
                    return Err(AssembleError::PartOutOfBounds);
                }
            },
        }
        i += 1;
    }
    assert(parts@.take(parts@.len() as int) =~= parts@);
    Ok(out)
}

/// Once putting a prefix of the parts together fails, putting all of them
/// together fails the same way.
pub proof fn lemma_assemble_err_persists(parts: Seq<ChunkPart>, chunks: Seq<([u32; 4], Seq<u8>)>, k: int)
    requires
        0 <= k <= parts.len(),
        spec_assemble(parts.take(k), chunks) is Err,
    ensures
        spec_assemble(parts, chunks) == spec_assemble(parts.take(k), chunks),
    decreases parts.len() - k,
{
    if k < parts.len() {
        assert(parts.take(k + 1).drop_last() =~= parts.take(k));
        lemma_assemble_err_persists(parts, chunks, k + 1);
    } else {
        assert(parts.take(k) =~= parts);
    }
}

/// A file put back together and checked: its parts' bytes, which must have
/// the SHA-1 sum the manifest records.
pub open spec fn spec_restore(parts: Seq<ChunkPart>, hash: [u8; 20], chunks: Seq<([u32; 4], Seq<u8>)>) -> Result<Seq<u8>, AssembleError> {
    match spec_assemble(parts, chunks) {
        Err(e) => Err(e),
        Ok(d) => if sha1_digest(d) == hash {
            Ok(d)
        } else {
            Err(AssembleError::HashMismatch)
        },
    }
}

/// Restores a downloaded save file from the chunks it was cut into.
pub fn restore_file(file: &FileManifest, chunks: &Vec<([u32; 4], Vec<u8>)>) -> (r: Result<Vec<u8>, AssembleError>)
    ensures
        match (r, spec_restore(file.chunk_parts@, file.hash, chunk_views(chunks@))) {
            (Ok(v), Ok(w)) => v@ == w,
            (Err(a), Err(b)) => a == b,
            _ => false,
        },
{
    match assemble_parts(&file.chunk_parts, chunks) {
        Err(e) => Err(e),
        Ok(d) => {
            let h = sha1(d.as_slice());
            if sha_equal(&h, &file.hash) {
                Ok(d)
            } else {
                Err(AssembleError::HashMismatch)
            }
        },
    }
}

// ---------------------------------------------------------------------------
// Packing for upload.

/// A piece of a file as packing places it: the chunk it goes to, where in the
/// chunk, how many bytes, and where in the file they come from.
#[derive(Debug, Clone, Copy, PartialEq, Eq, Structural)]
pub struct PackedPart {
    pub chunk: usize,
    pub offset: u32,
    pub size: u32,
    pub file_offset: u64,
}

pub open spec fn window() -> nat {
    1048576
}

/// The pieces of `len` bytes that start at stream position `pos`, the first
/// of them at offset `done` in its file: each piece runs to the end of its
/// chunk or of the bytes, whichever comes first.
pub open spec fn pieces(pos: nat, len: nat, done: nat) -> Seq<(nat, nat, nat, nat)>
    decreases len,
{
    if len == 0 {
        seq![]
    } else {
        let off = pos % window();
        let room = (window() - off) as nat;
        let take = if room < len { room } else { len };
        seq![(pos / window(), off, take, done)] + pieces(pos + take, (len - take) as nat, done + take)
    }
}

/// The byte count of all files before file `i`.
pub open spec fn start_of(sizes: Seq<nat>, i: int) -> nat
    decreases i,
{
    if i <= 0 {
        0
    } else {
        start_of(sizes, i - 1) + sizes[i - 1]
    }
}

/// Packing's layout: the files one after the other in a stream cut into
/// chunks of a mebibyte; each file's pieces.
pub open spec fn pack_plan(sizes: Seq<nat>) -> Seq<Seq<(nat, nat, nat, nat)>> {
    Seq::new(sizes.len(), |i: int| pieces(start_of(sizes, i), sizes[i], 0))
}

/// How many chunks the stream of `total` bytes fills: the last one may be
/// short.
pub open spec fn chunk_count(total: nat) -> nat {
    if total % window() == 0 {
        total / window()
    } else {
        total / window() + 1
    }
}

pub open spec fn part_tuple(p: PackedPart) -> (nat, nat, nat, nat) {
    (p.chunk as nat, p.offset as nat, p.size as nat, p.file_offset as nat)
}

pub open spec fn plan_view(r: Seq<Vec<PackedPart>>) -> Seq<Seq<(nat, nat, nat, nat)>> {
    r.map_values(|ps: Vec<PackedPart>| ps@.map_values(|p: PackedPart| part_tuple(p)))
}

pub open spec fn nat_sizes(sizes: Seq<usize>) -> Seq<nat> {
    sizes.map_values(|s: usize| s as nat)
}

proof fn lemma_start_of_step(sizes: Seq<nat>, i: int)
    requires
        0 <= i < sizes.len(),
    ensures
        start_of(sizes, i + 1) == start_of(sizes, i) + sizes[i],
{
}

proof fn lemma_start_of_mono(sizes: Seq<nat>, i: int, j: int)
    requires
        0 <= i <= j <= sizes.len(),
    ensures
        start_of(sizes, i) <= start_of(sizes, j),
    decreases j - i,
{
    if i < j {
        lemma_start_of_mono(sizes, i, j - 1);
    }
}

/// Where each save file's bytes go in the upload's chunks, the files taken in
/// the order given.
pub fn pack_save_files(sizes: &Vec<usize>) -> (r: Vec<Vec<PackedPart>>)
    requires
        start_of(nat_sizes(sizes@), sizes@.len() as int) <= usize::MAX,
    ensures
        plan_view(r@) == pack_plan(nat_sizes(sizes@)),
{
    let ghost ns = nat_sizes(sizes@);
    let mut out: Vec<Vec<PackedPart>> = Vec::new();
    let mut pos: usize = 0;
    let mut i: usize = 0;
    while i < sizes.len()
        invariant
            i <= sizes@.len(),
            ns == nat_sizes(sizes@),
            start_of(ns, sizes@.len() as int) <= usize::MAX,
            pos == start_of(ns, i as int),
            plan_view(out@) == pack_plan(ns).take(i as int),
        decreases sizes@.len() - i,
    {
        proof {
            lemma_start_of_step(ns, i as int);
            lemma_start_of_mono(ns, i as int + 1, sizes@.len() as int);
        }
        let len = sizes[i];
        let mut parts: Vec<PackedPart> = Vec::new();
        let mut done: usize = 0;
        let mut at = pos;
        while done < len
            invariant
                done <= len,
                at == pos + done,
                pos + len <= usize::MAX,
                parts@.map_values(|p: PackedPart| part_tuple(p)) + pieces(at as nat, (len - done) as nat, done as nat)
                    == pieces(pos as nat, len as nat, 0),
            decreases len - done,
        {
            let off = at % SAVE_CHUNK_SIZE;
            let room = SAVE_CHUNK_SIZE - off;
            let take = if room < len - done { room } else { len - done };
            let p = PackedPart { chunk: at / SAVE_CHUNK_SIZE, offset: off as u32, size: take as u32, file_offset: done as u64 };
            let ghost before = parts@.map_values(|p: PackedPart| part_tuple(p));
            parts.push(p);
            assert(parts@.map_values(|p: PackedPart| part_tuple(p)) =~= before.push(part_tuple(p)));
            assert(pieces(at as nat, (len - done) as nat, done as nat) == seq![part_tuple(p)]
                + pieces((at + take) as nat, (len - done - take) as nat, (done + take) as nat));
            assert(before.push(part_tuple(p)) + pieces((at + take) as nat, (len - done - take) as nat, (done + take) as nat)
                =~= before + (seq![part_tuple(p)] + pieces((at + take) as nat, (len - done - take) as nat, (done + take) as nat)));
            done = done + take;
            at = at + take;
        }
        assert(parts@.map_values(|p: PackedPart| part_tuple(p)) + seq![] =~= parts@.map_values(|p: PackedPart| part_tuple(p)));
        let ghost before = out@;
        out.push(parts);
        assert(plan_view(out@) =~= pack_plan(ns).take(i as int + 1)) by {
            assert(plan_view(out@) =~= plan_view(before).push(pack_plan(ns)[i as int]));
        }
        pos = pos + len;
        i += 1;
    }
    assert(pack_plan(ns).take(sizes@.len() as int) =~= pack_plan(ns));
    out
}

proof fn lemma_chunk_count_last(n: nat, c: nat)
    requires
        c * window() < n <= (c + 1) * window(),
    ensures
        chunk_count(n) == c + 1,
{
    let w = window();
    assert(w == 1048576);
    assert(n / w == c || (n / w == c + 1 && n % w == 0)) by (nonlinear_arith)
        requires
            c * w < n <= (c + 1) * w,
            w == 1048576,
    {
        assert(n == w * (n / w) + n % w);
        assert(0 <= n % w < w);
    }
}

proof fn lemma_chunk_count_more(n: nat, c: nat)
    requires
        (c + 1) * window() < n,
    ensures
        c + 1 < chunk_count(n),
{
    let w = window();
    assert(n / w >= c + 1) by (nonlinear_arith)
        requires
            (c + 1) * w < n,
            w == 1048576,
    {
        assert(n == w * (n / w) + n % w);
        assert(0 <= n % w < w);
    }
    assert(n / w > c + 1 || n % w != 0) by (nonlinear_arith)
        requires
            (c + 1) * w < n,
            w == 1048576,
            n / w >= c + 1,
    {
        assert(n == w * (n / w) + n % w);
    }
}

/// The files one after the other.
pub open spec fn stream_of(files: Seq<Seq<u8>>) -> Seq<u8>
    decreases files.len(),
{
    if files.len() == 0 {
        seq![]
    } else {
        stream_of(files.drop_last()) + files.last()
    }
}

/// Chunk `c` of a stream: its `c`th mebibyte, short at the end.
pub open spec fn stream_chunk(stream: Seq<u8>, c: nat) -> Seq<u8> {
    let lo = c * window();
    let hi = if (c + 1) * window() < stream.len() { (c + 1) * window() } else { stream.len() };
    stream.subrange(lo as int, hi as int)
}

/// The chunks of a stream.
pub open spec fn stream_chunks(stream: Seq<u8>) -> Seq<Seq<u8>> {
    Seq::new(chunk_count(stream.len()), |c: int| stream_chunk(stream, c as nat))
}

pub open spec fn byte_views(v: Seq<Vec<u8>>) -> Seq<Seq<u8>> {
    v.map_values(|b: Vec<u8>| b@)
}

/// Cuts the save files, one after the other, into chunks of a mebibyte.
pub fn chunk_save_files(files: &Vec<Vec<u8>>) -> (r: Vec<Vec<u8>>)
    ensures
        byte_views(r@) == stream_chunks(stream_of(byte_views(files@))),
{
    let ghost fs = byte_views(files@);
    let mut stream: Vec<u8> = Vec::new();
    let mut i: usize = 0;
    assert(fs.take(0) =~= seq![]);
    while i < files.len()
        invariant
            i <= files@.len(),
            fs == byte_views(files@),
            stream@ == stream_of(fs.take(i as int)),
        decreases files@.len() - i,
    {
        assert(fs.take(i + 1).drop_last() =~= fs.take(i as int));
        let ghost before = stream@;
        let f = &files[i];
        let mut k: usize = 0;
        while k < f.len()
            invariant
                k <= f@.len(),
                stream@ == before + f@.take(k as int),
            decreases f@.len() - k,
        {
            stream.push(f[k]);
            k += 1;
            assert(stream@ =~= before + f@.take(k as int));
        }
        assert(f@.take(f@.len() as int) =~= f@);
        i += 1;
    }
    assert(fs.take(files@.len() as int) =~= fs);
    let ghost st = stream@;
    let n = stream.len();
    let mut out: Vec<Vec<u8>> = Vec::new();
    let mut lo: usize = 0;
    let ghost mut c: nat = 0;
    while lo < n
        invariant
            n == st.len(),
            stream@ == st,
            (lo == c * window() && c < chunk_count(n as nat)) || (lo == n && c == chunk_count(n as nat)),
            byte_views(out@) == stream_chunks(st).take(c as int),
        decreases n - lo,
    {
        let hi = if n - lo > SAVE_CHUNK_SIZE { lo + SAVE_CHUNK_SIZE } else { n };
        let mut chunk: Vec<u8> = Vec::new();
        let mut k = lo;
        while k < hi
            invariant
                lo <= k <= hi <= n,
                n == st.len(),
                stream@ == st,
                chunk@ == st.subrange(lo as int, k as int),
            decreases hi - k,
        {
            chunk.push(stream[k]);
            k += 1;
            assert(chunk@ =~= st.subrange(lo as int, k as int));
        }
        assert(lo == c * window());
        assert(chunk@ == stream_chunk(st, c));
        let ghost before = out@;
        out.push(chunk);
        assert(byte_views(out@) =~= stream_chunks(st).take(c as int + 1)) by {
            assert(byte_views(out@) =~= byte_views(before).push(chunk@));
        }
        proof {
            if hi == n {
                lemma_chunk_count_last(n as nat, c);
            } else {
                lemma_chunk_count_more(n as nat, c);
            }
        }
        lo = hi;
        proof {
            c = c + 1;
        }
    }
    assert(stream_chunks(st).take(c as int) =~= stream_chunks(st));
    out
}

/// The byte counts of files.
pub open spec fn lens(files: Seq<Seq<u8>>) -> Seq<nat> {
    files.map_values(|f: Seq<u8>| f.len())
}

/// Packed pieces as the manifest's chunk parts, chunk `c` carrying guid
/// `guids[c]`.
pub open spec fn as_chunk_parts(ps: Seq<(nat, nat, nat, nat)>, guids: Seq<[u32; 4]>) -> Seq<ChunkPart> {
    ps.map_values(|p: (nat, nat, nat, nat)| ChunkPart {
        guid: guids[p.0 as int],
        offset: p.1 as u32,
        size: p.2 as u32,
        file_offset: p.3 as u64,
    })
}

/// The chunks of a stream under their guids.
pub open spec fn guided_chunks(stream: Seq<u8>, guids: Seq<[u32; 4]>) -> Seq<([u32; 4], Seq<u8>)> {
    Seq::new(chunk_count(stream.len()), |c: int| (guids[c], stream_chunk(stream, c as nat)))
}

proof fn lemma_find_chunk_at(cs: Seq<([u32; 4], Seq<u8>)>, k: int)
    requires
        0 <= k < cs.len(),
        forall|j: int| 0 <= j < k ==> cs[j].0 != cs[k].0,
    ensures
        find_chunk(cs, cs[k].0) == Some(cs[k].1),
    decreases k,
{
    if k > 0 {
        let t = cs.drop_first();
        assert forall|j: int| 0 <= j < k - 1 implies (#[trigger] t[j]).0 != t[k - 1].0 by {
            assert(t[j] == cs[j + 1]);
        }
        lemma_find_chunk_at(t, k - 1);
        assert(t[k - 1] == cs[k]);
    }
}

/// Putting together two runs of parts that each come out whole gives their
/// bytes one after the other.
proof fn lemma_assemble_concat(a: Seq<ChunkPart>, b: Seq<ChunkPart>, chunks: Seq<([u32; 4], Seq<u8>)>)
    requires
        spec_assemble(a, chunks) is Ok,
        spec_assemble(b, chunks) is Ok,
    ensures
        spec_assemble(a + b, chunks) == Ok::<Seq<u8>, AssembleError>(
            spec_assemble(a, chunks)->Ok_0 + spec_assemble(b, chunks)->Ok_0),
    decreases b.len(),
{
    if b.len() == 0 {
        assert(a + b =~= a);
        assert(spec_assemble(a, chunks)->Ok_0 + seq![] =~= spec_assemble(a, chunks)->Ok_0);
    } else {
        let b1 = b.drop_last();
        assert((a + b).drop_last() =~= a + b1);
        assert((a + b).last() == b.last());
        lemma_assemble_concat(a, b1, chunks);
        let x = spec_assemble(a, chunks)->Ok_0;
        let y = spec_assemble(b1, chunks)->Ok_0;
        let p = b.last();
        let d = find_chunk(chunks, p.guid)->Some_0;
        assert(x + y + d.subrange(p.offset as int, p.offset + p.size) =~= x + (y + d.subrange(p.offset as int, p.offset + p.size)));
    }
}

proof fn lemma_div_mod_window(pos: nat)
    ensures
        pos == (pos / window()) * window() + pos % window(),
        pos % window() < window(),
{
    let w = window();
    assert(pos == w * (pos / w) + pos % w && pos % w < w) by (nonlinear_arith)
        requires
            w == 1048576,
    ;
    assert((pos / w) * w == w * (pos / w)) by (nonlinear_arith);
}

proof fn lemma_chunk_index_bound(n: nat, pos: nat)
    requires
        pos < n,
    ensures
        pos / window() < chunk_count(n),
{
    let w = window();
    assert(pos / w <= n / w) by (nonlinear_arith)
        requires
            pos < n,
            w == 1048576,
    ;
    if pos / w == n / w {
        assert(n % w != 0) by (nonlinear_arith)
            requires
                pos < n,
                pos / w == n / w,
                w == 1048576,
        {
            assert(pos == w * (pos / w) + pos % w);
            assert(n == w * (n / w) + n % w);
        }
    }
}

/// The pieces of a run of the stream, as parts of chunks carrying distinct
/// guids, put back together give that run.
proof fn lemma_pieces_assemble(stream: Seq<u8>, guids: Seq<[u32; 4]>, pos: nat, len: nat, done: nat)
    requires
        pos + len <= stream.len(),
        guids.len() == chunk_count(stream.len()),
        forall|a: int, b: int| 0 <= a < b < guids.len() ==> guids[a] != guids[b],
    ensures
        spec_assemble(as_chunk_parts(pieces(pos, len, done), guids), guided_chunks(stream, guids))
            == Ok::<Seq<u8>, AssembleError>(stream.subrange(pos as int, (pos + len) as int)),
    decreases len,
{
    let cs = guided_chunks(stream, guids);
    if len == 0 {
        assert(as_chunk_parts(pieces(pos, len, done), guids) =~= seq![]);
        assert(stream.subrange(pos as int, pos as int) =~= seq![]);
    } else {
        let w = window();
        let off = pos % w;
        let c = pos / w;
        let room = (w - off) as nat;
        let take: nat = if room < len { room } else { len };
        lemma_div_mod_window(pos);
        lemma_chunk_index_bound(stream.len(), pos);
        let first = seq![(c, off, take, done)];
        let rest = pieces(pos + take, (len - take) as nat, done + take);
        assert(pieces(pos, len, done) == first + rest);
        assert(as_chunk_parts(first + rest, guids) =~= as_chunk_parts(first, guids) + as_chunk_parts(rest, guids));
        lemma_pieces_assemble(stream, guids, pos + take, (len - take) as nat, done + take);
        // the first piece
        let p = as_chunk_parts(first, guids)[0];
        assert(p.guid == guids[c as int]);
        assert(cs[c as int] == (guids[c as int], stream_chunk(stream, c)));
        assert forall|j: int| 0 <= j < c implies cs[j].0 != cs[c as int].0 by {
            assert(cs[j].0 == guids[j]);
        }
        lemma_find_chunk_at(cs, c as int);
        let d = stream_chunk(stream, c);
        assert(off < w);
        assert(take <= w);
        assert(p.offset == off);
        assert(p.size == take);
        assert(d =~= stream.subrange((c * w) as int, if (c + 1) * w < stream.len() { ((c + 1) * w) as int } else { stream.len() as int }));
        assert(off + take <= d.len());
        assert(d.subrange(off as int, (off + take) as int) =~= stream.subrange(pos as int, (pos + take) as int));
        let one = as_chunk_parts(first, guids);
        assert(one.drop_last() =~= seq![]);
        assert(spec_assemble(one.drop_last(), cs) == Ok::<Seq<u8>, AssembleError>(seq![]));
        assert(one.last() == p);
        assert(find_chunk(cs, p.guid) == Some(d));
        assert(spec_assemble(one, cs) == Ok::<Seq<u8>, AssembleError>(seq![] + d.subrange(off as int, (off + take) as int)));
        assert(seq![] + d.subrange(off as int, (off + take) as int) =~= stream.subrange(pos as int, (pos + take) as int));
        lemma_assemble_concat(one, as_chunk_parts(rest, guids), cs);
        assert(stream.subrange(pos as int, (pos + take) as int) + stream.subrange((pos + take) as int, (pos + len) as int)
            =~= stream.subrange(pos as int, (pos + len) as int));
    }
}

proof fn lemma_start_of_prefix(sizes: Seq<nat>, i: int)
    requires
        0 <= i < sizes.len(),
    ensures
        start_of(sizes.drop_last(), i) == start_of(sizes, i),
    decreases i,
{
    if i > 0 {
        lemma_start_of_prefix(sizes, i - 1);
    }
}

/// File `i` is the run of the stream that starts after the files before it.
proof fn lemma_file_in_stream(files: Seq<Seq<u8>>, i: int)
    requires
        0 <= i < files.len(),
    ensures
        start_of(lens(files), files.len() as int) == stream_of(files).len(),
        start_of(lens(files), i) + files[i].len() <= stream_of(files).len(),
        stream_of(files).subrange(start_of(lens(files), i) as int, (start_of(lens(files), i) + files[i].len()) as int)
            == files[i],
    decreases files.len(),
{
    let n = files.len() as int;
    let init = files.drop_last();
    assert(lens(init) =~= lens(files).drop_last());
    if n > 1 {
        lemma_stream_len(init);
    }
    lemma_stream_len(files);
    if i < n - 1 {
        lemma_file_in_stream(init, i);
        lemma_start_of_prefix(lens(files), i);
        assert(stream_of(files) == stream_of(init) + files.last());
        let a = start_of(lens(files), i) as int;
        assert(stream_of(files).subrange(a, a + files[i].len()) =~= stream_of(init).subrange(a, a + files[i].len()));
        assert(init[i] == files[i]);
    } else {
        if n > 1 {
            lemma_start_of_prefix(lens(files), i);
        }
        assert(stream_of(files) == stream_of(init) + files.last());
        let a = start_of(lens(files), i) as int;
        assert(stream_of(files).subrange(a, a + files[i].len()) =~= files.last());
    }
}

proof fn lemma_stream_len(files: Seq<Seq<u8>>)
    ensures
        start_of(lens(files), files.len() as int) == stream_of(files).len(),
    decreases files.len(),
{
    if files.len() > 0 {
        let init = files.drop_last();
        assert(lens(init) =~= lens(files).drop_last());
        lemma_stream_len(init);
        if init.len() > 0 {
            lemma_start_of_prefix(lens(files), init.len() - 1);
        }
        lemma_start_of_prefix_all(lens(files));
    }
}

proof fn lemma_start_of_prefix_all(sizes: Seq<nat>)
    requires
        sizes.len() > 0,
    ensures
        start_of(sizes.drop_last(), sizes.len() - 1) == start_of(sizes, sizes.len() - 1),
{
    lemma_start_of_prefix(sizes, sizes.len() - 1);
}

/// Packing then putting back together gives each save file back: where the
/// chunks of the packed stream carry distinct guids, the parts that packing
/// gives file `i`, read from those chunks, are exactly file `i`'s bytes.
pub proof fn law_pack_then_assemble(files: Seq<Seq<u8>>, guids: Seq<[u32; 4]>, i: int)
    requires
        0 <= i < files.len(),
        guids.len() == chunk_count(stream_of(files).len()),
        forall|a: int, b: int| 0 <= a < b < guids.len() ==> guids[a] != guids[b],
    ensures
        spec_assemble(as_chunk_parts(pack_plan(lens(files))[i], guids), guided_chunks(stream_of(files), guids))
            == Ok::<Seq<u8>, AssembleError>(files[i]),
{
    lemma_file_in_stream(files, i);
    let st = stream_of(files);
    let start = start_of(lens(files), i);
    assert(lens(files)[i] == files[i].len());
    lemma_pieces_assemble(st, guids, start, files[i].len(), 0);
}

// ---------------------------------------------------------------------------
// The records of an upload.

/// The newest of the instants given.
pub open spec fn latest(times: Seq<Option<(i64, u32)>>) -> Option<(i64, u32)>
    decreases times.len(),
{
    if times.len() == 0 {
        None
    } else {
        let r = latest(times.drop_last());
        match times.last() {
            Some(t) => match r {
                None => Some(t),
                Some(u) => if instant_after(t, u) {
                    Some(t)
                } else {
                    Some(u)
                },
            },
            None => r,
        }
    }
}

/// The newest of the instants given, absent ones skipped.
pub fn latest_instant(times: &Vec<Option<(i64, u32)>>) -> (r: Option<(i64, u32)>)
    ensures
        r == latest(times@),
{
    let mut best: Option<(i64, u32)> = None;
    let mut i: usize = 0;
    while i < times.len()
        invariant
            i <= times@.len(),
            best == latest(times@.take(i as int)),
        decreases times@.len() - i,
    {
        assert(times@.take(i + 1).drop_last() =~= times@.take(i as int));
        assert(times@.take(i + 1).last() == times@[i as int]);
        match times[i] {
            Some(t) => {
                best = match best {
                    None => Some(t),
                    Some(u) => if is_after(t, u) {
                        Some(t)
                    } else {
                        Some(u)
                    },
                };
            },
            None => {},
        }
        i += 1;
    }
    assert(times@.take(times@.len() as int) =~= times@);
    best
}

/// The instant each cloud file was last changed, where it names one that
/// reads as RFC 3339.
pub open spec fn modified_instants(files: Seq<CloudSaveFile>) -> Seq<Option<(i64, u32)>> {
    files.map_values(|f: CloudSaveFile| match f.last_modified {
        Some(m) => rfc3339_instant(m@),
        None => None,
    })
}

/// When the cloud saves were last changed: the newest change time of the
/// files.
pub fn latest_remote_time(files: &Vec<CloudSaveFile>) -> (r: Option<(i64, u32)>)
    ensures
        r == latest(modified_instants(files@)),
{
    let mut times: Vec<Option<(i64, u32)>> = Vec::new();
    let mut i: usize = 0;
    while i < files.len()
        invariant
            i <= files@.len(),
            times@ == modified_instants(files@).take(i as int),
        decreases files@.len() - i,
    {
        let t = match &files[i].last_modified {
            Some(m) => parse_rfc3339(m.as_str()),
            None => None,
        };
        times.push(t);
        i += 1;
        assert(times@ =~= modified_instants(files@).take(i as int));
    }
    assert(modified_instants(files@).take(files@.len() as int) =~= modified_instants(files@));
    latest_instant(&times)
}

/// The order save files are packed in: by lower-cased path, files of equal
/// lower-cased path in the order found. Each file once.
pub fn upload_order(paths: &Vec<String>) -> (r: Vec<usize>)
    ensures
        r@.len() == paths@.len(),
        crate::order::positions_sorted(paths@.map_values(|p: String| crate::text::lowercase(p@)), r@),
        crate::order::positions_in_range(paths@.map_values(|p: String| crate::text::lowercase(p@)), r@),
        forall|p: usize| p < paths@.len() ==> r@.contains(p),
{
    let mut keys: Vec<Vec<char>> = Vec::new();
    let mut i: usize = 0;
    while i < paths.len()
        invariant
            i <= paths@.len(),
            keys@.map_values(|k: Vec<char>| k@) == paths@.map_values(|p: String| crate::text::lowercase(p@)).take(i as int),
        decreases paths@.len() - i,
    {
        let l = crate::text::to_lowercase(paths[i].as_str());
        let ghost before = keys@.map_values(|k: Vec<char>| k@);
        keys.push(crate::text::chars_of(l.as_str()));
        assert(keys@.map_values(|k: Vec<char>| k@) =~= before.push(l@));
        i += 1;
        assert(keys@.map_values(|k: Vec<char>| k@) =~= paths@.map_values(|p: String| crate::text::lowercase(p@)).take(i as int));
    }
    assert(paths@.map_values(|p: String| crate::text::lowercase(p@)).take(paths@.len() as int)
        =~= paths@.map_values(|p: String| crate::text::lowercase(p@)));
    crate::order::sorted_positions(&keys)
}

/// The order the cloud's save manifests are downloaded in: by file name,
/// equal names in the order listed. Each manifest once.
pub fn download_order(names: &Vec<String>) -> (r: Vec<usize>)
    ensures
        r@.len() == names@.len(),
        crate::order::positions_sorted(names@.map_values(|p: String| p@), r@),
        crate::order::positions_in_range(names@.map_values(|p: String| p@), r@),
        forall|p: usize| p < names@.len() ==> r@.contains(p),
{
    let mut keys: Vec<Vec<char>> = Vec::new();
    let mut i: usize = 0;
    while i < names.len()
        invariant
            i <= names@.len(),
            keys@.map_values(|k: Vec<char>| k@) == names@.map_values(|p: String| p@).take(i as int),
        decreases names@.len() - i,
    {
        let ghost before = keys@.map_values(|k: Vec<char>| k@);
        keys.push(crate::text::chars_of(names[i].as_str()));
        assert(keys@.map_values(|k: Vec<char>| k@) =~= before.push(names@[i as int]@));
        i += 1;
        assert(keys@.map_values(|k: Vec<char>| k@) =~= names@.map_values(|p: String| p@).take(i as int));
    }
    assert(names@.map_values(|p: String| p@).take(names@.len() as int) =~= names@.map_values(|p: String| p@));
    crate::order::sorted_positions(&keys)
}

/// The SHA-1 sum recorded for a save chunk: of its bytes padded with zeros
/// to a mebibyte.
pub fn save_chunk_sha(data: &Vec<u8>) -> (r: [u8; 20])
    ensures
        r == sha1_digest(crate::chunk::pad_to_window(data@)),
{
    let p = crate::chunk::padded(data.as_slice());
    sha1(p.as_slice())
}

/// The year as the time format writes it: four digits at least, with a
/// leading `+` past 9999.
pub open spec fn year_text(y: nat) -> Seq<char> {
    if y > 9999 { seq!['+'] + crate::fmt::dec_of(y) } else { crate::fmt::dec_padded(y, 4) }
}

/// The name of the build an upload makes: its UTC time as
/// `YYYY.MM.DD-HH.MM.SS`.
pub open spec fn spec_build_version(y: nat, mo: nat, d: nat, h: nat, mi: nat, s: nat) -> Seq<char> {
    year_text(y) + seq!['.'] + crate::fmt::dec_padded(mo, 2) + seq!['.'] + crate::fmt::dec_padded(d, 2)
        + seq!['-'] + crate::fmt::dec_padded(h, 2) + seq!['.'] + crate::fmt::dec_padded(mi, 2) + seq!['.']
        + crate::fmt::dec_padded(s, 2)
}

pub fn build_version_text(y: u32, mo: u32, d: u32, h: u32, mi: u32, s: u32) -> (r: String)
    ensures
        r@ == spec_build_version(y as nat, mo as nat, d as nat, h as nat, mi as nat, s as nat),
{
    let mut v: Vec<char> = Vec::new();
    if y > 9999 {
        v.push('+');
        crate::fmt::push_dec(&mut v, y as u64);
    } else {
        crate::fmt::push_dec_padded(&mut v, y as u64, 4);
    }
    assert(v@ =~= year_text(y as nat));
    v.push('.');
    crate::fmt::push_dec_padded(&mut v, mo as u64, 2);
    v.push('.');
    crate::fmt::push_dec_padded(&mut v, d as u64, 2);
    v.push('-');
    crate::fmt::push_dec_padded(&mut v, h as u64, 2);
    v.push('.');
    crate::fmt::push_dec_padded(&mut v, mi as u64, 2);
    v.push('.');
    crate::fmt::push_dec_padded(&mut v, s as u64, 2);
    assert(v@ =~= spec_build_version(y as nat, mo as nat, d as nat, h as nat, mi as nat, s as nat));
    crate::text::string_of(v.as_slice())
}

/// The path a save file is stored under: its path below the save folder,
/// `\` turned to `/`.
pub fn cloud_rel_path(rel: &str) -> (r: String)
    ensures
        r@ == crate::strs::replace_char(rel@, '\\', "/"@),
{
    let c = crate::text::chars_of(rel);
    let slash = crate::text::chars_of("/");
    let v = crate::strs::replaced_char(c.as_slice(), '\\', slash.as_slice());
    crate::text::string_of(v.as_slice())
}

/// The manifest record of an uploaded save file: its path, its SHA-1 sum,
/// its size, no install tags, and the parts packing gave it, chunk `c`
/// carrying guid `guids[c]`.
pub fn save_file_manifest(rel_path: String, data: &Vec<u8>, parts: &Vec<PackedPart>, guids: &Vec<[u32; 4]>) -> (r: FileManifest)
    requires
        forall|k: int| 0 <= k < parts@.len() ==> (#[trigger] parts@[k]).chunk < guids@.len(),
    ensures
        r.filename@ == rel_path@,
        r.hash == sha1_digest(data@),
        r.file_size == data@.len(),
        r.install_tags@.len() == 0,
        r.chunk_parts@ == as_chunk_parts(parts@.map_values(|p: PackedPart| part_tuple(p)), guids@),
{
    let mut cps: Vec<ChunkPart> = Vec::new();
    let mut i: usize = 0;
    let ghost pv = parts@.map_values(|p: PackedPart| part_tuple(p));
    while i < parts.len()
        invariant
            i <= parts@.len(),
            pv == parts@.map_values(|p: PackedPart| part_tuple(p)),
            forall|k: int| 0 <= k < parts@.len() ==> (#[trigger] parts@[k]).chunk < guids@.len(),
            cps@ == as_chunk_parts(pv.take(i as int), guids@),
        decreases parts@.len() - i,
    {
        let p = parts[i];
        let cp = ChunkPart { guid: guids[p.chunk], offset: p.offset, size: p.size, file_offset: p.file_offset };
        cps.push(cp);
        i += 1;
        assert(cps@ =~= as_chunk_parts(pv.take(i as int), guids@));
    }
    assert(pv.take(parts@.len() as int) =~= pv);
    FileManifest {
        filename: rel_path,
        hash: sha1(data.as_slice()),
        chunk_parts: cps,
        file_size: data.len() as u64,
        install_tags: Vec::new(),
    }
}


/// `rand::thread_rng().gen::<u32>()` (rand): a number drawn at random from
/// the thread's generator. Nothing is promised of its value. The generator
/// panics only where the system's random source cannot be read when it is
/// first seeded on the thread.
#[verifier::external_body]
fn random_u32() -> (r: u32) {
    rand::thread_rng().gen::<u32>()
}

/// Guids for `n` chunks of an upload, each word drawn at random. Nothing
/// is promised of their values, not even that they differ.
pub fn fresh_guids(n: usize) -> (r: Vec<[u32; 4]>)
    ensures
        r@.len() == n,
{
    let mut out: Vec<[u32; 4]> = Vec::new();
    let mut i: usize = 0;
    while i < n
        invariant
            i <= n,
            out@.len() == i,
        decreases n - i,
    {
        let g = [random_u32(), random_u32(), random_u32(), random_u32()];
        out.push(g);
        i += 1;
    }
    out
}

/// Every piece of a run of the stream lies in one of the stream's chunks.
proof fn lemma_pieces_in_chunks(n: nat, pos: nat, len: nat, done: nat)
    requires
        pos + len <= n,
    ensures
        forall|k: int| 0 <= k < pieces(pos, len, done).len() ==> (#[trigger] pieces(pos, len, done)[k]).0 < chunk_count(n),
    decreases len,
{
    if len > 0 {
        let off = pos % window();
        lemma_div_mod_window(pos);
        let room = (window() - off) as nat;
        let take = if room < len { room } else { len };
        lemma_pieces_in_chunks(n, pos + take, (len - take) as nat, done + take);
        lemma_chunk_index_bound(n, pos);
        let rest = pieces(pos + take, (len - take) as nat, done + take);
        let all = pieces(pos, len, done);
        assert(all == seq![(pos / window(), off, take, done)] + rest);
        assert forall|k: int| 0 <= k < all.len() implies (#[trigger] all[k]).0 < chunk_count(n) by {
            if k > 0 {
                assert(all[k] == rest[k - 1]);
            }
        }
    }
}

/// An upload of save files, packaged: each file's manifest record, the
/// chunks of the packed stream, and the guid each chunk carries.
pub struct SavePackage {
    pub files: Vec<FileManifest>,
    pub chunks: Vec<Vec<u8>>,
    pub guids: Vec<[u32; 4]>,
}

/// Packages save files for upload, in the order given, under the paths
/// given: the files one after the other cut into chunks of a mebibyte, each
/// chunk under a guid drawn at random, and each file's record naming the
/// parts of those chunks that hold it.
pub fn package_saves(rel_paths: &Vec<String>, files: &Vec<Vec<u8>>) -> (r: SavePackage)
    requires
        rel_paths@.len() == files@.len(),
        stream_of(byte_views(files@)).len() <= usize::MAX,
    ensures
        byte_views(r.chunks@) == stream_chunks(stream_of(byte_views(files@))),
        r.guids@.len() == r.chunks@.len(),
        r.files@.len() == files@.len(),
        forall|i: int| 0 <= i < files@.len() ==> {
            &&& (#[trigger] r.files@[i]).filename@ == rel_paths@[i]@
            &&& r.files@[i].hash == sha1_digest(files@[i]@)
            &&& r.files@[i].file_size == files@[i]@.len()
            &&& r.files@[i].install_tags@.len() == 0
            &&& r.files@[i].chunk_parts@ == as_chunk_parts(pack_plan(lens(byte_views(files@)))[i], r.guids@)
        },
{
    let ghost fs = byte_views(files@);
    let mut sizes: Vec<usize> = Vec::new();
    let mut i: usize = 0;
    while i < files.len()
        invariant
            i <= files@.len(),
            fs == byte_views(files@),
            nat_sizes(sizes@) == lens(fs).take(i as int),
        decreases files@.len() - i,
    {
        assert(lens(fs)[i as int] == files@[i as int]@.len());
        let ghost before = sizes@;
        let n = files[i].len();
        sizes.push(n);
        assert(nat_sizes(sizes@) =~= nat_sizes(before).push(n as nat));
        assert(lens(fs).take(i + 1) =~= lens(fs).take(i as int).push(lens(fs)[i as int]));
        i += 1;
    }
    assert(lens(fs).take(files@.len() as int) =~= lens(fs));
    proof {
        lemma_stream_len(fs);
    }
    let plan = pack_save_files(&sizes);
    assert(plan_view(plan@).len() == plan@.len());
    assert(pack_plan(lens(fs)).len() == files@.len());
    let chunks = chunk_save_files(files);
    let guids = fresh_guids(chunks.len());
    let ghost st = stream_of(fs);
    let mut records: Vec<FileManifest> = Vec::new();
    let mut k: usize = 0;
    while k < files.len()
        invariant
            k <= files@.len(),
            rel_paths@.len() == files@.len(),
            fs == byte_views(files@),
            st == stream_of(fs),
            nat_sizes(sizes@) == lens(fs),
            plan_view(plan@) == pack_plan(lens(fs)),
            plan@.len() == files@.len(),
            byte_views(chunks@) == stream_chunks(st),
            guids@.len() == chunks@.len(),
            records@.len() == k,
            forall|j: int| 0 <= j < k ==> {
                &&& (#[trigger] records@[j]).filename@ == rel_paths@[j]@
                &&& records@[j].hash == sha1_digest(files@[j]@)
                &&& records@[j].file_size == files@[j]@.len()
                &&& records@[j].install_tags@.len() == 0
                &&& records@[j].chunk_parts@ == as_chunk_parts(pack_plan(lens(fs))[j], guids@)
            },
        decreases files@.len() - k,
    {
        proof {
            lemma_file_in_stream(fs, k as int);
            assert(lens(fs)[k as int] == fs[k as int].len());
            lemma_pieces_in_chunks(st.len(), start_of(lens(fs), k as int), fs[k as int].len(), 0);
            assert(plan_view(plan@)[k as int] == plan@[k as int]@.map_values(|p: PackedPart| part_tuple(p)));
            assert(byte_views(chunks@).len() == chunks@.len());
            assert forall|q: int| 0 <= q < plan@[k as int]@.len() implies (#[trigger] plan@[k as int]@[q]).chunk < guids@.len() by {
                assert(plan_view(plan@)[k as int][q] == part_tuple(plan@[k as int]@[q]));
            }
        }
        let rec = save_file_manifest(rel_paths[k].clone(), &files[k], &plan[k], &guids);
        records.push(rec);
        k += 1;
    }
    SavePackage { files: records, chunks, guids }
}

} // verus!
