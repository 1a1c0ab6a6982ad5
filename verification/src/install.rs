//! Installing and checking a game: which files to fetch, which chunks they
//! need and where each chunk's bytes go, the CDN base, the selectable install
//! tags, size estimates, and the tally of a verification.

use vstd::prelude::*;
use crate::manifest::{Manifest, FileManifest, FileManifestView, ChunkInfo, ChunkPart, file_views, spec_chunk_path};
use crate::codec::{hex_of_bytes, push_hex_bytes};
use crate::order::{chars_equal, chars_lt, chars_less, lemma_chars_lt_transitive, lemma_chars_lt_total};
use crate::strs::{first_index, find_char};
use crate::text::{chars_of, string_of};
use crate::paths::concat;

verus! {

/// Whether any of `tags` is one of `wanted`.
pub open spec fn shares_tag(tags: Seq<Seq<char>>, wanted: Seq<Seq<char>>) -> bool {
    exists|i: int| 0 <= i < tags.len() && wanted.contains(#[trigger] tags[i])
}

/// A file is wanted for the selected tags: always where no selection was
/// made or the file has no tags, otherwise where one of its tags is selected.
pub open spec fn tag_wanted(f: FileManifestView, selected: Option<Seq<Seq<char>>>) -> bool {
    match selected {
        None => true,
        Some(w) => f.install_tags.len() == 0 || shares_tag(f.install_tags, w),
    }
}

/// A file to fetch: wanted for the tags, and not already present with its
/// recorded hash (`present` is the lower-case hex SHA-1 of the file on disk,
/// where it exists and could be read).
pub open spec fn to_fetch(f: FileManifestView, selected: Option<Seq<Seq<char>>>, present: Option<Seq<char>>) -> bool {
    tag_wanted(f, selected) && present != Some(hex_of_bytes(f.hash@, false))
}

/// The positions of the files to fetch, in order.
pub open spec fn spec_files_to_fetch(files: Seq<FileManifestView>, selected: Option<Seq<Seq<char>>>, present: Seq<Option<Seq<char>>>) -> Seq<usize>
    decreases files.len(),
{
    if files.len() == 0 {
        seq![]
    } else {
        let n = (files.len() - 1) as int;
        let r = spec_files_to_fetch(files.drop_last(), selected, present.take(n));
        if to_fetch(files.last(), selected, present[n]) {
            r.push(n as usize)
        } else {
            r
        }
    }
}

pub open spec fn strings_view(v: Seq<String>) -> Seq<Seq<char>> {
    v.map_values(|s: String| s@)
}

pub open spec fn opt_strings_view(v: Option<Vec<String>>) -> Option<Seq<Seq<char>>> {
    match v {
        Some(w) => Some(strings_view(w@)),
        None => None,
    }
}

pub open spec fn opt_texts(v: Seq<Option<String>>) -> Seq<Option<Seq<char>>> {
    v.map_values(|o: Option<String>| match o {
        Some(s) => Some(s@),
        None => None,
    })
}

fn text_in(list: &Vec<String>, t: &Vec<char>) -> (r: bool)
    ensures
        r == strings_view(list@).contains(t@),
{
    let ghost lv = strings_view(list@);
    let mut i: usize = 0;
    while i < list.len()
        invariant
            i <= list@.len(),
            lv == strings_view(list@),
            forall|j: int| 0 <= j < i ==> lv[j] != t@,
        decreases list@.len() - i,
    {
        let x = chars_of(list[i].as_str());
        if chars_equal(x.as_slice(), t.as_slice()) {
            assert(lv[i as int] == t@);
            return true;
        }
        i += 1;
    }
    false
}

fn wanted_for_tags(f: &FileManifest, selected: &Option<Vec<String>>) -> (r: bool)
    ensures
        r == tag_wanted(f@, opt_strings_view(*selected)),
{
    match selected {
        None => true,
        Some(w) => {
            if f.install_tags.len() == 0 {
                return true;
            }
            let ghost tv = f@.install_tags;
            let mut i: usize = 0;
            while i < f.install_tags.len()
                invariant
                    i <= f.install_tags@.len(),
                    *selected == Some(*w),
                    tv == f@.install_tags,
                    tv.len() == f.install_tags@.len(),
                    forall|j: int| 0 <= j < i ==> !strings_view(w@).contains(#[trigger] tv[j]),
                decreases f.install_tags@.len() - i,
            {
                let t = chars_of(f.install_tags[i].as_str());
                assert(tv[i as int] == f.install_tags@[i as int]@);
                if text_in(w, &t) {
                    assert(strings_view(w@).contains(tv[i as int]));
                    return true;
                }
                i += 1;
            }
            false
        },
    }
}

/// The lower-case hex text of a SHA-1 sum.
pub fn hash_hex(h: &[u8; 20]) -> (r: Vec<char>)
    ensures
        r@ == hex_of_bytes(h@, false),
{
    let mut out: Vec<char> = Vec::new();
    push_hex_bytes(&mut out, h, false);
    assert(out@ =~= hex_of_bytes(h@, false));
    out
}

/// The files of an installation that must be fetched.
pub fn files_to_fetch(manifest: &Manifest, selected: &Option<Vec<String>>, present: &Vec<Option<String>>) -> (r: Vec<usize>)
    requires
        present@.len() == manifest.files@.len(),
    ensures
        r@ == spec_files_to_fetch(file_views(manifest.files@), opt_strings_view(*selected), opt_texts(present@)),
        forall|k: int| 0 <= k < r@.len() ==> r@[k] < manifest.files@.len(),
{
    let ghost fv = file_views(manifest.files@);
    let ghost pv = opt_texts(present@);
    let mut out: Vec<usize> = Vec::new();
    let mut i: usize = 0;
    while i < manifest.files.len()
        invariant
            i <= manifest.files@.len(),
            present@.len() == manifest.files@.len(),
            fv == file_views(manifest.files@),
            pv == opt_texts(present@),
            out@ == spec_files_to_fetch(fv.take(i as int), opt_strings_view(*selected), pv.take(i as int)),
            forall|k: int| 0 <= k < out@.len() ==> out@[k] < i,
        decreases manifest.files@.len() - i,
    {
        let f = &manifest.files[i];
        assert(fv.take(i + 1).drop_last() =~= fv.take(i as int));
        assert(pv.take(i + 1).take(i as int) =~= pv.take(i as int));
        assert(fv.take(i + 1).last() == f@);
        let wanted = wanted_for_tags(f, selected);
        let same = match &present[i] {
            Some(h) => {
                let hc = chars_of(h.as_str());
                let e = hash_hex(&f.hash);
                chars_equal(hc.as_slice(), e.as_slice())
            },
            None => false,
        };
        assert(same == (pv.take(i + 1)[i as int] == Some(hex_of_bytes(f@.hash@, false))));
        if wanted && !same {
            out.push(i);
        }
        i += 1;
    }
    assert(fv.take(manifest.files@.len() as int) =~= fv);
    assert(pv.take(manifest.files@.len() as int) =~= pv);
    out
}

/// Whether some part of the chosen files comes from chunk `g`.
pub open spec fn chunk_used(files: Seq<FileManifestView>, chosen: Seq<usize>, g: [u32; 4]) -> bool {
    exists|k: int, j: int|
        0 <= k < chosen.len() && 0 <= j < files[chosen[k] as int].chunk_parts.len()
            && (#[trigger] files[chosen[k] as int].chunk_parts[j]).guid == g
}

/// The positions of the chunks the chosen files need, in the manifest's order.
pub open spec fn spec_needed_chunks(chunks: Seq<ChunkInfo>, files: Seq<FileManifestView>, chosen: Seq<usize>) -> Seq<usize>
    decreases chunks.len(),
{
    if chunks.len() == 0 {
        seq![]
    } else {
        let n = (chunks.len() - 1) as int;
        let r = spec_needed_chunks(chunks.drop_last(), files, chosen);
        if chunk_used(files, chosen, chunks.last().guid) {
            r.push(n as usize)
        } else {
            r
        }
    }
}

fn guid_eq(a: [u32; 4], b: [u32; 4]) -> (r: bool)
    ensures
        r == (a == b),
{
    let r = a[0] == b[0] && a[1] == b[1] && a[2] == b[2] && a[3] == b[3];
    if r {
        assert(a =~= b);
    }
    r
}

fn uses_chunk(manifest: &Manifest, chosen: &Vec<usize>, g: [u32; 4]) -> (r: bool)
    requires
        forall|k: int| 0 <= k < chosen@.len() ==> chosen@[k] < manifest.files@.len(),
    ensures
        r == chunk_used(file_views(manifest.files@), chosen@, g),
{
    let ghost fv = file_views(manifest.files@);
    let mut k: usize = 0;
    while k < chosen.len()
        invariant
            k <= chosen@.len(),
            fv == file_views(manifest.files@),
            forall|q: int| 0 <= q < chosen@.len() ==> chosen@[q] < manifest.files@.len(),
            forall|q: int, j: int| 0 <= q < k && 0 <= j < fv[chosen@[q] as int].chunk_parts.len()
                ==> (#[trigger] fv[chosen@[q] as int].chunk_parts[j]).guid != g,
        decreases chosen@.len() - k,
    {
        let f = &manifest.files[chosen[k]];
        assert(fv[chosen@[k as int] as int] == f@);
        let mut j: usize = 0;
        while j < f.chunk_parts.len()
            invariant
                j <= f.chunk_parts@.len(),
                k < chosen@.len(),
                chosen@[k as int] < manifest.files@.len(),
                fv == file_views(manifest.files@),
                fv[chosen@[k as int] as int] == f@,
                forall|q: int| 0 <= q < j ==> (#[trigger] f.chunk_parts@[q]).guid != g,
            decreases f.chunk_parts@.len() - j,
        {
            if guid_eq(f.chunk_parts[j].guid, g) {
                assert(fv[chosen@[k as int] as int].chunk_parts[j as int].guid == g);
                assert(chunk_used(fv, chosen@, g));
                return true;
            }
            j += 1;
        }
        k += 1;
    }
    false
}

/// The chunks the chosen files need.
pub fn needed_chunks(manifest: &Manifest, chosen: &Vec<usize>) -> (r: Vec<usize>)
    requires
        forall|k: int| 0 <= k < chosen@.len() ==> chosen@[k] < manifest.files@.len(),
    ensures
        r@ == spec_needed_chunks(manifest.chunks@, file_views(manifest.files@), chosen@),
        forall|k: int| 0 <= k < r@.len() ==> r@[k] < manifest.chunks@.len(),
{
    let mut out: Vec<usize> = Vec::new();
    let mut i: usize = 0;
    while i < manifest.chunks.len()
        invariant
            i <= manifest.chunks@.len(),
            forall|k: int| 0 <= k < chosen@.len() ==> chosen@[k] < manifest.files@.len(),
            out@ == spec_needed_chunks(manifest.chunks@.take(i as int), file_views(manifest.files@), chosen@),
            forall|k: int| 0 <= k < out@.len() ==> out@[k] < i,
        decreases manifest.chunks@.len() - i,
    {
        assert(manifest.chunks@.take(i + 1).drop_last() =~= manifest.chunks@.take(i as int));
        if uses_chunk(manifest, chosen, manifest.chunks[i].guid) {
            out.push(i);
        }
        i += 1;
    }
    assert(manifest.chunks@.take(manifest.chunks@.len() as int) =~= manifest.chunks@);
    out
}

/// A write of chunk bytes into a file: bytes `start..end` of the chunk go
/// to file `file` at `file_offset`.
#[derive(Debug, Clone, Copy, PartialEq, Eq, Structural)]
pub struct ChunkWrite {
    pub file: usize,
    pub file_offset: u64,
    pub start: usize,
    pub end: usize,
}

/// The writes of one file's parts from chunk `g`: each part from that chunk
/// that lies within the chunk's `len` bytes.
pub open spec fn part_writes(parts: Seq<ChunkPart>, file: usize, g: [u32; 4], len: nat) -> Seq<ChunkWrite>
    decreases parts.len(),
{
    if parts.len() == 0 {
        seq![]
    } else {
        let r = part_writes(parts.drop_last(), file, g, len);
        let p = parts.last();
        if p.guid == g && p.offset + p.size <= len {
            r.push(ChunkWrite { file, file_offset: p.file_offset, start: p.offset as usize, end: (p.offset + p.size) as usize })
        } else {
            r
        }
    }
}

/// The writes of a downloaded chunk: for each chosen file in order, its
/// parts from that chunk in order.
pub open spec fn spec_chunk_writes(files: Seq<FileManifestView>, chosen: Seq<usize>, g: [u32; 4], len: nat) -> Seq<ChunkWrite>
    decreases chosen.len(),
{
    if chosen.len() == 0 {
        seq![]
    } else {
        let k = chosen.last();
        spec_chunk_writes(files, chosen.drop_last(), g, len) + part_writes(files[k as int].chunk_parts, k, g, len)
    }
}

/// Where the bytes of a downloaded chunk of `len` bytes go.
pub fn chunk_writes(manifest: &Manifest, chosen: &Vec<usize>, g: [u32; 4], len: usize) -> (r: Vec<ChunkWrite>)
    requires
        forall|k: int| 0 <= k < chosen@.len() ==> chosen@[k] < manifest.files@.len(),
    ensures
        r@ == spec_chunk_writes(file_views(manifest.files@), chosen@, g, len as nat),
{
    let ghost fv = file_views(manifest.files@);
    let mut out: Vec<ChunkWrite> = Vec::new();
    let mut k: usize = 0;
    while k < chosen.len()
        invariant
            k <= chosen@.len(),
            fv == file_views(manifest.files@),
            forall|q: int| 0 <= q < chosen@.len() ==> chosen@[q] < manifest.files@.len(),
            out@ == spec_chunk_writes(fv, chosen@.take(k as int), g, len as nat),
        decreases chosen@.len() - k,
    {
        assert(chosen@.take(k + 1).drop_last() =~= chosen@.take(k as int));
        let fi = chosen[k];
        let f = &manifest.files[fi];
        assert(fv[fi as int] == f@);
        let ghost before = out@;
        let mut j: usize = 0;
        while j < f.chunk_parts.len()
            invariant
                j <= f.chunk_parts@.len(),
                out@ == before + part_writes(f.chunk_parts@.take(j as int), fi, g, len as nat),
            decreases f.chunk_parts@.len() - j,
        {
            assert(f.chunk_parts@.take(j + 1).drop_last() =~= f.chunk_parts@.take(j as int));
            let p = f.chunk_parts[j];
            let end: u64 = p.offset as u64 + p.size as u64;
            if guid_eq(p.guid, g) && end <= len as u64 {
                let w = ChunkWrite { file: fi, file_offset: p.file_offset, start: p.offset as usize, end: end as usize };
                let ghost mid = out@;
                out.push(w);
                assert(out@ =~= mid.push(w));
                assert(before + part_writes(f.chunk_parts@.take(j + 1), fi, g, len as nat)
                    =~= (before + part_writes(f.chunk_parts@.take(j as int), fi, g, len as nat)).push(w));
            }
            j += 1;
        }
        assert(f.chunk_parts@.take(f.chunk_parts@.len() as int) =~= f.chunk_parts@);
        k += 1;
    }
    assert(chosen@.take(chosen@.len() as int) =~= chosen@);
    out
}

/// Where a chunk is fetched from: the CDN base, `/`, the chunk's path.
pub fn chunk_url(base_url: &str, chunk: &ChunkInfo, manifest_version: u32) -> (r: String)
    ensures
        r@ == base_url@ + seq!['/'] + spec_chunk_path(*chunk, manifest_version),
{
    let a = concat(base_url, "/");
    let p = chunk.path(manifest_version);
    let r = concat(a.as_str(), p.as_str());
    proof {
        reveal_strlit("/");
    }
    r
}

/// The CDN base of a manifest URL: the URL without its query, up to its last
/// `/`; the whole URL where that part has no `/`.
pub open spec fn spec_base_url(url: Seq<char>) -> Seq<char> {
    let path = match first_index(url, '?') {
        Some(q) => url.take(q as int),
        None => url,
    };
    match last_index(path, '/') {
        Some(i) => path.take(i as int),
        None => url,
    }
}

/// The last position of `c` in `s`.
pub open spec fn last_index(s: Seq<char>, c: char) -> Option<nat>
    decreases s.len(),
{
    if s.len() == 0 {
        None
    } else if s.last() == c {
        Some((s.len() - 1) as nat)
    } else {
        last_index(s.drop_last(), c)
    }
}

proof fn lemma_last_index(s: Seq<char>, c: char)
    ensures
        last_index(s, c) matches Some(i) ==> i < s.len(),
    decreases s.len(),
{
    if s.len() > 0 {
        lemma_last_index(s.drop_last(), c);
    }
}

pub fn manifest_base_url(url: &str) -> (r: String)
    ensures
        r@ == spec_base_url(url@),
{
    let u = chars_of(url);
    let end = match find_char(u.as_slice(), '?') {
        Some(q) => q,
        None => u.len(),
    };
    proof {
        crate::strs::lemma_first_index(u@, '?');
    }
    let ghost path = match first_index(u@, '?') {
        Some(q) => u@.take(q as int),
        None => u@,
    };
    assert(path =~= u@.take(end as int));
    let mut i = end;
    assert(path.take(i as int) =~= path);
    while i > 0
        invariant
            i <= end <= u@.len(),
            u@ == url@,
            path == u@.take(end as int),
            path == (match first_index(url@, '?') {
                Some(q) => url@.take(q as int),
                None => url@,
            }),
            last_index(path, '/') == last_index(path.take(i as int), '/'),
        decreases i,
    {
        assert(path.take(i as int).drop_last() =~= path.take(i - 1));
        assert(path.take(i as int).last() == u@[i - 1]);
        if u[i - 1] == '/' {
            assert(last_index(path, '/') == Some((i - 1) as nat));
            let mut out: Vec<char> = Vec::new();
            let mut k: usize = 0;
            while k < i - 1
                invariant
                    k <= i - 1,
                    i <= u@.len(),
                    out@ == u@.take(k as int),
                decreases i - 1 - k,
            {
                out.push(u[k]);
                k += 1;
                assert(out@ =~= u@.take(k as int));
            }
            assert(out@ =~= path.take(i - 1));
            return string_of(out.as_slice());
        }
        i -= 1;
    }
    String::from_str(url)
}

/// Tag lists in strictly increasing order.
pub open spec fn strictly_sorted(v: Seq<Seq<char>>) -> bool {
    forall|a: int, b: int| 0 <= a < b < v.len() ==> chars_lt(#[trigger] v[a], #[trigger] v[b])
}

/// Whether some file has tag `t`.
pub open spec fn some_file_has_tag(files: Seq<FileManifestView>, t: Seq<char>) -> bool {
    exists|i: int, j: int| 0 <= i < files.len() && 0 <= j < files[i].install_tags.len()
        && (#[trigger] files[i].install_tags[j]) == t
}

pub open spec fn tag_texts(v: Seq<Vec<char>>) -> Seq<Seq<char>> {
    v.map_values(|x: Vec<char>| x@)
}

/// Inserts `t` into a strictly sorted list of tags, keeping it so.
fn insert_sorted(v: &mut Vec<Vec<char>>, t: Vec<char>)
    requires
        strictly_sorted(tag_texts(old(v)@)),
    ensures
        strictly_sorted(tag_texts(final(v)@)),
        forall|s: Seq<char>| #[trigger] tag_texts(final(v)@).contains(s)
            <==> (tag_texts(old(v)@).contains(s) || s == t@),
{
    let ghost vs = tag_texts(v@);
    let mut i: usize = 0;
    while i < v.len() && chars_less(v[i].as_slice(), t.as_slice())
        invariant
            i <= v@.len(),
            vs == tag_texts(v@),
            strictly_sorted(vs),
            forall|k: int| 0 <= k < i ==> chars_lt(#[trigger] vs[k], t@),
        decreases v@.len() - i,
    {
        assert(vs[i as int] == v@[i as int]@);
        i += 1;
    }
    if i < v.len() {
        assert(vs[i as int] == v@[i as int]@);
        if chars_equal(v[i].as_slice(), t.as_slice()) {
            assert(vs.contains(t@));
            return;
        }
        proof {
            lemma_chars_lt_total(vs[i as int], t@);
        }
    }
    v.insert(i, t);
    let ghost ws = tag_texts(v@);
    assert(ws =~= vs.insert(i as int, t@));
    assert forall|a: int, b: int| 0 <= a < b < ws.len() implies chars_lt(#[trigger] ws[a], #[trigger] ws[b]) by {
        if b < i {
        } else if b == i {
            assert(ws[a] == vs[a]);
        } else if a == i {
            assert(ws[b] == vs[b - 1]);
            if b - 1 > i {
                lemma_chars_lt_transitive(t@, vs[i as int], vs[b - 1]);
            }
        } else if a < i {
            assert(ws[a] == vs[a]);
            assert(ws[b] == vs[b - 1]);
        } else {
            assert(ws[a] == vs[a - 1]);
            assert(ws[b] == vs[b - 1]);
        }
    }
    assert forall|s: Seq<char>| #[trigger] ws.contains(s) <==> (vs.contains(s) || s == t@) by {
        if ws.contains(s) {
            let k = choose|k: int| 0 <= k < ws.len() && ws[k] == s;
            if k < i {
                assert(vs[k] == s);
            } else if k > i {
                assert(vs[k - 1] == s);
            }
        }
        if vs.contains(s) {
            let k = choose|k: int| 0 <= k < vs.len() && vs[k] == s;
            if k < i {
                assert(ws[k] == s);
            } else {
                assert(ws[k + 1] == s);
            }
        }
        if s == t@ {
            assert(ws[i as int] == s);
        }
    }
}

/// The install tags an installation can be narrowed by: every tag of every
/// file, once each, in increasing order.
pub fn available_install_tags(manifest: &Manifest) -> (r: Vec<String>)
    ensures
        strictly_sorted(strings_view(r@)),
        forall|t: Seq<char>| #[trigger] strings_view(r@).contains(t) <==> some_file_has_tag(file_views(manifest.files@), t),
{
    let ghost fv = file_views(manifest.files@);
    let mut tags: Vec<Vec<char>> = Vec::new();
    let mut i: usize = 0;
    while i < manifest.files.len()
        invariant
            i <= manifest.files@.len(),
            fv == file_views(manifest.files@),
            strictly_sorted(tag_texts(tags@)),
            forall|t: Seq<char>| #[trigger] tag_texts(tags@).contains(t) <==>
                exists|a: int, j: int| 0 <= a < i && 0 <= j < fv[a].install_tags.len()
                    && (#[trigger] fv[a].install_tags[j]) == t,
        decreases manifest.files@.len() - i,
    {
        let f = &manifest.files[i];
        assert(fv[i as int] == f@);
        let mut j: usize = 0;
        while j < f.install_tags.len()
            invariant
                i < manifest.files@.len(),
                j <= f.install_tags@.len(),
                fv == file_views(manifest.files@),
                fv[i as int] == f@,
                strictly_sorted(tag_texts(tags@)),
                forall|t: Seq<char>| #[trigger] tag_texts(tags@).contains(t) <==>
                    ((exists|a: int, q: int| 0 <= a < i && 0 <= q < fv[a].install_tags.len()
                        && (#[trigger] fv[a].install_tags[q]) == t)
                    || (exists|q: int| 0 <= q < j && (#[trigger] fv[i as int].install_tags[q]) == t)),
            decreases f.install_tags@.len() - j,
        {
            let t = chars_of(f.install_tags[j].as_str());
            assert(fv[i as int].install_tags[j as int] == t@);
            let ghost old_tags = tag_texts(tags@);
            insert_sorted(&mut tags, t);
            proof {
                assert forall|s: Seq<char>| #[trigger] tag_texts(tags@).contains(s) <==>
                    ((exists|a: int, q: int| 0 <= a < i && 0 <= q < fv[a].install_tags.len()
                        && (#[trigger] fv[a].install_tags[q]) == s)
                    || (exists|q: int| 0 <= q < j + 1 && (#[trigger] fv[i as int].install_tags[q]) == s)) by {
                    if exists|q: int| 0 <= q < j + 1 && (#[trigger] fv[i as int].install_tags[q]) == s {
                        let q = choose|q: int| 0 <= q < j + 1 && (#[trigger] fv[i as int].install_tags[q]) == s;
                        if q < j {
                            assert(exists|q: int| 0 <= q < j && (#[trigger] fv[i as int].install_tags[q]) == s);
                        }
                    }
                }
            }
            j += 1;
        }
        proof {
            assert forall|t: Seq<char>| #[trigger] tag_texts(tags@).contains(t) <==>
                exists|a: int, q: int| 0 <= a < i + 1 && 0 <= q < fv[a].install_tags.len()
                    && (#[trigger] fv[a].install_tags[q]) == t by {
                if exists|a: int, q: int| 0 <= a < i + 1 && 0 <= q < fv[a].install_tags.len()
                    && (#[trigger] fv[a].install_tags[q]) == t {
                    let (a, q) = choose|a: int, q: int| 0 <= a < i + 1 && 0 <= q < fv[a].install_tags.len()
                        && (#[trigger] fv[a].install_tags[q]) == t;
                    if a < i {
                        assert(exists|a: int, q: int| 0 <= a < i && 0 <= q < fv[a].install_tags.len()
                            && (#[trigger] fv[a].install_tags[q]) == t);
                    } else {
                        assert(exists|q: int| 0 <= q < f.install_tags@.len() && (#[trigger] fv[i as int].install_tags[q]) == t);
                    }
                }
            }
        }
        i += 1;
    }
    let mut out: Vec<String> = Vec::new();
    let mut k: usize = 0;
    while k < tags.len()
        invariant
            k <= tags@.len(),
            strings_view(out@) == tag_texts(tags@).take(k as int),
        decreases tags@.len() - k,
    {
        let ghost before = strings_view(out@);
        let s = string_of(tags[k].as_slice());
        out.push(s);
        assert(strings_view(out@) =~= before.push(s@));
        assert(tag_texts(tags@).take(k + 1) =~= tag_texts(tags@).take(k as int).push(tags@[k as int]@));
        k += 1;
    }
    assert(tag_texts(tags@).take(tags@.len() as int) =~= tag_texts(tags@));
    out
}


/// Every chunk that some part of some chosen file names is downloaded, and
/// no other: a chunk position is among the needed ones exactly where a part
/// of one of the chosen files, at any position of the choice, carries that
/// chunk's guid. The positions are those of chunks, in increasing order.
pub proof fn law_needed_chunks_cover(chunks: Seq<ChunkInfo>, files: Seq<FileManifestView>, chosen: Seq<usize>)
    requires
        chunks.len() <= usize::MAX,
    ensures
        forall|c: int| 0 <= c < chunks.len() ==> (#[trigger] spec_needed_chunks(chunks, files, chosen).contains(c as usize)
            <==> exists|k: int, j: int| 0 <= k < chosen.len() && 0 <= j < files[chosen[k] as int].chunk_parts.len()
                && (#[trigger] files[chosen[k] as int].chunk_parts[j]).guid == chunks[c].guid),
        forall|a: int| 0 <= a < spec_needed_chunks(chunks, files, chosen).len()
            ==> #[trigger] spec_needed_chunks(chunks, files, chosen)[a] < chunks.len(),
        forall|a: int, b: int| 0 <= a < b < spec_needed_chunks(chunks, files, chosen).len()
            ==> #[trigger] spec_needed_chunks(chunks, files, chosen)[a] < #[trigger] spec_needed_chunks(chunks, files, chosen)[b],
    decreases chunks.len(),
{
    let r = spec_needed_chunks(chunks, files, chosen);
    if chunks.len() > 0 {
        let n = (chunks.len() - 1) as int;
        let init = chunks.drop_last();
        let r0 = spec_needed_chunks(init, files, chosen);
        law_needed_chunks_cover(init, files, chosen);
        let used = chunk_used(files, chosen, chunks.last().guid);
        assert(r == if used { r0.push(n as usize) } else { r0 });
        assert forall|c: int| 0 <= c < chunks.len() implies (#[trigger] r.contains(c as usize)
            <==> exists|k: int, j: int| 0 <= k < chosen.len() && 0 <= j < files[chosen[k] as int].chunk_parts.len()
                && (#[trigger] files[chosen[k] as int].chunk_parts[j]).guid == chunks[c].guid) by {
            if c < n {
                assert(init[c] == chunks[c]);
                if r.contains(c as usize) {
                    let a = choose|a: int| 0 <= a < r.len() && r[a] == c as usize;
                    if a < r0.len() {
                        assert(r0[a] == r[a]);
                        assert(r0.contains(c as usize));
                    }
                }
                if r0.contains(c as usize) {
                    let a = choose|a: int| 0 <= a < r0.len() && r0[a] == c as usize;
                    assert(r[a] == r0[a]);
                }
            } else {
                if r.contains(c as usize) {
                    let a = choose|a: int| 0 <= a < r.len() && r[a] == c as usize;
                    if a < r0.len() {
                        assert(r0[a] == r[a]);
                    }
                }
                if used {
                    assert(r[r0.len() as int] == n as usize);
                }
            }
        }
    }
}

/// A file is fetched exactly where it is wanted for the selection and not
/// already present with its recorded hash; it is wanted where no selection
/// was made, where it has no tags, or where some tag, at any position of its
/// tag list, is one of the selected tags.
pub proof fn law_files_to_fetch_tags(files: Seq<FileManifestView>, selected: Option<Seq<Seq<char>>>, present: Seq<Option<Seq<char>>>)
    requires
        present.len() == files.len(),
        files.len() <= usize::MAX,
    ensures
        forall|i: int| 0 <= i < files.len() ==> (#[trigger] spec_files_to_fetch(files, selected, present).contains(i as usize)
            <==> ((match selected {
                None => true,
                Some(sel) => files[i].install_tags.len() == 0 || exists|t: int, s: int|
                    0 <= t < files[i].install_tags.len() && 0 <= s < sel.len() && #[trigger] files[i].install_tags[t] == #[trigger] sel[s],
            }) && present[i] != Some(hex_of_bytes(files[i].hash@, false)))),
    decreases files.len(),
{
    let r = spec_files_to_fetch(files, selected, present);
    if files.len() > 0 {
        let n = (files.len() - 1) as int;
        let init = files.drop_last();
        let pinit = present.take(n);
        let r0 = spec_files_to_fetch(init, selected, pinit);
        law_files_to_fetch_tags(init, selected, pinit);
        lemma_fetch_in_range(init, selected, pinit);
        assert forall|i: int| 0 <= i < files.len() implies (#[trigger] r.contains(i as usize)
            <==> ((match selected {
                None => true,
                Some(sel) => files[i].install_tags.len() == 0 || exists|t: int, s: int|
                    0 <= t < files[i].install_tags.len() && 0 <= s < sel.len() && #[trigger] files[i].install_tags[t] == #[trigger] sel[s],
            }) && present[i] != Some(hex_of_bytes(files[i].hash@, false)))) by {
            let f = files[i];
            match selected {
                Some(sel) => {
                    if exists|t: int, s: int| 0 <= t < f.install_tags.len() && 0 <= s < sel.len() && #[trigger] f.install_tags[t] == #[trigger] sel[s] {
                        let (t, s) = choose|t: int, s: int| 0 <= t < f.install_tags.len() && 0 <= s < sel.len() && #[trigger] f.install_tags[t] == #[trigger] sel[s];
                        assert(sel.contains(f.install_tags[t]));
                        assert(shares_tag(f.install_tags, sel));
                    }
                    if shares_tag(f.install_tags, sel) {
                        let t = choose|t: int| 0 <= t < f.install_tags.len() && sel.contains(#[trigger] f.install_tags[t]);
                        let s = choose|s: int| 0 <= s < sel.len() && sel[s] == f.install_tags[t];
                        assert(f.install_tags[t] == sel[s]);
                    }
                },
                None => {},
            }
            if i < n {
                assert(init[i] == files[i]);
                assert(pinit[i] == present[i]);
                if r.contains(i as usize) {
                    let a = choose|a: int| 0 <= a < r.len() && r[a] == i as usize;
                    if a < r0.len() {
                        assert(r0[a] == r[a]);
                        assert(r0.contains(i as usize));
                    }
                }
                if r0.contains(i as usize) {
                    let a = choose|a: int| 0 <= a < r0.len() && r0[a] == i as usize;
                    assert(r[a] == r0[a]);
                }
            } else {
                if r.contains(i as usize) {
                    let a = choose|a: int| 0 <= a < r.len() && r[a] == i as usize;
                    if a < r0.len() {
                        assert(r0[a] == r[a]);
                    }
                }
                if to_fetch(files.last(), selected, present[n]) {
                    assert(r[r0.len() as int] == n as usize);
                }
            }
        }
    }
}

proof fn lemma_fetch_in_range(files: Seq<FileManifestView>, selected: Option<Seq<Seq<char>>>, present: Seq<Option<Seq<char>>>)
    requires
        files.len() <= usize::MAX,
    ensures
        forall|a: int| 0 <= a < spec_files_to_fetch(files, selected, present).len()
            ==> #[trigger] spec_files_to_fetch(files, selected, present)[a] < files.len(),
    decreases files.len(),
{
    if files.len() > 0 {
        let n = (files.len() - 1) as int;
        lemma_fetch_in_range(files.drop_last(), selected, present.take(n));
        let r = spec_files_to_fetch(files, selected, present);
        let r0 = spec_files_to_fetch(files.drop_last(), selected, present.take(n));
        assert forall|a: int| 0 <= a < r.len() implies #[trigger] r[a] < files.len() by {
            if a < r0.len() {
                assert(r[a] == r0[a]);
            }
        }
    }
}

} // verus!
