//! The launcher's background tasks, as decisions on plain values: agreement
//! ids to check, the tally of a verification, file and cache hashes,
//! durations as text, install estimates, and manifest URLs read from the
//! store's build descriptions.

use vstd::prelude::*;
use vstd::string::*;
use vstd::utf8::encode_utf8;
use crate::codec::{sha1, sha256, sha1_digest, sha256_digest, hex_of_bytes, push_hex_bytes};
use crate::fmt::{dec_of, push_dec};
use crate::manifest::{Manifest, FileManifestView, file_views, string_views};
use crate::models::{Asset, CustomAttribute, spec_custom_attribute, custom_attribute, opt_view};
use crate::install::hash_hex;
use crate::paths::{path_join, join_path, concat};
use crate::text::{chars_of, string_of, push_str};
use crate::text::str_equal;
use crate::api::{percent_encode, url_encode};
use crate::launch::attrs_view;

verus! {

// ---------------------------------------------------------------------------
// Agreement ids.

pub open spec fn is_hex_char(c: char) -> bool {
    ('0' <= c <= '9') || ('a' <= c <= 'f') || ('A' <= c <= 'F')
}

pub open spec fn lower_hex(c: char) -> char {
    if 'A' <= c <= 'F' {
        ((c as u32) + 32) as char
    } else {
        c
    }
}

/// Scanning `s` for keys: runs of hexadecimal characters, lower-cased, each
/// run cut into keys every 32 characters and dropped at any other character.
/// The keys so far, and the run being read.
pub open spec fn key_scan(s: Seq<char>) -> (Seq<Seq<char>>, Seq<char>)
    decreases s.len(),
{
    if s.len() == 0 {
        (seq![], seq![])
    } else {
        let (keys, run) = key_scan(s.drop_last());
        let c = s.last();
        if is_hex_char(c) {
            let r = run.push(lower_hex(c));
            if r.len() == 32 {
                (keys.push(r), seq![])
            } else {
                (keys, r)
            }
        } else {
            (keys, seq![])
        }
    }
}

/// The agreement keys an id holds: the keys its scan finds; where it finds
/// none, an id of 32 hexadecimal characters, lower-cased.
pub open spec fn spec_eula_keys(s: Seq<char>) -> Seq<Seq<char>> {
    let keys = key_scan(s).0;
    if keys.len() == 0 && s.len() == 32 && (forall|i: int| 0 <= i < s.len() ==> is_hex_char(#[trigger] s[i])) {
        seq![s.map_values(|c: char| lower_hex(c))]
    } else {
        keys
    }
}

/// A key: 32 lower-case hexadecimal characters.
pub open spec fn is_key(k: Seq<char>) -> bool {
    k.len() == 32 && forall|i: int| 0 <= i < 32 ==> #[trigger] is_lower_hex(k[i])
}

pub open spec fn is_lower_hex(c: char) -> bool {
    ('0' <= c <= '9') || ('a' <= c <= 'f')
}

proof fn lemma_key_scan_keys(s: Seq<char>)
    ensures
        forall|j: int| 0 <= j < key_scan(s).0.len() ==> is_key(#[trigger] key_scan(s).0[j]),
        key_scan(s).1.len() < 32,
        forall|i: int| 0 <= i < key_scan(s).1.len() ==> #[trigger] is_lower_hex(key_scan(s).1[i]),
    decreases s.len(),
{
    if s.len() > 0 {
        lemma_key_scan_keys(s.drop_last());
        let (keys, run) = key_scan(s.drop_last());
        let c = s.last();
        if is_hex_char(c) {
            let r = run.push(lower_hex(c));
            assert forall|i: int| 0 <= i < r.len() implies #[trigger] is_lower_hex(r[i]) by {
                if i < run.len() {
                    assert(r[i] == run[i]);
                }
            }
        }
    }
}

fn lower_hex_char(c: char) -> (r: char)
    requires
        is_hex_char(c),
    ensures
        r == lower_hex(c),
{
    if 'A' <= c && c <= 'F' {
        ((c as u8) + 32) as char
    } else {
        c
    }
}

fn is_hex(c: char) -> (r: bool)
    ensures
        r == is_hex_char(c),
{
    ('0' <= c && c <= '9') || ('a' <= c && c <= 'f') || ('A' <= c && c <= 'F')
}

/// The agreement keys an EULA id holds. Every key has 32 lower-case
/// hexadecimal characters.
pub fn extract_eula_keys(raw_id: &str) -> (r: Vec<String>)
    ensures
        r@.map_values(|k: String| k@) == spec_eula_keys(raw_id@),
        forall|j: int| 0 <= j < r@.len() ==> is_key(#[trigger] r@[j]@),
{
    let cs = chars_of(raw_id);
    let mut keys: Vec<String> = Vec::new();
    let mut run: Vec<char> = Vec::new();
    let mut i: usize = 0;
    assert(cs@.take(0) =~= seq![]);
    while i < cs.len()
        invariant
            i <= cs@.len(),
            cs@ == raw_id@,
            keys@.map_values(|k: String| k@) == key_scan(cs@.take(i as int)).0,
            run@ == key_scan(cs@.take(i as int)).1,
        decreases cs@.len() - i,
    {
        assert(cs@.take(i + 1).drop_last() =~= cs@.take(i as int));
        assert(cs@.take(i + 1).last() == cs@[i as int]);
        let c = cs[i];
        if is_hex(c) {
            run.push(lower_hex_char(c));
            if run.len() == 32 {
                let ghost before = keys@.map_values(|k: String| k@);
                let k = string_of(run.as_slice());
                keys.push(k);
                assert(keys@.map_values(|k: String| k@) =~= before.push(run@));
                run = Vec::new();
                assert(run@ =~= seq![]);
            }
        } else {
            run = Vec::new();
            assert(run@ =~= seq![]);
        }
        i += 1;
    }
    assert(cs@.take(cs@.len() as int) =~= cs@);
    proof {
        lemma_key_scan_keys(cs@);
    }
    if keys.len() == 0 && cs.len() == 32 {
        let mut all = true;
        let mut low: Vec<char> = Vec::new();
        let mut k: usize = 0;
        while k < cs.len()
            invariant
                k <= cs@.len(),
                all ==> forall|q: int| 0 <= q < k ==> is_hex_char(#[trigger] cs@[q]),
                all ==> low@ == cs@.take(k as int).map_values(|c: char| lower_hex(c)),
                !all ==> exists|q: int| 0 <= q < cs@.len() && !is_hex_char(#[trigger] cs@[q]),
            decreases cs@.len() - k,
        {
            if is_hex(cs[k]) {
                if all {
                    low.push(lower_hex_char(cs[k]));
                    assert(low@ =~= cs@.take(k + 1).map_values(|c: char| lower_hex(c)));
                }
            } else {
                all = false;
            }
            k += 1;
        }
        if all {
            assert(cs@.take(32) =~= cs@);
            let key = string_of(low.as_slice());
            let mut one: Vec<String> = Vec::new();
            one.push(key);
            proof {
                assert(one@.map_values(|k: String| k@) =~= seq![cs@.map_values(|c: char| lower_hex(c))]);
                assert forall|q: int| 0 <= q < 32 implies #[trigger] is_lower_hex(one@[0]@[q]) by {
                    assert(one@[0]@[q] == lower_hex(cs@[q]));
                    assert(is_hex_char(cs@[q]));
                }
            }
            return one;
        }
    }
    proof {
        assert forall|j: int| 0 <= j < keys@.len() implies is_key(#[trigger] keys@[j]@) by {
            assert(keys@[j]@ == keys@.map_values(|k: String| k@)[j]);
        }
    }
    keys
}

/// Keys in order of first appearance, each once.
pub open spec fn first_occurrences(s: Seq<Seq<char>>) -> Seq<Seq<char>>
    decreases s.len(),
{
    if s.len() == 0 {
        seq![]
    } else {
        let r = first_occurrences(s.drop_last());
        if s.drop_last().contains(s.last()) {
            r
        } else {
            r.push(s.last())
        }
    }
}

/// The keys of the ids, one after the other.
pub open spec fn all_keys(ids: Seq<Seq<char>>) -> Seq<Seq<char>>
    decreases ids.len(),
{
    if ids.len() == 0 {
        seq![]
    } else {
        all_keys(ids.drop_last()) + spec_eula_keys(ids.last())
    }
}

pub proof fn lemma_first_occurrences(s: Seq<Seq<char>>)
    ensures
        forall|x: Seq<char>| #[trigger] first_occurrences(s).contains(x) <==> s.contains(x),
        forall|a: int, b: int| 0 <= a < b < first_occurrences(s).len()
            ==> #[trigger] first_occurrences(s)[a] != #[trigger] first_occurrences(s)[b],
    decreases s.len(),
{
    if s.len() > 0 {
        let d = s.drop_last();
        lemma_first_occurrences(d);
        let r = first_occurrences(d);
        assert forall|x: Seq<char>| #[trigger] s.contains(x) <==> (d.contains(x) || x == s.last()) by {
            if s.contains(x) {
                let k = choose|k: int| 0 <= k < s.len() && s[k] == x;
                if k < d.len() {
                    assert(d[k] == x);
                }
            }
            if d.contains(x) {
                let k = choose|k: int| 0 <= k < d.len() && d[k] == x;
                assert(s[k] == x);
            }
            if x == s.last() {
                assert(s[s.len() - 1] == x);
            }
        }
        if !d.contains(s.last()) {
            let r2 = r.push(s.last());
            assert forall|x: Seq<char>| #[trigger] r2.contains(x) <==> (r.contains(x) || x == s.last()) by {
                if r2.contains(x) {
                    let k = choose|k: int| 0 <= k < r2.len() && r2[k] == x;
                    if k < r.len() {
                        assert(r[k] == x);
                    }
                }
                if r.contains(x) {
                    let k = choose|k: int| 0 <= k < r.len() && r[k] == x;
                    assert(r2[k] == x);
                }
                if x == s.last() {
                    assert(r2[r.len() as int] == x);
                }
            }
            assert forall|a: int, b: int| 0 <= a < b < r2.len() implies #[trigger] r2[a] != #[trigger] r2[b] by {
                if b == r.len() {
                    assert(r.contains(r2[a]));
                }
            }
        }
    }
}

/// The agreement keys to check for a title's EULA ids: each key once, in the
/// order first met. No key is listed twice, and every key of every id is
/// listed.
pub fn eula_keys_to_check(raw_ids: &Vec<String>) -> (r: Vec<String>)
    ensures
        r@.map_values(|k: String| k@) == first_occurrences(all_keys(raw_ids@.map_values(|s: String| s@))),
        forall|a: int, b: int| 0 <= a < b < r@.len() ==> (#[trigger] r@[a])@ != (#[trigger] r@[b])@,
        forall|x: Seq<char>| #[trigger] string_views(r@).contains(x)
            <==> all_keys(raw_ids@.map_values(|s: String| s@)).contains(x),
{
    let ghost ids = raw_ids@.map_values(|s: String| s@);
    let mut out: Vec<String> = Vec::new();
    let mut seen: Vec<Vec<char>> = Vec::new();
    let ghost mut flat: Seq<Seq<char>> = seq![];
    let mut i: usize = 0;
    assert(ids.take(0) =~= seq![]);
    while i < raw_ids.len()
        invariant
            i <= raw_ids@.len(),
            ids == raw_ids@.map_values(|s: String| s@),
            flat == all_keys(ids.take(i as int)),
            out@.map_values(|k: String| k@) == first_occurrences(flat),
            seen@.map_values(|k: Vec<char>| k@) == first_occurrences(flat),
        decreases raw_ids@.len() - i,
    {
        assert(ids.take(i + 1).drop_last() =~= ids.take(i as int));
        assert(ids.take(i + 1).last() == raw_ids@[i as int]@);
        let keys = extract_eula_keys(raw_ids[i].as_str());
        let ghost kv = keys@.map_values(|k: String| k@);
        let ghost base = flat;
        let mut j: usize = 0;
        assert(base + kv.take(0) =~= base);
        while j < keys.len()
            invariant
                j <= keys@.len(),
                kv == keys@.map_values(|k: String| k@),
                flat == base + kv.take(j as int),
                out@.map_values(|k: String| k@) == first_occurrences(flat),
                seen@.map_values(|k: Vec<char>| k@) == first_occurrences(flat),
            decreases keys@.len() - j,
        {
            let kc = chars_of(keys[j].as_str());
            assert(kv[j as int] == kc@);
            let ghost next = base + kv.take(j + 1);
            assert(next.drop_last() =~= flat);
            assert(next.last() == kc@);
            proof {
                lemma_first_occurrences(flat);
            }
            let dup = seen_before(&seen, &kc);
            if !dup {
                let ghost b1 = out@.map_values(|k: String| k@);
                let ghost b2 = seen@.map_values(|k: Vec<char>| k@);
                out.push(keys[j].clone());
                seen.push(kc);
                assert(out@.map_values(|k: String| k@) =~= b1.push(kv[j as int]));
                assert(seen@.map_values(|k: Vec<char>| k@) =~= b2.push(kv[j as int]));
            }
            proof {
                flat = next;
            }
            j += 1;
        }
        assert(kv.take(keys@.len() as int) =~= kv);
        i += 1;
    }
    assert(ids.take(raw_ids@.len() as int) =~= ids);
    proof {
        lemma_first_occurrences(flat);
        assert(string_views(out@) == out@.map_values(|k: String| k@));
        assert forall|a: int, b: int| 0 <= a < b < out@.len() implies (#[trigger] out@[a])@ != (#[trigger] out@[b])@ by {
            assert(out@[a]@ == out@.map_values(|k: String| k@)[a]);
            assert(out@[b]@ == out@.map_values(|k: String| k@)[b]);
        }
    }
    out
}

fn seen_before(seen: &Vec<Vec<char>>, k: &Vec<char>) -> (r: bool)
    ensures
        r == seen@.map_values(|x: Vec<char>| x@).contains(k@),
{
    let ghost sv = seen@.map_values(|x: Vec<char>| x@);
    let mut i: usize = 0;
    while i < seen.len()
        invariant
            i <= seen@.len(),
            sv == seen@.map_values(|x: Vec<char>| x@),
            forall|q: int| 0 <= q < i ==> sv[q] != k@,
        decreases seen@.len() - i,
    {
        if crate::order::chars_equal(seen[i].as_slice(), k.as_slice()) {
            assert(sv[i as int] == k@);
            return true;
        }
        i += 1;
    }
    false
}

// ---------------------------------------------------------------------------
// Hashes of files and cache entries.

/// The lower-case hex SHA-1 sum of a file's bytes (what the launcher
/// compares with a manifest's hash).
pub fn hash_file(data: &[u8]) -> (r: String)
    ensures
        r@ == hex_of_bytes(sha1_digest(data@)@, false),
{
    let h = sha1(data);
    let v = hash_hex(&h);
    string_of(v.as_slice())
}

/// The name an image is cached under: the lower-case hex SHA-256 sum of its
/// URL followed by `v2`, with `.img`.
pub fn cache_file_name(url: &str) -> (r: String)
    ensures
        r@ == hex_of_bytes(sha256_digest(url.spec_bytes() + seq![118u8, 50u8])@, false) + ".img"@,
{
    let b = url.as_bytes();
    let mut data: Vec<u8> = Vec::new();
    let mut i: usize = 0;
    while i < b.len()
        invariant
            i <= b@.len(),
            data@ == b@.take(i as int),
        decreases b@.len() - i,
    {
        data.push(b[i]);
        i += 1;
        assert(data@ =~= b@.take(i as int));
    }
    assert(b@.take(b@.len() as int) =~= b@);
    data.push(118u8);
    data.push(50u8);
    let h = sha256(data.as_slice());
    let mut out: Vec<char> = Vec::new();
    push_hex_bytes(&mut out, &h, false);
    let mut s = string_of(out.as_slice());
    push_str(&mut s, ".img");
    assert(data@ =~= url.spec_bytes() + seq![118u8, 50u8]);
    s
}

// ---------------------------------------------------------------------------
// Verification.

/// What a verification found of a file: missing, present but unreadable, or
/// the lower-case hex SHA-1 sum of its bytes.
#[derive(Debug, Clone, PartialEq, Eq)]
pub enum FileCheck {
    Missing,
    Unreadable,
    Hashed(String),
}

/// Files that matched, files that did not, files missing.
#[derive(Debug, Clone, Copy, PartialEq, Eq, Structural)]
pub struct Tally {
    pub verified: u64,
    pub mismatches: u64,
    pub missing: u64,
}

/// The tally of a verification: a file matches where its sum is the
/// manifest's; an unreadable file counts as a mismatch.
pub open spec fn spec_tally(files: Seq<FileManifestView>, checks: Seq<FileCheck>) -> (nat, nat, nat)
    decreases files.len(),
{
    if files.len() == 0 || checks.len() == 0 {
        (0, 0, 0)
    } else {
        let n = (files.len() - 1) as int;
        let (v, m, x) = spec_tally(files.drop_last(), checks.take(n));
        match checks[n] {
            FileCheck::Missing => (v, m, x + 1),
            FileCheck::Unreadable => (v, m + 1, x),
            FileCheck::Hashed(h) => if h@ == hex_of_bytes(files[n].hash@, false) {
                (v + 1, m, x)
            } else {
                (v, m + 1, x)
            },
        }
    }
}

/// Tallies what a verification found, file by file in the manifest's order.
pub fn tally_verification(manifest: &Manifest, checks: &Vec<FileCheck>) -> (r: Tally)
    requires
        checks@.len() == manifest.files@.len(),
    ensures
        (r.verified as nat, r.mismatches as nat, r.missing as nat) == spec_tally(file_views(manifest.files@), checks@),
        r.verified + r.mismatches + r.missing == manifest.files@.len(),
{
    let ghost fv = file_views(manifest.files@);
    let mut v: u64 = 0;
    let mut m: u64 = 0;
    let mut x: u64 = 0;
    let mut i: usize = 0;
    while i < manifest.files.len()
        invariant
            i <= manifest.files@.len(),
            checks@.len() == manifest.files@.len(),
            fv == file_views(manifest.files@),
            (v as nat, m as nat, x as nat) == spec_tally(fv.take(i as int), checks@.take(i as int)),
            v + m + x == i,
        decreases manifest.files@.len() - i,
    {
        assert(fv.take(i + 1).drop_last() =~= fv.take(i as int));
        assert(checks@.take(i + 1).take(i as int) =~= checks@.take(i as int));
        assert(fv.take(i + 1)[i as int] == manifest.files@[i as int]@);
        match &checks[i] {
            FileCheck::Missing => {
                x = x + 1;
            },
            FileCheck::Unreadable => {
                m = m + 1;
            },
            FileCheck::Hashed(h) => {
                let hc = chars_of(h.as_str());
                let e = hash_hex(&manifest.files[i].hash);
                if crate::order::chars_equal(hc.as_slice(), e.as_slice()) {
                    v = v + 1;
                } else {
                    m = m + 1;
                }
            },
        }
        i += 1;
    }
    assert(fv.take(manifest.files@.len() as int) =~= fv);
    assert(checks@.take(manifest.files@.len() as int) =~= checks@);
    Tally { verified: v, mismatches: m, missing: x }
}

/// The message a finished verification reports.
pub fn verification_message(app_name: &str, t: Tally) -> (r: String)
    ensures
        r@ == "Verification of "@ + app_name@ + " complete. "@ + dec_of(t.verified as nat) + " verified, "@
            + dec_of(t.mismatches as nat) + " mismatches, "@ + dec_of(t.missing as nat) + " missing."@,
{
    let mut v: Vec<char> = chars_of("Verification of ");
    let a = chars_of(app_name);
    crate::manifest::push_chars_vec(&mut v, &a);
    let b = chars_of(" complete. ");
    crate::manifest::push_chars_vec(&mut v, &b);
    push_dec(&mut v, t.verified);
    let c = chars_of(" verified, ");
    crate::manifest::push_chars_vec(&mut v, &c);
    push_dec(&mut v, t.mismatches);
    let d = chars_of(" mismatches, ");
    crate::manifest::push_chars_vec(&mut v, &d);
    push_dec(&mut v, t.missing);
    let e = chars_of(" missing.");
    crate::manifest::push_chars_vec(&mut v, &e);
    string_of(v.as_slice())
}

// ---------------------------------------------------------------------------
// Durations.

/// A duration in seconds as the task list shows it: seconds under a minute,
/// minutes and seconds under an hour, else hours and minutes.
pub open spec fn spec_eta_text(s: nat) -> Seq<char> {
    if s < 60 {
        dec_of(s) + "s"@
    } else if s < 3600 {
        dec_of(s / 60) + "m "@ + dec_of(s % 60) + "s"@
    } else {
        dec_of(s / 3600) + "h "@ + dec_of((s % 3600) / 60) + "m"@
    }
}

fn push_text(v: &mut Vec<char>, t: &str)
    ensures
        final(v)@ == old(v)@ + t@,
{
    let c = chars_of(t);
    crate::manifest::push_chars_vec(v, &c);
}

/// The time left of a download, from whole seconds.
pub fn format_duration_eta(secs: u64) -> (r: String)
    ensures
        r@ == spec_eta_text(secs as nat),
{
    let mut v: Vec<char> = Vec::new();
    if secs < 60 {
        push_dec(&mut v, secs);
        push_text(&mut v, "s");
    } else if secs < 3600 {
        push_dec(&mut v, secs / 60);
        push_text(&mut v, "m ");
        push_dec(&mut v, secs % 60);
        push_text(&mut v, "s");
    } else {
        push_dec(&mut v, secs / 3600);
        push_text(&mut v, "h ");
        push_dec(&mut v, (secs % 3600) / 60);
        push_text(&mut v, "m");
    }
    assert(v@ =~= spec_eta_text(secs as nat));
    string_of(v.as_slice())
}

/// A play time or age in seconds, sign dropped: as for downloads, and from a
/// day on, days and hours.
pub open spec fn spec_duration_text(s: nat) -> Seq<char> {
    if s < 86400 {
        spec_eta_text(s)
    } else {
        dec_of(s / 86400) + "d "@ + dec_of((s % 86400) / 3600) + "h"@
    }
}

/// A signed duration in seconds as text; the sign is dropped.
pub fn format_duration(secs: i64) -> (r: String)
    requires
        secs > i64::MIN,
    ensures
        r@ == spec_duration_text((if secs < 0 { -secs } else { secs as int }) as nat),
{
    let s: u64 = if secs < 0 { (-secs) as u64 } else { secs as u64 };
    if s < 86400 {
        format_duration_eta(s)
    } else {
        let mut v: Vec<char> = Vec::new();
        push_dec(&mut v, s / 86400);
        push_text(&mut v, "d ");
        push_dec(&mut v, (s % 86400) / 3600);
        push_text(&mut v, "h");
        assert(v@ =~= spec_duration_text(s as nat));
        string_of(v.as_slice())
    }
}

// ---------------------------------------------------------------------------
// Install estimates.

/// The decimal value of a text as `u64::from_str` reads it: an optional
/// leading `+`, then at least one digit and nothing else; `None` where the
/// value exceeds `u64::MAX`.
pub open spec fn digits_value(s: Seq<char>) -> nat
    decreases s.len(),
{
    if s.len() == 0 {
        0
    } else {
        digits_value(s.drop_last()) * 10 + (s.last() as nat - 48) as nat
    }
}

pub open spec fn all_digits(s: Seq<char>) -> bool {
    forall|i: int| 0 <= i < s.len() ==> '0' <= #[trigger] s[i] <= '9'
}

pub open spec fn spec_parse_u64(s: Seq<char>) -> Option<u64> {
    let d = if s.len() > 0 && s[0] == '+' { s.drop_first() } else { s };
    if d.len() > 0 && all_digits(d) && digits_value(d) <= u64::MAX {
        Some(digits_value(d) as u64)
    } else {
        None
    }
}

/// Reads a decimal `u64`.
pub fn parse_u64(s: &str) -> (r: Option<u64>)
    ensures
        r == spec_parse_u64(s@),
{
    let c = chars_of(s);
    let start: usize = if c.len() > 0 && c[0] == '+' { 1 } else { 0 };
    let ghost d = if s@.len() > 0 && s@[0] == '+' { s@.drop_first() } else { s@ };
    assert(d =~= c@.skip(start as int));
    if c.len() == start {
        return None;
    }
    let mut v: u64 = 0;
    let mut i = start;
    while i < c.len()
        invariant
            start <= i <= c@.len(),
            c@ == s@,
            d == c@.skip(start as int),
            d == (if s@.len() > 0 && s@[0] == '+' { s@.drop_first() } else { s@ }),
            d.len() > 0,
            all_digits(c@.subrange(start as int, i as int)),
            v as nat == digits_value(c@.subrange(start as int, i as int)),
        decreases c@.len() - i,
    {
        let ch = c[i];
        assert(c@.subrange(start as int, i + 1).drop_last() =~= c@.subrange(start as int, i as int));
        if !('0' <= ch && ch <= '9') {
            assert(d[i - start] == ch);
            assert(!all_digits(d));
            assert(spec_parse_u64(s@) is None);
            return None;
        }
        let digit = (ch as u32 - 48) as u64;
        if v > (u64::MAX - digit) / 10 {
            proof {
                if all_digits(d) {
                    lemma_digits_value_mono(d, (i + 1 - start) as int);
                    assert(digits_value(c@.subrange(start as int, i + 1)) == v * 10 + digit);
                    assert(c@.subrange(start as int, i + 1) =~= d.take(i + 1 - start));
                    assert(v * 10 + digit > u64::MAX) by (nonlinear_arith)
                        requires
                            v > (u64::MAX - digit) / 10,
                            digit <= 9,
                    {}
                }
                assert(spec_parse_u64(s@) is None);
            }
            return None;
        }
        v = v * 10 + digit;
        i += 1;
        assert(all_digits(c@.subrange(start as int, i as int)));
    }
    assert(c@.subrange(start as int, c@.len() as int) =~= d);
    Some(v)
}

proof fn lemma_digits_value_mono(s: Seq<char>, k: int)
    requires
        0 <= k <= s.len(),
        all_digits(s),
    ensures
        digits_value(s.take(k)) <= digits_value(s),
    decreases s.len() - k,
{
    if k < s.len() {
        lemma_digits_value_mono(s, k + 1);
        assert(s.take(k + 1).drop_last() =~= s.take(k));
        assert('0' <= s[k] <= '9');
    } else {
        assert(s.take(k) =~= s);
    }
}

/// The install size shown before installing: the `MaxSizeMB` attribute in
/// bytes (the multiplication wrapping as release builds do), or ten gibibytes
/// where that gives zero or is missing or unreadable.
pub open spec fn spec_install_size(attrs: Option<Seq<(String, CustomAttribute)>>) -> u64 {
    let mb: u64 = match spec_custom_attribute(attrs, "MaxSizeMB"@) {
        Some(v) => match spec_parse_u64(v) {
            Some(n) => n,
            None => 0,
        },
        None => 0,
    };
    let bytes = ((mb as nat * 1048576) % 0x1_0000_0000_0000_0000) as u64;
    if bytes == 0 {
        10737418240
    } else {
        bytes
    }
}

pub fn install_size_estimate(attrs: &Option<Vec<(String, CustomAttribute)>>) -> (r: u64)
    ensures
        r == spec_install_size(attrs_view(*attrs)),
{
    let mb = match custom_attribute(attrs, "MaxSizeMB") {
        Some(v) => match parse_u64(v.as_str()) {
            Some(n) => n,
            None => 0,
        },
        None => 0,
    };
    let bytes = mb.wrapping_mul(1048576);
    assert(bytes == ((mb as nat * 1048576) % 0x1_0000_0000_0000_0000) as u64);
    if bytes == 0 {
        10737418240
    } else {
        bytes
    }
}

/// Where a title is installed by default: `Games/<app>` in the home
/// directory, or `/tmp/<app>` without one.
pub fn default_install_path(home: Option<String>, app_name: &str) -> (r: String)
    ensures
        r@ == match home {
            Some(h) => path_join(path_join(h@, "Games"@), app_name@),
            None => path_join("/tmp"@, app_name@),
        },
{
    match home {
        Some(h) => {
            let g = join_path(h.as_str(), "Games");
            join_path(g.as_str(), app_name)
        },
        None => join_path("/tmp", app_name),
    }
}

/// The first asset of `app_name` (or, where `catalog_item_id` is given, of
/// that catalog item).
pub open spec fn spec_find_asset(assets: Seq<Asset>, app_name: Seq<char>, catalog_item_id: Option<Seq<char>>) -> Option<int>
    decreases assets.len(),
{
    if assets.len() == 0 {
        None
    } else if assets[0].app_name@ == app_name || (catalog_item_id matches Some(c) && assets[0].catalog_item_id@ == c) {
        Some(0)
    } else {
        match spec_find_asset(assets.drop_first(), app_name, catalog_item_id) {
            Some(i) => Some(i + 1),
            None => None,
        }
    }
}

pub fn find_asset(assets: &Vec<Asset>, app_name: &str, catalog_item_id: Option<&str>) -> (r: Option<usize>)
    ensures
        match (r, spec_find_asset(assets@, app_name@, match catalog_item_id {
            Some(c) => Some(c@),
            None => None,
        })) {
            (Some(i), Some(j)) => i == j && i < assets@.len(),
            (None, None) => true,
            _ => false,
        },
{
    let ghost cat = match catalog_item_id {
        Some(c) => Some(c@),
        None => None::<Seq<char>>,
    };
    let mut i: usize = 0;
    assert(assets@.skip(0) =~= assets@);
    while i < assets.len()
        invariant
            i <= assets@.len(),
            cat == match catalog_item_id {
                Some(c) => Some(c@),
                None => None::<Seq<char>>,
            },
            spec_find_asset(assets@, app_name@, cat) == match spec_find_asset(assets@.skip(i as int), app_name@, cat) {
                Some(j) => Some(j + i),
                None => None,
            },
        decreases assets@.len() - i,
    {
        assert(assets@.skip(i as int).drop_first() =~= assets@.skip(i + 1));
        assert(assets@.skip(i as int)[0] == assets@[i as int]);
        let a = &assets[i];
        let by_cat = match catalog_item_id {
            Some(c) => str_equal(a.catalog_item_id.as_str(), c),
            None => false,
        };
        if str_equal(a.app_name.as_str(), app_name) || by_cat {
            return Some(i);
        }
        i += 1;
    }
    None
}

// ---------------------------------------------------------------------------
// Manifest URLs in the store's build descriptions.

/// A query parameter of a manifest URL; a name or value that is not text is
/// absent.
#[derive(Debug, Clone, PartialEq, Eq)]
pub struct QueryParam {
    pub name: Option<String>,
    pub value: Option<String>,
}

/// A manifest entry of a build description: its URI and query parameters,
/// where they are of the right kind.
#[derive(Debug, Clone, PartialEq, Eq)]
pub struct ManifestNode {
    pub uri: Option<String>,
    pub query_params: Option<Vec<QueryParam>>,
}

/// An element of a build description and its manifest entries.
#[derive(Debug, Clone, PartialEq, Eq)]
pub struct ManifestElement {
    pub manifests: Option<Vec<ManifestNode>>,
}

pub open spec fn or_empty(o: Option<String>) -> Seq<char> {
    match o {
        Some(s) => s@,
        None => seq![],
    }
}

/// One query parameter as the URL carries it: name and value
/// percent-encoded, an absent one as empty text.
pub open spec fn param_text(p: QueryParam) -> Seq<char> {
    percent_encode(encode_utf8(or_empty(p.name))) + seq!['='] + percent_encode(encode_utf8(or_empty(p.value)))
}

/// The query parameters joined by `&`.
pub open spec fn params_text(ps: Seq<QueryParam>) -> Seq<char>
    decreases ps.len(),
{
    if ps.len() == 0 {
        seq![]
    } else if ps.len() == 1 {
        param_text(ps[0])
    } else {
        params_text(ps.drop_last()) + seq!['&'] + param_text(ps.last())
    }
}

/// The URL of a manifest entry: none without a URI; the URI, with `?` and
/// the parameters where there are any.
pub open spec fn spec_manifest_url(node: ManifestNode) -> Option<Seq<char>> {
    match node.uri {
        None => None,
        Some(u) => match node.query_params {
            Some(ps) => if ps@.len() > 0 {
                Some(u@ + seq!['?'] + params_text(ps@))
            } else {
                Some(u@)
            },
            None => Some(u@),
        },
    }
}

fn param_of(p: &QueryParam) -> (r: String)
    ensures
        r@ == param_text(*p),
{
    let name = match &p.name {
        Some(n) => url_encode(n.as_str()),
        None => url_encode(""),
    };
    let value = match &p.value {
        Some(v) => url_encode(v.as_str()),
        None => url_encode(""),
    };
    proof {
        reveal_strlit("");
        assert(""@ =~= seq![]);
    }
    let mut s = concat(name.as_str(), "=");
    push_str(&mut s, value.as_str());
    proof {
        reveal_strlit("=");
    }
    s
}

/// The URL a manifest entry gives, if any.
pub fn construct_manifest_url(node: &ManifestNode) -> (r: Option<String>)
    ensures
        opt_view(r) == spec_manifest_url(*node),
{
    let uri = match &node.uri {
        Some(u) => u,
        None => {
            return None;
        },
    };
    match &node.query_params {
        Some(ps) => {
            if ps.len() == 0 {
                return Some(uri.clone());
            }
            let mut url = concat(uri.as_str(), "?");
            let ghost base = url@;
            proof {
                reveal_strlit("?");
            }
            let mut i: usize = 0;
            while i < ps.len()
                invariant
                    i <= ps@.len(),
                    ps@.len() > 0,
                    url@ == base + params_text(ps@.take(i as int)),
                decreases ps@.len() - i,
            {
                assert(ps@.take(i + 1).drop_last() =~= ps@.take(i as int));
                if i > 0 {
                    push_str(&mut url, "&");
                    proof {
                        reveal_strlit("&");
                    }
                }
                let ghost mid = url@;
                let t = param_of(&ps[i]);
                push_str(&mut url, t.as_str());
                proof {
                    if i == 0 {
                        assert(params_text(ps@.take(0)) =~= seq![]);
                        assert(ps@.take(1)[0] == ps@[0]);
                        assert(url@ =~= base + params_text(ps@.take(1)));
                    } else {
                        assert(ps@.take(i + 1).last() == ps@[i as int]);
                        assert(url@ =~= base + params_text(ps@.take(i + 1)));
                    }
                }
                i += 1;
            }
            assert(ps@.take(ps@.len() as int) =~= ps@);
            Some(url)
        },
        None => Some(uri.clone()),
    }
}

/// The first manifest URL of the nodes.
pub open spec fn first_node_url(nodes: Seq<ManifestNode>) -> Option<Seq<char>>
    decreases nodes.len(),
{
    if nodes.len() == 0 {
        None
    } else {
        match spec_manifest_url(nodes[0]) {
            Some(u) => Some(u),
            None => first_node_url(nodes.drop_first()),
        }
    }
}

/// The first manifest URL of a build description's elements, element by
/// element and entry by entry.
pub open spec fn first_element_url(elements: Seq<ManifestElement>) -> Option<Seq<char>>
    decreases elements.len(),
{
    if elements.len() == 0 {
        None
    } else {
        match elements[0].manifests {
            Some(ns) => match first_node_url(ns@) {
                Some(u) => Some(u),
                None => first_element_url(elements.drop_first()),
            },
            None => first_element_url(elements.drop_first()),
        }
    }
}

fn first_url_of_nodes(nodes: &Vec<ManifestNode>) -> (r: Option<String>)
    ensures
        opt_view(r) == first_node_url(nodes@),
{
    let mut i: usize = 0;
    assert(nodes@.skip(0) =~= nodes@);
    while i < nodes.len()
        invariant
            i <= nodes@.len(),
            first_node_url(nodes@) == first_node_url(nodes@.skip(i as int)),
        decreases nodes@.len() - i,
    {
        assert(nodes@.skip(i as int).drop_first() =~= nodes@.skip(i + 1));
        assert(nodes@.skip(i as int)[0] == nodes@[i as int]);
        match construct_manifest_url(&nodes[i]) {
            Some(u) => {
                return Some(u);
            },
            None => {},
        }
        i += 1;
    }
    None
}

/// The manifest URL of a build description: `None` where it has no element
/// list or no entry gives one.
pub fn find_manifest_url(elements: &Option<Vec<ManifestElement>>) -> (r: Option<String>)
    ensures
        opt_view(r) == match elements {
            Some(es) => first_element_url(es@),
            None => None,
        },
{
    let es = match elements {
        Some(es) => es,
        None => {
            return None;
        },
    };
    let mut i: usize = 0;
    assert(es@.skip(0) =~= es@);
    while i < es.len()
        invariant
            i <= es@.len(),
            *elements == Some(*es),
            first_element_url(es@) == first_element_url(es@.skip(i as int)),
        decreases es@.len() - i,
    {
        assert(es@.skip(i as int).drop_first() =~= es@.skip(i + 1));
        assert(es@.skip(i as int)[0] == es@[i as int]);
        match &es[i].manifests {
            Some(ns) => match first_url_of_nodes(ns) {
                Some(u) => {
                    return Some(u);
                },
                None => {},
            },
            None => {},
        }
        i += 1;
    }
    None
}

/// The text that the field `key` of the JSON object `doc` holds: `None`
/// where `doc` is not JSON, or the field is missing or not text. It depends
/// on its arguments alone.
pub uninterp spec fn json_text_field(doc: Seq<char>, key: Seq<char>) -> Option<Seq<char>>;

/// `serde_json::from_str` into a `Value`, then the field `key` read with
/// `as_str`. Claims only that the result is the field's text, named
/// `json_text_field`.
#[verifier::external_body]
fn json_field(doc: &str, key: &str) -> (r: Option<String>)
    ensures
        opt_view(r) == json_text_field(doc@, key@),
{
    match serde_json::from_str::<serde_json::Value>(doc) {
        Ok(v) => v[key].as_str().map(|s| s.to_string()),
        Err(_) => None,
    }
}

/// The deployment id of a build, read from the JSON configuration of the
/// first element's sidecar.
pub fn extract_deployment_id(sidecar_config: &Option<String>) -> (r: Option<String>)
    ensures
        opt_view(r) == match sidecar_config {
            Some(c) => json_text_field(c@, "deploymentId"@),
            None => None,
        },
{
    match sidecar_config {
        Some(c) => json_field(c.as_str(), "deploymentId"),
        None => None,
    }
}

/// The name a cloud-save debug copy is written under: the time stamp, `-`,
/// and the remote path with every character other than an ASCII letter or
/// digit, `.`, `-` or `_` replaced by `_`.
pub open spec fn safe_char(c: char) -> char {
    if ('a' <= c <= 'z') || ('A' <= c <= 'Z') || ('0' <= c <= '9') || c == '.' || c == '-' || c == '_' {
        c
    } else {
        '_'
    }
}

pub fn debug_blob_name(stamp: &str, remote_path: &str) -> (r: String)
    ensures
        r@ == stamp@ + seq!['-'] + remote_path@.map_values(|c: char| safe_char(c)),
{
    let mut v = chars_of(stamp);
    v.push('-');
    let ghost base = v@;
    let p = chars_of(remote_path);
    let mut i: usize = 0;
    while i < p.len()
        invariant
            i <= p@.len(),
            v@ == base + p@.take(i as int).map_values(|c: char| safe_char(c)),
        decreases p@.len() - i,
    {
        let c = p[i];
        let keep = ('a' <= c && c <= 'z') || ('A' <= c && c <= 'Z') || ('0' <= c && c <= '9') || c == '.' || c == '-' || c == '_';
        v.push(if keep { c } else { '_' });
        i += 1;
        assert(v@ =~= base + p@.take(i as int).map_values(|c: char| safe_char(c)));
    }
    assert(p@.take(p@.len() as int) =~= p@);
    string_of(v.as_slice())
}

// ---------------------------------------------------------------------------
// Where a game keeps its saves.

/// The folder name saves are looked for under: the `CloudSaveFolder`
/// attribute, else the app name.
pub open spec fn spec_save_hint(attrs: Option<Seq<(String, CustomAttribute)>>, app_name: Seq<char>) -> Seq<char> {
    match spec_custom_attribute(attrs, "CloudSaveFolder"@) {
        Some(h) => h,
        None => app_name,
    }
}

pub fn save_hint(attrs: &Option<Vec<(String, CustomAttribute)>>, app_name: &str) -> (r: String)
    ensures
        r@ == spec_save_hint(attrs_view(*attrs), app_name@),
{
    match custom_attribute(attrs, "CloudSaveFolder") {
        Some(h) => h,
        None => String::from_str(app_name),
    }
}

/// Where the users of a Wine prefix are.
pub fn prefix_users_dir(prefix: &str) -> (r: String)
    ensures
        r@ == path_join(prefix@, "pfx/drive_c/users"@),
{
    join_path(prefix, "pfx/drive_c/users")
}

/// The folders of a user that saves are looked for in, in order.
pub open spec fn save_bases(user: Seq<char>) -> Seq<Seq<char>> {
    seq![
        path_join(user, "AppData/Local"@),
        path_join(user, "Documents"@),
        path_join(user, "Saved Games"@),
        path_join(user, "My Documents"@),
    ]
}

/// The places a game's save folder is looked for, in order: for each user,
/// each of the user's folders, the hint and the hint without spaces.
pub open spec fn spec_save_candidates(users: Seq<Seq<char>>, hint: Seq<char>) -> Seq<Seq<char>>
    decreases users.len(),
{
    if users.len() == 0 {
        seq![]
    } else {
        let nospace = crate::strs::replace_char(hint, ' ', seq![]);
        let b = save_bases(users.last());
        spec_save_candidates(users.drop_last(), hint) + seq![
            path_join(b[0], hint), path_join(b[0], nospace),
            path_join(b[1], hint), path_join(b[1], nospace),
            path_join(b[2], hint), path_join(b[2], nospace),
            path_join(b[3], hint), path_join(b[3], nospace),
        ]
    }
}

pub fn save_candidates(users: &Vec<String>, hint: &str) -> (r: Vec<String>)
    ensures
        r@.map_values(|s: String| s@) == spec_save_candidates(users@.map_values(|s: String| s@), hint@),
{
    let ghost us = users@.map_values(|s: String| s@);
    let hc = chars_of(hint);
    let empty: Vec<char> = Vec::new();
    assert(empty@ =~= seq![]);
    let nospace_v = crate::strs::replaced_char(hc.as_slice(), ' ', empty.as_slice());
    let nospace = string_of(nospace_v.as_slice());
    assert(nospace@ == crate::strs::replace_char(hint@, ' ', seq![]));
    let mut out: Vec<String> = Vec::new();
    let mut i: usize = 0;
    assert(us.take(0) =~= seq![]);
    while i < users.len()
        invariant
            i <= users@.len(),
            us == users@.map_values(|s: String| s@),
            nospace@ == crate::strs::replace_char(hint@, ' ', seq![]),
            out@.map_values(|s: String| s@) == spec_save_candidates(us.take(i as int), hint@),
        decreases users@.len() - i,
    {
        assert(us.take(i + 1).drop_last() =~= us.take(i as int));
        assert(us.take(i + 1).last() == users@[i as int]@);
        let u = users[i].as_str();
        let ghost before = out@.map_values(|s: String| s@);
        let b0 = join_path(u, "AppData/Local");
        let b1 = join_path(u, "Documents");
        let b2 = join_path(u, "Saved Games");
        let b3 = join_path(u, "My Documents");
        out.push(join_path(b0.as_str(), hint));
        out.push(join_path(b0.as_str(), nospace.as_str()));
        out.push(join_path(b1.as_str(), hint));
        out.push(join_path(b1.as_str(), nospace.as_str()));
        out.push(join_path(b2.as_str(), hint));
        out.push(join_path(b2.as_str(), nospace.as_str()));
        out.push(join_path(b3.as_str(), hint));
        out.push(join_path(b3.as_str(), nospace.as_str()));
        assert(out@.map_values(|s: String| s@) =~= spec_save_candidates(us.take(i + 1), hint@));
        i += 1;
    }
    assert(us.take(users@.len() as int) =~= us);
    out
}

/// Under a found save folder, the account's folder and the Unreal-style
/// `Saved/SaveGames/<account>` folder.
pub fn account_save_dirs(found: &str, account_id: &str) -> (r: (String, String))
    ensures
        r.0@ == path_join(found@, account_id@),
        r.1@ == path_join(path_join(found@, "Saved/SaveGames"@), account_id@),
{
    let a = join_path(found, account_id);
    let s = join_path(found, "Saved/SaveGames");
    (a, join_path(s.as_str(), account_id))
}

/// The save path chosen under a found save folder: the account's folder
/// where it exists, else the Unreal-style one where it exists, else the
/// folder itself.
pub fn choose_save_path(found: &str, account_id: &Option<String>, account_dir_exists: bool, saved_dir_exists: bool) -> (r: String)
    ensures
        r@ == match account_id {
            Some(a) => if account_dir_exists {
                path_join(found@, a@)
            } else if saved_dir_exists {
                path_join(path_join(found@, "Saved/SaveGames"@), a@)
            } else {
                found@
            },
            None => found@,
        },
{
    match account_id {
        Some(a) => {
            let (ad, sd) = account_save_dirs(found, a.as_str());
            if account_dir_exists {
                ad
            } else if saved_dir_exists {
                sd
            } else {
                String::from_str(found)
            }
        },
        None => String::from_str(found),
    }
}

/// Where a game's local backups go by default: a folder named after it in
/// the configuration directory.
pub fn default_backup_path(config_dir: &str, app_name: &str) -> (r: String)
    ensures
        r@ == path_join(config_dir@, app_name@),
{
    join_path(config_dir, app_name)
}

/// The extra command line of a title launched through another store: that
/// of the first library entry of the title.
pub open spec fn spec_origin_args(library: Seq<crate::models::LibraryItem>, app_name: Seq<char>) -> Option<Seq<char>>
    decreases library.len(),
{
    if library.len() == 0 {
        None
    } else if library[0].app_name@ == app_name {
        opt_view(library[0].additional_command_line)
    } else {
        spec_origin_args(library.drop_first(), app_name)
    }
}

pub fn origin_extra_args(library: &Vec<crate::models::LibraryItem>, app_name: &str) -> (r: Option<String>)
    ensures
        opt_view(r) == spec_origin_args(library@, app_name@),
{
    let mut i: usize = 0;
    assert(library@.skip(0) =~= library@);
    while i < library.len()
        invariant
            i <= library@.len(),
            spec_origin_args(library@, app_name@) == spec_origin_args(library@.skip(i as int), app_name@),
        decreases library@.len() - i,
    {
        assert(library@.skip(i as int).drop_first() =~= library@.skip(i + 1));
        assert(library@.skip(i as int)[0] == library@[i as int]);
        if str_equal(library[i].app_name.as_str(), app_name) {
            return crate::models::copy_opt(&library[i].additional_command_line);
        }
        i += 1;
    }
    None
}

} // verus!
