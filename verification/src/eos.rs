//! The EOS overlay: its app id, and the Wine `user.reg` edits that tell games
//! where the overlay is installed.

use vstd::prelude::*;
use crate::strs::{
    trim, trimmed, is_ws, starts_with, contains_seq, has_prefix, has_infix, second_field,
    second_field_of, trim_char, trimmed_char, replace_char, replaced_char, occurs_at,
    ws_prefix_len, ws_suffix_len, lemma_ws_prefix_len, lemma_ws_suffix_len, first_index,
    lemma_first_index, char_prefix_len, char_suffix_len,
};
use crate::text::{chars_of, string_of};
use crate::paths::{path_join, join_path, join_chars, concat};
use crate::models::InstalledGame;

verus! {

pub const EOS_OVERLAY_APP_ID: &'static str = "98bc04bc842e4906993fd6d6644ffb8d";

pub const EOS_OVERLAY_KEY: &'static str = "SOFTWARE\\Epic Games\\EOS";

pub const EOS_OVERLAY_VALUE: &'static str = "OverlayPath";

/// The registry key as `user.reg` writes it, each backslash doubled.
pub open spec fn wine_key() -> Seq<char> {
    replace_char(EOS_OVERLAY_KEY@, '\\', "\\\\"@)
}

/// The start of the line that holds the overlay's path: the value name in quotes.
pub open spec fn value_prefix() -> Seq<char> {
    seq!['"'] + EOS_OVERLAY_VALUE@ + seq!['"']
}

/// A trimmed line that opens a section.
pub open spec fn is_header(t: Seq<char>) -> bool {
    t.len() > 0 && t[0] == '['
}

/// A trimmed line that opens the overlay's section.
pub open spec fn is_target_header(t: Seq<char>) -> bool {
    is_header(t) && contains_seq(t, wine_key())
}

pub open spec fn is_value_line(t: Seq<char>) -> bool {
    starts_with(t, value_prefix())
}

/// The path a value line holds: its second `=`-separated field, trimmed and
/// stripped of quotes.
pub open spec fn value_of(t: Seq<char>) -> Option<Seq<char>> {
    match second_field(t, '=') {
        Some(p) => Some(trim_char(trim(p), '"')),
        None => None,
    }
}

/// Scans `lines`, inside the overlay's section where `in_section`, for the
/// first value line of that section that has a value.
pub open spec fn query_from(lines: Seq<Seq<char>>, in_section: bool) -> Option<Seq<char>>
    decreases lines.len(),
{
    if lines.len() == 0 {
        None
    } else {
        let t = trim(lines[0]);
        let rest = lines.drop_first();
        if is_target_header(t) {
            query_from(rest, true)
        } else if is_header(t) {
            query_from(rest, false)
        } else if in_section && is_value_line(t) && value_of(t) is Some {
            value_of(t)
        } else {
            query_from(rest, in_section)
        }
    }
}

/// The overlay path that the registry lines give, if any.
pub open spec fn spec_query_registry(lines: Seq<Seq<char>>) -> Option<Seq<char>> {
    query_from(lines, false)
}

/// The lines without the value lines of the overlay's section.
pub open spec fn remove_from(lines: Seq<Seq<char>>, in_section: bool) -> Seq<Seq<char>>
    decreases lines.len(),
{
    if lines.len() == 0 {
        seq![]
    } else {
        let t = trim(lines[0]);
        let rest = lines.drop_first();
        if is_target_header(t) {
            seq![lines[0]] + remove_from(rest, true)
        } else if is_header(t) {
            seq![lines[0]] + remove_from(rest, false)
        } else if in_section && is_value_line(t) {
            remove_from(rest, true)
        } else {
            seq![lines[0]] + remove_from(rest, in_section)
        }
    }
}

pub open spec fn spec_remove_registry(lines: Seq<Seq<char>>) -> Seq<Seq<char>> {
    remove_from(lines, false)
}

/// A path as Wine sees it: backslashes turned to slashes, on drive `Z:` unless
/// it names `Z:` or `C:` already.
pub open spec fn wine_path(p: Seq<char>) -> Seq<char> {
    let q = replace_char(p, '\\', "/"@);
    if starts_with(q, "Z:"@) || starts_with(q, "C:"@) {
        q
    } else {
        "Z:"@ + q
    }
}

/// The value line that sets the overlay path to `wp`.
pub open spec fn overlay_line(wp: Seq<char>) -> Seq<char> {
    value_prefix() + seq!['=', '"'] + wp + seq!['"']
}

/// One pass over the lines: value lines of the overlay's section become
/// `ol`, and where the first such section ends without one, `ol` is put
/// before the next header. The lines out, whether the section was seen, and
/// whether `ol` was placed.
pub open spec fn add_pass(lines: Seq<Seq<char>>, ol: Seq<char>, found: bool, placed: bool, in_t: bool)
    -> (Seq<Seq<char>>, bool, bool)
    decreases lines.len(),
{
    if lines.len() == 0 {
        (seq![], found, placed)
    } else {
        let t = trim(lines[0]);
        let rest = lines.drop_first();
        if is_target_header(t) {
            let r = add_pass(rest, ol, true, placed, true);
            (seq![lines[0]] + r.0, r.1, r.2)
        } else if is_header(t) && in_t {
            let r = add_pass(rest, ol, found, true, false);
            ((if !placed { seq![ol] } else { seq![] }) + seq![lines[0]] + r.0, r.1, r.2)
        } else if in_t && is_value_line(t) {
            let r = add_pass(rest, ol, found, true, in_t);
            (seq![ol] + r.0, r.1, r.2)
        } else {
            let r = add_pass(rest, ol, found, placed, in_t);
            (seq![lines[0]] + r.0, r.1, r.2)
        }
    }
}

/// The first line that opens the overlay's section, judged on the trimmed line
/// for the bracket and on the whole line for the key.
pub open spec fn first_target_line(lines: Seq<Seq<char>>) -> Option<nat>
    decreases lines.len(),
{
    if lines.len() == 0 {
        None
    } else if is_header(trim(lines[0])) && contains_seq(lines[0], wine_key()) {
        Some(0)
    } else {
        match first_target_line(lines.drop_first()) {
            Some(i) => Some(i + 1),
            None => None,
        }
    }
}

/// The lines with the overlay path set to `path`: in place of the section's
/// value lines, at the end of the first such section, or in a new section at
/// the end.
pub open spec fn spec_add_registry(lines: Seq<Seq<char>>, path: Seq<char>) -> Seq<Seq<char>> {
    let ol = overlay_line(wine_path(path));
    let (out, found, placed) = add_pass(lines, ol, false, false, false);
    if placed {
        out
    } else if found {
        match first_target_line(out) {
            Some(pos) => out.insert(pos as int + 1, ol),
            None => out,
        }
    } else {
        out + seq![seq![], seq!['['] + wine_key() + seq![']'], ol]
    }
}

/// The registry key with backslashes doubled.
fn wine_key_chars() -> (r: Vec<char>)
    ensures
        r@ == wine_key(),
{
    let key = chars_of(EOS_OVERLAY_KEY);
    let rep = chars_of("\\\\");
    replaced_char(key.as_slice(), '\\', rep.as_slice())
}

fn value_prefix_chars() -> (r: Vec<char>)
    ensures
        r@ == value_prefix(),
{
    let mut r: Vec<char> = Vec::new();
    r.push('"');
    let v = chars_of(EOS_OVERLAY_VALUE);
    let mut i: usize = 0;
    while i < v.len()
        invariant
            i <= v@.len(),
            r@ == seq!['"'] + v@.take(i as int),
        decreases v@.len() - i,
    {
        r.push(v[i]);
        i += 1;
        assert(r@ =~= seq!['"'] + v@.take(i as int));
    }
    r.push('"');
    assert(v@.take(v@.len() as int) =~= v@);
    assert(r@ =~= value_prefix());
    r
}

fn header_check(t: &Vec<char>) -> (r: bool)
    ensures
        r == is_header(t@),
{
    t.len() > 0 && t[0] == '['
}

/// The path held by a trimmed value line, if it has a value.
fn value_of_line(t: &Vec<char>) -> (r: Option<String>)
    ensures
        match (r, value_of(t@)) {
            (Some(x), Some(y)) => x@ == y,
            (None, None) => true,
            _ => false,
        },
{
    match second_field_of(t.as_slice(), '=') {
        Some(p) => {
            let tp = trimmed(p.as_slice());
            let v = trimmed_char(tp.as_slice(), '"');
            Some(string_of(v.as_slice()))
        },
        None => None,
    }
}

/// The overlay path that the lines of a `user.reg` name, if any.
pub fn query_registry(lines: &Vec<String>) -> (r: Option<String>)
    ensures
        match (r, spec_query_registry(lines@.map_values(|l: String| l@))) {
            (Some(x), Some(y)) => x@ == y,
            (None, None) => true,
            _ => false,
        },
{
    let ghost ls = lines@.map_values(|l: String| l@);
    let key = wine_key_chars();
    let prefix = value_prefix_chars();
    let mut in_section = false;
    let mut i: usize = 0;
    assert(ls.skip(0) =~= ls);
    while i < lines.len()
        invariant
            ls == lines@.map_values(|l: String| l@),
            key@ == wine_key(),
            prefix@ == value_prefix(),
            i <= lines@.len(),
            spec_query_registry(ls) == query_from(ls.skip(i as int), in_section),
        decreases lines@.len() - i,
    {
        let line = chars_of(lines[i].as_str());
        let t = trimmed(line.as_slice());
        assert(ls.skip(i as int).drop_first() =~= ls.skip(i + 1));
        assert(ls.skip(i as int)[0] == line@);
        if header_check(&t) && has_infix(t.as_slice(), key.as_slice()) {
            in_section = true;
        } else if header_check(&t) {
            in_section = false;
        } else if in_section && has_prefix(t.as_slice(), prefix.as_slice()) {
            match value_of_line(&t) {
                Some(v) => return Some(v),
                None => {},
            }
        }
        i += 1;
    }
    None
}

/// The lines of a `user.reg` without the overlay path's value lines in the
/// overlay's section.
pub fn remove_registry_entries(lines: &Vec<String>) -> (r: Vec<String>)
    ensures
        r@.map_values(|l: String| l@) == spec_remove_registry(lines@.map_values(|l: String| l@)),
{
    let ghost ls = lines@.map_values(|l: String| l@);
    let key = wine_key_chars();
    let prefix = value_prefix_chars();
    let mut in_section = false;
    let mut out: Vec<String> = Vec::new();
    let mut i: usize = 0;
    assert(ls.skip(0) =~= ls);
    assert(out@.map_values(|l: String| l@) =~= seq![]);
    while i < lines.len()
        invariant
            ls == lines@.map_values(|l: String| l@),
            key@ == wine_key(),
            prefix@ == value_prefix(),
            i <= lines@.len(),
            spec_remove_registry(ls) == out@.map_values(|l: String| l@) + remove_from(ls.skip(i as int), in_section),
        decreases lines@.len() - i,
    {
        let line = chars_of(lines[i].as_str());
        let t = trimmed(line.as_slice());
        assert(ls.skip(i as int).drop_first() =~= ls.skip(i + 1));
        assert(ls.skip(i as int)[0] == line@);
        let ghost before = out@.map_values(|l: String| l@);
        if header_check(&t) && has_infix(t.as_slice(), key.as_slice()) {
            in_section = true;
            out.push(lines[i].clone());
        } else if header_check(&t) {
            in_section = false;
            out.push(lines[i].clone());
        } else if in_section && has_prefix(t.as_slice(), prefix.as_slice()) {
        } else {
            out.push(lines[i].clone());
        }
        proof {
            if out@.len() > before.len() {
                assert(out@.map_values(|l: String| l@) =~= before.push(line@));
            }
        }
        i += 1;
    }
    out
}

/// Turns a host path into the path Wine sees.
fn wine_path_of(p: &str) -> (r: Vec<char>)
    ensures
        r@ == wine_path(p@),
{
    let pc = chars_of(p);
    let slash = chars_of("/");
    let q = replaced_char(pc.as_slice(), '\\', slash.as_slice());
    let z = chars_of("Z:");
    let c = chars_of("C:");
    if has_prefix(q.as_slice(), z.as_slice()) || has_prefix(q.as_slice(), c.as_slice()) {
        q
    } else {
        let mut r = z;
        let mut i: usize = 0;
        while i < q.len()
            invariant
                i <= q@.len(),
                r@ == "Z:"@ + q@.take(i as int),
            decreases q@.len() - i,
        {
            r.push(q[i]);
            i += 1;
            assert(r@ =~= "Z:"@ + q@.take(i as int));
        }
        assert(q@.take(q@.len() as int) =~= q@);
        r
    }
}

/// The line that sets the overlay path to the host path `p`.
fn overlay_line_of(p: &str) -> (r: String)
    ensures
        r@ == overlay_line(wine_path(p@)),
{
    let mut v = value_prefix_chars();
    v.push('=');
    v.push('"');
    let wp = wine_path_of(p);
    let mut i: usize = 0;
    let ghost start = v@;
    while i < wp.len()
        invariant
            i <= wp@.len(),
            v@ == start + wp@.take(i as int),
        decreases wp@.len() - i,
    {
        v.push(wp[i]);
        i += 1;
        assert(v@ =~= start + wp@.take(i as int));
    }
    v.push('"');
    assert(wp@.take(wp@.len() as int) =~= wp@);
    assert(v@ =~= overlay_line(wine_path(p@)));
    string_of(v.as_slice())
}

/// The lines of a `user.reg` with the overlay path set to `overlay_path`.
pub fn add_registry_entries(overlay_path: &str, lines: &Vec<String>) -> (r: Vec<String>)
    ensures
        r@.map_values(|l: String| l@) == spec_add_registry(lines@.map_values(|l: String| l@), overlay_path@),
{
    let ghost ls = lines@.map_values(|l: String| l@);
    let key = wine_key_chars();
    let prefix = value_prefix_chars();
    let ol = overlay_line_of(overlay_path);
    let ghost olv = ol@;
    let mut found = false;
    let mut placed = false;
    let mut in_t = false;
    let mut out: Vec<String> = Vec::new();
    let mut i: usize = 0;
    assert(ls.skip(0) =~= ls);
    assert(out@.map_values(|l: String| l@) =~= seq![]);
    while i < lines.len()
        invariant
            ls == lines@.map_values(|l: String| l@),
            key@ == wine_key(),
            prefix@ == value_prefix(),
            olv == ol@,
            i <= lines@.len(),
            ({
                let whole = add_pass(ls, olv, false, false, false);
                let tail = add_pass(ls.skip(i as int), olv, found, placed, in_t);
                whole.0 == out@.map_values(|l: String| l@) + tail.0 && whole.1 == tail.1 && whole.2 == tail.2
            }),
        decreases lines@.len() - i,
    {
        let line = chars_of(lines[i].as_str());
        let t = trimmed(line.as_slice());
        assert(ls.skip(i as int).drop_first() =~= ls.skip(i + 1));
        assert(ls.skip(i as int)[0] == line@);
        let ghost before = out@.map_values(|l: String| l@);
        if header_check(&t) && has_infix(t.as_slice(), key.as_slice()) {
            found = true;
            in_t = true;
            out.push(lines[i].clone());
            assert(out@.map_values(|l: String| l@) =~= before.push(line@));
        } else if header_check(&t) && in_t {
            if !placed {
                out.push(ol.clone());
                placed = true;
            }
            in_t = false;
            let ghost mid = out@.map_values(|l: String| l@);
            out.push(lines[i].clone());
            assert(out@.map_values(|l: String| l@) =~= mid.push(line@));
            assert(out@.map_values(|l: String| l@) =~= before + (if mid.len() > before.len() { seq![olv] } else { seq![] }) + seq![line@]);
        } else if in_t && has_prefix(t.as_slice(), prefix.as_slice()) {
            out.push(ol.clone());
            placed = true;
            assert(out@.map_values(|l: String| l@) =~= before.push(olv));
        } else {
            out.push(lines[i].clone());
            assert(out@.map_values(|l: String| l@) =~= before.push(line@));
        }
        i += 1;
    }
    assert(ls.skip(lines@.len() as int) =~= seq![]);
    assert(out@.map_values(|l: String| l@) =~= add_pass(ls, olv, false, false, false).0);
    if !placed {
        if found {
            match first_target_index(&out, &key) {
                Some(pos) => {
                    let ghost before = out@.map_values(|l: String| l@);
                    let n = out.len();
                    assert(pos < n);
                    out.insert(pos + 1, ol);
                    assert(out@.map_values(|l: String| l@) =~= before.insert(pos + 1, olv));
                },
                None => {},
            }
        } else {
            let ghost before = out@.map_values(|l: String| l@);
            let empty = String::new();
            assert(empty@ =~= seq![]);
            out.push(empty);
            let ghost b1 = out@.map_values(|l: String| l@);
            assert(b1 =~= before.push(seq![]));
            let mut header: Vec<char> = Vec::new();
            header.push('[');
            let mut k: usize = 0;
            while k < key.len()
                invariant
                    k <= key@.len(),
                    header@ == seq!['['] + key@.take(k as int),
                decreases key@.len() - k,
            {
                header.push(key[k]);
                k += 1;
                assert(header@ =~= seq!['['] + key@.take(k as int));
            }
            header.push(']');
            assert(key@.take(key@.len() as int) =~= key@);
            assert(header@ =~= seq!['['] + wine_key() + seq![']']);
            let hs = string_of(header.as_slice());
            out.push(hs);
            let ghost b2 = out@.map_values(|l: String| l@);
            assert(b2 =~= b1.push(hs@));
            out.push(ol);
            assert(out@.map_values(|l: String| l@) =~= b2.push(olv));
            assert(out@.map_values(|l: String| l@) =~= before + seq![seq![], seq!['['] + wine_key() + seq![']'], olv]);
        }
    }
    out
}

/// The position of the first line that opens the overlay's section.
fn first_target_index(lines: &Vec<String>, key: &Vec<char>) -> (r: Option<usize>)
    requires
        key@ == wine_key(),
    ensures
        match (r, first_target_line(lines@.map_values(|l: String| l@))) {
            (Some(x), Some(y)) => x == y && x < lines@.len(),
            (None, None) => true,
            _ => false,
        },
{
    let ghost ls = lines@.map_values(|l: String| l@);
    let mut i: usize = 0;
    assert(ls.skip(0) =~= ls);
    while i < lines.len()
        invariant
            ls == lines@.map_values(|l: String| l@),
            key@ == wine_key(),
            i <= lines@.len(),
            first_target_line(ls) == match first_target_line(ls.skip(i as int)) {
                Some(j) => Some((j + i) as nat),
                None => None::<nat>,
            },
        decreases lines@.len() - i,
    {
        let line = chars_of(lines[i].as_str());
        let t = trimmed(line.as_slice());
        assert(ls.skip(i as int).drop_first() =~= ls.skip(i + 1));
        assert(ls.skip(i as int)[0] == line@);
        if header_check(&t) && has_infix(line.as_slice(), key.as_slice()) {
            return Some(i);
        }
        i += 1;
    }
    None
}

/// What the overlay page shows: whether the overlay is installed and where,
/// the path the registry names, and the overlay installs found.
#[derive(Debug, Clone, Default, PartialEq, Eq)]
pub struct EosOverlayStatus {
    pub installed: bool,
    pub install_path: Option<String>,
    pub registry_path: Option<String>,
    pub available_paths: Vec<String>,
}

/// Where the store's launcher keeps the overlay, under a prefix.
pub open spec fn launcher_overlay_rel() -> Seq<char> {
    "drive_c/Program Files (x86)/Epic Games/Launcher/Portal/Extras/Overlay"@
}

/// Where the store's online services keep the overlay, under a prefix.
pub open spec fn eosh_overlay_rel() -> Seq<char> {
    "drive_c/Program Files (x86)/Epic Games/Epic Online Services/managedArtifacts/"@ + EOS_OVERLAY_APP_ID@
}

/// `s` without its leading `/`s.
pub open spec fn strip_leading_slashes(s: Seq<char>) -> Seq<char> {
    s.skip(char_prefix_len(s, '/') as int)
}

/// The host path that a path named in the registry stands for under a
/// prefix: a `Z:` path joined onto the prefix, a `C:` path onto its
/// `drive_c`; none for other drives.
pub open spec fn registry_host_path(prefix: Seq<char>, reg: Seq<char>) -> Option<Seq<char>> {
    let n = replace_char(reg, '\\', "/"@);
    if starts_with(n, "Z:"@) {
        Some(path_join(prefix, strip_leading_slashes(n.skip(2))))
    } else if starts_with(n, "C:"@) {
        Some(path_join(path_join(prefix, "drive_c"@), strip_leading_slashes(n.skip(2))))
    } else {
        None
    }
}

/// The places an overlay install is looked for under a prefix, in order.
pub open spec fn spec_overlay_candidates(prefix: Seq<char>, reg: Option<Seq<char>>) -> Seq<Seq<char>> {
    let base = seq![path_join(prefix, launcher_overlay_rel()), path_join(prefix, eosh_overlay_rel())];
    match reg {
        Some(r) => match registry_host_path(prefix, r) {
            Some(h) => base.push(h),
            None => base,
        },
        None => base,
    }
}

/// `s` without runs of equal neighbours (what `Vec::dedup` leaves).
pub open spec fn dedup_adjacent(s: Seq<Seq<char>>) -> Seq<Seq<char>>
    decreases s.len(),
{
    if s.len() == 0 {
        seq![]
    } else {
        let r = dedup_adjacent(s.drop_last());
        if s.len() >= 2 && s[s.len() - 2] == s.last() {
            r
        } else {
            r.push(s.last())
        }
    }
}

/// The test of being one of `paths`.
pub open spec fn is_listed(paths: Seq<Seq<char>>) -> spec_fn(Seq<char>) -> bool {
    |c: Seq<char>| paths.contains(c)
}

/// The overlay installs found: the candidates that exist, without repeats
/// of the one before.
pub open spec fn spec_search_overlay(prefix: Option<Seq<char>>, reg: Option<Seq<char>>, existing: Seq<Seq<char>>) -> Seq<Seq<char>> {
    match prefix {
        Some(p) => dedup_adjacent(spec_overlay_candidates(p, reg).filter(is_listed(existing))),
        None => seq![],
    }
}

fn strip_slashes(s: &Vec<char>) -> (r: Vec<char>)
    ensures
        r@ == strip_leading_slashes(s@),
{
    let mut i: usize = 0;
    assert(s@.skip(0) =~= s@);
    while i < s.len() && s[i] == '/'
        invariant
            i <= s@.len(),
            char_prefix_len(s@, '/') == i + char_prefix_len(s@.skip(i as int), '/'),
        decreases s@.len() - i,
    {
        assert(s@.skip(i as int).drop_first() =~= s@.skip(i + 1));
        i += 1;
    }
    let mut r: Vec<char> = Vec::new();
    let mut k = i;
    while k < s.len()
        invariant
            i <= k <= s@.len(),
            r@ == s@.subrange(i as int, k as int),
        decreases s@.len() - k,
    {
        r.push(s[k]);
        k += 1;
        assert(r@ =~= s@.subrange(i as int, k as int));
    }
    assert(s@.skip(i as int).len() == 0 || s@.skip(i as int)[0] != '/');
    assert(r@ =~= s@.skip(i as int));
    r
}

fn registry_host_of(prefix: &str, reg: &str) -> (r: Option<String>)
    ensures
        opt_text(r) == registry_host_path(prefix@, reg@),
{
    let rc = chars_of(reg);
    let slash = chars_of("/");
    let n = replaced_char(rc.as_slice(), '\\', slash.as_slice());
    let z = chars_of("Z:");
    let c = chars_of("C:");
    let is_z = has_prefix(n.as_slice(), z.as_slice());
    let is_c = has_prefix(n.as_slice(), c.as_slice());
    if !is_z && !is_c {
        return None;
    }
    proof {
        reveal_strlit("Z:");
        reveal_strlit("C:");
    }
    assert(n@.len() >= 2);
    let mut tail: Vec<char> = Vec::new();
    let mut k: usize = 2;
    while k < n.len()
        invariant
            2 <= k <= n@.len(),
            tail@ == n@.subrange(2, k as int),
        decreases n@.len() - k,
    {
        tail.push(n[k]);
        k += 1;
        assert(tail@ =~= n@.subrange(2, k as int));
    }
    assert(tail@ =~= n@.skip(2));
    let rel = strip_slashes(&tail);
    let p = chars_of(prefix);
    if is_z {
        Some(string_of(join_chars(&p, &rel).as_slice()))
    } else {
        let d = chars_of("drive_c");
        let pd = join_chars(&p, &d);
        Some(string_of(join_chars(&pd, &rel).as_slice()))
    }
}

/// The text an optional string holds.
pub open spec fn opt_text(o: Option<String>) -> Option<Seq<char>> {
    match o {
        Some(s) => Some(s@),
        None => None,
    }
}

/// The places to look for overlay installs under a prefix, given the path
/// the prefix's registry names, if any.
pub fn overlay_candidates(prefix: &str, registry_value: &Option<String>) -> (r: Vec<String>)
    ensures
        r@.map_values(|s: String| s@) == spec_overlay_candidates(prefix@, opt_text(*registry_value)),
{
    let mut r: Vec<String> = Vec::new();
    r.push(join_path(prefix, "drive_c/Program Files (x86)/Epic Games/Launcher/Portal/Extras/Overlay"));
    let eosh = concat("drive_c/Program Files (x86)/Epic Games/Epic Online Services/managedArtifacts/", EOS_OVERLAY_APP_ID);
    r.push(join_path(prefix, eosh.as_str()));
    let ghost base = r@.map_values(|s: String| s@);
    assert(base =~= seq![path_join(prefix@, launcher_overlay_rel()), path_join(prefix@, eosh_overlay_rel())]);
    match registry_value {
        Some(v) => {
            match registry_host_of(prefix, v.as_str()) {
                Some(h) => {
                    r.push(h);
                    assert(r@.map_values(|s: String| s@) =~= base.push(h@));
                },
                None => {},
            }
        },
        None => {},
    }
    r
}

/// The overlay installs under a prefix: of the places looked in, those that
/// `existing` lists, in order, a place repeated right after itself kept once.
pub fn search_overlay_installs(prefix: Option<&str>, registry_value: &Option<String>, existing: &Vec<String>) -> (r: Vec<String>)
    ensures
        r@.map_values(|s: String| s@) == spec_search_overlay(
            match prefix {
                Some(p) => Some(p@),
                None => None,
            },
            opt_text(*registry_value),
            existing@.map_values(|s: String| s@),
        ),
{
    let p = match prefix {
        Some(p) => p,
        None => {
            return Vec::new();
        },
    };
    let cands = overlay_candidates(p, registry_value);
    let ghost cs = cands@.map_values(|s: String| s@);
    let ghost ex = existing@.map_values(|s: String| s@);
    let mut out: Vec<String> = Vec::new();
    let mut last: Option<Vec<char>> = None;
    let mut i: usize = 0;
    assert(cs.take(0).filter(is_listed(ex)) =~= seq![]);
    while i < cands.len()
        invariant
            i <= cands@.len(),
            cs == cands@.map_values(|s: String| s@),
            ex == existing@.map_values(|s: String| s@),
            out@.map_values(|s: String| s@) == dedup_adjacent(cs.take(i as int).filter(is_listed(ex))),
            match last {
                Some(l) => {
                    let f = cs.take(i as int).filter(is_listed(ex));
                    f.len() > 0 && l@ == f.last()
                },
                None => cs.take(i as int).filter(is_listed(ex)).len() == 0,
            },
        decreases cands@.len() - i,
    {
        let ghost f0 = cs.take(i as int).filter(is_listed(ex));
        assert(cs.take(i + 1).drop_last() =~= cs.take(i as int));
        let c = chars_of(cands[i].as_str());
        let found = listed(existing, &c);
        if found {
            let same = match &last {
                Some(l) => crate::order::chars_equal(l.as_slice(), c.as_slice()),
                None => false,
            };
            let ghost f1 = f0.push(c@);
            assert(cs.take(i + 1).filter(is_listed(ex)) =~= f1) by {
                reveal(Seq::filter);
            }
            assert(f1.drop_last() =~= f0);
            if !same {
                let ghost before = out@.map_values(|s: String| s@);
                out.push(cands[i].clone());
                assert(out@.map_values(|s: String| s@) =~= before.push(c@));
            }
            last = Some(c);
        } else {
            assert(cs.take(i + 1).filter(is_listed(ex)) =~= f0) by {
                reveal(Seq::filter);
            }
        }
        i += 1;
    }
    assert(cs.take(cands@.len() as int) =~= cs);
    out
}

/// The install path of the first installed title that is the overlay.
pub open spec fn overlay_install(games: Seq<InstalledGame>) -> Option<Seq<char>>
    decreases games.len(),
{
    if games.len() == 0 {
        None
    } else if games[0].app_name@ == EOS_OVERLAY_APP_ID@ {
        Some(games[0].install_path@)
    } else {
        overlay_install(games.drop_first())
    }
}

/// The overlay page's status: installed when a title of the installed ones
/// is the overlay, at that title's path.
pub fn overlay_status(games: &Vec<InstalledGame>, registry_path: Option<String>, available_paths: Vec<String>) -> (r: EosOverlayStatus)
    ensures
        r.installed == overlay_install(games@) is Some,
        opt_text(r.install_path) == overlay_install(games@),
        opt_text(r.registry_path) == opt_text(registry_path),
        r.available_paths@ == available_paths@,
{
    let mut i: usize = 0;
    assert(games@.skip(0) =~= games@);
    while i < games.len()
        invariant
            i <= games@.len(),
            overlay_install(games@) == overlay_install(games@.skip(i as int)),
        decreases games@.len() - i,
    {
        assert(games@.skip(i as int).drop_first() =~= games@.skip(i + 1));
        if crate::text::str_equal(games[i].app_name.as_str(), EOS_OVERLAY_APP_ID) {
            return EosOverlayStatus {
                installed: true,
                install_path: Some(games[i].install_path.clone()),
                registry_path,
                available_paths,
            };
        }
        i += 1;
    }
    EosOverlayStatus { installed: false, install_path: None, registry_path, available_paths }
}

/// Whether `existing` lists the path `c`.
fn listed(existing: &Vec<String>, c: &Vec<char>) -> (r: bool)
    ensures
        r == existing@.map_values(|s: String| s@).contains(c@),
{
    let ghost ex = existing@.map_values(|s: String| s@);
    let mut i: usize = 0;
    while i < existing.len()
        invariant
            i <= existing@.len(),
            ex == existing@.map_values(|s: String| s@),
            forall|j: int| 0 <= j < i ==> ex[j] != c@,
        decreases existing@.len() - i,
    {
        let e = chars_of(existing[i].as_str());
        if crate::order::chars_equal(e.as_slice(), c.as_slice()) {
            assert(ex[i as int] == c@);
            return true;
        }
        i += 1;
    }
    false
}

/// Removing the overlay path a second time changes nothing.
pub proof fn law_remove_idempotent(lines: Seq<Seq<char>>)
    ensures
        spec_remove_registry(spec_remove_registry(lines)) == spec_remove_registry(lines),
{
    lemma_remove_from_idempotent(lines, false);
}

proof fn lemma_remove_from_idempotent(lines: Seq<Seq<char>>, s: bool)
    ensures
        remove_from(remove_from(lines, s), s) == remove_from(lines, s),
    decreases lines.len(),
{
    if lines.len() > 0 {
        let t = trim(lines[0]);
        let rest = lines.drop_first();
        if is_target_header(t) {
            lemma_remove_from_idempotent(rest, true);
            let r = seq![lines[0]] + remove_from(rest, true);
            assert(r.drop_first() =~= remove_from(rest, true));
            assert(r[0] == lines[0]);
        } else if is_header(t) {
            lemma_remove_from_idempotent(rest, false);
            let r = seq![lines[0]] + remove_from(rest, false);
            assert(r.drop_first() =~= remove_from(rest, false));
            assert(r[0] == lines[0]);
        } else if s && is_value_line(t) {
            lemma_remove_from_idempotent(rest, true);
        } else {
            lemma_remove_from_idempotent(rest, s);
            let r = seq![lines[0]] + remove_from(rest, s);
            assert(r.drop_first() =~= remove_from(rest, s));
            assert(r[0] == lines[0]);
        }
    }
}


/// Whether the lines after a line are in the overlay's section, given
/// whether the line itself is: a header of that section opens it, any other
/// header closes it.
pub open spec fn section_step(l: Seq<char>, in_section: bool) -> bool {
    if is_target_header(trim(l)) {
        true
    } else if is_header(trim(l)) {
        false
    } else {
        in_section
    }
}

/// Whether the line after `lines` is in the overlay's section.
pub open spec fn section_after(lines: Seq<Seq<char>>, in_section: bool) -> bool
    decreases lines.len(),
{
    if lines.len() == 0 {
        in_section
    } else {
        section_after(lines.drop_first(), section_step(lines[0], in_section))
    }
}

/// A line that removal drops: an overlay path value line inside the
/// overlay's section.
pub open spec fn dropped_line(l: Seq<char>, in_section: bool) -> bool {
    !is_header(trim(l)) && in_section && is_value_line(trim(l))
}

/// The lines, each kept unless it is an overlay path value line inside the
/// overlay's section, in their order.
pub open spec fn kept_lines(lines: Seq<Seq<char>>) -> Seq<Seq<char>>
    decreases lines.len(),
{
    if lines.len() == 0 {
        seq![]
    } else {
        let init = lines.drop_last();
        let l = lines.last();
        if dropped_line(l, section_after(init, false)) {
            kept_lines(init)
        } else {
            kept_lines(init).push(l)
        }
    }
}

proof fn lemma_remove_from_split(a: Seq<Seq<char>>, b: Seq<Seq<char>>, s: bool)
    ensures
        remove_from(a + b, s) == remove_from(a, s) + remove_from(b, section_after(a, s)),
    decreases a.len(),
{
    if a.len() == 0 {
        assert(a + b =~= b);
        assert(remove_from(a, s) =~= seq![]);
        assert(seq![] + remove_from(b, s) =~= remove_from(b, s));
    } else {
        let ab = a + b;
        assert(ab[0] == a[0]);
        assert(ab.drop_first() =~= a.drop_first() + b);
        let n = section_step(a[0], s);
        lemma_remove_from_split(a.drop_first(), b, n);
        let t = trim(a[0]);
        if is_target_header(t) {
            assert(remove_from(ab, s) =~= seq![a[0]] + remove_from(ab.drop_first(), true));
        } else if is_header(t) {
            assert(remove_from(ab, s) =~= seq![a[0]] + remove_from(ab.drop_first(), false));
        } else if s && is_value_line(t) {
        } else {
            assert(remove_from(ab, s) =~= seq![a[0]] + remove_from(ab.drop_first(), s));
        }
        assert(remove_from(ab, s) =~= remove_from(a, s) + remove_from(b, section_after(a, s)));
    }
}

proof fn lemma_remove_from_one(l: Seq<char>, s: bool)
    ensures
        remove_from(seq![l], s) == (if dropped_line(l, s) { seq![] } else { seq![l] }),
{
    let one = seq![l];
    assert(one.drop_first() =~= Seq::<Seq<char>>::empty());
    assert(remove_from(Seq::<Seq<char>>::empty(), true) =~= seq![]);
    assert(remove_from(Seq::<Seq<char>>::empty(), false) =~= seq![]);
    assert(seq![l] + Seq::<Seq<char>>::empty() =~= seq![l]);
}

/// Removing the overlay path keeps every line but the overlay path value
/// lines inside the overlay's section, in their order.
pub proof fn law_remove_is_filter(lines: Seq<Seq<char>>)
    ensures
        spec_remove_registry(lines) == kept_lines(lines),
    decreases lines.len(),
{
    if lines.len() == 0 {
        assert(remove_from(lines, false) =~= seq![]);
    } else {
        let init = lines.drop_last();
        let l = lines.last();
        law_remove_is_filter(init);
        assert(lines =~= init + seq![l]);
        lemma_remove_from_split(init, seq![l], false);
        lemma_remove_from_one(l, section_after(init, false));
        if dropped_line(l, section_after(init, false)) {
            assert(kept_lines(init) + Seq::<Seq<char>>::empty() =~= kept_lines(init));
        } else {
            assert(kept_lines(init) + seq![l] =~= kept_lines(init).push(l));
        }
    }
}

/// Once the overlay path is removed, the registry names no overlay path.
pub proof fn law_query_after_remove(lines: Seq<Seq<char>>)
    ensures
        spec_query_registry(spec_remove_registry(lines)) is None,
{
    lemma_query_remove_from(lines, false);
}

proof fn lemma_query_remove_from(lines: Seq<Seq<char>>, s: bool)
    ensures
        query_from(remove_from(lines, s), s) is None,
    decreases lines.len(),
{
    if lines.len() > 0 {
        let t = trim(lines[0]);
        let rest = lines.drop_first();
        if is_target_header(t) {
            lemma_query_remove_from(rest, true);
            let r = seq![lines[0]] + remove_from(rest, true);
            assert(r.drop_first() =~= remove_from(rest, true));
        } else if is_header(t) {
            lemma_query_remove_from(rest, false);
            let r = seq![lines[0]] + remove_from(rest, false);
            assert(r.drop_first() =~= remove_from(rest, false));
        } else if s && is_value_line(t) {
            lemma_query_remove_from(rest, true);
        } else {
            lemma_query_remove_from(rest, s);
            let r = seq![lines[0]] + remove_from(rest, s);
            assert(r.drop_first() =~= remove_from(rest, s));
        }
    }
}

/// Where `c` is at `i` and not before it, `i` is its first position.
proof fn lemma_first_index_at(s: Seq<char>, c: char, i: int)
    requires
        0 <= i < s.len(),
        s[i] == c,
        forall|j: int| 0 <= j < i ==> s[j] != c,
    ensures
        first_index(s, c) == Some(i as nat),
{
    lemma_first_index(s, c);
}

/// The facts about the overlay's value line that reading it back needs.
proof fn lemma_overlay_line(wp: Seq<char>)
    requires
        wp.len() >= 1,
        wp[0] == 'Z' || wp[0] == 'C',
        forall|i: int| 0 <= i < wp.len() ==> wp[i] != '=',
        wp.last() != '"',
    ensures
        trim(overlay_line(wp)) == overlay_line(wp),
        is_value_line(overlay_line(wp)),
        !is_header(overlay_line(wp)),
        value_of(overlay_line(wp)) == Some(wp),
{
    reveal_strlit("OverlayPath");
    let ol = overlay_line(wp);
    let vp = value_prefix();
    assert(vp.len() == 13);
    assert(ol[0] == '"');
    assert(ol.last() == '"');
    assert(ws_prefix_len(ol) == 0);
    assert(ol.skip(0) =~= ol);
    assert(ws_suffix_len(ol) == 0);
    assert(ol.take(ol.len() as int) =~= ol);
    assert(trim(ol) == ol);
    assert(ol.take(13) =~= vp);
    assert forall|j: int| 0 <= j < 13 implies ol[j] != '=' by {
        assert(ol[j] == vp[j]);
    }
    assert(ol[13] == '=');
    lemma_first_index_at(ol, '=', 13);
    let rest = ol.skip(14);
    assert(rest =~= seq!['"'] + wp + seq!['"']);
    assert forall|j: int| 0 <= j < rest.len() implies rest[j] != '=' by {
        if 1 <= j < rest.len() - 1 {
            assert(rest[j] == wp[j - 1]);
        }
    }
    lemma_first_index(rest, '=');
    assert(first_index(rest, '=') is None);
    assert(second_field(ol, '=') == Some(rest));
    assert(ws_prefix_len(rest) == 0);
    assert(rest.skip(0) =~= rest);
    assert(ws_suffix_len(rest) == 0);
    assert(rest.take(rest.len() as int) =~= rest);
    assert(trim(rest) == rest);
    assert(rest.drop_first()[0] == wp[0]);
    assert(char_prefix_len(rest.drop_first(), '"') == 0);
    assert(char_prefix_len(rest, '"') == 1);
    let t = rest.skip(1);
    assert(t =~= wp + seq!['"']);
    assert(t.drop_last() =~= wp);
    assert(char_suffix_len(wp, '"') == 0);
    assert(char_suffix_len(t, '"') == 1);
    assert(t.take(t.len() - 1) =~= wp);
}

/// Once the value line is placed, it stays placed.
proof fn lemma_placed_stays(lines: Seq<Seq<char>>, ol: Seq<char>, found: bool, in_t: bool)
    ensures
        add_pass(lines, ol, found, true, in_t).2,
    decreases lines.len(),
{
    if lines.len() > 0 {
        let t = trim(lines[0]);
        let rest = lines.drop_first();
        lemma_placed_stays(rest, ol, true, true);
        lemma_placed_stays(rest, ol, found, false);
        lemma_placed_stays(rest, ol, found, in_t);
    }
}

/// Inside the overlay's section, before the value line is placed: the pass
/// either places it, and the value line is then what a scan finds, or it
/// crosses no line that a scan in the section stops at or leaves it by.
proof fn lemma_pass_in_section(lines: Seq<Seq<char>>, wp: Seq<char>, x: Seq<Seq<char>>)
    requires
        trim(overlay_line(wp)) == overlay_line(wp),
        is_value_line(overlay_line(wp)),
        !is_header(overlay_line(wp)),
        value_of(overlay_line(wp)) == Some(wp),
    ensures
        ({
            let r = add_pass(lines, overlay_line(wp), true, false, true);
            &&& r.1
            &&& r.2 ==> query_from(r.0 + x, true) == Some(wp)
            &&& !r.2 ==> query_from(r.0 + x, true) == query_from(x, true)
        }),
    decreases lines.len(),
{
    let ol = overlay_line(wp);
    if lines.len() == 0 {
        assert(seq![] + x =~= x);
    } else {
        let t = trim(lines[0]);
        let rest = lines.drop_first();
        if is_target_header(t) {
            lemma_pass_in_section(rest, wp, x);
            let r2 = add_pass(rest, ol, true, false, true);
            assert((seq![lines[0]] + r2.0 + x).drop_first() =~= r2.0 + x);
            assert((seq![lines[0]] + r2.0 + x)[0] == lines[0]);
        } else if is_header(t) {
            lemma_placed_stays(rest, ol, true, false);
            lemma_found_stays(rest, ol, true, false);
            let r2 = add_pass(rest, ol, true, true, false);
            assert((seq![ol] + seq![lines[0]] + r2.0 + x)[0] == ol);
        } else if is_value_line(t) {
            lemma_placed_stays(rest, ol, true, true);
            lemma_found_stays(rest, ol, true, true);
            let r2 = add_pass(rest, ol, true, true, true);
            assert((seq![ol] + r2.0 + x)[0] == ol);
        } else {
            lemma_pass_in_section(rest, wp, x);
            let r2 = add_pass(rest, ol, true, false, true);
            assert((seq![lines[0]] + r2.0 + x).drop_first() =~= r2.0 + x);
            assert((seq![lines[0]] + r2.0 + x)[0] == lines[0]);
        }
    }
}

/// How `spec_add_registry` ends, given the pass's result.
pub open spec fn finish_add(r: (Seq<Seq<char>>, bool, bool), ol: Seq<char>) -> Seq<Seq<char>> {
    let (out, found, placed) = r;
    if placed {
        out
    } else if found {
        match first_target_line(out) {
            Some(pos) => out.insert(pos as int + 1, ol),
            None => out,
        }
    } else {
        out + seq![seq![], seq!['['] + wine_key() + seq![']'], ol]
    }
}

/// A line that holds the key holds it after trimming too, the key starting and
/// ending with a character that is not whitespace; and the other way round.
proof fn lemma_contains_trim(l: Seq<char>, k: Seq<char>)
    requires
        k.len() > 0,
        !is_ws(k[0]),
        !is_ws(k.last()),
    ensures
        contains_seq(l, k) <==> contains_seq(trim(l), k),
{
    lemma_ws_prefix_len(l);
    let a = ws_prefix_len(l) as int;
    let t = l.skip(a);
    lemma_ws_suffix_len(t);
    let b = a + t.len() - ws_suffix_len(t);
    assert(trim(l) =~= l.subrange(a, b));
    if contains_seq(l, k) {
        let i = choose|i: int| #[trigger] occurs_at(l, k, i);
        assert(l[i] == k[0]);
        assert(l[i + k.len() - 1] == k.last());
        if i < a {
            assert(is_ws(l[i]));
        }
        if i + k.len() > b {
            assert(t[i + k.len() - 1 - a] == l[i + k.len() - 1]);
        }
        assert(trim(l).subrange(i - a, i - a + k.len()) =~= k);
        assert(occurs_at(trim(l), k, i - a));
    }
    if contains_seq(trim(l), k) {
        let j = choose|j: int| #[trigger] occurs_at(trim(l), k, j);
        assert(l.subrange(a + j, a + j + k.len()) =~= k);
        assert(occurs_at(l, k, a + j));
    }
}

proof fn lemma_wine_key_ends()
    ensures
        wine_key().len() > 0,
        !is_ws(wine_key()[0]),
        !is_ws(wine_key().last()),
{
    reveal_strlit("SOFTWARE\\Epic Games\\EOS");
    reveal_strlit("\\\\");
    let s = EOS_OVERLAY_KEY@;
    assert(s.len() == 23);
    lemma_replace_char_shape(s, '\\', "\\\\"@);
    assert(s.last() == 'S');
    assert(s[0] == 'S');
    assert(replace_char(s, '\\', "\\\\"@).last() == 'S');
}

/// Replacing keeps a first and a last character that is not the one replaced.
proof fn lemma_replace_char_shape(s: Seq<char>, c: char, rep: Seq<char>)
    requires
        s.len() > 0,
        s[0] != c,
        s.last() != c,
    ensures
        replace_char(s, c, rep).len() > 0,
        replace_char(s, c, rep)[0] == s[0],
        replace_char(s, c, rep).last() == s.last(),
{
    lemma_replace_char_first(s, c, rep);
    let d = s.drop_last();
    assert(replace_char(s, c, rep) == replace_char(d, c, rep) + seq![s.last()]);
}

proof fn lemma_replace_char_first(s: Seq<char>, c: char, rep: Seq<char>)
    requires
        s.len() > 0,
        s[0] != c,
    ensures
        replace_char(s, c, rep).len() > 0,
        replace_char(s, c, rep)[0] == s[0],
    decreases s.len(),
{
    let d = s.drop_last();
    let tail = if s.last() == c { rep } else { seq![s.last()] };
    assert(replace_char(s, c, rep) == replace_char(d, c, rep) + tail);
    if s.len() == 1 {
        assert(replace_char(d, c, rep) =~= seq![]);
        assert(s.last() == s[0]);
        assert(replace_char(s, c, rep) =~= seq![s[0]]);
    } else {
        lemma_replace_char_first(d, c, rep);
        assert(d[0] == s[0]);
    }
}

/// Once the section is seen, it stays seen.
proof fn lemma_found_stays(lines: Seq<Seq<char>>, ol: Seq<char>, placed: bool, in_t: bool)
    ensures
        add_pass(lines, ol, true, placed, in_t).1,
    decreases lines.len(),
{
    if lines.len() > 0 {
        let rest = lines.drop_first();
        lemma_found_stays(rest, ol, placed, true);
        lemma_found_stays(rest, ol, true, false);
        lemma_found_stays(rest, ol, true, in_t);
        lemma_found_stays(rest, ol, placed, false);
        lemma_found_stays(rest, ol, placed, in_t);
    }
}

/// A line that does not open the overlay's section is passed over by a scan
/// outside the section.
proof fn lemma_query_skip(l: Seq<char>, r: Seq<Seq<char>>)
    requires
        !is_target_header(trim(l)),
    ensures
        query_from(seq![l] + r, false) == query_from(r, false),
{
    assert((seq![l] + r).drop_first() =~= r);
    assert((seq![l] + r)[0] == l);
}

proof fn lemma_insert_cons(l: Seq<char>, r: Seq<Seq<char>>, p: int, x: Seq<char>)
    requires
        0 <= p <= r.len(),
    ensures
        (seq![l] + r).insert(p + 1, x) == seq![l] + r.insert(p, x),
{
    assert((seq![l] + r).insert(p + 1, x) =~= seq![l] + r.insert(p, x));
}

/// A line that starts and ends with a character that is not whitespace is its
/// own trimmed form.
proof fn lemma_trim_noop(s: Seq<char>)
    requires
        s.len() > 0,
        !is_ws(s[0]),
        !is_ws(s.last()),
    ensures
        trim(s) == s,
{
    assert(ws_prefix_len(s) == 0);
    assert(s.skip(0) =~= s);
    assert(ws_suffix_len(s) == 0);
    assert(s.take(s.len() as int) =~= s);
}

/// The header of the overlay's section, as a new section writes it.
proof fn lemma_new_header()
    ensures
        trim(seq!['['] + wine_key() + seq![']']) == seq!['['] + wine_key() + seq![']'],
        is_target_header(seq!['['] + wine_key() + seq![']']),
{
    lemma_wine_key_ends();
    let h = seq!['['] + wine_key() + seq![']'];
    assert(h[0] == '[');
    assert(h.last() == ']');
    lemma_trim_noop(h);
    assert(h.subrange(1, 1 + wine_key().len() as int) =~= wine_key());
    assert(occurs_at(h, wine_key(), 1));
}

/// The appended section, read back, gives the path.
proof fn lemma_query_new_section(wp: Seq<char>)
    requires
        trim(overlay_line(wp)) == overlay_line(wp),
        is_value_line(overlay_line(wp)),
        !is_header(overlay_line(wp)),
        value_of(overlay_line(wp)) == Some(wp),
    ensures
        query_from(seq![seq![], seq!['['] + wine_key() + seq![']'], overlay_line(wp)], false) == Some(wp),
{
    let ol = overlay_line(wp);
    let h = seq!['['] + wine_key() + seq![']'];
    lemma_new_header();
    let e: Seq<char> = seq![];
    assert(trim(e) =~= e);
    let tail = seq![e, h, ol];
    assert(tail.drop_first() =~= seq![h, ol]);
    assert(seq![h, ol].drop_first() =~= seq![ol]);
    assert(query_from(seq![ol], true) == Some(wp));
    assert(query_from(seq![h, ol], false) == Some(wp));
}

/// The line that opens the overlay's section lies among the lines.
proof fn lemma_first_target_bound(lines: Seq<Seq<char>>)
    ensures
        first_target_line(lines) matches Some(p) ==> p < lines.len(),
    decreases lines.len(),
{
    if lines.len() > 0 {
        lemma_first_target_bound(lines.drop_first());
    }
}

/// Before the overlay's section: setting the path and then reading it back
/// gives the path as Wine sees it.
#[verifier::rlimit(40)]
proof fn lemma_pass_before_section(lines: Seq<Seq<char>>, wp: Seq<char>)
    requires
        trim(overlay_line(wp)) == overlay_line(wp),
        is_value_line(overlay_line(wp)),
        !is_header(overlay_line(wp)),
        value_of(overlay_line(wp)) == Some(wp),
    ensures
        query_from(finish_add(add_pass(lines, overlay_line(wp), false, false, false), overlay_line(wp)), false)
            == Some(wp),
    decreases lines.len(),
{
    let ol = overlay_line(wp);
    lemma_wine_key_ends();
    if lines.len() == 0 {
        let tail = seq![seq![], seq!['['] + wine_key() + seq![']'], ol];
        assert(seq![] + tail =~= tail);
        lemma_query_new_section(wp);
    } else {
        let t = trim(lines[0]);
        let rest = lines.drop_first();
        if is_target_header(t) {
            lemma_pass_in_section(rest, wp, seq![]);
            let r2 = add_pass(rest, ol, true, false, true);
            let out = seq![lines[0]] + r2.0;
            assert(r2.0 + seq![] =~= r2.0);
            assert(out.drop_first() =~= r2.0);
            assert(out[0] == lines[0]);
            assert(add_pass(lines, ol, false, false, false) == (out, r2.1, r2.2));
            if !r2.2 {
                lemma_contains_trim(lines[0], wine_key());
                assert(first_target_line(out) == Some(0nat));
                let ins = out.insert(1, ol);
                assert(ins.drop_first() =~= seq![ol] + r2.0);
                assert(ins[0] == lines[0]);
                assert((seq![ol] + r2.0)[0] == ol);
                assert(query_from(seq![ol] + r2.0, true) == Some(wp));
                assert(query_from(ins, false) == Some(wp));
                assert(finish_add((out, r2.1, r2.2), ol) == ins);
            } else {
                assert(query_from(out, false) == query_from(r2.0, true));
            }
        } else {
            lemma_pass_before_section(rest, wp);
            let r2 = add_pass(rest, ol, false, false, false);
            let out = seq![lines[0]] + r2.0;
            assert(add_pass(lines, ol, false, false, false) == (out, r2.1, r2.2));
            lemma_contains_trim(lines[0], wine_key());
            if r2.2 {
                lemma_query_skip(lines[0], r2.0);
            } else if r2.1 {
                assert(out.drop_first() =~= r2.0);
                match first_target_line(r2.0) {
                    Some(pos) => {
                        lemma_first_target_bound(r2.0);
                        assert(first_target_line(out) == Some((pos + 1) as nat));
                        lemma_insert_cons(lines[0], r2.0, pos as int + 1, ol);
                        lemma_query_skip(lines[0], r2.0.insert(pos as int + 1, ol));
                    },
                    None => {
                        assert(first_target_line(out) is None);
                        lemma_query_skip(lines[0], r2.0);
                    },
                }
            } else {
                let tail = seq![seq![], seq!['['] + wine_key() + seq![']'], ol];
                assert(out + tail =~= seq![lines[0]] + (r2.0 + tail));
                lemma_query_skip(lines[0], r2.0 + tail);
            }
        }
    }
}

/// Setting the overlay path and reading it back gives the path as Wine sees
/// it, for a path without `=` that does not end with a quote.
pub proof fn law_query_after_add(lines: Seq<Seq<char>>, path: Seq<char>)
    requires
        forall|i: int| 0 <= i < path.len() ==> path[i] != '=',
        path.len() > 0 ==> path.last() != '"',
    ensures
        spec_query_registry(spec_add_registry(lines, path)) == Some(wine_path(path)),
{
    let wp = wine_path(path);
    lemma_wine_path_shape(path);
    lemma_overlay_line(wp);
    lemma_pass_before_section(lines, wp);
    let ol = overlay_line(wp);
    assert(spec_add_registry(lines, path) == finish_add(add_pass(lines, ol, false, false, false), ol));
}

/// What replacing one character by one other keeps: the length, and each
/// position holds the original character or the replacement.
proof fn lemma_replace_one(s: Seq<char>, c: char, d: char)
    ensures
        replace_char(s, c, seq![d]).len() == s.len(),
        forall|i: int| 0 <= i < s.len() ==> #[trigger] replace_char(s, c, seq![d])[i]
            == if s[i] == c { d } else { s[i] },
    decreases s.len(),
{
    if s.len() > 0 {
        lemma_replace_one(s.drop_last(), c, d);
        let r = replace_char(s, c, seq![d]);
        assert forall|i: int| 0 <= i < s.len() implies #[trigger] r[i] == if s[i] == c { d } else { s[i] } by {
            if i < s.len() - 1 {
                assert(s.drop_last()[i] == s[i]);
            }
        }
    }
}

/// The shape of a path as Wine sees it, for a path without `=` that does not
/// end with a quote.
proof fn lemma_wine_path_shape(path: Seq<char>)
    requires
        forall|i: int| 0 <= i < path.len() ==> path[i] != '=',
        path.len() > 0 ==> path.last() != '"',
    ensures
        wine_path(path).len() >= 1,
        wine_path(path)[0] == 'Z' || wine_path(path)[0] == 'C',
        forall|i: int| 0 <= i < wine_path(path).len() ==> wine_path(path)[i] != '=',
        wine_path(path).last() != '"',
{
    reveal_strlit("/");
    reveal_strlit("Z:");
    reveal_strlit("C:");
    assert("/"@ =~= seq!['/']);
    lemma_replace_one(path, '\\', '/');
    let q = replace_char(path, '\\', "/"@);
    assert forall|i: int| 0 <= i < q.len() implies q[i] != '=' && q[i] != '"' || (i < q.len() - 1 && q[i] != '=') by {
        assert(q[i] == if path[i] == '\\' { '/' } else { path[i] });
    }
    if starts_with(q, "Z:"@) || starts_with(q, "C:"@) {
        assert(q[0] == q.take(2)[0]);
        assert(q[q.len() - 1] == if path[q.len() - 1] == '\\' { '/' } else { path[q.len() - 1] });
    } else {
        let w = "Z:"@ + q;
        assert(w[0] == 'Z');
        assert forall|i: int| 0 <= i < w.len() implies w[i] != '=' by {
            if i >= 2 {
                assert(w[i] == q[i - 2]);
            }
        }
        if q.len() > 0 {
            assert(w.last() == q[q.len() - 1]);
            assert(q[q.len() - 1] == if path[q.len() - 1] == '\\' { '/' } else { path[q.len() - 1] });
        }
    }
}

} // verus!
