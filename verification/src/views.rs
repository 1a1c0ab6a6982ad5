//! What the launcher's pages decide: the title shown for a library entry and
//! whether a search shows it, which manifest files a search shows, how local
//! and cloud saves compare, and which titles changed install state.

use vstd::prelude::*;
use crate::text::str_equal;
use crate::eos::opt_text;
use crate::library::has_app;
use crate::models::{Asset, InstalledGame, KeyImage, LibraryItem, CustomAttribute, spec_custom_attribute, custom_attribute};
use crate::fmt::{dec_of, push_dec};
use crate::launch::attrs_view;
use crate::strs::{contains_seq, has_infix};
use crate::tasks::spec_duration_text;
use crate::text::{chars_of, lowercase, push_chars, string_of, to_lowercase};

verus! {

/// The title shown for a library entry: the one of its saved metadata, else
/// the one of the store's metadata, else its app name.
pub open spec fn spec_display_title(item: LibraryItem, local_title: Option<Seq<char>>) -> Seq<char> {
    match local_title {
        Some(t) => t,
        None => match item.title {
            Some(t) => t@,
            None => item.app_name@,
        },
    }
}

pub fn display_title(item: &LibraryItem, local_title: Option<String>) -> (r: String)
    ensures
        r@ == spec_display_title(*item, opt_text(local_title)),
{
    match local_title {
        Some(t) => t,
        None => match &item.title {
            Some(t) => t.clone(),
            None => item.app_name.clone(),
        },
    }
}

/// Whether `text` contains `query`, both lower-cased.
pub open spec fn matches_query(text: Seq<char>, query: Seq<char>) -> bool {
    contains_seq(lowercase(text), lowercase(query))
}

fn matches_query_exec(text: &str, query: &str) -> (r: bool)
    ensures
        r == matches_query(text@, query@),
{
    let t = chars_of(to_lowercase(text).as_str());
    let q = chars_of(to_lowercase(query).as_str());
    has_infix(t.as_slice(), q.as_slice())
}

/// A library entry is listed for a search when the search is empty, or its
/// title or app name contains it, case aside.
pub open spec fn spec_listed(title: Seq<char>, app_name: Seq<char>, query: Seq<char>) -> bool {
    query.len() == 0 || matches_query(title, query) || matches_query(app_name, query)
}

pub fn listed_for_search(title: &str, app_name: &str, query: &str) -> (r: bool)
    ensures
        r == spec_listed(title@, app_name@, query@),
{
    query.is_empty() || matches_query_exec(title, query) || matches_query_exec(app_name, query)
}

/// A manifest file is shown for a search when the lower-cased search is
/// empty or the lower-cased file name contains it.
pub open spec fn spec_file_shown(file: Seq<char>, query: Seq<char>) -> bool {
    lowercase(query).len() == 0 || contains_seq(lowercase(file), lowercase(query))
}

/// The manifest files a search shows, in order.
pub open spec fn spec_files_shown(files: Seq<Seq<char>>, query: Seq<char>) -> Seq<Seq<char>>
    decreases files.len(),
{
    if files.len() == 0 {
        seq![]
    } else {
        let r = spec_files_shown(files.drop_last(), query);
        if spec_file_shown(files.last(), query) {
            r.push(files.last())
        } else {
            r
        }
    }
}

pub fn files_shown(files: &Vec<String>, query: &str) -> (r: Vec<String>)
    ensures
        r@.map_values(|s: String| s@) == spec_files_shown(files@.map_values(|s: String| s@), query@),
{
    let ghost fs = files@.map_values(|s: String| s@);
    let q = chars_of(to_lowercase(query).as_str());
    let mut out: Vec<String> = Vec::new();
    let mut i: usize = 0;
    assert(fs.take(0) =~= seq![]);
    while i < files.len()
        invariant
            i <= files@.len(),
            fs == files@.map_values(|s: String| s@),
            q@ == lowercase(query@),
            out@.map_values(|s: String| s@) == spec_files_shown(fs.take(i as int), query@),
        decreases files@.len() - i,
    {
        assert(fs.take(i + 1).drop_last() =~= fs.take(i as int));
        assert(fs.take(i + 1).last() == files@[i as int]@);
        let f = chars_of(to_lowercase(files[i].as_str()).as_str());
        if q.len() == 0 || has_infix(f.as_slice(), q.as_slice()) {
            let ghost before = out@.map_values(|s: String| s@);
            out.push(files[i].clone());
            assert(out@.map_values(|s: String| s@) =~= before.push(files@[i as int]@));
        }
        i += 1;
    }
    assert(fs.take(files@.len() as int) =~= fs);
    out
}

/// The signed difference of two instants in nanoseconds.
pub open spec fn nanos_between(a: (i64, u32), b: (i64, u32)) -> int {
    (a.0 - b.0) * 1_000_000_000 + (a.1 - b.1)
}

/// How the save page compares the newest local save with the newest cloud
/// save.
#[derive(Debug, Clone, PartialEq, Eq)]
pub enum SaveComparison {
    /// Less than two whole seconds apart.
    Synchronized,
    /// The local save is newer, by the given text.
    LocalNewer(String),
    /// The cloud save is newer, by the given text.
    CloudNewer(String),
}

/// The comparison: in step below two seconds apart; otherwise the newer side,
/// by the whole seconds between them.
pub open spec fn spec_compare_saves(local: (i64, u32), remote: (i64, u32)) -> (int, Seq<char>) {
    let d = nanos_between(local, remote);
    let ad = if d < 0 { -d } else { d };
    if ad < 2_000_000_000 {
        (0, seq![])
    } else if d > 0 {
        (1, spec_duration_text((ad / 1_000_000_000) as nat))
    } else {
        (2, spec_duration_text((ad / 1_000_000_000) as nat))
    }
}

pub open spec fn comparison_view(c: SaveComparison) -> (int, Seq<char>) {
    match c {
        SaveComparison::Synchronized => (0, seq![]),
        SaveComparison::LocalNewer(t) => (1, t@),
        SaveComparison::CloudNewer(t) => (2, t@),
    }
}

/// Instants as a date and time of `chrono` can hold them: seconds within
/// 2^61 of the epoch.
pub open spec fn datetime_range(a: (i64, u32)) -> bool {
    -0x2000_0000_0000_0000 < a.0 < 0x2000_0000_0000_0000
}

pub fn compare_saves(local: (i64, u32), remote: (i64, u32)) -> (r: SaveComparison)
    requires
        datetime_range(local),
        datetime_range(remote),
    ensures
        comparison_view(r) == spec_compare_saves(local, remote),
{
    let d: i128 = (local.0 as i128 - remote.0 as i128) * 1_000_000_000 + (local.1 as i128 - remote.1 as i128);
    let ad: i128 = if d < 0 { -d } else { d };
    if ad < 2_000_000_000 {
        SaveComparison::Synchronized
    } else {
        let secs = ad / 1_000_000_000;
        let ghost x: int = local.0 - remote.0;
        let ghost y: int = local.1 - remote.1;
        assert(-0x4000_0000_0000_0000 < x < 0x4000_0000_0000_0000);
        assert(-0x1_0000_0000 < y < 0x1_0000_0000);
        assert(ad < 0x8000_0000_0000_0000 * 1_000_000_000) by (nonlinear_arith)
            requires
                -0x4000_0000_0000_0000 < x < 0x4000_0000_0000_0000,
                -0x1_0000_0000 < y < 0x1_0000_0000,
                d == x * 1_000_000_000 + y,
                ad == (if d < 0 { -d } else { d as int }),
        {}
        assert(secs < 0x8000_0000_0000_0000) by (nonlinear_arith)
            requires
                secs == ad / 1_000_000_000,
                0 <= ad < 0x8000_0000_0000_0000 * 1_000_000_000,
        {}
        let text = crate::tasks::format_duration(secs as i64);
        if d > 0 {
            SaveComparison::LocalNewer(text)
        } else {
            SaveComparison::CloudNewer(text)
        }
    }
}

/// Whether saves can be uploaded: a save path is set for the game, or the
/// game's detail page found one.
pub fn can_upload(configured_save_path: &Option<String>, found_for: &Option<String>, found_save_path: &Option<String>, app_name: &str) -> (r: bool)
    ensures
        r == (configured_save_path is Some || (found_for matches Some(a) && a@ == app_name@ && found_save_path is Some)),
{
    if configured_save_path.is_some() {
        return true;
    }
    match found_for {
        Some(a) => str_equal(a.as_str(), app_name) && found_save_path.is_some(),
        None => false,
    }
}

/// The library entries whose install state differs between two lists of
/// installed titles, by position.
pub open spec fn spec_install_changes(library: Seq<LibraryItem>, before: Seq<InstalledGame>, after: Seq<InstalledGame>) -> Seq<usize>
    decreases library.len(),
{
    if library.len() == 0 {
        seq![]
    } else {
        let n = (library.len() - 1) as int;
        let r = spec_install_changes(library.drop_last(), before, after);
        let a = library[n].app_name@;
        if has_app(before, a) != has_app(after, a) {
            r.push(n as usize)
        } else {
            r
        }
    }
}

fn installed_has(games: &Vec<InstalledGame>, app: &str) -> (r: bool)
    ensures
        r == has_app(games@, app@),
{
    let mut i: usize = 0;
    while i < games.len()
        invariant
            i <= games@.len(),
            forall|j: int| 0 <= j < i ==> (#[trigger] games@[j]).app_name@ != app@,
        decreases games@.len() - i,
    {
        if str_equal(games[i].app_name.as_str(), app) {
            return true;
        }
        i += 1;
    }
    false
}

pub fn install_changes(library: &Vec<LibraryItem>, before: &Vec<InstalledGame>, after: &Vec<InstalledGame>) -> (r: Vec<usize>)
    ensures
        r@ == spec_install_changes(library@, before@, after@),
{
    let mut out: Vec<usize> = Vec::new();
    let mut i: usize = 0;
    while i < library.len()
        invariant
            i <= library@.len(),
            out@ == spec_install_changes(library@.take(i as int), before@, after@),
        decreases library@.len() - i,
    {
        assert(library@.take(i + 1).drop_last() =~= library@.take(i as int));
        assert(library@.take(i + 1)[i as int] == library@[i as int]);
        let a = library[i].app_name.as_str();
        if installed_has(before, a) != installed_has(after, a) {
            out.push(i);
        }
        i += 1;
    }
    assert(library@.take(library@.len() as int) =~= library@);
    out
}

/// A title that needs activation on Ubisoft Connect: its partner link type,
/// lower-cased, is `ubisoft`.
pub fn is_ubisoft_title(partner_link_type: &Option<String>) -> (r: bool)
    ensures
        r == (partner_link_type matches Some(p) && lowercase(p@) == "ubisoft"@),
{
    match partner_link_type {
        Some(p) => {
            let l = to_lowercase(p.as_str());
            str_equal(l.as_str(), "ubisoft")
        },
        None => false,
    }
}

/// A title managed by EA: its `ThirdPartyManagedApp` attribute, lower-cased,
/// mentions Origin or the EA app.
pub open spec fn spec_is_ea(attrs: Option<Seq<(String, CustomAttribute)>>) -> bool {
    match spec_custom_attribute(attrs, "ThirdPartyManagedApp"@) {
        Some(v) => contains_seq(lowercase(v), "origin"@) || contains_seq(lowercase(v), "ea app"@),
        None => false,
    }
}

pub fn is_ea_title(attrs: &Option<Vec<(String, CustomAttribute)>>) -> (r: bool)
    ensures
        r == spec_is_ea(attrs_view(*attrs)),
{
    match custom_attribute(attrs, "ThirdPartyManagedApp") {
        Some(v) => {
            let l = chars_of(to_lowercase(v.as_str()).as_str());
            let o = chars_of("origin");
            let e = chars_of("ea app");
            has_infix(l.as_slice(), o.as_slice()) || has_infix(l.as_slice(), e.as_slice())
        },
        None => false,
    }
}


/// The first asset listed for a title, by position.
pub open spec fn first_asset_for(assets: Seq<Asset>, app_name: Seq<char>) -> Option<int>
    decreases assets.len(),
{
    if assets.len() == 0 {
        None
    } else if assets[0].app_name@ == app_name {
        Some(0)
    } else {
        match first_asset_for(assets.drop_first(), app_name) {
            Some(i) => Some(i + 1),
            None => None,
        }
    }
}

proof fn lemma_first_asset_for_range(assets: Seq<Asset>, app_name: Seq<char>)
    ensures
        first_asset_for(assets, app_name) matches Some(i) ==> 0 <= i < assets.len(),
    decreases assets.len(),
{
    if assets.len() > 0 {
        lemma_first_asset_for_range(assets.drop_first(), app_name);
    }
}

/// An installed title has an update: the first asset listed for it carries
/// another build version than the installed one.
pub open spec fn spec_update_available(installed_version: Seq<char>, assets: Seq<Asset>, app_name: Seq<char>) -> bool {
    match first_asset_for(assets, app_name) {
        Some(i) => assets[i].build_version@ != installed_version,
        None => false,
    }
}

pub fn update_available(installed_version: &str, assets: &Vec<Asset>, app_name: &str) -> (r: bool)
    ensures
        r == spec_update_available(installed_version@, assets@, app_name@),
{
    proof {
        lemma_first_asset_for_range(assets@, app_name@);
    }
    let mut i: usize = 0;
    assert(assets@.skip(0) =~= assets@);
    while i < assets.len()
        invariant
            i <= assets@.len(),
            first_asset_for(assets@, app_name@) == match first_asset_for(assets@.skip(i as int), app_name@) {
                Some(j) => Some(j + i),
                None => None,
            },
        decreases assets@.len() - i,
    {
        assert(assets@.skip(i as int)[0] == assets@[i as int]);
        assert(assets@.skip(i as int).drop_first() =~= assets@.skip(i + 1));
        if str_equal(assets[i].app_name.as_str(), app_name) {
            return !str_equal(assets[i].build_version.as_str(), installed_version);
        }
        i += 1;
    }
    false
}

/// The first key image of the given type, by position.
pub open spec fn first_image_of(images: Seq<KeyImage>, kind: Seq<char>) -> Option<int>
    decreases images.len(),
{
    if images.len() == 0 {
        None
    } else if images[0].image_type@ == kind {
        Some(0)
    } else {
        match first_image_of(images.drop_first(), kind) {
            Some(i) => Some(i + 1),
            None => None,
        }
    }
}

/// The cover shown on a title's page: its tall box art, else its second
/// key image, where it has one.
pub open spec fn spec_cover_image(images: Seq<KeyImage>) -> Option<int> {
    match first_image_of(images, "DieselGameBoxTall"@) {
        Some(i) => Some(i),
        None => if images.len() > 1 { Some(1) } else { None },
    }
}

pub fn cover_image(images: &Vec<KeyImage>) -> (r: Option<usize>)
    ensures
        match r {
            Some(i) => spec_cover_image(images@) == Some(i as int),
            None => spec_cover_image(images@) is None,
        },
{
    let mut i: usize = 0;
    assert(images@.skip(0) =~= images@);
    while i < images.len()
        invariant
            i <= images@.len(),
            first_image_of(images@, "DieselGameBoxTall"@) == match first_image_of(images@.skip(i as int), "DieselGameBoxTall"@) {
                Some(j) => Some(j + i),
                None => None,
            },
        decreases images@.len() - i,
    {
        assert(images@.skip(i as int)[0] == images@[i as int]);
        assert(images@.skip(i as int).drop_first() =~= images@.skip(i + 1));
        if str_equal(images[i].image_type.as_str(), "DieselGameBoxTall") {
            return Some(i);
        }
        i += 1;
    }
    if images.len() > 1 {
        Some(1)
    } else {
        None
    }
}

/// The time played, in whole hours and the minutes past them.
pub open spec fn spec_play_time_text(secs: nat) -> Seq<char> {
    dec_of(secs / 3600) + "h "@ + dec_of((secs % 3600) / 60) + "m"@
}

pub fn play_time_text(secs: u64) -> (r: String)
    ensures
        r@ == spec_play_time_text(secs as nat),
{
    let mut v: Vec<char> = Vec::new();
    push_dec(&mut v, secs / 3600);
    let h = chars_of("h ");
    let mut s = string_of(v.as_slice());
    push_chars(&mut s, h.as_slice());
    let mut w: Vec<char> = Vec::new();
    push_dec(&mut w, (secs % 3600) / 60);
    push_chars(&mut s, w.as_slice());
    let m = chars_of("m");
    push_chars(&mut s, m.as_slice());
    s
}

} // verus!
