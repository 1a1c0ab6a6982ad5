//! The record of installed titles: where it lives, how it is kept free of
//! repeats, and how titles found on disk or in the store's own launcher are
//! added to it.

use vstd::prelude::*;
use crate::text::str_equal;
use crate::config::DirEntry;
use crate::eos::opt_text;
use crate::models::{InstalledGame, LibraryItem};
use crate::paths::{path_join, join_path, concat};
use crate::strs::{starts_with, ends_with, has_prefix, has_suffix};
use crate::text::chars_of;

verus! {

/// The launcher's configuration directory under a home directory.
pub open spec fn spec_config_dir(home: Seq<char>, windows: bool) -> Seq<char> {
    if windows {
        path_join(home, "AppData/Local/legendary"@)
    } else {
        path_join(home, ".config/legendary"@)
    }
}

pub fn config_dir_of(home: &str, windows: bool) -> (r: String)
    ensures
        r@ == spec_config_dir(home@, windows),
{
    if windows {
        join_path(home, "AppData/Local/legendary")
    } else {
        join_path(home, ".config/legendary")
    }
}

/// The default Wine prefix, under the configuration directory.
pub fn default_compat_data_path(config_dir: &str) -> (r: String)
    ensures
        r@ == path_join(path_join(config_dir@, "compatdata"@), "default"@),
{
    let c = join_path(config_dir, "compatdata");
    join_path(c.as_str(), "default")
}

/// Whether a title of that name is among the games.
pub open spec fn has_app(games: Seq<InstalledGame>, app: Seq<char>) -> bool {
    exists|i: int| 0 <= i < games.len() && (#[trigger] games[i]).app_name@ == app
}

fn has_app_exec(games: &Vec<InstalledGame>, app: &str) -> (r: bool)
    ensures
        r == has_app(games@, app@),
{
    let mut i: usize = 0;
    while i < games.len()
        invariant
            i <= games@.len(),
            forall|j: int| 0 <= j < i ==> (#[trigger] games@[j]).app_name@ != app@,
        decreases games@.len() - i,
    {
        if str_equal(games[i].app_name.as_str(), app) {
            return true;
        }
        i += 1;
    }
    false
}

/// The games with, for each name, only its last entry, in order: what
/// storing them in a map keyed by name keeps.
pub open spec fn keep_last(games: Seq<InstalledGame>) -> Seq<InstalledGame>
    decreases games.len(),
{
    if games.len() == 0 {
        seq![]
    } else {
        let rest = games.drop_first();
        if has_app(rest, games[0].app_name@) {
            keep_last(rest)
        } else {
            seq![games[0]] + keep_last(rest)
        }
    }
}

proof fn lemma_keep_last_unique(games: Seq<InstalledGame>)
    ensures
        forall|a: int, b: int| 0 <= a < b < keep_last(games).len()
            ==> (#[trigger] keep_last(games)[a]).app_name@ != (#[trigger] keep_last(games)[b]).app_name@,
        forall|x: Seq<char>| has_app(keep_last(games), x) <==> has_app(games, x),
    decreases games.len(),
{
    if games.len() > 0 {
        let rest = games.drop_first();
        lemma_keep_last_unique(rest);
        assert forall|x: Seq<char>| has_app(games, x) <==> (games[0].app_name@ == x || has_app(rest, x)) by {
            if has_app(games, x) {
                let i = choose|i: int| 0 <= i < games.len() && (#[trigger] games[i]).app_name@ == x;
                if i > 0 {
                    assert(rest[i - 1] == games[i]);
                }
            }
            if has_app(rest, x) {
                let i = choose|i: int| 0 <= i < rest.len() && (#[trigger] rest[i]).app_name@ == x;
                assert(games[i + 1] == rest[i]);
            }
            if games[0].app_name@ == x {
                assert(games[0].app_name@ == x);
            }
        }
        if !has_app(rest, games[0].app_name@) {
            let k = keep_last(games);
            let kr = keep_last(rest);
            assert(k == seq![games[0]] + kr);
            assert forall|x: Seq<char>| has_app(k, x) <==> has_app(games, x) by {
                if has_app(k, x) {
                    let i = choose|i: int| 0 <= i < k.len() && (#[trigger] k[i]).app_name@ == x;
                    if i > 0 {
                        assert(kr[i - 1] == k[i]);
                    }
                }
                if has_app(kr, x) {
                    let i = choose|i: int| 0 <= i < kr.len() && (#[trigger] kr[i]).app_name@ == x;
                    assert(k[i + 1] == kr[i]);
                }
                if games[0].app_name@ == x {
                    assert(k[0] == games[0]);
                }
            }
            assert forall|a: int, b: int| 0 <= a < b < k.len()
                implies (#[trigger] k[a]).app_name@ != (#[trigger] k[b]).app_name@ by {
                if a == 0 {
                    assert(k[b] == kr[b - 1]);
                    if k[a].app_name@ == k[b].app_name@ {
                        assert(has_app(kr, games[0].app_name@));
                    }
                } else {
                    assert(k[a] == kr[a - 1]);
                    assert(k[b] == kr[b - 1]);
                }
            }
        }
    }
}

/// Placeholder swapped into a slot whose game has been moved out.
fn blank_game() -> (r: InstalledGame)
    ensures
        r.app_name@.len() == 0,
        r.install_path@.len() == 0,
        r.title@.len() == 0,
        r.version@.len() == 0,
        r.executable@.len() == 0,
        r.install_size == 0,
        r.download_size == 0,
        r.platform@.len() == 0,
        r.manifest_path is None,
{
    InstalledGame {
        app_name: String::new(),
        install_path: String::new(),
        title: String::new(),
        version: String::new(),
        executable: String::new(),
        install_size: 0,
        download_size: 0,
        platform: String::new(),
        manifest_path: None,
    }
}

/// The installed games as they are stored: one entry per title, the last one
/// given for each. No two entries share a title, and every title given is
/// kept.
pub fn unique_installed(games: Vec<InstalledGame>) -> (r: Vec<InstalledGame>)
    ensures
        r@ == keep_last(games@),
        forall|a: int, b: int| 0 <= a < b < r@.len() ==> (#[trigger] r@[a]).app_name@ != (#[trigger] r@[b]).app_name@,
        forall|x: Seq<char>| has_app(r@, x) <==> has_app(games@, x),
{
    let ghost orig = games@;
    let mut games = games;
    let n = games.len();
    let mut out: Vec<InstalledGame> = Vec::new();
    let mut i: usize = 0;
    assert(orig.skip(0) =~= orig);
    while i < n
        invariant
            n == orig.len(),
            games@.len() == n,
            i <= n,
            forall|k: int| i <= k < n ==> games@[k] == orig[k],
            out@ + keep_last(orig.skip(i as int)) == keep_last(orig),
        decreases n - i,
    {
        let ghost rest = orig.skip(i as int);
        assert(rest.drop_first() =~= orig.skip(i + 1));
        assert(rest[0] == orig[i as int]);
        let mut later = false;
        let mut j = i + 1;
        while j < n
            invariant
                i < n,
                n == orig.len(),
                games@.len() == n,
                forall|k: int| i <= k < n ==> games@[k] == orig[k],
                i + 1 <= j <= n,
                later == exists|k: int| i + 1 <= k < j && (#[trigger] orig[k]).app_name@ == orig[i as int].app_name@,
            decreases n - j,
        {
            assert(games@[j as int] == orig[j as int]);
            assert(games@[i as int] == orig[i as int]);
            if str_equal(games[j].app_name.as_str(), games[i].app_name.as_str()) {
                later = true;
            }
            j += 1;
        }
        proof {
            let r1 = orig.skip(i + 1);
            if later {
                let k = choose|k: int| i + 1 <= k < n && (#[trigger] orig[k]).app_name@ == orig[i as int].app_name@;
                assert(r1[k - i - 1] == orig[k]);
            }
            if has_app(r1, orig[i as int].app_name@) {
                let k = choose|k: int| 0 <= k < r1.len() && (#[trigger] r1[k]).app_name@ == orig[i as int].app_name@;
                assert(r1[k] == orig[k + i + 1]);
            }
        }
        if !later {
            let mut g = blank_game();
            std::mem::swap(&mut g, &mut games[i]);
            let ghost before = out@;
            out.push(g);
            assert(out@ + keep_last(orig.skip(i + 1)) =~= before + keep_last(orig.skip(i as int)));
        }
        i += 1;
    }
    assert(orig.skip(n as int) =~= seq![]);
    assert(out@ + seq![] =~= out@);
    proof {
        lemma_keep_last_unique(orig);
    }
    out
}

/// The games without those of title `app`.
pub open spec fn without_app(games: Seq<InstalledGame>, app: Seq<char>) -> Seq<InstalledGame>
    decreases games.len(),
{
    if games.len() == 0 {
        seq![]
    } else {
        let r = without_app(games.drop_last(), app);
        if games.last().app_name@ == app {
            r
        } else {
            r.push(games.last())
        }
    }
}

/// The installed games once title `app` is uninstalled.
pub fn remove_installed(games: Vec<InstalledGame>, app: &str) -> (r: Vec<InstalledGame>)
    ensures
        r@ == without_app(games@, app@),
{
    let ghost orig = games@;
    let mut games = games;
    let n = games.len();
    let mut out: Vec<InstalledGame> = Vec::new();
    let mut i: usize = 0;
    while i < n
        invariant
            n == orig.len(),
            games@.len() == n,
            i <= n,
            forall|k: int| i <= k < n ==> games@[k] == orig[k],
            out@ == without_app(orig.take(i as int), app@),
        decreases n - i,
    {
        assert(orig.take(i + 1).drop_last() =~= orig.take(i as int));
        assert(orig.take(i + 1).last() == orig[i as int]);
        if !str_equal(games[i].app_name.as_str(), app) {
            let mut g = blank_game();
            std::mem::swap(&mut g, &mut games[i]);
            out.push(g);
        }
        i += 1;
    }
    assert(orig.take(n as int) =~= orig);
    out
}

/// An install found in the store's own launcher: the fields of its `.item`
/// file, each empty where missing or not text.
#[derive(Debug, Clone, PartialEq, Eq)]
pub struct EglEntry {
    pub app_name: String,
    pub install_location: String,
    pub display_name: String,
    pub app_version: String,
    pub launch_executable: String,
}

/// Whether an entry is taken: it names a title not yet installed, and an
/// install location that exists.
pub open spec fn egl_taken(games: Seq<InstalledGame>, e: EglEntry, exists: bool) -> bool {
    e.app_name@.len() > 0 && !has_app(games, e.app_name@) && e.install_location@.len() > 0 && exists
}

/// The record of a taken entry: sizes to be measured, for Windows, no
/// manifest.
pub open spec fn egl_game_ok(g: InstalledGame, e: EglEntry) -> bool {
    &&& g.app_name@ == e.app_name@
    &&& g.install_path@ == e.install_location@
    &&& g.title@ == e.display_name@
    &&& g.version@ == e.app_version@
    &&& g.executable@ == e.launch_executable@
    &&& g.install_size == 0
    &&& g.download_size == 0
    &&& g.platform@ == "Windows"@
    &&& g.manifest_path is None
}

/// The titles added by a scan of the store launcher's entries, in order:
/// each entry is judged against the games installed before it, those it
/// added included.
pub open spec fn egl_added(games: Seq<InstalledGame>, entries: Seq<EglEntry>, exists: Seq<bool>, out: Seq<InstalledGame>) -> bool
    decreases entries.len(),
{
    if entries.len() == 0 {
        out == games
    } else {
        let e = entries[0];
        if egl_taken(games, e, exists[0]) {
            out.len() > games.len() && egl_game_ok(out[games.len() as int], e)
                && out.take(games.len() as int) == games
                && egl_added(out.take(games.len() as int + 1), entries.drop_first(), exists.drop_first(), out)
        } else {
            egl_added(games, entries.drop_first(), exists.drop_first(), out)
        }
    }
}

fn egl_game(e: &EglEntry) -> (g: InstalledGame)
    ensures
        egl_game_ok(g, *e),
{
    InstalledGame {
        app_name: e.app_name.clone(),
        install_path: e.install_location.clone(),
        title: e.display_name.clone(),
        version: e.app_version.clone(),
        executable: e.launch_executable.clone(),
        install_size: 0,
        download_size: 0,
        platform: crate::models::default_platform(),
        manifest_path: None,
    }
}

/// Adds the titles installed by the store's own launcher; `exists` tells
/// for each entry whether its install location exists. Also whether any was
/// added.
pub fn scan_egl_entries(games: Vec<InstalledGame>, entries: &Vec<EglEntry>, exists: &Vec<bool>) -> (r: (Vec<InstalledGame>, bool))
    requires
        exists@.len() == entries@.len(),
    ensures
        egl_added(games@, entries@, exists@, r.0@),
        r.1 == (r.0@.len() > games@.len()),
{
    let ghost orig = games@;
    let start_len = games.len();
    let mut out = games;
    let mut i: usize = 0;
    assert(entries@.skip(0) =~= entries@);
    assert(exists@.skip(0) =~= exists@);
    assert(out@.take(orig.len() as int) =~= orig);
    while i < entries.len()
        invariant
            i <= entries@.len(),
            exists@.len() == entries@.len(),
            orig.len() <= out@.len(),
            start_len == orig.len(),
            out@.take(orig.len() as int) == orig,
            forall|final_out: Seq<InstalledGame>|
                #![trigger egl_added(out@, entries@.skip(i as int), exists@.skip(i as int), final_out)]
                final_out.take(out@.len() as int) == out@ && out@.len() <= final_out.len()
                && egl_added(out@, entries@.skip(i as int), exists@.skip(i as int), final_out)
                ==> egl_added(orig, entries@, exists@, final_out),
        decreases entries@.len() - i,
    {
        let e = &entries[i];
        let ghost before = out@;
        assert(entries@.skip(i as int)[0] == *e);
        assert(exists@.skip(i as int)[0] == exists@[i as int]);
        assert(entries@.skip(i as int).drop_first() =~= entries@.skip(i + 1));
        assert(exists@.skip(i as int).drop_first() =~= exists@.skip(i + 1));
        let taken = !e.app_name.as_str().is_empty() && !has_app_exec(&out, e.app_name.as_str())
            && !e.install_location.as_str().is_empty() && exists[i];
        if taken {
            let g = egl_game(e);
            out.push(g);
            assert(out@.take(before.len() as int) =~= before);
            assert(out@.take(orig.len() as int) =~= orig);
            assert forall|final_out: Seq<InstalledGame>|
                #![trigger egl_added(out@, entries@.skip(i + 1), exists@.skip(i + 1), final_out)]
                final_out.take(out@.len() as int) == out@ && out@.len() <= final_out.len()
                && egl_added(out@, entries@.skip(i + 1), exists@.skip(i + 1), final_out)
                implies egl_added(orig, entries@, exists@, final_out) by {
                assert(final_out.take(before.len() as int) =~= before);
                assert(final_out[before.len() as int] == out@[before.len() as int]);
                assert(final_out.take(before.len() as int + 1) =~= out@);
                assert(egl_added(before, entries@.skip(i as int), exists@.skip(i as int), final_out));
            }
        } else {
            assert forall|final_out: Seq<InstalledGame>|
                #![trigger egl_added(out@, entries@.skip(i + 1), exists@.skip(i + 1), final_out)]
                final_out.take(out@.len() as int) == out@ && out@.len() <= final_out.len()
                && egl_added(out@, entries@.skip(i + 1), exists@.skip(i + 1), final_out)
                implies egl_added(orig, entries@, exists@, final_out) by {
                assert(egl_added(before, entries@.skip(i as int), exists@.skip(i as int), final_out));
            }
        }
        i += 1;
    }
    assert(entries@.skip(entries@.len() as int) =~= seq![]);
    assert(exists@.skip(entries@.len() as int) =~= seq![]);
    assert(out@.take(out@.len() as int) =~= out@);
    assert(egl_added(out@, entries@.skip(i as int), exists@.skip(i as int), out@));
    let changed = out.len() > start_len;
    (out, changed)
}

/// An entry that a scan takes where its title is not yet installed.
pub open spec fn egl_eligible(e: EglEntry, exists: bool) -> bool {
    e.app_name@.len() > 0 && e.install_location@.len() > 0 && exists
}

proof fn lemma_has_app_prefix(g: Seq<InstalledGame>, out: Seq<InstalledGame>, a: Seq<char>)
    requires
        g.len() <= out.len(),
        out.take(g.len() as int) == g,
        has_app(g, a),
    ensures
        has_app(out, a),
{
    let i = choose|i: int| 0 <= i < g.len() && (#[trigger] g[i]).app_name@ == a;
    assert(out.take(g.len() as int)[i] == out[i]);
}

/// What a scan leaves: the games it started from, followed by more, with
/// the title of every eligible entry installed.
proof fn lemma_egl_added_covers(games: Seq<InstalledGame>, entries: Seq<EglEntry>, exists: Seq<bool>, out: Seq<InstalledGame>)
    requires
        exists.len() == entries.len(),
        egl_added(games, entries, exists, out),
    ensures
        games.len() <= out.len(),
        out.take(games.len() as int) == games,
        forall|k: int| 0 <= k < entries.len() && egl_eligible(#[trigger] entries[k], exists[k])
            ==> has_app(out, entries[k].app_name@),
    decreases entries.len(),
{
    if entries.len() == 0 {
        assert(out.take(games.len() as int) =~= games);
    } else {
        let e = entries[0];
        if egl_taken(games, e, exists[0]) {
            let g1 = out.take(games.len() as int + 1);
            lemma_egl_added_covers(g1, entries.drop_first(), exists.drop_first(), out);
            assert(out[games.len() as int].app_name@ == e.app_name@);
            assert(has_app(out, e.app_name@));
            assert forall|k: int| 0 <= k < entries.len() && egl_eligible(#[trigger] entries[k], exists[k])
                implies has_app(out, entries[k].app_name@) by {
                if k > 0 {
                    assert(entries.drop_first()[k - 1] == entries[k]);
                    assert(exists.drop_first()[k - 1] == exists[k]);
                }
            }
        } else {
            lemma_egl_added_covers(games, entries.drop_first(), exists.drop_first(), out);
            assert forall|k: int| 0 <= k < entries.len() && egl_eligible(#[trigger] entries[k], exists[k])
                implies has_app(out, entries[k].app_name@) by {
                if k > 0 {
                    assert(entries.drop_first()[k - 1] == entries[k]);
                    assert(exists.drop_first()[k - 1] == exists[k]);
                } else {
                    lemma_has_app_prefix(games, out, e.app_name@);
                }
            }
        }
    }
}

/// A scan over entries whose eligible titles are all installed adds nothing.
proof fn lemma_egl_added_settled(games: Seq<InstalledGame>, entries: Seq<EglEntry>, exists: Seq<bool>, out: Seq<InstalledGame>)
    requires
        exists.len() == entries.len(),
        forall|k: int| 0 <= k < entries.len() && egl_eligible(#[trigger] entries[k], exists[k])
            ==> has_app(games, entries[k].app_name@),
        egl_added(games, entries, exists, out),
    ensures
        out == games,
    decreases entries.len(),
{
    if entries.len() > 0 {
        assert(egl_eligible(entries[0], exists[0]) ==> has_app(games, entries[0].app_name@));
        assert forall|k: int| 0 <= k < entries.drop_first().len()
            && egl_eligible(#[trigger] entries.drop_first()[k], exists.drop_first()[k])
            implies has_app(games, entries.drop_first()[k].app_name@) by {
            assert(entries.drop_first()[k] == entries[k + 1]);
            assert(exists.drop_first()[k] == exists[k + 1]);
        }
        lemma_egl_added_settled(games, entries.drop_first(), exists.drop_first(), out);
    }
}

/// Importing the store launcher's titles settles at once: scanning the same
/// entries again, over what the first scan left, adds nothing.
pub proof fn law_egl_scan_settles(
    games: Seq<InstalledGame>,
    entries: Seq<EglEntry>,
    exists: Seq<bool>,
    once: Seq<InstalledGame>,
    twice: Seq<InstalledGame>,
)
    requires
        exists.len() == entries.len(),
        egl_added(games, entries, exists, once),
        egl_added(once, entries, exists, twice),
    ensures
        twice == once,
{
    lemma_egl_added_covers(games, entries, exists, once);
    lemma_egl_added_settled(once, entries, exists, twice);
}

/// Whether a folder found on disk is a library title: named as the title,
/// or as the title's `FolderName` attribute.
pub open spec fn folder_matches(folder: Seq<char>, app_name: Seq<char>, folder_attr: Option<Seq<char>>) -> bool {
    folder == app_name || folder_attr == Some(folder)
}

/// The library titles a folder is imported as, by position: those it
/// matches, not installed, and not already taken by an earlier title of the
/// same name in this folder.
pub open spec fn spec_folder_imports(
    installed: Seq<InstalledGame>,
    library: Seq<LibraryItem>,
    folder_attrs: Seq<Option<Seq<char>>>,
    folder: Seq<char>,
) -> Seq<usize>
    decreases library.len(),
{
    if library.len() == 0 {
        seq![]
    } else {
        let n = (library.len() - 1) as int;
        let r = spec_folder_imports(installed, library.drop_last(), folder_attrs.take(n), folder);
        let item = library[n];
        let taken_here = exists|k: int| 0 <= k < r.len() && (#[trigger] library[r[k] as int]).app_name@ == item.app_name@;
        if !has_app(installed, item.app_name@) && !taken_here && folder_matches(folder, item.app_name@, folder_attrs[n]) {
            r.push(n as usize)
        } else {
            r
        }
    }
}

pub open spec fn opt_texts(v: Seq<Option<String>>) -> Seq<Option<Seq<char>>> {
    v.map_values(|o: Option<String>| opt_text(o))
}

proof fn lemma_folder_imports_in_range(
    installed: Seq<InstalledGame>,
    library: Seq<LibraryItem>,
    folder_attrs: Seq<Option<Seq<char>>>,
    folder: Seq<char>,
)
    requires
        library.len() <= usize::MAX,
    ensures
        forall|k: int| 0 <= k < spec_folder_imports(installed, library, folder_attrs, folder).len()
            ==> #[trigger] spec_folder_imports(installed, library, folder_attrs, folder)[k] < library.len(),
    decreases library.len(),
{
    if library.len() > 0 {
        let n = (library.len() - 1) as int;
        let r = spec_folder_imports(installed, library, folder_attrs, folder);
        let r0 = spec_folder_imports(installed, library.drop_last(), folder_attrs.take(n), folder);
        lemma_folder_imports_in_range(installed, library.drop_last(), folder_attrs.take(n), folder);
        assert(r == r0 || r == r0.push(n as usize));
        assert forall|k: int| 0 <= k < r.len() implies #[trigger] r[k] < library.len() by {
            if k < r0.len() {
                assert(r[k] == r0[k]);
            }
        }
    }
}

/// Every title that matches the folder and is not installed is imported,
/// itself or an earlier title of the same name.
proof fn lemma_folder_imports_cover(
    installed: Seq<InstalledGame>,
    library: Seq<LibraryItem>,
    folder_attrs: Seq<Option<Seq<char>>>,
    folder: Seq<char>,
    m: int,
)
    requires
        folder_attrs.len() == library.len(),
        library.len() <= usize::MAX,
        0 <= m < library.len(),
        folder_matches(folder, library[m].app_name@, folder_attrs[m]),
        !has_app(installed, library[m].app_name@),
    ensures
        exists|k: int| 0 <= k < spec_folder_imports(installed, library, folder_attrs, folder).len()
            && (#[trigger] library[spec_folder_imports(installed, library, folder_attrs, folder)[k] as int]).app_name@
                == library[m].app_name@,
    decreases library.len(),
{
    let r = spec_folder_imports(installed, library, folder_attrs, folder);
    let n = (library.len() - 1) as int;
    let lib0 = library.drop_last();
    let fa0 = folder_attrs.take(n);
    let r0 = spec_folder_imports(installed, lib0, fa0, folder);
    lemma_folder_imports_in_range(installed, lib0, fa0, folder);
    if m < n {
        assert(lib0[m] == library[m]);
        assert(fa0[m] == folder_attrs[m]);
        lemma_folder_imports_cover(installed, lib0, fa0, folder, m);
        let k = choose|k: int| 0 <= k < r0.len() && (#[trigger] lib0[r0[k] as int]).app_name@ == lib0[m].app_name@;
        assert(r0[k] < lib0.len());
        assert(lib0[r0[k] as int] == library[r0[k] as int]);
        assert(r[k] == r0[k]);
        assert(library[r[k] as int].app_name@ == library[m].app_name@);
    } else {
        let item = library[n];
        let taken_here = exists|k: int| 0 <= k < r0.len() && (#[trigger] library[r0[k] as int]).app_name@ == item.app_name@;
        if taken_here {
            let k = choose|k: int| 0 <= k < r0.len() && (#[trigger] library[r0[k] as int]).app_name@ == item.app_name@;
            assert(r[k] == r0[k]);
            assert(library[r[k] as int].app_name@ == library[m].app_name@);
        } else {
            assert(r == r0.push(n as usize));
            assert(r[r0.len() as int] == n as usize);
            assert(library[r[r0.len() as int] as int].app_name@ == library[m].app_name@);
        }
    }
}

/// A folder none of whose matching titles is missing from the installed
/// ones is imported as nothing.
proof fn lemma_folder_imports_none(
    installed: Seq<InstalledGame>,
    library: Seq<LibraryItem>,
    folder_attrs: Seq<Option<Seq<char>>>,
    folder: Seq<char>,
)
    requires
        folder_attrs.len() == library.len(),
        forall|m: int| 0 <= m < library.len() && folder_matches(folder, (#[trigger] library[m]).app_name@, folder_attrs[m])
            ==> has_app(installed, library[m].app_name@),
    ensures
        spec_folder_imports(installed, library, folder_attrs, folder).len() == 0,
    decreases library.len(),
{
    if library.len() > 0 {
        let n = (library.len() - 1) as int;
        let lib0 = library.drop_last();
        let fa0 = folder_attrs.take(n);
        assert forall|m: int| 0 <= m < lib0.len() && folder_matches(folder, (#[trigger] lib0[m]).app_name@, fa0[m])
            implies has_app(installed, lib0[m].app_name@) by {
            assert(lib0[m] == library[m]);
            assert(fa0[m] == folder_attrs[m]);
        }
        lemma_folder_imports_none(installed, lib0, fa0, folder);
        assert(folder_matches(folder, library[n].app_name@, folder_attrs[n]) ==> has_app(installed, library[n].app_name@));
    }
}

/// Importing a folder settles at once: once a game is recorded for each
/// title the folder was imported as, the same folder is imported as nothing.
pub proof fn law_folder_import_settles(
    installed: Seq<InstalledGame>,
    library: Seq<LibraryItem>,
    folder_attrs: Seq<Option<Seq<char>>>,
    folder: Seq<char>,
    added: Seq<InstalledGame>,
)
    requires
        folder_attrs.len() == library.len(),
        library.len() <= usize::MAX,
        added.len() == spec_folder_imports(installed, library, folder_attrs, folder).len(),
        forall|k: int| 0 <= k < added.len() ==> (#[trigger] added[k]).app_name@
            == library[spec_folder_imports(installed, library, folder_attrs, folder)[k] as int].app_name@,
    ensures
        spec_folder_imports(installed + added, library, folder_attrs, folder).len() == 0,
{
    let r = spec_folder_imports(installed, library, folder_attrs, folder);
    let after = installed + added;
    assert forall|m: int| 0 <= m < library.len() && folder_matches(folder, (#[trigger] library[m]).app_name@, folder_attrs[m])
        implies has_app(after, library[m].app_name@) by {
        if has_app(installed, library[m].app_name@) {
            assert(after.take(installed.len() as int) =~= installed);
            lemma_has_app_prefix(installed, after, library[m].app_name@);
        } else {
            lemma_folder_imports_cover(installed, library, folder_attrs, folder, m);
            let k = choose|k: int| 0 <= k < r.len() && (#[trigger] library[r[k] as int]).app_name@ == library[m].app_name@;
            assert(added[k].app_name@ == library[m].app_name@);
            assert(after[installed.len() + k] == added[k]);
        }
    }
    lemma_folder_imports_none(after, library, folder_attrs, folder);
}

/// The library titles a folder found on disk is imported as;
/// `folder_attrs[i]` is the `FolderName` attribute of title `i`, if known.
pub fn folder_imports(installed: &Vec<InstalledGame>, library: &Vec<LibraryItem>, folder_attrs: &Vec<Option<String>>, folder: &str) -> (r: Vec<usize>)
    requires
        folder_attrs@.len() == library@.len(),
    ensures
        r@ == spec_folder_imports(installed@, library@, opt_texts(folder_attrs@), folder@),
{
    let ghost fa = opt_texts(folder_attrs@);
    let mut out: Vec<usize> = Vec::new();
    let mut i: usize = 0;
    while i < library.len()
        invariant
            i <= library@.len(),
            folder_attrs@.len() == library@.len(),
            fa == opt_texts(folder_attrs@),
            out@ == spec_folder_imports(installed@, library@.take(i as int), fa.take(i as int), folder@),
            forall|k: int| 0 <= k < out@.len() ==> out@[k] < i,
        decreases library@.len() - i,
    {
        let ghost lt = library@.take(i + 1);
        assert(lt.drop_last() =~= library@.take(i as int));
        assert(fa.take(i + 1).take(i as int) =~= fa.take(i as int));
        assert(lt[i as int] == library@[i as int]);
        assert(fa.take(i + 1)[i as int] == opt_text(folder_attrs@[i as int]));
        let item = &library[i];
        let mut taken = false;
        let mut k: usize = 0;
        while k < out.len()
            invariant
                k <= out@.len(),
                i < library@.len(),
                forall|q: int| 0 <= q < out@.len() ==> out@[q] < i,
                taken == exists|q: int| 0 <= q < k && (#[trigger] library@[out@[q] as int]).app_name@ == library@[i as int].app_name@,
            decreases out@.len() - k,
        {
            let same = str_equal(library[out[k]].app_name.as_str(), library[i].app_name.as_str());
            assert((library@[out@[k as int] as int].app_name@ == library@[i as int].app_name@) == same);
            if same {
                taken = true;
            }
            k += 1;
        }
        proof {
            assert forall|q: int| 0 <= q < out@.len() implies lt[out@[q] as int] == library@[out@[q] as int] by {}
            if taken {
                let q = choose|q: int| 0 <= q < out@.len() && (#[trigger] library@[out@[q] as int]).app_name@ == library@[i as int].app_name@;
                assert(lt[out@[q] as int] == library@[out@[q] as int]);
            }
            if exists|q: int| 0 <= q < out@.len() && (#[trigger] lt[out@[q] as int]).app_name@ == lt[i as int].app_name@ {
                let q = choose|q: int| 0 <= q < out@.len() && (#[trigger] lt[out@[q] as int]).app_name@ == lt[i as int].app_name@;
                assert(lt[out@[q] as int] == library@[out@[q] as int]);
            }
        }
        let matches = str_equal(folder, item.app_name.as_str()) || match &folder_attrs[i] {
            Some(a) => str_equal(a.as_str(), folder),
            None => false,
        };
        if !has_app_exec(installed, item.app_name.as_str()) && !taken && matches {
            out.push(i);
        }
        i += 1;
    }
    assert(library@.take(library@.len() as int) =~= library@);
    assert(fa.take(library@.len() as int) =~= fa);
    out
}

/// The record of a title imported from a folder: the title from its
/// metadata or its app name, the executable and version from its manifest
/// where one was read (else none and `0.0.0`), for Windows.
pub fn imported_game(
    item: &LibraryItem,
    folder_path: &str,
    title: Option<String>,
    manifest_exe_version: Option<(String, String)>,
    manifest_path: Option<String>,
    install_size: u64,
) -> (g: InstalledGame)
    ensures
        g.app_name@ == item.app_name@,
        g.install_path@ == folder_path@,
        g.title@ == match title {
            Some(t) => t@,
            None => item.app_name@,
        },
        g.executable@ == match manifest_exe_version {
            Some(m) => m.0@,
            None => seq![],
        },
        g.version@ == match manifest_exe_version {
            Some(m) => m.1@,
            None => "0.0.0"@,
        },
        g.install_size == install_size,
        g.download_size == 0,
        g.platform@ == "Windows"@,
        opt_text(g.manifest_path) == opt_text(manifest_path),
{
    let t = match title {
        Some(t) => t,
        None => item.app_name.clone(),
    };
    let (exe, version) = match manifest_exe_version {
        Some(m) => m,
        None => (String::new(), String::from_str("0.0.0")),
    };
    InstalledGame {
        app_name: item.app_name.clone(),
        install_path: String::from_str(folder_path),
        title: t,
        version,
        executable: exe,
        install_size,
        download_size: 0,
        platform: crate::models::default_platform(),
        manifest_path,
    }
}

/// A saved manifest that stands for a title: a `.manifest` file whose name
/// starts with the app name or the catalog item id.
pub open spec fn is_title_manifest(name: Seq<char>, app_name: Seq<char>, catalog_item_id: Seq<char>) -> bool {
    ends_with(name, ".manifest"@) && (starts_with(name, app_name) || starts_with(name, catalog_item_id))
}

/// The first listed file that is a saved manifest of the title.
pub open spec fn first_title_manifest(entries: Seq<DirEntry>, app_name: Seq<char>, catalog_item_id: Seq<char>) -> Option<Seq<char>>
    decreases entries.len(),
{
    if entries.len() == 0 {
        None
    } else if entries[0].is_file && is_title_manifest(entries[0].name@, app_name, catalog_item_id) {
        Some(entries[0].path@)
    } else {
        first_title_manifest(entries.drop_first(), app_name, catalog_item_id)
    }
}

/// Where a title's saved manifest is: `<app>.manifest`, else
/// `<catalog item>.manifest`, where they exist; else the first listed file
/// of the manifests directory that stands for the title.
pub open spec fn spec_manifest_path(
    dir: Seq<char>,
    app_name: Seq<char>,
    catalog_item_id: Seq<char>,
    by_app_exists: bool,
    by_catalog_exists: bool,
    entries: Seq<DirEntry>,
) -> Option<Seq<char>> {
    if by_app_exists {
        Some(path_join(dir, app_name + ".manifest"@))
    } else if by_catalog_exists {
        Some(path_join(dir, catalog_item_id + ".manifest"@))
    } else {
        first_title_manifest(entries, app_name, catalog_item_id)
    }
}

/// The two names a title's manifest is first looked for under.
pub fn manifest_candidates(dir: &str, app_name: &str, catalog_item_id: &str) -> (r: (String, String))
    ensures
        r.0@ == path_join(dir@, app_name@ + ".manifest"@),
        r.1@ == path_join(dir@, catalog_item_id@ + ".manifest"@),
{
    let a = concat(app_name, ".manifest");
    let c = concat(catalog_item_id, ".manifest");
    (join_path(dir, a.as_str()), join_path(dir, c.as_str()))
}

/// Chooses the title's manifest, given which of the two names exist and the
/// listing of the manifests directory.
pub fn choose_manifest_path(
    dir: &str,
    app_name: &str,
    catalog_item_id: &str,
    by_app_exists: bool,
    by_catalog_exists: bool,
    entries: &Vec<DirEntry>,
) -> (r: Option<String>)
    ensures
        opt_text(r) == spec_manifest_path(dir@, app_name@, catalog_item_id@, by_app_exists, by_catalog_exists, entries@),
{
    let (a, c) = manifest_candidates(dir, app_name, catalog_item_id);
    if by_app_exists {
        return Some(a);
    }
    if by_catalog_exists {
        return Some(c);
    }
    let suffix = chars_of(".manifest");
    let ac = chars_of(app_name);
    let cc = chars_of(catalog_item_id);
    let mut i: usize = 0;
    assert(entries@.skip(0) =~= entries@);
    while i < entries.len()
        invariant
            i <= entries@.len(),
            suffix@ == ".manifest"@,
            !by_app_exists,
            !by_catalog_exists,
            ac@ == app_name@,
            cc@ == catalog_item_id@,
            first_title_manifest(entries@, app_name@, catalog_item_id@)
                == first_title_manifest(entries@.skip(i as int), app_name@, catalog_item_id@),
        decreases entries@.len() - i,
    {
        assert(entries@.skip(i as int).drop_first() =~= entries@.skip(i + 1));
        assert(entries@.skip(i as int)[0] == entries@[i as int]);
        let e = &entries[i];
        let name = chars_of(e.name.as_str());
        if e.is_file && has_suffix(name.as_slice(), suffix.as_slice())
            && (has_prefix(name.as_slice(), ac.as_slice()) || has_prefix(name.as_slice(), cc.as_slice())) {
            return Some(e.path.clone());
        }
        i += 1;
    }
    None
}

} // verus!
