//! Launching a game: whether it may start, which executable and runner, and
//! the arguments and environment it gets.

use vstd::prelude::*;
use crate::text::str_equal;
use crate::api::instant_after;
use crate::config::{CompatibilityTool, GameSettings, GlobalSettings};
use crate::eos::{EOS_OVERLAY_APP_ID, strip_leading_slashes, opt_text};
use crate::models::{
    CustomAttribute, InstalledGame, spec_custom_attribute, custom_attribute, is_true_flag, is_true_text, attribute_value,
};
use crate::paths::{path_join, join_path, concat};
use crate::strs::{is_ws, is_whitespace, replace_char, replaced_char, char_prefix_len, contains_seq, has_infix};
use crate::text::{chars_of, string_of, lowercase, to_lowercase};

verus! {

/// The attributes as the lookup reads them.
pub open spec fn attrs_view(attrs: Option<Vec<(String, CustomAttribute)>>) -> Option<Seq<(String, CustomAttribute)>> {
    match attrs {
        Some(a) => Some(a@),
        None => None,
    }
}

/// A title runs offline unless its `CanRunOffline` attribute says otherwise.
pub open spec fn spec_can_run_offline(attrs: Option<Seq<(String, CustomAttribute)>>) -> bool {
    match spec_custom_attribute(attrs, "CanRunOffline"@) {
        Some(v) => is_true_flag(v),
        None => true,
    }
}

pub fn can_run_offline(attrs: &Option<Vec<(String, CustomAttribute)>>) -> (r: bool)
    ensures
        r == spec_can_run_offline(attrs_view(*attrs)),
{
    match custom_attribute(attrs, "CanRunOffline") {
        Some(v) => is_true_text(v.as_str()),
        None => true,
    }
}

/// A title needs an ownership token where its `OwnershipToken` attribute says
/// so, and Hogwarts Legacy always.
pub open spec fn spec_needs_ownership_token(attrs: Option<Seq<(String, CustomAttribute)>>, app_name: Seq<char>) -> bool {
    (match spec_custom_attribute(attrs, "OwnershipToken"@) {
        Some(v) => is_true_flag(v),
        None => false,
    }) || app_name == "HogwartsLegacy"@
}

pub fn needs_ownership_token(attrs: &Option<Vec<(String, CustomAttribute)>>, app_name: &str) -> (r: bool)
    ensures
        r == spec_needs_ownership_token(attrs_view(*attrs), app_name@),
{
    let by_attr = match custom_attribute(attrs, "OwnershipToken") {
        Some(v) => is_true_text(v.as_str()),
        None => false,
    };
    by_attr || str_equal(app_name, "HogwartsLegacy")
}

/// A launch is refused when no game token was had (`"0"`) and the title
/// cannot run offline.
pub fn launch_refused(token: &str, can_run_offline: bool) -> (r: bool)
    ensures
        r == (token@ == "0"@ && !can_run_offline),
{
    str_equal(token, "0") && !can_run_offline
}

/// The command run before a launch: the game's own where set, else the
/// global one where set.
pub open spec fn spec_pre_launch(game: Option<GameSettings>, global: GlobalSettings) -> Option<Seq<char>> {
    match game {
        Some(g) if g.pre_launch_command@.len() > 0 => Some(g.pre_launch_command@),
        _ => if global.pre_launch_command@.len() > 0 {
            Some(global.pre_launch_command@)
        } else {
            None
        },
    }
}

pub fn pre_launch_command(game: Option<&GameSettings>, global: &GlobalSettings) -> (r: Option<String>)
    ensures
        opt_text(r) == spec_pre_launch(match game {
            Some(g) => Some(*g),
            None => None,
        }, *global),
{
    match game {
        Some(g) => {
            if !g.pre_launch_command.as_str().is_empty() {
                return Some(g.pre_launch_command.clone());
            }
        },
        None => {},
    }
    if !global.pre_launch_command.as_str().is_empty() {
        Some(global.pre_launch_command.clone())
    } else {
        None
    }
}

/// The words of `s` between runs of whitespace (what `split_whitespace`
/// yields).
pub open spec fn words(s: Seq<char>) -> Seq<Seq<char>>
    decreases s.len(),
{
    if s.len() == 0 {
        seq![]
    } else {
        let r = words(s.drop_last());
        let c = s.last();
        if is_ws(c) {
            r
        } else if s.len() == 1 || is_ws(s[s.len() - 2]) {
            r.push(seq![c])
        } else {
            r.update(r.len() - 1, r.last().push(c))
        }
    }
}

proof fn lemma_words_nonempty(s: Seq<char>)
    requires
        s.len() > 0,
        !is_ws(s.last()),
    ensures
        words(s).len() > 0,
        words(s).last().len() > 0,
        words(s).last().last() == s.last(),
    decreases s.len(),
{
    let d = s.drop_last();
    if !(s.len() == 1 || is_ws(s[s.len() - 2])) {
        assert(d.last() == s[s.len() - 2]);
        lemma_words_nonempty(d);
    }
}

/// Splits `s` into its words.
pub fn split_whitespace(s: &str) -> (r: Vec<String>)
    ensures
        r@.map_values(|w: String| w@) == words(s@),
{
    let cs = chars_of(s);
    let mut done: Vec<String> = Vec::new();
    let mut cur: Vec<char> = Vec::new();
    let mut i: usize = 0;
    assert(cs@.take(0) =~= seq![]);
    while i < cs.len()
        invariant
            i <= cs@.len(),
            cs@ == s@,
            cur@.len() == 0 ==> done@.map_values(|w: String| w@) == words(cs@.take(i as int)),
            cur@.len() > 0 ==> i > 0 && !is_ws(cs@[i - 1]) && done@.map_values(|w: String| w@).push(cur@) == words(cs@.take(i as int)),
            cur@.len() == 0 ==> (i == 0 || is_ws(cs@[i - 1])),
        decreases cs@.len() - i,
    {
        let ghost t = cs@.take(i + 1);
        assert(t.drop_last() =~= cs@.take(i as int));
        assert(t.last() == cs@[i as int]);
        let c = cs[i];
        let ghost before = done@.map_values(|w: String| w@);
        if is_whitespace(c) {
            if cur.len() > 0 {
                let w = string_of(cur.as_slice());
                done.push(w);
                cur = Vec::new();
                assert(done@.map_values(|w: String| w@) =~= before.push(w@));
            }
        } else {
            if cur.len() == 0 {
                assert(i == 0 || t[t.len() - 2] == cs@[i - 1]);
                assert(words(t) == words(cs@.take(i as int)).push(seq![c]));
                cur.push(c);
                assert(cur@ =~= seq![c]);
            } else {
                assert(t[t.len() - 2] == cs@[i - 1]);
                let ghost w0 = words(cs@.take(i as int));
                assert(w0 == before.push(cur@));
                assert(words(t) == w0.update(w0.len() - 1, w0.last().push(c)));
                assert(words(t) =~= before.push(cur@.push(c)));
                cur.push(c);
            }
        }
        i += 1;
    }
    assert(cs@.take(cs@.len() as int) =~= cs@);
    if cur.len() > 0 {
        let ghost before = done@.map_values(|w: String| w@);
        let w = string_of(cur.as_slice());
        done.push(w);
        assert(done@.map_values(|w: String| w@) =~= before.push(w@));
    }
    done
}

/// The names an executable is looked for under, in order, where the
/// installation records none that exists: the app name with `.exe`, with
/// `.sh`, bare, then the `FolderName` attribute with `.exe` and bare.
pub open spec fn spec_exe_candidates(app_name: Seq<char>, folder_name: Option<Seq<char>>) -> Seq<Seq<char>> {
    let base = seq![app_name + ".exe"@, app_name + ".sh"@, app_name];
    match folder_name {
        Some(f) => base + seq![f + ".exe"@, f],
        None => base,
    }
}

pub fn exe_candidates(app_name: &str, attrs: &Option<Vec<(String, CustomAttribute)>>) -> (r: Vec<String>)
    ensures
        r@.map_values(|s: String| s@) == spec_exe_candidates(app_name@, spec_custom_attribute(attrs_view(*attrs), "FolderName"@)),
{
    let mut r: Vec<String> = Vec::new();
    r.push(concat(app_name, ".exe"));
    r.push(concat(app_name, ".sh"));
    r.push(String::from_str(app_name));
    let ghost base = r@.map_values(|s: String| s@);
    match custom_attribute(attrs, "FolderName") {
        Some(f) => {
            r.push(concat(f.as_str(), ".exe"));
            r.push(f);
            assert(r@.map_values(|s: String| s@) =~= base + seq![f@ + ".exe"@, f@]);
        },
        None => {
            assert(r@.map_values(|s: String| s@) =~= base);
        },
    }
    r
}

/// Where the recorded executable is: its path with `/` for `\`, without
/// leading `/`, under the install directory.
pub open spec fn spec_recorded_exe(install_path: Seq<char>, executable: Seq<char>) -> Seq<char> {
    path_join(install_path, strip_leading_slashes(replace_char(executable, '\\', "/"@)))
}

pub fn recorded_exe_path(install_path: &str, executable: &str) -> (r: String)
    ensures
        r@ == spec_recorded_exe(install_path@, executable@),
{
    let e = chars_of(executable);
    let slash = chars_of("/");
    let n = replaced_char(e.as_slice(), '\\', slash.as_slice());
    let mut i: usize = 0;
    assert(n@.skip(0) =~= n@);
    while i < n.len() && n[i] == '/'
        invariant
            i <= n@.len(),
            char_prefix_len(n@, '/') == i + char_prefix_len(n@.skip(i as int), '/'),
        decreases n@.len() - i,
    {
        assert(n@.skip(i as int).drop_first() =~= n@.skip(i + 1));
        i += 1;
    }
    assert(n@.skip(i as int).len() == 0 || n@.skip(i as int)[0] != '/');
    let mut rel: Vec<char> = Vec::new();
    let mut k = i;
    while k < n.len()
        invariant
            i <= k <= n@.len(),
            rel@ == n@.subrange(i as int, k as int),
        decreases n@.len() - k,
    {
        rel.push(n[k]);
        k += 1;
        assert(rel@ =~= n@.subrange(i as int, k as int));
    }
    assert(rel@ =~= n@.skip(i as int));
    let p = chars_of(install_path);
    string_of(crate::paths::join_chars(&p, &rel).as_slice())
}

/// A file that may be taken as the game when nothing else is found: an
/// `.exe` whose lower-cased name mentions no uninstaller, crash reporter or
/// redistributable.
pub open spec fn is_fallback_exe(name: Seq<char>) -> bool {
    has_exe_extension(name) && !contains_seq(lowercase(name), "unins"@)
        && !contains_seq(lowercase(name), "crashreporter"@)
        && !contains_seq(lowercase(name), "redist"@)
}

/// The name's extension, after its last `.`, is `exe`; a name whose only `.`
/// leads it has no extension.
pub open spec fn has_exe_extension(name: Seq<char>) -> bool {
    name.len() >= 5 && name[name.len() - 4] == '.' && name[name.len() - 3] == 'e'
        && name[name.len() - 2] == 'x' && name[name.len() - 1] == 'e'
}

pub fn fallback_exe(name: &str) -> (r: bool)
    ensures
        r == is_fallback_exe(name@),
{
    let c = chars_of(name);
    let n = c.len();
    let ext = n >= 5 && c[n - 4] == '.' && c[n - 3] == 'e' && c[n - 2] == 'x' && c[n - 1] == 'e';
    if !ext {
        return false;
    }
    let low = chars_of(to_lowercase(name).as_str());
    let unins = chars_of("unins");
    let crash = chars_of("crashreporter");
    let redist = chars_of("redist");
    !has_infix(low.as_slice(), unins.as_slice()) && !has_infix(low.as_slice(), crash.as_slice())
        && !has_infix(low.as_slice(), redist.as_slice())
}

/// A directory entry found while searching for a file: its name equals the
/// name looked for, both lower-cased.
pub fn file_name_matches(entry_name: &str, wanted: &str) -> (r: bool)
    ensures
        r == (lowercase(entry_name@) == lowercase(wanted@)),
{
    let a = to_lowercase(entry_name);
    let b = to_lowercase(wanted);
    str_equal(a.as_str(), b.as_str())
}

/// The executable a launch uses, searched in order: the game's custom
/// executable, the recorded one, one found under a candidate name, one found
/// by scanning the install directory; each given where it was found.
pub fn pick_executable(custom: Option<String>, recorded: Option<String>, by_name: Option<String>, by_scan: Option<String>) -> (r: Option<String>)
    ensures
        opt_text(r) == match custom {
            Some(c) => Some(c@),
            None => match recorded {
                Some(p) => Some(p@),
                None => match by_name {
                    Some(n) => Some(n@),
                    None => opt_text(by_scan),
                },
            },
        },
{
    match custom {
        Some(c) => Some(c),
        None => match recorded {
            Some(p) => Some(p),
            None => match by_name {
                Some(n) => Some(n),
                None => by_scan,
            },
        },
    }
}

/// The arguments a store title is started with.
pub open spec fn spec_epic_args(
    token: Seq<char>,
    app_name: Seq<char>,
    user_id: Seq<char>,
    display_name: Option<Seq<char>>,
    namespace: Option<Seq<char>>,
    deployment_id: Option<Seq<char>>,
    ovt_path: Option<Seq<char>>,
) -> Seq<Seq<char>> {
    let a = seq![
        "-AUTH_LOGIN=unused"@,
        "-AUTH_PASSWORD="@ + token,
        "-AUTH_TYPE=exchangecode"@,
        "-epicapp="@ + app_name,
        "-epicenv=Prod"@,
        "-EpicPortal"@,
        "-epicuserid="@ + user_id,
    ];
    let b = match display_name {
        Some(d) => a.push("-epicusername="@ + d),
        None => a,
    };
    let c = match namespace {
        Some(n) => b.push("-epicsandboxid="@ + n),
        None => b,
    };
    let d = match deployment_id {
        Some(x) => c.push("-epicdeploymentid="@ + x),
        None => c,
    };
    let e = d.push("-uid="@ + user_id).push("-epiclocale=en"@);
    match ovt_path {
        Some(o) => e.push("-epicovt="@ + o),
        None => e,
    }
}

pub fn epic_args(
    token: &str,
    app_name: &str,
    user_id: &str,
    display_name: &Option<String>,
    namespace: &Option<String>,
    deployment_id: &Option<String>,
    ovt_path: &Option<String>,
) -> (r: Vec<String>)
    ensures
        r@.map_values(|s: String| s@) == spec_epic_args(
            token@,
            app_name@,
            user_id@,
            opt_text(*display_name),
            opt_text(*namespace),
            opt_text(*deployment_id),
            opt_text(*ovt_path),
        ),
{
    let mut r: Vec<String> = Vec::new();
    r.push(String::from_str("-AUTH_LOGIN=unused"));
    r.push(concat("-AUTH_PASSWORD=", token));
    r.push(String::from_str("-AUTH_TYPE=exchangecode"));
    r.push(concat("-epicapp=", app_name));
    r.push(String::from_str("-epicenv=Prod"));
    r.push(String::from_str("-EpicPortal"));
    r.push(concat("-epicuserid=", user_id));
    let ghost a = r@.map_values(|s: String| s@);
    match display_name {
        Some(d) => {
            r.push(concat("-epicusername=", d.as_str()));
        },
        None => {},
    }
    let ghost b = r@.map_values(|s: String| s@);
    assert(b =~= match opt_text(*display_name) {
        Some(d) => a.push("-epicusername="@ + d),
        None => a,
    });
    match namespace {
        Some(n) => {
            r.push(concat("-epicsandboxid=", n.as_str()));
        },
        None => {},
    }
    let ghost c = r@.map_values(|s: String| s@);
    assert(c =~= match opt_text(*namespace) {
        Some(n) => b.push("-epicsandboxid="@ + n),
        None => b,
    });
    match deployment_id {
        Some(x) => {
            r.push(concat("-epicdeploymentid=", x.as_str()));
        },
        None => {},
    }
    let ghost d = r@.map_values(|s: String| s@);
    assert(d =~= match opt_text(*deployment_id) {
        Some(x) => c.push("-epicdeploymentid="@ + x),
        None => c,
    });
    r.push(concat("-uid=", user_id));
    r.push(String::from_str("-epiclocale=en"));
    let ghost e = r@.map_values(|s: String| s@);
    assert(e =~= d.push("-uid="@ + user_id@).push("-epiclocale=en"@));
    match ovt_path {
        Some(o) => {
            r.push(concat("-epicovt=", o.as_str()));
        },
        None => {},
    }
    assert(r@.map_values(|s: String| s@) =~= match opt_text(*ovt_path) {
        Some(o) => e.push("-epicovt="@ + o),
        None => e,
    });
    r
}

/// Whether the overlay is wanted for a game: the game's setting where it has
/// settings, the global one otherwise.
pub fn overlay_enabled(game: Option<&GameSettings>, global: &GlobalSettings) -> (r: bool)
    ensures
        r == match game {
            Some(g) => g.eos_overlay_enabled,
            None => global.eos_overlay_enabled,
        },
{
    match game {
        Some(g) => g.eos_overlay_enabled,
        None => global.eos_overlay_enabled,
    }
}

/// Whether the overlay is among the installed titles.
pub open spec fn overlay_installed(games: Seq<InstalledGame>) -> bool {
    exists|i: int| 0 <= i < games.len() && (#[trigger] games[i]).app_name@ == EOS_OVERLAY_APP_ID@
}

pub fn is_overlay_installed(games: &Vec<InstalledGame>) -> (r: bool)
    ensures
        r == overlay_installed(games@),
{
    let mut i: usize = 0;
    while i < games.len()
        invariant
            i <= games@.len(),
            forall|j: int| 0 <= j < i ==> (#[trigger] games@[j]).app_name@ != EOS_OVERLAY_APP_ID@,
        decreases games@.len() - i,
    {
        if str_equal(games[i].app_name.as_str(), EOS_OVERLAY_APP_ID) {
            return true;
        }
        i += 1;
    }
    false
}

/// One optional setting: the game's where it has one, else the global one.
pub open spec fn setting_or(game: Option<Option<String>>, global: Option<String>) -> Option<Seq<char>> {
    match game {
        Some(Some(v)) => Some(v@),
        _ => opt_text(global),
    }
}

/// Whether Proton is to prefer SDL: the game's setting where it has
/// settings, the global one otherwise.
pub open spec fn spec_prefer_sdl(game: Option<GameSettings>, global: GlobalSettings) -> bool {
    match game {
        Some(g) => g.proton_prefer_sdl,
        None => global.proton_prefer_sdl,
    }
}

/// A variable set where a value is given.
pub open spec fn opt_var(name: Seq<char>, v: Option<Seq<char>>) -> Seq<(Seq<char>, Seq<char>)> {
    match v {
        Some(x) => seq![(name, x)],
        None => seq![],
    }
}

/// The Steam compatibility variables, each from the game's settings where
/// set there, else from the global ones.
pub open spec fn spec_compat_env(game: Option<GameSettings>, global: GlobalSettings) -> Seq<(Seq<char>, Seq<char>)> {
    let gi = match game { Some(g) => Some(g.steam_compat_install_path), None => None };
    let gc = match game { Some(g) => Some(g.steam_compat_client_install_path), None => None };
    let gd = match game { Some(g) => Some(g.steam_compat_data_path), None => None };
    let ga = match game { Some(g) => Some(g.steam_compat_app_id), None => None };
    opt_var("STEAM_COMPAT_INSTALL_PATH"@, setting_or(gi, global.steam_compat_install_path))
        + opt_var("STEAM_COMPAT_CLIENT_INSTALL_PATH"@, setting_or(gc, global.steam_compat_client_install_path))
        + opt_var("STEAM_COMPAT_DATA_PATH"@, setting_or(gd, global.steam_compat_data_path))
        + opt_var("STEAM_COMPAT_APP_ID"@, setting_or(ga, global.steam_compat_app_id))
}

pub open spec fn pair_views(v: Seq<(String, String)>) -> Seq<(Seq<char>, Seq<char>)> {
    v.map_values(|p: (String, String)| (p.0@, p.1@))
}

/// The user's variables: the global ones, then the game's, so that the
/// game's win.
pub open spec fn spec_user_env(game: Option<GameSettings>, global: GlobalSettings) -> Seq<(Seq<char>, Seq<char>)> {
    pair_views(global.env_vars@) + match game {
        Some(g) => pair_views(g.env_vars@),
        None => seq![],
    }
}

/// The variables set before the user's: the overlay switched off where
/// unwanted or missing; the login where online; the title; SDL for Proton
/// where preferred.
pub open spec fn spec_base_env(
    offline: bool,
    overlay_on: bool,
    overlay_present: bool,
    token: Seq<char>,
    user_id: Seq<char>,
    app_name: Seq<char>,
    prefer_sdl: bool,
) -> Seq<(Seq<char>, Seq<char>)> {
    let a: Seq<(Seq<char>, Seq<char>)> = if !overlay_on || !overlay_present {
        seq![("EOS_OVERLAY_KILLED"@, "1"@)]
    } else {
        seq![]
    };
    let b = if !offline {
        a + seq![
            ("EPIC_AUTH_PASSWORD"@, token),
            ("EPIC_AUTH_LOGIN"@, "unused"@),
            ("EPIC_AUTH_TYPE"@, "exchangecode"@),
            ("EPIC_USER_ID"@, user_id),
            ("EPIC_ACCOUNT_ID"@, user_id),
        ]
    } else {
        a
    };
    let c = b + seq![("EpicApp"@, app_name), ("EpicEnv"@, "Prod"@)];
    if prefer_sdl { c + seq![("PROTON_PREFER_SDL"@, "1"@)] } else { c }
}

/// The environment a game is started with, in the order it is set, a later
/// setting of a name winning: the base variables, the user's, the Steam
/// compatibility ones, and the title's name.
pub open spec fn spec_launch_env(
    offline: bool,
    overlay_on: bool,
    overlay_present: bool,
    token: Seq<char>,
    user_id: Seq<char>,
    app_name: Seq<char>,
    game: Option<GameSettings>,
    global: GlobalSettings,
) -> Seq<(Seq<char>, Seq<char>)> {
    spec_base_env(offline, overlay_on, overlay_present, token, user_id, app_name, spec_prefer_sdl(game, global))
        + spec_user_env(game, global) + spec_compat_env(game, global) + seq![("APP_NAME"@, app_name)]
}

fn push_pair(v: &mut Vec<(String, String)>, k: &str, x: &str)
    ensures
        pair_views(final(v)@) == pair_views(old(v)@).push((k@, x@)),
{
    let ghost before = pair_views(v@);
    v.push((String::from_str(k), String::from_str(x)));
    assert(pair_views(v@) =~= before.push((k@, x@)));
}

fn push_pairs(v: &mut Vec<(String, String)>, ps: &Vec<(String, String)>)
    ensures
        pair_views(final(v)@) == pair_views(old(v)@) + pair_views(ps@),
{
    let ghost before = pair_views(v@);
    let mut i: usize = 0;
    while i < ps.len()
        invariant
            i <= ps@.len(),
            pair_views(v@) == before + pair_views(ps@).take(i as int),
        decreases ps@.len() - i,
    {
        let ghost mid = pair_views(v@);
        push_pair(v, ps[i].0.as_str(), ps[i].1.as_str());
        assert(pair_views(ps@).take(i + 1) =~= pair_views(ps@).take(i as int).push((ps@[i as int].0@, ps@[i as int].1@)));
        i += 1;
    }
    assert(pair_views(ps@).take(ps@.len() as int) =~= pair_views(ps@));
}

fn push_setting(v: &mut Vec<(String, String)>, k: &str, game: Option<&Option<String>>, global: &Option<String>)
    ensures
        pair_views(final(v)@) == pair_views(old(v)@) + opt_var(k@, setting_or(match game {
            Some(g) => Some(*g),
            None => None,
        }, *global)),
{
    let ghost before = pair_views(v@);
    match game {
        Some(Some(x)) => {
            push_pair(v, k, x.as_str());
            assert(pair_views(v@) =~= before + seq![(k@, x@)]);
        },
        _ => match global {
            Some(x) => {
                push_pair(v, k, x.as_str());
                assert(pair_views(v@) =~= before + seq![(k@, x@)]);
            },
            None => {
                assert(pair_views(v@) =~= before + seq![]);
            },
        },
    }
}

fn base_env(v: &mut Vec<(String, String)>, offline: bool, overlay_on: bool, overlay_present: bool, token: &str, user_id: &str, app_name: &str, sdl: bool)
    ensures
        pair_views(final(v)@) == pair_views(old(v)@) + spec_base_env(offline, overlay_on, overlay_present, token@, user_id@, app_name@, sdl),
{
    let ghost start = pair_views(v@);
    if !overlay_on || !overlay_present {
        push_pair(v, "EOS_OVERLAY_KILLED", "1");
    }
    if !offline {
        push_pair(v, "EPIC_AUTH_PASSWORD", token);
        push_pair(v, "EPIC_AUTH_LOGIN", "unused");
        push_pair(v, "EPIC_AUTH_TYPE", "exchangecode");
        push_pair(v, "EPIC_USER_ID", user_id);
        push_pair(v, "EPIC_ACCOUNT_ID", user_id);
    }
    push_pair(v, "EpicApp", app_name);
    push_pair(v, "EpicEnv", "Prod");
    if sdl {
        push_pair(v, "PROTON_PREFER_SDL", "1");
    }
    assert(pair_views(v@) =~= start + spec_base_env(offline, overlay_on, overlay_present, token@, user_id@, app_name@, sdl));
}

fn user_env(v: &mut Vec<(String, String)>, game: Option<&GameSettings>, global: &GlobalSettings)
    ensures
        pair_views(final(v)@) == pair_views(old(v)@) + spec_user_env(match game {
            Some(g) => Some(*g),
            None => None,
        }, *global),
{
    let ghost start = pair_views(v@);
    push_pairs(v, &global.env_vars);
    match game {
        Some(g) => push_pairs(v, &g.env_vars),
        None => {},
    }
    assert(pair_views(v@) =~= start + spec_user_env(match game {
        Some(g) => Some(*g),
        None => None,
    }, *global));
}

fn compat_env(v: &mut Vec<(String, String)>, game: Option<&GameSettings>, global: &GlobalSettings)
    ensures
        pair_views(final(v)@) == pair_views(old(v)@) + spec_compat_env(match game {
            Some(g) => Some(*g),
            None => None,
        }, *global),
{
    let ghost start = pair_views(v@);
    push_setting(v, "STEAM_COMPAT_INSTALL_PATH", match game { Some(g) => Some(&g.steam_compat_install_path), None => None }, &global.steam_compat_install_path);
    let ghost a = pair_views(v@);
    push_setting(v, "STEAM_COMPAT_CLIENT_INSTALL_PATH", match game { Some(g) => Some(&g.steam_compat_client_install_path), None => None }, &global.steam_compat_client_install_path);
    let ghost b = pair_views(v@);
    push_setting(v, "STEAM_COMPAT_DATA_PATH", match game { Some(g) => Some(&g.steam_compat_data_path), None => None }, &global.steam_compat_data_path);
    let ghost c = pair_views(v@);
    push_setting(v, "STEAM_COMPAT_APP_ID", match game { Some(g) => Some(&g.steam_compat_app_id), None => None }, &global.steam_compat_app_id);
    assert(pair_views(v@) =~= start + spec_compat_env(match game {
        Some(g) => Some(*g),
        None => None,
    }, *global));
}

pub fn launch_env(
    offline: bool,
    overlay_on: bool,
    overlay_present: bool,
    token: &str,
    user_id: &str,
    app_name: &str,
    game: Option<&GameSettings>,
    global: &GlobalSettings,
) -> (r: Vec<(String, String)>)
    ensures
        pair_views(r@) == spec_launch_env(offline, overlay_on, overlay_present, token@, user_id@, app_name@, match game {
            Some(g) => Some(*g),
            None => None,
        }, *global),
{
    let mut v: Vec<(String, String)> = Vec::new();
    let sdl = match game {
        Some(g) => g.proton_prefer_sdl,
        None => global.proton_prefer_sdl,
    };
    base_env(&mut v, offline, overlay_on, overlay_present, token, user_id, app_name, sdl);
    user_env(&mut v, game, global);
    compat_env(&mut v, game, global);
    push_pair(&mut v, "APP_NAME", app_name);
    assert(pair_views(v@) =~= spec_launch_env(offline, overlay_on, overlay_present, token@, user_id@, app_name@, match game {
        Some(g) => Some(*g),
        None => None,
    }, *global));
    v
}

/// The Wine prefix a game runs in: the game's custom one where it asks for
/// one, else the global custom one where that is asked for, else none.
pub open spec fn spec_custom_prefix(game: Option<GameSettings>, global: GlobalSettings) -> Option<Seq<char>> {
    match game {
        Some(g) if g.use_custom_pfx => opt_text(g.custom_pfx_path),
        _ => if global.use_custom_pfx {
            opt_text(global.custom_pfx_path)
        } else {
            None
        },
    }
}

pub fn custom_prefix(game: Option<&GameSettings>, global: &GlobalSettings) -> (r: Option<String>)
    ensures
        opt_text(r) == spec_custom_prefix(match game {
            Some(g) => Some(*g),
            None => None,
        }, *global),
{
    match game {
        Some(g) => {
            if g.use_custom_pfx {
                return crate::models::copy_opt(&g.custom_pfx_path);
            }
        },
        None => {},
    }
    if global.use_custom_pfx {
        crate::models::copy_opt(&global.custom_pfx_path)
    } else {
        None
    }
}

/// The prefix shown for a game on Linux: its custom prefix, the global
/// custom one, or the launcher's default prefix.
pub fn prefix_path(game: Option<&GameSettings>, global: &GlobalSettings, default_prefix: Option<String>) -> (r: Option<String>)
    ensures
        opt_text(r) == match game {
            Some(g) if g.use_custom_pfx => opt_text(g.custom_pfx_path),
            _ => if global.use_custom_pfx {
                opt_text(global.custom_pfx_path)
            } else {
                opt_text(default_prefix)
            },
        },
{
    match game {
        Some(g) => {
            if g.use_custom_pfx {
                return crate::models::copy_opt(&g.custom_pfx_path);
            }
        },
        None => {},
    }
    if global.use_custom_pfx {
        crate::models::copy_opt(&global.custom_pfx_path)
    } else {
        default_prefix
    }
}

/// What runs a Windows game on Linux.
#[derive(Debug, Clone, PartialEq, Eq)]
pub enum Runner {
    /// A Proton build's `proton` script, with `run`.
    Proton(String),
    /// A Wine build's `bin/wine`.
    Wine(String),
    /// The system's `wine`.
    SystemWine,
    /// `umu-run`.
    Umu,
}

/// A runner as plain values.
pub enum RunnerPlan {
    Proton(Seq<char>),
    Wine(Seq<char>),
    SystemWine,
    Umu,
}

/// The runner for a compatibility tool: UMU runs `umu-run`; a Proton or
/// custom tool with a path runs its `proton` where that exists and its
/// `bin/wine` otherwise; any other choice runs the system's `wine`.
pub open spec fn spec_runner(tool: Option<CompatibilityTool>, tool_path: Option<Seq<char>>, proton_exists: bool) -> RunnerPlan {
    match tool {
        Some(CompatibilityTool::UmuLauncher) => RunnerPlan::Umu,
        Some(CompatibilityTool::SteamProton) | Some(CompatibilityTool::CustomProtonWine) => match tool_path {
            Some(tp) => if proton_exists {
                RunnerPlan::Proton(path_join(tp, "proton"@))
            } else {
                RunnerPlan::Wine(path_join(tp, "bin/wine"@))
            },
            None => RunnerPlan::SystemWine,
        },
        _ => RunnerPlan::SystemWine,
    }
}

pub open spec fn runner_view(r: Runner) -> RunnerPlan {
    match r {
        Runner::Proton(p) => RunnerPlan::Proton(p@),
        Runner::Wine(p) => RunnerPlan::Wine(p@),
        Runner::SystemWine => RunnerPlan::SystemWine,
        Runner::Umu => RunnerPlan::Umu,
    }
}

/// Where a tool's `proton` script would be.
pub fn proton_script(tool_path: &str) -> (r: String)
    ensures
        r@ == path_join(tool_path@, "proton"@),
{
    join_path(tool_path, "proton")
}

/// Chooses the runner; `proton_exists` tells whether the tool's `proton`
/// script exists.
pub fn choose_runner(tool: Option<CompatibilityTool>, tool_path: &Option<String>, proton_exists: bool) -> (r: Runner)
    ensures
        runner_view(r) == spec_runner(tool, opt_text(*tool_path), proton_exists),
{
    match tool {
        Some(CompatibilityTool::UmuLauncher) => Runner::Umu,
        Some(CompatibilityTool::SteamProton) | Some(CompatibilityTool::CustomProtonWine) => match tool_path {
            Some(tp) => if proton_exists {
                Runner::Proton(join_path(tp.as_str(), "proton"))
            } else {
                Runner::Wine(join_path(tp.as_str(), "bin/wine"))
            },
            None => Runner::SystemWine,
        },
        _ => Runner::SystemWine,
    }
}

/// The compatibility tool a game runs with: its own where set, else the
/// global one.
pub open spec fn spec_tool(game: Option<GameSettings>, global: GlobalSettings) -> Option<CompatibilityTool> {
    match game {
        Some(g) if g.compatibility_tool is Some => g.compatibility_tool,
        _ => global.compatibility_tool,
    }
}

pub fn effective_tool(game: Option<&GameSettings>, global: &GlobalSettings) -> (r: Option<CompatibilityTool>)
    ensures
        r == spec_tool(match game {
            Some(g) => Some(*g),
            None => None,
        }, *global),
{
    match game {
        Some(g) => match g.compatibility_tool {
            Some(t) => Some(t),
            None => global.compatibility_tool,
        },
        None => global.compatibility_tool,
    }
}

/// The folder of the compatibility tool: the game's where set, else the
/// global one.
pub fn effective_tool_path(game: Option<&GameSettings>, global: &GlobalSettings) -> (r: Option<String>)
    ensures
        opt_text(r) == setting_or(match game {
            Some(g) => Some(g.custom_compatibility_path),
            None => None,
        }, global.custom_compatibility_path),
{
    match game {
        Some(g) => match &g.custom_compatibility_path {
            Some(p) => Some(p.clone()),
            None => crate::models::copy_opt(&global.custom_compatibility_path),
        },
        None => crate::models::copy_opt(&global.custom_compatibility_path),
    }
}

/// The store `umu-run` is told of: the game's where set, else the global one.
pub open spec fn spec_umu_store(game: Option<GameSettings>, global: GlobalSettings) -> Seq<char> {
    match game {
        Some(g) => match g.umu_store {
            Some(s) => s@,
            None => global.umu_store@,
        },
        None => global.umu_store@,
    }
}

/// The variables `umu-run` is started with: the store and the title.
pub fn umu_env(game: Option<&GameSettings>, global: &GlobalSettings, app_name: &str) -> (r: Vec<(String, String)>)
    ensures
        pair_views(r@) == seq![
            ("UMU_STORE"@, spec_umu_store(match game {
                Some(g) => Some(*g),
                None => None,
            }, *global)),
            ("UMU_ID"@, app_name@),
        ],
{
    let store = match game {
        Some(g) => match &g.umu_store {
            Some(s) => s.clone(),
            None => global.umu_store.clone(),
        },
        None => global.umu_store.clone(),
    };
    let mut v: Vec<(String, String)> = Vec::new();
    push_pair(&mut v, "UMU_STORE", store.as_str());
    push_pair(&mut v, "UMU_ID", app_name);
    assert(pair_views(v@) =~= seq![
        ("UMU_STORE"@, spec_umu_store(match game {
            Some(g) => Some(*g),
            None => None,
        }, *global)),
        ("UMU_ID"@, app_name@),
    ]);
    v
}

/// The `WINEPREFIX` a runner gets: none under UMU, else the custom prefix.
pub fn runner_prefix(runner: &Runner, game: Option<&GameSettings>, global: &GlobalSettings) -> (r: Option<String>)
    ensures
        opt_text(r) == match runner {
            Runner::Umu => None,
            _ => spec_custom_prefix(match game {
                Some(g) => Some(*g),
                None => None,
            }, *global),
        },
{
    match runner {
        Runner::Umu => None,
        _ => custom_prefix(game, global),
    }
}

/// The value a list of variables, set in order, leaves for `key`.
pub open spec fn env_value(env: Seq<(Seq<char>, Seq<char>)>, key: Seq<char>) -> Option<Seq<char>> {
    attribute_value(env, key)
}

proof fn lemma_attribute_value_concat(a: Seq<(Seq<char>, Seq<char>)>, b: Seq<(Seq<char>, Seq<char>)>, key: Seq<char>)
    ensures
        attribute_value(a + b, key) == match attribute_value(b, key) {
            Some(v) => Some(v),
            None => attribute_value(a, key),
        },
    decreases b.len(),
{
    if b.len() == 0 {
        assert(a + b =~= a);
    } else {
        assert((a + b).drop_last() =~= a + b.drop_last());
        assert((a + b).last() == b.last());
        lemma_attribute_value_concat(a, b.drop_last(), key);
    }
}

/// The names the launcher sets after the user's variables.
pub open spec fn is_fixed_late_name(key: Seq<char>) -> bool {
    key == "STEAM_COMPAT_INSTALL_PATH"@ || key == "STEAM_COMPAT_CLIENT_INSTALL_PATH"@
        || key == "STEAM_COMPAT_DATA_PATH"@ || key == "STEAM_COMPAT_APP_ID"@ || key == "APP_NAME"@
}

/// A game's own variable wins over the global one of the same name, and
/// either wins over what the launcher set before them, for every name the
/// launcher does not set afterwards.
pub proof fn law_game_env_overrides(
    offline: bool,
    overlay_on: bool,
    overlay_present: bool,
    token: Seq<char>,
    user_id: Seq<char>,
    app_name: Seq<char>,
    game: Option<GameSettings>,
    global: GlobalSettings,
    key: Seq<char>,
)
    requires
        !is_fixed_late_name(key),
    ensures
        env_value(spec_launch_env(offline, overlay_on, overlay_present, token, user_id, app_name, game, global), key)
            == match (match game {
                Some(g) => attribute_value(pair_views(g.env_vars@), key),
                None => None,
            }) {
            Some(v) => Some(v),
            None => match attribute_value(pair_views(global.env_vars@), key) {
                Some(v) => Some(v),
                None => attribute_value(spec_base_env(offline, overlay_on, overlay_present, token, user_id, app_name, spec_prefer_sdl(game, global)), key),
            },
        },
{
    let base = spec_base_env(offline, overlay_on, overlay_present, token, user_id, app_name, spec_prefer_sdl(game, global));
    let ge = pair_views(global.env_vars@);
    let me: Seq<(Seq<char>, Seq<char>)> = match game {
        Some(g) => pair_views(g.env_vars@),
        None => seq![],
    };
    let ce = spec_compat_env(game, global);
    let tail = ce + seq![("APP_NAME"@, app_name)];
    assert(spec_launch_env(offline, overlay_on, overlay_present, token, user_id, app_name, game, global)
        =~= (base + ge + me) + tail);
    lemma_attribute_value_concat(base + ge + me, tail, key);
    assert(attribute_value(tail, key) is None) by {
        let one = seq![("APP_NAME"@, app_name)];
        lemma_attribute_value_concat(ce, one, key);
        assert(one.drop_last() =~= Seq::<(Seq<char>, Seq<char>)>::empty());
        let gi = match game { Some(g) => Some(g.steam_compat_install_path), None => None };
        let gc = match game { Some(g) => Some(g.steam_compat_client_install_path), None => None };
        let gd = match game { Some(g) => Some(g.steam_compat_data_path), None => None };
        let ga = match game { Some(g) => Some(g.steam_compat_app_id), None => None };
        let v1 = opt_var("STEAM_COMPAT_INSTALL_PATH"@, setting_or(gi, global.steam_compat_install_path));
        let v2 = opt_var("STEAM_COMPAT_CLIENT_INSTALL_PATH"@, setting_or(gc, global.steam_compat_client_install_path));
        let v3 = opt_var("STEAM_COMPAT_DATA_PATH"@, setting_or(gd, global.steam_compat_data_path));
        let v4 = opt_var("STEAM_COMPAT_APP_ID"@, setting_or(ga, global.steam_compat_app_id));
        lemma_attribute_value_concat(v1 + v2 + v3, v4, key);
        lemma_attribute_value_concat(v1 + v2, v3, key);
        lemma_attribute_value_concat(v1, v2, key);
        assert(v1.len() == 0 || v1.drop_last() =~= Seq::<(Seq<char>, Seq<char>)>::empty());
        assert(v2.len() == 0 || v2.drop_last() =~= Seq::<(Seq<char>, Seq<char>)>::empty());
        assert(v3.len() == 0 || v3.drop_last() =~= Seq::<(Seq<char>, Seq<char>)>::empty());
        assert(v4.len() == 0 || v4.drop_last() =~= Seq::<(Seq<char>, Seq<char>)>::empty());
    }
    lemma_attribute_value_concat(base + ge, me, key);
    lemma_attribute_value_concat(base, ge, key);
    if game is None {
        assert(attribute_value(me, key) is None);
    }
}

/// The arguments after the Epic ones: `-offline` where the game is set to
/// play offline, then the words of its start parameters.
pub open spec fn spec_trailing_args(game: Option<GameSettings>) -> Seq<Seq<char>> {
    match game {
        Some(g) => (if g.play_offline { seq!["-offline"@] } else { seq![] }) + words(g.start_params@),
        None => seq![],
    }
}

pub fn trailing_args(game: Option<&GameSettings>) -> (r: Vec<String>)
    ensures
        r@.map_values(|s: String| s@) == spec_trailing_args(match game {
            Some(g) => Some(*g),
            None => None,
        }),
{
    match game {
        None => Vec::new(),
        Some(g) => {
            let mut r: Vec<String> = Vec::new();
            if g.play_offline {
                r.push(String::from_str("-offline"));
            }
            let ghost a = r@.map_values(|s: String| s@);
            let ws = split_whitespace(g.start_params.as_str());
            let mut i: usize = 0;
            while i < ws.len()
                invariant
                    i <= ws@.len(),
                    r@.map_values(|s: String| s@) == a + ws@.map_values(|s: String| s@).take(i as int),
                decreases ws@.len() - i,
            {
                let ghost before = r@.map_values(|s: String| s@);
                let ghost wv = ws@.map_values(|s: String| s@);
                let w = ws[i].clone();
                r.push(w);
                assert(wv.take(i + 1) =~= wv.take(i as int).push(w@));
                assert(r@.map_values(|s: String| s@) =~= before.push(w@));
                i += 1;
            }
            assert(ws@.map_values(|s: String| s@).take(ws@.len() as int) =~= ws@.map_values(|s: String| s@));
            r
        },
    }
}

/// How local and cloud saves compare.
#[derive(Debug, Clone, Copy, PartialEq, Eq, Structural)]
pub enum SyncState {
    LocalNewer,
    CloudNewer,
    InSync,
    CloudOnly,
    LocalOnly,
    NoSaves,
}

pub open spec fn spec_sync_state(local: Option<(i64, u32)>, remote: Option<(i64, u32)>) -> SyncState {
    match (local, remote) {
        (Some(l), Some(r)) => if instant_after(l, r) {
            SyncState::LocalNewer
        } else if instant_after(r, l) {
            SyncState::CloudNewer
        } else {
            SyncState::InSync
        },
        (None, Some(_)) => SyncState::CloudOnly,
        (Some(_), None) => SyncState::LocalOnly,
        (None, None) => SyncState::NoSaves,
    }
}

/// Compares the newest local save with the newest cloud save.
pub fn sync_state(local: Option<(i64, u32)>, remote: Option<(i64, u32)>) -> (r: SyncState)
    ensures
        r == spec_sync_state(local, remote),
{
    match (local, remote) {
        (Some(l), Some(r)) => if crate::api::is_after(l, r) {
            SyncState::LocalNewer
        } else if crate::api::is_after(r, l) {
            SyncState::CloudNewer
        } else {
            SyncState::InSync
        },
        (None, Some(_)) => SyncState::CloudOnly,
        (Some(_), None) => SyncState::LocalOnly,
        (None, None) => SyncState::NoSaves,
    }
}


/// Each optional argument is passed whenever its value is given, whatever
/// the others are: the display name, the sandbox (namespace), the deployment
/// id and the ownership token each appear, and so do the login, the title
/// and the user.
pub proof fn law_epic_args_present(
    token: Seq<char>,
    app_name: Seq<char>,
    user_id: Seq<char>,
    display_name: Option<Seq<char>>,
    namespace: Option<Seq<char>>,
    deployment_id: Option<Seq<char>>,
    ovt_path: Option<Seq<char>>,
)
    ensures
        ({
            let r = spec_epic_args(token, app_name, user_id, display_name, namespace, deployment_id, ovt_path);
            &&& r.contains("-AUTH_PASSWORD="@ + token)
            &&& r.contains("-epicapp="@ + app_name)
            &&& r.contains("-epicuserid="@ + user_id)
            &&& r.contains("-uid="@ + user_id)
            &&& (display_name matches Some(d) ==> r.contains("-epicusername="@ + d))
            &&& (namespace matches Some(n) ==> r.contains("-epicsandboxid="@ + n))
            &&& (deployment_id matches Some(x) ==> r.contains("-epicdeploymentid="@ + x))
            &&& (ovt_path matches Some(o) ==> r.contains("-epicovt="@ + o))
        }),
{
    let a = seq![
        "-AUTH_LOGIN=unused"@,
        "-AUTH_PASSWORD="@ + token,
        "-AUTH_TYPE=exchangecode"@,
        "-epicapp="@ + app_name,
        "-epicenv=Prod"@,
        "-EpicPortal"@,
        "-epicuserid="@ + user_id,
    ];
    let b = match display_name {
        Some(d) => a.push("-epicusername="@ + d),
        None => a,
    };
    let c = match namespace {
        Some(n) => b.push("-epicsandboxid="@ + n),
        None => b,
    };
    let d = match deployment_id {
        Some(x) => c.push("-epicdeploymentid="@ + x),
        None => c,
    };
    let e = d.push("-uid="@ + user_id).push("-epiclocale=en"@);
    let r = spec_epic_args(token, app_name, user_id, display_name, namespace, deployment_id, ovt_path);
    assert(forall|i: int| 0 <= i < e.len() ==> r[i] == e[i]);
    assert(forall|i: int| 0 <= i < d.len() ==> e[i] == d[i]);
    assert(forall|i: int| 0 <= i < c.len() ==> d[i] == c[i]);
    assert(forall|i: int| 0 <= i < b.len() ==> c[i] == b[i]);
    assert(forall|i: int| 0 <= i < a.len() ==> b[i] == a[i]);
    assert(r[1] == "-AUTH_PASSWORD="@ + token);
    assert(r[3] == "-epicapp="@ + app_name);
    assert(r[6] == "-epicuserid="@ + user_id);
    assert(r[d.len() as int] == "-uid="@ + user_id);
    if let Some(dn) = display_name {
        assert(r[7] == "-epicusername="@ + dn);
    }
    if let Some(n) = namespace {
        assert(r[b.len() as int] == "-epicsandboxid="@ + n);
    }
    if let Some(x) = deployment_id {
        assert(r[c.len() as int] == "-epicdeploymentid="@ + x);
    }
    if let Some(o) = ovt_path {
        assert(r[e.len() as int] == "-epicovt="@ + o);
    }
}

/// The start parameters are always passed: the arguments after the Epic
/// ones are `-offline` exactly where the game is set to play offline, and
/// end with every whitespace-separated word of the start parameters, in
/// order, whether or not it plays offline.
pub proof fn law_trailing_args_keep_params(g: GameSettings)
    ensures
        ({
            let r = spec_trailing_args(Some(g));
            let w = words(g.start_params@);
            &&& r.len() == w.len() + (if g.play_offline { 1int } else { 0int })
            &&& r.subrange(r.len() - w.len(), r.len() as int) == w
            &&& (g.play_offline ==> r[0] == "-offline"@)
        }),
{
    let r = spec_trailing_args(Some(g));
    let w = words(g.start_params@);
    let pre: Seq<Seq<char>> = if g.play_offline { seq!["-offline"@] } else { seq![] };
    assert(r == pre + w);
    assert(r.subrange(r.len() - w.len(), r.len() as int) =~= w);
}

proof fn lemma_overlay_key_distinct()
    ensures
        !is_fixed_late_name("EOS_OVERLAY_KILLED"@),
        "EOS_OVERLAY_KILLED"@ != "EPIC_AUTH_PASSWORD"@,
        "EOS_OVERLAY_KILLED"@ != "EPIC_AUTH_LOGIN"@,
        "EOS_OVERLAY_KILLED"@ != "EPIC_AUTH_TYPE"@,
        "EOS_OVERLAY_KILLED"@ != "EPIC_USER_ID"@,
        "EOS_OVERLAY_KILLED"@ != "EPIC_ACCOUNT_ID"@,
        "EOS_OVERLAY_KILLED"@ != "EpicApp"@,
        "EOS_OVERLAY_KILLED"@ != "EpicEnv"@,
        "EOS_OVERLAY_KILLED"@ != "PROTON_PREFER_SDL"@,
{
    reveal_strlit("EOS_OVERLAY_KILLED");
    reveal_strlit("EPIC_AUTH_PASSWORD");
    reveal_strlit("EPIC_AUTH_LOGIN");
    reveal_strlit("EPIC_AUTH_TYPE");
    reveal_strlit("EPIC_USER_ID");
    reveal_strlit("EPIC_ACCOUNT_ID");
    reveal_strlit("EpicApp");
    reveal_strlit("EpicEnv");
    reveal_strlit("PROTON_PREFER_SDL");
    reveal_strlit("STEAM_COMPAT_INSTALL_PATH");
    reveal_strlit("STEAM_COMPAT_CLIENT_INSTALL_PATH");
    reveal_strlit("STEAM_COMPAT_DATA_PATH");
    reveal_strlit("STEAM_COMPAT_APP_ID");
    reveal_strlit("APP_NAME");
    assert("EOS_OVERLAY_KILLED"@[1] != "EPIC_AUTH_PASSWORD"@[1]);
    assert("EOS_OVERLAY_KILLED"@.len() != "EPIC_AUTH_LOGIN"@.len());
    assert("EOS_OVERLAY_KILLED"@.len() != "EPIC_AUTH_TYPE"@.len());
    assert("EOS_OVERLAY_KILLED"@.len() != "EPIC_USER_ID"@.len());
    assert("EOS_OVERLAY_KILLED"@.len() != "EPIC_ACCOUNT_ID"@.len());
    assert("EOS_OVERLAY_KILLED"@.len() != "EpicApp"@.len());
    assert("EOS_OVERLAY_KILLED"@.len() != "EpicEnv"@.len());
    assert("EOS_OVERLAY_KILLED"@.len() != "PROTON_PREFER_SDL"@.len());
    assert("EOS_OVERLAY_KILLED"@.len() != "STEAM_COMPAT_INSTALL_PATH"@.len());
    assert("EOS_OVERLAY_KILLED"@.len() != "STEAM_COMPAT_CLIENT_INSTALL_PATH"@.len());
    assert("EOS_OVERLAY_KILLED"@.len() != "STEAM_COMPAT_DATA_PATH"@.len());
    assert("EOS_OVERLAY_KILLED"@.len() != "STEAM_COMPAT_APP_ID"@.len());
    assert("EOS_OVERLAY_KILLED"@.len() != "APP_NAME"@.len());
}

/// The overlay switch alone decides: unless the user's own variables name
/// `EOS_OVERLAY_KILLED`, the game starts with it set to `1` exactly where
/// the overlay is switched off or not installed, and without it otherwise.
pub proof fn law_overlay_switch(
    offline: bool,
    overlay_on: bool,
    overlay_present: bool,
    token: Seq<char>,
    user_id: Seq<char>,
    app_name: Seq<char>,
    game: Option<GameSettings>,
    global: GlobalSettings,
)
    requires
        attribute_value(spec_user_env(game, global), "EOS_OVERLAY_KILLED"@) is None,
    ensures
        env_value(spec_launch_env(offline, overlay_on, overlay_present, token, user_id, app_name, game, global), "EOS_OVERLAY_KILLED"@)
            == (if !overlay_on || !overlay_present { Some("1"@) } else { None }),
{
    let k = "EOS_OVERLAY_KILLED"@;
    lemma_overlay_key_distinct();
    law_game_env_overrides(offline, overlay_on, overlay_present, token, user_id, app_name, game, global, k);
    let ge = pair_views(global.env_vars@);
    let me: Seq<(Seq<char>, Seq<char>)> = match game {
        Some(g) => pair_views(g.env_vars@),
        None => seq![],
    };
    lemma_attribute_value_concat(ge, me, k);
    if game is None {
        assert(spec_user_env(game, global) =~= ge + me);
    }
    let a: Seq<(Seq<char>, Seq<char>)> = if !overlay_on || !overlay_present {
        seq![("EOS_OVERLAY_KILLED"@, "1"@)]
    } else {
        seq![]
    };
    let login: Seq<(Seq<char>, Seq<char>)> = if !offline {
        seq![
            ("EPIC_AUTH_PASSWORD"@, token),
            ("EPIC_AUTH_LOGIN"@, "unused"@),
            ("EPIC_AUTH_TYPE"@, "exchangecode"@),
            ("EPIC_USER_ID"@, user_id),
            ("EPIC_ACCOUNT_ID"@, user_id),
        ]
    } else {
        seq![]
    };
    let sdl = spec_prefer_sdl(game, global);
    let tail: Seq<(Seq<char>, Seq<char>)> = login + seq![("EpicApp"@, app_name), ("EpicEnv"@, "Prod"@)]
        + (if sdl { seq![("PROTON_PREFER_SDL"@, "1"@)] } else { seq![] });
    let base = spec_base_env(offline, overlay_on, overlay_present, token, user_id, app_name, sdl);
    assert(base =~= a + tail);
    assert forall|i: int| 0 <= i < tail.len() implies (#[trigger] tail[i]).0 != k by {}
    lemma_attribute_value_absent(tail, k);
    lemma_attribute_value_concat(a, tail, k);
    if !overlay_on || !overlay_present {
        assert(a.drop_last() =~= Seq::<(Seq<char>, Seq<char>)>::empty());
    } else {
        assert(attribute_value(a, k) is None);
    }
}

proof fn lemma_attribute_value_absent(s: Seq<(Seq<char>, Seq<char>)>, k: Seq<char>)
    requires
        forall|i: int| 0 <= i < s.len() ==> (#[trigger] s[i]).0 != k,
    ensures
        attribute_value(s, k) is None,
    decreases s.len(),
{
    if s.len() > 0 {
        assert(s.last() == s[s.len() - 1]);
        assert forall|i: int| 0 <= i < s.drop_last().len() implies (#[trigger] s.drop_last()[i]).0 != k by {
            assert(s.drop_last()[i] == s[i]);
        }
        lemma_attribute_value_absent(s.drop_last(), k);
    }
}

} // verus!
