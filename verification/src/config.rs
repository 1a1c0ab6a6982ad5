//! The launcher's settings: global ones, and those of each game.

use vstd::prelude::*;
use crate::paths::{path_join, join_path};
use crate::strs::{starts_with, contains_seq, has_prefix, has_infix};
use crate::text::{chars_of, lowercase, to_lowercase};

verus! {

/// The settings, with the games' settings under their app names.
#[derive(Debug, Clone, PartialEq, Eq)]
pub struct AppConfig {
    pub global: GlobalSettings,
    pub games: Vec<(String, GameSettings)>,
}

#[derive(Debug, Clone, PartialEq, Eq)]
pub struct GlobalSettings {
    pub game_paths: Vec<String>,
    pub use_custom_pfx: bool,
    pub custom_pfx_path: Option<String>,
    pub pre_launch_command: String,
    pub eos_overlay_enabled: bool,
    pub use_umu: bool,
    pub umu_store: String,
    pub compatibility_tool: Option<CompatibilityTool>,
    pub custom_compatibility_path: Option<String>,
    pub proton_prefer_sdl: bool,
    pub env_vars: Vec<(String, String)>,
    pub steam_compat_install_path: Option<String>,
    pub steam_compat_client_install_path: Option<String>,
    pub steam_compat_data_path: Option<String>,
    pub steam_compat_app_id: Option<String>,
}

#[derive(Debug, Clone, PartialEq, Eq)]
pub struct GameSettings {
    pub compatibility_tool: Option<CompatibilityTool>,
    pub custom_compatibility_path: Option<String>,
    pub play_time_seconds: u64,
    pub save_path: Option<String>,
    pub start_params: String,
    pub play_offline: bool,
    pub custom_exe_path: Option<String>,
    pub cloud_sync_enabled: bool,
    pub use_custom_pfx: bool,
    pub custom_pfx_path: Option<String>,
    pub pre_launch_command: String,
    pub eos_overlay_enabled: bool,
    pub use_umu: bool,
    pub umu_store: Option<String>,
    pub proton_prefer_sdl: bool,
    pub env_vars: Vec<(String, String)>,
    pub steam_compat_install_path: Option<String>,
    pub steam_compat_client_install_path: Option<String>,
    pub steam_compat_data_path: Option<String>,
    pub steam_compat_app_id: Option<String>,
    pub local_backup_path: Option<String>,
}

/// How a Windows game is run on Linux.
#[derive(Debug, Clone, Copy, PartialEq, Eq, Structural)]
pub enum CompatibilityTool {
    SteamProton,
    CustomProtonWine,
    SystemWine,
    UmuLauncher,
}

/// The store that `umu` is told about when none is set.
pub fn default_store() -> (r: String)
    ensures
        r@ == "egs"@,
{
    String::from_str("egs")
}

/// The value of settings that are on unless switched off.
pub fn default_true() -> (r: bool)
    ensures
        r,
{
    true
}

impl Default for GlobalSettings {
    fn default() -> (r: Self)
        ensures
            r.game_paths@.len() == 0,
            !r.use_custom_pfx,
            r.custom_pfx_path is None,
            r.pre_launch_command@.len() == 0,
            r.eos_overlay_enabled,
            !r.use_umu,
            r.umu_store@ == "egs"@,
            r.compatibility_tool is None,
            r.custom_compatibility_path is None,
            !r.proton_prefer_sdl,
            r.env_vars@.len() == 0,
            r.steam_compat_install_path is None,
            r.steam_compat_client_install_path is None,
            r.steam_compat_data_path is None,
            r.steam_compat_app_id is None,
    {
        GlobalSettings {
            game_paths: Vec::new(),
            use_custom_pfx: false,
            custom_pfx_path: None,
            pre_launch_command: String::new(),
            eos_overlay_enabled: true,
            use_umu: false,
            umu_store: default_store(),
            compatibility_tool: None,
            custom_compatibility_path: None,
            proton_prefer_sdl: false,
            env_vars: Vec::new(),
            steam_compat_install_path: None,
            steam_compat_client_install_path: None,
            steam_compat_data_path: None,
            steam_compat_app_id: None,
        }
    }
}

impl Default for GameSettings {
    fn default() -> (r: Self)
        ensures
            r.compatibility_tool is None,
            r.custom_compatibility_path is None,
            r.play_time_seconds == 0,
            r.save_path is None,
            r.start_params@.len() == 0,
            !r.play_offline,
            r.custom_exe_path is None,
            r.cloud_sync_enabled,
            !r.use_custom_pfx,
            r.custom_pfx_path is None,
            r.pre_launch_command@.len() == 0,
            r.eos_overlay_enabled,
            !r.use_umu,
            r.umu_store is None,
            !r.proton_prefer_sdl,
            r.env_vars@.len() == 0,
            r.steam_compat_install_path is None,
            r.steam_compat_client_install_path is None,
            r.steam_compat_data_path is None,
            r.steam_compat_app_id is None,
            r.local_backup_path is None,
    {
        GameSettings {
            compatibility_tool: None,
            custom_compatibility_path: None,
            play_time_seconds: 0,
            save_path: None,
            start_params: String::new(),
            play_offline: false,
            custom_exe_path: None,
            cloud_sync_enabled: true,
            use_custom_pfx: false,
            custom_pfx_path: None,
            pre_launch_command: String::new(),
            eos_overlay_enabled: true,
            use_umu: false,
            umu_store: None,
            proton_prefer_sdl: false,
            env_vars: Vec::new(),
            steam_compat_install_path: None,
            steam_compat_client_install_path: None,
            steam_compat_data_path: None,
            steam_compat_app_id: None,
            local_backup_path: None,
        }
    }
}

impl Default for AppConfig {
    fn default() -> (r: Self)
        ensures
            r.games@.len() == 0,
            r.global.game_paths@.len() == 0,
            !r.global.use_custom_pfx,
            r.global.custom_pfx_path is None,
            r.global.pre_launch_command@.len() == 0,
            r.global.eos_overlay_enabled,
            !r.global.use_umu,
            r.global.umu_store@ == "egs"@,
    {
        AppConfig { global: GlobalSettings::default(), games: Vec::new() }
    }
}

/// The position of the settings of `app`: the last entry under that name,
/// as a map read in order keeps it.
pub open spec fn spec_game_index(games: Seq<(String, GameSettings)>, app: Seq<char>) -> Option<int>
    decreases games.len(),
{
    if games.len() == 0 {
        None
    } else if games.last().0@ == app {
        Some(games.len() - 1)
    } else {
        spec_game_index(games.drop_last(), app)
    }
}

impl AppConfig {
    /// Where the settings of `app` are kept, if anywhere.
    pub fn game_index(&self, app: &str) -> (r: Option<usize>)
        ensures
            match (r, spec_game_index(self.games@, app@)) {
                (Some(i), Some(j)) => i == j && i < self.games@.len(),
                (None, None) => true,
                _ => false,
            },
    {
        let a = chars_of(app);
        let mut i: usize = self.games.len();
        assert(self.games@.take(i as int) =~= self.games@);
        while i > 0
            invariant
                i <= self.games@.len(),
                a@ == app@,
                spec_game_index(self.games@, app@) == spec_game_index(self.games@.take(i as int), app@),
            decreases i,
        {
            let k = i - 1;
            assert(self.games@.take(i as int).drop_last() =~= self.games@.take(k as int));
            let name = chars_of(self.games[k].0.as_str());
            if crate::order::chars_equal(name.as_slice(), a.as_slice()) {
                return Some(k);
            }
            i = k;
        }
        None
    }
}

/// An entry of a directory as listed: its full path, its last component,
/// and whether it is a directory or a plain file.
#[derive(Debug, Clone, PartialEq, Eq)]
pub struct DirEntry {
    pub path: String,
    pub name: String,
    pub is_dir: bool,
    pub is_file: bool,
}

/// Where Steam keeps its games under a home directory.
pub open spec fn spec_steam_common_paths(home: Seq<char>) -> Seq<Seq<char>> {
    seq![
        path_join(home, ".local/share/Steam/steamapps/common"@),
        path_join(home, ".steam/root/steamapps/common"@),
        path_join(home, ".steam/steam/steamapps/common"@),
    ]
}

/// The directories searched for Proton builds.
pub fn steam_common_paths(home: &str) -> (r: Vec<String>)
    ensures
        r@.map_values(|s: String| s@) == spec_steam_common_paths(home@),
{
    let mut r: Vec<String> = Vec::new();
    r.push(join_path(home, ".local/share/Steam/steamapps/common"));
    r.push(join_path(home, ".steam/root/steamapps/common"));
    r.push(join_path(home, ".steam/steam/steamapps/common"));
    assert(r@.map_values(|s: String| s@) =~= spec_steam_common_paths(home@));
    r
}

/// A listed directory that holds a Proton build.
pub open spec fn is_proton_dir(e: DirEntry) -> bool {
    e.is_dir && starts_with(e.name@, "Proton"@)
}

/// The paths of the entries that pass `keep`, in order.
pub open spec fn kept_paths(entries: Seq<DirEntry>, keep: spec_fn(DirEntry) -> bool) -> Seq<Seq<char>>
    decreases entries.len(),
{
    if entries.len() == 0 {
        seq![]
    } else {
        let rest = kept_paths(entries.drop_last(), keep);
        if keep(entries.last()) {
            rest.push(entries.last().path@)
        } else {
            rest
        }
    }
}

/// The Proton builds among the listed entries of Steam's game directories:
/// the directories whose name starts with `Proton`, in the order listed.
pub fn find_steam_protons(entries: &Vec<DirEntry>) -> (r: Vec<String>)
    ensures
        r@.map_values(|s: String| s@) == kept_paths(entries@, |e: DirEntry| is_proton_dir(e)),
{
    let prefix = chars_of("Proton");
    let mut out: Vec<String> = Vec::new();
    let mut i: usize = 0;
    while i < entries.len()
        invariant
            i <= entries@.len(),
            prefix@ == "Proton"@,
            out@.map_values(|s: String| s@) == kept_paths(entries@.take(i as int), |e: DirEntry| is_proton_dir(e)),
        decreases entries@.len() - i,
    {
        assert(entries@.take(i + 1).drop_last() =~= entries@.take(i as int));
        let ghost before = out@;
        let e = &entries[i];
        let name = chars_of(e.name.as_str());
        if e.is_dir && has_prefix(name.as_slice(), prefix.as_slice()) {
            out.push(e.path.clone());
            assert(out@.map_values(|s: String| s@) =~= before.map_values(|s: String| s@).push(e.path@));
        }
        i += 1;
    }
    assert(entries@.take(entries@.len() as int) =~= entries@);
    out
}

/// Where custom Wine and Proton builds are looked for: Steam's tools
/// directory, and the launcher's configuration directory where there is one.
pub open spec fn spec_custom_wine_paths(home: Seq<char>, config_dir: Option<Seq<char>>) -> Seq<Seq<char>> {
    let first = seq![path_join(home, ".local/share/Steam/compatibilitytools.d"@)];
    match config_dir {
        Some(c) => first.push(c),
        None => first,
    }
}

pub fn custom_wine_paths(home: &str, config_dir: Option<String>) -> (r: Vec<String>)
    ensures
        r@.map_values(|s: String| s@) == spec_custom_wine_paths(home@, match config_dir {
            Some(c) => Some(c@),
            None => None,
        }),
{
    let mut r: Vec<String> = Vec::new();
    r.push(join_path(home, ".local/share/Steam/compatibilitytools.d"));
    match config_dir {
        Some(c) => {
            r.push(c);
        },
        None => {},
    }
    assert(r@.map_values(|s: String| s@) =~= spec_custom_wine_paths(home@, match config_dir {
        Some(c) => Some(c@),
        None => None,
    }));
    r
}

/// A listed directory whose lower-cased name mentions Wine or Proton.
pub open spec fn is_custom_wine_dir(e: DirEntry) -> bool {
    e.is_dir && (contains_seq(lowercase(e.name@), "wine"@) || contains_seq(lowercase(e.name@), "proton"@))
}

/// The custom Wine and Proton builds among the listed entries: the
/// directories whose lower-cased name contains `wine` or `proton`.
pub fn find_custom_wines(entries: &Vec<DirEntry>) -> (r: Vec<String>)
    ensures
        r@.map_values(|s: String| s@) == kept_paths(entries@, |e: DirEntry| is_custom_wine_dir(e)),
{
    let wine = chars_of("wine");
    let proton = chars_of("proton");
    let mut out: Vec<String> = Vec::new();
    let mut i: usize = 0;
    while i < entries.len()
        invariant
            i <= entries@.len(),
            wine@ == "wine"@,
            proton@ == "proton"@,
            out@.map_values(|s: String| s@) == kept_paths(entries@.take(i as int), |e: DirEntry| is_custom_wine_dir(e)),
        decreases entries@.len() - i,
    {
        assert(entries@.take(i + 1).drop_last() =~= entries@.take(i as int));
        let ghost before = out@;
        let e = &entries[i];
        if e.is_dir {
            let lower = chars_of(to_lowercase(e.name.as_str()).as_str());
            if has_infix(lower.as_slice(), wine.as_slice()) || has_infix(lower.as_slice(), proton.as_slice()) {
                out.push(e.path.clone());
                assert(out@.map_values(|s: String| s@) =~= before.map_values(|s: String| s@).push(e.path@));
            }
        }
        i += 1;
    }
    assert(entries@.take(entries@.len() as int) =~= entries@);
    out
}

} // verus!
