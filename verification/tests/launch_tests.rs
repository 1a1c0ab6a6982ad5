use legendary::config::{CompatibilityTool, GameSettings, GlobalSettings};
use legendary::launch::{
    can_run_offline, choose_runner, custom_prefix, effective_tool, effective_tool_path, runner_prefix, umu_env, epic_args, exe_candidates, fallback_exe, is_overlay_installed,
    file_name_matches, launch_env, launch_refused, pick_executable, needs_ownership_token, overlay_enabled, pre_launch_command, prefix_path,
    proton_script, recorded_exe_path, split_whitespace, sync_state, trailing_args, Runner, SyncState,
};
use legendary::models::{CustomAttribute, InstalledGame};

fn attrs(pairs: &[(&str, &str)]) -> Option<Vec<(String, CustomAttribute)>> {
    Some(pairs.iter().map(|(k, v)| (k.to_string(), CustomAttribute { value: v.to_string() })).collect())
}

#[test]
fn offline_rules() {
    assert!(can_run_offline(&None));
    assert!(can_run_offline(&attrs(&[("CanRunOffline", "TRUE")])));
    assert!(!can_run_offline(&attrs(&[("CanRunOffline", "false")])));
    assert!(!can_run_offline(&attrs(&[("CanRunOffline", "true"), ("CanRunOffline", "no")])));
    assert!(launch_refused("0", false));
    assert!(!launch_refused("0", true));
    assert!(!launch_refused("abc", false));
}

#[test]
fn ownership_token_rules() {
    assert!(needs_ownership_token(&attrs(&[("OwnershipToken", "True")]), "Game"));
    assert!(!needs_ownership_token(&attrs(&[("OwnershipToken", "false")]), "Game"));
    assert!(!needs_ownership_token(&None, "Game"));
    assert!(needs_ownership_token(&None, "HogwartsLegacy"));
}

fn settings() -> GameSettings {
    GameSettings::default()
}

#[test]
fn settings_defaults() {
    let g = GameSettings::default();
    assert!(g.cloud_sync_enabled);
    assert!(g.eos_overlay_enabled);
    assert!(!g.play_offline);
    assert_eq!(g.umu_store, None);
    let gl = GlobalSettings::default();
    assert!(gl.eos_overlay_enabled);
    assert_eq!(gl.umu_store, "egs");
}

#[test]
fn pre_launch_choice() {
    let mut global = GlobalSettings::default();
    let mut g = settings();
    assert_eq!(pre_launch_command(Some(&g), &global), None);
    global.pre_launch_command = "global.sh".to_string();
    assert_eq!(pre_launch_command(Some(&g), &global), Some("global.sh".to_string()));
    assert_eq!(pre_launch_command(None, &global), Some("global.sh".to_string()));
    g.pre_launch_command = "game.sh --fast".to_string();
    assert_eq!(pre_launch_command(Some(&g), &global), Some("game.sh --fast".to_string()));
}

#[test]
fn words_of_commands() {
    assert_eq!(split_whitespace("  a  bc\td\n"), vec!["a".to_string(), "bc".to_string(), "d".to_string()]);
    assert!(split_whitespace("   ").is_empty());
    assert_eq!(split_whitespace("x"), vec!["x".to_string()]);
}

#[test]
fn executable_candidates() {
    assert_eq!(exe_candidates("Game", &None), vec!["Game.exe", "Game.sh", "Game"]);
    assert_eq!(
        exe_candidates("Game", &attrs(&[("FolderName", "MyGame")])),
        vec!["Game.exe", "Game.sh", "Game", "MyGame.exe", "MyGame"]
    );
    assert_eq!(recorded_exe_path("/games/g", "\\Bin\\Win64\\g.exe"), "/games/g/Bin/Win64/g.exe");
    assert_eq!(recorded_exe_path("/games/g/", "Bin/g.exe"), "/games/g/Bin/g.exe");
    assert!(fallback_exe("Game.exe"));
    assert!(!fallback_exe("unins000.exe"));
    assert!(!fallback_exe("CrashReporter.exe"));
    assert!(!fallback_exe("vcredist_x64.exe"));
    assert!(!fallback_exe("UE4Redist.exe"));
    assert!(!fallback_exe("game.txt"));
    assert!(!fallback_exe(".exe"));
}

#[test]
fn epic_arguments() {
    let a = epic_args("tok", "App", "uid", &Some("Name".to_string()), &Some("ns".to_string()), &None, &Some("/c/App.ovt".to_string()));
    assert_eq!(
        a,
        vec![
            "-AUTH_LOGIN=unused",
            "-AUTH_PASSWORD=tok",
            "-AUTH_TYPE=exchangecode",
            "-epicapp=App",
            "-epicenv=Prod",
            "-EpicPortal",
            "-epicuserid=uid",
            "-epicusername=Name",
            "-epicsandboxid=ns",
            "-uid=uid",
            "-epiclocale=en",
            "-epicovt=/c/App.ovt",
        ]
    );
    let b = epic_args("0", "App", "", &None, &None, &Some("dep".to_string()), &None);
    assert_eq!(b[7], "-epicdeploymentid=dep");
    assert_eq!(b.len(), 10);
}

#[test]
fn launch_environment() {
    let global = GlobalSettings::default();
    let online = launch_env(false, true, true, "tok", "uid", "App", None, &global);
    let keys: Vec<&str> = online.iter().map(|(k, _)| k.as_str()).collect();
    assert_eq!(
        keys,
        vec!["EPIC_AUTH_PASSWORD", "EPIC_AUTH_LOGIN", "EPIC_AUTH_TYPE", "EPIC_USER_ID", "EPIC_ACCOUNT_ID", "EpicApp", "EpicEnv", "APP_NAME"]
    );
    assert_eq!(online[0].1, "tok");
    let offline = launch_env(true, true, false, "0", "uid", "App", None, &global);
    assert_eq!(offline[0], ("EOS_OVERLAY_KILLED".to_string(), "1".to_string()));
    assert_eq!(offline.len(), 4);
}

fn game(app: &str) -> InstalledGame {
    InstalledGame {
        app_name: app.to_string(),
        install_path: "/g".to_string(),
        title: app.to_string(),
        version: "1".to_string(),
        executable: String::new(),
        install_size: 0,
        download_size: 0,
        platform: "Windows".to_string(),
        manifest_path: None,
    }
}

#[test]
fn overlay_choice() {
    let mut g = settings();
    let global = GlobalSettings::default();
    assert!(overlay_enabled(Some(&g), &global));
    g.eos_overlay_enabled = false;
    assert!(!overlay_enabled(Some(&g), &global));
    assert!(overlay_enabled(None, &global));
    assert!(is_overlay_installed(&vec![game("x"), game(legendary::eos::EOS_OVERLAY_APP_ID)]));
    assert!(!is_overlay_installed(&vec![game("x")]));
}

#[test]
fn prefixes() {
    let mut g = settings();
    let mut global = GlobalSettings::default();
    assert_eq!(custom_prefix(Some(&g), &global), None);
    assert_eq!(prefix_path(Some(&g), &global, Some("/def".to_string())), Some("/def".to_string()));
    global.use_custom_pfx = true;
    global.custom_pfx_path = Some("/global".to_string());
    assert_eq!(custom_prefix(None, &global), Some("/global".to_string()));
    g.use_custom_pfx = true;
    g.custom_pfx_path = Some("/game".to_string());
    assert_eq!(custom_prefix(Some(&g), &global), Some("/game".to_string()));
    assert_eq!(prefix_path(Some(&g), &global, None), Some("/game".to_string()));
}

#[test]
fn runners() {
    let tp = Some("/tools/GE".to_string());
    assert_eq!(choose_runner(Some(CompatibilityTool::SteamProton), &tp, true), Runner::Proton("/tools/GE/proton".to_string()));
    assert_eq!(choose_runner(Some(CompatibilityTool::CustomProtonWine), &tp, false), Runner::Wine("/tools/GE/bin/wine".to_string()));
    assert_eq!(choose_runner(Some(CompatibilityTool::SteamProton), &None, true), Runner::SystemWine);
    assert_eq!(choose_runner(Some(CompatibilityTool::SystemWine), &tp, true), Runner::SystemWine);
    assert_eq!(choose_runner(None, &tp, true), Runner::SystemWine);
    assert_eq!(proton_script("/tools/GE"), "/tools/GE/proton");
}

#[test]
fn trailing_arguments() {
    let mut g = settings();
    assert!(trailing_args(None).is_empty());
    g.play_offline = true;
    g.start_params = " -dx12  -fullscreen".to_string();
    assert_eq!(trailing_args(Some(&g)), vec!["-offline", "-dx12", "-fullscreen"]);
}

#[test]
fn save_states() {
    assert_eq!(sync_state(Some((10, 0)), Some((9, 0))), SyncState::LocalNewer);
    assert_eq!(sync_state(Some((9, 0)), Some((9, 1))), SyncState::CloudNewer);
    assert_eq!(sync_state(Some((9, 1)), Some((9, 1))), SyncState::InSync);
    assert_eq!(sync_state(None, Some((9, 1))), SyncState::CloudOnly);
    assert_eq!(sync_state(Some((9, 1)), None), SyncState::LocalOnly);
    assert_eq!(sync_state(None, None), SyncState::NoSaves);
}

#[test]
fn executable_search_order() {
    let s = |x: &str| Some(x.to_string());
    assert_eq!(pick_executable(s("custom.exe"), s("rec.exe"), s("name.exe"), s("scan.exe")), s("custom.exe"));
    assert_eq!(pick_executable(None, s("rec.exe"), s("name.exe"), s("scan.exe")), s("rec.exe"));
    assert_eq!(pick_executable(None, None, s("name.exe"), s("scan.exe")), s("name.exe"));
    assert_eq!(pick_executable(None, None, None, s("scan.exe")), s("scan.exe"));
    assert_eq!(pick_executable(None, None, None, None), None);
}

#[test]
fn file_names_match_without_case() {
    assert!(file_name_matches("NVNGX_DLSS.dll", "nvngx_dlss.dll"));
    assert!(!file_name_matches("nvngx_dlssd.dll", "nvngx_dlss.dll"));
}

#[test]
fn tool_and_environment_by_game_then_global() {
    let mut global = GlobalSettings::default();
    global.compatibility_tool = Some(CompatibilityTool::SteamProton);
    global.custom_compatibility_path = Some("/g/tool".to_string());
    global.env_vars = vec![("A".to_string(), "global".to_string()), ("B".to_string(), "global".to_string())];
    global.steam_compat_data_path = Some("/g/data".to_string());
    global.proton_prefer_sdl = true;
    let mut game = GameSettings::default();
    assert_eq!(effective_tool(Some(&game), &global), Some(CompatibilityTool::SteamProton));
    assert_eq!(effective_tool_path(Some(&game), &global), Some("/g/tool".to_string()));
    game.compatibility_tool = Some(CompatibilityTool::UmuLauncher);
    game.custom_compatibility_path = Some("/own".to_string());
    game.env_vars = vec![("A".to_string(), "game".to_string())];
    game.steam_compat_app_id = Some("42".to_string());
    assert_eq!(effective_tool(Some(&game), &global), Some(CompatibilityTool::UmuLauncher));
    assert_eq!(effective_tool_path(Some(&game), &global), Some("/own".to_string()));
    assert_eq!(effective_tool(None, &global), Some(CompatibilityTool::SteamProton));

    let env = launch_env(true, true, true, "0", "uid", "App", Some(&game), &global);
    let last = |k: &str| env.iter().rev().find(|(n, _)| n == k).map(|(_, v)| v.clone());
    assert_eq!(last("A"), Some("game".to_string()));
    assert_eq!(last("B"), Some("global".to_string()));
    assert_eq!(last("PROTON_PREFER_SDL"), None);
    assert_eq!(last("STEAM_COMPAT_DATA_PATH"), Some("/g/data".to_string()));
    assert_eq!(last("STEAM_COMPAT_APP_ID"), Some("42".to_string()));
    assert_eq!(env.last().unwrap(), &("APP_NAME".to_string(), "App".to_string()));
    let g_env = launch_env(true, true, true, "0", "uid", "App", None, &global);
    assert!(g_env.iter().any(|(k, v)| k == "PROTON_PREFER_SDL" && v == "1"));
}

#[test]
fn umu_runner() {
    let mut global = GlobalSettings::default();
    global.use_custom_pfx = true;
    global.custom_pfx_path = Some("/pfx".to_string());
    let mut game = GameSettings::default();
    assert_eq!(choose_runner(Some(CompatibilityTool::UmuLauncher), &None, false), Runner::Umu);
    assert_eq!(runner_prefix(&Runner::Umu, Some(&game), &global), None);
    assert_eq!(runner_prefix(&Runner::SystemWine, Some(&game), &global), Some("/pfx".to_string()));
    assert_eq!(
        umu_env(Some(&game), &global, "App"),
        vec![("UMU_STORE".to_string(), "egs".to_string()), ("UMU_ID".to_string(), "App".to_string())]
    );
    game.umu_store = Some("gog".to_string());
    assert_eq!(umu_env(Some(&game), &global, "App")[0].1, "gog");
}
