use legendary::config::{
    custom_wine_paths, default_store, default_true, find_custom_wines, find_steam_protons, steam_common_paths, AppConfig,
    DirEntry, GameSettings,
};
use legendary::library::{
    choose_manifest_path, config_dir_of, default_compat_data_path, folder_imports, imported_game, manifest_candidates, remove_installed,
    scan_egl_entries, unique_installed, EglEntry,
};
use legendary::models::{default_platform, InstalledGame, LibraryItem};

fn game(app: &str, path: &str) -> InstalledGame {
    InstalledGame {
        app_name: app.to_string(),
        install_path: path.to_string(),
        title: app.to_string(),
        version: "1".to_string(),
        executable: String::new(),
        install_size: 1,
        download_size: 1,
        platform: "Windows".to_string(),
        manifest_path: None,
    }
}

#[test]
fn config_dirs() {
    assert_eq!(config_dir_of("/home/u", false), "/home/u/.config/legendary");
    assert_eq!(config_dir_of("C:/Users/u", true), "C:/Users/u/AppData/Local/legendary");
}

#[test]
fn installed_kept_once_per_title() {
    let games = vec![game("A", "/1"), game("B", "/2"), game("A", "/3")];
    let u = unique_installed(games);
    assert_eq!(u.len(), 2);
    assert_eq!(u[0].app_name, "B");
    assert_eq!(u[1].install_path, "/3");
}

#[test]
fn uninstall_removes_every_entry() {
    let games = vec![game("A", "/1"), game("B", "/2"), game("A", "/3")];
    let r = remove_installed(games, "A");
    assert_eq!(r, vec![game("B", "/2")]);
}

fn egl(app: &str, loc: &str) -> EglEntry {
    EglEntry {
        app_name: app.to_string(),
        install_location: loc.to_string(),
        display_name: format!("{} title", app),
        app_version: "2.0".to_string(),
        launch_executable: "run.exe".to_string(),
    }
}

#[test]
fn store_launcher_imports() {
    let installed = vec![game("A", "/1")];
    let entries = vec![egl("A", "/x"), egl("B", "/b"), egl("", "/c"), egl("C", ""), egl("D", "/d"), egl("B", "/b2"), egl("E", "/e")];
    let exists = vec![true, true, true, true, false, true, true];
    let (out, changed) = scan_egl_entries(installed, &entries, &exists);
    assert!(changed);
    let names: Vec<&str> = out.iter().map(|g| g.app_name.as_str()).collect();
    assert_eq!(names, vec!["A", "B", "E"]);
    assert_eq!(out[1].install_path, "/b");
    assert_eq!(out[1].title, "B title");
    assert_eq!(out[1].version, "2.0");
    assert_eq!(out[1].executable, "run.exe");
    assert_eq!(out[1].install_size, 0);
    assert_eq!(out[1].platform, "Windows");
    let (same, changed2) = scan_egl_entries(vec![game("A", "/1")], &vec![egl("A", "/x")], &vec![true]);
    assert!(!changed2);
    assert_eq!(same.len(), 1);
}

fn item(app: &str) -> LibraryItem {
    LibraryItem {
        app_name: app.to_string(),
        catalog_item_id: format!("cat-{}", app),
        namespace: "ns".to_string(),
        title: None,
        additional_command_line: None,
    }
}

#[test]
fn folders_matched_to_titles() {
    let installed = vec![game("Done", "/d")];
    let library = vec![item("Game"), item("Done"), item("Other"), item("Game")];
    let attrs = vec![None, Some("Game".to_string()), Some("Game".to_string()), None];
    assert_eq!(folder_imports(&installed, &library, &attrs, "Game"), vec![0, 2]);
    assert!(folder_imports(&installed, &library, &attrs, "Nothing").is_empty());
}

#[test]
fn imported_records() {
    let g = imported_game(&item("Game"), "/games/Game", None, None, None, 42);
    assert_eq!(g.title, "Game");
    assert_eq!(g.version, "0.0.0");
    assert_eq!(g.executable, "");
    assert_eq!(g.install_size, 42);
    assert_eq!(g.platform, default_platform());
    let h = imported_game(
        &item("Game"),
        "/games/Game",
        Some("The Game".to_string()),
        Some(("bin/g.exe".to_string(), "1.2".to_string())),
        Some("/m/Game.manifest".to_string()),
        1,
    );
    assert_eq!(h.title, "The Game");
    assert_eq!(h.executable, "bin/g.exe");
    assert_eq!(h.version, "1.2");
    assert_eq!(h.manifest_path, Some("/m/Game.manifest".to_string()));
}

fn entry(name: &str, is_dir: bool) -> DirEntry {
    DirEntry { path: format!("/m/{}", name), name: name.to_string(), is_dir, is_file: !is_dir }
}

#[test]
fn saved_manifest_paths() {
    let (a, c) = manifest_candidates("/m", "Game", "cat");
    assert_eq!(a, "/m/Game.manifest");
    assert_eq!(c, "/m/cat.manifest");
    let entries = vec![entry("Other.manifest", false), entry("Game_Windows_Live.manifest", true), entry("cat_x.manifest", false)];
    assert_eq!(choose_manifest_path("/m", "Game", "cat", true, true, &entries), Some("/m/Game.manifest".to_string()));
    assert_eq!(choose_manifest_path("/m", "Game", "cat", false, true, &entries), Some("/m/cat.manifest".to_string()));
    assert_eq!(choose_manifest_path("/m", "Game", "cat", false, false, &entries), Some("/m/cat_x.manifest".to_string()));
    assert_eq!(choose_manifest_path("/m", "Game", "zzz", false, false, &entries[..2].to_vec()), None);
}

#[test]
fn config_defaults_and_lookup() {
    assert_eq!(default_store(), "egs");
    assert!(default_true());
    let mut cfg = AppConfig::default();
    assert!(cfg.games.is_empty());
    assert!(cfg.global.eos_overlay_enabled);
    let mut g = GameSettings::default();
    g.play_time_seconds = 5;
    cfg.games.push(("A".to_string(), GameSettings::default()));
    cfg.games.push(("A".to_string(), g));
    assert_eq!(cfg.game_index("A"), Some(1));
    assert_eq!(cfg.game_index("B"), None);
}

#[test]
fn proton_and_wine_dirs() {
    let paths = steam_common_paths("/home/u");
    assert_eq!(paths[0], "/home/u/.local/share/Steam/steamapps/common");
    assert_eq!(paths[1], "/home/u/.steam/root/steamapps/common");
    assert_eq!(paths[2], "/home/u/.steam/steam/steamapps/common");
    let entries = vec![
        DirEntry { path: "/c/Proton 8.0".to_string(), name: "Proton 8.0".to_string(), is_dir: true, is_file: false },
        DirEntry { path: "/c/proton-ge".to_string(), name: "proton-ge".to_string(), is_dir: true, is_file: false },
        DirEntry { path: "/c/Proton.txt".to_string(), name: "Proton.txt".to_string(), is_dir: false, is_file: true },
        DirEntry { path: "/c/Wine-GE".to_string(), name: "Wine-GE".to_string(), is_dir: true, is_file: false },
    ];
    assert_eq!(find_steam_protons(&entries), vec!["/c/Proton 8.0".to_string()]);
    assert_eq!(find_custom_wines(&entries), vec!["/c/Proton 8.0".to_string(), "/c/proton-ge".to_string(), "/c/Wine-GE".to_string()]);
    assert_eq!(
        custom_wine_paths("/home/u", Some("/home/u/.config/legendary".to_string())),
        vec!["/home/u/.local/share/Steam/compatibilitytools.d".to_string(), "/home/u/.config/legendary".to_string()]
    );
    assert_eq!(custom_wine_paths("/home/u", None).len(), 1);
}

#[test]
fn default_prefix_location() {
    assert_eq!(default_compat_data_path("/home/u/.config/legendary"), "/home/u/.config/legendary/compatdata/default");
    assert_eq!(default_compat_data_path("/cfg/"), "/cfg/compatdata/default");
}

#[test]
fn store_launcher_scan_settles() {
    let entries = vec![egl("A", "/a"), egl("B", "/b"), egl("A", "/a2"), egl("C", "/c")];
    let exists = vec![true, true, true, false];
    let (once, changed) = scan_egl_entries(vec![game("Z", "/z")], &entries, &exists);
    assert!(changed);
    let (twice, changed_again) = scan_egl_entries(once.clone(), &entries, &exists);
    assert!(!changed_again);
    assert_eq!(twice, once);
}

#[test]
fn folder_import_settles() {
    let mut installed = vec![game("Done", "/d")];
    let library = vec![item("Game"), item("Done"), item("Other"), item("Game")];
    let attrs = vec![None, Some("Game".to_string()), Some("Game".to_string()), None];
    for k in folder_imports(&installed, &library, &attrs, "Game") {
        let g = imported_game(&library[k], "/games/Game", None, None, None, 0);
        installed.push(g);
    }
    assert_eq!(installed.len(), 3);
    assert!(folder_imports(&installed, &library, &attrs, "Game").is_empty());
}
