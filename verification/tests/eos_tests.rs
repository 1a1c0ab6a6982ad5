use legendary::eos::{
    add_registry_entries, overlay_candidates, overlay_status, query_registry, remove_registry_entries,
    search_overlay_installs, EOS_OVERLAY_APP_ID,
};
use legendary::models::InstalledGame;

fn lines(v: &[&str]) -> Vec<String> {
    v.iter().map(|s| s.to_string()).collect()
}

fn reg_with_value() -> Vec<String> {
    lines(&[
        "WINE REGISTRY Version 2",
        "[Software\\\\Wine] 1700000000",
        "\"Foo\"=\"bar\"",
        "",
        "[SOFTWARE\\\\Epic Games\\\\EOS] 1700000001",
        "\"OverlayPath\"=\"C:\\\\Program Files\\\\EOS\"",
        "",
        "[Software\\\\Other] 1",
        "\"OverlayPath\"=\"not this\"",
    ])
}

#[test]
fn query_finds_overlay_path() {
    assert_eq!(query_registry(&reg_with_value()), Some("C:\\\\Program Files\\\\EOS".to_string()));
}

#[test]
fn query_ignores_other_sections() {
    let l = lines(&["[Software\\\\Other] 1", "\"OverlayPath\"=\"x\""]);
    assert_eq!(query_registry(&l), None);
    assert_eq!(query_registry(&Vec::new()), None);
}

#[test]
fn query_trims_whitespace_and_quotes() {
    let l = lines(&["  [SOFTWARE\\\\Epic Games\\\\EOS] 2  ", "   \"OverlayPath\" = \" Z:/eos \"  "]);
    assert_eq!(query_registry(&l), Some(" Z:/eos ".to_string()));
}

#[test]
fn remove_drops_value_lines() {
    let out = remove_registry_entries(&reg_with_value());
    assert_eq!(
        out,
        lines(&[
            "WINE REGISTRY Version 2",
            "[Software\\\\Wine] 1700000000",
            "\"Foo\"=\"bar\"",
            "",
            "[SOFTWARE\\\\Epic Games\\\\EOS] 1700000001",
            "",
            "[Software\\\\Other] 1",
            "\"OverlayPath\"=\"not this\"",
        ])
    );
    assert_eq!(query_registry(&out), None);
}

#[test]
fn add_replaces_existing_value() {
    let out = add_registry_entries("/home/u/eos", &reg_with_value());
    assert_eq!(out[5], "\"OverlayPath\"=\"Z:/home/u/eos\"");
    assert_eq!(out.len(), reg_with_value().len());
    assert_eq!(query_registry(&out), Some("Z:/home/u/eos".to_string()));
}

#[test]
fn add_keeps_drive_paths() {
    let out = add_registry_entries("C:\\Games\\EOS", &reg_with_value());
    assert_eq!(query_registry(&out), Some("C:/Games/EOS".to_string()));
}

#[test]
fn add_inserts_before_next_section() {
    let l = lines(&["[SOFTWARE\\\\Epic Games\\\\EOS] 1", "\"Other\"=\"1\"", "[Next] 2"]);
    let out = add_registry_entries("/eos", &l);
    assert_eq!(
        out,
        lines(&["[SOFTWARE\\\\Epic Games\\\\EOS] 1", "\"Other\"=\"1\"", "\"OverlayPath\"=\"Z:/eos\"", "[Next] 2"])
    );
}

#[test]
fn add_inserts_after_header_at_end() {
    let l = lines(&["[a] 1", "[SOFTWARE\\\\Epic Games\\\\EOS] 1"]);
    let out = add_registry_entries("/eos", &l);
    assert_eq!(out, lines(&["[a] 1", "[SOFTWARE\\\\Epic Games\\\\EOS] 1", "\"OverlayPath\"=\"Z:/eos\""]));
}

#[test]
fn add_appends_new_section() {
    let l = lines(&["WINE REGISTRY Version 2"]);
    let out = add_registry_entries("/opt/eos", &l);
    assert_eq!(
        out,
        lines(&[
            "WINE REGISTRY Version 2",
            "",
            "[SOFTWARE\\\\Epic Games\\\\EOS]",
            "\"OverlayPath\"=\"Z:/opt/eos\"",
        ])
    );
    assert_eq!(query_registry(&out), Some("Z:/opt/eos".to_string()));
}

#[test]
fn candidates_under_prefix() {
    let c = overlay_candidates("/pfx", &Some("Z:\\\\home\\\\u\\\\eos".to_string()));
    assert_eq!(c[0], "/pfx/drive_c/Program Files (x86)/Epic Games/Launcher/Portal/Extras/Overlay");
    assert_eq!(
        c[1],
        format!("/pfx/drive_c/Program Files (x86)/Epic Games/Epic Online Services/managedArtifacts/{}", EOS_OVERLAY_APP_ID)
    );
    assert_eq!(c[2], "/pfx/home//u//eos");
    let d = overlay_candidates("/pfx/", &Some("C:/Games/EOS".to_string()));
    assert_eq!(d[2], "/pfx/drive_c/Games/EOS");
    let e = overlay_candidates("/pfx", &Some("D:/x".to_string()));
    assert_eq!(e.len(), 2);
    let f = overlay_candidates("/pfx", &None);
    assert_eq!(f.len(), 2);
}

#[test]
fn search_keeps_existing_without_repeats() {
    let reg = Some("C:/Program Files (x86)/Epic Games/Launcher/Portal/Extras/Overlay".to_string());
    let existing = vec!["/pfx/drive_c/Program Files (x86)/Epic Games/Launcher/Portal/Extras/Overlay".to_string()];
    let found = search_overlay_installs(Some("/pfx"), &reg, &existing);
    assert_eq!(found, existing);
    assert!(search_overlay_installs(None, &reg, &existing).is_empty());
    assert!(search_overlay_installs(Some("/pfx"), &None, &Vec::new()).is_empty());
}

fn game(app: &str, path: &str) -> InstalledGame {
    InstalledGame {
        app_name: app.to_string(),
        install_path: path.to_string(),
        title: app.to_string(),
        version: "1".to_string(),
        executable: String::new(),
        install_size: 0,
        download_size: 0,
        platform: "Windows".to_string(),
        manifest_path: None,
    }
}

#[test]
fn status_reports_installed_overlay() {
    let games = vec![game("Other", "/g/o"), game(EOS_OVERLAY_APP_ID, "/g/eos")];
    let s = overlay_status(&games, Some("Z:/g/eos".to_string()), vec!["/x".to_string()]);
    assert!(s.installed);
    assert_eq!(s.install_path, Some("/g/eos".to_string()));
    assert_eq!(s.registry_path, Some("Z:/g/eos".to_string()));
    assert_eq!(s.available_paths, vec!["/x".to_string()]);
    let t = overlay_status(&vec![game("Other", "/g/o")], None, Vec::new());
    assert!(!t.installed);
    assert_eq!(t.install_path, None);
}

#[test]
fn remove_is_a_line_filter() {
    let input = reg_with_value();
    let out = remove_registry_entries(&input);
    let dropped: Vec<&String> = input.iter().filter(|l| !out.contains(l)).collect();
    assert_eq!(dropped, vec![&input[5]]);
    let mut kept = input.clone();
    kept.remove(5);
    assert_eq!(out, kept);
    assert_eq!(remove_registry_entries(&out), out);
}
