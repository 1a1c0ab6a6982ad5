use legendary::manifest::{FileManifest, Manifest, ManifestMeta};
use legendary::models::{Asset, CustomAttribute, LibraryItem};
use legendary::tasks::{
    account_save_dirs, cache_file_name, choose_save_path, construct_manifest_url, debug_blob_name, default_backup_path,
    default_install_path, eula_keys_to_check, extract_deployment_id, extract_eula_keys, find_asset, find_manifest_url,
    format_duration, format_duration_eta, hash_file, install_size_estimate, origin_extra_args, parse_u64,
    prefix_users_dir, save_candidates, save_hint, tally_verification, verification_message, FileCheck,
    ManifestElement, ManifestNode, QueryParam, Tally,
};
use sha2::{Digest, Sha256};

const KEY: &str = "0123456789abcdef0123456789abcdef";

#[test]
fn eula_keys_from_ids() {
    assert_eq!(extract_eula_keys(KEY), vec![KEY.to_string()]);
    assert_eq!(extract_eula_keys("0123456789ABCDEF0123456789ABCDEF"), vec![KEY.to_string()]);
    let two = format!("eula:{}-x-{}{}", KEY, KEY, "abc");
    assert_eq!(extract_eula_keys(&two), vec![KEY.to_string(), KEY.to_string()]);
    assert!(extract_eula_keys("egstore").is_empty());
    assert!(extract_eula_keys("0123456789abcdef0123456789abcde").is_empty());
    let long = format!("{}{}", KEY, "0123");
    assert_eq!(extract_eula_keys(&long), vec![KEY.to_string()]);
}

#[test]
fn eula_keys_checked_once() {
    let other = "fedcba9876543210fedcba9876543210";
    let ids = vec![KEY.to_string(), format!("x{}y{}", other, KEY.to_uppercase()), "none".to_string()];
    assert_eq!(eula_keys_to_check(&ids), vec![KEY.to_string(), other.to_string()]);
}

#[test]
fn file_hash_is_lower_hex_sha1() {
    assert_eq!(hash_file(b"abc"), "a9993e364706816aba3e25717850c26c9cd0d89d");
}

#[test]
fn cache_names() {
    let url = "https://x/img.png";
    let mut h = Sha256::new();
    h.update(url.as_bytes());
    h.update(b"v2");
    let expected = format!("{:x}.img", h.finalize());
    assert_eq!(cache_file_name(url), expected);
    assert_eq!(cache_file_name(url), "3258b17dcdcabeb69152820eb71976f5a2789659df4081aac2f5029ebb0462f2.img");
}

fn manifest_of(hashes: &[u8]) -> Manifest {
    Manifest {
        manifest_version: 18,
        meta: ManifestMeta { app_name: String::new(), build_version: String::new(), launch_exe: String::new(), launch_command: String::new() },
        chunks: Vec::new(),
        files: hashes
            .iter()
            .enumerate()
            .map(|(i, h)| FileManifest { filename: format!("f{}", i), hash: [*h; 20], chunk_parts: Vec::new(), file_size: 0, install_tags: Vec::new() })
            .collect(),
        total_uncompressed_size: 0,
        total_download_size: 0,
    }
}

#[test]
fn verification_tally() {
    let m = manifest_of(&[1, 2, 3, 4]);
    let checks = vec![
        FileCheck::Hashed("01".repeat(20)),
        FileCheck::Hashed("03".repeat(20)),
        FileCheck::Missing,
        FileCheck::Unreadable,
    ];
    let t = tally_verification(&m, &checks);
    assert_eq!(t, Tally { verified: 1, mismatches: 2, missing: 1 });
    assert_eq!(verification_message("Game", t), "Verification of Game complete. 1 verified, 2 mismatches, 1 missing.");
}

#[test]
fn durations() {
    assert_eq!(format_duration_eta(0), "0s");
    assert_eq!(format_duration_eta(59), "59s");
    assert_eq!(format_duration_eta(60), "1m 0s");
    assert_eq!(format_duration_eta(3599), "59m 59s");
    assert_eq!(format_duration_eta(3600), "1h 0m");
    assert_eq!(format_duration_eta(90061), "25h 1m");
    assert_eq!(format_duration(-59), "59s");
    assert_eq!(format_duration(3661), "1h 1m");
    assert_eq!(format_duration(86400), "1d 0h");
    assert_eq!(format_duration(-90061), "1d 1h");
}

#[test]
fn decimal_parsing() {
    assert_eq!(parse_u64("42"), Some(42));
    assert_eq!(parse_u64("+7"), Some(7));
    assert_eq!(parse_u64(""), None);
    assert_eq!(parse_u64("+"), None);
    assert_eq!(parse_u64("-1"), None);
    assert_eq!(parse_u64("1 2"), None);
    assert_eq!(parse_u64("18446744073709551615"), Some(u64::MAX));
    assert_eq!(parse_u64("18446744073709551616"), None);
}

fn attrs(pairs: &[(&str, &str)]) -> Option<Vec<(String, CustomAttribute)>> {
    Some(pairs.iter().map(|(k, v)| (k.to_string(), CustomAttribute { value: v.to_string() })).collect())
}

#[test]
fn install_estimates() {
    assert_eq!(install_size_estimate(&attrs(&[("MaxSizeMB", "100")])), 100 * 1024 * 1024);
    assert_eq!(install_size_estimate(&attrs(&[("MaxSizeMB", "lots")])), 10 * 1024 * 1024 * 1024);
    assert_eq!(install_size_estimate(&None), 10 * 1024 * 1024 * 1024);
    assert_eq!(install_size_estimate(&attrs(&[("MaxSizeMB", "0")])), 10 * 1024 * 1024 * 1024);
    assert_eq!(default_install_path(Some("/home/u".to_string()), "Game"), "/home/u/Games/Game");
    assert_eq!(default_install_path(None, "Game"), "/tmp/Game");
}

fn asset(app: &str, cat: &str) -> Asset {
    Asset {
        app_name: app.to_string(),
        catalog_item_id: cat.to_string(),
        namespace: "ns".to_string(),
        asset_id: "id".to_string(),
        build_version: "1".to_string(),
        label_name: "Live".to_string(),
    }
}

#[test]
fn assets_found() {
    let a = vec![asset("X", "c1"), asset("Y", "c2"), asset("Z", "c2")];
    assert_eq!(find_asset(&a, "Y", None), Some(1));
    assert_eq!(find_asset(&a, "Q", Some("c2")), Some(1));
    assert_eq!(find_asset(&a, "Q", None), None);
    assert_eq!(find_asset(&a, "Z", Some("c1")), Some(0));
}

#[test]
fn manifest_urls() {
    let node = ManifestNode {
        uri: Some("https://cdn/x.manifest".to_string()),
        query_params: Some(vec![
            QueryParam { name: Some("a b".to_string()), value: Some("c/d".to_string()) },
            QueryParam { name: Some("k".to_string()), value: None },
        ]),
    };
    assert_eq!(construct_manifest_url(&node), Some("https://cdn/x.manifest?a%20b=c%2Fd&k=".to_string()));
    let bare = ManifestNode { uri: Some("https://cdn/y".to_string()), query_params: Some(Vec::new()) };
    assert_eq!(construct_manifest_url(&bare), Some("https://cdn/y".to_string()));
    let none = ManifestNode { uri: None, query_params: None };
    assert_eq!(construct_manifest_url(&none), None);
    let elements = Some(vec![
        ManifestElement { manifests: None },
        ManifestElement { manifests: Some(vec![none.clone(), bare.clone()]) },
        ManifestElement { manifests: Some(vec![node]) },
    ]);
    assert_eq!(find_manifest_url(&elements), Some("https://cdn/y".to_string()));
    assert_eq!(find_manifest_url(&None), None);
}

#[test]
fn deployment_ids() {
    assert_eq!(extract_deployment_id(&Some("{\"deploymentId\":\"abc\"}".to_string())), Some("abc".to_string()));
    assert_eq!(extract_deployment_id(&Some("{\"deploymentId\":3}".to_string())), None);
    assert_eq!(extract_deployment_id(&Some("not json".to_string())), None);
    assert_eq!(extract_deployment_id(&None), None);
}

#[test]
fn debug_names() {
    assert_eq!(debug_blob_name("20240101-000000-000", "a/b c.chunk"), "20240101-000000-000-a_b_c.chunk");
}

#[test]
fn save_search() {
    assert_eq!(save_hint(&attrs(&[("CloudSaveFolder", "My Game")]), "App"), "My Game");
    assert_eq!(save_hint(&None, "App"), "App");
    assert_eq!(prefix_users_dir("/pfx"), "/pfx/pfx/drive_c/users");
    let c = save_candidates(&vec!["/u/steamuser".to_string()], "My Game");
    assert_eq!(c.len(), 8);
    assert_eq!(c[0], "/u/steamuser/AppData/Local/My Game");
    assert_eq!(c[1], "/u/steamuser/AppData/Local/MyGame");
    assert_eq!(c[7], "/u/steamuser/My Documents/MyGame");
    let (a, s) = account_save_dirs("/s", "acc");
    assert_eq!(a, "/s/acc");
    assert_eq!(s, "/s/Saved/SaveGames/acc");
    assert_eq!(choose_save_path("/s", &Some("acc".to_string()), true, true), "/s/acc");
    assert_eq!(choose_save_path("/s", &Some("acc".to_string()), false, true), "/s/Saved/SaveGames/acc");
    assert_eq!(choose_save_path("/s", &Some("acc".to_string()), false, false), "/s");
    assert_eq!(choose_save_path("/s", &None, true, true), "/s");
    assert_eq!(default_backup_path("/cfg", "App"), "/cfg/App");
}

#[test]
fn origin_arguments() {
    let lib = vec![LibraryItem {
        app_name: "Origin1".to_string(),
        catalog_item_id: "c".to_string(),
        namespace: "ns".to_string(),
        title: None,
        additional_command_line: Some("-x".to_string()),
    }];
    assert_eq!(origin_extra_args(&lib, "Origin1"), Some("-x".to_string()));
    assert_eq!(origin_extra_args(&lib, "Other"), None);
}
