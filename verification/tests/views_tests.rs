use legendary::models::{Asset, CustomAttribute, InstalledGame, KeyImage, LibraryItem, Screen};
use legendary::views::{
    can_upload, compare_saves, display_title, files_shown, install_changes, is_ea_title, is_ubisoft_title, listed_for_search,
    cover_image, play_time_text, update_available, SaveComparison,
};

fn item(app: &str, title: Option<&str>) -> LibraryItem {
    LibraryItem {
        app_name: app.to_string(),
        catalog_item_id: "c".to_string(),
        namespace: "ns".to_string(),
        title: title.map(|t| t.to_string()),
        additional_command_line: None,
    }
}

#[test]
fn titles_shown() {
    assert_eq!(display_title(&item("Anemone", Some("World of Goo")), Some("Saved Title".to_string())), "Saved Title");
    assert_eq!(display_title(&item("Anemone", Some("World of Goo")), None), "World of Goo");
    assert_eq!(display_title(&item("Anemone", None), None), "Anemone");
}

#[test]
fn library_search() {
    assert!(listed_for_search("World of Goo", "Anemone", ""));
    assert!(listed_for_search("World of Goo", "Anemone", "GOO"));
    assert!(listed_for_search("World of Goo", "Anemone", "anem"));
    assert!(!listed_for_search("World of Goo", "Anemone", "zelda"));
}

#[test]
fn manifest_file_search() {
    let files = vec!["Game/Content/Paks/A.pak".to_string(), "Game/Binaries/game.exe".to_string()];
    assert_eq!(files_shown(&files, "PAK"), vec!["Game/Content/Paks/A.pak".to_string()]);
    assert_eq!(files_shown(&files, ""), files);
    assert!(files_shown(&files, "zzz").is_empty());
}

#[test]
fn save_comparisons() {
    assert_eq!(compare_saves((100, 0), (101, 500_000_000)), SaveComparison::Synchronized);
    assert_eq!(compare_saves((200, 0), (100, 0)), SaveComparison::LocalNewer("1m 40s".to_string()));
    assert_eq!(compare_saves((100, 0), (90_100, 0)), SaveComparison::CloudNewer("1d 1h".to_string()));
    assert_eq!(compare_saves((102, 0), (100, 0)), SaveComparison::LocalNewer("2s".to_string()));
}

#[test]
fn upload_allowed() {
    assert!(can_upload(&Some("/s".to_string()), &None, &None, "A"));
    assert!(can_upload(&None, &Some("A".to_string()), &Some("/s".to_string()), "A"));
    assert!(!can_upload(&None, &Some("B".to_string()), &Some("/s".to_string()), "A"));
    assert!(!can_upload(&None, &Some("A".to_string()), &None, "A"));
}

fn game(app: &str) -> InstalledGame {
    InstalledGame {
        app_name: app.to_string(),
        install_path: "/g".to_string(),
        title: app.to_string(),
        version: "1".to_string(),
        executable: String::new(),
        install_size: 0,
        download_size: 0,
        platform: "Windows".to_string(),
        manifest_path: None,
    }
}

#[test]
fn install_state_changes() {
    let lib = vec![item("A", None), item("B", None), item("C", None)];
    let before = vec![game("A"), game("B")];
    let after = vec![game("B"), game("C")];
    assert_eq!(install_changes(&lib, &before, &after), vec![0, 2]);
    assert!(install_changes(&lib, &before, &before).is_empty());
}

#[test]
fn screens_compare() {
    assert_eq!(Screen::Library, Screen::Library);
    assert_ne!(Screen::Library, Screen::Tasks);
}

#[test]
fn partner_titles() {
    assert!(is_ubisoft_title(&Some("UbiSoft".to_string())));
    assert!(!is_ubisoft_title(&Some("ubisoft connect".to_string())));
    assert!(!is_ubisoft_title(&None));
    let attr = |v: &str| Some(vec![("ThirdPartyManagedApp".to_string(), CustomAttribute { value: v.to_string() })]);
    assert!(is_ea_title(&attr("The EA App")));
    assert!(is_ea_title(&attr("Origin")));
    assert!(!is_ea_title(&attr("Uplay")));
    assert!(!is_ea_title(&None));
}

fn asset(app: &str, build: &str) -> Asset {
    Asset {
        app_name: app.to_string(),
        catalog_item_id: "c".to_string(),
        namespace: "ns".to_string(),
        asset_id: "a".to_string(),
        build_version: build.to_string(),
        label_name: "Live".to_string(),
    }
}

#[test]
fn updates_shown() {
    let assets = vec![asset("Other", "9"), asset("Game", "2.0"), asset("Game", "1.0")];
    assert!(update_available("1.0", &assets, "Game"));
    assert!(!update_available("2.0", &assets, "Game"));
    assert!(!update_available("1.0", &assets, "Missing"));
}

fn image(kind: &str) -> KeyImage {
    KeyImage { url: format!("https://img/{}", kind), image_type: kind.to_string(), md5: None }
}

#[test]
fn cover_art_choice() {
    assert_eq!(cover_image(&vec![image("Thumbnail"), image("Wide"), image("DieselGameBoxTall")]), Some(2));
    assert_eq!(cover_image(&vec![image("Thumbnail"), image("Wide")]), Some(1));
    assert_eq!(cover_image(&vec![image("Thumbnail")]), None);
    assert_eq!(cover_image(&vec![image("DieselGameBoxTall")]), Some(0));
}

#[test]
fn play_time_shown() {
    assert_eq!(play_time_text(0), "0h 0m");
    assert_eq!(play_time_text(3 * 3600 + 25 * 60 + 59), "3h 25m");
    assert_eq!(play_time_text(59), "0h 0m");
}
