use legendary::eos::EosOverlayStatus;
use legendary::models::{GameInfo, InstallInfo, InstalledGame, LibraryItem, OAuthToken, Screen};
use legendary::window::{
    accept_eula, apply_reply, collect_unaccepted, new_window, PendingEula, WindowAction, WindowState, WorkerReply,
};

fn token() -> OAuthToken {
    OAuthToken {
        access_token: "a".to_string(),
        expires_in: 3600,
        expires_at: "2030-01-01T00:00:00Z".to_string(),
        token_type: "bearer".to_string(),
        refresh_token: None,
        refresh_expires: None,
        refresh_expires_at: None,
        account_id: "acc".to_string(),
        client_id: "cli".to_string(),
        internal_client: true,
        client_service: "svc".to_string(),
        display_name: Some("User".to_string()),
        app: "app".to_string(),
        in_app_id: "in".to_string(),
        device_id: "dev".to_string(),
    }
}

fn game(app: &str) -> InstalledGame {
    InstalledGame {
        app_name: app.to_string(),
        install_path: format!("/games/{}", app),
        title: app.to_string(),
        version: "1".to_string(),
        executable: String::new(),
        install_size: 0,
        download_size: 0,
        platform: "Windows".to_string(),
        manifest_path: None,
    }
}

fn item(app: &str) -> LibraryItem {
    LibraryItem {
        app_name: app.to_string(),
        catalog_item_id: "c".to_string(),
        namespace: "ns".to_string(),
        title: None,
        additional_command_line: None,
    }
}

fn info(eulas: Option<Vec<&str>>) -> GameInfo {
    GameInfo {
        id: "id".to_string(),
        title: "Title".to_string(),
        description: None,
        key_images: Vec::new(),
        namespace: "ns".to_string(),
        custom_attributes: None,
        partner_link_type: None,
        eula_ids: eulas.map(|v| v.iter().map(|s| s.to_string()).collect()),
        dlc_item_list: Vec::new(),
    }
}

fn step(s: WindowState, r: WorkerReply) -> (WindowState, Vec<WindowAction>) {
    apply_reply(s, r)
}

#[test]
fn window_opens_on_login() {
    let s = new_window(vec![game("A")]);
    assert!(s.token.is_none());
    assert_eq!(s.current_view, Screen::Auth);
    assert_eq!(s.status_message, "Welcome to Legendary Rust");
    assert_eq!(s.installed_games.len(), 1);
    assert!(!s.task_running);
}

#[test]
fn login_and_errors() {
    let (s, acts) = step(new_window(Vec::new()), WorkerReply::LoggedIn(token()));
    assert!(acts.is_empty());
    assert_eq!(s.current_view, Screen::Library);
    assert_eq!(s.status_message, "Logged in");
    assert_eq!(s.token.as_ref().map(|t| t.account_id.as_str()), Some("acc"));
    let mut s = s;
    s.task_running = true;
    let (s, _) = step(s, WorkerReply::Error("boom".to_string()));
    assert_eq!(s.status_message, "Error: boom");
    assert!(!s.task_running);
    let (s, _) = step(s, WorkerReply::TaskFinished("done".to_string()));
    assert_eq!(s.status_message, "done");
    assert_eq!(s.current_view, Screen::Library);
}

#[test]
fn game_page_asks_for_eulas() {
    let (s, acts) = step(new_window(Vec::new()), WorkerReply::GameInfoFetched(info(Some(vec!["e1", "e2"]))));
    assert_eq!(s.current_view, Screen::GameDetail);
    assert_eq!(s.selected_game.as_ref().map(|g| g.title.as_str()), Some("Title"));
    assert_eq!(acts.len(), 1);
    match &acts[0] {
        WindowAction::CheckEula(ids) => assert_eq!(ids, &vec!["e1".to_string(), "e2".to_string()]),
        _ => panic!("expected a EULA check"),
    }
    let (_, none) = step(new_window(Vec::new()), WorkerReply::GameInfoFetched(info(Some(Vec::new()))));
    assert!(none.is_empty());
    let (_, none) = step(new_window(Vec::new()), WorkerReply::GameInfoFetched(info(None)));
    assert!(none.is_empty());
}

#[test]
fn install_dialog_selects_every_tag() {
    let i = InstallInfo {
        app_name: "A".to_string(),
        title: "A".to_string(),
        install_path: "/g/A".to_string(),
        download_size: 1,
        install_size: 2,
        free_space: 3,
        available_tags: vec!["de".to_string(), "fr".to_string()],
    };
    let (s, acts) = step(new_window(Vec::new()), WorkerReply::InstallInfoFetched(i));
    assert!(acts.is_empty());
    assert_eq!(s.current_view, Screen::InstallDialog);
    assert_eq!(s.selected_tags, vec!["de".to_string(), "fr".to_string()]);
    assert_eq!(s.install_info.map(|i| i.free_space), Some(3));
}

#[test]
fn scans_forget_images_of_changed_titles() {
    let (s, _) = step(new_window(vec![game("A")]), WorkerReply::LibraryFetched(vec![item("A"), item("B"), item("C")]));
    let (s, acts) = step(s, WorkerReply::GamesScanned(vec![game("B"), game("A")]));
    assert_eq!(s.installed_games.len(), 2);
    assert_eq!(acts.len(), 1);
    match &acts[0] {
        WindowAction::ForgetImages(p) => assert_eq!(p, &vec![1]),
        _ => panic!("expected images to forget"),
    }
    let (_, acts) = step(s, WorkerReply::GamesScanned(vec![game("A"), game("B")]));
    assert!(acts.is_empty());
}

#[test]
fn running_titles_listed_once() {
    let s = new_window(Vec::new());
    let (s, _) = step(s, WorkerReply::GameLaunched("A".to_string()));
    let (s, _) = step(s, WorkerReply::GameLaunched("B".to_string()));
    let (s, _) = step(s, WorkerReply::GameLaunched("A".to_string()));
    assert_eq!(s.running_apps, vec!["A".to_string(), "B".to_string()]);
    let (s, _) = step(s, WorkerReply::GameStopped("A".to_string()));
    assert_eq!(s.running_apps, vec!["B".to_string()]);
    let (s, _) = step(s, WorkerReply::GameStopped("Z".to_string()));
    assert_eq!(s.running_apps, vec!["B".to_string()]);
    let (s, _) = step(s, WorkerReply::GameLaunched("C".to_string()));
    let (s, _) = step(s, WorkerReply::GameStopped("C".to_string()));
    assert_eq!(s.running_apps, vec!["B".to_string()]);
}

#[test]
fn other_replies_fill_their_fields() {
    let (s, acts) = step(new_window(Vec::new()), WorkerReply::OriginUriFetched("link2ea://launch".to_string()));
    match &acts[..] {
        [WindowAction::OpenUri(u)] => assert_eq!(u, "link2ea://launch"),
        _ => panic!("expected an address to open"),
    }
    let (s, _) = step(s, WorkerReply::FilesListed(vec!["a.pak".to_string()]));
    assert_eq!(s.manifest_files, vec!["a.pak".to_string()]);
    let status = EosOverlayStatus { installed: true, install_path: Some("/o".to_string()), registry_path: None, available_paths: Vec::new() };
    let (s, _) = step(s, WorkerReply::EosStatusFetched(status));
    assert!(s.eos_status.installed);
    assert_eq!(s.current_view, Screen::Auth);
}

#[test]
fn save_sync_page_filled() {
    let reply = WorkerReply::SaveSyncStatusFetched {
        app_name: "A".to_string(),
        files: Vec::new(),
        local_time: Some((100, 0)),
        remote_time: None,
        backup_time: Some((50, 7)),
        error: None,
    };
    let (s, acts) = step(new_window(Vec::new()), reply);
    assert!(acts.is_empty());
    let st = s.save_sync_status.expect("status set");
    assert_eq!(st.app_name, "A");
    assert!(!st.loading);
    assert_eq!(st.local_time, Some((100, 0)));
    assert_eq!(st.backup_time, Some((50, 7)));
    assert!(st.remote_time.is_none());
}

fn eula(key: &str) -> PendingEula {
    PendingEula { key: key.to_string(), title: Some(format!("{} terms", key)), url: None, version: Some(2) }
}

#[test]
fn unaccepted_eulas_kept() {
    let s = new_window(Vec::new());
    assert!(s.unaccepted_eulas.is_empty());
    let pending = collect_unaccepted(&vec![Some(eula("a")), None, Some(eula("b"))]);
    assert_eq!(pending, vec![eula("a"), eula("b")]);
    let (s, acts) = step(s, WorkerReply::EulaStatusFetched(pending));
    assert!(acts.is_empty());
    assert_eq!(s.unaccepted_eulas.len(), 2);
    assert_eq!(accept_eula(s.unaccepted_eulas, "a"), vec![eula("b")]);
}

#[test]
fn selected_tags_listed_once() {
    let i = InstallInfo {
        app_name: "A".to_string(),
        title: "A".to_string(),
        install_path: "/g/A".to_string(),
        download_size: 1,
        install_size: 2,
        free_space: 3,
        available_tags: vec!["de".to_string(), "fr".to_string(), "de".to_string()],
    };
    let (s, _) = step(new_window(Vec::new()), WorkerReply::InstallInfoFetched(i));
    assert_eq!(s.selected_tags, vec!["de".to_string(), "fr".to_string()]);
}
