//! The launcher window's state between frames, and how each reply of the
//! background worker changes it and what it asks to be done next.

use vstd::prelude::*;
use crate::eos::EosOverlayStatus;
use crate::install::strings_view;
use crate::models::{
    AdvancedInfo, Asset, CloudSaveFile, GameInfo, InstallInfo, InstalledGame, LibraryItem, OAuthToken, SaveSyncStatus, Screen,
};
use crate::text::{push_str, str_equal};
use crate::views::{install_changes, spec_install_changes};
use crate::tasks::{first_occurrences, lemma_first_occurrences};

verus! {

/// What the window holds. A running task is only flagged here: its progress
/// is a fraction, which the window draws itself.
pub struct WindowState {
    pub token: Option<OAuthToken>,
    pub library: Vec<LibraryItem>,
    pub installed_games: Vec<InstalledGame>,
    pub assets: Vec<Asset>,
    pub selected_game: Option<GameInfo>,
    pub current_view: Screen,
    pub status_message: String,
    pub task_running: bool,
    pub install_info: Option<InstallInfo>,
    pub selected_tags: Vec<String>,
    pub manifest_files: Vec<String>,
    pub running_apps: Vec<String>,
    pub eos_status: EosOverlayStatus,
    pub advanced_info: Option<AdvancedInfo>,
    pub save_sync_status: Option<SaveSyncStatus>,
    pub unaccepted_eulas: Vec<PendingEula>,
}

/// An agreement the account has not accepted yet, as the service describes
/// it: its key, title, address and version, where given.
#[derive(Debug, Clone, PartialEq, Eq)]
pub struct PendingEula {
    pub key: String,
    pub title: Option<String>,
    pub url: Option<String>,
    pub version: Option<i64>,
}

/// The agreements among the answers that still wait, in the order asked.
pub open spec fn spec_pending(answers: Seq<Option<PendingEula>>) -> Seq<PendingEula>
    decreases answers.len(),
{
    if answers.len() == 0 {
        seq![]
    } else {
        let r = spec_pending(answers.drop_last());
        match answers.last() {
            Some(e) => r.push(e),
            None => r,
        }
    }
}

fn copy_text(o: &Option<String>) -> (r: Option<String>)
    ensures
        r == *o,
{
    match o {
        Some(s) => Some(s.clone()),
        None => None,
    }
}

fn copy_eula(e: &PendingEula) -> (r: PendingEula)
    ensures
        r == *e,
{
    PendingEula { key: e.key.clone(), title: copy_text(&e.title), url: copy_text(&e.url), version: e.version }
}

/// Collects the agreements that wait for acceptance from the service's
/// answers, one per agreement asked about (`None` where it is accepted,
/// unknown, or could not be asked).
pub fn collect_unaccepted(answers: &Vec<Option<PendingEula>>) -> (r: Vec<PendingEula>)
    ensures
        r@ == spec_pending(answers@),
{
    let mut out: Vec<PendingEula> = Vec::new();
    let mut i: usize = 0;
    while i < answers.len()
        invariant
            i <= answers@.len(),
            out@ == spec_pending(answers@.take(i as int)),
        decreases answers@.len() - i,
    {
        assert(answers@.take(i + 1).drop_last() =~= answers@.take(i as int));
        assert(answers@.take(i + 1).last() == answers@[i as int]);
        match &answers[i] {
            Some(e) => out.push(copy_eula(e)),
            None => {},
        }
        i += 1;
    }
    assert(answers@.take(answers@.len() as int) =~= answers@);
    out
}

/// Whether an agreement has another key than `key`.
pub open spec fn other_eula(key: Seq<char>) -> spec_fn(PendingEula) -> bool {
    |e: PendingEula| e.key@ != key
}

/// The waiting agreements once one is accepted: all but those of its key.
pub open spec fn spec_without_eula(list: Seq<PendingEula>, key: Seq<char>) -> Seq<PendingEula> {
    list.filter(other_eula(key))
}

pub fn accept_eula(list: Vec<PendingEula>, key: &str) -> (r: Vec<PendingEula>)
    ensures
        r@ == spec_without_eula(list@, key@),
{
    let mut out: Vec<PendingEula> = Vec::new();
    let mut i: usize = 0;
    while i < list.len()
        invariant
            i <= list@.len(),
            out@ == list@.take(i as int).filter(other_eula(key@)),
        decreases list@.len() - i,
    {
        assert(list@.take(i + 1) =~= list@.take(i as int).push(list@[i as int]));
        proof {
            list@.take(i as int).lemma_filter_push(list@[i as int], other_eula(key@));
        }
        if !str_equal(list[i].key.as_str(), key) {
            out.push(copy_eula(&list[i]));
        }
        i += 1;
    }
    assert(list@.take(list@.len() as int) =~= list@);
    out
}

/// A reply of the background worker.
pub enum WorkerReply {
    LoggedIn(OAuthToken),
    LibraryFetched(Vec<LibraryItem>),
    GameInfoFetched(GameInfo),
    AssetsFetched(Vec<Asset>),
    Error(String),
    TaskFinished(String),
    OriginUriFetched(String),
    InstallInfoFetched(InstallInfo),
    GamesScanned(Vec<InstalledGame>),
    FilesListed(Vec<String>),
    GameLaunched(String),
    GameStopped(String),
    EosStatusFetched(EosOverlayStatus),
    AdvancedInfoFetched(AdvancedInfo),
    EulaStatusFetched(Vec<PendingEula>),
    SaveSyncStatusFetched {
        app_name: String,
        files: Vec<CloudSaveFile>,
        local_time: Option<(i64, u32)>,
        remote_time: Option<(i64, u32)>,
        backup_time: Option<(i64, u32)>,
        error: Option<String>,
    },
}

/// What the window asks for after a reply.
pub enum WindowAction {
    /// Ask the worker which of these EULAs are not accepted yet.
    CheckEula(Vec<String>),
    /// Open this address in the system's browser or handler.
    OpenUri(String),
    /// Drop the cached images of the library titles at these positions.
    ForgetImages(Vec<usize>),
}

/// An action as plain values.
pub enum ActionView {
    CheckEula(Seq<Seq<char>>),
    OpenUri(Seq<char>),
    ForgetImages(Seq<usize>),
}

pub open spec fn action_view(a: WindowAction) -> ActionView {
    match a {
        WindowAction::CheckEula(ids) => ActionView::CheckEula(strings_view(ids@)),
        WindowAction::OpenUri(u) => ActionView::OpenUri(u@),
        WindowAction::ForgetImages(p) => ActionView::ForgetImages(p@),
    }
}

/// Whether the window holds no running title twice.
pub open spec fn runs_once(apps: Seq<Seq<char>>) -> bool {
    forall|i: int, j: int| 0 <= i < j < apps.len() ==> apps[i] != apps[j]
}

/// The window's invariant: each running title is listed once, and so is
/// each selected install tag.
pub open spec fn window_wf(s: WindowState) -> bool {
    &&& runs_once(strings_view(s.running_apps@))
    &&& runs_once(strings_view(s.selected_tags@))
}

/// The window as it opens: not logged in, on the login screen, with the
/// installed titles read from disk.
pub fn new_window(installed_games: Vec<InstalledGame>) -> (s: WindowState)
    ensures
        window_wf(s),
        s.token is None,
        s.library@.len() == 0,
        s.installed_games == installed_games,
        s.assets@.len() == 0,
        s.selected_game is None,
        s.current_view == Screen::Auth,
        s.status_message@ == "Welcome to Legendary Rust"@,
        !s.task_running,
        s.install_info is None,
        s.selected_tags@.len() == 0,
        s.manifest_files@.len() == 0,
        s.running_apps@.len() == 0,
        !s.eos_status.installed,
        s.eos_status.install_path is None,
        s.eos_status.registry_path is None,
        s.eos_status.available_paths@.len() == 0,
        s.advanced_info is None,
        s.save_sync_status is None,
        s.unaccepted_eulas@.len() == 0,
{
    WindowState {
        token: None,
        library: Vec::new(),
        installed_games,
        assets: Vec::new(),
        selected_game: None,
        current_view: Screen::Auth,
        status_message: String::from_str("Welcome to Legendary Rust"),
        task_running: false,
        install_info: None,
        selected_tags: Vec::new(),
        manifest_files: Vec::new(),
        running_apps: Vec::new(),
        eos_status: EosOverlayStatus { installed: false, install_path: None, registry_path: None, available_paths: Vec::new() },
        advanced_info: None,
        save_sync_status: None,
        unaccepted_eulas: Vec::new(),
    }
}

fn copy_strings(v: &Vec<String>) -> (r: Vec<String>)
    ensures
        r@ == v@,
{
    let mut out: Vec<String> = Vec::new();
    let mut i: usize = 0;
    while i < v.len()
        invariant
            i <= v@.len(),
            out@ == v@.take(i as int),
        decreases v@.len() - i,
    {
        out.push(v[i].clone());
        i += 1;
        assert(out@ =~= v@.take(i as int));
    }
    assert(v@.take(v@.len() as int) =~= v@);
    out
}

/// The tags, each once, in the order first met.
fn unique_tags(tags: &Vec<String>) -> (r: Vec<String>)
    ensures
        strings_view(r@) == first_occurrences(strings_view(tags@)),
        runs_once(strings_view(r@)),
{
    let ghost sv = strings_view(tags@);
    let mut out: Vec<String> = Vec::new();
    let mut i: usize = 0;
    while i < tags.len()
        invariant
            i <= tags@.len(),
            sv == strings_view(tags@),
            strings_view(out@) == first_occurrences(sv.take(i as int)),
        decreases tags@.len() - i,
    {
        proof {
            lemma_first_occurrences(sv.take(i as int));
            assert(sv.take(i + 1).drop_last() =~= sv.take(i as int));
            assert(sv.take(i + 1).last() == tags@[i as int]@);
        }
        match position_of(&out, tags[i].as_str()) {
            Some(j) => {
                proof {
                    assert(strings_view(out@)[j as int] == tags@[i as int]@);
                    assert(strings_view(out@).contains(tags@[i as int]@));
                    assert(sv.take(i as int).contains(tags@[i as int]@));
                }
            },
            None => {
                let ghost before = out@;
                out.push(tags[i].clone());
                assert(strings_view(out@) =~= strings_view(before).push(tags@[i as int]@));
            },
        }
        i += 1;
    }
    proof {
        assert(sv.take(tags@.len() as int) =~= sv);
        lemma_first_occurrences(sv);
    }
    out
}

fn position_of(v: &Vec<String>, x: &str) -> (r: Option<usize>)
    ensures
        match r {
            Some(i) => i < v@.len() && v@[i as int]@ == x@,
            None => !strings_view(v@).contains(x@),
        },
{
    let mut i: usize = 0;
    while i < v.len()
        invariant
            i <= v@.len(),
            forall|k: int| 0 <= k < i ==> v@[k]@ != x@,
        decreases v@.len() - i,
    {
        if str_equal(v[i].as_str(), x) {
            return Some(i);
        }
        i += 1;
    }
    proof {
        if strings_view(v@).contains(x@) {
            let k = choose|k: int| 0 <= k < strings_view(v@).len() && strings_view(v@)[k] == x@;
            assert(v@[k]@ == x@);
        }
    }
    None
}

/// The running titles after one more starts: it is added where it is not
/// listed yet.
pub open spec fn with_running(apps: Seq<Seq<char>>, app: Seq<char>) -> Seq<Seq<char>> {
    if apps.contains(app) { apps } else { apps.push(app) }
}

/// Whether a title is another than `app`.
pub open spec fn other_than(app: Seq<char>) -> spec_fn(Seq<char>) -> bool {
    |a: Seq<char>| a != app
}

/// The running titles after one stops.
pub open spec fn without_running(apps: Seq<Seq<char>>, app: Seq<char>) -> Seq<Seq<char>> {
    apps.filter(other_than(app))
}

/// The running titles after a reply.
pub open spec fn spec_running_after(apps: Seq<Seq<char>>, reply: WorkerReply) -> Seq<Seq<char>> {
    match reply {
        WorkerReply::GameLaunched(a) => with_running(apps, a@),
        WorkerReply::GameStopped(a) => without_running(apps, a@),
        _ => apps,
    }
}

/// The screen after a reply.
pub open spec fn spec_view_after(v: Screen, reply: WorkerReply) -> Screen {
    match reply {
        WorkerReply::LoggedIn(_) => Screen::Library,
        WorkerReply::GameInfoFetched(_) => Screen::GameDetail,
        WorkerReply::InstallInfoFetched(_) => Screen::InstallDialog,
        _ => v,
    }
}

/// The status line after a reply.
pub open spec fn spec_status_after(m: Seq<char>, reply: WorkerReply) -> Seq<char> {
    match reply {
        WorkerReply::LoggedIn(_) => "Logged in"@,
        WorkerReply::Error(e) => "Error: "@ + e@,
        WorkerReply::TaskFinished(msg) => msg@,
        _ => m,
    }
}

/// What the window asks for after a reply: the EULAs of a game whose page
/// opens, an address to open, and the library titles whose install state a
/// scan changed.
pub open spec fn spec_actions(library: Seq<LibraryItem>, installed: Seq<InstalledGame>, reply: WorkerReply) -> Seq<ActionView> {
    match reply {
        WorkerReply::GameInfoFetched(g) => match g.eula_ids {
            Some(ids) => if ids@.len() > 0 {
                seq![ActionView::CheckEula(strings_view(ids@))]
            } else {
                seq![]
            },
            None => seq![],
        },
        WorkerReply::OriginUriFetched(u) => seq![ActionView::OpenUri(u@)],
        WorkerReply::GamesScanned(games) => {
            let changed = spec_install_changes(library, installed, games@);
            if changed.len() > 0 {
                seq![ActionView::ForgetImages(changed)]
            } else {
                seq![]
            }
        },
        _ => seq![],
    }
}

proof fn lemma_filter_keeps_all(apps: Seq<Seq<char>>, app: Seq<char>)
    requires
        forall|k: int| 0 <= k < apps.len() ==> #[trigger] apps[k] != app,
    ensures
        without_running(apps, app) == apps,
    decreases apps.len(),
{
    if apps.len() > 0 {
        let rest = apps.drop_last();
        assert forall|k: int| 0 <= k < rest.len() implies #[trigger] rest[k] != app by {
            assert(apps[k] == rest[k]);
        }
        lemma_filter_keeps_all(rest, app);
        assert(apps =~= rest.push(apps.last()));
        rest.lemma_filter_push(apps.last(), other_than(app));
        assert(apps[apps.len() - 1] != app);
    }
}

proof fn lemma_filter_keeps_once(apps: Seq<Seq<char>>, app: Seq<char>)
    requires
        runs_once(apps),
    ensures
        runs_once(without_running(apps, app)),
        !without_running(apps, app).contains(app),
    decreases apps.len(),
{
    let f = other_than(app);
    if apps.len() > 0 {
        let rest = apps.drop_last();
        assert(runs_once(rest));
        lemma_filter_keeps_once(rest, app);
        assert(apps =~= rest.push(apps.last()));
        rest.lemma_filter_push(apps.last(), f);
        let fr = rest.filter(f);
        if apps.last() != app {
            assert(!fr.contains(apps.last())) by {
                if fr.contains(apps.last()) {
                    rest.lemma_filter_contains_rev(f, apps.last());
                    let k = choose|k: int| 0 <= k < rest.len() && rest[k] == apps.last();
                    assert(apps[k] == apps[apps.len() - 1]);
                }
            }
        }
    }
}

proof fn lemma_remove_at_is_filter(apps: Seq<Seq<char>>, app: Seq<char>, i: int)
    requires
        runs_once(apps),
        0 <= i < apps.len(),
        apps[i] == app,
    ensures
        apps.remove(i) == without_running(apps, app),
    decreases apps.len(),
{
    let f = other_than(app);
    let rest = apps.drop_last();
    assert(apps =~= rest.push(apps.last()));
    rest.lemma_filter_push(apps.last(), f);
    if i == apps.len() - 1 {
        assert(apps.remove(i) =~= rest);
        assert forall|k: int| 0 <= k < rest.len() implies #[trigger] rest[k] != app by {
            assert(apps[k] == rest[k]);
        }
        lemma_filter_keeps_all(rest, app);
    } else {
        assert(runs_once(rest));
        assert(rest[i] == app);
        lemma_remove_at_is_filter(rest, app, i);
        assert(apps.last() != app);
        assert(apps.remove(i) =~= rest.remove(i).push(apps.last()));
    }
}

fn running_after(apps: Vec<String>, reply: &WorkerReply) -> (r: Vec<String>)
    requires
        runs_once(strings_view(apps@)),
    ensures
        runs_once(strings_view(r@)),
        strings_view(r@) == spec_running_after(strings_view(apps@), *reply),
{
    let mut apps = apps;
    match reply {
        WorkerReply::GameLaunched(a) => {
            match position_of(&apps, a.as_str()) {
                Some(i) => {
                    proof {
                        let v = strings_view(apps@);
                        assert(v[i as int] == a@);
                        assert(v.contains(a@));
                    }
                },
                None => {
                    let ghost before = apps@;
                    apps.push(a.clone());
                    assert(strings_view(apps@) =~= strings_view(before).push(a@));
                },
            }
            apps
        },
        WorkerReply::GameStopped(a) => {
            let ghost before = strings_view(apps@);
            proof {
                lemma_filter_keeps_once(before, a@);
            }
            match position_of(&apps, a.as_str()) {
                Some(i) => {
                    let ghost orig = apps@;
                    apps.remove(i);
                    proof {
                        assert(strings_view(apps@) =~= before.remove(i as int));
                        lemma_remove_at_is_filter(before, a@, i as int);
                    }
                },
                None => {
                    proof {
                        assert forall|k: int| 0 <= k < before.len() implies #[trigger] before[k] != a@ by {
                            assert(before.contains(before[k]));
                        }
                        lemma_filter_keeps_all(before, a@);
                    }
                },
            }
            apps
        },
        _ => apps,
    }
}

/// How a reply of the worker changes the window, and what the window asks
/// for next.
pub fn apply_reply(s: WindowState, reply: WorkerReply) -> (r: (WindowState, Vec<WindowAction>))
    requires
        window_wf(s),
    ensures
        window_wf(r.0),
        r.0.token == match reply {
            WorkerReply::LoggedIn(t) => Some(t),
            _ => s.token,
        },
        r.0.library == match reply {
            WorkerReply::LibraryFetched(v) => v,
            _ => s.library,
        },
        r.0.installed_games == match reply {
            WorkerReply::GamesScanned(v) => v,
            _ => s.installed_games,
        },
        r.0.assets == match reply {
            WorkerReply::AssetsFetched(v) => v,
            _ => s.assets,
        },
        r.0.selected_game == match reply {
            WorkerReply::GameInfoFetched(g) => Some(g),
            _ => s.selected_game,
        },
        r.0.current_view == spec_view_after(s.current_view, reply),
        r.0.status_message@ == spec_status_after(s.status_message@, reply),
        r.0.task_running == match reply {
            WorkerReply::Error(_) | WorkerReply::TaskFinished(_) => false,
            _ => s.task_running,
        },
        r.0.install_info == match reply {
            WorkerReply::InstallInfoFetched(i) => Some(i),
            _ => s.install_info,
        },
        strings_view(r.0.selected_tags@) == match reply {
            WorkerReply::InstallInfoFetched(i) => first_occurrences(strings_view(i.available_tags@)),
            _ => strings_view(s.selected_tags@),
        },
        r.0.manifest_files == match reply {
            WorkerReply::FilesListed(v) => v,
            _ => s.manifest_files,
        },
        strings_view(r.0.running_apps@) == spec_running_after(strings_view(s.running_apps@), reply),
        r.0.eos_status == match reply {
            WorkerReply::EosStatusFetched(e) => e,
            _ => s.eos_status,
        },
        r.0.advanced_info == match reply {
            WorkerReply::AdvancedInfoFetched(a) => Some(a),
            _ => s.advanced_info,
        },
        r.0.save_sync_status == match reply {
            WorkerReply::SaveSyncStatusFetched { app_name, files, local_time, remote_time, backup_time, error } => Some(
                SaveSyncStatus { app_name, files, local_time, remote_time, backup_time, loading: false, error },
            ),
            _ => s.save_sync_status,
        },
        r.0.unaccepted_eulas == match reply {
            WorkerReply::EulaStatusFetched(v) => v,
            _ => s.unaccepted_eulas,
        },
        r.1@.map_values(|a: WindowAction| action_view(a)) == spec_actions(s.library@, s.installed_games@, reply),
{
    let ghost old_library = s.library@;
    let ghost old_installed = s.installed_games@;
    let running = running_after(s.running_apps, &reply);
    let mut st = WindowState { running_apps: running, ..s };
    let mut acts: Vec<WindowAction> = Vec::new();
    match reply {
        WorkerReply::LoggedIn(t) => {
            st.token = Some(t);
            st.current_view = Screen::Library;
            st.status_message = String::from_str("Logged in");
        },
        WorkerReply::LibraryFetched(v) => {
            st.library = v;
        },
        WorkerReply::GameInfoFetched(g) => {
            match &g.eula_ids {
                Some(ids) => {
                    if ids.len() > 0 {
                        acts.push(WindowAction::CheckEula(copy_strings(ids)));
                        assert(acts@.map_values(|a: WindowAction| action_view(a))
                            =~= seq![ActionView::CheckEula(strings_view(ids@))]);
                    }
                },
                None => {},
            }
            st.selected_game = Some(g);
            st.current_view = Screen::GameDetail;
        },
        WorkerReply::AssetsFetched(v) => {
            st.assets = v;
        },
        WorkerReply::Error(e) => {
            let mut m = String::from_str("Error: ");
            push_str(&mut m, e.as_str());
            st.status_message = m;
            st.task_running = false;
        },
        WorkerReply::TaskFinished(msg) => {
            st.status_message = msg;
            st.task_running = false;
        },
        WorkerReply::OriginUriFetched(u) => {
            acts.push(WindowAction::OpenUri(u));
            assert(acts@.map_values(|a: WindowAction| action_view(a)) =~= seq![ActionView::OpenUri(u@)]);
        },
        WorkerReply::InstallInfoFetched(i) => {
            st.selected_tags = unique_tags(&i.available_tags);
            st.install_info = Some(i);
            st.current_view = Screen::InstallDialog;
        },
        WorkerReply::GamesScanned(games) => {
            let changed = install_changes(&st.library, &st.installed_games, &games);
            if changed.len() > 0 {
                let ghost c = changed@;
                acts.push(WindowAction::ForgetImages(changed));
                assert(acts@.map_values(|a: WindowAction| action_view(a)) =~= seq![ActionView::ForgetImages(c)]);
            }
            st.installed_games = games;
        },
        WorkerReply::FilesListed(v) => {
            st.manifest_files = v;
        },
        WorkerReply::GameLaunched(_) => {},
        WorkerReply::GameStopped(_) => {},
        WorkerReply::EosStatusFetched(e) => {
            st.eos_status = e;
        },
        WorkerReply::AdvancedInfoFetched(a) => {
            st.advanced_info = Some(a);
        },
        WorkerReply::EulaStatusFetched(v) => {
            st.unaccepted_eulas = v;
        },
        WorkerReply::SaveSyncStatusFetched { app_name, files, local_time, remote_time, backup_time, error } => {
            st.save_sync_status = Some(
                SaveSyncStatus { app_name, files, local_time, remote_time, backup_time, loading: false, error },
            );
        },
    }
    proof {
        if acts@.len() == 0 {
            assert(acts@.map_values(|a: WindowAction| action_view(a)) =~= seq![]);
        }
    }
    (st, acts)
}


/// Starting a title that was not running and then stopping it leaves the
/// running titles as they were.
pub proof fn law_launch_then_stop(apps: Seq<Seq<char>>, app: Seq<char>)
    requires
        !apps.contains(app),
    ensures
        without_running(with_running(apps, app), app) == apps,
{
    assert forall|k: int| 0 <= k < apps.len() implies #[trigger] apps[k] != app by {
        if apps[k] == app {
            assert(apps.contains(app));
        }
    }
    apps.lemma_filter_push(app, other_than(app));
    lemma_filter_keeps_all(apps, app);
}

} // verus!
