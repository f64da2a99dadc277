use ssh_sync::api::AuthResponse;
use ssh_sync::app::{
    id_of, matches_query, new_id, pty_size, recompute_active, AppController, SessionInput, Task,
    Ui, UiEvent,
};
use ssh_sync::auth::new_secret;
use ssh_sync::encoding::base64_decoded;
use ssh_sync::ssh::SessionEvent;
use ssh_sync::store::{LocalState, LocalVaultEntry};
use ssh_sync::sync::{PulledState, SyncClient};
use ssh_sync::types::{AuthMethod, HostConfig};
use ssh_sync::ui::{HostForm, SelLine, TermPane};

fn blank_ui() -> Ui {
    Ui {
        screen: 0,
        server_url: "http://127.0.0.1:8787".into(),
        username: String::new(),
        password: String::new(),
        status: String::new(),
        busy: false,
        search: String::new(),
        form: HostForm::blank(),
        term: TermPane::blank(),
        host_list: Vec::new(),
        tabs: Vec::new(),
        active_tab: None,
        terminal_font: String::new(),
        locale: String::new(),
        version: 0,
        dark_mode: true,
    }
}

fn host(id: &str, name: &str, username: &str) -> HostConfig {
    HostConfig {
        id: id.into(),
        name: name.into(),
        host: format!("{id}.example.com"),
        port: 22,
        username: username.into(),
        auth_method: AuthMethod::Password,
        password: Some("pw".into()),
        key_path: None,
        key_password_id: None,
        group: String::new(),
        updated_at: 1,
    }
}

fn client_with(hosts: Vec<HostConfig>) -> AppController {
    let local = LocalState {
        hosts,
        ..LocalState::default()
    };
    AppController::new(local, blank_ui())
}

fn shown(c: &AppController) -> Vec<&str> {
    c.ui.host_list.iter().map(|r| r.name.as_str()).collect()
}

fn no_input(c: &AppController) -> Vec<SessionInput> {
    c.sessions
        .iter()
        .map(|_| SessionInput {
            output: Vec::new(),
            events: Vec::new(),
        })
        .collect()
}

fn input(output: &str, events: Vec<SessionEvent>) -> SessionInput {
    SessionInput {
        output: output.as_bytes().to_vec(),
        events,
    }
}

#[test]
fn start_from_saved_state() {
    let local = LocalState {
        server_url: "https://sync".into(),
        username: "alice".into(),
        theme: "light".into(),
        lang: "zh-CN".into(),
        hosts: vec![host("a", "Prod", "root")],
        ..LocalState::default()
    };
    let c = AppController::new(local, blank_ui());
    assert_eq!(c.ui.server_url, "https://sync");
    assert_eq!(c.ui.username, "alice");
    assert_eq!(c.ui.terminal_font, "Menlo");
    assert_eq!(c.ui.locale, "zh-CN");
    assert_eq!(c.ui.version, 1);
    assert!(!c.ui.dark_mode);
    assert_eq!(shown(&c), vec!["Prod"]);
    assert_eq!(c.ui.host_list[0].detail, "root@a.example.com:22");
    assert_eq!(c.ui.host_list[0].auth, "password");
    let c = AppController::new(LocalState::default(), blank_ui());
    assert_eq!(c.ui.server_url, "http://127.0.0.1:8787");
    assert!(c.ui.dark_mode);
}

#[test]
fn search_filters_hosts() {
    let mut c = client_with(vec![host("a", "Prod", "root"), host("b", "Test", "admin")]);
    for (query, found) in [
        ("", vec!["Prod", "Test"]),
        ("PROD", vec!["Prod"]),
        ("b.example", vec!["Test"]),
        ("Admin", vec!["Test"]),
        ("nothing", vec![]),
    ] {
        c.ui.search = query.into();
        c.refresh_host_list();
        assert_eq!(shown(&c), found, "{query:?}");
    }
    assert!(matches_query("", "x", "y", "z"));
    assert!(!matches_query("q", "x", "y", "z"));
    // List indices survive the filter.
    c.ui.search = "test".into();
    c.refresh_host_list();
    c.handle_edit(0);
    assert_eq!(c.ui.form.editing_id, "b");
}

#[test]
fn signing_in() {
    let mut c = client_with(Vec::new());
    assert!(c.handle_auth(false).task.is_none());
    assert_eq!(c.ui.status, "enter username and password");
    c.ui.username = "alice".into();
    c.ui.password = "secret".into();
    c.ui.server_url = "nonsense".into();
    assert!(c.handle_auth(false).task.is_none());
    assert_eq!(
        c.ui.status,
        "invalid server url: invalid server URL \"nonsense\""
    );
    c.ui.server_url = "http://s/".into();
    match c.handle_auth(true).task {
        Some(Task::Register {
            client,
            username,
            password,
        }) => {
            assert_eq!(client.base_url(), "http://s");
            assert_eq!((username.as_str(), password.as_str()), ("alice", "secret"));
        }
        _ => panic!("no registration"),
    }
    assert_eq!(c.ui.status, "registering...");
    assert!(c.ui.busy);
    assert!(matches!(c.handle_auth(false).task, Some(Task::Login { .. })));
    assert_eq!(c.ui.status, "signing in...");
}

fn signed_in(c: &mut AppController) {
    let mut client = SyncClient::new("http://s").unwrap();
    let auth = AuthResponse {
        token: "t".into(),
        username: "Alice".into(),
        vault_salt: String::new(),
    };
    client.finish_register([0u8; 32], &auth);
    c.ui.server_url = "http://s".into();
    let e = c.handle_event(UiEvent::SignedIn(client, auth));
    assert!(e.save);
    match e.task {
        Some(Task::Sync { hosts, .. }) => assert_eq!(hosts.len(), c.local.hosts.len()),
        _ => panic!("no sync"),
    }
}

#[test]
fn background_work_is_told() {
    let mut c = client_with(vec![host("a", "Prod", "root")]);
    c.ui.busy = true;
    assert!(!c.handle_event(UiEvent::SignInFailed("no".into())).save);
    assert_eq!(c.ui.status, "login failed: no");
    assert!(!c.ui.busy);
    signed_in(&mut c);
    assert_eq!(c.local.server_url, "http://s");
    assert_eq!(c.local.username, "Alice");
    assert_eq!(c.ui.screen, 1);
    assert_eq!(c.ui.status, "syncing...");
    assert!(c.ui.busy);
    let mut newer = host("a", "Renamed", "root");
    newer.updated_at = 2;
    let pulled = PulledState {
        hosts: vec![newer, host("b", "Other", "u")],
        vault: Vec::new(),
    };
    assert!(c.handle_event(UiEvent::Synced(pulled)).save);
    assert_eq!(shown(&c), vec!["Renamed", "Other"]);
    assert_eq!(c.ui.status, "sync complete");
    c.handle_event(UiEvent::SyncFailed("e".into()));
    assert_eq!(c.ui.status, "sync failed: e");
    c.handle_event(UiEvent::Deleted);
    assert_eq!(c.ui.status, "deleted");
    c.handle_event(UiEvent::DeleteFailed("e".into()));
    assert_eq!(c.ui.status, "error: delete failed: e");
    c.handle_logout();
    assert_eq!(c.ui.screen, 0);
    assert!(c.sync.is_none() && c.local.username.is_empty());
    assert!(c.spawn_pull().task.is_none());
    assert_eq!(c.ui.status, "not signed in");
}

#[test]
fn hosts_are_entered_and_edited() {
    let mut c = client_with(Vec::new());
    assert!(!c.add_host(5, "h1".into(), "v1".into()).save);
    assert_eq!(c.ui.status, "name, host and username are required");
    c.ui.form.name = "prod".into();
    c.ui.form.host = "p.example.com".into();
    c.ui.form.user = "root".into();
    c.ui.form.port_text = "nonsense".into();
    c.ui.form.auth = "key".into();
    c.ui.form.keypath = "/id".into();
    c.ui.form.passphrase = "pp".into();
    assert!(c.add_host(5, "h1".into(), "v1".into()).save);
    assert_eq!(c.ui.status, "host saved - click Sync to upload");
    let h = c.local.hosts[0].clone();
    assert_eq!((h.id.as_str(), h.port, h.updated_at), ("h1", 22, 5));
    assert_eq!(h.key_password_id.as_deref(), Some("v1"));
    assert_eq!(h.key_path.as_deref(), Some("/id"));
    assert_eq!(c.local.vault[0].passphrase, "pp");
    assert_eq!(c.local.vault[0].label, "prod");
    assert_eq!(c.ui.form.name, "");
    assert_eq!(c.ui.form.auth, "key");
    // Editing shows it again, and keeps its id and its vault entry.
    c.handle_edit(0);
    assert_eq!(c.ui.form.passphrase, "pp");
    assert_eq!(c.ui.form.port_text, "22");
    c.ui.form.passphrase = "new".into();
    c.ui.form.port_text = "2200".into();
    c.add_host(6, "h2".into(), "v2".into());
    assert_eq!(c.ui.status, "host updated");
    assert_eq!(c.local.hosts.len(), 1);
    assert_eq!(c.local.hosts[0].port, 2200);
    assert_eq!(c.local.vault.len(), 1);
    assert_eq!(c.local.vault[0].passphrase, "new");
    // Without a new passphrase the link stays; with a password it goes.
    c.handle_edit(0);
    c.ui.form.passphrase = String::new();
    c.add_host(7, "h3".into(), "v3".into());
    assert_eq!(c.local.hosts[0].key_password_id.as_deref(), Some("v1"));
    c.handle_edit(0);
    c.ui.form.auth = "password".into();
    c.ui.form.password = "pw".into();
    c.add_host(8, "h4".into(), "v4".into());
    assert_eq!(c.local.hosts[0].key_password_id, None);
    assert_eq!(c.local.hosts[0].password.as_deref(), Some("pw"));
    c.handle_edit(99);
    c.handle_new_host();
    assert_eq!(c.ui.form.port_text, "22");
    assert_eq!(c.ui.status, "adding a new host");
    c.ui.form.name = "x".into();
    c.ui.form.host = "y".into();
    c.ui.form.user = "z".into();
    assert!(c.handle_add_host().save);
    assert_eq!(c.local.hosts.len(), 2);
    assert!(c.local.hosts[1].id.contains('-'));
}

#[test]
fn hosts_are_deleted() {
    let mut with_secret = host("a", "Prod", "root");
    with_secret.key_password_id = Some("v".into());
    let mut c = client_with(vec![with_secret, host("b", "Test", "u")]);
    c.local.upsert_vault(LocalVaultEntry {
        id: "v".into(),
        ..LocalVaultEntry::default()
    });
    assert!(c.handle_delete(7).task.is_none());
    assert!(c.handle_delete(1).save);
    assert_eq!(c.ui.status, "deleted locally");
    assert_eq!(shown(&c), vec!["Prod"]);
    signed_in(&mut c);
    match c.handle_delete(0).task {
        Some(Task::Delete { id, vault_id, .. }) => {
            assert_eq!((id.as_str(), vault_id.as_deref()), ("a", Some("v")))
        }
        _ => panic!("no deletion"),
    }
    assert!(c.local.hosts.is_empty() && c.local.vault.is_empty());
    assert!(c.ui.busy);
}

#[test]
fn sessions_run_in_tabs() {
    let mut c = client_with(vec![host("a", "Prod", "root"), host("b", "Test", "u")]);
    assert!(c.connect(5, 80, 24, "s".into()).task.is_none());
    assert_eq!(c.ui.status, "no such host");
    match c.connect(0, 1000, 2, "s0".into()).task {
        Some(Task::Connect { session, plan }) => {
            assert_eq!(session, "s0");
            assert_eq!((plan.cols, plan.rows), (400, 8));
            assert_eq!(plan.host.id, "a");
        }
        _ => panic!("no session"),
    }
    assert_eq!(c.ui.status, "connecting to a.example.com (400x8)...");
    assert_eq!(c.ui.term.host_label, "Prod · root@a.example.com:22");
    assert!(c.handle_connect(1, 80, 24).task.is_some());
    assert_eq!(c.active, Some(1));
    let told = c.pump(
        &[
            input("one", vec![SessionEvent::Connected]),
            input("two\r\nlines", vec![]),
        ],
        90,
        30,
    );
    assert_eq!(told, vec![0]);
    assert_eq!(c.ui.term.text, "two\nlines");
    assert_eq!(c.ui.term.line_count, 2);
    assert_eq!(c.ui.tabs.len(), 2);
    assert!(c.ui.tabs[0].connected && !c.ui.tabs[1].connected);
    assert_eq!(c.ui.active_tab, Some(1));
    assert_eq!(c.sessions[0].buffer.cols(), 90);
    assert_eq!(c.sessions[1].buffer.cols(), 80);
    // Switching shows the other one.
    assert!(!c.select_tab(2));
    assert!(c.select_tab(0));
    c.pump(&no_input(&c), 90, 30);
    assert_eq!(c.ui.term.text, "one");
    assert!(c.ui.term.connected);
    // Keys go to the shown session.
    assert_eq!(c.term_key("a", false, false, false), Some((0, b"a".to_vec())));
    assert_eq!(c.send_button("ctrl-c"), Some((0, vec![3])));
    assert_eq!(c.paste("x\ny"), Some((0, b"x\ry".to_vec())));
    assert_eq!(c.paste(""), None);
    c.clear_terminal();
    c.pump(&no_input(&c), 90, 30);
    assert_eq!(c.ui.term.text, "");
    // The shown session stays shown when another is closed.
    assert!(c.select_tab(1));
    assert!(c.close_tab(0));
    assert!(!c.close_tab(1));
    c.pump(&no_input(&c), 90, 30);
    assert_eq!(c.active, Some(0));
    assert_eq!(c.ui.term.text, "two\nlines");
    assert!(c.close_tab(0));
    c.pump(&no_input(&c), 90, 30);
    assert_eq!(c.active, None);
    assert_eq!(c.ui.term.host_label, "not connected");
    assert_eq!(c.term_key("a", false, false, false), None);
}

fn three_sessions() -> AppController {
    let mut c = client_with(vec![host("a", "Prod", "root")]);
    for s in ["s0", "s1", "s2"] {
        c.connect(0, 80, 24, s.into());
    }
    c
}

#[test]
fn ended_sessions_are_removed() {
    let mut c = three_sessions();
    c.select_tab(2);
    // Others end: the shown one stays.
    c.pump(
        &[
            input("", vec![SessionEvent::Ended]),
            input("", vec![]),
            input("still here", vec![]),
        ],
        80,
        24,
    );
    assert_eq!(c.active, Some(1));
    assert_eq!(c.sessions[1].id, "s2");
    assert_eq!(c.ui.term.text, "still here");
    assert_eq!(c.ui.status, "session ended: Prod · root@a.example.com:22");
    // The shown one ends with an error.
    c.pump(
        &[
            input("", vec![]),
            input(
                "",
                vec![SessionEvent::Error("broken pipe".into()), SessionEvent::Ended],
            ),
        ],
        80,
        24,
    );
    assert_eq!(c.ui.status, "broken pipe");
    assert_eq!(c.active, Some(0));
    assert_eq!(c.sessions[0].id, "s1");
    // The last one ends without one.
    c.pump(
        &[input("", vec![SessionEvent::Connecting, SessionEvent::Ended])],
        80,
        24,
    );
    assert_eq!(c.ui.status, "session ended");
    assert_eq!(c.active, None);
    assert!(c.ui.tabs.is_empty());
    let mut c = three_sessions();
    c.handle_logout();
    assert!(c.sessions.is_empty() && c.ui.tabs.is_empty());
}

#[test]
fn active_index_after_removals() {
    assert_eq!(recompute_active(Some(2), 1, 2), Some(1));
    assert_eq!(recompute_active(Some(2), 0, 2), Some(1));
    assert_eq!(recompute_active(Some(0), 3, 2), Some(0));
    assert_eq!(recompute_active(None, 0, 4), Some(3));
    assert_eq!(recompute_active(Some(1), 0, 0), None);
    assert_eq!(recompute_active(Some(1), -1, 5), Some(2));
    assert_eq!(recompute_active(Some(1), isize::MIN, 5), Some(4));
}

#[test]
fn sizes_are_clamped() {
    assert_eq!(pty_size(0, 0), (20, 8));
    assert_eq!(pty_size(120, 40), (120, 40));
    assert_eq!(pty_size(401, 121), (400, 120));
}

#[test]
fn settings_are_kept() {
    let mut c = client_with(Vec::new());
    c.ui.terminal_font = "Fira".into();
    assert!(c.font_changed().save);
    assert_eq!(c.local.terminal_font, "Fira");
    c.font_save_failed("disk full".into());
    assert_eq!(c.ui.status, "could not save font: disk full");
    c.ui.dark_mode = false;
    c.theme_changed();
    assert_eq!(c.local.theme, "light");
    c.ui.dark_mode = true;
    c.theme_changed();
    assert_eq!(c.local.theme, "dark");
    assert!(c.toggle_lang().save);
    assert_eq!((c.ui.locale.as_str(), c.local.lang.as_str()), ("zh", "zh"));
    assert_eq!(c.ui.version, 2);
    c.handle_new_host();
    assert_eq!(c.ui.status, "正在添加新主机");
    c.toggle_lang();
    assert_eq!(c.ui.locale, "en");
}

fn selecting() -> AppController {
    let mut c = client_with(vec![host("a", "Prod", "root")]);
    c.connect(0, 20, 8, "s".into());
    c.pump(&[input("first\r\nsecond\r\nthird", vec![])], 20, 8);
    c
}

#[test]
fn selections() {
    let mut c = selecting();
    c.selection_move(3, 1);
    assert_eq!(c.ui.term.sel_text, "");
    c.selection_start(2, 0);
    assert_eq!(c.ui.term.sel_text, "");
    c.selection_move(3, 1);
    assert_eq!(c.ui.term.sel_text, "rst\nsec");
    assert_eq!(
        c.ui.term.sel_lines,
        vec![
            SelLine {
                line: 0,
                col_start: 2,
                col_end: 20
            },
            SelLine {
                line: 1,
                col_start: 0,
                col_end: 3
            },
        ]
    );
    assert_eq!(c.ui.term.copy_text().unwrap(), "rst\nsec");
    // The other way round gives the same.
    c.selection_start(3, 1);
    c.selection_move(2, 0);
    assert_eq!(c.ui.term.sel_text, "rst\nsec");
    // Columns left of the text count as its end, lines below as the last.
    c.selection_start(-1, 2);
    c.selection_move(2, 99);
    assert_eq!(c.ui.term.sel_text, "");
    c.select_all();
    assert_eq!(c.ui.term.sel_text, "first\nsecond\nthird");
    // New output clears the selection; then everything is copied.
    c.pump(&[input("!", vec![])], 20, 8);
    assert_eq!(c.ui.term.sel_start_line, -1);
    assert_eq!(c.ui.term.copy_text().unwrap(), "first\nsecond\nthird!");
    c.copied("äöü");
    assert_eq!(c.ui.status, "copied 3 chars");
    c.copy_failed("no clipboard");
    assert_eq!(c.ui.status, "error: copy failed: no clipboard");
    assert_eq!(TermPane::blank().copy_text(), None);
}

#[test]
fn ids() {
    assert_eq!(id_of(0x18f, 0xab), "18f-00000000000000ab");
    assert_eq!(id_of(-1, u64::MAX), "ffffffffffffffff-ffffffffffffffff");
    let id = new_id();
    let (now, r) = id.split_once('-').unwrap();
    let age = chrono::Utc::now().timestamp_millis() - i64::from_str_radix(now, 16).unwrap();
    assert!((0..60_000).contains(&age));
    assert_eq!(r.len(), 16);
    assert_ne!(new_id(), id);
}

#[test]
fn secrets_are_random() {
    let s = new_secret();
    assert_eq!(base64_decoded(&s).unwrap().len(), 32);
    assert_ne!(new_secret(), s);
}
