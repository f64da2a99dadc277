use ssh_sync::store::{LocalState, LocalVaultEntry};
use ssh_sync::types::{AuthMethod, HostConfig};

fn host(id: &str, name: &str, secret: Option<&str>, updated_at: i64) -> HostConfig {
    HostConfig {
        id: id.into(),
        name: name.into(),
        host: "example.com".into(),
        port: 22,
        username: "u".into(),
        auth_method: AuthMethod::Key,
        password: None,
        key_path: None,
        key_password_id: secret.map(|s| s.to_string()),
        group: String::new(),
        updated_at,
    }
}

fn secret(id: &str, passphrase: &str) -> LocalVaultEntry {
    LocalVaultEntry {
        id: id.into(),
        label: "l".into(),
        passphrase: passphrase.into(),
        updated_at: 1,
    }
}

fn names(s: &LocalState) -> Vec<&str> {
    s.hosts.iter().map(|h| h.name.as_str()).collect()
}

#[test]
fn defaults_of_settings() {
    let mut s = LocalState::default();
    assert_eq!(s.terminal_font_or_default(), "Menlo");
    assert_eq!(s.theme_or_default(), "dark");
    assert_eq!(s.lang_or_default(), "en");
    s.terminal_font = " ".into();
    s.theme = " light ".into();
    s.lang = " zh ".into();
    assert_eq!(s.terminal_font_or_default(), "Menlo");
    assert_eq!(s.theme_or_default(), "light");
    assert_eq!(s.lang_or_default(), " zh ");
    s.theme = "Light".into();
    s.terminal_font = "Fira".into();
    assert_eq!(s.theme_or_default(), "dark");
    assert_eq!(s.terminal_font_or_default(), "Fira");
}

#[test]
fn upserts_replace_or_add() {
    let mut s = LocalState::default();
    s.upsert_host(host("a", "one", None, 1));
    s.upsert_host(host("b", "two", None, 1));
    s.upsert_host(host("a", "three", None, 0));
    assert_eq!(names(&s), vec!["three", "two"]);
    s.upsert_vault(secret("v", "p"));
    s.upsert_vault(secret("v", "q"));
    assert_eq!(s.vault.len(), 1);
    assert_eq!(s.vault[0].passphrase, "q");
}

#[test]
fn deleting_drops_orphaned_secrets() {
    let mut s = LocalState::default();
    s.upsert_host(host("a", "one", Some("v1"), 1));
    s.upsert_host(host("b", "two", Some("v2"), 1));
    s.upsert_host(host("c", "three", Some("v2"), 1));
    s.upsert_vault(secret("v1", "p1"));
    s.upsert_vault(secret("v2", "p2"));
    s.delete_host("a");
    assert_eq!(names(&s), vec!["two", "three"]);
    assert_eq!(s.vault.len(), 1);
    s.delete_host("b");
    assert_eq!(s.vault.len(), 1);
    s.delete_host("nobody");
    s.delete_host("c");
    assert!(s.hosts.is_empty() && s.vault.is_empty());
}

#[test]
fn passphrases_are_found() {
    let mut s = LocalState::default();
    s.upsert_vault(secret("v1", "p1"));
    assert_eq!(s.passphrase_for(&host("a", "n", Some("v1"), 0)), Some("p1"));
    assert_eq!(s.passphrase_for(&host("a", "n", Some("v2"), 0)), None);
    assert_eq!(s.passphrase_for(&host("a", "n", None, 0)), None);
}

#[test]
fn merging_keeps_the_newer_version() {
    let mut s = LocalState::default();
    s.upsert_host(host("a", "local a", None, 10));
    s.upsert_host(host("b", "local b", None, 10));
    s.upsert_host(host("c", "local c", None, 10));
    s.upsert_vault(secret("v", "local"));
    let remote = vec![
        host("a", "older", None, 9),
        host("b", "newer", None, 11),
        host("c", "as old", None, 10),
        host("d", "new", None, 0),
    ];
    s.merge_remote(&remote, &[secret("v", "as old"), secret("w", "x")]);
    assert_eq!(names(&s), vec!["local a", "newer", "local c", "new"]);
    assert_eq!(s.vault[0].passphrase, "as old");
    assert_eq!(s.vault.len(), 2);
    // A second time changes nothing.
    s.merge_remote(&remote, &[]);
    assert_eq!(names(&s), vec!["local a", "newer", "local c", "new"]);
}

#[test]
fn copies_are_equal() {
    let h = host("a", "n", Some("v"), 3);
    assert_eq!(h.clone(), h);
    assert_eq!(secret("v", "p").clone().passphrase, "p");
    assert_eq!(LocalVaultEntry::default().updated_at, 0);
}

#[test]
fn first_merge_takes_the_servers_state() {
    let mut s = LocalState::default();
    s.username = "alice".to_string();
    s.merge_remote(
        &[host("b", "second", None, 2), host("a", "first", Some("v"), 1)],
        &[secret("v", "p")],
    );
    assert_eq!(names(&s), vec!["second", "first"]);
    assert_eq!(s.vault.len(), 1);
    assert_eq!(s.vault[0].passphrase, "p");
    assert_eq!(s.username, "alice");
}

#[test]
fn merging_keeps_the_newer_secret() {
    let at = |passphrase: &str, updated_at: i64| LocalVaultEntry {
        updated_at,
        ..secret("v", passphrase)
    };
    let mut s = LocalState::default();
    s.upsert_vault(at("local", 10));
    s.merge_remote(&[], &[at("older", 9)]);
    assert_eq!(s.vault[0].passphrase, "local");
    assert_eq!(s.vault[0].updated_at, 10);
    s.merge_remote(&[], &[at("newer", 11), at("older again", 10)]);
    assert_eq!(s.vault[0].passphrase, "newer");
    s.merge_remote(&[], &[at("as old", 11)]);
    assert_eq!(s.vault[0].passphrase, "as old");
    s.merge_remote(&[], &[at("as old", 11), at("older", 10)]);
    assert_eq!(s.vault[0].passphrase, "as old");
    assert_eq!(s.vault.len(), 1);
}
