use ssh_sync::api::{
    AuthResponse, HostListResponse, LoginRequest, RegisterRequest, UpsertHostRequest, UpsertVaultEntryRequest,
    VaultListResponse,
};
use ssh_sync::auth::{authenticate, AuthUser, JwtConfig};
use ssh_sync::crypto::derive_vault_key;
use ssh_sync::db::UserRow;
use ssh_sync::error::AppError;
use ssh_sync::routes;
use ssh_sync::store::LocalVaultEntry;
use ssh_sync::sync::{
    check_url, decrypt_packed, open_entry, open_host, seal_entry, seal_host, PulledState,
    SyncClient, SyncError, Upload,
};
use ssh_sync::types::{AuthMethod, HostConfig, VaultEntry};
use tokio::runtime::Runtime;
use tokio::task::JoinHandle;

// ---- a server with its tables in memory ----

// Hashing a password takes seconds without optimisation. So this server compares the login
// secrets themselves (that their records are accepted is tested on its own), and devices hash
// side by side.

struct Server {
    jwt: JwtConfig,
    users: Vec<UserRow>,
    hosts: Vec<(i64, HostConfig)>,
    vault: Vec<(i64, VaultEntry)>,
}

impl Server {
    fn start() -> Server {
        Server {
            jwt: JwtConfig::new("testsecret".into(), 3600),
            users: Vec::new(),
            hosts: Vec::new(),
            vault: Vec::new(),
        }
    }

    fn user(&self, name: &str) -> Option<UserRow> {
        self.users.iter().find(|u| u.username == name).map(|u| UserRow {
            id: u.id,
            username: u.username.clone(),
            password_hash: u.password_hash.clone(),
            vault_salt: u.vault_salt.clone(),
        })
    }

    fn register(&mut self, req: RegisterRequest) -> Result<AuthResponse, AppError> {
        let created = if self.user(&req.username).is_some() {
            Err("UNIQUE constraint failed: users.username".to_string())
        } else {
            let id = self.users.len() as i64 + 1;
            self.users.push(UserRow {
                id,
                username: req.username.clone(),
                password_hash: req.password.clone(),
                vault_salt: req.vault_salt.clone(),
            });
            Ok(id)
        };
        routes::finish_register(&self.jwt, req, created)
    }

    fn login(&self, req: &LoginRequest) -> Result<AuthResponse, AppError> {
        match self.user(&req.username) {
            Some(u) if u.password_hash == req.password => Ok(AuthResponse {
                token: self.jwt.issue(u.id, &u.username).unwrap(),
                username: u.username,
                vault_salt: u.vault_salt,
            }),
            _ => Err(AppError::unauthorized("invalid credentials")),
        }
    }

    fn put(&mut self, authorization: &str, body: Upload) -> bool {
        let user: AuthUser = authenticate(&self.jwt, Some(authorization)).unwrap();
        match body {
            Upload::Host(host) => {
                let place = self
                    .hosts
                    .iter()
                    .position(|(u, h)| *u == user.user_id && h.id == host.id);
                let stored = place.map(|i| self.hosts[i].1.updated_at);
                let req = UpsertHostRequest { host };
                let answer = routes::upsert_host(&req, stored).unwrap();
                if answer.ok {
                    match place {
                        Some(i) => self.hosts[i].1 = req.host,
                        None => self.hosts.push((user.user_id, req.host)),
                    }
                }
                answer.ok
            }
            Upload::Vault(entry) => {
                let place = self
                    .vault
                    .iter()
                    .position(|(u, e)| *u == user.user_id && e.id == entry.id);
                let stored = place.map(|i| self.vault[i].1.updated_at);
                let req = UpsertVaultEntryRequest { entry };
                let answer = routes::upsert_vault_entry(&req, stored).unwrap();
                if answer.ok {
                    match place {
                        Some(i) => self.vault[i].1 = req.entry,
                        None => self.vault.push((user.user_id, req.entry)),
                    }
                }
                answer.ok
            }
        }
    }

    fn hosts_of(&self, authorization: &str) -> HostListResponse {
        let user = authenticate(&self.jwt, Some(authorization)).unwrap();
        let mine = self.hosts.iter().filter(|(u, _)| *u == user.user_id);
        routes::list_hosts(mine.map(|(_, h)| h.clone()).collect())
    }

    fn vault_of(&self, authorization: &str) -> VaultListResponse {
        let user = authenticate(&self.jwt, Some(authorization)).unwrap();
        let mine = self.vault.iter().filter(|(u, _)| *u == user.user_id);
        routes::list_vault(mine.map(|(_, e)| e.clone()).collect())
    }
}

fn register(c: &mut SyncClient, s: &mut Server, name: &str, password: &str) {
    let (req, key) = c.register(name, password).unwrap();
    let auth = s.register(req).unwrap();
    c.finish_register(key, &auth);
}

/// Begins to log in on a device of its own.
fn begin_login(
    rt: &Runtime,
    name: &'static str,
    password: &'static str,
) -> JoinHandle<(SyncClient, LoginRequest)> {
    rt.spawn_blocking(move || {
        let c = SyncClient::new("http://127.0.0.1:8787").unwrap();
        let req = c.login(name, password).unwrap();
        (c, req)
    })
}

fn push(c: &SyncClient, s: &mut Server, hosts: &[HostConfig], vault: &[LocalVaultEntry]) {
    let mut done = 0;
    while let Some(q) = c.push(hosts, vault, done).unwrap() {
        s.put(&q.authorization, q.body);
        done += 1;
    }
    assert_eq!(done, hosts.len() + vault.len());
}

fn pull(c: &SyncClient, s: &Server) -> PulledState {
    let (h, v) = c.pull_requests().unwrap();
    c.pull(s.hosts_of(&h.authorization), s.vault_of(&v.authorization))
        .unwrap()
}

#[test]
fn register_push_pull_decrypts_on_second_device() {
    let mut server = Server::start();
    let base = "http://127.0.0.1:8787";
    let rt = Runtime::new().unwrap();
    let b = begin_login(&rt, "alice", "correct horse");
    let c = begin_login(&rt, "alice", "wrong password");

    // Device A registers and pushes a host password + a key passphrase.
    let mut a = SyncClient::new(base).unwrap();
    register(&mut a, &mut server, "alice", "correct horse");
    let host = HostConfig {
        id: "h1".into(),
        name: "prod".into(),
        host: "prod.example.com".into(),
        port: 22,
        username: "root".into(),
        auth_method: AuthMethod::Password,
        password: Some("s3cret-pw".into()),
        key_path: None,
        key_password_id: Some("v1".into()),
        group: String::new(),
        updated_at: 0,
    };
    let vault = vec![LocalVaultEntry {
        id: "v1".into(),
        label: "prod-key".into(),
        passphrase: "passphrase!".into(),
        updated_at: 0,
    }];
    push(&a, &mut server, &[host], &vault);

    // The server only ever holds ciphertext.
    assert!(!format!("{:?}", server.hosts).contains("s3cret-pw"));
    assert!(!format!("{:?}", server.vault).contains("passphrase!"));

    // Device B logs in with the SAME password, derives the same vault key from the
    // server-stored salt, and pulls + decrypts.
    let (mut b, req) = rt.block_on(b).unwrap();
    let auth = server.login(&req).unwrap();
    b.finish_login("correct horse", &auth).unwrap();
    let pulled = pull(&b, &server);

    assert_eq!(pulled.hosts.len(), 1);
    assert_eq!(pulled.hosts[0].password.as_deref(), Some("s3cret-pw"));
    assert_eq!(pulled.hosts[0].key_password_id.as_deref(), Some("v1"));
    assert_eq!(pulled.vault.len(), 1);
    assert_eq!(pulled.vault[0].id, "v1");
    assert_eq!(pulled.vault[0].passphrase, "passphrase!");

    // A wrong master password cannot even log in, so no vault key is ever derived and no
    // secret can be decrypted.
    let (c, req) = rt.block_on(c).unwrap();
    assert!(server.login(&req).is_err());
    assert!(!c.is_authed());
}

#[test]
fn last_write_wins_on_push() {
    let mut server = Server::start();
    let mut a = SyncClient::new("http://127.0.0.1:8787").unwrap();
    register(&mut a, &mut server, "bob", "p@ssword");

    let mut h = HostConfig {
        id: "h".into(),
        name: "old".into(),
        host: "h.example.com".into(),
        port: 22,
        username: "u".into(),
        auth_method: AuthMethod::Password,
        password: Some("old-pw".into()),
        key_path: None,
        key_password_id: None,
        group: String::new(),
        updated_at: 100,
    };
    push(&a, &mut server, std::slice::from_ref(&h), &[]);

    // Newer version supersedes the older one.
    h.name = "new".into();
    h.password = Some("new-pw".into());
    h.updated_at = 200;
    push(&a, &mut server, std::slice::from_ref(&h), &[]);

    let pulled = pull(&a, &server);
    assert_eq!(pulled.hosts.len(), 1);
    assert_eq!(pulled.hosts[0].name, "new");
    assert_eq!(pulled.hosts[0].password.as_deref(), Some("new-pw"));

    // An older update must NOT overwrite a newer stored row.
    h.updated_at = 150;
    h.name = "stale".into();
    push(&a, &mut server, std::slice::from_ref(&h), &[]);
    let pulled2 = pull(&a, &server);
    assert_eq!(pulled2.hosts[0].name, "new");
}

#[test]
fn validates_server_url() {
    assert!(SyncClient::new("").is_err());
    assert!(SyncClient::new("   ").is_err());
    assert!(SyncClient::new("not a url").is_err());
    assert!(SyncClient::new("127.0.0.1:8787").is_err()); // missing scheme
    assert!(SyncClient::new("http://127.0.0.1:8787").is_ok());
    assert!(SyncClient::new("http://127.0.0.1:8787/").is_ok());
    let c = SyncClient::new("http://127.0.0.1:8787/").unwrap();
    assert_eq!(c.base_url(), "http://127.0.0.1:8787");
}

#[test]
fn url_errors_are_told() {
    let told = |u: &str| SyncClient::new(u).unwrap_err().message();
    assert_eq!(told(" / "), "server URL is empty");
    assert_eq!(told("not a url"), "invalid server URL \"not a url\"");
    assert_eq!(
        told("ftp://x\u{7f}y"),
        "invalid server URL \"ftp://x\\u{7f}y\""
    );
    assert_eq!(
        told("ftp://example.com/"),
        "server URL must start with http:// or https:// (got \"ftp://example.com\")"
    );
    assert!(check_url("https://x", true).is_none());
    assert!(matches!(check_url("x", false), Some(SyncError::InvalidUrl(_))));
    assert!(matches!(check_url("x:", true), Some(SyncError::NotHttp(_))));
}

fn host(auth_method: AuthMethod, password: Option<&str>) -> HostConfig {
    HostConfig {
        id: "h1".into(),
        name: "n".into(),
        host: "example.com".into(),
        port: 2222,
        username: "u".into(),
        auth_method,
        password: password.map(|s| s.to_string()),
        key_path: Some("/k".into()),
        key_password_id: None,
        group: "g".into(),
        updated_at: 5,
    }
}

#[test]
fn sealed_hosts_open_again() {
    let key = [3u8; 32];
    let nonce = [4u8; 12];
    let h = host(AuthMethod::Password, Some("pw:with:colons"));
    let sealed = seal_host(&key, &nonce, &h).unwrap();
    let packed = sealed.password.clone().unwrap();
    assert!(packed.starts_with("BAQEBAQEBAQEBAQE:"));
    assert_eq!(open_host(&key, sealed.clone()).unwrap(), h);
    // The password is bound to the host's id.
    let mut moved = sealed;
    moved.id = "h2".into();
    let e = open_host(&key, moved).unwrap_err();
    assert_eq!(e.message(), "aes-gcm decryption failed: aead::Error");

    let none = host(AuthMethod::Password, None);
    assert_eq!(seal_host(&key, &nonce, &none).unwrap(), none);
    let by_key = host(AuthMethod::Key, Some("left over"));
    let sealed = seal_host(&key, &nonce, &by_key).unwrap();
    assert_eq!(sealed, host(AuthMethod::Key, None));
    assert_eq!(open_host(&key, by_key).unwrap(), host(AuthMethod::Key, None));
}

#[test]
fn sealed_entries_open_again() {
    let key = [3u8; 32];
    let entry = LocalVaultEntry {
        id: "v".into(),
        label: "prod".into(),
        passphrase: "geheim ä".into(),
        updated_at: 9,
    };
    let sealed = seal_entry(&key, &[1u8; 12], &entry).unwrap();
    assert_eq!(
        (sealed.id.as_str(), sealed.label.as_str(), sealed.updated_at),
        ("v", "prod", 9)
    );
    let opened = open_entry(&key, &sealed).unwrap();
    assert_eq!(opened.passphrase, "geheim ä");
    let mut moved = sealed;
    moved.label = "other".into();
    assert!(open_entry(&key, &moved).is_err());
}

#[test]
fn packed_secrets_need_a_colon() {
    let e = decrypt_packed(&[0u8; 32], "nocolon", b"").unwrap_err();
    assert!(matches!(e, SyncError::Malformed));
    assert_eq!(e.message(), "malformed ciphertext");
    let e = decrypt_packed(&[0u8; 32], "a:b", b"").unwrap_err();
    assert!(matches!(e, SyncError::Crypto(_)));
}

#[test]
fn nothing_goes_without_a_login() {
    let c = SyncClient::new("https://sync.example.com//").unwrap();
    assert!(!c.is_authed());
    assert_eq!(c.url("/hosts"), "https://sync.example.com/api/v1/hosts");
    let h = host(AuthMethod::Password, Some("pw"));
    let e = c.push(std::slice::from_ref(&h), &[], 0).unwrap_err();
    assert_eq!(e.message(), "no vault key");
    assert_eq!(c.push(&[], &[], 0).unwrap_err().message(), "no vault key");
    assert_eq!(c.pull_requests().unwrap_err().message(), "no vault key");
    assert_eq!(c.delete_host("x").unwrap_err().message(), "not logged in");
    assert_eq!(c.delete_vault("x").unwrap_err().message(), "not logged in");
}

#[test]
fn requests_of_a_logged_in_client() {
    let mut c = SyncClient::new("http://s").unwrap();
    let auth = AuthResponse {
        token: "tok".into(),
        username: "u".into(),
        vault_salt: "AAAAAAAAAAA=".into(),
    };
    c.finish_login("pw", &auth).unwrap();
    assert!(c.is_authed());
    let q = c.delete_host("h 1").unwrap();
    assert_eq!(q.url, "http://s/api/v1/hosts/h 1");
    assert_eq!(q.authorization, "Bearer tok");
    assert_eq!(c.delete_vault("v").unwrap().url, "http://s/api/v1/vault/v");
    // The vault goes first, then the hosts; then nothing is left.
    let h = host(AuthMethod::Password, Some("pw"));
    let v = LocalVaultEntry {
        id: "v".into(),
        label: "l".into(),
        passphrase: "p".into(),
        updated_at: 1,
    };
    let hosts = vec![h.clone()];
    let vault = vec![v];
    let q = c.push(&hosts, &vault, 0).unwrap().unwrap();
    assert_eq!(q.url, "http://s/api/v1/vault");
    assert!(matches!(q.body, Upload::Vault(_)));
    let q = c.push(&hosts, &vault, 1).unwrap().unwrap();
    assert_eq!(q.url, "http://s/api/v1/hosts");
    let key = derive_vault_key("pw", &[0u8; 8]).unwrap();
    match q.body {
        Upload::Host(sealed) => assert_eq!(open_host(&key, sealed).unwrap(), h),
        Upload::Vault(_) => panic!("no host"),
    }
    assert!(c.push(&hosts, &vault, 2).unwrap().is_none());
}

#[test]
fn vault_salt_of_the_server_is_checked() {
    let mut c = SyncClient::new("http://s").unwrap();
    let mut auth = AuthResponse {
        token: "tok".into(),
        username: "u".into(),
        vault_salt: "?".into(),
    };
    let e = c.finish_login("pw", &auth).unwrap_err();
    assert_eq!(e.message(), "invalid vault_salt from server");
    auth.vault_salt = "AAAA".into();
    let e = c.finish_login("pw", &auth).unwrap_err();
    assert_eq!(e.message(), "argon2 derivation failed: salt is too short");
    assert!(!c.is_authed());
}

#[test]
fn registration_salt_gives_the_key_again() {
    let salt = [5u8; 16];
    let (req, key) = SyncClient::register_with("u", "secret", &salt).unwrap();
    assert_eq!(req.vault_salt, "BQUFBQUFBQUFBQUFBQUFBQ==");
    assert_eq!(req.username, "u");
    assert_eq!(key, derive_vault_key("secret", &salt).unwrap());
}

#[test]
fn the_password_stays_on_the_device() {
    let rt = Runtime::new().unwrap();
    let same = begin_login(&rt, "alice", "correct horse");
    let other_name = begin_login(&rt, "bob", "correct horse");
    let other_password = begin_login(&rt, "alice", "wrong horse");

    let c = SyncClient::new("http://s").unwrap();
    let (req, key) = c.register("alice", "correct horse").unwrap();
    assert!(!format!("{req:?}").contains("correct horse"));

    // A login sends what the registration sent, which is not the vault key.
    let (_, login) = rt.block_on(same).unwrap();
    assert!(!format!("{login:?}").contains("correct horse"));
    assert_eq!(login.username, req.username);
    assert_eq!(login.password, req.password);
    assert_ne!(req.password, hex::encode(key));

    // Another name, or another password, gives another secret.
    assert_ne!(rt.block_on(other_name).unwrap().1.password, req.password);
    assert_ne!(rt.block_on(other_password).unwrap().1.password, req.password);
}

#[test]
fn the_server_accepts_what_clients_send() {
    let rt = Runtime::new().unwrap();
    let wrong = begin_login(&rt, "alice", "wrong password");
    let (_, right) = rt.block_on(begin_login(&rt, "alice", "correct horse")).unwrap();
    let hash = routes::register(&RegisterRequest {
        username: "alice".into(),
        password: right.password.clone(),
        vault_salt: "c2FsdA==".into(),
    })
    .unwrap();
    let (_, wrong) = rt.block_on(wrong).unwrap();
    let check = |req: LoginRequest| {
        let user = UserRow {
            id: 1,
            username: "alice".into(),
            password_hash: hash.clone(),
            vault_salt: "c2FsdA==".into(),
        };
        rt.spawn_blocking(move || {
            routes::login(&JwtConfig::new("testsecret".into(), 3600), &req, Some(user))
        })
    };
    let (accepted, refused) = (check(right), check(wrong));
    assert_eq!(rt.block_on(accepted).unwrap().unwrap().vault_salt, "c2FsdA==");
    assert_eq!(rt.block_on(refused).unwrap().unwrap_err().status, 401);
}

#[test]
fn short_passwords_are_refused_at_registration() {
    let c = SyncClient::new("http://s").unwrap();
    let e = c.register("alice", "12345").unwrap_err();
    assert_eq!(e.message(), "password must be >= 6 chars");
    assert!(c.register("alice", "123456").is_ok());
}

#[test]
fn refusals_of_the_server_are_told() {
    let e = SyncClient::err("404 Not Found", "{\"error\":\"user\"}");
    assert_eq!(e.message(), "server returned 404 Not Found: {\"error\":\"user\"}");
}

#[test]
fn one_bad_secret_fails_a_download() {
    let mut c = SyncClient::new("http://s").unwrap();
    let auth = AuthResponse {
        token: "tok".into(),
        username: "u".into(),
        vault_salt: "AAAAAAAAAAA=".into(),
    };
    c.finish_login("pw", &auth).unwrap();
    let hosts = HostListResponse {
        hosts: vec![
            host(AuthMethod::Password, None),
            host(AuthMethod::Password, Some("nocolon")),
        ],
        latest_updated_at: 5,
    };
    let e = c
        .pull(hosts, VaultListResponse { entries: Vec::new() })
        .unwrap_err();
    assert_eq!(e.message(), "malformed ciphertext");
    let bad = VaultEntry {
        id: "v".into(),
        label: "l".into(),
        nonce: "x".into(),
        ciphertext: String::new(),
        updated_at: 0,
    };
    let none = HostListResponse {
        hosts: Vec::new(),
        latest_updated_at: 0,
    };
    assert!(c.pull(none, VaultListResponse { entries: vec![bad] }).is_err());
    assert!(PulledState::default().hosts.is_empty());
}

#[test]
fn downloads_come_in_the_order_of_the_server() {
    let mut server = Server::start();
    let mut c = SyncClient::new("http://127.0.0.1:8787").unwrap();
    register(&mut c, &mut server, "carol", "p@ssword");
    let mut first = host(AuthMethod::Password, Some("pw 1"));
    first.id = "h1".into();
    let mut second = host(AuthMethod::Key, Some("stays here"));
    second.id = "h2".into();
    push(&c, &mut server, &[first.clone(), second.clone()], &[]);
    server.hosts.reverse();
    let pulled = pull(&c, &server);
    second.password = None;
    assert_eq!(pulled.hosts, vec![second, first]);
}
