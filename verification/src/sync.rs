//! Client side of the sync protocol, with end-to-end encryption.
//!
//! Two classes of secret are protected:
//!   * SSH host passwords (`auth_method = password`) - encrypted with the vault key,
//!     AAD-bound to the host id, before upload.
//!   * SSH key passphrases - stored as vault entries, encrypted with the vault key,
//!     AAD-bound to the entry label.
//!
//! The server only ever stores ciphertext. The vault key is derived on the client from
//! the user's master password + the per-user salt (Argon2id) and never transmitted. Nor is
//! the password: the server gets a login secret, another Argon2id hash of it.
//!
//! The functions here say what to send and take in what came back; sending itself is the
//! caller's part.

use vstd::prelude::*;
use vstd::utf8::*;

use crate::api::{
    AuthResponse, HostListResponse, LoginRequest, RegisterRequest, VaultListResponse, API_PREFIX,
};
use crate::crypto;
use crate::crypto::{CryptoError, Fault, KEY_LEN, NONCE_LEN, SALT_LEN};
use crate::encoding;
use crate::store;
use crate::store::{LocalVaultEntry, Secret};
use crate::text;
use crate::types;
use crate::types::{AuthMethod, Host, HostConfig, Sealed, VaultEntry};

verus! {

// ---------------------------------------------------------------------------
// Errors
// ---------------------------------------------------------------------------

/// Why the server could not be spoken to, or what it sent not be understood.
#[derive(Debug)]
pub enum SyncError {
    /// The server URL is empty.
    EmptyUrl,
    /// The server URL is none.
    InvalidUrl(String),
    /// The server URL has another scheme.
    NotHttp(String),
    /// A password to register with is too short.
    ShortPassword,
    /// There is no token yet.
    NotLoggedIn,
    /// There is no vault key yet.
    NoVaultKey,
    /// The vault salt that the server sent is none.
    BadVaultSalt,
    /// A host password that the server sent has not the form `nonce:ciphertext`.
    Malformed,
    /// A secret could not be encrypted or decrypted.
    Crypto(CryptoError),
    /// The server refused, with this status and body.
    Server { status: String, body: String },
}

/// A `SyncError`, as specifications see it.
pub enum SyncFault {
    EmptyUrl,
    InvalidUrl(Seq<char>),
    NotHttp(Seq<char>),
    ShortPassword,
    NotLoggedIn,
    NoVaultKey,
    BadVaultSalt,
    Malformed,
    Crypto(Fault),
    Server { status: Seq<char>, body: Seq<char> },
}

impl View for SyncError {
    type V = SyncFault;

    open spec fn view(&self) -> SyncFault {
        match self {
            SyncError::EmptyUrl => SyncFault::EmptyUrl,
            SyncError::InvalidUrl(u) => SyncFault::InvalidUrl(u@),
            SyncError::NotHttp(u) => SyncFault::NotHttp(u@),
            SyncError::ShortPassword => SyncFault::ShortPassword,
            SyncError::NotLoggedIn => SyncFault::NotLoggedIn,
            SyncError::NoVaultKey => SyncFault::NoVaultKey,
            SyncError::BadVaultSalt => SyncFault::BadVaultSalt,
            SyncError::Malformed => SyncFault::Malformed,
            SyncError::Crypto(e) => SyncFault::Crypto(e@),
            SyncError::Server { status, body } => SyncFault::Server {
                status: status@,
                body: body@,
            },
        }
    }
}

impl SyncFault {
    /// The sentence that tells a user of the error.
    pub open spec fn message(self) -> Seq<char> {
        match self {
            SyncFault::EmptyUrl => "server URL is empty"@,
            SyncFault::InvalidUrl(u) => "invalid server URL "@ + text::quoted(u),
            SyncFault::NotHttp(u) => "server URL must start with http:// or https:// (got "@
                + text::quoted(u) + ")"@,
            SyncFault::ShortPassword => "password must be >= 6 chars"@,
            SyncFault::NotLoggedIn => "not logged in"@,
            SyncFault::NoVaultKey => "no vault key"@,
            SyncFault::BadVaultSalt => "invalid vault_salt from server"@,
            SyncFault::Malformed => "malformed ciphertext"@,
            SyncFault::Crypto(f) => f.message(),
            SyncFault::Server { status, body } => "server returned "@ + status + ": "@ + body,
        }
    }
}

impl SyncError {
    /// The sentence that tells a user of the error.
    pub fn message(&self) -> (r: String)
        ensures
            r@ == self@.message(),
    {
        match self {
            SyncError::EmptyUrl => "server URL is empty".to_owned(),
            SyncError::InvalidUrl(u) => text::concat(
                "invalid server URL ",
                text::quote(u.as_str()).as_str(),
            ),
            SyncError::NotHttp(u) => {
                let s = text::concat(
                    "server URL must start with http:// or https:// (got ",
                    text::quote(u.as_str()).as_str(),
                );
                text::concat(s.as_str(), ")")
            },
            SyncError::ShortPassword => "password must be >= 6 chars".to_owned(),
            SyncError::NotLoggedIn => "not logged in".to_owned(),
            SyncError::NoVaultKey => "no vault key".to_owned(),
            SyncError::BadVaultSalt => "invalid vault_salt from server".to_owned(),
            SyncError::Malformed => "malformed ciphertext".to_owned(),
            SyncError::Crypto(e) => e.message(),
            SyncError::Server { status, body } => {
                let s = text::concat("server returned ", status.as_str());
                let s = text::concat(s.as_str(), ": ");
                text::concat(s.as_str(), body.as_str())
            },
        }
    }
}

// ---------------------------------------------------------------------------
// Server URLs
// ---------------------------------------------------------------------------

/// Whether a text is an absolute URL to `reqwest::Url`.
pub uninterp spec fn is_url(s: Seq<char>) -> bool;

/// `reqwest::Url::parse`: whether it takes the text depends on the text alone.
#[verifier::external_body]
fn url_parses(s: &str) -> (r: bool)
    ensures
        r == is_url(s@),
{
    reqwest::Url::parse(s).is_ok()
}

/// A server URL as it is used: without white space around it and slashes at its end.
pub open spec fn normal_url(s: Seq<char>) -> Seq<char> {
    text::trimmed_end_of(text::trimmed(s), '/')
}

/// Whether a URL has one of the two schemes that the protocol runs over.
pub open spec fn is_http(s: Seq<char>) -> bool {
    text::begins_with(s, "http://"@) || text::begins_with(s, "https://"@)
}

/// What is wrong with a server URL, given whether it is a URL at all.
pub open spec fn url_verdict(url: Seq<char>, parses: bool) -> Option<SyncFault> {
    if url.len() == 0 {
        Some(SyncFault::EmptyUrl)
    } else if !parses {
        Some(SyncFault::InvalidUrl(url))
    } else if !is_http(url) {
        Some(SyncFault::NotHttp(url))
    } else {
        None
    }
}

/// What is wrong with a server URL, given whether it is a URL at all.
pub fn check_url(url: &str, parses: bool) -> (r: Option<SyncError>)
    ensures
        match r {
            Some(e) => url_verdict(url@, parses) == Some(e@),
            None => url_verdict(url@, parses) is None,
        },
{
    if url.is_empty() {
        Some(SyncError::EmptyUrl)
    } else if !parses {
        Some(SyncError::InvalidUrl(url.to_owned()))
    } else if !text::starts_with(url, "http://") && !text::starts_with(url, "https://") {
        Some(SyncError::NotHttp(url.to_owned()))
    } else {
        None
    }
}

// ---------------------------------------------------------------------------
// Hosts and vault entries on their way
// ---------------------------------------------------------------------------

/// A host as it is uploaded with a nonce: its password encrypted and bound to its id.
/// Only password authentication has a password to upload.
pub open spec fn sealed_host(key: Seq<u8>, nonce: Seq<u8>, h: Host) -> Result<Host, SyncFault> {
    match h.auth_method {
        AuthMethod::Key => Ok(Host { password: None, ..h }),
        AuthMethod::Password => match h.password {
            None => Ok(h),
            Some(pw) => match crypto::sealed(key, nonce, pw, encode_utf8(h.id)) {
                Ok((n, c)) => Ok(Host { password: Some(n + ":"@ + c), ..h }),
                Err(f) => Err(SyncFault::Crypto(f)),
            },
        },
    }
}

/// A downloaded host with its password decrypted.
pub open spec fn opened_host(key: Seq<u8>, h: Host) -> Result<Host, SyncFault> {
    match h.auth_method {
        AuthMethod::Key => Ok(Host { password: None, ..h }),
        AuthMethod::Password => match h.password {
            None => Ok(h),
            Some(packed) => match opened_packed(key, packed, encode_utf8(h.id)) {
                Ok(s) => Ok(Host { password: Some(s), ..h }),
                Err(f) => Err(f),
            },
        },
    }
}

/// A host as another device gets it: without the password that only its own device has.
pub open spec fn shared_host(h: Host) -> Host {
    match h.auth_method {
        AuthMethod::Key => Host { password: None, ..h },
        AuthMethod::Password => h,
    }
}

/// The secret in a text of the form `nonce:ciphertext`.
pub open spec fn opened_packed(key: Seq<u8>, packed: Seq<char>, aad: Seq<u8>) -> Result<
    Seq<char>,
    SyncFault,
> {
    match text::split_at_first(packed, ':') {
        None => Err(SyncFault::Malformed),
        Some((n, c)) => match crypto::opened(key, n, c, aad) {
            Ok(s) => Ok(s),
            Err(f) => Err(SyncFault::Crypto(f)),
        },
    }
}

/// A vault entry as it is uploaded with a nonce: its passphrase encrypted and bound to
/// its label.
pub open spec fn sealed_entry(key: Seq<u8>, nonce: Seq<u8>, e: Secret) -> Result<
    Sealed,
    SyncFault,
> {
    match crypto::sealed(key, nonce, e.passphrase, encode_utf8(e.label)) {
        Ok((n, c)) => Ok(
            Sealed {
                id: e.id,
                label: e.label,
                nonce: n,
                ciphertext: c,
                updated_at: e.updated_at,
            },
        ),
        Err(f) => Err(SyncFault::Crypto(f)),
    }
}

/// A downloaded vault entry with its passphrase decrypted.
pub open spec fn opened_entry(key: Seq<u8>, e: Sealed) -> Result<Secret, SyncFault> {
    match crypto::opened(key, e.nonce, e.ciphertext, encode_utf8(e.label)) {
        Ok(s) => Ok(
            Secret { id: e.id, label: e.label, passphrase: s, updated_at: e.updated_at },
        ),
        Err(f) => Err(SyncFault::Crypto(f)),
    }
}

/// Downloaded hosts with their passwords decrypted; the first that cannot be decrypted
/// fails them all.
pub open spec fn opened_hosts(key: Seq<u8>, hosts: Seq<Host>) -> Result<Seq<Host>, SyncFault>
    decreases hosts.len(),
{
    if hosts.len() == 0 {
        Ok(Seq::empty())
    } else {
        match opened_hosts(key, hosts.drop_last()) {
            Err(f) => Err(f),
            Ok(front) => match opened_host(key, hosts.last()) {
                Ok(h) => Ok(front.push(h)),
                Err(f) => Err(f),
            },
        }
    }
}

/// Downloaded vault entries with their passphrases decrypted; the first that cannot be
/// decrypted fails them all.
pub open spec fn opened_entries(key: Seq<u8>, entries: Seq<Sealed>) -> Result<
    Seq<Secret>,
    SyncFault,
>
    decreases entries.len(),
{
    if entries.len() == 0 {
        Ok(Seq::empty())
    } else {
        match opened_entries(key, entries.drop_last()) {
            Err(f) => Err(f),
            Ok(front) => match opened_entry(key, entries.last()) {
                Ok(e) => Ok(front.push(e)),
                Err(f) => Err(f),
            },
        }
    }
}

/// Whether there is room for the encrypted password of a host.
pub open spec fn host_sealable(h: Host) -> bool {
    match (h.auth_method, h.password) {
        (AuthMethod::Password, Some(pw)) => crypto::sealable(pw, encode_utf8(h.id)),
        _ => true,
    }
}

/// Whether there is room for the encrypted passphrase of a vault entry.
pub open spec fn entry_sealable(e: Secret) -> bool {
    crypto::sealable(e.passphrase, encode_utf8(e.label))
}

/// A host as it is uploaded. A device with the same key gets it back from that.
pub fn seal_host(key: &[u8; KEY_LEN], nonce: &[u8; NONCE_LEN], host: &HostConfig) -> (r: Result<
    HostConfig,
    SyncError,
>)
    requires
        host_sealable(host@),
    ensures
        match r {
            Ok(h) => {
                &&& sealed_host(key@, nonce@, host@) == Ok::<Host, SyncFault>(h@)
                &&& opened_host(key@, h@) == Ok::<Host, SyncFault>(shared_host(host@))
            },
            Err(e) => sealed_host(key@, nonce@, host@) == Err::<Host, SyncFault>(e@),
        },
{
    let mut h = host.clone();
    match host.auth_method {
        AuthMethod::Password => {
            if let Some(pw) = &host.password {
                match crypto::encrypt_with_nonce(key, nonce, pw.as_str(), host.id.as_str().as_bytes()) {
                    Ok((n, c)) => {
                        let packed = text::concat(n.as_str(), ":");
                        let packed = text::concat(packed.as_str(), c.as_str());
                        proof {
                            reveal_strlit(":");
                            assert(":"@ =~= seq![':']);
                            encoding::law_base64_text_holds_no_colon(nonce@);
                            text::lemma_split_at_first(n@, ':', c@);
                        }
                        h.password = Some(packed);
                    },
                    Err(e) => return Err(SyncError::Crypto(e)),
                }
            }
        },
        AuthMethod::Key => {
            h.password = None;
        },
    }
    Ok(h)
}

/// The secret in a text of the form `nonce:ciphertext`.
pub fn decrypt_packed(key: &[u8; KEY_LEN], packed: &str, aad: &[u8]) -> (r: Result<
    String,
    SyncError,
>)
    ensures
        match r {
            Ok(s) => opened_packed(key@, packed@, aad@) == Ok::<Seq<char>, SyncFault>(s@),
            Err(e) => opened_packed(key@, packed@, aad@) == Err::<Seq<char>, SyncFault>(e@),
        },
{
    match text::split_once(packed, ':') {
        None => Err(SyncError::Malformed),
        Some((nonce, ct)) => match crypto::decrypt_secret(key, nonce.as_str(), ct.as_str(), aad) {
            Ok(s) => Ok(s),
            Err(e) => Err(SyncError::Crypto(e)),
        },
    }
}

/// A downloaded host with its password decrypted.
pub fn open_host(key: &[u8; KEY_LEN], host: HostConfig) -> (r: Result<HostConfig, SyncError>)
    ensures
        match r {
            Ok(h) => opened_host(key@, host@) == Ok::<Host, SyncFault>(h@),
            Err(e) => opened_host(key@, host@) == Err::<Host, SyncFault>(e@),
        },
{
    let mut h = host;
    match h.auth_method {
        AuthMethod::Password => {
            let opened = match &h.password {
                Some(packed) => match decrypt_packed(
                    key,
                    packed.as_str(),
                    h.id.as_str().as_bytes(),
                ) {
                    Ok(s) => Some(s),
                    Err(e) => return Err(e),
                },
                None => None,
            };
            h.password = opened;
        },
        AuthMethod::Key => {
            h.password = None;
        },
    }
    Ok(h)
}

/// A vault entry as it is uploaded. A device with the same key gets it back from that.
pub fn seal_entry(key: &[u8; KEY_LEN], nonce: &[u8; NONCE_LEN], entry: &LocalVaultEntry) -> (r:
    Result<VaultEntry, SyncError>)
    requires
        entry_sealable(entry@),
    ensures
        match r {
            Ok(v) => {
                &&& sealed_entry(key@, nonce@, entry@) == Ok::<Sealed, SyncFault>(v@)
                &&& opened_entry(key@, v@) == Ok::<Secret, SyncFault>(entry@)
            },
            Err(e) => sealed_entry(key@, nonce@, entry@) == Err::<Sealed, SyncFault>(e@),
        },
{
    match crypto::encrypt_with_nonce(
        key,
        nonce,
        entry.passphrase.as_str(),
        entry.label.as_str().as_bytes(),
    ) {
        Ok((n, c)) => Ok(
            VaultEntry {
                id: entry.id.clone(),
                label: entry.label.clone(),
                nonce: n,
                ciphertext: c,
                updated_at: entry.updated_at,
            },
        ),
        Err(e) => Err(SyncError::Crypto(e)),
    }
}

/// A downloaded vault entry with its passphrase decrypted.
pub fn open_entry(key: &[u8; KEY_LEN], entry: &VaultEntry) -> (r: Result<
    LocalVaultEntry,
    SyncError,
>)
    ensures
        match r {
            Ok(e) => opened_entry(key@, entry@) == Ok::<Secret, SyncFault>(e@),
            Err(e) => opened_entry(key@, entry@) == Err::<Secret, SyncFault>(e@),
        },
{
    match crypto::decrypt_secret(
        key,
        entry.nonce.as_str(),
        entry.ciphertext.as_str(),
        entry.label.as_str().as_bytes(),
    ) {
        Ok(passphrase) => Ok(
            LocalVaultEntry {
                id: entry.id.clone(),
                label: entry.label.clone(),
                passphrase,
                updated_at: entry.updated_at,
            },
        ),
        Err(e) => Err(SyncError::Crypto(e)),
    }
}

// ---------------------------------------------------------------------------
// The client
// ---------------------------------------------------------------------------

/// What a device knows of its account at a sync server.
#[derive(Debug)]
pub struct SyncClient {
    base_url: String,
    token: Option<String>,
    vault_key: Option<[u8; KEY_LEN]>,
}

/// A `SyncClient`, as specifications see it.
#[verifier::ext_equal]
pub struct Account {
    pub base_url: Seq<char>,
    pub token: Option<Seq<char>>,
    pub key: Option<Seq<u8>>,
}

/// The bytes of an optional key.
pub open spec fn opt_key(k: Option<[u8; KEY_LEN]>) -> Option<Seq<u8>> {
    match k {
        Some(b) => Some(b@),
        None => None,
    }
}

impl View for SyncClient {
    type V = Account;

    closed spec fn view(&self) -> Account {
        Account {
            base_url: self.base_url@,
            token: types::opt_text(self.token),
            key: opt_key(self.vault_key),
        }
    }
}

impl Clone for SyncClient {
    fn clone(&self) -> (r: Self)
        ensures
            r@ == self@,
    {
        SyncClient {
            base_url: self.base_url.clone(),
            token: types::clone_opt(&self.token),
            vault_key: self.vault_key,
        }
    }
}

/// Hosts and vault entries as they came from the server, decrypted.
#[derive(Debug)]
pub struct PulledState {
    pub hosts: Vec<HostConfig>,
    pub vault: Vec<LocalVaultEntry>,
}

impl Clone for PulledState {
    fn clone(&self) -> (r: Self)
        ensures
            types::host_views(r.hosts@) == types::host_views(self.hosts@),
            store::secret_views(r.vault@) == store::secret_views(self.vault@),
    {
        let hosts = store::clone_hosts(self.hosts.as_slice());
        let vault = store::clone_vault(self.vault.as_slice());
        PulledState { hosts, vault }
    }
}

impl Default for PulledState {
    fn default() -> (r: Self)
        ensures
            r.hosts@.len() == 0,
            r.vault@.len() == 0,
    {
        PulledState { hosts: Vec::new(), vault: Vec::new() }
    }
}

/// A request without a body.
#[derive(Debug)]
pub struct Request {
    pub url: String,
    pub authorization: String,
}

/// What an upload carries.
#[derive(Debug)]
pub enum Upload {
    Vault(VaultEntry),
    Host(HostConfig),
}

/// A request that uploads something.
#[derive(Debug)]
pub struct UploadRequest {
    pub url: String,
    pub authorization: String,
    pub body: Upload,
}

/// What an upload carries, as specifications see it.
pub enum Uploaded {
    Vault(Sealed),
    Host(Host),
}

/// An `UploadRequest`, as specifications see it.
#[verifier::ext_equal]
pub struct Put {
    pub url: Seq<char>,
    pub authorization: Seq<char>,
    pub body: Uploaded,
}

impl View for UploadRequest {
    type V = Put;

    open spec fn view(&self) -> Put {
        Put {
            url: self.url@,
            authorization: self.authorization@,
            body: match self.body {
                Upload::Vault(v) => Uploaded::Vault(v@),
                Upload::Host(h) => Uploaded::Host(h@),
            },
        }
    }
}

/// What uploading item `done` takes, for a nonce: the vault entries come first, so that
/// the references of the hosts to them resolve, then the hosts; nothing is left behind
/// them. Without a vault key nothing can be uploaded.
pub open spec fn push_step(
    a: Account,
    hosts: Seq<Host>,
    vault: Seq<Secret>,
    done: int,
    nonce: Seq<u8>,
) -> Result<Option<Put>, SyncFault> {
    match a.key {
        None => Err(SyncFault::NoVaultKey),
        Some(key) => if done < vault.len() {
            match sealed_entry(key, nonce, vault[done]) {
                Err(f) => Err(f),
                Ok(v) => a.put("/vault"@, Uploaded::Vault(v)),
            }
        } else if done < vault.len() + hosts.len() {
            match sealed_host(key, nonce, hosts[done - vault.len()]) {
                Err(f) => Err(f),
                Ok(h) => a.put("/hosts"@, Uploaded::Host(h)),
            }
        } else {
            Ok(None)
        },
    }
}

/// Whether a device with the same key gets item `done` back from its upload.
pub open spec fn comes_back(
    key: Seq<u8>,
    hosts: Seq<Host>,
    vault: Seq<Secret>,
    done: int,
    body: Uploaded,
) -> bool {
    match body {
        Uploaded::Vault(v) => {
            &&& done < vault.len()
            &&& opened_entry(key, v) == Ok::<Secret, SyncFault>(vault[done])
        },
        Uploaded::Host(h) => {
            &&& vault.len() <= done < vault.len() + hosts.len()
            &&& opened_host(key, h) == Ok::<Host, SyncFault>(
                shared_host(hosts[done - vault.len()]),
            )
        },
    }
}

/// Whether there is room for item `done` in its encrypted form.
pub open spec fn step_sealable(hosts: Seq<Host>, vault: Seq<Secret>, done: int) -> bool {
    &&& done < vault.len() ==> entry_sealable(vault[done])
    &&& vault.len() <= done < vault.len() + hosts.len() ==> host_sealable(
        hosts[done - vault.len()],
    )
}

/// Whether item `done` is no longer than the cipher takes.
pub open spec fn step_fits(hosts: Seq<Host>, vault: Seq<Secret>, done: int) -> bool {
    if done < vault.len() {
        !crypto::oversized(
            encode_utf8(vault[done].passphrase).len(),
            encode_utf8(vault[done].label).len(),
        )
    } else if done < vault.len() + hosts.len() {
        let h = hosts[done - vault.len()];
        match (h.auth_method, h.password) {
            (AuthMethod::Password, Some(pw)) => !crypto::oversized(
                encode_utf8(pw).len(),
                encode_utf8(h.id).len(),
            ),
            _ => true,
        }
    } else {
        true
    }
}

/// What a download gives: hosts and vault entries decrypted, or the first error.
pub open spec fn pulled(key: Seq<u8>, hosts: Seq<Host>, entries: Seq<Sealed>) -> Result<
    (Seq<Host>, Seq<Secret>),
    SyncFault,
> {
    match opened_hosts(key, hosts) {
        Err(f) => Err(f),
        Ok(h) => match opened_entries(key, entries) {
            Err(f) => Err(f),
            Ok(v) => Ok((h, v)),
        },
    }
}

/// The vault key that a password gives with the salt that the server sent.
pub open spec fn key_from_server(password: Seq<char>, vault_salt: Seq<char>) -> Result<
    Seq<u8>,
    SyncFault,
> {
    match encoding::base64_bytes(vault_salt) {
        Err(_) => Err(SyncFault::BadVaultSalt),
        Ok(salt) => match crypto::hashed(password, salt, KEY_LEN as int) {
            Ok(k) => Ok(k),
            Err(f) => Err(SyncFault::Crypto(f)),
        },
    }
}

/// How many bytes a password to register with must have. The server cannot tell: it only
/// sees the login secret.
pub const MIN_PASSWORD_LEN: usize = 6;

/// A registration: what is sent to the server, and the vault key, which is not.
#[verifier::ext_equal]
pub struct Registration {
    pub username: Seq<char>,
    /// The login secret.
    pub password: Seq<char>,
    pub vault_salt: Seq<char>,
    pub key: Seq<u8>,
}

/// A registration with a vault salt, or why there is none.
pub open spec fn registration(username: Seq<char>, password: Seq<char>, salt: Seq<u8>) -> Result<
    Registration,
    SyncFault,
> {
    if encode_utf8(password).len() < MIN_PASSWORD_LEN {
        Err(SyncFault::ShortPassword)
    } else {
        match crypto::hashed(password, salt, KEY_LEN as int) {
            Err(f) => Err(SyncFault::Crypto(f)),
            Ok(key) => match crypto::login_secret_of(username, password) {
                Err(f) => Err(SyncFault::Crypto(f)),
                Ok(secret) => Ok(
                    Registration {
                        username,
                        password: secret,
                        vault_salt: encoding::base64_text(salt),
                        key,
                    },
                ),
            },
        }
    }
}

/// Whether there is a registration with a vault salt of the usual length: the password is
/// neither too short nor too long, nor the name too long to hash.
pub open spec fn can_register(username: Seq<char>, password: Seq<char>) -> bool {
    &&& MIN_PASSWORD_LEN <= encode_utf8(password).len() <= 0xffff_ffff
    &&& crypto::login_salt(username).len() <= 0xffff_ffff
}

/// What is sent to the server to log in: the user's name and login secret.
pub open spec fn login_body(username: Seq<char>, password: Seq<char>) -> Result<
    (Seq<char>, Seq<char>),
    SyncFault,
> {
    match crypto::login_secret_of(username, password) {
        Ok(secret) => Ok((username, secret)),
        Err(f) => Err(SyncFault::Crypto(f)),
    }
}

/// What a request to register and a vault key are together.
pub open spec fn registered(req: RegisterRequest, key: Seq<u8>) -> Registration {
    Registration {
        username: req.username@,
        password: req.password@,
        vault_salt: req.vault_salt@,
        key,
    }
}

impl Account {
    /// A client that is not logged in.
    pub open spec fn fresh(base_url: Seq<char>) -> Account {
        Account { base_url, token: None, key: None }
    }

    /// The URL of a path of the API.
    pub open spec fn url(self, path: Seq<char>) -> Seq<char> {
        self.base_url + API_PREFIX@ + path
    }

    /// The value of the authorization header.
    pub open spec fn header(self) -> Result<Seq<char>, SyncFault> {
        match self.token {
            Some(t) => Ok("Bearer "@ + t),
            None => Err(SyncFault::NotLoggedIn),
        }
    }

    /// An upload to a path.
    pub open spec fn put(self, path: Seq<char>, body: Uploaded) -> Result<Option<Put>, SyncFault> {
        match self.header() {
            Ok(authorization) => Ok(Some(Put { url: self.url(path), authorization, body })),
            Err(f) => Err(f),
        }
    }
}

/// Whether a request goes to a path with the authorization of an account, or why it
/// cannot be made.
pub open spec fn is_request(a: Account, path: Seq<char>, r: Result<Request, SyncError>) -> bool {
    match r {
        Ok(q) => a.header() == Ok::<Seq<char>, SyncFault>(q.authorization@) && q.url@ == a.url(
            path,
        ),
        Err(e) => a.header() == Err::<Seq<char>, SyncFault>(e@),
    }
}

impl SyncClient {
    /// A client for a server, which is not logged in.
    pub fn new(base_url: &str) -> (r: Result<SyncClient, SyncError>)
        ensures
            match r {
                Ok(c) => {
                    &&& url_verdict(normal_url(base_url@), is_url(normal_url(base_url@))) is None
                    &&& c@ == Account::fresh(normal_url(base_url@))
                },
                Err(e) => url_verdict(normal_url(base_url@), is_url(normal_url(base_url@)))
                    == Some(e@),
            },
    {
        let trimmed = text::trim(base_url);
        let base_url = text::trim_end_matches(trimmed.as_str(), '/');
        // Validate up front so we surface a friendly error instead of a failure at
        // request time.
        let parses = url_parses(base_url.as_str());
        match check_url(base_url.as_str(), parses) {
            Some(e) => Err(e),
            None => Ok(SyncClient { base_url, token: None, vault_key: None }),
        }
    }

    /// Whether the client is logged in and can decrypt.
    pub fn is_authed(&self) -> (r: bool)
        ensures
            r == (self@.token is Some && self@.key is Some),
    {
        self.token.is_some() && self.vault_key.is_some()
    }

    /// The URL of the server.
    pub fn base_url(&self) -> (r: &str)
        ensures
            r@ == self@.base_url,
    {
        self.base_url.as_str()
    }

    /// The URL of a path of the API.
    pub fn url(&self, path: &str) -> (r: String)
        ensures
            r@ == self@.url(path@),
    {
        let s = text::concat(self.base_url.as_str(), API_PREFIX);
        text::concat(s.as_str(), path)
    }

    fn auth_header(&self) -> (r: Result<String, SyncError>)
        ensures
            match r {
                Ok(h) => self@.header() == Ok::<Seq<char>, SyncFault>(h@),
                Err(e) => self@.header() == Err::<Seq<char>, SyncFault>(e@),
            },
    {
        match &self.token {
            Some(t) => Ok(text::concat("Bearer ", t.as_str())),
            None => Err(SyncError::NotLoggedIn),
        }
    }

    fn key(&self) -> (r: Result<&[u8; KEY_LEN], SyncError>)
        ensures
            match r {
                Ok(k) => self@.key == Some(k@),
                Err(e) => self@.key is None && e@ == SyncFault::NoVaultKey,
            },
    {
        match &self.vault_key {
            Some(k) => Ok(k),
            None => Err(SyncError::NoVaultKey),
        }
    }

    /// Begin to register a new user with a given vault salt: the request to send to
    /// `/register`, and the vault key. Of the vault only the salt goes into the request, and
    /// in place of the password its login secret: neither the password nor the key.
    pub fn register_with(username: &str, password: &str, salt: &[u8; SALT_LEN]) -> (r: Result<
        (RegisterRequest, [u8; KEY_LEN]),
        SyncError,
    >)
        ensures
            match r {
                Ok((req, key)) => {
                    &&& registration(username@, password@, salt@) == Ok::<Registration, SyncFault>(
                        registered(req, key@),
                    )
                    &&& crypto::login_secret_of(username@, password@) == Ok::<Seq<char>, Fault>(
                        req.password@,
                    )
                },
                Err(e) => registration(username@, password@, salt@) == Err::<
                    Registration,
                    SyncFault,
                >(e@),
            },
    {
        if password.as_bytes().len() < MIN_PASSWORD_LEN {
            return Err(SyncError::ShortPassword);
        }
        let vault_salt = encoding::base64_encode(salt.as_slice());
        let key = match crypto::derive_vault_key(password, salt.as_slice()) {
            Ok(key) => key,
            Err(e) => return Err(SyncError::Crypto(e)),
        };
        match crypto::login_secret(username, password) {
            Ok(secret) => Ok(
                (
                    RegisterRequest {
                        username: username.to_owned(),
                        password: secret,
                        vault_salt,
                    },
                    key,
                ),
            ),
            Err(e) => Err(SyncError::Crypto(e)),
        }
    }

    /// Begin to register a new user. Generates the vault salt, derives the vault key
    /// locally, and uploads only the salt (not the password, not the key); see
    /// [`SyncClient::register_with`].
    pub fn register(&self, username: &str, password: &str) -> (r: Result<
        (RegisterRequest, [u8; KEY_LEN]),
        SyncError,
    >)
        ensures
            exists|salt: Seq<u8>|
                salt.len() == SALT_LEN && match r {
                    Ok((req, key)) => #[trigger] registration(username@, password@, salt) == Ok::<
                        Registration,
                        SyncFault,
                    >(registered(req, key@)),
                    Err(e) => registration(username@, password@, salt) == Err::<
                        Registration,
                        SyncFault,
                    >(e@),
                },
            r is Ok <==> can_register(username@, password@),
            r matches Ok((req, key)) ==> {
                &&& crypto::login_secret_of(username@, password@) == Ok::<Seq<char>, Fault>(
                    req.password@,
                )
                &&& key_from_server(password@, req.vault_salt@) == Ok::<Seq<u8>, SyncFault>(key@)
            },
    {
        let salt = crypto::new_salt();
        proof {
            encoding::law_base64_roundtrip(salt@);
            crypto::lemma_login_salt_len(username@);
        }
        Self::register_with(username, password, &salt)
    }

    /// Take in the answer to a registration: from now on the client is logged in.
    pub fn finish_register(&mut self, key: [u8; KEY_LEN], auth: &AuthResponse)
        ensures
            final(self)@ == (Account {
                token: Some(auth.token@),
                key: Some(key@),
                ..old(self)@
            }),
    {
        self.token = Some(auth.token.clone());
        self.vault_key = Some(key);
    }

    /// Begin to log in: the request to send to `/login`, with the login secret in place of
    /// the password.
    pub fn login(&self, username: &str, password: &str) -> (r: Result<LoginRequest, SyncError>)
        ensures
            match r {
                Ok(req) => login_body(username@, password@) == Ok::<
                    (Seq<char>, Seq<char>),
                    SyncFault,
                >((req.username@, req.password@)),
                Err(e) => login_body(username@, password@) == Err::<
                    (Seq<char>, Seq<char>),
                    SyncFault,
                >(e@),
            },
    {
        match crypto::login_secret(username, password) {
            Ok(secret) => Ok(LoginRequest { username: username.to_owned(), password: secret }),
            Err(e) => Err(SyncError::Crypto(e)),
        }
    }

    /// Take in the answer to a login. The server returns the vault salt; the client
    /// re-derives the vault key from the typed password. A wrong password fails server
    /// auth before any decryption is attempted.
    pub fn finish_login(&mut self, password: &str, auth: &AuthResponse) -> (r: Result<
        (),
        SyncError,
    >)
        ensures
            match r {
                Ok(()) => {
                    &&& key_from_server(password@, auth.vault_salt@) matches Ok(key)
                    &&& final(self)@ == (Account {
                        token: Some(auth.token@),
                        key: Some(key),
                        ..old(self)@
                    })
                },
                Err(e) => {
                    &&& key_from_server(password@, auth.vault_salt@) == Err::<
                        Seq<u8>,
                        SyncFault,
                    >(e@)
                    &&& final(self)@ == old(self)@
                },
            },
    {
        let salt = match encoding::base64_decoded(auth.vault_salt.as_str()) {
            Ok(v) => v,
            Err(_) => return Err(SyncError::BadVaultSalt),
        };
        match crypto::derive_vault_key(password, salt.as_slice()) {
            Ok(key) => {
                self.token = Some(auth.token.clone());
                self.vault_key = Some(key);
                Ok(())
            },
            Err(e) => Err(SyncError::Crypto(e)),
        }
    }

    /// The next upload for a given nonce; see [`SyncClient::push`].
    pub fn push_with_nonce(
        &self,
        hosts: &[HostConfig],
        vault: &[LocalVaultEntry],
        done: usize,
        nonce: &[u8; NONCE_LEN],
    ) -> (r: Result<Option<UploadRequest>, SyncError>)
        requires
            step_sealable(types::host_views(hosts@), store::secret_views(vault@), done as int),
        ensures
            ({
                let step = push_step(
                    self@,
                    types::host_views(hosts@),
                    store::secret_views(vault@),
                    done as int,
                    nonce@,
                );
                match r {
                    Ok(Some(q)) => {
                        &&& step == Ok::<Option<Put>, SyncFault>(Some(q@))
                        &&& self@.key matches Some(key)
                        &&& comes_back(
                            key,
                            types::host_views(hosts@),
                            store::secret_views(vault@),
                            done as int,
                            q@.body,
                        )
                    },
                    Ok(None) => step == Ok::<Option<Put>, SyncFault>(None),
                    Err(e) => step == Err::<Option<Put>, SyncFault>(e@),
                }
            }),
    {
        let key = self.key()?;
        if done < vault.len() {
            assert(store::secret_views(vault@)[done as int] == vault@[done as int]@);
            let entry = match seal_entry(key, nonce, &vault[done]) {
                Ok(v) => v,
                Err(e) => return Err(e),
            };
            let url = self.url("/vault");
            match self.auth_header() {
                Ok(authorization) => Ok(
                    Some(UploadRequest { url, authorization, body: Upload::Vault(entry) }),
                ),
                Err(e) => Err(e),
            }
        } else if done - vault.len() < hosts.len() {
            let i: usize = done - vault.len();
            assert(types::host_views(hosts@)[i as int] == hosts@[i as int]@);
            let host = match seal_host(key, nonce, &hosts[i]) {
                Ok(h) => h,
                Err(e) => return Err(e),
            };
            let url = self.url("/hosts");
            match self.auth_header() {
                Ok(authorization) => Ok(
                    Some(UploadRequest { url, authorization, body: Upload::Host(host) }),
                ),
                Err(e) => Err(e),
            }
        } else {
            Ok(None)
        }
    }

    /// Push local hosts + vault to the server, one upload at a time: the next one after
    /// `done` of them, or none where all are done. Everything secret is encrypted first;
    /// structural fields (name, host, port, username, auth method, key path, group) are
    /// uploaded in the clear.
    pub fn push(&self, hosts: &[HostConfig], vault: &[LocalVaultEntry], done: usize) -> (r: Result<
        Option<UploadRequest>,
        SyncError,
    >)
        requires
            step_sealable(types::host_views(hosts@), store::secret_views(vault@), done as int),
        ensures
            exists|nonce: Seq<u8>|
                nonce.len() == NONCE_LEN && ({
                    let step = #[trigger] push_step(
                        self@,
                        types::host_views(hosts@),
                        store::secret_views(vault@),
                        done as int,
                        nonce,
                    );
                    match r {
                        Ok(Some(q)) => step == Ok::<Option<Put>, SyncFault>(Some(q@)),
                        Ok(None) => step == Ok::<Option<Put>, SyncFault>(None),
                        Err(e) => step == Err::<Option<Put>, SyncFault>(e@),
                    }
                }),
            r matches Ok(Some(q)) ==> self@.key matches Some(key) && comes_back(
                key,
                types::host_views(hosts@),
                store::secret_views(vault@),
                done as int,
                q@.body,
            ),
            self@.key is Some && self@.token is Some && step_fits(
                types::host_views(hosts@),
                store::secret_views(vault@),
                done as int,
            ) ==> (r matches Ok(q) && (q is Some <==> done < vault@.len() + hosts@.len())),
    {
        let nonce = crypto::new_nonce();
        self.push_with_nonce(hosts, vault, done, &nonce)
    }

    /// Begin a download: the requests for the hosts and for the vault.
    pub fn pull_requests(&self) -> (r: Result<(Request, Request), SyncError>)
        ensures
            match r {
                Ok((h, v)) => {
                    &&& self@.key is Some
                    &&& is_request(self@, "/hosts"@, Ok(h))
                    &&& is_request(self@, "/vault"@, Ok(v))
                },
                Err(e) => if self@.key is None {
                    e@ == SyncFault::NoVaultKey
                } else {
                    self@.header() == Err::<Seq<char>, SyncFault>(e@)
                },
            },
    {
        match self.key() {
            Ok(_) => {},
            Err(e) => return Err(e),
        }
        let hosts = self.request("/hosts");
        let vault = self.request("/vault");
        match (hosts, vault) {
            (Ok(h), Ok(v)) => Ok((h, v)),
            (Err(e), _) => Err(e),
            (_, Err(e)) => Err(e),
        }
    }

    fn request(&self, path: &str) -> (r: Result<Request, SyncError>)
        ensures
            is_request(self@, path@, r),
    {
        let url = self.url(path);
        match self.auth_header() {
            Ok(authorization) => Ok(Request { url, authorization }),
            Err(e) => Err(e),
        }
    }

    /// Take in a download: decrypt everything locally.
    pub fn pull(&self, host_list: HostListResponse, vault_list: VaultListResponse) -> (r: Result<
        PulledState,
        SyncError,
    >)
        ensures
            match self@.key {
                None => r matches Err(e) && e@ == SyncFault::NoVaultKey,
                Some(key) => {
                    let got = pulled(
                        key,
                        types::host_views(host_list.hosts@),
                        types::entry_views(vault_list.entries@),
                    );
                    match r {
                        Ok(p) => got == Ok::<(Seq<Host>, Seq<Secret>), SyncFault>(
                            (types::host_views(p.hosts@), store::secret_views(p.vault@)),
                        ),
                        Err(e) => got == Err::<(Seq<Host>, Seq<Secret>), SyncFault>(e@),
                    }
                },
            },
    {
        let key = match self.key() {
            Ok(k) => k,
            Err(e) => return Err(e),
        };
        let hosts = match open_hosts(key, host_list.hosts.as_slice()) {
            Ok(v) => v,
            Err(e) => return Err(e),
        };
        match open_entries(key, vault_list.entries.as_slice()) {
            Ok(vault) => Ok(PulledState { hosts, vault }),
            Err(e) => Err(e),
        }
    }

    /// The request that deletes a host at the server.
    pub fn delete_host(&self, id: &str) -> (r: Result<Request, SyncError>)
        ensures
            is_request(self@, "/hosts/"@ + id@, r),
    {
        let path = text::concat("/hosts/", id);
        self.request(path.as_str())
    }

    /// The request that deletes a vault entry at the server.
    pub fn delete_vault(&self, id: &str) -> (r: Result<Request, SyncError>)
        ensures
            is_request(self@, "/vault/"@ + id@, r),
    {
        let path = text::concat("/vault/", id);
        self.request(path.as_str())
    }

    /// The error for an answer that is no success.
    pub fn err(status: &str, body: &str) -> (r: SyncError)
        ensures
            r@ == (SyncFault::Server { status: status@, body: body@ }),
    {
        SyncError::Server { status: status.to_owned(), body: body.to_owned() }
    }
}

proof fn lemma_opened_hosts_fails(key: Seq<u8>, hosts: Seq<Host>, n: int)
    requires
        0 <= n <= hosts.len(),
        opened_hosts(key, hosts.take(n)) is Err,
    ensures
        opened_hosts(key, hosts) == opened_hosts(key, hosts.take(n)),
    decreases hosts.len(),
{
    if n < hosts.len() {
        assert(hosts.drop_last().take(n) =~= hosts.take(n));
        lemma_opened_hosts_fails(key, hosts.drop_last(), n);
    } else {
        assert(hosts.take(n) =~= hosts);
    }
}

proof fn lemma_opened_entries_fails(key: Seq<u8>, entries: Seq<Sealed>, n: int)
    requires
        0 <= n <= entries.len(),
        opened_entries(key, entries.take(n)) is Err,
    ensures
        opened_entries(key, entries) == opened_entries(key, entries.take(n)),
    decreases entries.len(),
{
    if n < entries.len() {
        assert(entries.drop_last().take(n) =~= entries.take(n));
        lemma_opened_entries_fails(key, entries.drop_last(), n);
    } else {
        assert(entries.take(n) =~= entries);
    }
}

fn open_hosts(key: &[u8; KEY_LEN], hosts: &[HostConfig]) -> (r: Result<Vec<HostConfig>, SyncError>)
    ensures
        match r {
            Ok(v) => opened_hosts(key@, types::host_views(hosts@)) == Ok::<Seq<Host>, SyncFault>(
                types::host_views(v@),
            ),
            Err(e) => opened_hosts(key@, types::host_views(hosts@)) == Err::<
                Seq<Host>,
                SyncFault,
            >(e@),
        },
{
    let ghost all = types::host_views(hosts@);
    let mut out: Vec<HostConfig> = Vec::new();
    let mut i: usize = 0;
    assert(all.take(0) =~= Seq::empty());
    assert(types::host_views(out@) =~= Seq::empty());
    while i < hosts.len()
        invariant
            i <= hosts@.len(),
            all == types::host_views(hosts@),
            opened_hosts(key@, all.take(i as int)) == Ok::<Seq<Host>, SyncFault>(
                types::host_views(out@),
            ),
        decreases hosts@.len() - i,
    {
        let ghost before = out@;
        proof {
            assert(all.take(i + 1).drop_last() =~= all.take(i as int));
            assert(all.take(i + 1).last() == hosts@[i as int]@);
        }
        match open_host(key, hosts[i].clone()) {
            Ok(h) => {
                out.push(h);
                assert(types::host_views(out@) =~= types::host_views(before).push(h@));
            },
            Err(e) => {
                proof {
                    lemma_opened_hosts_fails(key@, all, i + 1);
                }
                return Err(e);
            },
        }
        i += 1;
    }
    assert(all.take(all.len() as int) =~= all);
    Ok(out)
}

fn open_entries(key: &[u8; KEY_LEN], entries: &[VaultEntry]) -> (r: Result<
    Vec<LocalVaultEntry>,
    SyncError,
>)
    ensures
        match r {
            Ok(v) => opened_entries(key@, types::entry_views(entries@)) == Ok::<
                Seq<Secret>,
                SyncFault,
            >(store::secret_views(v@)),
            Err(e) => opened_entries(key@, types::entry_views(entries@)) == Err::<
                Seq<Secret>,
                SyncFault,
            >(e@),
        },
{
    let ghost all = types::entry_views(entries@);
    let mut out: Vec<LocalVaultEntry> = Vec::new();
    let mut i: usize = 0;
    assert(all.take(0) =~= Seq::empty());
    assert(store::secret_views(out@) =~= Seq::empty());
    while i < entries.len()
        invariant
            i <= entries@.len(),
            all == types::entry_views(entries@),
            opened_entries(key@, all.take(i as int)) == Ok::<Seq<Secret>, SyncFault>(
                store::secret_views(out@),
            ),
        decreases entries@.len() - i,
    {
        let ghost before = out@;
        proof {
            assert(all.take(i + 1).drop_last() =~= all.take(i as int));
            assert(all.take(i + 1).last() == entries@[i as int]@);
        }
        match open_entry(key, &entries[i]) {
            Ok(e) => {
                out.push(e);
                assert(store::secret_views(out@) =~= store::secret_views(before).push(e@));
            },
            Err(e) => {
                proof {
                    lemma_opened_entries_fails(key@, all, i + 1);
                }
                return Err(e);
            },
        }
        i += 1;
    }
    assert(all.take(all.len() as int) =~= all);
    Ok(out)
}

// ---------------------------------------------------------------------------
// Laws
// ---------------------------------------------------------------------------

/// A login sends the name and the secret that the registration with the same password
/// sent, whatever vault salt that had.
pub proof fn law_login_sends_what_registration_sent(
    username: Seq<char>,
    password: Seq<char>,
    salt: Seq<u8>,
)
    ensures
        registration(username, password, salt) matches Ok(r) ==> login_body(username, password)
            == Ok::<(Seq<char>, Seq<char>), SyncFault>((r.username, r.password)),
{
}

/// A user who registered can log in: a record that accepts what the registration sent, as
/// that of the server does, accepts what a login sends.
pub proof fn law_registered_user_can_log_in(
    username: Seq<char>,
    password: Seq<char>,
    salt: Seq<u8>,
    record: Seq<char>,
)
    requires
        registration(username, password, salt) matches Ok(r) && crypto::login_verdict(
            r.password,
            record,
        ) == Ok::<bool, Fault>(true),
    ensures
        login_body(username, password) matches Ok((name, secret)) && name == username
            && crypto::login_verdict(secret, record) == Ok::<bool, Fault>(true),
{
}

/// A device that logs in with the password of the registration derives the vault key of
/// the registration from the salt that the server holds.
pub proof fn law_second_device_derives_the_same_key(password: Seq<char>, salt: Seq<u8>)
    requires
        crypto::hashed(password, salt, KEY_LEN as int) is Ok,
    ensures
        key_from_server(password, encoding::base64_text(salt)) == Ok::<Seq<u8>, SyncFault>(
            crypto::hashed(password, salt, KEY_LEN as int)->Ok_0,
        ),
{
    encoding::law_base64_roundtrip(salt);
}

/// A client that is logged in uploads every item that is no longer than the cipher takes,
/// the vault entries before the hosts and each in its order, and then is done. Of a vault
/// entry the id, the label and the time are kept, and of a host everything but the
/// password; secrets go encrypted, those of a vault entry bound to its label and those of a
/// host to its id; a host with a key goes without a password.
pub proof fn law_push_uploads_every_item(
    a: Account,
    hosts: Seq<Host>,
    vault: Seq<Secret>,
    done: int,
    nonce: Seq<u8>,
)
    requires
        a.key is Some,
        a.token is Some,
        0 <= done,
        step_fits(hosts, vault, done),
    ensures
        ({
            let key = a.key->0;
            let step = push_step(a, hosts, vault, done, nonce);
            if done < vault.len() {
                let e = vault[done];
                &&& step matches Ok(Some(q))
                &&& q.url == a.url("/vault"@)
                &&& q.body matches Uploaded::Vault(v)
                &&& v.id == e.id && v.label == e.label && v.updated_at == e.updated_at
                &&& crypto::sealed(key, nonce, e.passphrase, encode_utf8(e.label)) == Ok::<
                    (Seq<char>, Seq<char>),
                    Fault,
                >((v.nonce, v.ciphertext))
            } else if done < vault.len() + hosts.len() {
                let h = hosts[done - vault.len()];
                &&& step matches Ok(Some(q))
                &&& q.url == a.url("/hosts"@)
                &&& q.body matches Uploaded::Host(u)
                &&& u == (Host { password: u.password, ..h })
                &&& match (h.auth_method, h.password) {
                    (AuthMethod::Password, Some(pw)) => crypto::sealed(
                        key,
                        nonce,
                        pw,
                        encode_utf8(h.id),
                    ) matches Ok((n, c)) && u.password == Some(n + ":"@ + c),
                    _ => u.password is None,
                }
            } else {
                step == Ok::<Option<Put>, SyncFault>(None)
            }
        }),
{
}

/// A download gives back what was uploaded, in whatever order the server keeps it, where
/// each upload on its own comes back: see [`SyncClient::push`]. `host_order` and
/// `entry_order` say which of the uploaded items each of the stored ones is.
pub proof fn law_pull_gives_back_what_was_pushed(
    key: Seq<u8>,
    hosts: Seq<Host>,
    vault: Seq<Secret>,
    stored_hosts: Seq<Host>,
    host_order: Seq<int>,
    stored_entries: Seq<Sealed>,
    entry_order: Seq<int>,
)
    requires
        host_order.len() == stored_hosts.len(),
        entry_order.len() == stored_entries.len(),
        forall|i: int|
            0 <= i < stored_hosts.len() ==> comes_back(
                key,
                hosts,
                vault,
                vault.len() + host_order[i],
                Uploaded::Host(#[trigger] stored_hosts[i]),
            ),
        forall|i: int|
            0 <= i < stored_entries.len() ==> comes_back(
                key,
                hosts,
                vault,
                entry_order[i],
                Uploaded::Vault(#[trigger] stored_entries[i]),
            ),
    ensures
        pulled(key, stored_hosts, stored_entries) == Ok::<(Seq<Host>, Seq<Secret>), SyncFault>(
            (
                host_order.map_values(|i: int| shared_host(hosts[i])),
                entry_order.map_values(|i: int| vault[i]),
            ),
        ),
{
    let got_hosts = host_order.map_values(|i: int| shared_host(hosts[i]));
    let got_vault = entry_order.map_values(|i: int| vault[i]);
    assert forall|i: int| 0 <= i < stored_hosts.len() implies opened_host(
        key,
        #[trigger] stored_hosts[i],
    ) == Ok::<Host, SyncFault>(got_hosts[i]) by {
        assert(comes_back(
            key,
            hosts,
            vault,
            vault.len() + host_order[i],
            Uploaded::Host(stored_hosts[i]),
        ));
    }
    assert forall|i: int| 0 <= i < stored_entries.len() implies opened_entry(
        key,
        #[trigger] stored_entries[i],
    ) == Ok::<Secret, SyncFault>(got_vault[i]) by {
        assert(comes_back(key, hosts, vault, entry_order[i], Uploaded::Vault(stored_entries[i])));
    }
    lemma_opens_hosts(key, stored_hosts, got_hosts);
    lemma_opens_entries(key, stored_entries, got_vault);
}

proof fn lemma_opens_hosts(key: Seq<u8>, stored: Seq<Host>, hosts: Seq<Host>)
    requires
        hosts.len() == stored.len(),
        forall|i: int|
            0 <= i < hosts.len() ==> opened_host(key, #[trigger] stored[i]) == Ok::<
                Host,
                SyncFault,
            >(hosts[i]),
    ensures
        opened_hosts(key, stored) == Ok::<Seq<Host>, SyncFault>(hosts),
    decreases hosts.len(),
{
    if hosts.len() == 0 {
        assert(hosts =~= Seq::empty());
    } else {
        lemma_opens_hosts(key, stored.drop_last(), hosts.drop_last());
        assert(opened_host(key, stored[hosts.len() - 1]) == Ok::<Host, SyncFault>(hosts.last()));
        assert(hosts =~= hosts.drop_last().push(hosts.last()));
    }
}

proof fn lemma_opens_entries(key: Seq<u8>, stored: Seq<Sealed>, vault: Seq<Secret>)
    requires
        vault.len() == stored.len(),
        forall|i: int|
            0 <= i < vault.len() ==> opened_entry(key, #[trigger] stored[i]) == Ok::<
                Secret,
                SyncFault,
            >(vault[i]),
    ensures
        opened_entries(key, stored) == Ok::<Seq<Secret>, SyncFault>(vault),
    decreases vault.len(),
{
    if vault.len() == 0 {
        assert(vault =~= Seq::empty());
    } else {
        lemma_opens_entries(key, stored.drop_last(), vault.drop_last());
        assert(opened_entry(key, stored[vault.len() - 1]) == Ok::<Secret, SyncFault>(
            vault.last(),
        ));
        assert(vault =~= vault.drop_last().push(vault.last()));
    }
}

/// A server URL is taken exactly where it is a URL of one of the two schemes of the web;
/// otherwise the first thing that is wrong with it is told.
pub proof fn law_server_urls(url: Seq<char>, parses: bool)
    ensures
        ({
            let web = (exists|r: Seq<char>| url == #[trigger] ("http://"@ + r)) || (exists|
                r: Seq<char>,
            | url == #[trigger] ("https://"@ + r));
            &&& url.len() == 0 ==> url_verdict(url, parses) == Some(SyncFault::EmptyUrl)
            &&& url.len() > 0 && !parses ==> url_verdict(url, parses) == Some(
                SyncFault::InvalidUrl(url),
            )
            &&& url.len() > 0 && parses && !web ==> url_verdict(url, parses) == Some(
                SyncFault::NotHttp(url),
            )
            &&& url.len() > 0 && parses && web ==> url_verdict(url, parses) is None
        }),
{
    text::law_begins_with_is_a_split(url, "http://"@);
    text::law_begins_with_is_a_split(url, "https://"@);
}

/// A server URL is used without the white space around it and the slashes at its end.
pub proof fn law_server_urls_are_normalised(s: Seq<char>)
    ensures
        normal_url(s).len() > 0 ==> normal_url(s).last() != '/',
        normal_url(s).len() <= text::trimmed(s).len(),
        normal_url(s) == text::trimmed(s).take(normal_url(s).len() as int),
        forall|i: int|
            normal_url(s).len() <= i < text::trimmed(s).len() ==> #[trigger] text::trimmed(s)[i]
                == '/',
{
    text::law_trimming_takes_trailing_characters(text::trimmed(s), '/');
}

/// Requests go to the API of the server of an account, with the token of the account.
pub proof fn law_requests_go_to_the_api(a: Account, path: Seq<char>)
    ensures
        a.url(path) == a.base_url + "/api/v1"@ + path,
        a.token matches Some(t) ==> a.header() == Ok::<Seq<char>, SyncFault>("Bearer "@ + t),
        a.token is None ==> a.header() == Err::<Seq<char>, SyncFault>(SyncFault::NotLoggedIn),
{
}

/// Without a vault key nothing is uploaded, and without a token neither.
pub proof fn law_nothing_goes_without_an_account(
    a: Account,
    hosts: Seq<Host>,
    vault: Seq<Secret>,
    done: int,
    nonce: Seq<u8>,
)
    requires
        a.key is None || a.token is None,
        0 <= done < vault.len() + hosts.len(),
    ensures
        push_step(a, hosts, vault, done, nonce) is Err,
        a.key is None ==> push_step(a, hosts, vault, done, nonce) == Err::<Option<Put>, SyncFault>(
            SyncFault::NoVaultKey,
        ),
{
}

/// A downloaded host stays as it is but for its password, which is decrypted under the vault
/// key, bound to the id of the host; a host that uses a key has none.
pub proof fn law_downloaded_hosts(key: Seq<u8>, h: Host, n: Seq<char>, c: Seq<char>)
    requires
        !n.contains(':'),
    ensures
        opened_host(key, h) matches Ok(x) ==> x == (Host { password: x.password, ..h }),
        h.auth_method == AuthMethod::Key ==> opened_host(key, h) == Ok::<Host, SyncFault>(
            Host { password: None, ..h },
        ),
        h.auth_method == AuthMethod::Password && h.password is None ==> opened_host(key, h) == Ok::<
            Host,
            SyncFault,
        >(h),
        h.auth_method == AuthMethod::Password && h.password == Some(n + seq![':'] + c)
            ==> opened_host(key, h) == match crypto::opened(key, n, c, encode_utf8(h.id)) {
            Ok(pw) => Ok::<Host, SyncFault>(Host { password: Some(pw), ..h }),
            Err(f) => Err(SyncFault::Crypto(f)),
        },
        h.auth_method == AuthMethod::Password && h.password == Some(n) ==> opened_host(key, h)
            == Err::<Host, SyncFault>(SyncFault::Malformed),
{
    text::lemma_split_at_first(n, ':', c);
    text::lemma_split_at_first_none(n, ':');
}

/// A downloaded vault entry keeps its id, its label and its time, and its passphrase is
/// decrypted under the vault key, bound to the label.
pub proof fn law_downloaded_entries(key: Seq<u8>, e: Sealed)
    ensures
        opened_entry(key, e) == match crypto::opened(
            key,
            e.nonce,
            e.ciphertext,
            encode_utf8(e.label),
        ) {
            Ok(passphrase) => Ok::<Secret, SyncFault>(
                Secret { id: e.id, label: e.label, passphrase, updated_at: e.updated_at },
            ),
            Err(f) => Err(SyncFault::Crypto(f)),
        },
{
}

/// A download gives every host and every vault entry, decrypted and in their order, or fails
/// as one of them does.
pub proof fn law_downloads_are_complete(
    key: Seq<u8>,
    hosts: Seq<Host>,
    entries: Seq<Sealed>,
    i: int,
)
    ensures
        pulled(key, hosts, entries) matches Ok((h, v)) ==> {
            &&& h.len() == hosts.len()
            &&& v.len() == entries.len()
            &&& 0 <= i < hosts.len() ==> opened_host(key, hosts[i]) == Ok::<Host, SyncFault>(h[i])
            &&& 0 <= i < entries.len() ==> opened_entry(key, entries[i]) == Ok::<
                Secret,
                SyncFault,
            >(v[i])
        },
        0 <= i < hosts.len() && opened_host(key, hosts[i]) is Err ==> pulled(key, hosts, entries)
            is Err,
        0 <= i < entries.len() && opened_entry(key, entries[i]) is Err ==> pulled(
            key,
            hosts,
            entries,
        ) is Err,
        (forall|k: int| 0 <= k < hosts.len() ==> opened_host(key, #[trigger] hosts[k]) is Ok) && (
        forall|k: int| 0 <= k < entries.len() ==> opened_entry(key, #[trigger] entries[k]) is Ok)
            ==> pulled(key, hosts, entries) is Ok,
{
    lemma_all_hosts(key, hosts, i);
    lemma_all_entries(key, entries, i);
}

proof fn lemma_all_hosts(key: Seq<u8>, hosts: Seq<Host>, i: int)
    ensures
        opened_hosts(key, hosts) matches Ok(h) ==> h.len() == hosts.len() && (0 <= i < hosts.len()
            ==> opened_host(key, hosts[i]) == Ok::<Host, SyncFault>(h[i])),
        (forall|k: int| 0 <= k < hosts.len() ==> opened_host(key, #[trigger] hosts[k]) is Ok)
            ==> opened_hosts(key, hosts) is Ok,
    decreases hosts.len(),
{
    if hosts.len() > 0 {
        let f = hosts.drop_last();
        lemma_all_hosts(key, f, i);
        if forall|k: int| 0 <= k < hosts.len() ==> opened_host(key, #[trigger] hosts[k]) is Ok {
            assert forall|k: int| 0 <= k < f.len() implies opened_host(
                key,
                #[trigger] f[k],
            ) is Ok by {
                assert(f[k] == hosts[k]);
            }
            assert(opened_host(key, hosts[hosts.len() - 1]) is Ok);
        }
    }
}

proof fn lemma_all_entries(key: Seq<u8>, entries: Seq<Sealed>, i: int)
    ensures
        opened_entries(key, entries) matches Ok(v) ==> v.len() == entries.len() && (0 <= i
            < entries.len() ==> opened_entry(key, entries[i]) == Ok::<Secret, SyncFault>(v[i])),
        (forall|k: int| 0 <= k < entries.len() ==> opened_entry(key, #[trigger] entries[k]) is Ok)
            ==> opened_entries(key, entries) is Ok,
    decreases entries.len(),
{
    if entries.len() > 0 {
        let f = entries.drop_last();
        lemma_all_entries(key, f, i);
        if forall|k: int| 0 <= k < entries.len() ==> opened_entry(key, #[trigger] entries[k]) is Ok {
            assert forall|k: int| 0 <= k < f.len() implies opened_entry(
                key,
                #[trigger] f[k],
            ) is Ok by {
                assert(f[k] == entries[k]);
            }
            assert(opened_entry(key, entries[entries.len() - 1]) is Ok);
        }
    }
}

/// A registration sends the name, the login secret and the salt in base64, and keeps the key
/// that the password gives with that salt. A password of under six bytes is refused.
pub proof fn law_registrations(username: Seq<char>, password: Seq<char>, salt: Seq<u8>)
    ensures
        encode_utf8(password).len() < 6 ==> registration(username, password, salt) == Err::<
            Registration,
            SyncFault,
        >(SyncFault::ShortPassword),
        registration(username, password, salt) matches Ok(r) ==> {
            &&& encode_utf8(password).len() >= 6
            &&& r.username == username
            &&& crypto::login_secret_of(username, password) == Ok::<Seq<char>, Fault>(r.password)
            &&& r.vault_salt == encoding::base64_text(salt)
            &&& crypto::hashed(password, salt, 32) == Ok::<Seq<u8>, Fault>(r.key)
        },
        encode_utf8(password).len() >= 6 && crypto::hashed(password, salt, 32) is Ok
            && crypto::login_secret_of(username, password) is Ok ==> registration(
            username,
            password,
            salt,
        ) is Ok,
{
}

/// An error is told in a sentence that names the URL, the answer of the server or the words of
/// the cipher, where it is about one.
pub proof fn law_errors_are_told(u: Seq<char>, f: Fault, status: Seq<char>, body: Seq<char>)
    ensures
        SyncFault::EmptyUrl.message() == "server URL is empty"@,
        SyncFault::InvalidUrl(u).message() == "invalid server URL "@ + text::quoted(u),
        SyncFault::NotHttp(u).message() == "server URL must start with http:// or https:// (got "@
            + text::quoted(u) + ")"@,
        SyncFault::ShortPassword.message() == "password must be >= 6 chars"@,
        SyncFault::NotLoggedIn.message() == "not logged in"@,
        SyncFault::NoVaultKey.message() == "no vault key"@,
        SyncFault::BadVaultSalt.message() == "invalid vault_salt from server"@,
        SyncFault::Malformed.message() == "malformed ciphertext"@,
        SyncFault::Crypto(f).message() == f.message(),
        (SyncFault::Server { status, body }).message() == "server returned "@ + status + ": "@
            + body,
{
}

/// The vault key comes from the password and the salt that the server sent, in base64; what is
/// no base64 text is refused.
pub proof fn law_keys_come_from_the_server(password: Seq<char>, salt: Seq<u8>, other: Seq<char>)
    ensures
        key_from_server(password, encoding::base64_text(salt)) == match crypto::hashed(
            password,
            salt,
            32,
        ) {
            Ok(key) => Ok::<Seq<u8>, SyncFault>(key),
            Err(f) => Err(SyncFault::Crypto(f)),
        },
        (forall|b: Seq<u8>| other != #[trigger] encoding::base64_text(b)) ==> key_from_server(
            password,
            other,
        ) == Err::<Seq<u8>, SyncFault>(SyncFault::BadVaultSalt),
{
    encoding::law_base64_roundtrip(salt);
}

} // verus!
