//! Domain types shared between client and server.

use vstd::prelude::*;

use crate::text;

verus! {

/// How a user authenticates at a host.
#[derive(Debug, Clone, Copy, PartialEq, Eq, Structural)]
pub enum AuthMethod {
    Password,
    Key,
}

/// The name of an authentication method.
pub open spec fn auth_name(a: AuthMethod) -> Seq<char> {
    match a {
        AuthMethod::Password => "password"@,
        AuthMethod::Key => "key"@,
    }
}

/// The authentication method with a name; a name that none has means a password.
pub open spec fn auth_named(s: Seq<char>) -> AuthMethod {
    if s == "key"@ {
        AuthMethod::Key
    } else {
        AuthMethod::Password
    }
}

impl AuthMethod {
    /// The name of the method.
    pub fn name(self) -> (r: &'static str)
        ensures
            r@ == auth_name(self),
    {
        match self {
            AuthMethod::Password => "password",
            AuthMethod::Key => "key",
        }
    }

    /// The method with a name; a name that none has means a password.
    pub fn from_name(s: &str) -> (r: AuthMethod)
        ensures
            r == auth_named(s@),
    {
        if text::same_text(s, "key") {
            AuthMethod::Key
        } else {
            AuthMethod::Password
        }
    }
}

/// A method is found again by its name.
pub proof fn law_auth_name_roundtrip(a: AuthMethod)
    ensures
        auth_named(auth_name(a)) == a,
{
    reveal_strlit("password");
    reveal_strlit("key");
    assert("password"@.len() != "key"@.len());
}

/// The text of an optional string.
pub open spec fn opt_text(s: Option<String>) -> Option<Seq<char>> {
    match s {
        Some(t) => Some(t@),
        None => None,
    }
}

/// A copy of an optional string.
pub fn clone_opt(s: &Option<String>) -> (r: Option<String>)
    ensures
        r == *s,
{
    match s {
        Some(t) => Some(t.clone()),
        None => None,
    }
}

/// A configured SSH host. `key_password_id` optionally links the host to a vault entry
/// holding the passphrase for its private key.
#[derive(Debug, PartialEq)]
pub struct HostConfig {
    /// Stable client-generated id (uuid-like string).
    pub id: String,
    pub name: String,
    pub host: String,
    pub port: u16,
    pub username: String,
    /// Auth method: "password" or "key".
    pub auth_method: AuthMethod,
    /// Password (for "password" auth). Encrypted at rest on the server when synced;
    /// stored locally in plaintext only on the client.
    pub password: Option<String>,
    /// Path to a private key file (for "key" auth).
    pub key_path: Option<String>,
    /// Id of the vault entry holding the key passphrase, if any.
    pub key_password_id: Option<String>,
    /// Free-form tags / group for filtering in the UI.
    pub group: String,
    pub updated_at: i64,
}

/// A `HostConfig`, as specifications see it.
#[verifier::ext_equal]
pub struct Host {
    pub id: Seq<char>,
    pub name: Seq<char>,
    pub host: Seq<char>,
    pub port: u16,
    pub username: Seq<char>,
    pub auth_method: AuthMethod,
    pub password: Option<Seq<char>>,
    pub key_path: Option<Seq<char>>,
    pub key_password_id: Option<Seq<char>>,
    pub group: Seq<char>,
    pub updated_at: i64,
}

impl View for HostConfig {
    type V = Host;

    open spec fn view(&self) -> Host {
        Host {
            id: self.id@,
            name: self.name@,
            host: self.host@,
            port: self.port,
            username: self.username@,
            auth_method: self.auth_method,
            password: opt_text(self.password),
            key_path: opt_text(self.key_path),
            key_password_id: opt_text(self.key_password_id),
            group: self.group@,
            updated_at: self.updated_at,
        }
    }
}

impl Clone for HostConfig {
    fn clone(&self) -> (r: Self)
        ensures
            r == *self,
    {
        HostConfig {
            id: self.id.clone(),
            name: self.name.clone(),
            host: self.host.clone(),
            port: self.port,
            username: self.username.clone(),
            auth_method: self.auth_method,
            password: clone_opt(&self.password),
            key_path: clone_opt(&self.key_path),
            key_password_id: clone_opt(&self.key_password_id),
            group: self.group.clone(),
            updated_at: self.updated_at,
        }
    }
}

/// An encrypted SSH key passphrase stored on the server. Only `label`, `nonce` and
/// `ciphertext` are uploaded; the key itself is derived on the client from the master
/// password.
#[derive(Debug, PartialEq)]
pub struct VaultEntry {
    pub id: String,
    pub label: String,
    /// Base64 AES-GCM nonce.
    pub nonce: String,
    /// Base64 ciphertext (label-bound AAD).
    pub ciphertext: String,
    pub updated_at: i64,
}

/// A `VaultEntry`, as specifications see it.
#[verifier::ext_equal]
pub struct Sealed {
    pub id: Seq<char>,
    pub label: Seq<char>,
    pub nonce: Seq<char>,
    pub ciphertext: Seq<char>,
    pub updated_at: i64,
}

impl View for VaultEntry {
    type V = Sealed;

    open spec fn view(&self) -> Sealed {
        Sealed {
            id: self.id@,
            label: self.label@,
            nonce: self.nonce@,
            ciphertext: self.ciphertext@,
            updated_at: self.updated_at,
        }
    }
}

impl Clone for VaultEntry {
    fn clone(&self) -> (r: Self)
        ensures
            r == *self,
    {
        VaultEntry {
            id: self.id.clone(),
            label: self.label.clone(),
            nonce: self.nonce.clone(),
            ciphertext: self.ciphertext.clone(),
            updated_at: self.updated_at,
        }
    }
}

/// The views of a list of hosts.
pub open spec fn host_views(v: Seq<HostConfig>) -> Seq<Host> {
    v.map_values(|h: HostConfig| h@)
}

/// The views of a list of vault entries.
pub open spec fn entry_views(v: Seq<VaultEntry>) -> Seq<Sealed> {
    v.map_values(|e: VaultEntry| e@)
}

} // verus!
