//! HTTP API request/response shapes for the sync server.

use vstd::prelude::*;

use crate::types::{HostConfig, VaultEntry};

verus! {

/// What every path of the API begins with.
pub const API_PREFIX: &'static str = "/api/v1";

/// Standard API error body.
#[derive(Debug)]
pub struct ApiError {
    pub error: String,
}

// ---- Auth ----

#[derive(Debug)]
pub struct RegisterRequest {
    pub username: String,
    /// The login secret, which the client hashed from the password.
    pub password: String,
    /// Base64 Argon2 salt for vault key derivation. Uploaded once at register time (and
    /// treated as updatable) so other devices can sync the vault.
    pub vault_salt: String,
}

#[derive(Debug)]
pub struct LoginRequest {
    pub username: String,
    /// The login secret, which the client hashed from the password.
    pub password: String,
}

#[derive(Debug)]
pub struct AuthResponse {
    pub token: String,
    pub username: String,
    /// Base64 vault salt, so a freshly-logged-in client can derive its vault key.
    pub vault_salt: String,
}

#[derive(Debug)]
pub struct SetVaultSaltRequest {
    pub vault_salt: String,
}

// ---- Host configs ----

#[derive(Debug)]
pub struct HostListResponse {
    pub hosts: Vec<HostConfig>,
    /// Server's view of the latest update timestamp across all hosts, for simple
    /// last-write-wins conflict resolution.
    pub latest_updated_at: i64,
}

#[derive(Debug)]
pub struct UpsertHostRequest {
    pub host: HostConfig,
}

// ---- Vault ----

#[derive(Debug)]
pub struct VaultListResponse {
    pub entries: Vec<VaultEntry>,
}

#[derive(Debug)]
pub struct UpsertVaultEntryRequest {
    pub entry: VaultEntry,
}

#[derive(Debug)]
pub struct OkResponse {
    pub ok: bool,
}

impl Default for OkResponse {
    fn default() -> (r: Self)
        ensures
            !r.ok,
    {
        OkResponse { ok: false }
    }
}

// ---- Health ----

#[derive(Debug)]
pub struct HealthResponse {
    pub status: String,
    pub version: String,
}

} // verus!
