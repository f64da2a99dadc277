//! HTTP handlers, between taking a request in and touching the tables. All vault payloads
//! are opaque ciphertext to the server.

use vstd::prelude::*;
use vstd::utf8::*;

use crate::api::{
    AuthResponse, HealthResponse, HostListResponse, LoginRequest, OkResponse, RegisterRequest,
    SetVaultSaltRequest, UpsertHostRequest, UpsertVaultEntryRequest, VaultListResponse,
};
use crate::auth::{JwtConfig, MAX_TTL};
use crate::crypto;
use crate::db::UserRow;
use crate::error::{AppError, Refusal};
use crate::text;
use crate::types;
use crate::types::{HostConfig, VaultEntry};

verus! {

/// The server is there.
pub fn health(version: &str) -> (r: HealthResponse)
    ensures
        r.status@ == "ok"@,
        r.version@ == version@,
{
    HealthResponse { status: "ok".to_owned(), version: version.to_owned() }
}

// ---------------------------------------------------------------------------
// Accounts
// ---------------------------------------------------------------------------

/// What is wrong with a registration. Lengths are in bytes.
pub open spec fn registration_fault(
    username: Seq<char>,
    password: Seq<char>,
    vault_salt: Seq<char>,
) -> Option<Refusal> {
    if encode_utf8(text::trimmed(username)).len() < 3 {
        Some(Refusal::bad_request("username must be >= 3 chars"@))
    } else if encode_utf8(password).len() < 6 {
        Some(Refusal::bad_request("password must be >= 6 chars"@))
    } else if vault_salt.len() == 0 {
        Some(Refusal::bad_request("vault_salt required"@))
    } else {
        None
    }
}

/// Begin to register a user: what is to be stored of the password. The record is accepted
/// for that password later.
pub fn register(req: &RegisterRequest) -> (r: Result<String, AppError>)
    ensures
        match registration_fault(req.username@, req.password@, req.vault_salt@) {
            Some(f) => r matches Err(e) && e@ == f,
            None => match r {
                Ok(hash) => {
                    &&& encode_utf8(req.password@).len() <= 0xffff_ffff
                    &&& exists|salt: Seq<u8>|
                        salt.len() == crypto::SALT_LEN && #[trigger] crypto::login_record(
                            req.password@,
                            salt,
                        ) == Ok::<Seq<char>, crypto::Fault>(hash@)
                    &&& crypto::login_verdict(req.password@, hash@) == Ok::<bool, crypto::Fault>(
                        true,
                    )
                },
                Err(e) => {
                    &&& encode_utf8(req.password@).len() > 0xffff_ffff
                    &&& e@ == Refusal::internal(
                        "hash failed: "@ + crypto::Fault::Argon2(
                            "password is too long"@,
                        ).message(),
                    )
                },
            },
        },
{
    if text::trim(req.username.as_str()).as_str().as_bytes().len() < 3 {
        return Err(AppError::bad_request("username must be >= 3 chars"));
    }
    if req.password.as_str().as_bytes().len() < 6 {
        return Err(AppError::bad_request("password must be >= 6 chars"));
    }
    if req.vault_salt.as_str().is_empty() {
        return Err(AppError::bad_request("vault_salt required"));
    }
    match crypto::hash_login_password(req.password.as_str()) {
        Ok(hash) => Ok(hash),
        Err(e) => Err(
            AppError::internal(text::concat("hash failed: ", e.message().as_str())),
        ),
    }
}

/// Why a user could not be stored: most likely a UNIQUE constraint violation, which means
/// that the name is taken.
pub open spec fn creation_fault(error: Seq<char>) -> Refusal {
    if text::contains_text(error, "UNIQUE"@) {
        Refusal::conflict("username already taken"@)
    } else {
        Refusal::internal(error)
    }
}

/// Whether a token was issued to a user by this server.
pub open spec fn is_token_for(jwt: JwtConfig, token: Seq<char>, id: i64, username: Seq<char>) -> bool {
    exists|now: i64|
        i64::MIN <= now + jwt.ttl() <= i64::MAX && token == jwt.token(
            #[trigger] jwt.claims_for(id, username, now),
        ) && jwt.read(token) == Some(jwt.claims_for(id, username, now))
}

fn token_for(jwt: &JwtConfig, id: i64, username: &str) -> (r: Result<String, AppError>)
    requires
        -MAX_TTL <= jwt.ttl() <= MAX_TTL,
    ensures
        r matches Ok(t) && is_token_for(*jwt, t@, id, username@),
{
    match jwt.issue(id, username) {
        Ok(t) => Ok(t),
        Err(e) => Err(AppError::internal(text::concat("jwt failed: ", e.as_str()))),
    }
}

/// Finish a registration, by what came of storing the user: its id, or an error.
pub fn finish_register(jwt: &JwtConfig, req: RegisterRequest, created: Result<i64, String>) -> (r:
    Result<AuthResponse, AppError>)
    requires
        -MAX_TTL <= jwt.ttl() <= MAX_TTL,
    ensures
        match created {
            Ok(id) => {
                &&& r matches Ok(a)
                &&& is_token_for(*jwt, a.token@, id, req.username@)
                &&& a.username@ == req.username@
                &&& a.vault_salt@ == req.vault_salt@
            },
            Err(m) => r matches Err(e) && e@ == creation_fault(m@),
        },
{
    match created {
        Ok(id) => match token_for(jwt, id, req.username.as_str()) {
            Ok(token) => Ok(
                AuthResponse { token, username: req.username, vault_salt: req.vault_salt },
            ),
            Err(e) => Err(e),
        },
        Err(m) => {
            if text::contains(m.as_str(), "UNIQUE") {
                Err(AppError::conflict("username already taken"))
            } else {
                Err(AppError::internal(m))
            }
        },
    }
}

/// Log a user in, by what is stored under the name in the request. An unknown name and a
/// wrong password are answered alike.
pub fn login(jwt: &JwtConfig, req: &LoginRequest, user: Option<UserRow>) -> (r: Result<
    AuthResponse,
    AppError,
>)
    requires
        -MAX_TTL <= jwt.ttl() <= MAX_TTL,
    ensures
        match user {
            None => r matches Err(e) && e@ == Refusal::unauthorized("invalid credentials"@),
            Some(u) => match crypto::login_verdict(req.password@, u.password_hash@) {
                Ok(true) => {
                    &&& r matches Ok(a)
                    &&& is_token_for(*jwt, a.token@, u.id, u.username@)
                    &&& a.username@ == u.username@
                    &&& a.vault_salt@ == u.vault_salt@
                },
                Ok(false) => r matches Err(e) && e@ == Refusal::unauthorized(
                    "invalid credentials"@,
                ),
                Err(f) => r matches Err(e) && e@ == Refusal::internal(
                    "verify failed: "@ + f.message(),
                ),
            },
        },
{
    let user = match user {
        Some(u) => u,
        None => return Err(AppError::unauthorized("invalid credentials")),
    };
    match crypto::verify_login_password(req.password.as_str(), user.password_hash.as_str()) {
        Ok(true) => match token_for(jwt, user.id, user.username.as_str()) {
            Ok(token) => Ok(
                AuthResponse { token, username: user.username, vault_salt: user.vault_salt },
            ),
            Err(e) => Err(e),
        },
        Ok(false) => Err(AppError::unauthorized("invalid credentials")),
        Err(e) => Err(
            AppError::internal(text::concat("verify failed: ", e.message().as_str())),
        ),
    }
}

/// The vault salt of the user that is stored under the name of the request's user.
pub fn get_vault_salt(user: Option<UserRow>) -> (r: Result<SetVaultSaltRequest, AppError>)
    ensures
        match user {
            Some(u) => r matches Ok(s) && s.vault_salt@ == u.vault_salt@,
            None => r matches Err(e) && e@ == Refusal::not_found("user"@),
        },
{
    match user {
        Some(u) => Ok(SetVaultSaltRequest { vault_salt: u.vault_salt }),
        None => Err(AppError::not_found("user")),
    }
}

/// Whether a vault salt may be stored.
pub fn set_vault_salt(req: &SetVaultSaltRequest) -> (r: Result<OkResponse, AppError>)
    ensures
        if req.vault_salt@.len() == 0 {
            r matches Err(e) && e@ == Refusal::bad_request("vault_salt required"@)
        } else {
            r matches Ok(k) && k.ok
        },
{
    if req.vault_salt.as_str().is_empty() {
        Err(AppError::bad_request("vault_salt required"))
    } else {
        Ok(OkResponse { ok: true })
    }
}

// ---------------------------------------------------------------------------
// Hosts and vault entries
// ---------------------------------------------------------------------------

/// The latest update among some hosts; 0 where there are none.
pub open spec fn is_latest(hosts: Seq<types::Host>, latest: i64) -> bool {
    if hosts.len() == 0 {
        latest == 0
    } else {
        &&& forall|i: int| 0 <= i < hosts.len() ==> (#[trigger] hosts[i]).updated_at <= latest
        &&& exists|i: int| 0 <= i < hosts.len() && (#[trigger] hosts[i]).updated_at == latest
    }
}

/// The stored hosts, with the time of their latest update.
pub fn list_hosts(hosts: Vec<HostConfig>) -> (r: HostListResponse)
    ensures
        r.hosts@ == hosts@,
        is_latest(types::host_views(hosts@), r.latest_updated_at),
{
    let ghost all = types::host_views(hosts@);
    if hosts.len() == 0 {
        return HostListResponse { hosts, latest_updated_at: 0 };
    }
    let mut latest: i64 = hosts[0].updated_at;
    let mut i: usize = 1;
    assert(all[0].updated_at == latest);
    while i < hosts.len()
        invariant
            1 <= i <= hosts@.len(),
            all == types::host_views(hosts@),
            forall|k: int| 0 <= k < i ==> (#[trigger] all[k]).updated_at <= latest,
            exists|k: int| 0 <= k < i && (#[trigger] all[k]).updated_at == latest,
        decreases hosts@.len() - i,
    {
        assert(all[i as int] == hosts@[i as int]@);
        if hosts[i].updated_at > latest {
            latest = hosts[i].updated_at;
        }
        i += 1;
    }
    HostListResponse { hosts, latest_updated_at: latest }
}

/// Whether a host may be stored.
pub fn check_host(req: &UpsertHostRequest) -> (r: Result<(), AppError>)
    ensures
        if req.host.id@.len() == 0 {
            r matches Err(e) && e@ == Refusal::bad_request("host.id required"@)
        } else {
            r is Ok
        },
{
    if req.host.id.as_str().is_empty() {
        Err(AppError::bad_request("host.id required"))
    } else {
        Ok(())
    }
}

/// The answer to an upload of a host: whether it is stored, given the time of the update
/// that is stored already.
pub fn upsert_host(req: &UpsertHostRequest, stored: Option<i64>) -> (r: Result<
    OkResponse,
    AppError,
>)
    ensures
        if req.host.id@.len() == 0 {
            r matches Err(e) && e@ == Refusal::bad_request("host.id required"@)
        } else {
            r matches Ok(k) && k.ok == crate::db::replaces(stored, req.host.updated_at)
        },
{
    match check_host(req) {
        Ok(()) => Ok(OkResponse { ok: crate::db::accepts(stored, req.host.updated_at) }),
        Err(e) => Err(e),
    }
}

/// The answer to the deletion of a host, by whether there was one.
pub fn delete_host(deleted: bool) -> (r: OkResponse)
    ensures
        r.ok == deleted,
{
    OkResponse { ok: deleted }
}

/// The stored vault entries.
pub fn list_vault(entries: Vec<VaultEntry>) -> (r: VaultListResponse)
    ensures
        r.entries@ == entries@,
{
    VaultListResponse { entries }
}

/// Whether a vault entry may be stored.
pub fn check_vault_entry(req: &UpsertVaultEntryRequest) -> (r: Result<(), AppError>)
    ensures
        if req.entry.id@.len() == 0 {
            r matches Err(e) && e@ == Refusal::bad_request("entry.id required"@)
        } else {
            r is Ok
        },
{
    if req.entry.id.as_str().is_empty() {
        Err(AppError::bad_request("entry.id required"))
    } else {
        Ok(())
    }
}

/// The answer to an upload of a vault entry: whether it is stored, given the time of the
/// update that is stored already.
pub fn upsert_vault_entry(req: &UpsertVaultEntryRequest, stored: Option<i64>) -> (r: Result<
    OkResponse,
    AppError,
>)
    ensures
        if req.entry.id@.len() == 0 {
            r matches Err(e) && e@ == Refusal::bad_request("entry.id required"@)
        } else {
            r matches Ok(k) && k.ok == crate::db::replaces(stored, req.entry.updated_at)
        },
{
    match check_vault_entry(req) {
        Ok(()) => Ok(OkResponse { ok: crate::db::accepts(stored, req.entry.updated_at) }),
        Err(e) => Err(e),
    }
}

/// The answer to the deletion of a vault entry, by whether there was one.
pub fn delete_vault_entry(deleted: bool) -> (r: OkResponse)
    ensures
        r.ok == deleted,
{
    OkResponse { ok: deleted }
}

// ---------------------------------------------------------------------------
// Laws
// ---------------------------------------------------------------------------

/// A registration is taken exactly where the name has at least three bytes without the white
/// space around it, what stands for the password at least six, and there is a vault salt. It
/// is a bad request otherwise, and the first of these that does not hold is named.
pub proof fn law_registrations_are_checked(
    username: Seq<char>,
    password: Seq<char>,
    vault_salt: Seq<char>,
)
    ensures
        ({
            let short = encode_utf8(text::trimmed(username)).len() < 3;
            let weak = encode_utf8(password).len() < 6;
            match registration_fault(username, password, vault_salt) {
                None => !short && !weak && vault_salt.len() > 0,
                Some(f) => {
                    &&& f.status == 400
                    &&& short ==> f.message == "username must be >= 3 chars"@
                    &&& !short && weak ==> f.message == "password must be >= 6 chars"@
                    &&& !short && !weak ==> vault_salt.len() == 0 && f.message
                        == "vault_salt required"@
                },
            }
        }),
{
}

/// A user that could not be stored because the name is taken is a conflict; everything else
/// that goes wrong is told as an error of the server, in its own words.
pub proof fn law_taken_names_are_conflicts(a: Seq<char>, b: Seq<char>, error: Seq<char>)
    ensures
        creation_fault(a + "UNIQUE"@ + b).status == 409,
        creation_fault(a + "UNIQUE"@ + b).message == "username already taken"@,
        (forall|x: Seq<char>, y: Seq<char>| error != #[trigger] (x + "UNIQUE"@ + y))
            ==> creation_fault(error).status == 500 && creation_fault(error).message == error,
{
    text::law_contains_is_a_split(a + "UNIQUE"@ + b, "UNIQUE"@);
    text::law_contains_is_a_split(error, "UNIQUE"@);
}

/// The status of each kind of refusal.
pub proof fn law_statuses(m: Seq<char>)
    ensures
        Refusal::bad_request(m) == (Refusal { status: 400, message: m }),
        Refusal::unauthorized(m) == (Refusal { status: 401, message: m }),
        Refusal::not_found(m) == (Refusal { status: 404, message: m }),
        Refusal::conflict(m) == (Refusal { status: 409, message: m }),
        Refusal::internal(m) == (Refusal { status: 500, message: m }),
{
}

/// The time that is told with a list of hosts is that of one of them, and none of them is newer;
/// it is zero where there are none.
pub proof fn law_latest_update(hosts: Seq<types::Host>, latest: i64, i: int)
    requires
        is_latest(hosts, latest),
    ensures
        hosts.len() == 0 ==> latest == 0,
        0 <= i < hosts.len() ==> hosts[i].updated_at <= latest,
        hosts.len() > 0 ==> exists|k: int|
            0 <= k < hosts.len() && (#[trigger] hosts[k]).updated_at == latest,
{
}

} // verus!
