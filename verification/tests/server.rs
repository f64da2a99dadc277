use ssh_sync::api::{
    LoginRequest, OkResponse, RegisterRequest, SetVaultSaltRequest, UpsertHostRequest,
    UpsertVaultEntryRequest,
};
use ssh_sync::auth::{
    authenticate, bearer_token, claims_after, claims_of, payload_of, read_claims, user_of, Claims, JwtConfig,
    TokenError,
};
use ssh_sync::crypto::hash_login_password_with;
use ssh_sync::db::{accepts, UserRow};
use ssh_sync::error::AppError;
use ssh_sync::json::{members_of, Member};
use ssh_sync::routes;
use ssh_sync::types::{AuthMethod, HostConfig, VaultEntry};

fn jwt() -> JwtConfig {
    JwtConfig::new("testsecret".into(), 3600)
}

fn told(e: AppError) -> (u16, String) {
    (e.status, e.message)
}

fn request(username: &str, password: &str, vault_salt: &str) -> RegisterRequest {
    RegisterRequest {
        username: username.into(),
        password: password.into(),
        vault_salt: vault_salt.into(),
    }
}

#[test]
fn registrations_are_checked() {
    let bad = |u: &str, p: &str, s: &str| told(routes::register(&request(u, p, s)).unwrap_err());
    assert_eq!(
        bad(" ab ", "secret", "salt"),
        (400, "username must be >= 3 chars".to_string())
    );
    assert_eq!(
        bad("abc", "12345", "salt"),
        (400, "password must be >= 6 chars".to_string())
    );
    assert_eq!(
        bad("abc", "123456", ""),
        (400, "vault_salt required".to_string())
    );
    // Lengths are in bytes.
    assert!(routes::register(&request("äö", "äöü", "s")).is_ok());
}

#[test]
fn registration_is_finished() {
    let done = routes::finish_register(&jwt(), request("alice", "secret", "salt"), Ok(7)).unwrap();
    assert_eq!(done.username, "alice");
    assert_eq!(done.vault_salt, "salt");
    let claims = jwt().verify(&done.token).unwrap();
    assert_eq!((claims.uid, claims.sub.as_str()), (7, "alice"));
    assert_eq!(claims.exp - claims.iat, 3600);
    let fail = |m: &str| {
        let created = Err(m.to_string());
        told(routes::finish_register(&jwt(), request("alice", "secret", "s"), created).unwrap_err())
    };
    assert_eq!(
        fail("UNIQUE constraint failed: users.username"),
        (409, "username already taken".to_string())
    );
    assert_eq!(fail("disk full"), (500, "disk full".to_string()));
}

fn alice(password_hash: String) -> UserRow {
    UserRow {
        id: 3,
        username: "alice".into(),
        password_hash,
        vault_salt: "salt".into(),
    }
}

#[test]
fn logins_are_answered() {
    let req = LoginRequest {
        username: "alice".into(),
        password: "secret".into(),
    };
    let record = hash_login_password_with("secret", &[1u8; 16]).unwrap();
    let ok = routes::login(&jwt(), &req, Some(alice(record))).unwrap();
    assert_eq!((ok.username.as_str(), ok.vault_salt.as_str()), ("alice", "salt"));
    assert_eq!(jwt().verify(&ok.token).unwrap().uid, 3);
    let refused = (401, "invalid credentials".to_string());
    assert_eq!(told(routes::login(&jwt(), &req, None).unwrap_err()), refused);
    let other = hash_login_password_with("other", &[1u8; 16]).unwrap();
    assert_eq!(
        told(routes::login(&jwt(), &req, Some(alice(other))).unwrap_err()),
        refused
    );
    assert_eq!(
        told(routes::login(&jwt(), &req, Some(alice("broken".into()))).unwrap_err()),
        (
            500,
            "verify failed: invalid hex/base64 payload: missing hash".to_string()
        )
    );
}

#[test]
fn vault_salts() {
    let s = routes::get_vault_salt(Some(alice(String::new()))).unwrap();
    assert_eq!(s.vault_salt, "salt");
    assert_eq!(
        told(routes::get_vault_salt(None).unwrap_err()),
        (404, "user".to_string())
    );
    assert!(routes::set_vault_salt(&s).unwrap().ok);
    let empty = SetVaultSaltRequest {
        vault_salt: String::new(),
    };
    assert_eq!(
        told(routes::set_vault_salt(&empty).unwrap_err()),
        (400, "vault_salt required".to_string())
    );
}

fn host(id: &str, updated_at: i64) -> HostConfig {
    HostConfig {
        id: id.into(),
        name: String::new(),
        host: String::new(),
        port: 22,
        username: String::new(),
        auth_method: AuthMethod::Key,
        password: None,
        key_path: None,
        key_password_id: None,
        group: String::new(),
        updated_at,
    }
}

#[test]
fn latest_update_of_a_list() {
    assert_eq!(routes::list_hosts(Vec::new()).latest_updated_at, 0);
    let list = routes::list_hosts(vec![host("a", -5), host("b", 9), host("c", 3)]);
    assert_eq!(list.latest_updated_at, 9);
    assert_eq!(list.hosts.len(), 3);
    assert_eq!(
        routes::list_hosts(vec![host("a", -5)]).latest_updated_at,
        -5
    );
}

#[test]
fn uploads_are_answered() {
    let req = UpsertHostRequest { host: host("h", 5) };
    assert!(routes::upsert_host(&req, None).unwrap().ok);
    assert!(routes::upsert_host(&req, Some(5)).unwrap().ok);
    assert!(!routes::upsert_host(&req, Some(6)).unwrap().ok);
    let bad = UpsertHostRequest { host: host("", 5) };
    assert_eq!(
        told(routes::upsert_host(&bad, None).unwrap_err()),
        (400, "host.id required".to_string())
    );
    assert!(routes::check_host(&bad).is_err());
    let entry = |id: &str| UpsertVaultEntryRequest {
        entry: VaultEntry {
            id: id.into(),
            label: String::new(),
            nonce: String::new(),
            ciphertext: String::new(),
            updated_at: 5,
        },
    };
    assert!(routes::upsert_vault_entry(&entry("v"), Some(4)).unwrap().ok);
    assert!(!routes::upsert_vault_entry(&entry("v"), Some(6)).unwrap().ok);
    assert_eq!(
        told(routes::upsert_vault_entry(&entry(""), None).unwrap_err()),
        (400, "entry.id required".to_string())
    );
    assert!(routes::delete_host(true).ok);
    assert!(!routes::delete_vault_entry(false).ok);
    assert!(!OkResponse::default().ok);
    assert_eq!(routes::list_vault(Vec::new()).entries.len(), 0);
}

#[test]
fn older_rows_do_not_replace() {
    assert!(accepts(None, i64::MIN));
    assert!(accepts(Some(1), 1));
    assert!(accepts(Some(1), 2));
    assert!(!accepts(Some(2), 1));
}

#[test]
fn health_is_told() {
    let h = routes::health("0.1.0");
    assert_eq!((h.status.as_str(), h.version.as_str()), ("ok", "0.1.0"));
}

#[test]
fn tokens_carry_their_claims() {
    let now = chrono::Utc::now().timestamp();
    let token = jwt().issue_at(42, "zoë", now).unwrap();
    let c = jwt().verify(&token).unwrap();
    assert_eq!((c.uid, c.sub.as_str(), c.iat, c.exp), (42, "zoë", now, now + 3600));
    // Another secret, another text, an expired token.
    let other = JwtConfig::new("other".into(), 3600);
    assert!(matches!(other.verify(&token), Err(TokenError::Refused(_))));
    assert!(jwt().verify("abc").is_err());
    assert!(jwt().verify(&token[..token.len() - 2]).is_err());
    let old = jwt().issue_at(42, "zoë", now - 7200).unwrap();
    assert!(jwt().verify(&old).is_err());
    let fresh = jwt().issue(1, "x").unwrap();
    assert_eq!(jwt().verify(&fresh).unwrap().uid, 1);
}

#[test]
fn tokens_without_claims_are_refused() {
    let mut m = serde_json::Map::new();
    m.insert("exp".into(), serde_json::Value::from(4_000_000_000i64));
    m.insert("sub".into(), serde_json::Value::from("x"));
    let key = jsonwebtoken::EncodingKey::from_secret(b"testsecret");
    let token = jsonwebtoken::encode(&jsonwebtoken::Header::default(), &m, &key).unwrap();
    assert!(matches!(jwt().verify(&token), Err(TokenError::Incomplete)));
}

#[test]
fn requests_are_authenticated() {
    let refuse = |h: Option<&str>| told(authenticate(&jwt(), h).unwrap_err());
    assert_eq!(
        refuse(None),
        (401, "missing authorization header".to_string())
    );
    assert_eq!(
        refuse(Some("Basic x")),
        (401, "expected bearer token".to_string())
    );
    assert_eq!(refuse(Some("Bearer x")), (401, "invalid token".to_string()));
    let token = jwt().issue(5, "bob").unwrap();
    let user = authenticate(&jwt(), Some(&format!("Bearer {token}"))).unwrap();
    assert_eq!((user.user_id, user.username.as_str()), (5, "bob"));
    assert_eq!(bearer_token(Some("Bearer a b")).unwrap(), "a b");
    let claims = Claims {
        sub: "s".into(),
        uid: 1,
        exp: 2,
        iat: 3,
    };
    assert_eq!(user_of(Ok(claims)).unwrap().username, "s");
    assert!(user_of(Err(TokenError::Incomplete)).is_err());
}

#[test]
fn refusals_have_statuses() {
    assert_eq!(AppError::bad_request("m").status, 400);
    assert_eq!(AppError::unauthorized("m").status, 401);
    assert_eq!(AppError::not_found("m").status, 404);
    assert_eq!(AppError::conflict("m").status, 409);
    assert_eq!(AppError::internal("m".into()).status, 500);
    assert_eq!(AppError::conflict("m").body().error, "m");
}

#[test]
fn the_calendar_ends_where_it_is_said_to() {
    assert_eq!(
        chrono::DateTime::<chrono::Utc>::MAX_UTC.timestamp(),
        8_210_266_876_799
    );
    assert_eq!(
        chrono::DateTime::<chrono::Utc>::MIN_UTC.timestamp(),
        -8_334_601_228_800
    );
}

#[test]
fn tokens_carry_the_claims_in_order() {
    let token = jwt().issue_at(42, "zoe", 1000).unwrap();
    let payload = token.split('.').nth(1).unwrap();
    let bytes = base64::Engine::decode(
        &base64::engine::general_purpose::URL_SAFE_NO_PAD,
        payload,
    )
    .unwrap();
    assert_eq!(
        String::from_utf8(bytes).unwrap(),
        "{\"sub\":\"zoe\",\"uid\":42,\"exp\":4600,\"iat\":1000}"
    );
}

fn member(name: &str, text: Option<&str>, number: Option<i64>) -> Member {
    Member {
        name: name.into(),
        text: text.map(|t| t.into()),
        number,
    }
}

/// A token with some payload, signed with the secret of [`jwt`].
fn signed(payload: &[u8]) -> String {
    let part = |b: &[u8]| {
        base64::Engine::encode(&base64::engine::general_purpose::URL_SAFE_NO_PAD, b)
    };
    let message = format!("{}.{}", part(b"{\"typ\":\"JWT\",\"alg\":\"HS256\"}"), part(payload));
    let key = jsonwebtoken::EncodingKey::from_secret(b"testsecret");
    let signature =
        jsonwebtoken::crypto::sign(message.as_bytes(), &key, jsonwebtoken::Algorithm::HS256);
    format!("{}.{}", message, signature.unwrap())
}

#[test]
fn members_are_read_one_by_one() {
    let text = " { \"a\" : 1 , \"b\\u0061\":\"x\\ny\",\"a\":[1,{\"c\":2}],\"d\":1.5} ";
    let ms = members_of(text.as_bytes()).unwrap();
    let read: Vec<(&str, Option<&str>, Option<i64>)> = ms
        .iter()
        .map(|m| (m.name.as_str(), m.text.as_deref(), m.number))
        .collect();
    assert_eq!(
        read,
        vec![
            ("a", None, Some(1)),
            ("ba", Some("x\ny"), None),
            ("a", None, None),
            ("d", None, None),
        ]
    );
    assert_eq!(members_of(b"{}").unwrap().len(), 0);
    assert_eq!(members_of(b" {\n} ").unwrap().len(), 0);
    for broken in [
        "", "[]", "{", "{} x", "{\"a\"}", "{\"a\":}", "{\"a\":1", "{\"a\":1,}", "{\"a\":1 2}", "{a:1}",
        "{1:1}", "{\"a\":1} x", "{\"a\":1x}", "{\"a\" 1}",
    ] {
        assert!(members_of(broken.as_bytes()).is_none(), "{}", broken);
    }
}

#[test]
fn claims_are_said_once() {
    let full = || {
        vec![
            member("sub", Some("x"), None),
            member("uid", None, Some(0)),
            member("exp", None, Some(1)),
            member("iat", None, Some(2)),
        ]
    };
    let c = claims_of(&full()).unwrap();
    assert_eq!((c.sub.as_str(), c.uid, c.exp, c.iat), ("x", 0, 1, 2));
    // Another member, once or twice, does not matter.
    let mut more = full();
    more.push(member("x", None, None));
    more.push(member("x", None, None));
    assert!(claims_of(&more).is_some());
    for (i, name) in ["sub", "uid", "exp", "iat"].into_iter().enumerate() {
        let mut twice = full();
        twice.push(member(name, Some("x"), Some(1)));
        assert!(claims_of(&twice).is_none());
        let mut missing = full();
        missing.remove(i);
        assert!(claims_of(&missing).is_none());
        let mut other = full();
        other[i] = member(name, None, None);
        assert!(claims_of(&other).is_none());
    }
}

#[test]
fn tokens_that_repeat_a_claim_are_refused() {
    let accepted = |payload: &[u8]| jwt().verify(&signed(payload)).ok().map(|c| (c.sub, c.uid));
    let once = "{\"sub\":\"x\",\"uid\":1,\"exp\":4000000000,\"iat\":2}";
    assert_eq!(accepted(once.as_bytes()), Some(("x".to_string(), 1)));
    // The order, blanks, escapes and members of other names do not matter.
    let other = " {\"iat\": 2, \"exp\" :4000000000,\"x\":1,\"x\":[null,1e999],\"ui\\u0064\":7,\"sub\":\"\\u00eb\"} ";
    assert_eq!(accepted(other.as_bytes()), Some(("\u{eb}".to_string(), 7)));
    for repeated in [
        "{\"sub\":\"x\",\"uid\":1,\"uid\":1,\"exp\":4000000000,\"iat\":2}",
        "{\"sub\":\"x\",\"uid\":1,\"exp\":4000000000,\"iat\":2,\"iat\":2}",
        "{\"sub\":\"x\",\"uid\":1,\"exp\":4000000000,\"iat\":2,\"i\\u0061t\":3}",
    ] {
        let refused = jwt().verify(&signed(repeated.as_bytes()));
        assert!(matches!(refused, Err(TokenError::Incomplete)));
    }
    for refused in [
        "{\"sub\":\"x\",\"sub\":\"x\",\"uid\":1,\"exp\":4000000000,\"iat\":2}",
        "{\"sub\":\"x\",\"uid\":1.0,\"exp\":4000000000,\"iat\":2}",
        "{\"sub\":1,\"uid\":1,\"exp\":4000000000,\"iat\":2}",
        "[\"x\",1,4000000000,2]",
        "{\"sub\":\"x\"",
    ] {
        assert!(accepted(refused.as_bytes()).is_none());
    }
    // Deep and ill-formed texts in members of other names do not matter either.
    let deep = format!(
        "{{\"d\":{}{},\"sub\":\"x\",\"uid\":1,\"exp\":4000000000,\"iat\":2}}",
        "[".repeat(200),
        "]".repeat(200)
    );
    assert!(accepted(deep.as_bytes()).is_some());
    let mut bytes = b"{\"b\":\"".to_vec();
    bytes.push(0xff);
    bytes.extend_from_slice(b"\",\"sub\":\"x\",\"uid\":1,\"exp\":4000000000,\"iat\":2}");
    assert!(accepted(&bytes).is_some());
}

#[test]
fn the_payload_stands_between_the_dots() {
    assert_eq!(payload_of("a.eyJ9_-8.b.c").unwrap(), b"{\"}\xff\xef".to_vec());
    assert_eq!(payload_of("a..b").unwrap(), Vec::<u8>::new());
    assert!(payload_of("a.eyJ9").is_none());
    assert!(payload_of("a.eyJ9/+8.b").is_none());
    assert!(payload_of("a.eyI=.b").is_none());
    assert!(payload_of("a.eyJ.b").is_none());
    let name = "q\"b\\n\n\t\u{1}\u{1f}\u{7f}z";
    let token = jwt().issue_at(-42, name, i64::MIN + 5).unwrap();
    let bytes = payload_of(&token).unwrap();
    assert_eq!(
        String::from_utf8(bytes.clone()).unwrap(),
        "{\"sub\":\"q\\\"b\\\\n\\n\\t\\u0001\\u001f\u{7f}z\",\"uid\":-42,\"exp\":-9223372036854772203,\"iat\":-9223372036854775803}"
    );
    let c = read_claims(&bytes).unwrap();
    assert_eq!((c.sub.as_str(), c.uid, c.iat), (name, -42, i64::MIN + 5));
    assert!(read_claims(b"{}").is_none());
}

#[test]
fn claims_follow_the_check() {
    let token = jwt().issue_at(42, "zoe", 1000).unwrap();
    let c = claims_after(Ok(()), &token).unwrap();
    assert_eq!((c.sub.as_str(), c.uid, c.exp, c.iat), ("zoe", 42, 4600, 1000));
    let refused = claims_after(Err("ExpiredSignature".to_string()), &token);
    assert!(matches!(refused, Err(TokenError::Refused(m)) if m == "ExpiredSignature"));
    for incomplete in ["a.e30.b", "a.!.b", "a", "a.b"] {
        let r = claims_after(Ok(()), incomplete);
        assert!(matches!(r, Err(TokenError::Incomplete)), "{}", incomplete);
    }
}
