//! JWT issuance, and the authentication of requests.

use vstd::prelude::*;
use vstd::utf8::*;

use crate::app;
use crate::crypto;
use crate::encoding;
use crate::error::{AppError, Refusal};
use crate::json;
use crate::json::{Member, Named};
use crate::text;
use crate::types;

verus! {

/// What a token says of its bearer.
#[derive(Debug)]
pub struct Claims {
    /// The user's name.
    pub sub: String,
    /// The user's id.
    pub uid: i64,
    /// When the token expires, in seconds since 1970.
    pub exp: i64,
    /// When the token was issued, in seconds since 1970.
    pub iat: i64,
}

/// `Claims`, as specifications see them.
#[verifier::ext_equal]
pub struct Claimed {
    pub sub: Seq<char>,
    pub uid: i64,
    pub exp: i64,
    pub iat: i64,
}

impl View for Claims {
    type V = Claimed;

    open spec fn view(&self) -> Claimed {
        Claimed { sub: self.sub@, uid: self.uid, exp: self.exp, iat: self.iat }
    }
}

/// The name of the member of a token that holds the user's name.
pub const MEMBER_SUB: &'static str = "sub";

/// The name of the member of a token that holds the user's id.
pub const MEMBER_UID: &'static str = "uid";

/// The name of the member of a token that says when it expires.
pub const MEMBER_EXP: &'static str = "exp";

/// The name of the member of a token that says when it was issued.
pub const MEMBER_IAT: &'static str = "iat";

/// The HS256 token with these claims, signed with a secret.
pub uninterp spec fn signed_token(
    secret: Seq<u8>,
    sub: Seq<char>,
    uid: i64,
    exp: i64,
    iat: i64,
) -> Seq<char>;

/// Whether a token is an HS256 token that was signed with a secret and carries JSON.
pub uninterp spec fn is_signed(secret: Seq<u8>, token: Seq<char>) -> bool;

/// The JSON object in which a token carries its claims.
pub open spec fn claims_bytes(sub: Seq<char>, uid: i64, exp: i64, iat: i64) -> Seq<u8> {
    seq![json::OPEN] + (json::member_bytes(MEMBER_SUB@, json::string_bytes(sub)) + (
    seq![json::COMMA] + (json::member_bytes(MEMBER_UID@, json::integer_bytes(uid)) + (
    seq![json::COMMA] + (json::member_bytes(MEMBER_EXP@, json::integer_bytes(exp)) + (
    seq![json::COMMA] + (json::member_bytes(MEMBER_IAT@, json::integer_bytes(iat)) + seq![
        json::CLOSE,
    ])))))))
}

/// Whether a token is made of a header, a payload and a signature.
pub open spec fn made_of(
    token: Seq<char>,
    header: Seq<char>,
    payload: Seq<u8>,
    signature: Seq<char>,
) -> bool {
    &&& !header.contains('.')
    &&& token == header + seq!['.'] + (encoding::base64url_text(payload) + seq!['.'] + signature)
}

/// `jsonwebtoken::encode` with its default header, HS256. A secret always fits that
/// algorithm, and a string and integers always have a JSON form, so it succeeds. The
/// token depends on the arguments alone. It is made of a header, the claims as a JSON
/// object in the order of [`Claims`], and a signature, in base64 with dots between them.
/// `serde_json` reads the strings and integers that it wrote back where they stand.
#[verifier::external_body]
fn jwt_encode(secret: &[u8], sub: &str, uid: i64, exp: i64, iat: i64) -> (r: Result<
    String,
    String,
>)
    ensures
        match r {
            Ok(t) => {
                &&& t@ == signed_token(secret@, sub@, uid, exp, iat)
                &&& is_signed(secret@, t@)
                &&& exists|h: Seq<char>, p: Seq<u8>, s: Seq<char>| #[trigger]
                    made_of(t@, h, p, s) && p == claims_bytes(sub@, uid, exp, iat)
                        && json::reads_back(p)
            },
            Err(_) => false,
        },
{
    let mut m = serde_json::Map::new();
    m.insert(MEMBER_SUB.to_owned(), serde_json::Value::from(sub));
    m.insert(MEMBER_UID.to_owned(), serde_json::Value::from(uid));
    m.insert(MEMBER_EXP.to_owned(), serde_json::Value::from(exp));
    m.insert(MEMBER_IAT.to_owned(), serde_json::Value::from(iat));
    let key = jsonwebtoken::EncodingKey::from_secret(secret);
    jsonwebtoken::encode(&jsonwebtoken::Header::default(), &m, &key).map_err(|e| e.to_string())
}

/// `jsonwebtoken::decode` with its default validation, for claims of any kind: the token
/// must be signed with the secret, carry JSON and not be expired. Whether it is signed
/// depends on the token and the secret alone; whether it is expired depends on the time as
/// well, so nothing is said of when it is refused.
#[verifier::external_body]
fn jwt_decode(secret: &[u8], token: &str) -> (r: Result<(), String>)
    ensures
        r is Ok ==> is_signed(secret@, token@),
{
    let key = jsonwebtoken::DecodingKey::from_secret(secret);
    let validation = jsonwebtoken::Validation::default();
    jsonwebtoken::decode::<serde::de::IgnoredAny>(token, &key, &validation).map(|_| ()).map_err(
        |e| e.to_string(),
    )
}

/// What stands between the dots of a token.
pub open spec fn payload(token: Seq<char>) -> Option<Seq<u8>> {
    match text::split_at_first(token, '.') {
        Some((_, behind)) => match text::split_at_first(behind, '.') {
            Some((part, _)) => encoding::base64url_bytes(part),
            None => None,
        },
        None => None,
    }
}

/// What stands between the dots of a token.
pub fn payload_of(token: &str) -> (r: Option<Vec<u8>>)
    ensures
        match r {
            Some(p) => payload(token@) == Some(p@),
            None => payload(token@) is None,
        },
{
    match text::split_once(token, '.') {
        Some((_, behind)) => match text::split_once(behind.as_str(), '.') {
            Some((part, _)) => encoding::base64url_decoded(part.as_str()),
            None => None,
        },
        None => None,
    }
}

/// The payload of a token is what it was made of.
pub proof fn law_payload_is_what_a_token_was_made_of(
    token: Seq<char>,
    header: Seq<char>,
    p: Seq<u8>,
    signature: Seq<char>,
)
    requires
        made_of(token, header, p, signature),
    ensures
        payload(token) == Some(p),
{
    let part = encoding::base64url_text(p);
    encoding::law_base64url_text_holds_no_dot(p);
    encoding::law_base64url_roundtrip(p);
    text::lemma_split_at_first(header, '.', part + seq!['.'] + signature);
    text::lemma_split_at_first(part, '.', signature);
}

/// The most seconds that a token can live, in either direction.
pub const MAX_TTL: i64 = 9_223_372_036_854_775;

/// Why a token is refused.
#[derive(Debug)]
pub enum TokenError {
    /// It is no token, has a wrong signature or is expired.
    Refused(String),
    /// It lacks one of the claims, or says one twice.
    Incomplete,
}

/// How the server issues and verifies tokens.
#[derive(Debug)]
pub struct JwtConfig {
    secret: String,
    pub ttl_seconds: i64,
}

/// Whether a member is the only one of its name.
pub open spec fn is_sole(ms: Seq<Named>, name: Seq<char>, i: int) -> bool {
    &&& 0 <= i < ms.len()
    &&& ms[i].name == name
    &&& forall|j: int| 0 <= j < ms.len() && (#[trigger] ms[j]).name == name ==> j == i
}

/// The string of the only member of some name.
pub open spec fn sole_text(ms: Seq<Named>, name: Seq<char>) -> Option<Seq<char>> {
    if exists|i: int| is_sole(ms, name, i) {
        ms[choose|i: int| is_sole(ms, name, i)].text
    } else {
        None
    }
}

/// The integer of the only member of some name.
pub open spec fn sole_number(ms: Seq<Named>, name: Seq<char>) -> Option<i64> {
    if exists|i: int| is_sole(ms, name, i) {
        ms[choose|i: int| is_sole(ms, name, i)].number
    } else {
        None
    }
}

/// The claims in the members of a token, where none is missing and none is said twice.
/// Members of other names do not matter.
pub open spec fn claims_in(ms: Seq<Named>) -> Option<Claimed> {
    match (
        sole_text(ms, MEMBER_SUB@),
        sole_number(ms, MEMBER_UID@),
        sole_number(ms, MEMBER_EXP@),
        sole_number(ms, MEMBER_IAT@),
    ) {
        (Some(sub), Some(uid), Some(exp), Some(iat)) => Some(Claimed { sub, uid, exp, iat }),
        _ => None,
    }
}

/// The place of the only member of some name.
fn sole(ms: &[Member], name: &str) -> (r: Option<usize>)
    ensures
        match r {
            Some(i) => is_sole(json::named(ms@), name@, i as int),
            None => forall|i: int| !is_sole(json::named(ms@), name@, i),
        },
{
    let ghost all = json::named(ms@);
    let mut found: Option<usize> = None;
    let mut i: usize = 0;
    while i < ms.len()
        invariant
            i <= ms@.len(),
            all == json::named(ms@),
            match found {
                Some(k) => k < i && all[k as int].name == name@ && forall|j: int|
                    0 <= j < i && (#[trigger] all[j]).name == name@ ==> j == k,
                None => forall|j: int| 0 <= j < i ==> (#[trigger] all[j]).name != name@,
            },
        decreases ms@.len() - i,
    {
        assert(all[i as int].name == ms@[i as int].name@);
        if text::same_text(ms[i].name.as_str(), name) {
            match found {
                Some(k) => {
                    assert forall|m: int| !is_sole(all, name@, m) by {
                        if is_sole(all, name@, m) {
                            assert(all[k as int].name == name@);
                            assert(k == m);
                            assert(i == m);
                        }
                    }
                    return None;
                },
                None => {
                    found = Some(i);
                },
            }
        }
        i += 1;
    }
    found
}

proof fn lemma_sole(ms: Seq<Named>, name: Seq<char>, i: int)
    requires
        is_sole(ms, name, i),
    ensures
        sole_text(ms, name) == ms[i].text,
        sole_number(ms, name) == ms[i].number,
{
    let k = choose|k: int| is_sole(ms, name, k);
    assert(ms[k].name == name);
    assert(k == i);
}

fn text_of(ms: &[Member], name: &str) -> (r: Option<String>)
    ensures
        types::opt_text(r) == sole_text(json::named(ms@), name@),
{
    match sole(ms, name) {
        Some(i) => {
            proof {
                lemma_sole(json::named(ms@), name@, i as int);
            }
            types::clone_opt(&ms[i].text)
        },
        None => None,
    }
}

fn number_of(ms: &[Member], name: &str) -> (r: Option<i64>)
    ensures
        r == sole_number(json::named(ms@), name@),
{
    match sole(ms, name) {
        Some(i) => {
            proof {
                lemma_sole(json::named(ms@), name@, i as int);
            }
            ms[i].number
        },
        None => None,
    }
}

/// The claims in the members of a token, where none is missing and none is said twice.
pub fn claims_of(ms: &[Member]) -> (r: Option<Claims>)
    ensures
        match r {
            Some(c) => claims_in(json::named(ms@)) == Some(c@),
            None => claims_in(json::named(ms@)) is None,
        },
{
    match (
        text_of(ms, MEMBER_SUB),
        number_of(ms, MEMBER_UID),
        number_of(ms, MEMBER_EXP),
        number_of(ms, MEMBER_IAT),
    ) {
        (Some(sub), Some(uid), Some(exp), Some(iat)) => Some(Claims { sub, uid, exp, iat }),
        _ => None,
    }
}

/// The claims in the payload of a token: a JSON object in which none of them is missing
/// and none is said twice.
pub open spec fn claims_read(p: Seq<u8>) -> Option<Claimed> {
    match json::members(p) {
        Some(ms) => claims_in(ms),
        None => None,
    }
}

/// The claims in the payload of a token.
pub fn read_claims(p: &[u8]) -> (r: Option<Claims>)
    ensures
        match r {
            Some(c) => claims_read(p@) == Some(c@),
            None => claims_read(p@) is None,
        },
{
    match json::members_of(p) {
        Some(ms) => claims_of(ms.as_slice()),
        None => None,
    }
}

/// The claims that were written are read.
pub proof fn law_written_claims_are_read(sub: Seq<char>, uid: i64, exp: i64, iat: i64)
    requires
        json::reads_back(claims_bytes(sub, uid, exp, iat)),
    ensures
        claims_read(claims_bytes(sub, uid, exp, iat)) == Some(Claimed { sub, uid, exp, iat }),
{
    let p = claims_bytes(sub, uid, exp, iat);
    let comma = seq![json::COMMA];
    let m1 = json::member_bytes(MEMBER_SUB@, json::string_bytes(sub));
    let m2 = json::member_bytes(MEMBER_UID@, json::integer_bytes(uid));
    let m3 = json::member_bytes(MEMBER_EXP@, json::integer_bytes(exp));
    let m4 = json::member_bytes(MEMBER_IAT@, json::integer_bytes(iat));
    let t4 = m4 + seq![json::CLOSE];
    let t3 = m3 + (comma + t4);
    let t2 = m2 + (comma + t3);
    let t1 = m1 + (comma + t2);
    lemma_tails(m1, m2, m3, m4);
    let a2 = m1.len() as int + 2;
    let a3 = a2 + m2.len() + 1;
    let a4 = a3 + m3.len() + 1;
    json::lemma_number_member_reads(p, a4, MEMBER_IAT@, iat, seq![json::CLOSE]);
    json::lemma_number_member_reads(p, a3, MEMBER_EXP@, exp, comma + t4);
    json::lemma_number_member_reads(p, a2, MEMBER_UID@, uid, comma + t3);
    json::lemma_text_member_reads(p, 1, MEMBER_SUB@, sub, comma + t2);
    lemma_claims_read(t1, t2, t3, t4, sub, uid, exp, iat);
}

proof fn lemma_tails(m1: Seq<u8>, m2: Seq<u8>, m3: Seq<u8>, m4: Seq<u8>)
    ensures
        ({
            let comma = seq![json::COMMA];
            let t4 = m4 + seq![json::CLOSE];
            let t3 = m3 + (comma + t4);
            let t2 = m2 + (comma + t3);
            let t1 = m1 + (comma + t2);
            let p = seq![json::OPEN] + t1;
            let a2 = m1.len() as int + 2;
            let a3 = a2 + m2.len() + 1;
            let a4 = a3 + m3.len() + 1;
            &&& p.skip(1) == t1
            &&& p.skip(a2) == t2
            &&& p.skip(a3) == t3
            &&& p.skip(a4) == t4
            &&& a4 <= p.len()
        }),
{
    let comma = seq![json::COMMA];
    let t4 = m4 + seq![json::CLOSE];
    let t3 = m3 + (comma + t4);
    let t2 = m2 + (comma + t3);
    let t1 = m1 + (comma + t2);
    let p = seq![json::OPEN] + t1;
    let a2 = m1.len() as int + 2;
    let a3 = a2 + m2.len() + 1;
    let a4 = a3 + m3.len() + 1;
    assert(p.skip(1) =~= t1);
    assert(t1.skip(m1.len() as int + 1) =~= t2);
    assert(t2.skip(m2.len() as int + 1) =~= t3);
    assert(t3.skip(m3.len() as int + 1) =~= t4);
    assert(p.skip(a2) =~= p.skip(1).skip(m1.len() as int + 1));
    assert(p.skip(a3) =~= p.skip(a2).skip(m2.len() as int + 1));
    assert(p.skip(a4) =~= p.skip(a3).skip(m3.len() as int + 1));
}

/// Four members that are read one after the other are the claims.
proof fn lemma_claims_read(
    t1: Seq<u8>,
    t2: Seq<u8>,
    t3: Seq<u8>,
    t4: Seq<u8>,
    sub: Seq<char>,
    uid: i64,
    exp: i64,
    iat: i64,
)
    requires
        t1.len() > 0 && t1[0] == json::QUOTE,
        t2.len() > 0 && t2[0] == json::QUOTE,
        t3.len() > 0 && t3[0] == json::QUOTE,
        t4.len() > 0 && t4[0] == json::QUOTE,
        json::first_member(t1) matches Some((m, r)) && m.name == MEMBER_SUB@ && m.text == Some(sub)
            && r == seq![json::COMMA] + t2,
        json::first_member(t2) matches Some((m, r)) && m.name == MEMBER_UID@ && m.number == Some(
            uid,
        ) && r == seq![json::COMMA] + t3,
        json::first_member(t3) matches Some((m, r)) && m.name == MEMBER_EXP@ && m.number == Some(
            exp,
        ) && r == seq![json::COMMA] + t4,
        json::first_member(t4) matches Some((m, r)) && m.name == MEMBER_IAT@ && m.number == Some(
            iat,
        ) && r == seq![json::CLOSE],
    ensures
        claims_read(seq![json::OPEN] + t1) == Some(Claimed { sub, uid, exp, iat }),
{
    let n1 = (json::first_member(t1)->0).0;
    let n2 = (json::first_member(t2)->0).0;
    let n3 = (json::first_member(t3)->0).0;
    let n4 = (json::first_member(t4)->0).0;
    json::lemma_member_last(t4, n4);
    json::lemma_member_before(t3, n3, t4, seq![n4]);
    json::lemma_member_before(t2, n2, t3, seq![n3] + seq![n4]);
    json::lemma_member_before(t1, n1, t2, seq![n2] + (seq![n3] + seq![n4]));
    let ms = seq![n1] + (seq![n2] + (seq![n3] + seq![n4]));
    json::lemma_object(t1, ms);
    lemma_names_differ();
    assert(ms[0] == n1 && ms[1] == n2 && ms[2] == n3 && ms[3] == n4);
    lemma_sole(ms, MEMBER_SUB@, 0);
    lemma_sole(ms, MEMBER_UID@, 1);
    lemma_sole(ms, MEMBER_EXP@, 2);
    lemma_sole(ms, MEMBER_IAT@, 3);
}

proof fn lemma_names_differ()
    ensures
        MEMBER_SUB@ != MEMBER_UID@,
        MEMBER_SUB@ != MEMBER_EXP@,
        MEMBER_SUB@ != MEMBER_IAT@,
        MEMBER_UID@ != MEMBER_EXP@,
        MEMBER_UID@ != MEMBER_IAT@,
        MEMBER_EXP@ != MEMBER_IAT@,
{
    reveal_strlit("sub");
    reveal_strlit("uid");
    reveal_strlit("exp");
    reveal_strlit("iat");
    assert(MEMBER_SUB@[0] == 's' && MEMBER_UID@[0] == 'u' && MEMBER_EXP@[0] == 'e' && MEMBER_IAT@[0]
        == 'i');
}

/// A token in which a claim is said twice says nothing.
pub proof fn law_repeated_claims_are_refused(ms: Seq<Named>, i: int, j: int)
    requires
        0 <= i < j < ms.len(),
        ms[i].name == ms[j].name,
        ms[i].name == MEMBER_SUB@ || ms[i].name == MEMBER_UID@ || ms[i].name == MEMBER_EXP@
            || ms[i].name == MEMBER_IAT@,
    ensures
        claims_in(ms) is None,
{
    assert forall|k: int| !is_sole(ms, ms[i].name, k) by {
        if is_sole(ms, ms[i].name, k) {
            assert(i == k);
            assert(j == k);
        }
    }
}

/// How many random bytes a generated secret is made of.
pub const SECRET_LEN: usize = 32;

/// A random secret, for a server that was given none: tokens issued before become invalid.
pub fn new_secret() -> (r: String)
    ensures
        exists|b: Seq<u8>| b.len() == SECRET_LEN && r@ == #[trigger] encoding::base64_text(b),
{
    let b = crypto::random_bytes::<SECRET_LEN>();
    encoding::base64_encode(b.as_slice())
}

/// What a token says of its bearer, by what came of checking its signature and its time:
/// one that was refused stays refused, and of an accepted one the claims in its payload,
/// where none is missing and none is said twice.
pub fn claims_after(checked: Result<(), String>, token: &str) -> (r: Result<Claims, TokenError>)
    ensures
        match checked {
            Err(m) => r matches Err(TokenError::Refused(e)) && e@ == m@,
            Ok(()) => match payload(token@) {
                Some(p) => match claims_read(p) {
                    Some(c) => r matches Ok(x) && x@ == c,
                    None => r matches Err(TokenError::Incomplete),
                },
                None => r matches Err(TokenError::Incomplete),
            },
        },
{
    match checked {
        Ok(()) => match payload_of(token) {
            Some(p) => match read_claims(p.as_slice()) {
                Some(c) => Ok(c),
                None => Err(TokenError::Incomplete),
            },
            None => Err(TokenError::Incomplete),
        },
        Err(e) => Err(TokenError::Refused(e)),
    }
}

impl JwtConfig {
    /// The secret that tokens are signed with.
    pub closed spec fn secret_bytes(self) -> Seq<u8> {
        encode_utf8(self.secret@)
    }

    /// How many seconds a token lives.
    pub closed spec fn ttl(self) -> int {
        self.ttl_seconds as int
    }

    /// The claims that a token issued at some time carries.
    pub open spec fn claims_for(self, user_id: i64, username: Seq<char>, now: i64) -> Claimed {
        Claimed {
            sub: username,
            uid: user_id,
            exp: (now + self.ttl()) as i64,
            iat: now,
        }
    }

    /// The token for some claims.
    pub open spec fn token(self, c: Claimed) -> Seq<char> {
        signed_token(self.secret_bytes(), c.sub, c.uid, c.exp, c.iat)
    }

    /// What a token that this server signed says, where no claim is missing and none is
    /// said twice.
    pub open spec fn read(self, token: Seq<char>) -> Option<Claimed> {
        if is_signed(self.secret_bytes(), token) {
            match payload(token) {
                Some(p) => claims_read(p),
                None => None,
            }
        } else {
            None
        }
    }

    pub fn new(secret: String, ttl_seconds: u64) -> (r: JwtConfig)
        ensures
            r.secret_bytes() == encode_utf8(secret@),
            r.ttl() == ttl_seconds as i64,
    {
        JwtConfig { secret, ttl_seconds: ttl_seconds as i64 }
    }

    /// A token for a user, issued at a time in seconds since 1970. What the token carries
    /// is the user's id and name, when it was issued, and when it expires.
    pub fn issue_at(&self, user_id: i64, username: &str, now: i64) -> (r: Result<String, String>)
        requires
            i64::MIN <= now + self.ttl() <= i64::MAX,
        ensures
            r matches Ok(t) && t@ == self.token(self.claims_for(user_id, username@, now))
                && self.read(t@) == Some(self.claims_for(user_id, username@, now)),
    {
        let exp: i64 = now + self.ttl_seconds;
        let r = jwt_encode(self.secret.as_str().as_bytes(), username, user_id, exp, now);
        proof {
            let t = r->Ok_0@;
            let (h, p, s) = choose|h: Seq<char>, p: Seq<u8>, s: Seq<char>| #[trigger]
                made_of(t, h, p, s) && p == claims_bytes(username@, user_id, exp, now)
                    && json::reads_back(p);
            law_payload_is_what_a_token_was_made_of(t, h, p, s);
            law_written_claims_are_read(username@, user_id, exp, now);
        }
        r
    }

    /// A token for a user, issued now.
    pub fn issue(&self, user_id: i64, username: &str) -> (r: Result<String, String>)
        requires
            -MAX_TTL <= self.ttl() <= MAX_TTL,
        ensures
            r matches Ok(t) && exists|now: i64|
                i64::MIN <= now + self.ttl() <= i64::MAX && t@ == self.token(
                    #[trigger] self.claims_for(user_id, username@, now),
                ) && self.read(t@) == Some(self.claims_for(user_id, username@, now)),
    {
        let now = app::now_seconds();
        self.issue_at(user_id, username, now)
    }

    /// What a token says of its bearer, where it is accepted: the token was signed with
    /// the secret of this server, is not expired, and says each claim once.
    pub fn verify(&self, token: &str) -> (r: Result<Claims, TokenError>)
        ensures
            match r {
                Ok(c) => self.read(token@) == Some(c@),
                Err(TokenError::Incomplete) => is_signed(self.secret_bytes(), token@) && self.read(
                    token@,
                ) is None,
                Err(TokenError::Refused(_)) => true,
            },
    {
        let checked = jwt_decode(self.secret.as_str().as_bytes(), token);
        claims_after(checked, token)
    }
}

/// The user that a request comes from.
#[derive(Debug)]
pub struct AuthUser {
    pub user_id: i64,
    pub username: String,
}

/// The token in an authorization header, or the refusal.
pub open spec fn bearer(header: Option<Seq<char>>) -> Result<Seq<char>, Refusal> {
    match header {
        None => Err(Refusal::unauthorized("missing authorization header"@)),
        Some(h) => if text::begins_with(h, "Bearer "@) {
            Ok(h.skip("Bearer "@.len() as int))
        } else {
            Err(Refusal::unauthorized("expected bearer token"@))
        },
    }
}

/// The text of an optional borrowed string.
pub open spec fn opt_str(s: Option<&str>) -> Option<Seq<char>> {
    match s {
        Some(t) => Some(t@),
        None => None,
    }
}

/// The token in an authorization header, or the refusal.
pub fn bearer_token(header: Option<&str>) -> (r: Result<String, AppError>)
    ensures
        match r {
            Ok(t) => bearer(opt_str(header)) == Ok::<Seq<char>, Refusal>(t@),
            Err(e) => bearer(opt_str(header)) == Err::<Seq<char>, Refusal>(e@),
        },
{
    match header {
        None => Err(AppError::unauthorized("missing authorization header")),
        Some(h) => {
            if text::starts_with(h, "Bearer ") {
                let chars = text::chars_of(h);
                let n: usize = text::chars_of("Bearer ").len();
                let t = text::slice_chars(chars.as_slice(), n, chars.len());
                assert(t@ =~= h@.skip("Bearer "@.len() as int));
                Ok(text::string_of(t.as_slice()))
            } else {
                Err(AppError::unauthorized("expected bearer token"))
            }
        },
    }
}

/// The user of an accepted token; a token that is not accepted gives a refusal.
pub fn user_of(verified: Result<Claims, TokenError>) -> (r: Result<AuthUser, AppError>)
    ensures
        match verified {
            Ok(c) => r matches Ok(u) && u.user_id == c@.uid && u.username@ == c@.sub,
            Err(_) => r matches Err(e) && e@ == Refusal::unauthorized("invalid token"@),
        },
{
    match verified {
        Ok(c) => Ok(AuthUser { user_id: c.uid, username: c.sub }),
        Err(_) => Err(AppError::unauthorized("invalid token")),
    }
}

/// The user that a request comes from, by its authorization header. Refuses with 401 on
/// any failure. Whether a token of this server is still accepted depends on the time.
pub fn authenticate(jwt: &JwtConfig, header: Option<&str>) -> (r: Result<AuthUser, AppError>)
    ensures
        match bearer(opt_str(header)) {
            Err(f) => r matches Err(e) && e@ == f,
            Ok(token) => match r {
                Ok(u) => jwt.read(token) matches Some(c) && u.user_id == c.uid && u.username@
                    == c.sub,
                Err(e) => e@ == Refusal::unauthorized("invalid token"@),
            },
        },
{
    match bearer_token(header) {
        Ok(token) => user_of(jwt.verify(token.as_str())),
        Err(e) => Err(e),
    }
}

/// A token says who it was issued to, and is good from when it was issued for as long as tokens
/// live.
pub proof fn law_tokens_carry_their_user(jwt: JwtConfig, id: i64, username: Seq<char>, now: i64)
    requires
        i64::MIN <= now + jwt.ttl() <= i64::MAX,
    ensures
        ({
            let c = jwt.claims_for(id, username, now);
            &&& c.uid == id && c.sub == username && c.iat == now
            &&& c.exp - c.iat == jwt.ttl()
        }),
{
}

/// The token of a request stands behind the word that names its kind; anything else in the
/// header, or none at all, is refused.
pub proof fn law_bearer_tokens(token: Seq<char>, header: Seq<char>)
    ensures
        bearer(Some("Bearer "@ + token)) == Ok::<Seq<char>, Refusal>(token),
        (forall|t: Seq<char>| header != #[trigger] ("Bearer "@ + t)) ==> bearer(Some(header))
            == Err::<Seq<char>, Refusal>(
            Refusal { status: 401, message: "expected bearer token"@ },
        ),
        bearer(None) == Err::<Seq<char>, Refusal>(
            Refusal { status: 401, message: "missing authorization header"@ },
        ),
{
    text::law_begins_with_is_a_split("Bearer "@ + token, "Bearer "@);
    text::law_begins_with_is_a_split(header, "Bearer "@);
    assert(("Bearer "@ + token).skip("Bearer "@.len() as int) =~= token);
}

/// A token that lacks a claim, or has something of another kind in its place, says nothing.
pub proof fn law_missing_claims_are_refused(ms: Seq<Named>, name: Seq<char>)
    requires
        name == MEMBER_SUB@ || name == MEMBER_UID@ || name == MEMBER_EXP@ || name == MEMBER_IAT@,
        forall|i: int|
            0 <= i < ms.len() && (#[trigger] ms[i]).name == name ==> (name == MEMBER_SUB@
                && ms[i].text is None) || (name != MEMBER_SUB@ && ms[i].number is None),
    ensures
        claims_in(ms) is None,
{
    lemma_names_differ();
    if exists|i: int| is_sole(ms, name, i) {
        let i = choose|i: int| is_sole(ms, name, i);
        assert(ms[i].name == name);
        lemma_sole(ms, name, i);
    }
}

/// The claims of a token are what its members of those names hold, wherever they stand.
pub proof fn law_claims_are_their_members(ms: Seq<Named>, a: int, b: int, c: int, d: int)
    requires
        is_sole(ms, MEMBER_SUB@, a),
        is_sole(ms, MEMBER_UID@, b),
        is_sole(ms, MEMBER_EXP@, c),
        is_sole(ms, MEMBER_IAT@, d),
        ms[a].text is Some,
        ms[b].number is Some,
        ms[c].number is Some,
        ms[d].number is Some,
    ensures
        claims_in(ms) == Some(
            Claimed {
                sub: ms[a].text->0,
                uid: ms[b].number->0,
                exp: ms[c].number->0,
                iat: ms[d].number->0,
            },
        ),
        MEMBER_SUB@ == "sub"@ && MEMBER_UID@ == "uid"@ && MEMBER_EXP@ == "exp"@ && MEMBER_IAT@
            == "iat"@,
{
    lemma_sole(ms, MEMBER_SUB@, a);
    lemma_sole(ms, MEMBER_UID@, b);
    lemma_sole(ms, MEMBER_EXP@, c);
    lemma_sole(ms, MEMBER_IAT@, d);
}

/// A token without dots carries nothing.
pub proof fn law_tokens_have_three_parts(a: Seq<char>, b: Seq<char>)
    requires
        !a.contains('.'),
        !b.contains('.'),
    ensures
        payload(a) is None,
        payload(a + seq!['.'] + b) is None,
{
    text::lemma_split_at_first_none(a, '.');
    text::lemma_split_at_first_none(b, '.');
    text::lemma_split_at_first(a, '.', b);
}

} // verus!
