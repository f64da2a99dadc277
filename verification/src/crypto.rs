//! End-to-end encryption primitives.
//!
//! The server never sees a plaintext SSH key password. The client derives a 256-bit
//! vault key from the user's master password and a per-user salt using Argon2id, then
//! encrypts each secret with AES-256-GCM. Only the salt, nonce and ciphertext are ever
//! uploaded.

use vstd::prelude::*;
use vstd::utf8::*;

use crate::encoding;
use crate::text;

verus! {

/// Output size of the derived vault key in bytes (AES-256).
pub const KEY_LEN: usize = 32;

/// Argon2 salt length in bytes.
pub const SALT_LEN: usize = 16;

/// AES-GCM nonce length in bytes.
pub const NONCE_LEN: usize = 12;

/// What can go wrong; each variant carries the details.
#[derive(Debug)]
pub enum CryptoError {
    Argon2(String),
    Encrypt(String),
    Decrypt(String),
    Encoding(String),
}

/// A `CryptoError`, as specifications see it.
pub enum Fault {
    Argon2(Seq<char>),
    Encrypt(Seq<char>),
    Decrypt(Seq<char>),
    Encoding(Seq<char>),
}

impl View for CryptoError {
    type V = Fault;

    open spec fn view(&self) -> Fault {
        match self {
            CryptoError::Argon2(m) => Fault::Argon2(m@),
            CryptoError::Encrypt(m) => Fault::Encrypt(m@),
            CryptoError::Decrypt(m) => Fault::Decrypt(m@),
            CryptoError::Encoding(m) => Fault::Encoding(m@),
        }
    }
}

impl Fault {
    /// The sentence that tells a user of the error.
    pub open spec fn message(self) -> Seq<char> {
        match self {
            Fault::Argon2(m) => "argon2 derivation failed: "@ + m,
            Fault::Encrypt(m) => "aes-gcm encryption failed: "@ + m,
            Fault::Decrypt(m) => "aes-gcm decryption failed: "@ + m,
            Fault::Encoding(m) => "invalid hex/base64 payload: "@ + m,
        }
    }
}

impl CryptoError {
    /// The sentence that tells a user of the error.
    pub fn message(&self) -> (r: String)
        ensures
            r@ == self@.message(),
    {
        match self {
            CryptoError::Argon2(m) => text::concat("argon2 derivation failed: ", m.as_str()),
            CryptoError::Encrypt(m) => text::concat("aes-gcm encryption failed: ", m.as_str()),
            CryptoError::Decrypt(m) => text::concat("aes-gcm decryption failed: ", m.as_str()),
            CryptoError::Encoding(m) => text::concat("invalid hex/base64 payload: ", m.as_str()),
        }
    }
}

// ---------------------------------------------------------------------------
// Argon2id
// ---------------------------------------------------------------------------

/// Memory cost in KiB.
pub const MEMORY_KIB: u32 = 65536;

/// Number of passes over the memory.
pub const PASSES: u32 = 3;

/// Degree of parallelism.
pub const LANES: u32 = 3;

/// The Argon2id hash, version 0x13, of a password with a salt, for a memory cost in KiB,
/// a number of passes, a degree of parallelism and an output length.
pub uninterp spec fn argon2id(
    password: Seq<u8>,
    salt: Seq<u8>,
    memory: u32,
    passes: u32,
    lanes: u32,
    len: nat,
) -> Seq<u8>;

/// What Argon2id refuses, with its words for that.
pub open spec fn argon2id_refusal(
    password: Seq<u8>,
    salt: Seq<u8>,
    param_len: int,
    out_len: int,
) -> Option<Seq<char>> {
    if out_len < param_len {
        Some("output is too short"@)
    } else if out_len > param_len {
        Some("output is too long"@)
    } else if password.len() > 0xffff_ffff {
        Some("password is too long"@)
    } else if salt.len() < 8 {
        Some("salt is too short"@)
    } else if salt.len() > 0xffff_ffff {
        Some("salt is too long"@)
    } else {
        None
    }
}

/// `argon2::Argon2::hash_password_into` for Argon2id, version 0x13, with the parameters
/// of `argon2::Params::new`. The output must have the length that the parameters give,
/// the password at most 2^32 - 1 bytes and the salt 8 to 2^32 - 1; otherwise it refuses,
/// in this order. The hash depends on the password, the salt, the parameters and the
/// length alone; what `out` holds before is lost. The parameters must be ones that
/// `Params::new` takes, and their memory one that can be had.
#[verifier::external_body]
fn argon2id_hash(
    password: &[u8],
    salt: &[u8],
    memory: u32,
    passes: u32,
    lanes: u32,
    param_len: usize,
    mut out: Vec<u8>,
) -> (r: Result<Vec<u8>, String>)
    requires
        8 * lanes <= memory <= MEMORY_KIB,
        1 <= passes,
        1 <= lanes,
        4 <= param_len <= 0xffff_ffff,
    ensures
        match r {
            Ok(hash) => {
                &&& argon2id_refusal(password@, salt@, param_len as int, out@.len() as int) is None
                &&& hash@ == argon2id(password@, salt@, memory, passes, lanes, out@.len())
                &&& hash@.len() == out@.len()
            },
            Err(e) => argon2id_refusal(password@, salt@, param_len as int, out@.len() as int)
                == Some(e@),
        },
{
    argon2::Params::new(memory, passes, lanes, Some(param_len)).and_then(
        |p|
            argon2::Argon2::new(argon2::Algorithm::Argon2id, argon2::Version::V0x13, p)
                .hash_password_into(password, salt, &mut out),
    ).map(|_| out).map_err(|e| e.to_string())
}

/// The hash of a password under the parameters of this library. Memory-hard, three lanes,
/// tuned for interactive logins on a laptop.
pub open spec fn password_hash(password: Seq<char>, salt: Seq<u8>) -> Seq<u8> {
    argon2id(encode_utf8(password), salt, MEMORY_KIB, PASSES, LANES, KEY_LEN as nat)
}

/// The hash of a password, or the refusal, for an output of `len` bytes.
pub open spec fn hashed(password: Seq<char>, salt: Seq<u8>, len: int) -> Result<Seq<u8>, Fault> {
    match argon2id_refusal(encode_utf8(password), salt, KEY_LEN as int, len) {
        Some(m) => Err(Fault::Argon2(m)),
        None => Ok(password_hash(password, salt)),
    }
}

fn hash_password(password: &str, salt: &[u8], len: usize) -> (r: Result<Vec<u8>, CryptoError>)
    ensures
        match r {
            Ok(v) => hashed(password@, salt@, len as int) == Ok::<Seq<u8>, Fault>(v@) && v@.len()
                == KEY_LEN,
            Err(e) => hashed(password@, salt@, len as int) == Err::<Seq<u8>, Fault>(e@),
        },
{
    let mut out: Vec<u8> = Vec::new();
    while out.len() < len
        invariant
            out@.len() <= len,
        decreases len - out@.len(),
    {
        out.push(0);
    }
    match argon2id_hash(
        password.as_bytes(),
        salt,
        MEMORY_KIB,
        PASSES,
        LANES,
        KEY_LEN,
        out,
    ) {
        Ok(v) => Ok(v),
        Err(e) => Err(CryptoError::Argon2(e)),
    }
}

/// Derive a 32-byte vault key from the master password and salt. The salt is stored on
/// the server (it is not secret).
pub fn derive_vault_key(password: &str, salt: &[u8]) -> (r: Result<[u8; KEY_LEN], CryptoError>)
    ensures
        match r {
            Ok(key) => hashed(password@, salt@, KEY_LEN as int) == Ok::<Seq<u8>, Fault>(key@),
            Err(e) => hashed(password@, salt@, KEY_LEN as int) == Err::<Seq<u8>, Fault>(e@),
        },
{
    match hash_password(password, salt, KEY_LEN) {
        Ok(v) => {
            let mut out = [0u8; KEY_LEN];
            let mut i: usize = 0;
            while i < KEY_LEN
                invariant
                    i <= KEY_LEN,
                    v@.len() == KEY_LEN,
                    out@.len() == KEY_LEN,
                    forall|j: int| 0 <= j < i ==> out@[j] == v@[j],
                decreases KEY_LEN - i,
            {
                out[i] = v[i];
                i += 1;
            }
            assert(out@ =~= v@);
            Ok(out)
        },
        Err(e) => Err(e),
    }
}

// ---------------------------------------------------------------------------
// Randomness
// ---------------------------------------------------------------------------

/// `rand::RngCore::fill_bytes` of `rand::thread_rng`: nothing is promised of the bytes.
#[verifier::external_body]
pub(crate) fn random_bytes<const N: usize>() -> (r: [u8; N])
    ensures
        r@.len() == N,
{
    let mut bytes = [0u8; N];
    rand::RngCore::fill_bytes(&mut rand::thread_rng(), &mut bytes);
    bytes
}

/// Generate a fresh random salt for a new user vault.
pub fn new_salt() -> (r: [u8; SALT_LEN])
    ensures
        r@.len() == SALT_LEN,
{
    random_bytes::<SALT_LEN>()
}

/// Generate a fresh random AES-GCM nonce.
pub fn new_nonce() -> (r: [u8; NONCE_LEN])
    ensures
        r@.len() == NONCE_LEN,
{
    random_bytes::<NONCE_LEN>()
}

// ---------------------------------------------------------------------------
// AES-256-GCM
// ---------------------------------------------------------------------------

/// How many bytes of plaintext, and of associated data, are taken at most.
pub const MAX_SEALED: u64 = 0x10_0000_0000;

/// How many bytes a ciphertext has more than its plaintext.
pub const TAG_LEN: usize = 16;

/// The AES-256-GCM ciphertext, with its tag, of a message and associated data.
pub uninterp spec fn aes_gcm_sealed(
    key: Seq<u8>,
    nonce: Seq<u8>,
    msg: Seq<u8>,
    aad: Seq<u8>,
) -> Seq<u8>;

/// The message of an AES-256-GCM ciphertext, where its tag matches.
pub uninterp spec fn aes_gcm_opened(
    key: Seq<u8>,
    nonce: Seq<u8>,
    ct: Seq<u8>,
    aad: Seq<u8>,
) -> Option<Seq<u8>>;

/// Whether a message or its associated data is longer than AES-GCM takes.
pub open spec fn oversized(msg_len: nat, aad_len: nat) -> bool {
    msg_len > MAX_SEALED || aad_len > MAX_SEALED
}

/// `aes_gcm::aead::Aead::encrypt` of `aes_gcm::Aes256Gcm`. It refuses a message or
/// associated data of more than 2^36 bytes and nothing else, and panics where there is no
/// room for the ciphertext. The ciphertext depends on the arguments alone, is longer than
/// the message by the tag, and opens to the message again.
#[verifier::external_body]
fn aes_gcm_seal(key: &[u8; KEY_LEN], nonce: &[u8; NONCE_LEN], msg: &[u8], aad: &[u8]) -> (r: Result<
    Vec<u8>,
    String,
>)
    requires
        msg@.len() + TAG_LEN <= isize::MAX,
    ensures
        match r {
            Ok(ct) => {
                &&& !oversized(msg@.len(), aad@.len())
                &&& ct@ == aes_gcm_sealed(key@, nonce@, msg@, aad@)
                &&& ct@.len() == msg@.len() + TAG_LEN
                &&& aes_gcm_opened(key@, nonce@, ct@, aad@) == Some(msg@)
            },
            Err(e) => oversized(msg@.len(), aad@.len()) && e@ == "aead::Error"@,
        },
{
    let cipher = <aes_gcm::Aes256Gcm as aes_gcm::KeyInit>::new(key.into());
    let payload = aes_gcm::aead::Payload { msg, aad };
    aes_gcm::aead::Aead::encrypt(&cipher, nonce.into(), payload).map_err(|e| e.to_string())
}

/// `aes_gcm::aead::Aead::decrypt` of `aes_gcm::Aes256Gcm`. The outcome depends on the
/// arguments alone. A message is shorter than its ciphertext by the tag. A message of more
/// than 2^36 + 16 bytes, and associated data of more than 2^36, are refused.
#[verifier::external_body]
fn aes_gcm_open(key: &[u8; KEY_LEN], nonce: &[u8; NONCE_LEN], ct: &[u8], aad: &[u8]) -> (r: Result<
    Vec<u8>,
    String,
>)
    ensures
        match r {
            Ok(msg) => {
                &&& aes_gcm_opened(key@, nonce@, ct@, aad@) == Some(msg@)
                &&& ct@.len() == msg@.len() + TAG_LEN
                &&& msg@.len() <= MAX_SEALED + TAG_LEN
                &&& aad@.len() <= MAX_SEALED
            },
            Err(e) => aes_gcm_opened(key@, nonce@, ct@, aad@) is None && e@ == "aead::Error"@,
        },
{
    let cipher = <aes_gcm::Aes256Gcm as aes_gcm::KeyInit>::new(key.into());
    let payload = aes_gcm::aead::Payload { msg: ct, aad };
    aes_gcm::aead::Aead::decrypt(&cipher, nonce.into(), payload).map_err(|e| e.to_string())
}

/// Whether there is room for what encryption gives: for the ciphertext, and where it is
/// not refused for its base64 text.
pub open spec fn sealable(plaintext: Seq<char>, aad: Seq<u8>) -> bool {
    let n = encode_utf8(plaintext).len();
    &&& n + TAG_LEN <= isize::MAX
    &&& oversized(n, aad.len()) || encoding::base64_len(n + TAG_LEN) <= isize::MAX
}

/// What encryption gives for a nonce: the base64 texts of the nonce and the ciphertext,
/// or a refusal.
pub open spec fn sealed(key: Seq<u8>, nonce: Seq<u8>, plaintext: Seq<char>, aad: Seq<u8>) -> Result<
    (Seq<char>, Seq<char>),
    Fault,
> {
    if oversized(encode_utf8(plaintext).len(), aad.len()) {
        Err(Fault::Encrypt("aead::Error"@))
    } else {
        Ok(
            (
                encoding::base64_text(nonce),
                encoding::base64_text(aes_gcm_sealed(key, nonce, encode_utf8(plaintext), aad)),
            ),
        )
    }
}

/// What decryption gives for bytes.
pub open spec fn opened_bytes(key: Seq<u8>, nonce: Seq<u8>, ct: Seq<u8>, aad: Seq<u8>) -> Result<
    Seq<char>,
    Fault,
> {
    match aes_gcm_opened(key, nonce, ct, aad) {
        None => Err(Fault::Decrypt("aead::Error"@)),
        Some(msg) => if valid_utf8(msg) {
            Ok(decode_utf8(msg))
        } else {
            Err(Fault::Encoding(text::utf8_fault(msg)))
        },
    }
}

/// What decryption gives for the base64 texts of a nonce and a ciphertext.
pub open spec fn opened(
    key: Seq<u8>,
    nonce_b64: Seq<char>,
    ct_b64: Seq<char>,
    aad: Seq<u8>,
) -> Result<Seq<char>, Fault> {
    match encoding::base64_bytes(nonce_b64) {
        Err(m) => Err(Fault::Encoding(m)),
        Ok(nonce) => match encoding::base64_bytes(ct_b64) {
            Err(m) => Err(Fault::Encoding(m)),
            Ok(ct) => if nonce.len() != NONCE_LEN {
                Err(Fault::Encoding("bad nonce length"@))
            } else {
                opened_bytes(key, nonce, ct, aad)
            },
        },
    }
}

/// Encrypt a plaintext string with the vault key and a given nonce; see
/// [`encrypt_secret`]. What it gives decrypts to the plaintext again.
pub fn encrypt_with_nonce(
    key: &[u8; KEY_LEN],
    nonce: &[u8; NONCE_LEN],
    plaintext: &str,
    aad: &[u8],
) -> (r: Result<(String, String), CryptoError>)
    requires
        sealable(plaintext@, aad@),
    ensures
        match r {
            Ok((n, c)) => {
                &&& sealed(key@, nonce@, plaintext@, aad@) == Ok::<(Seq<char>, Seq<char>), Fault>(
                    (n@, c@),
                )
                &&& opened(key@, n@, c@, aad@) == Ok::<Seq<char>, Fault>(plaintext@)
            },
            Err(e) => sealed(key@, nonce@, plaintext@, aad@) == Err::<
                (Seq<char>, Seq<char>),
                Fault,
            >(e@),
        },
{
    match aes_gcm_seal(key, nonce, plaintext.as_bytes(), aad) {
        Ok(ct) => {
            proof {
                encode_utf8_valid_utf8(plaintext@);
                encode_utf8_decode_utf8(plaintext@);
                encoding::law_base64_roundtrip(nonce@);
                encoding::law_base64_roundtrip(ct@);
            }
            Ok(
                (
                    encoding::base64_encode(nonce.as_slice()),
                    encoding::base64_encode(ct.as_slice()),
                ),
            )
        },
        Err(e) => Err(CryptoError::Encrypt(e)),
    }
}

/// Encrypt a plaintext string with the vault key. Returns `(nonce_b64, ct_b64)`. `aad`
/// (e.g. the entry label) is authenticated but not encrypted, binding a ciphertext to
/// its label so entries cannot be swapped on the server.
pub fn encrypt_secret(key: &[u8; KEY_LEN], plaintext: &str, aad: &[u8]) -> (r: Result<
    (String, String),
    CryptoError,
>)
    requires
        sealable(plaintext@, aad@),
    ensures
        match r {
            Ok((n, c)) => {
                &&& exists|nonce: Seq<u8>|
                    nonce.len() == NONCE_LEN && #[trigger] sealed(key@, nonce, plaintext@, aad@)
                        == Ok::<(Seq<char>, Seq<char>), Fault>((n@, c@))
                &&& opened(key@, n@, c@, aad@) == Ok::<Seq<char>, Fault>(plaintext@)
            },
            Err(e) => {
                &&& oversized(encode_utf8(plaintext@).len(), aad@.len())
                &&& e@ == Fault::Encrypt("aead::Error"@)
            },
        },
{
    let nonce = new_nonce();
    encrypt_with_nonce(key, &nonce, plaintext, aad)
}

/// Decrypt a secret previously produced by [`encrypt_secret`].
pub fn decrypt_secret(key: &[u8; KEY_LEN], nonce_b64: &str, ct_b64: &str, aad: &[u8]) -> (r: Result<
    String,
    CryptoError,
>)
    ensures
        match r {
            Ok(s) => opened(key@, nonce_b64@, ct_b64@, aad@) == Ok::<Seq<char>, Fault>(s@),
            Err(e) => opened(key@, nonce_b64@, ct_b64@, aad@) == Err::<Seq<char>, Fault>(e@),
        },
{
    let nonce = match encoding::base64_decoded(nonce_b64) {
        Ok(v) => v,
        Err(e) => return Err(CryptoError::Encoding(e)),
    };
    let ct = match encoding::base64_decoded(ct_b64) {
        Ok(v) => v,
        Err(e) => return Err(CryptoError::Encoding(e)),
    };
    if nonce.len() != NONCE_LEN {
        return Err(CryptoError::Encoding("bad nonce length".to_owned()));
    }
    decrypt_bytes(key, nonce.as_slice(), ct.as_slice(), aad)
}

/// Decrypt bytes; see [`decrypt_secret`].
pub fn decrypt_bytes(key: &[u8; KEY_LEN], nonce: &[u8], ct: &[u8], aad: &[u8]) -> (r: Result<
    String,
    CryptoError,
>)
    requires
        nonce@.len() == NONCE_LEN,
    ensures
        match r {
            Ok(s) => opened_bytes(key@, nonce@, ct@, aad@) == Ok::<Seq<char>, Fault>(s@),
            Err(e) => opened_bytes(key@, nonce@, ct@, aad@) == Err::<Seq<char>, Fault>(e@),
        },
{
    let mut n = [0u8; NONCE_LEN];
    let mut i: usize = 0;
    while i < NONCE_LEN
        invariant
            i <= NONCE_LEN,
            nonce@.len() == NONCE_LEN,
            n@.len() == NONCE_LEN,
            forall|j: int| 0 <= j < i ==> n@[j] == nonce@[j],
        decreases NONCE_LEN - i,
    {
        n[i] = nonce[i];
        i += 1;
    }
    assert(n@ =~= nonce@);
    message_text(aes_gcm_open(key, &n, ct, aad))
}

/// The text of a message, by what came of opening its ciphertext.
pub fn message_text(opened: Result<Vec<u8>, String>) -> (r: Result<String, CryptoError>)
    ensures
        match opened {
            Ok(msg) => match r {
                Ok(s) => valid_utf8(msg@) && s@ == decode_utf8(msg@),
                Err(e) => !valid_utf8(msg@) && e@ == Fault::Encoding(text::utf8_fault(msg@)),
            },
            Err(m) => r matches Err(e) && e@ == Fault::Decrypt(m@),
        },
{
    match opened {
        Ok(msg) => match text::utf8_string(msg) {
            Ok(s) => {
                proof {
                    encode_utf8_decode_utf8(s@);
                }
                Ok(s)
            },
            Err(e) => Err(CryptoError::Encoding(e)),
        },
        Err(e) => Err(CryptoError::Decrypt(e)),
    }
}

// ---------------------------------------------------------------------------
// Login passwords
// ---------------------------------------------------------------------------

/// What the salt of a login secret begins with. It alone is longer than a vault salt.
pub const LOGIN_SALT_PREFIX: &'static str = "ssh-sync login secret of ";

/// The salt of a user's login secret. A device knows it before it has spoken to the
/// server, so that every device gets the same secret from the same password.
pub open spec fn login_salt(username: Seq<char>) -> Seq<u8> {
    encode_utf8(LOGIN_SALT_PREFIX@) + encode_utf8(username)
}

/// What the server gets in place of a user's password: its Argon2id hash, in hexadecimal.
pub open spec fn login_secret_of(username: Seq<char>, password: Seq<char>) -> Result<
    Seq<char>,
    Fault,
> {
    match hashed(password, login_salt(username), KEY_LEN as int) {
        Ok(h) => Ok(encoding::hex_text(h)),
        Err(f) => Err(f),
    }
}

/// The salt of a login secret is never a vault salt: the secret that the server gets and
/// the vault key, which stays on the device, are hashes under different salts.
pub proof fn law_login_salt_is_no_vault_salt(username: Seq<char>, vault_salt: Seq<u8>)
    requires
        vault_salt.len() == SALT_LEN,
    ensures
        login_salt(username) != vault_salt,
{
    lemma_login_salt_len(username);
}

/// The salt of a login secret is longer than a vault salt, and long enough for Argon2.
pub proof fn lemma_login_salt_len(username: Seq<char>)
    ensures
        login_salt(username).len() >= 25,
{
    reveal_strlit("ssh-sync login secret of ");
    assert(is_ascii_chars(LOGIN_SALT_PREFIX@));
    is_ascii_chars_encode_utf8(LOGIN_SALT_PREFIX@);
}

/// What the server gets in place of a user's password. The plaintext stays on the device.
pub fn login_secret(username: &str, password: &str) -> (r: Result<String, CryptoError>)
    ensures
        match r {
            Ok(s) => login_secret_of(username@, password@) == Ok::<Seq<char>, Fault>(s@),
            Err(e) => login_secret_of(username@, password@) == Err::<Seq<char>, Fault>(e@),
        },
{
    let mut salt = vstd::slice::slice_to_vec(LOGIN_SALT_PREFIX.as_bytes());
    let ghost front = salt@;
    let name = username.as_bytes();
    let mut i: usize = 0;
    assert(front + name@.take(0) =~= front);
    while i < name.len()
        invariant
            i <= name@.len(),
            salt@ == front + name@.take(i as int),
        decreases name@.len() - i,
    {
        salt.push(name[i]);
        i += 1;
        assert(salt@ =~= front + name@.take(i as int));
    }
    proof {
        assert(front =~= encode_utf8(LOGIN_SALT_PREFIX@));
        assert(salt@ =~= login_salt(username@));
    }
    match hash_password(password, salt.as_slice(), KEY_LEN) {
        Ok(h) => Ok(encoding::hex_encode(h.as_slice())),
        Err(e) => Err(e),
    }
}

/// What is stored of a login password: the salt and the hash in hexadecimal, with a
/// dollar sign between them.
pub open spec fn login_record(password: Seq<char>, salt: Seq<u8>) -> Result<Seq<char>, Fault> {
    match hashed(password, salt, KEY_LEN as int) {
        Ok(h) => Ok(encoding::hex_text(salt) + seq!['$'] + encoding::hex_text(h)),
        Err(f) => Err(f),
    }
}

/// The two halves of a stored record: what stands before its first dollar sign, and
/// what stands between that and the next.
pub open spec fn record_halves(stored: Seq<char>) -> Option<(Seq<char>, Seq<char>)> {
    match text::split_at_first(stored, '$') {
        None => None,
        Some((a, rest)) => match text::split_at_first(rest, '$') {
            Some((b, _)) => Some((a, b)),
            None => Some((a, rest)),
        },
    }
}

/// Whether a password matches a stored record, or why that cannot be told.
pub open spec fn login_verdict(password: Seq<char>, stored: Seq<char>) -> Result<bool, Fault> {
    match record_halves(stored) {
        None => Err(Fault::Encoding("missing hash"@)),
        Some((salt_hex, hash_hex)) => match encoding::hex_bytes(salt_hex) {
            Err(m) => Err(Fault::Encoding(m)),
            Ok(salt) => match encoding::hex_bytes(hash_hex) {
                Err(m) => Err(Fault::Encoding(m)),
                Ok(expected) => match hashed(password, salt, expected.len() as int) {
                    Err(f) => Err(f),
                    Ok(h) => Ok(h == expected),
                },
            },
        },
    }
}

/// A stored record is accepted for exactly the passwords with the same hash under its
/// salt.
pub proof fn law_login_accepts_by_hash(password: Seq<char>, salt: Seq<u8>, hash: Seq<u8>)
    requires
        hashed(password, salt, hash.len() as int) is Ok,
    ensures
        login_verdict(
            password,
            encoding::hex_text(salt) + seq!['$'] + encoding::hex_text(hash),
        ) == Ok::<bool, Fault>(password_hash(password, salt) == hash),
{
    let a = encoding::hex_text(salt);
    let b = encoding::hex_text(hash);
    encoding::law_hex_text_holds_no_dollar(salt);
    encoding::law_hex_text_holds_no_dollar(hash);
    text::lemma_split_at_first(a, '$', b);
    text::lemma_split_at_first_none(b, '$');
    encoding::law_hex_roundtrip(salt);
    encoding::law_hex_roundtrip(hash);
}

/// Hash a login password with a given salt; see [`hash_login_password`]. The record is
/// accepted for the password.
pub fn hash_login_password_with(password: &str, salt: &[u8]) -> (r: Result<String, CryptoError>)
    requires
        2 * salt@.len() + 2 * KEY_LEN + 1 <= isize::MAX,
    ensures
        match r {
            Ok(s) => {
                &&& login_record(password@, salt@) == Ok::<Seq<char>, Fault>(s@)
                &&& login_verdict(password@, s@) == Ok::<bool, Fault>(true)
            },
            Err(e) => login_record(password@, salt@) == Err::<Seq<char>, Fault>(e@),
        },
{
    match hash_password(password, salt, KEY_LEN) {
        Ok(h) => {
            let mut s = encoding::hex_encode(salt);
            s.push('$');
            let hash = encoding::hex_encode(h.as_slice());
            s.push_str(hash.as_str());
            proof {
                law_login_accepts_by_hash(password@, salt@, h@);
                assert(s@ =~= encoding::hex_text(salt@) + seq!['$'] + encoding::hex_text(h@));
            }
            Ok(s)
        },
        Err(e) => Err(e),
    }
}

/// Hash a login password for server-side storage (separate from the vault key: the
/// server uses this only to verify the user, never to decrypt secrets).
pub fn hash_login_password(password: &str) -> (r: Result<String, CryptoError>)
    ensures
        match r {
            Ok(s) => {
                &&& encode_utf8(password@).len() <= 0xffff_ffff
                &&& exists|salt: Seq<u8>|
                    salt.len() == SALT_LEN && #[trigger] login_record(password@, salt) == Ok::<
                        Seq<char>,
                        Fault,
                    >(s@)
                &&& login_verdict(password@, s@) == Ok::<bool, Fault>(true)
            },
            Err(e) => {
                &&& encode_utf8(password@).len() > 0xffff_ffff
                &&& e@ == Fault::Argon2("password is too long"@)
            },
        },
{
    let salt = new_salt();
    hash_login_password_with(password, salt.as_slice())
}

/// Verify a login password against a `salt$hash` string produced by
/// [`hash_login_password`].
pub fn verify_login_password(password: &str, stored: &str) -> (r: Result<bool, CryptoError>)
    ensures
        match r {
            Ok(b) => login_verdict(password@, stored@) == Ok::<bool, Fault>(b),
            Err(e) => login_verdict(password@, stored@) == Err::<bool, Fault>(e@),
        },
{
    let (salt_hex, rest) = match text::split_once(stored, '$') {
        Some(p) => p,
        None => return Err(CryptoError::Encoding("missing hash".to_owned())),
    };
    let hash_hex = match text::split_once(rest.as_str(), '$') {
        Some((h, _)) => h,
        None => rest,
    };
    let salt = match encoding::hex_decode(salt_hex.as_str()) {
        Ok(v) => v,
        Err(e) => return Err(CryptoError::Encoding(e)),
    };
    let expected = match encoding::hex_decode(hash_hex.as_str()) {
        Ok(v) => v,
        Err(e) => return Err(CryptoError::Encoding(e)),
    };
    hash_matches(hash_password(password, salt.as_slice(), expected.len()), expected.as_slice())
}

/// Whether a password matches a stored hash, by what came of hashing the password.
pub fn hash_matches(hash: Result<Vec<u8>, CryptoError>, expected: &[u8]) -> (r: Result<
    bool,
    CryptoError,
>)
    ensures
        match hash {
            Ok(h) => r matches Ok(b) && b == (h@ == expected@),
            Err(f) => r matches Err(e) && e@ == f@,
        },
{
    match hash {
        Ok(out) => Ok(same_bytes(out.as_slice(), expected)),
        Err(e) => Err(e),
    }
}

fn same_bytes(a: &[u8], b: &[u8]) -> (r: bool)
    ensures
        r == (a@ == b@),
{
    if a.len() != b.len() {
        return false;
    }
    let mut i: usize = 0;
    while i < a.len()
        invariant
            i <= a@.len(),
            a@.len() == b@.len(),
            forall|j: int| 0 <= j < i ==> a@[j] == b@[j],
        decreases a@.len() - i,
    {
        if a[i] != b[i] {
            return false;
        }
        i += 1;
    }
    assert(a@ =~= b@);
    true
}

// ---------------------------------------------------------------------------
// Laws
// ---------------------------------------------------------------------------

/// Passwords are hashed with Argon2id over 64 MiB, in three passes and three lanes, to 32
/// bytes, whether the hash is a vault key or is stored.
pub proof fn law_hash_parameters(password: Seq<char>, salt: Seq<u8>)
    ensures
        hashed(password, salt, 32) matches Ok(h) ==> h == argon2id(
            encode_utf8(password),
            salt,
            65536,
            3,
            3,
            32,
        ),
        hashed(password, salt, 32) is Ok <==> encode_utf8(password).len() <= 0xffff_ffff && 8
            <= salt.len() <= 0xffff_ffff,
{
}

/// A secret is encrypted under the vault key and the nonce, bound to its label, and goes as
/// two base64 texts; one of up to 2^36 bytes is.
pub proof fn law_secrets_are_sealed(
    key: Seq<u8>,
    nonce: Seq<u8>,
    plaintext: Seq<char>,
    aad: Seq<u8>,
)
    ensures
        encode_utf8(plaintext).len() <= 0x10_0000_0000 && aad.len() <= 0x10_0000_0000 ==> sealed(
            key,
            nonce,
            plaintext,
            aad,
        ) == Ok::<(Seq<char>, Seq<char>), Fault>(
            (
                encoding::base64_text(nonce),
                encoding::base64_text(aes_gcm_sealed(key, nonce, encode_utf8(plaintext), aad)),
            ),
        ),
        encode_utf8(plaintext).len() > 0x10_0000_0000 || aad.len() > 0x10_0000_0000 ==> sealed(
            key,
            nonce,
            plaintext,
            aad,
        ) is Err,
{
}

/// What is decrypted is what the cipher gives for the bytes in both texts under the same label;
/// a nonce of another length is refused, and so is what is no text.
pub proof fn law_secrets_are_opened(key: Seq<u8>, nonce: Seq<u8>, ct: Seq<u8>, aad: Seq<u8>)
    ensures
        ({
            let r = opened(key, encoding::base64_text(nonce), encoding::base64_text(ct), aad);
            &&& nonce.len() != 12 ==> r == Err::<Seq<char>, Fault>(
                Fault::Encoding("bad nonce length"@),
            )
            &&& nonce.len() == 12 ==> match aes_gcm_opened(key, nonce, ct, aad) {
                None => r matches Err(Fault::Decrypt(_)),
                Some(msg) => if valid_utf8(msg) {
                    r matches Ok(s) && encode_utf8(s) == msg
                } else {
                    r matches Err(Fault::Encoding(_))
                },
            }
        }),
{
    encoding::law_base64_roundtrip(nonce);
    encoding::law_base64_roundtrip(ct);
    if nonce.len() == 12 {
        match aes_gcm_opened(key, nonce, ct, aad) {
            Some(msg) => {
                if valid_utf8(msg) {
                    decode_utf8_encode_utf8(msg);
                }
            },
            None => {},
        }
    }
}

/// What is no base64 text is refused before anything is decrypted.
pub proof fn law_other_texts_are_not_opened(
    key: Seq<u8>,
    nonce: Seq<char>,
    ct: Seq<char>,
    aad: Seq<u8>,
)
    requires
        (forall|b: Seq<u8>| nonce != #[trigger] encoding::base64_text(b)) || (forall|b: Seq<u8>|
            ct != #[trigger] encoding::base64_text(b)),
    ensures
        opened(key, nonce, ct, aad) matches Err(Fault::Encoding(_)),
{
}

/// What is stored of a password is its salt and its hash in hexadecimal, with a dollar sign
/// between them; a password is accepted for it exactly where it has that hash.
pub proof fn law_login_records(password: Seq<char>, other: Seq<char>, salt: Seq<u8>)
    ensures
        login_record(password, salt) matches Ok(r) ==> {
            let hash = argon2id(encode_utf8(password), salt, 65536, 3, 3, 32);
            &&& hashed(password, salt, 32) == Ok::<Seq<u8>, Fault>(hash)
            &&& r == encoding::hex_text(salt) + seq!['$'] + encoding::hex_text(hash)
            &&& hash.len() == 32 ==> login_verdict(password, r) == Ok::<bool, Fault>(true)
            &&& hash.len() == 32 && hashed(other, salt, 32) is Ok ==> login_verdict(other, r)
                == Ok::<bool, Fault>(hashed(other, salt, 32) == hashed(password, salt, 32))
        },
        hashed(password, salt, 32) is Ok ==> login_record(password, salt) is Ok,
{
    let hash = password_hash(password, salt);
    if hashed(password, salt, 32) is Ok && hash.len() == 32 {
        law_login_accepts_by_hash(password, salt, hash);
        if hashed(other, salt, 32) is Ok {
            law_login_accepts_by_hash(other, salt, hash);
        }
    }
}

/// A record without a dollar sign, or with anything but hexadecimal digits around it, is no
/// record.
pub proof fn law_broken_records(password: Seq<char>, a: Seq<char>, b: Seq<char>)
    requires
        !a.contains('$'),
        !b.contains('$'),
    ensures
        login_verdict(password, a) == Err::<bool, Fault>(Fault::Encoding("missing hash"@)),
        !encoding::is_hex(a) || !encoding::is_hex(b) ==> (login_verdict(
            password,
            a + seq!['$'] + b,
        ) matches Err(Fault::Encoding(_))),
{
    text::lemma_split_at_first_none(a, '$');
    text::lemma_split_at_first_none(b, '$');
    text::lemma_split_at_first(a, '$', b);
}

/// The login secret of a user is the hash of the password under a salt made of the name, in
/// hexadecimal; users of other names have other salts.
pub proof fn law_login_secrets(username: Seq<char>, other: Seq<char>, password: Seq<char>)
    ensures
        login_salt(username) == encode_utf8("ssh-sync login secret of "@) + encode_utf8(username),
        login_secret_of(username, password) matches Ok(s) ==> s == encoding::hex_text(
            argon2id(encode_utf8(password), login_salt(username), 65536, 3, 3, 32),
        ),
        login_salt(username) == login_salt(other) ==> username == other,
{
    if login_salt(username) == login_salt(other) {
        let p = encode_utf8("ssh-sync login secret of "@);
        let n = p.len() as int;
        assert(login_salt(username).skip(n) =~= encode_utf8(username));
        assert(login_salt(other).skip(n) =~= encode_utf8(other));
        encode_utf8_decode_utf8(username);
        encode_utf8_decode_utf8(other);
    }
}

/// What stands behind a second dollar sign of a record does not matter.
pub proof fn law_records_end_at_a_dollar_sign(
    password: Seq<char>,
    a: Seq<char>,
    b: Seq<char>,
    c: Seq<char>,
)
    requires
        !a.contains('$'),
        !b.contains('$'),
    ensures
        login_verdict(password, a + seq!['$'] + (b + seq!['$'] + c)) == login_verdict(
            password,
            a + seq!['$'] + b,
        ),
{
    text::lemma_split_at_first(a, '$', b + seq!['$'] + c);
    text::lemma_split_at_first(b, '$', c);
    text::lemma_split_at_first(a, '$', b);
    text::lemma_split_at_first_none(b, '$');
}

/// An error is told by what was done, and then in the words of what went wrong.
pub proof fn law_errors_are_told(m: Seq<char>)
    ensures
        Fault::Argon2(m).message() == "argon2 derivation failed: "@ + m,
        Fault::Encrypt(m).message() == "aes-gcm encryption failed: "@ + m,
        Fault::Decrypt(m).message() == "aes-gcm decryption failed: "@ + m,
        Fault::Encoding(m).message() == "invalid hex/base64 payload: "@ + m,
{
}

} // verus!
