use ssh_sync::crypto::{
    decrypt_bytes, decrypt_secret, derive_vault_key, encrypt_secret, encrypt_with_nonce,
    hash_login_password, hash_login_password_with, hash_matches, login_secret, message_text,
    new_nonce, new_salt, verify_login_password, CryptoError,
};
use ssh_sync::encoding::base64_decoded;

#[test]
fn roundtrip_secret() {
    let key = derive_vault_key("correct horse battery staple", &new_salt()).unwrap();
    let (nonce, ct) = encrypt_secret(&key, "hunter2", b"label-a").unwrap();
    let pt = decrypt_secret(&key, &nonce, &ct, b"label-a").unwrap();
    assert_eq!(pt, "hunter2");
    // AAD tampering must fail.
    assert!(decrypt_secret(&key, &nonce, &ct, b"label-b").is_err());
}

#[test]
fn login_password_roundtrip() {
    let stored = hash_login_password("p@ss").unwrap();
    assert!(verify_login_password("p@ss", &stored).unwrap());
    assert!(!verify_login_password("wrong", &stored).unwrap());
}

#[test]
fn vault_key_is_argon2id() {
    let salt = [7u8; 16];
    let key = derive_vault_key("correct horse", &salt).unwrap();
    let params = argon2::Params::new(64 * 1024, 3, 3, Some(32)).unwrap();
    let argon = argon2::Argon2::new(
        argon2::Algorithm::Argon2id,
        argon2::Version::V0x13,
        params,
    );
    let mut out = [0u8; 32];
    argon
        .hash_password_into("correct horse".as_bytes(), &salt, &mut out)
        .unwrap();
    assert_eq!(key, out);
}

#[test]
fn short_salt_is_refused() {
    let e = derive_vault_key("pw", &[0u8; 7]).unwrap_err();
    assert!(matches!(e, CryptoError::Argon2(_)));
    assert_eq!(e.message(), "argon2 derivation failed: salt is too short");
}

#[test]
fn login_record_has_salt_and_hash() {
    let salt = [0xabu8; 16];
    let stored = hash_login_password_with("secret", &salt).unwrap();
    let key = derive_vault_key("secret", &salt).unwrap();
    let mut expected = "ab".repeat(16);
    expected.push('$');
    for b in key {
        expected.push_str(&format!("{b:02x}"));
    }
    assert_eq!(stored, expected);
    // Upper-case digits and further parts are taken, too.
    let upper = format!("{}$ignored", stored.to_uppercase());
    assert!(verify_login_password("secret", &upper).unwrap());
}

fn verify_error(stored: &str) -> String {
    verify_login_password("pw", stored).unwrap_err().message()
}

#[test]
fn malformed_login_records() {
    let prefix = "invalid hex/base64 payload: ";
    assert_eq!(verify_error("abcd"), format!("{prefix}missing hash"));
    assert_eq!(verify_error("abc$00"), format!("{prefix}Odd number of digits"));
    assert_eq!(
        verify_error("zz$00"),
        format!("{prefix}Invalid character 'z' at position 0")
    );
    assert_eq!(
        verify_error("00$0g"),
        format!("{prefix}Invalid character 'g' at position 1")
    );
    let salt = "00".repeat(16);
    assert_eq!(
        verify_error(&format!("{salt}$00")),
        "argon2 derivation failed: output is too short"
    );
    assert_eq!(
        verify_error(&format!("{salt}${}", "00".repeat(33))),
        "argon2 derivation failed: output is too long"
    );
    assert_eq!(
        verify_error(&format!("00${}", "00".repeat(32))),
        "argon2 derivation failed: salt is too short"
    );
}

#[test]
fn encryption_is_aes_gcm() {
    let key = [1u8; 32];
    let nonce = [2u8; 12];
    let (n, c) = encrypt_with_nonce(&key, &nonce, "hunter2", b"label").unwrap();
    assert_eq!(n, "AgICAgICAgICAgIC");
    let cipher = <aes_gcm::Aes256Gcm as aes_gcm::KeyInit>::new((&key).into());
    let payload = aes_gcm::aead::Payload {
        msg: b"hunter2",
        aad: b"label",
    };
    let expected = aes_gcm::aead::Aead::encrypt(&cipher, (&nonce).into(), payload).unwrap();
    assert_eq!(base64_decoded(&c).unwrap(), expected);
    assert_eq!(decrypt_secret(&key, &n, &c, b"label").unwrap(), "hunter2");
}

#[test]
fn decryption_errors() {
    let key = [1u8; 32];
    let (n, c) = encrypt_with_nonce(&key, &[2u8; 12], "hunter2", b"label").unwrap();
    let e = decrypt_secret(&[9u8; 32], &n, &c, b"label").unwrap_err();
    assert!(matches!(e, CryptoError::Decrypt(_)));
    assert_eq!(e.message(), "aes-gcm decryption failed: aead::Error");
    let e = decrypt_secret(&key, "AgIC", &c, b"label").unwrap_err();
    assert_eq!(e.message(), "invalid hex/base64 payload: bad nonce length");
    let e = decrypt_secret(&key, "?", &c, b"label").unwrap_err();
    assert_eq!(
        e.message(),
        "invalid hex/base64 payload: Invalid symbol 63, offset 0."
    );
    let e = decrypt_secret(&key, &n, "AA=", b"label").unwrap_err();
    assert_eq!(e.message(), "invalid hex/base64 payload: Invalid padding");
    let e = decrypt_secret(&key, &n, "AAAA", b"label").unwrap_err();
    assert_eq!(e.message(), "aes-gcm decryption failed: aead::Error");
}

#[test]
fn plaintext_that_is_no_text() {
    let key = [1u8; 32];
    let nonce = [2u8; 12];
    let cipher = <aes_gcm::Aes256Gcm as aes_gcm::KeyInit>::new((&key).into());
    let payload = aes_gcm::aead::Payload {
        msg: &[0x61, 0xff],
        aad: b"",
    };
    let ct = aes_gcm::aead::Aead::encrypt(&cipher, (&nonce).into(), payload).unwrap();
    let e = decrypt_bytes(&key, &nonce, &ct, b"").unwrap_err();
    assert_eq!(
        e.message(),
        "invalid hex/base64 payload: invalid utf-8 sequence of 1 bytes from index 1"
    );
}

#[test]
fn base64_takes_canonical_texts_only() {
    assert_eq!(base64_decoded("").unwrap(), b"");
    assert_eq!(base64_decoded("aGk=").unwrap(), b"hi");
    assert_eq!(base64_decoded("+/8A").unwrap(), vec![0xfb, 0xff, 0x00]);
    for s in ["aGl=", "aGk", "aGk==", "aG k=", "aGk=aGk=", "====", "ä"] {
        assert!(base64_decoded(s).is_err(), "{s:?}");
    }
}

#[test]
fn random_bytes_differ() {
    assert_ne!(new_salt(), new_salt());
    assert_ne!(new_nonce(), new_nonce());
    assert_ne!(new_salt(), [0u8; 16]);
}

#[test]
fn error_messages() {
    assert_eq!(
        CryptoError::Encrypt("x".into()).message(),
        "aes-gcm encryption failed: x"
    );
    assert_eq!(
        CryptoError::Encoding("x".into()).message(),
        "invalid hex/base64 payload: x"
    );
}

#[test]
fn login_secret_is_argon2id_of_the_password() {
    let params = argon2::Params::new(64 * 1024, 3, 3, Some(32)).unwrap();
    let argon = argon2::Argon2::new(
        argon2::Algorithm::Argon2id,
        argon2::Version::V0x13,
        params,
    );
    let mut out = [0u8; 32];
    argon
        .hash_password_into(
            "correct horse".as_bytes(),
            "ssh-sync login secret of zoë".as_bytes(),
            &mut out,
        )
        .unwrap();
    let secret = login_secret("zoë", "correct horse").unwrap();
    assert_eq!(secret, hex::encode(out));
}

#[test]
fn results_of_the_cipher_and_the_hash() {
    assert_eq!(message_text(Ok(b"text".to_vec())).unwrap(), "text");
    let e = message_text(Ok(vec![0xff])).unwrap_err();
    assert!(matches!(e, CryptoError::Encoding(_)));
    let e = message_text(Err("aead::Error".to_string())).unwrap_err();
    assert_eq!(e.message(), "aes-gcm decryption failed: aead::Error");

    assert!(hash_matches(Ok(vec![1, 2]), &[1, 2]).unwrap());
    assert!(!hash_matches(Ok(vec![1, 2]), &[1, 3]).unwrap());
    assert!(!hash_matches(Ok(vec![1, 2]), &[1]).unwrap());
    let e = hash_matches(Err(CryptoError::Argon2("x".to_string())), &[1]).unwrap_err();
    assert!(matches!(e, CryptoError::Argon2(m) if m == "x"));
}
