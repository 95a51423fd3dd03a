use etopa::crypto::{
    argon2_hash, argon2_verify, decrypt, encrypt, hash, hash_key, hash_name, hash_password, hash_pin, random,
    random_an,
};
use etopa::error::Fail;

#[test]
fn sha3_hash() {
    assert_eq!(hash(b"abc"), "3a985da74fe225b2045c172d6bd390bd855f086e3e9d525b46bfe24511431532");
    assert_eq!(hash(b""), "a7ffc6f8bf1ed76651c14756a061d662f580ff4de43b49fa82d80a4b80f8434a");
}

#[test]
fn salted_hashes() {
    assert_eq!(hash_password(b"password"), "cc7bbbc4b1f2e2c74b8ae924b426eeebab6b10791ccb8edb8bb7a5f95e6d98ab");
    assert_eq!(hash_password(b""), "6f16a3354e62fd24072b3cdccd2c6fa4abc3fbb1d8f184b97b0ef74514956bc5");
    assert_eq!(hash_name(b"password"), "e0f01c3851a0274d78f862b230c0c7cef9aebe1222f6aa807553af5539f8e35c");
    assert_eq!(hash_name(b""), "919918875866ae044de85e524e4855c77a21a283a469b0a25b8bc8b81a94fae3");
}

#[test]
fn key_halves_by_length() {
    // even length: first half of the hex digest; odd length: second half
    assert_eq!(hash_key(b"password"), "f1e8f7bb7546ab1fa449d05fae851b65");
    assert_eq!(hash_key(b"abc"), "4ad4e4180ebcac20dba64c616766a25e");
    assert_eq!(hash_key(b""), "d2f428608cd05a726da8865684d1a442");
    assert_eq!(hash_pin(b"password"), "04612042ebd6c19e34966673cca758c2");
    assert_eq!(hash_pin(b"abc"), "c249a10b3ff0a1a8336ab8e2df762070");
    assert_eq!(hash_pin(b""), "c6d96b7bb4aa45e93159224159ffdee7");
}

#[test]
fn encrypt_decrypt_roundtrip() {
    let key = b"12345678901234567890123456789012";
    let enc = encrypt(b"plaintext message", key).unwrap();
    assert_eq!(enc.len(), 12 + 17 + 16);
    assert_eq!(decrypt(&enc, key).unwrap(), "plaintext message");
    let empty = encrypt(b"", key).unwrap();
    assert_eq!(empty.len(), 28);
    assert_eq!(decrypt(&empty, key).unwrap(), "");
}

#[test]
fn decrypt_edge_cases() {
    let key = b"12345678901234567890123456789012";
    assert_eq!(decrypt(b"", key).unwrap(), "{}");
    assert_eq!(decrypt(&[0u8; 12], key).unwrap(), "{}");
    assert!(matches!(decrypt(&[0u8; 40], key), Err(Fail::DecryptFailed)));
    assert!(matches!(decrypt(b"", b"short"), Err(Fail::InvalidKeyLength)));
    assert!(matches!(encrypt(b"x", b"short"), Err(Fail::InvalidKeyLength)));
    let mut enc = encrypt(b"data", key).unwrap();
    let last = enc.len() - 1;
    enc[last] ^= 1;
    assert!(matches!(decrypt(&enc, key), Err(Fail::DecryptFailed)));
}

#[test]
fn decrypt_invalid_utf8() {
    let key = b"12345678901234567890123456789012";
    let enc = encrypt(&[0xff, 0xfe], key).unwrap();
    assert!(matches!(decrypt(&enc, key), Err(Fail::InvalidUtf8 { .. })));
}

#[test]
fn random_values() {
    assert_eq!(random(0).len(), 0);
    assert_eq!(random(16).len(), 16);
    let an = random_an(64);
    assert_eq!(an.len(), 64);
    assert!(an.chars().all(|c| c.is_ascii_alphanumeric()));
    assert_eq!(random_an(0), "");
}

#[test]
fn argon2_roundtrip() {
    let h = argon2_hash(b"password", b"somesaltsomesalt").unwrap();
    assert!(h.starts_with("$argon2id$v=19$m=4096,t=3,p=1$"));
    assert!(argon2_verify(&h, b"password"));
    assert!(!argon2_verify(&h, b"Password"));
    assert_eq!(argon2_hash(b"password", b"somesaltsomesalt").unwrap(), h);
    assert!(!argon2_verify("not an argon2 hash", b"password"));
}

#[test]
fn argon2_short_salt() {
    assert!(matches!(argon2_hash(b"password", b"short"), Err(Fail::Argon2Failed(_))));
}
