use etopa::android::{decrypt, encrypt, generate_token, hash_argon2_hashed};
use etopa::crypto::{argon2_verify, hash_key, hash_password};

#[test]
fn encrypt_then_decrypt() {
    let key = hash_key(b"1234");
    let enc = encrypt(&key, "JBSWY3DPEHPK3PXP");
    assert!(!enc.is_empty());
    assert_eq!(decrypt(&key, &enc), "JBSWY3DPEHPK3PXP");
}

#[test]
fn failures_give_empty_text() {
    assert_eq!(encrypt("short", "data"), "");
    let key = hash_key(b"1234");
    assert_eq!(decrypt(&key, "not hex"), "");
    assert_eq!(decrypt(&key, &"00".repeat(40)), "");
    let other = hash_key(b"4321");
    assert_eq!(decrypt(&other, &encrypt(&key, "x")), "");
}

#[test]
fn tokens() {
    assert_eq!(generate_token("1"), "invalid");
    let t = generate_token("JBSWY3DPEHPK3PXP");
    assert_eq!(t.len(), 6);
    assert!(t.chars().all(|c| c.is_ascii_digit()));
}

#[test]
fn argon2_of_hashed_password() {
    let hashed = hash_password(b"password");
    let h = hash_argon2_hashed(&hashed);
    assert!(h.starts_with("$argon2id$v=19$m=4096,t=3,p=1$"));
    assert!(argon2_verify(&h, hashed.as_bytes()));
    assert!(!argon2_verify(&h, b"password"));
    assert_ne!(hash_argon2_hashed(&hashed), h);
}
