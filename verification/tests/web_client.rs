use etopa::error::Fail;
use etopa::hex::HexError;
use etopa::map::StrMap;
use etopa::web::{
    argon2_hash, decrypt_hex, encrypt_hex, gen_token, hash_key, hash_name, hash_password, hex_decode, hex_encode,
    parse_storage, serialize_storage,
};

#[test]
fn test_gen_token() {
    let token1 = gen_token("JBSWY3DPEHPK3PXP", 1737289933123);
    assert_eq!("880121", token1);

    let token2 = gen_token("mr6FAijp7noNGd3f4iZZfnUHi5MF2mts", 1737290803000);
    assert_eq!("721002", token2);

    let token3 = gen_token("C7G3JBj2hO", 1737290921789);
    assert_eq!("957794", token3);

    let token4 = gen_token("nysy2x64es", 1737290964999);
    assert_eq!("971040", token4);

    let token5 = gen_token("QWERTZUIOPASDFGHJKLYXCVBNM234567", 1737291065111);
    assert_eq!("505744", token5);
}

#[test]
fn gen_token_invalid_secret() {
    assert_eq!(gen_token("1111", 0), "invalid secret");
    assert_eq!(gen_token("not base32!", 1737289933123), "invalid secret");
}

#[test]
fn gen_token_same_window_same_token() {
    // 1737289920000 .. 1737289949999 ms lie in one 30 s window
    assert_eq!(gen_token("JBSWY3DPEHPK3PXP", 1737289920000), gen_token("JBSWY3DPEHPK3PXP", 1737289949999));
}

#[test]
fn web_hashes() {
    assert_eq!(hash_password("password"), "cc7bbbc4b1f2e2c74b8ae924b426eeebab6b10791ccb8edb8bb7a5f95e6d98ab");
    assert_eq!(hash_name("abc"), "e6bd1f29e93257026aacae1d0c00678bde8fd5600f54d41a2c1feebc0d1b2268");
    assert_eq!(hash_key("password"), "f1e8f7bb7546ab1fa449d05fae851b65");
    assert_eq!(hash_key("abc"), "4ad4e4180ebcac20dba64c616766a25e");
}

#[test]
fn web_hex() {
    assert_eq!(hex_encode(&[0x00, 0xab, 0x10, 0xff]), "00ab10ff");
    assert_eq!(hex_decode("00AB10ff").unwrap(), vec![0x00, 0xab, 0x10, 0xff]);
    assert_eq!(hex_decode("abc").unwrap_err(), HexError::OddLength);
    assert_eq!(hex_decode("zz").unwrap_err(), HexError::InvalidHexCharacter { c: 'z', index: 0 });
}

#[test]
fn encrypt_hex_roundtrip() {
    let key = hash_key("my password");
    let enc = encrypt_hex("secret text", &key).unwrap();
    assert_ne!(enc, "secret text");
    assert!(enc.len() > 24);
    assert_eq!(decrypt_hex(&enc, &key).unwrap(), "secret text");
    // a fresh nonce every time
    let enc2 = encrypt_hex("secret text", &key).unwrap();
    assert_ne!(enc, enc2);
}

#[test]
fn encrypt_hex_errors() {
    assert!(matches!(encrypt_hex("x", "short key"), Err(Fail::InvalidKeyLength)));
    let key = hash_key("k");
    assert!(matches!(decrypt_hex("abc", &key), Err(Fail::Hex(HexError::OddLength))));
    let other = hash_key("other");
    let enc = encrypt_hex("value", &key).unwrap();
    assert!(matches!(decrypt_hex(&enc, &other), Err(Fail::DecryptFailed)));
    // fewer than 13 bytes decrypt to an empty object
    assert_eq!(decrypt_hex("00", &key).unwrap(), "{}");
}

#[test]
fn argon2_hash_of_password_hash() {
    let h = argon2_hash("password");
    assert!(h.starts_with("$argon2id$v=19$m=4096,t=3,p=1$"));
    assert!(etopa::crypto::argon2_verify(&h, hash_password("password").as_bytes()));
    assert!(!etopa::crypto::argon2_verify(&h, hash_password("wrong").as_bytes()));
}

#[test]
fn storage_roundtrip() {
    let key = hash_key("storage password");
    let mut storage: StrMap<String> = StrMap::new();
    storage.insert("github".to_string(), "JBSWY3DPEHPK3PXP".to_string());
    storage.insert("mail".to_string(), "GEZDGNBVGY3TQOJQ".to_string());
    let text = serialize_storage(&storage, "github,mail", &key).unwrap();
    assert_eq!(text.lines().count(), 5);
    let mut bytes = text.clone().into_bytes();
    bytes.extend_from_slice(b"\r\n");
    let parsed = parse_storage(bytes, &key).unwrap();
    assert_eq!(parsed.get("secrets_sort").unwrap(), "github,mail");
    let github = hash_name("github");
    assert_eq!(parsed.get(&format!("{}_secret", github)).unwrap(), "JBSWY3DPEHPK3PXP");
    assert_eq!(parsed.get(&format!("{}_secret_name", github)).unwrap(), "github");
    let mail = hash_name("mail");
    assert_eq!(parsed.get(&format!("{}_secret", mail)).unwrap(), "GEZDGNBVGY3TQOJQ");
    assert_eq!(parsed.get(&format!("{}_secret_name", mail)).unwrap(), "mail");
    assert_eq!(parsed.get("data").unwrap(), &text);
    assert_eq!(parsed.len(), 6);
}

#[test]
fn parse_storage_plain_entries_and_errors() {
    let key = hash_key("k");
    let parsed = parse_storage(b"Name = value\nnoequals\r\n".to_vec(), &key).unwrap();
    assert_eq!(parsed.get("name").unwrap(), "value");
    assert_eq!(parsed.get("data").unwrap(), "Name = value\nnoequals");
    assert!(matches!(parse_storage(vec![0xff, 0xfe, 0x41, 0x0d, 0x0a], &key), Err(Fail::InvalidUtf8 { .. })));
    assert!(matches!(parse_storage(b"x_secret=zz\r\n".to_vec(), &key), Err(Fail::Hex(_))));
}

#[test]
fn serialize_storage_bad_key() {
    let storage: StrMap<String> = StrMap::new();
    assert!(matches!(serialize_storage(&storage, "", "short"), Err(Fail::InvalidKeyLength)));
}
