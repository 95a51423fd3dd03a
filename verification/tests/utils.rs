use etopa::error::{Argon2Error, Fail};
use etopa::hex::HexError;
use etopa::map::StrMap;
use etopa::utils::{
    bool_json, cors_headers, error_json, get_an, get_str, get_username, is_alphanumeric, json_error, jsonify,
    string_json,
};

fn headers(entries: &[(&str, &str)]) -> StrMap<String> {
    let mut m: StrMap<String> = StrMap::new();
    for (k, v) in entries {
        m.insert(k.to_string(), v.to_string());
    }
    m
}

#[test]
fn alphanumeric() {
    assert!(is_alphanumeric("abcXYZ019"));
    assert!(is_alphanumeric(""));
    assert!(!is_alphanumeric("a b"));
    assert!(!is_alphanumeric("ä"));
    assert!(!is_alphanumeric("a_b"));
}

#[test]
fn header_lookups() {
    let h = headers(&[("token", "abc"), ("username", "alice"), ("bad", "a-b"), ("empty", "")]);
    assert_eq!(get_str(&h, "token").unwrap(), "abc");
    let missing = get_str(&h, "password").unwrap_err();
    assert_eq!(missing.message(), "password required");
    assert_eq!(get_an(&h, "token").unwrap(), "abc");
    assert_eq!(get_an(&h, "bad").unwrap_err().message(), "bad is not alphanumeric");
    assert_eq!(get_an(&h, "empty").unwrap_err().message(), "empty is not alphanumeric");
    assert_eq!(get_username(&h).unwrap(), "alice");
    assert_eq!(get_username(&headers(&[])).unwrap_err().message(), "username required");
}

#[test]
fn error_messages() {
    assert_eq!(Fail::InvalidBase32Secret.message(), "invalid base32 secret");
    assert_eq!(Fail::Unauthenticated.message(), "unauthenticated");
    assert_eq!(Fail::UsernameExists.message(), "username already exists");
    assert_eq!(Fail::NewUsernameExists.message(), "new username already exists");
    assert_eq!(Fail::DecryptFailed.message(), "could not decrypt secure storage data");
    assert_eq!(Fail::Hex(HexError::OddLength).message(), "Odd number of digits");
    assert_eq!(Fail::NameNotAlphanumeric.message(), "name not alphanumeric");
    assert_eq!(Fail::EntryMissing.message(), "");
}

#[test]
fn json_bodies() {
    assert_eq!(error_json("unauthenticated"), "{\"error\":\"unauthenticated\"}");
    for m in ["plain", "quote \" and \\ backslash", "lines\n\r\ttab", "\u{1}\u{1f}\u{8}\u{c}", "ünïcödé"] {
        assert_eq!(error_json(m), format!("{{\"error\":{}}}", json::stringify(m)));
        assert_eq!(string_json("token", m), format!("{{\"token\":{}}}", json::stringify(m)));
    }
    assert_eq!(bool_json("valid", true), "{\"valid\":true}");
    assert_eq!(bool_json("error", false), "{\"error\":false}");
}

#[test]
fn responses() {
    let r = jsonify("{\"a\":1}");
    let text = String::from_utf8(r).unwrap();
    assert!(text.starts_with("HTTP/1.1 200 OK\r\n"));
    assert!(text.contains("content-type: application/json"));
    assert!(text.contains("access-control-allow-origin: *"));
    assert!(text.contains("access-control-allow-headers: *"));
    assert!(text.contains("access-control-allow-methods: *"));
    assert!(text.ends_with("{\"a\":1}\r\n"));
    let e = String::from_utf8(json_error("handler not found")).unwrap();
    assert!(e.ends_with("{\"error\":\"handler not found\"}\r\n"));
    let h = cors_headers();
    assert_eq!(h.len(), 3);
    assert_eq!(h[0], ("access-control-allow-origin".to_string(), "*".to_string()));
}

#[test]
fn response_head_and_length() {
    let text = String::from_utf8(etopa::utils::respond_cors(b"abcdefg", "text/plain")).unwrap();
    assert!(text.starts_with("HTTP/1.1 200 OK\r\nserver: ltheinrich.de/kern\r\ncontent-type: text/plain; charset=utf-8\r\n"));
    assert!(text.ends_with("\r\ncontent-length: 9\r\n\r\nabcdefg\r\n"));
    assert!(text.contains("\r\naccess-control-allow-methods: *"));
    // nothing but the three CORS header lines stands between head and length
    let head = "HTTP/1.1 200 OK\r\nserver: ltheinrich.de/kern\r\ncontent-type: text/plain; charset=utf-8";
    let lines = "\r\naccess-control-allow-origin: *".len()
        + "\r\naccess-control-allow-headers: *".len()
        + "\r\naccess-control-allow-methods: *".len();
    assert_eq!(text.len(), head.len() + lines + "\r\ncontent-length: 9\r\n\r\nabcdefg\r\n".len());
}

#[test]
fn outside_error_texts() {
    let e = etopa::hex::hex_decode(b"0z").unwrap_err();
    assert_eq!(Fail::Hex(e).message(), hex::decode("0z").unwrap_err().to_string());
    let e = etopa::hex::hex_decode(b"\n0").unwrap_err();
    assert_eq!(Fail::Hex(e).message(), hex::decode("\n0").unwrap_err().to_string());
    let key = b"12345678901234567890123456789012";
    for bad in [vec![0x41, 0xff, 0x42], vec![0x41, 0xe2, 0x82], vec![0xc3]] {
        let enc = etopa::crypto::encrypt(&bad, key).unwrap();
        let std_text = String::from_utf8(bad.clone()).unwrap_err().to_string();
        assert_eq!(etopa::crypto::decrypt(&enc, key).unwrap_err().message(), std_text);
    }
    let short = etopa::crypto::argon2_hash(b"pw", b"salt").unwrap_err();
    assert!(matches!(short, Fail::Argon2Failed(Argon2Error::SaltTooShort)));
    assert_eq!(short.message(), argon2::Error::SaltTooShort.to_string());
}
