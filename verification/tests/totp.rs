use etopa::error::Fail;
use etopa::totp::{Generator, HmacAlgorithm};

const SHA1_SECRET: &str = "GEZDGNBVGY3TQOJQGEZDGNBVGY3TQOJQ";

#[test]
fn rfc6238_sha1() {
    let g = Generator::new(SHA1_SECRET).unwrap();
    assert_eq!(g.token_at(59).unwrap(), "287082");
    assert_eq!(g.token_at(1111111109).unwrap(), "081804");
    let g8 = g.digits(8);
    assert_eq!(g8.token_at(59).unwrap(), "94287082");
}

#[test]
fn rfc6238_other_algorithms() {
    let g = Generator::new("GEZDGNBVGY3TQOJQGEZDGNBVGY3TQOJQGEZDGNBVGY3TQOJQGEZA")
        .unwrap()
        .algorithm(HmacAlgorithm::Sha256)
        .digits(8);
    assert_eq!(g.token_at(59).unwrap(), "46119246");
    let g = Generator::new(
        "GEZDGNBVGY3TQOJQGEZDGNBVGY3TQOJQGEZDGNBVGY3TQOJQGEZDGNBVGY3TQOJQGEZDGNBVGY3TQOJQGEZDGNBVGY3TQOJQGEZDGNA",
    )
    .unwrap()
    .algorithm(HmacAlgorithm::Sha512)
    .digits(8);
    assert_eq!(g.token_at(59).unwrap(), "90693936");
    let g = Generator::new("GEZDGNBVGY3TQOJQGEZDGNBVGY3TQOJQGEZDGNBVGY3TQOJQGEZDGNBVGY3TQOJQGEZDGNBVGY3TQ")
        .unwrap()
        .algorithm(HmacAlgorithm::Sha384)
        .digits(8);
    assert_eq!(g.token_at(59).unwrap(), "12260385");
}

#[test]
fn tokens_are_padded_and_counted_per_window() {
    let g = Generator::new(SHA1_SECRET).unwrap();
    let t = g.token_at(1111111109).unwrap();
    assert!(t.starts_with('0'));
    assert_eq!(g.token_at(30).unwrap(), g.token_at(59).unwrap());
    assert_eq!(g.digits(1).token_at(59).unwrap(), "2");
    assert_eq!(Generator::new(SHA1_SECRET).unwrap().digits(0).token_at(59).unwrap(), "0");
}

#[test]
fn lowercase_secret_is_accepted() {
    let upper = Generator::new("JBSWY3DPEHPK3PXP").unwrap();
    let lower = Generator::new("jbswy3dpehpk3pxp").unwrap();
    assert_eq!(upper.token_at(1737289933).unwrap(), lower.token_at(1737289933).unwrap());
    assert_eq!(upper.token_at(1737289933).unwrap(), "880121");
}

#[test]
fn invalid_secret() {
    assert!(matches!(Generator::new("1"), Err(Fail::InvalidBase32Secret)));
    assert!(matches!(Generator::new("ABC!"), Err(Fail::InvalidBase32Secret)));
}

#[test]
fn current_token_has_six_digits() {
    let g = Generator::new(SHA1_SECRET).unwrap();
    let t = g.token().unwrap();
    assert_eq!(t.len(), 6);
    assert!(t.chars().all(|c| c.is_ascii_digit()));
}
