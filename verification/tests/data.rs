use etopa::data::{parse, serialize, storable};
use etopa::map::StrMap;

#[test]
fn parse_lines() {
    let m = parse("a=1\n B = 2 \nnoequals\nc=x=y\n\nA=3");
    assert_eq!(m.len(), 3);
    assert_eq!(m.get("a").unwrap(), "3");
    assert_eq!(m.get("b").unwrap(), "2");
    assert_eq!(m.get("c").unwrap(), "x=y");
    assert!(m.get("noequals").is_none());
}

#[test]
fn parse_empty_and_empty_parts() {
    assert_eq!(parse("").len(), 0);
    let m = parse("=\n=value\nkey=");
    assert_eq!(m.len(), 2);
    assert_eq!(m.get("").unwrap(), "value");
    assert_eq!(m.get("key").unwrap(), "");
}

#[test]
fn serialize_in_key_order() {
    let mut m: StrMap<String> = StrMap::new();
    m.insert("b".to_string(), "2".to_string());
    m.insert("a".to_string(), "1".to_string());
    m.insert("c".to_string(), "x=y".to_string());
    assert_eq!(serialize(&m), "a=1\nb=2\nc=x=y\n");
    assert_eq!(serialize(&StrMap::new()), "");
}

#[test]
fn parse_of_serialize_gives_back_map() {
    let mut m: StrMap<String> = StrMap::new();
    m.insert("users".to_string(), "alice".to_string());
    m.insert("abc_secret".to_string(), "00ff".to_string());
    m.insert("secrets_sort".to_string(), "".to_string());
    assert!(storable(&m));
    let back = parse(&serialize(&m));
    assert_eq!(back.len(), 3);
    assert_eq!(back.get("users").unwrap(), "alice");
    assert_eq!(back.get("abc_secret").unwrap(), "00ff");
    assert_eq!(back.get("secrets_sort").unwrap(), "");
}

#[test]
fn unstorable_maps() {
    let mut upper: StrMap<String> = StrMap::new();
    upper.insert("Key".to_string(), "v".to_string());
    assert!(!storable(&upper));
    let mut newline: StrMap<String> = StrMap::new();
    newline.insert("k".to_string(), "a\nb".to_string());
    assert!(!storable(&newline));
    let mut spaced: StrMap<String> = StrMap::new();
    spaced.insert("k".to_string(), " v".to_string());
    assert!(!storable(&spaced));
}
