use etopa::crypto::{argon2_hash, argon2_verify};
use etopa::error::Fail;
use etopa::json_api::{default_check, delete, get, get_str, has_body, is_json, is_post, login, register, to_map};
use etopa::map::StrMap;

#[test]
fn request_checks_in_order() {
    assert!(matches!(is_post(false), Err(Fail::NotPost)));
    assert!(is_post(true).is_ok());
    assert!(matches!(has_body(" \n\t"), Err(Fail::EmptyBody)));
    assert!(has_body(" {} ").is_ok());
    assert!(matches!(is_json(None, "{}"), Err(Fail::NotJsonContentType)));
    assert!(matches!(is_json(Some("text/plain"), "{}"), Err(Fail::NotJsonContentType)));
    assert!(matches!(is_json(Some("application/json"), "{not json"), Err(Fail::NotJson)));
    assert!(matches!(default_check(false, None, ""), Err(Fail::NotPost)));
    assert!(matches!(default_check(true, None, ""), Err(Fail::EmptyBody)));
    assert!(matches!(default_check(true, None, "{}"), Err(Fail::NotJsonContentType)));
    assert_eq!(default_check(true, Some("application/json"), "{}").unwrap().len(), 0);
    assert_eq!(Fail::NotJson.message(), "Request body is not JSON");
    assert_eq!(Fail::NotJsonContentType.message(), "Content-Type is not application/json");
}

#[test]
fn fields_of_a_json_object() {
    let entries = is_json(Some("application/json"), "{\"UserName\":\"alice\",\"password\":\"pw\",\"n\":1}").unwrap();
    assert_eq!(entries.len(), 3);
    let data = to_map(&entries);
    assert_eq!(get_str(&data, "username").unwrap(), "alice");
    assert_eq!(get_str(&data, "password").unwrap(), "pw");
    assert!(get(&data, "n").unwrap().is_none());
    match get_str(&data, "n") {
        Err(e) => assert_eq!(e.message(), "n is not a string"),
        Ok(_) => panic!("a number is no string"),
    }
    match get_str(&data, "missing") {
        Err(e) => assert_eq!(e.message(), "missing required"),
        Ok(_) => panic!("no such field"),
    }
    // a JSON value that is no object has no fields
    assert_eq!(is_json(Some("application/json"), "[1, 2]").unwrap().len(), 0);
}

#[test]
fn account_operations() {
    let mut users: StrMap<String> = StrMap::new();
    register(&mut users, "alice", "pw").unwrap();
    assert!(argon2_verify(users.get("alice").unwrap(), b"pw"));
    assert!(matches!(register(&mut users, "alice", "x"), Err(Fail::UsernameExists)));
    assert!(login(&users, "alice", "pw").unwrap());
    assert!(!login(&users, "alice", "wrong").unwrap());
    assert!(matches!(login(&users, "bob", "pw"), Err(Fail::UsernameMissing)));
    assert!(matches!(delete(&mut users, "alice", "wrong"), Err(Fail::Unauthenticated)));
    assert!(matches!(delete(&mut users, "bob", "pw"), Err(Fail::UsernameMissing)));
    assert_eq!(users.len(), 1);
    delete(&mut users, "alice", "pw").unwrap();
    assert_eq!(users.len(), 0);
    let h = argon2_hash(b"pw", b"somesaltsomesalt").unwrap();
    users.insert("carol".to_string(), h);
    assert!(login(&users, "carol", "pw").unwrap());
}
