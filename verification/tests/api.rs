use etopa::api::{
    answer, authenticate, authorize_at, login, screen_at, change_password, delete_secret, register_user, rename_secret, rename_user,
    request_values, require_fields, route, secret_key, secret_name_key, storage_file_name, update_secret,
    update_sort, Route,
};
use etopa::crypto::argon2_hash;
use etopa::error::Fail;
use etopa::logins::UserLogins;
use etopa::map::StrMap;
use etopa::security::{ApiAction, SecurityManager};

fn map(entries: &[(&str, &str)]) -> StrMap<String> {
    let mut m: StrMap<String> = StrMap::new();
    for (k, v) in entries {
        m.insert(k.to_string(), v.to_string());
    }
    m
}

#[test]
fn routes() {
    assert_eq!(route("/user/login"), Some(Route::UserLogin));
    assert_eq!(route("/user/register"), Some(Route::UserRegister));
    assert_eq!(route("/data/update_sort"), Some(Route::DataUpdateSort));
    assert_eq!(route("/data/get_secure"), Some(Route::DataGetSecure));
    assert_eq!(route("/data/update"), Some(Route::DataUpdate));
    assert_eq!(route("/"), None);
    assert_eq!(route("/user/login/"), None);
    assert_eq!(route("user/login"), None);
}

#[test]
fn secret_keys() {
    assert_eq!(secret_key("abc"), "abc_secret");
    assert_eq!(secret_name_key("abc"), "abc_secret_name");
}

#[test]
fn update_rename_delete_secret() {
    let mut cache = map(&[("other", "x")]);
    update_secret(&mut cache, "h1", "value", "encname");
    assert_eq!(cache.get("h1_secret").unwrap(), "value");
    assert_eq!(cache.get("h1_secret_name").unwrap(), "encname");
    rename_secret(&mut cache, "h1", "h2", "newname").unwrap();
    assert!(cache.get("h1_secret").is_none());
    assert!(cache.get("h1_secret_name").is_none());
    assert_eq!(cache.get("h2_secret").unwrap(), "value");
    assert_eq!(cache.get("h2_secret_name").unwrap(), "newname");
    delete_secret(&mut cache, "h2");
    assert_eq!(cache.len(), 1);
    assert_eq!(cache.get("other").unwrap(), "x");
    update_sort(&mut cache, "a,b");
    assert_eq!(cache.get("secrets_sort").unwrap(), "a,b");
}

#[test]
fn rename_missing_secret() {
    let mut cache = map(&[("other", "x")]);
    assert!(matches!(rename_secret(&mut cache, "h1", "h2", "n"), Err(Fail::EntryMissing)));
    assert_eq!(cache.len(), 1);
    // the value exists, its name does not: the value is gone afterwards
    let mut cache = map(&[("h1_secret", "v")]);
    assert!(matches!(rename_secret(&mut cache, "h1", "h2", "n"), Err(Fail::EntryMissing)));
    assert_eq!(cache.len(), 0);
}

#[test]
fn users() {
    let mut users: StrMap<String> = StrMap::new();
    let hash = argon2_hash(b"pw", b"somesaltsomesalt").unwrap();
    register_user(&mut users, "alice", &hash).unwrap();
    assert!(matches!(register_user(&mut users, "alice", "x"), Err(Fail::UsernameExists)));
    assert!(authenticate(&users, "alice", "pw").is_ok());
    assert!(matches!(authenticate(&users, "alice", "wrong"), Err(Fail::Unauthenticated)));
    assert!(matches!(authenticate(&users, "bob", "pw"), Err(Fail::Unauthenticated)));
    assert!(matches!(change_password(&mut users, "bob", "x"), Err(Fail::UserMissing)));
    let hash2 = argon2_hash(b"pw2", b"somesaltsomesalt").unwrap();
    change_password(&mut users, "alice", &hash2).unwrap();
    assert!(authenticate(&users, "alice", "pw2").is_ok());
    register_user(&mut users, "bob", "h").unwrap();
    assert!(matches!(rename_user(&mut users, "alice", "bob"), Err(Fail::NewUsernameExists)));
    assert!(matches!(rename_user(&mut users, "nobody", "carol"), Err(Fail::UserMissing)));
    rename_user(&mut users, "alice", "carol").unwrap();
    assert!(users.get("alice").is_none());
    assert!(authenticate(&users, "carol", "pw2").is_ok());
}

#[test]
fn storage_file_names() {
    assert_eq!(storage_file_name("data", "alice1").unwrap(), "data/alice1.edb");
    assert!(matches!(storage_file_name("data", ""), Err(Fail::NameNotAlphanumeric)));
    assert!(matches!(storage_file_name("data", "../x"), Err(Fail::NameNotAlphanumeric)));
}

#[test]
fn required_fields_in_order() {
    let headers = map(&[("username", "alice"), ("token", "t"), ("secretname", "n")]);
    let values = require_fields(&headers, &["token", "secretname"]).unwrap();
    assert_eq!(values, vec!["t".to_string(), "n".to_string()]);
    match require_fields(&headers, &["token", "secretvalue", "missing"]) {
        Err(Fail::Required(k)) => assert_eq!(k, "secretvalue"),
        _ => panic!("expected a missing field"),
    }
    assert_eq!(require_fields(&headers, &[]).unwrap().len(), 0);
}

#[test]
fn request_values_check_user_first() {
    let headers = map(&[("username", "alice"), ("token", "t")]);
    let (user, values) = request_values(&headers, &["token"]).unwrap();
    assert_eq!(user, "alice");
    assert_eq!(values, vec!["t".to_string()]);
    match request_values(&map(&[("token", "t")]), &["token"]) {
        Err(Fail::Required(k)) => assert_eq!(k, "username"),
        _ => panic!("expected a missing user name"),
    }
    match request_values(&map(&[("username", "a b")]), &["token"]) {
        Err(Fail::NotAlphanumeric(k)) => assert_eq!(k, "username"),
        _ => panic!("expected an invalid user name"),
    }
    match request_values(&map(&[("username", "alice")]), &["token"]) {
        Err(Fail::Required(k)) => assert_eq!(k, "token"),
        _ => panic!("expected a missing token"),
    }
}

#[test]
fn authorization() {
    let mut logins = UserLogins::new(60);
    logins.add_at("alice", "tok".to_string(), 0);
    let mut security = SecurityManager::new(3600, 1, 60, 1, true);
    let (res, announce) = authorize_at(&logins, &mut security, "ip", "alice", "tok", 0);
    assert!(res.is_ok());
    assert!(!announce);
    assert_eq!(security.failed_logins("ip"), 0);
    let (res, announce) = authorize_at(&logins, &mut security, "ip", "alice", "bad", 0);
    assert!(matches!(res, Err(Fail::Unauthenticated)));
    assert!(!announce);
    assert_eq!(security.failed_logins("ip"), 1);
    let (res, announce) = authorize_at(&logins, &mut security, "ip", "alice", "bad", 0);
    assert!(matches!(res, Err(Fail::Unauthenticated)));
    assert!(announce);
    assert!(!security.check_at("ip", ApiAction::Simple, 0));
}

#[test]
fn test_handler_answers() {
    let empty = String::from_utf8(etopa::api::test(b"")).unwrap();
    assert!(empty.ends_with("{\"error\":\"Empty body\"}\r\n"));
    let hello = String::from_utf8(etopa::api::test(b"x")).unwrap();
    assert!(hello.ends_with("{\"hello\":\"world\"}\r\n"));
}

#[test]
fn login_issues_token_only_for_right_password() {
    let mut users: StrMap<String> = StrMap::new();
    let hash = argon2_hash(b"pw", b"somesaltsomesalt").unwrap();
    register_user(&mut users, "alice", &hash).unwrap();
    let mut logins = UserLogins::new(3600);
    let unknown = login(&users, &mut logins, "bob", "pw").unwrap_err();
    let wrong = login(&users, &mut logins, "alice", "wrong").unwrap_err();
    assert!(matches!(unknown, Fail::Unauthenticated));
    assert_eq!(unknown.message(), wrong.message());
    let token = login(&users, &mut logins, "alice", "pw").unwrap();
    assert_eq!(token.len(), 64);
    assert!(token.chars().all(|c| c.is_ascii_alphanumeric()));
    assert!(logins.valid("alice", &token));
    assert!(!logins.valid("bob", &token));
}

#[test]
fn requests_are_screened_before_their_handler() {
    let mut s = SecurityManager::new(3600, 0, 60, 1, false);
    let body = |b: Vec<u8>| String::from_utf8(b).unwrap();
    let not_found = screen_at("/nothing", &s, "ip", 0).unwrap_err();
    assert!(body(not_found).ends_with("{\"error\":\"handler not found\"}\r\n"));
    assert!(matches!(screen_at("/user/login", &s, "ip", 0), Ok(Route::UserLogin)));
    s.login_fail_at("ip", 0);
    let blocked = screen_at("/user/login", &s, "ip", 0).unwrap_err();
    assert!(body(blocked).ends_with("{\"error\":\"blocked ip address\"}\r\n"));
    // an unknown path is answered so even for a blocked address
    let not_found = screen_at("/nothing", &s, "ip", 0).unwrap_err();
    assert!(body(not_found).ends_with("{\"error\":\"handler not found\"}\r\n"));
    assert_eq!(answer(Ok(b"done".to_vec())), b"done".to_vec());
    let failed = body(answer(Err("unauthenticated".to_string())));
    assert!(failed.ends_with("{\"error\":\"unauthenticated\"}\r\n"));
}
