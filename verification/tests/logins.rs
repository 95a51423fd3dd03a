use etopa::logins::{check_unexpired, check_unexpired_at, UserLogins};

const S: i128 = 1_000_000_000;

#[test]
fn unexpired_within_limit() {
    assert!(check_unexpired_at(0, 60, 59 * S));
    assert!(check_unexpired_at(0, 60, 60 * S - 1));
    assert!(!check_unexpired_at(0, 60, 60 * S));
    assert!(!check_unexpired_at(10 * S, 60, 9 * S));
    assert!(!check_unexpired_at(0, 0, 0));
    // before the UNIX epoch the elapsed time is measured all the same
    assert!(check_unexpired_at(-100 * S, 60, -41 * S));
    assert!(!check_unexpired_at(-100 * S, 60, -40 * S));
    assert!(check_unexpired_at(-10 * S, 60, 10 * S));
    assert!(!check_unexpired_at(i128::MIN, u64::MAX, i128::MAX));
    assert!(!check_unexpired(&0, 0));
    assert!(!check_unexpired(&0, 60));
}

#[test]
fn token_valid_until_expiry() {
    let mut l = UserLogins::new(60);
    let t = l.add_at("alice", "tok".to_string(), 5 * S);
    assert_eq!(t, "tok");
    assert!(l.valid_at("alice", "tok", 5 * S));
    assert!(l.valid_at("alice", "tok", 64 * S));
    assert!(!l.valid_at("alice", "tok", 65 * S));
    assert!(!l.valid_at("alice", "tok", 4 * S));
    assert!(!l.valid_at("alice", "other", 5 * S));
    assert!(!l.valid_at("bob", "tok", 5 * S));
}

#[test]
fn no_token_is_valid_without_lifetime() {
    let mut l = UserLogins::new(0);
    l.add_at("alice", "tok".to_string(), 0);
    assert!(!l.valid_at("alice", "tok", 0));
}

#[test]
fn removed_token_is_invalid() {
    let mut l = UserLogins::new(60);
    l.add_at("alice", "one".to_string(), 0);
    l.add_at("alice", "two".to_string(), 0);
    l.remove_at("alice", "one", S);
    assert!(!l.valid_at("alice", "one", S));
    assert!(l.valid_at("alice", "two", S));
    l.remove_at("nobody", "two", S);
    assert!(l.valid_at("alice", "two", S));
}

#[test]
fn remove_user_and_rename() {
    let mut l = UserLogins::new(60);
    l.add_at("alice", "a".to_string(), 0);
    l.add_at("bob", "b".to_string(), 0);
    l.rename("alice", "carol".to_string());
    assert!(!l.valid_at("alice", "a", 0));
    assert!(l.valid_at("carol", "a", 0));
    l.remove_user("bob");
    assert!(!l.valid_at("bob", "b", 0));
    l.rename("nobody", "dave".to_string());
    assert!(!l.valid_at("dave", "a", 0));
}

#[test]
fn at_most_the_latest_logins_are_kept() {
    let mut l = UserLogins::new(60);
    for i in 0..105 {
        l.add_at("alice", format!("tok{}", i), 0);
    }
    assert!(!l.valid_at("alice", "tok0", 0));
    assert!(!l.valid_at("alice", "tok3", 0));
    assert!(l.valid_at("alice", "tok4", 0));
    assert!(l.valid_at("alice", "tok104", 0));
}

#[test]
fn expired_logins_are_dropped_on_add() {
    let mut l = UserLogins::new(60);
    l.add_at("alice", "old".to_string(), 0);
    l.add_at("alice", "new".to_string(), 100 * S);
    assert!(!l.valid_at("alice", "old", 30 * S));
    assert!(l.valid_at("alice", "new", 100 * S));
}

#[test]
fn random_token_is_valid() {
    let mut l = UserLogins::new(3600);
    let token = l.add("alice");
    assert_eq!(token.len(), 64);
    assert!(token.chars().all(|c| c.is_ascii_alphanumeric()));
    assert!(l.valid("alice", &token));
    l.remove("alice", &token);
    assert!(!l.valid("alice", &token));
}
