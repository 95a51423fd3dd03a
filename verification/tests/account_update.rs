use etopa::api::{update_step, AccountUpdate, UpdateAction, UpdateStage};
use etopa::logins::UserLogins;
use etopa::map::StrMap;

fn start(new_username: Option<&str>) -> AccountUpdate {
    AccountUpdate {
        username: "alice".to_string(),
        password: "newhash".to_string(),
        new_username: new_username.map(|n| n.to_string()),
        data_dir: "data".to_string(),
        stage: UpdateStage::Begin,
        failure: None,
    }
}

fn users() -> StrMap<String> {
    let mut u: StrMap<String> = StrMap::new();
    u.insert("alice".to_string(), "oldhash".to_string());
    u.insert("bob".to_string(), "bobhash".to_string());
    u
}

#[test]
fn password_only() {
    let mut u = start(None);
    let mut db = users();
    let mut logins = UserLogins::new(60);
    logins.add_at("alice", "tok".to_string(), 0);
    match update_step(&mut u, Ok(()), &mut db, &mut logins) {
        UpdateAction::WriteStorageFile(p) => assert_eq!(p, "data/alice.edb"),
        _ => panic!("the storage file comes first"),
    }
    assert!(matches!(update_step(&mut u, Ok(()), &mut db, &mut logins), UpdateAction::WriteUsers));
    assert_eq!(db.get("alice").unwrap(), "newhash");
    assert!(logins.valid_at("alice", "tok", 0));
    assert!(matches!(update_step(&mut u, Ok(()), &mut db, &mut logins), UpdateAction::Answer(Ok(()))));
    assert!(!logins.valid_at("alice", "tok", 0));
    assert_eq!(u.stage, UpdateStage::Done);
}

#[test]
fn rename_and_failures() {
    let mut u = start(Some("carol"));
    let mut db = users();
    let mut logins = UserLogins::new(60);
    update_step(&mut u, Ok(()), &mut db, &mut logins);
    update_step(&mut u, Ok(()), &mut db, &mut logins);
    match update_step(&mut u, Ok(()), &mut db, &mut logins) {
        UpdateAction::MoveStorageFile(from, to) => {
            assert_eq!(from, "data/alice.edb");
            assert_eq!(to, "data/carol.edb");
        },
        _ => panic!("the storage file moves"),
    }
    assert!(matches!(update_step(&mut u, Ok(()), &mut db, &mut logins), UpdateAction::WriteUsers));
    assert!(db.get("alice").is_none());
    assert_eq!(db.get("carol").unwrap(), "newhash");
    // the write fails: the file moves back and the failure is answered
    match update_step(&mut u, Err("disk full".to_string()), &mut db, &mut logins) {
        UpdateAction::MoveStorageFile(from, to) => {
            assert_eq!(from, "data/carol.edb");
            assert_eq!(to, "data/alice.edb");
        },
        _ => panic!("the storage file moves back"),
    }
    match update_step(&mut u, Ok(()), &mut db, &mut logins) {
        UpdateAction::Answer(Err(m)) => assert_eq!(m, "disk full"),
        _ => panic!("the failure is answered"),
    }
}

#[test]
fn taken_name_and_failed_write() {
    let mut u = start(Some("bob"));
    let mut db = users();
    let mut logins = UserLogins::new(60);
    update_step(&mut u, Ok(()), &mut db, &mut logins);
    update_step(&mut u, Ok(()), &mut db, &mut logins);
    match update_step(&mut u, Ok(()), &mut db, &mut logins) {
        UpdateAction::Answer(Err(m)) => assert_eq!(m, "new username already exists"),
        _ => panic!("the name is taken"),
    }
    let mut u = start(None);
    update_step(&mut u, Ok(()), &mut db, &mut logins);
    match update_step(&mut u, Err("no space".to_string()), &mut db, &mut logins) {
        UpdateAction::Answer(Err(m)) => assert_eq!(m, "no space"),
        _ => panic!("the failed write is answered"),
    }
    let mut missing = AccountUpdate { username: "dave".to_string(), ..start(None) };
    update_step(&mut missing, Ok(()), &mut db, &mut logins);
    match update_step(&mut missing, Ok(()), &mut db, &mut logins) {
        UpdateAction::Answer(Err(m)) => assert_eq!(m, "internal error: user entry does not exist in cache"),
        _ => panic!("the user is missing"),
    }
}
