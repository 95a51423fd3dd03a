use etopa::security::{ApiAction, SecurityManager};

const S: i128 = 1_000_000_000;

#[test]
fn fresh_manager_allows_everything() {
    let s = SecurityManager::new(3600, 2, 60, 1, true);
    assert!(s.check_at("1.2.3.4", ApiAction::Simple, 0));
    assert!(s.check_at("1.2.3.4", ApiAction::Register, 0));
    assert_eq!(s.failed_logins("1.2.3.4"), 0);
}

#[test]
fn too_many_failed_logins_ban() {
    let mut s = SecurityManager::new(3600, 2, 60, 1, true);
    assert!(!s.login_fail_at("ip", 0));
    assert!(!s.login_fail_at("ip", S));
    assert!(s.check_at("ip", ApiAction::Simple, S));
    assert!(s.login_fail_at("ip", 2 * S));
    assert_eq!(s.failed_logins("ip"), 3);
    assert!(!s.check_at("ip", ApiAction::Simple, 2 * S));
    assert!(!s.check_at("ip", ApiAction::Register, 2 * S));
    assert!(!s.check_at("ip", ApiAction::Simple, 3601 * S));
    assert!(s.check_at("ip", ApiAction::Simple, 3602 * S));
    assert!(s.check_at("other", ApiAction::Simple, 2 * S));
}

#[test]
fn ban_is_not_announced_without_log() {
    let mut s = SecurityManager::new(3600, 0, 60, 1, false);
    // a count that starts is never banned, even past a limit of zero
    assert!(!s.login_fail_at("ip", 0));
    assert!(s.check_at("ip", ApiAction::Simple, 0) == false);
    assert!(!s.login_fail_at("ip", S));
    assert!(!s.check_at("ip", ApiAction::Simple, S));
    assert!(!s.check_at("ip", ApiAction::Simple, 3600 * S));
    assert!(s.check_at("ip", ApiAction::Simple, 3601 * S));
}

#[test]
fn restarted_count_does_not_ban() {
    let mut s = SecurityManager::new(3600, 0, 60, 1, true);
    assert!(!s.login_fail_at("ip", 0));
    assert!(!s.login_fail_at("ip", 100 * S));
    assert_eq!(s.failed_logins("ip"), 1);
    assert!(s.login_fail_at("ip", 101 * S));
    assert!(!s.check_at("ip", ApiAction::Simple, 101 * S));
}

#[test]
fn failed_login_count_restarts_after_window() {
    let mut s = SecurityManager::new(3600, 2, 60, 1, true);
    s.login_fail_at("ip", 0);
    s.login_fail_at("ip", S);
    assert_eq!(s.failed_logins("ip"), 2);
    assert!(!s.login_fail_at("ip", 61 * S));
    assert_eq!(s.failed_logins("ip"), 1);
    assert!(s.check_at("ip", ApiAction::Simple, 61 * S));
}

#[test]
fn registrations_are_limited_per_hour() {
    let mut s = SecurityManager::new(3600, 2, 60, 1, true);
    s.registration_at("ip", 0);
    assert_eq!(s.counted_registrations("ip"), 1);
    assert!(s.check_at("ip", ApiAction::Register, 0));
    s.registration_at("ip", S);
    assert_eq!(s.counted_registrations("ip"), 2);
    assert!(!s.check_at("ip", ApiAction::Register, S));
    assert!(s.check_at("ip", ApiAction::Simple, S));
    assert!(s.check_at("ip", ApiAction::Register, 3600 * S));
    s.registration_at("ip", 3600 * S);
    assert_eq!(s.counted_registrations("ip"), 1);
}

#[test]
fn system_clock_variants() {
    let mut s = SecurityManager::new(3600, 5, 60, 1, true);
    assert!(s.check("ip", ApiAction::Simple));
    assert!(!s.login_fail("ip"));
    assert_eq!(s.failed_logins("ip"), 1);
    s.registration("ip");
    assert_eq!(s.counted_registrations("ip"), 1);
}

#[test]
fn n_registrations_within_an_hour() {
    for n in 1..=5u32 {
        let mut s = SecurityManager::new(3600, 3, 60, 3, false);
        for i in 0..n {
            s.registration_at("10.0.0.1", (i as i128) * 100 * S);
        }
        let now = 3599 * S;
        assert_eq!(s.counted_registrations("10.0.0.1"), n);
        assert_eq!(s.check_at("10.0.0.1", ApiAction::Register, now), n <= 3);
        assert!(s.check_at("10.0.0.1", ApiAction::Simple, now));
        assert!(s.check_at("10.0.0.2", ApiAction::Register, now));
    }
}

#[test]
fn n_failed_logins_within_the_window() {
    for n in 1..=5u32 {
        let mut s = SecurityManager::new(3600, 2, 60, 1, false);
        let mut last = 0;
        for i in 0..n {
            last = (i as i128) * S;
            s.login_fail_at("10.0.0.1", last);
        }
        assert_eq!(s.failed_logins("10.0.0.1"), n);
        assert_eq!(s.check_at("10.0.0.1", ApiAction::Simple, last), n <= 2);
        assert_eq!(s.check_at("10.0.0.1", ApiAction::Register, last), !(n >= 2 && n > 2));
        assert!(s.check_at("10.0.0.2", ApiAction::Simple, last));
        assert!(s.check_at("10.0.0.2", ApiAction::Register, last));
    }
}
