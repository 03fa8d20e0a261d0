use oxicloud::webdav_lock::{
    acquire_decision, parse_timeout, refresh_entry, release_decision, second_timeout,
    AcquireDecision, LockEntry, LockInfo, LockScope, LockType, DEFAULT_LOCK_TIMEOUT_SECS,
    MAX_LOCK_TIMEOUT_SECS,
};

fn lock_info(token: &str, timeout: Option<&str>, scope: LockScope) -> LockInfo {
    LockInfo {
        token: token.to_owned(),
        owner: Some("tester".to_owned()),
        depth: "0".to_owned(),
        timeout: timeout.map(str::to_owned),
        scope,
        type_: LockType::Write,
    }
}

fn entry(token: &str, timeout: Option<&str>) -> LockEntry {
    LockEntry {
        info: lock_info(token, timeout, LockScope::Exclusive),
        path: "/file.txt".to_owned(),
        caller_user_id: None,
    }
}

#[test]
fn expiry_uses_per_entry_timeout() {
    let e = entry("t", Some("Second-300"));
    assert_eq!(parse_timeout(e.info.timeout.as_deref()), 300);
    let refreshed = refresh_entry(e, "t", None).unwrap();
    assert_eq!(parse_timeout(refreshed.info.timeout.as_deref()), 300);
}

#[test]
fn expiry_clamps_infinite_and_defaults_none() {
    let infinite = entry("t", Some("Infinite"));
    assert_eq!(parse_timeout(infinite.info.timeout.as_deref()), MAX_LOCK_TIMEOUT_SECS);
    let none = entry("t", None);
    assert_eq!(parse_timeout(none.info.timeout.as_deref()), DEFAULT_LOCK_TIMEOUT_SECS);
    let huge = entry("t", Some("Second-999999999"));
    assert_eq!(parse_timeout(huge.info.timeout.as_deref()), MAX_LOCK_TIMEOUT_SECS);
}

#[test]
fn timeout_header_forms() {
    assert_eq!(parse_timeout(Some("")), DEFAULT_LOCK_TIMEOUT_SECS);
    assert_eq!(parse_timeout(Some("  infinite , Second-5")), MAX_LOCK_TIMEOUT_SECS);
    assert_eq!(parse_timeout(Some("Second-60, Infinite")), 60);
    assert_eq!(parse_timeout(Some("Second- 42 ")), 42);
    assert_eq!(parse_timeout(Some("Second-abc")), DEFAULT_LOCK_TIMEOUT_SECS);
    assert_eq!(parse_timeout(Some("Minute-5")), DEFAULT_LOCK_TIMEOUT_SECS);
    assert_eq!(parse_timeout(Some("Second-+7")), 7);
}

#[test]
fn exclusive_locks_conflict() {
    assert_eq!(acquire_decision(None, &LockScope::Exclusive), AcquireDecision::Insert);
    assert_eq!(
        acquire_decision(Some(&LockScope::Exclusive), &LockScope::Shared),
        AcquireDecision::Conflict
    );
    assert_eq!(
        acquire_decision(Some(&LockScope::Shared), &LockScope::Exclusive),
        AcquireDecision::Conflict
    );
    assert_eq!(
        acquire_decision(Some(&LockScope::Shared), &LockScope::Shared),
        AcquireDecision::JoinShared
    );
}

#[test]
fn refresh_normalizes_timeout() {
    let e = entry("urn:token-1", Some("Infinite"));
    let r = refresh_entry(e.clone(), "urn:token-1", Some("Second-120")).unwrap();
    assert_eq!(r.info.timeout.as_deref(), Some("Second-120"));
    let r = refresh_entry(e.clone(), "urn:token-1", None).unwrap();
    assert_eq!(r.info.timeout.as_deref(), Some("Second-86400"));
    assert!(refresh_entry(e, "urn:unknown", Some("Second-120")).is_none());
    assert_eq!(second_timeout(0), "Second-0");
}

#[test]
fn release_only_removes_matching_token() {
    let t = "urn:token-1".to_string();
    let d = release_decision(true, Some(&t), "urn:token-1");
    assert!(d.remove_lock && d.released && d.forget_token);
    // A secondary shared holder: the first holder's lock stays, nothing is
    // reported removed, the token leaves the index.
    let d = release_decision(true, Some(&t), "urn:token-2");
    assert!(!d.remove_lock && !d.released && d.forget_token);
    // The lock expired while the token index still remembers the token.
    let d = release_decision(true, None, "urn:token-1");
    assert!(!d.remove_lock && !d.released && d.forget_token);
    let d = release_decision(false, Some(&t), "urn:token-1");
    assert!(!d.remove_lock && !d.released && !d.forget_token);
}
