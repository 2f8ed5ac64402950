//! Session store operations and the lifecycle: round trips, sliding
//! renewal, and expiry.

use freya::auth::{resolve_request_session, SessionResolution};
use freya::session::{
    create_session_cookie, create_session_id, delete_session_cookie, random_string,
    resolve_session, resolve_session_at_current_time, AnonymousReason, ResolveOutcome,
    SessionConfig, SessionStore, DEFAULT_RENEWAL_THRESHOLD_SECONDS, DEFAULT_TTL_SECONDS,
};
use freya::users::UserTable;

fn config() -> SessionConfig {
    SessionConfig::default()
}

/// A user table whose user id 2 is the non-admin "user".
fn fixture_users() -> UserTable {
    let mut users = UserTable::new();
    users.create_user("admin", "hash-a", true, 0).unwrap();
    users.create_user("user", "hash-b", false, 0).unwrap();
    users
}

#[test]
fn test_get_session() {
    let users = fixture_users();
    let mut store = SessionStore::new();
    let session_id = "test_session_id";
    let user_id = 2;
    store.create_session(user_id, session_id, 1000).unwrap();

    let r = resolve_request_session(&users, &mut store, Some(session_id), 1000, &config());
    match r {
        SessionResolution::Authenticated { info, .. } => {
            assert_eq!(info.session_id, session_id.to_string());
            assert_eq!(info.user_id, user_id);
            assert_eq!(info.username, "user".to_string());
            assert!(!info.admin);
        }
        _ => panic!("session should resolve"),
    }
}

#[test]
fn test_create_session() {
    let users = fixture_users();
    let mut store = SessionStore::new();
    let session_id = "new_session_id";
    let user_id = 2;
    store.create_session(user_id, session_id, 1000).unwrap();

    let r = resolve_request_session(&users, &mut store, Some(session_id), 1000, &config());
    match r {
        SessionResolution::Authenticated { info, .. } => {
            assert_eq!(info.session_id, session_id.to_string());
            assert_eq!(info.user_id, user_id);
        }
        _ => panic!("session should resolve"),
    }
}

#[test]
fn test_update_session_timestamp() {
    let mut store = SessionStore::new();
    let session_id = "test_session_id";
    store.create_session(2, session_id, 1000).unwrap();
    let before = store.get_session(session_id).unwrap();

    store.update_session_timestamp(session_id, 2000);

    let after = store.get_session(session_id).unwrap();
    assert!(after.last_accessed > before.last_accessed);
}

#[test]
fn test_delete_session() {
    let mut store = SessionStore::new();
    let session_id = "test_session_id";
    store.create_session(2, session_id, 1000).unwrap();

    store.delete_session(session_id);

    assert!(store.get_session(session_id).is_none(), "Session should be deleted");
}

#[test]
fn duplicate_token_is_a_conflict() {
    let mut store = SessionStore::new();
    store.create_session(1, "tok", 0).unwrap();
    assert!(store.create_session(2, "tok", 5).is_err());
    assert_eq!(store.len(), 1);
}

#[test]
fn session_round_trip_within_ttl() {
    // createSession(u) then resolve(token) yields a context with the same
    // user before the TTL elapses.
    let cfg = config();
    let mut store = SessionStore::new();
    let t0: i64 = 1_000_000;
    store.create_session(7, "tok", t0).unwrap();
    let r = resolve_session(&mut store, "tok", t0 + 60, &cfg);
    match r {
        ResolveOutcome::Authenticated {
            user_id, renewed, ..
        } => {
            assert_eq!(user_id, 7);
            assert!(!renewed);
        }
        _ => panic!("expected an authenticated outcome"),
    }
}

#[test]
fn session_round_trip_after_ttl_is_absent() {
    // After the TTL elapses the same token resolves to nothing.
    let cfg = config();
    let mut store = SessionStore::new();
    let t0: i64 = 1_000_000;
    store.create_session(7, "tok", t0).unwrap();
    let t1 = t0 + (DEFAULT_TTL_SECONDS as i64) + 1;
    let r = resolve_session(&mut store, "tok", t1, &cfg);
    assert_eq!(
        r,
        ResolveOutcome::Anonymous {
            reason: AnonymousReason::Expired
        }
    );
}

#[test]
fn expired_session_record_is_deleted() {
    // An expired resolve deletes the record: the token no longer resolves
    // at all.
    let cfg = config();
    let mut store = SessionStore::new();
    store.create_session(7, "tok", 0).unwrap();
    let t1 = (DEFAULT_TTL_SECONDS as i64) + 1;
    resolve_session(&mut store, "tok", t1, &cfg);
    assert_eq!(store.len(), 0);
    assert_eq!(
        resolve_session(&mut store, "tok", t1, &cfg),
        ResolveOutcome::Anonymous {
            reason: AnonymousReason::UnknownToken
        }
    );
}

#[test]
fn sliding_renewal_after_seven_hours() {
    // Created at T, resolved at T+7h: the renewal threshold (6h) has
    // passed, so last_accessed advances and the cookie expiry is
    // refreshed.  Resolved again a minute later: no further write.
    let cfg = config();
    let mut store = SessionStore::new();
    let t0: i64 = 1_000_000;
    store.create_session(3, "tok", t0).unwrap();

    let t1 = t0 + 7 * 3600;
    let r1 = resolve_session(&mut store, "tok", t1, &cfg);
    match r1 {
        ResolveOutcome::Authenticated {
            last_accessed,
            renewed,
            ..
        } => {
            assert!(renewed);
            assert_eq!(last_accessed, t1);
        }
        _ => panic!("expected an authenticated outcome"),
    }
    assert_eq!(store.get_session("tok").unwrap().last_accessed, t1);
    let cookie = create_session_cookie("tok", t1, &cfg);
    assert_eq!(cookie.expires_unix, t1 + DEFAULT_TTL_SECONDS as i64);

    let t2 = t1 + 60;
    let r2 = resolve_session(&mut store, "tok", t2, &cfg);
    match r2 {
        ResolveOutcome::Authenticated {
            last_accessed,
            renewed,
            ..
        } => {
            assert!(!renewed, "already renewed recently");
            assert_eq!(last_accessed, t1);
        }
        _ => panic!("expected an authenticated outcome"),
    }
    assert_eq!(store.get_session("tok").unwrap().last_accessed, t1);
}

#[test]
fn unknown_token_is_anonymous() {
    let cfg = config();
    let mut store = SessionStore::new();
    assert_eq!(
        resolve_session(&mut store, "nope", 50, &cfg),
        ResolveOutcome::Anonymous {
            reason: AnonymousReason::UnknownToken
        }
    );
}

#[test]
fn middleware_clears_cookie_only_for_presented_invalid_tokens() {
    let users = fixture_users();
    let cfg = config();
    let mut store = SessionStore::new();
    match resolve_request_session(&users, &mut store, None, 50, &cfg) {
        SessionResolution::Anonymous { clear_cookie } => assert!(!clear_cookie),
        _ => panic!("expected anonymous"),
    }
    match resolve_request_session(&users, &mut store, Some("bogus"), 50, &cfg) {
        SessionResolution::Anonymous { clear_cookie } => assert!(clear_cookie),
        _ => panic!("expected anonymous"),
    }
}

#[test]
fn session_of_deleted_user_is_anonymous() {
    let users = UserTable::new();
    let cfg = config();
    let mut store = SessionStore::new();
    store.create_session(9, "tok", 10).unwrap();
    match resolve_request_session(&users, &mut store, Some("tok"), 20, &cfg) {
        SessionResolution::Anonymous { clear_cookie } => assert!(clear_cookie),
        _ => panic!("expected anonymous"),
    }
}

#[test]
fn session_id_has_fixed_entropy() {
    let id = create_session_id();
    assert_eq!(id.len(), 32);
}

#[test]
fn test_random_string_length() {
    let length = 10;
    let random_str = random_string(length);
    assert_eq!(random_str.len(), length);
}

#[test]
fn test_random_string_uniqueness() {
    let length = 15;
    let random_str1 = random_string(length);
    let random_str2 = random_string(length);
    assert_ne!(random_str1, random_str2);
}

#[test]
fn cookie_plans_carry_the_policy() {
    let cfg = SessionConfig::from_lifetime_hours(720, true);
    assert_eq!(cfg.ttl_seconds, 720 * 3600);
    assert_eq!(cfg.renewal_threshold_seconds, DEFAULT_RENEWAL_THRESHOLD_SECONDS);
    let cookie = create_session_cookie("tok", 100, &cfg);
    assert_eq!(cookie.name, "freya_session".to_string());
    assert_eq!(cookie.value, "tok".to_string());
    assert!(cookie.http_only);
    assert!(cookie.secure);
    assert!(cookie.same_site_lax);
    assert_eq!(cookie.path, "/".to_string());
    assert_eq!(cookie.expires_unix, 100 + 720 * 3600);
    let clear = delete_session_cookie(&cfg);
    assert_eq!(clear.value, String::new());
    assert_eq!(clear.expires_unix, 0);
}

#[test]
fn resolving_at_the_current_clock_reports_the_time_used() {
    let cfg = config();
    let mut store = SessionStore::new();
    let (now, outcome) = resolve_session_at_current_time(&mut store, "nope", &cfg);
    assert!(now >= 0);
    assert_eq!(
        outcome,
        ResolveOutcome::Anonymous {
            reason: AnonymousReason::UnknownToken
        }
    );
    // A session created at the reported time resolves immediately after.
    store.create_session(5, "tok", now).unwrap();
    let (_, outcome) = resolve_session_at_current_time(&mut store, "tok", &cfg);
    match outcome {
        ResolveOutcome::Authenticated { user_id, .. } => assert_eq!(user_id, 5),
        _ => panic!("expected an authenticated outcome"),
    }
}
