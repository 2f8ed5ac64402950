//! User records, password hashing, login, and the extractor gates.

use freya::api::{create_user, update_user, CreateUserRequest, UpdateUserRequest};
use freya::auth::{login, logout, AdminSession, Session, SessionInfo};
use freya::password::{hash_password, verify_password};
use freya::response::ApiError;
use freya::session::{SessionConfig, SessionStore};
use freya::users::UserTable;

#[test]
fn test_hash_password() {
    let password = "password123";
    let hashed_password = hash_password(password).unwrap();

    // Ensure the hashed password is not the same as the original password
    assert_ne!(hashed_password, password);

    // Ensure the hashed password is not empty
    assert!(!hashed_password.is_empty());

    // Ensure that different passwords are hashed differently
    let hashed_password2 = hash_password("wrongpassword").unwrap();
    assert_ne!(hashed_password, hashed_password2);
}

#[test]
fn test_verify_password() {
    let password = "password123";
    let hashed_password = hash_password(password).unwrap();

    // Ensure the password is verified correctly
    assert!(verify_password(&hashed_password, password));

    // Ensure a wrong password is not verified
    assert!(!verify_password(&hashed_password, "wrongpassword"));
}

#[test]
fn test_create_user() {
    let mut users = UserTable::new();
    let req = CreateUserRequest {
        name: "  NewUser  ".to_string(),
        password: "pw".to_string(),
        admin: false,
    };
    let resp = create_user(&mut users, &req, 5).unwrap();
    assert_eq!(resp.message, "user-create--success".to_string());
    // The name is stored normalized.
    let stored = users.get_user_with_password("newuser").unwrap();
    assert_eq!(stored.id, 1);
    assert!(!stored.admin);
    assert!(verify_password(stored.password.as_ref().unwrap(), "pw"));
}

#[test]
fn test_get_all_users() {
    let mut users = UserTable::new();
    users.create_user("a", "h1", true, 0).unwrap();
    users.create_user("b", "h2", false, 0).unwrap();
    let all = users.get_all_users();
    assert_eq!(all.len(), 2);
    assert_eq!(all[0].name, "a".to_string());
    assert_eq!(all[1].name, "b".to_string());
    // Password hashes never leave the store on listings.
    assert!(all[0].password.is_none());
    assert!(all[1].password.is_none());
}

#[test]
fn test_get_user() {
    let mut users = UserTable::new();
    users.create_user("someone", "h", false, 3).unwrap();
    let u = users.get_user(1).unwrap();
    assert_eq!(u.id, 1);
    assert_eq!(u.name, "someone".to_string());
    assert!(u.password.is_none());
    assert!(users.get_user(2).is_none());
}

#[test]
fn test_update_user() {
    let mut users = UserTable::new();
    users.create_user("old", "h", false, 0).unwrap();
    users
        .update_user(
            1,
            Some("new".to_string()),
            Some("h2".to_string()),
            Some(true),
        )
        .unwrap();
    let u = users.get_user_with_password("new").unwrap();
    assert_eq!(u.id, 1);
    assert!(u.admin);
    assert_eq!(u.password, Some("h2".to_string()));
    assert!(users.get_user_with_password("old").is_none());
}

#[test]
fn test_update_user_name() {
    let mut users = UserTable::new();
    users.create_user("alice", "h", false, 0).unwrap();
    users.update_user(1, Some("bob".to_string()), None, None).unwrap();
    let u = users.get_user_with_password("bob").unwrap();
    // Only the name changed.
    assert_eq!(u.password, Some("h".to_string()));
    assert!(!u.admin);
}

#[test]
fn test_update_user_password() {
    let mut users = UserTable::new();
    users.create_user("alice", "h", false, 0).unwrap();
    users.update_user(1, None, Some("h2".to_string()), None).unwrap();
    let u = users.get_user_with_password("alice").unwrap();
    assert_eq!(u.password, Some("h2".to_string()));
    assert!(!u.admin);
}

#[test]
fn test_update_user_admin() {
    let mut users = UserTable::new();
    users.create_user("alice", "h", false, 0).unwrap();
    users.update_user(1, None, None, Some(true)).unwrap();
    let u = users.get_user_with_password("alice").unwrap();
    assert!(u.admin);
    assert_eq!(u.password, Some("h".to_string()));
}

#[test]
fn update_user_rejects_taken_name() {
    let mut users = UserTable::new();
    users.create_user("alice", "h", false, 0).unwrap();
    users.create_user("bob", "h", false, 0).unwrap();
    assert!(users.update_user(2, Some("alice".to_string()), None, None).is_err());
}

#[test]
fn create_user_requires_name_and_password() {
    let mut users = UserTable::new();
    let r = create_user(
        &mut users,
        &CreateUserRequest {
            name: "   ".to_string(),
            password: "pw".to_string(),
            admin: false,
        },
        0,
    );
    assert!(matches!(r, Err(ApiError::DataMissing)));
    let r = create_user(
        &mut users,
        &CreateUserRequest {
            name: "x".to_string(),
            password: "".to_string(),
            admin: false,
        },
        0,
    );
    assert!(matches!(r, Err(ApiError::DataMissing)));
}

#[test]
fn update_user_flow_checks_permissions() {
    let mut users = UserTable::new();
    users.create_user("alice", "h", false, 0).unwrap();
    users.create_user("bob", "h", false, 0).unwrap();
    // A non-admin may not edit another user.
    let r = update_user(
        &mut users,
        2,
        false,
        1,
        UpdateUserRequest {
            name: None,
            password: None,
            admin: None,
        },
        0,
    );
    assert!(matches!(r, Err(ApiError::NotAdmin)));
    // They may edit themselves; an admin may edit anyone.
    assert!(update_user(
        &mut users,
        2,
        false,
        2,
        UpdateUserRequest {
            name: None,
            password: None,
            admin: None
        },
        0
    )
    .is_ok());
    assert!(update_user(
        &mut users,
        9,
        true,
        1,
        UpdateUserRequest {
            name: None,
            password: None,
            admin: None
        },
        0
    )
    .is_ok());
}

fn users_with_login() -> UserTable {
    let mut users = UserTable::new();
    let hash = hash_password("hunter2").unwrap();
    users.create_user("alice", &hash, false, 0).unwrap();
    users
}

#[test]
fn login_round_trip() {
    let users = users_with_login();
    let mut store = SessionStore::new();
    let cfg = SessionConfig::default();
    let ok = login(&users, &mut store, false, "  Alice ", "hunter2", 100, &cfg).unwrap();
    assert_eq!(ok.user_id, 1);
    assert_eq!(ok.token.len(), 32);
    assert_eq!(ok.cookie.value, ok.token);
    let rec = store.get_session(&ok.token).unwrap();
    assert_eq!(rec.user_id, 1);
    assert_eq!(rec.last_accessed, 100);
}

#[test]
fn login_rejects_bad_credentials() {
    let users = users_with_login();
    let cfg = SessionConfig::default();
    let mut store = SessionStore::new();
    let r = login(&users, &mut store, false, "alice", "wrong", 100, &cfg);
    assert!(matches!(r, Err(ApiError::InvalidCredentials)));
    let r = login(&users, &mut store, false, "nobody", "hunter2", 100, &cfg);
    assert!(matches!(r, Err(ApiError::InvalidCredentials)));
    let r = login(&users, &mut store, false, "   ", "hunter2", 100, &cfg);
    assert!(matches!(r, Err(ApiError::InvalidCredentials)));
    let r = login(&users, &mut store, false, "alice", "  ", 100, &cfg);
    assert!(matches!(r, Err(ApiError::InvalidCredentials)));
    assert_eq!(store.len(), 0);
}

#[test]
fn login_rejects_logged_in_sessions() {
    let users = users_with_login();
    let cfg = SessionConfig::default();
    let mut store = SessionStore::new();
    let r = login(&users, &mut store, true, "alice", "hunter2", 100, &cfg);
    assert!(matches!(r, Err(ApiError::AlreadyLoggedIn)));
}

#[test]
fn logout_deletes_the_session() {
    let users = users_with_login();
    let cfg = SessionConfig::default();
    let mut store = SessionStore::new();
    let ok = login(&users, &mut store, false, "alice", "hunter2", 100, &cfg).unwrap();
    let clear = logout(&mut store, &ok.token, &cfg);
    assert_eq!(clear.expires_unix, 0);
    assert!(store.get_session(&ok.token).is_none());
}

fn info(admin: bool) -> SessionInfo {
    SessionInfo {
        session_id: "tok".to_string(),
        user_id: 4,
        last_accessed: 0,
        username: "u".to_string(),
        admin,
    }
}

#[test]
fn session_extractor_requires_login() {
    assert!(matches!(
        Session::from_context(None),
        Err(ApiError::NotLoggedIn)
    ));
    let s = Session::from_context(Some(&info(false))).unwrap();
    assert_eq!(s.0.user_id, 4);
}

#[test]
fn admin_extractor_distinguishes_not_admin_from_not_logged_in() {
    assert!(matches!(
        AdminSession::from_context(None),
        Err(ApiError::NotLoggedIn)
    ));
    assert!(matches!(
        AdminSession::from_context(Some(&info(false))),
        Err(ApiError::NotAdmin)
    ));
    assert!(AdminSession::from_context(Some(&info(true))).is_ok());
}

#[test]
fn error_codes_and_status_are_stable() {
    assert_eq!(ApiError::NotLoggedIn.status_code(), 401);
    assert_eq!(ApiError::NotAdmin.status_code(), 401);
    assert_eq!(ApiError::InvalidCredentials.status_code(), 400);
    assert_eq!(ApiError::AlreadyLoggedIn.status_code(), 400);
    assert_eq!(ApiError::UploadMissingData.status_code(), 400);
    assert_eq!(ApiError::UploadInvalidFilePath(String::new()).status_code(), 400);
    assert_eq!(ApiError::InvalidPath.status_code(), 400);
    assert_eq!(ApiError::DataMissing.status_code(), 400);
    assert_eq!(ApiError::CouldNotListDirectory.status_code(), 422);
    assert_eq!(ApiError::FFProbeFailed(String::new()).status_code(), 422);
    assert_eq!(ApiError::FailedToGetCoverImage.status_code(), 422);
    assert_eq!(ApiError::NotFound.status_code(), 404);
    assert_eq!(ApiError::Internal(String::new()).status_code(), 500);

    assert_eq!(
        ApiError::NotAdmin.error_code(),
        "server-authentication--not-admin".to_string()
    );
    assert_eq!(
        ApiError::InvalidCredentials.error_code(),
        "server-authentication--invalid-credentials".to_string()
    );
    assert_eq!(
        ApiError::NotLoggedIn.error_code(),
        "server-authentication--not-logged-in".to_string()
    );
    assert_eq!(
        ApiError::AlreadyLoggedIn.error_code(),
        "server-authentication--already-logged-in".to_string()
    );
    assert_eq!(
        ApiError::UploadMissingData.error_code(),
        "server-upload--missing-data".to_string()
    );
    assert_eq!(
        ApiError::FFProbeFailed("x".to_string()).error_code(),
        "server-fs--ffprobe-failed".to_string()
    );
    let detail_err = ApiError::Internal("context".to_string());
    assert_eq!(detail_err.detail(), Some(&"context".to_string()));
    assert_eq!(ApiError::NotAdmin.detail(), None);
}
