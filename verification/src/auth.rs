//! Request authentication: per-request session resolution, the extractors
//! that gate handlers, and the login / logout / account flows.
//!
//! Resolution is fail-soft: a missing, unknown, or expired token leaves the
//! request anonymous and never errors; routes that need a session reject
//! anonymous requests at the extractor with `NotLoggedIn`, and admin-only
//! routes reject non-admins with `NotAdmin`.  The admin flag is read from
//! the user row at resolve time — never cached in the session — so a
//! privilege change takes effect on the next request.

use vstd::prelude::*;

use crate::password::{argon2_verifies, verify_password};
use crate::response::ApiError;
use crate::session::{
    create_session_cookie, create_session_id, has_token, pushed_session, spec_expired,
    spec_needs_renewal, token_idx, CookiePlan, SessionConfig, SessionStore,
};
use crate::text::{lower_of, normalize_username, trim_of, trim_str};
use crate::users::{has_username, username_idx, UserTable};

verus! {

/// The session context attached to an authenticated request: the session
/// row joined with its user.
pub struct SessionInfo {
    pub session_id: String,
    pub user_id: i64,
    pub last_accessed: i64,
    pub username: String,
    pub admin: bool,
}

impl Clone for SessionInfo {
    fn clone(&self) -> (r: SessionInfo)
        ensures
            r == *self,
    {
        SessionInfo {
            session_id: self.session_id.clone(),
            user_id: self.user_id,
            last_accessed: self.last_accessed,
            username: self.username.clone(),
            admin: self.admin,
        }
    }
}

/// What the authentication middleware decides for one request.
pub enum SessionResolution {
    /// The request proceeds unauthenticated.  `clear_cookie` says whether
    /// a presented cookie turned out invalid and must be removed.
    Anonymous { clear_cookie: bool },
    /// The request is authenticated.  When `renewed`, the session's
    /// `last_accessed` was advanced and the cookie expiry must be
    /// refreshed in the response.
    Authenticated { info: SessionInfo, renewed: bool },
}

/// Resolves a request's optional session token, applying expiry and
/// sliding renewal, and joining the user row for the username and the
/// admin flag.
///
/// A missing token, an unknown token, a token whose user no longer
/// exists, and an expired token all leave the request anonymous; only the
/// expired case mutates the store (the record is deleted).
pub fn resolve_request_session(
    users: &UserTable,
    store: &mut SessionStore,
    token: Option<&str>,
    now: i64,
    cfg: &SessionConfig,
) -> (r: SessionResolution)
    requires
        users.wf(),
        old(store).wf(),
        now >= 0,
    ensures
        final(store).wf(),
        match token {
            None => r == (SessionResolution::Anonymous { clear_cookie: false })
                && final(store).records@ == old(store).records@,
            Some(t) => {
                let rows = old(store).records@;
                if !has_token(rows, t@) {
                    r == (SessionResolution::Anonymous { clear_cookie: true })
                        && final(store).records@ == old(store).records@
                } else {
                    let rec = rows[token_idx(rows, t@)];
                    if !users.spec_has_user(rec.user_id) {
                        r == (SessionResolution::Anonymous { clear_cookie: true })
                            && final(store).records@ == old(store).records@
                    } else if spec_expired(rec.last_accessed, now, *cfg) {
                        r == (SessionResolution::Anonymous { clear_cookie: true })
                            && final(store).records@ == rows.remove(token_idx(rows, t@))
                            && !has_token(final(store).records@, t@)
                    } else {
                        let renewed = spec_needs_renewal(rec.last_accessed, now, *cfg);
                        &&& r matches SessionResolution::Authenticated { info, renewed: rn } && {
                            &&& rn == renewed
                            &&& info.session_id@ == t@
                            &&& info.user_id == rec.user_id
                            &&& info.last_accessed == if renewed {
                                now
                            } else {
                                rec.last_accessed
                            }
                            &&& info.username == users.spec_user(rec.user_id).name
                            &&& info.admin == users.spec_user(rec.user_id).admin
                        }
                        &&& final(store).records@ == if renewed {
                            rows.update(
                                token_idx(rows, t@),
                                crate::session::SessionRecord { last_accessed: now, ..rec },
                            )
                        } else {
                            rows
                        }
                    }
                }
            },
        },
{
    let t = match token {
        None => {
            return SessionResolution::Anonymous { clear_cookie: false };
        },
        Some(t) => t,
    };
    let rec = match store.get_session(t) {
        None => {
            return SessionResolution::Anonymous { clear_cookie: true };
        },
        Some(rec) => rec,
    };
    let user = match users.get_user(rec.user_id) {
        None => {
            return SessionResolution::Anonymous { clear_cookie: true };
        },
        Some(u) => u,
    };
    proof {
        let i = token_idx(store.records@, t@);
        assert(store.records@[i].last_accessed >= 0);
    }
    let age: i64 = now - rec.last_accessed;
    if age >= 0 && (age as u64) > cfg.ttl_seconds {
        store.delete_session(t);
        return SessionResolution::Anonymous { clear_cookie: true };
    }
    if age >= 0 && (age as u64) > cfg.renewal_threshold_seconds {
        store.update_session_timestamp(t, now);
        SessionResolution::Authenticated {
            info: SessionInfo {
                session_id: t.to_owned(),
                user_id: rec.user_id,
                last_accessed: now,
                username: user.name,
                admin: user.admin,
            },
            renewed: true,
        }
    } else {
        SessionResolution::Authenticated {
            info: SessionInfo {
                session_id: t.to_owned(),
                user_id: rec.user_id,
                last_accessed: rec.last_accessed,
                username: user.name,
                admin: user.admin,
            },
            renewed: false,
        }
    }
}

/// An authenticated request's session, as handlers that require login
/// extract it.
pub struct Session(pub SessionInfo);

/// An authenticated admin's session, as admin-only handlers extract it.
pub struct AdminSession(pub SessionInfo);

impl Session {
    /// Extracts the session from the request context; an anonymous request
    /// is rejected with `NotLoggedIn`.
    pub fn from_context(ctx: Option<&SessionInfo>) -> (r: Result<Session, ApiError>)
        ensures
            match ctx {
                Some(info) => r matches Ok(s) && s.0 == *info,
                None => r matches Err(e) && e is NotLoggedIn,
            },
    {
        match ctx {
            Some(info) => Ok(Session(info.clone())),
            None => Err(ApiError::NotLoggedIn),
        }
    }
}

impl AdminSession {
    /// Extracts the session and requires the admin flag: an anonymous
    /// request is rejected with `NotLoggedIn`, an authenticated non-admin
    /// with `NotAdmin` — two distinct errors.
    pub fn from_context(ctx: Option<&SessionInfo>) -> (r: Result<AdminSession, ApiError>)
        ensures
            match ctx {
                Some(info) => {
                    if info.admin {
                        r matches Ok(s) && s.0 == *info
                    } else {
                        r matches Err(e) && e is NotAdmin
                    }
                },
                None => r matches Err(e) && e is NotLoggedIn,
            },
    {
        match Session::from_context(ctx) {
            Ok(session) => {
                if !session.0.admin {
                    Err(ApiError::NotAdmin)
                } else {
                    Ok(AdminSession(session.0))
                }
            },
            Err(e) => Err(e),
        }
    }
}

/// What a successful login hands back: the fresh token and the cookie to
/// set.
pub struct LoginOk {
    pub token: String,
    pub cookie: CookiePlan,
    pub user_id: i64,
}

/// Logs a user in: rejects a request that already carries a session,
/// normalizes the login name, checks the password against the stored
/// Argon2 hash, and creates a session under a fresh random token.
///
/// Errors: `AlreadyLoggedIn` when a session was presented;
/// `InvalidCredentials` when the normalized name or the trimmed password
/// is empty, the user is unknown, or the password does not verify;
/// `Internal` only when the fresh token collides with a stored one.
pub fn login(
    users: &UserTable,
    store: &mut SessionStore,
    logged_in: bool,
    username: &str,
    password: &str,
    now: i64,
    cfg: &SessionConfig,
) -> (r: Result<LoginOk, ApiError>)
    requires
        users.wf(),
        old(store).wf(),
        0 <= now,
        now + cfg.ttl_seconds <= i64::MAX,
    ensures
        final(store).wf(),
        r is Err ==> final(store).records@ == old(store).records@,
        logged_in ==> (r matches Err(e) && e is AlreadyLoggedIn),
        !logged_in && (lower_of(trim_of(username@)).len() == 0 || trim_of(password@).len() == 0)
            ==> (r matches Err(e) && e is InvalidCredentials),
        !logged_in && lower_of(trim_of(username@)).len() != 0 && trim_of(password@).len() != 0
            && !has_username(users.users@, lower_of(trim_of(username@))) ==> (r matches Err(e)
            && e is InvalidCredentials),
        ({
            let normalized = lower_of(trim_of(username@));
            let stored = users.users@[username_idx(users.users@, normalized)];
            !logged_in && normalized.len() != 0 && trim_of(password@).len() != 0 && has_username(
                users.users@,
                normalized,
            ) && !argon2_verifies(stored.password->0@, password@) ==> (r matches Err(e)
                && e is InvalidCredentials)
        }),
        ({
            let normalized = lower_of(trim_of(username@));
            let stored = users.users@[username_idx(users.users@, normalized)];
            r matches Ok(l) ==> {
                &&& !logged_in
                &&& has_username(users.users@, normalized)
                &&& argon2_verifies(stored.password->0@, password@)
                &&& l.user_id == stored.id
                &&& l.token@.len() == crate::session::SESSION_ID_ENTROPY
                &&& pushed_session(
                    old(store).records@,
                    final(store).records@,
                    l.token@,
                    stored.id,
                    now,
                )
                &&& l.cookie.value@ == l.token@
                &&& l.cookie.expires_unix == now + cfg.ttl_seconds
                &&& l.cookie.http_only
                &&& l.cookie.secure == cfg.cookie_secure
            }
        }),
        ({
            let normalized = lower_of(trim_of(username@));
            let stored = users.users@[username_idx(users.users@, normalized)];
            !logged_in && normalized.len() != 0 && trim_of(password@).len() != 0 && has_username(
                users.users@,
                normalized,
            ) && argon2_verifies(stored.password->0@, password@) ==> (r is Ok || (
            r matches Err(e) && e is Internal))
        }),
{
    if logged_in {
        return Err(ApiError::AlreadyLoggedIn);
    }
    let normalized = normalize_username(username);
    let trimmed_password = trim_str(password);
    if normalized.as_str().is_empty() || trimmed_password.is_empty() {
        return Err(ApiError::InvalidCredentials);
    }
    let user = match users.get_user_with_password(normalized.as_str()) {
        None => {
            return Err(ApiError::InvalidCredentials);
        },
        Some(u) => u,
    };
    let hash = match &user.password {
        Some(h) => h,
        None => {
            proof {
                let i = username_idx(users.users@, normalized@);
                assert(users.users@[i].password is Some);
            }
            vstd::pervasive::unreached()
        },
    };
    if !verify_password(hash.as_str(), password) {
        return Err(ApiError::InvalidCredentials);
    }
    let session_id = create_session_id();
    match store.create_session(user.id, session_id.as_str(), now) {
        Ok(()) => {},
        Err(_) => {
            return Err(ApiError::Internal(String::from_str("failed to store the new session")));
        },
    }
    let cookie = create_session_cookie(session_id.as_str(), now, cfg);
    Ok(LoginOk { token: session_id, cookie, user_id: user.id })
}

/// Logs a session out: deletes its record and hands back the clearing
/// cookie.
pub fn logout(store: &mut SessionStore, session_id: &str, cfg: &SessionConfig) -> (r: CookiePlan)
    requires
        old(store).wf(),
    ensures
        final(store).wf(),
        !has_token(final(store).records@, session_id@),
        has_token(old(store).records@, session_id@) ==> final(store).records@ == old(
            store,
        ).records@.remove(token_idx(old(store).records@, session_id@)),
        !has_token(old(store).records@, session_id@) ==> final(store).records@ == old(
            store,
        ).records@,
        r.value@.len() == 0,
        r.expires_unix == 0,
{
    store.delete_session(session_id);
    crate::session::delete_session_cookie(cfg)
}

} // verus!
