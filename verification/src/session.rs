//! Session records, their store, and the session lifecycle.
//!
//! A session is an opaque high-entropy token mapped to a user and a
//! `last_accessed` timestamp (seconds since the Unix epoch).  Resolution is
//! fail-soft: an unknown or expired token yields an anonymous outcome,
//! never an error.  Expiry (`age > TTL`) deletes the record; a sliding
//! renewal (`age > renewal threshold`) advances `last_accessed` so the
//! client-visible cookie expiry and the server agree.

use vstd::prelude::*;

use crate::response::StorageError;
use crate::text::str_eq;

verus! {

/// Bytes of entropy in a session id.
pub const SESSION_ID_ENTROPY: usize = 32;

/// Default session lifetime: 30 days, in seconds.
pub const DEFAULT_TTL_SECONDS: u64 = 2592000;

/// Default renewal threshold: 6 hours, in seconds.
pub const DEFAULT_RENEWAL_THRESHOLD_SECONDS: u64 = 21600;

/// Immutable lifecycle configuration, constructed once at process start.
#[derive(Clone, Copy)]
pub struct SessionConfig {
    /// Seconds a session stays valid after its last recorded access.
    pub ttl_seconds: u64,
    /// Seconds of inactivity after which a resolve refreshes
    /// `last_accessed` (and the cookie expiry with it).
    pub renewal_threshold_seconds: u64,
    /// Whether session cookies are marked HTTPS-only.
    pub cookie_secure: bool,
}

impl SessionConfig {
    /// Configuration from a lifetime in hours, as the environment supplies
    /// it, with the fixed 6-hour renewal threshold.
    pub fn from_lifetime_hours(hours: u64, cookie_secure: bool) -> (r: SessionConfig)
        requires
            hours <= u64::MAX / 3600,
        ensures
            r.ttl_seconds == hours * 3600,
            r.renewal_threshold_seconds == DEFAULT_RENEWAL_THRESHOLD_SECONDS,
            r.cookie_secure == cookie_secure,
    {
        SessionConfig {
            ttl_seconds: hours * 3600,
            renewal_threshold_seconds: DEFAULT_RENEWAL_THRESHOLD_SECONDS,
            cookie_secure,
        }
    }
}

impl Default for SessionConfig {
    /// The default configuration: 30-day lifetime, 6-hour renewal
    /// threshold, cookies not restricted to HTTPS.
    fn default() -> (r: SessionConfig)
        ensures
            r.ttl_seconds == DEFAULT_TTL_SECONDS,
            r.renewal_threshold_seconds == DEFAULT_RENEWAL_THRESHOLD_SECONDS,
            !r.cookie_secure,
    {
        SessionConfig {
            ttl_seconds: DEFAULT_TTL_SECONDS,
            renewal_threshold_seconds: DEFAULT_RENEWAL_THRESHOLD_SECONDS,
            cookie_secure: false,
        }
    }
}

/// One stored session.
pub struct SessionRecord {
    pub session_id: String,
    pub user_id: i64,
    /// Seconds since the Unix epoch; never negative.
    pub last_accessed: i64,
}

impl Clone for SessionRecord {
    fn clone(&self) -> (r: SessionRecord)
        ensures
            r == *self,
    {
        SessionRecord {
            session_id: self.session_id.clone(),
            user_id: self.user_id,
            last_accessed: self.last_accessed,
        }
    }
}

/// Whether `new` extends `old` by exactly one session row with the given
/// fields.
pub open spec fn pushed_session(
    old_rows: Seq<SessionRecord>,
    new_rows: Seq<SessionRecord>,
    token: Seq<char>,
    user_id: i64,
    now: i64,
) -> bool {
    &&& new_rows.len() == old_rows.len() + 1
    &&& new_rows.subrange(0, old_rows.len() as int) == old_rows
    &&& new_rows.last().session_id@ == token
    &&& new_rows.last().user_id == user_id
    &&& new_rows.last().last_accessed == now
}

/// Whether some record in `rows` carries the token.
pub open spec fn has_token(rows: Seq<SessionRecord>, token: Seq<char>) -> bool {
    exists|i: int| 0 <= i < rows.len() && #[trigger] rows[i].session_id@ == token
}

/// Index of the record carrying the token (unique when the store is
/// well-formed).
pub open spec fn token_idx(rows: Seq<SessionRecord>, token: Seq<char>) -> int {
    choose|i: int| 0 <= i < rows.len() && #[trigger] rows[i].session_id@ == token
}

/// Well-formedness of a run of session rows: tokens are unique and
/// timestamps are non-negative.
pub open spec fn rows_wf(rows: Seq<SessionRecord>) -> bool {
    &&& forall|i: int, j: int|
        0 <= i < j < rows.len() ==> (#[trigger] rows[i].session_id@) != (
        #[trigger] rows[j].session_id@)
    &&& forall|i: int| 0 <= i < rows.len() ==> (#[trigger] rows[i].last_accessed) >= 0
}

/// In a well-formed store, any index carrying the token is the
/// `token_idx`.
pub proof fn lemma_token_idx_is(rows: Seq<SessionRecord>, token: Seq<char>, i: int)
    requires
        rows_wf(rows),
        0 <= i < rows.len(),
        rows[i].session_id@ == token,
    ensures
        has_token(rows, token),
        token_idx(rows, token) == i,
{
    assert(has_token(rows, token));
    let j = token_idx(rows, token);
    if i < j {
        assert(rows[i].session_id@ != rows[j].session_id@);
    } else if j < i {
        assert(rows[j].session_id@ != rows[i].session_id@);
    }
}

/// Generates `length` random alphanumeric characters.
/// Relies on rand's `Alphanumeric.sample_string`, which returns a `String`
/// of exactly `length` random characters.
#[verifier::external_body]
pub fn random_string(length: usize) -> (r: String)
    ensures
        r@.len() == length,
{
    rand::distr::SampleString::sample_string(&rand::distr::Alphanumeric, &mut rand::rng(), length)
}

/// Creates a fresh opaque session id.
pub fn create_session_id() -> (r: String)
    ensures
        r@.len() == SESSION_ID_ENTROPY,
{
    random_string(SESSION_ID_ENTROPY)
}

/// The current time in seconds since the Unix epoch.
/// Relies on time's `OffsetDateTime::now_utc` / `unix_timestamp`; the value
/// depends on the machine's clock, so nothing is promised of it.
#[verifier::external_body]
fn now_unix() -> i64 {
    time::OffsetDateTime::now_utc().unix_timestamp()
}

/// Persistence for session records: pure data access, no policy.
pub struct SessionStore {
    pub records: Vec<SessionRecord>,
}

impl SessionStore {
    /// Tokens unique, timestamps non-negative.
    pub open spec fn wf(self) -> bool {
        rows_wf(self.records@)
    }

    /// An empty store.
    pub fn new() -> (r: SessionStore)
        ensures
            r.wf(),
            r.records@.len() == 0,
    {
        SessionStore { records: Vec::new() }
    }

    /// Index of the record carrying `session_id`, if any.
    fn find(&self, session_id: &str) -> (r: Option<usize>)
        ensures
            match r {
                Some(i) => i < self.records@.len() && self.records@[i as int].session_id@
                    == session_id@,
                None => !has_token(self.records@, session_id@),
            },
    {
        let n = self.records.len();
        let mut i: usize = 0;
        while i < n
            invariant
                i <= n == self.records@.len(),
                forall|k: int|
                    0 <= k < i ==> (#[trigger] self.records@[k].session_id@) != session_id@,
            decreases n - i,
        {
            if str_eq(self.records[i].session_id.as_str(), session_id) {
                return Some(i);
            }
            i = i + 1;
        }
        None
    }

    /// Inserts a new session for `user_id` under `session_id`, last
    /// accessed `now`.  Fails exactly when the token is already taken.
    pub fn create_session(&mut self, user_id: i64, session_id: &str, now: i64) -> (r: Result<
        (),
        StorageError,
    >)
        requires
            old(self).wf(),
            now >= 0,
        ensures
            final(self).wf(),
            if has_token(old(self).records@, session_id@) {
                r is Err && final(self).records@ == old(self).records@
            } else {
                r is Ok && pushed_session(
                    old(self).records@,
                    final(self).records@,
                    session_id@,
                    user_id,
                    now,
                )
            },
            r is Ok <==> !has_token(old(self).records@, session_id@),
    {
        match self.find(session_id) {
            Some(i) => {
                proof {
                    lemma_token_idx_is(self.records@, session_id@, i as int);
                }
                Err(StorageError::Conflict)
            },
            None => {
                let rec = SessionRecord {
                    session_id: session_id.to_owned(),
                    user_id,
                    last_accessed: now,
                };
                self.records.push(rec);
                proof {
                    let rows = self.records@;
                    let orig = old(self).records@;
                    assert(rows.subrange(0, orig.len() as int) =~= orig);
                    assert(forall|i: int, j: int|
                        0 <= i < j < rows.len() ==> (#[trigger] rows[i].session_id@) != (
                        #[trigger] rows[j].session_id@)) by {
                        assert(forall|i: int|
                            0 <= i < rows.len() - 1 ==> (#[trigger] rows[i].session_id@)
                                == orig[i].session_id@);
                    }
                }
                Ok(())
            },
        }
    }

    /// Looks up the session carrying `session_id`.
    pub fn get_session(&self, session_id: &str) -> (r: Option<SessionRecord>)
        requires
            self.wf(),
        ensures
            match r {
                Some(rec) => {
                    &&& has_token(self.records@, session_id@)
                    &&& rec == self.records@[token_idx(self.records@, session_id@)]
                    &&& rec.session_id@ == session_id@
                },
                None => !has_token(self.records@, session_id@),
            },
    {
        match self.find(session_id) {
            Some(i) => {
                proof {
                    lemma_token_idx_is(self.records@, session_id@, i as int);
                }
                Some(self.records[i].clone())
            },
            None => None,
        }
    }

    /// Sets the record's `last_accessed` to `now`; a no-op when the token
    /// is unknown (the row may have been deleted meanwhile).
    pub fn update_session_timestamp(&mut self, session_id: &str, now: i64)
        requires
            old(self).wf(),
            now >= 0,
        ensures
            final(self).wf(),
            if has_token(old(self).records@, session_id@) {
                final(self).records@ == old(self).records@.update(
                    token_idx(old(self).records@, session_id@),
                    SessionRecord {
                        last_accessed: now,
                        ..old(self).records@[token_idx(old(self).records@, session_id@)]
                    },
                )
            } else {
                final(self).records@ == old(self).records@
            },
    {
        match self.find(session_id) {
            Some(i) => {
                proof {
                    lemma_token_idx_is(self.records@, session_id@, i as int);
                }
                self.records[i].last_accessed = now;
                proof {
                    let rows = self.records@;
                    let orig = old(self).records@;
                    assert(forall|a: int, b: int|
                        0 <= a < b < rows.len() ==> (#[trigger] rows[a].session_id@) != (
                        #[trigger] rows[b].session_id@)) by {
                        assert(forall|a: int|
                            0 <= a < rows.len() ==> (#[trigger] rows[a].session_id@)
                                == orig[a].session_id@);
                    }
                }
            },
            None => {},
        }
    }

    /// Removes the record carrying `session_id`; a no-op when the token is
    /// unknown.
    pub fn delete_session(&mut self, session_id: &str)
        requires
            old(self).wf(),
        ensures
            final(self).wf(),
            if has_token(old(self).records@, session_id@) {
                final(self).records@ == old(self).records@.remove(
                    token_idx(old(self).records@, session_id@),
                )
            } else {
                final(self).records@ == old(self).records@
            },
            !has_token(final(self).records@, session_id@),
    {
        match self.find(session_id) {
            Some(i) => {
                proof {
                    lemma_token_idx_is(self.records@, session_id@, i as int);
                }
                self.records.remove(i);
                proof {
                    let rows = self.records@;
                    let orig = old(self).records@;
                    assert forall|a: int, b: int| 0 <= a < b < rows.len() implies (
                    #[trigger] rows[a].session_id@) != (#[trigger] rows[b].session_id@) by {
                        let a2 = if a < i { a } else { a + 1 };
                        let b2 = if b < i { b } else { b + 1 };
                        assert(rows[a].session_id@ == orig[a2].session_id@);
                        assert(rows[b].session_id@ == orig[b2].session_id@);
                    }
                    assert forall|a: int| 0 <= a < rows.len() implies (
                    #[trigger] rows[a].last_accessed) >= 0 by {
                        let a2 = if a < i { a } else { a + 1 };
                        assert(rows[a].last_accessed == orig[a2].last_accessed);
                    }
                    assert forall|a: int| 0 <= a < rows.len() implies (
                    #[trigger] rows[a].session_id@) != session_id@ by {
                        let a2 = if a < i { a } else { a + 1 };
                        assert(rows[a].session_id@ == orig[a2].session_id@);
                        if a2 < i as int {
                            assert(orig[a2].session_id@ != orig[i as int].session_id@);
                        } else {
                            assert(orig[i as int].session_id@ != orig[a2].session_id@);
                        }
                    }
                }
            },
            None => {},
        }
    }

    /// Number of stored sessions.
    pub fn len(&self) -> (n: usize)
        ensures
            n == self.records@.len(),
    {
        self.records.len()
    }
}

/// Why a request stays anonymous.
#[derive(Debug, Clone, Copy, PartialEq, Eq)]
pub enum AnonymousReason {
    /// No stored session carries the presented token.
    UnknownToken,
    /// The session's age exceeded the TTL; its record has been deleted.
    Expired,
}

/// The outcome of resolving a presented token.
#[derive(Debug, Clone, Copy, PartialEq, Eq)]
pub enum ResolveOutcome {
    /// The request proceeds unauthenticated; never an error.
    Anonymous { reason: AnonymousReason },
    /// The token resolved.  `last_accessed` is the stored timestamp after
    /// the resolve; `renewed` says whether this resolve refreshed it (and
    /// the client-visible cookie expiry must be refreshed with it).
    Authenticated { user_id: i64, last_accessed: i64, renewed: bool },
}

/// Whether a session last accessed at `last` is expired at `now`.
pub open spec fn spec_expired(last: i64, now: i64, cfg: SessionConfig) -> bool {
    now - last > cfg.ttl_seconds
}

/// Whether a resolve at `now` must refresh `last_accessed`.
pub open spec fn spec_needs_renewal(last: i64, now: i64, cfg: SessionConfig) -> bool {
    now - last > cfg.renewal_threshold_seconds
}

/// The outcome of resolving `token` at `now` against the rows.
pub open spec fn spec_resolve_outcome(
    rows: Seq<SessionRecord>,
    token: Seq<char>,
    now: i64,
    cfg: SessionConfig,
) -> ResolveOutcome {
    if !has_token(rows, token) {
        ResolveOutcome::Anonymous { reason: AnonymousReason::UnknownToken }
    } else {
        let rec = rows[token_idx(rows, token)];
        if spec_expired(rec.last_accessed, now, cfg) {
            ResolveOutcome::Anonymous { reason: AnonymousReason::Expired }
        } else if spec_needs_renewal(rec.last_accessed, now, cfg) {
            ResolveOutcome::Authenticated { user_id: rec.user_id, last_accessed: now, renewed: true }
        } else {
            ResolveOutcome::Authenticated {
                user_id: rec.user_id,
                last_accessed: rec.last_accessed,
                renewed: false,
            }
        }
    }
}

/// The session rows after resolving `token` at `now`: unchanged, minus an
/// expired record, or with a refreshed timestamp.
pub open spec fn spec_resolve_rows(
    rows: Seq<SessionRecord>,
    token: Seq<char>,
    now: i64,
    cfg: SessionConfig,
) -> Seq<SessionRecord> {
    if !has_token(rows, token) {
        rows
    } else {
        let i = token_idx(rows, token);
        let rec = rows[i];
        if spec_expired(rec.last_accessed, now, cfg) {
            rows.remove(i)
        } else if spec_needs_renewal(rec.last_accessed, now, cfg) {
            rows.update(i, SessionRecord { last_accessed: now, ..rec })
        } else {
            rows
        }
    }
}

/// Resolves a presented token against the store at time `now`.
///
/// Fail-soft: an unknown token is anonymous; an expired one is anonymous
/// and its record is deleted before the request proceeds.  A session idle
/// for longer than the renewal threshold gets `last_accessed` advanced to
/// `now`, and the outcome says so, so the caller refreshes the cookie.
pub fn resolve_session(
    store: &mut SessionStore,
    token: &str,
    now: i64,
    cfg: &SessionConfig,
) -> (r: ResolveOutcome)
    requires
        old(store).wf(),
        now >= 0,
    ensures
        final(store).wf(),
        r == spec_resolve_outcome(old(store).records@, token@, now, *cfg),
        final(store).records@ == spec_resolve_rows(old(store).records@, token@, now, *cfg),
{
    let rec = match store.get_session(token) {
        None => {
            return ResolveOutcome::Anonymous { reason: AnonymousReason::UnknownToken };
        },
        Some(rec) => rec,
    };
    proof {
        let i = token_idx(store.records@, token@);
        assert(store.records@[i].last_accessed >= 0);
    }
    let age: i64 = now - rec.last_accessed;
    if age >= 0 && (age as u64) > cfg.ttl_seconds {
        store.delete_session(token);
        ResolveOutcome::Anonymous { reason: AnonymousReason::Expired }
    } else if age >= 0 && (age as u64) > cfg.renewal_threshold_seconds {
        store.update_session_timestamp(token, now);
        ResolveOutcome::Authenticated { user_id: rec.user_id, last_accessed: now, renewed: true }
    } else {
        ResolveOutcome::Authenticated {
            user_id: rec.user_id,
            last_accessed: rec.last_accessed,
            renewed: false,
        }
    }
}

/// Resolves a token at the machine's current clock reading (clamped to the
/// epoch), and reports the time used alongside the outcome.
pub fn resolve_session_at_current_time(
    store: &mut SessionStore,
    token: &str,
    cfg: &SessionConfig,
) -> (r: (i64, ResolveOutcome))
    requires
        old(store).wf(),
    ensures
        final(store).wf(),
        r.0 >= 0,
        r.1 == spec_resolve_outcome(old(store).records@, token@, r.0, *cfg),
        final(store).records@ == spec_resolve_rows(old(store).records@, token@, r.0, *cfg),
{
    let t = now_unix();
    let now: i64 = if t < 0 {
        0
    } else {
        t
    };
    let out = resolve_session(store, token, now, cfg);
    (now, out)
}

/// Name of the session cookie.
pub fn session_cookie_name() -> (r: &'static str)
    ensures
        r@ == "freya_session"@,
{
    "freya_session"
}

/// Everything the transport layer needs to set a cookie: the library
/// decides the fields, the HTTP layer writes them out.
pub struct CookiePlan {
    pub name: String,
    pub value: String,
    pub path: String,
    pub http_only: bool,
    pub secure: bool,
    pub same_site_lax: bool,
    /// Cookie expiry, seconds since the Unix epoch.
    pub expires_unix: i64,
}

/// The session cookie for a session last accessed at `last_accessed`:
/// expires a TTL later, HttpOnly, SameSite=Lax, path `/`.
pub fn create_session_cookie(
    session_id: &str,
    last_accessed: i64,
    cfg: &SessionConfig,
) -> (r: CookiePlan)
    requires
        0 <= last_accessed,
        last_accessed + cfg.ttl_seconds <= i64::MAX,
    ensures
        r.name@ == "freya_session"@,
        r.value@ == session_id@,
        r.path@ == "/"@,
        r.http_only,
        r.secure == cfg.cookie_secure,
        r.same_site_lax,
        r.expires_unix == last_accessed + cfg.ttl_seconds,
{
    CookiePlan {
        name: String::from_str(session_cookie_name()),
        value: session_id.to_owned(),
        path: String::from_str("/"),
        http_only: true,
        secure: cfg.cookie_secure,
        same_site_lax: true,
        expires_unix: last_accessed + (cfg.ttl_seconds as i64),
    }
}

/// The cookie that clears a session: empty value, already expired.
pub fn delete_session_cookie(cfg: &SessionConfig) -> (r: CookiePlan)
    ensures
        r.name@ == "freya_session"@,
        r.value@.len() == 0,
        r.path@ == "/"@,
        r.http_only,
        r.secure == cfg.cookie_secure,
        r.same_site_lax,
        r.expires_unix == 0,
{
    CookiePlan {
        name: String::from_str(session_cookie_name()),
        value: String::new(),
        path: String::from_str("/"),
        http_only: true,
        secure: cfg.cookie_secure,
        same_site_lax: true,
        expires_unix: 0,
    }
}

/// Round trip: a session created at `t_create` resolves to its user while
/// its age is within the TTL, and resolves to an anonymous outcome — with
/// the record deleted — once the age exceeds the TTL.
pub proof fn lemma_session_round_trip(
    rows: Seq<SessionRecord>,
    rows2: Seq<SessionRecord>,
    token: Seq<char>,
    user_id: i64,
    t_create: i64,
    t_resolve: i64,
    cfg: SessionConfig,
)
    requires
        rows_wf(rows),
        !has_token(rows, token),
        pushed_session(rows, rows2, token, user_id, t_create),
        0 <= t_create <= t_resolve,
    ensures
        rows_wf(rows2),
        t_resolve - t_create <= cfg.ttl_seconds ==> (spec_resolve_outcome(
            rows2,
            token,
            t_resolve,
            cfg,
        ) matches ResolveOutcome::Authenticated { user_id: u, .. } && u == user_id),
        t_resolve - t_create > cfg.ttl_seconds ==> spec_resolve_outcome(rows2, token, t_resolve, cfg)
            == (ResolveOutcome::Anonymous { reason: AnonymousReason::Expired })
            && spec_resolve_rows(rows2, token, t_resolve, cfg) == rows,
{
    let n = rows.len() as int;
    assert forall|a: int| 0 <= a < n implies rows2[a] == rows[a] by {
        assert(rows2.subrange(0, n)[a] == rows2[a]);
    }
    assert forall|a: int, b: int| 0 <= a < b < rows2.len() implies (
    #[trigger] rows2[a].session_id@) != (#[trigger] rows2[b].session_id@) by {
        if b < n {
        } else {
            assert(rows2[b] == rows2.last());
            assert(rows2[a].session_id@ == rows[a].session_id@);
        }
    }
    assert forall|a: int| 0 <= a < rows2.len() implies (#[trigger] rows2[a].last_accessed) >= 0 by {
        if a < n {
        } else {
            assert(rows2[a] == rows2.last());
        }
    }
    lemma_token_idx_is(rows2, token, n);
    if t_resolve - t_create > cfg.ttl_seconds {
        assert(spec_resolve_rows(rows2, token, t_resolve, cfg) =~= rows);
    }
}

/// Sliding renewal: a resolve past the renewal threshold refreshes
/// `last_accessed` (and reports `renewed`, so the cookie expiry is
/// refreshed too); a second resolve soon after leaves the store untouched.
pub proof fn lemma_sliding_renewal(
    rows: Seq<SessionRecord>,
    token: Seq<char>,
    t1: i64,
    t2: i64,
    cfg: SessionConfig,
)
    requires
        rows_wf(rows),
        has_token(rows, token),
        cfg.renewal_threshold_seconds <= cfg.ttl_seconds,
        t1 - rows[token_idx(rows, token)].last_accessed > cfg.renewal_threshold_seconds,
        t1 - rows[token_idx(rows, token)].last_accessed <= cfg.ttl_seconds,
        t1 <= t2,
        t2 - t1 <= cfg.renewal_threshold_seconds,
    ensures
        spec_resolve_outcome(rows, token, t1, cfg) matches ResolveOutcome::Authenticated {
            last_accessed: la,
            renewed: rn,
            ..
        } && la == t1 && rn,
        spec_resolve_rows(rows, token, t1, cfg) == rows.update(
            token_idx(rows, token),
            SessionRecord { last_accessed: t1, ..rows[token_idx(rows, token)] },
        ),
        spec_resolve_outcome(
            spec_resolve_rows(rows, token, t1, cfg),
            token,
            t2,
            cfg,
        ) matches ResolveOutcome::Authenticated { last_accessed: la2, renewed: rn2, .. } && la2 == t1
            && !rn2,
        spec_resolve_rows(spec_resolve_rows(rows, token, t1, cfg), token, t2, cfg)
            == spec_resolve_rows(rows, token, t1, cfg),
{
    let i = token_idx(rows, token);
    assert(0 <= i < rows.len() && rows[i].session_id@ == token);
    let rows1 = spec_resolve_rows(rows, token, t1, cfg);
    assert(rows1 == rows.update(i, SessionRecord { last_accessed: t1, ..rows[i] }));
    assert forall|a: int, b: int| 0 <= a < b < rows1.len() implies (
    #[trigger] rows1[a].session_id@) != (#[trigger] rows1[b].session_id@) by {
        assert(rows1[a].session_id@ == rows[a].session_id@);
        assert(rows1[b].session_id@ == rows[b].session_id@);
    }
    assert forall|a: int| 0 <= a < rows1.len() implies (#[trigger] rows1[a].last_accessed) >= 0
        by {
        if a != i {
            assert(rows1[a] == rows[a]);
        }
    }
    lemma_token_idx_is(rows1, token, i);
}

/// An expired session resolves to an anonymous outcome and its record is
/// deleted: the token no longer resolves at all.
pub proof fn lemma_expired_session_deleted(
    rows: Seq<SessionRecord>,
    token: Seq<char>,
    now: i64,
    cfg: SessionConfig,
)
    requires
        rows_wf(rows),
        has_token(rows, token),
        now - rows[token_idx(rows, token)].last_accessed > cfg.ttl_seconds,
    ensures
        spec_resolve_outcome(rows, token, now, cfg) == (ResolveOutcome::Anonymous {
            reason: AnonymousReason::Expired,
        }),
        spec_resolve_rows(rows, token, now, cfg) == rows.remove(token_idx(rows, token)),
        !has_token(spec_resolve_rows(rows, token, now, cfg), token),
{
    let i = token_idx(rows, token);
    assert(0 <= i < rows.len() && rows[i].session_id@ == token);
    let rows1 = rows.remove(i);
    assert forall|a: int| 0 <= a < rows1.len() implies (#[trigger] rows1[a].session_id@)
        != token by {
        let a2 = if a < i { a } else { a + 1 };
        assert(rows1[a].session_id@ == rows[a2].session_id@);
        if a2 < i {
            assert(rows[a2].session_id@ != rows[i].session_id@);
        } else {
            assert(rows[i].session_id@ != rows[a2].session_id@);
        }
    }
}

} // verus!
