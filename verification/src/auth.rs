//! Passwords, sessions and the limit on failed logins.
use argon2::password_hash::{PasswordHash, PasswordVerifier};
use rand::Rng;
use subtle::ConstantTimeEq;
use vstd::prelude::*;

use vstd::utf8::{encode_utf8, encode_utf8_decode_utf8};

use crate::digest::{sha256_hex, sha256_text};
use crate::line_laws::lemma_trim_is;
use crate::split::{split, split_chars, split_once, split_once_text};
use crate::strmap::{
    distinct_keys, law_lookup_put, law_put_keeps_distinct, lemma_place, lookup, place, put, without,
    StrMap,
};
use crate::text::{
    find_part, is_alnum, is_text, is_white, lemma_find_is, lemma_find_part, lower_chars,
    lower_text, lowered, push_text, rows, same_text, stands_at, starts_with, starts_with_text,
    to_chars, to_text, trim, trim_chars,
};

verus! {

pub const SESSION_COOKIE: &'static str = "ass_subset_session";

/// One second in nanoseconds: points in time are nanoseconds on one clock.
pub const SECOND: u64 = 1_000_000_000;

/// How long a session lasts: a day.
pub const SESSION_TTL: u64 = 86_400_000_000_000;

/// In which time failed logins count together: a minute.
pub const LOGIN_WINDOW: u64 = 60_000_000_000;

/// How long logins are refused: a minute.
pub const LOGIN_BLOCK: u64 = 60_000_000_000;

/// After how many failed logins further ones are refused.
pub const LOGIN_MAX_FAILURES: u32 = 5;

/// After what time failed logins are forgotten: a quarter of an hour.
pub const LOGIN_ENTRY_TTL: u64 = 900_000_000_000;

/// The last point in time from which times can be reckoned.
pub const LAST_TIME: u64 = 18_000_000_000_000_000_000;

// ---------------------------------------------------------------------------
// Passwords
// ---------------------------------------------------------------------------
/// Whether a PHC string of the Argon2 family is well formed and made of the
/// password.
pub uninterp spec fn argon2_accepts(hash: Seq<char>, password: Seq<u8>) -> bool;

/// `PasswordHash::new` and `PasswordVerifier::verify_password` of
/// `Argon2::default()`: whether the text is a PHC string that the password
/// belongs to. What that is depends on the two alone.
#[verifier::external_body]
fn argon2_verify(hash: &str, password: &[u8]) -> (r: bool)
    ensures
        r == argon2_accepts(hash@, password@),
{
    match PasswordHash::new(hash) {
        Ok(parsed) => argon2::Argon2::default().verify_password(password, &parsed).is_ok(),
        Err(_) => false,
    }
}

/// `ConstantTimeEq::ct_eq` of the `subtle` crate on byte slices: whether the two
/// are the same bytes. How long that takes is not stated.
#[verifier::external_body]
fn constant_time_eq(left: &[u8], right: &[u8]) -> (r: bool)
    ensures
        r == (left@ == right@),
{
    left.ct_eq(right).into()
}

/// Whether the password is the right one: the plain one where it is set, or
/// else one that belongs to the digest.
pub open spec fn accepts(
    plain: Option<Seq<char>>,
    hash: Option<Seq<char>>,
    password: Seq<char>,
) -> bool {
    match (plain, hash) {
        (Some(p), _) => p == password,
        (None, Some(h)) => if starts_with(h, "$argon2"@) {
            argon2_accepts(h, encode_utf8(password))
        } else if starts_with(h, "sha256:"@) {
            lowered(trim(h.skip("sha256:"@.len() as int))) == lowered(
                sha256_text(encode_utf8(password)),
            )
        } else {
            false
        },
        _ => false,
    }
}

/// Texts with the same UTF-8 form are the same.
pub proof fn lemma_utf8_injective(a: Seq<char>, b: Seq<char>)
    requires
        encode_utf8(a) == encode_utf8(b),
    ensures
        a == b,
{
    encode_utf8_decode_utf8(a);
    encode_utf8_decode_utf8(b);
}

fn same_secret(a: &str, b: &str) -> (r: bool)
    ensures
        r == (a@ == b@),
{
    let r = constant_time_eq(a.as_bytes(), b.as_bytes());
    proof {
        if r {
            lemma_utf8_injective(a@, b@);
        }
    }
    r
}

pub open spec fn str_option(s: Option<&str>) -> Option<Seq<char>> {
    match s {
        Some(t) => Some(t@),
        None => None,
    }
}

pub fn verify_password_value(plain: Option<&str>, hash: Option<&str>, password: &str) -> (r: bool)
    ensures
        r == accepts(str_option(plain), str_option(hash), password@),
{
    if let Some(p) = plain {
        return same_secret(p, password);
    }
    let h = match hash {
        Some(h) => h,
        None => {
            return false;
        },
    };
    let c = to_chars(h);
    if starts_with_text(c.as_slice(), "$argon2") {
        return argon2_verify(h, password.as_bytes());
    }
    if starts_with_text(c.as_slice(), "sha256:") {
        let word = to_chars("sha256:");
        let rest = vstd::slice::slice_subrange(c.as_slice(), word.len(), c.len());
        assert(rest@ =~= h@.skip("sha256:"@.len() as int));
        let low = lower_chars(trim_chars(rest));
        let expected = to_text(low.as_slice());
        let digest = sha256_hex(password.as_bytes());
        let actual = lower_text(digest.as_str());
        return same_secret(actual.as_str(), expected.as_str());
    }
    false
}

/// Whether a login succeeds: always where no password is asked for.
pub fn verify_password(
    allow_no_auth: bool,
    plain: Option<&str>,
    hash: Option<&str>,
    password: &str,
) -> (r: bool)
    ensures
        r == (allow_no_auth || accepts(str_option(plain), str_option(hash), password@)),
{
    allow_no_auth || verify_password_value(plain, hash, password)
}

// ---------------------------------------------------------------------------
// Sessions
// ---------------------------------------------------------------------------
/// A session: the token against forged requests, and when it ends.
#[derive(Clone, Debug)]
pub struct Session {
    pub csrf: String,
    pub expires_at: u64,
}

#[verifier::ext_equal]
pub struct SessionView {
    pub csrf: Seq<char>,
    pub expires_at: u64,
}

impl View for Session {
    type V = SessionView;

    open spec fn view(&self) -> SessionView {
        SessionView { csrf: self.csrf@, expires_at: self.expires_at }
    }
}

/// Who is logged in.
#[derive(Debug)]
pub struct AuthInfo {
    pub token: String,
    pub csrf: String,
}

/// Why a request is refused.
#[derive(Clone, Copy, Debug, PartialEq, Eq, Structural)]
pub enum AuthError {
    Unauthorized,
    Forbidden,
}

/// `rand::thread_rng` with `sample_iter` over `Alphanumeric`: so many letters and
/// digits of ASCII. Which ones is left to chance.
#[verifier::external_body]
fn random_token(len: usize) -> (r: String)
    ensures
        r@.len() == len,
        forall|i: int| 0 <= i < r@.len() ==> is_alnum(#[trigger] r@[i]),
{
    rand::thread_rng().sample_iter(&rand::distributions::Alphanumeric).take(len).map(char::from).collect()
}

/// The sessions of the service by their tokens.
pub struct Sessions {
    open: StrMap<Session>,
}

impl View for Sessions {
    type V = Seq<(Seq<char>, SessionView)>;

    closed spec fn view(&self) -> Seq<(Seq<char>, SessionView)> {
        self.open@
    }
}

/// The sessions among the first `n` that have not ended.
pub open spec fn alive_upto(v: Seq<(Seq<char>, SessionView)>, now: u64, n: int) -> Seq<
    (Seq<char>, SessionView),
>
    decreases n,
{
    if n <= 0 {
        seq![]
    } else if v[n - 1].1.expires_at > now {
        alive_upto(v, now, n - 1).push(v[n - 1])
    } else {
        alive_upto(v, now, n - 1)
    }
}

/// What a request is answered: who is logged in, or why it is refused.
pub open spec fn auth_result(
    sessions: Seq<(Seq<char>, SessionView)>,
    allow_no_auth: bool,
    token: Option<Seq<char>>,
    csrf: Option<Seq<char>>,
    require_csrf: bool,
    now: u64,
) -> Result<(Seq<char>, Seq<char>), AuthError> {
    if allow_no_auth {
        Ok(("dev"@, "dev"@))
    } else {
        match token {
            None => Err(AuthError::Unauthorized),
            Some(t) => match lookup(sessions, t) {
                None => Err(AuthError::Unauthorized),
                Some(s) => if s.expires_at <= now {
                    Err(AuthError::Unauthorized)
                } else if require_csrf && (match csrf {
                    Some(c) => c,
                    None => seq![],
                }) != s.csrf {
                    Err(AuthError::Forbidden)
                } else {
                    Ok((t, s.csrf))
                },
            },
        }
    }
}

pub open spec fn info_result(r: Result<AuthInfo, AuthError>) -> Result<
    (Seq<char>, Seq<char>),
    AuthError,
> {
    match r {
        Ok(i) => Ok((i.token@, i.csrf@)),
        Err(e) => Err(e),
    }
}

impl Sessions {
    pub fn new() -> (r: Sessions)
        ensures
            r@ == Seq::<(Seq<char>, SessionView)>::empty(),
    {
        Sessions { open: StrMap::new() }
    }

    /// Opens the session that has the given tokens.
    pub fn open(&mut self, token: String, csrf: String, now: u64) -> (r: AuthInfo)
        requires
            now <= LAST_TIME,
        ensures
            final(self)@ == put(
                old(self)@,
                token@,
                SessionView { csrf: csrf@, expires_at: (now + SESSION_TTL) as u64 },
            ),
            r.token@ == token@,
            r.csrf@ == csrf@,
    {
        let info = AuthInfo { token: token.clone(), csrf: csrf.clone() };
        self.open.insert(token, Session { csrf, expires_at: now + SESSION_TTL });
        info
    }
}

/// Opens a session with new tokens.
pub fn create_session(sessions: &mut Sessions, now: u64) -> (r: AuthInfo)
    requires
        now <= LAST_TIME,
    ensures
        r.token@.len() == 48,
        r.csrf@.len() == 32,
        forall|i: int| 0 <= i < r.token@.len() ==> is_alnum(#[trigger] r.token@[i]),
        forall|i: int| 0 <= i < r.csrf@.len() ==> is_alnum(#[trigger] r.csrf@[i]),
        final(sessions)@ == put(
            old(sessions)@,
            r.token@,
            SessionView { csrf: r.csrf@, expires_at: (now + SESSION_TTL) as u64 },
        ),
{
    let token = random_token(48);
    let csrf = random_token(32);
    sessions.open(token, csrf, now)
}

/// Drops the sessions that have ended.
pub fn cleanup_sessions(sessions: &mut Sessions, now: u64)
    ensures
        final(sessions)@ == alive_upto(old(sessions)@, now, old(sessions)@.len() as int),
{
    let ghost before = sessions@;
    let ghost mut seen: int = 0;
    let mut i: usize = 0;
    assert(alive_upto(before, now, 0) + before.skip(0) =~= before);
    while i < sessions.open.len()
        invariant
            0 <= seen <= before.len(),
            i == alive_upto(before, now, seen).len(),
            sessions@ == alive_upto(before, now, seen) + before.skip(seen),
        decreases before.len() - seen,
    {
        let ghost had = sessions@;
        assert(had[i as int] == before[seen]);
        if sessions.open.value(i).expires_at > now {
            i = i + 1;
            assert(alive_upto(before, now, seen + 1) + before.skip(seen + 1) =~= had);
        } else {
            sessions.open.remove_at(i);
            assert(alive_upto(before, now, seen + 1) + before.skip(seen + 1) =~= sessions@);
        }
        proof {
            seen = seen + 1;
        }
    }
    assert(before.skip(seen).len() == 0);
    assert(seen == before.len());
    assert(alive_upto(before, now, seen) + before.skip(seen) =~= alive_upto(before, now, seen));
}

/// The session that the request's cookies name, if any.
pub open spec fn token_of(cookies: Option<Seq<char>>) -> Option<Seq<char>> {
    match cookies {
        Some(raw) => cookie_value(raw, "ass_subset_session"@),
        None => None,
    }
}

/// Decides on a request by its cookies and its token against forged requests.
pub fn require_auth(
    sessions: &Sessions,
    allow_no_auth: bool,
    cookies: Option<&str>,
    csrf: Option<&str>,
    require_csrf: bool,
    now: u64,
) -> (r: Result<AuthInfo, AuthError>)
    ensures
        info_result(r) == auth_result(
            sessions@,
            allow_no_auth,
            token_of(str_option(cookies)),
            str_option(csrf),
            require_csrf,
            now,
        ),
{
    if allow_no_auth {
        return Ok(AuthInfo { token: "dev".to_string(), csrf: "dev".to_string() });
    }
    let token = match cookies {
        Some(raw) => match read_cookie(raw, "ass_subset_session") {
            Some(t) => t,
            None => {
                return Err(AuthError::Unauthorized);
            },
        },
        None => {
            return Err(AuthError::Unauthorized);
        },
    };
    let session = match sessions.open.get(token.as_str()) {
        Some(s) => s,
        None => {
            return Err(AuthError::Unauthorized);
        },
    };
    if session.expires_at <= now {
        return Err(AuthError::Unauthorized);
    }
    if require_csrf {
        let got = match csrf {
            Some(c) => c,
            None => "",
        };
        proof {
            reveal_strlit("");
            assert(""@ =~= seq![]);
        }
        if !same_text(got, session.csrf.as_str()) {
            return Err(AuthError::Forbidden);
        }
    }
    Ok(AuthInfo { token, csrf: session.csrf.clone() })
}

// ---------------------------------------------------------------------------
// Cookies
// ---------------------------------------------------------------------------
pub open spec fn cookie_text(token: Seq<char>, secure: bool) -> Seq<char> {
    "ass_subset_session="@ + token + "; HttpOnly; SameSite=Lax; Path=/; Max-Age=86400"@
        + if secure {
        "; Secure"@
    } else {
        seq![]
    }
}

/// The cookie that carries a session's token.
pub fn session_cookie(token: &str, secure: bool) -> (r: String)
    ensures
        r@ == cookie_text(token@, secure),
{
    let mut out: Vec<char> = to_chars("ass_subset_session=");
    push_text(&mut out, token);
    push_text(&mut out, "; HttpOnly; SameSite=Lax; Path=/; Max-Age=86400");
    if secure {
        push_text(&mut out, "; Secure");
    }
    assert(out@ =~= cookie_text(token@, secure));
    to_text(out.as_slice())
}

/// The value of a cookie among the parts from `i` on; a part without a value
/// ends the search.
pub open spec fn cookie_from(parts: Seq<Seq<char>>, name: Seq<char>, i: int) -> Option<Seq<char>>
    decreases parts.len() - i,
{
    if !(0 <= i < parts.len()) {
        None
    } else {
        match split_once(trim(parts[i]), "="@) {
            None => None,
            Some((k, v)) => if k == name {
                Some(v)
            } else {
                cookie_from(parts, name, i + 1)
            },
        }
    }
}

/// The value of a cookie in a header.
pub open spec fn cookie_value(raw: Seq<char>, name: Seq<char>) -> Option<Seq<char>> {
    cookie_from(split(raw, ';'), name, 0)
}

pub fn read_cookie(raw: &str, name: &str) -> (r: Option<String>)
    ensures
        match r {
            Some(v) => cookie_value(raw@, name@) == Some(v@),
            None => cookie_value(raw@, name@) is None,
        },
{
    let c = to_chars(raw);
    let parts = split_chars(c.as_slice(), ';');
    let ghost v = rows(parts@);
    let mut i: usize = 0;
    while i < parts.len()
        invariant
            i <= parts@.len(),
            v == rows(parts@),
            v == split(raw@, ';'),
            cookie_value(raw@, name@) == cookie_from(v, name@, i as int),
        decreases parts@.len() - i,
    {
        assert(v[i as int] == parts@[i as int]@);
        match split_once_text(trim_chars(parts[i].as_slice()), "=") {
            None => {
                return None;
            },
            Some((k, value)) => {
                if is_text(k.as_slice(), name) {
                    return Some(to_text(value.as_slice()));
                }
            },
        }
        i = i + 1;
    }
    None
}

// ---------------------------------------------------------------------------
// Failed logins
// ---------------------------------------------------------------------------
/// What is remembered of the failed logins of one client.
pub struct LoginAttempt {
    pub failures: u32,
    pub window_started: u64,
    pub blocked_until: Option<u64>,
    pub last_seen: u64,
}

#[verifier::ext_equal]
pub struct AttemptView {
    pub failures: u32,
    pub window_started: u64,
    pub blocked_until: Option<u64>,
    pub last_seen: u64,
}

impl View for LoginAttempt {
    type V = AttemptView;

    open spec fn view(&self) -> AttemptView {
        AttemptView {
            failures: self.failures,
            window_started: self.window_started,
            blocked_until: self.blocked_until,
            last_seen: self.last_seen,
        }
    }
}

/// The failed logins by client.
pub struct LoginRateLimiter {
    attempts: StrMap<LoginAttempt>,
}

impl View for LoginRateLimiter {
    type V = Seq<(Seq<char>, AttemptView)>;

    closed spec fn view(&self) -> Seq<(Seq<char>, AttemptView)> {
        self.attempts@
    }
}

/// The time from one point to another; none where the second comes first.
pub open spec fn time_since(from: u64, to: u64) -> int {
    if to < from {
        0
    } else {
        to - from
    }
}

fn elapsed(from: u64, to: u64) -> (r: u64)
    ensures
        r == time_since(from, to),
{
    if to < from {
        0
    } else {
        to - from
    }
}

/// The clients among the first `n` that were seen lately.
pub open spec fn fresh_upto(v: Seq<(Seq<char>, AttemptView)>, now: u64, n: int) -> Seq<
    (Seq<char>, AttemptView),
>
    decreases n,
{
    if n <= 0 {
        seq![]
    } else if time_since(v[n - 1].1.last_seen, now) < LOGIN_ENTRY_TTL {
        fresh_upto(v, now, n - 1).push(v[n - 1])
    } else {
        fresh_upto(v, now, n - 1)
    }
}

pub open spec fn fresh(v: Seq<(Seq<char>, AttemptView)>, now: u64) -> Seq<
    (Seq<char>, AttemptView),
> {
    fresh_upto(v, now, v.len() as int)
}

/// What is remembered of a client once it was seen again: a block that is over
/// is lifted, and the count starts again.
pub open spec fn seen_again(a: AttemptView, now: u64) -> AttemptView {
    match a.blocked_until {
        Some(until) => if until <= now {
            AttemptView { failures: 0, window_started: now, blocked_until: None, last_seen: now }
        } else {
            AttemptView { last_seen: now, ..a }
        },
        None => AttemptView { last_seen: now, ..a },
    }
}

/// After how many seconds a client may try again: at least one while it is
/// blocked, and nothing otherwise.
pub open spec fn wait_seconds(a: AttemptView, now: u64) -> Option<int> {
    match a.blocked_until {
        Some(until) => if until <= now {
            None
        } else if (until - now) / SECOND as int >= 1 {
            Some((until - now) / SECOND as int)
        } else {
            Some(1)
        },
        None => None,
    }
}

/// What is remembered of a client once a login failed.
pub open spec fn failed_again(a: Option<AttemptView>, now: u64) -> AttemptView {
    let had = match a {
        Some(a) => a,
        None => AttemptView {
            failures: 0,
            window_started: now,
            blocked_until: None,
            last_seen: now,
        },
    };
    let over = time_since(had.window_started, now) >= LOGIN_WINDOW;
    let before = if over {
        0
    } else {
        had.failures
    };
    let failures = if before == u32::MAX {
        u32::MAX
    } else {
        (before + 1) as u32
    };
    AttemptView {
        failures,
        window_started: if over {
            now
        } else {
            had.window_started
        },
        blocked_until: if failures >= LOGIN_MAX_FAILURES {
            Some((now + LOGIN_BLOCK) as u64)
        } else {
            had.blocked_until
        },
        last_seen: now,
    }
}

pub open spec fn seconds_option(r: Option<u64>) -> Option<int> {
    match r {
        Some(n) => Some(n as int),
        None => None,
    }
}

impl LoginRateLimiter {
    pub fn new() -> (r: LoginRateLimiter)
        ensures
            r@ == Seq::<(Seq<char>, AttemptView)>::empty(),
    {
        LoginRateLimiter { attempts: StrMap::new() }
    }

    fn forget_stale(&mut self, now: u64)
        ensures
            final(self)@ == fresh(old(self)@, now),
    {
        let ghost before = self@;
        let ghost mut seen: int = 0;
        let mut i: usize = 0;
        assert(fresh_upto(before, now, 0) + before.skip(0) =~= before);
        while i < self.attempts.len()
            invariant
                0 <= seen <= before.len(),
                i == fresh_upto(before, now, seen).len(),
                self@ == fresh_upto(before, now, seen) + before.skip(seen),
            decreases before.len() - seen,
        {
            let ghost had = self@;
            assert(had[i as int] == before[seen]);
            if elapsed(self.attempts.value(i).last_seen, now) < LOGIN_ENTRY_TTL {
                i = i + 1;
                assert(fresh_upto(before, now, seen + 1) + before.skip(seen + 1) =~= had);
            } else {
                self.attempts.remove_at(i);
                assert(fresh_upto(before, now, seen + 1) + before.skip(seen + 1) =~= self@);
            }
            proof {
                seen = seen + 1;
            }
        }
        assert(before.skip(seen).len() == 0);
        assert(seen == before.len());
        assert(fresh_upto(before, now, seen) + before.skip(seen) =~= fresh_upto(before, now, seen));
    }

    /// After how many seconds the client may try again.
    pub fn retry_after(&mut self, key: &str, now: u64) -> (r: Option<u64>)
        ensures
            ({
                let kept = fresh(old(self)@, now);
                match lookup(kept, key@) {
                    Some(a) => {
                        &&& seconds_option(r) == wait_seconds(a, now)
                        &&& final(self)@ == put(kept, key@, seen_again(a, now))
                    },
                    None => r is None && final(self)@ == kept,
                }
            }),
    {
        self.forget_stale(now);
        let i = self.attempts.find(key);
        if i >= self.attempts.len() {
            return None;
        }
        let ghost kept = self@;
        let a = self.attempts.value_mut(i);
        a.last_seen = now;
        match a.blocked_until {
            None => None,
            Some(until) => {
                if until <= now {
                    a.blocked_until = None;
                    a.failures = 0;
                    a.window_started = now;
                    None
                } else {
                    let s: u64 = (until - now) / SECOND;
                    if s >= 1 {
                        Some(s)
                    } else {
                        Some(1)
                    }
                }
            },
        }
    }

    /// Counts a failed login.
    pub fn record_failure(&mut self, key: &str, now: u64)
        requires
            now <= LAST_TIME,
        ensures
            final(self)@ == put(old(self)@, key@, failed_again(lookup(old(self)@, key@), now)),
    {
        let i = self.attempts.find(key);
        let mut a = LoginAttempt {
            failures: 0,
            window_started: now,
            blocked_until: None,
            last_seen: now,
        };
        if i < self.attempts.len() {
            let had = self.attempts.value(i);
            a = LoginAttempt {
                failures: had.failures,
                window_started: had.window_started,
                blocked_until: had.blocked_until,
                last_seen: had.last_seen,
            };
        }
        if elapsed(a.window_started, now) >= LOGIN_WINDOW {
            a.failures = 0;
            a.window_started = now;
        }
        if a.failures < u32::MAX {
            a.failures = a.failures + 1;
        }
        a.last_seen = now;
        if a.failures >= LOGIN_MAX_FAILURES {
            a.blocked_until = Some(now + LOGIN_BLOCK);
        }
        self.attempts.insert(key.to_string(), a);
    }

    /// Forgets the failed logins of a client that succeeded.
    pub fn record_success(&mut self, key: &str)
        ensures
            final(self)@ == without(old(self)@, key@),
    {
        self.attempts.remove(key);
    }
}

// ---------------------------------------------------------------------------
// Laws
// ---------------------------------------------------------------------------
/// A failed login within the time window counts one more, and the fifth blocks
/// the client for a minute.
pub proof fn law_fifth_failure_blocks(a: AttemptView, now: u64)
    requires
        now <= LAST_TIME,
        time_since(a.window_started, now) < LOGIN_WINDOW,
        a.failures < u32::MAX,
    ensures
        failed_again(Some(a), now).failures == a.failures + 1,
        a.failures >= 4 ==> wait_seconds(failed_again(Some(a), now), now) == Some(60int),
        a.failures < 4 ==> failed_again(Some(a), now).blocked_until == a.blocked_until,
{
}

proof fn lemma_fresh_members(v: Seq<(Seq<char>, AttemptView)>, now: u64, n: int)
    requires
        0 <= n <= v.len(),
        distinct_keys(v),
    ensures
        distinct_keys(fresh_upto(v, now, n)),
        forall|i: int|
            0 <= i < fresh_upto(v, now, n).len() ==> v.take(n).contains(
                #[trigger] fresh_upto(v, now, n)[i],
            ),
        forall|k: int|
            0 <= k < n && time_since((#[trigger] v[k]).1.last_seen, now) < LOGIN_ENTRY_TTL
                ==> fresh_upto(v, now, n).contains(v[k]),
    decreases n,
{
    if n > 0 {
        lemma_fresh_members(v, now, n - 1);
        let b = fresh_upto(v, now, n - 1);
        let f = fresh_upto(v, now, n);
        assert forall|i: int| 0 <= i < f.len() implies v.take(n).contains(#[trigger] f[i]) by {
            if i < b.len() {
                let head = v.take(n - 1);
                assert(f[i] == b[i]);
                let j = choose|j: int| 0 <= j < head.len() && head[j] == b[i];
                assert(v.take(n)[j] == f[i]);
            } else {
                assert(v.take(n)[n - 1] == f[i]);
            }
        }
        assert forall|i: int, j: int| 0 <= i < j < f.len() implies #[trigger] f[i].0
            != #[trigger] f[j].0 by {
            assert(f[i] == b[i]);
            if j < b.len() {
                assert(f[j] == b[j]);
            } else {
                let head = v.take(n - 1);
                let k = choose|k: int| 0 <= k < head.len() && head[k] == b[i];
                assert(v[k] == b[i]);
                assert(v[k].0 != v[n - 1].0);
            }
        }
        assert forall|k: int|
            0 <= k < n && time_since((#[trigger] v[k]).1.last_seen, now)
                < LOGIN_ENTRY_TTL implies f.contains(v[k]) by {
            if k < n - 1 {
                let j = choose|j: int| 0 <= j < b.len() && b[j] == v[k];
                assert(f[j] == v[k]);
            } else {
                assert(f[f.len() - 1] == v[k]);
            }
        }
    }
}

/// A client that was seen lately is remembered.
pub proof fn lemma_fresh_kept(
    v: Seq<(Seq<char>, AttemptView)>,
    key: Seq<char>,
    a: AttemptView,
    now: u64,
)
    requires
        distinct_keys(v),
        lookup(v, key) == Some(a),
        time_since(a.last_seen, now) < LOGIN_ENTRY_TTL,
    ensures
        lookup(fresh(v, now), key) == Some(a),
{
    let f = fresh(v, now);
    lemma_fresh_members(v, now, v.len() as int);
    lemma_place(v, key, 0);
    let k = place(v, key);
    assert(v[k] == (key, a));
    let j = choose|j: int| 0 <= j < f.len() && f[j] == v[k];
    lemma_place(f, key, 0);
    let p = place(f, key);
    if p < j {
        assert(f[p].0 != f[j].0);
    }
    assert(p == j);
}

/// A client that is not remembered stays so.
pub proof fn lemma_fresh_absent(v: Seq<(Seq<char>, AttemptView)>, key: Seq<char>, now: u64)
    requires
        distinct_keys(v),
        lookup(v, key) is None,
    ensures
        lookup(fresh(v, now), key) is None,
{
    let f = fresh(v, now);
    lemma_fresh_members(v, now, v.len() as int);
    lemma_place(v, key, 0);
    lemma_place(f, key, 0);
    let p = place(f, key);
    if p < f.len() {
        let all = v.take(v.len() as int);
        assert(all.contains(f[p]));
        let j = choose|j: int| 0 <= j < all.len() && all[j] == f[p];
        assert(v[j].0 == key);
    }
}

/// What is remembered after a client failed at each of the first `n` times.
pub open spec fn failures_upto(
    m: Seq<(Seq<char>, AttemptView)>,
    key: Seq<char>,
    times: Seq<u64>,
    n: int,
) -> Seq<(Seq<char>, AttemptView)>
    decreases n,
{
    if n <= 0 {
        m
    } else {
        let before = failures_upto(m, key, times, n - 1);
        put(before, key, failed_again(lookup(before, key), times[n - 1]))
    }
}

proof fn lemma_failures(
    m: Seq<(Seq<char>, AttemptView)>,
    key: Seq<char>,
    times: Seq<u64>,
    n: int,
)
    requires
        1 <= n <= times.len(),
        n <= LOGIN_MAX_FAILURES,
        distinct_keys(m),
        lookup(m, key) is None,
        forall|i: int, j: int| 0 <= i <= j < times.len() ==> times[i] <= times[j],
        times[times.len() - 1] - times[0] < LOGIN_WINDOW,
        times[times.len() - 1] <= LAST_TIME,
    ensures
        distinct_keys(failures_upto(m, key, times, n)),
        lookup(failures_upto(m, key, times, n), key) == Some(
            AttemptView {
                failures: n as u32,
                window_started: times[0],
                blocked_until: if n < LOGIN_MAX_FAILURES {
                    None
                } else {
                    Some((times[n - 1] + LOGIN_BLOCK) as u64)
                },
                last_seen: times[n - 1],
            },
        ),
    decreases n,
{
    let before = failures_upto(m, key, times, n - 1);
    assert(times[0] <= times[n - 1] <= times[times.len() - 1]);
    if n > 1 {
        lemma_failures(m, key, times, n - 1);
    } else {
        assert(before == m);
    }
    let a = failed_again(lookup(before, key), times[n - 1]);
    law_lookup_put(before, key, a, key);
    law_put_keeps_distinct(before, key, a);
}

/// A client that fails five times within a minute has to wait for a minute.
pub proof fn law_five_failures_block(
    m: Seq<(Seq<char>, AttemptView)>,
    key: Seq<char>,
    times: Seq<u64>,
)
    requires
        times.len() == 5,
        distinct_keys(m),
        lookup(m, key) is None,
        forall|i: int, j: int| 0 <= i <= j < times.len() ==> times[i] <= times[j],
        times[4] - times[0] < LOGIN_WINDOW,
        times[4] <= LAST_TIME,
    ensures
        ({
            let known = fresh(failures_upto(m, key, times, 5), times[4]);
            lookup(known, key) matches Some(a) && wait_seconds(a, times[4]) == Some(60int)
        }),
{
    lemma_failures(m, key, times, 5);
    let v = failures_upto(m, key, times, 5);
    lemma_fresh_kept(v, key, lookup(v, key)->0, times[4]);
}

/// A block is over after a minute, and the count starts again.
pub proof fn law_block_ends(a: AttemptView, start: u64, now: u64)
    requires
        start <= LAST_TIME,
        failed_again(Some(a), start).blocked_until == Some((start + LOGIN_BLOCK) as u64),
        now >= start + LOGIN_BLOCK,
    ensures
        wait_seconds(failed_again(Some(a), start), now) is None,
        seen_again(failed_again(Some(a), start), now).failures == 0,
{
}

/// Nothing is remembered of a client that succeeded.
pub proof fn law_success_clears(m: Seq<(Seq<char>, AttemptView)>, key: Seq<char>, now: u64)
    requires
        distinct_keys(m),
    ensures
        lookup(without(m, key), key) is None,
        failed_again(lookup(without(m, key), key), now).failures == 1,
{
    crate::strmap::law_lookup_without(m, key);
}

/// A session that was opened is accepted until it ends, with its own token
/// against forged requests and with no other.
pub proof fn law_session_lifetime(
    m: Seq<(Seq<char>, SessionView)>,
    token: Seq<char>,
    csrf: Seq<char>,
    other: Seq<char>,
    start: u64,
    now: u64,
)
    requires
        start <= LAST_TIME,
        other != csrf,
    ensures
        ({
            let s = SessionView { csrf, expires_at: (start + SESSION_TTL) as u64 };
            let open = put(m, token, s);
            &&& now < start + SESSION_TTL ==> auth_result(
                open,
                false,
                Some(token),
                Some(csrf),
                true,
                now,
            ) == Ok::<(Seq<char>, Seq<char>), AuthError>((token, csrf))
            &&& now < start + SESSION_TTL ==> auth_result(
                open,
                false,
                Some(token),
                Some(other),
                true,
                now,
            ) == Err::<(Seq<char>, Seq<char>), AuthError>(AuthError::Forbidden)
            &&& now >= start + SESSION_TTL ==> auth_result(
                open,
                false,
                Some(token),
                Some(csrf),
                true,
                now,
            ) == Err::<(Seq<char>, Seq<char>), AuthError>(AuthError::Unauthorized)
        }),
{
    let s = SessionView { csrf, expires_at: (start + SESSION_TTL) as u64 };
    law_lookup_put(m, token, s, token);
}

/// Without a token, or with one that no session has, a request is refused.
pub proof fn law_unknown_token_refused(
    m: Seq<(Seq<char>, SessionView)>,
    token: Option<Seq<char>>,
    csrf: Option<Seq<char>>,
    require_csrf: bool,
    now: u64,
)
    requires
        token is None || lookup(m, token->0) is None,
    ensures
        auth_result(m, false, token, csrf, require_csrf, now) == Err::<
            (Seq<char>, Seq<char>),
            AuthError,
        >(AuthError::Unauthorized),
{
}

/// The cookie of a session, as a client sends it back, names the session.
pub proof fn law_cookie_read_back(token: Seq<char>)
    requires
        forall|i: int| 0 <= i < token.len() ==> is_alnum(#[trigger] token[i]),
    ensures
        cookie_value("ass_subset_session="@ + token, "ass_subset_session"@) == Some(token),
{
    let name = "ass_subset_session"@;
    let head = "ass_subset_session="@;
    let raw = head + token;
    reveal_strlit("ass_subset_session");
    reveal_strlit("ass_subset_session=");
    reveal_strlit("=");
    assert(head =~= name + "="@);
    assert forall|i: int| 0 <= i < raw.len() implies #[trigger] raw[i] != ';' && !is_white(
        raw[i],
    ) by {
        if i < head.len() {
            assert(raw[i] == head[i]);
        } else {
            assert(raw[i] == token[i - head.len()]);
        }
    }
    lemma_find_is(raw, ';', 0, raw.len() as int);
    assert(split(raw, ';') =~= seq![raw.skip(0)]);
    assert(raw.skip(0) =~= raw);
    lemma_trim_is(raw, 0, raw.len() as int);
    assert(raw.subrange(0, raw.len() as int) =~= raw);
    let k = name.len() as int;
    assert(stands_at(raw, "="@, k)) by {
        assert(raw.subrange(k, k + 1) =~= "="@);
    }
    lemma_find_part(raw, "="@, 0);
    let f = find_part(raw, "="@, 0);
    assert(f >= k) by {
        if f < k {
            assert(raw.subrange(f, f + 1)[0] == '=');
            assert(raw[f] == name[f]);
        }
    }
    assert(f == k);
    assert(raw.take(k) =~= name);
    assert(raw.skip(k + 1) =~= token);
}

/// Where a plain password is set, that password is accepted and no other, whatever
/// digest is set beside it; where neither is set, none is.
pub proof fn law_plain_password_decides(
    plain: Option<Seq<char>>,
    hash: Option<Seq<char>>,
    password: Seq<char>,
)
    ensures
        plain is Some ==> (accepts(plain, hash, password) <==> password == plain->0),
        plain is None && hash is None ==> !accepts(plain, hash, password),
{
}

/// The password that a stored SHA-256 digest was made of is accepted, with the
/// digest in small letters or in capitals.
pub proof fn law_stored_digest_accepts(password: Seq<char>, digest: Seq<char>)
    requires
        lowered(digest) == lowered(sha256_text(encode_utf8(password))),
        digest.len() > 0,
        !is_white(digest[0]),
        !is_white(digest.last()),
    ensures
        accepts(None, Some("sha256:"@ + digest), password),
{
    reveal_strlit("sha256:");
    reveal_strlit("$argon2");
    let h = "sha256:"@ + digest;
    assert(h.subrange(0, 7) =~= "sha256:"@);
    assert(h.skip(7) =~= digest);
    lemma_trim_is(digest, 0, digest.len() as int);
    assert(digest.subrange(0, digest.len() as int) =~= digest);
    if starts_with(h, "$argon2"@) {
        assert(h.subrange(0, 7)[0] == '$');
    }
}

/// A password whose digest is another one is refused.
pub proof fn law_other_digest_refused(password: Seq<char>, digest: Seq<char>)
    requires
        lowered(digest) != lowered(sha256_text(encode_utf8(password))),
        digest.len() > 0,
        !is_white(digest[0]),
        !is_white(digest.last()),
    ensures
        !accepts(None, Some("sha256:"@ + digest), password),
{
    reveal_strlit("sha256:");
    reveal_strlit("$argon2");
    let h = "sha256:"@ + digest;
    assert(h.subrange(0, 7) =~= "sha256:"@);
    assert(h.skip(7) =~= digest);
    lemma_trim_is(digest, 0, digest.len() as int);
    assert(digest.subrange(0, digest.len() as int) =~= digest);
    if starts_with(h, "$argon2"@) {
        assert(h.subrange(0, 7)[0] == '$');
    }
}

/// A session is accepted for 24 hours from when it was opened, and not a
/// nanosecond longer.
pub proof fn law_session_lasts_a_day(
    m: Seq<(Seq<char>, SessionView)>,
    token: Seq<char>,
    csrf: Seq<char>,
    start: u64,
    now: u64,
)
    requires
        start <= LAST_TIME,
    ensures
        ({
            let s = SessionView { csrf, expires_at: (start + SESSION_TTL) as u64 };
            auth_result(put(m, token, s), false, Some(token), None, false, now) is Ok <==> now - start
                < 24 * 60 * 60 * 1_000_000_000
        }),
{
    let s = SessionView { csrf, expires_at: (start + SESSION_TTL) as u64 };
    law_lookup_put(m, token, s, token);
}

/// Where no login is asked for, every request is let in. A request that changes
/// nothing needs no token against forged requests; one that does needs the
/// session's own.
pub proof fn law_forged_requests_refused(
    m: Seq<(Seq<char>, SessionView)>,
    token: Seq<char>,
    s: SessionView,
    csrf: Option<Seq<char>>,
    now: u64,
)
    requires
        lookup(m, token) == Some(s),
        now < s.expires_at,
        s.csrf.len() > 0,
    ensures
        auth_result(m, true, None, None, true, now) is Ok,
        auth_result(m, false, Some(token), csrf, false, now) is Ok,
        auth_result(m, false, Some(token), None, true, now) == Err::<
            (Seq<char>, Seq<char>),
            AuthError,
        >(AuthError::Forbidden),
        auth_result(m, false, Some(token), csrf, true, now) is Ok <==> csrf == Some(s.csrf),
{
}

/// A clean-up drops exactly the sessions that have ended.
pub proof fn law_ended_sessions_dropped(v: Seq<(Seq<char>, SessionView)>, now: u64, n: int, i: int)
    requires
        0 <= i < n <= v.len(),
    ensures
        v[i].1.expires_at > now ==> alive_upto(v, now, n).contains(v[i]),
        forall|k: int|
            0 <= k < alive_upto(v, now, n).len() ==> (#[trigger] alive_upto(v, now, n)[k]).1.expires_at
                > now && v.contains(alive_upto(v, now, n)[k]),
    decreases n,
{
    let all = alive_upto(v, now, n);
    let had = alive_upto(v, now, n - 1);
    if n > 1 {
        law_ended_sessions_dropped(v, now, n - 1, if i < n - 1 { i } else { 0 });
    }
    if v[i].1.expires_at > now {
        if i == n - 1 {
            assert(all[all.len() - 1] == v[i]);
        } else {
            let k = choose|k: int| 0 <= k < had.len() && had[k] == v[i];
            assert(all[k] == v[i]);
        }
    }
    assert forall|k: int| 0 <= k < all.len() implies (#[trigger] all[k]).1.expires_at > now
        && v.contains(all[k]) by {
        if k < had.len() {
            assert(all[k] == had[k]);
        } else {
            assert(all[k] == v[n - 1]);
        }
    }
}

/// Failed logins count together for a minute: one that comes later starts the
/// count again. The fifth within the minute blocks for the sixty seconds that
/// follow it.
pub proof fn law_failures_counted_by_minute(a: AttemptView, now: u64)
    requires
        now <= LAST_TIME,
        a.failures < u32::MAX,
        a.window_started <= now,
    ensures
        now - a.window_started >= 60 * 1_000_000_000 ==> {
            &&& failed_again(Some(a), now).failures == 1
            &&& failed_again(Some(a), now).window_started == now
        },
        now - a.window_started < 60 * 1_000_000_000 ==> {
            &&& failed_again(Some(a), now).failures == a.failures + 1
            &&& failed_again(Some(a), now).window_started == a.window_started
            &&& a.failures + 1 >= 5 ==> failed_again(Some(a), now).blocked_until == Some(
                (now + 60 * 1_000_000_000) as u64,
            )
            &&& a.failures + 1 < 5 ==> failed_again(Some(a), now).blocked_until == a.blocked_until
        },
        failed_again(None, now).failures == 1,
        failed_again(None, now).blocked_until is None,
{
}

/// A client is told to wait while it is blocked and only then, for at least a
/// second and for no longer than the block lasts.
pub proof fn law_wait_while_blocked(a: AttemptView, now: u64)
    ensures
        wait_seconds(a, now) is Some <==> (a.blocked_until matches Some(until) && now < until),
        wait_seconds(a, now) matches Some(w) ==> {
            &&& w >= 1
            &&& w > 1 ==> w * 1_000_000_000 <= a.blocked_until->0 - now
            &&& a.blocked_until->0 - now < (w + 1) * 1_000_000_000
        },
{
}

/// A client is forgotten after a quarter of an hour without a login, and not
/// before.
pub proof fn law_clients_forgotten(v: Seq<(Seq<char>, AttemptView)>, now: u64, i: int)
    requires
        0 <= i < v.len(),
        distinct_keys(v),
        v[i].1.last_seen <= now,
    ensures
        fresh(v, now).contains(v[i]) <==> now - v[i].1.last_seen < 15 * 60 * 1_000_000_000,
{
    lemma_fresh_members(v, now, v.len() as int);
    lemma_fresh_lately(v, now, v.len() as int);
    if fresh(v, now).contains(v[i]) {
        let k = choose|k: int| 0 <= k < fresh(v, now).len() && fresh(v, now)[k] == v[i];
        assert(time_since(fresh(v, now)[k].1.last_seen, now) < LOGIN_ENTRY_TTL);
    }
}

proof fn lemma_fresh_lately(v: Seq<(Seq<char>, AttemptView)>, now: u64, n: int)
    requires
        0 <= n <= v.len(),
    ensures
        forall|k: int|
            0 <= k < fresh_upto(v, now, n).len() ==> time_since(
                (#[trigger] fresh_upto(v, now, n)[k]).1.last_seen,
                now,
            ) < LOGIN_ENTRY_TTL,
    decreases n,
{
    if n > 0 {
        lemma_fresh_lately(v, now, n - 1);
        let had = fresh_upto(v, now, n - 1);
        let all = fresh_upto(v, now, n);
        assert forall|k: int| 0 <= k < all.len() implies time_since(
            (#[trigger] all[k]).1.last_seen,
            now,
        ) < LOGIN_ENTRY_TTL by {
            if k < had.len() {
                assert(all[k] == had[k]);
            }
        }
    }
}

/// The cookie that is set names the session, whatever follows its value.
pub proof fn law_set_cookie_names_session(token: Seq<char>, secure: bool)
    requires
        forall|i: int| 0 <= i < token.len() ==> is_alnum(#[trigger] token[i]),
    ensures
        cookie_value(cookie_text(token, secure), "ass_subset_session"@) == Some(token),
        token_of(Some(cookie_text(token, secure))) == Some(token),
{
    let head = "ass_subset_session="@;
    let first = head + token;
    let raw = cookie_text(token, secure);
    law_cookie_read_back(token);
    reveal_strlit("ass_subset_session=");
    reveal_strlit("ass_subset_session");
    reveal_strlit("; HttpOnly; SameSite=Lax; Path=/; Max-Age=86400");
    let n = first.len() as int;
    assert(raw.take(n) =~= first);
    assert forall|i: int| 0 <= i < n implies raw[i] != ';' by {
        assert(raw[i] == first[i]);
        if i >= head.len() {
            assert(is_alnum(token[i - head.len()]));
        }
    }
    assert(raw[n] == ';');
    lemma_find_is(raw, ';', 0, n);
    assert(raw.subrange(0, n) =~= first);
    assert(split(raw, ';')[0] == first);
    assert forall|i: int| 0 <= i < n implies first[i] != ';' by {
        assert(raw[i] == first[i]);
    }
    lemma_find_is(first, ';', 0, n);
    assert(first.skip(0) =~= first);
    assert(split(first, ';')[0] == first);
    let (a, b) = (split(raw, ';'), split(first, ';'));
    assert(b =~= seq![first]);
    reveal_with_fuel(cookie_from, 2);
    assert(cookie_from(b, "ass_subset_session"@, 0) == Some(token));
    assert(cookie_from(b, "ass_subset_session"@, 1) is None);
    assert(a.len() > 0 && a[0] == b[0]);
}

proof fn lemma_cookie_passed(parts: Seq<Seq<char>>, name: Seq<char>, i: int, k: int)
    requires
        0 <= i <= k < parts.len(),
        forall|j: int|
            0 <= j < k ==> (split_once(trim(#[trigger] parts[j]), "="@) matches Some(p) && p.0
                != name),
    ensures
        cookie_from(parts, name, i) == cookie_from(parts, name, k),
    decreases k - i,
{
    if i < k {
        assert(split_once(trim(parts[i]), "="@) matches Some(p) && p.0 != name);
        lemma_cookie_passed(parts, name, i + 1, k);
    }
}

/// A cookie is found behind cookies of other names.
pub proof fn law_cookie_among_others(raw: Seq<char>, name: Seq<char>, value: Seq<char>, k: int)
    requires
        0 <= k < split(raw, ';').len(),
        forall|j: int|
            0 <= j < k ==> (split_once(trim(#[trigger] split(raw, ';')[j]), "="@) matches Some(p)
                && p.0 != name),
        split_once(trim(split(raw, ';')[k]), "="@) == Some((name, value)),
    ensures
        cookie_value(raw, name) == Some(value),
{
    lemma_cookie_passed(split(raw, ';'), name, 0, k);
}

/// A session is found by the cookie of its name, and there is none without cookies.
pub proof fn law_session_cookie(raw: Seq<char>)
    ensures
        token_of(None) is None,
        token_of(Some(raw)) == cookie_value(raw, "ass_subset_session"@),
{
}

/// A digest of another kind than the two that are known accepts no password, and one
/// of Argon2 accepts what Argon2 does.
pub proof fn law_digest_by_kind(h: Seq<char>, password: Seq<char>)
    ensures
        starts_with(h, "$argon2"@) ==> (accepts(None, Some(h), password) <==> argon2_accepts(
            h,
            encode_utf8(password),
        )),
        !starts_with(h, "$argon2"@) && !starts_with(h, "sha256:"@) ==> !accepts(
            None,
            Some(h),
            password,
        ),
{
}

} // verus!
