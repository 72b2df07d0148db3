//! Logging in.
use vstd::prelude::*;

use vstd::utf8::encode_utf8;

use crate::auth::{
    accepts, alive_upto, cleanup_sessions, create_session, failed_again, failures_upto, fresh,
    law_five_failures_block, lemma_fresh_absent, seen_again, str_option, verify_password,
    wait_seconds, AttemptView, AuthInfo, LoginRateLimiter, SessionView, Sessions, LAST_TIME,
    LOGIN_WINDOW, SESSION_TTL,
};
use crate::strmap::{distinct_keys, law_lookup_without, lookup, put, without};
use crate::text::is_alnum;

verus! {

/// How many bytes a password may have.
pub const MAX_PASSWORD_BYTES: usize = 1024;

/// What a login came to.
#[derive(Debug)]
pub enum LoginOutcome {
    /// The client has failed too often, and may try again after so many seconds.
    Blocked { retry_after: u64 },
    Invalid,
    Welcome(AuthInfo),
}

/// What is remembered of the clients once one of them asks to log in.
pub open spec fn asked(attempts: Seq<(Seq<char>, AttemptView)>, key: Seq<char>, now: u64) -> Seq<
    (Seq<char>, AttemptView),
> {
    let kept = fresh(attempts, now);
    match lookup(kept, key) {
        Some(a) => put(kept, key, seen_again(a, now)),
        None => kept,
    }
}

/// How long the client has to wait, if it has to.
pub open spec fn waits(attempts: Seq<(Seq<char>, AttemptView)>, key: Seq<char>, now: u64) -> Option<
    int,
> {
    match lookup(fresh(attempts, now), key) {
        Some(a) => wait_seconds(a, now),
        None => None,
    }
}

/// Whether the password lets its owner in.
pub open spec fn lets_in(
    allow_no_auth: bool,
    plain: Option<Seq<char>>,
    hash: Option<Seq<char>>,
    password: Seq<char>,
) -> bool {
    encode_utf8(password).len() <= MAX_PASSWORD_BYTES && (allow_no_auth || accepts(
        plain,
        hash,
        password,
    ))
}

/// Begins a login: sessions that have ended are dropped, and a client that has
/// failed too often is told how many seconds it has to wait.
pub fn login_begins(
    sessions: &mut Sessions,
    limiter: &mut LoginRateLimiter,
    key: &str,
    now: u64,
) -> (r: Option<u64>)
    ensures
        final(sessions)@ == alive_upto(old(sessions)@, now, old(sessions)@.len() as int),
        final(limiter)@ == asked(old(limiter)@, key@, now),
        match r {
            Some(n) => waits(old(limiter)@, key@, now) == Some(n as int),
            None => waits(old(limiter)@, key@, now) is None,
        },
{
    cleanup_sessions(sessions, now);
    limiter.retry_after(key, now)
}

/// Whether the password lets its owner in.
pub fn password_lets_in(
    allow_no_auth: bool,
    plain: Option<&str>,
    hash: Option<&str>,
    password: &str,
) -> (r: bool)
    ensures
        r == lets_in(allow_no_auth, str_option(plain), str_option(hash), password@),
{
    let short = password.as_bytes().len() <= MAX_PASSWORD_BYTES;
    short && verify_password(allow_no_auth, plain, hash, password)
}

/// Ends a login by whether the password was good: a failure is counted, and a
/// client that is let in has its failures forgotten and gets a session.
pub fn login_ends(
    sessions: &mut Sessions,
    limiter: &mut LoginRateLimiter,
    key: &str,
    good: bool,
    now: u64,
) -> (r: LoginOutcome)
    requires
        now <= LAST_TIME,
    ensures
        match r {
            LoginOutcome::Blocked { .. } => false,
            LoginOutcome::Invalid => {
                &&& !good
                &&& final(sessions)@ == old(sessions)@
                &&& final(limiter)@ == put(
                    old(limiter)@,
                    key@,
                    failed_again(lookup(old(limiter)@, key@), now),
                )
            },
            LoginOutcome::Welcome(info) => {
                &&& good
                &&& info.token@.len() == 48
                &&& info.csrf@.len() == 32
                &&& forall|i: int|
                    0 <= i < info.token@.len() ==> is_alnum(#[trigger] info.token@[i])
                &&& forall|i: int|
                    0 <= i < info.csrf@.len() ==> is_alnum(#[trigger] info.csrf@[i])
                &&& final(sessions)@ == put(
                    old(sessions)@,
                    info.token@,
                    SessionView { csrf: info.csrf@, expires_at: (now + SESSION_TTL) as u64 },
                )
                &&& final(limiter)@ == without(old(limiter)@, key@)
            },
        },
{
    if !good {
        limiter.record_failure(key, now);
        return LoginOutcome::Invalid;
    }
    limiter.record_success(key);
    LoginOutcome::Welcome(create_session(sessions, now))
}

/// Decides on a login by what the client did before and by the password. A
/// client that is blocked is not asked for its password.
pub fn login(
    sessions: &mut Sessions,
    limiter: &mut LoginRateLimiter,
    allow_no_auth: bool,
    plain: Option<&str>,
    hash: Option<&str>,
    key: &str,
    password: &str,
    now: u64,
) -> (r: LoginOutcome)
    requires
        now <= LAST_TIME,
    ensures
        ({
            let alive = alive_upto(old(sessions)@, now, old(sessions)@.len() as int);
            let seen = asked(old(limiter)@, key@, now);
            let wait = waits(old(limiter)@, key@, now);
            let good = lets_in(allow_no_auth, str_option(plain), str_option(hash), password@);
            match r {
                LoginOutcome::Blocked { retry_after } => {
                    &&& wait == Some(retry_after as int)
                    &&& final(sessions)@ == alive
                    &&& final(limiter)@ == seen
                },
                LoginOutcome::Invalid => {
                    &&& wait is None
                    &&& !good
                    &&& final(sessions)@ == alive
                    &&& final(limiter)@ == put(seen, key@, failed_again(lookup(seen, key@), now))
                },
                LoginOutcome::Welcome(info) => {
                    &&& wait is None
                    &&& good
                    &&& info.token@.len() == 48
                    &&& info.csrf@.len() == 32
                    &&& forall|i: int|
                        0 <= i < info.token@.len() ==> is_alnum(#[trigger] info.token@[i])
                    &&& forall|i: int|
                        0 <= i < info.csrf@.len() ==> is_alnum(#[trigger] info.csrf@[i])
                    &&& final(sessions)@ == put(
                        alive,
                        info.token@,
                        SessionView { csrf: info.csrf@, expires_at: (now + SESSION_TTL) as u64 },
                    )
                    &&& final(limiter)@ == without(seen, key@)
                },
            }
        }),
{
    if let Some(retry_after) = login_begins(sessions, limiter, key, now) {
        return LoginOutcome::Blocked { retry_after };
    }
    let good = password_lets_in(allow_no_auth, plain, hash, password);
    login_ends(sessions, limiter, key, good, now)
}

// ---------------------------------------------------------------------------
// Laws
// ---------------------------------------------------------------------------
/// A client that failed five times within a minute has to wait, whatever password
/// it gives.
pub proof fn law_blocked_after_failures(
    m: Seq<(Seq<char>, AttemptView)>,
    key: Seq<char>,
    times: Seq<u64>,
)
    requires
        times.len() == 5,
        distinct_keys(m),
        lookup(m, key) is None,
        forall|i: int, j: int| 0 <= i <= j < times.len() ==> times[i] <= times[j],
        times[4] - times[0] < LOGIN_WINDOW,
        times[4] <= LAST_TIME,
    ensures
        waits(failures_upto(m, key, times, 5), key, times[4]) == Some(60int),
{
    law_five_failures_block(m, key, times);
}

/// A client that logged in has not to wait.
pub proof fn law_free_after_success(
    m: Seq<(Seq<char>, AttemptView)>,
    key: Seq<char>,
    now: u64,
)
    requires
        distinct_keys(m),
    ensures
        waits(without(m, key), key, now) is None,
{
    law_lookup_without(m, key);
    lemma_fresh_absent(without(m, key), key, now);
}

/// A password of more than a kibibyte lets nobody in, even where none is asked for;
/// a shorter one lets its owner in where none is asked for or where it is the right
/// one.
pub proof fn law_long_passwords_refused(
    allow_no_auth: bool,
    plain: Option<Seq<char>>,
    hash: Option<Seq<char>>,
    password: Seq<char>,
)
    ensures
        encode_utf8(password).len() > 1024 ==> !lets_in(allow_no_auth, plain, hash, password),
        encode_utf8(password).len() <= 1024 && allow_no_auth ==> lets_in(
            allow_no_auth,
            plain,
            hash,
            password,
        ),
        encode_utf8(password).len() <= 1024 && !allow_no_auth ==> (lets_in(
            allow_no_auth,
            plain,
            hash,
            password,
        ) <==> accepts(plain, hash, password)),
{
}

/// Asking whether a client has to wait leaves the other clients as they are, and a
/// client that is not known unknown.
pub proof fn law_asking_keeps_others(
    attempts: Seq<(Seq<char>, AttemptView)>,
    key: Seq<char>,
    other: Seq<char>,
    now: u64,
)
    ensures
        other != key ==> lookup(asked(attempts, key, now), other) == lookup(
            fresh(attempts, now),
            other,
        ),
        lookup(fresh(attempts, now), key) is None ==> asked(attempts, key, now) == fresh(
            attempts,
            now,
        ),
        lookup(fresh(attempts, now), key) matches Some(a) ==> lookup(
            asked(attempts, key, now),
            key,
        ) == Some(seen_again(a, now)),
{
    let kept = fresh(attempts, now);
    if lookup(kept, key) is Some {
        let a = seen_again(lookup(kept, key)->0, now);
        crate::strmap::law_lookup_put(kept, key, a, other);
        crate::strmap::law_lookup_put(kept, key, a, key);
    }
}

} // verus!
