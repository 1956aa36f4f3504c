//! Retry policy of the Drive calls: at most `DRIVE_MAX_RETRIES` attempts,
//! exponential backoff with jitter, token renewal on 401, rate limits (429,
//! 403 `rateLimitExceeded`) and server errors retried, 404 reported as a
//! missing object. The HTTP exchange itself runs in the application shell,
//! which asks these functions what to do after each attempt.
use vstd::prelude::*;
use vstd::arithmetic::power2::{lemma_pow2_unfold, pow2};
use rand::Rng;
use crate::constants::DRIVE_MAX_RETRIES;
use crate::error::AppError;

verus! {

/// What the caller does after an attempt.
#[derive(Debug, Clone, PartialEq, Eq)]
pub enum RetryStep {
    /// The response is the answer.
    Succeeded,
    /// Drop the cached access token and try again at once.
    RenewToken,
    /// Wait [`backoff_delay_ms`] for this attempt and try again.
    Backoff,
    /// Read the response body and decide with [`after_body`].
    ReadBody,
    /// Give up with this error.
    Failed(AppError),
}

/// 2xx.
pub open spec fn is_success(status: u16) -> bool {
    200 <= status <= 299
}

/// 5xx.
pub open spec fn is_server_error(status: u16) -> bool {
    500 <= status <= 599
}

/// The decision on the status line alone: a success is the answer; a 401
/// before the last attempt renews the token; anything else needs the body.
pub open spec fn spec_after_status(attempt: u32, status: u16) -> RetryStep {
    if is_success(status) {
        RetryStep::Succeeded
    } else if status == 401 && attempt < DRIVE_MAX_RETRIES {
        RetryStep::RenewToken
    } else {
        RetryStep::ReadBody
    }
}

/// What to do after attempt number `attempt` (from 1) answered with `status`.
pub fn after_status(attempt: u32, status: u16) -> (r: RetryStep)
    ensures
        r == spec_after_status(attempt, status),
{
    if 200 <= status && status <= 299 {
        RetryStep::Succeeded
    } else if status == 401 && attempt < DRIVE_MAX_RETRIES {
        RetryStep::RenewToken
    } else {
        RetryStep::ReadBody
    }
}

/// `pat` occurs in `s` at some position.
pub open spec fn has_infix(s: Seq<char>, pat: Seq<char>) -> bool {
    exists|i: int| 0 <= i && i + pat.len() <= s.len() && #[trigger] s.subrange(i, i + pat.len()) == pat
}

/// `pat` occurs in `s`.
pub fn contains_text(s: &str, pat: &str) -> (r: bool)
    ensures
        r == has_infix(s@, pat@),
{
    let n = s.unicode_len();
    let m = pat.unicode_len();
    if m > n {
        assert forall|i: int| 0 <= i && i + pat@.len() <= s@.len() implies
            #[trigger] s@.subrange(i, i + pat@.len()) != pat@ by {}
        return false;
    }
    let mut i: usize = 0;
    while i <= n - m
        invariant
            m <= n,
            n == s@.len(),
            m == pat@.len(),
            i <= n - m + 1,
            forall|k: int| 0 <= k < i ==> #[trigger] s@.subrange(k, k + m) != pat@,
        decreases n - m + 1 - i,
    {
        let mut j: usize = 0;
        let mut same = true;
        while j < m
            invariant
                m <= n,
                i <= n - m,
                n == s@.len(),
                m == pat@.len(),
                j <= m,
                same == (forall|t: int| 0 <= t < j ==> s@[i + t] == pat@[t]),
            decreases m - j,
        {
            if s.get_char(i + j) != pat.get_char(j) {
                same = false;
            }
            j = j + 1;
        }
        if same {
            assert(s@.subrange(i as int, i + m) =~= pat@);
            return true;
        }
        assert(s@.subrange(i as int, i + m) != pat@) by {
            let t = choose|t: int| 0 <= t < m && s@[i + t] != pat@[t];
            assert(s@.subrange(i as int, i + m)[t] == s@[i + t]);
        }
        i = i + 1;
    }
    assert forall|k: int| 0 <= k && k + pat@.len() <= s@.len() implies
        #[trigger] s@.subrange(k, k + pat@.len()) != pat@ by {
        assert(k < i);
    }
    false
}

/// The body of a 403 that reports a rate limit.
pub const RATE_LIMIT_MARKER: &'static str = "ateLimitExceeded";

/// A rate limit: 429, or 403 whose body reports `rateLimitExceeded`.
pub open spec fn rate_limited(status: u16, body: Seq<char>) -> bool {
    status == 429 || (status == 403 && has_infix(body, RATE_LIMIT_MARKER@))
}

/// Once the body of a failed response is known, it is retried (after a
/// backoff) when it is a rate limit or a server error and attempts remain.
pub open spec fn retries_after_body(attempt: u32, status: u16, body: Seq<char>) -> bool {
    (rate_limited(status, body) || is_server_error(status)) && attempt < DRIVE_MAX_RETRIES
}

/// Message of a missing object: `<op>: <body>`.
pub open spec fn not_found_detail(op_name: Seq<char>, body: Seq<char>) -> Seq<char> {
    op_name + ": "@ + body
}

/// Message of another failure: `Drive <op> falhou (<status>): <body>`.
pub open spec fn failure_detail(op_name: Seq<char>, status_text: Seq<char>, body: Seq<char>) -> Seq<char> {
    "Drive "@ + op_name + " falhou ("@ + status_text + "): "@ + body
}

/// What to do after a failed response whose body is `body`; `status_text` is
/// the status as displayed (code and reason).
pub fn after_body(op_name: &str, attempt: u32, status: u16, status_text: &str, body: &str) -> (r: RetryStep)
    ensures
        ({
            let retry = retries_after_body(attempt, status, body@);
            &&& retry ==> r == RetryStep::Backoff
            &&& (500 <= status <= 599 && attempt < DRIVE_MAX_RETRIES) ==> r == RetryStep::Backoff
            &&& (!retry && status == 404) ==> (r matches RetryStep::Failed(AppError::DriveObjectNotFound(d))
                && d@ == not_found_detail(op_name@, body@))
            &&& (!retry && status != 404) ==> (r matches RetryStep::Failed(AppError::Other(d))
                && d@ == failure_detail(op_name@, status_text@, body@))
        }),
{
    let limited = status == 429 || (status == 403 && contains_text(body, RATE_LIMIT_MARKER));
    if (limited || (500 <= status && status <= 599)) && attempt < DRIVE_MAX_RETRIES {
        RetryStep::Backoff
    } else if status == 404 {
        let d = op_name.to_owned().concat(": ").concat(body);
        proof {
            reveal_strlit(": ");
        }
        RetryStep::Failed(AppError::DriveObjectNotFound(d))
    } else {
        let d = "Drive ".to_owned().concat(op_name).concat(" falhou (").concat(status_text).concat("): ").concat(body);
        RetryStep::Failed(AppError::Other(d))
    }
}

/// What to do after attempt `attempt` failed without a response (network
/// error `err`): retry with backoff before the last attempt, else give up with
/// that error.
pub fn after_network_error(attempt: u32, err: AppError) -> (r: RetryStep)
    ensures
        attempt < DRIVE_MAX_RETRIES ==> r == RetryStep::Backoff,
        attempt >= DRIVE_MAX_RETRIES ==> r == RetryStep::Failed(err),
{
    if attempt < DRIVE_MAX_RETRIES {
        RetryStep::Backoff
    } else {
        RetryStep::Failed(err)
    }
}

/// No attempt from the last one on is retried: after it the caller either has
/// its answer, reads the body to build its error, or gives up.
pub proof fn lemma_last_attempt_is_final(attempt: u32, status: u16, body: Seq<char>)
    requires
        attempt >= DRIVE_MAX_RETRIES,
    ensures
        spec_after_status(attempt, status) != RetryStep::RenewToken,
        !retries_after_body(attempt, status, body),
{
}

/// A success is never retried, at any attempt.
pub proof fn lemma_success_is_final(attempt: u32, status: u16)
    requires
        is_success(status),
    ensures
        spec_after_status(attempt, status) == RetryStep::Succeeded,
{
}

/// `2^n`, saturated at `u64::MAX` (as `saturating_pow`).
pub open spec fn sat_pow2(n: nat) -> int {
    if pow2(n) > u64::MAX { u64::MAX as int } else { pow2(n) as int }
}

/// Base delay before retrying after attempt `attempt`: 500 ms, 1 s, 2 s, ...
/// (`500 * 2^(attempt - 1)`, saturated at `u64::MAX`).
pub open spec fn spec_backoff_base(attempt: u32) -> int {
    let n: nat = if attempt == 0 { 0 } else { (attempt - 1) as nat };
    let b = 500 * sat_pow2(n);
    if b > u64::MAX { u64::MAX as int } else { b }
}

/// Base delay in ms before retrying after attempt `attempt`.
pub fn backoff_base_ms(attempt: u32) -> (r: u64)
    ensures
        r == spec_backoff_base(attempt),
{
    let n: u32 = if attempt == 0 { 0 } else { attempt - 1 };
    let mut p: u64 = 1;
    let mut i: u32 = 0;
    proof {
        vstd::arithmetic::power::lemma_pow0(2);
    }
    while i < n
        invariant
            i <= n,
            p == sat_pow2(i as nat),
        decreases n - i,
    {
        proof {
            lemma_pow2_unfold((i + 1) as nat);
        }
        p = match p.checked_mul(2) {
            Some(q) => q,
            None => u64::MAX,
        };
        i = i + 1;
    }
    match 500u64.checked_mul(p) {
        Some(b) => b,
        None => u64::MAX,
    }
}

/// The jitter added to a backoff is drawn below this many ms.
pub const BACKOFF_JITTER_MS: u64 = 250;

/// `rand::thread_rng().gen_range(0..bound)`: a uniformly random number in
/// `[0, bound)`.
#[verifier::external_body]
fn random_below(bound: u64) -> (r: u64)
    requires
        bound > 0,
    ensures
        r < bound,
{
    rand::thread_rng().gen_range(0..bound)
}

/// The delay before retrying after attempt `attempt` when `jitter` ms were
/// drawn: the base delay plus the jitter.
pub fn jittered_delay(attempt: u32, jitter: u64) -> (r: u64)
    requires
        jitter < BACKOFF_JITTER_MS,
        spec_backoff_base(attempt) + BACKOFF_JITTER_MS - 1 <= u64::MAX,
    ensures
        r == spec_backoff_base(attempt) + jitter,
{
    backoff_base_ms(attempt) + jitter
}

/// Delay in ms before retrying after attempt `attempt`: the base delay plus a
/// random jitter below `BACKOFF_JITTER_MS`.
pub fn backoff_delay_ms(attempt: u32) -> (r: u64)
    requires
        spec_backoff_base(attempt) + BACKOFF_JITTER_MS - 1 <= u64::MAX,
    ensures
        spec_backoff_base(attempt) <= r < spec_backoff_base(attempt) + BACKOFF_JITTER_MS,
{
    let jitter = random_below(BACKOFF_JITTER_MS);
    jittered_delay(attempt, jitter)
}

} // verus!
