//! Google authentication state: what the front end sees of the connection and
//! when a cached access token must be renewed. The OAuth flow itself, the HTTP
//! calls and the secret store live in the application shell.
use vstd::prelude::*;
use crate::error::{AppError, AppResult};

verus! {

/// State of the Google Drive connection shown to the front end.
#[derive(Debug, Clone)]
pub struct AuthStatus {
    pub connected: bool,
    pub email: Option<String>,
}

impl AuthStatus {
    /// Not connected, no account.
    pub fn disconnected() -> (r: Self)
        ensures
            !r.connected,
            r.email is None,
    {
        AuthStatus { connected: false, email: None }
    }
}

/// What is persisted in the secret store: the refresh token and the account.
#[derive(Debug, Clone)]
pub struct StoredAuth {
    pub refresh_token: String,
    pub email: Option<String>,
}

/// Connected means that a refresh token is stored (no network needed); the
/// account shown is the one stored with it. An unreadable record counts as
/// nothing stored.
pub fn status_from_stored(stored: Option<StoredAuth>) -> (r: AuthStatus)
    ensures
        r.connected == stored is Some,
        match stored {
            Some(a) => r.email == a.email,
            None => r.email is None,
        },
{
    match stored {
        Some(auth) => AuthStatus { connected: true, email: auth.email },
        None => AuthStatus::disconnected(),
    }
}

/// The access token is renewed when less than this remains before it expires.
pub const TOKEN_EXPIRY_MARGIN_MS: u64 = 60_000;

/// Instant (in ms on the caller's monotonic clock) at which a token obtained at
/// `now_ms` with a lifetime of `expires_in_s` seconds expires.
pub fn token_expiry(now_ms: u64, expires_in_s: u64) -> (r: u64)
    ensures
        now_ms + expires_in_s * 1000 <= u64::MAX ==> r == now_ms + expires_in_s * 1000,
        now_ms + expires_in_s * 1000 > u64::MAX ==> r == u64::MAX,
{
    let life = expires_in_s.checked_mul(1000);
    match life {
        Some(l) => match now_ms.checked_add(l) {
            Some(e) => e,
            None => u64::MAX,
        },
        None => u64::MAX,
    }
}

/// A cached token is used as is while it expires more than the margin after now.
pub open spec fn spec_token_fresh(expires_at_ms: u64, now_ms: u64) -> bool {
    expires_at_ms > now_ms + TOKEN_EXPIRY_MARGIN_MS
}

/// The cached token can still be used at `now_ms`.
pub fn token_is_fresh(expires_at_ms: u64, now_ms: u64) -> (r: bool)
    ensures
        r == spec_token_fresh(expires_at_ms, now_ms),
{
    match now_ms.checked_add(TOKEN_EXPIRY_MARGIN_MS) {
        Some(limit) => expires_at_ms > limit,
        None => false,
    }
}

/// A token that lives longer than the margin is fresh right after it is
/// obtained, so the next call does not renew it again.
pub proof fn lemma_new_token_is_fresh(now_ms: u64, expires_in_s: u64)
    requires
        expires_in_s * 1000 > TOKEN_EXPIRY_MARGIN_MS,
        now_ms + expires_in_s * 1000 <= u64::MAX,
    ensures
        spec_token_fresh((now_ms + expires_in_s * 1000) as u64, now_ms),
{
}

/// A fresh token stays fresh at any earlier instant.
pub proof fn lemma_fresh_is_monotone(expires_at_ms: u64, earlier: u64, later: u64)
    requires
        earlier <= later,
        spec_token_fresh(expires_at_ms, later),
    ensures
        spec_token_fresh(expires_at_ms, earlier),
{
}

/// The refresh token that Google must return on consent; without it the
/// connection cannot be renewed and is refused with an authentication error.
pub fn require_refresh_token(refresh_token: Option<String>) -> (r: AppResult<String>)
    ensures
        match refresh_token {
            Some(t) => r == Ok::<String, AppError>(t),
            None => r is Err && r->Err_0 is Auth,
        },
{
    match refresh_token {
        Some(t) => Ok(t),
        None => Err(AppError::Auth(
            "o Google não retornou um refresh token; revogue o acesso do RetroSync em myaccount.google.com/permissions e conecte novamente".to_string(),
        )),
    }
}

/// Access to the Drive needs a stored credential; without one the request is
/// refused as not connected.
pub fn require_stored(stored: Option<StoredAuth>) -> (r: AppResult<StoredAuth>)
    ensures
        match stored {
            Some(a) => r == Ok::<StoredAuth, AppError>(a),
            None => r is Err && r->Err_0 is Auth,
        },
{
    match stored {
        Some(a) => Ok(a),
        None => Err(AppError::Auth("não conectado ao Google Drive".to_string())),
    }
}

} // verus!
