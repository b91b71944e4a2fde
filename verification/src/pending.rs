//! Pending login attempts: the anti-CSRF state, the anti-replay nonce and
//! the optional PKCE pair bound to one redirect to the provider.

use vstd::prelude::*;
use vstd::string::StringExecFns;
use crate::crypto;
use crate::crypto::is_token_char;
use crate::pkce;
use crate::pkce::PkcePair;

verus! {

/// Length of the state and nonce tokens: 32 alphanumeric characters carry
/// more than 128 bits of entropy.
pub const LOGIN_TOKEN_LEN: usize = 32;

/// How long a pending login stays valid, in seconds; a callback after
/// this window is treated like one with no pending login at all.
pub const PENDING_LOGIN_TTL: u64 = 600;

/// One login attempt between redirect-out and redirect-back. Owned by the
/// requester; the state value is single-use.
pub struct PendingLogin {
    /// Anti-CSRF token, matched exactly against the callback's `state`.
    pub state: String,
    /// Anti-replay token, matched against the identity token's nonce claim.
    pub nonce: String,
    /// The PKCE pair, when the client is configured to use PKCE.
    pub pkce: Option<PkcePair>,
    /// Where to send the user after the login completes.
    pub return_to: String,
    /// When this attempt stops being valid, seconds since the epoch.
    pub expires_at: u64,
}

impl PendingLogin {
    /// A pending login as `begin_login` creates it.
    pub open spec fn wf(self) -> bool {
        &&& self.state@.len() == LOGIN_TOKEN_LEN
        &&& self.nonce@.len() == LOGIN_TOKEN_LEN
        &&& forall|i: int| 0 <= i < self.state@.len() ==> is_token_char(#[trigger] self.state@[i])
        &&& forall|i: int| 0 <= i < self.nonce@.len() ==> is_token_char(#[trigger] self.nonce@[i])
        &&& (self.pkce matches Some(p) ==> p.consistent())
    }

    /// Exact comparison of the callback's returned state against this
    /// attempt's state; any difference is a mismatch.
    pub fn state_matches(&self, returned_state: &str) -> (r: bool)
        ensures
            r == (self.state@ == returned_state@),
    {
        crate::encoding::str_eq(self.state.as_str(), returned_state)
    }
}

/// One validity window past `now`, capped at the largest timestamp.
pub open spec fn pending_expiry(now: u64) -> u64 {
    if now > u64::MAX - PENDING_LOGIN_TTL {
        u64::MAX
    } else {
        (now + PENDING_LOGIN_TTL) as u64
    }
}

/// Starts a login attempt: fresh independent random state and nonce, a
/// PKCE pair when asked for, the URL to return to afterwards, and an
/// expiry one validity window from `now`.
pub fn begin_login(return_to: String, use_pkce: bool, now: u64) -> (r: PendingLogin)
    ensures
        r.wf(),
        r.return_to == return_to,
        r.pkce is Some <==> use_pkce,
        r.expires_at == pending_expiry(now),
        r.expires_at >= now,
{
    let state = crypto::random_token(LOGIN_TOKEN_LEN);
    let nonce = crypto::random_token(LOGIN_TOKEN_LEN);
    let pkce_pair = if use_pkce {
        Some(pkce::generate())
    } else {
        None
    };
    let expires_at = if now > u64::MAX - PENDING_LOGIN_TTL {
        u64::MAX
    } else {
        now + PENDING_LOGIN_TTL
    };
    PendingLogin { state, nonce, pkce: pkce_pair, return_to, expires_at }
}

} // verus!
