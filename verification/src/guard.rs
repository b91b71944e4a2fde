//! Access guard and logout: the per-request decision, and the end-session
//! redirect.

use vstd::prelude::*;
use vstd::string::StringExecFns;
use vstd::string::StringSliceAdditionalSpecFns;
use vstd::utf8::{encode_utf8, valid_utf8};
use crate::codec;
use crate::codec::{session_eq, session_len_wf, session_token, Session};
use crate::config::{ClientConfig, ProviderConfig};
use crate::encoding::{append_encoded, append_lit, enc_str, utf8_to_string};

verus! {

/// What the guard tells the embedding application to do with a request.
pub enum GuardDecision {
    /// Let the request through; when a session was decoded it is here.
    Allow { session: Option<Session> },
    /// Start a login and come back to `return_to` afterwards.
    StartLogin { return_to: String },
}

/// The application's route classifier: whether a request to this path
/// must be authenticated. Supplied by the embedding application and
/// treated as an opaque capability.
pub trait RoutePolicy {
    fn requires_auth(&self, path: &str) -> bool;
}

/// The per-request decision, taken after the route classifier has spoken.
/// A public route is always allowed. A protected route is allowed exactly
/// when the presented token decodes to an unexpired, untampered session;
/// a missing, foreign or expired token starts a login that returns to the
/// requested path.
pub fn decide(
    requires_auth: bool,
    token: Option<&String>,
    key: &Vec<u8>,
    now: u64,
    path: &str,
) -> (r: GuardDecision)
    ensures
        !requires_auth ==> (r matches GuardDecision::Allow { session } && session is None),
        requires_auth && token is None ==> (r matches GuardDecision::StartLogin { return_to }
            && return_to@ == path@),
        r matches GuardDecision::StartLogin { return_to } ==> requires_auth && return_to@
            == path@,
        r matches GuardDecision::Allow { session: None } ==> !requires_auth,
        r matches GuardDecision::Allow { session: Some(s2) } ==> (token matches Some(t) && t@
            == session_token(s2, key@) && session_len_wf(s2)),
        forall|s: Session|
            (token matches Some(t) && requires_auth && session_len_wf(s) && now < s.exp && t@
                == #[trigger] session_token(s, key@)) ==> (r matches GuardDecision::Allow {
                session,
            } && session matches Some(s2) && session_eq(s2, s)),
        r matches GuardDecision::Allow { session: Some(s2) } ==> s2.exp > now,
{
    if !requires_auth {
        return GuardDecision::Allow { session: None };
    }
    let t = match token {
        None => {
            return GuardDecision::StartLogin { return_to: String::from_str(path) };
        },
        Some(t) => t,
    };
    match codec::decode_session(t.as_str(), key, now) {
        Some(session) => GuardDecision::Allow { session: Some(session) },
        None => GuardDecision::StartLogin { return_to: String::from_str(path) },
    }
}

/// The guard as the middleware calls it: asks the route policy, then
/// decides.
pub fn guard_request<P: RoutePolicy>(
    policy: &P,
    path: &str,
    token: Option<&String>,
    key: &Vec<u8>,
    now: u64,
) -> (r: GuardDecision)
    ensures
        r matches GuardDecision::StartLogin { return_to } ==> return_to@ == path@,
        r matches GuardDecision::Allow { session: Some(s2) } ==> s2.exp > now && (token matches
            Some(t) && t@ == session_token(s2, key@) && session_len_wf(s2)),
{
    let needed = policy.requires_auth(path);
    decide(needed, token, key, now, path)
}

/// What the logout handler tells the embedding application to do: always
/// drop the local session, then redirect.
pub struct LogoutDirective {
    pub redirect_to: String,
    pub clear_session: bool,
}

/// The UTF-8 bytes of the logout redirect: the provider's end-session
/// endpoint carrying the post-logout redirect URI when both are
/// configured; the post-logout URI alone when the provider has no
/// end-session endpoint; the site root when nothing is configured.
pub open spec fn logout_url_bytes(
    end_session: Option<Seq<char>>,
    post_logout: Option<Seq<char>>,
) -> Seq<u8> {
    match end_session {
        Some(endpoint) => encode_utf8(endpoint) + (match post_logout {
            Some(uri) => "?post_logout_redirect_uri=".spec_bytes() + enc_str(uri),
            None => Seq::<u8>::empty(),
        }),
        None => match post_logout {
            Some(uri) => encode_utf8(uri),
            None => "/".spec_bytes(),
        },
    }
}

pub open spec fn opt_str_view(o: Option<String>) -> Option<Seq<char>> {
    match o {
        None => None,
        Some(s) => Some(s@),
    }
}

/// Builds the logout redirect and instructs the caller to clear the local
/// session.
pub fn build_logout_redirect(provider: &ProviderConfig, client: &ClientConfig) -> (r:
    LogoutDirective)
    ensures
        r.clear_session == true,
        encode_utf8(r.redirect_to@) == logout_url_bytes(
            opt_str_view(provider.end_session_endpoint),
            opt_str_view(client.post_logout_redirect_uri),
        ),
{
    let mut out: Vec<u8> = Vec::new();
    proof {
        assert(valid_utf8(out@));
    }
    match &provider.end_session_endpoint {
        Some(endpoint) => {
            append_lit(&mut out, endpoint.as_str());
            match &client.post_logout_redirect_uri {
                Some(uri) => {
                    append_lit(&mut out, "?post_logout_redirect_uri=");
                    append_encoded(&mut out, uri.as_str());
                },
                None => {},
            }
        },
        None => {
            match &client.post_logout_redirect_uri {
                Some(uri) => {
                    append_lit(&mut out, uri.as_str());
                },
                None => {
                    append_lit(&mut out, "/");
                },
            }
        },
    }
    proof {
        assert(out@ =~= logout_url_bytes(
            opt_str_view(provider.end_session_endpoint),
            opt_str_view(client.post_logout_redirect_uri),
        ));
    }
    let redirect_to = utf8_to_string(out);
    LogoutDirective { redirect_to, clear_session: true }
}

} // verus!
