//! The callback state machine: from the provider's callback parameters
//! through the code exchange to a validated session.
//!
//! The exchange itself is an HTTP POST that the embedding application
//! performs; this module decides everything around it — whether to
//! exchange at all, what exactly to send, and what the response means.

use vstd::prelude::*;
use vstd::string::StringSliceAdditionalSpecFns;
use vstd::utf8::{encode_utf8, valid_utf8};
use crate::codec::Session;
use crate::config::{ClientConfig, ProviderConfig};
use crate::crypto;
use crate::encoding::{append_encoded, append_lit, enc_str, utf8_to_string};
use crate::errors::AuthError;
use crate::pending::PendingLogin;
use crate::validate;
use crate::validate::{audience_accepted, claims_ok, IdTokenClaims};

verus! {

/// The provider's callback parameters: an authorization code with the
/// echoed state, or an error.
pub struct AuthorizationResult {
    pub code: Option<String>,
    pub state: Option<String>,
    pub error: Option<String>,
    pub error_description: Option<String>,
}

/// The exchange request the application must POST: the token endpoint and
/// the form-encoded body.
pub struct TokenRequest {
    pub endpoint: String,
    pub body: String,
}

/// What the application observed when it performed the exchange.
pub enum ExchangeOutcome {
    /// The endpoint answered; here is the response body.
    Response { body: Vec<u8> },
    /// The endpoint could not be reached in time.
    TransportFailure,
}

/// The states of one callback being handled.
pub enum CallbackState {
    /// Nothing received yet.
    AwaitingCallback,
    /// The callback was checked; the exchange request must now be sent.
    ExchangePending { request: TokenRequest },
    /// The exchange answered; the identity token is being validated.
    Validating,
    /// A session was established; send the user to `return_to`.
    Succeeded { session: Session, return_to: String },
    /// The callback was rejected.
    Rejected { reason: AuthError },
}

/// The UTF-8 bytes of the form-encoded token-exchange body.
pub open spec fn token_request_bytes(
    code: Seq<char>,
    redirect_uri: Seq<char>,
    client_id: Seq<char>,
    secret: Option<Seq<char>>,
    verifier: Option<Seq<char>>,
) -> Seq<u8> {
    "grant_type=authorization_code&code=".spec_bytes() + enc_str(code)
        + "&redirect_uri=".spec_bytes() + enc_str(redirect_uri) + "&client_id=".spec_bytes()
        + enc_str(client_id) + (match secret {
        None => Seq::<u8>::empty(),
        Some(sec) => "&client_secret=".spec_bytes() + enc_str(sec),
    }) + (match verifier {
        None => Seq::<u8>::empty(),
        Some(ver) => "&code_verifier=".spec_bytes() + enc_str(ver),
    })
}

/// Whether the callback's echoed state matches the pending login's state.
pub open spec fn state_matched(pending: PendingLogin, result: AuthorizationResult) -> bool {
    result.state matches Some(st) && st@ == pending.state@
}

/// When the callback carries a code, `r` must be the exchange request for
/// exactly that code.
pub open spec fn exchange_request_correct(
    pending: PendingLogin,
    provider: ProviderConfig,
    client: ClientConfig,
    result: AuthorizationResult,
    r: CallbackState,
) -> bool {
    match result.code {
        Some(code) => r matches CallbackState::ExchangePending { request } && request.endpoint@
            == provider.token_endpoint@ && encode_utf8(request.body@) == token_request_bytes(
            code@,
            client.redirect_uri@,
            client.client_id@,
            opt_view(client.client_secret),
            pending_verifier(pending),
        ),
        None => true,
    }
}

/// The PKCE verifier a pending login carries, if it carries one.
pub open spec fn pending_verifier(p: PendingLogin) -> Option<Seq<char>> {
    match p.pkce {
        None => None,
        Some(pair) => Some(pair.verifier@),
    }
}

pub open spec fn opt_view(o: Option<String>) -> Option<Seq<char>> {
    match o {
        None => None,
        Some(s) => Some(s@),
    }
}

/// Builds the exchange request body for this authorization code.
fn build_token_request(
    code: &str,
    provider: &ProviderConfig,
    client: &ClientConfig,
    pending: &PendingLogin,
) -> (r: TokenRequest)
    ensures
        r.endpoint@ == provider.token_endpoint@,
        encode_utf8(r.body@) == token_request_bytes(
            code@,
            client.redirect_uri@,
            client.client_id@,
            opt_view(client.client_secret),
            pending_verifier(*pending),
        ),
{
    let mut out: Vec<u8> = Vec::new();
    proof {
        assert(valid_utf8(out@));
    }
    append_lit(&mut out, "grant_type=authorization_code&code=");
    append_encoded(&mut out, code);
    append_lit(&mut out, "&redirect_uri=");
    append_encoded(&mut out, client.redirect_uri.as_str());
    append_lit(&mut out, "&client_id=");
    append_encoded(&mut out, client.client_id.as_str());
    match &client.client_secret {
        None => {},
        Some(sec) => {
            append_lit(&mut out, "&client_secret=");
            append_encoded(&mut out, sec.as_str());
        },
    }
    match &pending.pkce {
        None => {},
        Some(pair) => {
            append_lit(&mut out, "&code_verifier=");
            append_encoded(&mut out, pair.verifier.as_str());
        },
    }
    proof {
        assert(out@ =~= token_request_bytes(
            code@,
            client.redirect_uri@,
            client.client_id@,
            opt_view(client.client_secret),
            pending_verifier(*pending),
        ));
    }
    let body = utf8_to_string(out);
    let endpoint = provider.token_endpoint.clone();
    TokenRequest { endpoint, body }
}

/// Handles the provider's callback parameters. A provider-reported error
/// is surfaced as it is; a state mismatch is rejected outright, whatever
/// the code; a missing code is rejected; otherwise the exchange request is
/// produced.
pub fn on_authorization_response(
    pending: &PendingLogin,
    provider: &ProviderConfig,
    client: &ClientConfig,
    result: &AuthorizationResult,
) -> (r: CallbackState)
    ensures
        result.error matches Some(code) ==> (r matches CallbackState::Rejected { reason }
            && reason matches AuthError::IdpError { code: c, description: d } && c@ == code@
            && opt_view(d) == opt_view(result.error_description)),
        result.error is None && !state_matched(*pending, *result) ==> (
        r matches CallbackState::Rejected { reason } && reason is StateMismatch),
        result.error is None && state_matched(*pending, *result) && result.code is None ==> (
        r matches CallbackState::Rejected { reason } && reason is MissingCode),
        result.error is None && state_matched(*pending, *result) && result.code is Some
            ==> exchange_request_correct(*pending, *provider, *client, *result, r),
{
    match &result.error {
        Some(code) => {
            let description = match &result.error_description {
                Some(d) => Some(d.clone()),
                None => None,
            };
            return CallbackState::Rejected {
                reason: AuthError::IdpError { code: code.clone(), description },
            };
        },
        None => {},
    }
    let state_ok = match &result.state {
        Some(st) => pending.state_matches(st.as_str()),
        None => false,
    };
    if !state_ok {
        return CallbackState::Rejected { reason: AuthError::StateMismatch };
    }
    match &result.code {
        None => CallbackState::Rejected { reason: AuthError::MissingCode },
        Some(code) => {
            let request = build_token_request(code.as_str(), provider, client, pending);
            CallbackState::ExchangePending { request }
        },
    }
}

/// Handles what came back from the token endpoint. A transport failure is
/// the one transient rejection; everything else either fails validation
/// or yields a session built from the validated claims, together with the
/// original return-to URL.
pub fn on_exchange_response(
    pending: &PendingLogin,
    provider: &ProviderConfig,
    client: &ClientConfig,
    outcome: ExchangeOutcome,
    now: u64,
) -> (r: CallbackState)
    ensures
        r is Succeeded || r is Rejected,
        outcome is TransportFailure ==> (r matches CallbackState::Rejected { reason }
            && reason is Transient),
        (r matches CallbackState::Rejected { reason } && reason is Transient)
            ==> outcome is TransportFailure,
        r matches CallbackState::Succeeded { session, return_to } ==> {
            &&& return_to@ == pending.return_to@
            &&& session.exp > now
            &&& session.issuer@ == provider.issuer@
            &&& audience_accepted(
                session.audience.deep_view(),
                client.client_id@,
                client.additional_audiences.deep_view(),
            )
        },
        r matches CallbackState::Succeeded { session, return_to } ==> exists|c: IdTokenClaims|
            {
                &&& #[trigger] claims_ok(
                    c,
                    provider.issuer@,
                    client.client_id@,
                    client.additional_audiences.deep_view(),
                    pending.nonce@,
                    now,
                )
                &&& session.subject@ == c.subject@
                &&& session.issuer@ == c.issuer@
                &&& session.audience.deep_view() == c.audience.deep_view()
                &&& session.exp == c.exp
                &&& session.iat == c.iat
            },
{
    let body = match outcome {
        ExchangeOutcome::TransportFailure => {
            return CallbackState::Rejected { reason: AuthError::Transient };
        },
        ExchangeOutcome::Response { body } => body,
    };
    let parsed = match crypto::json_parse(body.as_slice()) {
        Some(v) => v,
        None => {
            return CallbackState::Rejected { reason: AuthError::InvalidTokenResponse };
        },
    };
    let id_token = match crate::config::read_string_member(&parsed, "id_token") {
        Some(s) => s,
        None => {
            return CallbackState::Rejected { reason: AuthError::InvalidTokenResponse };
        },
    };
    let access_token = match crate::config::read_string_member(&parsed, "access_token") {
        Some(s) => s,
        None => {
            return CallbackState::Rejected { reason: AuthError::InvalidTokenResponse };
        },
    };
    let refresh_token = crate::config::read_string_member(&parsed, "refresh_token");
    let claims = match validate::validate_id_token(
        id_token.as_str(),
        provider,
        client,
        pending.nonce.as_str(),
        now,
    ) {
        Ok(c) => c,
        Err(e) => {
            return CallbackState::Rejected { reason: e };
        },
    };
    let session = Session {
        subject: claims.subject,
        issuer: claims.issuer,
        audience: claims.audience,
        exp: claims.exp,
        iat: claims.iat,
        access_token,
        refresh_token,
    };
    let return_to = pending.return_to.clone();
    CallbackState::Succeeded { session, return_to }
}

} // verus!
