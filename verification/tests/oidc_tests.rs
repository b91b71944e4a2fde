use std::collections::HashSet;

use base64::engine::general_purpose::URL_SAFE_NO_PAD;
use base64::Engine as _;
use hmac::Mac as _;
use sha2::Digest as _;

use oidc_core::authorize;
use oidc_core::codec::{self, Session};
use oidc_core::config::{self, ClientConfig, DiscoveryDocument, InitError, ProviderConfig, SigningKey};
use oidc_core::errors::{AuthError, ErrorClass};
use oidc_core::flow::{self, AuthorizationResult, CallbackState, ExchangeOutcome};
use oidc_core::guard::{self, GuardDecision, RoutePolicy};
use oidc_core::pending::{self, PendingLogin};
use oidc_core::pkce::{self, PkcePair};
use oidc_core::validate::{self, IdTokenClaims};

const NOW: u64 = 1_700_000_000;

fn test_provider() -> ProviderConfig {
    ProviderConfig {
        issuer: "https://idp.example".to_string(),
        authorization_endpoint: "https://idp.example/authorize".to_string(),
        token_endpoint: "https://idp.example/token".to_string(),
        end_session_endpoint: Some("https://idp.example/logout".to_string()),
        jwks: vec![SigningKey::Hmac { secret: b"test-secret".to_vec() }],
    }
}

fn test_client() -> ClientConfig {
    ClientConfig {
        client_id: "my-client".to_string(),
        client_secret: Some("s3cr3t".to_string()),
        redirect_uri: "https://app.example/cb".to_string(),
        scopes: vec!["email".to_string(), "profile".to_string()],
        additional_audiences: vec!["other-api".to_string()],
        use_pkce: true,
        post_logout_redirect_uri: Some("https://app.example/".to_string()),
    }
}

fn test_pending() -> PendingLogin {
    let verifier = "dBjftJeZ4CVP-mB92K27uhbUJU1p1r_wW1gFWFOEjXk".to_string();
    let challenge = pkce::derive_challenge(&verifier);
    PendingLogin {
        state: "statestatestatestatestatestate12".to_string(),
        nonce: "noncenoncenoncenoncenoncenonce12".to_string(),
        pkce: Some(PkcePair { verifier, challenge }),
        return_to: "/dashboard".to_string(),
        expires_at: NOW + 600,
    }
}

fn test_claims() -> IdTokenClaims {
    IdTokenClaims {
        issuer: "https://idp.example".to_string(),
        subject: "user-123".to_string(),
        audience: vec!["my-client".to_string()],
        exp: NOW + 3600,
        iat: NOW,
        nonce: Some("noncenoncenoncenoncenoncenonce12".to_string()),
    }
}

fn test_session() -> Session {
    Session {
        subject: "user-123".to_string(),
        issuer: "https://idp.example".to_string(),
        audience: vec!["my-client".to_string(), "other-api".to_string()],
        exp: NOW + 3600,
        iat: NOW,
        access_token: "access-token-opaque".to_string(),
        refresh_token: Some("refresh-token-opaque".to_string()),
    }
}

fn hs256_id_token(claims_json: &str, secret: &[u8]) -> String {
    let header = URL_SAFE_NO_PAD.encode(br#"{"alg":"HS256","typ":"JWT"}"#);
    let payload = URL_SAFE_NO_PAD.encode(claims_json.as_bytes());
    let signing_input = format!("{header}.{payload}");
    let key = jsonwebtoken::EncodingKey::from_secret(secret);
    let sig = jsonwebtoken::crypto::sign(
        signing_input.as_bytes(),
        &key,
        jsonwebtoken::Algorithm::HS256,
    )
    .unwrap();
    format!("{signing_input}.{sig}")
}

fn good_token_response_body() -> Vec<u8> {
    let p = test_pending();
    let claims = format!(
        r#"{{"iss":"https://idp.example","sub":"user-123","aud":"my-client","exp":{},"iat":{},"nonce":"{}"}}"#,
        NOW + 3600,
        NOW,
        p.nonce
    );
    let id_token = hs256_id_token(&claims, b"test-secret");
    format!(
        r#"{{"id_token":"{id_token}","access_token":"AT-1","refresh_token":"RT-1","token_type":"Bearer"}}"#
    )
    .into_bytes()
}

// ---- PKCE ----

#[test]
fn pkce_round_trip() {
    let pair = pkce::generate();
    assert_eq!(pkce::derive_challenge(&pair.verifier), pair.challenge);
    let expected = URL_SAFE_NO_PAD.encode(sha2::Sha256::digest(pair.verifier.as_bytes()));
    assert_eq!(pair.challenge, expected);
    assert_eq!(pair.verifier.len(), 64);
}

#[test]
fn pkce_known_answer() {
    // The S256 example pair from the PKCE RFC.
    let challenge = pkce::derive_challenge("dBjftJeZ4CVP-mB92K27uhbUJU1p1r_wW1gFWFOEjXk");
    assert_eq!(challenge, "E9Melhoa2OwvFrEMTJguCHaoeK1t8URWbuGJSstw-cM");
}

// ---- state / nonce entropy ----

#[test]
fn state_and_nonce_unique_across_many_generations() {
    let mut seen: HashSet<String> = HashSet::new();
    for _ in 0..10_000 {
        let p = pending::begin_login("/".to_string(), false, NOW);
        assert_eq!(p.state.len(), 32);
        assert_eq!(p.nonce.len(), 32);
        assert!(seen.insert(p.state.clone()), "state collided");
        assert!(seen.insert(p.nonce.clone()), "nonce collided");
    }
}

// ---- callback: state checking ----

#[test]
fn mismatched_state_is_rejected_even_with_code() {
    let pending = test_pending();
    let result = AuthorizationResult {
        code: Some("valid-looking-code".to_string()),
        state: Some("some-other-state".to_string()),
        error: None,
        error_description: None,
    };
    let step =
        flow::on_authorization_response(&pending, &test_provider(), &test_client(), &result);
    match step {
        CallbackState::Rejected { reason } => assert!(matches!(reason, AuthError::StateMismatch)),
        _ => panic!("expected rejection"),
    }
}

#[test]
fn missing_state_is_rejected() {
    let pending = test_pending();
    let result = AuthorizationResult {
        code: Some("c".to_string()),
        state: None,
        error: None,
        error_description: None,
    };
    let step =
        flow::on_authorization_response(&pending, &test_provider(), &test_client(), &result);
    assert!(matches!(step, CallbackState::Rejected { reason: AuthError::StateMismatch }));
}

#[test]
fn provider_error_is_surfaced() {
    let pending = test_pending();
    let result = AuthorizationResult {
        code: None,
        state: Some(pending.state.clone()),
        error: Some("access_denied".to_string()),
        error_description: Some("user said no".to_string()),
    };
    let step =
        flow::on_authorization_response(&pending, &test_provider(), &test_client(), &result);
    match step {
        CallbackState::Rejected { reason: AuthError::IdpError { code, description } } => {
            assert_eq!(code, "access_denied");
            assert_eq!(description.as_deref(), Some("user said no"));
        }
        _ => panic!("expected the provider's error"),
    }
}

#[test]
fn missing_code_is_rejected() {
    let pending = test_pending();
    let result = AuthorizationResult {
        code: None,
        state: Some(pending.state.clone()),
        error: None,
        error_description: None,
    };
    let step =
        flow::on_authorization_response(&pending, &test_provider(), &test_client(), &result);
    assert!(matches!(step, CallbackState::Rejected { reason: AuthError::MissingCode }));
}

#[test]
fn exchange_request_is_exact() {
    let pending = test_pending();
    let result = AuthorizationResult {
        code: Some("the/code".to_string()),
        state: Some(pending.state.clone()),
        error: None,
        error_description: None,
    };
    let step =
        flow::on_authorization_response(&pending, &test_provider(), &test_client(), &result);
    match step {
        CallbackState::ExchangePending { request } => {
            assert_eq!(request.endpoint, "https://idp.example/token");
            assert_eq!(
                request.body,
                "grant_type=authorization_code&code=the%2Fcode\
                 &redirect_uri=https%3A%2F%2Fapp.example%2Fcb\
                 &client_id=my-client&client_secret=s3cr3t\
                 &code_verifier=dBjftJeZ4CVP-mB92K27uhbUJU1p1r_wW1gFWFOEjXk"
            );
        }
        _ => panic!("expected an exchange request"),
    }
}

// ---- claim checks ----

#[test]
fn expired_token_is_rejected() {
    let mut claims = test_claims();
    claims.exp = NOW;
    let r = validate::check_claims(&claims, &test_provider(), &test_client(), &test_pending().nonce, NOW);
    assert!(matches!(r, Err(AuthError::TokenExpired)));
}

#[test]
fn foreign_audience_is_rejected() {
    let mut claims = test_claims();
    claims.audience = vec!["somebody-else".to_string()];
    let r = validate::check_claims(&claims, &test_provider(), &test_client(), &test_pending().nonce, NOW);
    assert!(matches!(r, Err(AuthError::AudienceRejected)));
}

#[test]
fn additional_audience_is_accepted() {
    let mut claims = test_claims();
    claims.audience = vec!["other-api".to_string()];
    let r = validate::check_claims(&claims, &test_provider(), &test_client(), &test_pending().nonce, NOW);
    assert!(r.is_ok());
}

#[test]
fn wrong_issuer_is_rejected() {
    let mut claims = test_claims();
    claims.issuer = "https://evil.example".to_string();
    let r = validate::check_claims(&claims, &test_provider(), &test_client(), &test_pending().nonce, NOW);
    assert!(matches!(r, Err(AuthError::IssuerMismatch)));
}

#[test]
fn wrong_nonce_is_rejected() {
    let claims = test_claims();
    let r = validate::check_claims(&claims, &test_provider(), &test_client(), "another-nonce", NOW);
    assert!(matches!(r, Err(AuthError::NonceMismatch)));
}

#[test]
fn malformed_token_is_rejected() {
    let r = validate::validate_id_token(
        "no dots at all",
        &test_provider(),
        &test_client(),
        "n",
        NOW,
    );
    assert!(matches!(r, Err(AuthError::TokenMalformed)));
}

#[test]
fn bad_signature_is_rejected() {
    let p = test_pending();
    let claims = format!(
        r#"{{"iss":"https://idp.example","sub":"user-123","aud":"my-client","exp":{},"iat":{},"nonce":"{}"}}"#,
        NOW + 3600,
        NOW,
        p.nonce
    );
    let token = hs256_id_token(&claims, b"the-wrong-secret");
    let r = validate::validate_id_token(&token, &test_provider(), &test_client(), &p.nonce, NOW);
    assert!(matches!(r, Err(AuthError::SignatureInvalid)));
}

// ---- session codec ----

#[test]
fn session_round_trip() {
    let key = b"session-signing-key".to_vec();
    let s = test_session();
    let token = codec::encode_session(&s, &key);
    let decoded = codec::decode_session(&token, &key, NOW).expect("round trip must succeed");
    assert_eq!(decoded.subject, s.subject);
    assert_eq!(decoded.issuer, s.issuer);
    assert_eq!(decoded.audience, s.audience);
    assert_eq!(decoded.exp, s.exp);
    assert_eq!(decoded.iat, s.iat);
    assert_eq!(decoded.access_token, s.access_token);
    assert_eq!(decoded.refresh_token, s.refresh_token);
}

#[test]
fn tampered_token_is_invalid() {
    let key = b"session-signing-key".to_vec();
    let token = codec::encode_session(&test_session(), &key);
    let bytes = token.as_bytes();
    for pos in 0..bytes.len() {
        let mut mutated = bytes.to_vec();
        mutated[pos] = if mutated[pos] == b'A' { b'B' } else { b'A' };
        let mutated = String::from_utf8(mutated).unwrap();
        if mutated == token {
            continue;
        }
        assert!(
            codec::decode_session(&mutated, &key, NOW).is_none(),
            "mutation at {pos} was accepted"
        );
    }
}

#[test]
fn expired_session_is_invalid() {
    let key = b"session-signing-key".to_vec();
    let s = test_session();
    let token = codec::encode_session(&s, &key);
    assert!(codec::decode_session(&token, &key, s.exp).is_none());
    assert!(codec::decode_session(&token, &key, s.exp - 1).is_some());
}

#[test]
fn foreign_key_is_invalid() {
    let key = b"session-signing-key".to_vec();
    let other = b"another-key".to_vec();
    let token = codec::encode_session(&test_session(), &key);
    assert!(codec::decode_session(&token, &other, NOW).is_none());
}

#[test]
fn session_token_known_answer() {
    // Recomputes the whole envelope independently: length-prefixed blocks,
    // a length frame, an HMAC-SHA-256 tag, base64url.
    let key = b"session-signing-key".to_vec();
    let s = Session {
        subject: "u".to_string(),
        issuer: "i".to_string(),
        audience: vec!["a".to_string()],
        exp: 7,
        iat: 3,
        access_token: "t".to_string(),
        refresh_token: None,
    };
    let mut payload: Vec<u8> = Vec::new();
    for field in ["u", "i"] {
        payload.extend_from_slice(&(field.len() as u64).to_le_bytes());
        payload.extend_from_slice(field.as_bytes());
    }
    payload.extend_from_slice(&1u64.to_le_bytes());
    payload.extend_from_slice(&1u64.to_le_bytes());
    payload.extend_from_slice(b"a");
    payload.extend_from_slice(&7u64.to_le_bytes());
    payload.extend_from_slice(&3u64.to_le_bytes());
    payload.extend_from_slice(&1u64.to_le_bytes());
    payload.extend_from_slice(b"t");
    payload.push(0);
    let mut mac = hmac::Hmac::<sha2::Sha256>::new_from_slice(&key).unwrap();
    mac.update(&payload);
    let tag = mac.finalize().into_bytes();
    let mut framed: Vec<u8> = Vec::new();
    framed.extend_from_slice(&(payload.len() as u64).to_le_bytes());
    framed.extend_from_slice(&payload);
    framed.extend_from_slice(&tag);
    let expected = URL_SAFE_NO_PAD.encode(&framed);
    assert_eq!(codec::encode_session(&s, &key), expected);
}

// ---- access guard ----

struct DashboardPolicy;

impl RoutePolicy for DashboardPolicy {
    fn requires_auth(&self, path: &str) -> bool {
        path.starts_with("/dashboard")
    }
}

#[test]
fn public_route_is_allowed_without_session() {
    let key = b"k".to_vec();
    let d = guard::guard_request(&DashboardPolicy, "/public", None, &key, NOW);
    assert!(matches!(d, GuardDecision::Allow { session: None }));
}

#[test]
fn protected_route_without_session_starts_login() {
    let key = b"k".to_vec();
    let d = guard::guard_request(&DashboardPolicy, "/dashboard", None, &key, NOW);
    match d {
        GuardDecision::StartLogin { return_to } => assert_eq!(return_to, "/dashboard"),
        _ => panic!("expected a login redirect"),
    }
}

#[test]
fn protected_route_with_valid_session_is_allowed() {
    let key = b"session-signing-key".to_vec();
    let token = codec::encode_session(&test_session(), &key);
    let d = guard::guard_request(&DashboardPolicy, "/dashboard", Some(&token), &key, NOW);
    match d {
        GuardDecision::Allow { session: Some(s) } => assert_eq!(s.subject, "user-123"),
        _ => panic!("expected the request through"),
    }
}

#[test]
fn protected_route_with_garbage_token_starts_login() {
    let key = b"session-signing-key".to_vec();
    let junk = "not-a-session-token".to_string();
    let d = guard::guard_request(&DashboardPolicy, "/dashboard", Some(&junk), &key, NOW);
    assert!(matches!(d, GuardDecision::StartLogin { .. }));
}

// ---- the full callback ----

#[test]
fn valid_callback_reaches_succeeded() {
    let pending = test_pending();
    let outcome = ExchangeOutcome::Response { body: good_token_response_body() };
    let r = flow::on_exchange_response(&pending, &test_provider(), &test_client(), outcome, NOW);
    match r {
        CallbackState::Succeeded { session, return_to } => {
            assert_eq!(session.subject, "user-123");
            assert_eq!(session.issuer, "https://idp.example");
            assert_eq!(session.audience, vec!["my-client".to_string()]);
            assert_eq!(session.access_token, "AT-1");
            assert_eq!(session.refresh_token.as_deref(), Some("RT-1"));
            assert_eq!(return_to, "/dashboard");
        }
        _ => panic!("expected success"),
    }
}

#[test]
fn transport_failure_is_transient() {
    let pending = test_pending();
    let r = flow::on_exchange_response(
        &pending,
        &test_provider(),
        &test_client(),
        ExchangeOutcome::TransportFailure,
        NOW,
    );
    match r {
        CallbackState::Rejected { reason } => {
            assert!(matches!(reason, AuthError::Transient));
            assert!(matches!(reason.class(), ErrorClass::Transient));
        }
        _ => panic!("expected a transient rejection"),
    }
}

#[test]
fn unusable_token_response_is_rejected() {
    let pending = test_pending();
    let outcome = ExchangeOutcome::Response { body: b"not json at all".to_vec() };
    let r = flow::on_exchange_response(&pending, &test_provider(), &test_client(), outcome, NOW);
    assert!(matches!(
        r,
        CallbackState::Rejected { reason: AuthError::InvalidTokenResponse }
    ));
}

#[test]
fn error_classes_protect_details() {
    assert!(matches!(AuthError::StateMismatch.class(), ErrorClass::SecurityRejection));
    assert!(matches!(AuthError::TokenExpired.class(), ErrorClass::SecurityRejection));
    assert!(matches!(AuthError::SignatureInvalid.class(), ErrorClass::SecurityRejection));
    assert!(matches!(
        AuthError::IdpError { code: "access_denied".to_string(), description: None }.class(),
        ErrorClass::IdpReported
    ));
}

// ---- authorization URL ----

#[test]
fn redirect_url_is_exact() {
    let url = authorize::build_redirect(&test_provider(), &test_client(), &test_pending());
    let challenge = pkce::derive_challenge("dBjftJeZ4CVP-mB92K27uhbUJU1p1r_wW1gFWFOEjXk");
    let expected = format!(
        "https://idp.example/authorize?response_type=code&client_id=my-client\
         &redirect_uri=https%3A%2F%2Fapp.example%2Fcb\
         &scope=openid%20email%20profile\
         &state=statestatestatestatestatestate12\
         &nonce=noncenoncenoncenoncenoncenonce12\
         &code_challenge={challenge}&code_challenge_method=S256"
    );
    assert_eq!(url, expected);
}

#[test]
fn redirect_url_without_pkce_has_no_challenge() {
    let mut pending = test_pending();
    pending.pkce = None;
    let url = authorize::build_redirect(&test_provider(), &test_client(), &pending);
    assert!(!url.contains("code_challenge"));
    assert!(url.contains("&nonce=noncenoncenoncenoncenoncenonce12"));
}

// ---- logout ----

#[test]
fn logout_redirects_to_end_session_and_clears() {
    let d = guard::build_logout_redirect(&test_provider(), &test_client());
    assert!(d.clear_session);
    assert_eq!(
        d.redirect_to,
        "https://idp.example/logout?post_logout_redirect_uri=https%3A%2F%2Fapp.example%2F"
    );
}

#[test]
fn logout_without_end_session_uses_post_logout_uri() {
    let mut provider = test_provider();
    provider.end_session_endpoint = None;
    let d = guard::build_logout_redirect(&provider, &test_client());
    assert!(d.clear_session);
    assert_eq!(d.redirect_to, "https://app.example/");
}

// ---- initialization ----

#[test]
fn initialize_rejects_issuer_mismatch() {
    let doc = DiscoveryDocument {
        issuer: "https://idp.example".to_string(),
        authorization_endpoint: "https://idp.example/authorize".to_string(),
        token_endpoint: "https://idp.example/token".to_string(),
        end_session_endpoint: None,
        jwks_uri: "https://idp.example/jwks".to_string(),
    };
    let r = config::initialize(
        doc,
        vec![SigningKey::Hmac { secret: b"k".to_vec() }],
        "https://other.example",
        "c".to_string(),
        None,
        "https://app.example/cb".to_string(),
        vec![],
        vec![],
        false,
        None,
    );
    assert!(matches!(r, Err(InitError::IssuerMismatch)));
}

#[test]
fn initialize_rejects_empty_key_set() {
    let doc = DiscoveryDocument {
        issuer: "https://idp.example".to_string(),
        authorization_endpoint: "https://idp.example/authorize".to_string(),
        token_endpoint: "https://idp.example/token".to_string(),
        end_session_endpoint: None,
        jwks_uri: "https://idp.example/jwks".to_string(),
    };
    let r = config::initialize(
        doc,
        vec![],
        "https://idp.example",
        "c".to_string(),
        None,
        "https://app.example/cb".to_string(),
        vec![],
        vec![],
        false,
        None,
    );
    assert!(matches!(r, Err(InitError::NoUsableKeys)));
}

#[test]
fn parse_discovery_reads_the_endpoints() {
    let body = br#"{
        "issuer": "https://idp.example",
        "authorization_endpoint": "https://idp.example/authorize",
        "token_endpoint": "https://idp.example/token",
        "end_session_endpoint": "https://idp.example/logout",
        "jwks_uri": "https://idp.example/jwks"
    }"#;
    let doc = config::parse_discovery(body).expect("valid document");
    assert_eq!(doc.issuer, "https://idp.example");
    assert_eq!(doc.authorization_endpoint, "https://idp.example/authorize");
    assert_eq!(doc.token_endpoint, "https://idp.example/token");
    assert_eq!(doc.end_session_endpoint.as_deref(), Some("https://idp.example/logout"));
    assert_eq!(doc.jwks_uri, "https://idp.example/jwks");
}

#[test]
fn parse_jwks_reads_rsa_and_symmetric_keys() {
    let body = br#"{"keys":[
        {"kty":"RSA","n":"abc","e":"AQAB","kid":"k1"},
        {"kty":"oct","k":"c2VjcmV0"},
        {"kty":"EC","crv":"P-256"}
    ]}"#;
    let keys = config::parse_jwks(body);
    assert_eq!(keys.len(), 2);
    match &keys[0] {
        SigningKey::Rsa { modulus, exponent } => {
            assert_eq!(modulus, "abc");
            assert_eq!(exponent, "AQAB");
        }
        _ => panic!("expected an RSA key first"),
    }
    match &keys[1] {
        SigningKey::Hmac { secret } => assert_eq!(secret, b"secret"),
        _ => panic!("expected a symmetric key second"),
    }
}

// ---- pending-login codec ----

#[test]
fn pending_round_trip() {
    let key = b"pending-signing-key".to_vec();
    let p = test_pending();
    let token = codec::encode_pending(&p, &key);
    let decoded = codec::decode_pending(&token, &key, NOW).expect("round trip must succeed");
    assert_eq!(decoded.state, p.state);
    assert_eq!(decoded.nonce, p.nonce);
    assert_eq!(decoded.return_to, p.return_to);
    assert_eq!(decoded.expires_at, p.expires_at);
    let original = p.pkce.unwrap();
    let restored = decoded.pkce.expect("the verifier must come back");
    assert_eq!(restored.verifier, original.verifier);
    assert_eq!(restored.challenge, original.challenge);
}

#[test]
fn pending_round_trip_without_pkce() {
    let key = b"pending-signing-key".to_vec();
    let p = pending::begin_login("/after".to_string(), false, NOW);
    let token = codec::encode_pending(&p, &key);
    let decoded = codec::decode_pending(&token, &key, NOW).expect("round trip must succeed");
    assert_eq!(decoded.state, p.state);
    assert_eq!(decoded.nonce, p.nonce);
    assert!(decoded.pkce.is_none());
    assert_eq!(decoded.return_to, "/after");
    assert_eq!(decoded.expires_at, NOW + 600);
}

#[test]
fn timed_out_pending_login_is_invalid() {
    let key = b"pending-signing-key".to_vec();
    let p = test_pending();
    let token = codec::encode_pending(&p, &key);
    assert!(codec::decode_pending(&token, &key, p.expires_at).is_none());
    assert!(codec::decode_pending(&token, &key, p.expires_at - 1).is_some());
}

#[test]
fn tampered_pending_token_is_invalid() {
    let key = b"pending-signing-key".to_vec();
    let token = codec::encode_pending(&test_pending(), &key);
    let bytes = token.as_bytes();
    for pos in (0..bytes.len()).step_by(7) {
        let mut mutated = bytes.to_vec();
        mutated[pos] = if mutated[pos] == b'A' { b'B' } else { b'A' };
        let mutated = String::from_utf8(mutated).unwrap();
        if mutated == token {
            continue;
        }
        assert!(codec::decode_pending(&mutated, &key, NOW).is_none());
    }
}
