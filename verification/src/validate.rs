//! Identity-token validation: signature against the provider's keys, then
//! issuer, audience, expiry and nonce, in that order. A session is never
//! minted unless every check here passes.

use vstd::prelude::*;
use vstd::utf8::encode_utf8;
use crate::config::{ClientConfig, ProviderConfig, SigningKey};
use crate::crypto;
use crate::crypto::{hs256_sig_ok, rs256_sig_ok};
use crate::encoding::str_eq;
use crate::errors::AuthError;

verus! {

/// The claims this engine reads from an identity token.
pub struct IdTokenClaims {
    pub issuer: String,
    pub subject: String,
    pub audience: Vec<String>,
    pub exp: u64,
    pub iat: u64,
    pub nonce: Option<String>,
}

/// Membership of a string among a list of strings, by content.
pub open spec fn contains_str(v: Seq<Seq<char>>, s: Seq<char>) -> bool {
    exists|i: int| 0 <= i < v.len() && v[i] == s
}

/// The audience check of the flow: some audience entry names the client
/// itself or one of the additionally accepted audiences.
pub open spec fn audience_accepted(
    aud: Seq<Seq<char>>,
    client_id: Seq<char>,
    additional: Seq<Seq<char>>,
) -> bool {
    exists|i: int|
        0 <= i < aud.len() && (#[trigger] aud[i] == client_id || contains_str(additional, aud[i]))
}

/// All claim checks of the flow in one predicate.
pub open spec fn claims_ok(
    c: IdTokenClaims,
    issuer: Seq<char>,
    client_id: Seq<char>,
    additional: Seq<Seq<char>>,
    expected_nonce: Seq<char>,
    now: u64,
) -> bool {
    &&& c.issuer@ == issuer
    &&& audience_accepted(c.audience.deep_view(), client_id, additional)
    &&& c.exp > now
    &&& (c.nonce matches Some(n) && n@ == expected_nonce)
}

/// Whether this list contains `s`.
pub fn contains(list: &Vec<String>, s: &str) -> (r: bool)
    ensures
        r == contains_str(list.deep_view(), s@),
{
    let n = list.len();
    let mut i: usize = 0;
    while i < n
        invariant
            n == list@.len(),
            i <= n,
            forall|j: int| 0 <= j < i ==> #[trigger] list.deep_view()[j] != s@,
        decreases n - i,
    {
        if str_eq(list[i].as_str(), s) {
            proof {
                assert(list.deep_view()[i as int] == s@);
            }
            return true;
        }
        proof {
            assert(list.deep_view()[i as int] == list@[i as int]@);
        }
        i = i + 1;
    }
    false
}

/// Whether `aud` passes the audience check for this client.
pub fn audience_ok(aud: &Vec<String>, client: &ClientConfig) -> (r: bool)
    ensures
        r == audience_accepted(
            aud.deep_view(),
            client.client_id@,
            client.additional_audiences.deep_view(),
        ),
{
    let n = aud.len();
    let mut i: usize = 0;
    while i < n
        invariant
            n == aud@.len(),
            i <= n,
            forall|j: int|
                0 <= j < i ==> !(#[trigger] aud.deep_view()[j] == client.client_id@ || contains_str(
                    client.additional_audiences.deep_view(),
                    aud.deep_view()[j],
                )),
        decreases n - i,
    {
        let entry = &aud[i];
        if str_eq(entry.as_str(), client.client_id.as_str()) || contains(
            &client.additional_audiences,
            entry.as_str(),
        ) {
            proof {
                assert(aud.deep_view()[i as int] == aud@[i as int]@);
            }
            return true;
        }
        proof {
            assert(aud.deep_view()[i as int] == aud@[i as int]@);
        }
        i = i + 1;
    }
    false
}

/// Checks the validated claims against the configuration, one check at a
/// time: issuer, audience, expiry, nonce. Succeeds exactly when all four
/// hold; the error names the first check that failed.
pub fn check_claims(
    claims: &IdTokenClaims,
    provider: &ProviderConfig,
    client: &ClientConfig,
    expected_nonce: &str,
    now: u64,
) -> (r: Result<(), AuthError>)
    ensures
        r is Ok <==> claims_ok(
            *claims,
            provider.issuer@,
            client.client_id@,
            client.additional_audiences.deep_view(),
            expected_nonce@,
            now,
        ),
        r == Result::<(), AuthError>::Err(AuthError::IssuerMismatch) <==> claims.issuer@
            != provider.issuer@,
        r == Result::<(), AuthError>::Err(AuthError::AudienceRejected) <==> claims.issuer@
            == provider.issuer@ && !audience_accepted(
            claims.audience.deep_view(),
            client.client_id@,
            client.additional_audiences.deep_view(),
        ),
        r == Result::<(), AuthError>::Err(AuthError::TokenExpired) <==> claims.issuer@
            == provider.issuer@ && audience_accepted(
            claims.audience.deep_view(),
            client.client_id@,
            client.additional_audiences.deep_view(),
        ) && claims.exp <= now,
        r == Result::<(), AuthError>::Err(AuthError::NonceMismatch) <==> claims.issuer@
            == provider.issuer@ && audience_accepted(
            claims.audience.deep_view(),
            client.client_id@,
            client.additional_audiences.deep_view(),
        ) && claims.exp > now && !(claims.nonce matches Some(n) && n@ == expected_nonce@),
{
    if !str_eq(claims.issuer.as_str(), provider.issuer.as_str()) {
        return Err(AuthError::IssuerMismatch);
    }
    if !audience_ok(&claims.audience, client) {
        return Err(AuthError::AudienceRejected);
    }
    if claims.exp <= now {
        return Err(AuthError::TokenExpired);
    }
    let nonce_ok = match &claims.nonce {
        Some(n) => str_eq(n.as_str(), expected_nonce),
        None => false,
    };
    if !nonce_ok {
        return Err(AuthError::NonceMismatch);
    }
    Ok(())
}

/// Whether one signing key accepts this signature over this message.
pub open spec fn key_validates(k: SigningKey, msg: Seq<u8>, sig: Seq<u8>) -> bool {
    match k {
        SigningKey::Hmac { secret } => hs256_sig_ok(secret@, msg, sig),
        SigningKey::Rsa { modulus, exponent } => rs256_sig_ok(modulus@, exponent@, msg, sig),
    }
}

/// Whether any of the provider's current keys accepts the signature.
pub open spec fn some_key_validates(keys: Seq<SigningKey>, msg: Seq<u8>, sig: Seq<u8>) -> bool {
    exists|i: int| 0 <= i < keys.len() && key_validates(#[trigger] keys[i], msg, sig)
}

/// Tries the signature against every configured key.
pub fn verify_with_keys(keys: &Vec<SigningKey>, msg: &[u8], sig: &[u8]) -> (r: bool)
    ensures
        r == some_key_validates(keys@, msg@, sig@),
{
    let n = keys.len();
    let mut i: usize = 0;
    while i < n
        invariant
            n == keys@.len(),
            i <= n,
            forall|j: int| 0 <= j < i ==> !key_validates(#[trigger] keys@[j], msg@, sig@),
        decreases n - i,
    {
        let accepted = match &keys[i] {
            SigningKey::Hmac { secret } => crypto::hs256_verify(secret, msg, sig),
            SigningKey::Rsa { modulus, exponent } => crypto::rs256_verify(
                modulus.as_str(),
                exponent.as_str(),
                msg,
                sig,
            ),
        };
        if accepted {
            proof {
                assert(key_validates(keys@[i as int], msg@, sig@));
            }
            return true;
        }
        i = i + 1;
    }
    false
}

/// Reads the claims out of a parsed identity-token payload. The values
/// themselves are judged afterwards, by `check_claims`.
pub(crate) fn extract_claims(v: &serde_json::Value) -> (r: Option<IdTokenClaims>)
{
    let issuer = match crate::config::read_string_member(v, "iss") {
        Some(s) => s,
        None => { return None; },
    };
    let subject = match crate::config::read_string_member(v, "sub") {
        Some(s) => s,
        None => { return None; },
    };
    let exp = match crate::config::read_u64_member(v, "exp") {
        Some(x) => x,
        None => { return None; },
    };
    let iat = match crate::config::read_u64_member(v, "iat") {
        Some(x) => x,
        None => 0,
    };
    let nonce = crate::config::read_string_member(v, "nonce");
    let audience = match crate::config::read_string_member(v, "aud") {
        Some(single) => vec![single],
        None => {
            let arr = match crypto::json_get(v, "aud") {
                Some(m) => m,
                None => { return None; },
            };
            let entries = match crypto::json_array(arr) {
                Some(a) => a,
                None => { return None; },
            };
            let mut listed: Vec<String> = Vec::new();
            let n = entries.len();
            let mut i: usize = 0;
            while i < n
                invariant
                    n == entries@.len(),
                    i <= n,
                decreases n - i,
            {
                match crypto::json_str(&entries[i]) {
                    Some(s) => listed.push(s),
                    None => { return None; },
                }
                i = i + 1;
            }
            listed
        },
    };
    Some(IdTokenClaims { issuer, subject, audience, exp, iat, nonce })
}

/// The two dot positions that cut a signed token into header, payload and
/// signature: both are dots, and no other byte is one.
pub open spec fn is_jwt_split(b: Seq<u8>, d1: int, d2: int) -> bool {
    &&& 0 <= d1 < d2 < b.len()
    &&& b[d1] == 0x2eu8
    &&& b[d2] == 0x2eu8
    &&& forall|i: int| 0 <= i < b.len() && #[trigger] b[i] == 0x2eu8 ==> i == d1 || i == d2
}

/// A byte sequence has at most one way to split at exactly two dots.
pub proof fn lemma_jwt_split_unique(b: Seq<u8>, d1: int, d2: int, e1: int, e2: int)
    requires
        is_jwt_split(b, d1, d2),
        is_jwt_split(b, e1, e2),
    ensures
        d1 == e1,
        d2 == e2,
{
    assert(b[e1] == 0x2eu8);
    assert(b[e2] == 0x2eu8);
    assert(b[d1] == 0x2eu8);
    assert(b[d2] == 0x2eu8);
}

/// Positions of the two dots that separate a signed token's header,
/// payload and signature; `None` unless the token has exactly two.
fn find_dots(tb: &Vec<u8>) -> (r: Option<(usize, usize)>)
    ensures
        r matches Some(d) ==> is_jwt_split(tb@, d.0 as int, d.1 as int),
        r is None ==> forall|d1: int, d2: int| !is_jwt_split(tb@, d1, d2),
{
    let n = tb.len();
    let mut first: Option<usize> = None;
    let mut second: Option<usize> = None;
    let mut i: usize = 0;
    while i < n
        invariant
            n == tb@.len(),
            i <= n,
            first matches Some(a) ==> a < i && tb@[a as int] == 0x2eu8,
            second matches Some(b) ==> b < i && (first matches Some(a) && a < b) && tb@[b as int]
                == 0x2eu8,
            second is Some ==> first is Some,
            forall|j: int|
                0 <= j < i && #[trigger] tb@[j] == 0x2eu8 ==> ((first matches Some(a) && j
                    == a) || (second matches Some(b) && j == b)),
        decreases n - i,
    {
        if tb[i] == 0x2e {
            if first.is_none() {
                first = Some(i);
            } else if second.is_none() {
                second = Some(i);
            } else {
                proof {
                    let a = first->0;
                    let b = second->0;
                    assert forall|d1: int, d2: int| !is_jwt_split(tb@, d1, d2) by {
                        if is_jwt_split(tb@, d1, d2) {
                            assert(tb@[a as int] == 0x2eu8);
                            assert(tb@[b as int] == 0x2eu8);
                            assert(tb@[i as int] == 0x2eu8);
                        }
                    }
                }
                return None;
            }
        }
        i = i + 1;
    }
    match (first, second) {
        (Some(a), Some(b)) => Some((a, b)),
        _ => {
            proof {
                assert forall|d1: int, d2: int| !is_jwt_split(tb@, d1, d2) by {
                    if is_jwt_split(tb@, d1, d2) {
                        assert(tb@[d1] == 0x2eu8);
                        assert(tb@[d2] == 0x2eu8);
                    }
                }
            }
            None
        },
    }
}

/// Validates one identity token end to end: structure, signature against
/// the provider's keys, then the claim checks. On success the returned
/// claims satisfy every check; on failure the error is one of the
/// security-rejection kinds.
pub fn validate_id_token(
    token: &str,
    provider: &ProviderConfig,
    client: &ClientConfig,
    expected_nonce: &str,
    now: u64,
) -> (r: Result<IdTokenClaims, AuthError>)
    ensures
        r matches Ok(c) ==> claims_ok(
            c,
            provider.issuer@,
            client.client_id@,
            client.additional_audiences.deep_view(),
            expected_nonce@,
            now,
        ),
        r matches Ok(c) ==> exists|d1: int, d2: int|
            is_jwt_split(encode_utf8(token@), d1, d2) && some_key_validates(
                provider.jwks@,
                encode_utf8(token@).subrange(0, d2),
                encode_utf8(token@).subrange(d2 + 1, encode_utf8(token@).len() as int),
            ),
        r == Result::<IdTokenClaims, AuthError>::Err(AuthError::SignatureInvalid) <==> exists|
            d1: int,
            d2: int,
        |
            is_jwt_split(encode_utf8(token@), d1, d2) && !some_key_validates(
                provider.jwks@,
                encode_utf8(token@).subrange(0, d2),
                encode_utf8(token@).subrange(d2 + 1, encode_utf8(token@).len() as int),
            ),
        (forall|d1: int, d2: int| !is_jwt_split(encode_utf8(token@), d1, d2)) ==> r
            == Result::<IdTokenClaims, AuthError>::Err(AuthError::TokenMalformed),
        r matches Err(e) ==> (e is TokenMalformed || e is SignatureInvalid || e is IssuerMismatch
            || e is AudienceRejected || e is TokenExpired || e is NonceMismatch),
{
    let tb = token.as_bytes_vec();
    let n = tb.len();
    let (d1, d2) = match find_dots(&tb) {
        Some(d) => d,
        None => { return Err(AuthError::TokenMalformed); },
    };
    let msg = vstd::slice::slice_subrange(tb.as_slice(), 0, d2);
    let sig = vstd::slice::slice_subrange(tb.as_slice(), d2 + 1, n);
    let accepted = verify_with_keys(&provider.jwks, msg, sig);
    proof {
        assert forall|e1: int, e2: int|
            is_jwt_split(tb@, e1, e2) implies e1 == d1 && e2 == d2 by {
            lemma_jwt_split_unique(tb@, d1 as int, d2 as int, e1, e2);
        }
    }
    if !accepted {
        return Err(AuthError::SignatureInvalid);
    }
    let payload_b64 = vstd::slice::slice_subrange(tb.as_slice(), d1 + 1, d2);
    let payload = match crypto::b64url_decode(payload_b64) {
        Some(p) => p,
        None => { return Err(AuthError::TokenMalformed); },
    };
    let parsed = match crypto::json_parse(payload.as_slice()) {
        Some(v) => v,
        None => { return Err(AuthError::TokenMalformed); },
    };
    let claims = match extract_claims(&parsed) {
        Some(c) => c,
        None => { return Err(AuthError::TokenMalformed); },
    };
    match check_claims(&claims, provider, client, expected_nonce, now) {
        Ok(()) => {
            proof {
                assert(some_key_validates(
                    provider.jwks@,
                    encode_utf8(token@).subrange(0, d2 as int),
                    encode_utf8(token@).subrange(
                        d2 as int + 1,
                        encode_utf8(token@).len() as int,
                    ),
                ));
            }
            Ok(claims)
        },
        Err(e) => Err(e),
    }
}

} // verus!
