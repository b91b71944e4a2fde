//! Static configuration: provider metadata obtained from discovery, client
//! registration data, and the checks that make a fetched discovery
//! document usable. Both config types are immutable after `initialize`.

use vstd::prelude::*;
use crate::crypto;

verus! {

/// One signing key from the provider's key set, reduced to the plain
/// values the validation engine reads.
pub enum SigningKey {
    /// A symmetric HMAC-SHA-256 key.
    Hmac { secret: Vec<u8> },
    /// An RSA public key, modulus and exponent base64url-encoded as in a
    /// JWK document.
    Rsa { modulus: String, exponent: String },
}

/// Provider-side endpoints and keys, fixed at startup.
pub struct ProviderConfig {
    pub issuer: String,
    pub authorization_endpoint: String,
    pub token_endpoint: String,
    pub end_session_endpoint: Option<String>,
    pub jwks: Vec<SigningKey>,
}

/// Client registration data, fixed at startup.
pub struct ClientConfig {
    pub client_id: String,
    pub client_secret: Option<String>,
    pub redirect_uri: String,
    pub scopes: Vec<String>,
    pub additional_audiences: Vec<String>,
    pub use_pkce: bool,
    pub post_logout_redirect_uri: Option<String>,
}

/// The fields read from a provider's discovery document.
pub struct DiscoveryDocument {
    pub issuer: String,
    pub authorization_endpoint: String,
    pub token_endpoint: String,
    pub end_session_endpoint: Option<String>,
    pub jwks_uri: String,
}

/// Why initialization must fail fatally.
#[derive(Debug)]
pub enum InitError {
    /// The discovery document names an issuer other than the configured one.
    IssuerMismatch,
    /// The key set holds no key this engine can verify signatures with.
    NoUsableKeys,
}

/// Builds the immutable configuration pair from a fetched discovery
/// document and key set. Fails exactly when the document's issuer is not
/// the configured issuer or no usable signing key was found; no request
/// can be authenticated safely in either case.
#[allow(clippy::too_many_arguments)]
pub fn initialize(
    document: DiscoveryDocument,
    keys: Vec<SigningKey>,
    issuer_url: &str,
    client_id: String,
    client_secret: Option<String>,
    redirect_uri: String,
    scopes: Vec<String>,
    additional_audiences: Vec<String>,
    use_pkce: bool,
    post_logout_redirect_uri: Option<String>,
) -> (r: Result<(ProviderConfig, ClientConfig), InitError>)
    ensures
        r is Ok <==> document.issuer@ == issuer_url@ && keys@.len() > 0,
        r matches Err(InitError::IssuerMismatch) <==> document.issuer@ != issuer_url@,
        r matches Ok((p, c)) ==> {
            &&& p.issuer == document.issuer
            &&& p.authorization_endpoint == document.authorization_endpoint
            &&& p.token_endpoint == document.token_endpoint
            &&& p.end_session_endpoint == document.end_session_endpoint
            &&& p.jwks == keys
            &&& c.client_id == client_id
            &&& c.client_secret == client_secret
            &&& c.redirect_uri == redirect_uri
            &&& c.scopes == scopes
            &&& c.additional_audiences == additional_audiences
            &&& c.use_pkce == use_pkce
            &&& c.post_logout_redirect_uri == post_logout_redirect_uri
        },
{
    if !crate::encoding::str_eq(document.issuer.as_str(), issuer_url) {
        return Err(InitError::IssuerMismatch);
    }
    if keys.len() == 0 {
        return Err(InitError::NoUsableKeys);
    }
    let provider = ProviderConfig {
        issuer: document.issuer,
        authorization_endpoint: document.authorization_endpoint,
        token_endpoint: document.token_endpoint,
        end_session_endpoint: document.end_session_endpoint,
        jwks: keys,
    };
    let client = ClientConfig {
        client_id,
        client_secret,
        redirect_uri,
        scopes,
        additional_audiences,
        use_pkce,
        post_logout_redirect_uri,
    };
    Ok((provider, client))
}

/// Reads the fields of a discovery document out of its JSON bytes.
/// The values themselves are validated later, by `initialize`.
pub fn parse_discovery(data: &[u8]) -> (r: Option<DiscoveryDocument>)
{
    let doc = match crypto::json_parse(data) {
        Some(v) => v,
        None => { return None; },
    };
    let issuer = match read_string_member(&doc, "issuer") {
        Some(s) => s,
        None => { return None; },
    };
    let authorization_endpoint = match read_string_member(&doc, "authorization_endpoint") {
        Some(s) => s,
        None => { return None; },
    };
    let token_endpoint = match read_string_member(&doc, "token_endpoint") {
        Some(s) => s,
        None => { return None; },
    };
    let jwks_uri = match read_string_member(&doc, "jwks_uri") {
        Some(s) => s,
        None => { return None; },
    };
    let end_session_endpoint = read_string_member(&doc, "end_session_endpoint");
    Some(DiscoveryDocument {
        issuer,
        authorization_endpoint,
        token_endpoint,
        end_session_endpoint,
        jwks_uri,
    })
}

/// Reads the usable signing keys out of a JWK-set document: RSA keys by
/// modulus and exponent, symmetric keys by their base64url-encoded value.
/// Entries of any other kind are skipped.
pub fn parse_jwks(data: &[u8]) -> (r: Vec<SigningKey>)
{
    let mut out: Vec<SigningKey> = Vec::new();
    let doc = match crypto::json_parse(data) {
        Some(v) => v,
        None => { return out; },
    };
    let keys = match crypto::json_get(&doc, "keys") {
        Some(v) => v,
        None => { return out; },
    };
    let entries = match crypto::json_array(keys) {
        Some(a) => a,
        None => { return out; },
    };
    let n = entries.len();
    let mut i: usize = 0;
    while i < n
        invariant
            n == entries@.len(),
            i <= n,
        decreases n - i,
    {
        let entry = &entries[i];
        let modulus = read_string_member(entry, "n");
        let exponent = read_string_member(entry, "e");
        match (modulus, exponent) {
            (Some(modulus), Some(exponent)) => {
                out.push(SigningKey::Rsa { modulus, exponent });
            },
            _ => {
                match read_string_member(entry, "k") {
                    Some(k) => {
                        match crypto::b64url_decode(k.as_str().as_bytes()) {
                            Some(secret) => {
                                out.push(SigningKey::Hmac { secret });
                            },
                            None => {},
                        }
                    },
                    None => {},
                }
            },
        }
        i = i + 1;
    }
    out
}

/// The string member of a JSON object under `name`, if it is there and is
/// a string.
pub(crate) fn read_string_member(v: &serde_json::Value, name: &str) -> (r: Option<String>)
{
    match crypto::json_get(v, name) {
        Some(m) => crypto::json_str(m),
        None => None,
    }
}

/// The integer member of a JSON object under `name`, if it is there and is
/// a non-negative integer.
pub(crate) fn read_u64_member(v: &serde_json::Value, name: &str) -> (r: Option<u64>)
{
    match crypto::json_get(v, name) {
        Some(m) => crypto::json_u64(m),
        None => None,
    }
}

} // verus!
