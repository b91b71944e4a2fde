//! Trusted boundary to the cryptographic and JSON crates.
//!
//! Every function here is `external_body`: Verus believes the stated
//! contract and never reads the body. Results that are deterministic in
//! the arguments alone (digests, MACs, encodings, signature checks) are
//! given uninterpreted names so that verified callers can speak of them
//! exactly; nothing is claimed beyond what the called crate documents.

use vstd::prelude::*;

verus! {

/// The SHA-256 digest of a byte sequence, as computed by the `sha2` crate.
pub uninterp spec fn sha256_of(data: Seq<u8>) -> Seq<u8>;

/// The HMAC-SHA-256 tag over `msg` under `key`, as computed by the `hmac` crate.
pub uninterp spec fn mac_of(key: Seq<u8>, msg: Seq<u8>) -> Seq<u8>;

/// The padding-free URL-safe base64 encoding of a byte sequence,
/// as computed by the `base64` crate.
pub uninterp spec fn b64url_of(data: Seq<u8>) -> Seq<char>;

/// Whether HMAC-SHA-256 signature verification accepts `sig` (base64url,
/// as UTF-8 bytes) for `msg` under `secret`: `jsonwebtoken` re-signs the
/// message and compares, so acceptance is exactly this equality.
pub open spec fn hs256_sig_ok(secret: Seq<u8>, msg: Seq<u8>, sig: Seq<u8>) -> bool {
    sig == vstd::utf8::encode_utf8(b64url_of(mac_of(secret, msg)))
}

/// Whether RSA-SHA-256 signature verification accepts `sig` (base64url,
/// as UTF-8 bytes) for `msg` under the RSA public key given by its
/// base64url modulus and exponent, per `jsonwebtoken`.
pub uninterp spec fn rs256_sig_ok(
    modulus: Seq<char>,
    exponent: Seq<char>,
    msg: Seq<u8>,
    sig: Seq<u8>,
) -> bool;

/// Characters of the URL-safe base64 alphabet.
pub open spec fn is_b64url_char(c: char) -> bool {
    ('A' <= c && c <= 'Z') || ('a' <= c && c <= 'z') || ('0' <= c && c <= '9') || c == '-' || c
        == '_'
}

/// Characters produced by `random_token`: ASCII letters and digits.
pub open spec fn is_token_char(c: char) -> bool {
    ('A' <= c && c <= 'Z') || ('a' <= c && c <= 'z') || ('0' <= c && c <= '9')
}

/// Relies on `sha2::Sha256::digest`: a 32-byte digest that depends on the
/// input bytes alone.
#[verifier::external_body]
pub(crate) fn sha256(data: &Vec<u8>) -> (r: Vec<u8>)
    ensures
        r@ == sha256_of(data@),
        r@.len() == 32,
{
    <sha2::Sha256 as sha2::Digest>::digest(data.as_slice()).to_vec()
}

/// Relies on `hmac::Hmac<Sha256>`: a 32-byte tag that depends on key and
/// message alone. HMAC accepts keys of any length, so `new_from_slice`
/// cannot fail here.
#[verifier::external_body]
pub(crate) fn hmac_sha256(key: &Vec<u8>, msg: &Vec<u8>) -> (r: Vec<u8>)
    ensures
        r@ == mac_of(key@, msg@),
        r@.len() == 32,
{
    match <hmac::Hmac<sha2::Sha256> as hmac::Mac>::new_from_slice(key.as_slice()) {
        Ok(mut m) => {
            hmac::Mac::update(&mut m, msg.as_slice());
            hmac::Mac::finalize(m).into_bytes().to_vec()
        },
        Err(_) => Vec::new(),
    }
}

/// Relies on `base64`'s `URL_SAFE_NO_PAD` engine: the encoding depends on
/// the input alone and uses only the URL-safe alphabet.
#[verifier::external_body]
pub(crate) fn b64url_encode(data: &Vec<u8>) -> (r: String)
    ensures
        r@ == b64url_of(data@),
        forall|i: int| 0 <= i < r@.len() ==> is_b64url_char(#[trigger] r@[i]),
{
    base64::Engine::encode(&base64::engine::general_purpose::URL_SAFE_NO_PAD, data.as_slice())
}

/// Holds when `r` is what decoding the base64url text with bytes `data`
/// must return: on the UTF-8 bytes of an encoded value, exactly that value.
pub open spec fn b64url_decodes(data: Seq<u8>, r: Option<Vec<u8>>) -> bool {
    forall|b: Seq<u8>|
        data == vstd::utf8::encode_utf8(b64url_of(b)) ==> (r matches Some(v) && v@ == b)
}

/// Relies on `base64`'s `URL_SAFE_NO_PAD` engine: decoding inverts
/// encoding, so on the UTF-8 bytes of an encoded value it returns exactly
/// that value; and the engine requires canonical input (no padding
/// accepted, trailing bits checked), so decoding succeeds only on the
/// exact encoding of what it returns.
#[verifier::external_body]
pub(crate) fn b64url_decode(data: &[u8]) -> (r: Option<Vec<u8>>)
    ensures
        b64url_decodes(data@, r),
        r matches Some(v) ==> data@ == vstd::utf8::encode_utf8(b64url_of(v@)),
{
    match base64::Engine::decode(&base64::engine::general_purpose::URL_SAFE_NO_PAD, data) {
        Ok(v) => Some(v),
        Err(_) => None,
    }
}

/// Relies on `rand`'s `Alphanumeric` distribution over `ThreadRng`: each
/// sampled character is an ASCII letter or digit. Nothing else can be said
/// of a random value.
#[verifier::external_body]
pub(crate) fn random_token(len: usize) -> (r: String)
    ensures
        r@.len() == len,
        forall|i: int| 0 <= i < r@.len() ==> is_token_char(#[trigger] r@[i]),
{
    <rand::rngs::ThreadRng as rand::Rng>::sample_iter(
        rand::thread_rng(),
        &rand::distributions::Alphanumeric,
    ).take(len).map(char::from).collect()
}

/// Relies on `String::from_utf8`: succeeds exactly on valid UTF-8 and
/// returns the string whose bytes are the input.
#[verifier::external_body]
pub(crate) fn bytes_to_string(data: Vec<u8>) -> (r: Option<String>)
    ensures
        r is Some <==> vstd::utf8::valid_utf8(data@),
        r matches Some(s) ==> vstd::utf8::encode_utf8(s@) == data@ && s@
            == vstd::utf8::decode_utf8(data@),
{
    match String::from_utf8(data) {
        Ok(s) => Some(s),
        Err(_) => None,
    }
}

/// Relies on `jsonwebtoken::crypto::verify` with a symmetric key from
/// `DecodingKey::from_secret`: it recomputes the HMAC-SHA-256 tag,
/// base64url-encodes it and compares with the presented signature bytes;
/// any error is reported as rejection.
#[verifier::external_body]
pub(crate) fn hs256_verify(secret: &Vec<u8>, msg: &[u8], sig: &[u8]) -> (r: bool)
    ensures
        r == hs256_sig_ok(secret@, msg@, sig@),
{
    let key = jsonwebtoken::DecodingKey::from_secret(secret.as_slice());
    match core::str::from_utf8(sig) {
        Ok(s) => {
            match jsonwebtoken::crypto::verify(s, msg, &key, jsonwebtoken::Algorithm::HS256) {
                Ok(b) => b,
                Err(_) => false,
            }
        },
        Err(_) => false,
    }
}

/// Relies on `jsonwebtoken::crypto::verify` with an RSA public key from
/// `DecodingKey::from_rsa_components`: acceptance depends on the key
/// components, message and signature alone; any error is reported as
/// rejection.
#[verifier::external_body]
pub(crate) fn rs256_verify(modulus: &str, exponent: &str, msg: &[u8], sig: &[u8]) -> (r: bool)
    ensures
        r == rs256_sig_ok(modulus@, exponent@, msg@, sig@),
{
    let key = match jsonwebtoken::DecodingKey::from_rsa_components(modulus, exponent) {
        Ok(k) => k,
        Err(_) => return false,
    };
    match core::str::from_utf8(sig) {
        Ok(s) => {
            match jsonwebtoken::crypto::verify(s, msg, &key, jsonwebtoken::Algorithm::RS256) {
                Ok(b) => b,
                Err(_) => false,
            }
        },
        Err(_) => false,
    }
}

/// `serde_json::Value`, opaque to Verus; verified code only carries
/// references to it between the accessor wrappers below.
#[verifier::external_type_specification]
#[verifier::external_body]
pub struct ExValue(serde_json::Value);

/// Relies on `serde_json::from_slice`: parses one JSON document, `None` on
/// any syntax error.
#[verifier::external_body]
pub(crate) fn json_parse(data: &[u8]) -> Option<serde_json::Value> {
    match serde_json::from_slice::<serde_json::Value>(data) {
        Ok(v) => Some(v),
        Err(_) => None,
    }
}

/// Relies on `serde_json::Value::get`: the member of a JSON object under
/// the given name, if present.
#[verifier::external_body]
pub(crate) fn json_get<'a>(v: &'a serde_json::Value, name: &str) -> Option<&'a serde_json::Value> {
    v.get(name)
}

/// Relies on `serde_json::Value::as_str`: the content of a JSON string.
#[verifier::external_body]
pub(crate) fn json_str(v: &serde_json::Value) -> Option<String> {
    match v.as_str() {
        Some(s) => Some(s.to_owned()),
        None => None,
    }
}

/// Relies on `serde_json::Value::as_u64`: a JSON number as an unsigned
/// 64-bit integer, if it is one.
#[verifier::external_body]
pub(crate) fn json_u64(v: &serde_json::Value) -> Option<u64> {
    v.as_u64()
}

/// Relies on `serde_json::Value::as_array`: the elements of a JSON array.
#[verifier::external_body]
pub(crate) fn json_array<'a>(v: &'a serde_json::Value) -> Option<&'a Vec<serde_json::Value>> {
    v.as_array()
}

} // verus!
