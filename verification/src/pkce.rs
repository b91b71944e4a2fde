//! PKCE: verifier/challenge pairs for the S256 code-challenge method.

use vstd::prelude::*;
use vstd::utf8::encode_utf8;
use crate::crypto;
use crate::crypto::{b64url_of, is_token_char, sha256_of};

verus! {

/// Length of a generated verifier, within RFC 7636's 43..=128 characters.
pub const VERIFIER_LEN: usize = 64;

/// The S256 transform: base64url, without padding, of the SHA-256 digest
/// of the verifier's bytes.
pub open spec fn challenge_of(verifier: Seq<char>) -> Seq<char> {
    b64url_of(sha256_of(encode_utf8(verifier)))
}

/// A verifier and the challenge derived from it.
pub struct PkcePair {
    pub verifier: String,
    pub challenge: String,
}

impl PkcePair {
    /// The challenge is exactly the transform of the verifier.
    pub open spec fn consistent(self) -> bool {
        self.challenge@ == challenge_of(self.verifier@)
    }
}

/// Applies the S256 transform to a verifier. This is the one place the
/// transform is computed; the provider applies it again on its side.
pub fn derive_challenge(verifier: &str) -> (r: String)
    ensures
        r@ == challenge_of(verifier@),
{
    let bytes = verifier.as_bytes_vec();
    let digest = crypto::sha256(&bytes);
    crypto::b64url_encode(&digest)
}

/// Draws a fresh random verifier and derives its challenge; the returned
/// pair always satisfies `consistent`.
pub fn generate() -> (r: PkcePair)
    ensures
        r.consistent(),
        r.verifier@.len() == VERIFIER_LEN,
        forall|i: int| 0 <= i < r.verifier@.len() ==> is_token_char(#[trigger] r.verifier@[i]),
{
    let verifier = crypto::random_token(VERIFIER_LEN);
    let challenge = derive_challenge(verifier.as_str());
    PkcePair { verifier, challenge }
}

} // verus!
