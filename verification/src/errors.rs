//! The error taxonomy of the authentication flow: security rejections,
//! transient transport failures, and provider-reported errors.

use vstd::prelude::*;

verus! {

/// Why a callback was rejected or a login attempt failed.
pub enum AuthError {
    /// The provider itself reported an error on the callback.
    IdpError { code: String, description: Option<String> },
    /// The returned `state` does not match the pending login's state.
    StateMismatch,
    /// The callback carried neither an error nor an authorization code.
    MissingCode,
    /// The token endpoint could not be reached; the login may be retried.
    Transient,
    /// The token endpoint's response was not a usable token response.
    InvalidTokenResponse,
    /// The identity token was not structurally a signed token.
    TokenMalformed,
    /// No configured signing key accepts the identity token's signature.
    SignatureInvalid,
    /// The identity token's issuer is not the configured issuer.
    IssuerMismatch,
    /// The identity token's audience names neither the client nor an
    /// accepted additional audience.
    AudienceRejected,
    /// The identity token's expiry is not in the future.
    TokenExpired,
    /// The identity token's nonce does not match the pending login's nonce.
    NonceMismatch,
}

/// How an error must be surfaced to the world outside.
pub enum ErrorClass {
    /// Denied for a security reason; the user only sees a generic prompt
    /// to authenticate again, never which check failed.
    SecurityRejection,
    /// A transport problem; the caller may restart the login.
    Transient,
    /// The provider reported the failure; surfaced as an authentication
    /// failure, not retried automatically.
    IdpReported,
}

impl AuthError {
    /// The class that decides how this error is surfaced.
    pub fn class(&self) -> (r: ErrorClass)
        ensures
            r is Transient <==> self is Transient,
            r is IdpReported <==> self is IdpError,
            r is SecurityRejection <==> !(self is Transient || self is IdpError),
    {
        match self {
            AuthError::Transient => ErrorClass::Transient,
            AuthError::IdpError { .. } => ErrorClass::IdpReported,
            _ => ErrorClass::SecurityRejection,
        }
    }
}

} // verus!
