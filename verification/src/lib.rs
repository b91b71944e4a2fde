//! Core of an OpenID Connect Authorization Code Flow client: PKCE,
//! anti-CSRF state and anti-replay nonce handling, authorization-URL
//! construction, identity-token validation, integrity-protected session
//! tokens, and per-request access decisions.
//!
//! Network transport and HTTP framework integration live outside this
//! crate; every function here is pure computation over plain values, with
//! cryptographic primitives reached through a small set of audited
//! wrappers in [`crypto`].

pub mod authorize;
pub mod codec;
pub mod config;
pub mod crypto;
pub mod encoding;
pub mod errors;
pub mod flow;
pub mod guard;
pub mod pending;
pub mod pkce;
pub mod validate;
