//! Issues, verifies and rotates signed token pairs (a short-lived access
//! credential and a longer-lived renewal credential) for stateless service
//! authentication, and prevents replay of a consumed renewal credential
//! through a tracking store.
//!
//! The opaque user identifier and the token identifier are modeled as plain
//! 64-bit integers, and lifetimes as whole seconds. The issuer travels
//! base64url-encoded inside the claim payload, which keeps the verified
//! codec total for every issuer string; a consumer outside this crate reads
//! the transport form of the issuer.

pub mod base;
pub mod authenticator;
pub mod claims;
pub mod codec;
pub mod errors;
pub mod signing;
pub mod store;

pub use base::{JwtBlacklist, JwtStatus};
pub use claims::{Claims, TokenType};
pub use errors::AuthApiError;
pub use signing::JwtAlgorithm;
pub use store::InMemoryBlacklist;
