use vstd::prelude::*;

verus! {

/// Every failure of the library is one of these typed kinds, so that a caller
/// can tell "retry later" (`StoreError`) from "reject the client"
/// (`AlreadyUsed`, `NotFound`, `TokenTypeMismatch`, `Expired`, ...).
#[derive(Debug, Clone, PartialEq)]
pub enum AuthApiError {
    /// A claim set could not be encoded or signed.
    SigningError,
    /// The token's signature does not match its header and payload.
    InvalidSignature,
    /// The token's expiry has passed (`exp <= now`).
    Expired,
    /// The token is structurally invalid.
    MalformedToken,
    /// The token's issuer is not the configured issuer.
    IssuerMismatch,
    /// A token of the wrong role was presented for rotation.
    TokenTypeMismatch,
    /// The identifier was never registered with the tracking store.
    NotFound { key: u64 },
    /// The renewal token was already consumed by an earlier rotation.
    AlreadyUsed,
    /// The tracking store failed; the opaque cause is wrapped.
    StoreError { cause: String },
}

impl AuthApiError {
    /// A short description, for callers that log or display failures.
    pub fn message(&self) -> (r: &'static str)
    {
        match self {
            AuthApiError::SigningError => "claims could not be signed",
            AuthApiError::InvalidSignature => "invalid signature",
            AuthApiError::Expired => "token expired",
            AuthApiError::MalformedToken => "malformed token",
            AuthApiError::IssuerMismatch => "issuer mismatch",
            AuthApiError::TokenTypeMismatch => "wrong token type",
            AuthApiError::NotFound { .. } => "token identifier not found",
            AuthApiError::AlreadyUsed => "renewal token already used",
            AuthApiError::StoreError { .. } => "tracking store failure",
        }
    }
}

} // verus!
