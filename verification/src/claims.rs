use vstd::prelude::*;

verus! {

/// The role of a token: a short-lived access (bearer) credential, or the
/// longer-lived renewal credential that can be exchanged exactly once.
#[derive(Debug, Clone, Copy, PartialEq, Eq, Structural)]
pub enum TokenType {
    Access,
    Renewal,
}

/// The signed payload of every token: the six claims of the wire format.
///
/// An access claim and a renewal claim produced by one factory call share
/// `jti`, `iat` and `sub`, and differ in `token_type` and `exp`.
#[derive(Debug, Clone, PartialEq)]
pub struct Claims {
    /// Unique token identifier, shared by both tokens of one pair.
    pub jti: u64,
    /// Expiry, seconds since epoch; `exp == iat + lifetime`.
    pub exp: u64,
    /// Issued-at, seconds since epoch.
    pub iat: u64,
    /// Configured issuer string, constant per authenticator instance.
    pub iss: String,
    /// The token's role, fixed at creation.
    pub token_type: TokenType,
    /// The opaque user identifier.
    pub sub: u64,
}

/// Mathematical view of a claim set.
pub ghost struct ClaimsV {
    pub jti: u64,
    pub exp: u64,
    pub iat: u64,
    pub iss: Seq<char>,
    pub token_type: TokenType,
    pub sub: u64,
}

impl View for Claims {
    type V = ClaimsV;

    open spec fn view(&self) -> ClaimsV {
        ClaimsV {
            jti: self.jti,
            exp: self.exp,
            iat: self.iat,
            iss: self.iss@,
            token_type: self.token_type,
            sub: self.sub,
        }
    }
}

} // verus!
