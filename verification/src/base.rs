//! The tracking store contract: a repository of the renewal-token
//! identifiers that the system has issued.

use vstd::prelude::*;
use crate::claims::Claims;
use crate::errors::AuthApiError;

verus! {

/// Status of a tracked renewal-token identifier, as reported by the store.
///
/// A `jti` enters `Outstanding` when its renewal claim is registered at
/// issuance, moves to `Blacklisted` exactly once when consumed by rotation,
/// and is `NotFound` when no record exists.
#[derive(Debug, PartialEq, Eq, Structural, Clone, Copy)]
pub enum JwtStatus {
    Outstanding,
    Blacklisted,
    NotFound,
}

/// A repository of the renewal-token identifiers issued by the system.
///
/// The store serializes conflicting rotations of one identifier: `blacklist`
/// is a conditional transition that can succeed only from `Outstanding`, and
/// `Blacklisted` is terminal — no operation leaves it. A failing operation
/// reports a `StoreError` and changes nothing.
pub trait JwtBlacklist: Sized {
    /// The status the store currently records for each identifier.
    spec fn spec_status(&self, jti: u64) -> JwtStatus;

    /// Get the status of a token based only on its identifier.
    fn status(&self, jti: &u64) -> (s: JwtStatus)
        ensures
            s == self.spec_status(*jti),
    ;

    /// Move the identifier from outstanding to the blacklist.
    ///
    /// This is the store's atomic conditional transition: it can succeed only
    /// when the identifier was `Outstanding`, and a failure changes nothing.
    fn blacklist(&mut self, jti: u64) -> (r: Result<(), AuthApiError>)
        ensures
            r is Ok ==> old(self).spec_status(jti) == JwtStatus::Outstanding,
            r is Ok ==> final(self).spec_status(jti) == JwtStatus::Blacklisted,
            r is Ok ==> forall|j: u64|
                j != jti ==> final(self).spec_status(j) == old(self).spec_status(j),
            r matches Err(e) ==> e is StoreError && (forall|j: u64|
                final(self).spec_status(j) == old(self).spec_status(j)),
    ;

    /// Register a new identifier as outstanding; fails if it already exists.
    fn insert_outstanding(&mut self, token: Claims) -> (r: Result<(), AuthApiError>)
        ensures
            r is Ok ==> old(self).spec_status(token.jti) == JwtStatus::NotFound,
            r is Ok ==> final(self).spec_status(token.jti) == JwtStatus::Outstanding,
            r is Ok ==> forall|j: u64|
                j != token.jti ==> final(self).spec_status(j) == old(self).spec_status(j),
            r matches Err(e) ==> e is StoreError && (forall|j: u64|
                final(self).spec_status(j) == old(self).spec_status(j)),
    ;
}

} // verus!
