//! A verified in-memory tracking store: the reference backend for tests and
//! embeddings without external storage.

use vstd::prelude::*;
use crate::base::{JwtBlacklist, JwtStatus};
use crate::claims::Claims;
use crate::errors::AuthApiError;

verus! {

/// An in-memory store of issued renewal-token identifiers.
///
/// A blacklisted identifier is never removed, so `Blacklisted` is terminal.
/// This backend cannot conflict: its transitions succeed exactly when the
/// store contract permits them, which its method contracts state as an iff.
pub struct InMemoryBlacklist {
    outstanding: Vec<u64>,
    black: Vec<u64>,
}

proof fn lemma_push_contains(s: Seq<u64>, x: u64)
    ensures
        forall|j: u64| #[trigger] (s + seq![x]).contains(j) <==> (s.contains(j) || j == x),
{
    assert forall|j: u64| #[trigger] (s + seq![x]).contains(j) <==> (s.contains(j) || j == x) by {
        if (s + seq![x]).contains(j) {
            let i = choose|i: int| 0 <= i < (s + seq![x]).len() && (s + seq![x])[i] == j;
            if i < s.len() {
                assert(s[i] == j);
            }
        }
        if s.contains(j) {
            let i = choose|i: int| 0 <= i < s.len() && s[i] == j;
            assert((s + seq![x])[i] == j);
        }
        if j == x {
            assert((s + seq![x])[s.len() as int] == j);
        }
    }
}

fn vec_contains(v: &Vec<u64>, j: u64) -> (r: bool)
    ensures
        r == v@.contains(j),
{
    let mut i: usize = 0;
    while i < v.len()
        invariant
            i <= v@.len(),
            forall|k: int| 0 <= k < i ==> v@[k] != j,
        decreases v@.len() - i,
    {
        if v[i] == j {
            return true;
        }
        i += 1;
    }
    false
}

impl InMemoryBlacklist {
    /// An empty store: no identifier is tracked.
    pub fn new() -> (r: Self)
        ensures
            forall|j: u64| r.spec_status(j) == JwtStatus::NotFound,
    {
        InMemoryBlacklist { outstanding: Vec::new(), black: Vec::new() }
    }
}

impl JwtBlacklist for InMemoryBlacklist {
    closed spec fn spec_status(&self, jti: u64) -> JwtStatus {
        if self.black@.contains(jti) {
            JwtStatus::Blacklisted
        } else if self.outstanding@.contains(jti) {
            JwtStatus::Outstanding
        } else {
            JwtStatus::NotFound
        }
    }

    fn status(&self, jti: &u64) -> (s: JwtStatus) {
        if vec_contains(&self.black, *jti) {
            JwtStatus::Blacklisted
        } else if vec_contains(&self.outstanding, *jti) {
            JwtStatus::Outstanding
        } else {
            JwtStatus::NotFound
        }
    }

    fn blacklist(&mut self, jti: u64) -> (r: Result<(), AuthApiError>)
        ensures
            r is Ok <==> old(self).spec_status(jti) == JwtStatus::Outstanding,
    {
        if vec_contains(&self.black, jti) {
            return Err(AuthApiError::StoreError { cause: String::from_str("already blacklisted") });
        }
        if !vec_contains(&self.outstanding, jti) {
            return Err(AuthApiError::StoreError { cause: String::from_str("not outstanding") });
        }
        proof {
            lemma_push_contains(self.black@, jti);
        }
        self.black.push(jti);
        proof {
            assert(self.black@ =~= old(self).black@ + seq![jti]);
            assert(self.black@.contains(jti));
            assert(forall|j: u64|
                j != jti ==> #[trigger] self.black@.contains(j) == old(
                    self,
                ).black@.contains(j));
        }
        Ok(())
    }

    fn insert_outstanding(&mut self, token: Claims) -> (r: Result<(), AuthApiError>)
        ensures
            r is Ok <==> old(self).spec_status(token.jti) == JwtStatus::NotFound,
    {
        if vec_contains(&self.black, token.jti) || vec_contains(&self.outstanding, token.jti) {
            return Err(AuthApiError::StoreError { cause: String::from_str("already tracked") });
        }
        proof {
            lemma_push_contains(self.outstanding@, token.jti);
        }
        self.outstanding.push(token.jti);
        proof {
            assert(self.outstanding@ =~= old(self).outstanding@ + seq![token.jti]);
            assert(self.outstanding@.contains(token.jti));
            assert(forall|j: u64|
                j != token.jti ==> #[trigger] self.outstanding@.contains(j) == old(
                    self,
                ).outstanding@.contains(j));
        }
        Ok(())
    }
}

} // verus!
