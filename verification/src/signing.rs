//! The signing primitives of the token wire format, relied on but not
//! verified: HMAC signatures and base64url transport encoding, together
//! with the clock and the byte/string conversions at the boundary.

use vstd::prelude::*;
use vstd::utf8::encode_utf8;
use crate::codec::is_b64url_byte;
use crate::errors::AuthApiError;

verus! {

/// The HMAC-SHA family of signing algorithms supported by the wire format.
#[derive(Debug, Clone, Copy, PartialEq, Eq, Structural)]
pub enum JwtAlgorithm {
    HS256,
    HS384,
    HS512,
}

/// The canonical unpadded base64url encoding of a byte sequence.
pub uninterp spec fn b64u_of(b: Seq<u8>) -> Seq<u8>;

/// The base64url-encoded HMAC signature of a message under a key.
pub uninterp spec fn hmac_sig(alg: JwtAlgorithm, key: Seq<u8>, msg: Seq<u8>) -> Seq<u8>;

/// Relies on base64's `URL_SAFE_NO_PAD` engine: the canonical, unpadded,
/// injective base64url encoding over the `A-Z a-z 0-9 - _` alphabet.
#[verifier::external_body]
pub(crate) fn b64u_encode(v: &Vec<u8>) -> (r: Vec<u8>)
    ensures
        r@ == b64u_of(v@),
        forall|i: int| 0 <= i < r@.len() ==> is_b64url_byte(#[trigger] r@[i]),
        forall|w: Seq<u8>| r@ == b64u_of(w) ==> w == v@,
{
    base64::Engine::encode(&base64::engine::general_purpose::URL_SAFE_NO_PAD, v.as_slice())
        .into_bytes()
}

/// Relies on base64's `URL_SAFE_NO_PAD` engine: decoding succeeds exactly on
/// the canonical encodings (no padding, no trailing bits), and inverts them.
#[verifier::external_body]
pub(crate) fn b64u_decode(s: &Vec<u8>) -> (r: Option<Vec<u8>>)
    ensures
        r matches Some(v) ==> s@ == b64u_of(v@) && (forall|w: Seq<u8>|
            s@ == b64u_of(w) ==> w == v@),
        r is None ==> forall|w: Seq<u8>| s@ != b64u_of(w),
{
    match base64::Engine::decode(&base64::engine::general_purpose::URL_SAFE_NO_PAD, s.as_slice()) {
        Ok(v) => Some(v),
        Err(_) => None,
    }
}

/// Relies on jsonwebtoken's `crypto::sign` with an HMAC secret key: the
/// signature is deterministic in algorithm, key and message, base64url
/// encoded, and HMAC signing of an arbitrary-length secret never fails.
#[verifier::external_body]
pub(crate) fn hmac_sign(alg: &JwtAlgorithm, key: &Vec<u8>, msg: &Vec<u8>) -> (r: Result<
    Vec<u8>,
    AuthApiError,
>)
    ensures
        r is Ok,
        r matches Ok(s) ==> s@ == hmac_sig(*alg, key@, msg@) && (forall|i: int|
            0 <= i < s@.len() ==> is_b64url_byte(#[trigger] s@[i])),
{
    let a = match alg {
        JwtAlgorithm::HS256 => jsonwebtoken::Algorithm::HS256,
        JwtAlgorithm::HS384 => jsonwebtoken::Algorithm::HS384,
        JwtAlgorithm::HS512 => jsonwebtoken::Algorithm::HS512,
    };
    let k = jsonwebtoken::EncodingKey::from_secret(key.as_slice());
    match jsonwebtoken::crypto::sign(msg.as_slice(), &k, a) {
        Ok(s) => Ok(s.into_bytes()),
        Err(_) => Err(AuthApiError::SigningError),
    }
}

/// Relies on jsonwebtoken's `crypto::verify` with an HMAC secret key: it
/// recomputes the signature and reports exactly whether the presented one
/// is the canonical base64url encoding of the correct HMAC.
#[verifier::external_body]
pub(crate) fn hmac_verify(alg: &JwtAlgorithm, key: &Vec<u8>, msg: &Vec<u8>, sig: &Vec<u8>) -> (r:
    bool)
    ensures
        r == (sig@ == hmac_sig(*alg, key@, msg@)),
{
    let a = match alg {
        JwtAlgorithm::HS256 => jsonwebtoken::Algorithm::HS256,
        JwtAlgorithm::HS384 => jsonwebtoken::Algorithm::HS384,
        JwtAlgorithm::HS512 => jsonwebtoken::Algorithm::HS512,
    };
    let k = jsonwebtoken::DecodingKey::from_secret(key.as_slice());
    let s = match std::str::from_utf8(sig.as_slice()) {
        Ok(s) => s,
        Err(_) => return false,
    };
    match jsonwebtoken::crypto::verify(s, msg.as_slice(), &k, a) {
        Ok(v) => v,
        Err(_) => false,
    }
}

/// Relies on `String::from_utf8`: the UTF-8 encoding of ASCII bytes is the
/// identity, so the returned string's bytes are exactly the input.
#[verifier::external_body]
pub(crate) fn ascii_to_string(v: Vec<u8>) -> (r: String)
    requires
        forall|i: int| 0 <= i < v@.len() ==> v@[i] < 128,
    ensures
        encode_utf8(r@) == v@,
{
    String::from_utf8(v).unwrap_or_default()
}

/// Relies on `std::collections::hash_map::RandomState`: every instance is
/// seeded from the thread's random keys and a fresh per-instance counter,
/// so a finished hasher yields a value that varies per call and per
/// process. Nothing is assumed of the value: a collision between issuances
/// is the store's to detect, since registration fails on an existing
/// identifier.
#[verifier::external_body]
pub(crate) fn random_u64() -> u64 {
    let state = std::collections::hash_map::RandomState::new();
    let hasher = std::hash::BuildHasher::build_hasher(&state);
    std::hash::Hasher::finish(&hasher)
}

/// Relies on `std::time::SystemTime::now`: seconds since the Unix epoch.
/// Nothing is assumed of the value.
#[verifier::external_body]
pub(crate) fn now_unix() -> u64 {
    match std::time::SystemTime::now().duration_since(std::time::UNIX_EPOCH) {
        Ok(d) => d.as_secs(),
        Err(_) => 0,
    }
}

} // verus!
