use jwt_rotation::authenticator::{JwtAuthenticator, JwtAuthenticatorConfig};
use jwt_rotation::{AuthApiError, Claims, InMemoryBlacklist, JwtAlgorithm, JwtBlacklist, JwtStatus, TokenType};

fn auth() -> JwtAuthenticator<InMemoryBlacklist> {
    JwtAuthenticator::from(JwtAuthenticatorConfig::test(), InMemoryBlacklist::new())
}

#[test]
fn pair_shares_identifier_and_subject() {
    let mut a = auth();
    let pair = a.create_token_pair_at(&42, 1000).unwrap();
    let bearer = a.decode_at(&pair.bearer, 1000).unwrap();
    let renewal = a.decode_at(&pair.refresh, 1000).unwrap();
    assert_eq!(bearer.jti, renewal.jti);
    assert_eq!(bearer.sub, 42);
    assert_eq!(renewal.sub, 42);
    assert_eq!(bearer.token_type, TokenType::Access);
    assert_eq!(renewal.token_type, TokenType::Renewal);
    assert_eq!(bearer.iat, 1000);
    assert_eq!(renewal.iat, 1000);
    assert_eq!(bearer.exp, 1000 + 3600);
    assert_eq!(renewal.exp, 1000 + 86400);
    assert!(renewal.exp >= bearer.exp);
}

#[test]
fn round_trip_decode() {
    let mut a = auth();
    let pair = a.create_token_pair_at(&7, 500).unwrap();
    let c = a.decode_at(&pair.refresh, 600).unwrap();
    assert_eq!(c.sub, 7);
    assert_eq!(c.iss, "issuer");
    assert_eq!(c.iat, 500);
    assert_eq!(c.exp, 500 + 86400);
    assert_eq!(c.token_type, TokenType::Renewal);
}

#[test]
fn first_rotation_succeeds() {
    let mut a = auth();
    let pair = a.create_token_pair_at(&42, 1000).unwrap();
    let j1 = a.decode_at(&pair.refresh, 1000).unwrap().jti;
    assert_eq!(a.status(&j1), JwtStatus::Outstanding);
    let pair2 = a.refresh_at(&pair.refresh, 1001).unwrap();
    let j2 = a.decode_at(&pair2.refresh, 1001).unwrap().jti;
    assert_ne!(j1, j2);
    assert_eq!(a.status(&j1), JwtStatus::Blacklisted);
    assert_eq!(a.status(&j2), JwtStatus::Outstanding);
}

#[test]
fn replay_is_rejected_idempotently() {
    let mut a = auth();
    let pair = a.create_token_pair_at(&42, 1000).unwrap();
    a.refresh_at(&pair.refresh, 1001).unwrap();
    let second = a.refresh_at(&pair.refresh, 1002);
    assert_eq!(second, Err(AuthApiError::AlreadyUsed));
    assert_eq!(second.unwrap_err().message(), "renewal token already used");
    assert_eq!(a.refresh_at(&pair.refresh, 1003), Err(AuthApiError::AlreadyUsed));
}

#[test]
fn unknown_identifier_rejected() {
    let mut a = auth();
    let pair = a.create_token_pair_at(&42, 1000).unwrap();
    let mut b = auth();
    let j = a.decode_at(&pair.refresh, 1000).unwrap().jti;
    assert_eq!(b.refresh_at(&pair.refresh, 1001), Err(AuthApiError::NotFound { key: j }));
    assert_eq!(b.status(&j), JwtStatus::NotFound);
}

#[test]
fn access_token_rejected_for_rotation() {
    let mut a = auth();
    let pair = a.create_token_pair_at(&42, 1000).unwrap();
    let j = a.decode_at(&pair.bearer, 1000).unwrap().jti;
    assert_eq!(a.refresh_at(&pair.bearer, 1001), Err(AuthApiError::TokenTypeMismatch));
    assert_eq!(a.status(&j), JwtStatus::Outstanding);
}

#[test]
fn expired_renewal_rejected_before_store() {
    let mut a = auth();
    let pair = a.create_token_pair_at(&42, 1000).unwrap();
    let j = a.decode_at(&pair.refresh, 1000).unwrap().jti;
    assert_eq!(a.refresh_at(&pair.refresh, 1000 + 86400), Err(AuthApiError::Expired));
    assert_eq!(a.status(&j), JwtStatus::Outstanding);
}

#[test]
fn rotation_is_exclusive() {
    let mut a = auth();
    let pair = a.create_token_pair_at(&42, 1000).unwrap();
    let mut ok = 0;
    let mut used = 0;
    for _ in 0..5 {
        match a.refresh_at(&pair.refresh, 1001) {
            Ok(_) => ok += 1,
            Err(AuthApiError::AlreadyUsed) => used += 1,
            Err(e) => panic!("unexpected error: {:?}", e),
        }
    }
    assert_eq!(ok, 1);
    assert_eq!(used, 4);
}

#[test]
fn issuance_overflow_is_signing_error() {
    let mut a = auth();
    assert_eq!(a.create_token_pair_at(&1, u64::MAX), Err(AuthApiError::SigningError));
}

#[test]
fn malformed_tokens_rejected() {
    let a = auth();
    assert_eq!(a.decode_at(&"garbage".to_string(), 0), Err(AuthApiError::MalformedToken));
    assert_eq!(a.decode_at(&"".to_string(), 0), Err(AuthApiError::MalformedToken));
    assert_eq!(a.decode_at(&"a.b.c".to_string(), 0), Err(AuthApiError::MalformedToken));
}

#[test]
fn extra_segment_rejected_as_malformed() {
    let mut a = auth();
    let pair = a.create_token_pair_at(&42, 1000).unwrap();
    let t = format!("{}.extra", pair.refresh);
    assert_eq!(a.decode_at(&t, 1000), Err(AuthApiError::MalformedToken));
    assert_eq!(a.refresh_at(&t, 1000), Err(AuthApiError::MalformedToken));
    let short = "a.b".to_string();
    assert_eq!(a.decode_at(&short, 1000), Err(AuthApiError::MalformedToken));
}

#[test]
fn tampered_signature_rejected() {
    let mut a = auth();
    let pair = a.create_token_pair_at(&42, 1000).unwrap();
    let mut t = pair.refresh.clone();
    let last = t.pop().unwrap();
    t.push(if last == 'A' { 'B' } else { 'A' });
    assert_eq!(a.decode_at(&t, 1000), Err(AuthApiError::InvalidSignature));
}

#[test]
fn wrong_secret_rejected() {
    let mut a = auth();
    let pair = a.create_token_pair_at(&42, 1000).unwrap();
    let mut cfg = JwtAuthenticatorConfig::test();
    cfg.secret = "other-secret".to_string();
    let b = JwtAuthenticator::from(cfg, InMemoryBlacklist::new());
    assert_eq!(b.decode_at(&pair.refresh, 1000), Err(AuthApiError::InvalidSignature));
}

#[test]
fn wrong_issuer_rejected() {
    let mut a = auth();
    let pair = a.create_token_pair_at(&42, 1000).unwrap();
    let mut cfg = JwtAuthenticatorConfig::test();
    cfg.iss = "other-issuer".to_string();
    let b = JwtAuthenticator::from(cfg, InMemoryBlacklist::new());
    assert_eq!(b.decode_at(&pair.refresh, 1000), Err(AuthApiError::IssuerMismatch));
}

#[test]
fn store_lifecycle_and_errors() {
    let mut s = InMemoryBlacklist::new();
    assert_eq!(s.status(&5), JwtStatus::NotFound);
    assert!(s.blacklist(5).is_err());
    let c = Claims {
        jti: 5,
        exp: 10,
        iat: 1,
        iss: "issuer".to_string(),
        token_type: TokenType::Renewal,
        sub: 9,
    };
    s.insert_outstanding(c.clone()).unwrap();
    assert_eq!(s.status(&5), JwtStatus::Outstanding);
    match s.insert_outstanding(c) {
        Err(AuthApiError::StoreError { .. }) => {},
        other => panic!("expected a store error, got {:?}", other),
    }
    s.blacklist(5).unwrap();
    assert_eq!(s.status(&5), JwtStatus::Blacklisted);
    assert!(s.blacklist(5).is_err());
}

#[test]
fn wall_clock_paths_work() {
    let mut a = auth();
    let pair = a.create_token_pair(&3).unwrap();
    let c = a.decode(pair.refresh.clone()).unwrap();
    assert_eq!(c.sub, 3);
    let pair2 = a.refresh(pair.refresh.clone()).unwrap();
    assert_eq!(a.refresh(pair.refresh), Err(AuthApiError::AlreadyUsed));
    let c2 = a.decode(pair2.bearer).unwrap();
    assert_eq!(c2.token_type, TokenType::Access);
}

#[test]
fn tokens_are_standard_jwts() {
    let mut a = auth();
    let pair = a.create_token_pair_at(&42, 1_700_000_000).unwrap();
    let c = a.decode_at(&pair.refresh, 1_700_000_000).unwrap();
    let key = jsonwebtoken::DecodingKey::from_secret(b"secret");
    let mut validation = jsonwebtoken::Validation::new(jsonwebtoken::Algorithm::HS256);
    validation.validate_exp = false;
    let data =
        jsonwebtoken::decode::<serde_json::Value>(&pair.refresh, &key, &validation).unwrap();
    assert_eq!(data.claims["sub"], 42);
    assert_eq!(data.claims["jti"], serde_json::Value::from(c.jti));
    assert_eq!(data.claims["iat"], 1_700_000_000u64);
    assert_eq!(data.claims["token_type"], "Renewal");
    // the issuer travels base64url-encoded: "issuer"
    assert_eq!(data.claims["iss"], "aXNzdWVy");
}

#[test]
fn other_algorithms_round_trip() {
    for alg in [JwtAlgorithm::HS384, JwtAlgorithm::HS512] {
        let mut cfg = JwtAuthenticatorConfig::test();
        cfg.alg = alg;
        let mut a = JwtAuthenticator::from(cfg, InMemoryBlacklist::new());
        let pair = a.create_token_pair_at(&11, 100).unwrap();
        let c = a.decode_at(&pair.refresh, 100).unwrap();
        assert_eq!(c.sub, 11);
        assert_eq!(c.token_type, TokenType::Renewal);
    }
}
