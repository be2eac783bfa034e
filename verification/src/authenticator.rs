//! The token factory, verifier and rotation controller.

use vstd::prelude::*;
use vstd::utf8::encode_utf8;
use crate::base::{JwtBlacklist, JwtStatus};
use crate::claims::{Claims, ClaimsV, TokenType};
use crate::codec::{
    Payload, PayloadV, payload_bytes, payload_wf, is_b64url_byte, encode_payload, parse_payload,
    expect_lit, scan_byte, copy_range, bytes_eq, push_all,
};
use crate::errors::AuthApiError;
use crate::signing::{
    JwtAlgorithm, b64u_of, hmac_sig, b64u_encode, b64u_decode, hmac_sign, hmac_verify,
    ascii_to_string, now_unix, random_u64,
};

verus! {

/// Bearer (access) tokens are strings: they are sent from the outside.
pub type BearerToken = String;

/// Refresh (renewal) tokens are strings: they are sent from the outside.
pub type RefreshToken = String;

/// The result of token creation: an access token with the renewal token to
/// be exchanged when it expires. Not retained by the core after return.
#[derive(Debug, PartialEq)]
pub struct JwtPair {
    pub bearer: BearerToken,
    pub refresh: RefreshToken,
}

/// How tokens are created and decoded: the configuration surface, consumed
/// at construction.
#[derive(Clone)]
pub struct JwtAuthenticatorConfig {
    pub iss: String,
    pub alg: JwtAlgorithm,
    pub secret: String,
    /// Access-token lifetime, in seconds.
    pub bearer_token_lifetime: u64,
    /// Renewal-token lifetime, in seconds.
    pub refresh_token_lifetime: u64,
}

impl JwtAuthenticatorConfig {
    /// A configuration with sensible defaults. NOTE: not suitable for
    /// production use, since the signature secret is known.
    pub fn test() -> (r: Self)
        ensures
            r.iss@ == "issuer"@,
            r.alg == JwtAlgorithm::HS256,
            r.secret@ == "secret"@,
            r.bearer_token_lifetime == 3600,
            r.refresh_token_lifetime == 86400,
    {
        JwtAuthenticatorConfig {
            iss: String::from_str("issuer"),
            alg: JwtAlgorithm::HS256,
            secret: String::from_str("secret"),
            bearer_token_lifetime: 60 * 60,
            refresh_token_lifetime: 60 * 60 * 24,
        }
    }
}

/// The two-valued algorithm tag of the header.
pub open spec fn alg_tag(alg: JwtAlgorithm) -> Seq<u8> {
    match alg {
        JwtAlgorithm::HS256 => seq![72u8, 83, 50, 53, 54],
        JwtAlgorithm::HS384 => seq![72u8, 83, 51, 56, 52],
        JwtAlgorithm::HS512 => seq![72u8, 83, 53, 49, 50],
    }
}

/// The header of every token: `{"alg":"HS...","typ":"JWT"}`.
pub open spec fn header_json(alg: JwtAlgorithm) -> Seq<u8> {
    seq![123u8, 34, 97, 108, 103, 34, 58, 34] + alg_tag(alg) + seq![
        34u8,
        44,
        34,
        116,
        121,
        112,
        34,
        58,
        34,
        74,
        87,
        84,
        34,
        125,
    ]
}

fn header_json_vec(alg: &JwtAlgorithm) -> (r: Vec<u8>)
    ensures
        r@ == header_json(*alg),
{
    let mut v: Vec<u8> = Vec::new();
    v.push(123);
    v.push(34);
    v.push(97);
    v.push(108);
    v.push(103);
    v.push(34);
    v.push(58);
    v.push(34);
    v.push(72);
    v.push(83);
    match alg {
        JwtAlgorithm::HS256 => {
            v.push(50);
            v.push(53);
            v.push(54);
        },
        JwtAlgorithm::HS384 => {
            v.push(51);
            v.push(56);
            v.push(52);
        },
        JwtAlgorithm::HS512 => {
            v.push(53);
            v.push(49);
            v.push(50);
        },
    }
    v.push(34);
    v.push(44);
    v.push(34);
    v.push(116);
    v.push(121);
    v.push(112);
    v.push(34);
    v.push(58);
    v.push(34);
    v.push(74);
    v.push(87);
    v.push(84);
    v.push(34);
    v.push(125);
    proof {
        assert(v@ =~= header_json(*alg));
    }
    v
}

/// The wire payload that carries a claim set, given the transport encoding
/// of the issuer.
pub open spec fn claims_payload(c: ClaimsV, iss_b64: Seq<u8>) -> PayloadV {
    PayloadV {
        jti: c.jti,
        exp: c.exp,
        iat: c.iat,
        iss_b64: iss_b64,
        token_type: c.token_type,
        sub: c.sub,
    }
}

/// The signing input of a token: `b64url(header) . b64url(payload)`.
pub open spec fn message_bytes(alg: JwtAlgorithm, p: PayloadV) -> Seq<u8> {
    b64u_of(header_json(alg)) + seq![46u8] + b64u_of(payload_bytes(p))
}

/// The full wire form of a token: `message . signature`.
pub open spec fn token_bytes(alg: JwtAlgorithm, key: Seq<u8>, p: PayloadV) -> Seq<u8> {
    message_bytes(alg, p) + seq![46u8] + hmac_sig(alg, key, message_bytes(alg, p))
}

/// A transportable token: its base64url payload chunk and its signature
/// chunk use the base64url alphabet, so the three parts are separated by
/// exactly two dots.
pub open spec fn token_wf(alg: JwtAlgorithm, key: Seq<u8>, p: PayloadV) -> bool {
    &&& payload_wf(p)
    &&& forall|i: int|
        0 <= i < b64u_of(payload_bytes(p)).len() ==> is_b64url_byte(
            #[trigger] b64u_of(payload_bytes(p))[i],
        )
    &&& forall|i: int|
        0 <= i < hmac_sig(alg, key, message_bytes(alg, p)).len() ==> is_b64url_byte(
            #[trigger] hmac_sig(alg, key, message_bytes(alg, p))[i],
        )
}

/// The three-part frame of a token under a given header encoding: the
/// header, a dot-free payload chunk, and a dot-free signature chunk — an
/// input with more or fewer than two separating dots has no frame.
pub open spec fn framed(hb: Seq<u8>, tb: Seq<u8>, c: Seq<u8>, s: Seq<u8>) -> bool {
    &&& tb == hb + seq![46u8] + c + seq![46u8] + s
    &&& (forall|k: int| 0 <= k < c.len() ==> c[k] != 46)
    &&& (forall|k: int| 0 <= k < s.len() ==> s[k] != 46)
}

/// Main authenticator used by the services: issues, verifies and rotates
/// token pairs, against a tracking store `B`.
pub struct JwtAuthenticator<B: JwtBlacklist> {
    iss: String,
    alg: JwtAlgorithm,
    key: Vec<u8>,
    bearer_token_lifetime: u64,
    refresh_token_lifetime: u64,
    header_b64: Vec<u8>,
    iss_b64: Vec<u8>,
    next_jti: u64,
    blacklist: B,
}

impl<B: JwtBlacklist> JwtAuthenticator<B> {
    /// The configured issuer.
    pub closed spec fn spec_iss(&self) -> Seq<char> {
        self.iss@
    }

    /// The configured algorithm.
    pub closed spec fn spec_alg(&self) -> JwtAlgorithm {
        self.alg
    }

    /// The signing key bytes.
    pub closed spec fn spec_key(&self) -> Seq<u8> {
        self.key@
    }

    /// The configured access-token lifetime.
    pub closed spec fn spec_bearer_lifetime(&self) -> u64 {
        self.bearer_token_lifetime
    }

    /// The configured renewal-token lifetime.
    pub closed spec fn spec_refresh_lifetime(&self) -> u64 {
        self.refresh_token_lifetime
    }

    /// The transport encoding of the issuer, as it stands in every payload.
    pub closed spec fn spec_iss_b64(&self) -> Seq<u8> {
        self.iss_b64@
    }

    /// The next identifier the factory will assign: identifiers count up
    /// from a random per-instance starting point.
    pub closed spec fn spec_next_jti(&self) -> u64 {
        self.next_jti
    }

    /// The tracking store's current record for an identifier.
    pub open spec fn spec_status(&self, jti: u64) -> JwtStatus {
        self.spec_store().spec_status(jti)
    }

    /// The tracking store.
    pub closed spec fn spec_store(&self) -> B {
        self.blacklist
    }

    /// The cached transport encodings match the configuration.
    pub closed spec fn wf(&self) -> bool {
        &&& self.header_b64@ == b64u_of(header_json(self.alg))
        &&& (forall|i: int|
            0 <= i < self.header_b64@.len() ==> is_b64url_byte(#[trigger] self.header_b64@[i]))
        &&& self.iss_b64@ == b64u_of(encode_utf8(self.iss@))
        &&& (forall|i: int|
            0 <= i < self.iss_b64@.len() ==> is_b64url_byte(#[trigger] self.iss_b64@[i]))
    }

    /// The configuration is unchanged by an operation.
    pub open spec fn same_config(&self, other: &Self) -> bool {
        &&& self.spec_iss() == other.spec_iss()
        &&& self.spec_alg() == other.spec_alg()
        &&& self.spec_key() == other.spec_key()
        &&& self.spec_bearer_lifetime() == other.spec_bearer_lifetime()
        &&& self.spec_refresh_lifetime() == other.spec_refresh_lifetime()
        &&& self.spec_iss_b64() == other.spec_iss_b64()
    }

    /// Builds an authenticator from its configuration and a tracking store.
    pub fn from(config: JwtAuthenticatorConfig, blacklist: B) -> (r: Self)
        ensures
            r.wf(),
            r.spec_iss() == config.iss@,
            r.spec_alg() == config.alg,
            r.spec_key() == encode_utf8(config.secret@),
            r.spec_bearer_lifetime() == config.bearer_token_lifetime,
            r.spec_refresh_lifetime() == config.refresh_token_lifetime,
            r.spec_iss_b64() == b64u_of(encode_utf8(config.iss@)),
            r.spec_store() == blacklist,
    {
        let hj = header_json_vec(&config.alg);
        let header_b64 = b64u_encode(&hj);
        let issb = config.iss.as_str().as_bytes_vec();
        let iss_b64 = b64u_encode(&issb);
        let key = config.secret.as_str().as_bytes_vec();
        JwtAuthenticator {
            iss: config.iss,
            alg: config.alg,
            key,
            bearer_token_lifetime: config.bearer_token_lifetime,
            refresh_token_lifetime: config.refresh_token_lifetime,
            header_b64,
            iss_b64,
            next_jti: random_u64(),
            blacklist,
        }
    }

    /// Signs one wire payload into its three-part token string.
    fn sign_payload(&self, pl: &Payload) -> (r: Result<String, AuthApiError>)
        requires
            self.wf(),
            pl@.iss_b64 == self.spec_iss_b64(),
        ensures
            r is Ok,
            r matches Ok(t) ==> encode_utf8(t@) == token_bytes(
                self.spec_alg(),
                self.spec_key(),
                pl@,
            ) && token_wf(self.spec_alg(), self.spec_key(), pl@),
    {
        let pb = encode_payload(pl);
        let pb64 = b64u_encode(&pb);
        let mut msg: Vec<u8> = Vec::new();
        push_all(&mut msg, &self.header_b64);
        msg.push(46);
        push_all(&mut msg, &pb64);
        proof {
            assert(msg@ =~= message_bytes(self.spec_alg(), pl@));
        }
        let sig = match hmac_sign(&self.alg, &self.key, &msg) {
            Ok(s) => s,
            Err(e) => {
                return Err(e);
            },
        };
        let mut tok = msg;
        tok.push(46);
        push_all(&mut tok, &sig);
        proof {
            assert(tok@ =~= token_bytes(self.spec_alg(), self.spec_key(), pl@));
            assert forall|i: int| 0 <= i < tok@.len() implies tok@[i] < 128 by {
                assert(tok@[i] == 46 || is_b64url_byte(tok@[i]));
            }
        }
        Ok(ascii_to_string(tok))
    }
}

} // verus!

verus! {

impl<B: JwtBlacklist> JwtAuthenticator<B> {
    /// Decodes and validates a presented token against an explicit clock
    /// reading: signature, issuer and expiry are all checked, and every
    /// transportable token that this authenticator's key signed is
    /// classified exactly.
    #[verifier::rlimit(100)]
    #[verifier::spinoff_prover]
    pub fn decode_at(&self, token: &String, now: u64) -> (r: Result<Claims, AuthApiError>)
        requires
            self.wf(),
        ensures
            r matches Ok(c) ==> encode_utf8(token@) == token_bytes(
                self.spec_alg(),
                self.spec_key(),
                claims_payload(c@, self.spec_iss_b64()),
            ) && c@.iss == self.spec_iss() && c@.exp > now,
            forall|p: PayloadV|
                (encode_utf8(token@) == #[trigger] token_bytes(self.spec_alg(), self.spec_key(), p)
                    && token_wf(self.spec_alg(), self.spec_key(), p)) ==> (if p.iss_b64 != self.spec_iss_b64() {
                    r == Err::<Claims, AuthApiError>(AuthApiError::IssuerMismatch)
                } else if p.exp <= now {
                    r == Err::<Claims, AuthApiError>(AuthApiError::Expired)
                } else {
                    r matches Ok(c) && c@ == (ClaimsV {
                        jti: p.jti,
                        exp: p.exp,
                        iat: p.iat,
                        iss: self.spec_iss(),
                        token_type: p.token_type,
                        sub: p.sub,
                    })
                }),
            r matches Err(e) ==> (e is MalformedToken || e is InvalidSignature || e is Expired
                || e is IssuerMismatch),
            forall|c: Seq<u8>, s: Seq<u8>|
                (#[trigger] framed(
                    b64u_of(header_json(self.spec_alg())),
                    encode_utf8(token@),
                    c,
                    s,
                ) && s != hmac_sig(
                    self.spec_alg(),
                    self.spec_key(),
                    b64u_of(header_json(self.spec_alg())) + seq![46u8] + c,
                )) ==> r == Err::<Claims, AuthApiError>(AuthApiError::InvalidSignature),
            (forall|c: Seq<u8>, s: Seq<u8>|
                !framed(b64u_of(header_json(self.spec_alg())), encode_utf8(token@), c, s)) ==> r
                == Err::<Claims, AuthApiError>(AuthApiError::MalformedToken),
            forall|c: Seq<u8>, s: Seq<u8>|
                (#[trigger] framed(
                    b64u_of(header_json(self.spec_alg())),
                    encode_utf8(token@),
                    c,
                    s,
                ) && s == hmac_sig(
                    self.spec_alg(),
                    self.spec_key(),
                    b64u_of(header_json(self.spec_alg())) + seq![46u8] + c,
                ) && !(exists|q: PayloadV| c == b64u_of(#[trigger] payload_bytes(q)))) ==> r
                == Err::<Claims, AuthApiError>(AuthApiError::MalformedToken),
    {
        let b = token.as_str().as_bytes_vec();
        let blen = b.len();
        let rh = expect_lit(&b, 0, &self.header_b64);
        let e1 = match rh {
            Some(e) => e,
            None => 0,
        };
        let dot1_ok = match rh {
            Some(_) => e1 < blen && b[e1] == 46,
            None => false,
        };
        let rs = if dot1_ok {
            scan_byte(&b, e1 + 1, 46)
        } else {
            None
        };
        let j2 = match rs {
            Some(j) => j,
            None => 0,
        };
        let sig_clean = match rs {
            Some(_) => scan_byte(&b, j2 + 1, 46).is_none(),
            None => false,
        };
        let (ver_ok, pdec) = match rs {
            Some(_) => {
                let msg = copy_range(&b, 0, j2);
                let sig = copy_range(&b, j2 + 1, blen);
                let v = hmac_verify(&self.alg, &self.key, &msg, &sig);
                let chunk = copy_range(&b, e1 + 1, j2);
                (v, b64u_decode(&chunk))
            },
            None => (false, None),
        };
        let parsed = match &pdec {
            Some(v) => parse_payload(v),
            None => None,
        };
        proof {
            assert forall|p: PayloadV|
                (encode_utf8(token@) == #[trigger] token_bytes(self.spec_alg(), self.spec_key(), p)
                    && token_wf(self.spec_alg(), self.spec_key(), p)) implies {
                &&& dot1_ok
                &&& rs is Some
                &&& sig_clean
                &&& ver_ok
                &&& (parsed matches Some(pl) && pl@ == p)
            } by {
                let hb = self.header_b64@;
                let pb = b64u_of(payload_bytes(p));
                let mm = message_bytes(self.spec_alg(), p);
                let sg = hmac_sig(self.spec_alg(), self.spec_key(), mm);
                assert(b@ == hb + seq![46u8] + pb + seq![46u8] + sg);
                assert(0 + hb.len() <= b@.len());
                assert(b@.subrange(0, 0 + hb.len() as int) =~= hb);
                if rh is None {
                    assert(false);
                }
                assert(e1 == hb.len());
                assert(b@[e1 as int] == 46);
                assert(dot1_ok);
                assert forall|k: int| e1 + 1 <= k < e1 + 1 + pb.len() implies b@[k] != 46 by {
                    assert(b@[k] == pb[k - (e1 + 1)]);
                    assert(is_b64url_byte(pb[k - (e1 + 1)]));
                }
                assert(b@[e1 + 1 + pb.len()] == 46);
                if rs is None {
                    assert(false);
                }
                if j2 < e1 + 1 + pb.len() {
                    assert(b@[j2 as int] != 46);
                    assert(false);
                }
                if j2 > e1 + 1 + pb.len() {
                    assert(b@[e1 + 1 + pb.len()] != 46);
                    assert(false);
                }
                assert(j2 == e1 + 1 + pb.len());
                assert(b@.subrange(0, j2 as int) =~= mm);
                assert(b@.len() == mm.len() + 1 + sg.len());
                assert(b@.subrange(j2 + 1, blen as int) =~= sg);
                assert forall|k: int| j2 + 1 <= k < blen implies b@[k] != 46 by {
                    assert(b@[k] == sg[k - (j2 + 1)]);
                    assert(is_b64url_byte(sg[k - (j2 + 1)]));
                }
                assert(sig_clean);
                assert(ver_ok);
                assert(b@.subrange(e1 + 1, j2 as int) =~= pb);
                if pdec is None {
                    assert(false);
                }
                assert(pdec matches Some(v) && v@ == payload_bytes(p));
                if parsed is None {
                    assert(false);
                }
            }
            assert forall|c: Seq<u8>, s: Seq<u8>|
                #[trigger] framed(
                    b64u_of(header_json(self.spec_alg())),
                    encode_utf8(token@),
                    c,
                    s,
                ) implies {
                &&& dot1_ok
                &&& rs is Some
                &&& sig_clean
                &&& b@.subrange(e1 + 1, j2 as int) == c
                &&& b@.subrange(j2 + 1, blen as int) == s
                &&& ver_ok == (s == hmac_sig(
                    self.spec_alg(),
                    self.spec_key(),
                    b64u_of(header_json(self.spec_alg())) + seq![46u8] + c,
                ))
            } by {
                let hb = self.header_b64@;
                assert(b@ == hb + seq![46u8] + c + seq![46u8] + s);
                assert(0 + hb.len() <= b@.len());
                assert(b@.subrange(0, 0 + hb.len() as int) =~= hb);
                if rh is None {
                    assert(false);
                }
                assert(e1 == hb.len());
                assert(b@[e1 as int] == 46);
                assert(dot1_ok);
                assert forall|k: int| e1 + 1 <= k < e1 + 1 + c.len() implies b@[k] != 46 by {
                    assert(b@[k] == c[k - (e1 + 1)]);
                }
                assert(b@[e1 + 1 + c.len()] == 46);
                if rs is None {
                    assert(false);
                }
                if j2 < e1 + 1 + c.len() {
                    assert(b@[j2 as int] != 46);
                    assert(false);
                }
                if j2 > e1 + 1 + c.len() {
                    assert(b@[e1 + 1 + c.len()] != 46);
                    assert(false);
                }
                assert(b@.subrange(e1 + 1, j2 as int) =~= c);
                assert(b@.subrange(j2 + 1, blen as int) =~= s);
                assert(b@.subrange(0, j2 as int) =~= hb + seq![46u8] + c);
                assert forall|k: int| j2 + 1 <= k < blen implies b@[k] != 46 by {
                    assert(b@[k] == s[k - (j2 + 1)]);
                }
                assert(sig_clean);
            }
            if dot1_ok && rs is Some && sig_clean {
                let cc = b@.subrange(e1 + 1, j2 as int);
                let ss = b@.subrange(j2 + 1, blen as int);
                assert forall|k: int| 0 <= k < cc.len() implies cc[k] != 46 by {
                    assert(cc[k] == b@[e1 + 1 + k]);
                }
                assert forall|k: int| 0 <= k < ss.len() implies ss[k] != 46 by {
                    assert(ss[k] == b@[j2 + 1 + k]);
                }
                assert(b@ =~= self.header_b64@ + seq![46u8] + cc + seq![46u8] + ss);
                assert(framed(b64u_of(header_json(self.spec_alg())), encode_utf8(token@), cc, ss));
            }
        }
        if !dot1_ok {
            return Err(AuthApiError::MalformedToken);
        }
        if rs.is_none() {
            return Err(AuthApiError::MalformedToken);
        }
        if !sig_clean {
            return Err(AuthApiError::MalformedToken);
        }
        if !ver_ok {
            return Err(AuthApiError::InvalidSignature);
        }
        let pl = match parsed {
            Some(pl) => pl,
            None => {
                return Err(AuthApiError::MalformedToken);
            },
        };
        if !bytes_eq(&pl.iss_b64, &self.iss_b64) {
            return Err(AuthApiError::IssuerMismatch);
        }
        if pl.exp <= now {
            return Err(AuthApiError::Expired);
        }
        let c = Claims {
            jti: pl.jti,
            exp: pl.exp,
            iat: pl.iat,
            iss: self.iss.clone(),
            token_type: pl.token_type,
            sub: pl.sub,
        };
        proof {
            let mm = message_bytes(self.spec_alg(), pl@);
            assert(b@.subrange(0, j2 as int) =~= mm);
            assert(b@ =~= b@.subrange(0, j2 as int) + seq![46u8] + b@.subrange(
                j2 + 1,
                blen as int,
            ));
            assert(b@ == token_bytes(self.spec_alg(), self.spec_key(), pl@));
            assert(pl@ == claims_payload(c@, self.spec_iss_b64()));
        }
        Ok(c)
    }

    /// Decodes and validates a presented token against the current time.
    pub fn decode(&self, token: String) -> (r: Result<Claims, AuthApiError>)
        requires
            self.wf(),
        ensures
            r matches Ok(c) ==> encode_utf8(token@) == token_bytes(
                self.spec_alg(),
                self.spec_key(),
                claims_payload(c@, self.spec_iss_b64()),
            ) && c@.iss == self.spec_iss(),
            r matches Err(e) ==> (e is MalformedToken || e is InvalidSignature || e is Expired
                || e is IssuerMismatch),
            forall|c: Seq<u8>, s: Seq<u8>|
                (#[trigger] framed(
                    b64u_of(header_json(self.spec_alg())),
                    encode_utf8(token@),
                    c,
                    s,
                ) && s != hmac_sig(
                    self.spec_alg(),
                    self.spec_key(),
                    b64u_of(header_json(self.spec_alg())) + seq![46u8] + c,
                )) ==> r == Err::<Claims, AuthApiError>(AuthApiError::InvalidSignature),
            (forall|c: Seq<u8>, s: Seq<u8>|
                !framed(b64u_of(header_json(self.spec_alg())), encode_utf8(token@), c, s)) ==> r
                == Err::<Claims, AuthApiError>(AuthApiError::MalformedToken),
            forall|c: Seq<u8>, s: Seq<u8>|
                (#[trigger] framed(
                    b64u_of(header_json(self.spec_alg())),
                    encode_utf8(token@),
                    c,
                    s,
                ) && s == hmac_sig(
                    self.spec_alg(),
                    self.spec_key(),
                    b64u_of(header_json(self.spec_alg())) + seq![46u8] + c,
                ) && !(exists|q: PayloadV| c == b64u_of(#[trigger] payload_bytes(q)))) ==> r
                == Err::<Claims, AuthApiError>(AuthApiError::MalformedToken),
    {
        let now = now_unix();
        self.decode_at(&token, now)
    }
}

} // verus!

verus! {

/// The token-level guarantees of a successful issuance under a given
/// configuration: both tokens are the exact wire encodings of claim sets
/// sharing the fresh identifier `jti` and the subject `id`, differing in
/// role and lifetime.
pub open spec fn pair_tokens(
    alg: JwtAlgorithm,
    key: Seq<u8>,
    iss: Seq<char>,
    iss_b64: Seq<u8>,
    bearer_lifetime: u64,
    refresh_lifetime: u64,
    id: u64,
    now: u64,
    jti: u64,
    pair: JwtPair,
) -> bool {
    let rc = ClaimsV {
        jti,
        exp: (now + refresh_lifetime) as u64,
        iat: now,
        iss: iss,
        token_type: TokenType::Renewal,
        sub: id,
    };
    let bc = ClaimsV {
        jti,
        exp: (now + bearer_lifetime) as u64,
        iat: now,
        iss: iss,
        token_type: TokenType::Access,
        sub: id,
    };
    &&& now + refresh_lifetime <= u64::MAX
    &&& now + bearer_lifetime <= u64::MAX
    &&& encode_utf8(pair.refresh@) == token_bytes(alg, key, claims_payload(rc, iss_b64))
    &&& token_wf(alg, key, claims_payload(rc, iss_b64))
    &&& encode_utf8(pair.bearer@) == token_bytes(alg, key, claims_payload(bc, iss_b64))
    &&& token_wf(alg, key, claims_payload(bc, iss_b64))
}

impl<B: JwtBlacklist> JwtAuthenticator<B> {
    /// `pair_tokens` under this authenticator's configuration.
    pub open spec fn spec_pair_tokens(&self, id: u64, now: u64, jti: u64, pair: JwtPair) -> bool {
        pair_tokens(
            self.spec_alg(),
            self.spec_key(),
            self.spec_iss(),
            self.spec_iss_b64(),
            self.spec_bearer_lifetime(),
            self.spec_refresh_lifetime(),
            id,
            now,
            jti,
            pair,
        )
    }

    /// Issues a linked access/renewal pair for `id` at the given time: a
    /// fresh identifier is drawn, both claims are signed, and exactly one
    /// new outstanding record is created before the pair is returned.
    ///
    /// Success is owed unless a timestamp overflows (`SigningError`, if and
    /// only if) or the store rejects the registration (`StoreError`); a
    /// failed issuance returns no pair and leaves every status unchanged.
    #[verifier::rlimit(100)]
    #[verifier::spinoff_prover]
    pub fn create_token_pair_at(&mut self, id: &u64, now: u64) -> (r: Result<
        JwtPair,
        AuthApiError,
    >)
        requires
            old(self).wf(),
        ensures
            final(self).wf(),
            final(self).same_config(old(self)),
            (now + old(self).spec_refresh_lifetime() > u64::MAX || now + old(self).spec_bearer_lifetime() > u64::MAX || old(self).spec_next_jti() == u64::MAX) <==> r == Err::<JwtPair, AuthApiError>(
                AuthApiError::SigningError,
            ),
            r matches Err(e) ==> (e is SigningError || e is StoreError) && (forall|j: u64|
                final(self).spec_status(j) == old(self).spec_status(j)) && final(self).spec_next_jti() == old(self).spec_next_jti(),
            forall|j: u64|
                #[trigger] final(self).spec_status(j) == old(self).spec_status(j) || (old(self).spec_status(j) == JwtStatus::NotFound && final(self).spec_status(j)
                    == JwtStatus::Outstanding),
            r matches Ok(pair) ==> pair_tokens(
                old(self).spec_alg(),
                old(self).spec_key(),
                old(self).spec_iss(),
                old(self).spec_iss_b64(),
                old(self).spec_bearer_lifetime(),
                old(self).spec_refresh_lifetime(),
                *id,
                now,
                old(self).spec_next_jti(),
                pair,
            ) && old(self).spec_status(old(self).spec_next_jti()) == JwtStatus::NotFound && final(self).spec_status(old(self).spec_next_jti()) == JwtStatus::Outstanding && (forall|j: u64|
                j != old(self).spec_next_jti() ==> final(self).spec_status(j) == old(self).spec_status(j)) && final(self).spec_next_jti() == old(self).spec_next_jti() + 1,
    {
        if now > u64::MAX - self.refresh_token_lifetime || now > u64::MAX
            - self.bearer_token_lifetime || self.next_jti == u64::MAX {
            return Err(AuthApiError::SigningError);
        }
        let jti = self.next_jti;
        let rexp = now + self.refresh_token_lifetime;
        let bexp = now + self.bearer_token_lifetime;
        let riss = copy_range(&self.iss_b64, 0, self.iss_b64.len());
        proof {
            assert(riss@ =~= self.iss_b64@);
        }
        let rpl = Payload {
            jti,
            exp: rexp,
            iat: now,
            iss_b64: riss,
            token_type: TokenType::Renewal,
            sub: *id,
        };
        let refresh = match self.sign_payload(&rpl) {
            Ok(t) => t,
            Err(e) => {
                return Err(e);
            },
        };
        let biss = copy_range(&self.iss_b64, 0, self.iss_b64.len());
        proof {
            assert(biss@ =~= self.iss_b64@);
        }
        let bpl = Payload {
            jti,
            exp: bexp,
            iat: now,
            iss_b64: biss,
            token_type: TokenType::Access,
            sub: *id,
        };
        let bearer = match self.sign_payload(&bpl) {
            Ok(t) => t,
            Err(e) => {
                return Err(e);
            },
        };
        let refresh_claims = Claims {
            jti,
            exp: rexp,
            iat: now,
            iss: self.iss.clone(),
            token_type: TokenType::Renewal,
            sub: *id,
        };
        match self.blacklist.insert_outstanding(refresh_claims) {
            Ok(u) => u,
            Err(e) => {
                return Err(e);
            },
        };
        self.next_jti = jti + 1;
        let pair = JwtPair { bearer, refresh };
        proof {
            assert(old(self).spec_status(jti) == JwtStatus::NotFound);
            assert(final(self).spec_status(jti) == JwtStatus::Outstanding);
            assert(forall|j: u64|
                j != jti ==> final(self).spec_status(j) == old(self).spec_status(j));
            assert(pair_tokens(
                old(self).spec_alg(),
                old(self).spec_key(),
                old(self).spec_iss(),
                old(self).spec_iss_b64(),
                old(self).spec_bearer_lifetime(),
                old(self).spec_refresh_lifetime(),
                *id,
                now,
                jti,
                pair,
            ));
        }
        Ok(pair)
    }

    /// Issues a linked access/renewal pair for `id` at the current time.
    pub fn create_token_pair(&mut self, id: &u64) -> (r: Result<JwtPair, AuthApiError>)
        requires
            old(self).wf(),
        ensures
            final(self).wf(),
            final(self).same_config(old(self)),
            r matches Err(e) ==> (e is SigningError || e is StoreError) && (forall|j: u64|
                final(self).spec_status(j) == old(self).spec_status(j)) && final(self).spec_next_jti() == old(self).spec_next_jti(),
            forall|j: u64|
                #[trigger] final(self).spec_status(j) == old(self).spec_status(j) || (old(self).spec_status(j) == JwtStatus::NotFound && final(self).spec_status(j)
                    == JwtStatus::Outstanding),
            r matches Ok(pair) ==> exists|now: u64|
                #[trigger] pair_tokens(
                    old(self).spec_alg(),
                    old(self).spec_key(),
                    old(self).spec_iss(),
                    old(self).spec_iss_b64(),
                    old(self).spec_bearer_lifetime(),
                    old(self).spec_refresh_lifetime(),
                    *id,
                    now,
                    old(self).spec_next_jti(),
                    pair,
                ) && old(self).spec_status(old(self).spec_next_jti()) == JwtStatus::NotFound
                    && final(self).spec_status(old(self).spec_next_jti())
                    == JwtStatus::Outstanding,
    {
        let now = now_unix();
        self.create_token_pair_at(id, now)
    }

    /// The tracking store's status for an identifier.
    pub fn status(&self, jti: &u64) -> (s: JwtStatus)
        ensures
            s == self.spec_status(*jti),
    {
        self.blacklist.status(jti)
    }
}

} // verus!

verus! {

impl<B: JwtBlacklist> JwtAuthenticator<B> {
    /// The replay-safe exchange of a renewal token for a new pair, against
    /// an explicit clock reading.
    ///
    /// Every transportable renewal token signed by this key is classified
    /// exactly: a verifier failure propagates unchanged and never reaches
    /// the store; an access token is rejected as a role mismatch; an
    /// unknown identifier reports `NotFound`; a consumed one reports
    /// `AlreadyUsed`, idempotently; an outstanding one is blacklisted
    /// first, so that at most one concurrent exchange can consume it, and
    /// only then is the replacement pair minted, with a fresh identifier —
    /// on that branch only the store can refuse (`StoreError`) or a
    /// timestamp overflow (`SigningError`), and a failure after the
    /// blacklist transition leaves the identifier consumed with no
    /// replacement and no rollback.
    pub fn refresh_at(&mut self, refresh: &String, now: u64) -> (r: Result<JwtPair, AuthApiError>)
        requires
            old(self).wf(),
        ensures
            final(self).wf(),
            final(self).same_config(old(self)),
            forall|j: u64|
                old(self).spec_status(j) == JwtStatus::Blacklisted ==> final(self).spec_status(j)
                    == JwtStatus::Blacklisted,
            r matches Err(e) && !(e is StoreError || e is SigningError) ==> (forall|j: u64|
                final(self).spec_status(j) == old(self).spec_status(j)),
            r matches Ok(_) ==> forall|j: u64|
                #[trigger] final(self).spec_status(j) == old(self).spec_status(j) || (old(self).spec_status(j) == JwtStatus::NotFound && final(self).spec_status(j)
                    == JwtStatus::Outstanding) || (old(self).spec_status(j)
                    == JwtStatus::Outstanding && final(self).spec_status(j)
                    == JwtStatus::Blacklisted),
            r matches Ok(pair) ==> exists|p: PayloadV|
                (encode_utf8(refresh@) == #[trigger] token_bytes(old(self).spec_alg(), old(self).spec_key(), p)
                    && p.token_type == TokenType::Renewal && p.iss_b64 == old(self).spec_iss_b64()
                    && p.exp > now && old(self).spec_status(p.jti) == JwtStatus::Outstanding
                    && final(self).spec_status(p.jti) == JwtStatus::Blacklisted
                    && old(self).spec_next_jti() != p.jti
                    && pair_tokens(
                    old(self).spec_alg(),
                    old(self).spec_key(),
                    old(self).spec_iss(),
                    old(self).spec_iss_b64(),
                    old(self).spec_bearer_lifetime(),
                    old(self).spec_refresh_lifetime(),
                    p.sub,
                    now,
                    old(self).spec_next_jti(),
                    pair,
                ) && final(self).spec_status(old(self).spec_next_jti()) == JwtStatus::Outstanding),
            forall|p: PayloadV|
                (encode_utf8(refresh@) == #[trigger] token_bytes(
                    old(self).spec_alg(),
                    old(self).spec_key(),
                    p,
                ) && token_wf(old(self).spec_alg(), old(self).spec_key(), p)) ==> (if p.iss_b64 != old(self).spec_iss_b64() {
                    r == Err::<JwtPair, AuthApiError>(AuthApiError::IssuerMismatch) && final(self).spec_store() == old(self).spec_store()
                } else if p.exp <= now {
                    r == Err::<JwtPair, AuthApiError>(AuthApiError::Expired) && final(self).spec_store() == old(self).spec_store()
                } else if p.token_type != TokenType::Renewal {
                    r == Err::<JwtPair, AuthApiError>(AuthApiError::TokenTypeMismatch) && final(self).spec_store() == old(self).spec_store()
                } else if old(self).spec_status(p.jti) == JwtStatus::NotFound {
                    r == Err::<JwtPair, AuthApiError>(AuthApiError::NotFound { key: p.jti })
                        && final(self).spec_store() == old(self).spec_store()
                } else if old(self).spec_status(p.jti) == JwtStatus::Blacklisted {
                    r == Err::<JwtPair, AuthApiError>(AuthApiError::AlreadyUsed) && final(self).spec_store() == old(self).spec_store()
                } else {
                    &&& (r matches Ok(pair) ==> old(self).spec_next_jti() != p.jti && final(self).spec_status(p.jti) == JwtStatus::Blacklisted && final(self).spec_status(
                        old(self).spec_next_jti(),
                    ) == JwtStatus::Outstanding && (forall|j: u64|
                        j != p.jti && j != old(self).spec_next_jti() ==> final(self).spec_status(
                            j,
                        ) == old(self).spec_status(j)) && pair_tokens(
                        old(self).spec_alg(),
                        old(self).spec_key(),
                        old(self).spec_iss(),
                        old(self).spec_iss_b64(),
                        old(self).spec_bearer_lifetime(),
                        old(self).spec_refresh_lifetime(),
                        p.sub,
                        now,
                        old(self).spec_next_jti(),
                        pair,
                    ))
                    &&& (r matches Err(e) ==> (e is StoreError || e is SigningError) && ((forall|
                        j: u64,
                    |
                        final(self).spec_status(j) == old(self).spec_status(j)) || (final(self).spec_status(p.jti) == JwtStatus::Blacklisted && (forall|j: u64|
                        j != p.jti ==> final(self).spec_status(j) == old(self).spec_status(j)))))
                    &&& (r matches Err(e) && e is SigningError ==> final(self).spec_status(p.jti)
                        == JwtStatus::Blacklisted && (forall|j: u64|
                        j != p.jti ==> final(self).spec_status(j) == old(self).spec_status(j)))
                }),
            forall|c: Seq<u8>, s: Seq<u8>|
                (#[trigger] framed(
                    b64u_of(header_json(old(self).spec_alg())),
                    encode_utf8(refresh@),
                    c,
                    s,
                ) && s != hmac_sig(
                    old(self).spec_alg(),
                    old(self).spec_key(),
                    b64u_of(header_json(old(self).spec_alg())) + seq![46u8] + c,
                )) ==> r == Err::<JwtPair, AuthApiError>(AuthApiError::InvalidSignature),
            (forall|c: Seq<u8>, s: Seq<u8>|
                !framed(b64u_of(header_json(old(self).spec_alg())), encode_utf8(refresh@), c, s))
                ==> r == Err::<JwtPair, AuthApiError>(AuthApiError::MalformedToken),
    {
        let data = match self.decode_at(refresh, now) {
            Ok(c) => c,
            Err(e) => {
                return Err(e);
            },
        };
        if data.token_type != TokenType::Renewal {
            return Err(AuthApiError::TokenTypeMismatch);
        }
        let jti = data.jti;
        let id = data.sub;
        match self.blacklist.status(&jti) {
            JwtStatus::Outstanding => {
                match self.blacklist.blacklist(jti) {
                    Ok(u) => u,
                    Err(e) => {
                        return Err(e);
                    },
                };
                let out = self.create_token_pair_at(&id, now);
                proof {
                    if out is Ok {
                        let pw = claims_payload(data@, old(self).spec_iss_b64());
                        assert(encode_utf8(refresh@) == token_bytes(
                            old(self).spec_alg(),
                            old(self).spec_key(),
                            pw,
                        ));
                        assert(pw.token_type == TokenType::Renewal);
                        assert(pw.exp > now);
                        assert(old(self).spec_status(pw.jti) == JwtStatus::Outstanding);
                        assert(final(self).spec_status(pw.jti) == JwtStatus::Blacklisted);
                        assert(pair_tokens(
                            old(self).spec_alg(),
                            old(self).spec_key(),
                            old(self).spec_iss(),
                            old(self).spec_iss_b64(),
                            old(self).spec_bearer_lifetime(),
                            old(self).spec_refresh_lifetime(),
                            pw.sub,
                            now,
                            old(self).spec_next_jti(),
                            out->Ok_0,
                        ));
                        assert(old(self).spec_next_jti() != pw.jti);
                        assert(final(self).spec_status(old(self).spec_next_jti())
                            == JwtStatus::Outstanding);
                    }
                }
                out
            },
            JwtStatus::NotFound => Err(AuthApiError::NotFound { key: jti }),
            JwtStatus::Blacklisted => Err(AuthApiError::AlreadyUsed),
        }
    }

    /// The replay-safe exchange of a renewal token for a new pair, against
    /// the current time.
    pub fn refresh(&mut self, refresh: String) -> (r: Result<JwtPair, AuthApiError>)
        requires
            old(self).wf(),
        ensures
            final(self).wf(),
            final(self).same_config(old(self)),
            forall|j: u64|
                old(self).spec_status(j) == JwtStatus::Blacklisted ==> final(self).spec_status(j)
                    == JwtStatus::Blacklisted,
            r matches Err(e) && !(e is StoreError || e is SigningError) ==> (forall|j: u64|
                final(self).spec_status(j) == old(self).spec_status(j)),
            r matches Ok(_) ==> forall|j: u64|
                #[trigger] final(self).spec_status(j) == old(self).spec_status(j) || (old(self).spec_status(j) == JwtStatus::NotFound && final(self).spec_status(j)
                    == JwtStatus::Outstanding) || (old(self).spec_status(j)
                    == JwtStatus::Outstanding && final(self).spec_status(j)
                    == JwtStatus::Blacklisted),
            r matches Ok(_) ==> forall|j: u64|
                #[trigger] final(self).spec_status(j) == old(self).spec_status(j) || (old(self).spec_status(j) == JwtStatus::NotFound && final(self).spec_status(j)
                    == JwtStatus::Outstanding) || (old(self).spec_status(j)
                    == JwtStatus::Outstanding && final(self).spec_status(j)
                    == JwtStatus::Blacklisted),
            r matches Ok(pair) ==> exists|p: PayloadV, now: u64|
                (encode_utf8(refresh@) == token_bytes(old(self).spec_alg(), old(self).spec_key(), p)
                    && p.token_type == TokenType::Renewal && p.iss_b64 == old(self).spec_iss_b64()
                    && old(self).spec_status(p.jti) == JwtStatus::Outstanding
                    && final(self).spec_status(p.jti) == JwtStatus::Blacklisted
                    && old(self).spec_next_jti() != p.jti
                    && #[trigger] pair_tokens(
                    old(self).spec_alg(),
                    old(self).spec_key(),
                    old(self).spec_iss(),
                    old(self).spec_iss_b64(),
                    old(self).spec_bearer_lifetime(),
                    old(self).spec_refresh_lifetime(),
                    p.sub,
                    now,
                    old(self).spec_next_jti(),
                    pair,
                ) && final(self).spec_status(old(self).spec_next_jti()) == JwtStatus::Outstanding),
    {
        let now = now_unix();
        self.refresh_at(&refresh, now)
    }
}

} // verus!

verus! {

/// For one issuance, the two tokens' claim sets share `jti`, `iat` and
/// `sub`, differ in `token_type` and expiry role, and the renewal expiry is
/// no earlier than the access expiry whenever the renewal lifetime is no
/// shorter than the access lifetime.
pub proof fn lemma_pair_claims(
    alg: JwtAlgorithm,
    key: Seq<u8>,
    iss: Seq<char>,
    iss_b64: Seq<u8>,
    bearer_lifetime: u64,
    refresh_lifetime: u64,
    id: u64,
    now: u64,
    jti: u64,
    pair: JwtPair,
    rc: ClaimsV,
    bc: ClaimsV,
)
    requires
        pair_tokens(alg, key, iss, iss_b64, bearer_lifetime, refresh_lifetime, id, now, jti, pair),
        rc == (ClaimsV {
            jti,
            exp: (now + refresh_lifetime) as u64,
            iat: now,
            iss: iss,
            token_type: TokenType::Renewal,
            sub: id,
        }),
        bc == (ClaimsV {
            jti,
            exp: (now + bearer_lifetime) as u64,
            iat: now,
            iss: iss,
            token_type: TokenType::Access,
            sub: id,
        }),
    ensures
        encode_utf8(pair.refresh@) == token_bytes(alg, key, claims_payload(rc, iss_b64)),
        encode_utf8(pair.bearer@) == token_bytes(alg, key, claims_payload(bc, iss_b64)),
        rc.jti == bc.jti,
        rc.iat == bc.iat,
        rc.sub == id && bc.sub == id,
        rc.token_type != bc.token_type,
        refresh_lifetime >= bearer_lifetime ==> rc.exp >= bc.exp,
{
}

} // verus!
