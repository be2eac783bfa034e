//! The claim payload wire format: a canonical JSON object with the six
//! claims in fixed order,
//! `{"jti":N,"exp":N,"iat":N,"iss":"B","token_type":"T","sub":N}`,
//! where each `N` is a decimal numeral without leading zeros, `B` is the
//! base64url-encoded issuer, and `T` is the two-valued role tag
//! (`Access` / `Renewal`).
//!
//! The encoder and the parser are verified against the same specification,
//! `payload_bytes`: the parser accepts exactly the canonical encodings.

use vstd::prelude::*;
use vstd::arithmetic::div_mod::{lemma_fundamental_div_mod, lemma_fundamental_div_mod_converse};
use crate::claims::TokenType;

verus! {

/// ASCII decimal digit.
pub open spec fn is_digit(b: u8) -> bool {
    48 <= b <= 57
}

/// The canonical decimal numeral of `n`: most significant digit first,
/// no leading zeros.
pub open spec fn dec_of(n: u64) -> Seq<u8>
    decreases n,
{
    if n < 10 {
        seq![(48 + n) as u8]
    } else {
        dec_of((n / 10) as u64) + seq![(48 + n % 10) as u8]
    }
}

/// Numeric value of a digit sequence (most significant first).
pub open spec fn dec_val(d: Seq<u8>) -> int
    decreases d.len(),
{
    if d.len() == 0 {
        0
    } else {
        dec_val(d.drop_last()) * 10 + (d.last() - 48)
    }
}

pub proof fn lemma_dec_of_shape(n: u64)
    ensures
        dec_of(n).len() >= 1,
        forall|i: int| 0 <= i < dec_of(n).len() ==> is_digit(#[trigger] dec_of(n)[i]),
        n >= 10 ==> dec_of(n)[0] != 48,
        n < 10 ==> dec_of(n) =~= seq![(48 + n) as u8],
    decreases n,
{
    if n >= 10 {
        lemma_dec_of_shape((n / 10) as u64);
    }
}

pub proof fn lemma_dec_val_of(n: u64)
    ensures
        dec_val(dec_of(n)) == n,
    decreases n,
{
    if n < 10 {
        assert(dec_of(n) =~= seq![(48 + n) as u8]);
        assert(dec_of(n).drop_last() =~= Seq::<u8>::empty());
        assert(dec_val(Seq::<u8>::empty()) == 0);
        assert(dec_of(n).last() == (48 + n) as u8);
        assert((48 + n) as u8 == 48 + n);
        assert(dec_val(dec_of(n)) == dec_val(dec_of(n).drop_last()) * 10 + (dec_of(n).last()
            - 48));
    } else {
        lemma_dec_val_of((n / 10) as u64);
        assert(dec_of(n).drop_last() =~= dec_of((n / 10) as u64));
        assert(dec_of(n).last() == (48 + n % 10) as u8);
        assert((48 + n % 10) as u8 == 48 + n % 10);
        lemma_fundamental_div_mod(n as int, 10);
    }
}

/// Every prefix of a digit sequence has a value between 0 and the whole.
pub proof fn lemma_dec_val_prefix(d: Seq<u8>, i: int)
    requires
        forall|k: int| 0 <= k < d.len() ==> is_digit(#[trigger] d[k]),
        0 <= i <= d.len(),
    ensures
        0 <= dec_val(d.subrange(0, i)) <= dec_val(d),
    decreases d.len(),
{
    if i == d.len() {
        assert(d.subrange(0, i) =~= d);
        if d.len() > 0 {
            lemma_dec_val_prefix(d.drop_last(), d.len() - 1);
            assert(d.drop_last().subrange(0, d.len() - 1) =~= d.drop_last());
        }
    } else {
        let d2 = d.drop_last();
        assert(d.subrange(0, i) =~= d2.subrange(0, i));
        lemma_dec_val_prefix(d2, i);
        lemma_dec_val_prefix(d2, d2.len() as int);
        assert(d2.subrange(0, d2.len() as int) =~= d2);
    }
}

/// A nonempty digit sequence whose first digit is not `0` has value >= 1.
pub proof fn lemma_dec_val_min(d: Seq<u8>)
    requires
        d.len() >= 1,
        forall|k: int| 0 <= k < d.len() ==> is_digit(#[trigger] d[k]),
        d[0] != 48,
    ensures
        dec_val(d) >= 1,
    decreases d.len(),
{
    if d.len() == 1 {
        assert(d.drop_last() =~= Seq::<u8>::empty());
        assert(d.last() == d[0]);
        assert(dec_val(d) == d[0] - 48);
    } else {
        lemma_dec_val_min(d.drop_last());
        assert(d.drop_last()[0] == d[0]);
        assert(is_digit(d.last()));
        assert(dec_val(d) == dec_val(d.drop_last()) * 10 + (d.last() - 48));
    }
}

/// A canonical digit sequence is the numeral of its value.
pub proof fn lemma_dec_canon(d: Seq<u8>)
    requires
        d.len() >= 1,
        forall|k: int| 0 <= k < d.len() ==> is_digit(#[trigger] d[k]),
        d.len() > 1 ==> d[0] != 48,
        dec_val(d) <= u64::MAX,
    ensures
        0 <= dec_val(d),
        d =~= dec_of(dec_val(d) as u64),
    decreases d.len(),
{
    lemma_dec_val_prefix(d, d.len() as int);
    assert(d.subrange(0, d.len() as int) =~= d);
    let v = dec_val(d);
    if d.len() == 1 {
        assert(d.drop_last() =~= Seq::<u8>::empty());
        assert(dec_val(Seq::<u8>::empty()) == 0);
        assert(d.last() == d[0]);
        assert(dec_val(d) == dec_val(d.drop_last()) * 10 + (d.last() - 48));
        assert(v == d[0] - 48);
        assert(dec_of(v as u64) =~= seq![(48 + v) as u8]);
        assert(d =~= dec_of(v as u64));
    } else {
        let d2 = d.drop_last();
        let c = d.last() - 48;
        lemma_dec_val_min(d2);
        lemma_dec_val_prefix(d2, d2.len() as int);
        assert(d2.subrange(0, d2.len() as int) =~= d2);
        let v2 = dec_val(d2);
        assert(v == v2 * 10 + c);
        assert(v2 <= v) by {
            assert(v2 * 10 >= v2) by (nonlinear_arith)
                requires v2 >= 0;
        }
        assert(v >= 10) by {
            assert(v2 * 10 >= 10) by (nonlinear_arith)
                requires v2 >= 1;
        }
        lemma_fundamental_div_mod_converse(v, 10, v2, c);
        lemma_dec_canon(d2);
        assert(dec_of(v as u64) =~= dec_of((v / 10) as u64) + seq![(48 + v % 10) as u8]);
        assert(d =~= d2 + seq![d.last()]);
        assert(d =~= dec_of(v as u64));
    }
}

/// Reads the maximal digit run at `start` as a canonical `u64` numeral.
///
/// Succeeds exactly on runs that are some `dec_of(n)` followed by a
/// non-digit (or the end of the input).
pub fn read_u64(b: &Vec<u8>, start: usize) -> (r: Option<(u64, usize)>)
    requires
        start <= b@.len(),
    ensures
        r matches Some(p) ==> {
            &&& start < p.1 <= b@.len()
            &&& b@.subrange(start as int, p.1 as int) == dec_of(p.0)
            &&& (p.1 == b@.len() || !is_digit(b@[p.1 as int]))
        },
        forall|n: u64|
            {
                &&& start + #[trigger] dec_of(n).len() <= b@.len()
                &&& b@.subrange(start as int, start + dec_of(n).len()) == dec_of(n)
                &&& (start + dec_of(n).len() == b@.len() || !is_digit(
                    b@[start + dec_of(n).len()],
                ))
            } ==> r == Some((n, (start + dec_of(n).len()) as usize)),
{
    let len = b.len();
    let mut i = start;
    let mut val: u64 = 0;
    while i < len && 48 <= b[i] && b[i] <= 57
        invariant
            start <= i <= len == b@.len(),
            forall|k: int| start <= k < i ==> is_digit(#[trigger] b@[k]),
            val == dec_val(b@.subrange(start as int, i as int)),
        decreases len - i,
    {
        let d: u8 = b[i] - 48;
        proof {
            assert(b@.subrange(start as int, i + 1).drop_last() =~= b@.subrange(
                start as int,
                i as int,
            ));
            assert(dec_val(b@.subrange(start as int, i + 1)) == val * 10 + d);
        }
        let next = match val.checked_mul(10) {
            Some(x) => x.checked_add(d as u64),
            None => None,
        };
        match next {
            Some(x) => {
                val = x;
            },
            None => {
                proof {
                    assert forall|n: u64|
                        !({
                            &&& start + #[trigger] dec_of(n).len() <= b@.len()
                            &&& b@.subrange(start as int, start + dec_of(n).len()) == dec_of(n)
                            &&& (start + dec_of(n).len() == b@.len() || !is_digit(
                                b@[start + dec_of(n).len()],
                            ))
                        }) by {
                        if start + dec_of(n).len() <= b@.len() && b@.subrange(
                            start as int,
                            start + dec_of(n).len(),
                        ) == dec_of(n) && (start + dec_of(n).len() == b@.len() || !is_digit(
                            b@[start + dec_of(n).len()],
                        )) {
                            lemma_dec_of_shape(n);
                            let dl = dec_of(n).len() as int;
                            // the position after the numeral is a non-digit, so the
                            // current (digit) position i is still inside the numeral
                            assert(i + 1 <= start + dl);
                            assert(b@.subrange(start as int, i + 1) =~= dec_of(n).subrange(
                                0,
                                i + 1 - start,
                            ));
                            lemma_dec_val_prefix(dec_of(n), i + 1 - start);
                            lemma_dec_val_of(n);
                            assert(dec_val(b@.subrange(start as int, i + 1)) <= n);
                            assert(false);
                        }
                    }
                }
                return None;
            },
        }
        i += 1;
    }
    if i == start {
        proof {
            assert forall|n: u64|
                !({
                    &&& start + #[trigger] dec_of(n).len() <= b@.len()
                    &&& b@.subrange(start as int, start + dec_of(n).len()) == dec_of(n)
                }) by {
                if start + dec_of(n).len() <= b@.len() && b@.subrange(
                    start as int,
                    start + dec_of(n).len(),
                ) == dec_of(n) {
                    lemma_dec_of_shape(n);
                    assert(dec_of(n)[0] == b@.subrange(
                        start as int,
                        start + dec_of(n).len(),
                    )[0]);
                    assert(is_digit(b@[start as int]));
                    assert(false);
                }
            }
        }
        return None;
    }
    if b[start] == 48 && i > start + 1 {
        proof {
            assert forall|n: u64|
                !({
                    &&& start + #[trigger] dec_of(n).len() <= b@.len()
                    &&& b@.subrange(start as int, start + dec_of(n).len()) == dec_of(n)
                    &&& (start + dec_of(n).len() == b@.len() || !is_digit(
                        b@[start + dec_of(n).len()],
                    ))
                }) by {
                if start + dec_of(n).len() <= b@.len() && b@.subrange(
                    start as int,
                    start + dec_of(n).len(),
                ) == dec_of(n) && (start + dec_of(n).len() == b@.len() || !is_digit(
                    b@[start + dec_of(n).len()],
                )) {
                    lemma_dec_of_shape(n);
                    assert(dec_of(n)[0] == b@[start as int]);
                    assert(n < 10);
                    assert(dec_of(n).len() == 1);
                    // the numeral would end right after the leading zero, but the
                    // run continued with another digit
                    assert(is_digit(b@[start + 1]));
                    assert(false);
                }
            }
        }
        return None;
    }
    proof {
        let d = b@.subrange(start as int, i as int);
        lemma_dec_canon(d);
        assert(b@.subrange(start as int, i as int) == dec_of(val));
        assert forall|n: u64|
            ({
                &&& start + #[trigger] dec_of(n).len() <= b@.len()
                &&& b@.subrange(start as int, start + dec_of(n).len()) == dec_of(n)
                &&& (start + dec_of(n).len() == b@.len() || !is_digit(b@[start + dec_of(n).len()]))
            }) implies Some((val, i)) == Some((n, (start + dec_of(n).len()) as usize)) by {
            lemma_dec_of_shape(n);
            let dl = dec_of(n).len() as int;
            if i < start + dl {
                assert(is_digit(dec_of(n)[i - start]));
                assert(is_digit(b@[i as int]));
                assert(false);
            }
            if i > start + dl {
                assert(is_digit(b@[start + dl]));
                assert(false);
            }
            assert(i == start + dl);
            assert(b@.subrange(start as int, i as int) =~= dec_of(n));
            lemma_dec_val_of(n);
            assert(val == n);
        }
    }
    Some((val, i))
}

/// Appends the canonical decimal numeral of `n`.
pub fn push_dec(v: &mut Vec<u8>, n: u64)
    ensures
        final(v)@ == old(v)@ + dec_of(n),
    decreases n,
{
    if n < 10 {
        v.push(48 + n as u8);
        assert(v@ =~= old(v)@ + dec_of(n));
    } else {
        push_dec(v, n / 10);
        v.push(48 + (n % 10) as u8);
        assert(v@ =~= old(v)@ + dec_of(n));
    }
}

} // verus!

verus! {

/// A byte of the base64url alphabet (`A-Z a-z 0-9 - _`).
pub open spec fn is_b64url_byte(b: u8) -> bool {
    (65 <= b <= 90) || (97 <= b <= 122) || (48 <= b <= 57) || b == 45 || b == 95
}

/// `{"jti":`
pub open spec fn lit_head() -> Seq<u8> {
    seq![123u8, 34, 106, 116, 105, 34, 58]
}

/// `,"exp":`
pub open spec fn lit_exp() -> Seq<u8> {
    seq![44u8, 34, 101, 120, 112, 34, 58]
}

/// `,"iat":`
pub open spec fn lit_iat() -> Seq<u8> {
    seq![44u8, 34, 105, 97, 116, 34, 58]
}

/// `,"iss":"`
pub open spec fn lit_iss() -> Seq<u8> {
    seq![44u8, 34, 105, 115, 115, 34, 58, 34]
}

/// `","token_type":"`
pub open spec fn lit_tt() -> Seq<u8> {
    seq![34u8, 44, 34, 116, 111, 107, 101, 110, 95, 116, 121, 112, 101, 34, 58, 34]
}

/// `","sub":`
pub open spec fn lit_sub() -> Seq<u8> {
    seq![34u8, 44, 34, 115, 117, 98, 34, 58]
}

/// `}`
pub open spec fn lit_close() -> Seq<u8> {
    seq![125u8]
}

/// `Access`
pub open spec fn tag_access() -> Seq<u8> {
    seq![65u8, 99, 99, 101, 115, 115]
}

/// `Renewal`
pub open spec fn tag_renewal() -> Seq<u8> {
    seq![82u8, 101, 110, 101, 119, 97, 108]
}

/// The two-valued string tag of a token role.
pub open spec fn tag_of(t: TokenType) -> Seq<u8> {
    match t {
        TokenType::Access => tag_access(),
        TokenType::Renewal => tag_renewal(),
    }
}

fn lit_head_vec() -> (r: Vec<u8>)
    ensures
        r@ == lit_head(),
{
    let mut v: Vec<u8> = Vec::new();
    v.push(123);
    v.push(34);
    v.push(106);
    v.push(116);
    v.push(105);
    v.push(34);
    v.push(58);
    assert(v@ =~= lit_head());
    v
}

fn lit_exp_vec() -> (r: Vec<u8>)
    ensures
        r@ == lit_exp(),
{
    let mut v: Vec<u8> = Vec::new();
    v.push(44);
    v.push(34);
    v.push(101);
    v.push(120);
    v.push(112);
    v.push(34);
    v.push(58);
    assert(v@ =~= lit_exp());
    v
}

fn lit_iat_vec() -> (r: Vec<u8>)
    ensures
        r@ == lit_iat(),
{
    let mut v: Vec<u8> = Vec::new();
    v.push(44);
    v.push(34);
    v.push(105);
    v.push(97);
    v.push(116);
    v.push(34);
    v.push(58);
    assert(v@ =~= lit_iat());
    v
}

fn lit_iss_vec() -> (r: Vec<u8>)
    ensures
        r@ == lit_iss(),
{
    let mut v: Vec<u8> = Vec::new();
    v.push(44);
    v.push(34);
    v.push(105);
    v.push(115);
    v.push(115);
    v.push(34);
    v.push(58);
    v.push(34);
    assert(v@ =~= lit_iss());
    v
}

fn lit_tt_vec() -> (r: Vec<u8>)
    ensures
        r@ == lit_tt(),
{
    let mut v: Vec<u8> = Vec::new();
    v.push(34);
    v.push(44);
    v.push(34);
    v.push(116);
    v.push(111);
    v.push(107);
    v.push(101);
    v.push(110);
    v.push(95);
    v.push(116);
    v.push(121);
    v.push(112);
    v.push(101);
    v.push(34);
    v.push(58);
    v.push(34);
    assert(v@ =~= lit_tt());
    v
}

fn lit_sub_vec() -> (r: Vec<u8>)
    ensures
        r@ == lit_sub(),
{
    let mut v: Vec<u8> = Vec::new();
    v.push(34);
    v.push(44);
    v.push(34);
    v.push(115);
    v.push(117);
    v.push(98);
    v.push(34);
    v.push(58);
    assert(v@ =~= lit_sub());
    v
}

fn tag_access_vec() -> (r: Vec<u8>)
    ensures
        r@ == tag_access(),
{
    let mut v: Vec<u8> = Vec::new();
    v.push(65);
    v.push(99);
    v.push(99);
    v.push(101);
    v.push(115);
    v.push(115);
    assert(v@ =~= tag_access());
    v
}

fn tag_renewal_vec() -> (r: Vec<u8>)
    ensures
        r@ == tag_renewal(),
{
    let mut v: Vec<u8> = Vec::new();
    v.push(82);
    v.push(101);
    v.push(110);
    v.push(101);
    v.push(119);
    v.push(97);
    v.push(108);
    assert(v@ =~= tag_renewal());
    v
}

/// Appends all of `w`.
pub fn push_all(v: &mut Vec<u8>, w: &Vec<u8>)
    ensures
        final(v)@ == old(v)@ + w@,
{
    let mut j: usize = 0;
    while j < w.len()
        invariant
            j <= w@.len(),
            v@ == old(v)@ + w@.subrange(0, j as int),
        decreases w@.len() - j,
    {
        proof {
            assert(w@.subrange(0, j + 1) =~= w@.subrange(0, j as int) + seq![w@[j as int]]);
        }
        v.push(w[j]);
        proof {
            assert(v@ =~= old(v)@ + w@.subrange(0, j + 1));
        }
        j += 1;
    }
    proof {
        assert(w@.subrange(0, w@.len() as int) =~= w@);
    }
}

/// Copies `b[from..to]`.
pub fn copy_range(b: &Vec<u8>, from: usize, to: usize) -> (r: Vec<u8>)
    requires
        from <= to <= b@.len(),
    ensures
        r@ == b@.subrange(from as int, to as int),
{
    let mut v: Vec<u8> = Vec::new();
    let mut j: usize = from;
    while j < to
        invariant
            from <= j <= to <= b@.len(),
            v@ == b@.subrange(from as int, j as int),
        decreases to - j,
    {
        proof {
            assert(b@.subrange(from as int, j + 1) =~= b@.subrange(from as int, j as int)
                + seq![b@[j as int]]);
        }
        v.push(b[j]);
        j += 1;
    }
    v
}

/// Compares two byte vectors.
pub fn bytes_eq(a: &Vec<u8>, b: &Vec<u8>) -> (r: bool)
    ensures
        r == (a@ == b@),
{
    if a.len() != b.len() {
        return false;
    }
    let mut j: usize = 0;
    while j < a.len()
        invariant
            j <= a@.len() == b@.len(),
            forall|k: int| 0 <= k < j ==> a@[k] == b@[k],
        decreases a@.len() - j,
    {
        if a[j] != b[j] {
            return false;
        }
        j += 1;
    }
    proof {
        assert(a@ =~= b@);
    }
    true
}

/// Expects the exact bytes of `lit` at `pos`.
pub fn expect_lit(b: &Vec<u8>, pos: usize, lit: &Vec<u8>) -> (r: Option<usize>)
    requires
        pos <= b@.len(),
    ensures
        r matches Some(e) ==> e == pos + lit@.len() && pos + lit@.len() <= b@.len()
            && b@.subrange(pos as int, pos + lit@.len()) == lit@,
        r is None ==> !(pos + lit@.len() <= b@.len() && b@.subrange(pos as int, pos + lit@.len())
            == lit@),
{
    let blen = b.len();
    if blen - pos < lit.len() {
        return None;
    }
    let mut j: usize = 0;
    while j < lit.len()
        invariant
            j <= lit@.len(),
            blen == b@.len(),
            pos + lit@.len() <= blen,
            forall|k: int| 0 <= k < j ==> b@[pos + k] == lit@[k],
        decreases lit@.len() - j,
    {
        proof {
            assert(pos + j < blen);
        }
        if b[pos + j] != lit[j] {
            proof {
                if b@.subrange(pos as int, pos + lit@.len()) == lit@ {
                    assert(b@.subrange(pos as int, pos + lit@.len())[j as int] == lit@[j as int]);
                    assert(false);
                }
            }
            return None;
        }
        j += 1;
    }
    proof {
        assert(b@.subrange(pos as int, pos + lit@.len()) =~= lit@);
    }
    Some(pos + lit.len())
}

/// Finds the first `"` at or after `pos`.
pub fn scan_quote(b: &Vec<u8>, pos: usize) -> (r: Option<usize>)
    requires
        pos <= b@.len(),
    ensures
        r matches Some(j) ==> pos <= j < b@.len() && b@[j as int] == 34 && (forall|k: int|
            pos <= k < j ==> b@[k] != 34),
        r is None ==> forall|k: int| pos <= k < b@.len() ==> b@[k] != 34,
{
    let mut j: usize = pos;
    while j < b.len()
        invariant
            pos <= j <= b@.len(),
            forall|k: int| pos <= k < j ==> b@[k] != 34,
        decreases b@.len() - j,
    {
        if b[j] == 34 {
            return Some(j);
        }
        j += 1;
    }
    None
}

} // verus!

verus! {

/// The parsed wire payload: the six claims, with the issuer still in its
/// base64url transport form.
pub struct Payload {
    pub jti: u64,
    pub exp: u64,
    pub iat: u64,
    pub iss_b64: Vec<u8>,
    pub token_type: TokenType,
    pub sub: u64,
}

/// Mathematical view of a wire payload.
pub ghost struct PayloadV {
    pub jti: u64,
    pub exp: u64,
    pub iat: u64,
    pub iss_b64: Seq<u8>,
    pub token_type: TokenType,
    pub sub: u64,
}

impl View for Payload {
    type V = PayloadV;

    open spec fn view(&self) -> PayloadV {
        PayloadV {
            jti: self.jti,
            exp: self.exp,
            iat: self.iat,
            iss_b64: self.iss_b64@,
            token_type: self.token_type,
            sub: self.sub,
        }
    }
}

/// The canonical byte encoding of a wire payload.
pub open spec fn payload_bytes(p: PayloadV) -> Seq<u8> {
    lit_head() + dec_of(p.jti) + lit_exp() + dec_of(p.exp) + lit_iat() + dec_of(p.iat) + lit_iss()
        + p.iss_b64 + lit_tt() + tag_of(p.token_type) + lit_sub() + dec_of(p.sub) + lit_close()
}

/// A transportable payload: the issuer chunk consists of base64url bytes,
/// so it contains neither `"` nor `.`.
pub open spec fn payload_wf(p: PayloadV) -> bool {
    forall|i: int| 0 <= i < p.iss_b64.len() ==> is_b64url_byte(#[trigger] p.iss_b64[i])
}

/// Boundary positions of the chunks of `payload_bytes(p)`.
pub open spec fn pp(p: PayloadV, i: int) -> int
    decreases i,
{
    if i <= 0 {
        0
    } else if i == 1 {
        7
    } else if i == 2 {
        7 + dec_of(p.jti).len() as int
    } else if i == 3 {
        pp(p, 2) + 7
    } else if i == 4 {
        pp(p, 3) + dec_of(p.exp).len() as int
    } else if i == 5 {
        pp(p, 4) + 7
    } else if i == 6 {
        pp(p, 5) + dec_of(p.iat).len() as int
    } else if i == 7 {
        pp(p, 6) + 8
    } else if i == 8 {
        pp(p, 7) + p.iss_b64.len() as int
    } else if i == 9 {
        pp(p, 8) + 16
    } else if i == 10 {
        pp(p, 9) + tag_of(p.token_type).len() as int
    } else if i == 11 {
        pp(p, 10) + 8
    } else if i == 12 {
        pp(p, 11) + dec_of(p.sub).len() as int
    } else {
        pp(p, 12) + 1
    }
}

/// Where each chunk of a canonical payload stands in its byte encoding.
#[verifier::rlimit(100)]
pub proof fn lemma_payload_positions(b: Seq<u8>, p: PayloadV)
    requires
        b == payload_bytes(p),
    ensures
        b.len() == pp(p, 13),
        b.subrange(0, 7) == lit_head(),
        b.subrange(pp(p, 1), pp(p, 2)) == dec_of(p.jti),
        b.subrange(pp(p, 2), pp(p, 3)) == lit_exp(),
        b.subrange(pp(p, 3), pp(p, 4)) == dec_of(p.exp),
        b.subrange(pp(p, 4), pp(p, 5)) == lit_iat(),
        b.subrange(pp(p, 5), pp(p, 6)) == dec_of(p.iat),
        b.subrange(pp(p, 6), pp(p, 7)) == lit_iss(),
        b.subrange(pp(p, 7), pp(p, 8)) == p.iss_b64,
        b.subrange(pp(p, 8), pp(p, 9)) == lit_tt(),
        b.subrange(pp(p, 9), pp(p, 10)) == tag_of(p.token_type),
        b.subrange(pp(p, 10), pp(p, 11)) == lit_sub(),
        b.subrange(pp(p, 11), pp(p, 12)) == dec_of(p.sub),
        b.subrange(pp(p, 12), pp(p, 13)) == lit_close(),
        b[pp(p, 2)] == 44,
        b[pp(p, 4)] == 44,
        b[pp(p, 6)] == 44,
        b[pp(p, 8)] == 34,
        b[pp(p, 12)] == 125,
        tag_of(p.token_type).len() >= 6,
        dec_of(p.jti).len() >= 1,
        dec_of(p.exp).len() >= 1,
        dec_of(p.iat).len() >= 1,
        dec_of(p.sub).len() >= 1,
{
    lemma_dec_of_shape(p.jti);
    lemma_dec_of_shape(p.exp);
    lemma_dec_of_shape(p.iat);
    lemma_dec_of_shape(p.sub);
    assert(b.subrange(0, 7) =~= lit_head());
    assert(b.subrange(pp(p, 1), pp(p, 2)) =~= dec_of(p.jti));
    assert(b.subrange(pp(p, 2), pp(p, 3)) =~= lit_exp());
    assert(b.subrange(pp(p, 3), pp(p, 4)) =~= dec_of(p.exp));
    assert(b.subrange(pp(p, 4), pp(p, 5)) =~= lit_iat());
    assert(b.subrange(pp(p, 5), pp(p, 6)) =~= dec_of(p.iat));
    assert(b.subrange(pp(p, 6), pp(p, 7)) =~= lit_iss());
    assert(b.subrange(pp(p, 7), pp(p, 8)) =~= p.iss_b64);
    assert(b.subrange(pp(p, 8), pp(p, 9)) =~= lit_tt());
    assert(b.subrange(pp(p, 9), pp(p, 10)) =~= tag_of(p.token_type));
    assert(b.subrange(pp(p, 10), pp(p, 11)) =~= lit_sub());
    assert(b.subrange(pp(p, 11), pp(p, 12)) =~= dec_of(p.sub));
    assert(b.subrange(pp(p, 12), pp(p, 13)) =~= lit_close());
    assert(b[pp(p, 2)] == lit_exp()[0]);
    assert(b[pp(p, 4)] == lit_iat()[0]);
    assert(b[pp(p, 6)] == lit_iss()[0]);
    assert(b[pp(p, 8)] == lit_tt()[0]);
    assert(b[pp(p, 12)] == lit_close()[0]);
}

/// The chunk facts that the front of the parser needs.
pub proof fn lemma_payload_front(b: Seq<u8>, p: PayloadV)
    requires
        b == payload_bytes(p),
    ensures
        b.len() == pp(p, 13),
        0 <= pp(p, 1) <= pp(p, 2) <= pp(p, 3) <= pp(p, 4) <= pp(p, 5) <= pp(p, 6) <= pp(p, 7)
            <= pp(p, 8) <= pp(p, 9) <= pp(p, 10) <= pp(p, 11) <= pp(p, 12) <= pp(p, 13),
        pp(p, 1) == 7,
        pp(p, 2) == pp(p, 1) + dec_of(p.jti).len(),
        pp(p, 3) == pp(p, 2) + 7,
        pp(p, 4) == pp(p, 3) + dec_of(p.exp).len(),
        pp(p, 5) == pp(p, 4) + 7,
        pp(p, 6) == pp(p, 5) + dec_of(p.iat).len(),
        pp(p, 7) == pp(p, 6) + 8,
        pp(p, 8) == pp(p, 7) + p.iss_b64.len(),
        b.subrange(0, 7) == lit_head(),
        b.subrange(pp(p, 1), pp(p, 2)) == dec_of(p.jti),
        b.subrange(pp(p, 2), pp(p, 3)) == lit_exp(),
        b.subrange(pp(p, 3), pp(p, 4)) == dec_of(p.exp),
        b.subrange(pp(p, 4), pp(p, 5)) == lit_iat(),
        b.subrange(pp(p, 5), pp(p, 6)) == dec_of(p.iat),
        b.subrange(pp(p, 6), pp(p, 7)) == lit_iss(),
        b.subrange(pp(p, 7), pp(p, 8)) == p.iss_b64,
        b[pp(p, 2)] == 44,
        b[pp(p, 4)] == 44,
        b[pp(p, 6)] == 44,
        b[pp(p, 8)] == 34,
{
    lemma_payload_positions(b, p);
}

/// The chunk facts that the back of the parser needs.
pub proof fn lemma_payload_back(b: Seq<u8>, p: PayloadV)
    requires
        b == payload_bytes(p),
    ensures
        b.len() == pp(p, 13),
        0 <= pp(p, 8) <= pp(p, 9) <= pp(p, 10) <= pp(p, 11) <= pp(p, 12) <= pp(p, 13),
        pp(p, 9) == pp(p, 8) + 16,
        pp(p, 10) == pp(p, 9) + tag_of(p.token_type).len(),
        pp(p, 11) == pp(p, 10) + 8,
        pp(p, 12) == pp(p, 11) + dec_of(p.sub).len(),
        pp(p, 13) == pp(p, 12) + 1,
        tag_of(p.token_type).len() >= 6,
        b.subrange(pp(p, 8), pp(p, 9)) == lit_tt(),
        b.subrange(pp(p, 9), pp(p, 10)) == tag_of(p.token_type),
        b.subrange(pp(p, 10), pp(p, 11)) == lit_sub(),
        b.subrange(pp(p, 11), pp(p, 12)) == dec_of(p.sub),
        b[pp(p, 12)] == 125,
{
    lemma_payload_positions(b, p);
}

/// Encodes a payload canonically.
pub fn encode_payload(p: &Payload) -> (r: Vec<u8>)
    ensures
        r@ == payload_bytes(p@),
{
    let mut v = lit_head_vec();
    push_dec(&mut v, p.jti);
    let l2 = lit_exp_vec();
    push_all(&mut v, &l2);
    push_dec(&mut v, p.exp);
    let l3 = lit_iat_vec();
    push_all(&mut v, &l3);
    push_dec(&mut v, p.iat);
    let l4 = lit_iss_vec();
    push_all(&mut v, &l4);
    push_all(&mut v, &p.iss_b64);
    let l5 = lit_tt_vec();
    push_all(&mut v, &l5);
    let tag = match p.token_type {
        TokenType::Access => tag_access_vec(),
        TokenType::Renewal => tag_renewal_vec(),
    };
    push_all(&mut v, &tag);
    let l6 = lit_sub_vec();
    push_all(&mut v, &l6);
    push_dec(&mut v, p.sub);
    v.push(125);
    proof {
        assert(v@ =~= payload_bytes(p@));
    }
    v
}

} // verus!


verus! {

/// Parses the front of a payload: `{"jti":N,"exp":N,"iat":N,"iss":"B`,
/// up to (and excluding) the quote that closes the issuer chunk.
#[verifier::rlimit(100)]
#[verifier::spinoff_prover]
fn parse_front(b: &Vec<u8>) -> (r: Option<(u64, u64, u64, usize, usize)>)
    ensures
        r matches Some(t) ==> {
            &&& t.3 <= t.4 < b@.len()
            &&& b@.subrange(0, t.4 as int) == lit_head() + dec_of(t.0) + lit_exp() + dec_of(t.1)
                + lit_iat() + dec_of(t.2) + lit_iss() + b@.subrange(t.3 as int, t.4 as int)
        },
        forall|p: PayloadV|
            payload_wf(p) && b@ == #[trigger] payload_bytes(p) ==> r == Some(
                (p.jti, p.exp, p.iat, pp(p, 7) as usize, pp(p, 8) as usize),
            ),
{
    let blen = b.len();
    let l1 = lit_head_vec();
    let l2 = lit_exp_vec();
    let l3 = lit_iat_vec();
    let l4 = lit_iss_vec();
    let r1 = expect_lit(b, 0, &l1);
    let pos1 = match r1 {
        Some(e) => e,
        None => 0,
    };
    let r2 = match r1 {
        Some(_) => read_u64(b, pos1),
        None => None,
    };
    let (jti, pos2) = match r2 {
        Some(v) => v,
        None => (0, pos1),
    };
    let r3 = match r2 {
        Some(_) => expect_lit(b, pos2, &l2),
        None => None,
    };
    let pos3 = match r3 {
        Some(e) => e,
        None => pos2,
    };
    let r4 = match r3 {
        Some(_) => read_u64(b, pos3),
        None => None,
    };
    let (exp, pos4) = match r4 {
        Some(v) => v,
        None => (0, pos3),
    };
    let r5 = match r4 {
        Some(_) => expect_lit(b, pos4, &l3),
        None => None,
    };
    let pos5 = match r5 {
        Some(e) => e,
        None => pos4,
    };
    let r6 = match r5 {
        Some(_) => read_u64(b, pos5),
        None => None,
    };
    let (iat, pos6) = match r6 {
        Some(v) => v,
        None => (0, pos5),
    };
    let r7 = match r6 {
        Some(_) => expect_lit(b, pos6, &l4),
        None => None,
    };
    let pos7 = match r7 {
        Some(e) => e,
        None => pos6,
    };
    let r8 = match r7 {
        Some(_) => scan_quote(b, pos7),
        None => None,
    };
    let j8 = match r8 {
        Some(j) => j,
        None => pos7,
    };
    proof {
        assert forall|p: PayloadV|
            payload_wf(p) && b@ == #[trigger] payload_bytes(p) implies {
            &&& jti == p.jti
            &&& pos3 == pp(p, 3)
        } by {
            lemma_payload_front(b@, p);
            assert(0 + l1@.len() <= b@.len());
            assert(b@.subrange(0, 0 + l1@.len() as int) == l1@);
            if r1 is None {
                assert(false);
            }
            assert(pos1 == pp(p, 1));
            assert(pos1 + dec_of(p.jti).len() <= b@.len());
            assert(b@.subrange(pos1 as int, pos1 + dec_of(p.jti).len()) == dec_of(p.jti));
            assert(!is_digit(b@[pos1 + dec_of(p.jti).len()]));
            assert(r2 == Some((p.jti, (pos1 + dec_of(p.jti).len()) as usize)));
            assert(jti == p.jti && pos2 == pp(p, 2));
            assert(pos2 + l2@.len() <= b@.len());
            assert(b@.subrange(pos2 as int, pos2 + l2@.len() as int) == l2@);
            if r3 is None {
                assert(false);
            }
            assert(pos3 == pp(p, 3));
        }
        assert forall|p: PayloadV|
            payload_wf(p) && b@ == #[trigger] payload_bytes(p) implies {
            &&& exp == p.exp
            &&& pos5 == pp(p, 5)
        } by {
            lemma_payload_front(b@, p);
            assert(pos3 == pp(p, 3));
            assert(pos3 + dec_of(p.exp).len() <= b@.len());
            assert(b@.subrange(pos3 as int, pos3 + dec_of(p.exp).len()) == dec_of(p.exp));
            assert(!is_digit(b@[pos3 + dec_of(p.exp).len()]));
            assert(r4 == Some((p.exp, (pos3 + dec_of(p.exp).len()) as usize)));
            assert(exp == p.exp && pos4 == pp(p, 4));
            assert(pos4 + l3@.len() <= b@.len());
            assert(b@.subrange(pos4 as int, pos4 + l3@.len() as int) == l3@);
            if r5 is None {
                assert(false);
            }
            assert(pos5 == pp(p, 5));
        }
        assert forall|p: PayloadV|
            payload_wf(p) && b@ == #[trigger] payload_bytes(p) implies {
            &&& iat == p.iat
            &&& pos7 == pp(p, 7)
        } by {
            lemma_payload_front(b@, p);
            assert(pos5 == pp(p, 5));
            assert(pos5 + dec_of(p.iat).len() <= b@.len());
            assert(b@.subrange(pos5 as int, pos5 + dec_of(p.iat).len()) == dec_of(p.iat));
            assert(!is_digit(b@[pos5 + dec_of(p.iat).len()]));
            assert(r6 == Some((p.iat, (pos5 + dec_of(p.iat).len()) as usize)));
            assert(iat == p.iat && pos6 == pp(p, 6));
            assert(pos6 + l4@.len() <= b@.len());
            assert(b@.subrange(pos6 as int, pos6 + l4@.len() as int) == l4@);
            if r7 is None {
                assert(false);
            }
            assert(pos7 == pp(p, 7));
        }
        assert forall|p: PayloadV|
            payload_wf(p) && b@ == #[trigger] payload_bytes(p) implies r8 is Some && j8 == pp(
            p,
            8,
        ) by {
            lemma_payload_front(b@, p);
            assert(pos7 == pp(p, 7));
            assert forall|k: int| pp(p, 7) <= k < pp(p, 8) implies b@[k] != 34 by {
                assert(b@[k] == b@.subrange(pp(p, 7), pp(p, 8))[k - pp(p, 7)]);
                assert(is_b64url_byte(p.iss_b64[k - pp(p, 7)]));
            }
            assert(b@[pp(p, 8)] == 34);
            if r8 is None {
                assert(false);
            }
            if j8 < pp(p, 8) {
                assert(b@[j8 as int] != 34);
                assert(false);
            }
            if j8 > pp(p, 8) {
                assert(b@[pp(p, 8)] != 34);
                assert(false);
            }
        }
        assert forall|p: PayloadV|
            payload_wf(p) && b@ == #[trigger] payload_bytes(p) implies {
            &&& r8 is Some
            &&& pos7 == pp(p, 7) as usize
            &&& j8 == pp(p, 8) as usize
        } by {
            lemma_payload_front(b@, p);
            assert(pos7 == pp(p, 7) && j8 == pp(p, 8));
            assert(b@.len() <= usize::MAX) by {
                assert(blen == b@.len());
            }
            assert(0 <= pp(p, 7) <= pp(p, 8) <= b@.len());
            assert(pp(p, 7) as usize as int == pp(p, 7));
            assert(pp(p, 8) as usize as int == pp(p, 8));
        }
    }
    match r8 {
        Some(_) => {
            proof {
                assert(b@.subrange(0, pos2 as int) =~= lit_head() + dec_of(jti));
                assert(b@.subrange(0, pos3 as int) =~= b@.subrange(0, pos2 as int) + lit_exp());
                assert(b@.subrange(0, pos4 as int) =~= b@.subrange(0, pos3 as int) + dec_of(exp));
                assert(b@.subrange(0, pos5 as int) =~= b@.subrange(0, pos4 as int) + lit_iat());
                assert(b@.subrange(0, pos6 as int) =~= b@.subrange(0, pos5 as int) + dec_of(iat));
                assert(b@.subrange(0, pos7 as int) =~= b@.subrange(0, pos6 as int) + lit_iss());
                assert(b@.subrange(0, j8 as int) =~= b@.subrange(0, pos7 as int) + b@.subrange(
                    pos7 as int,
                    j8 as int,
                ));
            }
            Some((jti, exp, iat, pos7, j8))
        },
        None => None,
    }
}

} // verus!

verus! {

/// Parses a payload; accepts exactly the canonical encodings.
///
/// On success the input is the canonical encoding of the result, and the
/// canonical encoding of every transportable payload parses back to it.
#[verifier::rlimit(100)]
#[verifier::spinoff_prover]
pub fn parse_payload(b: &Vec<u8>) -> (r: Option<Payload>)
    ensures
        r matches Some(q) ==> b@ == payload_bytes(q@),
        forall|p: PayloadV|
            payload_wf(p) && b@ == #[trigger] payload_bytes(p) ==> (r matches Some(q) && q@ == p),
{
    let l5 = lit_tt_vec();
    let l6 = lit_sub_vec();
    let ta = tag_access_vec();
    let tr = tag_renewal_vec();
    let rf = parse_front(b);
    let (jti, exp, iat, pos7, j8) = match rf {
        Some(t) => t,
        None => (0, 0, 0, 0, 0),
    };
    let r9 = match rf {
        Some(_) => expect_lit(b, j8, &l5),
        None => None,
    };
    let pos9 = match r9 {
        Some(e) => e,
        None => j8,
    };
    let (tag_ok, token_type, pos10) = match r9 {
        Some(_) => match expect_lit(b, pos9, &ta) {
            Some(e) => (true, TokenType::Access, e),
            None => match expect_lit(b, pos9, &tr) {
                Some(e) => (true, TokenType::Renewal, e),
                None => (false, TokenType::Access, pos9),
            },
        },
        None => (false, TokenType::Access, pos9),
    };
    let r11 = if tag_ok {
        expect_lit(b, pos10, &l6)
    } else {
        None
    };
    let pos11 = match r11 {
        Some(e) => e,
        None => pos10,
    };
    let r12 = match r11 {
        Some(_) => read_u64(b, pos11),
        None => None,
    };
    let (sub, pos12) = match r12 {
        Some(v) => v,
        None => (0, pos11),
    };
    let close_ok = r12.is_some() && b.len() - pos12 == 1 && b[pos12] == 125;
    proof {
        assert forall|p: PayloadV|
            payload_wf(p) && b@ == #[trigger] payload_bytes(p) implies {
            &&& tag_ok
            &&& token_type == p.token_type
            &&& pos10 == pp(p, 10)
        } by {
            lemma_payload_back(b@, p);
            assert(rf == Some((p.jti, p.exp, p.iat, pp(p, 7) as usize, pp(p, 8) as usize)));
            assert(b@.len() <= usize::MAX) by {
                assert(b@.len() == b.len());
            }
            assert(0 <= pp(p, 8) <= b@.len());
            assert(pp(p, 8) as usize as int == pp(p, 8));
            assert(j8 == pp(p, 8) as usize);
            assert(j8 == pp(p, 8));
            assert(j8 + l5@.len() <= b@.len());
            assert(b@.subrange(j8 as int, j8 + l5@.len() as int) == l5@);
            if r9 is None {
                assert(false);
            }
            assert(pos9 == pp(p, 9));
            if p.token_type is Access {
                assert(pos9 + ta@.len() <= b@.len());
                assert(b@.subrange(pos9 as int, pos9 + ta@.len() as int) == ta@);
                assert(tag_ok && token_type == TokenType::Access && pos10 == pp(p, 10));
            } else {
                assert(pos9 + tr@.len() <= b@.len());
                assert(b@.subrange(pos9 as int, pos9 + tr@.len() as int) == tr@);
                if token_type is Access && tag_ok {
                    assert(b@.subrange(pos9 as int, pos9 + ta@.len() as int) == ta@);
                    assert(b@.subrange(pos9 as int, pos9 + ta@.len() as int)[0] == 65);
                    assert(b@.subrange(pos9 as int, pos9 + tr@.len() as int)[0] == 82);
                    assert(false);
                }
                assert(tag_ok && token_type == TokenType::Renewal && pos10 == pp(p, 10));
            }
        }
        assert forall|p: PayloadV|
            payload_wf(p) && b@ == #[trigger] payload_bytes(p) implies {
            &&& sub == p.sub
            &&& close_ok
            &&& jti == p.jti
            &&& exp == p.exp
            &&& iat == p.iat
            &&& b@.subrange(pos7 as int, j8 as int) == p.iss_b64
        } by {
            lemma_payload_back(b@, p);
            assert(rf == Some((p.jti, p.exp, p.iat, pp(p, 7) as usize, pp(p, 8) as usize)));
            assert(b@.len() <= usize::MAX) by {
                assert(b@.len() == b.len());
            }
            assert(0 <= pp(p, 7) <= pp(p, 8) <= b@.len());
            assert(pp(p, 8) as usize as int == pp(p, 8));
            assert(pp(p, 7) as usize as int == pp(p, 7));
            assert(j8 == pp(p, 8) as usize && pos7 == pp(p, 7) as usize);
            assert(j8 == pp(p, 8) && pos7 == pp(p, 7));
            assert(tag_ok && token_type == p.token_type && pos10 == pp(p, 10));
            assert(pos10 + l6@.len() <= b@.len());
            assert(b@.subrange(pos10 as int, pos10 + l6@.len() as int) == l6@);
            if r11 is None {
                assert(false);
            }
            assert(pos11 == pp(p, 11));
            assert(pos11 + dec_of(p.sub).len() <= b@.len());
            assert(b@.subrange(pos11 as int, pos11 + dec_of(p.sub).len()) == dec_of(p.sub));
            assert(!is_digit(b@[pos11 + dec_of(p.sub).len()]));
            assert(r12 == Some((p.sub, (pos11 + dec_of(p.sub).len()) as usize)));
            assert(sub == p.sub && pos12 == pp(p, 12));
            assert(b@.len() - pos12 == 1);
            assert(b@[pos12 as int] == 125);
            assert(close_ok);
            lemma_payload_positions(b@, p);
            assert(b@.subrange(pos7 as int, j8 as int) == p.iss_b64);
        }
    }
    if !close_ok {
        return None;
    }
    let iss_b64 = copy_range(b, pos7, j8);
    let q = Payload { jti, exp, iat, iss_b64, token_type, sub };
    proof {
        assert(b@.subrange(pos12 as int, pos12 + 1) =~= lit_close());
        assert(b@.subrange(pos9 as int, pos10 as int) == tag_of(token_type));
        assert(b@ =~= b@.subrange(0, j8 as int) + b@.subrange(j8 as int, pos9 as int)
            + b@.subrange(pos9 as int, pos10 as int) + b@.subrange(pos10 as int, pos11 as int)
            + b@.subrange(pos11 as int, pos12 as int) + b@.subrange(pos12 as int, pos12 + 1));
        assert(b@ == payload_bytes(q@)) by {
            assert(b@ =~= lit_head() + dec_of(jti) + lit_exp() + dec_of(exp) + lit_iat() + dec_of(
                iat,
            ) + lit_iss() + q@.iss_b64 + lit_tt() + tag_of(token_type) + lit_sub() + dec_of(sub)
                + lit_close());
        }
    }
    Some(q)
}

} // verus!

verus! {

/// Finds the first occurrence of `t` at or after `pos`.
pub fn scan_byte(b: &Vec<u8>, pos: usize, t: u8) -> (r: Option<usize>)
    requires
        pos <= b@.len(),
    ensures
        r matches Some(j) ==> pos <= j < b@.len() && b@[j as int] == t && (forall|k: int|
            pos <= k < j ==> b@[k] != t),
        r is None ==> forall|k: int| pos <= k < b@.len() ==> b@[k] != t,
{
    let mut j: usize = pos;
    while j < b.len()
        invariant
            pos <= j <= b@.len(),
            forall|k: int| pos <= k < j ==> b@[k] != t,
        decreases b@.len() - j,
    {
        if b[j] == t {
            return Some(j);
        }
        j += 1;
    }
    None
}

} // verus!
