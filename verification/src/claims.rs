use vstd::prelude::*;
use crate::ascii::{ascii_of, json_plain, plain_str_bytes, bytes_eq, lemma_take_prefix};
use crate::num::{dec_digits, i32_dec_chars, i32_dec_bytes, i32_to_string};

verus! {

/// The JSON payload for a login call.
#[derive(Debug)]
pub struct LoginRequest {
    pub username: String,
    pub password: String,
}

/// The successful login response.
#[derive(Debug)]
pub struct LoginResponse {
    pub token: String,
}

/// An error response: a human-readable message and a stable machine code.
#[derive(Debug)]
pub struct ErrorResponse {
    pub error: String,
    pub code: String,
}

/// A user record as the credential store holds it.
#[derive(Debug, Clone)]
pub struct User {
    pub id: i32,
    pub username: String,
    pub password_hash: String,
}

/// The token payload: registered claim names per RFC 7519.
#[derive(Debug)]
pub struct Claims {
    pub jti: String,
    pub sub: String,
    pub aud: Vec<String>,
    pub exp: usize,
    pub iat: usize,
    pub iss: String,
}

/// Mathematical view of a claim set.
#[verifier::ext_equal]
pub ghost struct ClaimsView {
    pub jti: Seq<char>,
    pub sub: Seq<char>,
    pub aud: Seq<Seq<char>>,
    pub exp: nat,
    pub iat: nat,
    pub iss: Seq<char>,
}

impl View for Claims {
    type V = ClaimsView;

    open spec fn view(&self) -> ClaimsView {
        ClaimsView {
            jti: self.jti@,
            sub: self.sub@,
            aud: self.aud.deep_view(),
            exp: self.exp as nat,
            iat: self.iat as nat,
            iss: self.iss@,
        }
    }
}

/// The consumer this service issues tokens for.
pub open spec fn audience_chars() -> Seq<char> {
    "api-service"@
}

/// The issuer name embedded in every token.
pub open spec fn issuer_chars() -> Seq<char> {
    "auth-service"@
}

/// A claim set this service can put on the wire: every string is plain JSON
/// text, and the audience holds exactly the one intended consumer slot.
pub open spec fn claims_wf(c: ClaimsView) -> bool {
    &&& json_plain(c.jti)
    &&& json_plain(c.sub)
    &&& c.aud.len() == 1
    &&& json_plain(c.aud[0])
    &&& json_plain(c.iss)
    &&& c.exp <= usize::MAX
    &&& c.iat <= usize::MAX
}

// The fixed skeleton of the canonical claim document, as byte strings:
// {"jti":"  ","sub":"  ","aud":["  "],"exp":  ,"iat":  ,"iss":"  "}
pub open spec fn lit_jti() -> Seq<u8> {
    seq![0x7bu8, 0x22, 0x6a, 0x74, 0x69, 0x22, 0x3a, 0x22]
}

pub open spec fn lit_sub() -> Seq<u8> {
    seq![0x22u8, 0x2c, 0x22, 0x73, 0x75, 0x62, 0x22, 0x3a, 0x22]
}

pub open spec fn lit_aud() -> Seq<u8> {
    seq![0x22u8, 0x2c, 0x22, 0x61, 0x75, 0x64, 0x22, 0x3a, 0x5b, 0x22]
}

pub open spec fn lit_exp() -> Seq<u8> {
    seq![0x22u8, 0x5d, 0x2c, 0x22, 0x65, 0x78, 0x70, 0x22, 0x3a]
}

pub open spec fn lit_iat() -> Seq<u8> {
    seq![0x2cu8, 0x22, 0x69, 0x61, 0x74, 0x22, 0x3a]
}

pub open spec fn lit_iss() -> Seq<u8> {
    seq![0x2cu8, 0x22, 0x69, 0x73, 0x73, 0x22, 0x3a, 0x22]
}

pub open spec fn lit_end() -> Seq<u8> {
    seq![0x22u8, 0x7d]
}

/// The canonical JSON document for a claim set, as bytes.
pub open spec fn ser_claims(c: ClaimsView) -> Seq<u8> {
    lit_jti() + (ascii_of(c.jti) + (lit_sub() + (ascii_of(c.sub) + (lit_aud() + (ascii_of(
        c.aud[0],
    ) + (lit_exp() + (dec_digits(c.exp) + (lit_iat() + (dec_digits(c.iat) + (lit_iss() + (
    ascii_of(c.iss) + lit_end())))))))))))
}

fn lit_jti_vec() -> (r: Vec<u8>)
    ensures
        r@ == lit_jti(),
{
    let v = vec![0x7bu8, 0x22, 0x6a, 0x74, 0x69, 0x22, 0x3a, 0x22];
    proof {
        assert(v@ =~= lit_jti());
    }
    v
}

fn lit_sub_vec() -> (r: Vec<u8>)
    ensures
        r@ == lit_sub(),
{
    let v = vec![0x22u8, 0x2c, 0x22, 0x73, 0x75, 0x62, 0x22, 0x3a, 0x22];
    proof {
        assert(v@ =~= lit_sub());
    }
    v
}

fn lit_aud_vec() -> (r: Vec<u8>)
    ensures
        r@ == lit_aud(),
{
    let v = vec![0x22u8, 0x2c, 0x22, 0x61, 0x75, 0x64, 0x22, 0x3a, 0x5b, 0x22];
    proof {
        assert(v@ =~= lit_aud());
    }
    v
}

fn lit_exp_vec() -> (r: Vec<u8>)
    ensures
        r@ == lit_exp(),
{
    let v = vec![0x22u8, 0x5d, 0x2c, 0x22, 0x65, 0x78, 0x70, 0x22, 0x3a];
    proof {
        assert(v@ =~= lit_exp());
    }
    v
}

fn lit_iat_vec() -> (r: Vec<u8>)
    ensures
        r@ == lit_iat(),
{
    let v = vec![0x2cu8, 0x22, 0x69, 0x61, 0x74, 0x22, 0x3a];
    proof {
        assert(v@ =~= lit_iat());
    }
    v
}

fn lit_iss_vec() -> (r: Vec<u8>)
    ensures
        r@ == lit_iss(),
{
    let v = vec![0x2cu8, 0x22, 0x69, 0x73, 0x73, 0x22, 0x3a, 0x22];
    proof {
        assert(v@ =~= lit_iss());
    }
    v
}

fn lit_end_vec() -> (r: Vec<u8>)
    ensures
        r@ == lit_end(),
{
    let v = vec![0x22u8, 0x7d];
    proof {
        assert(v@ =~= lit_end());
    }
    v
}

/// Serializes a claim set into its canonical JSON document. Returns `None`
/// exactly when the claim set is not well formed.
#[verifier::rlimit(100)]
pub fn serialize_claims(c: &Claims) -> (r: Option<Vec<u8>>)
    ensures
        r matches Some(v) ==> claims_wf(c@) && v@ == ser_claims(c@),
        r is None ==> !claims_wf(c@),
{
    let jb = match plain_str_bytes(c.jti.as_str()) {
        Some(b) => b,
        None => {
            return None;
        },
    };
    let sb = match plain_str_bytes(c.sub.as_str()) {
        Some(b) => b,
        None => {
            return None;
        },
    };
    if c.aud.len() != 1 {
        return None;
    }
    let ab = match plain_str_bytes(c.aud[0].as_str()) {
        Some(b) => b,
        None => {
            return None;
        },
    };
    proof {
        assert(c@.aud[0] == c.aud@[0]@);
    }
    let ib = match plain_str_bytes(c.iss.as_str()) {
        Some(b) => b,
        None => {
            return None;
        },
    };
    let eb = crate::num::u64_to_dec(c.exp as u64);
    let tb = crate::num::u64_to_dec(c.iat as u64);
    let mut out = lit_jti_vec();
    out.extend_from_slice(jb.as_slice());
    let l2 = lit_sub_vec();
    out.extend_from_slice(l2.as_slice());
    out.extend_from_slice(sb.as_slice());
    let l3 = lit_aud_vec();
    out.extend_from_slice(l3.as_slice());
    out.extend_from_slice(ab.as_slice());
    let l4 = lit_exp_vec();
    out.extend_from_slice(l4.as_slice());
    out.extend_from_slice(eb.as_slice());
    let l5 = lit_iat_vec();
    out.extend_from_slice(l5.as_slice());
    out.extend_from_slice(tb.as_slice());
    let l6 = lit_iss_vec();
    out.extend_from_slice(l6.as_slice());
    out.extend_from_slice(ib.as_slice());
    let l7 = lit_end_vec();
    out.extend_from_slice(l7.as_slice());
    proof {
        assert(out@ =~= ser_claims(c@));
    }
    Some(out)
}

// Offsets of the pieces of the canonical document, in order.
pub open spec fn pos_jti(cv: ClaimsView) -> int {
    8
}

pub open spec fn pos_sub_lit(cv: ClaimsView) -> int {
    pos_jti(cv) + cv.jti.len()
}

pub open spec fn pos_sub(cv: ClaimsView) -> int {
    pos_sub_lit(cv) + 9
}

pub open spec fn pos_aud_lit(cv: ClaimsView) -> int {
    pos_sub(cv) + cv.sub.len()
}

pub open spec fn pos_aud(cv: ClaimsView) -> int {
    pos_aud_lit(cv) + 10
}

pub open spec fn pos_exp_lit(cv: ClaimsView) -> int {
    pos_aud(cv) + cv.aud[0].len()
}

pub open spec fn pos_exp(cv: ClaimsView) -> int {
    pos_exp_lit(cv) + 9
}

pub open spec fn pos_iat_lit(cv: ClaimsView) -> int {
    pos_exp(cv) + dec_digits(cv.exp).len()
}

pub open spec fn pos_iat(cv: ClaimsView) -> int {
    pos_iat_lit(cv) + 7
}

pub open spec fn pos_iss_lit(cv: ClaimsView) -> int {
    pos_iat(cv) + dec_digits(cv.iat).len()
}

pub open spec fn pos_iss(cv: ClaimsView) -> int {
    pos_iss_lit(cv) + 8
}

pub open spec fn pos_end(cv: ClaimsView) -> int {
    pos_iss(cv) + cv.iss.len()
}

/// Where each piece of the canonical document stands inside it.
#[verifier::rlimit(100)]
pub proof fn lemma_ser_structure(v: Seq<u8>, cv: ClaimsView)
    requires
        v == ser_claims(cv),
    ensures
        v.len() == pos_end(cv) + 2,
        v.subrange(0, 8) == lit_jti(),
        v.subrange(pos_jti(cv), pos_sub_lit(cv)) == ascii_of(cv.jti),
        v[pos_sub_lit(cv)] == 0x22,
        v.subrange(pos_sub_lit(cv), pos_sub(cv)) == lit_sub(),
        v.subrange(pos_sub(cv), pos_aud_lit(cv)) == ascii_of(cv.sub),
        v[pos_aud_lit(cv)] == 0x22,
        v.subrange(pos_aud_lit(cv), pos_aud(cv)) == lit_aud(),
        v.subrange(pos_aud(cv), pos_exp_lit(cv)) == ascii_of(cv.aud[0]),
        v[pos_exp_lit(cv)] == 0x22,
        v.subrange(pos_exp_lit(cv), pos_exp(cv)) == lit_exp(),
        v.subrange(pos_exp(cv), pos_iat_lit(cv)) == dec_digits(cv.exp),
        v[pos_iat_lit(cv)] == 0x2c,
        v.subrange(pos_iat_lit(cv), pos_iat(cv)) == lit_iat(),
        v.subrange(pos_iat(cv), pos_iss_lit(cv)) == dec_digits(cv.iat),
        v[pos_iss_lit(cv)] == 0x2c,
        v.subrange(pos_iss_lit(cv), pos_iss(cv)) == lit_iss(),
        v.subrange(pos_iss(cv), pos_end(cv)) == ascii_of(cv.iss),
        v[pos_end(cv)] == 0x22,
        v.subrange(pos_end(cv), pos_end(cv) + 2) == lit_end(),
{
    let r1 = ascii_of(cv.jti) + (lit_sub() + (ascii_of(cv.sub) + (lit_aud() + (ascii_of(
        cv.aud[0],
    ) + (lit_exp() + (dec_digits(cv.exp) + (lit_iat() + (dec_digits(cv.iat) + (lit_iss() + (
    ascii_of(cv.iss) + lit_end()))))))))));
    assert(v.subrange(0, v.len() as int) =~= v);
    lemma_take_prefix(v, 0, lit_jti(), r1);
    let r2 = lit_sub() + (ascii_of(cv.sub) + (lit_aud() + (ascii_of(cv.aud[0]) + (lit_exp() + (
    dec_digits(cv.exp) + (lit_iat() + (dec_digits(cv.iat) + (lit_iss() + (ascii_of(cv.iss)
        + lit_end())))))))));
    lemma_take_prefix(v, pos_jti(cv), ascii_of(cv.jti), r2);
    let r3 = ascii_of(cv.sub) + (lit_aud() + (ascii_of(cv.aud[0]) + (lit_exp() + (dec_digits(
        cv.exp,
    ) + (lit_iat() + (dec_digits(cv.iat) + (lit_iss() + (ascii_of(cv.iss) + lit_end()))))))));
    lemma_take_prefix(v, pos_sub_lit(cv), lit_sub(), r3);
    let r4 = lit_aud() + (ascii_of(cv.aud[0]) + (lit_exp() + (dec_digits(cv.exp) + (lit_iat() + (
    dec_digits(cv.iat) + (lit_iss() + (ascii_of(cv.iss) + lit_end())))))));
    lemma_take_prefix(v, pos_sub(cv), ascii_of(cv.sub), r4);
    let r5 = ascii_of(cv.aud[0]) + (lit_exp() + (dec_digits(cv.exp) + (lit_iat() + (dec_digits(
        cv.iat,
    ) + (lit_iss() + (ascii_of(cv.iss) + lit_end()))))));
    lemma_take_prefix(v, pos_aud_lit(cv), lit_aud(), r5);
    let r6 = lit_exp() + (dec_digits(cv.exp) + (lit_iat() + (dec_digits(cv.iat) + (lit_iss() + (
    ascii_of(cv.iss) + lit_end())))));
    lemma_take_prefix(v, pos_aud(cv), ascii_of(cv.aud[0]), r6);
    let r7 = dec_digits(cv.exp) + (lit_iat() + (dec_digits(cv.iat) + (lit_iss() + (ascii_of(
        cv.iss,
    ) + lit_end()))));
    lemma_take_prefix(v, pos_exp_lit(cv), lit_exp(), r7);
    let r8 = lit_iat() + (dec_digits(cv.iat) + (lit_iss() + (ascii_of(cv.iss) + lit_end())));
    lemma_take_prefix(v, pos_exp(cv), dec_digits(cv.exp), r8);
    let r9 = dec_digits(cv.iat) + (lit_iss() + (ascii_of(cv.iss) + lit_end()));
    lemma_take_prefix(v, pos_iat_lit(cv), lit_iat(), r9);
    let r10 = lit_iss() + (ascii_of(cv.iss) + lit_end());
    lemma_take_prefix(v, pos_iat(cv), dec_digits(cv.iat), r10);
    let r11 = ascii_of(cv.iss) + lit_end();
    lemma_take_prefix(v, pos_iss_lit(cv), lit_iss(), r11);
    lemma_take_prefix(v, pos_iss(cv), ascii_of(cv.iss), lit_end());
    lemma_take_prefix(v, pos_end(cv), lit_end(), Seq::<u8>::empty());
    assert(v[pos_sub_lit(cv)] == v.subrange(pos_sub_lit(cv), pos_sub(cv))[0]);
    assert(v[pos_aud_lit(cv)] == v.subrange(pos_aud_lit(cv), pos_aud(cv))[0]);
    assert(v[pos_exp_lit(cv)] == v.subrange(pos_exp_lit(cv), pos_exp(cv))[0]);
    assert(v[pos_iat_lit(cv)] == v.subrange(pos_iat_lit(cv), pos_iat(cv))[0]);
    assert(v[pos_iss_lit(cv)] == v.subrange(pos_iss_lit(cv), pos_iss(cv))[0]);
    assert(v[pos_end(cv)] == v.subrange(pos_end(cv), pos_end(cv) + 2)[0]);
}

/// Matches the fixed text `lit` at offset `p` of `v`.
fn expect_lit(v: &Vec<u8>, p: usize, lit: &Vec<u8>) -> (r: Option<usize>)
    requires
        p <= v@.len(),
    ensures
        r matches Some(q) ==> q == p + lit@.len() && q <= v@.len() && v@.subrange(
            p as int,
            q as int,
        ) == lit@,
        (p + lit@.len() <= v@.len() && v@.subrange(p as int, p + lit@.len()) == lit@) ==> r
            is Some,
{
    let n = v.len();
    if lit.len() > n - p {
        proof {
            assert(p + lit@.len() > v@.len());
        }
        return None;
    }
    let m = lit.len();
    let mut i: usize = 0;
    while i < m
        invariant
            0 <= i <= m,
            m == lit@.len(),
            p + m <= v@.len(),
            v@.len() <= usize::MAX,
            forall|k: int| 0 <= k < i ==> v@[p + k] == lit@[k],
        decreases m - i,
    {
        if v[p + i] != lit[i] {
            proof {
                assert(v@.subrange(p as int, p + lit@.len())[i as int] != lit@[i as int]);
            }
            return None;
        }
        i = i + 1;
    }
    proof {
        assert(v@.subrange(p as int, (p + m) as int) =~= lit@);
    }
    Some(p + m)
}

/// Scans a plain JSON string starting at `p`, up to the closing quote.
/// On success, the returned offset is that of the quote itself.
fn scan_string(v: &Vec<u8>, p: usize) -> (r: Option<(String, usize)>)
    requires
        p <= v@.len(),
    ensures
        r matches Some(sq) ==> {
            &&& p <= sq.1 < v@.len()
            &&& v@[sq.1 as int] == 0x22
            &&& json_plain(sq.0@)
            &&& ascii_of(sq.0@) == v@.subrange(p as int, sq.1 as int)
        },
        forall|t: Seq<char>|
            (json_plain(t) && p + t.len() < v@.len() && v@.subrange(p as int, p + t.len())
                == ascii_of(t) && v@[p + t.len()] == 0x22) ==> (r matches Some(sq) && sq.0@ == t
                && sq.1 == p + t.len()),
{
    let n = v.len();
    let mut i: usize = p;
    while i < n && v[i] != 0x22 && 0x20 <= v[i] && v[i] < 0x7f && v[i] != 0x5c
        invariant
            p <= i <= n,
            n == v@.len(),
            forall|k: int| p <= k < i ==> crate::ascii::plain_byte(v@[k]),
        decreases n - i,
    {
        i = i + 1;
    }
    if i == n || v[i] != 0x22 {
        proof {
            assert forall|t: Seq<char>|
                (json_plain(t) && p + t.len() < v@.len() && v@.subrange(p as int, p + t.len())
                    == ascii_of(t) && v@[p + t.len()] == 0x22) implies false by {
                crate::ascii::lemma_ascii_of_plain(t);
                if i < p + t.len() {
                    assert(v@[i as int] == v@.subrange(p as int, p + t.len())[i - p]);
                    assert(crate::ascii::plain_byte(v@[i as int]));
                    assert(false);
                } else if i == p + t.len() {
                    assert(v@[i as int] == 0x22);
                    assert(false);
                } else {
                    assert(crate::ascii::plain_byte(v@[p + t.len()]));
                    assert(false);
                }
            }
        }
        return None;
    }
    // v[i] is the closing quote; bytes p..i are the plain content
    let mut bytes: Vec<u8> = Vec::new();
    let mut j: usize = p;
    while j < i
        invariant
            p <= j <= i <= n,
            n == v@.len(),
            bytes@ == v@.subrange(p as int, j as int),
            forall|k: int| p <= k < i ==> crate::ascii::plain_byte(v@[k]),
        decreases i - j,
    {
        bytes.push(v[j]);
        proof {
            assert(bytes@ =~= v@.subrange(p as int, j + 1));
        }
        j = j + 1;
    }
    let ghost content = v@.subrange(p as int, i as int);
    let s = crate::ascii::string_from_ascii(bytes);
    proof {
        assert forall|k: int| 0 <= k < s@.len() implies crate::ascii::plain_char(
            #[trigger] s@[k],
        ) by {
            assert(crate::ascii::plain_byte(content[k]));
            crate::ascii::lemma_plain_byte_char(content[k]);
            assert(s@[k] == (content[k] as char));
        }
        crate::ascii::lemma_string_from_ascii_bytes(s@, content);
        assert forall|t: Seq<char>|
            (json_plain(t) && p + t.len() < v@.len() && v@.subrange(p as int, p + t.len())
                == ascii_of(t) && v@[p + t.len()] == 0x22) implies (s@ == t && i == p
            + t.len()) by {
            crate::ascii::lemma_ascii_of_plain(t);
            if i < p + t.len() {
                assert(v@[i as int] == v@.subrange(p as int, p + t.len())[i - p]);
                assert(crate::ascii::plain_byte(v@[i as int]));
                assert(false);
            } else if i > p + t.len() {
                assert(crate::ascii::plain_byte(v@[p + t.len()]));
                assert(false);
            }
            assert(i == p + t.len());
            assert(ascii_of(s@) == ascii_of(t));
            crate::ascii::lemma_ascii_of_injective(s@, t);
        }
    }
    Some((s, i))
}

/// Scans the canonical decimal form of a number starting at `p`.
fn scan_number(v: &Vec<u8>, p: usize) -> (r: Option<(usize, usize)>)
    requires
        p <= v@.len(),
    ensures
        r matches Some(mq) ==> p <= mq.1 <= v@.len(),
        forall|n: nat|
            (n <= usize::MAX && p + dec_digits(n).len() <= v@.len() && v@.subrange(
                p as int,
                p + dec_digits(n).len(),
            ) == dec_digits(n) && (p + dec_digits(n).len() == v@.len() || !crate::is_digit(
                v@[p + dec_digits(n).len()],
            ))) ==> (r matches Some(mq) && mq.0 == n && mq.1 == p + dec_digits(n).len()),
{
    let n = v.len();
    let mut i: usize = p;
    let mut acc: usize = 0;
    let mut overflow = false;
    while i < n && 0x30 <= v[i] && v[i] <= 0x39 && !overflow
        invariant
            p <= i <= n,
            n == v@.len(),
            forall|k: int| p <= k < i ==> crate::is_digit(v@[k]),
            !overflow ==> acc == crate::num::dec_val(v@.subrange(p as int, i as int)),
            overflow ==> crate::num::dec_val(v@.subrange(p as int, i as int)) > usize::MAX,
            overflow ==> i > p,
        decreases n - i,
    {
        let d = v[i] - 0x30;
        let next: Option<usize> = match acc.checked_mul(10) {
            Some(x) => x.checked_add(d as usize),
            None => None,
        };
        proof {
            let pre = v@.subrange(p as int, i as int);
            let cur = v@.subrange(p as int, i + 1);
            assert(cur.drop_last() =~= pre);
            assert(cur.last() == v@[i as int]);
            assert(crate::num::dec_val(cur) == crate::num::dec_val(pre) * 10 + (v@[i as int]
                - 0x30));
        }
        match next {
            Some(x) => {
                acc = x;
            },
            None => {
                overflow = true;
                proof {
                    crate::num::lemma_dec_val_nonneg(v@.subrange(p as int, i as int));
                }
            },
        }
        i = i + 1;
    }
    if overflow || i == p {
        proof {
            assert forall|m: nat|
                (m <= usize::MAX && p + dec_digits(m).len() <= v@.len() && v@.subrange(
                    p as int,
                    p + dec_digits(m).len(),
                ) == dec_digits(m) && (p + dec_digits(m).len() == v@.len() || !crate::is_digit(
                    v@[p + dec_digits(m).len()],
                ))) implies false by {
                crate::num::lemma_dec_digits_are_digits(m);
                crate::num::lemma_dec_val_of_dec_digits(m);
                let dlen = dec_digits(m).len() as int;
                if i == p {
                    // the first byte would have to be a digit
                    assert(v@[p as int] == dec_digits(m)[0]);
                    assert(crate::is_digit(v@[p as int]));
                    assert(false);
                } else {
                    // the scanned digits are a prefix of the digits of m, whose
                    // value cannot exceed m
                    assert(i - p <= dlen) by {
                        if i - p > dlen {
                            assert(crate::is_digit(v@[p + dlen]));
                            assert(p + dlen < v@.len());
                            assert(false);
                        }
                    }
                    assert(v@.subrange(p as int, i as int) =~= dec_digits(m).take(i - p));
                    crate::num::lemma_dec_val_prefix(dec_digits(m), i - p);
                    assert(crate::num::dec_val(v@.subrange(p as int, i as int)) <= m);
                    assert(false);
                }
            }
        }
        return None;
    }
    proof {
        assert forall|m: nat|
            (m <= usize::MAX && p + dec_digits(m).len() <= v@.len() && v@.subrange(
                p as int,
                p + dec_digits(m).len(),
            ) == dec_digits(m) && (p + dec_digits(m).len() == v@.len() || !crate::is_digit(
                v@[p + dec_digits(m).len()],
            ))) implies (acc == m && i == p + dec_digits(m).len()) by {
            crate::num::lemma_dec_digits_are_digits(m);
            crate::num::lemma_dec_val_of_dec_digits(m);
            let dlen = dec_digits(m).len() as int;
            if i < p + dlen {
                assert(v@[i as int] == dec_digits(m)[i - p]);
                assert(crate::is_digit(v@[i as int]));
                assert(false);
            } else if i > p + dlen {
                assert(crate::is_digit(v@[p + dlen]));
                assert(p + dlen < i <= v@.len());
                assert(false);
            }
            assert(v@.subrange(p as int, i as int) =~= dec_digits(m));
        }
    }
    Some((acc, i))
}

/// Scans the first half of the canonical document: the three string fields.
/// On canonical input the returned offset is where the expiration digits start.
#[verifier::rlimit(100)]
fn scan_front(v: &Vec<u8>) -> (r: Option<(String, String, String, usize)>)
    ensures
        r matches Some(t) ==> t.3 <= v@.len(),
        forall|cv: ClaimsView|
            (claims_wf(cv) && v@ == ser_claims(cv)) ==> (r matches Some(t) && t.0@ == cv.jti
                && t.1@ == cv.sub && t.2@ == cv.aud[0] && t.3 == pos_exp(cv)),
{
    let l1 = lit_jti_vec();
    let l2 = lit_sub_vec();
    let l3 = lit_aud_vec();
    let l4 = lit_exp_vec();
    let q1 = match expect_lit(v, 0, &l1) {
        Some(q) => q,
        None => {
            proof {
                assert forall|cv: ClaimsView| claims_wf(cv) && v@ == ser_claims(cv) implies false by {
                    lemma_ser_structure(v@, cv);
                }
            }
            return None;
        },
    };
    let sr1 = scan_string(v, q1);
    let (jti, q2) = match sr1 {
        Some(sq) => sq,
        None => {
            proof {
                assert forall|cv: ClaimsView| claims_wf(cv) && v@ == ser_claims(cv) implies false by {
                    lemma_ser_structure(v@, cv);
                }
            }
            return None;
        },
    };
    let q3 = match expect_lit(v, q2, &l2) {
        Some(q) => q,
        None => {
            proof {
                assert forall|cv: ClaimsView| claims_wf(cv) && v@ == ser_claims(cv) implies false by {
                    lemma_ser_structure(v@, cv);
                }
            }
            return None;
        },
    };
    let sr2 = scan_string(v, q3);
    let (sub, q4) = match sr2 {
        Some(sq) => sq,
        None => {
            proof {
                assert forall|cv: ClaimsView| claims_wf(cv) && v@ == ser_claims(cv) implies false by {
                    lemma_ser_structure(v@, cv);
                }
            }
            return None;
        },
    };
    let q5 = match expect_lit(v, q4, &l3) {
        Some(q) => q,
        None => {
            proof {
                assert forall|cv: ClaimsView| claims_wf(cv) && v@ == ser_claims(cv) implies false by {
                    lemma_ser_structure(v@, cv);
                }
            }
            return None;
        },
    };
    let sr3 = scan_string(v, q5);
    let (aud0, q6) = match sr3 {
        Some(sq) => sq,
        None => {
            proof {
                assert forall|cv: ClaimsView| claims_wf(cv) && v@ == ser_claims(cv) implies false by {
                    lemma_ser_structure(v@, cv);
                }
            }
            return None;
        },
    };
    let q7 = match expect_lit(v, q6, &l4) {
        Some(q) => q,
        None => {
            proof {
                assert forall|cv: ClaimsView| claims_wf(cv) && v@ == ser_claims(cv) implies false by {
                    lemma_ser_structure(v@, cv);
                }
            }
            return None;
        },
    };
    proof {
        assert forall|cv: ClaimsView| claims_wf(cv) && v@ == ser_claims(cv) implies (jti@
            == cv.jti && sub@ == cv.sub && aud0@ == cv.aud[0] && q7 == pos_exp(cv)) by {
            lemma_ser_structure(v@, cv);
        }
    }
    Some((jti, sub, aud0, q7))
}

/// Scans the second half of the canonical document: the two timestamps and
/// the issuer, starting where the expiration digits start.
#[verifier::rlimit(100)]
fn scan_back(v: &Vec<u8>, p: usize) -> (r: Option<(usize, usize, String)>)
    requires
        p <= v@.len(),
    ensures
        forall|cv: ClaimsView|
            (claims_wf(cv) && v@ == ser_claims(cv) && p == pos_exp(cv)) ==> (r matches Some(t)
                && t.0 == cv.exp && t.1 == cv.iat && t.2@ == cv.iss),
{
    let l5 = lit_iat_vec();
    let l6 = lit_iss_vec();
    let nr1 = scan_number(v, p);
    let (exp, q8) = match nr1 {
        Some(mq) => mq,
        None => {
            proof {
                assert forall|cv: ClaimsView|
                    claims_wf(cv) && v@ == ser_claims(cv) && p == pos_exp(cv) implies false by {
                    lemma_ser_structure(v@, cv);
                }
            }
            return None;
        },
    };
    let q9 = match expect_lit(v, q8, &l5) {
        Some(q) => q,
        None => {
            proof {
                assert forall|cv: ClaimsView|
                    claims_wf(cv) && v@ == ser_claims(cv) && p == pos_exp(cv) implies false by {
                    lemma_ser_structure(v@, cv);
                }
            }
            return None;
        },
    };
    let nr2 = scan_number(v, q9);
    let (iat, q10) = match nr2 {
        Some(mq) => mq,
        None => {
            proof {
                assert forall|cv: ClaimsView|
                    claims_wf(cv) && v@ == ser_claims(cv) && p == pos_exp(cv) implies false by {
                    lemma_ser_structure(v@, cv);
                }
            }
            return None;
        },
    };
    let q11 = match expect_lit(v, q10, &l6) {
        Some(q) => q,
        None => {
            proof {
                assert forall|cv: ClaimsView|
                    claims_wf(cv) && v@ == ser_claims(cv) && p == pos_exp(cv) implies false by {
                    lemma_ser_structure(v@, cv);
                }
            }
            return None;
        },
    };
    let sr4 = scan_string(v, q11);
    let (iss, _q12) = match sr4 {
        Some(sq) => sq,
        None => {
            proof {
                assert forall|cv: ClaimsView|
                    claims_wf(cv) && v@ == ser_claims(cv) && p == pos_exp(cv) implies false by {
                    lemma_ser_structure(v@, cv);
                }
            }
            return None;
        },
    };
    proof {
        assert forall|cv: ClaimsView|
            claims_wf(cv) && v@ == ser_claims(cv) && p == pos_exp(cv) implies (exp as nat
            == cv.exp && iat as nat == cv.iat && iss@ == cv.iss) by {
            lemma_ser_structure(v@, cv);
        }
    }
    Some((exp, iat, iss))
}

/// Parses the canonical JSON document back into a claim set. Exactly the
/// canonical serializations of well-formed claim sets are accepted.
pub fn parse_claims(v: &Vec<u8>) -> (r: Option<Claims>)
    ensures
        r matches Some(c) ==> claims_wf(c@) && v@ == ser_claims(c@),
        forall|cv: ClaimsView|
            (claims_wf(cv) && v@ == ser_claims(cv)) ==> (r matches Some(c) && c@ == cv),
{
    let fr = scan_front(v);
    let (jti, sub, aud0, q7) = match fr {
        Some(t) => t,
        None => {
            return None;
        },
    };
    let br = scan_back(v, q7);
    let (exp, iat, iss) = match br {
        Some(t) => t,
        None => {
            return None;
        },
    };
    let mut audv: Vec<String> = Vec::new();
    audv.push(aud0);
    let c = Claims { jti, sub, aud: audv, exp, iat, iss };
    proof {
        assert forall|cv: ClaimsView| claims_wf(cv) && v@ == ser_claims(cv) implies c@ == cv by {
            assert(c@.aud =~= cv.aud);
            assert(c@ =~= cv);
        }
    }
    let w = match serialize_claims(&c) {
        Some(w) => w,
        None => {
            proof {
                assert forall|cv: ClaimsView| claims_wf(cv) && v@ == ser_claims(cv) implies false by {
                    assert(c@ == cv);
                }
            }
            return None;
        },
    };
    if bytes_eq(&w, v) {
        Some(c)
    } else {
        proof {
            assert forall|cv: ClaimsView| claims_wf(cv) && v@ == ser_claims(cv) implies false by {
                assert(c@ == cv);
            }
        }
        None
    }
}

/// A decimal digit character.
pub open spec fn digit_char(c: char) -> bool {
    0x30 <= (c as u32) && (c as u32) <= 0x39
}

/// Every character is a decimal digit.
pub open spec fn all_digit_chars(t: Seq<char>) -> bool {
    forall|i: int| 0 <= i < t.len() ==> digit_char(t[i])
}

/// The value `str::parse::<i32>` would yield, with every failure (empty,
/// stray character, out of range) collapsed to zero.
pub open spec fn parse_i32_or_zero(s: Seq<char>) -> int {
    let neg = s.len() > 0 && s[0] == '-';
    let signed = s.len() > 0 && (s[0] == '-' || s[0] == '+');
    let t = if signed {
        s.skip(1)
    } else {
        s
    };
    if t.len() > 0 && all_digit_chars(t) {
        let m = crate::num::dec_val(ascii_of(t));
        if neg {
            if -m >= i32::MIN {
                -m
            } else {
                0
            }
        } else {
            if m <= i32::MAX {
                m
            } else {
                0
            }
        }
    } else {
        0
    }
}

/// The claim set issued for a user at a given moment.
pub open spec fn claims_for(user_id: i32, exp: nat, iat: nat) -> ClaimsView {
    ClaimsView {
        jti: i32_dec_chars(user_id as int),
        sub: i32_dec_chars(user_id as int),
        aud: seq![audience_chars()],
        exp: exp,
        iat: iat,
        iss: issuer_chars(),
    }
}

/// The fixed audience and issuer names are plain JSON text.
pub proof fn lemma_constants_plain()
    ensures
        json_plain(audience_chars()),
        json_plain(issuer_chars()),
{
    reveal_strlit("api-service");
    reveal_strlit("auth-service");
}

impl Claims {
    /// Builds the claim set for a user: subject and token id are the decimal
    /// user id, audience and issuer are the service's fixed names.
    pub fn new(user_id: i32, exp: usize, iat: usize) -> (c: Claims)
        ensures
            c@ == claims_for(user_id, exp as nat, iat as nat),
            claims_wf(c@),
    {
        let sid = i32_to_string(user_id);
        let sid2 = sid.clone();
        let mut audv: Vec<String> = Vec::new();
        audv.push(String::from_str("api-service"));
        let c = Claims {
            jti: sid,
            sub: sid2,
            aud: audv,
            exp,
            iat,
            iss: String::from_str("auth-service"),
        };
        proof {
            lemma_constants_plain();
            assert(c@.aud =~= claims_for(user_id, exp as nat, iat as nat).aud);
            assert(c@ =~= claims_for(user_id, exp as nat, iat as nat));
        }
        c
    }

    /// The numeric user id carried in the subject claim; zero when the
    /// subject does not parse as a 32-bit integer.
    pub fn user_id(&self) -> (r: i32)
        ensures
            r as int == parse_i32_or_zero(self.sub@),
    {
        let s: &str = self.sub.as_str();
        let n = s.unicode_len();
        if n == 0 {
            return 0;
        }
        let c0 = s.get_char(0);
        let neg = c0 == '-';
        let signed = c0 == '-' || c0 == '+';
        let start: usize = if signed {
            1
        } else {
            0
        };
        let ghost t = if signed {
            s@.skip(1)
        } else {
            s@
        };
        proof {
            assert(t =~= s@.subrange(start as int, n as int));
        }
        if start == n {
            return 0;
        }
        let mut i: usize = start;
        let mut acc: u64 = 0;
        while i < n
            invariant
                start <= i <= n,
                n == s@.len(),
                s@ == self.sub@,
                signed == (s@.len() > 0 && (s@[0] == '-' || s@[0] == '+')),
                neg == (s@.len() > 0 && s@[0] == '-'),
                start == if signed { 1int } else { 0int },
                t == if signed { s@.skip(1) } else { s@ },
                t == s@.subrange(start as int, n as int),
                t.len() == n - start,
                forall|k: int| start <= k < i ==> digit_char(s@[k]),
                acc == crate::num::dec_val(ascii_of(s@.subrange(start as int, i as int))),
                acc <= 0x8000_0000,
            decreases n - i,
        {
            let c = s.get_char(i);
            let code = c as u32;
            if !(0x30 <= code && code <= 0x39) {
                proof {
                    assert(t[i - start] == s@[i as int]);
                    assert(!digit_char(t[i - start]));
                    assert(0 <= i - start < t.len());
                    assert(!all_digit_chars(t));
                    assert(parse_i32_or_zero(self.sub@) == 0);
                }
                return 0;
            }
            let d: u64 = (code - 0x30) as u64;
            proof {
                let pre = ascii_of(s@.subrange(start as int, i as int));
                let cur = ascii_of(s@.subrange(start as int, i + 1));
                assert(s@.subrange(start as int, i + 1).drop_last() =~= s@.subrange(
                    start as int,
                    i as int,
                ));
                assert(cur =~= pre.push(s@[i as int] as u8));
                assert(cur.drop_last() =~= pre);
                assert(cur.last() == (s@[i as int] as u8));
                assert((s@[i as int] as u8) - 0x30 == d);
            }
            acc = acc * 10 + d;
            i = i + 1;
            if acc > 0x8000_0000 {
                // far past the 32-bit range already; the rest cannot bring it back
                proof {
                    if all_digit_chars(t) {
                        assert forall|k: int| 0 <= k < t.len() implies crate::is_digit(
                            #[trigger] ascii_of(t)[k],
                        ) by {
                            assert(digit_char(t[k]));
                            crate::ascii::lemma_plain_char_byte(t[k]);
                            assert(ascii_of(t)[k] == (t[k] as u8));
                            assert(((t[k] as u8) as char) == t[k]);
                        }
                        assert(ascii_of(t).take(i - start) =~= ascii_of(
                            s@.subrange(start as int, i as int),
                        ));
                        crate::num::lemma_dec_val_prefix(ascii_of(t), i - start);
                    }
                }
                return 0;
            }
        }
        proof {
            assert(s@.subrange(start as int, n as int) =~= t);
            assert forall|k: int| 0 <= k < t.len() implies digit_char(t[k]) by {
                assert(t[k] == s@[k + start]);
            }
            assert(all_digit_chars(t));
            assert(acc == crate::num::dec_val(ascii_of(t)));
        }
        if neg {
            proof {
                assert(-(acc as int) >= i32::MIN);
            }
            (-(acc as i64)) as i32
        } else {
            if acc > 0x7fff_ffff {
                return 0;
            }
            acc as i32
        }
    }
}

/// The subject written for a user id parses back to exactly that id.
pub proof fn lemma_issued_subject_round_trip(user_id: i32)
    ensures
        parse_i32_or_zero(i32_dec_chars(user_id as int)) == user_id as int,
{
    let n = user_id as int;
    if n >= 0 {
        let s = i32_dec_chars(n);
        crate::num::lemma_dec_digits_are_digits(n as nat);
        crate::num::lemma_dec_val_of_dec_digits(n as nat);
        assert(i32_dec_bytes(n) == crate::num::dec_digits(n as nat));
        assert forall|i: int| 0 <= i < s.len() implies digit_char(s[i]) by {
            assert(s[i] == (crate::num::dec_digits(n as nat)[i] as char));
            assert(crate::is_digit(crate::num::dec_digits(n as nat)[i]));
        }
        assert(s.len() > 0);
        assert(!(s[0] == '-' || s[0] == '+')) by {
            assert(digit_char(s[0]));
        }
        assert(all_digit_chars(s));
        assert(ascii_of(s) =~= crate::num::dec_digits(n as nat)) by {
            assert forall|i: int| 0 <= i < s.len() implies ascii_of(s)[i]
                == crate::num::dec_digits(n as nat)[i] by {
                assert(crate::is_digit(crate::num::dec_digits(n as nat)[i]));
                assert(s[i] == (crate::num::dec_digits(n as nat)[i] as char));
            }
        }
        assert(crate::num::dec_val(ascii_of(s)) == n);
        assert(n <= i32::MAX);
    } else {
        let s = i32_dec_chars(n);
        let m = (-n) as nat;
        crate::num::lemma_dec_digits_are_digits(m);
        crate::num::lemma_dec_val_of_dec_digits(m);
        let bs = i32_dec_bytes(n);
        assert(bs == seq![0x2du8] + crate::num::dec_digits(m));
        assert(bs[0] == 0x2d);
        assert(s[0] == (0x2du8 as char));
        assert(s[0] == '-');
        let t = s.skip(1);
        assert(t.len() == crate::num::dec_digits(m).len());
        assert forall|i: int| 0 <= i < t.len() implies digit_char(t[i]) by {
            assert(t[i] == s[i + 1]);
            assert(s[i + 1] == (bs[i + 1] as char));
            assert(bs[i + 1] == crate::num::dec_digits(m)[i]);
            assert(crate::is_digit(crate::num::dec_digits(m)[i]));
        }
        assert(all_digit_chars(t));
        assert(t.len() > 0);
        assert(ascii_of(t) =~= crate::num::dec_digits(m)) by {
            assert forall|i: int| 0 <= i < t.len() implies ascii_of(t)[i]
                == crate::num::dec_digits(m)[i] by {
                assert(t[i] == (crate::num::dec_digits(m)[i] as char));
                assert(crate::is_digit(crate::num::dec_digits(m)[i]));
            }
        }
        assert(crate::num::dec_val(ascii_of(t)) == m);
        assert(-(m as int) >= i32::MIN);
        assert(parse_i32_or_zero(s) == -(m as int));
    }
}

/// The claim set issued for a user satisfies everything validation demands
/// short of timing: it is well formed, it names the fixed audience, and its
/// subject parses back to the user's id. Together with the issuance and
/// validation contracts this gives the round trip: a token issued for a user
/// and validated under the same secret before its expiration yields exactly
/// the issued claim set, whose subject is that user's id.
pub proof fn lemma_issued_claims_validate(user_id: i32, exp: nat, iat: nat)
    requires
        exp <= usize::MAX,
        iat <= usize::MAX,
    ensures
        claims_wf(claims_for(user_id, exp, iat)),
        claims_for(user_id, exp, iat).aud[0] == audience_chars(),
        claims_for(user_id, exp, iat).exp == exp,
        parse_i32_or_zero(claims_for(user_id, exp, iat).sub) == user_id as int,
{
    lemma_constants_plain();
    lemma_issued_subject_round_trip(user_id);
    let n = user_id as int;
    crate::num::lemma_i32_dec_bytes_plain(n);
    assert forall|i: int| 0 <= i < i32_dec_chars(n).len() implies crate::ascii::plain_char(
        #[trigger] i32_dec_chars(n)[i],
    ) by {
        assert(i32_dec_chars(n)[i] == (i32_dec_bytes(n)[i] as char));
        assert(crate::ascii::plain_byte(i32_dec_bytes(n)[i]));
        crate::ascii::lemma_plain_byte_char(i32_dec_bytes(n)[i]);
    }
}

} // verus!
