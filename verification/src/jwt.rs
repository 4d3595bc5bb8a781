use vstd::prelude::*;
use vstd::string::StringSliceAdditionalSpecFns;
use crate::ascii::{bytes_eq, string_from_ascii};
use crate::claims::{
    Claims, ClaimsView, claims_wf, ser_claims, serialize_claims, parse_claims, audience_chars,
    claims_for,
};

verus! {

/// A failure while producing or checking a token. Deliberately opaque: the
/// caller never learns whether the structure, the signature, the expiration
/// or the audience was at fault.
#[derive(Debug, PartialEq, Eq, Structural, Clone, Copy)]
pub enum JwtError {
    Invalid,
}

/// How long an issued token stays valid, in seconds.
pub const TOKEN_LIFETIME_SECS: usize = 300;

/// What base64's URL_SAFE_NO_PAD engine returns for the given bytes.
pub uninterp spec fn b64_of(bytes: Seq<u8>) -> Seq<u8>;

/// What jsonwebtoken's HMAC-SHA256 signer returns: the base64url text of the
/// tag over the message, keyed by the secret.
pub uninterp spec fn sig_of(message: Seq<u8>, secret: Seq<u8>) -> Seq<u8>;

/// A byte of the base64url alphabet.
pub open spec fn b64_byte(b: u8) -> bool {
    (0x41 <= b && b <= 0x5a) || (0x61 <= b && b <= 0x7a) || (0x30 <= b && b <= 0x39) || b == 0x2d
        || b == 0x5f
}

/// Text that stays within the base64url alphabet; in particular it holds no
/// dot and is ASCII.
pub open spec fn seg_wf(s: Seq<u8>) -> bool {
    forall|i: int| 0 <= i < s.len() ==> b64_byte(#[trigger] s[i])
}

/// Relies on base64's URL_SAFE_NO_PAD engine: the encoding is a function of
/// the input bytes alone, and the output stays within the base64url alphabet.
#[verifier::external_body]
fn b64url_encode(input: &Vec<u8>) -> (r: Vec<u8>)
    ensures
        r@ == b64_of(input@),
        seg_wf(r@),
{
    base64::Engine::encode(&base64::engine::general_purpose::URL_SAFE_NO_PAD, input).into_bytes()
}

/// Relies on base64's URL_SAFE_NO_PAD engine: decoding accepts exactly the
/// canonical encodings (it refuses padding, nonzero trailing bits and any
/// byte outside the base64url alphabet) and inverts encoding.
#[verifier::external_body]
fn b64url_decode(input: &Vec<u8>) -> (r: Option<Vec<u8>>)
    ensures
        r is Some ==> input@ == b64_of(r->Some_0@),
        r is Some ==> seg_wf(input@),
        forall|w: Seq<u8>| input@ == b64_of(w) ==> r is Some && r->Some_0@ == w,
{
    match base64::Engine::decode(&base64::engine::general_purpose::URL_SAFE_NO_PAD, input) {
        Ok(w) => Some(w),
        Err(_) => None,
    }
}

/// Relies on jsonwebtoken::crypto::sign with HS256: the tag is a function of
/// message and key alone, its text stays within the base64url alphabet, and
/// signing with an HMAC secret key does not fail. The crate dispatches
/// through a process-global CryptoProvider; with only the rust_crypto
/// feature enabled and nothing installing another provider (nothing here
/// does), that is the RustCrypto HMAC backend.
#[verifier::external_body]
fn sign_hs256(message: &Vec<u8>, secret: &Vec<u8>) -> (r: Result<Vec<u8>, JwtError>)
    ensures
        r matches Ok(s) ==> s@ == sig_of(message@, secret@) && seg_wf(s@),
        r is Ok,
{
    let key = jsonwebtoken::EncodingKey::from_secret(secret.as_slice());
    match jsonwebtoken::crypto::sign(message.as_slice(), &key, jsonwebtoken::Algorithm::HS256) {
        Ok(s) => Ok(s.into_bytes()),
        Err(_) => Err(JwtError::Invalid),
    }
}

/// Relies on jsonwebtoken::crypto::verify with HS256: it base64url-decodes
/// the signature text canonically (so exactly one text passes for a given
/// tag), recomputes the tag for the message under the key, and compares.
/// Hence it accepts precisely the text that sign returns. It dispatches
/// through the same process-global CryptoProvider as sign.
#[verifier::external_body]
fn verify_hs256(sig: &Vec<u8>, message: &Vec<u8>, secret: &Vec<u8>) -> (r: bool)
    ensures
        r == (sig@ == sig_of(message@, secret@)),
{
    let sig_str = match std::str::from_utf8(sig.as_slice()) {
        Ok(s) => s,
        Err(_) => return false,
    };
    let key = jsonwebtoken::DecodingKey::from_secret(secret.as_slice());
    match jsonwebtoken::crypto::verify(sig_str, message.as_slice(), &key, jsonwebtoken::Algorithm::HS256) {
        Ok(b) => b,
        Err(_) => false,
    }
}

/// Relies on std's SystemTime for the seconds since the UNIX epoch; nothing
/// is assumed of the value.
#[verifier::external_body]
pub fn now_seconds() -> (r: usize)
{
    match std::time::SystemTime::now().duration_since(std::time::UNIX_EPOCH) {
        Ok(d) => d.as_secs() as usize,
        Err(_) => 0,
    }
}

// The fixed token header {"typ":"JWT","alg":"HS256"}, as bytes.
pub open spec fn header_json() -> Seq<u8> {
    seq![0x7bu8, 0x22, 0x74, 0x79, 0x70, 0x22, 0x3a, 0x22, 0x4a, 0x57, 0x54, 0x22, 0x2c, 0x22,
        0x61, 0x6c, 0x67, 0x22, 0x3a, 0x22, 0x48, 0x53, 0x32, 0x35, 0x36, 0x22, 0x7d]
}

fn header_json_vec() -> (r: Vec<u8>)
    ensures
        r@ == header_json(),
{
    let v = vec![0x7bu8, 0x22, 0x74, 0x79, 0x70, 0x22, 0x3a, 0x22, 0x4a, 0x57, 0x54, 0x22, 0x2c,
        0x22, 0x61, 0x6c, 0x67, 0x22, 0x3a, 0x22, 0x48, 0x53, 0x32, 0x35, 0x36, 0x22, 0x7d];
    proof {
        assert(v@ =~= header_json());
    }
    v
}

/// The part of a token that is signed: header segment, dot, claims segment.
pub open spec fn signing_input(cv: ClaimsView) -> Seq<u8> {
    b64_of(header_json()) + seq![0x2eu8] + b64_of(ser_claims(cv))
}

/// A signed part followed by a dot and a signature part.
pub open spec fn framed_token(si: Seq<u8>, sfx: Seq<u8>) -> Seq<u8> {
    si + seq![0x2eu8] + sfx
}

/// The whole compact token for a claim set under a secret.
pub open spec fn token_bytes(cv: ClaimsView, secret: Seq<u8>) -> Seq<u8> {
    framed_token(signing_input(cv), sig_of(signing_input(cv), secret))
}

fn copy_range(v: &Vec<u8>, a: usize, b: usize) -> (r: Vec<u8>)
    requires
        a <= b && b <= v@.len(),
    ensures
        r@ == v@.subrange(a as int, b as int),
{
    let mut out: Vec<u8> = Vec::new();
    let mut j: usize = a;
    while j < b
        invariant
            a <= j <= b <= v@.len(),
            out@ == v@.subrange(a as int, j as int),
        decreases b - j,
    {
        out.push(v[j]);
        proof {
            assert(out@ =~= v@.subrange(a as int, j + 1));
        }
        j = j + 1;
    }
    out
}

/// Signs an arbitrary well-formed claim set into a compact token. Fails
/// exactly when the claim set is not well formed.
pub fn sign_claims(claims: &Claims, secret: &str) -> (r: Result<String, JwtError>)
    ensures
        r matches Ok(t) ==> claims_wf(claims@) && vstd::utf8::is_ascii_chars(t@)
            && vstd::utf8::encode_utf8(t@) == token_bytes(claims@, secret.spec_bytes())
            && seg_wf(b64_of(ser_claims(claims@))) && seg_wf(b64_of(header_json())),
        r is Err <==> !claims_wf(claims@),
{
    let json = match serialize_claims(claims) {
        Some(j) => j,
        None => {
            return Err(JwtError::Invalid);
        },
    };
    let header = header_json_vec();
    let hseg = b64url_encode(&header);
    let cseg = b64url_encode(&json);
    let mut msg = hseg;
    msg.push(0x2e);
    let cslice = cseg.as_slice();
    msg.extend_from_slice(cslice);
    let sb = secret.as_bytes_vec();
    let sig = match sign_hs256(&msg, &sb) {
        Ok(s) => s,
        Err(e) => {
            return Err(e);
        },
    };
    proof {
        assert(msg@ =~= signing_input(claims@));
    }
    let mut tok = msg;
    tok.push(0x2e);
    tok.extend_from_slice(sig.as_slice());
    proof {
        assert(tok@ =~= token_bytes(claims@, secret.spec_bytes()));
        assert forall|i: int| 0 <= i < tok@.len() implies tok@[i] < 0x80 by {
            let si = signing_input(claims@);
            if i < si.len() {
                if i < b64_of(header_json()).len() {
                    assert(b64_byte(si[i]));
                } else if i == b64_of(header_json()).len() {
                    assert(si[i] == 0x2e);
                } else {
                    assert(b64_byte(si[i]));
                }
                assert(tok@[i] == si[i]);
            } else if i == si.len() {
                assert(tok@[i] == 0x2e);
            } else {
                assert(tok@[i] == sig@[i - si.len() - 1]);
                assert(b64_byte(sig@[i - si.len() - 1]));
            }
        }
    }
    let ghost tokb = tok@;
    let t = string_from_ascii(tok);
    proof {
        crate::ascii::lemma_ascii_encode_utf8(t@, tokb);
    }
    Ok(t)
}

/// Issues a token for a user: subject is the user id, expiration is the
/// issue moment plus the fixed lifetime. Fails only when the expiration
/// would not fit the platform's integer size.
pub fn generate_jwt_at(user_id: i32, secret: &str, now: usize) -> (r: Result<String, JwtError>)
    ensures
        r matches Ok(t) ==> now + TOKEN_LIFETIME_SECS <= usize::MAX
            && vstd::utf8::is_ascii_chars(t@) && vstd::utf8::encode_utf8(t@) == token_bytes(
            claims_for(user_id, (now + TOKEN_LIFETIME_SECS) as nat, now as nat),
            secret.spec_bytes(),
        ) && seg_wf(
            b64_of(ser_claims(claims_for(user_id, (now + TOKEN_LIFETIME_SECS) as nat, now as nat))),
        ) && seg_wf(b64_of(header_json())),
        r is Err <==> now + TOKEN_LIFETIME_SECS > usize::MAX,
{
    let exp = match now.checked_add(TOKEN_LIFETIME_SECS) {
        Some(e) => e,
        None => {
            return Err(JwtError::Invalid);
        },
    };
    let c = Claims::new(user_id, exp, now);
    sign_claims(&c, secret)
}

/// Issues a token for a user at the current wall-clock time.
pub fn generate_jwt(user_id: i32, secret: &str) -> (r: Result<String, JwtError>)
    ensures
        r matches Ok(t) ==> vstd::utf8::is_ascii_chars(t@) && seg_wf(b64_of(header_json()))
            && exists|iat: nat|
            iat + TOKEN_LIFETIME_SECS <= usize::MAX && vstd::utf8::encode_utf8(t@)
                == token_bytes(
                #[trigger] claims_for(user_id, (iat + TOKEN_LIFETIME_SECS) as nat, iat),
                secret.spec_bytes(),
            ) && seg_wf(
                b64_of(ser_claims(claims_for(user_id, (iat + TOKEN_LIFETIME_SECS) as nat, iat))),
            ),
{
    let now = now_seconds();
    let r = generate_jwt_at(user_id, secret, now);
    proof {
        if r is Ok {
            assert((now as nat) + TOKEN_LIFETIME_SECS <= usize::MAX && vstd::utf8::encode_utf8(
                r->Ok_0@,
            ) == token_bytes(
                claims_for(user_id, ((now as nat) + TOKEN_LIFETIME_SECS) as nat, now as nat),
                secret.spec_bytes(),
            ) && seg_wf(
                b64_of(
                    ser_claims(
                        claims_for(user_id, ((now as nat) + TOKEN_LIFETIME_SECS) as nat, now as nat),
                    ),
                ),
            ));
        }
    }
    r
}

/// Checks a compact token under a secret at a given moment: structure,
/// signature, expiration, audience. On success the embedded claim set comes
/// back; any failure is the one opaque error.
#[verifier::rlimit(100)]
pub fn validate_jwt_at(token: &str, secret: &str, now: usize) -> (r: Result<Claims, JwtError>)
    ensures
        r matches Ok(c) ==> claims_wf(c@) && (now as nat) < c@.exp && c@.aud[0]
            == audience_chars() && token.spec_bytes() == token_bytes(c@, secret.spec_bytes())
            && seg_wf(b64_of(ser_claims(c@))),
        forall|cv: ClaimsView, sfx: Seq<u8>|
            (claims_wf(cv) && seg_wf(b64_of(ser_claims(cv))) && token.spec_bytes()
                == #[trigger] framed_token(signing_input(cv), sfx) && r is Ok) ==> r->Ok_0@ == cv
                && sfx == sig_of(signing_input(cv), secret.spec_bytes()),
        forall|cv: ClaimsView|
            (claims_wf(cv) && cv.aud[0] == audience_chars() && (now as nat) < cv.exp && seg_wf(
                b64_of(ser_claims(cv)),
            ) && token.spec_bytes() == token_bytes(cv, secret.spec_bytes())) ==> (r matches Ok(c)
                && c@ == cv),
{
    let v = token.as_bytes_vec();
    let sb = secret.as_bytes_vec();
    let header = header_json_vec();
    let hseg = b64url_encode(&header);
    let n = v.len();
    let mut d1: usize = 0;
    while d1 < n && v[d1] != 0x2e
        invariant
            0 <= d1 <= n,
            n == v@.len(),
            forall|k: int| 0 <= k < d1 ==> v@[k] != 0x2e,
        decreases n - d1,
    {
        d1 = d1 + 1;
    }
    let mut d2: usize = if d1 < n {
        d1 + 1
    } else {
        n
    };
    while d2 < n && v[d2] != 0x2e
        invariant
            d1 <= d2 <= n || d2 == n,
            d2 <= n,
            n == v@.len(),
            d1 < n ==> d1 + 1 <= d2,
            forall|k: int| d1 < k < d2 ==> v@[k] != 0x2e,
        decreases n - d2,
    {
        d2 = d2 + 1;
    }
    proof {
        assert forall|cv: ClaimsView, sfx: Seq<u8>|
            (claims_wf(cv) && seg_wf(b64_of(ser_claims(cv))) && v@ == #[trigger] framed_token(
                signing_input(cv),
                sfx,
            )) implies (d1 == b64_of(header_json()).len() && d1 < n && v@[d1 as int] == 0x2e && d2
            == d1 + 1 + b64_of(ser_claims(cv)).len() && d2 < n && v@[d2 as int] == 0x2e
            && v@.subrange(0, d1 as int) == b64_of(header_json()) && v@.subrange(d1 + 1, d2 as int)
            == b64_of(ser_claims(cv)) && v@.subrange(d2 + 1, n as int) == sfx && v@.subrange(
            0,
            d2 as int,
        ) == signing_input(cv)) by {
            let a = b64_of(header_json());
            let b = b64_of(ser_claims(cv));
            let si = signing_input(cv);
            let sg = sfx;
            assert(v@.len() == a.len() + 1 + b.len() + 1 + sg.len());
            assert forall|k: int| 0 <= k < a.len() implies v@[k] != 0x2e by {
                assert(v@[k] == a[k]);
                assert(b64_byte(a[k]));
            }
            assert(v@[a.len() as int] == 0x2e);
            assert(d1 == a.len()) by {
                if d1 < a.len() {
                    assert(d1 < n);
                    assert(v@[d1 as int] == 0x2e || !(d1 < n && v@[d1 as int] != 0x2e));
                    assert(v@[d1 as int] != 0x2e);
                    assert(false);
                }
                if d1 > a.len() {
                    assert(v@[a.len() as int] != 0x2e);
                    assert(false);
                }
            }
            assert forall|k: int| d1 < k < d1 + 1 + b.len() implies v@[k] != 0x2e by {
                assert(v@[k] == b[k - d1 - 1]);
                assert(b64_byte(b[k - d1 - 1]));
            }
            assert(v@[d1 + 1 + b.len()] == 0x2e);
            assert(d2 == d1 + 1 + b.len()) by {
                if d2 < d1 + 1 + b.len() {
                    assert(d2 < n);
                    assert(v@[d2 as int] != 0x2e);
                    assert(false);
                }
                if d2 > d1 + 1 + b.len() {
                    assert(v@[d1 + 1 + b.len()] != 0x2e);
                    assert(false);
                }
            }
            assert(v@.subrange(0, d1 as int) =~= a);
            assert(v@.subrange(d1 + 1, d2 as int) =~= b);
            assert(v@.subrange(d2 + 1, n as int) =~= sg);
            assert(v@.subrange(0, d2 as int) =~= si);
        }
    }
    if d1 >= n || d2 >= n {
        return Err(JwtError::Invalid);
    }
    let hpart = copy_range(&v, 0, d1);
    if !bytes_eq(&hpart, &hseg) {
        return Err(JwtError::Invalid);
    }
    let cpart = copy_range(&v, d1 + 1, d2);
    let spart = copy_range(&v, d2 + 1, n);
    let json = match b64url_decode(&cpart) {
        Some(j) => j,
        None => {
            return Err(JwtError::Invalid);
        },
    };
    let c = match parse_claims(&json) {
        Some(c) => c,
        None => {
            return Err(JwtError::Invalid);
        },
    };
    let msg = copy_range(&v, 0, d2);
    if !verify_hs256(&spart, &msg, &sb) {
        return Err(JwtError::Invalid);
    }
    if now >= c.exp {
        return Err(JwtError::Invalid);
    }
    if c.aud.len() != 1 {
        return Err(JwtError::Invalid);
    }
    let expected = String::from_str("api-service");
    if !(c.aud[0] == expected) {
        proof {
            assert(c.aud@[0]@ != audience_chars());
            assert(c@.aud[0] != audience_chars());
        }
        return Err(JwtError::Invalid);
    }
    proof {
        assert(c@.aud[0] == audience_chars());
        assert(msg@ == v@.subrange(0, d2 as int));
        assert(cpart@ == b64_of(json@));
        assert(json@ == ser_claims(c@));
        assert(hpart@ == b64_of(header_json()));
        assert(msg@ =~= hpart@ + seq![0x2eu8] + cpart@);
        assert(msg@ == signing_input(c@));
        assert(spart@ == sig_of(msg@, sb@));
        assert(v@ =~= framed_token(signing_input(c@), spart@));
        assert(token.spec_bytes() == token_bytes(c@, secret.spec_bytes()));
        assert(seg_wf(b64_of(ser_claims(c@))));
        assert forall|cv: ClaimsView, sfx: Seq<u8>|
            (claims_wf(cv) && seg_wf(b64_of(ser_claims(cv))) && token.spec_bytes()
                == #[trigger] framed_token(signing_input(cv), sfx)) implies (c@ == cv && sfx
            == sig_of(signing_input(cv), secret.spec_bytes())) by {
            assert(v@.subrange(d1 + 1, d2 as int) == b64_of(ser_claims(cv)));
            assert(cpart@ == b64_of(ser_claims(cv)));
            assert(json@ == ser_claims(cv));
            assert(c@ == cv);
            assert(sfx == v@.subrange(d2 + 1, n as int));
            assert(sfx == spart@);
            assert(msg@ == v@.subrange(0, d2 as int));
            assert(msg@ == signing_input(cv));
        }
    }
    Ok(c)
}

/// Checks a compact token under a secret at the current wall-clock time.
pub fn validate_jwt(token: &str, secret: &str) -> (r: Result<Claims, JwtError>)
    ensures
        r matches Ok(c) ==> claims_wf(c@) && c@.aud[0] == audience_chars()
            && token.spec_bytes() == token_bytes(c@, secret.spec_bytes()) && seg_wf(
            b64_of(ser_claims(c@)),
        ),
        forall|cv: ClaimsView, sfx: Seq<u8>|
            (claims_wf(cv) && seg_wf(b64_of(ser_claims(cv))) && token.spec_bytes()
                == #[trigger] framed_token(signing_input(cv), sfx) && r is Ok) ==> r->Ok_0@ == cv
                && sfx == sig_of(signing_input(cv), secret.spec_bytes()),
{
    let now = now_seconds();
    validate_jwt_at(token, secret, now)
}

} // verus!
