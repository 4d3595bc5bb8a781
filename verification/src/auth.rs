use vstd::prelude::*;
use vstd::string::StringSliceAdditionalSpecFns;
use crate::claims::{Claims, User, audience_chars, claims_wf, claims_for};
use crate::claims::ser_claims;
use crate::jwt::{
    generate_jwt_at, validate_jwt_at, token_bytes, framed_token, signing_input, sig_of, b64_of,
    seg_wf, now_seconds, TOKEN_LIFETIME_SECS,
};

verus! {

/// Caller-visible failure categories of the login flow. Lookup failure and
/// password mismatch share one category, so a caller cannot probe which
/// usernames exist.
#[derive(Debug, PartialEq, Eq, Structural, Clone, Copy)]
pub enum LoginError {
    InvalidCredentials,
    DatabaseError,
    HashError,
    TokenError,
}

/// Caller-visible failure categories of the validate flow. Every failure of
/// the token itself is the one `InvalidToken`, so a caller cannot tell a bad
/// signature from an expired or misdirected token.
#[derive(Debug, PartialEq, Eq, Structural, Clone, Copy)]
pub enum ValidateError {
    MissingToken,
    InvalidHeader,
    InvalidFormat,
    InvalidToken,
}

/// What the credential store lookup yielded, as the caller hands it in.
pub enum LookupOutcome {
    Found(User),
    NotFound,
    StoreError,
}

/// What bcrypt::verify yields for a password and a stored hash: a match
/// verdict for a well-formed hash, nothing for a malformed one.
pub uninterp spec fn bcrypt_check(password: Seq<char>, hash: Seq<char>) -> Option<bool>;

/// Relies on bcrypt::verify: the outcome is a function of the password and
/// the stored hash alone; an error comes exactly from a hash the crate
/// cannot parse.
#[verifier::external_body]
fn bcrypt_verify(password: &str, hash: &str) -> (r: Option<bool>)
    ensures
        r == bcrypt_check(password@, hash@),
{
    match bcrypt::verify(password, hash) {
        Ok(b) => Some(b),
        Err(_) => None,
    }
}

/// The credential decision of the login flow: the user id when the user
/// exists and the password matches its stored hash, else the caller-visible
/// category. A missing user and a wrong password land in the same category.
pub open spec fn credential_decision(outcome: LookupOutcome, password: Seq<char>) -> Result<
    i32,
    LoginError,
> {
    match outcome {
        LookupOutcome::StoreError => Err(LoginError::DatabaseError),
        LookupOutcome::NotFound => Err(LoginError::InvalidCredentials),
        LookupOutcome::Found(u) => match bcrypt_check(password, u.password_hash@) {
            None => Err(LoginError::HashError),
            Some(false) => Err(LoginError::InvalidCredentials),
            Some(true) => Ok(u.id),
        },
    }
}

/// A caller learns the same category for a wrong password as for a username
/// that does not exist.
pub proof fn lemma_login_merges_failures(u: User, password: Seq<char>)
    requires
        bcrypt_check(password, u.password_hash@) == Some(false),
    ensures
        credential_decision(LookupOutcome::Found(u), password) == credential_decision(
            LookupOutcome::NotFound,
            password,
        ),
        credential_decision(LookupOutcome::Found(u), password) == Err::<i32, LoginError>(
            LoginError::InvalidCredentials,
        ),
{
}

/// The login flow after the store lookup, at a given moment: verify the
/// password, then issue a token for the user's id. Success is owed whenever
/// the credentials pass and the expiration fits the platform's integer size,
/// and the token is exactly the one issued for that id at that moment.
pub fn login_at(outcome: LookupOutcome, password: &str, secret: &str, now: usize) -> (r: Result<
    String,
    LoginError,
>)
    ensures
        credential_decision(outcome, password@) is Err ==> r is Err && r->Err_0
            == credential_decision(outcome, password@)->Err_0,
        r is Ok ==> credential_decision(outcome, password@) is Ok,
        (credential_decision(outcome, password@) is Ok && now + TOKEN_LIFETIME_SECS
            <= usize::MAX) ==> r is Ok,
        (credential_decision(outcome, password@) is Ok && r is Err) ==> r->Err_0
            == LoginError::TokenError && now + TOKEN_LIFETIME_SECS > usize::MAX,
        (credential_decision(outcome, password@) is Ok && r is Ok) ==> now
            + TOKEN_LIFETIME_SECS <= usize::MAX && vstd::utf8::is_ascii_chars(r->Ok_0@)
            && vstd::utf8::encode_utf8(r->Ok_0@)
            == token_bytes(
            claims_for(
                credential_decision(outcome, password@)->Ok_0,
                (now + TOKEN_LIFETIME_SECS) as nat,
                now as nat,
            ),
            secret.spec_bytes(),
        ) && seg_wf(
            b64_of(
                ser_claims(
                    claims_for(
                        credential_decision(outcome, password@)->Ok_0,
                        (now + TOKEN_LIFETIME_SECS) as nat,
                        now as nat,
                    ),
                ),
            ),
        ) && seg_wf(b64_of(crate::jwt::header_json())),
{
    let user = match outcome {
        LookupOutcome::StoreError => {
            return Err(LoginError::DatabaseError);
        },
        LookupOutcome::NotFound => {
            return Err(LoginError::InvalidCredentials);
        },
        LookupOutcome::Found(u) => u,
    };
    let matched = match bcrypt_verify(password, user.password_hash.as_str()) {
        Some(b) => b,
        None => {
            return Err(LoginError::HashError);
        },
    };
    if !matched {
        return Err(LoginError::InvalidCredentials);
    }
    match generate_jwt_at(user.id, secret, now) {
        Ok(t) => Ok(t),
        Err(_) => Err(LoginError::TokenError),
    }
}

/// The login flow at the current wall-clock time.
pub fn login(outcome: LookupOutcome, password: &str, secret: &str) -> (r: Result<
    String,
    LoginError,
>)
    ensures
        credential_decision(outcome, password@) is Err ==> r is Err && r->Err_0
            == credential_decision(outcome, password@)->Err_0,
        r is Ok ==> credential_decision(outcome, password@) is Ok,
        (credential_decision(outcome, password@) is Ok && r is Err) ==> r->Err_0
            == LoginError::TokenError,
        (credential_decision(outcome, password@) is Ok && r is Ok)
            ==> vstd::utf8::is_ascii_chars(r->Ok_0@) && seg_wf(b64_of(crate::jwt::header_json()))
            && exists|iat: nat|
            iat + TOKEN_LIFETIME_SECS <= usize::MAX && vstd::utf8::encode_utf8(r->Ok_0@)
                == token_bytes(
                #[trigger] claims_for(
                    credential_decision(outcome, password@)->Ok_0,
                    (iat + TOKEN_LIFETIME_SECS) as nat,
                    iat,
                ),
                secret.spec_bytes(),
            ) && seg_wf(
                b64_of(
                    ser_claims(
                        claims_for(
                            credential_decision(outcome, password@)->Ok_0,
                            (iat + TOKEN_LIFETIME_SECS) as nat,
                            iat,
                        ),
                    ),
                ),
            ),
{
    let now = now_seconds();
    let r = login_at(outcome, password, secret, now);
    proof {
        if credential_decision(outcome, password@) is Ok && r is Ok {
            let uid = credential_decision(outcome, password@)->Ok_0;
            assert((now as nat) + TOKEN_LIFETIME_SECS <= usize::MAX && vstd::utf8::encode_utf8(
                r->Ok_0@,
            ) == token_bytes(
                claims_for(uid, ((now as nat) + TOKEN_LIFETIME_SECS) as nat, now as nat),
                secret.spec_bytes(),
            ) && seg_wf(
                b64_of(
                    ser_claims(
                        claims_for(uid, ((now as nat) + TOKEN_LIFETIME_SECS) as nat, now as nat),
                    ),
                ),
            ));
        }
    }
    r
}

/// The bearer credential presentation, as the transport hands it in.
pub enum AuthHeader {
    Missing,
    Unreadable,
    Value(String),
}

/// The presentation carries the bearer scheme marker.
pub open spec fn bearer_shaped(h: Seq<char>) -> bool {
    h.len() >= 7 && h.subrange(0, 7) == "Bearer "@
}

/// The token text inside a well-shaped presentation.
pub open spec fn bearer_token(h: Seq<char>) -> Seq<char> {
    h.skip(7)
}

/// The validate flow: find the bearer token in the presentation, then check
/// it. Shape failures are reported before any cryptographic work, each under
/// its own category; every failure of the token itself is `InvalidToken`.
pub fn validate_request(header: &AuthHeader, secret: &str, now: usize) -> (r: Result<
    Claims,
    ValidateError,
>)
    ensures
        header is Missing <==> r == Err::<Claims, ValidateError>(ValidateError::MissingToken),
        header is Unreadable <==> r == Err::<Claims, ValidateError>(ValidateError::InvalidHeader),
        (header matches AuthHeader::Value(h) && !bearer_shaped(h@)) <==> r == Err::<
            Claims,
            ValidateError,
        >(ValidateError::InvalidFormat),
        header matches AuthHeader::Value(h) && bearer_shaped(h@) && r is Err ==> r == Err::<
            Claims,
            ValidateError,
        >(ValidateError::InvalidToken),
        r matches Ok(c) ==> header matches AuthHeader::Value(h) && bearer_shaped(h@)
            && claims_wf(c@) && (now as nat) < c@.exp && c@.aud[0] == audience_chars()
            && vstd::utf8::encode_utf8(bearer_token(h@)) == token_bytes(c@, secret.spec_bytes())
            && seg_wf(b64_of(ser_claims(c@))),
        forall|cv: crate::claims::ClaimsView, sfx: Seq<u8>|
            (header matches AuthHeader::Value(h) && bearer_shaped(h@) && claims_wf(cv) && seg_wf(
                b64_of(ser_claims(cv)),
            ) && vstd::utf8::encode_utf8(bearer_token(h@)) == #[trigger] framed_token(
                signing_input(cv),
                sfx,
            ) && r is Ok) ==> r->Ok_0@ == cv && sfx == sig_of(
                signing_input(cv),
                secret.spec_bytes(),
            ),
        forall|cv: crate::claims::ClaimsView|
            (header matches AuthHeader::Value(h) && bearer_shaped(h@) && claims_wf(cv)
                && cv.aud[0] == audience_chars() && (now as nat) < cv.exp && seg_wf(
                b64_of(ser_claims(cv)),
            ) && vstd::utf8::encode_utf8(bearer_token(h@)) == #[trigger] token_bytes(
                cv,
                secret.spec_bytes(),
            )) ==> (r matches Ok(c) && c@ == cv),
{
    let h = match header {
        AuthHeader::Missing => {
            return Err(ValidateError::MissingToken);
        },
        AuthHeader::Unreadable => {
            return Err(ValidateError::InvalidHeader);
        },
        AuthHeader::Value(h) => h,
    };
    let hs: &str = h.as_str();
    let n = hs.unicode_len();
    if n < 7 {
        return Err(ValidateError::InvalidFormat);
    }
    let b = hs.get_char(0) == 'B' && hs.get_char(1) == 'e' && hs.get_char(2) == 'a' && hs.get_char(
        3,
    ) == 'r' && hs.get_char(4) == 'e' && hs.get_char(5) == 'r' && hs.get_char(6) == ' ';
    proof {
        reveal_strlit("Bearer ");
        let lit = "Bearer "@;
        assert(lit.len() == 7);
        assert(lit[0] == 'B' && lit[1] == 'e' && lit[2] == 'a' && lit[3] == 'r' && lit[4] == 'e'
            && lit[5] == 'r' && lit[6] == ' ');
        if b {
            assert(hs@.subrange(0, 7) =~= lit);
            assert(bearer_shaped(h@));
        } else {
            if bearer_shaped(h@) {
                let sr = hs@.subrange(0, 7);
                assert(sr == lit);
                assert(hs@[0] == sr[0] && hs@[1] == sr[1] && hs@[2] == sr[2] && hs@[3] == sr[3]
                    && hs@[4] == sr[4] && hs@[5] == sr[5] && hs@[6] == sr[6]);
                assert(b);
            }
        }
    }
    if !b {
        return Err(ValidateError::InvalidFormat);
    }
    let tok = hs.substring_char(7, n);
    proof {
        assert(tok@ == bearer_token(h@));
    }
    match validate_jwt_at(tok, secret, now) {
        Ok(c) => Ok(c),
        Err(_) => Err(ValidateError::InvalidToken),
    }
}

} // verus!
