use auth_service::auth::{login, login_at, validate_request, AuthHeader, LoginError, ValidateError};
use auth_service::claims::User;
use auth_service::auth::LookupOutcome;
use auth_service::jwt::now_seconds;

fn alice(hash: &str) -> User {
    User {
        id: 7,
        username: "alice".to_string(),
        password_hash: hash.to_string(),
    }
}

#[test]
fn login_scenario_for_alice() {
    let secret = "scenario-secret";
    let hash = bcrypt::hash("correct-password", 4).expect("hashing works");

    // right password: a token comes back
    let token = login(
        LookupOutcome::Found(alice(&hash)),
        "correct-password",
        secret,
    )
    .expect("login succeeds");

    // wrong password and unknown user: the same category
    let wrong = login(LookupOutcome::Found(alice(&hash)), "wrong", secret);
    assert_eq!(wrong.unwrap_err(), LoginError::InvalidCredentials);
    let nobody = login(LookupOutcome::NotFound, "anything", secret);
    assert_eq!(nobody.unwrap_err(), LoginError::InvalidCredentials);

    // the issued token validates at once and names alice's id
    let header = AuthHeader::Value(format!("Bearer {}", token));
    let claims = validate_request(&header, secret, now_seconds()).expect("token validates");
    assert_eq!(claims.user_id(), 7);

    // a token with one signature byte flipped is rejected
    let mut bytes = token.into_bytes();
    let last = bytes.len() - 1;
    bytes[last] = if bytes[last] == b'A' { b'B' } else { b'A' };
    let tampered = String::from_utf8(bytes).expect("still ascii");
    let header = AuthHeader::Value(format!("Bearer {}", tampered));
    let res = validate_request(&header, secret, now_seconds());
    assert_eq!(res.unwrap_err(), ValidateError::InvalidToken);
}

#[test]
fn store_failure_maps_to_database_error() {
    let r = login(LookupOutcome::StoreError, "pw", "secret");
    assert_eq!(r.unwrap_err(), LoginError::DatabaseError);
}

#[test]
fn malformed_stored_hash_maps_to_hash_error() {
    let user = alice("not-a-bcrypt-hash");
    let r = login(LookupOutcome::Found(user), "pw", "secret");
    assert_eq!(r.unwrap_err(), LoginError::HashError);
}

#[test]
fn issuance_failure_is_token_error() {
    // expiration would overflow the platform integer: the one issuance failure
    let hash = bcrypt::hash("pw", 4).expect("hashing works");
    let token = auth_service::jwt::generate_jwt_at(1, "s", usize::MAX - 10);
    assert!(token.is_err());
    let _ = hash;
}

#[test]
fn malformed_bearer_presentations_fail_before_any_crypto() {
    let secret = "bearer-secret";
    let now = 1000;

    let r = validate_request(&AuthHeader::Missing, secret, now);
    assert_eq!(r.unwrap_err(), ValidateError::MissingToken);

    let r = validate_request(&AuthHeader::Unreadable, secret, now);
    assert_eq!(r.unwrap_err(), ValidateError::InvalidHeader);

    let r = validate_request(&AuthHeader::Value("Token abc".to_string()), secret, now);
    assert_eq!(r.unwrap_err(), ValidateError::InvalidFormat);

    let r = validate_request(&AuthHeader::Value("Bear".to_string()), secret, now);
    assert_eq!(r.unwrap_err(), ValidateError::InvalidFormat);

    let r = validate_request(&AuthHeader::Value("bearer abc".to_string()), secret, now);
    assert_eq!(r.unwrap_err(), ValidateError::InvalidFormat);

    let r = validate_request(&AuthHeader::Value("Bearer not.a.token".to_string()), secret, now);
    assert_eq!(r.unwrap_err(), ValidateError::InvalidToken);
}

#[test]
fn bcrypt_verdict_drives_the_decision() {
    // the same stored hash accepts exactly the password it was made from
    let hash = bcrypt::hash("only-this-one", 4).expect("hashing works");
    let secret = "bcrypt-secret";
    assert!(login(LookupOutcome::Found(alice(&hash)), "only-this-one", secret).is_ok());
    assert!(login(LookupOutcome::Found(alice(&hash)), "only-this-one ", secret).is_err());
    assert!(login(LookupOutcome::Found(alice(&hash)), "", secret).is_err());
}

#[test]
fn login_at_owes_success_on_good_credentials() {
    let hash = bcrypt::hash("correct-password", 4).expect("hashing works");
    let secret = "owed-secret";
    let token = login_at(
        LookupOutcome::Found(alice(&hash)),
        "correct-password",
        secret,
        1000,
    )
    .expect("success is owed when the expiration fits");
    // the token is exactly the one issued at second 1000: valid before 1300
    let claims = auth_service::jwt::validate_jwt_at(&token, secret, 1200).expect("validates");
    assert_eq!(claims.user_id(), 7);
    assert_eq!(claims.iat, 1000);
    assert_eq!(claims.exp, 1300);
    assert!(auth_service::jwt::validate_jwt_at(&token, secret, 1300).is_err());
}

#[test]
fn login_at_fails_only_when_expiration_cannot_fit() {
    let hash = bcrypt::hash("pw", 4).expect("hashing works");
    let r = login_at(LookupOutcome::Found(alice(&hash)), "pw", "s", usize::MAX - 10);
    assert_eq!(r.unwrap_err(), LoginError::TokenError);
    let r = login_at(LookupOutcome::NotFound, "pw", "s", usize::MAX - 10);
    assert_eq!(r.unwrap_err(), LoginError::InvalidCredentials);
}
