use auth_service::claims::Claims;
use auth_service::jwt::{generate_jwt, generate_jwt_at, sign_claims, validate_jwt, validate_jwt_at};

#[test]
fn issued_token_round_trips_for_user_42() {
    let secret = "round-trip-secret";
    let token = generate_jwt(42, secret).expect("issuance succeeds");
    let claims = validate_jwt(&token, secret).expect("fresh token validates");
    assert_eq!(claims.user_id(), 42);
    assert_eq!(claims.sub, "42");
    assert_eq!(claims.jti, "42");
    assert_eq!(claims.iss, "auth-service");
    assert_eq!(claims.aud, vec!["api-service".to_string()]);
}

#[test]
fn expired_token_fails_regardless_of_signature() {
    let secret = "expiry-secret";
    let token = generate_jwt_at(1, secret, 1000).expect("issuance succeeds");
    // lifetime is 300 s: valid at 1100, expired at 1300 and after
    assert!(validate_jwt_at(&token, secret, 1100).is_ok());
    assert!(validate_jwt_at(&token, secret, 1300).is_err());
    assert!(validate_jwt_at(&token, secret, 2000).is_err());
}

#[test]
fn token_rejected_at_exact_expiration_moment() {
    let secret = "edge-secret";
    let token = generate_jwt_at(9, secret, 5000).expect("issuance succeeds");
    assert!(validate_jwt_at(&token, secret, 5299).is_ok());
    assert!(validate_jwt_at(&token, secret, 5300).is_err());
}

#[test]
fn token_signed_with_secret_a_fails_under_secret_b() {
    let token = generate_jwt_at(5, "secret-a", 1000).expect("issuance succeeds");
    assert!(validate_jwt_at(&token, "secret-a", 1100).is_ok());
    assert!(validate_jwt_at(&token, "secret-b", 1100).is_err());
}

#[test]
fn wrong_audience_fails_even_with_good_signature_and_time() {
    let secret = "audience-secret";
    let good = Claims::new(7, 1300, 1000);
    let good_token = sign_claims(&good, secret).expect("well-formed claims sign");
    assert!(validate_jwt_at(&good_token, secret, 1100).is_ok());

    let bad = Claims {
        jti: "7".to_string(),
        sub: "7".to_string(),
        aud: vec!["other-service".to_string()],
        exp: 1300,
        iat: 1000,
        iss: "auth-service".to_string(),
    };
    let bad_token = sign_claims(&bad, secret).expect("well-formed claims sign");
    assert!(validate_jwt_at(&bad_token, secret, 1100).is_err());
}

#[test]
fn flipped_signature_byte_invalidates_token() {
    let secret = "tamper-secret";
    let token = generate_jwt_at(3, secret, 1000).expect("issuance succeeds");
    let mut bytes = token.clone().into_bytes();
    let last = bytes.len() - 1;
    bytes[last] = if bytes[last] == b'A' { b'B' } else { b'A' };
    let tampered = String::from_utf8(bytes).expect("still ascii");
    assert!(validate_jwt_at(&token, secret, 1100).is_ok());
    assert!(validate_jwt_at(&tampered, secret, 1100).is_err());
}

#[test]
fn token_has_three_segments_and_the_fixed_header() {
    let secret = "shape-secret";
    let token = generate_jwt_at(11, secret, 1000).expect("issuance succeeds");
    let parts: Vec<&str> = token.split('.').collect();
    assert_eq!(parts.len(), 3);
    // base64url of {"typ":"JWT","alg":"HS256"}
    assert_eq!(parts[0], "eyJ0eXAiOiJKV1QiLCJhbGciOiJIUzI1NiJ9");
    assert!(!parts[1].is_empty());
    assert!(!parts[2].is_empty());
}

#[test]
fn garbage_tokens_are_rejected() {
    let secret = "garbage-secret";
    assert!(validate_jwt_at("", secret, 0).is_err());
    assert!(validate_jwt_at("not-a-token", secret, 0).is_err());
    assert!(validate_jwt_at("a.b", secret, 0).is_err());
    assert!(validate_jwt_at("a.b.c", secret, 0).is_err());
    assert!(validate_jwt_at("..", secret, 0).is_err());
}

#[test]
fn malformed_claims_do_not_sign() {
    let secret = "wf-secret";
    let two_audiences = Claims {
        jti: "1".to_string(),
        sub: "1".to_string(),
        aud: vec!["a".to_string(), "b".to_string()],
        exp: 20,
        iat: 10,
        iss: "auth-service".to_string(),
    };
    assert!(sign_claims(&two_audiences, secret).is_err());
    let quoted_subject = Claims {
        jti: "1".to_string(),
        sub: "1\"".to_string(),
        aud: vec!["api-service".to_string()],
        exp: 20,
        iat: 10,
        iss: "auth-service".to_string(),
    };
    assert!(sign_claims(&quoted_subject, secret).is_err());
}
