use auth_service::claims::{parse_claims, serialize_claims, Claims};

#[test]
fn new_claims_carry_the_fixed_names_and_times() {
    let c = Claims::new(42, 1300, 1000);
    assert_eq!(c.jti, "42");
    assert_eq!(c.sub, "42");
    assert_eq!(c.aud, vec!["api-service".to_string()]);
    assert_eq!(c.exp, 1300);
    assert_eq!(c.iat, 1000);
    assert_eq!(c.iss, "auth-service");
}

#[test]
fn negative_user_id_keeps_its_sign() {
    let c = Claims::new(-15, 20, 10);
    assert_eq!(c.sub, "-15");
    assert_eq!(c.user_id(), -15);
}

#[test]
fn subject_parsing_matches_standard_parse_semantics() {
    let with_sub = |s: &str| Claims {
        jti: "x".to_string(),
        sub: s.to_string(),
        aud: vec!["api-service".to_string()],
        exp: 2,
        iat: 1,
        iss: "auth-service".to_string(),
    };
    assert_eq!(with_sub("42").user_id(), 42);
    assert_eq!(with_sub("0").user_id(), 0);
    assert_eq!(with_sub("-7").user_id(), -7);
    assert_eq!(with_sub("+9").user_id(), 9);
    assert_eq!(with_sub("007").user_id(), 7);
    assert_eq!(with_sub("2147483647").user_id(), 2147483647);
    assert_eq!(with_sub("-2147483648").user_id(), -2147483648);
    // failures collapse to zero, as unwrap_or(0) would
    assert_eq!(with_sub("").user_id(), 0);
    assert_eq!(with_sub("-").user_id(), 0);
    assert_eq!(with_sub("12a").user_id(), 0);
    assert_eq!(with_sub(" 12").user_id(), 0);
    assert_eq!(with_sub("2147483648").user_id(), 0);
    assert_eq!(with_sub("-2147483649").user_id(), 0);
    assert_eq!(with_sub("99999999999999999999999").user_id(), 0);
}

#[test]
fn serialization_is_the_canonical_json_document() {
    let c = Claims::new(42, 1300, 1000);
    let bytes = serialize_claims(&c).expect("well-formed claims serialize");
    let text = String::from_utf8(bytes).expect("ascii");
    assert_eq!(
        text,
        "{\"jti\":\"42\",\"sub\":\"42\",\"aud\":[\"api-service\"],\"exp\":1300,\"iat\":1000,\"iss\":\"auth-service\"}"
    );
}

#[test]
fn parsing_inverts_serialization() {
    let c = Claims::new(-3, 999, 998);
    let bytes = serialize_claims(&c).expect("well-formed claims serialize");
    let back = parse_claims(&bytes).expect("canonical document parses");
    assert_eq!(back.jti, c.jti);
    assert_eq!(back.sub, c.sub);
    assert_eq!(back.aud, c.aud);
    assert_eq!(back.exp, c.exp);
    assert_eq!(back.iat, c.iat);
    assert_eq!(back.iss, c.iss);
}

#[test]
fn parsing_rejects_what_serialization_never_makes() {
    let reject = |s: &str| {
        let v = s.as_bytes().to_vec();
        assert!(parse_claims(&v).is_none(), "accepted: {}", s);
    };
    reject("");
    reject("{}");
    reject("{\"jti\":\"1\"}");
    // reordered fields are not the canonical form
    reject("{\"sub\":\"1\",\"jti\":\"1\",\"aud\":[\"a\"],\"exp\":2,\"iat\":1,\"iss\":\"x\"}");
    // leading zeros are not canonical
    reject("{\"jti\":\"1\",\"sub\":\"1\",\"aud\":[\"a\"],\"exp\":02,\"iat\":1,\"iss\":\"x\"}");
    // trailing bytes
    reject("{\"jti\":\"1\",\"sub\":\"1\",\"aud\":[\"a\"],\"exp\":2,\"iat\":1,\"iss\":\"x\"} ");
    // two audiences never come out of this service
    reject("{\"jti\":\"1\",\"sub\":\"1\",\"aud\":[\"a\",\"b\"],\"exp\":2,\"iat\":1,\"iss\":\"x\"}");
}

#[test]
fn serializer_requires_well_formed_claims() {
    let c = Claims {
        jti: "1".to_string(),
        sub: "1".to_string(),
        aud: vec![],
        exp: 2,
        iat: 1,
        iss: "auth-service".to_string(),
    };
    assert!(serialize_claims(&c).is_none());
    let c = Claims {
        jti: "back\\slash".to_string(),
        sub: "1".to_string(),
        aud: vec!["api-service".to_string()],
        exp: 2,
        iat: 1,
        iss: "auth-service".to_string(),
    };
    assert!(serialize_claims(&c).is_none());
}
