use ctfdb::htb::JWTClaims;
use ctfdb::jwt::parse_jwt;
use ctfdb::jwt_still_valid;

#[test]
fn test_jwt_validity() {
    let now = chrono::Local::now().timestamp();
    let tomorrow = now + 24 * 60 * 60;
    let yesterday = now - 24 * 60 * 60;

    let jwt = JWTClaims { exp: tomorrow };
    assert!(jwt_still_valid(&jwt, now));

    let jwt = JWTClaims { exp: yesterday };
    assert!(!jwt_still_valid(&jwt, now));
}

#[test]
fn test_jwt_validity_boundaries() {
    let expiry: i64 = 1620903714;
    assert!(jwt_still_valid(&JWTClaims { exp: expiry }, expiry - 1));
    assert!(!jwt_still_valid(&JWTClaims { exp: expiry }, expiry));
    assert!(!jwt_still_valid(&JWTClaims { exp: expiry }, expiry + 1));
}

#[test]
fn test_parse_jwt_reads_expiry() {
    let header = base64::encode(r#"{"alg":"HS256","typ":"JWT"}"#);
    let payload = base64::encode(r#"{"sub":"1234567890","exp":1620903714}"#);
    let token = format!("{}.{}.signature", header, payload);
    let claims = parse_jwt(&token).expect("expected claims");
    assert_eq!(claims.exp, 1620903714);
}

#[test]
fn test_parse_jwt_whitespace_and_order() {
    let payload = base64::encode(r#"{ "exp" : 42 , "sub" : "x" }"#);
    let token = format!("h.{}", payload);
    let claims = parse_jwt(&token).expect("expected claims");
    assert_eq!(claims.exp, 42);
}

#[test]
fn test_parse_jwt_key_shaped_string_value() {
    // a string *value* spelt like the key must not end the claim scan
    let payload = base64::encode(r#"{"x":"exp","exp":7}"#);
    let token = format!("h.{}.s", payload);
    let claims = parse_jwt(&token).expect("expected claims");
    assert_eq!(claims.exp, 7);

    // the same with whitespace around the decoy and the real field
    let payload = base64::encode(r#"{ "note" : "exp" , "exp" : 1620903714 }"#);
    let token = format!("h.{}.s", payload);
    let claims = parse_jwt(&token).expect("expected claims");
    assert_eq!(claims.exp, 1620903714);

    // a decoy alone, with no expiry field at all, still yields nothing
    let payload = base64::encode(r#"{"x":"exp"}"#);
    let token = format!("h.{}.s", payload);
    assert!(parse_jwt(&token).is_none());
}

#[test]
fn test_parse_jwt_scan_is_whole_payload() {
    // the scan is documented as position-based over the whole payload:
    // a nested object's expiry field, standing first, is the one read
    let payload = base64::encode(r#"{"a":{"exp":1},"exp":2}"#);
    let token = format!("h.{}.s", payload);
    let claims = parse_jwt(&token).expect("expected claims");
    assert_eq!(claims.exp, 1);
}

#[test]
fn test_parse_jwt_rejects_bad_tokens() {
    assert!(parse_jwt("no dots here").is_none());
    assert!(parse_jwt("a.!!!not-base64!!!.c").is_none());
    let payload = base64::encode(r#"{"sub":"nobody"}"#);
    let token = format!("h.{}.s", payload);
    assert!(parse_jwt(&token).is_none());
    let overflow = base64::encode(r#"{"exp":99999999999999999999999999}"#);
    let token = format!("h.{}.s", overflow);
    assert!(parse_jwt(&token).is_none());
}
