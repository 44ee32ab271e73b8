use kmuxd::auth::{generate_token, hex_encode, validate_token};

#[test]
fn token_is_64_hex_chars() {
    let token = generate_token();
    assert_eq!(token.len(), 64);
    assert!(token.chars().all(|c| c.is_ascii_hexdigit()));
}

#[test]
fn validate_correct() {
    let t = generate_token();
    assert!(validate_token(&t, &t));
}

#[test]
fn validate_wrong() {
    let t = generate_token();
    let wrong = generate_token();
    // Two random tokens are astronomically unlikely to match
    assert!(!validate_token(&t, &wrong));
}

#[test]
fn validate_different_lengths() {
    assert!(!validate_token("short", "longer-token"));
}

#[test]
fn validate_compares_every_byte() {
    assert!(validate_token("", ""));
    assert!(!validate_token("tokem", "token"));
    assert!(!validate_token("Token", "token"));
    assert!(validate_token("t\u{f6}k\u{20ac}n", "t\u{f6}k\u{20ac}n"));
}

#[test]
fn hex_encode_writes_two_lower_case_digits_per_byte() {
    assert_eq!(hex_encode(&[0x00, 0x0f, 0xa0, 0xff]), "000fa0ff");
    assert_eq!(hex_encode(&[]), "");
}
