use authcore::codec::TokenCodec;
use authcore::AuthError;
use authcore::TokenType;

fn codec() -> TokenCodec {
    TokenCodec::new("a-test-secret-key".to_string())
}

#[test]
fn issue_then_verify_roundtrip() {
    let c = codec();
    let token = c.generate_token("alice", "admin", TokenType::Access).unwrap();
    let claims = c.validate_token(&token, Some(TokenType::Access)).unwrap();
    assert_eq!(claims.sub, "alice");
    assert_eq!(claims.role, "admin");
    assert_eq!(claims.token_type, "access");
    assert_eq!(claims.exp, claims.iat + 900);
}

#[test]
fn roundtrip_with_awkward_subject() {
    let c = codec();
    let sub = "u\"x\\y,\u{00e9}\u{6f22}:{}";
    let role = "r\\\"ole";
    let token = c.generate_token(sub, role, TokenType::Access).unwrap();
    let claims = c.validate_token(&token, Some(TokenType::Access)).unwrap();
    assert_eq!(claims.sub, sub);
    assert_eq!(claims.role, role);
}

#[test]
fn fresh_token_is_not_expired() {
    let c = codec();
    let token = c.generate_token("bob", "user", TokenType::Access).unwrap();
    let r = c.validate_token(&token, Some(TokenType::Access));
    assert!(!matches!(r, Err(AuthError::Expired)));
    assert!(r.is_ok());
    let refresh = c.generate_token("bob", "user", TokenType::Refresh).unwrap();
    let r = c.validate_token(&refresh, Some(TokenType::Refresh));
    assert!(!matches!(r, Err(AuthError::Expired)));
    assert!(r.is_ok());
}

#[test]
fn refresh_token_rejected_as_access() {
    let c = codec();
    let token = c.generate_token("alice", "admin", TokenType::Refresh).unwrap();
    let r = c.validate_token(&token, Some(TokenType::Access));
    assert!(matches!(r, Err(AuthError::InvalidToken)));
}

#[test]
fn access_token_rejected_as_refresh() {
    let c = codec();
    let token = c.generate_token("alice", "admin", TokenType::Access).unwrap();
    let r = c.validate_token(&token, Some(TokenType::Refresh));
    assert!(matches!(r, Err(AuthError::InvalidToken)));
}

#[test]
fn expired_token_reported_expired() {
    let c = codec();
    // issued at the epoch; checked long after its fifteen minutes
    let token = c.issue_at("alice", "admin", TokenType::Access, 0);
    let r = c.verify_at(&token, 901, Some(TokenType::Access));
    assert!(matches!(r, Err(AuthError::Expired)));
    // the boundary itself is still valid
    let r = c.verify_at(&token, 900, Some(TokenType::Access));
    assert!(r.is_ok());
}

#[test]
fn expired_wins_over_bad_signature() {
    let c = codec();
    let token = c.issue_at("alice", "admin", TokenType::Access, 0);
    let mut tampered: String = token.clone();
    let last = tampered.pop().unwrap();
    tampered.push(if last == 'A' { 'B' } else { 'A' });
    let r = c.verify_at(&tampered, 1_000_000, Some(TokenType::Access));
    assert!(matches!(r, Err(AuthError::Expired)));
}

#[test]
fn tampered_signature_rejected() {
    let c = codec();
    let token = c.generate_token("alice", "admin", TokenType::Access).unwrap();
    let dot = token.rfind('.').unwrap();
    let (head, sig) = token.split_at(dot + 1);
    // flip every character of the signature segment in turn
    for i in 0..sig.len() {
        let mut s: Vec<char> = sig.chars().collect();
        s[i] = if s[i] == 'A' { 'B' } else { 'A' };
        let tampered: String = head.chars().chain(s.into_iter()).collect();
        let r = c.validate_token(&tampered, Some(TokenType::Access));
        assert!(matches!(r, Err(AuthError::InvalidToken)));
    }
}

#[test]
fn verification_is_bound_to_the_secret() {
    let c1 = TokenCodec::new("secret-one".to_string());
    let c2 = TokenCodec::new("secret-two".to_string());
    let token = c1.generate_token("alice", "admin", TokenType::Access).unwrap();
    assert!(c1.validate_token(&token, Some(TokenType::Access)).is_ok());
    let r = c2.validate_token(&token, Some(TokenType::Access));
    assert!(matches!(r, Err(AuthError::InvalidToken)));
}

#[test]
fn header_segment_is_standard() {
    let c = codec();
    let token = c.issue_at("alice", "admin", TokenType::Access, 1_700_000_000);
    let head = token.split('.').next().unwrap();
    assert_eq!(head, "eyJhbGciOiJIUzI1NiIsInR5cCI6IkpXVCJ9");
}

#[test]
fn garbage_tokens_are_invalid() {
    let c = codec();
    for bad in [
        "",
        "abc",
        "a.b",
        "a.b.c.d",
        "!!!.???.###",
        "eyJhbGciOiJIUzI1NiIsInR5cCI6IkpXVCJ9..x",
    ] {
        let r = c.validate_token(bad, Some(TokenType::Access));
        assert!(matches!(r, Err(AuthError::InvalidToken)), "{bad}");
    }
}

#[test]
fn create_tokens_returns_a_bearer_pair() {
    let c = codec();
    let pair = c.create_tokens("u1", "user").unwrap();
    assert_eq!(pair.token_type, "Bearer");
    assert_eq!(pair.expires_in, 900);
    let a = c.validate_token(&pair.access_token, Some(TokenType::Access)).unwrap();
    assert_eq!(a.sub, "u1");
    assert_eq!(a.role, "user");
    let r = c.validate_token(&pair.refresh_token, Some(TokenType::Refresh)).unwrap();
    assert_eq!(r.sub, "u1");
    assert_eq!(r.token_type, "refresh");
}

#[test]
fn refresh_flow_mints_a_new_pair() {
    let c = codec();
    let pair = c.create_tokens("u1", "user").unwrap();
    let claims = c.validate_token(&pair.refresh_token, Some(TokenType::Refresh)).unwrap();
    let fresh = c.create_tokens(&claims.sub, &claims.role).unwrap();
    let a = c.validate_token(&fresh.access_token, Some(TokenType::Access)).unwrap();
    assert_eq!(a.sub, "u1");
}

#[test]
fn token_type_names() {
    assert_eq!(TokenType::Access.name(), "access");
    assert_eq!(TokenType::Refresh.name(), "refresh");
}

#[test]
fn auth_error_status_codes() {
    assert_eq!(AuthError::WrongCredentials.status_code(), 401);
    assert_eq!(AuthError::MissingCredentials.status_code(), 400);
    assert_eq!(AuthError::TokenCreation.status_code(), 500);
    assert_eq!(AuthError::InvalidToken.status_code(), 401);
    assert_eq!(AuthError::Expired.status_code(), 401);
}
