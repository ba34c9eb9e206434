use authcore::authenticate;
use authcore::authenticate_at;
use authcore::codec::TokenCodec;
use authcore::extract_token_from_header;
use authcore::AppError;
use authcore::AuthError;
use authcore::TokenType;

#[test]
fn extract_bearer_returns_the_token() {
    let r = extract_token_from_header(Some("Bearer abc123"));
    assert_eq!(r.unwrap(), "abc123");
}

#[test]
fn extract_bearer_rejects_other_schemes() {
    let r = extract_token_from_header(Some("Token abc123"));
    assert!(matches!(r, Err(AuthError::InvalidToken)));
}

#[test]
fn extract_bearer_rejects_missing_header() {
    let r = extract_token_from_header(None);
    assert!(matches!(r, Err(AuthError::MissingCredentials)));
}

#[test]
fn extract_bearer_keeps_the_rest_verbatim() {
    let r = extract_token_from_header(Some("Bearer   spaced "));
    assert_eq!(r.unwrap(), "  spaced ");
    let r = extract_token_from_header(Some("Bearer "));
    assert_eq!(r.unwrap(), "");
    let r = extract_token_from_header(Some("Bearer"));
    assert!(matches!(r, Err(AuthError::InvalidToken)));
}

#[test]
fn end_to_end_pair_then_authenticate() {
    let codec = TokenCodec::new("gate-secret".to_string());
    let pair = codec.create_tokens("u1", "user").unwrap();
    let header = format!("Bearer {}", pair.access_token);
    let claims = authenticate(&codec, Some(&header)).unwrap();
    assert_eq!(claims.sub, "u1");
    assert_eq!(claims.role, "user");
}

#[test]
fn authenticate_rejects_refresh_tokens() {
    let codec = TokenCodec::new("gate-secret".to_string());
    let pair = codec.create_tokens("u1", "user").unwrap();
    let header = format!("Bearer {}", pair.refresh_token);
    let r = authenticate(&codec, Some(&header));
    assert!(matches!(r, Err(AuthError::InvalidToken)));
}

#[test]
fn authenticate_propagates_extraction_failures() {
    let codec = TokenCodec::new("gate-secret".to_string());
    let r = authenticate_at(&codec, None, 0);
    assert!(matches!(r, Err(AuthError::MissingCredentials)));
    let r = authenticate_at(&codec, Some("Basic dXNlcg=="), 0);
    assert!(matches!(r, Err(AuthError::InvalidToken)));
}

#[test]
fn app_error_responses() {
    let r = AppError::NotFound.to_error_response();
    assert_eq!(r.code, 404);
    assert_eq!(r.error, "Resource not found");
    let r = AppError::BadRequest("Invalid email format".to_string()).to_error_response();
    assert_eq!(r.code, 400);
    assert_eq!(r.error, "Invalid email format");
    let r = AppError::Unauthorized.to_error_response();
    assert_eq!(r.code, 401);
    assert_eq!(r.error, "Unauthorized");
    let r = AppError::Forbidden.to_error_response();
    assert_eq!(r.code, 403);
    assert_eq!(r.error, "Forbidden");
    let r = AppError::InternalServerError.to_error_response();
    assert_eq!(r.code, 500);
    assert_eq!(r.error, "Internal server error");
}
