use vstd::prelude::*;

pub mod api;
pub mod base64url;
pub mod claims;
pub mod codec;
pub mod crypto;
pub mod gate;
pub mod laws;
pub mod payload;
pub mod strutil;
pub mod users;

pub use api::AppError;
pub use api::CreateUserRequest;
pub use api::ErrorResponse;
pub use api::LoginRequest;
pub use api::MessageResponse;
pub use api::RefreshTokenRequest;
pub use api::RegisterRequest;
pub use api::RequestId;
pub use claims::AuthError;
pub use claims::Claims;
pub use claims::TokenType;
pub use codec::AuthResponse;
pub use codec::TokenCodec;
pub use gate::authenticate;
pub use gate::authenticate_at;
pub use gate::extract_token_from_header;

verus! {

/// Lifetime of an access token, in seconds (15 minutes).
pub const ACCESS_TOKEN_SECONDS: i64 = 900;

/// Lifetime of a refresh token, in seconds (7 days).
pub const REFRESH_TOKEN_SECONDS: i64 = 604800;

} // verus!
