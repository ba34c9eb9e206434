use vstd::prelude::*;

use crate::payload::ClaimsView;

verus! {

/// The two kinds of token the codec issues.
#[derive(Clone, Copy, Debug, PartialEq, Eq, Structural)]
pub enum TokenType {
    Access,
    Refresh,
}

/// Errors of the token codec and the authentication gate.
#[derive(Clone, Copy, Debug, PartialEq, Eq, Structural)]
pub enum AuthError {
    WrongCredentials,
    MissingCredentials,
    TokenCreation,
    InvalidToken,
    Expired,
}

impl TokenType {
    /// The wire name of the kind, as it appears in the `token_type` claim.
    pub open spec fn spec_name(self) -> Seq<char> {
        match self {
            TokenType::Access => seq!['a', 'c', 'c', 'e', 's', 's'],
            TokenType::Refresh => seq!['r', 'e', 'f', 'r', 'e', 's', 'h'],
        }
    }

    /// The wire name of the kind: `"access"` or `"refresh"`.
    pub fn name(&self) -> (r: String)
        ensures
            r@ == self.spec_name(),
    {
        match self {
            TokenType::Access => {
                let s = String::from_str("access");
                proof {
                    reveal_strlit("access");
                    assert(s@ =~= self.spec_name());
                }
                s
            },
            TokenType::Refresh => {
                let s = String::from_str("refresh");
                proof {
                    reveal_strlit("refresh");
                    assert(s@ =~= self.spec_name());
                }
                s
            },
        }
    }
}

/// The identity a verified token yields: what the payload carries.
#[derive(Debug)]
pub struct Claims {
    pub sub: String,
    pub role: String,
    pub exp: i64,
    pub iat: i64,
    pub token_type: String,
}

impl View for Claims {
    type V = ClaimsView;

    open spec fn view(&self) -> ClaimsView {
        ClaimsView {
            sub: self.sub@,
            role: self.role@,
            exp: self.exp as int,
            iat: self.iat as int,
            token_type: self.token_type@,
        }
    }
}

impl AuthError {
    /// The HTTP status code each error is surfaced as.
    pub fn status_code(&self) -> (r: u16)
        ensures
            *self == AuthError::WrongCredentials ==> r == 401,
            *self == AuthError::MissingCredentials ==> r == 400,
            *self == AuthError::TokenCreation ==> r == 500,
            *self == AuthError::InvalidToken ==> r == 401,
            *self == AuthError::Expired ==> r == 401,
    {
        match self {
            AuthError::WrongCredentials => 401,
            AuthError::MissingCredentials => 400,
            AuthError::TokenCreation => 500,
            AuthError::InvalidToken => 401,
            AuthError::Expired => 401,
        }
    }
}

} // verus!
