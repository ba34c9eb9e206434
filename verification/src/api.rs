//! Request and response shapes of the HTTP surface, and the
//! application-level error taxonomy with its status-code mapping.

use vstd::prelude::*;

verus! {

/// A login request body.
pub struct LoginRequest {
    pub email: String,
    pub password: String,
}

/// A registration request body.
pub struct RegisterRequest {
    pub username: String,
    pub email: String,
    pub password: String,
}

/// A token-refresh request body.
pub struct RefreshTokenRequest {
    pub refresh_token: String,
}

/// A plain message response body.
pub struct MessageResponse {
    pub message: String,
}

/// A request to create a user.
pub struct CreateUserRequest {
    pub name: String,
    pub email: String,
    pub role: Option<String>,
}

/// The identifier attached to each request for tracing.
#[derive(Debug, Clone)]
pub struct RequestId(pub String);

/// Application-level failures of the user routes.
#[derive(Debug)]
pub enum AppError {
    NotFound,
    InternalServerError,
    BadRequest(String),
    Unauthorized,
    Forbidden,
}

/// The body an error is serialised to.
#[derive(Debug)]
pub struct ErrorResponse {
    pub error: String,
    pub code: u16,
}

impl AppError {
    /// The HTTP status code of each error.
    pub fn status_code(&self) -> (r: u16)
        ensures
            r == self.spec_status_code(),
    {
        match self {
            AppError::NotFound => 404,
            AppError::InternalServerError => 500,
            AppError::BadRequest(_) => 400,
            AppError::Unauthorized => 401,
            AppError::Forbidden => 403,
        }
    }

    /// The status code, as a mathematical value.
    pub open spec fn spec_status_code(&self) -> u16 {
        match self {
            AppError::NotFound => 404,
            AppError::InternalServerError => 500,
            AppError::BadRequest(_) => 400,
            AppError::Unauthorized => 401,
            AppError::Forbidden => 403,
        }
    }

    /// The message each error is surfaced with; a bad request carries
    /// its own message.
    pub fn message(&self) -> (r: String)
        ensures
            r@ == self.spec_message(),
    {
        match self {
            AppError::NotFound => {
                let s = String::from_str("Resource not found");
                proof {
                    reveal_strlit("Resource not found");
                }
                s
            },
            AppError::InternalServerError => {
                let s = String::from_str("Internal server error");
                proof {
                    reveal_strlit("Internal server error");
                }
                s
            },
            AppError::BadRequest(msg) => msg.clone(),
            AppError::Unauthorized => {
                let s = String::from_str("Unauthorized");
                proof {
                    reveal_strlit("Unauthorized");
                }
                s
            },
            AppError::Forbidden => {
                let s = String::from_str("Forbidden");
                proof {
                    reveal_strlit("Forbidden");
                }
                s
            },
        }
    }

    /// The message, as a mathematical value.
    pub open spec fn spec_message(&self) -> Seq<char> {
        match self {
            AppError::NotFound => ("Resource not found")@,
            AppError::InternalServerError => ("Internal server error")@,
            AppError::BadRequest(msg) => msg@,
            AppError::Unauthorized => ("Unauthorized")@,
            AppError::Forbidden => ("Forbidden")@,
        }
    }

    /// The response body an error turns into: its message beside its
    /// status code.
    pub fn to_error_response(self) -> (r: ErrorResponse)
        ensures
            r.error@ == self.spec_message(),
            r.code == self.spec_status_code(),
    {
        let code = self.status_code();
        let error = self.message();
        ErrorResponse { error, code }
    }
}

} // verus!
