use vstd::prelude::*;

verus! {

/// Errors at the HTTP boundary.
#[derive(Debug, Clone, PartialEq)]
pub enum AppError {
    Internal(String),
    NotFound(String),
    BadRequest(String),
    Unauthorized(String),
}

impl AppError {
    /// The HTTP status code of the error.
    pub fn status_code(&self) -> (c: u16)
        ensures
            c == match self {
                AppError::Internal(_) => 500u16,
                AppError::NotFound(_) => 404u16,
                AppError::BadRequest(_) => 400u16,
                AppError::Unauthorized(_) => 401u16,
            },
    {
        match self {
            AppError::Internal(_) => 500,
            AppError::NotFound(_) => 404,
            AppError::BadRequest(_) => 400,
            AppError::Unauthorized(_) => 401,
        }
    }

    /// The error kind as sent to a client.
    pub fn error_type(&self) -> (t: &'static str)
        ensures
            t@ == match self {
                AppError::Internal(_) => "INTERNAL_SERVER_ERROR"@,
                AppError::NotFound(_) => "NOT_FOUND"@,
                AppError::BadRequest(_) => "BAD_REQUEST"@,
                AppError::Unauthorized(_) => "UNAUTHORIZED"@,
            },
    {
        match self {
            AppError::Internal(_) => "INTERNAL_SERVER_ERROR",
            AppError::NotFound(_) => "NOT_FOUND",
            AppError::BadRequest(_) => "BAD_REQUEST",
            AppError::Unauthorized(_) => "UNAUTHORIZED",
        }
    }

    /// The error as a sentence; an internal error hides its detail.
    pub fn message(&self) -> (m: String)
        ensures
            m@ == match self {
                AppError::Internal(_) => "Internal server error"@,
                AppError::NotFound(s) => "Not found: "@ + s@,
                AppError::BadRequest(s) => "Bad request: "@ + s@,
                AppError::Unauthorized(s) => "Unauthorized: "@ + s@,
            },
    {
        match self {
            AppError::Internal(_) => "Internal server error".to_owned(),
            AppError::NotFound(s) => vstd::string::StringExecFns::concat("Not found: ".to_owned(), s.as_str()),
            AppError::BadRequest(s) => vstd::string::StringExecFns::concat("Bad request: ".to_owned(), s.as_str()),
            AppError::Unauthorized(s) => vstd::string::StringExecFns::concat("Unauthorized: ".to_owned(), s.as_str()),
        }
    }
}

} // verus!
