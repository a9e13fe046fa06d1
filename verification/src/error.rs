//! The library's error type and how each error is answered over HTTP.
use vstd::prelude::*;

verus! {

/// Everything that can go wrong while serving a request.
#[derive(Debug)]
pub enum AppError {
    /// The addressed conversation or message does not exist.
    NotFound(String),
    /// The request body breaks a validation rule.
    BadRequest(String),
    /// The request lacks the configured bearer token.
    Unauthorized,
    /// The store refused a write (a constraint failed).
    Database(String),
    /// The upstream model service failed.
    OpenRouter(String),
    /// Anything else.
    Internal(String),
}

/// `r` is the error `BadRequest` carrying the message `msg`.
pub open spec fn is_bad_request<T>(r: Result<T, AppError>, msg: Seq<char>) -> bool {
    r matches Err(AppError::BadRequest(m)) && m@ == msg
}

/// `r` is the error `NotFound` carrying the message `msg`.
pub open spec fn is_not_found<T>(r: Result<T, AppError>, msg: Seq<char>) -> bool {
    r matches Err(AppError::NotFound(m)) && m@ == msg
}

/// `r` is the error `Database` carrying the message `msg`.
pub open spec fn is_database_error<T>(r: Result<T, AppError>, msg: Seq<char>) -> bool {
    r matches Err(AppError::Database(m)) && m@ == msg
}

impl AppError {
    /// The HTTP status code this error is answered with.
    pub open spec fn spec_status(&self) -> u16 {
        match self {
            AppError::NotFound(_) => 404,
            AppError::BadRequest(_) => 400,
            AppError::Unauthorized => 401,
            AppError::Database(_) => 500,
            AppError::OpenRouter(_) => 502,
            AppError::Internal(_) => 500,
        }
    }

    /// The machine-readable code of the error body.
    pub open spec fn spec_code(&self) -> Seq<char> {
        match self {
            AppError::NotFound(_) => "NOT_FOUND"@,
            AppError::BadRequest(_) => "BAD_REQUEST"@,
            AppError::Unauthorized => "UNAUTHORIZED"@,
            AppError::Database(_) => "DATABASE_ERROR"@,
            AppError::OpenRouter(_) => "UPSTREAM_ERROR"@,
            AppError::Internal(_) => "INTERNAL_ERROR"@,
        }
    }

    /// The human-readable message of the error body: the detail of a client
    /// error, and a fixed sentence for server errors, whose detail stays in the log.
    pub open spec fn spec_public_message(&self) -> Seq<char> {
        match self {
            AppError::NotFound(m) => m@,
            AppError::BadRequest(m) => m@,
            AppError::Unauthorized => "Unauthorized"@,
            AppError::Database(_) => "A database error occurred"@,
            AppError::OpenRouter(_) => "Upstream model service error"@,
            AppError::Internal(_) => "An internal server error occurred"@,
        }
    }

    /// The HTTP status code this error is answered with.
    pub fn status(&self) -> (s: u16)
        ensures
            s == self.spec_status(),
    {
        match self {
            AppError::NotFound(_) => 404,
            AppError::BadRequest(_) => 400,
            AppError::Unauthorized => 401,
            AppError::Database(_) => 500,
            AppError::OpenRouter(_) => 502,
            AppError::Internal(_) => 500,
        }
    }

    /// The machine-readable code of the error body.
    pub fn code(&self) -> (c: &'static str)
        ensures
            c@ == self.spec_code(),
    {
        match self {
            AppError::NotFound(_) => "NOT_FOUND",
            AppError::BadRequest(_) => "BAD_REQUEST",
            AppError::Unauthorized => "UNAUTHORIZED",
            AppError::Database(_) => "DATABASE_ERROR",
            AppError::OpenRouter(_) => "UPSTREAM_ERROR",
            AppError::Internal(_) => "INTERNAL_ERROR",
        }
    }

    /// The human-readable message of the error body.
    pub fn public_message(&self) -> (m: String)
        ensures
            m@ == self.spec_public_message(),
    {
        match self {
            AppError::NotFound(m) => m.clone(),
            AppError::BadRequest(m) => m.clone(),
            AppError::Unauthorized => String::from_str("Unauthorized"),
            AppError::Database(_) => String::from_str("A database error occurred"),
            AppError::OpenRouter(_) => String::from_str("Upstream model service error"),
            AppError::Internal(_) => String::from_str("An internal server error occurred"),
        }
    }
}

} // verus!
