//! The error taxonomy of the service.
//!
//! `RateLimitExceeded` is the only error the admission core produces; the
//! remaining variants belong to the upload validator and its collaborators.
//! Each variant maps to one HTTP status code and one user-visible message,
//! and both mappings are pinned down here.

use vstd::prelude::*;

verus! {

#[derive(Debug)]
pub enum AppError {
    Authentication(String),
    Authorization(String),
    ValidationError(String),
    StorageError(String),
    RateLimitExceeded,
}

impl AppError {
    /// The HTTP status code each error surfaces with.
    pub open spec fn spec_status_code(self) -> u16 {
        match self {
            AppError::ValidationError(_) => 400,
            AppError::StorageError(_) => 500,
            AppError::Authentication(_) => 401,
            AppError::Authorization(_) => 403,
            AppError::RateLimitExceeded => 429,
        }
    }

    /// The user-visible message carried in the JSON error body.
    pub open spec fn spec_message(self) -> Seq<char> {
        match self {
            AppError::Authentication(m) => m@,
            AppError::Authorization(m) => m@,
            AppError::ValidationError(m) => m@,
            AppError::StorageError(m) => m@,
            AppError::RateLimitExceeded => "Rate limit exceeded"@,
        }
    }

    pub fn status_code(&self) -> (s: u16)
        ensures
            s == self.spec_status_code(),
    {
        match self {
            AppError::ValidationError(_) => 400,
            AppError::StorageError(_) => 500,
            AppError::Authentication(_) => 401,
            AppError::Authorization(_) => 403,
            AppError::RateLimitExceeded => 429,
        }
    }

    pub fn message(&self) -> (m: String)
        ensures
            m@ == self.spec_message(),
    {
        match self {
            AppError::Authentication(m) => m.clone(),
            AppError::Authorization(m) => m.clone(),
            AppError::ValidationError(m) => m.clone(),
            AppError::StorageError(m) => m.clone(),
            AppError::RateLimitExceeded => "Rate limit exceeded".to_owned(),
        }
    }
}

} // verus!
