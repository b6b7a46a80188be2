//! Error taxonomy of the service surface.
//!
//! Each variant maps to one HTTP status code at the boundary; the
//! mapping itself is part of the contract.

use vstd::prelude::*;

verus! {

/// Errors surfaced by the service.  Variants carry the user-visible
/// message text.
#[derive(Debug)]
pub enum ApiError {
    /// Rejected input; maps to status 400.
    InvalidInput(String),
    /// Synthesis or model failure; maps to status 500.
    TtsError(String),
    /// Unexpected internal failure; maps to status 500.
    InternalError(String),
    /// Too many requests; maps to status 429.
    RateLimitExceeded,
    /// Unknown resource; maps to status 404.
    NotFound(String),
}

impl ApiError {
    /// The HTTP status code a boundary maps this error to.
    pub fn status_code(&self) -> (code: u16)
        ensures
            code == match self {
                ApiError::InvalidInput(_) => 400u16,
                ApiError::TtsError(_) => 500u16,
                ApiError::InternalError(_) => 500u16,
                ApiError::RateLimitExceeded => 429u16,
                ApiError::NotFound(_) => 404u16,
            },
    {
        match self {
            ApiError::InvalidInput(_) => 400,
            ApiError::TtsError(_) => 500,
            ApiError::InternalError(_) => 500,
            ApiError::RateLimitExceeded => 429,
            ApiError::NotFound(_) => 404,
        }
    }

    /// The user-visible message for this error.
    pub fn message(&self) -> (msg: String)
        ensures
            msg@ == match self {
                ApiError::InvalidInput(m) => m@,
                ApiError::TtsError(m) => "TTS error: "@ + m@,
                ApiError::InternalError(m) => m@,
                ApiError::RateLimitExceeded => "Rate limit exceeded"@,
                ApiError::NotFound(m) => m@,
            },
    {
        match self {
            ApiError::InvalidInput(m) => m.as_str().to_owned(),
            ApiError::TtsError(m) => {
                let mut out = String::from_str("TTS error: ");
                out.append(m.as_str());
                out
            },
            ApiError::InternalError(m) => m.as_str().to_owned(),
            ApiError::RateLimitExceeded => String::from_str("Rate limit exceeded"),
            ApiError::NotFound(m) => m.as_str().to_owned(),
        }
    }
}

} // verus!
