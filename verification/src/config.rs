//! Server configuration.
//!
//! Plain configuration values with their defaults; reading the
//! environment happens outside the library and fills this struct.

use vstd::prelude::*;

verus! {

/// Configuration of the HTTP server and its collaborators.
#[derive(Debug, Clone)]
pub struct ServerConfig {
    pub port: u16,
    pub rate_limit_per_minute: u32,
    pub llm_timeout_secs: u64,
    pub request_timeout_secs: u64,
    pub cors_allowed_origins: Option<Vec<String>>,
}

impl Default for ServerConfig {
    /// The stock configuration: port 8085, 60 requests per minute,
    /// 120 s LLM timeout, 60 s request timeout, permissive CORS.
    fn default() -> (c: ServerConfig)
        ensures
            c.port == 8085,
            c.rate_limit_per_minute == 60,
            c.llm_timeout_secs == 120,
            c.request_timeout_secs == 60,
            c.cors_allowed_origins is None,
    {
        ServerConfig {
            port: 8085,
            rate_limit_per_minute: 60,
            llm_timeout_secs: 120,
            request_timeout_secs: 60,
            cors_allowed_origins: None,
        }
    }
}

/// Relies on core::time::Duration::from_secs: a duration of the
/// given whole seconds.  `Duration` is opaque here, so nothing more
/// is stated of the result.
#[verifier::external_body]
fn duration_from_secs(secs: u64) -> core::time::Duration {
    core::time::Duration::from_secs(secs)
}

impl ServerConfig {
    /// The per-request timeout, `request_timeout_secs` as a
    /// `Duration`.
    pub fn request_timeout(&self) -> core::time::Duration {
        duration_from_secs(self.request_timeout_secs)
    }

    /// The LLM call timeout, `llm_timeout_secs` as a `Duration`.
    pub fn llm_timeout(&self) -> core::time::Duration {
        duration_from_secs(self.llm_timeout_secs)
    }
}

} // verus!
