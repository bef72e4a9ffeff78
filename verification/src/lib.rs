//! Verified core of a small file-upload HTTP service.
//!
//! The engineering-significant subsystem is the per-client request admission
//! controller: a token-bucket rate limiter that gates every inbound request
//! and self-cleans stale per-client state. This crate holds that logic —
//! bucket arithmetic, the keyed bucket store with lazy creation and
//! eviction, the admission decision, the error taxonomy and the upload
//! validation rules — with machine-checked contracts. HTTP framework
//! wiring, I/O and task scheduling live outside the library.

pub mod admission;
pub mod error;
pub mod limiter;
pub mod models;
pub mod quota;
pub mod rate_limit;
pub mod upload;

pub use crate::admission::AdmissionDecision;
pub use crate::error::AppError;
pub use crate::limiter::RateLimiter;
pub use crate::models::FileMetadata;
pub use crate::rate_limit::RateLimitConfig;
pub use crate::rate_limit::TokenBucket;
