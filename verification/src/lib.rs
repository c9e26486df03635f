//! Core library of the Glacis chain-of-custody system: caching, rate
//! limiting, metrics, key rotation, webhook retry, audit logging, request
//! tracing and bulk import, each with its behaviour stated as a contract.

pub mod audit;
pub mod cache;
pub mod clock;
pub mod dashboard;
pub mod ids;
pub mod import;
pub mod json;
pub mod keys;
pub mod metrics;
pub mod random;
pub mod rate_limit;
pub mod retry;
pub mod text;
pub mod tracing;
