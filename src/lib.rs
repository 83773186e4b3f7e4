//! Token-based authentication with per-identity signing keys, and a small
//! voting ledger whose changes are gated by the role that a token carries.

pub mod auth;
pub mod codec;
pub mod ecdsa_api;
pub mod payload;
pub mod store;
pub mod token;
pub mod types;
