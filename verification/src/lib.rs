//! Verified core of the request-join proxy: Internet Identity proof checking,
//! challenge bookkeeping, SEC1 key recovery, request/response framing and
//! configuration handling.
pub mod bytes;
pub mod sec1;
pub mod platform;
pub mod challenge;
pub mod config;
pub mod encoding;
pub mod crypto;
pub mod ic;
pub mod hash_tree;
pub mod text;
pub mod auth_error;
pub mod signature;
pub mod identity;
pub mod framing;
pub mod forwarding;
pub mod oauth;
pub mod flow;
pub mod cache;
