//! `btdt` ("been there, done that") caches directories of a CI pipeline under
//! one or more keys and restores them by a preference-ordered list of keys.
//!
//! The crate holds the caching engine: storage paths and the in-memory
//! storage, the per-key meta record, the local cache with its eviction pass,
//! and the protocol rules of the HTTP client and server.

pub mod cache;
pub mod cli;
pub mod error;
pub mod pipeline;
pub mod server;
pub mod storage;
pub mod util;
