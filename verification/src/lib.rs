//! Decision logic of a caching proxy for raw repository files.
//!
//! The crate holds the rules of the proxy: how a request path names a
//! cache entry, how a request is answered from the cache or from upstream,
//! and what a sweep of the cache directory removes. Everything here works on
//! plain values; reading files, talking HTTP and waiting are left to the
//! program that drives these functions.

pub mod config;
pub mod error;
pub mod gh;
pub mod logger;
pub mod model;
pub mod sorting;
pub mod task;
pub mod util;
