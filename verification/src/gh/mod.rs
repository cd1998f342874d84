//! The `/gh` route: what a request must look like, and how it is answered
//! from the cache or from upstream.

pub mod middleware;
pub mod guard;
pub mod extract;
pub mod fetch;
pub mod router;
