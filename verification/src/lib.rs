//! A reverse proxy's decisions, verified: routing by prefix, bearer tokens, rate limits,
//! circuit breakers, readiness and metrics.
//!
//! The library decides; the process around it sends, receives, stores and logs.

use vstd::prelude::*;

pub mod auth;
pub mod auth_login;
pub mod circuit;
pub mod codec;
pub mod config;
pub mod keys;
pub mod metrics;
pub mod middleware;
pub mod middleware_auth;
pub mod mock_backends;
pub mod proxy;
pub mod ratelimit;
pub mod reply;
pub mod router;
pub mod table;
pub mod text;
pub mod time;

verus! {

/// Version of this crate.
pub const VERSION: &'static str = "1.0.0";

} // verus!
