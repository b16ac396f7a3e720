//! A DNS forwarding proxy core: a TTL-bounded message cache, a token-bucket
//! rate limiter, an ordered middleware pipeline, an upstream resolver with
//! failover, and the per-request orchestration that binds them together.
//!
//! Everything here is plain computation over values the caller supplies.
//! Sockets, timers and task scheduling belong to the embedding program, which
//! feeds datagrams and upstream outcomes in and carries replies out.

pub mod addr;
pub mod cache;
pub mod clock;
pub mod config;
pub mod digest;
pub mod filter;
pub mod middleware;
pub mod resolver;
pub mod server;
pub mod text;
pub mod utils;
