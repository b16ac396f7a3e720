//! The settings the proxy is started with.

use vstd::prelude::*;
use crate::addr::SocketAddress;

verus! {

/// Everything the proxy is configured with.
#[derive(Debug, Clone)]
pub struct Config {
    pub server: ServerConfig,
    pub upstreams: Vec<UpstreamConfig>,
    pub cache: CacheConfig,
    pub filters: FilterConfig,
    pub middleware: MiddlewareConfig,
}

/// The client-facing listener.
#[derive(Debug, Clone)]
pub struct ServerConfig {
    pub listen_addr: SocketAddress,
    pub tcp_enabled: bool,
    pub udp_enabled: bool,
    /// Per-request timeout, in seconds.
    pub timeout: u64,
}

/// One upstream server the proxy may delegate a query to.
#[derive(Debug, Clone)]
pub struct UpstreamConfig {
    pub name: String,
    pub addr: SocketAddress,
    pub protocol: Protocol,
    pub priority: u32,
    /// Per-attempt timeout, in seconds.
    pub timeout: u64,
}

/// The wire protocol used to reach an upstream.
#[derive(Debug, Clone, Copy, PartialEq, Eq, Structural)]
pub enum Protocol {
    UDP,
    TCP,
    /// DNS over TLS.
    DoT,
    /// DNS over HTTPS.
    DoH,
}

/// The message cache.
#[derive(Debug, Clone, Copy)]
pub struct CacheConfig {
    pub enabled: bool,
    pub max_size: usize,
    /// Shortest time to live of an entry, in seconds.
    pub ttl_min: u64,
    /// Longest time to live of an entry, in seconds.
    pub ttl_max: u64,
}

/// The domain filter.
#[derive(Debug, Clone)]
pub struct FilterConfig {
    pub blocklist_enabled: bool,
    pub blocklist_files: Vec<String>,
    pub allowlist_enabled: bool,
    pub allowlist_domains: Vec<String>,
}

/// Which middleware stages run.
#[derive(Debug, Clone, Copy)]
pub struct MiddlewareConfig {
    pub logging_enabled: bool,
    pub metrics_enabled: bool,
    pub rate_limiting: RateLimitConfig,
}

/// The token bucket every client address gets.
#[derive(Debug, Clone, Copy)]
pub struct RateLimitConfig {
    pub enabled: bool,
    pub requests_per_second: u32,
    pub burst_size: u32,
}

impl UpstreamConfig {
    /// An upstream reached over `protocol` at `addr`.
    pub fn new(name: &str, addr: SocketAddress, protocol: Protocol, priority: u32, timeout: u64) -> (upstream: UpstreamConfig)
        ensures
            upstream.name@ == name@,
            upstream.addr == addr,
            upstream.protocol == protocol,
            upstream.priority == priority,
            upstream.timeout == timeout,
    {
        UpstreamConfig { name: name.to_owned(), addr, protocol, priority, timeout }
    }

    /// A copy that is equal to the original in every field.
    pub fn duplicate(&self) -> (copy: UpstreamConfig)
        ensures
            copy == *self,
    {
        UpstreamConfig {
            name: self.name.clone(),
            addr: self.addr,
            protocol: self.protocol,
            priority: self.priority,
            timeout: self.timeout,
        }
    }
}

impl Config {
    /// The settings used where none are given: listen on `127.0.0.1:53` over
    /// UDP and TCP, forward to Cloudflare and then Google over UDP, cache up
    /// to 10000 answers for 60 to 3600 seconds, filter nothing, and log,
    /// count and rate-limit at 100 requests per second with bursts of 200.
    pub fn default_config() -> (config: Config)
        ensures
            config.server.listen_addr == (SocketAddress::V4 { ip: 0x7f00_0001, port: 53 }),
            config.server.tcp_enabled,
            config.server.udp_enabled,
            config.server.timeout == 5,
            config.upstreams@.len() == 2,
            config.upstreams@[0].name@ == "Cloudflare"@,
            config.upstreams@[0].addr == (SocketAddress::V4 { ip: 0x0101_0101, port: 53 }),
            config.upstreams@[0].protocol == Protocol::UDP,
            config.upstreams@[0].priority == 1,
            config.upstreams@[0].timeout == 5,
            config.upstreams@[1].name@ == "Google"@,
            config.upstreams@[1].addr == (SocketAddress::V4 { ip: 0x0808_0808, port: 53 }),
            config.upstreams@[1].protocol == Protocol::UDP,
            config.upstreams@[1].priority == 2,
            config.upstreams@[1].timeout == 5,
            config.cache.enabled,
            config.cache.max_size == 10000,
            config.cache.ttl_min == 60,
            config.cache.ttl_max == 3600,
            !config.filters.blocklist_enabled,
            config.filters.blocklist_files@.len() == 0,
            !config.filters.allowlist_enabled,
            config.filters.allowlist_domains@.len() == 0,
            config.middleware.logging_enabled,
            config.middleware.metrics_enabled,
            config.middleware.rate_limiting.enabled,
            config.middleware.rate_limiting.requests_per_second == 100,
            config.middleware.rate_limiting.burst_size == 200,
    {
        let mut upstreams: Vec<UpstreamConfig> = Vec::new();
        upstreams.push(
            UpstreamConfig::new("Cloudflare", SocketAddress::v4(1, 1, 1, 1, 53), Protocol::UDP, 1, 5),
        );
        upstreams.push(
            UpstreamConfig::new("Google", SocketAddress::v4(8, 8, 8, 8, 53), Protocol::UDP, 2, 5),
        );
        Config {
            server: ServerConfig {
                listen_addr: SocketAddress::v4(127, 0, 0, 1, 53),
                tcp_enabled: true,
                udp_enabled: true,
                timeout: 5,
            },
            upstreams,
            cache: CacheConfig { enabled: true, max_size: 10000, ttl_min: 60, ttl_max: 3600 },
            filters: FilterConfig {
                blocklist_enabled: false,
                blocklist_files: Vec::new(),
                allowlist_enabled: false,
                allowlist_domains: Vec::new(),
            },
            middleware: MiddlewareConfig {
                logging_enabled: true,
                metrics_enabled: true,
                rate_limiting: RateLimitConfig {
                    enabled: true,
                    requests_per_second: 100,
                    burst_size: 200,
                },
            },
        }
    }
}

} // verus!
