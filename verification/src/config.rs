//! Startup configuration of the gateway: the ordered backend list and
//! the tuning knobs, with the defaults each one falls back to.
//!
//! Loading this from a file is a collaborator's job; the core only
//! consumes an already-built `Config` value.

use vstd::prelude::*;

verus! {

/// One backend entry as configured: a match pattern, a base address and
/// an optional outbound bearer token.
pub struct Backend {
    pub pattern: String,
    pub url: String,
    pub token: Option<String>,
}

/// Operating mode of the gateway, fixed at startup.
#[derive(Clone, Copy, Debug, PartialEq, Eq, Structural)]
pub enum Mode {
    /// Forward the whole request verbatim to one backend chosen by a
    /// single routing decision.
    Simple,
    /// Partition metrics across backends, call them concurrently and
    /// merge the results.
    Multi,
}

impl Default for Mode {
    /// The gateway splits and merges unless configured otherwise.
    fn default() -> (m: Mode)
        ensures
            m == Mode::Multi,
    {
        Mode::Multi
    }
}

/// The configuration the core consumes. Optional fields fall back to
/// the defaults the `effective_*` methods state.
pub struct Config {
    pub listen: Option<String>,
    pub backends: Vec<Backend>,
    pub timeout_secs: Option<u64>,
    /// Cap on concurrent outbound requests across all handlers.
    pub max_outbound_concurrency: Option<usize>,
    /// `Simple` for single-target forwarding, `Multi` to split by metric
    /// and merge; defaults to `Multi`.
    pub mode: Option<Mode>,
    /// Ceiling on the inbound request body, in bytes; oversized requests
    /// are rejected as payload-too-large. Defaults to 5 MiB.
    pub max_request_body_bytes: Option<usize>,
    /// Connection timeout in seconds for establishing backend connections.
    pub connect_timeout_secs: Option<u64>,
    /// Cap on idle connections kept alive per host.
    pub pool_max_idle_per_host: Option<usize>,
    /// TCP keepalive interval in seconds.
    pub tcp_keepalive_secs: Option<u64>,
    /// Capacity of the routing cache for single-target lookups; the
    /// cache is disabled unless this is set above zero.
    pub routing_cache_capacity: Option<usize>,
}

impl Config {
    pub open spec fn spec_timeout_secs(&self) -> u64 {
        match self.timeout_secs {
            Some(t) => t,
            None => 5,
        }
    }

    /// Per-call timeout for outbound requests, in seconds.
    pub fn effective_timeout_secs(&self) -> (r: u64)
        ensures
            r == self.spec_timeout_secs(),
    {
        match self.timeout_secs {
            Some(t) => t,
            None => 5,
        }
    }

    pub open spec fn spec_max_outbound(&self) -> usize {
        match self.max_outbound_concurrency {
            Some(n) => n,
            None => 32,
        }
    }

    /// Size of the shared permit pool bounding concurrent outbound calls.
    pub fn effective_max_outbound(&self) -> (r: usize)
        ensures
            r == self.spec_max_outbound(),
    {
        match self.max_outbound_concurrency {
            Some(n) => n,
            None => 32,
        }
    }

    pub open spec fn spec_mode(&self) -> Mode {
        match self.mode {
            Some(m) => m,
            None => Mode::Multi,
        }
    }

    /// Operating mode; `Multi` when not configured.
    pub fn effective_mode(&self) -> (r: Mode)
        ensures
            r == self.spec_mode(),
    {
        match self.mode {
            Some(m) => m,
            None => Mode::Multi,
        }
    }

    pub open spec fn spec_max_body_bytes(&self) -> usize {
        match self.max_request_body_bytes {
            Some(n) => n,
            None => 5242880,
        }
    }

    /// Ceiling on the inbound request body in bytes; 5 MiB by default.
    pub fn effective_max_body_bytes(&self) -> (r: usize)
        ensures
            r == self.spec_max_body_bytes(),
    {
        match self.max_request_body_bytes {
            Some(n) => n,
            None => 5242880,
        }
    }

    pub open spec fn spec_cache_capacity(&self) -> usize {
        match self.routing_cache_capacity {
            Some(n) => n,
            None => 0,
        }
    }

    /// Routing-cache capacity; zero (disabled) by default.
    pub fn effective_cache_capacity(&self) -> (r: usize)
        ensures
            r == self.spec_cache_capacity(),
    {
        match self.routing_cache_capacity {
            Some(n) => n,
            None => 0,
        }
    }
}

} // verus!
