//! How the HTTP client of a test is set up, and which body a request sends.
use vstd::prelude::*;
use crate::config::TestConfig;
use crate::json::clone_json;

verus! {

/// The settings of the HTTP client that sends a test's requests, apart from
/// the connect timeout.
pub struct ClientSettings {
    /// The timeout of a whole request, in milliseconds.
    pub request_timeout_ms: u64,
    /// Whether invalid TLS certificates are accepted.
    pub accept_invalid_certs: bool,
    /// How many redirects are followed; `None` follows none.
    pub max_redirects: Option<usize>,
    /// How many idle connections are kept per host.
    pub pool_max_idle_per_host: usize,
    /// The TCP keep-alive interval, in seconds.
    pub tcp_keepalive_secs: u64,
    /// Whether `TCP_NODELAY` is set.
    pub tcp_nodelay: bool,
    /// The `User-Agent` header.
    pub user_agent: String,
}

/// The client settings for a configuration: its timeout and certificate
/// choice, up to 10 redirects when it follows redirects, twice as many idle
/// connections as workers, a 30 s keep-alive, no Nagle delay, and the
/// `api-perf-test/1.0` user agent.
pub fn client_settings(config: &TestConfig) -> (s: ClientSettings)
    requires
        config.parallel_limit * 2 <= usize::MAX,
    ensures
        s.request_timeout_ms == config.timeout_ms,
        s.accept_invalid_certs == config.danger_accept_invalid_certs,
        s.max_redirects == (if config.follow_redirects { Some(10usize) } else { None }),
        s.pool_max_idle_per_host == config.parallel_limit * 2,
        s.tcp_keepalive_secs == 30,
        s.tcp_nodelay,
        s.user_agent@ == "api-perf-test/1.0"@,
{
    ClientSettings {
        request_timeout_ms: config.timeout_ms,
        accept_invalid_certs: config.danger_accept_invalid_certs,
        max_redirects: if config.follow_redirects { Some(10) } else { None },
        pool_max_idle_per_host: config.parallel_limit * 2,
        tcp_keepalive_secs: 30,
        tcp_nodelay: true,
        user_agent: String::from_str("api-perf-test/1.0"),
    }
}

/// The body a request sends: its own body when it has one, the configured
/// body otherwise.
pub fn effective_body(body_override: Option<serde_json::Value>, configured: &Option<serde_json::Value>) -> (b: Option<serde_json::Value>)
    ensures
        b == (if body_override is Some { body_override } else { *configured }),
{
    match body_override {
        Some(v) => Some(v),
        None => match configured {
            Some(v) => Some(clone_json(v)),
            None => None,
        },
    }
}

} // verus!
