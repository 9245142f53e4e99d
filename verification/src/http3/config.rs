//! HTTP/3 configuration types.
use vstd::prelude::*;

use std::time::Duration;

use crate::config::EnvConfig;

verus! {

/// The duration of `secs` whole seconds.
pub uninterp spec fn seconds_duration(secs: u64) -> Duration;

/// `Duration::from_secs`: the duration of `secs` whole seconds.
pub assume_specification[ core::time::Duration::from_secs ](secs: u64) -> (d: Duration)
    ensures
        d == seconds_duration(secs),
;

/// HTTP/3 server configuration.
#[derive(Debug, Clone, Copy)]
pub struct Http3ServerConfig {
    /// Maximum concurrent bidirectional streams per connection.
    pub max_concurrent_streams: u32,
    /// Connection idle timeout.
    pub idle_timeout: Duration,
}

impl Http3ServerConfig {
    /// The configuration the environment settings give.
    pub fn from_env_config(env: &EnvConfig) -> (c: Self)
        ensures
            c.max_concurrent_streams == env.http3_max_streams,
            c.idle_timeout == seconds_duration(env.http3_idle_timeout),
    {
        Self {
            max_concurrent_streams: env.http3_max_streams,
            idle_timeout: Duration::from_secs(env.http3_idle_timeout),
        }
    }
}

impl Default for Http3ServerConfig {
    fn default() -> (c: Self)
        ensures
            c.max_concurrent_streams == 100,
            c.idle_timeout == seconds_duration(30),
    {
        Self { max_concurrent_streams: 100, idle_timeout: Duration::from_secs(30) }
    }
}

} // verus!
