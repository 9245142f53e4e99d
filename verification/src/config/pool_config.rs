//! Connection pool configuration: global defaults, settings from the
//! environment, and per-proxy overrides.
use vstd::prelude::*;

use crate::config::types::Proxy;
use crate::parse::{parse_bool, parse_u64, parse_usize, spec_parse_bool, spec_parse_bounded};

verus! {

/// Global connection pool configuration.
#[derive(Debug, Clone, Copy)]
pub struct PoolConfig {
    pub max_idle_per_host: usize,
    pub idle_timeout_seconds: u64,
    pub enable_http_keep_alive: bool,
    /// Controls HTTP/2 keep-alive PING frames on backend connections.
    /// HTTP/2 itself is negotiated via ALPN on HTTPS connections; this does
    /// not force cleartext HTTP/2.
    pub enable_http2: bool,
    pub tcp_keepalive_seconds: u64,
    pub http2_keep_alive_interval_seconds: u64,
    pub http2_keep_alive_timeout_seconds: u64,
}

/// The fewest idle connections per host a configuration may ask for.
pub const MIN_MAX_IDLE_PER_HOST: usize = 4;

/// The most idle connections per host a configuration may ask for.
pub const MAX_MAX_IDLE_PER_HOST: usize = 1024;

/// A per-host idle limit brought into `4..=1024`.
pub open spec fn clamp_idle_limit(v: int) -> int {
    if v < MIN_MAX_IDLE_PER_HOST {
        MIN_MAX_IDLE_PER_HOST as int
    } else if v > MAX_MAX_IDLE_PER_HOST {
        MAX_MAX_IDLE_PER_HOST as int
    } else {
        v
    }
}

/// Below this many seconds an HTTP/2 keep-alive timeout deserves a warning.
pub const LOW_HTTP2_KEEP_ALIVE_TIMEOUT_SECONDS: u64 = 10;

/// The value of an unsigned setting: the parsed text when it parses and fits,
/// the default otherwise (also when the variable is unset).
pub open spec fn setting_or(text: Option<Seq<char>>, max: int, default: int) -> int {
    match text {
        Some(t) => match spec_parse_bounded(t, max) {
            Some(v) => v,
            None => default,
        },
        None => default,
    }
}

/// The value of a boolean setting: unset keeps `current`; a set variable that
/// is not exactly `true` or `false` means `true`.
pub open spec fn flag_setting(text: Option<Seq<char>>, current: bool) -> bool {
    match text {
        Some(t) => match spec_parse_bool(t) {
            Some(b) => b,
            None => true,
        },
        None => current,
    }
}

/// The characters of an optional string.
pub open spec fn opt_str_view(s: Option<&str>) -> Option<Seq<char>> {
    match s {
        Some(t) => Some(t@),
        None => None,
    }
}

fn usize_setting(text: Option<&str>, default: usize) -> (v: usize)
    ensures
        v == setting_or(opt_str_view(text), usize::MAX as int, default as int),
{
    match text {
        Some(t) => match parse_usize(t) {
            Some(p) => p,
            None => default,
        },
        None => default,
    }
}

fn clamp_idle(v: usize) -> (c: usize)
    ensures
        c == clamp_idle_limit(v as int),
{
    if v < MIN_MAX_IDLE_PER_HOST {
        MIN_MAX_IDLE_PER_HOST
    } else if v > MAX_MAX_IDLE_PER_HOST {
        MAX_MAX_IDLE_PER_HOST
    } else {
        v
    }
}

fn u64_setting(text: Option<&str>, default: u64) -> (v: u64)
    ensures
        v == setting_or(opt_str_view(text), u64::MAX as int, default as int),
{
    match text {
        Some(t) => match parse_u64(t) {
            Some(p) => p,
            None => default,
        },
        None => default,
    }
}

fn flag(text: Option<&str>, current: bool) -> (v: bool)
    ensures
        v == flag_setting(opt_str_view(text), current),
{
    match text {
        Some(t) => match parse_bool(t) {
            Some(b) => b,
            None => true,
        },
        None => current,
    }
}

impl Default for PoolConfig {
    fn default() -> (c: Self)
        ensures
            c.max_idle_per_host == 10,
            c.idle_timeout_seconds == 90,
            c.enable_http_keep_alive,
            c.enable_http2,
            c.tcp_keepalive_seconds == 60,
            c.http2_keep_alive_interval_seconds == 30,
            c.http2_keep_alive_timeout_seconds == 45,
    {
        PoolConfig {
            max_idle_per_host: 10,
            idle_timeout_seconds: 90,
            enable_http_keep_alive: true,
            enable_http2: true,
            tcp_keepalive_seconds: 60,
            http2_keep_alive_interval_seconds: 30,
            // comparable to the HTTP read timeout
            http2_keep_alive_timeout_seconds: 45,
        }
    }
}

impl PoolConfig {
    /// The configuration from the values of the `FERRUM_POOL_*` environment
    /// variables (`None` for an unset variable), over the defaults:
    /// `MAX_IDLE_PER_HOST`, `IDLE_TIMEOUT_SECONDS`, `ENABLE_HTTP_KEEP_ALIVE`,
    /// `ENABLE_HTTP2`, `TCP_KEEPALIVE_SECONDS`,
    /// `HTTP2_KEEP_ALIVE_INTERVAL_SECONDS`, `HTTP2_KEEP_ALIVE_TIMEOUT_SECONDS`.
    /// A number that does not parse keeps the default; a flag that is not
    /// `true` or `false` becomes `true`. The idle connection limit per host is
    /// brought into `4..=1024`.
    pub fn from_env_values(
        max_idle_per_host: Option<&str>,
        idle_timeout_seconds: Option<&str>,
        enable_http_keep_alive: Option<&str>,
        enable_http2: Option<&str>,
        tcp_keepalive_seconds: Option<&str>,
        http2_keep_alive_interval_seconds: Option<&str>,
        http2_keep_alive_timeout_seconds: Option<&str>,
    ) -> (c: PoolConfig)
        ensures
            c.max_idle_per_host == clamp_idle_limit(setting_or(opt_str_view(max_idle_per_host), usize::MAX as int, 10)),
            MIN_MAX_IDLE_PER_HOST <= c.max_idle_per_host <= MAX_MAX_IDLE_PER_HOST,
            c.idle_timeout_seconds == setting_or(opt_str_view(idle_timeout_seconds), u64::MAX as int, 90),
            c.enable_http_keep_alive == flag_setting(opt_str_view(enable_http_keep_alive), true),
            c.enable_http2 == flag_setting(opt_str_view(enable_http2), true),
            c.tcp_keepalive_seconds == setting_or(opt_str_view(tcp_keepalive_seconds), u64::MAX as int, 60),
            c.http2_keep_alive_interval_seconds == setting_or(
                opt_str_view(http2_keep_alive_interval_seconds),
                u64::MAX as int,
                30,
            ),
            c.http2_keep_alive_timeout_seconds == setting_or(
                opt_str_view(http2_keep_alive_timeout_seconds),
                u64::MAX as int,
                45,
            ),
    {
        let defaults = PoolConfig::default();
        PoolConfig {
            max_idle_per_host: clamp_idle(usize_setting(max_idle_per_host, defaults.max_idle_per_host)),
            idle_timeout_seconds: u64_setting(idle_timeout_seconds, defaults.idle_timeout_seconds),
            enable_http_keep_alive: flag(enable_http_keep_alive, defaults.enable_http_keep_alive),
            enable_http2: flag(enable_http2, defaults.enable_http2),
            tcp_keepalive_seconds: u64_setting(tcp_keepalive_seconds, defaults.tcp_keepalive_seconds),
            http2_keep_alive_interval_seconds: u64_setting(
                http2_keep_alive_interval_seconds,
                defaults.http2_keep_alive_interval_seconds,
            ),
            http2_keep_alive_timeout_seconds: u64_setting(
                http2_keep_alive_timeout_seconds,
                defaults.http2_keep_alive_timeout_seconds,
            ),
        }
    }

    /// Whether the HTTP/2 keep-alive timeout is low enough to warn about.
    pub fn http2_keep_alive_timeout_is_low(&self) -> (low: bool)
        ensures
            low == (self.http2_keep_alive_timeout_seconds < LOW_HTTP2_KEEP_ALIVE_TIMEOUT_SECONDS),
    {
        self.http2_keep_alive_timeout_seconds < LOW_HTTP2_KEEP_ALIVE_TIMEOUT_SECONDS
    }

    /// This global configuration with the proxy's overrides applied: every
    /// setting the proxy sets replaces the global one.
    pub open spec fn overridden_by(&self, proxy: &Proxy) -> PoolConfig {
        PoolConfig {
            max_idle_per_host: proxy.pool_max_idle_per_host.unwrap_or(self.max_idle_per_host),
            idle_timeout_seconds: proxy.pool_idle_timeout_seconds.unwrap_or(self.idle_timeout_seconds),
            enable_http_keep_alive: proxy.pool_enable_http_keep_alive.unwrap_or(self.enable_http_keep_alive),
            enable_http2: proxy.pool_enable_http2.unwrap_or(self.enable_http2),
            tcp_keepalive_seconds: proxy.pool_tcp_keepalive_seconds.unwrap_or(self.tcp_keepalive_seconds),
            http2_keep_alive_interval_seconds: proxy.pool_http2_keep_alive_interval_seconds.unwrap_or(
                self.http2_keep_alive_interval_seconds,
            ),
            http2_keep_alive_timeout_seconds: proxy.pool_http2_keep_alive_timeout_seconds.unwrap_or(
                self.http2_keep_alive_timeout_seconds,
            ),
        }
    }

    /// Apply the proxy-level overrides to this global configuration.
    pub fn apply_proxy_overrides(&self, proxy: &Proxy) -> (c: PoolConfig)
        ensures
            c == self.overridden_by(proxy),
    {
        PoolConfig {
            max_idle_per_host: match proxy.pool_max_idle_per_host {
                Some(v) => v,
                None => self.max_idle_per_host,
            },
            idle_timeout_seconds: match proxy.pool_idle_timeout_seconds {
                Some(v) => v,
                None => self.idle_timeout_seconds,
            },
            enable_http_keep_alive: match proxy.pool_enable_http_keep_alive {
                Some(v) => v,
                None => self.enable_http_keep_alive,
            },
            enable_http2: match proxy.pool_enable_http2 {
                Some(v) => v,
                None => self.enable_http2,
            },
            tcp_keepalive_seconds: match proxy.pool_tcp_keepalive_seconds {
                Some(v) => v,
                None => self.tcp_keepalive_seconds,
            },
            http2_keep_alive_interval_seconds: match proxy.pool_http2_keep_alive_interval_seconds {
                Some(v) => v,
                None => self.http2_keep_alive_interval_seconds,
            },
            http2_keep_alive_timeout_seconds: match proxy.pool_http2_keep_alive_timeout_seconds {
                Some(v) => v,
                None => self.http2_keep_alive_timeout_seconds,
            },
        }
    }

    /// The configuration for a specific proxy: global settings with the
    /// proxy's overrides.
    pub fn for_proxy(&self, proxy: &Proxy) -> (c: PoolConfig)
        ensures
            c == self.overridden_by(proxy),
    {
        self.apply_proxy_overrides(proxy)
    }
}


/// A proxy that overrides none of the pool settings.
pub open spec fn overrides_nothing(proxy: &Proxy) -> bool {
    &&& proxy.pool_max_idle_per_host is None
    &&& proxy.pool_idle_timeout_seconds is None
    &&& proxy.pool_enable_http_keep_alive is None
    &&& proxy.pool_enable_http2 is None
    &&& proxy.pool_tcp_keepalive_seconds is None
    &&& proxy.pool_http2_keep_alive_interval_seconds is None
    &&& proxy.pool_http2_keep_alive_timeout_seconds is None
}

/// A proxy without pool overrides gets the global configuration unchanged.
pub proof fn lemma_no_overrides_keeps_global(global: PoolConfig, proxy: &Proxy)
    requires
        overrides_nothing(proxy),
    ensures
        global.overridden_by(proxy) == global,
{
}

/// Applying a proxy's overrides twice is the same as applying them once.
pub proof fn lemma_overrides_idempotent(global: PoolConfig, proxy: &Proxy)
    ensures
        global.overridden_by(proxy).overridden_by(proxy) == global.overridden_by(proxy),
{
}

/// The overrides a proxy sets win over any global configuration: two global
/// configurations give the same result for the settings the proxy sets.
pub proof fn lemma_overrides_win(g1: PoolConfig, g2: PoolConfig, proxy: &Proxy)
    ensures
        proxy.pool_max_idle_per_host is Some ==> g1.overridden_by(proxy).max_idle_per_host == g2.overridden_by(proxy).max_idle_per_host,
        proxy.pool_idle_timeout_seconds is Some ==> g1.overridden_by(proxy).idle_timeout_seconds == g2.overridden_by(proxy).idle_timeout_seconds,
        proxy.pool_enable_http_keep_alive is Some ==> g1.overridden_by(proxy).enable_http_keep_alive == g2.overridden_by(proxy).enable_http_keep_alive,
        proxy.pool_enable_http2 is Some ==> g1.overridden_by(proxy).enable_http2 == g2.overridden_by(proxy).enable_http2,
        proxy.pool_tcp_keepalive_seconds is Some ==> g1.overridden_by(proxy).tcp_keepalive_seconds == g2.overridden_by(proxy).tcp_keepalive_seconds,
        proxy.pool_http2_keep_alive_interval_seconds is Some ==> g1.overridden_by(proxy).http2_keep_alive_interval_seconds == g2.overridden_by(proxy).http2_keep_alive_interval_seconds,
        proxy.pool_http2_keep_alive_timeout_seconds is Some ==> g1.overridden_by(proxy).http2_keep_alive_timeout_seconds == g2.overridden_by(proxy).http2_keep_alive_timeout_seconds,
{
}

/// Every pool setting after the overrides is the proxy's own value for it
/// when the proxy sets one, and the global value otherwise.
pub proof fn lemma_override_values(global: PoolConfig, proxy: &Proxy)
    ensures
        global.overridden_by(proxy).max_idle_per_host == match proxy.pool_max_idle_per_host {
            Some(v) => v,
            None => global.max_idle_per_host,
        },
        global.overridden_by(proxy).idle_timeout_seconds == match proxy.pool_idle_timeout_seconds {
            Some(v) => v,
            None => global.idle_timeout_seconds,
        },
        global.overridden_by(proxy).enable_http_keep_alive == match proxy.pool_enable_http_keep_alive {
            Some(v) => v,
            None => global.enable_http_keep_alive,
        },
        global.overridden_by(proxy).enable_http2 == match proxy.pool_enable_http2 {
            Some(v) => v,
            None => global.enable_http2,
        },
        global.overridden_by(proxy).tcp_keepalive_seconds == match proxy.pool_tcp_keepalive_seconds {
            Some(v) => v,
            None => global.tcp_keepalive_seconds,
        },
        global.overridden_by(proxy).http2_keep_alive_interval_seconds
            == match proxy.pool_http2_keep_alive_interval_seconds {
            Some(v) => v,
            None => global.http2_keep_alive_interval_seconds,
        },
        global.overridden_by(proxy).http2_keep_alive_timeout_seconds
            == match proxy.pool_http2_keep_alive_timeout_seconds {
            Some(v) => v,
            None => global.http2_keep_alive_timeout_seconds,
        },
{
}

} // verus!
