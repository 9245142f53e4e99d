//! The gateway's configuration data model.
use vstd::prelude::*;

use crate::text::{chars_have_suffix, chars_of, has_suffix};

verus! {

/// The protocol spoken towards a proxy's backend.
#[derive(Debug, Clone, Copy, PartialEq, Eq, Structural)]
pub enum BackendProtocol {
    Http,
    Https,
    Ws,
    Wss,
    Grpc,
    Grpcs,
    H3,
    Tcp,
    TcpTls,
    Udp,
    Dtls,
}

impl BackendProtocol {
    /// Raw TCP/UDP stream proxies, which are not reached through HTTP routing.
    pub open spec fn spec_is_stream_proxy(self) -> bool {
        match self {
            BackendProtocol::Tcp | BackendProtocol::TcpTls | BackendProtocol::Udp
            | BackendProtocol::Dtls => true,
            _ => false,
        }
    }

    /// Whether this protocol is a raw stream (TCP/UDP) protocol.
    pub fn is_stream_proxy(&self) -> (r: bool)
        ensures
            r == self.spec_is_stream_proxy(),
    {
        match self {
            BackendProtocol::Tcp | BackendProtocol::TcpTls | BackendProtocol::Udp
            | BackendProtocol::Dtls => true,
            _ => false,
        }
    }
}

/// How the authentication plugins of a proxy combine.
#[derive(Debug, Clone, Copy, PartialEq, Eq, Structural)]
pub enum AuthMode {
    Single,
    Multi,
}

/// A configured route from a listen path (and optionally a set of hosts) to a backend.
#[derive(Debug)]
pub struct Proxy {
    pub id: String,
    pub name: Option<String>,
    /// Host names this proxy answers for; empty means every host.
    /// Entries starting with `*.` are wildcard patterns.
    pub hosts: Vec<String>,
    pub listen_path: String,
    pub backend_protocol: BackendProtocol,
    pub backend_host: String,
    pub backend_port: u16,
    pub backend_path: Option<String>,
    pub strip_listen_path: bool,
    pub preserve_host_header: bool,
    pub backend_connect_timeout_ms: u64,
    pub backend_read_timeout_ms: u64,
    pub backend_write_timeout_ms: u64,
    pub backend_tls_client_cert_path: Option<String>,
    pub backend_tls_client_key_path: Option<String>,
    pub backend_tls_verify_server_cert: bool,
    pub backend_tls_server_ca_cert_path: Option<String>,
    pub dns_override: Option<String>,
    pub dns_cache_ttl_seconds: Option<u64>,
    pub auth_mode: AuthMode,
    /// Identifiers of the plugin configurations attached to this proxy.
    pub plugins: Vec<String>,
    pub pool_max_idle_per_host: Option<usize>,
    pub pool_idle_timeout_seconds: Option<u64>,
    pub pool_enable_http_keep_alive: Option<bool>,
    pub pool_enable_http2: Option<bool>,
    pub pool_tcp_keepalive_seconds: Option<u64>,
    pub pool_http2_keep_alive_interval_seconds: Option<u64>,
    pub pool_http2_keep_alive_timeout_seconds: Option<u64>,
}

/// The mathematical value of a [`Proxy`]: every string taken by its characters.
pub struct ProxyView {
    pub id: Seq<char>,
    pub name: Option<Seq<char>>,
    pub hosts: Seq<Seq<char>>,
    pub listen_path: Seq<char>,
    pub backend_protocol: BackendProtocol,
    pub backend_host: Seq<char>,
    pub backend_port: u16,
    pub backend_path: Option<Seq<char>>,
    pub strip_listen_path: bool,
    pub preserve_host_header: bool,
    pub backend_connect_timeout_ms: u64,
    pub backend_read_timeout_ms: u64,
    pub backend_write_timeout_ms: u64,
    pub backend_tls_client_cert_path: Option<Seq<char>>,
    pub backend_tls_client_key_path: Option<Seq<char>>,
    pub backend_tls_verify_server_cert: bool,
    pub backend_tls_server_ca_cert_path: Option<Seq<char>>,
    pub dns_override: Option<Seq<char>>,
    pub dns_cache_ttl_seconds: Option<u64>,
    pub auth_mode: AuthMode,
    pub plugins: Seq<Seq<char>>,
    pub pool_max_idle_per_host: Option<usize>,
    pub pool_idle_timeout_seconds: Option<u64>,
    pub pool_enable_http_keep_alive: Option<bool>,
    pub pool_enable_http2: Option<bool>,
    pub pool_tcp_keepalive_seconds: Option<u64>,
    pub pool_http2_keep_alive_interval_seconds: Option<u64>,
    pub pool_http2_keep_alive_timeout_seconds: Option<u64>,
}

impl View for Proxy {
    type V = ProxyView;

    open spec fn view(&self) -> ProxyView {
        ProxyView {
            id: self.id@,
            name: self.name.deep_view(),
            hosts: self.hosts.deep_view(),
            listen_path: self.listen_path@,
            backend_protocol: self.backend_protocol,
            backend_host: self.backend_host@,
            backend_port: self.backend_port,
            backend_path: self.backend_path.deep_view(),
            strip_listen_path: self.strip_listen_path,
            preserve_host_header: self.preserve_host_header,
            backend_connect_timeout_ms: self.backend_connect_timeout_ms,
            backend_read_timeout_ms: self.backend_read_timeout_ms,
            backend_write_timeout_ms: self.backend_write_timeout_ms,
            backend_tls_client_cert_path: self.backend_tls_client_cert_path.deep_view(),
            backend_tls_client_key_path: self.backend_tls_client_key_path.deep_view(),
            backend_tls_verify_server_cert: self.backend_tls_verify_server_cert,
            backend_tls_server_ca_cert_path: self.backend_tls_server_ca_cert_path.deep_view(),
            dns_override: self.dns_override.deep_view(),
            dns_cache_ttl_seconds: self.dns_cache_ttl_seconds,
            auth_mode: self.auth_mode,
            plugins: self.plugins.deep_view(),
            pool_max_idle_per_host: self.pool_max_idle_per_host,
            pool_idle_timeout_seconds: self.pool_idle_timeout_seconds,
            pool_enable_http_keep_alive: self.pool_enable_http_keep_alive,
            pool_enable_http2: self.pool_enable_http2,
            pool_tcp_keepalive_seconds: self.pool_tcp_keepalive_seconds,
            pool_http2_keep_alive_interval_seconds: self.pool_http2_keep_alive_interval_seconds,
            pool_http2_keep_alive_timeout_seconds: self.pool_http2_keep_alive_timeout_seconds,
        }
    }
}

/// The views of a sequence of proxies.
pub open spec fn proxy_views(ps: Seq<Proxy>) -> Seq<ProxyView> {
    ps.map_values(|p: Proxy| p@)
}

impl Clone for Proxy {
    fn clone(&self) -> (r: Self)
        ensures
            r@ == self@,
    {
        Proxy {
            id: self.id.clone(),
            name: self.name.clone(),
            hosts: self.hosts.clone(),
            listen_path: self.listen_path.clone(),
            backend_protocol: self.backend_protocol,
            backend_host: self.backend_host.clone(),
            backend_port: self.backend_port,
            backend_path: self.backend_path.clone(),
            strip_listen_path: self.strip_listen_path,
            preserve_host_header: self.preserve_host_header,
            backend_connect_timeout_ms: self.backend_connect_timeout_ms,
            backend_read_timeout_ms: self.backend_read_timeout_ms,
            backend_write_timeout_ms: self.backend_write_timeout_ms,
            backend_tls_client_cert_path: self.backend_tls_client_cert_path.clone(),
            backend_tls_client_key_path: self.backend_tls_client_key_path.clone(),
            backend_tls_verify_server_cert: self.backend_tls_verify_server_cert,
            backend_tls_server_ca_cert_path: self.backend_tls_server_ca_cert_path.clone(),
            dns_override: self.dns_override.clone(),
            dns_cache_ttl_seconds: self.dns_cache_ttl_seconds,
            auth_mode: self.auth_mode,
            plugins: self.plugins.clone(),
            pool_max_idle_per_host: self.pool_max_idle_per_host,
            pool_idle_timeout_seconds: self.pool_idle_timeout_seconds,
            pool_enable_http_keep_alive: self.pool_enable_http_keep_alive,
            pool_enable_http2: self.pool_enable_http2,
            pool_tcp_keepalive_seconds: self.pool_tcp_keepalive_seconds,
            pool_http2_keep_alive_interval_seconds: self.pool_http2_keep_alive_interval_seconds,
            pool_http2_keep_alive_timeout_seconds: self.pool_http2_keep_alive_timeout_seconds,
        }
    }
}

/// A backend address of an upstream.
#[derive(Debug)]
pub struct UpstreamTarget {
    pub host: String,
    pub port: u16,
    pub weight: u32,
    /// Free-form labels, as (name, value) pairs.
    pub tags: Vec<(String, String)>,
}

/// The mathematical value of an [`UpstreamTarget`].
pub struct UpstreamTargetView {
    pub host: Seq<char>,
    pub port: u16,
    pub weight: u32,
    pub tags: Seq<(Seq<char>, Seq<char>)>,
}

impl View for UpstreamTarget {
    type V = UpstreamTargetView;

    open spec fn view(&self) -> UpstreamTargetView {
        UpstreamTargetView {
            host: self.host@,
            port: self.port,
            weight: self.weight,
            tags: self.tags@.map_values(|t: (String, String)| (t.0@, t.1@)),
        }
    }
}

/// The views of a sequence of targets.
pub open spec fn target_views(ts: Seq<UpstreamTarget>) -> Seq<UpstreamTargetView> {
    ts.map_values(|t: UpstreamTarget| t@)
}

impl Clone for UpstreamTarget {
    fn clone(&self) -> (r: Self)
        ensures
            r@ == self@,
    {
        let mut tags: Vec<(String, String)> = Vec::new();
        let mut i: usize = 0;
        while i < self.tags.len()
            invariant
                i <= self.tags.len(),
                tags@.len() == i,
                forall|j: int| 0 <= j < i ==> #[trigger] tags@[j].0@ == self.tags@[j].0@ && tags@[j].1@ == self.tags@[j].1@,
            decreases self.tags.len() - i,
        {
            let pair = (self.tags[i].0.clone(), self.tags[i].1.clone());
            tags.push(pair);
            i += 1;
        }
        assert(tags@.map_values(|t: (String, String)| (t.0@, t.1@)) =~= self.tags@.map_values(
            |t: (String, String)| (t.0@, t.1@),
        ));
        UpstreamTarget { host: self.host.clone(), port: self.port, weight: self.weight, tags }
    }
}

/// How an upstream spreads requests over its targets.
#[derive(Debug, Clone, Copy, PartialEq, Eq, Structural)]
pub enum LoadBalancerAlgorithm {
    RoundRobin,
    WeightedRoundRobin,
    LeastConnections,
    ConsistentHashing,
    Random,
}

/// The registry a service discovery configuration polls.
#[derive(Debug, Clone, Copy, PartialEq, Eq, Structural)]
pub enum SdProvider {
    DnsSd,
    Kubernetes,
    Consul,
}

/// DNS-SD (SRV record) discovery settings.
#[derive(Debug)]
pub struct DnsSdConfig {
    pub service_name: String,
    pub poll_interval_seconds: u64,
}

/// Kubernetes endpoint discovery settings.
#[derive(Debug)]
pub struct KubernetesConfig {
    pub namespace: String,
    pub service_name: String,
    pub port_name: Option<String>,
    pub label_selector: Option<String>,
    pub poll_interval_seconds: u64,
}

/// Consul catalog discovery settings.
#[derive(Debug)]
pub struct ConsulConfig {
    pub address: String,
    pub service_name: String,
    pub datacenter: Option<String>,
    pub tag: Option<String>,
    pub healthy_only: bool,
    pub token: Option<String>,
    pub poll_interval_seconds: u64,
}

/// Service discovery for an upstream: the provider and its settings.
#[derive(Debug)]
pub struct ServiceDiscoveryConfig {
    pub provider: SdProvider,
    pub dns_sd: Option<DnsSdConfig>,
    pub kubernetes: Option<KubernetesConfig>,
    pub consul: Option<ConsulConfig>,
    /// Weight given to discovered targets.
    pub default_weight: u32,
}

/// A named pool of backend targets.
#[derive(Debug)]
pub struct Upstream {
    pub id: String,
    pub name: Option<String>,
    pub targets: Vec<UpstreamTarget>,
    pub algorithm: LoadBalancerAlgorithm,
    pub hash_on: Option<String>,
    pub service_discovery: Option<ServiceDiscoveryConfig>,
}

/// The whole gateway configuration.
#[derive(Debug)]
pub struct GatewayConfig {
    pub version: String,
    pub proxies: Vec<Proxy>,
    pub upstreams: Vec<Upstream>,
}

/// `h` is a wildcard host pattern (`*.` followed by a domain suffix).
pub open spec fn is_wildcard_pattern(h: Seq<char>) -> bool {
    h.len() >= 2 && h[0] == '*' && h[1] == '.'
}

/// Wildcard host matching: `*.example.com` matches every host that ends in
/// `.example.com` and has at least one character before that suffix.
pub open spec fn spec_wildcard_matches(pattern: Seq<char>, host: Seq<char>) -> bool {
    &&& is_wildcard_pattern(pattern)
    &&& host.len() > pattern.len() - 1
    &&& has_suffix(host, pattern.skip(1))
}

/// Two wildcard patterns of the same length that both match a host are the same pattern.
pub proof fn lemma_wildcard_match_unique_by_len(p1: Seq<char>, p2: Seq<char>, host: Seq<char>)
    requires
        spec_wildcard_matches(p1, host),
        spec_wildcard_matches(p2, host),
        p1.len() == p2.len(),
    ensures
        p1 == p2,
{
    assert forall|i: int| 0 <= i < p1.len() implies p1[i] == p2[i] by {
        if i > 0 {
            assert(p1.skip(1)[i - 1] == host.subrange(host.len() - (p1.len() - 1), host.len() as int)[i - 1]);
            assert(p2.skip(1)[i - 1] == host.subrange(host.len() - (p2.len() - 1), host.len() as int)[i - 1]);
        }
    }
    assert(p1 =~= p2);
}

/// Whether `host` matches the wildcard `pattern` (see [`spec_wildcard_matches`]).
pub fn wildcard_matches(pattern: &str, host: &str) -> (r: bool)
    ensures
        r == spec_wildcard_matches(pattern@, host@),
{
    let p = chars_of(pattern);
    let h = chars_of(host);
    if p.len() < 2 || p[0] != '*' || p[1] != '.' {
        return false;
    }
    if h.len() <= p.len() - 1 {
        return false;
    }
    let mut suffix: Vec<char> = Vec::new();
    let mut i: usize = 1;
    while i < p.len()
        invariant
            1 <= i <= p.len(),
            suffix@ == p@.subrange(1, i as int),
        decreases p.len() - i,
    {
        suffix.push(p[i]);
        i += 1;
    }
    assert(suffix@ == p@.skip(1));
    chars_have_suffix(&h, &suffix)
}

} // verus!
