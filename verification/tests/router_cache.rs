use ferrum_edge::config::types::{AuthMode, BackendProtocol, GatewayConfig, Proxy};
use ferrum_edge::router_cache::{make_cache_key, RouterCache};

fn route(id: &str, hosts: &[&str], listen_path: &str, protocol: BackendProtocol) -> Proxy {
    Proxy {
        id: id.to_string(),
        name: None,
        hosts: hosts.iter().map(|h| h.to_string()).collect(),
        listen_path: listen_path.to_string(),
        backend_protocol: protocol,
        backend_host: "backend".to_string(),
        backend_port: 8080,
        backend_path: None,
        strip_listen_path: true,
        preserve_host_header: false,
        backend_connect_timeout_ms: 5000,
        backend_read_timeout_ms: 30000,
        backend_write_timeout_ms: 30000,
        backend_tls_client_cert_path: None,
        backend_tls_client_key_path: None,
        backend_tls_verify_server_cert: true,
        backend_tls_server_ca_cert_path: None,
        dns_override: None,
        dns_cache_ttl_seconds: None,
        auth_mode: AuthMode::Single,
        plugins: vec![],
        pool_max_idle_per_host: None,
        pool_idle_timeout_seconds: None,
        pool_enable_http_keep_alive: None,
        pool_enable_http2: None,
        pool_tcp_keepalive_seconds: None,
        pool_http2_keep_alive_interval_seconds: None,
        pool_http2_keep_alive_timeout_seconds: None,
    }
}

fn http(id: &str, hosts: &[&str], listen_path: &str) -> Proxy {
    route(id, hosts, listen_path, BackendProtocol::Http)
}

fn config_of(proxies: Vec<Proxy>) -> GatewayConfig {
    GatewayConfig { version: "1".to_string(), proxies, upstreams: vec![] }
}

fn found(cache: &mut RouterCache, host: Option<&str>, path: &str) -> Option<String> {
    cache.find_proxy(host, path).map(|p| p.id.clone())
}

#[test]
fn longest_listen_path_wins() {
    let config = config_of(vec![http("root", &[], "/"), http("api", &[], "/api"), http("users", &[], "/api/users")]);
    let mut cache = RouterCache::new(&config, 100);
    assert_eq!(found(&mut cache, None, "/api/users/42"), Some("users".to_string()));
    assert_eq!(found(&mut cache, None, "/api/orders"), Some("api".to_string()));
    assert_eq!(found(&mut cache, None, "/other"), Some("root".to_string()));
}

#[test]
fn listen_path_matches_only_at_segment_boundaries() {
    let config = config_of(vec![http("api", &[], "/api")]);
    let mut cache = RouterCache::new(&config, 100);
    assert_eq!(found(&mut cache, None, "/api"), Some("api".to_string()));
    assert_eq!(found(&mut cache, None, "/api/x"), Some("api".to_string()));
    assert_eq!(found(&mut cache, None, "/api?q=1"), Some("api".to_string()));
    assert_eq!(found(&mut cache, None, "/apix"), None);
    assert_eq!(found(&mut cache, None, "/ap"), None);
}

#[test]
fn listen_path_with_trailing_slash_matches_any_extension() {
    let config = config_of(vec![http("files", &[], "/files/")]);
    let mut cache = RouterCache::new(&config, 100);
    assert_eq!(found(&mut cache, None, "/files/a.txt"), Some("files".to_string()));
    assert_eq!(found(&mut cache, None, "/files/"), Some("files".to_string()));
    assert_eq!(found(&mut cache, None, "/files"), None);
}

#[test]
fn exact_host_beats_wildcard_beats_catch_all() {
    let config = config_of(vec![
        http("catch", &[], "/"),
        http("wild", &["*.example.com"], "/"),
        http("exact", &["api.example.com"], "/"),
    ]);
    let mut cache = RouterCache::new(&config, 100);
    assert_eq!(found(&mut cache, Some("api.example.com"), "/x"), Some("exact".to_string()));
    assert_eq!(found(&mut cache, Some("www.example.com"), "/x"), Some("wild".to_string()));
    assert_eq!(found(&mut cache, Some("other.org"), "/x"), Some("catch".to_string()));
    assert_eq!(found(&mut cache, None, "/x"), Some("catch".to_string()));
}

#[test]
fn host_tier_without_matching_path_falls_through() {
    let config = config_of(vec![http("catch", &[], "/"), http("exact", &["api.example.com"], "/admin")]);
    let mut cache = RouterCache::new(&config, 100);
    assert_eq!(found(&mut cache, Some("api.example.com"), "/admin/users"), Some("exact".to_string()));
    assert_eq!(found(&mut cache, Some("api.example.com"), "/public"), Some("catch".to_string()));
}

#[test]
fn wildcard_matches_subdomains_but_not_the_bare_domain() {
    let config = config_of(vec![http("wild", &["*.example.com"], "/")]);
    let mut cache = RouterCache::new(&config, 100);
    assert_eq!(found(&mut cache, Some("a.example.com"), "/"), Some("wild".to_string()));
    assert_eq!(found(&mut cache, Some("a.b.example.com"), "/"), Some("wild".to_string()));
    assert_eq!(found(&mut cache, Some("example.com"), "/"), None);
    assert_eq!(found(&mut cache, Some("badexample.com"), "/"), None);
}

#[test]
fn longer_wildcard_pattern_wins() {
    let config = config_of(vec![http("short", &["*.example.com"], "/"), http("long", &["*.api.example.com"], "/")]);
    let mut cache = RouterCache::new(&config, 100);
    assert_eq!(found(&mut cache, Some("v1.api.example.com"), "/"), Some("long".to_string()));
    assert_eq!(found(&mut cache, Some("www.example.com"), "/"), Some("short".to_string()));
}

#[test]
fn equal_listen_paths_prefer_the_first_configured() {
    let config = config_of(vec![http("first", &[], "/same"), http("second", &[], "/same")]);
    let mut cache = RouterCache::new(&config, 100);
    assert_eq!(found(&mut cache, None, "/same/x"), Some("first".to_string()));
}

#[test]
fn stream_proxies_are_not_routed() {
    let config = config_of(vec![route("tcp", &[], "/", BackendProtocol::Tcp), route("udp", &[], "/u", BackendProtocol::Udp)]);
    let mut cache = RouterCache::new(&config, 100);
    assert_eq!(found(&mut cache, None, "/"), None);
    assert_eq!(found(&mut cache, None, "/u"), None);
    assert_eq!(cache.route_count(), 0);
}

#[test]
fn route_count_counts_each_host_registration() {
    let config = config_of(vec![
        http("a", &["a.com", "b.com"], "/a"),
        http("b", &["*.c.com"], "/b"),
        http("c", &[], "/c"),
        route("d", &[], "/d", BackendProtocol::TcpTls),
    ]);
    let cache = RouterCache::new(&config, 100);
    assert_eq!(cache.route_count(), 4);
}

#[test]
fn lookups_and_misses_are_cached() {
    let config = config_of(vec![http("api", &[], "/api")]);
    let mut cache = RouterCache::new(&config, 100);
    assert_eq!(cache.cache_len(), 0);
    assert_eq!(found(&mut cache, None, "/api/1"), Some("api".to_string()));
    assert_eq!(cache.cache_len(), 1);
    assert_eq!(found(&mut cache, None, "/missing"), None);
    assert_eq!(cache.cache_len(), 2);
    // A repeated lookup is answered from the cache with the same result.
    assert_eq!(found(&mut cache, None, "/api/1"), Some("api".to_string()));
    assert_eq!(found(&mut cache, None, "/missing"), None);
    assert_eq!(cache.cache_len(), 2);
}

#[test]
fn host_and_no_host_lookups_have_separate_entries() {
    let config = config_of(vec![http("catch", &[], "/"), http("exact", &["h.com"], "/")]);
    let mut cache = RouterCache::new(&config, 100);
    assert_eq!(found(&mut cache, Some("h.com"), "/p"), Some("exact".to_string()));
    assert_eq!(found(&mut cache, None, "/p"), Some("catch".to_string()));
    assert_eq!(cache.cache_len(), 2);
}

#[test]
fn full_cache_evicts_a_sample_before_inserting() {
    let config = config_of(vec![http("root", &[], "/")]);
    let mut cache = RouterCache::new(&config, 4);
    for p in ["/a", "/b", "/c", "/d"] {
        assert_eq!(found(&mut cache, None, p), Some("root".to_string()));
    }
    assert_eq!(cache.cache_len(), 4);
    assert_eq!(found(&mut cache, None, "/e"), Some("root".to_string()));
    assert_eq!(cache.cache_len(), 4);
    assert_eq!(found(&mut cache, None, "/e"), Some("root".to_string()));
}

#[test]
fn rebuild_replaces_routes_and_clears_the_cache() {
    let mut cache = RouterCache::new(&config_of(vec![http("old", &[], "/old")]), 100);
    assert_eq!(found(&mut cache, None, "/old"), Some("old".to_string()));
    assert_eq!(cache.cache_len(), 1);
    cache.rebuild(&config_of(vec![http("new", &[], "/new")]));
    assert_eq!(cache.cache_len(), 0);
    assert_eq!(found(&mut cache, None, "/old"), None);
    assert_eq!(found(&mut cache, None, "/new"), Some("new".to_string()));
    assert_eq!(cache.route_count(), 1);
}

#[test]
fn apply_delta_evicts_only_affected_paths() {
    let v1 = config_of(vec![http("a", &[], "/a"), http("b", &[], "/b")]);
    let mut cache = RouterCache::new(&v1, 100);
    assert_eq!(found(&mut cache, None, "/a/1"), Some("a".to_string()));
    assert_eq!(found(&mut cache, None, "/b/1"), Some("b".to_string()));
    assert_eq!(found(&mut cache, None, "/c"), None);
    assert_eq!(cache.cache_len(), 3);
    let v2 = config_of(vec![http("a2", &[], "/a"), http("b", &[], "/b")]);
    cache.apply_delta(&v2, &["/a".to_string()]);
    assert_eq!(cache.cache_len(), 2);
    assert_eq!(found(&mut cache, None, "/a/1"), Some("a2".to_string()));
    assert_eq!(found(&mut cache, None, "/b/1"), Some("b".to_string()));
    assert_eq!(cache.route_count(), 2);
}

#[test]
fn apply_delta_keeps_paths_that_only_prefix_an_affected_listen_path() {
    let v1 = config_of(vec![http("root", &[], "/")]);
    let mut cache = RouterCache::new(&v1, 100);
    assert_eq!(found(&mut cache, None, "/ap"), Some("root".to_string()));
    assert_eq!(found(&mut cache, None, "/api/x"), Some("root".to_string()));
    let v2 = config_of(vec![http("root", &[], "/"), http("api", &[], "/api")]);
    cache.apply_delta(&v2, &["/api".to_string()]);
    // "/api/x" starts with "/api": evicted; "/ap" does not: kept, and still right.
    assert_eq!(cache.cache_len(), 1);
    assert_eq!(found(&mut cache, None, "/ap"), Some("root".to_string()));
    assert_eq!(found(&mut cache, None, "/api/x"), Some("api".to_string()));
}

#[test]
fn apply_delta_without_affected_paths_keeps_the_cache() {
    let v1 = config_of(vec![http("a", &[], "/a")]);
    let mut cache = RouterCache::new(&v1, 100);
    assert_eq!(found(&mut cache, None, "/a"), Some("a".to_string()));
    cache.apply_delta(&config_of(vec![http("a", &[], "/a"), http("b", &[], "/b")]), &[]);
    assert_eq!(cache.cache_len(), 1);
    assert_eq!(cache.route_count(), 2);
    assert_eq!(found(&mut cache, None, "/b"), Some("b".to_string()));
}

#[test]
fn apply_delta_keeps_host_qualified_entries_of_unaffected_paths() {
    let v1 = config_of(vec![http("a", &["h.com"], "/a"), http("b", &[], "/b")]);
    let mut cache = RouterCache::new(&v1, 100);
    assert_eq!(found(&mut cache, Some("h.com"), "/a"), Some("a".to_string()));
    assert_eq!(found(&mut cache, Some("h.com"), "/b"), Some("b".to_string()));
    cache.apply_delta(&config_of(vec![http("a", &["h.com"], "/a")]), &["/b".to_string()]);
    assert_eq!(cache.cache_len(), 1);
    assert_eq!(found(&mut cache, Some("h.com"), "/b"), None);
}

#[test]
fn small_caches_never_exceed_their_capacity() {
    let config = config_of(vec![http("root", &[], "/")]);
    let mut one = RouterCache::new(&config, 1);
    assert_eq!(found(&mut one, None, "/a"), Some("root".to_string()));
    assert_eq!(found(&mut one, None, "/b"), Some("root".to_string()));
    assert_eq!(one.cache_len(), 1);
    assert_eq!(found(&mut one, None, "/c"), Some("root".to_string()));
    assert_eq!(one.cache_len(), 1);
    let mut three = RouterCache::new(&config, 3);
    for p in ["/a", "/b", "/c", "/d", "/e", "/f"] {
        assert_eq!(found(&mut three, None, p), Some("root".to_string()));
        assert!(three.cache_len() <= 3);
    }
    let mut none = RouterCache::new(&config, 0);
    assert_eq!(found(&mut none, None, "/a"), Some("root".to_string()));
    assert_eq!(none.cache_len(), 0);
}

#[test]
fn cache_keys_split_at_the_first_nul() {
    assert_eq!(make_cache_key(Some("h.com"), "/p").split_once('\0'), Some(("h.com", "/p")));
    assert_eq!(make_cache_key(None, "/p").split_once('\0'), Some(("", "/p")));
    assert_eq!(make_cache_key(Some(""), "/p"), make_cache_key(None, "/p"));
    assert_ne!(make_cache_key(Some("a"), "/p"), make_cache_key(Some("b"), "/p"));
}
