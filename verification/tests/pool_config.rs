use ferrum_edge::config::pool_config::PoolConfig;
use ferrum_edge::config::types::{AuthMode, BackendProtocol, Proxy};

fn create_test_proxy() -> Proxy {
    Proxy {
        id: "test".to_string(),
        name: None,
        hosts: vec![],
        listen_path: "/test".to_string(),
        backend_protocol: BackendProtocol::Http,
        backend_host: "localhost".to_string(),
        backend_port: 3000,
        backend_path: None,
        strip_listen_path: true,
        preserve_host_header: false,
        backend_connect_timeout_ms: 5000,
        backend_read_timeout_ms: 30000,
        backend_write_timeout_ms: 30000,
        backend_tls_client_cert_path: None,
        backend_tls_client_key_path: None,
        backend_tls_verify_server_cert: true,
        backend_tls_server_ca_cert_path: None,
        dns_override: None,
        dns_cache_ttl_seconds: None,
        auth_mode: AuthMode::Single,
        plugins: vec![],
        pool_max_idle_per_host: None,
        pool_idle_timeout_seconds: None,
        pool_enable_http_keep_alive: None,
        pool_enable_http2: None,
        pool_tcp_keepalive_seconds: None,
        pool_http2_keep_alive_interval_seconds: None,
        pool_http2_keep_alive_timeout_seconds: None,
    }
}

#[test]
fn test_default_config() {
    let config = PoolConfig::default();
    assert_eq!(config.max_idle_per_host, 10);
    assert_eq!(config.idle_timeout_seconds, 90);
    assert_eq!(config.tcp_keepalive_seconds, 60);
    assert_eq!(config.http2_keep_alive_interval_seconds, 30);
    assert_eq!(config.http2_keep_alive_timeout_seconds, 45);
    assert!(config.enable_http_keep_alive);
    assert!(config.enable_http2);
}

#[test]
fn test_proxy_overrides() {
    let global = PoolConfig::default();
    let mut proxy = create_test_proxy();

    // Apply overrides
    proxy.pool_max_idle_per_host = Some(25);
    proxy.pool_enable_http2 = Some(false);
    proxy.pool_tcp_keepalive_seconds = Some(30);
    proxy.pool_http2_keep_alive_interval_seconds = Some(15);
    proxy.pool_http2_keep_alive_timeout_seconds = Some(45);

    let config = global.for_proxy(&proxy);
    assert_eq!(config.max_idle_per_host, 25);
    assert_eq!(config.idle_timeout_seconds, 90); // unchanged
    assert_eq!(config.tcp_keepalive_seconds, 30); // overridden
    assert_eq!(config.http2_keep_alive_interval_seconds, 15); // overridden
    assert_eq!(config.http2_keep_alive_timeout_seconds, 45); // overridden
    assert!(config.enable_http_keep_alive); // unchanged
    assert!(!config.enable_http2); // overridden
}

#[test]
fn test_no_overrides() {
    let global = PoolConfig::default();
    let proxy = create_test_proxy();

    let config = global.for_proxy(&proxy);
    assert_eq!(config.max_idle_per_host, global.max_idle_per_host);
    assert_eq!(config.idle_timeout_seconds, global.idle_timeout_seconds);
    assert_eq!(config.tcp_keepalive_seconds, global.tcp_keepalive_seconds);
    assert_eq!(config.http2_keep_alive_interval_seconds, global.http2_keep_alive_interval_seconds);
    assert_eq!(config.http2_keep_alive_timeout_seconds, global.http2_keep_alive_timeout_seconds);
    assert_eq!(config.enable_http_keep_alive, global.enable_http_keep_alive);
    assert_eq!(config.enable_http2, global.enable_http2);
}

#[test]
fn every_override_replaces_the_global_setting() {
    let global = PoolConfig::default();
    let mut proxy = create_test_proxy();
    proxy.pool_max_idle_per_host = Some(3);
    proxy.pool_idle_timeout_seconds = Some(7);
    proxy.pool_enable_http_keep_alive = Some(false);
    proxy.pool_enable_http2 = Some(false);
    proxy.pool_tcp_keepalive_seconds = Some(11);
    proxy.pool_http2_keep_alive_interval_seconds = Some(13);
    proxy.pool_http2_keep_alive_timeout_seconds = Some(17);
    let config = global.apply_proxy_overrides(&proxy);
    assert_eq!(config.max_idle_per_host, 3);
    assert_eq!(config.idle_timeout_seconds, 7);
    assert!(!config.enable_http_keep_alive);
    assert!(!config.enable_http2);
    assert_eq!(config.tcp_keepalive_seconds, 11);
    assert_eq!(config.http2_keep_alive_interval_seconds, 13);
    assert_eq!(config.http2_keep_alive_timeout_seconds, 17);
}

#[test]
fn applying_overrides_twice_changes_nothing_more() {
    let global = PoolConfig::default();
    let mut proxy = create_test_proxy();
    proxy.pool_idle_timeout_seconds = Some(5);
    proxy.pool_enable_http_keep_alive = Some(false);
    let once = global.for_proxy(&proxy);
    let twice = once.for_proxy(&proxy);
    assert_eq!(once.idle_timeout_seconds, twice.idle_timeout_seconds);
    assert_eq!(once.enable_http_keep_alive, twice.enable_http_keep_alive);
    assert_eq!(once.max_idle_per_host, twice.max_idle_per_host);
    assert_eq!(twice.idle_timeout_seconds, 5);
}

#[test]
fn env_values_unset_give_the_defaults() {
    let c = PoolConfig::from_env_values(None, None, None, None, None, None, None);
    let d = PoolConfig::default();
    assert_eq!(c.max_idle_per_host, d.max_idle_per_host);
    assert_eq!(c.idle_timeout_seconds, d.idle_timeout_seconds);
    assert_eq!(c.enable_http_keep_alive, d.enable_http_keep_alive);
    assert_eq!(c.enable_http2, d.enable_http2);
    assert_eq!(c.tcp_keepalive_seconds, d.tcp_keepalive_seconds);
    assert_eq!(c.http2_keep_alive_interval_seconds, d.http2_keep_alive_interval_seconds);
    assert_eq!(c.http2_keep_alive_timeout_seconds, d.http2_keep_alive_timeout_seconds);
}

#[test]
fn env_values_parsed_and_invalid_ones_ignored() {
    let c = PoolConfig::from_env_values(
        Some("50"),
        Some("not-a-number"),
        Some("false"),
        Some("yes"),
        Some("+120"),
        Some("-1"),
        Some("5"),
    );
    assert_eq!(c.max_idle_per_host, 50);
    assert_eq!(c.idle_timeout_seconds, 90);
    assert!(!c.enable_http_keep_alive);
    assert!(c.enable_http2);
    assert_eq!(c.tcp_keepalive_seconds, 120);
    assert_eq!(c.http2_keep_alive_interval_seconds, 30);
    assert_eq!(c.http2_keep_alive_timeout_seconds, 5);
    assert!(c.http2_keep_alive_timeout_is_low());
}

#[test]
fn env_value_too_large_keeps_default() {
    let c = PoolConfig::from_env_values(None, Some("18446744073709551616"), None, None, Some("18446744073709551615"), None, None);
    assert_eq!(c.idle_timeout_seconds, 90);
    assert_eq!(c.tcp_keepalive_seconds, u64::MAX);
}

#[test]
fn keep_alive_timeout_low_threshold() {
    let mut c = PoolConfig::default();
    assert!(!c.http2_keep_alive_timeout_is_low());
    c.http2_keep_alive_timeout_seconds = 10;
    assert!(!c.http2_keep_alive_timeout_is_low());
    c.http2_keep_alive_timeout_seconds = 9;
    assert!(c.http2_keep_alive_timeout_is_low());
}

#[test]
fn idle_limit_from_env_is_clamped() {
    let high = PoolConfig::from_env_values(Some("2000"), None, None, None, None, None, None);
    assert_eq!(high.max_idle_per_host, 1024);
    let low = PoolConfig::from_env_values(Some("1"), None, None, None, None, None, None);
    assert_eq!(low.max_idle_per_host, 4);
    let mid = PoolConfig::from_env_values(Some("300"), None, None, None, None, None, None);
    assert_eq!(mid.max_idle_per_host, 300);
}
