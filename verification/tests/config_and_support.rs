use std::time::Duration;

use ferrum_edge::config::file_loader::{
    config_file_version, config_format_for_path, parse_config_document, validation_failure_message, ConfigFormat,
};
use ferrum_edge::config::migrations::v001_initial_schema::{
    V001InitialSchema, COMPATIBLE_UPSTREAMS_PK_FIX_CHECKSUM_AFTER, COMPATIBLE_UPSTREAMS_PK_FIX_CHECKSUM_BEFORE,
};
use ferrum_edge::config::migrations::v002_add_upstream_id::{V002AddUpstreamId, ADD_UPSTREAM_ID_SQL};
use ferrum_edge::config::migrations::v002_service_discovery::{
    V002ServiceDiscovery, ADD_SERVICE_DISCOVERY_SQL, SQLITE_FOREIGN_KEYS_SQL,
};
use ferrum_edge::config::types::{AuthMode, BackendProtocol, GatewayConfig, Proxy};
use ferrum_edge::config::EnvConfig;
use ferrum_edge::dns::{
    cache_entry_usable, effective_ttl_seconds, needs_refresh, refresh_candidates, refresh_check_interval_seconds,
    refresh_outcome, resolution_source, RefreshOutcome, ResolutionSource,
};
use ferrum_edge::grpc::dp_client::{bearer_authorization, tls_domain_name, DpGrpcTlsConfig};
use ferrum_edge::http3::client::{backend_authority, method_for, request_authority, HttpMethod};
use ferrum_edge::http3::config::Http3ServerConfig;
use ferrum_edge::json::JsonValue;
use ferrum_edge::parse::{parse_bool, parse_u64, parse_usize};

fn proxy(id: &str, hosts: &[&str], listen_path: &str, protocol: BackendProtocol) -> Proxy {
    Proxy {
        id: id.to_string(),
        name: None,
        hosts: hosts.iter().map(|h| h.to_string()).collect(),
        listen_path: listen_path.to_string(),
        backend_protocol: protocol,
        backend_host: "svc.internal".to_string(),
        backend_port: 9443,
        backend_path: None,
        strip_listen_path: true,
        preserve_host_header: false,
        backend_connect_timeout_ms: 5000,
        backend_read_timeout_ms: 30000,
        backend_write_timeout_ms: 30000,
        backend_tls_client_cert_path: None,
        backend_tls_client_key_path: None,
        backend_tls_verify_server_cert: true,
        backend_tls_server_ca_cert_path: None,
        dns_override: None,
        dns_cache_ttl_seconds: None,
        auth_mode: AuthMode::Single,
        plugins: vec![],
        pool_max_idle_per_host: None,
        pool_idle_timeout_seconds: None,
        pool_enable_http_keep_alive: None,
        pool_enable_http2: None,
        pool_tcp_keepalive_seconds: None,
        pool_http2_keep_alive_interval_seconds: None,
        pool_http2_keep_alive_timeout_seconds: None,
    }
}

#[test]
fn initial_schema_identity() {
    let m = V001InitialSchema;
    assert_eq!(m.version(), 1);
    assert_eq!(m.name(), "initial_schema");
    assert!(COMPATIBLE_UPSTREAMS_PK_FIX_CHECKSUM_BEFORE.starts_with("sha256:"));
    assert!(COMPATIBLE_UPSTREAMS_PK_FIX_CHECKSUM_AFTER.starts_with("sha256:"));
    assert_ne!(COMPATIBLE_UPSTREAMS_PK_FIX_CHECKSUM_BEFORE, COMPATIBLE_UPSTREAMS_PK_FIX_CHECKSUM_AFTER);
}

#[test]
fn initial_schema_checksum_is_sha256_of_both_sources() {
    let m = V001InitialSchema;
    assert_eq!(
        m.checksum_from_sources(b"", b""),
        "sha256:e3b0c44298fc1c149afbf4c8996fb92427ae41e4649b934ca495991b7852b855"
    );
    assert_eq!(
        m.checksum_from_sources(b"ab", b"c"),
        "sha256:ba7816bf8f01cfea414140de5dae2223b00361a396177a9cb410ff61f20015ad"
    );
    assert_eq!(m.checksum_from_sources(b"a", b"bc"), m.checksum_from_sources(b"abc", b""));
    assert_eq!(m.checksum_from_sources(b"x", b"y").len(), 7 + 64);
}

#[test]
fn add_upstream_id_identity() {
    let m = V002AddUpstreamId;
    assert_eq!(m.version(), 2);
    assert_eq!(m.name(), "add_upstream_id");
    assert_eq!(m.checksum(), "v002_add_upstream_id_e5f6g7h8");
    assert_eq!(ADD_UPSTREAM_ID_SQL, "ALTER TABLE proxies ADD COLUMN upstream_id TEXT");
}

#[test]
fn duplicate_column_errors_are_recognised() {
    assert!(V002AddUpstreamId::is_duplicate_column_error("duplicate column name: upstream_id"));
    assert!(V002AddUpstreamId::is_duplicate_column_error("Duplicate column name 'upstream_id'"));
    assert!(V002AddUpstreamId::is_duplicate_column_error("column \"upstream_id\" of relation \"proxies\" ALREADY EXISTS"));
    assert!(!V002AddUpstreamId::is_duplicate_column_error("no such table: proxies"));
}

#[test]
fn service_discovery_migration_statements() {
    let m = V002ServiceDiscovery;
    assert_eq!(m.version(), 2);
    assert_eq!(m.name(), "service_discovery");
    assert_eq!(m.checksum(), "v002_add_service_discovery_column");
    assert_eq!(m.statements("sqlite"), vec![SQLITE_FOREIGN_KEYS_SQL, ADD_SERVICE_DISCOVERY_SQL]);
    assert_eq!(m.statements("postgres"), vec![ADD_SERVICE_DISCOVERY_SQL]);
    assert_eq!(m.statements("mysql"), vec!["ALTER TABLE upstreams ADD COLUMN service_discovery TEXT"]);
}

#[test]
fn config_format_by_extension() {
    assert_eq!(config_format_for_path("/etc/ferrum/config.yaml"), ConfigFormat::Yaml);
    assert_eq!(config_format_for_path("config.YML"), ConfigFormat::Yaml);
    assert_eq!(config_format_for_path("config.Json"), ConfigFormat::Json);
    assert_eq!(config_format_for_path("config.toml"), ConfigFormat::Unknown);
    assert_eq!(config_format_for_path("config"), ConfigFormat::Unknown);
    assert_eq!(config_format_for_path("dir.yaml/config"), ConfigFormat::Unknown);
}

#[test]
fn config_version_defaults_to_one() {
    let v2 = JsonValue::Object(vec![("version".to_string(), JsonValue::String("2".to_string()))]);
    assert_eq!(config_file_version(&v2), "2");
    let numeric = JsonValue::Object(vec![("version".to_string(), JsonValue::Number("2".to_string()))]);
    assert_eq!(config_file_version(&numeric), "1");
    assert_eq!(config_file_version(&JsonValue::Object(vec![])), "1");
    assert_eq!(config_file_version(&JsonValue::Null), "1");
}

#[test]
fn unique_listen_paths_pass_validation() {
    let config = GatewayConfig {
        version: "1".to_string(),
        proxies: vec![
            proxy("a", &[], "/a", BackendProtocol::Http),
            proxy("b", &[], "/b", BackendProtocol::Http),
            proxy("c", &["x.com"], "/a", BackendProtocol::Http),
            proxy("d", &["y.com"], "/a", BackendProtocol::Http),
            proxy("e", &[], "/a", BackendProtocol::Tcp),
        ],
        upstreams: vec![],
    };
    assert!(config.validate_unique_listen_paths().is_ok());
}

#[test]
fn duplicate_listen_paths_are_reported() {
    let config = GatewayConfig {
        version: "1".to_string(),
        proxies: vec![
            proxy("a", &[], "/a", BackendProtocol::Http),
            proxy("b", &[], "/a", BackendProtocol::Grpc),
            proxy("c", &["x.com", "y.com"], "/c", BackendProtocol::Http),
            proxy("d", &["y.com"], "/c", BackendProtocol::Http),
        ],
        upstreams: vec![],
    };
    assert_eq!(
        config.validate_unique_listen_paths(),
        Err(vec![
            "duplicate listen_path '/a' on proxy 'b'".to_string(),
            "duplicate listen_path '/c' on proxy 'd'".to_string(),
        ])
    );
}

#[test]
fn dns_ttl_and_refresh_rules() {
    assert_eq!(effective_ttl_seconds(Some(10), 300), 10);
    assert_eq!(effective_ttl_seconds(None, 300), 300);
    assert_eq!(refresh_check_interval_seconds(300), 75);
    assert_eq!(refresh_check_interval_seconds(12), 5);
    assert_eq!(refresh_check_interval_seconds(0), 5);
    assert!(needs_refresh(10, 100));
    assert!(!needs_refresh(25, 100));
    assert!(!needs_refresh(0, 100));
}

#[test]
fn http3_methods() {
    assert_eq!(method_for("POST"), HttpMethod::Post);
    assert_eq!(method_for("PUT"), HttpMethod::Put);
    assert_eq!(method_for("DELETE"), HttpMethod::Delete);
    assert_eq!(method_for("PATCH"), HttpMethod::Patch);
    assert_eq!(method_for("HEAD"), HttpMethod::Head);
    assert_eq!(method_for("OPTIONS"), HttpMethod::Options);
    assert_eq!(method_for("GET"), HttpMethod::Get);
    assert_eq!(method_for("post"), HttpMethod::Get);
    assert_eq!(method_for("TRACE"), HttpMethod::Get);
}

#[test]
fn http3_backend_authority() {
    let p = proxy("p", &[], "/", BackendProtocol::H3);
    assert_eq!(backend_authority(Some("h.example"), Some(8443), &p), ("h.example".to_string(), 8443));
    assert_eq!(backend_authority(None, None, &p), ("svc.internal".to_string(), 9443));
    assert_eq!(backend_authority(Some("h.example"), None, &p), ("h.example".to_string(), 9443));
}

#[test]
fn http3_server_config_from_env() {
    let c = Http3ServerConfig::from_env_config(&EnvConfig { http3_max_streams: 250, http3_idle_timeout: 42 });
    assert_eq!(c.max_concurrent_streams, 250);
    assert_eq!(c.idle_timeout, Duration::from_secs(42));
    assert_eq!(c.idle_timeout.as_secs(), 42);
    let d = Http3ServerConfig::default();
    assert_eq!(d.max_concurrent_streams, 100);
    assert_eq!(d.idle_timeout.as_secs(), 30);
}

#[test]
fn dp_tls_client_identity_needs_cert_and_key() {
    let d = DpGrpcTlsConfig::default();
    assert!(d.client_identity().is_none());
    assert!(!d.insecure_skip_verify);
    let half = DpGrpcTlsConfig { client_cert_pem: Some(b"cert".to_vec()), ..DpGrpcTlsConfig::default() };
    assert!(half.client_identity().is_none());
    let full = DpGrpcTlsConfig {
        client_cert_pem: Some(b"cert".to_vec()),
        client_key_pem: Some(b"key".to_vec()),
        ..DpGrpcTlsConfig::default()
    };
    let (cert, key) = full.client_identity().expect("both set");
    assert_eq!(cert.as_slice(), b"cert");
    assert_eq!(key.as_slice(), b"key");
}

#[test]
fn json_members_and_string_lists() {
    let doc = JsonValue::Object(vec![
        ("a".to_string(), JsonValue::Bool(true)),
        ("list".to_string(), JsonValue::Array(vec![JsonValue::String("x".to_string()), JsonValue::Null, JsonValue::String("y".to_string())])),
        ("a".to_string(), JsonValue::Bool(false)),
    ]);
    assert!(matches!(doc.member("a"), Some(JsonValue::Bool(true))));
    assert!(doc.member("b").is_none());
    assert_eq!(doc.string_list("list"), vec!["x".to_string(), "y".to_string()]);
    assert!(doc.string_list("a").is_empty());
    assert!(JsonValue::Null.member("a").is_none());
}

#[test]
fn numbers_and_flags_parse_like_std() {
    assert_eq!(parse_u64("42"), Some(42));
    assert_eq!(parse_u64("+7"), Some(7));
    assert_eq!(parse_u64("007"), Some(7));
    assert_eq!(parse_u64(""), None);
    assert_eq!(parse_u64("+"), None);
    assert_eq!(parse_u64("-1"), None);
    assert_eq!(parse_u64(" 1"), None);
    assert_eq!(parse_u64("18446744073709551615"), Some(u64::MAX));
    assert_eq!(parse_u64("18446744073709551616"), None);
    assert_eq!(parse_usize("12"), Some(12));
    assert_eq!(parse_bool("true"), Some(true));
    assert_eq!(parse_bool("false"), Some(false));
    assert_eq!(parse_bool("True"), None);
    assert_eq!(parse_bool("1"), None);
}

#[test]
fn http3_request_authority_reads_the_url() {
    let p = proxy("p", &[], "/", BackendProtocol::H3);
    assert_eq!(request_authority(&p, "https://h.example:8443/x?y=1"), Ok(("h.example".to_string(), 8443)));
    assert_eq!(request_authority(&p, "https://h.example/x"), Ok(("h.example".to_string(), 9443)));
    assert_eq!(request_authority(&p, "/only/a/path"), Ok(("svc.internal".to_string(), 9443)));
    let err = request_authority(&p, "http://bad host/").unwrap_err();
    assert!(err.starts_with("Invalid backend URL: "));
}

#[test]
fn control_plane_tls_name_and_token() {
    assert_eq!(tls_domain_name("https://cp.example.com:50051"), Some("cp.example.com".to_string()));
    assert_eq!(tls_domain_name("/no/host"), None);
    assert_eq!(tls_domain_name("http://bad host/"), None);
    assert_eq!(bearer_authorization("s3cr3t"), "Bearer s3cr3t");
}

#[test]
fn resolution_sources_in_priority_order() {
    assert!(matches!(resolution_source(Some("10.0.0.1"), Some("10.0.0.2"), true), ResolutionSource::ProxyOverride(a) if a == "10.0.0.1"));
    assert!(matches!(resolution_source(None, Some("10.0.0.2"), true), ResolutionSource::GlobalOverride(a) if a == "10.0.0.2"));
    assert!(matches!(resolution_source(None, None, true), ResolutionSource::Cached));
    assert!(matches!(resolution_source(None, None, false), ResolutionSource::Lookup));
    assert!(cache_entry_usable(1, 1));
    assert!(!cache_entry_usable(0, 3));
    assert!(!cache_entry_usable(5, 0));
}

#[test]
fn background_refresh_picks_entries_near_expiry() {
    let entries = vec![
        ("fresh".to_string(), 90u128, 100u128),
        ("due".to_string(), 20u128, 100u128),
        ("expired".to_string(), 0u128, 100u128),
        ("also-due".to_string(), 1u128, 100u128),
        // 100 s left of its own 600 s: due, whatever the default TTL.
        ("long-ttl".to_string(), 100u128, 600u128),
        ("long-ttl-fresh".to_string(), 200u128, 600u128),
    ];
    assert_eq!(
        refresh_candidates(&entries),
        vec!["due".to_string(), "also-due".to_string(), "long-ttl".to_string()]
    );
    assert!(refresh_candidates(&vec![]).is_empty());
}

#[test]
fn config_documents_follow_the_extension() {
    let yaml = "version: \"2\"\nproxies: []\n";
    let doc = parse_config_document("gw.yaml", yaml).expect("yaml parses");
    assert_eq!(config_file_version(&doc), "2");
    let json = "{\"version\": \"3\", \"proxies\": []}";
    let doc = parse_config_document("gw.json", json).expect("json parses");
    assert_eq!(config_file_version(&doc), "3");
    // JSON is valid YAML too: an unknown extension reads it as YAML first.
    let doc = parse_config_document("gw.conf", json).expect("yaml first");
    assert_eq!(config_file_version(&doc), "3");
    assert!(parse_config_document("gw.json", yaml).is_err());
    assert!(parse_config_document("gw.yml", "a: [1, 2").is_err());
    assert!(parse_config_document("gw.txt", "{\"a\": [1, 2").is_err());
}

#[test]
fn parsed_documents_keep_members_and_numbers() {
    let doc = parse_config_document("x.json", "{\"n\": 42, \"l\": [\"a\", true, null]}").unwrap();
    assert!(matches!(doc.member("n"), Some(JsonValue::Number(n)) if n == "42"));
    assert_eq!(doc.string_list("l"), vec!["a".to_string()]);
}

#[test]
fn validation_failure_names_the_count() {
    assert_eq!(validation_failure_message(1), "Configuration validation failed: 1 duplicate listen_path(s) found");
    assert_eq!(validation_failure_message(0), "Configuration validation failed: 0 duplicate listen_path(s) found");
    assert_eq!(validation_failure_message(305), "Configuration validation failed: 305 duplicate listen_path(s) found");
}

#[test]
fn yaml_documents_go_through_yaml_values() {
    // Duplicate keys are refused, as serde_yaml's own values refuse them.
    assert!(parse_config_document("gw.yaml", "a: 1\na: 2\n").is_err());
    // Non-string keys become strings.
    let doc = parse_config_document("gw.yaml", "1: x\n").expect("parses");
    assert!(matches!(doc.member("1"), Some(JsonValue::String(s)) if s == "x"));
}

#[test]
fn refresh_outcomes_and_lookup_sources() {
    assert_eq!(refresh_outcome(600, true, 2), RefreshOutcome::Renew { ttl_nanos: 600 });
    assert_eq!(refresh_outcome(600, true, 0), RefreshOutcome::Keep);
    assert_eq!(refresh_outcome(600, false, 0), RefreshOutcome::Keep);
    assert!(resolution_source(None, None, false).performs_lookup());
    assert!(!resolution_source(Some("1.2.3.4"), None, false).performs_lookup());
    assert!(!resolution_source(None, Some("1.2.3.4"), false).performs_lookup());
    assert!(!resolution_source(None, None, true).performs_lookup());
}
