use ferrum_edge::json::JsonValue;
use ferrum_edge::plugins::access_control::{ip_matches, AccessControl};
use ferrum_edge::plugins::{Consumer, PluginResult, RequestContext};

fn list(key: &str, items: &[&str]) -> (String, JsonValue) {
    (key.to_string(), JsonValue::Array(items.iter().map(|s| JsonValue::String(s.to_string())).collect()))
}

fn ctx(ip: &str, consumer: Option<&str>) -> RequestContext {
    RequestContext {
        client_ip: ip.to_string(),
        identified_consumer: consumer.map(|u| Consumer { id: format!("id-{}", u), username: u.to_string() }),
    }
}

fn rejection(r: PluginResult) -> Option<(u16, String)> {
    match r {
        PluginResult::Continue => None,
        PluginResult::Reject { status_code, body } => Some((status_code, body)),
    }
}

#[test]
fn plugin_name_is_access_control() {
    let ac = AccessControl::new(&JsonValue::Object(vec![]));
    assert_eq!(ac.name(), "access_control");
}

#[test]
fn empty_lists_let_identified_consumers_through() {
    let ac = AccessControl::new(&JsonValue::Object(vec![]));
    assert!(rejection(ac.authorize(&ctx("1.2.3.4", Some("alice")))).is_none());
}

#[test]
fn missing_consumer_is_unauthorized() {
    let ac = AccessControl::new(&JsonValue::Object(vec![]));
    assert_eq!(
        rejection(ac.authorize(&ctx("1.2.3.4", None))),
        Some((401, "{\"error\":\"No consumer identified\"}".to_string()))
    );
}

#[test]
fn blocked_ip_is_refused_even_when_allowed() {
    let ac = AccessControl::new(&JsonValue::Object(vec![
        list("blocked_ips", &["10.0.0.5"]),
        list("allowed_ips", &["10.0.0.5"]),
        list("allowed_consumers", &["alice"]),
    ]));
    assert_eq!(
        rejection(ac.authorize(&ctx("10.0.0.5", Some("alice")))),
        Some((403, "{\"error\":\"IP address is blocked\"}".to_string()))
    );
}

#[test]
fn ip_outside_allow_list_is_refused() {
    let ac = AccessControl::new(&JsonValue::Object(vec![list("allowed_ips", &["192.168.0.0/16"])]));
    assert_eq!(
        rejection(ac.authorize(&ctx("172.16.0.1", Some("alice")))),
        Some((403, "{\"error\":\"IP address not allowed\"}".to_string()))
    );
    assert!(rejection(ac.authorize(&ctx("192.168.0.9", Some("alice")))).is_none());
    assert!(rejection(ac.authorize(&ctx("192.168.44.9", Some("alice")))).is_none());
}

#[test]
fn disallowed_consumer_is_refused_even_when_allowed() {
    let ac = AccessControl::new(&JsonValue::Object(vec![
        list("allowed_consumers", &["alice", "bob"]),
        list("disallowed_consumers", &["bob"]),
    ]));
    assert_eq!(
        rejection(ac.authorize(&ctx("1.1.1.1", Some("bob")))),
        Some((403, "{\"error\":\"Consumer is not allowed\"}".to_string()))
    );
    assert!(rejection(ac.authorize(&ctx("1.1.1.1", Some("alice")))).is_none());
}

#[test]
fn consumer_outside_allow_list_is_refused() {
    let ac = AccessControl::new(&JsonValue::Object(vec![list("allowed_consumers", &["admin"])]));
    assert_eq!(
        rejection(ac.authorize(&ctx("1.1.1.1", Some("guest")))),
        Some((403, "{\"error\":\"Consumer is not allowed\"}".to_string()))
    );
    assert!(rejection(ac.authorize(&ctx("1.1.1.1", Some("admin")))).is_none());
}

#[test]
fn non_string_list_items_and_non_arrays_are_ignored() {
    let ac = AccessControl::new(&JsonValue::Object(vec![
        ("blocked_ips".to_string(), JsonValue::String("1.1.1.1".to_string())),
        ("allowed_consumers".to_string(), JsonValue::Array(vec![JsonValue::Number("7".to_string()), JsonValue::String("eve".to_string())])),
    ]));
    assert!(rejection(ac.authorize(&ctx("1.1.1.1", Some("eve")))).is_none());
    assert!(rejection(ac.authorize(&ctx("1.1.1.1", Some("mallory")))).is_some());
}

#[test]
fn ip_rules_exact_and_cidr_blocks() {
    assert!(ip_matches("10.1.2.3", "10.1.2.3"));
    assert!(!ip_matches("10.1.2.4", "10.1.2.3"));
    assert!(ip_matches("10.1.2.3", "10.0.0.0/8"));
    assert!(!ip_matches("11.1.2.3", "10.0.0.0/8"));
    assert!(ip_matches("192.168.1.7", "192.168.0.0/16"));
    assert!(!ip_matches("192.169.0.1", "192.168.0.0/16"));
    assert!(ip_matches("172.31.255.255", "172.16.0.0/12"));
    assert!(!ip_matches("172.32.0.0", "172.16.0.0/12"));
    assert!(ip_matches("10.1.2.3", "10.1.2.3/32"));
    assert!(!ip_matches("10.1.2.34", "10.1.2.3/32"));
    assert!(ip_matches("8.8.8.8", "0.0.0.0/0"));
    assert!(!ip_matches("10.1.2.3", "10.0.0.0/33"));
    assert!(!ip_matches("10.1.2.3", "10.0.0/8"));
    assert!(!ip_matches("10.1.2.3", "10.0.0.256/8"));
    assert!(!ip_matches("010.1.2.3", "10.0.0.0/8"));
    assert!(ip_matches("::1", "::1"));
    assert!(!ip_matches("::1", "::/0"));
}
