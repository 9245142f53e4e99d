use ferrum_edge::config::types::{
    ConsulConfig, DnsSdConfig, GatewayConfig, KubernetesConfig, LoadBalancerAlgorithm, SdProvider,
    ServiceDiscoveryConfig, Upstream, UpstreamTarget,
};
use ferrum_edge::service_discovery::{
    discovery_round, discovery_task_ids, merge_targets, plan_reconcile, plan_targets_update, prune_stale_targets,
    targets_equal,
};

fn target(host: &str, port: u16, weight: u32) -> UpstreamTarget {
    UpstreamTarget { host: host.to_string(), port, weight, tags: vec![] }
}

fn keys(ts: &[UpstreamTarget]) -> Vec<(String, u16, u32)> {
    ts.iter().map(|t| (t.host.clone(), t.port, t.weight)).collect()
}

fn dns_sd(interval: u64) -> ServiceDiscoveryConfig {
    ServiceDiscoveryConfig {
        provider: SdProvider::DnsSd,
        dns_sd: Some(DnsSdConfig { service_name: "_http._tcp.svc".to_string(), poll_interval_seconds: interval }),
        kubernetes: None,
        consul: None,
        default_weight: 1,
    }
}

fn upstream(id: &str, sd: Option<ServiceDiscoveryConfig>) -> Upstream {
    Upstream {
        id: id.to_string(),
        name: None,
        targets: vec![],
        algorithm: LoadBalancerAlgorithm::RoundRobin,
        hash_on: None,
        service_discovery: sd,
    }
}

#[test]
fn provider_names() {
    assert_eq!(SdProvider::DnsSd.as_str(), "dns_sd");
    assert_eq!(SdProvider::Kubernetes.as_str(), "kubernetes");
    assert_eq!(SdProvider::Consul.as_str(), "consul");
}

#[test]
fn targets_equal_ignores_order_and_weight() {
    let a = vec![target("a", 80, 1), target("b", 81, 1)];
    let b = vec![target("b", 81, 5), target("a", 80, 9)];
    assert!(targets_equal(&a, &b));
    assert!(targets_equal(&b, &a));
    assert!(targets_equal(&a, &a));
}

#[test]
fn targets_equal_detects_differences() {
    let a = vec![target("a", 80, 1), target("b", 81, 1)];
    assert!(!targets_equal(&a, &[target("a", 80, 1)]));
    assert!(!targets_equal(&a, &[target("a", 80, 1), target("b", 82, 1)]));
    assert!(!targets_equal(&a, &[target("a", 80, 1), target("c", 81, 1)]));
    // Multiplicity counts.
    let dup = vec![target("a", 80, 1), target("a", 80, 1)];
    assert!(!targets_equal(&dup, &a));
    assert!(targets_equal(&[], &[]));
}

#[test]
fn merge_keeps_static_targets_and_adds_new_discovered_ones() {
    let st = vec![target("s", 80, 10)];
    let discovered = vec![target("d1", 80, 1), target("s", 80, 1), target("d2", 81, 1)];
    let merged = merge_targets(&st, &discovered);
    assert_eq!(
        keys(&merged),
        vec![("s".to_string(), 80, 10), ("d1".to_string(), 80, 1), ("d2".to_string(), 81, 1)]
    );
}

#[test]
fn merge_with_nothing_discovered_is_the_static_list() {
    let st = vec![target("s", 80, 10), target("t", 90, 2)];
    assert_eq!(keys(&merge_targets(&st, &[])), keys(&st));
    let d = vec![target("x", 1, 1)];
    assert_eq!(keys(&merge_targets(&[], &d)), keys(&d));
}

#[test]
fn unchanged_discovery_round_plans_nothing() {
    let st = vec![target("s", 80, 10)];
    let last = vec![target("a", 80, 1), target("b", 80, 1)];
    let now = vec![target("b", 80, 1), target("a", 80, 1)];
    assert!(plan_targets_update(&st, &last, &now).is_none());
}

#[test]
fn changed_discovery_round_plans_merge_and_warmup() {
    let st = vec![target("s", 80, 10)];
    let last = vec![target("a", 80, 1)];
    let now = vec![target("a", 80, 1), target("c", 8080, 1)];
    let up = plan_targets_update(&st, &last, &now).expect("targets changed");
    assert!(up.stale.is_empty());
    assert_eq!(
        keys(&up.merged),
        vec![("s".to_string(), 80, 10), ("a".to_string(), 80, 1), ("c".to_string(), 8080, 1)]
    );
    assert_eq!(up.warmup_hosts, vec!["a".to_string(), "c".to_string()]);
}

#[test]
fn poll_interval_and_provider_settings() {
    let sd = dns_sd(15);
    assert!(sd.has_provider_settings());
    assert_eq!(sd.poll_interval_seconds(), 15);
    let missing = ServiceDiscoveryConfig {
        provider: SdProvider::Kubernetes,
        dns_sd: None,
        kubernetes: None,
        consul: None,
        default_weight: 1,
    };
    assert!(!missing.has_provider_settings());
    assert_eq!(missing.poll_interval_seconds(), 30);
    let k8s = ServiceDiscoveryConfig {
        provider: SdProvider::Kubernetes,
        dns_sd: None,
        kubernetes: Some(KubernetesConfig {
            namespace: "default".to_string(),
            service_name: "web".to_string(),
            port_name: None,
            label_selector: None,
            poll_interval_seconds: 45,
        }),
        consul: None,
        default_weight: 1,
    };
    assert_eq!(k8s.poll_interval_seconds(), 45);
    let consul = ServiceDiscoveryConfig {
        provider: SdProvider::Consul,
        dns_sd: None,
        kubernetes: None,
        consul: Some(ConsulConfig {
            address: "http://consul:8500".to_string(),
            service_name: "web".to_string(),
            datacenter: None,
            tag: None,
            healthy_only: true,
            token: None,
            poll_interval_seconds: 5,
        }),
        default_weight: 1,
    };
    assert!(consul.has_provider_settings());
    assert_eq!(consul.poll_interval_seconds(), 5);
}

#[test]
fn tasks_start_for_upstreams_with_discovery() {
    let config = GatewayConfig {
        version: "1".to_string(),
        proxies: vec![],
        upstreams: vec![upstream("u1", Some(dns_sd(10))), upstream("u2", None), upstream("u3", Some(dns_sd(20)))],
    };
    assert_eq!(discovery_task_ids(&config), vec!["u1".to_string(), "u3".to_string()]);
}

#[test]
fn reconcile_stops_removed_and_restarts_configured() {
    let config = GatewayConfig {
        version: "1".to_string(),
        proxies: vec![],
        upstreams: vec![upstream("u1", Some(dns_sd(10))), upstream("u2", None)],
    };
    let running = vec!["u1".to_string(), "u2".to_string(), "gone".to_string()];
    let plan = plan_reconcile(&running, &config);
    assert_eq!(plan.stop, vec!["u2".to_string(), "gone".to_string()]);
    assert_eq!(plan.restart, vec!["u1".to_string()]);
}

#[test]
fn merging_twice_changes_nothing() {
    let st = vec![target("s", 80, 10)];
    let d = vec![target("d", 80, 1), target("s", 80, 1)];
    let once = merge_targets(&st, &d);
    let twice = merge_targets(&st, &once);
    assert_eq!(keys(&once), keys(&twice));
}

#[test]
fn discovery_rounds_publish_changes_and_remember_them() {
    let st = vec![target("s", 80, 10)];
    let mut last: Vec<UpstreamTarget> = vec![];
    // A failed round publishes nothing.
    assert!(discovery_round(&st, &mut last, None).is_none());
    assert!(last.is_empty());
    // A new list is published and remembered.
    let up = discovery_round(&st, &mut last, Some(vec![target("a", 80, 1)])).expect("changed");
    assert_eq!(keys(&up.merged), vec![("s".to_string(), 80, 10), ("a".to_string(), 80, 1)]);
    assert_eq!(keys(&last), vec![("a".to_string(), 80, 1)]);
    // The same pairs again: nothing published, the remembered list kept.
    assert!(discovery_round(&st, &mut last, Some(vec![target("a", 80, 7)])).is_none());
    assert_eq!(keys(&last), vec![("a".to_string(), 80, 1)]);
    // A failure keeps the last published list.
    assert!(discovery_round(&st, &mut last, None).is_none());
    assert_eq!(keys(&last), vec![("a".to_string(), 80, 1)]);
}

#[test]
fn pruning_keeps_state_only_for_listed_targets() {
    let merged = vec![target("a", 80, 1), target("b", 81, 1)];
    let watched = vec![("a".to_string(), 80u16), ("a".to_string(), 81u16), ("b".to_string(), 81u16), ("c".to_string(), 80u16)];
    assert_eq!(
        prune_stale_targets(&watched, &merged),
        vec![("a".to_string(), 80u16), ("b".to_string(), 81u16)]
    );
}

#[test]
fn zero_poll_interval_cannot_start() {
    assert!(dns_sd(10).can_start());
    assert!(!dns_sd(0).can_start());
    let missing = ServiceDiscoveryConfig {
        provider: SdProvider::Consul,
        dns_sd: None,
        kubernetes: None,
        consul: None,
        default_weight: 1,
    };
    assert!(!missing.can_start());
}

#[test]
fn publication_names_the_dropped_identities() {
    let st = vec![target("s", 80, 10)];
    let mut last: Vec<UpstreamTarget> = vec![target("a", 80, 1), target("b", 81, 1)];
    let up = discovery_round(&st, &mut last, Some(vec![target("b", 81, 1), target("c", 82, 1)])).expect("changed");
    assert_eq!(up.stale, vec![("a".to_string(), 80u16)]);
}

#[test]
fn upstreams_without_runnable_discovery_get_no_task() {
    let no_settings = ServiceDiscoveryConfig {
        provider: SdProvider::Kubernetes,
        dns_sd: None,
        kubernetes: None,
        consul: None,
        default_weight: 1,
    };
    let config = GatewayConfig {
        version: "1".to_string(),
        proxies: vec![],
        upstreams: vec![
            upstream("u1", Some(dns_sd(10))),
            upstream("u2", Some(no_settings)),
            upstream("u3", Some(dns_sd(0))),
        ],
    };
    assert_eq!(discovery_task_ids(&config), vec!["u1".to_string()]);
    let plan = plan_reconcile(&["u2".to_string(), "u1".to_string()], &config);
    assert_eq!(plan.stop, vec!["u2".to_string()]);
    assert_eq!(plan.restart, vec!["u1".to_string()]);
}
