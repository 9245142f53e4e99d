//! Service discovery: how discovered targets are compared with the last
//! known ones, merged with an upstream's static targets, and which tasks a
//! configuration change stops or (re)starts.
use vstd::prelude::*;
use vstd::multiset::Multiset;
use vstd::seq_lib::{to_multiset_build, to_multiset_remove, to_multiset_len, to_multiset_contains};

use crate::config::types::{
    GatewayConfig, SdProvider, ServiceDiscoveryConfig, Upstream, UpstreamTarget, UpstreamTargetView, target_views,
};

verus! {

broadcast use vstd::multiset::group_multiset_axioms;

/// The dial identity of a target: its host and port.
pub open spec fn target_key(t: UpstreamTargetView) -> (Seq<char>, u16) {
    (t.host, t.port)
}

/// The dial identities of a list of targets, in order.
pub open spec fn target_keys(ts: Seq<UpstreamTargetView>) -> Seq<(Seq<char>, u16)> {
    ts.map_values(|t: UpstreamTargetView| target_key(t))
}

/// Two target lists hold the same host:port pairs, as many times each,
/// in any order.
pub open spec fn spec_targets_equal(a: Seq<UpstreamTargetView>, b: Seq<UpstreamTargetView>) -> bool {
    target_keys(a).to_multiset() == target_keys(b).to_multiset()
}

/// A target whose host:port is not among the static targets.
pub open spec fn fresh_for(st: Seq<UpstreamTargetView>) -> spec_fn(UpstreamTargetView) -> bool {
    |t: UpstreamTargetView| !target_keys(st).contains(target_key(t))
}

/// The static targets, then every discovered target whose host:port is not
/// among the static ones (static targets keep their weight and tags).
pub open spec fn spec_merge_targets(st: Seq<UpstreamTargetView>, discovered: Seq<UpstreamTargetView>) -> Seq<UpstreamTargetView> {
    st + discovered.filter(fresh_for(st))
}

impl SdProvider {
    /// The provider's name in configuration and logs.
    pub open spec fn spec_as_str(self) -> Seq<char> {
        match self {
            SdProvider::DnsSd => "dns_sd"@,
            SdProvider::Kubernetes => "kubernetes"@,
            SdProvider::Consul => "consul"@,
        }
    }

    /// The provider's name in configuration and logs.
    pub fn as_str(&self) -> (s: &'static str)
        ensures
            s@ == self.spec_as_str(),
    {
        match self {
            SdProvider::DnsSd => "dns_sd",
            SdProvider::Kubernetes => "kubernetes",
            SdProvider::Consul => "consul",
        }
    }
}

/// Whether two targets have the same host and port.
fn same_dial_identity(a: &UpstreamTarget, b: &UpstreamTarget) -> (r: bool)
    ensures
        r == (target_key(a@) == target_key(b@)),
{
    a.port == b.port && a.host == b.host
}

proof fn lemma_prefix_count_le<A>(s: Seq<A>, i: int, x: A)
    requires
        0 <= i <= s.len(),
    ensures
        s.take(i).to_multiset().count(x) <= s.to_multiset().count(x),
    decreases s.len() - i,
{
    if i < s.len() {
        lemma_prefix_count_le(s, i + 1, x);
        assert(s.take(i + 1) =~= s.take(i).push(s[i]));
        to_multiset_build(s.take(i), s[i]);
    } else {
        assert(s.take(i) =~= s);
    }
}

/// Whether two target lists are equivalent: the same host:port pairs,
/// ignoring order.
pub fn targets_equal(a: &[UpstreamTarget], b: &[UpstreamTarget]) -> (r: bool)
    ensures
        r == spec_targets_equal(target_views(a@), target_views(b@)),
{
    let ghost ka = target_keys(target_views(a@));
    let ghost kb = target_keys(target_views(b@));
    if a.len() != b.len() {
        proof {
            to_multiset_len(ka);
            to_multiset_len(kb);
            assert(ka.len() == a.len());
            assert(kb.len() == b.len());
        }
        return false;
    }
    // Indices of `b` not yet paired with an element of `a`.
    let mut remaining: Vec<usize> = Vec::new();
    let mut j: usize = 0;
    while j < b.len()
        invariant
            j <= b.len(),
            remaining@.len() == j,
            forall|k: int| 0 <= k < j ==> #[trigger] remaining@[k] == k,
        decreases b.len() - j,
    {
        remaining.push(j);
        j += 1;
    }
    let ghost rem_keys = remaining@.map_values(|k: usize| kb[k as int]);
    assert(rem_keys =~= kb);
    assert(ka.take(0) =~= Seq::<(Seq<char>, u16)>::empty());
    proof {
        to_multiset_len(ka.take(0));
        vstd::multiset::lemma_multiset_empty_len(ka.take(0).to_multiset());
    }
    assert(ka.take(0).to_multiset() =~= Multiset::empty());
    let mut i: usize = 0;
    while i < a.len()
        invariant
            ka == target_keys(target_views(a@)),
            kb == target_keys(target_views(b@)),
            a.len() == b.len(),
            i <= a.len(),
            remaining@.len() == b.len() - i,
            forall|k: int| 0 <= k < remaining@.len() ==> #[trigger] remaining@[k] < b.len(),
            ka.take(i as int).to_multiset().add(remaining@.map_values(|k: usize| kb[k as int]).to_multiset())
                == kb.to_multiset(),
        decreases a.len() - i,
    {
        let ghost rk = remaining@.map_values(|k: usize| kb[k as int]);
        let mut found: Option<usize> = None;
        let mut p: usize = 0;
        while p < remaining.len()
            invariant
                rk == remaining@.map_values(|k: usize| kb[k as int]),
                kb == target_keys(target_views(b@)),
                ka == target_keys(target_views(a@)),
                i < a.len(),
                forall|k: int| 0 <= k < remaining@.len() ==> #[trigger] remaining@[k] < b.len(),
                p <= remaining.len(),
                found matches Some(q) ==> q < remaining.len() && rk[q as int] == ka[i as int],
                found is None ==> forall|q: int| 0 <= q < p ==> #[trigger] rk[q] != ka[i as int],
            decreases remaining.len() - p,
        {
            if found.is_none() {
                let idx = remaining[p];
                if same_dial_identity(&a[i], &b[idx]) {
                    found = Some(p);
                }
            }
            p += 1;
        }
        assert(ka.take(i + 1) =~= ka.take(i as int).push(ka[i as int]));
        proof {
            to_multiset_build(ka.take(i as int), ka[i as int]);
        }
        match found {
            Some(q) => {
                let ghost x = ka[i as int];
                remaining.remove(q);
                proof {
                    to_multiset_remove(rk, q as int);
                    assert(remaining@.map_values(|k: usize| kb[k as int]) =~= rk.remove(q as int));
                    assert(rk.to_multiset().count(x) > 0) by {
                        to_multiset_contains(rk, x);
                        assert(rk[q as int] == x);
                    }
                    assert(ka.take(i + 1).to_multiset().add(rk.remove(q as int).to_multiset()) =~= kb.to_multiset());
                }
            },
            None => {
                proof {
                    let x = ka[i as int];
                    to_multiset_contains(rk, x);
                    assert(!rk.contains(x));
                    lemma_prefix_count_le(ka, i + 1, x);
                    assert(ka.to_multiset().count(x) > kb.to_multiset().count(x));
                }
                return false;
            },
        }
        i += 1;
    }
    proof {
        assert(ka.take(a.len() as int) =~= ka);
        let rest = remaining@.map_values(|k: usize| kb[k as int]);
        assert(rest.len() == 0);
        to_multiset_len(rest);
        vstd::multiset::lemma_multiset_empty_len(rest.to_multiset());
        assert(ka.to_multiset().add(rest.to_multiset()) =~= ka.to_multiset());
    }
    true
}


/// Whether some target of the list has the host and port of `t`.
fn lists_dial_identity(targets: &[UpstreamTarget], t: &UpstreamTarget) -> (r: bool)
    ensures
        r == target_keys(target_views(targets@)).contains(target_key(t@)),
{
    let ghost keys = target_keys(target_views(targets@));
    let mut i: usize = 0;
    while i < targets.len()
        invariant
            keys == target_keys(target_views(targets@)),
            i <= targets.len(),
            forall|j: int| 0 <= j < i ==> #[trigger] keys[j] != target_key(t@),
        decreases targets.len() - i,
    {
        if same_dial_identity(&targets[i], t) {
            assert(keys[i as int] == target_key(t@));
            return true;
        }
        i += 1;
    }
    false
}

/// Merge static targets with discovered ones (see [`spec_merge_targets`]).
pub fn merge_targets(static_targets: &[UpstreamTarget], discovered: &[UpstreamTarget]) -> (merged: Vec<UpstreamTarget>)
    ensures
        target_views(merged@) == spec_merge_targets(target_views(static_targets@), target_views(discovered@)),
{
    let ghost sv = target_views(static_targets@);
    let ghost dv = target_views(discovered@);
    let mut merged: Vec<UpstreamTarget> = Vec::new();
    let mut i: usize = 0;
    while i < static_targets.len()
        invariant
            sv == target_views(static_targets@),
            i <= static_targets.len(),
            target_views(merged@) == sv.take(i as int),
        decreases static_targets.len() - i,
    {
        let ghost before = merged@;
        let c = static_targets[i].clone();
        assert(c@ == static_targets@[i as int]@);
        merged.push(c);
        assert(target_views(merged@) =~= target_views(before).push(sv[i as int]));
        assert(sv.take(i + 1) =~= sv.take(i as int).push(sv[i as int]));
        i += 1;
    }
    assert(sv.take(static_targets.len() as int) =~= sv);
    assert(dv.take(0).filter(fresh_for(sv)) =~= Seq::<UpstreamTargetView>::empty()) by {
        reveal(Seq::filter);
    }
    let mut j: usize = 0;
    while j < discovered.len()
        invariant
            sv == target_views(static_targets@),
            dv == target_views(discovered@),
            j <= discovered.len(),
            target_views(merged@) == sv + dv.take(j as int).filter(fresh_for(sv)),
        decreases discovered.len() - j,
    {
        let t = &discovered[j];
        proof {
            assert(dv.take(j + 1) =~= dv.take(j as int).push(dv[j as int]));
            dv.take(j as int).lemma_filter_push(dv[j as int], fresh_for(sv));
        }
        let ghost before = merged@;
        if !lists_dial_identity(static_targets, t) {
            merged.push(t.clone());
            assert(target_views(merged@) =~= target_views(before).push(t@));
        }
        j += 1;
    }
    assert(dv.take(discovered.len() as int) =~= dv);
    merged
}


/// What a discovery round asks of the gateway when the targets changed.
#[derive(Debug)]
pub struct TargetsUpdate {
    /// Static and discovered targets merged: the upstream's new target list.
    pub merged: Vec<UpstreamTarget>,
    /// Host names of the discovered targets, to resolve ahead of use.
    pub warmup_hosts: Vec<String>,
    /// Dial identities (host, port) of the previously published list that the
    /// new list drops: their health and circuit-breaker state is pruned.
    pub stale: Vec<(String, u16)>,
}

/// The dial identities of `previous` that `merged` no longer lists, in order.
pub open spec fn spec_stale_identities(previous: Seq<UpstreamTargetView>, merged: Seq<UpstreamTargetView>) -> Seq<(Seq<char>, u16)> {
    target_keys(previous).filter(|k: (Seq<char>, u16)| !target_keys(merged).contains(k))
}

/// The dial identities of `previous` that `merged` no longer lists (see
/// [`spec_stale_identities`]).
pub fn stale_identities(previous: &[UpstreamTarget], merged: &[UpstreamTarget]) -> (stale: Vec<(String, u16)>)
    ensures
        identity_views(stale@) == spec_stale_identities(target_views(previous@), target_views(merged@)),
{
    let ghost pv = target_keys(target_views(previous@));
    let ghost pred = |k: (Seq<char>, u16)| !target_keys(target_views(merged@)).contains(k);
    let mut stale: Vec<(String, u16)> = Vec::new();
    assert(pv.take(0).filter(pred) =~= Seq::<(Seq<char>, u16)>::empty()) by {
        reveal(Seq::filter);
    }
    let mut i: usize = 0;
    while i < previous.len()
        invariant
            pv == target_keys(target_views(previous@)),
            pred == |k: (Seq<char>, u16)| !target_keys(target_views(merged@)).contains(k),
            i <= previous.len(),
            identity_views(stale@) == pv.take(i as int).filter(pred),
        decreases previous.len() - i,
    {
        proof {
            assert(pv.take(i + 1) =~= pv.take(i as int).push(pv[i as int]));
            pv.take(i as int).lemma_filter_push(pv[i as int], pred);
        }
        let ghost before = stale@;
        if !lists_dial_identity(merged, &previous[i]) {
            stale.push((previous[i].host.clone(), previous[i].port));
            assert(identity_views(stale@) =~= identity_views(before).push(pv[i as int]));
        }
        i += 1;
    }
    assert(pv.take(previous.len() as int) =~= pv);
    stale
}

/// The hosts of a list of targets, in order.
pub open spec fn target_hosts(ts: Seq<UpstreamTargetView>) -> Seq<Seq<char>> {
    ts.map_values(|t: UpstreamTargetView| t.host)
}

/// Decide on a successful discovery round: nothing to do when the discovered
/// targets are the last known ones (same host:port pairs); otherwise the
/// merged target list to publish and the hosts to warm up. The discovered
/// list then becomes the last known one.
pub fn plan_targets_update(
    static_targets: &[UpstreamTarget],
    last_discovered: &[UpstreamTarget],
    discovered: &[UpstreamTarget],
) -> (u: Option<TargetsUpdate>)
    ensures
        u is None <==> spec_targets_equal(target_views(discovered@), target_views(last_discovered@)),
        u matches Some(up) ==> target_views(up.merged@) == spec_merge_targets(
            target_views(static_targets@),
            target_views(discovered@),
        ) && up.warmup_hosts@.map_values(|h: String| h@) == target_hosts(target_views(discovered@))
            && identity_views(up.stale@) == spec_stale_identities(
            spec_merge_targets(target_views(static_targets@), target_views(last_discovered@)),
            spec_merge_targets(target_views(static_targets@), target_views(discovered@)),
        ),
{
    if targets_equal(discovered, last_discovered) {
        return None;
    }
    let merged = merge_targets(static_targets, discovered);
    let previous = merge_targets(static_targets, last_discovered);
    let stale = stale_identities(&previous, &merged);
    let mut warmup_hosts: Vec<String> = Vec::new();
    let mut i: usize = 0;
    while i < discovered.len()
        invariant
            i <= discovered.len(),
            warmup_hosts@.len() == i,
            forall|j: int| 0 <= j < i ==> #[trigger] warmup_hosts@[j]@ == discovered@[j].host@,
        decreases discovered.len() - i,
    {
        warmup_hosts.push(discovered[i].host.clone());
        i += 1;
    }
    assert(warmup_hosts@.map_values(|h: String| h@) =~= target_hosts(target_views(discovered@)));
    Some(TargetsUpdate { merged, warmup_hosts, stale })
}

impl ServiceDiscoveryConfig {
    /// The settings block of the chosen provider is present.
    pub open spec fn spec_has_provider_settings(&self) -> bool {
        match self.provider {
            SdProvider::DnsSd => self.dns_sd is Some,
            SdProvider::Kubernetes => self.kubernetes is Some,
            SdProvider::Consul => self.consul is Some,
        }
    }

    /// Whether the chosen provider has its settings block; without it no
    /// discovery task is started.
    pub fn has_provider_settings(&self) -> (r: bool)
        ensures
            r == self.spec_has_provider_settings(),
    {
        match self.provider {
            SdProvider::DnsSd => self.dns_sd.is_some(),
            SdProvider::Kubernetes => self.kubernetes.is_some(),
            SdProvider::Consul => self.consul.is_some(),
        }
    }

    /// The poll interval of the chosen provider, 30 seconds without its settings.
    pub open spec fn spec_poll_interval_seconds(&self) -> u64 {
        match self.provider {
            SdProvider::DnsSd => match self.dns_sd {
                Some(c) => c.poll_interval_seconds,
                None => 30,
            },
            SdProvider::Kubernetes => match self.kubernetes {
                Some(c) => c.poll_interval_seconds,
                None => 30,
            },
            SdProvider::Consul => match self.consul {
                Some(c) => c.poll_interval_seconds,
                None => 30,
            },
        }
    }

    /// The poll interval of the chosen provider, in seconds.
    pub fn poll_interval_seconds(&self) -> (s: u64)
        ensures
            s == self.spec_poll_interval_seconds(),
    {
        match self.provider {
            SdProvider::DnsSd => match &self.dns_sd {
                Some(c) => c.poll_interval_seconds,
                None => 30,
            },
            SdProvider::Kubernetes => match &self.kubernetes {
                Some(c) => c.poll_interval_seconds,
                None => 30,
            },
            SdProvider::Consul => match &self.consul {
                Some(c) => c.poll_interval_seconds,
                None => 30,
            },
        }
    }
}

/// One discovery round, as a step of the task's state machine. `last` is the
/// discovered list last published; `discovered` is the round's result (`None`
/// when discovery failed). A failed round, or one that finds the same
/// host:port pairs, publishes nothing and keeps `last`; otherwise the round
/// publishes the update of [`plan_targets_update`] (the merged list, the hosts
/// to warm up, and the dial identities whose health and circuit-breaker state
/// is pruned) and its list becomes `last`.
pub fn discovery_round(
    static_targets: &[UpstreamTarget],
    last: &mut Vec<UpstreamTarget>,
    discovered: Option<Vec<UpstreamTarget>>,
) -> (u: Option<TargetsUpdate>)
    ensures
        match discovered {
            None => u is None && *final(last) == *old(last),
            Some(d) => if spec_targets_equal(target_views(d@), target_views(old(last)@)) {
                u is None && *final(last) == *old(last)
            } else {
                &&& u matches Some(up) && target_views(up.merged@) == spec_merge_targets(
                    target_views(static_targets@),
                    target_views(d@),
                ) && up.warmup_hosts@.map_values(|h: String| h@) == target_hosts(target_views(d@))
                    && identity_views(up.stale@) == spec_stale_identities(
                    spec_merge_targets(target_views(static_targets@), target_views(old(last)@)),
                    spec_merge_targets(target_views(static_targets@), target_views(d@)),
                )
                &&& target_views(final(last)@) == target_views(d@)
            },
        },
{
    match discovered {
        None => None,
        Some(d) => match plan_targets_update(static_targets, last, &d) {
            None => None,
            Some(up) => {
                *last = d;
                Some(up)
            },
        },
    }
}

/// The dial identities whose health and circuit-breaker state survives the
/// publication of `merged`: those still among the merged targets, in the order given.
pub open spec fn surviving_state(watched: Seq<(Seq<char>, u16)>, merged: Seq<UpstreamTargetView>) -> Seq<(Seq<char>, u16)> {
    watched.filter(|k: (Seq<char>, u16)| target_keys(merged).contains(k))
}

/// The characters and port of each watched dial identity.
pub open spec fn identity_views(ids: Seq<(String, u16)>) -> Seq<(Seq<char>, u16)> {
    ids.map_values(|k: (String, u16)| (k.0@, k.1))
}

/// Prune per-target state after a publication: keep the watched dial
/// identities (host, port) that are still among the merged targets, drop the others.
pub fn prune_stale_targets(watched: &Vec<(String, u16)>, merged: &[UpstreamTarget]) -> (kept: Vec<(String, u16)>)
    ensures
        identity_views(kept@) == surviving_state(identity_views(watched@), target_views(merged@)),
{
    let ghost tv = identity_views(watched@);
    let ghost keys = target_keys(target_views(merged@));
    let ghost pred = |k: (Seq<char>, u16)| target_keys(target_views(merged@)).contains(k);
    let mut kept: Vec<(String, u16)> = Vec::new();
    assert(tv.take(0).filter(pred) =~= Seq::<(Seq<char>, u16)>::empty()) by {
        reveal(Seq::filter);
    }
    let mut i: usize = 0;
    while i < watched.len()
        invariant
            tv == identity_views(watched@),
            keys == target_keys(target_views(merged@)),
            pred == |k: (Seq<char>, u16)| target_keys(target_views(merged@)).contains(k),
            i <= watched.len(),
            identity_views(kept@) == tv.take(i as int).filter(pred),
        decreases watched.len() - i,
    {
        proof {
            assert(tv.take(i + 1) =~= tv.take(i as int).push(tv[i as int]));
            tv.take(i as int).lemma_filter_push(tv[i as int], pred);
        }
        let t = UpstreamTarget { host: watched[i].0.clone(), port: watched[i].1, weight: 0, tags: Vec::new() };
        assert(target_key(t@) == tv[i as int]);
        let ghost before = kept@;
        if lists_dial_identity(merged, &t) {
            kept.push((watched[i].0.clone(), watched[i].1));
            assert(identity_views(kept@) =~= identity_views(before).push(tv[i as int]));
        }
        i += 1;
    }
    assert(tv.take(watched.len() as int) =~= tv);
    kept
}

impl ServiceDiscoveryConfig {
    /// A discovery task can run: the chosen provider has its settings and a
    /// poll interval of at least one second.
    pub open spec fn spec_can_start(&self) -> bool {
        self.spec_has_provider_settings() && self.spec_poll_interval_seconds() > 0
    }

    /// Whether a discovery task can run for these settings (see [`Self::spec_can_start`]);
    /// a zero poll interval is refused.
    pub fn can_start(&self) -> (r: bool)
        ensures
            r == self.spec_can_start(),
    {
        self.has_provider_settings() && self.poll_interval_seconds() > 0
    }
}

/// The upstream has service discovery configured with its provider's
/// settings and a non-zero poll interval: a task runs for it.
pub open spec fn discovers(u: Upstream) -> bool {
    match u.service_discovery {
        Some(c) => c.spec_can_start(),
        None => false,
    }
}

/// The ids of the upstreams a discovery task runs for, in configuration order.
pub open spec fn discovered_upstream_ids(ups: Seq<Upstream>) -> Seq<Seq<char>> {
    ups.filter(|u: Upstream| discovers(u)).map_values(|u: Upstream| u.id@)
}

/// The task changes a new configuration asks for.
#[derive(Debug)]
pub struct ReconcilePlan {
    /// Running tasks whose upstream no longer has a runnable discovery configuration.
    pub stop: Vec<String>,
    /// Upstreams whose task is (re)started, their old task stopped first.
    pub restart: Vec<String>,
}

/// The ids of the upstreams with a runnable discovery configuration (provider
/// settings present, non-zero poll interval), in configuration order: the
/// tasks to start for a configuration.
pub fn discovery_task_ids(config: &GatewayConfig) -> (ids: Vec<String>)
    ensures
        ids@.map_values(|s: String| s@) == discovered_upstream_ids(config.upstreams@),
{
    let ghost ups = config.upstreams@;
    let ghost pred = |u: Upstream| discovers(u);
    let mut ids: Vec<String> = Vec::new();
    let mut i: usize = 0;
    assert(ups.take(0).filter(pred) =~= Seq::<Upstream>::empty()) by {
        reveal(Seq::filter);
    }
    while i < config.upstreams.len()
        invariant
            ups == config.upstreams@,
            pred == |u: Upstream| discovers(u),
            i <= config.upstreams.len(),
            ids@.map_values(|s: String| s@) == ups.take(i as int).filter(pred).map_values(|u: Upstream| u.id@),
        decreases config.upstreams.len() - i,
    {
        let u = &config.upstreams[i];
        proof {
            assert(ups.take(i + 1) =~= ups.take(i as int).push(ups[i as int]));
            ups.take(i as int).lemma_filter_push(ups[i as int], pred);
        }
        let ghost before = ids@;
        let runs = match &u.service_discovery {
            Some(c) => c.can_start(),
            None => false,
        };
        if runs {
            ids.push(u.id.clone());
            assert(ids@.map_values(|s: String| s@) =~= before.map_values(|s: String| s@).push(u.id@));
            assert(ups.take(i + 1).filter(pred).map_values(|u: Upstream| u.id@) =~= ups.take(i as int).filter(pred).map_values(|u: Upstream| u.id@).push(u.id@));
        }
        i += 1;
    }
    assert(ups.take(config.upstreams.len() as int) =~= ups);
    ids
}

/// Reconcile the running discovery tasks with a new configuration: stop the
/// tasks of upstreams that no longer have service discovery, and restart one
/// task per upstream that has it.
pub fn plan_reconcile(running: &[String], config: &GatewayConfig) -> (plan: ReconcilePlan)
    ensures
        plan.restart@.map_values(|s: String| s@) == discovered_upstream_ids(config.upstreams@),
        plan.stop@.map_values(|s: String| s@) == running@.map_values(|s: String| s@).filter(
            |id: Seq<char>| !discovered_upstream_ids(config.upstreams@).contains(id),
        ),
{
    let restart = discovery_task_ids(config);
    let ghost wanted = discovered_upstream_ids(config.upstreams@);
    let ghost rv = running@.map_values(|s: String| s@);
    let ghost pred = |id: Seq<char>| !discovered_upstream_ids(config.upstreams@).contains(id);
    let mut stop: Vec<String> = Vec::new();
    assert(rv.take(0).filter(pred) =~= Seq::<Seq<char>>::empty()) by {
        reveal(Seq::filter);
    }
    let mut i: usize = 0;
    while i < running.len()
        invariant
            wanted == discovered_upstream_ids(config.upstreams@),
            restart@.map_values(|s: String| s@) == wanted,
            rv == running@.map_values(|s: String| s@),
            pred == |id: Seq<char>| !discovered_upstream_ids(config.upstreams@).contains(id),
            i <= running.len(),
            stop@.map_values(|s: String| s@) == rv.take(i as int).filter(pred),
        decreases running.len() - i,
    {
        let id = &running[i];
        let mut desired = false;
        let mut k: usize = 0;
        while k < restart.len()
            invariant
                restart@.map_values(|s: String| s@) == wanted,
                k <= restart.len(),
                desired == exists|q: int| 0 <= q < k && #[trigger] wanted[q] == id@,
            decreases restart.len() - k,
        {
            if restart[k] == *id {
                assert(wanted[k as int] == id@);
                desired = true;
            }
            k += 1;
        }
        proof {
            assert(rv.take(i + 1) =~= rv.take(i as int).push(rv[i as int]));
            rv.take(i as int).lemma_filter_push(rv[i as int], pred);
            assert(desired == wanted.contains(id@));
        }
        let ghost before = stop@;
        if !desired {
            stop.push(id.clone());
            assert(stop@.map_values(|s: String| s@) =~= before.map_values(|s: String| s@).push(id@));
        }
        i += 1;
    }
    assert(rv.take(running.len() as int) =~= rv);
    ReconcilePlan { stop, restart }
}


/// Target list equivalence is an equivalence: reflexive, symmetric and transitive.
pub proof fn lemma_targets_equal_equivalence(a: Seq<UpstreamTargetView>, b: Seq<UpstreamTargetView>, c: Seq<UpstreamTargetView>)
    ensures
        spec_targets_equal(a, a),
        spec_targets_equal(a, b) == spec_targets_equal(b, a),
        spec_targets_equal(a, b) && spec_targets_equal(b, c) ==> spec_targets_equal(a, c),
{
}

/// Target list equivalence ignores order: swapping two targets of a list
/// gives an equivalent list.
pub proof fn lemma_targets_equal_swap(a: Seq<UpstreamTargetView>, i: int, j: int)
    requires
        0 <= i < a.len(),
        0 <= j < a.len(),
    ensures
        spec_targets_equal(a, a.update(i, a[j]).update(j, a[i])),
{
    let s = a.update(i, a[j]).update(j, a[i]);
    let ks = target_keys(s);
    let ka = target_keys(a);
    if i != j {
        assert(ks =~= ka.update(i, ka[j]).update(j, ka[i]));
        let k1 = ka.update(i, ka[j]);
        vstd::seq_lib::to_multiset_update(ka, i, ka[j]);
        vstd::seq_lib::to_multiset_update(k1, j, ka[i]);
        assert(k1[j] == ka[j]);
        to_multiset_contains(ka, ka[i]);
        to_multiset_contains(k1, ka[j]);
        assert(ka.contains(ka[i]));
        assert(k1.contains(ka[j]));
        assert(ks.to_multiset() =~= ka.to_multiset());
    } else {
        assert(s =~= a);
    }
}

/// Merging keeps every static target and covers exactly the host:port pairs
/// of the static and the discovered targets.
pub proof fn lemma_merge_covers(st: Seq<UpstreamTargetView>, discovered: Seq<UpstreamTargetView>)
    ensures
        spec_merge_targets(st, discovered).take(st.len() as int) == st,
        forall|x: (Seq<char>, u16)|
            target_keys(spec_merge_targets(st, discovered)).contains(x) <==> target_keys(st).contains(x)
                || target_keys(discovered).contains(x),
{
    let m = spec_merge_targets(st, discovered);
    let f = discovered.filter(fresh_for(st));
    assert(m.take(st.len() as int) =~= st);
    assert forall|x: (Seq<char>, u16)|
        target_keys(m).contains(x) <==> target_keys(st).contains(x) || target_keys(discovered).contains(x) by {
        if target_keys(m).contains(x) {
            let i = choose|i: int| 0 <= i < target_keys(m).len() && target_keys(m)[i] == x;
            if i < st.len() {
                assert(target_keys(st)[i] == x);
            } else {
                assert(m[i] == f[i - st.len()]);
                assert(f.contains(f[i - st.len()]));
                discovered.lemma_filter_contains_rev(fresh_for(st), f[i - st.len()]);
                assert(discovered.contains(f[i - st.len()]));
                let w = choose|w: int| 0 <= w < discovered.len() && discovered[w] == f[i - st.len()];
                assert(target_keys(discovered)[w] == x);
            }
        }
        if target_keys(st).contains(x) {
            let i = choose|i: int| 0 <= i < target_keys(st).len() && target_keys(st)[i] == x;
            assert(target_keys(m)[i] == x);
        } else if target_keys(discovered).contains(x) {
            let w = choose|w: int| 0 <= w < target_keys(discovered).len() && target_keys(discovered)[w] == x;
            let t = discovered[w];
            assert(fresh_for(st)(t));
            discovered.lemma_filter_contains(fresh_for(st), w);
            assert(f.contains(t));
            let q = choose|q: int| 0 <= q < f.len() && f[q] == t;
            assert(m[st.len() + q] == t);
            assert(target_keys(m)[st.len() + q] == x);
        }
    }
}

proof fn lemma_filter_keeps_all<A>(s: Seq<A>, p: spec_fn(A) -> bool)
    requires
        forall|i: int| 0 <= i < s.len() ==> p(#[trigger] s[i]),
    ensures
        s.filter(p) == s,
    decreases s.len(),
{
    if s.len() == 0 {
        assert(s.filter(p) =~= s) by {
            reveal(Seq::filter);
        }
    } else {
        let q = s.drop_last();
        assert(s =~= q.push(s.last()));
        assert forall|i: int| 0 <= i < q.len() implies p(#[trigger] q[i]) by {
            assert(q[i] == s[i]);
        }
        lemma_filter_keeps_all(q, p);
        q.lemma_filter_push(s.last(), p);
        assert(p(s[s.len() - 1]));
    }
}

proof fn lemma_filter_drops_all<A>(s: Seq<A>, p: spec_fn(A) -> bool)
    requires
        forall|i: int| 0 <= i < s.len() ==> !p(#[trigger] s[i]),
    ensures
        s.filter(p) == Seq::<A>::empty(),
    decreases s.len(),
{
    if s.len() == 0 {
        assert(s.filter(p) =~= Seq::<A>::empty()) by {
            reveal(Seq::filter);
        }
    } else {
        let q = s.drop_last();
        assert(s =~= q.push(s.last()));
        assert forall|i: int| 0 <= i < q.len() implies !p(#[trigger] q[i]) by {
            assert(q[i] == s[i]);
        }
        lemma_filter_drops_all(q, p);
        q.lemma_filter_push(s.last(), p);
        assert(!p(s[s.len() - 1]));
    }
}

/// Merging is idempotent: merging the same static targets into an already
/// merged list changes nothing.
pub proof fn lemma_merge_idempotent(st: Seq<UpstreamTargetView>, discovered: Seq<UpstreamTargetView>)
    ensures
        spec_merge_targets(st, spec_merge_targets(st, discovered)) == spec_merge_targets(st, discovered),
{
    let f = fresh_for(st);
    let df = discovered.filter(f);
    assert forall|i: int| 0 <= i < st.len() implies !f(#[trigger] st[i]) by {
        assert(target_keys(st)[i] == target_key(st[i]));
    }
    lemma_filter_drops_all(st, f);
    assert forall|i: int| 0 <= i < df.len() implies f(#[trigger] df[i]) by {
        discovered.lemma_filter_pred(f, i);
    }
    lemma_filter_keeps_all(df, f);
    Seq::filter_distributes_over_add(st, df, f);
    assert(spec_merge_targets(st, st + df) =~= st + df);
}

/// The provider settings are present exactly when the settings block of the
/// chosen provider is, and the poll interval is that block's (30 s without it).
pub proof fn lemma_provider_settings(c: ServiceDiscoveryConfig)
    ensures
        c.provider == SdProvider::DnsSd ==> (c.spec_has_provider_settings() <==> c.dns_sd is Some),
        c.provider == SdProvider::Kubernetes ==> (c.spec_has_provider_settings() <==> c.kubernetes is Some),
        c.provider == SdProvider::Consul ==> (c.spec_has_provider_settings() <==> c.consul is Some),
        c.provider == SdProvider::DnsSd ==> c.spec_poll_interval_seconds() == match c.dns_sd {
            Some(d) => d.poll_interval_seconds,
            None => 30,
        },
        c.provider == SdProvider::Kubernetes ==> c.spec_poll_interval_seconds() == match c.kubernetes {
            Some(k) => k.poll_interval_seconds,
            None => 30,
        },
        c.provider == SdProvider::Consul ==> c.spec_poll_interval_seconds() == match c.consul {
            Some(k) => k.poll_interval_seconds,
            None => 30,
        },
{
}

/// The settings block of the chosen provider, with its poll interval.
pub open spec fn provider_block_interval(c: ServiceDiscoveryConfig) -> Option<u64> {
    match c.provider {
        SdProvider::DnsSd => match c.dns_sd {
            Some(d) => Some(d.poll_interval_seconds),
            None => None,
        },
        SdProvider::Kubernetes => match c.kubernetes {
            Some(k) => Some(k.poll_interval_seconds),
            None => None,
        },
        SdProvider::Consul => match c.consul {
            Some(k) => Some(k.poll_interval_seconds),
            None => None,
        },
    }
}

/// An upstream whose chosen provider has its settings block with a non-zero
/// poll interval gets a discovery task; one without service discovery, or
/// whose chosen provider's block is missing, gets none.
pub proof fn lemma_task_set(ups: Seq<Upstream>, i: int)
    requires
        0 <= i < ups.len(),
    ensures
        (ups[i].service_discovery matches Some(c) && provider_block_interval(c) matches Some(n) && n > 0)
            ==> discovered_upstream_ids(ups).contains(ups[i].id@),
        (ups[i].service_discovery is None || (ups[i].service_discovery matches Some(c)
            && provider_block_interval(c) is None)) ==> !discovers(ups[i]),
{
    let pred = |u: Upstream| discovers(u);
    if discovers(ups[i]) {
        ups.lemma_filter_contains(pred, i);
        let f = ups.filter(pred);
        let k = choose|k: int| 0 <= k < f.len() && f[k] == ups[i];
        assert(f.map_values(|u: Upstream| u.id@)[k] == ups[i].id@);
    }
}

/// A running task is stopped exactly when its upstream gets no task in the
/// new configuration, and the restarted tasks are exactly those it asks for.
pub proof fn lemma_reconcile_stops_only_unwanted(running: Seq<Seq<char>>, ups: Seq<Upstream>, id: Seq<char>)
    requires
        running.contains(id),
    ensures
        running.filter(|x: Seq<char>| !discovered_upstream_ids(ups).contains(x)).contains(id)
            <==> !discovered_upstream_ids(ups).contains(id),
{
    let pred = |x: Seq<char>| !discovered_upstream_ids(ups).contains(x);
    let k = choose|k: int| 0 <= k < running.len() && running[k] == id;
    if pred(id) {
        running.lemma_filter_contains(pred, k);
    } else {
        if running.filter(pred).contains(id) {
            let f = running.filter(pred);
            let j = choose|j: int| 0 <= j < f.len() && f[j] == id;
            running.lemma_filter_pred(pred, j);
        }
    }
}

} // verus!
