//! Timing rules of the DNS cache: entry lifetimes and background refresh.
use vstd::prelude::*;

verus! {

/// Refresh checks run at least this often, in seconds.
pub const MIN_REFRESH_CHECK_SECONDS: u64 = 5;

/// The lifetime of a fresh cache entry: the proxy's TTL when it sets one,
/// the cache default otherwise.
pub fn effective_ttl_seconds(per_proxy_ttl: Option<u64>, default_ttl_seconds: u64) -> (ttl: u64)
    ensures
        ttl == match per_proxy_ttl {
            Some(t) => t,
            None => default_ttl_seconds,
        },
{
    match per_proxy_ttl {
        Some(t) => t,
        None => default_ttl_seconds,
    }
}

/// How often the background refresh looks for entries to renew: a quarter of
/// the default TTL, but no less than five seconds.
pub fn refresh_check_interval_seconds(default_ttl_seconds: u64) -> (s: u64)
    ensures
        s == if default_ttl_seconds / 4 >= MIN_REFRESH_CHECK_SECONDS {
            default_ttl_seconds / 4
        } else {
            MIN_REFRESH_CHECK_SECONDS
        },
{
    let quarter = default_ttl_seconds / 4;
    if quarter >= MIN_REFRESH_CHECK_SECONDS {
        quarter
    } else {
        MIN_REFRESH_CHECK_SECONDS
    }
}

/// Less than a quarter of the entry's TTL is left, and the entry has not expired.
pub open spec fn spec_needs_refresh(remaining_nanos: u128, ttl_nanos: u128) -> bool {
    remaining_nanos < ttl_nanos / 4 && remaining_nanos > 0
}

/// An entry is renewed in the background once less than a quarter of its
/// own TTL is left, while it has not yet expired (times in nanoseconds).
pub fn needs_refresh(remaining_nanos: u128, ttl_nanos: u128) -> (r: bool)
    ensures
        r == spec_needs_refresh(remaining_nanos, ttl_nanos),
{
    remaining_nanos < ttl_nanos / 4 && remaining_nanos > 0
}

/// Where a resolution is answered from.
#[derive(Debug)]
pub enum ResolutionSource {
    /// The proxy's own static address (to be parsed as an IP address).
    ProxyOverride(String),
    /// The gateway-wide static address for the host name.
    GlobalOverride(String),
    /// The first address of the cached entry.
    Cached,
    /// A fresh lookup, whose result is then cached.
    Lookup,
}

/// A resolution source by its plain values.
pub open spec fn source_view(s: ResolutionSource) -> (int, Seq<char>) {
    match s {
        ResolutionSource::ProxyOverride(a) => (0, a@),
        ResolutionSource::GlobalOverride(a) => (1, a@),
        ResolutionSource::Cached => (2, seq![]),
        ResolutionSource::Lookup => (3, seq![]),
    }
}

/// A cached entry answers a lookup while it has not expired and holds an address.
pub open spec fn spec_cache_entry_usable(remaining_nanos: u128, address_count: usize) -> bool {
    remaining_nanos > 0 && address_count > 0
}

/// Whether a cached entry with `remaining_nanos` of lifetime left and
/// `address_count` addresses answers a lookup.
pub fn cache_entry_usable(remaining_nanos: u128, address_count: usize) -> (r: bool)
    ensures
        r == spec_cache_entry_usable(remaining_nanos, address_count),
{
    remaining_nanos > 0 && address_count > 0
}

/// The source of a resolution, in priority order: the proxy's override, the
/// gateway-wide override for the host, a usable cached entry, a lookup.
pub open spec fn spec_resolution_source(
    per_proxy_override: Option<Seq<char>>,
    global_override: Option<Seq<char>>,
    cache_usable: bool,
) -> (int, Seq<char>) {
    match per_proxy_override {
        Some(a) => (0, a),
        None => match global_override {
            Some(a) => (1, a),
            None => if cache_usable {
                (2, seq![])
            } else {
                (3, seq![])
            },
        },
    }
}

/// Decide where a resolution is answered from (see [`spec_resolution_source`]).
pub fn resolution_source(per_proxy_override: Option<&str>, global_override: Option<&str>, cache_usable: bool) -> (s: ResolutionSource)
    ensures
        source_view(s) == spec_resolution_source(
            match per_proxy_override {
                Some(a) => Some(a@),
                None => None,
            },
            match global_override {
                Some(a) => Some(a@),
                None => None,
            },
            cache_usable,
        ),
{
    match per_proxy_override {
        Some(a) => ResolutionSource::ProxyOverride(a.to_owned()),
        None => match global_override {
            Some(a) => ResolutionSource::GlobalOverride(a.to_owned()),
            None => if cache_usable {
                ResolutionSource::Cached
            } else {
                ResolutionSource::Lookup
            },
        },
    }
}

/// The host names of the cache entries due for a background refresh, in the
/// order given; each entry is a host name, the nanoseconds of life it has left
/// and the TTL it was cached with, in nanoseconds.
pub open spec fn due_for_refresh(entries: Seq<(String, u128, u128)>) -> Seq<Seq<char>> {
    entries.filter(|e: (String, u128, u128)| spec_needs_refresh(e.1, e.2)).map_values(|e: (String, u128, u128)| e.0@)
}

/// The host names to refresh in the background (see [`due_for_refresh`]).
pub fn refresh_candidates(entries: &Vec<(String, u128, u128)>) -> (hosts: Vec<String>)
    ensures
        hosts@.map_values(|h: String| h@) == due_for_refresh(entries@),
{
    let ghost es = entries@;
    let ghost pred = |e: (String, u128, u128)| spec_needs_refresh(e.1, e.2);
    let mut hosts: Vec<String> = Vec::new();
    assert(es.take(0).filter(pred) =~= Seq::<(String, u128, u128)>::empty()) by {
        reveal(Seq::filter);
    }
    let mut i: usize = 0;
    while i < entries.len()
        invariant
            es == entries@,
            pred == |e: (String, u128, u128)| spec_needs_refresh(e.1, e.2),
            i <= entries.len(),
            hosts@.map_values(|h: String| h@) == es.take(i as int).filter(pred).map_values(|e: (String, u128, u128)| e.0@),
        decreases entries.len() - i,
    {
        proof {
            assert(es.take(i + 1) =~= es.take(i as int).push(es[i as int]));
            es.take(i as int).lemma_filter_push(es[i as int], pred);
        }
        let ghost before = hosts@;
        if needs_refresh(entries[i].1, entries[i].2) {
            hosts.push(entries[i].0.clone());
            assert(hosts@.map_values(|h: String| h@) =~= before.map_values(|h: String| h@).push(entries@[i as int].0@));
            assert(es.take(i + 1).filter(pred).map_values(|e: (String, u128, u128)| e.0@) =~= es.take(i as int).filter(
                pred,
            ).map_values(|e: (String, u128, u128)| e.0@).push(es[i as int].0@));
        }
        i += 1;
    }
    assert(es.take(entries.len() as int) =~= es);
    hosts
}

impl ResolutionSource {
    /// The answer comes from a DNS lookup.
    pub open spec fn spec_performs_lookup(&self) -> bool {
        self is Lookup
    }

    /// Whether the answer comes from a DNS lookup. Only a lookup's result
    /// enters the cache: an override address is used as given, with no
    /// lookup and no caching, and a cached entry is used as it is.
    pub fn performs_lookup(&self) -> (r: bool)
        ensures
            r == self.spec_performs_lookup(),
    {
        match self {
            ResolutionSource::Lookup => true,
            _ => false,
        }
    }
}

/// What a background refresh does with a cache entry.
#[derive(Debug, Clone, Copy, PartialEq, Eq, Structural)]
pub enum RefreshOutcome {
    /// Replace the entry's addresses with the new ones; it lives its own TTL
    /// (in nanoseconds) again from now.
    Renew { ttl_nanos: u128 },
    /// Leave the entry as it is: it expires at its old time.
    Keep,
}

/// The outcome of re-resolving an entry cached with `entry_ttl_nanos`: a
/// lookup that succeeds with at least one address renews the entry with the
/// same TTL; a failed or empty lookup keeps the old entry.
pub open spec fn spec_refresh_outcome(entry_ttl_nanos: u128, lookup_succeeded: bool, address_count: usize) -> RefreshOutcome {
    if lookup_succeeded && address_count > 0 {
        RefreshOutcome::Renew { ttl_nanos: entry_ttl_nanos }
    } else {
        RefreshOutcome::Keep
    }
}

/// Decide what a background refresh does with an entry (see [`spec_refresh_outcome`]).
pub fn refresh_outcome(entry_ttl_nanos: u128, lookup_succeeded: bool, address_count: usize) -> (o: RefreshOutcome)
    ensures
        o == spec_refresh_outcome(entry_ttl_nanos, lookup_succeeded, address_count),
{
    if lookup_succeeded && address_count > 0 {
        RefreshOutcome::Renew { ttl_nanos: entry_ttl_nanos }
    } else {
        RefreshOutcome::Keep
    }
}

} // verus!
