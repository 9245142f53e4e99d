//! Router cache for proxy route lookups.
//!
//! Routes are partitioned into three tiers searched in priority order:
//! exact host, then wildcard host (`*.example.com`), then catch-all
//! (proxies without hosts). Within a tier the longest matching listen path
//! wins, and among equally long listen paths the one configured first.
//! Lookups are memoised in a bounded path cache keyed by `host\0path`; misses
//! are cached too.
use vstd::prelude::*;

use std::sync::Arc;

use arc_swap::ArcSwap;
use dashmap::DashMap;
use vstd::arithmetic::div_mod::{lemma_mod_mod, lemma_mul_mod_noop_right};

use crate::config::types::{
    is_wildcard_pattern, spec_wildcard_matches, wildcard_matches, lemma_wildcard_match_unique_by_len,
    GatewayConfig, Proxy, ProxyView, proxy_views,
};
use crate::text::{chars_find, chars_have_prefix, chars_of, chars_equal, first_index_of, has_prefix};

verus! {

// ------------------------------------------------------------------------
// What routing means
// ------------------------------------------------------------------------

/// One of the three places a route can be registered.
pub enum Tier {
    /// Proxies without hosts.
    CatchAll,
    /// Proxies that list this exact (non-wildcard) host.
    Exact(Seq<char>),
    /// Proxies that list this wildcard pattern.
    Wildcard(Seq<char>),
}

/// Stream (TCP/UDP) proxies take no part in HTTP routing.
pub open spec fn routable(p: ProxyView) -> bool {
    !p.backend_protocol.spec_is_stream_proxy()
}

/// The proxy is registered in tier `t`.
pub open spec fn in_tier(p: ProxyView, t: Tier) -> bool {
    routable(p) && match t {
        Tier::CatchAll => p.hosts.len() == 0,
        Tier::Exact(h) => !is_wildcard_pattern(h) && p.hosts.contains(h),
        Tier::Wildcard(w) => is_wildcard_pattern(w) && p.hosts.contains(w),
    }
}

/// A request path is served by a listen path when it equals it, or extends it
/// at a segment boundary: the listen path ends in `/`, or the next character of
/// the request path is `/` or `?`.
pub open spec fn path_matches(listen_path: Seq<char>, path: Seq<char>) -> bool {
    ||| path == listen_path
    ||| has_prefix(path, listen_path) && {
        ||| listen_path.len() > 0 && listen_path.last() == '/'
        ||| path.len() > listen_path.len() && (path[listen_path.len() as int] == '/'
            || path[listen_path.len() as int] == '?')
    }
}

/// Route `i` takes precedence over route `j`: its listen path is longer, or
/// equally long and configured no later.
pub open spec fn outranks(ps: Seq<ProxyView>, i: int, j: int) -> bool {
    ||| ps[i].listen_path.len() > ps[j].listen_path.len()
    ||| ps[i].listen_path.len() == ps[j].listen_path.len() && i <= j
}

/// Route `i` serves `path` in tier `t` and takes precedence over every other route
/// of the tier that serves it.
pub open spec fn is_best_route(ps: Seq<ProxyView>, t: Tier, path: Seq<char>, i: int) -> bool {
    &&& 0 <= i < ps.len()
    &&& in_tier(ps[i], t)
    &&& path_matches(ps[i].listen_path, path)
    &&& forall|j: int|
        #![trigger ps[j]]
        0 <= j < ps.len() && in_tier(ps[j], t) && path_matches(ps[j].listen_path, path)
            ==> outranks(ps, i, j)
}

/// The proxy that serves `path` in tier `t`: the longest matching listen path,
/// the earliest configured among equals; `None` when no route of the tier matches.
pub open spec fn best_route(ps: Seq<ProxyView>, t: Tier, path: Seq<char>) -> Option<ProxyView> {
    if exists|i: int| is_best_route(ps, t, path, i) {
        Some(ps[choose|i: int| is_best_route(ps, t, path, i)])
    } else {
        None
    }
}

/// The wildcard pattern matches the host and one of its routes serves the path.
pub open spec fn wildcard_hit(ps: Seq<ProxyView>, pat: Seq<char>, host: Seq<char>, path: Seq<char>) -> bool {
    spec_wildcard_matches(pat, host) && best_route(ps, Tier::Wildcard(pat), path) is Some
}

/// The longest wildcard pattern that matches the host and serves the path.
pub open spec fn longest_wildcard_hit(ps: Seq<ProxyView>, host: Seq<char>, path: Seq<char>) -> Seq<char> {
    choose|pat: Seq<char>|
        wildcard_hit(ps, pat, host, path) && forall|q: Seq<char>|
            #[trigger] wildcard_hit(ps, q, host, path) ==> q.len() <= pat.len()
}

/// The proxy that serves a request: exact host first, then the longest matching
/// wildcard host, then the catch-all routes.
pub open spec fn spec_route(ps: Seq<ProxyView>, host: Option<Seq<char>>, path: Seq<char>) -> Option<ProxyView> {
    match host {
        Some(h) => {
            if best_route(ps, Tier::Exact(h), path) is Some {
                best_route(ps, Tier::Exact(h), path)
            } else if exists|pat: Seq<char>| wildcard_hit(ps, pat, h, path) {
                best_route(ps, Tier::Wildcard(longest_wildcard_hit(ps, h, path)), path)
            } else {
                best_route(ps, Tier::CatchAll, path)
            }
        },
        None => best_route(ps, Tier::CatchAll, path),
    }
}

/// The request host, taken by its characters.
pub open spec fn host_view(host: Option<&str>) -> Option<Seq<char>> {
    match host {
        Some(h) => Some(h@),
        None => None,
    }
}

/// The value of a shared proxy handle.
pub open spec fn shared_view(p: Option<Arc<Proxy>>) -> Option<ProxyView> {
    match p {
        Some(a) => Some((*a)@),
        None => None,
    }
}

// ------------------------------------------------------------------------
// The route table
// ------------------------------------------------------------------------

/// A route: a listen path and the proxy behind it.
struct RouteEntry {
    listen_path: String,
    /// Length of the listen path in bytes (UTF-8).
    path_len: usize,
    /// Position of the proxy in the configuration.
    order: usize,
    proxy: Arc<Proxy>,
}

/// Routes partitioned by host tier, each list ordered most specific first.
pub struct HostRouteTable {
    /// Exact host -> routes, one group per host, found by a linear search
    /// (a `Vec` rather than a `HashMap`: lookups by a `String` key of a
    /// `HashMap` come with no usable specification).
    exact_hosts: Vec<(String, Vec<RouteEntry>)>,
    /// Wildcard pattern -> routes, longest pattern first.
    wildcard_hosts: Vec<(String, Vec<RouteEntry>)>,
    /// Routes of proxies without hosts.
    catch_all: Vec<RouteEntry>,
}

/// The length of a text in UTF-8 bytes.
pub open spec fn byte_len(s: Seq<char>) -> nat {
    vstd::utf8::encode_utf8(s).len()
}

proof fn lemma_byte_len_concat(a: Seq<char>, b: Seq<char>)
    ensures
        byte_len(a + b) == byte_len(a) + byte_len(b),
    decreases a.len(),
{
    if a.len() == 0 {
        assert(a + b =~= b);
    } else {
        lemma_byte_len_concat(a.drop_first(), b);
        assert((a + b).drop_first() =~= a.drop_first() + b);
        assert((a + b)[0] == a[0]);
    }
}

proof fn lemma_byte_len_positive(a: Seq<char>)
    requires
        a.len() > 0,
    ensures
        byte_len(a) >= 1,
{
    let c = a[0] as u32;
    assert(vstd::utf8::encode_scalar(c).len() >= 1);
}

/// Of two prefixes of one text, the one with more characters has more bytes,
/// and prefixes of equal character length are equal.
proof fn lemma_prefix_byte_order(a: Seq<char>, b: Seq<char>, text: Seq<char>)
    requires
        has_prefix(text, a),
        has_prefix(text, b),
    ensures
        (a.len() < b.len()) == (byte_len(a) < byte_len(b)),
        (a.len() == b.len()) == (byte_len(a) == byte_len(b)),
{
    if a.len() <= b.len() {
        assert(b.take(a.len() as int) =~= a);
        assert(b =~= a + b.skip(a.len() as int));
        lemma_byte_len_concat(a, b.skip(a.len() as int));
        if a.len() < b.len() {
            lemma_byte_len_positive(b.skip(a.len() as int));
        } else {
            assert(a =~= b);
        }
    } else {
        assert(a.take(b.len() as int) =~= b);
        assert(a =~= b + a.skip(b.len() as int));
        lemma_byte_len_concat(b, a.skip(b.len() as int));
        lemma_byte_len_positive(a.skip(b.len() as int));
    }
}

/// Of two wildcard patterns that match one host, the one with more
/// characters has more bytes, and patterns of equal character length are equal.
proof fn lemma_wildcard_byte_order(p1: Seq<char>, p2: Seq<char>, host: Seq<char>)
    requires
        spec_wildcard_matches(p1, host),
        spec_wildcard_matches(p2, host),
    ensures
        (p1.len() < p2.len()) == (byte_len(p1) < byte_len(p2)),
        (p1.len() == p2.len()) == (byte_len(p1) == byte_len(p2)),
{
    let a = p1.skip(1);
    let b = p2.skip(1);
    assert(p1 =~= p1.take(1) + a);
    assert(p2 =~= p2.take(1) + b);
    assert(p1.take(1) =~= p2.take(1)) by {
        assert(p1.take(1)[0] == '*');
        assert(p2.take(1)[0] == '*');
    }
    lemma_byte_len_concat(p1.take(1), a);
    lemma_byte_len_concat(p2.take(1), b);
    if a.len() <= b.len() {
        let d = (b.len() - a.len()) as int;
        assert(b.skip(d) =~= a) by {
            assert forall|i: int| 0 <= i < a.len() implies b.skip(d)[i] == a[i] by {
                assert(a[i] == host.subrange(host.len() - a.len(), host.len() as int)[i]);
                assert(b[d + i] == host.subrange(host.len() - b.len(), host.len() as int)[d + i]);
            }
        }
        assert(b =~= b.take(d) + a);
        lemma_byte_len_concat(b.take(d), a);
        if a.len() < b.len() {
            lemma_byte_len_positive(b.take(d));
        } else {
            assert(b.take(d) =~= Seq::<char>::empty());
            assert(byte_len(b.take(d)) == 0);
        }
    } else {
        let d = (a.len() - b.len()) as int;
        assert(a.skip(d) =~= b) by {
            assert forall|i: int| 0 <= i < b.len() implies a.skip(d)[i] == b[i] by {
                assert(b[i] == host.subrange(host.len() - b.len(), host.len() as int)[i]);
                assert(a[d + i] == host.subrange(host.len() - a.len(), host.len() as int)[d + i]);
            }
        }
        assert(a =~= a.take(d) + b);
        lemma_byte_len_concat(a.take(d), b);
        lemma_byte_len_positive(a.take(d));
    }
}

/// A listen path that serves a path is a prefix of it.
proof fn lemma_match_is_prefix(listen_path: Seq<char>, path: Seq<char>)
    requires
        path_matches(listen_path, path),
    ensures
        has_prefix(path, listen_path),
{
    if path == listen_path {
        assert(path.subrange(0, path.len() as int) =~= path);
    }
}

spec fn entry_ok(ps: Seq<ProxyView>, e: RouteEntry, t: Tier) -> bool {
    &&& 0 <= e.order < ps.len()
    &&& in_tier(ps[e.order as int], t)
    &&& (*e.proxy)@ == ps[e.order as int]
    &&& e.listen_path@ == ps[e.order as int].listen_path
    &&& e.path_len == byte_len(e.listen_path@)
}

spec fn entries_sorted(l: Seq<RouteEntry>) -> bool {
    forall|a: int, b: int|
        #![trigger l[a], l[b]]
        0 <= a < b < l.len() ==> {
            ||| l[a].path_len > l[b].path_len
            ||| l[a].path_len == l[b].path_len && l[a].order <= l[b].order
        }
}

/// Proxy `i` has been registered once the first `n` proxies and the first `m`
/// hosts of proxy `n` are processed.
spec fn registered(ps: Seq<ProxyView>, n: int, m: int, i: int, t: Tier) -> bool {
    ||| i < n
    ||| i == n && match t {
        Tier::CatchAll => false,
        Tier::Exact(h) => ps[n].hosts.take(m).contains(h),
        Tier::Wildcard(h) => ps[n].hosts.take(m).contains(h),
    }
}

spec fn group_ok(ps: Seq<ProxyView>, l: Seq<RouteEntry>, t: Tier, n: int, m: int) -> bool {
    &&& forall|j: int| 0 <= j < l.len() ==> entry_ok(ps, #[trigger] l[j], t) && l[j].order <= n
    &&& entries_sorted(l)
    &&& forall|i: int|
        0 <= i < ps.len() && #[trigger] in_tier(ps[i], t) && registered(ps, n, m, i, t)
            ==> exists|j: int| 0 <= j < l.len() && #[trigger] l[j].order == i
}

spec fn tier_of(wild: bool, h: Seq<char>) -> Tier {
    if wild {
        Tier::Wildcard(h)
    } else {
        Tier::Exact(h)
    }
}

spec fn keyed_ok(ps: Seq<ProxyView>, g: Seq<(String, Vec<RouteEntry>)>, wild: bool, n: int, m: int) -> bool {
    &&& forall|k: int|
        #![trigger g[k]]
        0 <= k < g.len() ==> is_wildcard_pattern(g[k].0@) == wild && group_ok(
            ps,
            g[k].1@,
            tier_of(wild, g[k].0@),
            n,
            m,
        )
    &&& forall|k1: int, k2: int| #![trigger g[k1], g[k2]] 0 <= k1 < k2 < g.len() ==> g[k1].0@ != g[k2].0@
    &&& forall|i: int, h: Seq<char>|
        0 <= i < ps.len() && #[trigger] in_tier(ps[i], tier_of(wild, h)) && registered(
            ps,
            n,
            m,
            i,
            tier_of(wild, h),
        ) ==> exists|k: int| 0 <= k < g.len() && #[trigger] g[k].0@ == h
}

spec fn patterns_sorted(g: Seq<(String, Vec<RouteEntry>)>) -> bool {
    forall|a: int, b: int| #![trigger g[a], g[b]] 0 <= a < b < g.len() ==> byte_len(g[a].0@) >= byte_len(g[b].0@)
}

spec fn table_ok(t: HostRouteTable, ps: Seq<ProxyView>, n: int, m: int) -> bool {
    &&& group_ok(ps, t.catch_all@, Tier::CatchAll, n, m)
    &&& keyed_ok(ps, t.exact_hosts@, false, n, m)
    &&& keyed_ok(ps, t.wildcard_hosts@, true, n, m)
    &&& patterns_sorted(t.wildcard_hosts@)
}

/// Number of routes in a keyed list of groups.
spec fn group_total(g: Seq<(String, Vec<RouteEntry>)>) -> nat
    decreases g.len(),
{
    if g.len() == 0 {
        0
    } else {
        group_total(g.drop_last()) + g.last().1@.len()
    }
}

proof fn lemma_group_total_prefix(g: Seq<(String, Vec<RouteEntry>)>, i: int)
    requires
        0 <= i <= g.len(),
    ensures
        group_total(g.take(i)) <= group_total(g),
    decreases g.len() - i,
{
    if i < g.len() {
        lemma_group_total_prefix(g, i + 1);
        assert(g.take(i + 1).drop_last() =~= g.take(i));
    } else {
        assert(g.take(i) =~= g);
    }
}

/// Routes a proxy registers: none for a stream proxy, one for a proxy
/// without hosts, one per host otherwise.
pub open spec fn proxy_registrations(p: ProxyView) -> nat {
    if !routable(p) {
        0
    } else if p.hosts.len() == 0 {
        1
    } else {
        p.hosts.len()
    }
}

/// Routes a list of proxies registers.
pub open spec fn route_registrations(ps: Seq<ProxyView>) -> nat
    decreases ps.len(),
{
    if ps.len() == 0 {
        0
    } else {
        route_registrations(ps.drop_last()) + proxy_registrations(ps.last())
    }
}

proof fn lemma_registrations_step(ps: Seq<ProxyView>, n: int)
    requires
        0 <= n < ps.len(),
    ensures
        route_registrations(ps.take(n + 1)) == route_registrations(ps.take(n)) + proxy_registrations(ps[n]),
{
    assert(ps.take(n + 1).drop_last() =~= ps.take(n));
}

/// Routes held by a table.
spec fn table_total(t: HostRouteTable) -> nat {
    group_total(t.exact_hosts@) + group_total(t.wildcard_hosts@) + t.catch_all@.len()
}

proof fn lemma_group_total_insert(g: Seq<(String, Vec<RouteEntry>)>, pos: int, x: (String, Vec<RouteEntry>))
    requires
        0 <= pos <= g.len(),
    ensures
        group_total(g.insert(pos, x)) == group_total(g) + x.1@.len(),
    decreases g.len(),
{
    let gi = g.insert(pos, x);
    if pos == g.len() {
        assert(gi.drop_last() =~= g);
    } else {
        lemma_group_total_insert(g.drop_last(), pos, x);
        assert(gi.drop_last() =~= g.drop_last().insert(pos, x));
        assert(gi.last() == g.last());
    }
}

proof fn lemma_group_total_remove(g: Seq<(String, Vec<RouteEntry>)>, k: int)
    requires
        0 <= k < g.len(),
    ensures
        group_total(g.remove(k)) + g[k].1@.len() == group_total(g),
{
    lemma_group_total_insert(g.remove(k), k, g[k]);
    assert(g.remove(k).insert(k, g[k]) =~= g);
}

/// The table holds exactly the routes of the proxies `ps`.
pub closed spec fn table_models(t: HostRouteTable, ps: Seq<ProxyView>) -> bool {
    &&& table_ok(t, ps, ps.len() as int, 0)
    &&& table_total(t) == route_registrations(ps)
}

// ------------------------------------------------------------------------
// Searching
// ------------------------------------------------------------------------

/// Whether `path` is served by `listen_path` (see [`path_matches`]).
fn listen_path_matches(listen_path: &Vec<char>, path: &Vec<char>) -> (r: bool)
    ensures
        r == path_matches(listen_path@, path@),
{
    if chars_equal(path, listen_path) {
        return true;
    }
    if !chars_have_prefix(path, listen_path) {
        return false;
    }
    let n = listen_path.len();
    if n > 0 && listen_path[n - 1] == '/' {
        return true;
    }
    n < path.len() && (path[n] == '/' || path[n] == '?')
}

proof fn lemma_best_unique(ps: Seq<ProxyView>, t: Tier, path: Seq<char>, i: int)
    requires
        is_best_route(ps, t, path, i),
    ensures
        best_route(ps, t, path) == Some(ps[i]),
{
    let c = choose|c: int| is_best_route(ps, t, path, c);
    assert(is_best_route(ps, t, path, c));
    assert(outranks(ps, c, i));
    assert(outranks(ps, i, c));
}

/// Find the first route of a list ordered most specific first that serves `path`.
fn find_path_match(routes: &Vec<RouteEntry>, path: &Vec<char>, Ghost(ps): Ghost<Seq<ProxyView>>, Ghost(t): Ghost<Tier>) -> (r: Option<Arc<Proxy>>)
    requires
        group_ok(ps, routes@, t, ps.len() as int, 0),
    ensures
        shared_view(r) == best_route(ps, t, path@),
{
    let mut j: usize = 0;
    while j < routes.len()
        invariant
            group_ok(ps, routes@, t, ps.len() as int, 0),
            j <= routes.len(),
            forall|k: int| 0 <= k < j ==> !path_matches(#[trigger] routes@[k].listen_path@, path@),
        decreases routes.len() - j,
    {
        let entry = &routes[j];
        let lp = chars_of(entry.listen_path.as_str());
        if listen_path_matches(&lp, path) {
            proof {
                let o = entry.order as int;
                assert(entry_ok(ps, routes@[j as int], t));
                assert forall|i: int|
                    #![trigger ps[i]]
                    0 <= i < ps.len() && in_tier(ps[i], t) && path_matches(ps[i].listen_path, path@)
                        implies outranks(ps, o, i) by {
                    assert(registered(ps, ps.len() as int, 0, i, t));
                    let j2 = choose|j2: int| 0 <= j2 < routes@.len() && #[trigger] routes@[j2].order == i;
                    assert(entry_ok(ps, routes@[j2], t));
                    if j2 < j {
                        assert(!path_matches(routes@[j2].listen_path@, path@));
                    }
                    if j2 > j {
                        assert(entries_sorted(routes@));
                        assert(routes@[j as int].path_len > routes@[j2].path_len || (routes@[j as int].path_len
                            == routes@[j2].path_len && routes@[j as int].order <= routes@[j2].order));
                        lemma_match_is_prefix(ps[o].listen_path, path@);
                        lemma_match_is_prefix(ps[i].listen_path, path@);
                        lemma_prefix_byte_order(ps[o].listen_path, ps[i].listen_path, path@);
                    }
                }
                assert(is_best_route(ps, t, path@, o));
                lemma_best_unique(ps, t, path@, o);
            }
            return Some(Arc::clone(&entry.proxy));
        }
        j += 1;
    }
    proof {
        if exists|i: int| is_best_route(ps, t, path@, i) {
            let i = choose|i: int| is_best_route(ps, t, path@, i);
            assert(registered(ps, ps.len() as int, 0, i, t));
            let j2 = choose|j2: int| 0 <= j2 < routes@.len() && #[trigger] routes@[j2].order == i;
            assert(entry_ok(ps, routes@[j2], t));
            assert(!path_matches(routes@[j2].listen_path@, path@));
        }
    }
    None
}


/// Index of the group registered under `host`, if any.
fn find_host_group(groups: &Vec<(String, Vec<RouteEntry>)>, host: &Vec<char>) -> (r: Option<usize>)
    ensures
        r matches Some(k) ==> k < groups.len() && groups@[k as int].0@ == host@,
        r is None ==> forall|k: int| 0 <= k < groups.len() ==> #[trigger] groups@[k].0@ != host@,
{
    let mut k: usize = 0;
    while k < groups.len()
        invariant
            k <= groups.len(),
            forall|k2: int| 0 <= k2 < k ==> #[trigger] groups@[k2].0@ != host@,
        decreases groups.len() - k,
    {
        let key = chars_of(groups[k].0.as_str());
        if chars_equal(&key, host) {
            return Some(k);
        }
        k += 1;
    }
    None
}

proof fn lemma_no_group_no_route(ps: Seq<ProxyView>, g: Seq<(String, Vec<RouteEntry>)>, wild: bool, h: Seq<char>, path: Seq<char>)
    requires
        keyed_ok(ps, g, wild, ps.len() as int, 0),
        forall|k: int| 0 <= k < g.len() ==> #[trigger] g[k].0@ != h,
    ensures
        best_route(ps, tier_of(wild, h), path) is None,
{
    if exists|i: int| is_best_route(ps, tier_of(wild, h), path, i) {
        let i = choose|i: int| is_best_route(ps, tier_of(wild, h), path, i);
        assert(registered(ps, ps.len() as int, 0, i, tier_of(wild, h)));
        assert(in_tier(ps[i], tier_of(wild, h)));
    }
}

/// A hit pattern is registered in the keyed wildcard list.
proof fn lemma_hit_registered(ps: Seq<ProxyView>, wild: Seq<(String, Vec<RouteEntry>)>, q: Seq<char>, h: Seq<char>, path: Seq<char>) -> (k2: int)
    requires
        keyed_ok(ps, wild, true, ps.len() as int, 0),
        wildcard_hit(ps, q, h, path),
    ensures
        0 <= k2 < wild.len() && wild[k2].0@ == q,
{
    let i = choose|i: int| is_best_route(ps, Tier::Wildcard(q), path, i);
    assert(registered(ps, ps.len() as int, 0, i, tier_of(true, q)));
    assert(in_tier(ps[i], tier_of(true, q)));
    choose|k2: int| 0 <= k2 < wild.len() && #[trigger] wild[k2].0@ == q
}

/// The first wildcard pattern (longest first) that hits is the longest hit.
proof fn lemma_first_wildcard_hit(ps: Seq<ProxyView>, wild: Seq<(String, Vec<RouteEntry>)>, k: int, h: Seq<char>, path: Seq<char>)
    requires
        keyed_ok(ps, wild, true, ps.len() as int, 0),
        patterns_sorted(wild),
        0 <= k < wild.len(),
        forall|k2: int| 0 <= k2 < k ==> !wildcard_hit(ps, #[trigger] wild[k2].0@, h, path),
        wildcard_hit(ps, wild[k].0@, h, path),
    ensures
        longest_wildcard_hit(ps, h, path) == wild[k].0@,
{
    let pat = wild[k].0@;
    assert forall|q: Seq<char>| #[trigger] wildcard_hit(ps, q, h, path) implies q.len() <= pat.len() by {
        let k2 = lemma_hit_registered(ps, wild, q, h, path);
        if k2 < k {
            assert(!wildcard_hit(ps, wild[k2].0@, h, path));
        } else if k2 > k {
            assert(byte_len(wild[k].0@) >= byte_len(wild[k2].0@));
            lemma_wildcard_byte_order(pat, q, h);
        }
    }
    let c = longest_wildcard_hit(ps, h, path);
    assert(wildcard_hit(ps, c, h, path) && forall|q: Seq<char>|
        #[trigger] wildcard_hit(ps, q, h, path) ==> q.len() <= c.len());
    lemma_wildcard_match_unique_by_len(c, pat, h);
}

/// When no registered pattern hits, no pattern hits at all.
proof fn lemma_no_wildcard_hit(ps: Seq<ProxyView>, wild: Seq<(String, Vec<RouteEntry>)>, h: Seq<char>, path: Seq<char>)
    requires
        keyed_ok(ps, wild, true, ps.len() as int, 0),
        forall|k2: int| 0 <= k2 < wild.len() ==> !wildcard_hit(ps, #[trigger] wild[k2].0@, h, path),
    ensures
        forall|q: Seq<char>| !wildcard_hit(ps, q, h, path),
{
    assert forall|q: Seq<char>| !wildcard_hit(ps, q, h, path) by {
        if wildcard_hit(ps, q, h, path) {
            let k2 = lemma_hit_registered(ps, wild, q, h, path);
            assert(!wildcard_hit(ps, wild[k2].0@, h, path));
        }
    }
}

/// Search the route table: exact host, then wildcard hosts (longest pattern
/// first), then the catch-all routes.
fn search_route_table(table: &HostRouteTable, host: Option<&str>, path: &str, Ghost(ps): Ghost<Seq<ProxyView>>) -> (r: Option<Arc<Proxy>>)
    requires
        table_models(*table, ps),
    ensures
        shared_view(r) == spec_route(ps, host_view(host), path@),
{
    let pc = chars_of(path);
    if let Some(h) = host {
        let hc = chars_of(h);
        // 1. Exact host match
        match find_host_group(&table.exact_hosts, &hc) {
            Some(k) => {
                assert(group_ok(ps, table.exact_hosts@[k as int].1@, tier_of(false, table.exact_hosts@[k as int].0@), ps.len() as int, 0));
                if let Some(p) = find_path_match(&table.exact_hosts[k].1, &pc, Ghost(ps), Ghost(Tier::Exact(h@))) {
                    return Some(p);
                }
            },
            None => {
                proof {
                    lemma_no_group_no_route(ps, table.exact_hosts@, false, h@, path@);
                }
            },
        }
        // 2. Wildcard host match
        let wild = &table.wildcard_hosts;
        assert(keyed_ok(ps, wild@, true, ps.len() as int, 0) && patterns_sorted(wild@));
        let mut k: usize = 0;
        while k < wild.len()
            invariant
                keyed_ok(ps, wild@, true, ps.len() as int, 0),
                patterns_sorted(wild@),
                pc@ == path@,
                host == Some(h),
                best_route(ps, Tier::Exact(h@), path@) is None,
                k <= wild.len(),
                forall|k2: int| 0 <= k2 < k ==> !wildcard_hit(ps, #[trigger] wild@[k2].0@, h@, path@),
            decreases wild.len() - k,
        {
            if wildcard_matches(wild[k].0.as_str(), h) {
                assert(group_ok(ps, wild@[k as int].1@, tier_of(true, wild@[k as int].0@), ps.len() as int, 0));
                if let Some(p) = find_path_match(&wild[k].1, &pc, Ghost(ps), Ghost(Tier::Wildcard(wild@[k as int].0@))) {
                    proof {
                        let pat = wild@[k as int].0@;
                        assert(wildcard_hit(ps, pat, h@, path@));
                        lemma_first_wildcard_hit(ps, wild@, k as int, h@, path@);
                        assert(spec_route(ps, host_view(host), path@) == best_route(ps, Tier::Wildcard(pat), path@));
                    }
                    return Some(p);
                }
            }
            k += 1;
        }
        proof {
            lemma_no_wildcard_hit(ps, wild@, h@, path@);
        }
    }
    // 3. Catch-all (no host restriction)
    find_path_match(&table.catch_all, &pc, Ghost(ps), Ghost(Tier::CatchAll))
}


// ------------------------------------------------------------------------
// Building
// ------------------------------------------------------------------------

/// Insert a route after every route at least as specific as it.
fn insert_route(routes: &mut Vec<RouteEntry>, e: RouteEntry)
    requires
        entries_sorted(old(routes)@),
        forall|j: int| 0 <= j < old(routes)@.len() ==> #[trigger] old(routes)@[j].order <= e.order,
    ensures
        exists|pos: int| 0 <= pos <= old(routes)@.len() && final(routes)@ == old(routes)@.insert(pos, e),
        entries_sorted(final(routes)@),
{
    let ghost old_l = routes@;
    let mut pos: usize = 0;
    while pos < routes.len() && routes[pos].path_len >= e.path_len
        invariant
            routes@ == old_l,
            pos <= routes.len(),
            forall|j: int| 0 <= j < pos ==> #[trigger] routes@[j].path_len >= e.path_len,
        decreases routes.len() - pos,
    {
        pos += 1;
    }
    routes.insert(pos, e);
    proof {
        let new_l = routes@;
        assert(new_l == old_l.insert(pos as int, e));
        assert forall|a: int, b: int| 0 <= a < b < new_l.len() implies {
            ||| new_l[a].path_len > new_l[b].path_len
            ||| new_l[a].path_len == new_l[b].path_len && new_l[a].order <= new_l[b].order
        } by {
            if b < pos {
                assert(new_l[a] == old_l[a] && new_l[b] == old_l[b]);
            } else if b == pos {
                assert(new_l[a] == old_l[a]);
            } else if a == pos {
                assert(new_l[b] == old_l[b - 1]);
                assert(old_l[pos as int].path_len < e.path_len);
                if b - 1 > pos {
                    assert(old_l[pos as int].path_len >= old_l[b - 1].path_len);
                }
            } else if a < pos {
                assert(new_l[a] == old_l[a] && new_l[b] == old_l[b - 1]);
            } else {
                assert(new_l[a] == old_l[a - 1] && new_l[b] == old_l[b - 1]);
            }
        }
    }
}

proof fn lemma_take_contains_step(hosts: Seq<Seq<char>>, m: int, h: Seq<char>)
    requires
        0 <= m < hosts.len(),
    ensures
        hosts.take(m + 1).contains(h) == (hosts.take(m).contains(h) || hosts[m] == h),
{
    assert(hosts.take(m + 1) =~= hosts.take(m).push(hosts[m]));
    if hosts.take(m + 1).contains(h) {
        let j = choose|j: int| 0 <= j < hosts.take(m + 1).len() && #[trigger] hosts.take(m + 1)[j] == h;
        if j < m {
            assert(hosts.take(m)[j] == h);
        }
    }
    if hosts.take(m).contains(h) {
        let j = choose|j: int| 0 <= j < hosts.take(m).len() && #[trigger] hosts.take(m)[j] == h;
        assert(hosts.take(m + 1)[j] == h);
    }
    if hosts[m] == h {
        assert(hosts.take(m + 1)[m] == h);
    }
}

/// A group whose tier gained no registrations keeps its invariant.
proof fn lemma_group_extend(ps: Seq<ProxyView>, l: Seq<RouteEntry>, t: Tier, n: int, m: int, n2: int, m2: int)
    requires
        group_ok(ps, l, t, n, m),
        n <= n2,
        forall|i: int| 0 <= i < ps.len() && in_tier(ps[i], t) && registered(ps, n2, m2, i, t) ==> registered(ps, n, m, i, t),
    ensures
        group_ok(ps, l, t, n2, m2),
{
    assert forall|i: int|
        0 <= i < ps.len() && #[trigger] in_tier(ps[i], t) && registered(ps, n2, m2, i, t)
            implies exists|j: int| 0 <= j < l.len() && #[trigger] l[j].order == i by {
        assert(registered(ps, n, m, i, t));
    }
}

/// Adding proxy `n`'s route to a group covers the newly registered proxy.
proof fn lemma_group_add(ps: Seq<ProxyView>, l: Seq<RouteEntry>, l2: Seq<RouteEntry>, pos: int, e: RouteEntry, t: Tier, n: int, m: int, n2: int, m2: int)
    requires
        group_ok(ps, l, t, n, m),
        entry_ok(ps, e, t),
        e.order == n,
        n <= n2,
        0 <= pos <= l.len(),
        l2 == l.insert(pos, e),
        entries_sorted(l2),
        forall|i: int| 0 <= i < ps.len() && in_tier(ps[i], t) && registered(ps, n2, m2, i, t) ==> registered(ps, n, m, i, t) || i == n,
    ensures
        group_ok(ps, l2, t, n2, m2),
{
    assert forall|j: int| 0 <= j < l2.len() implies entry_ok(ps, #[trigger] l2[j], t) && l2[j].order <= n2 by {
        if j < pos {
            assert(l2[j] == l[j]);
        } else if j > pos {
            assert(l2[j] == l[j - 1]);
        }
    }
    assert forall|i: int|
        0 <= i < ps.len() && #[trigger] in_tier(ps[i], t) && registered(ps, n2, m2, i, t)
            implies exists|j: int| 0 <= j < l2.len() && #[trigger] l2[j].order == i by {
        if i == n {
            assert(l2[pos].order == i);
        } else {
            assert(registered(ps, n, m, i, t));
            let j = choose|j: int| 0 <= j < l.len() && #[trigger] l[j].order == i;
            if j < pos {
                assert(l2[j] == l[j]);
            } else {
                assert(l2[j + 1] == l[j]);
            }
        }
    }
}


/// Registering host `m` of proxy `n` leaves the groups of every other host valid.
proof fn lemma_registered_step(ps: Seq<ProxyView>, n: int, m: int, i: int, t: Tier)
    requires
        0 <= n < ps.len(),
        0 <= m < ps[n].hosts.len(),
    ensures
        registered(ps, n, m + 1, i, t) == (registered(ps, n, m, i, t) || (i == n && match t {
            Tier::CatchAll => false,
            Tier::Exact(h) => ps[n].hosts[m] == h,
            Tier::Wildcard(h) => ps[n].hosts[m] == h,
        })),
{
    match t {
        Tier::CatchAll => {},
        Tier::Exact(h) => {
            lemma_take_contains_step(ps[n].hosts, m, h);
        },
        Tier::Wildcard(h) => {
            lemma_take_contains_step(ps[n].hosts, m, h);
        },
    }
}

/// A keyed list whose hosts are not the one being registered stays valid.
proof fn lemma_keyed_other(ps: Seq<ProxyView>, g: Seq<(String, Vec<RouteEntry>)>, wild: bool, n: int, m: int)
    requires
        keyed_ok(ps, g, wild, n, m),
        0 <= n < ps.len(),
        0 <= m < ps[n].hosts.len(),
        is_wildcard_pattern(ps[n].hosts[m]) != wild,
    ensures
        keyed_ok(ps, g, wild, n, m + 1),
{
    assert forall|k: int| 0 <= k < g.len() implies #[trigger] group_ok(ps, g[k].1@, tier_of(wild, g[k].0@), n, m + 1) by {
        assert(group_ok(ps, g[k].1@, tier_of(wild, g[k].0@), n, m));
        assert forall|i: int| 0 <= i < ps.len() && in_tier(ps[i], tier_of(wild, g[k].0@)) && registered(ps, n, m + 1, i, tier_of(wild, g[k].0@))
            implies registered(ps, n, m, i, tier_of(wild, g[k].0@)) by {
            lemma_registered_step(ps, n, m, i, tier_of(wild, g[k].0@));
        }
        lemma_group_extend(ps, g[k].1@, tier_of(wild, g[k].0@), n, m, n, m + 1);
    }
    assert forall|i: int, h: Seq<char>|
        0 <= i < ps.len() && #[trigger] in_tier(ps[i], tier_of(wild, h)) && registered(ps, n, m + 1, i, tier_of(wild, h))
            implies exists|k: int| 0 <= k < g.len() && #[trigger] g[k].0@ == h by {
        lemma_registered_step(ps, n, m, i, tier_of(wild, h));
        if !registered(ps, n, m, i, tier_of(wild, h)) {
            assert(ps[n].hosts[m] == h);
        }
    }
}

/// Whether the characters form a wildcard pattern (start with `*.`).
fn chars_are_wildcard(h: &Vec<char>) -> (r: bool)
    ensures
        r == is_wildcard_pattern(h@),
{
    h.len() >= 2 && h[0] == '*' && h[1] == '.'
}

/// Register route `e` for host `m` of proxy `n` in the keyed list of its tier.
fn register_host_route(
    groups: &mut Vec<(String, Vec<RouteEntry>)>,
    host: &String,
    e: RouteEntry,
    Ghost(ps): Ghost<Seq<ProxyView>>,
    Ghost(wild): Ghost<bool>,
    Ghost(n): Ghost<int>,
    Ghost(m): Ghost<int>,
)
    requires
        keyed_ok(ps, old(groups)@, wild, n, m),
        wild ==> patterns_sorted(old(groups)@),
        0 <= n < ps.len(),
        0 <= m < ps[n].hosts.len(),
        ps[n].hosts[m] == host@,
        is_wildcard_pattern(host@) == wild,
        entry_ok(ps, e, tier_of(wild, host@)),
        e.order == n,
    ensures
        keyed_ok(ps, final(groups)@, wild, n, m + 1),
        wild ==> patterns_sorted(final(groups)@),
        group_total(final(groups)@) == group_total(old(groups)@) + 1,
{
    let ghost g = groups@;
    let ghost t = tier_of(wild, host@);
    let hc = chars_of(host.as_str());
    match find_host_group(groups, &hc) {
        Some(k) => {
            let (key, mut routes) = groups.remove(k);
            proof {
                assert(g[k as int].0 == key && g[k as int].1 == routes);
                assert(group_ok(ps, routes@, t, n, m));
                assert forall|j: int| 0 <= j < routes@.len() implies #[trigger] routes@[j].order <= e.order by {
                    assert(entry_ok(ps, routes@[j], t));
                }
            }
            let ghost before = routes@;
            insert_route(&mut routes, e);
            proof {
                let pos = choose|pos: int| 0 <= pos <= before.len() && routes@ == before.insert(pos, e);
                assert forall|i: int| 0 <= i < ps.len() && in_tier(ps[i], t) && registered(ps, n, m + 1, i, t)
                    implies registered(ps, n, m, i, t) || i == n by {
                    lemma_registered_step(ps, n, m, i, t);
                }
                lemma_group_add(ps, before, routes@, pos, e, t, n, m, n, m + 1);
            }
            let ghost gr = groups@;
            let ghost item = (key, routes);
            groups.insert(k, (key, routes));
            proof {
                let g2 = groups@;
                lemma_group_total_remove(g, k as int);
                assert(gr == g.remove(k as int));
                lemma_group_total_insert(gr, k as int, item);
                assert(routes@.len() == before.len() + 1);
                assert forall|k2: int| 0 <= k2 < g2.len() && k2 != k implies #[trigger] g2[k2] == g[k2] by {}
                assert forall|k2: int| 0 <= k2 < g2.len() implies is_wildcard_pattern(#[trigger] g2[k2].0@) == wild
                    && group_ok(ps, g2[k2].1@, tier_of(wild, g2[k2].0@), n, m + 1) by {
                    if k2 != k {
                        assert(g2[k2] == g[k2]);
                        assert(g[k2].0@ != host@);
                        assert(group_ok(ps, g[k2].1@, tier_of(wild, g[k2].0@), n, m));
                        assert forall|i: int| 0 <= i < ps.len() && in_tier(ps[i], tier_of(wild, g[k2].0@)) && registered(ps, n, m + 1, i, tier_of(wild, g[k2].0@))
                            implies registered(ps, n, m, i, tier_of(wild, g[k2].0@)) by {
                            lemma_registered_step(ps, n, m, i, tier_of(wild, g[k2].0@));
                        }
                        lemma_group_extend(ps, g[k2].1@, tier_of(wild, g[k2].0@), n, m, n, m + 1);
                    }
                }
                assert forall|k1: int, k2: int| 0 <= k1 < k2 < g2.len() implies #[trigger] g2[k1].0@ != #[trigger] g2[k2].0@ by {
                    assert(g2[k1].0@ == g[k1].0@);
                    assert(g2[k2].0@ == g[k2].0@);
                }
                assert forall|i: int, h: Seq<char>|
                    0 <= i < ps.len() && #[trigger] in_tier(ps[i], tier_of(wild, h)) && registered(ps, n, m + 1, i, tier_of(wild, h))
                        implies exists|k3: int| 0 <= k3 < g2.len() && #[trigger] g2[k3].0@ == h by {
                    lemma_registered_step(ps, n, m, i, tier_of(wild, h));
                    if registered(ps, n, m, i, tier_of(wild, h)) {
                        let k3 = choose|k3: int| 0 <= k3 < g.len() && #[trigger] g[k3].0@ == h;
                        assert(g2[k3].0@ == h);
                    } else {
                        assert(g2[k as int].0@ == h);
                    }
                }
                if wild {
                    assert forall|a: int, b: int| 0 <= a < b < g2.len() implies byte_len(#[trigger] g2[a].0@) >= byte_len(#[trigger] g2[b].0@) by {
                        assert(g2[a].0@ == g[a].0@);
                        assert(g2[b].0@ == g[b].0@);
                    }
                }
            }
        },
        None => {
            let mut routes: Vec<RouteEntry> = Vec::new();
            routes.push(e);
            proof {
                assert forall|i: int|
                    0 <= i < ps.len() && #[trigger] in_tier(ps[i], t) && registered(ps, n, m + 1, i, t)
                        implies exists|j: int| 0 <= j < routes@.len() && #[trigger] routes@[j].order == i by {
                    lemma_registered_step(ps, n, m, i, t);
                    if registered(ps, n, m, i, t) {
                        let k3 = choose|k3: int| 0 <= k3 < g.len() && #[trigger] g[k3].0@ == host@;
                        assert(g[k3].0@ != host@);
                    }
                    assert(routes@[0].order == i);
                }
                assert(group_ok(ps, routes@, t, n, m + 1));
            }
            let hlen = host.as_str().as_bytes().len();
            let mut pos: usize = groups.len();
            if chars_are_wildcard(&hc) {
                pos = 0;
                while pos < groups.len() && groups[pos].0.as_str().as_bytes().len() >= hlen
                    invariant
                        groups@ == g,
                        hlen == byte_len(host@),
                        pos <= groups.len(),
                        forall|j: int| 0 <= j < pos ==> byte_len(#[trigger] g[j].0@) >= hlen,
                    decreases groups.len() - pos,
                {
                    pos += 1;
                }
            }
            let item = (host.clone(), routes);
            let ghost gi = item;
            groups.insert(pos, item);
            proof {
                let g2 = groups@;
                assert(g2 == g.insert(pos as int, gi));
                lemma_group_total_insert(g, pos as int, gi);
                assert(g2[pos as int].0@ == host@);
                assert forall|k2: int| 0 <= k2 < g2.len() implies is_wildcard_pattern(#[trigger] g2[k2].0@) == wild
                    && group_ok(ps, g2[k2].1@, tier_of(wild, g2[k2].0@), n, m + 1) by {
                    if k2 != pos {
                        let k0 = if k2 < pos { k2 } else { k2 - 1 };
                        assert(g2[k2] == g[k0]);
                        assert(g[k0].0@ != host@);
                        assert(group_ok(ps, g[k0].1@, tier_of(wild, g[k0].0@), n, m));
                        assert forall|i: int| 0 <= i < ps.len() && in_tier(ps[i], tier_of(wild, g[k0].0@)) && registered(ps, n, m + 1, i, tier_of(wild, g[k0].0@))
                            implies registered(ps, n, m, i, tier_of(wild, g[k0].0@)) by {
                            lemma_registered_step(ps, n, m, i, tier_of(wild, g[k0].0@));
                        }
                        lemma_group_extend(ps, g[k0].1@, tier_of(wild, g[k0].0@), n, m, n, m + 1);
                    }
                }
                assert forall|k1: int, k2: int| 0 <= k1 < k2 < g2.len() implies #[trigger] g2[k1].0@ != #[trigger] g2[k2].0@ by {
                    let a = if k1 < pos { k1 } else { k1 - 1 };
                    let b = if k2 < pos { k2 } else { k2 - 1 };
                    if k1 != pos && k2 != pos {
                        assert(g2[k1] == g[a] && g2[k2] == g[b]);
                    } else if k1 == pos {
                        assert(g2[k2] == g[b]);
                    } else {
                        assert(g2[k1] == g[a]);
                    }
                }
                assert forall|i: int, h: Seq<char>|
                    0 <= i < ps.len() && #[trigger] in_tier(ps[i], tier_of(wild, h)) && registered(ps, n, m + 1, i, tier_of(wild, h))
                        implies exists|k3: int| 0 <= k3 < g2.len() && #[trigger] g2[k3].0@ == h by {
                    lemma_registered_step(ps, n, m, i, tier_of(wild, h));
                    if registered(ps, n, m, i, tier_of(wild, h)) {
                        let k3 = choose|k3: int| 0 <= k3 < g.len() && #[trigger] g[k3].0@ == h;
                        if k3 < pos {
                            assert(g2[k3].0@ == h);
                        } else {
                            assert(g2[k3 + 1].0@ == h);
                        }
                    } else {
                        assert(g2[pos as int].0@ == h);
                    }
                }
                if wild {
                    assert forall|a: int, b: int| 0 <= a < b < g2.len() implies byte_len(#[trigger] g2[a].0@) >= byte_len(#[trigger] g2[b].0@) by {
                        if b < pos {
                            assert(g2[a] == g[a] && g2[b] == g[b]);
                        } else if b == pos {
                            assert(g2[a] == g[a]);
                        } else if a == pos {
                            assert(g2[b] == g[b - 1]);
                            assert(byte_len(g[pos as int].0@) < hlen);
                            if b - 1 > pos {
                                assert(byte_len(g[pos as int].0@) >= byte_len(g[b - 1].0@));
                            }
                        } else if a < pos {
                            assert(g2[a] == g[a] && g2[b] == g[b - 1]);
                        } else {
                            assert(g2[a] == g[a - 1] && g2[b] == g[b - 1]);
                        }
                    }
                }
            }
        },
    }
}


/// Once every host of proxy `n` is registered, the keyed list is valid for the next proxy.
proof fn lemma_keyed_next(ps: Seq<ProxyView>, g: Seq<(String, Vec<RouteEntry>)>, wild: bool, n: int, m: int)
    requires
        keyed_ok(ps, g, wild, n, m),
        0 <= n < ps.len(),
        m == ps[n].hosts.len() || !routable(ps[n]),
    ensures
        keyed_ok(ps, g, wild, n + 1, 0),
{
    assert(ps[n].hosts.take(ps[n].hosts.len() as int) =~= ps[n].hosts);
    assert forall|k: int| 0 <= k < g.len() implies #[trigger] group_ok(ps, g[k].1@, tier_of(wild, g[k].0@), n + 1, 0) by {
        assert(group_ok(ps, g[k].1@, tier_of(wild, g[k].0@), n, m));
        lemma_group_extend(ps, g[k].1@, tier_of(wild, g[k].0@), n, m, n + 1, 0);
    }
    assert forall|i: int, h: Seq<char>|
        0 <= i < ps.len() && #[trigger] in_tier(ps[i], tier_of(wild, h)) && registered(ps, n + 1, 0, i, tier_of(wild, h))
            implies exists|k: int| 0 <= k < g.len() && #[trigger] g[k].0@ == h by {
        assert(registered(ps, n, m, i, tier_of(wild, h)));
    }
}

/// Build the route table of a configuration: stream proxies are left out,
/// proxies without hosts go to the catch-all routes, the others are registered
/// under each of their hosts; every list is ordered most specific first.
fn build_route_table(config: &GatewayConfig) -> (t: HostRouteTable)
    ensures
        table_models(t, proxy_views(config.proxies@)),
{
    let ghost ps = proxy_views(config.proxies@);
    let mut table = HostRouteTable { exact_hosts: Vec::new(), wildcard_hosts: Vec::new(), catch_all: Vec::new() };
    let mut n: usize = 0;
    while n < config.proxies.len()
        invariant
            ps == proxy_views(config.proxies@),
            n <= config.proxies.len(),
            table_ok(table, ps, n as int, 0),
            table_total(table) == route_registrations(ps.take(n as int)),
        decreases config.proxies.len() - n,
    {
        let proxy = &config.proxies[n];
        assert(ps[n as int] == proxy@);
        proof {
            lemma_registrations_step(ps, n as int);
        }
        if proxy.backend_protocol.is_stream_proxy() {
            proof {
                lemma_group_extend(ps, table.catch_all@, Tier::CatchAll, n as int, 0, n + 1, 0);
                lemma_keyed_next(ps, table.exact_hosts@, false, n as int, 0);
                lemma_keyed_next(ps, table.wildcard_hosts@, true, n as int, 0);
            }
        } else {
            let shared = Arc::new(proxy.clone());
            let lp = proxy.listen_path.as_str();
            let lp_bytes = lp.as_bytes();
            let path_len = lp_bytes.len();
            assert(path_len == byte_len(proxy.listen_path@));
            if proxy.hosts.len() == 0 {
                let e = RouteEntry { listen_path: proxy.listen_path.clone(), path_len, order: n, proxy: shared };
                proof {
                    assert(entry_ok(ps, e, Tier::CatchAll));
                    assert forall|j: int| 0 <= j < table.catch_all@.len() implies #[trigger] table.catch_all@[j].order <= e.order by {
                        assert(entry_ok(ps, table.catch_all@[j], Tier::CatchAll));
                    }
                }
                let ghost before = table.catch_all@;
                insert_route(&mut table.catch_all, e);
                proof {
                    let pos = choose|pos: int| 0 <= pos <= before.len() && table.catch_all@ == before.insert(pos, e);
                    lemma_group_add(ps, before, table.catch_all@, pos, e, Tier::CatchAll, n as int, 0, n + 1, 0);
                    lemma_keyed_next(ps, table.exact_hosts@, false, n as int, 0);
                    lemma_keyed_next(ps, table.wildcard_hosts@, true, n as int, 0);
                }
            } else {
                let mut m: usize = 0;
                while m < proxy.hosts.len()
                    invariant
                        ps == proxy_views(config.proxies@),
                        n < config.proxies.len(),
                        proxy == &config.proxies[n as int],
                        ps[n as int] == proxy@,
                        routable(ps[n as int]),
                        proxy.hosts.len() > 0,
                        (*shared)@ == proxy@,
                        path_len == byte_len(proxy.listen_path@),
                        m <= proxy.hosts.len(),
                        table_ok(table, ps, n as int, m as int),
                        table_total(table) == route_registrations(ps.take(n as int)) + m,
                        route_registrations(ps.take(n + 1)) == route_registrations(ps.take(n as int)) + proxy_registrations(ps[n as int]),
                    decreases proxy.hosts.len() - m,
                {
                    let host = &proxy.hosts[m];
                    let hc = chars_of(host.as_str());
                    let wild = chars_are_wildcard(&hc);
                    assert(ps[n as int].hosts[m as int] == host@);
                    let e = RouteEntry { listen_path: proxy.listen_path.clone(), path_len, order: n, proxy: Arc::clone(&shared) };
                    proof {
                        assert(ps[n as int].hosts.contains(host@));
                        assert(entry_ok(ps, e, tier_of(wild, host@)));
                        lemma_group_extend(ps, table.catch_all@, Tier::CatchAll, n as int, m as int, n as int, m + 1);
                    }
                    if wild {
                        proof {
                            lemma_keyed_other(ps, table.exact_hosts@, false, n as int, m as int);
                        }
                        register_host_route(&mut table.wildcard_hosts, host, e, Ghost(ps), Ghost(true), Ghost(n as int), Ghost(m as int));
                    } else {
                        proof {
                            lemma_keyed_other(ps, table.wildcard_hosts@, true, n as int, m as int);
                        }
                        register_host_route(&mut table.exact_hosts, host, e, Ghost(ps), Ghost(false), Ghost(n as int), Ghost(m as int));
                    }
                    m += 1;
                }
                proof {
                    lemma_group_extend(ps, table.catch_all@, Tier::CatchAll, n as int, m as int, n + 1, 0);
                    lemma_keyed_next(ps, table.exact_hosts@, false, n as int, m as int);
                    lemma_keyed_next(ps, table.wildcard_hosts@, true, n as int, m as int);
                }
            }
        }
        n += 1;
    }
    assert(ps.take(config.proxies.len() as int) =~= ps);
    table
}


// ------------------------------------------------------------------------
// Laws of routing
// ------------------------------------------------------------------------

/// The proxy is registered in tier `t` and its listen path serves `path`.
pub open spec fn serves(p: ProxyView, t: Tier, path: Seq<char>) -> bool {
    in_tier(p, t) && path_matches(p.listen_path, path)
}

/// Whenever some route of a tier serves a path, the tier has a best route for it.
pub proof fn lemma_best_route_exists(ps: Seq<ProxyView>, t: Tier, path: Seq<char>, j: int)
    requires
        0 <= j < ps.len(),
        serves(ps[j], t, path),
    ensures
        best_route(ps, t, path) is Some,
        exists|i: int| is_best_route(ps, t, path, i),
    decreases ps.len(),
{
    let q = ps.drop_last();
    let n = q.len() as int;
    let x = ps.last();
    if exists|j2: int| 0 <= j2 < n && serves(q[j2], t, path) {
        let j2 = choose|j2: int| 0 <= j2 < n && serves(q[j2], t, path);
        lemma_best_route_exists(q, t, path, j2);
        let i = choose|i: int| is_best_route(q, t, path, i);
        if serves(x, t, path) && x.listen_path.len() > q[i].listen_path.len() {
            assert forall|k: int|
                #![trigger ps[k]]
                0 <= k < ps.len() && in_tier(ps[k], t) && path_matches(ps[k].listen_path, path)
                    implies outranks(ps, n, k) by {
                if k < n {
                    assert(q[k] == ps[k]);
                    assert(outranks(q, i, k));
                }
            }
            assert(is_best_route(ps, t, path, n));
        } else {
            assert forall|k: int|
                #![trigger ps[k]]
                0 <= k < ps.len() && in_tier(ps[k], t) && path_matches(ps[k].listen_path, path)
                    implies outranks(ps, i, k) by {
                if k < n {
                    assert(q[k] == ps[k]);
                    assert(outranks(q, i, k));
                }
            }
            assert(is_best_route(ps, t, path, i));
        }
    } else {
        assert(j == n) by {
            if j < n {
                assert(q[j] == ps[j]);
            }
        }
        assert forall|k: int|
            #![trigger ps[k]]
            0 <= k < ps.len() && in_tier(ps[k], t) && path_matches(ps[k].listen_path, path)
                implies outranks(ps, n, k) by {
            if k < n {
                assert(q[k] == ps[k]);
                assert(serves(q[k], t, path));
            }
        }
        assert(is_best_route(ps, t, path, n));
    }
    let c = choose|i: int| is_best_route(ps, t, path, i);
    lemma_best_unique(ps, t, path, c);
}

/// Configuring one more proxy changes a tier's answer for a path only when the
/// new proxy serves the path with a strictly longer listen path than the
/// previous answer (or there was none); then the new proxy is the answer.
pub proof fn lemma_best_route_push(ps: Seq<ProxyView>, x: ProxyView, t: Tier, path: Seq<char>)
    ensures
        best_route(ps.push(x), t, path) == if serves(x, t, path) && (best_route(ps, t, path) matches Some(b)
            ==> b.listen_path.len() < x.listen_path.len()) {
            Some(x)
        } else {
            best_route(ps, t, path)
        },
{
    let q = ps.push(x);
    let n = ps.len() as int;
    assert(q[n] == x);
    if exists|i: int| is_best_route(ps, t, path, i) {
        let i = choose|i: int| is_best_route(ps, t, path, i);
        lemma_best_unique(ps, t, path, i);
        if serves(x, t, path) && ps[i].listen_path.len() < x.listen_path.len() {
            assert forall|k: int|
                #![trigger q[k]]
                0 <= k < q.len() && in_tier(q[k], t) && path_matches(q[k].listen_path, path)
                    implies outranks(q, n, k) by {
                if k < n {
                    assert(q[k] == ps[k]);
                    assert(outranks(ps, i, k));
                }
            }
            assert(is_best_route(q, t, path, n));
            lemma_best_unique(q, t, path, n);
        } else {
            assert forall|k: int|
                #![trigger q[k]]
                0 <= k < q.len() && in_tier(q[k], t) && path_matches(q[k].listen_path, path)
                    implies outranks(q, i, k) by {
                if k < n {
                    assert(q[k] == ps[k]);
                    assert(outranks(ps, i, k));
                }
            }
            assert(is_best_route(q, t, path, i));
            lemma_best_unique(q, t, path, i);
        }
    } else {
        assert forall|k: int| 0 <= k < n implies !serves(#[trigger] ps[k], t, path) by {
            if serves(ps[k], t, path) {
                lemma_best_route_exists(ps, t, path, k);
            }
        }
        if serves(x, t, path) {
            assert forall|k: int|
                #![trigger q[k]]
                0 <= k < q.len() && in_tier(q[k], t) && path_matches(q[k].listen_path, path)
                    implies outranks(q, n, k) by {
                if k < n {
                    assert(q[k] == ps[k]);
                    assert(!serves(ps[k], t, path));
                }
            }
            assert(is_best_route(q, t, path, n));
            lemma_best_unique(q, t, path, n);
        } else {
            if exists|i: int| is_best_route(q, t, path, i) {
                let i = choose|i: int| is_best_route(q, t, path, i);
                if i < n {
                    assert(q[i] == ps[i]);
                    assert(!serves(ps[i], t, path));
                }
            }
        }
    }
}

/// Dropping proxies that do not serve a path leaves a tier's answer for it unchanged.
pub proof fn lemma_best_route_filter(ps: Seq<ProxyView>, keep: spec_fn(ProxyView) -> bool, t: Tier, path: Seq<char>)
    requires
        forall|j: int| 0 <= j < ps.len() && serves(#[trigger] ps[j], t, path) ==> keep(ps[j]),
    ensures
        best_route(ps.filter(keep), t, path) == best_route(ps, t, path),
    decreases ps.len(),
{
    if ps.len() == 0 {
        assert(ps.filter(keep) =~= ps) by {
            reveal(Seq::filter);
        }
    } else {
        let q = ps.drop_last();
        let x = ps.last();
        assert(ps =~= q.push(x));
        assert forall|j: int| 0 <= j < q.len() && serves(#[trigger] q[j], t, path) implies keep(q[j]) by {
            assert(q[j] == ps[j]);
        }
        lemma_best_route_filter(q, keep, t, path);
        q.lemma_filter_push(x, keep);
        lemma_best_route_push(q, x, t, path);
        if keep(x) {
            lemma_best_route_push(q.filter(keep), x, t, path);
        } else {
            assert(!serves(ps[ps.len() - 1], t, path));
        }
    }
}

/// Dropping proxies that are not routed or do not serve a path leaves the
/// answer for every host and that path unchanged.
pub proof fn lemma_route_filter(ps: Seq<ProxyView>, keep: spec_fn(ProxyView) -> bool, host: Option<Seq<char>>, path: Seq<char>)
    requires
        forall|j: int|
            0 <= j < ps.len() && routable(#[trigger] ps[j]) && path_matches(ps[j].listen_path, path) ==> keep(ps[j]),
    ensures
        spec_route(ps.filter(keep), host, path) == spec_route(ps, host, path),
{
    let fs = ps.filter(keep);
    assert forall|t: Tier| #[trigger] best_route(fs, t, path) == best_route(ps, t, path) by {
        assert forall|j: int| 0 <= j < ps.len() && serves(#[trigger] ps[j], t, path) implies keep(ps[j]) by {
            assert(routable(ps[j]) && path_matches(ps[j].listen_path, path));
        }
        lemma_best_route_filter(ps, keep, t, path);
    }
    if let Some(h) = host {
        assert(best_route(fs, Tier::Exact(h), path) == best_route(ps, Tier::Exact(h), path));
        assert forall|pat: Seq<char>| #[trigger] wildcard_hit(fs, pat, h, path) == wildcard_hit(ps, pat, h, path) by {
            assert(best_route(fs, Tier::Wildcard(pat), path) == best_route(ps, Tier::Wildcard(pat), path));
        }
        if exists|pat: Seq<char>| wildcard_hit(ps, pat, h, path) {
            let pat = choose|pat: Seq<char>| wildcard_hit(ps, pat, h, path);
            assert(wildcard_hit(fs, pat, h, path));
            let a = longest_wildcard_hit(ps, h, path);
            let b = longest_wildcard_hit(fs, h, path);
            lemma_longest_wildcard_hit(ps, h, path);
            lemma_longest_wildcard_hit(fs, h, path);
            assert(wildcard_hit(ps, b, h, path));
            assert(wildcard_hit(fs, a, h, path));
            assert(a.len() == b.len());
            lemma_wildcard_match_unique_by_len(a, b, h);
            assert(best_route(fs, Tier::Wildcard(b), path) == best_route(ps, Tier::Wildcard(a), path));
        }
        assert(best_route(fs, Tier::CatchAll, path) == best_route(ps, Tier::CatchAll, path));
    } else {
        assert(best_route(fs, Tier::CatchAll, path) == best_route(ps, Tier::CatchAll, path));
    }
}

/// Stream (TCP/UDP) proxies take no part in HTTP routing: leaving them out
/// of a configuration changes no answer.
pub proof fn lemma_stream_proxies_ignored(ps: Seq<ProxyView>, host: Option<Seq<char>>, path: Seq<char>)
    ensures
        spec_route(ps.filter(|p: ProxyView| routable(p)), host, path) == spec_route(ps, host, path),
{
    lemma_route_filter(ps, |p: ProxyView| routable(p), host, path);
}

/// When some wildcard pattern hits, the longest hit is a hit and no hit is longer.
proof fn lemma_longest_wildcard_hit(ps: Seq<ProxyView>, host: Seq<char>, path: Seq<char>)
    requires
        exists|pat: Seq<char>| wildcard_hit(ps, pat, host, path),
    ensures
        wildcard_hit(ps, longest_wildcard_hit(ps, host, path), host, path),
        forall|q: Seq<char>| #[trigger] wildcard_hit(ps, q, host, path) ==> q.len() <= longest_wildcard_hit(ps, host, path).len(),
{
    let pat = choose|pat: Seq<char>| wildcard_hit(ps, pat, host, path);
    lemma_longest_hit_exists(ps, host, path, pat);
}

/// Among the patterns that hit there is one of greatest length: a hit matches
/// the host, so it is no longer than the host.
proof fn lemma_longest_hit_exists(ps: Seq<ProxyView>, host: Seq<char>, path: Seq<char>, pat: Seq<char>)
    requires
        wildcard_hit(ps, pat, host, path),
    ensures
        exists|p: Seq<char>|
            wildcard_hit(ps, p, host, path) && forall|q: Seq<char>|
                #[trigger] wildcard_hit(ps, q, host, path) ==> q.len() <= p.len(),
    decreases host.len() - pat.len(),
{
    if exists|q: Seq<char>| wildcard_hit(ps, q, host, path) && q.len() > pat.len() {
        let q = choose|q: Seq<char>| wildcard_hit(ps, q, host, path) && q.len() > pat.len();
        lemma_longest_hit_exists(ps, host, path, q);
    } else {
        assert(wildcard_hit(ps, pat, host, path) && forall|q: Seq<char>|
            #[trigger] wildcard_hit(ps, q, host, path) ==> q.len() <= pat.len());
    }
}

// ------------------------------------------------------------------------
// Cache keys
// ------------------------------------------------------------------------

/// The cache key of a lookup: `host NUL path`, or `NUL path` without a host.
pub open spec fn spec_cache_key(host: Option<Seq<char>>, path: Seq<char>) -> Seq<char> {
    match host {
        Some(h) => h + seq!['\0'] + path,
        None => seq!['\0'] + path,
    }
}

/// The path a cache key was made for: everything after its first NUL.
pub open spec fn key_path(key: Seq<char>) -> Seq<char> {
    match first_index_of(key, '\0') {
        Some(i) => key.skip(i + 1),
        None => key,
    }
}

/// The host a cache key was made for: everything before its first NUL, if non-empty.
pub open spec fn key_host(key: Seq<char>) -> Option<Seq<char>> {
    match first_index_of(key, '\0') {
        Some(i) => if i == 0 {
            None
        } else {
            Some(key.take(i))
        },
        None => None,
    }
}

/// A request host that its cache key identifies unambiguously: absent, or
/// non-empty without NUL characters.
pub open spec fn valid_request_host(host: Option<Seq<char>>) -> bool {
    match host {
        Some(h) => h.len() > 0 && !h.contains('\0'),
        None => true,
    }
}

/// Cache keys are unambiguous: the key of a lookup gives back its host and path.
pub proof fn lemma_cache_key_roundtrip(host: Option<Seq<char>>, path: Seq<char>)
    requires
        valid_request_host(host),
    ensures
        key_host(spec_cache_key(host, path)) == host,
        key_path(spec_cache_key(host, path)) == path,
{
    let k = spec_cache_key(host, path);
    match host {
        Some(h) => {
            assert(k[h.len() as int] == '\0');
            assert forall|j: int| 0 <= j < h.len() implies k[j] != '\0' by {
                assert(k[j] == h[j]);
                if h[j] == '\0' {
                    assert(h.contains('\0'));
                }
            }
            let c = choose|i: int| 0 <= i < k.len() && k[i] == '\0' && forall|j: int| 0 <= j < i ==> k[j] != '\0';
            assert(c == h.len());
            assert(k.take(h.len() as int) =~= h);
            assert(k.skip(h.len() as int + 1) =~= path);
        },
        None => {
            assert(k[0] == '\0');
            let c = choose|i: int| 0 <= i < k.len() && k[i] == '\0' && forall|j: int| 0 <= j < i ==> k[j] != '\0';
            assert(c == 0);
            assert(k.skip(1) =~= path);
        },
    }
}

/// The host part of a lookup: the host, or nothing.
pub open spec fn host_or_empty(host: Option<Seq<char>>) -> Seq<char> {
    match host {
        Some(h) => h,
        None => seq![],
    }
}

/// A cache key splits at its first NUL into the host (empty without one) and
/// the path, whenever the host holds no NUL.
pub proof fn lemma_cache_key_split(host: Option<Seq<char>>, path: Seq<char>)
    requires
        !host_or_empty(host).contains('\0'),
    ensures
        first_index_of(spec_cache_key(host, path), '\0') == Some(host_or_empty(host).len() as int),
        spec_cache_key(host, path).take(host_or_empty(host).len() as int) == host_or_empty(host),
        key_path(spec_cache_key(host, path)) == path,
{
    let k = spec_cache_key(host, path);
    let h = host_or_empty(host);
    assert(k =~= h + seq!['\0'] + path);
    assert(k[h.len() as int] == '\0');
    assert forall|j: int| 0 <= j < h.len() implies k[j] != '\0' by {
        assert(k[j] == h[j]);
        if h[j] == '\0' {
            assert(h.contains('\0'));
        }
    }
    let c = choose|i: int| 0 <= i < k.len() && k[i] == '\0' && forall|j: int| 0 <= j < i ==> k[j] != '\0';
    assert(c == h.len());
    assert(k.take(h.len() as int) =~= h);
    assert(k.skip(h.len() as int + 1) =~= path);
}

/// Two lookups whose hosts hold no NUL share a cache key exactly when they
/// have the same host part (no host and the empty host alike) and the same path.
pub proof fn lemma_cache_key_injective(h1: Option<Seq<char>>, p1: Seq<char>, h2: Option<Seq<char>>, p2: Seq<char>)
    requires
        !host_or_empty(h1).contains('\0'),
        !host_or_empty(h2).contains('\0'),
    ensures
        (spec_cache_key(h1, p1) == spec_cache_key(h2, p2)) == (host_or_empty(h1) == host_or_empty(h2) && p1 == p2),
{
    lemma_cache_key_split(h1, p1);
    lemma_cache_key_split(h2, p2);
    if host_or_empty(h1) == host_or_empty(h2) && p1 == p2 {
        assert(spec_cache_key(h1, p1) =~= host_or_empty(h1) + seq!['\0'] + p1);
        assert(spec_cache_key(h2, p2) =~= host_or_empty(h2) + seq!['\0'] + p2);
    }
}

/// Every cached answer is the answer a fresh search of the routes gives for the
/// host and path its key stands for.
pub open spec fn cache_coherent(ps: Seq<ProxyView>, cached: Map<Seq<char>, Option<ProxyView>>) -> bool {
    forall|k: Seq<char>| #[trigger] cached.contains_key(k) ==> cached[k] == spec_route(ps, key_host(k), key_path(k))
}

/// A cached path is untouched by a change of the listen paths `affected` when
/// it starts with none of them.
pub open spec fn key_unaffected(key: Seq<char>, affected: Seq<Seq<char>>) -> bool {
    forall|i: int| 0 <= i < affected.len() ==> !has_prefix(key_path(key), #[trigger] affected[i])
}

/// The proxy's listen path is not among `affected`.
pub open spec fn outside_delta(affected: Seq<Seq<char>>) -> spec_fn(ProxyView) -> bool {
    |p: ProxyView| !affected.contains(p.listen_path)
}

/// `affected` names every listen path whose proxies differ between two
/// configurations: leaving out the proxies on those listen paths, both list
/// the same proxies in the same order.
pub open spec fn delta_covers(old_ps: Seq<ProxyView>, new_ps: Seq<ProxyView>, affected: Seq<Seq<char>>) -> bool {
    old_ps.filter(outside_delta(affected)) == new_ps.filter(outside_delta(affected))
}

/// The cache entries an invalidation of the listen paths `affected` keeps.
pub open spec fn kept_after_delta(cached: Map<Seq<char>, Option<ProxyView>>, affected: Seq<Seq<char>>) -> Map<Seq<char>, Option<ProxyView>> {
    cached.restrict(Set::new(|k: Seq<char>| key_unaffected(k, affected)))
}

/// Surgical invalidation keeps the cache truthful: when `affected` covers every
/// listen path that changed, each cached answer that survives (its path starts
/// with no affected listen path) is the answer a fresh search of the new routes
/// gives.
pub proof fn lemma_delta_keeps_cache_coherent(
    old_ps: Seq<ProxyView>,
    new_ps: Seq<ProxyView>,
    cached: Map<Seq<char>, Option<ProxyView>>,
    affected: Seq<Seq<char>>,
)
    requires
        cache_coherent(old_ps, cached),
        delta_covers(old_ps, new_ps, affected),
    ensures
        cache_coherent(new_ps, kept_after_delta(cached, affected)),
{
    let kept = kept_after_delta(cached, affected);
    let keep = outside_delta(affected);
    assert forall|k: Seq<char>| #[trigger] kept.contains_key(k) implies kept[k] == spec_route(
        new_ps,
        key_host(k),
        key_path(k),
    ) by {
        let path = key_path(k);
        assert(key_unaffected(k, affected));
        assert forall|ps: Seq<ProxyView>, j: int|
            0 <= j < ps.len() && routable(#[trigger] ps[j]) && path_matches(ps[j].listen_path, path) implies keep(ps[j]) by {
            if affected.contains(ps[j].listen_path) {
                let i = choose|i: int| 0 <= i < affected.len() && affected[i] == ps[j].listen_path;
                assert(!has_prefix(path, affected[i]));
                assert(has_prefix(path, ps[j].listen_path)) by {
                    if path == ps[j].listen_path {
                        assert(path.subrange(0, path.len() as int) =~= path);
                    }
                }
            }
        }
        lemma_route_filter(old_ps, keep, key_host(k), path);
        lemma_route_filter(new_ps, keep, key_host(k), path);
        assert(cached.contains_key(k));
    }
}

/// The characters of each string.
pub open spec fn string_views(v: Seq<String>) -> Seq<Seq<char>> {
    v.map_values(|s: String| s@)
}

/// Build a cache key from host and path (see [`spec_cache_key`]).
pub fn make_cache_key(host: Option<&str>, path: &str) -> (k: String)
    ensures
        k@ == spec_cache_key(host_view(host), path@),
{
    let mut key = String::new();
    if let Some(h) = host {
        key.append(h);
    }
    key.append("\0");
    key.append(path);
    proof {
        reveal_strlit("\0");
    }
    key
}

/// Whether a cached entry survives a change of the listen paths `affected`
/// (see [`key_unaffected`]).
fn cache_key_unaffected(key: &String, affected: &[String]) -> (r: bool)
    ensures
        r == key_unaffected(key@, string_views(affected@)),
{
    let kc = chars_of(key.as_str());
    let mut path: Vec<char> = Vec::new();
    match chars_find(&kc, '\0') {
        Some(i) => {
            let mut j = i + 1;
            while j < kc.len()
                invariant
                    i < kc.len(),
                    i + 1 <= j <= kc.len(),
                    path@ == kc@.subrange(i + 1, j as int),
                decreases kc.len() - j,
            {
                path.push(kc[j]);
                j += 1;
            }
            assert(path@ =~= kc@.skip(i + 1));
        },
        None => {
            path = kc;
        },
    }
    assert(path@ == key_path(key@));
    let mut a: usize = 0;
    while a < affected.len()
        invariant
            path@ == key_path(key@),
            a <= affected.len(),
            forall|i: int| 0 <= i < a ==> !has_prefix(key_path(key@), #[trigger] string_views(affected@)[i]),
        decreases affected.len() - a,
    {
        let lp = chars_of(affected[a].as_str());
        assert(lp@ == string_views(affected@)[a as int]);
        if chars_have_prefix(&path, &lp) {
            return false;
        }
        a += 1;
    }
    true
}

// ------------------------------------------------------------------------
// Eviction sampling
// ------------------------------------------------------------------------

/// The sampling rule: the `count`-th candidate visited is evicted when
/// `count * (seed + 7)` is a multiple of 4.
pub open spec fn sample_hits(count: int, seed: u64) -> bool {
    (count * (seed + 7)) % 4 == 0
}

/// `(evicted, visited)` after scanning `i` entries with an eviction budget of
/// `target`; once the budget is spent the remaining entries are not visited.
pub open spec fn scan_state(seed: u64, target: int, i: nat) -> (int, int)
    decreases i,
{
    if i == 0 {
        (0, 0)
    } else {
        let st = scan_state(seed, target, (i - 1) as nat);
        if st.0 >= target {
            st
        } else if sample_hits(st.1 + 1, seed) {
            (st.0 + 1, st.1 + 1)
        } else {
            (st.0, st.1 + 1)
        }
    }
}

/// The entry at position `i` of the scan is evicted.
pub open spec fn evicted_at(seed: u64, target: int, i: nat) -> bool {
    let st = scan_state(seed, target, i);
    st.0 < target && sample_hits(st.1 + 1, seed)
}

/// The keys a scan over `keys` (in that order) evicts.
pub open spec fn eviction_choice(keys: Seq<Seq<char>>, seed: u64, target: int) -> Seq<Seq<char>>
    decreases keys.len(),
{
    if keys.len() == 0 {
        seq![]
    } else {
        let prev = eviction_choice(keys.drop_last(), seed, target);
        if evicted_at(seed, target, (keys.len() - 1) as nat) {
            prev.push(keys.last())
        } else {
            prev
        }
    }
}

proof fn lemma_scan_bounds(seed: u64, target: int, i: nat)
    requires
        target >= 0,
    ensures
        0 <= scan_state(seed, target, i).0 <= target,
        0 <= scan_state(seed, target, i).1 <= i,
    decreases i,
{
    if i > 0 {
        lemma_scan_bounds(seed, target, (i - 1) as nat);
    }
}

/// The eviction choice never exceeds the budget and only picks scanned keys.
pub proof fn lemma_eviction_budget(keys: Seq<Seq<char>>, seed: u64, target: int)
    requires
        target >= 0,
    ensures
        eviction_choice(keys, seed, target).len() == scan_state(seed, target, keys.len()).0,
        eviction_choice(keys, seed, target).len() <= target,
        forall|j: int| 0 <= j < eviction_choice(keys, seed, target).len() ==> keys.contains(#[trigger] eviction_choice(keys, seed, target)[j]),
    decreases keys.len(),
{
    lemma_scan_bounds(seed, target, keys.len());
    if keys.len() > 0 {
        let prev = keys.drop_last();
        lemma_eviction_budget(prev, seed, target);
        let c = eviction_choice(keys, seed, target);
        assert forall|j: int| 0 <= j < c.len() implies keys.contains(#[trigger] c[j]) by {
            if j < eviction_choice(prev, seed, target).len() {
                let x = c[j];
                assert(prev.contains(x));
                let w = choose|w: int| 0 <= w < prev.len() && prev[w] == x;
                assert(keys[w] == x);
            } else {
                assert(keys[keys.len() - 1] == c[j]);
            }
        }
    }
}

/// How many entries a full cache of `entries` entries evicts before an
/// insertion: the scanned entries whose sample count hits, up to a quarter of
/// the capacity. The count does not depend on the order of the scan.
pub open spec fn eviction_count(seed: u64, capacity: nat, entries: nat) -> int {
    scan_state(seed, capacity as int / 4, entries).0
}

/// A full cache never evicts more than a quarter of its capacity at once.
pub proof fn lemma_eviction_at_most_quarter(seed: u64, capacity: nat, entries: nat)
    ensures
        0 <= eviction_count(seed, capacity, entries) <= capacity / 4,
{
    lemma_scan_bounds(seed, capacity as int / 4, entries);
}

/// How many entries a full cache evicts before an insertion: the entries the
/// sample hits, and at least one.
pub open spec fn evictions_when_full(seed: u64, capacity: nat) -> int {
    let sampled = eviction_count(seed, capacity, capacity);
    if sampled >= 1 {
        sampled
    } else {
        1
    }
}

/// A full cache always evicts at least one entry, and never more than a
/// quarter of its capacity unless that quarter is less than one.
pub proof fn lemma_full_cache_makes_room(seed: u64, capacity: nat)
    ensures
        1 <= evictions_when_full(seed, capacity),
        evictions_when_full(seed, capacity) <= if capacity / 4 >= 1 { capacity / 4 } else { 1 },
{
    lemma_eviction_at_most_quarter(seed, capacity, capacity);
}

/// A list of distinct keys that are exactly the keys of a map is as long as the map.
proof fn lemma_keys_count(keys: Seq<String>, m: Map<Seq<char>, Option<ProxyView>>)
    requires
        m.dom().finite(),
        forall|i: int| 0 <= i < keys.len() ==> m.contains_key(#[trigger] keys[i]@),
        forall|k: Seq<char>| #[trigger] m.contains_key(k) ==> exists|i: int| 0 <= i < keys.len() && keys[i]@ == k,
        forall|i: int, j: int| 0 <= i < j < keys.len() ==> #[trigger] keys[i]@ != #[trigger] keys[j]@,
    ensures
        string_views(keys).len() == m.len(),
        keys.len() == m.len(),
{
    let kv = string_views(keys);
    assert(kv.no_duplicates()) by {
        assert forall|i: int, j: int| 0 <= i < kv.len() && 0 <= j < kv.len() && i != j implies kv[i] != kv[j] by {
            if i < j {
                assert(keys[i]@ != keys[j]@);
            } else {
                assert(keys[j]@ != keys[i]@);
            }
        }
    }
    kv.unique_seq_to_set();
    assert(kv.to_set() =~= m.dom()) by {
        assert forall|k: Seq<char>| kv.to_set().contains(k) implies m.dom().contains(k) by {
            let i = choose|i: int| 0 <= i < kv.len() && kv[i] == k;
            assert(keys[i]@ == k);
        }
        assert forall|k: Seq<char>| m.dom().contains(k) implies kv.to_set().contains(k) by {
            assert(m.contains_key(k));
            let i = choose|i: int| 0 <= i < keys.len() && keys[i]@ == k;
            assert(kv[i] == k);
        }
    }
}

/// Scanning distinct keys evicts distinct keys.
proof fn lemma_eviction_distinct(keys: Seq<Seq<char>>, seed: u64, target: int)
    requires
        target >= 0,
        keys.no_duplicates(),
    ensures
        eviction_choice(keys, seed, target).no_duplicates(),
    decreases keys.len(),
{
    if keys.len() > 0 {
        let prev = keys.drop_last();
        let last = keys.last();
        assert(prev.no_duplicates()) by {
            assert forall|i: int, j: int| 0 <= i < prev.len() && 0 <= j < prev.len() && i != j implies prev[i] != prev[j] by {
                assert(prev[i] == keys[i] && prev[j] == keys[j]);
            }
        }
        lemma_eviction_distinct(prev, seed, target);
        lemma_eviction_budget(prev, seed, target);
        let pc = eviction_choice(prev, seed, target);
        let c = eviction_choice(keys, seed, target);
        if evicted_at(seed, target, (keys.len() - 1) as nat) {
            assert(!prev.contains(last)) by {
                if prev.contains(last) {
                    let w = choose|w: int| 0 <= w < prev.len() && prev[w] == last;
                    assert(keys[w] == keys[keys.len() - 1]);
                }
            }
            assert forall|i: int, j: int| 0 <= i < c.len() && 0 <= j < c.len() && i != j implies c[i] != c[j] by {
                if i < pc.len() && j < pc.len() {
                    assert(c[i] == pc[i] && c[j] == pc[j]);
                } else if i == pc.len() {
                    assert(c[j] == pc[j]);
                    assert(prev.contains(pc[j]));
                } else {
                    assert(c[i] == pc[i]);
                    assert(prev.contains(pc[i]));
                }
            }
        }
    }
}

proof fn lemma_sample_rule(c: u64, s: u64)
    ensures
        (vstd::wrapping::u64_specs::wrapping_mul(c, vstd::wrapping::u64_specs::wrapping_add(s, 7)) % 4 == 0) == sample_hits(c as int, s),
{
    let w = vstd::wrapping::u64_specs::wrapping_add(s, 7);
    assert(w as int == s + 7 || w as int == s + 7 - 0x1_0000_0000_0000_0000);
    assert(w as int % 4 == (s + 7) % 4);
    lemma_mod_mod(c * w, 4, 0x4000_0000_0000_0000);
    assert(4 * 0x4000_0000_0000_0000 == 0x1_0000_0000_0000_0000);
    lemma_mul_mod_noop_right(c as int, w as int, 4);
    lemma_mul_mod_noop_right(c as int, s + 7, 4);
}

/// Choose which of the cached keys, scanned in the given order, to evict.
fn eviction_victims(keys: &Vec<String>, seed: u64, target: usize) -> (victims: Vec<String>)
    ensures
        string_views(victims@) == eviction_choice(string_views(keys@), seed, target as int),
{
    let ghost kv = string_views(keys@);
    let mut victims: Vec<String> = Vec::new();
    let mut removed: usize = 0;
    let mut keep_count: u64 = 0;
    let mut i: usize = 0;
    while i < keys.len()
        invariant
            kv == string_views(keys@),
            i <= keys.len(),
            removed as int == scan_state(seed, target as int, i as nat).0,
            keep_count as int == scan_state(seed, target as int, i as nat).1,
            string_views(victims@) == eviction_choice(kv.take(i as int), seed, target as int),
        decreases keys.len() - i,
    {
        proof {
            lemma_scan_bounds(seed, target as int, i as nat);
            assert(kv.take(i + 1).drop_last() =~= kv.take(i as int));
        }
        let ghost before = victims@;
        if removed < target {
            keep_count = keep_count + 1;
            proof {
                lemma_sample_rule(keep_count, seed);
            }
            if keep_count.wrapping_mul(seed.wrapping_add(7)) % 4 == 0 {
                removed += 1;
                victims.push(keys[i].clone());
                assert(string_views(victims@) =~= string_views(before).push(kv[i as int]));
            }
        }
        i += 1;
    }
    assert(kv.take(keys.len() as int) =~= kv);
    victims
}

// ------------------------------------------------------------------------
// Trusted interface to the outside containers
// ------------------------------------------------------------------------

/// The cell holding the current route table, swapped whole on rebuilds
/// (an `arc_swap::ArcSwap`). `ArcSwapAny` bounds its type parameters by
/// arc-swap's `RefCnt` and `Strategy` traits, so the cell is held behind this
/// opaque struct; [`current_route_table`] names the table it holds.
#[verifier::external_body]
pub struct RouteTableCell {
    inner: ArcSwap<HostRouteTable>,
}

/// The route table a cell currently holds.
pub uninterp spec fn current_route_table(cell: RouteTableCell) -> HostRouteTable;

/// `ArcSwap::new`: the new cell holds `table`.
#[verifier::external_body]
fn route_table_cell_new(table: HostRouteTable) -> (cell: RouteTableCell)
    ensures
        current_route_table(cell) == table,
{
    RouteTableCell { inner: ArcSwap::new(Arc::new(table)) }
}

/// `ArcSwap::load_full`: a handle to the table the cell holds.
#[verifier::external_body]
fn route_table_cell_load(cell: &RouteTableCell) -> (table: Arc<HostRouteTable>)
    ensures
        *table == current_route_table(*cell),
{
    cell.inner.load_full()
}

/// `ArcSwap::store`: the cell now holds `table`.
#[verifier::external_body]
fn route_table_cell_store(cell: &mut RouteTableCell, table: HostRouteTable)
    ensures
        current_route_table(*final(cell)) == table,
{
    cell.inner.store(Arc::new(table))
}

/// `dashmap::DashMap`, declared so that it can be held in a field.
#[verifier::external_type_specification]
#[verifier::external_body]
#[verifier::reject_recursive_types(K)]
#[verifier::reject_recursive_types(V)]
#[verifier::reject_recursive_types(S)]
pub struct ExDashMap<K, V, S>(DashMap<K, V, S>);

/// The view of a cache without entries.
pub open spec fn empty_cache() -> Map<Seq<char>, Option<ProxyView>> {
    Map::empty()
}

/// A cached lookup answer: the matched proxy, or `None` for a cached miss.
pub type CachedRoute = Option<Arc<Proxy>>;

/// What a path cache holds: key characters -> cached answer.
pub uninterp spec fn path_cache_entries(m: DashMap<String, CachedRoute>) -> Map<Seq<char>, Option<ProxyView>>;

/// `DashMap::with_capacity`: an empty map.
#[verifier::external_body]
fn path_cache_with_capacity(capacity: usize) -> (m: DashMap<String, CachedRoute>)
    ensures
        path_cache_entries(m) == empty_cache(),
{
    DashMap::with_capacity(capacity)
}

/// `DashMap::get`: the cached answer for `key`, if there is one.
#[verifier::external_body]
fn path_cache_get(m: &DashMap<String, CachedRoute>, key: &String) -> (r: Option<Option<Arc<Proxy>>>)
    ensures
        r is Some == path_cache_entries(*m).contains_key(key@),
        r matches Some(v) ==> shared_view(v) == path_cache_entries(*m)[key@],
{
    m.get(key).map(|entry| entry.value().clone())
}

/// `DashMap::len`: the number of entries.
#[verifier::external_body]
fn path_cache_len(m: &DashMap<String, CachedRoute>) -> (n: usize)
    ensures
        n == path_cache_entries(*m).len(),
{
    m.len()
}

/// `DashMap::insert`: `key` now maps to `value`.
#[verifier::external_body]
fn path_cache_insert(m: &mut DashMap<String, CachedRoute>, key: String, value: Option<Arc<Proxy>>)
    ensures
        path_cache_entries(*final(m)) == path_cache_entries(*old(m)).insert(key@, shared_view(value)),
{
    m.insert(key, value);
}

/// `DashMap::remove`: `key` no longer has an entry.
#[verifier::external_body]
fn path_cache_remove(m: &mut DashMap<String, CachedRoute>, key: &String)
    ensures
        path_cache_entries(*final(m)) == path_cache_entries(*old(m)).remove(key@),
{
    m.remove(key);
}

/// `DashMap::clear`: no entries are left.
#[verifier::external_body]
fn path_cache_clear(m: &mut DashMap<String, CachedRoute>)
    ensures
        path_cache_entries(*final(m)) == empty_cache(),
{
    m.clear();
}

/// `DashMap::iter`: every key once, in the map's own (unspecified) order.
#[verifier::external_body]
fn path_cache_keys(m: &DashMap<String, CachedRoute>) -> (keys: Vec<String>)
    ensures
        forall|i: int| 0 <= i < keys@.len() ==> path_cache_entries(*m).contains_key(#[trigger] keys@[i]@),
        forall|k: Seq<char>| #[trigger] path_cache_entries(*m).contains_key(k) ==> exists|i: int| 0 <= i < keys@.len() && keys@[i]@ == k,
        forall|i: int, j: int| 0 <= i < j < keys@.len() ==> #[trigger] keys@[i]@ != #[trigger] keys@[j]@,
{
    m.iter().map(|entry| entry.key().clone()).collect()
}

/// `DashMap::retain`, keeping exactly the entries whose key is unaffected by
/// the changed listen paths (decided by [`cache_key_unaffected`]).
#[verifier::external_body]
fn path_cache_retain_unaffected(m: &mut DashMap<String, CachedRoute>, affected: &[String])
    ensures
        path_cache_entries(*final(m)) == path_cache_entries(*old(m)).restrict(
            Set::new(|k: Seq<char>| key_unaffected(k, string_views(affected@))),
        ),
{
    m.retain(|key, _| cache_key_unaffected(key, affected));
}



/// Sum the route counts of a keyed list of groups.
fn count_group_routes(g: &Vec<(String, Vec<RouteEntry>)>) -> (n: usize)
    requires
        group_total(g@) <= usize::MAX,
    ensures
        n == group_total(g@),
{
    let mut total: usize = 0;
    let mut i: usize = 0;
    while i < g.len()
        invariant
            i <= g.len(),
            group_total(g@) <= usize::MAX,
            total == group_total(g@.take(i as int)),
        decreases g.len() - i,
    {
        proof {
            lemma_group_total_prefix(g@, i + 1);
            assert(g@.take(i + 1).drop_last() =~= g@.take(i as int));
        }
        total = total + g[i].1.len();
        i += 1;
    }
    assert(g@.take(g.len() as int) =~= g@);
    total
}

// ------------------------------------------------------------------------
// The router cache
// ------------------------------------------------------------------------

/// Router cache with a pre-sorted route table and a bounded lookup cache.
///
/// The route table is rebuilt and swapped whole whenever the configuration
/// changes. Repeated lookups are answered from the path cache; misses (no
/// route) are cached too, so scanner traffic does not rescan the table.
pub struct RouterCache {
    /// Pre-computed host-based route index.
    route_table: RouteTableCell,
    /// `host NUL path` -> matched proxy, `None` for a cached miss.
    path_cache: DashMap<String, CachedRoute>,
    /// Entries in the path cache that trigger an eviction before inserting.
    max_cache_entries: usize,
    /// Counter that seeds the eviction sampling.
    eviction_counter: u64,
    /// The proxies of the configuration the table was built from.
    configured: Ghost<Seq<ProxyView>>,
}

impl RouterCache {
    /// The proxies of the configuration currently routed.
    pub closed spec fn routes(&self) -> Seq<ProxyView> {
        self.configured@
    }

    /// The path cache: cache key -> cached answer.
    pub closed spec fn cached(&self) -> Map<Seq<char>, Option<ProxyView>> {
        path_cache_entries(self.path_cache)
    }

    /// The cache size at which lookups evict before inserting.
    pub closed spec fn capacity(&self) -> nat {
        self.max_cache_entries as nat
    }

    /// The counter that seeds the next eviction's sampling.
    pub closed spec fn eviction_seed(&self) -> u64 {
        self.eviction_counter
    }

    /// The route table holds exactly the routes of [`Self::routes`] and the cache is finite.
    pub closed spec fn well_formed(&self) -> bool {
        &&& table_models(current_route_table(self.route_table), self.configured@)
        &&& self.cached().dom().finite()
        &&& self.cached().len() <= self.capacity()
    }

    /// Build a new router cache for `config`, with an empty path cache.
    pub fn new(config: &GatewayConfig, max_cache_entries: usize) -> (c: Self)
        ensures
            c.well_formed(),
            c.routes() == proxy_views(config.proxies@),
            c.cached() == empty_cache(),
            c.capacity() == max_cache_entries,
            c.eviction_seed() == 0,
            cache_coherent(c.routes(), c.cached()),
    {
        let table = build_route_table(config);
        let c = RouterCache {
            route_table: route_table_cell_new(table),
            path_cache: path_cache_with_capacity(max_cache_entries),
            max_cache_entries,
            eviction_counter: 0,
            configured: Ghost(proxy_views(config.proxies@)),
        };
        assert(c.cached().dom() =~= Set::empty());
        c
    }

    /// Rebuild the route table from a new configuration and clear the path cache.
    pub fn rebuild(&mut self, config: &GatewayConfig)
        requires
            old(self).well_formed(),
        ensures
            final(self).well_formed(),
            final(self).routes() == proxy_views(config.proxies@),
            final(self).cached() == empty_cache(),
            final(self).capacity() == old(self).capacity(),
            final(self).eviction_seed() == old(self).eviction_seed(),
            cache_coherent(final(self).routes(), final(self).cached()),
    {
        let table = build_route_table(config);
        route_table_cell_store(&mut self.route_table, table);
        path_cache_clear(&mut self.path_cache);
        self.configured = Ghost(proxy_views(config.proxies@));
        assert(self.cached().dom() =~= Set::empty());
    }

    /// Find the proxy for a request host and path: exact host, then wildcard
    /// host, then catch-all, each by longest listen path. Answers, including
    /// misses, are cached; a full cache first evicts a sample of its entries,
    /// at least one, so that it never holds more than its capacity (a cache of
    /// capacity zero keeps nothing).
    pub fn find_proxy(&mut self, host: Option<&str>, path: &str) -> (r: Option<Arc<Proxy>>)
        requires
            old(self).well_formed(),
        ensures
            final(self).well_formed(),
            final(self).routes() == old(self).routes(),
            final(self).capacity() == old(self).capacity(),
            final(self).cached().len() <= final(self).capacity(),
            ({
                let k = spec_cache_key(host_view(host), path@);
                if old(self).cached().contains_key(k) {
                    &&& shared_view(r) == old(self).cached()[k]
                    &&& final(self).cached() == old(self).cached()
                    &&& final(self).eviction_seed() == old(self).eviction_seed()
                } else {
                    &&& shared_view(r) == spec_route(old(self).routes(), host_view(host), path@)
                    &&& if old(self).capacity() == 0 {
                        &&& final(self).cached() == old(self).cached()
                        &&& final(self).eviction_seed() == old(self).eviction_seed()
                    } else {
                        &&& final(self).cached().contains_key(k)
                        &&& final(self).cached()[k] == shared_view(r)
                        &&& forall|k2: Seq<char>|
                            #[trigger] final(self).cached().contains_key(k2) && k2 != k ==> old(self).cached().contains_key(
                                k2,
                            ) && final(self).cached()[k2] == old(self).cached()[k2]
                        &&& if old(self).cached().len() < old(self).capacity() {
                            &&& final(self).eviction_seed() == old(self).eviction_seed()
                            &&& forall|k2: Seq<char>|
                                #[trigger] old(self).cached().contains_key(k2) ==> final(self).cached().contains_key(k2)
                        } else {
                            &&& final(self).eviction_seed() == vstd::wrapping::u64_specs::wrapping_add(
                                old(self).eviction_seed(),
                                1,
                            )
                            &&& final(self).cached().remove(k).len() + evictions_when_full(
                                old(self).eviction_seed(),
                                old(self).capacity(),
                            ) == old(self).cached().len()
                        }
                    }
                }
            }),
            cache_coherent(old(self).routes(), old(self).cached()) && valid_request_host(host_view(host))
                ==> cache_coherent(final(self).routes(), final(self).cached()) && shared_view(r) == spec_route(
                old(self).routes(),
                host_view(host),
                path@,
            ),
    {
        let key = make_cache_key(host, path);
        proof {
            if valid_request_host(host_view(host)) {
                lemma_cache_key_roundtrip(host_view(host), path@);
            }
        }
        // Fast path: the cache, negative entries included
        if let Some(entry) = path_cache_get(&self.path_cache, &key) {
            return entry;
        }
        // Slow path: search the route table in priority order
        let table = route_table_cell_load(&self.route_table);
        let result = search_route_table(&table, host, path, Ghost(self.configured@));
        if self.max_cache_entries == 0 {
            // A cache without room keeps nothing.
            return result;
        }
        let ghost before = self.cached();
        if path_cache_len(&self.path_cache) >= self.max_cache_entries {
            self.evict_sample();
            if path_cache_len(&self.path_cache) >= self.max_cache_entries {
                // The sample hit nothing: make room for the new entry.
                self.evict_one();
            }
        }
        let ghost evicted = self.cached();
        let cached_value = match &result {
            Some(p) => Some(Arc::clone(p)),
            None => None,
        };
        path_cache_insert(&mut self.path_cache, key, cached_value);
        proof {
            let k = spec_cache_key(host_view(host), path@);
            assert(self.cached() == evicted.insert(k, shared_view(result)));
            assert(self.cached().remove(k) =~= evicted.remove(k));
            assert(!evicted.contains_key(k));
            assert(evicted.remove(k) =~= evicted);
            assert(self.cached().dom() =~= evicted.dom().insert(k));
        }
        result
    }

    /// Evict one entry, the first in the cache's iteration order.
    fn evict_one(&mut self)
        requires
            old(self).well_formed(),
            old(self).cached().len() > 0,
        ensures
            final(self).well_formed(),
            final(self).routes() == old(self).routes(),
            final(self).capacity() == old(self).capacity(),
            final(self).eviction_seed() == old(self).eviction_seed(),
            forall|k: Seq<char>|
                #[trigger] final(self).cached().contains_key(k) ==> old(self).cached().contains_key(k)
                    && final(self).cached()[k] == old(self).cached()[k],
            final(self).cached().len() + 1 == old(self).cached().len(),
    {
        let ghost start = self.cached();
        let keys = path_cache_keys(&self.path_cache);
        proof {
            lemma_keys_count(keys@, start);
        }
        let ghost v = keys@[0]@;
        assert(start.contains_key(v));
        path_cache_remove(&mut self.path_cache, &keys[0]);
        proof {
            assert(start.remove(v).dom() == start.dom().remove(v));
        }
    }

    /// Evict about a quarter of the cache capacity, choosing entries by a
    /// counter-seeded sampling over the cache's iteration order.
    fn evict_sample(&mut self)
        requires
            old(self).well_formed(),
        ensures
            final(self).well_formed(),
            final(self).routes() == old(self).routes(),
            final(self).capacity() == old(self).capacity(),
            final(self).eviction_seed() == vstd::wrapping::u64_specs::wrapping_add(old(self).eviction_seed(), 1),
            forall|k: Seq<char>|
                #[trigger] final(self).cached().contains_key(k) ==> old(self).cached().contains_key(k)
                    && final(self).cached()[k] == old(self).cached()[k],
            final(self).cached().len() + eviction_count(old(self).eviction_seed(), old(self).capacity(), old(self).cached().len())
                == old(self).cached().len(),
    {
        let target = self.max_cache_entries / 4;
        let seed = self.eviction_counter;
        self.eviction_counter = self.eviction_counter.wrapping_add(1);
        let keys = path_cache_keys(&self.path_cache);
        let victims = eviction_victims(&keys, seed, target);
        let ghost start = self.cached();
        proof {
            let kv = string_views(keys@);
            lemma_eviction_budget(kv, seed, target as int);
            assert(kv.no_duplicates()) by {
                assert forall|i: int, j: int| 0 <= i < kv.len() && 0 <= j < kv.len() && i != j implies kv[i] != kv[j] by {
                    if i < j {
                        assert(keys@[i]@ != keys@[j]@);
                    } else {
                        assert(keys@[j]@ != keys@[i]@);
                    }
                }
            }
            lemma_eviction_distinct(kv, seed, target as int);
            kv.unique_seq_to_set();
            assert(kv.to_set() =~= start.dom()) by {
                assert forall|k: Seq<char>| kv.to_set().contains(k) implies start.dom().contains(k) by {
                    let i = choose|i: int| 0 <= i < kv.len() && kv[i] == k;
                    assert(keys@[i]@ == k);
                }
                assert forall|k: Seq<char>| start.dom().contains(k) implies kv.to_set().contains(k) by {
                    assert(start.contains_key(k));
                    let i = choose|i: int| 0 <= i < keys@.len() && keys@[i]@ == k;
                    assert(kv[i] == k);
                }
            }
            assert(kv.len() == start.len());
        }
        let mut i: usize = 0;
        while i < victims.len()
            invariant
                self.well_formed(),
                self.routes() == old(self).routes(),
                self.capacity() == old(self).capacity(),
                self.eviction_seed() == vstd::wrapping::u64_specs::wrapping_add(old(self).eviction_seed(), 1),
                start == old(self).cached(),
                seed == old(self).eviction_seed(),
                target == old(self).capacity() / 4,
                string_views(victims@) == eviction_choice(string_views(keys@), seed, target as int),
                string_views(victims@).no_duplicates(),
                victims.len() == eviction_count(seed, old(self).capacity(), start.len()),
                forall|j: int| 0 <= j < victims.len() ==> start.contains_key(#[trigger] string_views(victims@)[j]),
                i <= victims.len(),
                self.cached().len() + i == start.len(),
                forall|j: int| i <= j < victims.len() ==> self.cached().contains_key(#[trigger] string_views(victims@)[j]),
                forall|k: Seq<char>|
                    #[trigger] self.cached().contains_key(k) ==> start.contains_key(k) && self.cached()[k] == start[k],
            decreases victims.len() - i,
        {
            let ghost cur = self.cached();
            let ghost v = string_views(victims@)[i as int];
            assert(victims@[i as int]@ == v);
            assert(cur.contains_key(v));
            path_cache_remove(&mut self.path_cache, &victims[i]);
            proof {
                assert(cur.remove(v).dom() == cur.dom().remove(v));
                assert forall|j: int| i + 1 <= j < victims.len() implies self.cached().contains_key(#[trigger] string_views(victims@)[j]) by {
                    assert(string_views(victims@)[j] != v);
                    assert(cur.contains_key(string_views(victims@)[j]));
                }
            }
            i += 1;
        }
    }

    /// Number of routes in the route table: one per host of each routed proxy,
    /// one for each routed proxy without hosts (see [`route_registrations`]).
    pub fn route_count(&self) -> (n: usize)
        requires
            self.well_formed(),
            route_registrations(self.routes()) <= usize::MAX,
        ensures
            n == route_registrations(self.routes()),
    {
        let table = route_table_cell_load(&self.route_table);
        let exact_count = count_group_routes(&table.exact_hosts);
        let wildcard_count = count_group_routes(&table.wildcard_hosts);
        exact_count + wildcard_count + table.catch_all.len()
    }

    /// Number of entries currently in the path cache.
    pub fn cache_len(&self) -> (n: usize)
        ensures
            n == self.cached().len(),
    {
        path_cache_len(&self.path_cache)
    }

    /// Rebuild the route table from `config`, keeping the cached lookups whose
    /// path starts with none of the changed listen paths in
    /// `affected_listen_paths`.
    pub fn apply_delta(&mut self, config: &GatewayConfig, affected_listen_paths: &[String])
        requires
            old(self).well_formed(),
        ensures
            final(self).well_formed(),
            final(self).routes() == proxy_views(config.proxies@),
            final(self).capacity() == old(self).capacity(),
            final(self).eviction_seed() == old(self).eviction_seed(),
            final(self).cached() == kept_after_delta(old(self).cached(), string_views(affected_listen_paths@)),
            cache_coherent(old(self).routes(), old(self).cached()) && delta_covers(
                old(self).routes(),
                final(self).routes(),
                string_views(affected_listen_paths@),
            ) ==> cache_coherent(final(self).routes(), final(self).cached()),
    {
        proof {
            if cache_coherent(old(self).routes(), old(self).cached()) && delta_covers(
                old(self).routes(),
                proxy_views(config.proxies@),
                string_views(affected_listen_paths@),
            ) {
                lemma_delta_keeps_cache_coherent(
                    old(self).routes(),
                    proxy_views(config.proxies@),
                    old(self).cached(),
                    string_views(affected_listen_paths@),
                );
            }
        }
        let table = build_route_table(config);
        route_table_cell_store(&mut self.route_table, table);
        self.configured = Ghost(proxy_views(config.proxies@));
        if affected_listen_paths.len() == 0 {
            proof {
                let all = Set::new(|k: Seq<char>| key_unaffected(k, string_views(affected_listen_paths@)));
                assert(self.cached().restrict(all) =~= self.cached());
            }
            return;
        }
        let ghost before = self.cached();
        path_cache_retain_unaffected(&mut self.path_cache, affected_listen_paths);
        proof {
            let keep = Set::new(|k: Seq<char>| key_unaffected(k, string_views(affected_listen_paths@)));
            assert(self.cached().dom() =~= before.dom().intersect(keep));
            vstd::set_lib::lemma_len_intersect(before.dom(), keep);
        }
    }
}

} // verus!
