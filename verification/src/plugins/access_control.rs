//! The `access_control` plugin: IP and consumer allow/deny lists.
use vstd::prelude::*;

use crate::json::{spec_string_list, JsonValue};
use crate::plugins::{verdict, PluginResult, RequestContext};
use crate::ipv4::{cidr_contains, parse_ipv4, spec_cidr_contains, spec_ipv4};
use crate::text::{chars_equal, chars_of};

verus! {

/// Allow and deny lists for consumers and client IPs.
pub struct AccessControl {
    allowed_consumers: Vec<String>,
    disallowed_consumers: Vec<String>,
    allowed_ips: Vec<String>,
    blocked_ips: Vec<String>,
}

/// The lists of an [`AccessControl`] plugin, by their characters.
pub struct AccessControlView {
    pub allowed_consumers: Seq<Seq<char>>,
    pub disallowed_consumers: Seq<Seq<char>>,
    pub allowed_ips: Seq<Seq<char>>,
    pub blocked_ips: Seq<Seq<char>>,
}

impl View for AccessControl {
    type V = AccessControlView;

    closed spec fn view(&self) -> AccessControlView {
        AccessControlView {
            allowed_consumers: self.allowed_consumers@.map_values(|s: String| s@),
            disallowed_consumers: self.disallowed_consumers@.map_values(|s: String| s@),
            allowed_ips: self.allowed_ips@.map_values(|s: String| s@),
            blocked_ips: self.blocked_ips@.map_values(|s: String| s@),
        }
    }
}

/// A client IP matches a rule when it equals it, or when it is a dotted-quad
/// IPv4 address inside the rule's CIDR block `a.b.c.d/n` (`0 <= n <= 32`):
/// its first `n` bits are those of the block's address.
pub open spec fn spec_ip_matches(client_ip: Seq<char>, rule: Seq<char>) -> bool {
    client_ip == rule || match spec_ipv4(client_ip) {
        Some(addr) => spec_cidr_contains(rule, addr),
        None => false,
    }
}

/// Some rule of the list matches the IP.
pub open spec fn any_rule_matches(client_ip: Seq<char>, rules: Seq<Seq<char>>) -> bool {
    exists|i: int| 0 <= i < rules.len() && spec_ip_matches(client_ip, #[trigger] rules[i])
}

/// The body of a rejection for a blocked IP.
pub open spec fn blocked_ip_body() -> Seq<char> {
    "{\"error\":\"IP address is blocked\"}"@
}

/// The body of a rejection for an IP outside the allow list.
pub open spec fn ip_not_allowed_body() -> Seq<char> {
    "{\"error\":\"IP address not allowed\"}"@
}

/// The body of a rejection for a request without a consumer.
pub open spec fn no_consumer_body() -> Seq<char> {
    "{\"error\":\"No consumer identified\"}"@
}

/// The body of a rejection for a consumer that may not pass.
pub open spec fn consumer_not_allowed_body() -> Seq<char> {
    "{\"error\":\"Consumer is not allowed\"}"@
}

/// The decision: a blocked IP is refused (403); with an IP allow list, an IP
/// outside it is refused (403); a request without a consumer is refused
/// (401); a disallowed consumer, or one outside a non-empty allow list, is
/// refused (403); anything else continues.
pub open spec fn spec_authorize(ac: AccessControlView, client_ip: Seq<char>, consumer: Option<Seq<char>>) -> Option<(u16, Seq<char>)> {
    if any_rule_matches(client_ip, ac.blocked_ips) {
        Some((403, blocked_ip_body()))
    } else if ac.allowed_ips.len() > 0 && !any_rule_matches(client_ip, ac.allowed_ips) {
        Some((403, ip_not_allowed_body()))
    } else {
        match consumer {
            None => Some((401, no_consumer_body())),
            Some(name) => if ac.disallowed_consumers.contains(name) {
                Some((403, consumer_not_allowed_body()))
            } else if ac.allowed_consumers.len() > 0 && !ac.allowed_consumers.contains(name) {
                Some((403, consumer_not_allowed_body()))
            } else {
                None
            },
        }
    }
}

/// A deny rule wins over every allow rule: a client IP matched by the block
/// list is refused with 403, whatever the allow lists and the consumer.
pub proof fn lemma_blocked_ip_always_refused(ac: AccessControlView, client_ip: Seq<char>, consumer: Option<Seq<char>>)
    requires
        any_rule_matches(client_ip, ac.blocked_ips),
    ensures
        spec_authorize(ac, client_ip, consumer) == Some((403u16, blocked_ip_body())),
{
}

/// A disallowed consumer never passes, even when the allow list names it.
pub proof fn lemma_disallowed_consumer_never_passes(ac: AccessControlView, client_ip: Seq<char>, name: Seq<char>)
    requires
        ac.disallowed_consumers.contains(name),
    ensures
        spec_authorize(ac, client_ip, Some(name)) is Some,
{
}

/// A request passes only with an identified consumer, from an IP that no
/// deny rule matches and that the IP allow list (when there is one) admits.
pub proof fn lemma_pass_requires_consumer_and_admitted_ip(ac: AccessControlView, client_ip: Seq<char>, consumer: Option<Seq<char>>)
    requires
        spec_authorize(ac, client_ip, consumer) is None,
    ensures
        consumer is Some,
        !any_rule_matches(client_ip, ac.blocked_ips),
        ac.allowed_ips.len() > 0 ==> any_rule_matches(client_ip, ac.allowed_ips),
{
}

/// The IP checks pass: no block rule matches, and an allow list, when there
/// is one, has a rule that matches.
pub open spec fn ip_admitted(ac: AccessControlView, client_ip: Seq<char>) -> bool {
    !any_rule_matches(client_ip, ac.blocked_ips) && (ac.allowed_ips.len() == 0 || any_rule_matches(
        client_ip,
        ac.allowed_ips,
    ))
}

/// A non-empty consumer allow list is enforced whatever the deny list holds:
/// from an admitted IP, a consumer that the allow list does not name is
/// refused with 403 "Consumer is not allowed".
pub proof fn lemma_allow_list_enforced(ac: AccessControlView, client_ip: Seq<char>, name: Seq<char>)
    requires
        ip_admitted(ac, client_ip),
        ac.allowed_consumers.len() > 0,
        !ac.allowed_consumers.contains(name),
    ensures
        spec_authorize(ac, client_ip, Some(name)) == Some((403u16, consumer_not_allowed_body())),
{
}

/// A request passes exactly when its IP is admitted, a consumer is
/// identified, the deny list does not name it, and a non-empty allow list does.
pub proof fn lemma_pass_exactly_when(ac: AccessControlView, client_ip: Seq<char>, consumer: Option<Seq<char>>)
    ensures
        (spec_authorize(ac, client_ip, consumer) is None) == (ip_admitted(ac, client_ip) && match consumer {
            Some(name) => !ac.disallowed_consumers.contains(name) && (ac.allowed_consumers.len() == 0
                || ac.allowed_consumers.contains(name)),
            None => false,
        }),
{
}

/// Every refusal for an admitted IP and an identified consumer is the 403
/// "Consumer is not allowed".
pub proof fn lemma_consumer_refusal_kind(ac: AccessControlView, client_ip: Seq<char>, name: Seq<char>)
    requires
        ip_admitted(ac, client_ip),
        spec_authorize(ac, client_ip, Some(name)) is Some,
    ensures
        spec_authorize(ac, client_ip, Some(name)) == Some((403u16, consumer_not_allowed_body())),
{
}

/// The request's consumer name, if a consumer was identified.
pub open spec fn consumer_name(ctx: &RequestContext) -> Option<Seq<char>> {
    match ctx.identified_consumer {
        Some(c) => Some(c.username@),
        None => None,
    }
}

/// Whether a client IP matches a rule (see [`spec_ip_matches`]).
pub fn ip_matches(client_ip: &str, rule: &str) -> (r: bool)
    ensures
        r == spec_ip_matches(client_ip@, rule@),
{
    let ip = chars_of(client_ip);
    let rc = chars_of(rule);
    if chars_equal(&ip, &rc) {
        return true;
    }
    match parse_ipv4(&ip) {
        Some(addr) => cidr_contains(&rc, addr),
        None => false,
    }
}

/// Whether some rule of the list matches the IP.
fn matches_any(client_ip: &str, rules: &Vec<String>) -> (r: bool)
    ensures
        r == any_rule_matches(client_ip@, rules@.map_values(|s: String| s@)),
{
    let ghost rv = rules@.map_values(|s: String| s@);
    let mut i: usize = 0;
    while i < rules.len()
        invariant
            rv == rules@.map_values(|s: String| s@),
            i <= rules.len(),
            forall|j: int| 0 <= j < i ==> !spec_ip_matches(client_ip@, #[trigger] rv[j]),
        decreases rules.len() - i,
    {
        if ip_matches(client_ip, rules[i].as_str()) {
            assert(spec_ip_matches(client_ip@, rv[i as int]));
            return true;
        }
        i += 1;
    }
    false
}

/// Whether the list holds the name.
fn lists_name(names: &Vec<String>, name: &String) -> (r: bool)
    ensures
        r == names@.map_values(|s: String| s@).contains(name@),
{
    let ghost nv = names@.map_values(|s: String| s@);
    let mut i: usize = 0;
    while i < names.len()
        invariant
            nv == names@.map_values(|s: String| s@),
            i <= names.len(),
            forall|j: int| 0 <= j < i ==> #[trigger] nv[j] != name@,
        decreases names.len() - i,
    {
        if names[i] == *name {
            assert(nv[i as int] == name@);
            return true;
        }
        i += 1;
    }
    false
}

impl AccessControl {
    /// Read the plugin's lists from its JSON configuration: the strings under
    /// `allowed_consumers`, `disallowed_consumers`, `allowed_ips` and
    /// `blocked_ips` (a missing or non-array setting is an empty list).
    pub fn new(config: &JsonValue) -> (ac: Self)
        ensures
            ac@.allowed_consumers == spec_string_list(*config, "allowed_consumers"@),
            ac@.disallowed_consumers == spec_string_list(*config, "disallowed_consumers"@),
            ac@.allowed_ips == spec_string_list(*config, "allowed_ips"@),
            ac@.blocked_ips == spec_string_list(*config, "blocked_ips"@),
    {
        AccessControl {
            allowed_consumers: config.string_list("allowed_consumers"),
            disallowed_consumers: config.string_list("disallowed_consumers"),
            allowed_ips: config.string_list("allowed_ips"),
            blocked_ips: config.string_list("blocked_ips"),
        }
    }

    /// The plugin's name.
    pub fn name(&self) -> (n: &'static str)
        ensures
            n@ == "access_control"@,
    {
        "access_control"
    }

    /// Decide on a request (see [`spec_authorize`]).
    pub fn authorize(&self, ctx: &RequestContext) -> (r: PluginResult)
        ensures
            verdict(r) == spec_authorize(self@, ctx.client_ip@, consumer_name(ctx)),
    {
        let client_ip = ctx.client_ip.as_str();
        // An explicitly blocked IP
        if matches_any(client_ip, &self.blocked_ips) {
            return PluginResult::Reject {
                status_code: 403,
                body: String::from_str("{\"error\":\"IP address is blocked\"}"),
            };
        }
        // An allow list that does not hold the IP
        if self.allowed_ips.len() > 0 && !matches_any(client_ip, &self.allowed_ips) {
            return PluginResult::Reject {
                status_code: 403,
                body: String::from_str("{\"error\":\"IP address not allowed\"}"),
            };
        }
        let consumer = match &ctx.identified_consumer {
            Some(c) => c,
            None => {
                return PluginResult::Reject {
                    status_code: 401,
                    body: String::from_str("{\"error\":\"No consumer identified\"}"),
                };
            },
        };
        let username = &consumer.username;
        // Disallowed first
        if lists_name(&self.disallowed_consumers, username) {
            return PluginResult::Reject {
                status_code: 403,
                body: String::from_str("{\"error\":\"Consumer is not allowed\"}"),
            };
        }
        // A non-empty allow list must hold the consumer
        if self.allowed_consumers.len() > 0 && !lists_name(&self.allowed_consumers, username) {
            return PluginResult::Reject {
                status_code: 403,
                body: String::from_str("{\"error\":\"Consumer is not allowed\"}"),
            };
        }
        PluginResult::Continue
    }
}

} // verus!
