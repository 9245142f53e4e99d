//! Configuration files: format detection, the version a file declares, and
//! the listen path uniqueness check.
use vstd::prelude::*;

use crate::config::migrations::v002_add_upstream_id::{lowercase_of, to_lowercase};
use crate::config::types::{GatewayConfig, ProxyView, proxy_views};
use crate::json::{spec_member, JsonValue};
use crate::router_cache::routable;
use crate::text::{chars_equal, chars_of};

verus! {

/// The file name extension of a path, if it has one.
pub uninterp spec fn extension_of(path: Seq<char>) -> Option<Seq<char>>;

/// `Path::extension`: the extension of the path's file name, if any.
#[verifier::external_body]
fn file_extension(path: &str) -> (ext: Option<String>)
    ensures
        match ext {
            Some(e) => extension_of(path@) == Some(e@),
            None => extension_of(path@) is None,
        },
{
    std::path::Path::new(path).extension().and_then(|e| e.to_str()).map(|e| e.to_string())
}

/// The format a configuration file is read in.
#[derive(Debug, Clone, Copy, PartialEq, Eq, Structural)]
pub enum ConfigFormat {
    Yaml,
    Json,
    /// Unknown extension: try YAML first, then JSON.
    Unknown,
}

/// The format for a lowercased extension: `yaml` and `yml` are YAML, `json` is JSON.
pub open spec fn spec_format_for_extension(ext: Seq<char>) -> ConfigFormat {
    if ext == "yaml"@ || ext == "yml"@ {
        ConfigFormat::Yaml
    } else if ext == "json"@ {
        ConfigFormat::Json
    } else {
        ConfigFormat::Unknown
    }
}

/// The format of a configuration file, from its extension in lower case
/// (no extension counts as the empty one).
pub open spec fn spec_config_format(path: Seq<char>) -> ConfigFormat {
    spec_format_for_extension(
        lowercase_of(
            match extension_of(path) {
                Some(e) => e,
                None => ""@,
            },
        ),
    )
}

/// The format of a configuration file (see [`spec_config_format`]).
pub fn config_format_for_path(path: &str) -> (f: ConfigFormat)
    ensures
        f == spec_config_format(path@),
{
    let ext = match file_extension(path) {
        Some(e) => e,
        None => String::new(),
    };
    proof {
        reveal_strlit("");
        assert(""@ =~= Seq::<char>::empty());
    }
    let lower = to_lowercase(ext.as_str());
    let lc = chars_of(lower.as_str());
    if chars_equal(&lc, &chars_of("yaml")) || chars_equal(&lc, &chars_of("yml")) {
        ConfigFormat::Yaml
    } else if chars_equal(&lc, &chars_of("json")) {
        ConfigFormat::Json
    } else {
        ConfigFormat::Unknown
    }
}

/// `serde_json::Value`, declared so that a parsed document can be converted.
#[verifier::external_type_specification]
#[verifier::external_body]
pub struct ExSerdeJsonValue(serde_json::Value);

/// The library's form of a `serde_json::Value`: the same tree, numbers kept as
/// their `Display` text.
#[verifier::external_body]
fn json_value_from_serde(v: &serde_json::Value) -> JsonValue {
    match v {
        serde_json::Value::Null => JsonValue::Null,
        serde_json::Value::Bool(b) => JsonValue::Bool(*b),
        serde_json::Value::Number(n) => JsonValue::Number(n.to_string()),
        serde_json::Value::String(t) => JsonValue::String(t.clone()),
        serde_json::Value::Array(items) => JsonValue::Array(items.iter().map(json_value_from_serde).collect()),
        serde_json::Value::Object(m) => JsonValue::Object(m.iter().map(|(k, x)| (k.clone(), json_value_from_serde(x))).collect()),
    }
}

/// What `serde_yaml` makes of a text read as a YAML document (a
/// `serde_yaml::Value`, converted with `serde_json::to_value`): the document,
/// or the error's message.
pub uninterp spec fn yaml_document_of(content: Seq<char>) -> Result<JsonValue, Seq<char>>;

/// What `serde_json` makes of a text read as a JSON document: the document, or
/// the parse error's message.
pub uninterp spec fn json_document_of(content: Seq<char>) -> Result<JsonValue, Seq<char>>;

/// A parse result by its plain values.
pub open spec fn document_view(r: Result<JsonValue, String>) -> Result<JsonValue, Seq<char>> {
    match r {
        Ok(v) => Ok(v),
        Err(e) => Err(e@),
    }
}

/// `serde_yaml::from_str::<serde_yaml::Value>`, then `serde_json::to_value`:
/// the YAML document `content` as a JSON value, or the message of the parse
/// or conversion error.
#[verifier::external_body]
fn parse_yaml_document(content: &str) -> (r: Result<JsonValue, String>)
    ensures
        document_view(r) == yaml_document_of(content@),
{
    match serde_yaml::from_str::<serde_yaml::Value>(content) {
        Ok(y) => match serde_json::to_value(y) {
            Ok(v) => Ok(json_value_from_serde(&v)),
            Err(e) => Err(e.to_string()),
        },
        Err(e) => Err(e.to_string()),
    }
}

/// `serde_json::from_str::<serde_json::Value>`: the JSON document `content`,
/// or the parse error's message.
#[verifier::external_body]
fn parse_json_document(content: &str) -> (r: Result<JsonValue, String>)
    ensures
        document_view(r) == json_document_of(content@),
{
    match serde_json::from_str::<serde_json::Value>(content) {
        Ok(v) => Ok(json_value_from_serde(&v)),
        Err(e) => Err(e.to_string()),
    }
}

/// The document a configuration file holds: read as YAML or as JSON by its
/// extension, and with an unknown extension as YAML first, then as JSON
/// (the JSON error is reported when both fail).
pub open spec fn spec_config_document(path: Seq<char>, content: Seq<char>) -> Result<JsonValue, Seq<char>> {
    match spec_config_format(path) {
        ConfigFormat::Yaml => yaml_document_of(content),
        ConfigFormat::Json => json_document_of(content),
        ConfigFormat::Unknown => match yaml_document_of(content) {
            Ok(v) => Ok(v),
            Err(_) => json_document_of(content),
        },
    }
}

/// Parse the content of the configuration file at `path` (see [`spec_config_document`]).
pub fn parse_config_document(path: &str, content: &str) -> (r: Result<JsonValue, String>)
    ensures
        document_view(r) == spec_config_document(path@, content@),
{
    match config_format_for_path(path) {
        ConfigFormat::Yaml => parse_yaml_document(content),
        ConfigFormat::Json => parse_json_document(content),
        ConfigFormat::Unknown => match parse_yaml_document(content) {
            Ok(v) => Ok(v),
            Err(_) => parse_json_document(content),
        },
    }
}

/// The version a configuration document declares: its `version` member when
/// that is a string, `1` otherwise.
pub open spec fn spec_config_file_version(doc: JsonValue) -> Seq<char> {
    match spec_member(doc, "version"@) {
        Some(JsonValue::String(v)) => v@,
        _ => "1"@,
    }
}

/// The version a configuration document declares (see [`spec_config_file_version`]).
pub fn config_file_version(doc: &JsonValue) -> (v: String)
    ensures
        v@ == spec_config_file_version(*doc),
{
    match doc.member("version") {
        Some(JsonValue::String(v)) => v.clone(),
        _ => String::from_str("1"),
    }
}

/// Two routed proxies claim the same requests: the same listen path, and
/// either both without hosts or sharing a host.
pub open spec fn listen_paths_clash(a: ProxyView, b: ProxyView) -> bool {
    &&& routable(a)
    &&& routable(b)
    &&& a.listen_path == b.listen_path
    &&& (a.hosts.len() == 0 && b.hosts.len() == 0) || exists|k: int|
        0 <= k < a.hosts.len() && b.hosts.contains(#[trigger] a.hosts[k])
}

/// Proxy `j` clashes with an earlier proxy.
pub open spec fn clashes_with_earlier(ps: Seq<ProxyView>, j: int) -> bool {
    exists|i: int| 0 <= i < j && #[trigger] listen_paths_clash(ps[i], ps[j])
}

/// The message reported for a proxy whose listen path is already taken.
pub open spec fn duplicate_message(p: ProxyView) -> Seq<char> {
    "duplicate listen_path '"@ + p.listen_path + "' on proxy '"@ + p.id + "'"@
}

/// The messages for the proxies (in configuration order) that clash with an earlier one.
pub open spec fn duplicate_messages(ps: Seq<ProxyView>, n: int) -> Seq<Seq<char>>
    decreases n,
{
    if n <= 0 {
        seq![]
    } else {
        let prev = duplicate_messages(ps, n - 1);
        if clashes_with_earlier(ps, n - 1) {
            prev.push(duplicate_message(ps[n - 1]))
        } else {
            prev
        }
    }
}

/// Whether two host lists share a host.
fn share_host(a: &Vec<String>, b: &Vec<String>) -> (r: bool)
    ensures
        r == exists|k: int| 0 <= k < a.deep_view().len() && b.deep_view().contains(#[trigger] a.deep_view()[k]),
{
    let ghost av = a.deep_view();
    let ghost bv = b.deep_view();
    let mut k: usize = 0;
    while k < a.len()
        invariant
            av == a.deep_view(),
            bv == b.deep_view(),
            k <= a.len(),
            forall|q: int| 0 <= q < k ==> !bv.contains(#[trigger] av[q]),
        decreases a.len() - k,
    {
        let mut m: usize = 0;
        while m < b.len()
            invariant
                av == a.deep_view(),
                bv == b.deep_view(),
                k < a.len(),
                m <= b.len(),
                forall|q: int| 0 <= q < m ==> #[trigger] bv[q] != av[k as int],
            decreases b.len() - m,
        {
            if a[k] == b[m] {
                assert(bv[m as int] == av[k as int]);
                return true;
            }
            m += 1;
        }
        k += 1;
    }
    false
}

impl GatewayConfig {
    /// Check that no routed proxy claims the requests of an earlier one: `Ok`
    /// when none does, otherwise one message per clashing proxy.
    pub fn validate_unique_listen_paths(&self) -> (r: Result<(), Vec<String>>)
        ensures
            match r {
                Ok(()) => duplicate_messages(proxy_views(self.proxies@), self.proxies@.len() as int).len() == 0,
                Err(msgs) => msgs@.len() > 0 && msgs@.map_values(|s: String| s@) == duplicate_messages(
                    proxy_views(self.proxies@),
                    self.proxies@.len() as int,
                ),
            },
            r is Ok <==> forall|i: int, j: int|
                0 <= i < j < self.proxies@.len() ==> !listen_paths_clash(
                    #[trigger] proxy_views(self.proxies@)[i],
                    #[trigger] proxy_views(self.proxies@)[j],
                ),
            forall|i: int, j: int|
                0 <= i < j < self.proxies@.len() && listen_paths_clash(
                    #[trigger] proxy_views(self.proxies@)[i],
                    #[trigger] proxy_views(self.proxies@)[j],
                ) ==> (r matches Err(msgs) && msgs@.map_values(|s: String| s@).contains(
                    duplicate_message(proxy_views(self.proxies@)[j]),
                )),
    {
        let ghost ps = proxy_views(self.proxies@);
        let mut msgs: Vec<String> = Vec::new();
        let mut j: usize = 0;
        while j < self.proxies.len()
            invariant
                ps == proxy_views(self.proxies@),
                j <= self.proxies.len(),
                msgs@.map_values(|s: String| s@) == duplicate_messages(ps, j as int),
            decreases self.proxies.len() - j,
        {
            let b = &self.proxies[j];
            let mut clash = false;
            let mut i: usize = 0;
            while i < j
                invariant
                    ps == proxy_views(self.proxies@),
                    j < self.proxies.len(),
                    b == &self.proxies[j as int],
                    i <= j,
                    clash == exists|q: int| 0 <= q < i && #[trigger] listen_paths_clash(ps[q], ps[j as int]),
                decreases j - i,
            {
                let a = &self.proxies[i];
                let both_routed = !a.backend_protocol.is_stream_proxy() && !b.backend_protocol.is_stream_proxy();
                let same_path = a.listen_path == b.listen_path;
                let hosts_overlap = (a.hosts.len() == 0 && b.hosts.len() == 0) || share_host(&a.hosts, &b.hosts);
                proof {
                    assert(ps[i as int] == a@);
                    assert(ps[j as int] == b@);
                }
                if both_routed && same_path && hosts_overlap {
                    assert(listen_paths_clash(ps[i as int], ps[j as int]));
                    clash = true;
                }
                i += 1;
            }
            let ghost before = msgs@;
            assert(ps[j as int] == b@);
            if clash {
                let mut m = String::from_str("duplicate listen_path '");
                m.append(b.listen_path.as_str());
                m.append("' on proxy '");
                m.append(b.id.as_str());
                m.append("'");
                assert(m@ == duplicate_message(ps[j as int]));
                msgs.push(m);
                assert(msgs@.map_values(|s: String| s@) =~= before.map_values(|s: String| s@).push(duplicate_message(ps[j as int])));
            }
            j += 1;
        }
        proof {
            let n = self.proxies@.len() as int;
            assert forall|i: int, j: int|
                0 <= i < j < n && listen_paths_clash(#[trigger] ps[i], #[trigger] ps[j]) implies duplicate_messages(
                ps,
                n,
            ).contains(duplicate_message(ps[j])) by {
                lemma_every_clash_reported(ps, n, i, j);
            }
            if msgs@.len() == 0 {
                lemma_no_messages_no_clash(ps, n);
            } else {
                assert(msgs@.map_values(|s: String| s@)[0] == duplicate_messages(ps, n)[0]);
                lemma_message_names_a_clash(ps, n, 0);
            }
        }
        if msgs.len() == 0 {
            Ok(())
        } else {
            Err(msgs)
        }
    }
}

/// The decimal digit character of a value below ten.
pub open spec fn digit_char(d: nat) -> char {
    (d + 48) as char
}

/// A number written in decimal, without leading zeros.
pub open spec fn decimal_text(n: nat) -> Seq<char>
    decreases n,
{
    if n < 10 {
        seq![digit_char(n)]
    } else {
        decimal_text(n / 10) + seq![digit_char(n % 10)]
    }
}

fn digit_str(d: u64) -> (s: &'static str)
    requires
        d < 10,
    ensures
        s@ == seq![digit_char(d as nat)],
{
    proof {
        reveal_strlit("0");
        reveal_strlit("1");
        reveal_strlit("2");
        reveal_strlit("3");
        reveal_strlit("4");
        reveal_strlit("5");
        reveal_strlit("6");
        reveal_strlit("7");
        reveal_strlit("8");
        reveal_strlit("9");
    }
    let s = if d == 0 {
        "0"
    } else if d == 1 {
        "1"
    } else if d == 2 {
        "2"
    } else if d == 3 {
        "3"
    } else if d == 4 {
        "4"
    } else if d == 5 {
        "5"
    } else if d == 6 {
        "6"
    } else if d == 7 {
        "7"
    } else if d == 8 {
        "8"
    } else {
        "9"
    };
    assert(s@ =~= seq![digit_char(d as nat)]);
    s
}

/// `n` written in decimal (see [`decimal_text`]).
fn decimal_string(n: u64) -> (s: String)
    ensures
        s@ == decimal_text(n as nat),
    decreases n,
{
    if n < 10 {
        String::from_str(digit_str(n))
    } else {
        let mut s = decimal_string(n / 10);
        s.append(digit_str(n % 10));
        s
    }
}

/// The error a configuration with `count` duplicate listen paths is refused with.
pub open spec fn spec_validation_failure_message(count: nat) -> Seq<char> {
    "Configuration validation failed: "@ + decimal_text(count) + " duplicate listen_path(s) found"@
}

/// The error a configuration with `count` duplicate listen paths is refused
/// with (see [`spec_validation_failure_message`]).
pub fn validation_failure_message(count: usize) -> (m: String)
    ensures
        m@ == spec_validation_failure_message(count as nat),
{
    let mut m = String::from_str("Configuration validation failed: ");
    let digits = decimal_string(count as u64);
    m.append(digits.as_str());
    m.append(" duplicate listen_path(s) found");
    m
}

/// A file whose extension is neither YAML's nor JSON's is read as YAML when
/// it parses as YAML, and otherwise as JSON; `.yaml`/`.yml` files only as
/// YAML, `.json` files only as JSON.
pub proof fn lemma_config_document_fallback(path: Seq<char>, content: Seq<char>)
    ensures
        spec_config_format(path) == ConfigFormat::Unknown ==> match yaml_document_of(content) {
            Ok(v) => spec_config_document(path, content) == Ok::<JsonValue, Seq<char>>(v),
            Err(_) => spec_config_document(path, content) == json_document_of(content),
        },
        spec_config_format(path) == ConfigFormat::Yaml ==> spec_config_document(path, content) == yaml_document_of(
            content,
        ),
        spec_config_format(path) == ConfigFormat::Json ==> spec_config_document(path, content) == json_document_of(
            content,
        ),
{
}

/// Every duplicate is reported, however far apart the two proxies stand: for
/// any two routed proxies `i < j < n` that clash, the messages for the first
/// `n` proxies name proxy `j`.
pub proof fn lemma_every_clash_reported(ps: Seq<ProxyView>, n: int, i: int, j: int)
    requires
        0 <= i < j < n <= ps.len(),
        listen_paths_clash(ps[i], ps[j]),
    ensures
        duplicate_messages(ps, n).contains(duplicate_message(ps[j])),
    decreases n,
{
    let prev = duplicate_messages(ps, n - 1);
    if j < n - 1 {
        lemma_every_clash_reported(ps, n - 1, i, j);
        let k = choose|k: int| 0 <= k < prev.len() && prev[k] == duplicate_message(ps[j]);
        if clashes_with_earlier(ps, n - 1) {
            assert(prev.push(duplicate_message(ps[n - 1]))[k] == duplicate_message(ps[j]));
        }
    } else {
        assert(clashes_with_earlier(ps, j));
        let m = prev.push(duplicate_message(ps[j]));
        assert(m[prev.len() as int] == duplicate_message(ps[j]));
    }
}

/// No message is reported only when no two routed proxies, at any distance,
/// clash.
pub proof fn lemma_no_messages_no_clash(ps: Seq<ProxyView>, n: int)
    requires
        0 <= n <= ps.len(),
        duplicate_messages(ps, n).len() == 0,
    ensures
        forall|i: int, j: int| 0 <= i < j < n ==> !listen_paths_clash(#[trigger] ps[i], #[trigger] ps[j]),
{
    assert forall|i: int, j: int| 0 <= i < j < n implies !listen_paths_clash(#[trigger] ps[i], #[trigger] ps[j]) by {
        if listen_paths_clash(ps[i], ps[j]) {
            lemma_every_clash_reported(ps, n, i, j);
        }
    }
}

/// Each message stands for a proxy that clashes with an earlier one.
proof fn lemma_message_names_a_clash(ps: Seq<ProxyView>, n: int, k: int)
    requires
        0 <= n <= ps.len(),
        0 <= k < duplicate_messages(ps, n).len(),
    ensures
        exists|i: int, j: int| 0 <= i < j < n && #[trigger] listen_paths_clash(ps[i], ps[j]),
    decreases n,
{
    if n > 0 {
        let prev = duplicate_messages(ps, n - 1);
        if clashes_with_earlier(ps, n - 1) {
            let i = choose|i: int| 0 <= i < n - 1 && #[trigger] listen_paths_clash(ps[i], ps[n - 1]);
            assert(listen_paths_clash(ps[i], ps[n - 1]));
        } else {
            lemma_message_names_a_clash(ps, n - 1, k);
        }
    }
}

} // verus!
