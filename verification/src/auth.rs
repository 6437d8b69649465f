//! Who may call what: API keys, management routes, network binds and the hosts that the
//! MCP endpoint answers to.
use crate::net::{is_localhost_host, localhost, non_empty};
use crate::text::{
    ascii_lower, begins_with, chars_of, opt_str, opt_text, same_text, same_text_ignoring_case,
    split, split_on, starts_with_text, substring, texts, trim_text, trimmed,
};
use rmcp::transport::StreamableHttpServerConfig;
use sha2::{Digest, Sha256};
use vstd::prelude::*;
use vstd::utf8::encode_utf8;

verus! {

/// What `Sha256::digest` returns: the SHA-256 digest of the bytes.
pub uninterp spec fn sha256(data: Seq<u8>) -> Seq<u8>;

/// `sha2::Sha256::digest`, whose result depends on the bytes alone and is 32 bytes long.
#[verifier::external_body]
fn sha256_digest(data: &[u8]) -> (r: Vec<u8>)
    ensures
        r@ == sha256(data@),
        r@.len() == 32,
{
    Sha256::digest(data).to_vec()
}

/// The digest by which a key is compared: that of its UTF-8 bytes.
pub open spec fn key_digest(key: Seq<char>) -> Seq<u8> {
    sha256(encode_utf8(key))
}

/// Whether two digests of one length are the same. Every byte is looked at, so the time
/// taken does not tell where they differ.
pub fn digests_match(a: &Vec<u8>, b: &Vec<u8>) -> (r: bool)
    requires
        a@.len() == b@.len(),
    ensures
        r == (a@ == b@),
{
    let mut diff: u8 = 0;
    let mut i: usize = 0;
    while i < a.len()
        invariant
            i <= a@.len(),
            a@.len() == b@.len(),
            diff == 0 <==> (forall|j: int| 0 <= j < i ==> a@[j] == b@[j]),
        decreases a.len() - i,
    {
        let x: u8 = a[i];
        let y: u8 = b[i];
        assert((diff | (x ^ y)) == 0 <==> (diff == 0 && x == y)) by (bit_vector);
        diff = diff | (x ^ y);
        i += 1;
    }
    assert(diff == 0 <==> a@ =~= b@);
    diff == 0
}

/// Constant-time API key comparison.
///
/// Hashes both the supplied candidate and the configured key with SHA-256 and
/// compares the digests without early exit.
pub fn api_key_matches(candidate: &str, configured: &str) -> (r: bool)
    ensures
        r == (key_digest(candidate@) == key_digest(configured@)),
{
    let a: Vec<u8> = sha256_digest(candidate.as_bytes());
    let b: Vec<u8> = sha256_digest(configured.as_bytes());
    digests_match(&a, &b)
}

/// Whether a header value is `Bearer ` followed by a key with the digest of `configured`.
pub open spec fn bearer_matches(value: Seq<char>, configured: Seq<char>) -> bool {
    begins_with(value, "Bearer "@) && key_digest(value.skip(7)) == key_digest(configured)
}

/// Whether a request carries the configured key, in its `Authorization` or its `X-API-Key`
/// header.
pub open spec fn carries_key(
    authorization: Option<Seq<char>>,
    x_api_key: Option<Seq<char>>,
    configured: Seq<char>,
) -> bool {
    ||| authorization matches Some(v) && bearer_matches(v, configured)
    ||| x_api_key matches Some(k) && key_digest(k) == key_digest(configured)
}

/// Returns true if the request carries a valid API key in either the
/// `Authorization: Bearer <key>` or `X-API-Key: <key>` header, compared in
/// constant time against `configured`. A header that is not readable as text counts as
/// absent.
pub fn request_has_valid_api_key(
    authorization: Option<&str>,
    x_api_key: Option<&str>,
    configured: &str,
) -> (r: bool)
    ensures
        r == carries_key(opt_str(authorization), opt_str(x_api_key), configured@),
{
    match authorization {
        Some(value) => {
            if starts_with_text(value, "Bearer ") {
                let c: Vec<char> = chars_of(value);
                proof {
                    reveal_strlit("Bearer ");
                    assert(value@.subrange(7, value@.len() as int) =~= value@.skip(7));
                }
                let key: String = substring(c.as_slice(), 7, c.len());
                if api_key_matches(key.as_str(), configured) {
                    return true;
                }
            }
        },
        None => {},
    }
    match x_api_key {
        Some(key) => api_key_matches(key, configured),
        None => false,
    }
}

/// What becomes of a request at an authentication layer.
#[derive(Debug, Clone, Copy, PartialEq, Eq, Structural)]
pub enum AuthDecision {
    /// The request goes on.
    Pass,
    /// Refused: it lacks a valid key.
    Unauthorized,
    /// Refused: the server needs a key and has none.
    Misconfigured,
}

/// Whether `path` is `/repos/{alias}` followed by `rest`, for an alias of one path segment.
pub open spec fn alias_route(path: Seq<char>, rest: Seq<char>) -> bool {
    exists|alias: Seq<char>|
        alias.len() > 0 && !alias.contains('/') && path == #[trigger] ("/repos/"@ + alias) + rest
}

/// The management routes: `POST /repos`, `DELETE /repos/{alias}`,
/// `POST /repos/{alias}/reindex` and `POST /reload`.
pub open spec fn management_route(method: Seq<char>, path: Seq<char>) -> bool {
    ||| method == "POST"@ && (path == "/repos"@ || path == "/reload"@ || alias_route(
        path,
        "/reindex"@,
    ))
    ||| method == "DELETE"@ && alias_route(path, ""@)
}

#[verifier::loop_isolation(false)]
fn is_alias_route(path: &str, rest: &str) -> (r: bool)
    ensures
        r == alias_route(path@, rest@),
{
    let p: Vec<char> = chars_of(path);
    let head: Vec<char> = chars_of("/repos/");
    let tail: Vec<char> = chars_of(rest);
    let ghost pre = "/repos/"@;
    if p.len() <= head.len() || p.len() - head.len() <= tail.len() {
        proof {
            assert forall|alias: Seq<char>| alias.len() > 0 && !alias.contains('/') implies path@ != #[trigger] (pre
                + alias) + rest@ by {
                assert(((pre + alias) + rest@).len() == pre.len() + alias.len() + rest@.len());
            }
        }
        return false;
    }
    let end: usize = p.len() - tail.len();
    let mut i: usize = 0;
    let ghost middle = path@.subrange(pre.len() as int, end as int);
    proof {
        assert forall|alias: Seq<char>| path@ == #[trigger] (pre + alias) + rest@ implies alias == middle
            && path@.take(pre.len() as int) == pre && path@.skip(end as int) == rest@ by {
            let whole = (pre + alias) + rest@;
            assert(alias.len() == end - pre.len());
            assert(whole.subrange(pre.len() as int, end as int) =~= alias);
            assert(whole.take(pre.len() as int) =~= pre);
            assert(whole.skip(end as int) =~= rest@);
        }
    }
    while i < head.len()
        invariant
            i <= head@.len() < p@.len(),
            p@ == path@,
            head@ == pre,
            forall|j: int| 0 <= j < i ==> p@[j] == pre[j],
        decreases head.len() - i,
    {
        if p[i] != head[i] {
            assert(path@.take(pre.len() as int)[i as int] != pre[i as int]);
            return false;
        }
        i += 1;
    }
    let mut k: usize = 0;
    while k < tail.len()
        invariant
            k <= tail@.len(),
            end + tail.len() == p.len(),
            p@ == path@,
            tail@ == rest@,
            forall|j: int| 0 <= j < k ==> p@[end + j] == rest@[j],
        decreases tail.len() - k,
    {
        if p[end + k] != tail[k] {
            assert(path@.skip(end as int)[k as int] != rest@[k as int]);
            return false;
        }
        k += 1;
    }
    let mut m: usize = head.len();
    while m < end
        invariant
            head@.len() <= m <= end <= p@.len(),
            p@ == path@,
            head@ == pre,
            middle == path@.subrange(pre.len() as int, end as int),
            forall|j: int| pre.len() <= j < m ==> p@[j] != '/',
        decreases end - m,
    {
        if p[m] == '/' {
            assert(middle[m - pre.len()] == '/');
            return false;
        }
        m += 1;
    }
    proof {
        assert forall|j: int| 0 <= j < middle.len() implies middle[j] != '/' by {
            assert(p@[pre.len() + j] != '/');
        }
        assert(path@ =~= (pre + middle) + rest@);
    }
    true
}

/// Whether a request goes to one of the management routes.
pub fn is_management(method: &str, path: &str) -> (r: bool)
    ensures
        r == management_route(method@, path@),
{
    if same_text(method, "POST") {
        let named: bool = same_text(path, "/repos") || same_text(path, "/reload")
            || is_alias_route(path, "/reindex");
        if named {
            return true;
        }
    }
    same_text(method, "DELETE") && is_alias_route(path, "")
}

/// Requires API key authentication for management endpoints.
///
/// When the configured key is unset or empty, all requests pass. All routes other than the
/// management routes always pass.
pub fn require_admin_auth(
    method: &str,
    path: &str,
    authorization: Option<&str>,
    x_api_key: Option<&str>,
    configured: Option<&str>,
) -> (r: AuthDecision)
    ensures
        r == (match non_empty(opt_str(configured)) {
            Some(key) => if management_route(method@, path@) && !carries_key(
                opt_str(authorization),
                opt_str(x_api_key),
                key,
            ) {
                AuthDecision::Unauthorized
            } else {
                AuthDecision::Pass
            },
            None => AuthDecision::Pass,
        }),
{
    if !is_management(method, path) {
        return AuthDecision::Pass;
    }
    match configured {
        Some(key) => if key.is_empty() || request_has_valid_api_key(
            authorization,
            x_api_key,
            key,
        ) {
            AuthDecision::Pass
        } else {
            AuthDecision::Unauthorized
        },
        None => AuthDecision::Pass,
    }
}

/// The authentication settings captured when the server starts.
pub struct NetworkAuthConfig {
    /// Whether the server is bound to a non-localhost address.
    pub is_network_bind: bool,
    /// The API key to validate; `None` means no authentication.
    pub api_key: Option<String>,
}

/// The path of the liveness probe, which never needs a key.
pub open spec fn liveness_path() -> Seq<char> {
    "/healthz"@
}

/// Requires API key authentication for all endpoints but the liveness probe when the server
/// is bound to a non-localhost address.
pub fn require_auth_for_network(
    config: &NetworkAuthConfig,
    path: &str,
    authorization: Option<&str>,
    x_api_key: Option<&str>,
) -> (r: AuthDecision)
    ensures
        r == (if path@ == liveness_path() || !config.is_network_bind {
            AuthDecision::Pass
        } else {
            match opt_text(config.api_key) {
                Some(key) => if carries_key(opt_str(authorization), opt_str(x_api_key), key) {
                    AuthDecision::Pass
                } else {
                    AuthDecision::Unauthorized
                },
                None => AuthDecision::Misconfigured,
            }
        }),
{
    if same_text(path, "/healthz") {
        return AuthDecision::Pass;
    }
    if !config.is_network_bind {
        return AuthDecision::Pass;
    }
    match &config.api_key {
        Some(key) => if request_has_valid_api_key(authorization, x_api_key, key.as_str()) {
            AuthDecision::Pass
        } else {
            AuthDecision::Unauthorized
        },
        None => AuthDecision::Misconfigured,
    }
}

/// Whether a request is written to the log: all but the health probes.
pub fn is_logged(path: &str) -> (r: bool)
    ensures
        r == (path@ != "/health"@ && path@ != "/healthz"@),
{
    !same_text(path, "/health") && !same_text(path, "/healthz")
}

/// Why a server refuses to bind to `host`.
pub open spec fn bind_refusal(host: Seq<char>) -> Seq<char> {
    "Refusing to bind to '"@ + host
        + "' without authentication. Set the CODESEARCH_SERVE_API_KEY environment variable to an API key before binding to a non-localhost address. This protects MCP and all other endpoints from unauthorized network access."@
}

/// The authentication settings of a server bound to `host`: a non-localhost bind without a
/// key is refused. An empty key is no key.
pub fn capture_network_auth(host: &str, api_key: Option<String>) -> (r: Result<
    NetworkAuthConfig,
    String,
>)
    ensures
        match r {
            Ok(c) => {
                &&& localhost(host@) || non_empty(opt_text(api_key)) is Some
                &&& c.is_network_bind == !localhost(host@)
                &&& opt_text(c.api_key) == non_empty(opt_text(api_key))
            },
            Err(e) => !localhost(host@) && non_empty(opt_text(api_key)) is None && e@
                == bind_refusal(host@),
        },
{
    let key: Option<String> = match api_key {
        Some(k) => if k.as_str().is_empty() {
            None
        } else {
            Some(k)
        },
        None => None,
    };
    let local: bool = is_localhost_host(host);
    if !local && key.is_none() {
        let mut msg: String = "Refusing to bind to '".to_owned();
        msg.push_str(host);
        msg.push_str(
            "' without authentication. Set the CODESEARCH_SERVE_API_KEY environment variable to an API key before binding to a non-localhost address. This protects MCP and all other endpoints from unauthorized network access.",
        );
        return Err(msg);
    }
    Ok(NetworkAuthConfig { is_network_bind: !local, api_key: key })
}

/// The hosts that the MCP endpoint answers to; an empty list answers to every host.
pub struct HostPolicy {
    pub allowed_hosts: Vec<String>,
}

/// The hosts that the MCP transport answers to by default.
pub open spec fn loopback_hosts() -> Seq<Seq<char>> {
    seq!["localhost"@, "127.0.0.1"@, "::1"@]
}

/// The `allowed_hosts` of `rmcp`'s `StreamableHttpServerConfig::default()`: the three
/// loopback names.
#[verifier::external_body]
fn default_allowed_hosts() -> (r: Vec<String>)
    ensures
        texts(r@) == loopback_hosts(),
{
    StreamableHttpServerConfig::default().allowed_hosts
}

/// Whether a setting switches host validation off: `1`, or `true` in any case.
pub open spec fn switches_off(value: Option<Seq<char>>) -> bool {
    value matches Some(v) && (v == "1"@ || ascii_lower(v) == ascii_lower("true"@))
}

/// The entries of a comma-separated list of hosts, without the white space around them and
/// without empty ones.
pub open spec fn host_entries(raw: Seq<char>) -> Seq<Seq<char>> {
    split(trimmed(raw), ',').map_values(|s: Seq<char>| trimmed(s)).filter(
        |s: Seq<char>| s.len() > 0,
    )
}

/// The hosts to answer to: none when validation is switched off, or else the entries of
/// the list when it has any, or else the transport's default.
pub open spec fn effective_hosts(disable: Option<Seq<char>>, hosts: Option<Seq<char>>) -> Seq<
    Seq<char>,
> {
    if switches_off(disable) {
        Seq::empty()
    } else {
        match hosts {
            Some(raw) => if host_entries(raw).len() == 0 {
                loopback_hosts()
            } else {
                host_entries(raw)
            },
            None => loopback_hosts(),
        }
    }
}

fn parse_hosts(raw: &str) -> (r: Vec<String>)
    ensures
        texts(r@) == host_entries(raw@),
{
    let t: String = trim_text(raw);
    let pieces: Vec<String> = split_on(t.as_str(), ',');
    let mut r: Vec<String> = Vec::new();
    let mut i: usize = 0;
    let ghost all = split(trimmed(raw@), ',').map_values(|s: Seq<char>| trimmed(s));
    let ghost some = |s: Seq<char>| s.len() > 0;
    proof {
        reveal(Seq::filter);
        assert(texts(r@) =~= all.take(0).filter(some));
    }
    while i < pieces.len()
        invariant
            i <= pieces@.len(),
            texts(pieces@) == split(trimmed(raw@), ','),
            all == split(trimmed(raw@), ',').map_values(|s: Seq<char>| trimmed(s)),
            some == (|s: Seq<char>| s.len() > 0),
            texts(r@) == all.take(i as int).filter(some),
        decreases pieces.len() - i,
    {
        let ghost before = r@;
        proof {
            reveal(Seq::filter);
            assert(texts(pieces@)[i as int] == pieces@[i as int]@);
            assert(all.take(i + 1).drop_last() =~= all.take(i as int));
        }
        let h: String = trim_text(pieces[i].as_str());
        if !h.as_str().is_empty() {
            r.push(h);
            assert(texts(r@) =~= texts(before).push(all[i as int]));
        }
        i += 1;
    }
    assert(all.len() == pieces@.len()) by {
        assert(texts(pieces@).len() == pieces@.len());
    }
    assert(all.take(all.len() as int) =~= all);
    r
}

/// The host policy of the MCP endpoint, from the two settings that govern it.
///
/// 1. `disable` is `1` or `true`: every host is answered.
/// 2. `hosts` is a comma-separated list with an entry: those hosts.
/// 3. Otherwise: the transport's loopback-only default.
pub fn build_streamable_http_config(disable: Option<&str>, hosts: Option<&str>) -> (r: HostPolicy)
    ensures
        texts(r.allowed_hosts@) == effective_hosts(opt_str(disable), opt_str(hosts)),
{
    match disable {
        Some(v) => if same_text(v, "1") || same_text_ignoring_case(v, "true") {
            let none: Vec<String> = Vec::new();
            assert(texts(none@) =~= Seq::empty());
            return HostPolicy { allowed_hosts: none };
        },
        None => {},
    }
    match hosts {
        Some(raw) => {
            let listed: Vec<String> = parse_hosts(raw);
            assert(texts(listed@).len() == listed@.len());
            if listed.len() == 0 {
                HostPolicy { allowed_hosts: default_allowed_hosts() }
            } else {
                HostPolicy { allowed_hosts: listed }
            }
        },
        None => HostPolicy { allowed_hosts: default_allowed_hosts() },
    }
}

/// The configured key is accepted, in either header.
pub proof fn law_configured_key_is_accepted(
    key: Seq<char>,
    authorization: Option<Seq<char>>,
    x_api_key: Option<Seq<char>>,
)
    ensures
        carries_key(authorization, Some(key), key),
        carries_key(Some("Bearer "@ + key), x_api_key, key),
{
    reveal_strlit("Bearer ");
    let v = "Bearer "@ + key;
    assert(v.take(7) =~= "Bearer "@);
    assert(v.skip(7) =~= key);
}

/// The liveness probe is no management route, so no layer ever asks it for a key.
pub proof fn law_liveness_probe_is_public(method: Seq<char>)
    ensures
        !management_route(method, liveness_path()),
{
    let p = liveness_path();
    reveal_strlit("/healthz");
    reveal_strlit("/repos");
    reveal_strlit("/reload");
    reveal_strlit("/repos/");
    assert(p[1] == 'h');
    assert("/repos"@[1] == 'r');
    assert("/reload"@[1] == 'r');
    assert forall|alias: Seq<char>, rest: Seq<char>| p != #[trigger] (("/repos/"@ + alias) + rest) by {
        assert(((("/repos/"@ + alias) + rest))[1] == 'r');
    }
}

/// A server that starts on a non-localhost address has a key, so every request to it but the
/// liveness probe is either refused or carries that key.
pub proof fn law_network_bind_is_keyed(host: Seq<char>, api_key: Option<Seq<char>>, config: NetworkAuthConfig)
    requires
        localhost(host) || non_empty(api_key) is Some,
        config.is_network_bind == !localhost(host),
        opt_text(config.api_key) == non_empty(api_key),
        config.is_network_bind,
    ensures
        opt_text(config.api_key) matches Some(k) && k.len() > 0,
{
}

} // verus!
