//! Who may ask, and where things lie.
use crate::auth::{
    alias_route, api_key_matches, build_streamable_http_config, capture_network_auth, is_logged,
    is_management, key_digest, management_route, request_has_valid_api_key, require_admin_auth,
    require_auth_for_network, sha256, AuthDecision, HostPolicy, NetworkAuthConfig,
};
use crate::net::{
    extract_host_from_url, is_localhost_host, keep_warm_due, keep_warm_foreign_target,
    keep_warm_ping_url, normalize_serve_url, resolve_idle_suspend, resolve_keep_warm_url,
    resolve_serve_port,
};
use crate::paths::{
    configured_roots, containing_repo_alias, innermost, path_contains,
    validate_path_within_allowed_roots, CanonicalPath, RepoRoot,
};
use crate::text::{
    ascii_lower, before_first, decimal, first_place, is_char, last_place, law_decimal_round_trip,
    lemma_before_first, occurs_at, occurs_in, opt_str, opt_text, split, texts, until,
    without_trailing,
};
use vstd::prelude::*;
use vstd::utf8::encode_utf8;

verus! {

/// A key is accepted when its digest is that of the configured one; so the configured key is
/// accepted.
pub proof fn law_keys(candidate: &str, configured: &str, r: bool)
    requires
        call_ensures(api_key_matches, (candidate, configured), r),
    ensures
        r <==> sha256(encode_utf8(candidate@)) == sha256(encode_utf8(configured@)),
        candidate@ == configured@ ==> r,
{
}

/// A request carries the key in either of its headers: behind `Bearer ` in the one, alone in
/// the other. A request without headers carries none.
pub proof fn law_headers(
    authorization: Option<&str>,
    x_api_key: Option<&str>,
    configured: &str,
    r: bool,
)
    requires
        call_ensures(request_has_valid_api_key, (authorization, x_api_key, configured), r),
    ensures
        authorization matches Some(v) ==> v@ == "Bearer "@ + configured@ ==> r,
        x_api_key matches Some(k) ==> k@ == configured@ ==> r,
        authorization is None && x_api_key is None ==> !r,
        r ==> (x_api_key is Some && sha256(encode_utf8(x_api_key->0@)) == sha256(
            encode_utf8(configured@),
        )) || (authorization is Some && authorization->0@.len() >= 7 && authorization->0@.take(7)
            == "Bearer "@ && sha256(encode_utf8(authorization->0@.skip(7))) == sha256(
            encode_utf8(configured@),
        )),
{
    reveal_strlit("Bearer ");
    if let Some(v) = authorization {
        if v@ == "Bearer "@ + configured@ {
            assert(v@.take(7) =~= "Bearer "@);
            assert(v@.skip(7) =~= configured@);
        }
    }
}

/// The requests that manage are those that add a repository, reload the configuration, reindex
/// a repository or remove one. No other method manages.
pub proof fn law_management(method: &str, path: &str, r: bool, alias: Seq<char>)
    requires
        call_ensures(is_management, (method, path), r),
    ensures
        method@ == "POST"@ && (path@ == "/repos"@ || path@ == "/reload"@) ==> r,
        alias.len() > 0 && !alias.contains('/') && method@ == "POST"@ && path@ == "/repos/"@ + alias
            + "/reindex"@ ==> r,
        alias.len() > 0 && !alias.contains('/') && method@ == "DELETE"@ && path@ == "/repos/"@
            + alias ==> r,
        r ==> method@ == "POST"@ || method@ == "DELETE"@,
        r && method@ == "POST"@ && method@ != "DELETE"@ ==> path@ == "/repos"@ || path@
            == "/reload"@ || exists|a: Seq<char>|
            a.len() > 0 && !a.contains('/') && path@ == #[trigger] ("/repos/"@ + a) + "/reindex"@,
{
    reveal_strlit("");
    if alias.len() > 0 && !alias.contains('/') {
        if path@ == "/repos/"@ + alias + "/reindex"@ {
            assert(alias_route(path@, "/reindex"@));
        }
        if path@ == "/repos/"@ + alias {
            assert(path@ =~= ("/repos/"@ + alias) + ""@);
            assert(alias_route(path@, ""@));
        }
    }
}

/// With a key configured, a request that manages passes when it carries the key and is refused
/// when it does not; any other request passes, and so does every one where no key, or an empty
/// one, is configured.
pub proof fn law_admin_requests(
    method: &str,
    path: &str,
    authorization: Option<&str>,
    x_api_key: Option<&str>,
    configured: Option<&str>,
    r: AuthDecision,
    manages: bool,
    carries: bool,
)
    requires
        call_ensures(
            require_admin_auth,
            (method, path, authorization, x_api_key, configured),
            r,
        ),
        call_ensures(is_management, (method, path), manages),
        configured is Some ==> call_ensures(
            request_has_valid_api_key,
            (authorization, x_api_key, configured->0),
            carries,
        ),
    ensures
        r is Pass || r is Unauthorized,
        configured is None ==> r is Pass,
        configured matches Some(k) ==> k@.len() == 0 ==> r is Pass,
        !manages ==> r is Pass,
        configured matches Some(k) ==> k@.len() > 0 && manages ==> (r is Pass <==> carries),
{
}

/// A server that is bound to the network lets nothing pass without its key but the probe of
/// its liveness; one that is not lets everything pass.
pub proof fn law_network_requests(
    config: NetworkAuthConfig,
    path: &str,
    authorization: Option<&str>,
    x_api_key: Option<&str>,
    r: AuthDecision,
    carries: bool,
    key: &str,
)
    requires
        call_ensures(require_auth_for_network, (&config, path, authorization, x_api_key), r),
        opt_text(config.api_key) matches Some(k) ==> key@ == k,
        call_ensures(request_has_valid_api_key, (authorization, x_api_key, key), carries),
    ensures
        path@ == "/healthz"@ ==> r is Pass,
        !config.is_network_bind ==> r is Pass,
        path@ != "/healthz"@ && config.is_network_bind && config.api_key is None ==> r
            is Misconfigured,
        path@ != "/healthz"@ && config.is_network_bind && config.api_key is Some ==> (r
            is Pass <==> carries) && (r is Unauthorized <==> !carries),
{
}

/// What is logged is every request but those that probe for health.
pub proof fn law_logging(path: &str, r: bool)
    requires
        call_ensures(is_logged, (path,), r),
    ensures
        r <==> path@ != "/health"@ && path@ != "/healthz"@,
{
}

/// A server binds to the network only with a key that is not empty, and keeps that key; on
/// this machine it needs none.
pub proof fn law_binding(
    host: &str,
    api_key: Option<String>,
    r: Result<NetworkAuthConfig, String>,
    local: bool,
)
    requires
        call_ensures(capture_network_auth, (host, api_key), r),
        call_ensures(is_localhost_host, (host,), local),
    ensures
        r is Ok <==> local || (api_key is Some && api_key->0@.len() > 0),
        r matches Ok(c) ==> c.is_network_bind == !local,
        r matches Ok(c) ==> (api_key is Some && api_key->0@.len() > 0 ==> c.api_key is Some
            && c.api_key->0@ == api_key->0@),
        r matches Ok(c) ==> (api_key is None || api_key->0@.len() == 0 ==> c.api_key is None),
        r matches Err(e) ==> occurs_in(host@, e@),
{
    if let Err(e) = r {
        let head = "Refusing to bind to '"@;
        let k = head.len() as int;
        assert(e@.subrange(k, k + host@.len()) =~= host@);
        assert(occurs_at(e@, host@, head.len() as int));
    }
}

/// The hosts of this machine are its two addresses and its name, however that is written.
pub proof fn law_localhost(host: &str, r: bool)
    requires
        call_ensures(is_localhost_host, (host,), r),
    ensures
        host@ == "127.0.0.1"@ ==> r,
        host@ == "::1"@ ==> r,
        host@ == "localhost"@ ==> r,
        r ==> host@ == "127.0.0.1"@ || host@ == "::1"@ || ascii_lower(host@) == ascii_lower(
            "localhost"@,
        ),
        ascii_lower(host@) == ascii_lower("localhost"@) ==> r,
{
}

/// The hosts that may be asked for are those of this machine, unless others are set; switched
/// off, none is asked for.
pub proof fn law_allowed_hosts(disable: Option<&str>, hosts: Option<&str>, r: HostPolicy)
    requires
        call_ensures(build_streamable_http_config, (disable, hosts), r),
    ensures
        disable matches Some(v) ==> v@ == "1"@ || v@ == "true"@ ==> r.allowed_hosts@.len() == 0,
        disable is None && hosts is None ==> texts(r.allowed_hosts@) == seq![
            "localhost"@,
            "127.0.0.1"@,
            "::1"@,
        ],
        disable is None ==> r.allowed_hosts@.len() > 0,
{
    assert(texts(r.allowed_hosts@).len() == r.allowed_hosts@.len());
}

proof fn lemma_last_place(s: Seq<char>, c: char, i: int)
    requires
        0 <= i < s.len(),
        s[i] == c,
        forall|j: int| i < j < s.len() ==> #[trigger] s[j] != c,
    ensures
        last_place(s, c) == Some(i),
    decreases s.len(),
{
    if i < s.len() - 1 {
        assert(s[s.len() - 1] != c);
        lemma_last_place(s.drop_last(), c, i);
    }
}

proof fn lemma_no_last_place(s: Seq<char>, c: char)
    requires
        forall|j: int| 0 <= j < s.len() ==> #[trigger] s[j] != c,
    ensures
        last_place(s, c) is None,
    decreases s.len(),
{
    if s.len() > 0 {
        assert(s[s.len() - 1] != c);
        lemma_no_last_place(s.drop_last(), c);
    }
}

proof fn lemma_first_place(hay: Seq<char>, needle: Seq<char>, from: int, i: int)
    requires
        0 <= from <= i,
        occurs_at(hay, needle, i),
        forall|j: int| from <= j < i ==> !occurs_at(hay, needle, j),
    ensures
        first_place(hay, needle, from) == Some(i),
    decreases i - from,
{
    if from < i {
        lemma_first_place(hay, needle, from + 1, i);
    }
}

proof fn lemma_no_first_place(hay: Seq<char>, needle: Seq<char>, from: int)
    requires
        0 <= from,
        !occurs_in(needle, hay),
    ensures
        first_place(hay, needle, from) is None,
    decreases hay.len() + 1 - from,
{
    if from <= hay.len() {
        assert(!occurs_at(hay, needle, from));
        lemma_no_first_place(hay, needle, from + 1);
    }
}

/// The host of a URL stands between the scheme and the port or the path.
pub proof fn law_the_host_of_a_url(
    url: &str,
    r: Option<String>,
    scheme: Seq<char>,
    host: Seq<char>,
    port: Seq<char>,
    tail: Seq<char>,
)
    requires
        call_ensures(extract_host_from_url, (url,), r),
        url@ == scheme + "://"@ + (host + port + tail),
        !scheme.contains(':'),
        host.len() > 0,
        forall|i: int|
            0 <= i < host.len() ==> #[trigger] host[i] != ':' && host[i] != '/' && host[i] != '?'
                && host[i] != '#' && host[i] != '[',
        port.len() == 0 || (port[0] == ':' && forall|i: int|
            1 <= i < port.len() ==> #[trigger] port[i] != ':' && port[i] != '/' && port[i] != '?'
                && port[i] != '#'),
        tail.len() == 0 || tail[0] == '/' || tail[0] == '?' || tail[0] == '#',
        !occurs_in("://"@, host + port + tail),
    ensures
        r is Some,
        r->0@ == host,
{
    reveal_strlit("://");
    let rest = host + port + tail;
    let n = scheme.len() as int;
    assert(url@.subrange(n, n + 3) =~= "://"@);
    assert(occurs_at(url@, "://"@, n));
    assert forall|j: int| 0 <= j < n implies !occurs_at(url@, "://"@, j) by {
        if occurs_at(url@, "://"@, j) {
            assert(url@.subrange(j, j + 3)[0] == ':');
            assert(scheme[j] == ':');
            assert(scheme.contains(':'));
        }
    }
    lemma_first_place(url@, "://"@, 0, n);
    assert(url@.skip(n + 3) =~= rest);
    lemma_no_first_place(rest, "://"@, 0);
    let k = (host.len() + port.len()) as int;
    let stop = |c: char| crate::net::ends_authority(c);
    assert forall|i: int| 0 <= i < k implies !stop(#[trigger] rest[i]) by {
        if i < host.len() {
            assert(rest[i] == host[i]);
        } else {
            assert(rest[i] == port[i - host.len()]);
        }
    }
    if k < rest.len() {
        assert(rest[k] == tail[0]);
    }
    lemma_before_first(rest, stop, k);
    let a = rest.take(k);
    assert(a =~= host + port);
    assert(a[0] == host[0]);
    if port.len() == 0 {
        assert forall|j: int| 0 <= j < a.len() implies #[trigger] a[j] != ':' by {
            assert(a[j] == host[j]);
        }
        lemma_no_last_place(a, ':');
        assert(a =~= host);
    } else {
        assert(a[host.len() as int] == ':');
        assert forall|j: int| host.len() < j < a.len() implies #[trigger] a[j] != ':' by {
            assert(a[j] == port[j - host.len()]);
        }
        lemma_last_place(a, ':', host.len() as int);
        assert(a.take(host.len() as int) =~= host);
    }
}

proof fn lemma_no_trailing(s: Seq<char>, c: char)
    ensures
        without_trailing(s, c).len() > 0 ==> without_trailing(s, c).last() != c,
        without_trailing(s, c).len() <= s.len(),
        without_trailing(s, c) == s.take(without_trailing(s, c).len() as int),
        forall|i: int| without_trailing(s, c).len() <= i < s.len() ==> #[trigger] s[i] == c,
    decreases s.len(),
{
    if s.len() > 0 && s.last() == c {
        lemma_no_trailing(s.drop_last(), c);
        let t = without_trailing(s.drop_last(), c);
        assert(s.drop_last().take(t.len() as int) =~= s.take(t.len() as int));
        assert forall|i: int| t.len() <= i < s.len() implies #[trigger] s[i] == c by {
            if i < s.len() - 1 {
                assert(s.drop_last()[i] == c);
            }
        }
    } else {
        assert(s.take(s.len() as int) =~= s);
    }
}

/// What is pinged lies under the server's URL, with one slash between.
pub proof fn law_ping_urls(base: &str, r: String, bare: Seq<char>)
    requires
        call_ensures(keep_warm_ping_url, (base,), r),
        bare.len() > 0,
        bare.last() != '/',
    ensures
        base@ == bare ==> r@ == bare + "/healthz"@,
        base@ == bare.push('/') ==> r@ == bare + "/healthz"@,
{
    reveal_with_fuel(without_trailing, 3);
    if base@ == bare.push('/') {
        assert(base@.drop_last() =~= bare);
    }
}

/// A URL reads the same up to case once it is brought to its common form, which ends with no
/// slash; nothing but the blanks and slashes at its ends is taken away.
pub proof fn law_common_urls(url: &str, r: String)
    requires
        call_ensures(normalize_serve_url, (url,), r),
    ensures
        r@.len() > 0 ==> r@.last() != '/',
        r@.len() <= crate::text::trimmed(url@).len(),
        ascii_lower(r@) == ascii_lower(crate::text::trimmed(url@).take(r@.len() as int)),
        forall|i: int|
            r@.len() <= i < crate::text::trimmed(url@).len() ==> #[trigger] crate::text::trimmed(
                url@,
            )[i] == '/',
{
    let whole = crate::text::trimmed(url@);
    let t = without_trailing(whole, '/');
    lemma_no_trailing(whole, '/');
    let n = crate::net::authority_end(t);
    lemma_authority_end(t);
    let low = ascii_lower(t.take(n));
    assert(r@ == low + t.skip(n));
    assert(r@.len() == t.len());
    assert forall|i: int| 0 <= i < r@.len() implies ascii_lower(r@)[i] == ascii_lower(t)[i] by {
        if i < n {
            assert(r@[i] == crate::text::lower_char(t[i]));
        } else {
            assert(r@[i] == t[i]);
        }
    }
    assert(ascii_lower(r@) =~= ascii_lower(t));
    if r@.len() > 0 {
        let k = t.len() - 1;
        if k < n {
            assert(r@[k] == crate::text::lower_char(t[k]));
        }
    }
}

proof fn lemma_authority_end(t: Seq<char>)
    ensures
        0 <= crate::net::authority_end(t) <= t.len(),
{
    match first_place(t, "://"@, 0) {
        Some(i) => {
            lemma_place_inside(t, "://"@, 0);
            reveal_strlit("://");
            lemma_before_is_shorter(t.skip(i + 3), |c: char| crate::net::ends_authority(c));
        },
        None => {
            lemma_before_is_shorter(t, |c: char| crate::net::ends_authority(c));
        },
    }
}

proof fn lemma_place_inside(hay: Seq<char>, needle: Seq<char>, from: int)
    requires
        0 <= from,
    ensures
        first_place(hay, needle, from) matches Some(i) ==> 0 <= i && i + needle.len() <= hay.len(),
    decreases hay.len() + 1 - from,
{
    if from <= hay.len() && !occurs_at(hay, needle, from) {
        lemma_place_inside(hay, needle, from + 1);
    }
}

proof fn lemma_before_is_shorter(s: Seq<char>, stop: spec_fn(char) -> bool)
    ensures
        before_first(s, stop).len() <= s.len(),
    decreases s.len(),
{
    if s.len() > 0 && !stop(s[0]) {
        lemma_before_is_shorter(s.drop_first(), stop);
    }
}

/// A server that listens everywhere is warned of nothing; another is warned of the host that
/// is pinged when that is neither its own nor one of this machine.
pub proof fn law_foreign_pings(
    ping_url: &str,
    self_host: &str,
    host: Option<String>,
    r: Option<String>,
)
    requires
        call_ensures(keep_warm_foreign_target, (ping_url, self_host), r),
        call_ensures(extract_host_from_url, (ping_url,), host),
    ensures
        self_host@ == "0.0.0.0"@ || self_host@ == "::"@ || self_host@ == ""@ ==> r is None,
        host is None ==> r is None,
        r matches Some(h) ==> host is Some && h@ == host->0@ && h@ != self_host@ && h@
            != "localhost"@ && h@ != "127.0.0.1"@ && h@ != "::1"@ && h@ != "[::1]"@,
        self_host@ == "10.0.0.1"@ ==> (host matches Some(h) ==> h@ != self_host@ && h@
            != "localhost"@ && h@ != "127.0.0.1"@ && h@ != "::1"@ && h@ != "[::1]"@ ==> r is Some),
{
    reveal_strlit("10.0.0.1");
    reveal_strlit("0.0.0.0");
    reveal_strlit("::");
    reveal_strlit("[::]");
    reveal_strlit("0:0:0:0:0:0:0:0");
    reveal_strlit("[0:0:0:0:0:0:0:0]");
    reveal_strlit("");
    assert("10.0.0.1"@.len() == 8 && "0.0.0.0"@.len() == 7 && "::"@.len() == 2 && "[::]"@.len() == 4
        && "0:0:0:0:0:0:0:0"@.len() == 15 && "[0:0:0:0:0:0:0:0]"@.len() == 17);
}

/// What is given beats what is set, and what is empty counts as not given.
pub proof fn law_ping_settings(flag: Option<String>, env: Option<String>, r: Option<String>)
    requires
        call_ensures(resolve_keep_warm_url, (flag, env), r),
    ensures
        flag matches Some(u) ==> u@.len() > 0 ==> r is Some && r->0@ == u@,
        flag is None || flag->0@.len() == 0 ==> (env matches Some(u) ==> u@.len() > 0 ==> r is Some
            && r->0@ == u@),
        (flag is None || flag->0@.len() == 0) && (env is None || env->0@.len() == 0) ==> r is None,
{
}

/// So is it with how long a server may be idle, and with its port; what is set and no number
/// leaves the usual value.
pub proof fn law_number_settings(
    flag: Option<u64>,
    env: Option<&str>,
    default: u64,
    r: u64,
    port: Option<u16>,
    p: u16,
    n: u64,
)
    requires
        call_ensures(resolve_idle_suspend, (flag, env, default), r),
        call_ensures(resolve_serve_port, (port, env), p),
    ensures
        flag matches Some(s) ==> r == s,
        flag is None && env is None ==> r == default,
        flag is None ==> (env matches Some(t) ==> t@ == decimal(n as nat) ==> r == n),
        port matches Some(x) ==> p == x,
        port is None && env is None ==> p == 39725,
        port is None ==> (env matches Some(t) ==> t@ == decimal(n as nat) && n <= 65535 ==> p == n),
        port is None ==> (env matches Some(t) ==> t@ == decimal(n as nat) && n > 65535 ==> p
            == 39725),
{
    law_decimal_round_trip(n);
}

/// A ping is due while the last call lies back less than the time that a server may be idle;
/// without a call none is.
pub proof fn law_pings(last: Option<u64>, now: u64, idle: u64, r: bool)
    requires
        call_ensures(keep_warm_due, (last, now, idle), r),
    ensures
        last is None ==> !r,
        last matches Some(at) ==> now >= at ==> (r <==> now < at + idle * 1_000_000_000),
        last matches Some(at) ==> now < at ==> (r <==> idle > 0),
{
}

/// A path lies inside a root whose components it begins with; only where case does not count
/// may they differ in it.
pub proof fn law_containment(
    target: Vec<String>,
    root: Vec<String>,
    ignore_case: bool,
    r: bool,
    i: int,
)
    requires
        call_ensures(path_contains, (&target, &root, ignore_case), r),
    ensures
        root@.len() > target@.len() ==> !r,
        r && 0 <= i < root@.len() ==> root@[i]@ == target@[i]@ || (ignore_case && ascii_lower(
            root@[i]@,
        ) == ascii_lower(target@[i]@)),
        root@.len() <= target@.len() && texts(target@).take(root@.len() as int) == texts(root@)
            ==> r,
        !ignore_case && 0 <= i < root@.len() && i < target@.len() && root@[i]@ != target@[i]@
            ==> !r,
{
    if 0 <= i < root@.len() && i < target@.len() {
        assert(texts(root@)[i] == root@[i]@);
        assert(texts(target@)[i] == target@[i]@);
    }
    if root@.len() <= target@.len() && texts(target@).take(root@.len() as int) == texts(root@) {
        assert forall|k: int| 0 <= k < texts(root@).len() implies #[trigger] texts(root@)[k]
            == texts(target@)[k] by {
            assert(texts(target@).take(root@.len() as int)[k] == texts(target@)[k]);
        }
    }
}

/// The repository of a path is one whose root the path lies inside, and none with a longer
/// root holds the path too.
pub proof fn law_the_repository_of_a_path(
    repos: Vec<RepoRoot>,
    target: Vec<String>,
    ignore_case: bool,
    r: Option<String>,
    j: int,
    holds: bool,
)
    requires
        call_ensures(containing_repo_alias, (&repos, &target, ignore_case), r),
        0 <= j < repos@.len(),
        call_ensures(path_contains, (&target, &repos@[j].root, ignore_case), holds),
    ensures
        r is Some ==> exists|i: int|
            0 <= i < repos@.len() && (#[trigger] repos@[i]).alias@ == r->0@
                && repos@[i].root@.len() <= target@.len() && (holds ==> repos@[j].root@.len()
                <= repos@[i].root@.len()),
{
    assert(holds == crate::paths::lies_inside(
        texts(target@),
        texts(repos@[j].root@),
        ignore_case,
    ));
    if let Some(alias) = r {
        let i = choose|i: int|
            innermost(repos@, texts(target@), ignore_case, i) && (#[trigger] repos@[i]).alias@
                == alias@;
        assert(repos@[i].alias@ == alias@);
        assert(texts(repos@[i].root@).len() == repos@[i].root@.len());
        assert(texts(target@).len() == target@.len());
        assert(holds ==> repos@[j].root@.len() <= repos@[i].root@.len());
    }
}

/// A path is allowed when no roots are configured, or when it lies inside one of those that
/// could be found; else it is not.
pub proof fn law_allowed_roots(
    path: CanonicalPath,
    configured: Vec<String>,
    resolved: Vec<CanonicalPath>,
    r: Result<(), String>,
    i: int,
    inside: bool,
)
    requires
        call_ensures(validate_path_within_allowed_roots, (&path, &configured, &resolved), r),
        0 <= i < resolved@.len() ==> call_ensures(
            path_contains,
            (&path.components, &resolved@[i].components, false),
            inside,
        ),
    ensures
        configured@.len() == 0 ==> r is Ok,
        configured@.len() > 0 && resolved@.len() == 0 ==> r is Err,
        0 <= i < resolved@.len() && inside ==> r is Ok,
        0 <= i < resolved@.len() && configured@.len() > 0 && resolved@.len() == 1 && !inside ==> r
            is Err,
{
    if 0 <= i < resolved@.len() && inside {
        assert(crate::paths::inside_one(texts(path.components@), resolved@)) by {
            assert(texts(resolved@[i].components@) == texts(resolved@[i].components@));
        }
    }
}

proof fn lemma_pieces(s: Seq<char>, sep: char)
    ensures
        split(s, sep).len() > 0,
        forall|i: int| 0 <= i < split(s, sep).len() ==> !(#[trigger] split(s, sep)[i]).contains(sep),
    decreases s.len(),
{
    if s.len() == 0 {
        assert(split(s, sep)[0] =~= Seq::<char>::empty());
    } else {
        let before = split(s.drop_last(), sep);
        let p = split(s, sep);
        lemma_pieces(s.drop_last(), sep);
        assert forall|i: int| 0 <= i < p.len() implies !(#[trigger] p[i]).contains(sep) by {
            if s.last() == sep {
                if i < before.len() {
                    assert(p[i] == before[i]);
                }
            } else if i < before.len() - 1 {
                assert(p[i] == before[i]);
            } else {
                assert(!before[before.len() - 1].contains(sep));
                if p[i].contains(sep) {
                    let k = choose|k: int| 0 <= k < p[i].len() && p[i][k] == sep;
                    assert(before.last()[k] == sep);
                }
            }
        }
    }
}

/// The roots that are set are the pieces between semicolons, without the empty ones.
pub proof fn law_roots_that_are_set(setting: Option<&str>, r: Vec<String>, i: int)
    requires
        call_ensures(configured_roots, (setting,), r),
    ensures
        setting is None ==> r@.len() == 0,
        0 <= i < r@.len() ==> r@[i]@.len() > 0 && !r@[i]@.contains(';'),
        setting matches Some(v) ==> v@.len() > 0 && !v@.contains(';') ==> r@.len() == 1 && r@[0]@
            == v@,
{
    assert(texts(r@).len() == r@.len());
    if let Some(v) = setting {
        let f = |s: Seq<char>| s.len() > 0;
        let all = split(v@, ';');
        let kept = all.filter(f);
        lemma_pieces(v@, ';');
        assert(texts(r@) == kept);
        if 0 <= i < r@.len() {
            assert(texts(r@)[i] == r@[i]@);
            all.lemma_filter_pred(f, i);
            assert(kept.contains(kept[i]));
            all.lemma_filter_contains_rev(f, kept[i]);
            let k = choose|k: int| 0 <= k < all.len() && all[k] == kept[i];
            assert(!all[k].contains(';'));
        }
        if v@.len() > 0 && !v@.contains(';') {
            lemma_whole(v@, ';');
            reveal(Seq::filter);
            assert(all.drop_last() =~= Seq::<Seq<char>>::empty());
            assert(kept =~= seq![v@]);
            assert(texts(r@)[0] == r@[0]@);
        }
    }
}

proof fn lemma_whole(s: Seq<char>, sep: char)
    requires
        !s.contains(sep),
    ensures
        split(s, sep) == seq![s],
    decreases s.len(),
{
    if s.len() > 0 {
        let rest = s.drop_last();
        assert(!rest.contains(sep)) by {
            if rest.contains(sep) {
                let k = choose|k: int| 0 <= k < rest.len() && rest[k] == sep;
                assert(s[k] == sep);
            }
        }
        lemma_whole(rest, sep);
        assert(s.contains(s[s.len() - 1]));
        assert(rest.push(s.last()) =~= s);
        assert(split(s, sep) =~= seq![s]);
    } else {
        assert(s =~= Seq::<char>::empty());
        assert(split(s, sep) =~= seq![s]);
    }
}

} // verus!
