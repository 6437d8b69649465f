//! Addresses: which hosts are local, which URLs name the same server, and when a server
//! keeps itself warm.
use crate::text::{
    ascii_lower, before_first, chars_of, find_from, first_place, last_place,
    opt_str, opt_text, parse_u64, parsed_u64, same_text, same_text_ignoring_case, substring,
    to_ascii_lower, trim_end_char, trim_text, trimmed, until, without_trailing,
};
use vstd::prelude::*;

verus! {

/// The port a server listens on unless told otherwise.
pub const DEFAULT_SERVE_PORT: u16 = 39725;

/// Whether `host` names this machine.
pub open spec fn localhost(host: Seq<char>) -> bool {
    host == "127.0.0.1"@ || host == "::1"@ || ascii_lower(host) == ascii_lower("localhost"@)
}

/// Check whether a host address is a localhost address.
pub fn is_localhost_host(host: &str) -> (r: bool)
    ensures
        r == localhost(host@),
{
    same_text(host, "127.0.0.1") || same_text(host, "::1") || same_text_ignoring_case(
        host,
        "localhost",
    )
}

/// Whether a character ends the host-and-port part of a URL.
pub open spec fn ends_authority(c: char) -> bool {
    c == '/' || c == '?' || c == '#'
}

/// What follows the scheme of `url`, up to the next scheme separator; all of a `url`
/// without a scheme.
pub open spec fn after_scheme(url: Seq<char>) -> Seq<char> {
    match first_place(url, "://"@, 0) {
        Some(i) => {
            let rest = url.skip(i + 3);
            match first_place(rest, "://"@, 0) {
                Some(j) => rest.take(j),
                None => rest,
            }
        },
        None => url,
    }
}

/// The host-and-port part at the beginning of what follows the scheme.
pub open spec fn authority(rest: Seq<char>) -> Seq<char> {
    before_first(rest, |c: char| ends_authority(c))
}

/// The host in a host-and-port part: a bracketed literal with its brackets, or what stands
/// before the last colon.
pub open spec fn host_part(a: Seq<char>) -> Seq<char> {
    if a.len() > 0 && a[0] == '[' {
        until(a, ']').push(']')
    } else {
        match last_place(a, ':') {
            Some(i) => a.take(i),
            None => a,
        }
    }
}

/// The host that `url` names, if it names one.
pub open spec fn url_host(url: Seq<char>) -> Option<Seq<char>> {
    let h = host_part(authority(after_scheme(url)));
    if h.len() == 0 {
        None
    } else {
        Some(h)
    }
}

fn scheme_end(url: &Vec<char>) -> (r: Option<usize>)
    ensures
        match r {
            Some(i) => first_place(url@, "://"@, 0) == Some(i as int) && i + 3 <= url.len(),
            None => first_place(url@, "://"@, 0) is None,
        },
{
    let sep: Vec<char> = chars_of("://");
    proof {
        reveal_strlit("://");
    }
    find_from(url, &sep, 0)
}

fn tail(v: &Vec<char>, from: usize, to: usize) -> (r: Vec<char>)
    requires
        from <= to <= v@.len(),
    ensures
        r@ == v@.subrange(from as int, to as int),
{
    let s: String = substring(v.as_slice(), from, to);
    chars_of(s.as_str())
}

/// Extracts the host (no scheme, no port, no path) from a URL string. Best-effort: a `url`
/// whose host part is empty gives `None`.
pub fn extract_host_from_url(url: &str) -> (r: Option<String>)
    ensures
        opt_text(r) == url_host(url@),
{
    let whole: Vec<char> = chars_of(url);
    let rest: Vec<char> = match scheme_end(&whole) {
        Some(i) => {
            let after: Vec<char> = tail(&whole, i + 3, whole.len());
            assert(after@ =~= url@.skip(i + 3));
            match scheme_end(&after) {
                Some(j) => {
                    assert(after@.subrange(0, j as int) =~= after@.take(j as int));
                    tail(&after, 0, j)
                },
                None => after,
            }
        },
        None => whole,
    };
    assert(rest@ == after_scheme(url@));
    let mut n: usize = 0;
    while n < rest.len() && rest[n] != '/' && rest[n] != '?' && rest[n] != '#'
        invariant
            n <= rest@.len(),
            forall|i: int| 0 <= i < n ==> !ends_authority(#[trigger] rest@[i]),
        decreases rest.len() - n,
    {
        n += 1;
    }
    proof {
        crate::text::lemma_before_first(rest@, |c: char| ends_authority(c), n as int);
        assert(rest@.subrange(0, n as int) =~= rest@.take(n as int));
    }
    let a: Vec<char> = tail(&rest, 0, n);
    assert(a@ == authority(after_scheme(url@)));
    if a.len() > 0 && a[0] == '[' {
        let mut k: usize = 0;
        while k < a.len() && a[k] != ']'
            invariant
                k <= a@.len(),
                forall|i: int| 0 <= i < k ==> #[trigger] a@[i] != ']',
            decreases a.len() - k,
        {
            k += 1;
        }
        let mut h: String = substring(a.as_slice(), 0, k);
        proof {
            crate::text::lemma_until(a@, ']', k as int);
            assert(a@.subrange(0, k as int) =~= a@.take(k as int));
        }
        h.push(']');
        return Some(h);
    }
    let mut k: usize = a.len();
    assert(a@.take(k as int) =~= a@);
    while k > 0 && a[k - 1] != ':'
        invariant
            k <= a@.len(),
            last_place(a@, ':') == last_place(a@.take(k as int), ':'),
        decreases k,
    {
        assert(a@.take(k as int).drop_last() =~= a@.take(k - 1));
        k -= 1;
    }
    let end: usize = if k == 0 {
        a.len()
    } else {
        k - 1
    };
    proof {
        if k > 0 {
            assert(a@.take(k as int).last() == ':');
        }
        assert(a@.subrange(0, end as int) =~= a@.take(end as int));
        assert(a@.take(a@.len() as int) =~= a@);
    }
    if end == 0 {
        None
    } else {
        Some(substring(a.as_slice(), 0, end))
    }
}

/// Where the scheme, host and port of `url` end.
pub open spec fn authority_end(url: Seq<char>) -> int {
    match first_place(url, "://"@, 0) {
        Some(i) => i + 3 + authority(url.skip(i + 3)).len(),
        None => authority(url).len() as int,
    }
}

/// `url` without white space around it and slashes behind it, its scheme, host and port in
/// lowercase.
pub open spec fn normal_url(url: Seq<char>) -> Seq<char> {
    let t = without_trailing(trimmed(url), '/');
    ascii_lower(t.take(authority_end(t))) + t.skip(authority_end(t))
}

/// Normalize a serve URL for comparison: trim trailing slashes and lowercase
/// the scheme+host+port portion so `https://Host:443/` and `https://host:443`
/// compare equal. Not a full URL parser.
pub fn normalize_serve_url(url: &str) -> (r: String)
    ensures
        r@ == normal_url(url@),
{
    let no_space: String = trim_text(url);
    let t: String = trim_end_char(no_space.as_str(), '/');
    let v: Vec<char> = chars_of(t.as_str());
    let start: usize = match scheme_end(&v) {
        Some(i) => i + 3,
        None => 0,
    };
    let mut n: usize = start;
    while n < v.len() && v[n] != '/' && v[n] != '?' && v[n] != '#'
        invariant
            start <= n <= v@.len(),
            forall|i: int| start <= i < n ==> !ends_authority(#[trigger] v@[i]),
        decreases v.len() - n,
    {
        n += 1;
    }
    proof {
        let rest = v@.skip(start as int);
        assert forall|i: int| 0 <= i < n - start implies !ends_authority(#[trigger] rest[i]) by {
            assert(!ends_authority(v@[start + i]));
        }
        crate::text::lemma_before_first(rest, |c: char| ends_authority(c), n - start);
        assert(v@.skip(0) =~= v@);
        assert(authority_end(t@) == n);
        assert(v@.subrange(0, n as int) =~= v@.take(n as int));
        assert(v@.subrange(n as int, v@.len() as int) =~= v@.skip(n as int));
    }
    let head: String = substring(v.as_slice(), 0, n);
    let mut r: String = to_ascii_lower(head.as_str());
    let rest: String = substring(v.as_slice(), n, v.len());
    r.push_str(rest.as_str());
    r
}

/// Whether a bind address stands for every address of the machine, so that the address
/// under which others see it is unknown.
pub open spec fn wildcard(host: Seq<char>) -> bool {
    host == "0.0.0.0"@ || host == "::"@ || host == "[::]"@ || host == "0:0:0:0:0:0:0:0"@ || host
        == "[0:0:0:0:0:0:0:0]"@ || host == ""@
}

/// Whether a target host is this server, as far as its own bind host tells.
pub open spec fn looks_like_self(target: Seq<char>, self_host: Seq<char>) -> bool {
    target == self_host || target == "localhost"@ || target == "127.0.0.1"@ || target == "::1"@
        || target == "[::1]"@
}

/// The host to warn about: the target's, when the bind host is a concrete one and the
/// target names another.
pub open spec fn foreign_target(ping_url: Seq<char>, self_host: Seq<char>) -> Option<Seq<char>> {
    if wildcard(self_host) {
        None
    } else {
        match url_host(ping_url) {
            Some(h) => if looks_like_self(h, self_host) {
                None
            } else {
                Some(h)
            },
            None => None,
        }
    }
}

/// Decide whether the keep-warm target looks like it points at a host *other*
/// than this replica, returning the offending target host when it does.
pub fn keep_warm_foreign_target(ping_url: &str, self_host: &str) -> (r: Option<String>)
    ensures
        opt_text(r) == foreign_target(ping_url@, self_host@),
{
    if same_text(self_host, "0.0.0.0") || same_text(self_host, "::") || same_text(self_host, "[::]")
        || same_text(self_host, "0:0:0:0:0:0:0:0") || same_text(self_host, "[0:0:0:0:0:0:0:0]")
        || same_text(self_host, "") {
        return None;
    }
    match extract_host_from_url(ping_url) {
        Some(target) => {
            let t: &str = target.as_str();
            if same_text(t, self_host) || same_text(t, "localhost") || same_text(t, "127.0.0.1")
                || same_text(t, "::1") || same_text(t, "[::1]") {
                None
            } else {
                Some(target)
            }
        },
        None => None,
    }
}

/// A setting that counts only when it is not empty.
pub open spec fn non_empty(s: Option<Seq<char>>) -> Option<Seq<char>> {
    match s {
        Some(t) => if t.len() == 0 {
            None
        } else {
            Some(t)
        },
        None => None,
    }
}

/// The base URL to keep warm: the flag's, or else the environment's, each only when it is
/// not empty.
pub fn resolve_keep_warm_url(flag: Option<String>, env: Option<String>) -> (r: Option<String>)
    ensures
        opt_text(r) == (match non_empty(opt_text(flag)) {
            Some(u) => Some(u),
            None => non_empty(opt_text(env)),
        }),
{
    match flag {
        Some(u) => if !u.as_str().is_empty() {
            return Some(u);
        },
        None => {},
    }
    match env {
        Some(u) => if u.as_str().is_empty() {
            None
        } else {
            Some(u)
        },
        None => None,
    }
}

/// The URL that keep-warm pings: the liveness probe under the base URL.
pub fn keep_warm_ping_url(base_url: &str) -> (r: String)
    ensures
        r@ == without_trailing(base_url@, '/') + "/healthz"@,
{
    let mut r: String = trim_end_char(base_url, '/');
    r.push_str("/healthz");
    r
}

/// How long a server without tool calls stays warm: the flag's number of seconds, or else
/// the environment's when it is a number, or else `default`.
pub fn resolve_idle_suspend(flag: Option<u64>, env: Option<&str>, default: u64) -> (r: u64)
    ensures
        r == (match flag {
            Some(s) => s,
            None => match env {
                Some(t) => match parsed_u64(t@) {
                    Some(s) => s,
                    None => default,
                },
                None => default,
            },
        }),
{
    match flag {
        Some(s) => s,
        None => match env {
            Some(t) => match parse_u64(t) {
                Some(s) => s,
                None => default,
            },
            None => default,
        },
    }
}

/// Whether keep-warm pings at `now`: only after a real tool call, and while the last one is
/// less than `idle_suspend_secs` whole seconds ago.
pub open spec fn pings(last_call: Option<u64>, now: u64, idle_suspend_secs: u64) -> bool {
    match last_call {
        Some(at) => (if now >= at {
            (now - at) / 1_000_000_000
        } else {
            0
        }) < idle_suspend_secs,
        None => false,
    }
}

/// Whether keep-warm pings at `now`, in nanoseconds on the clock of `last_call`.
pub fn keep_warm_due(last_call: Option<u64>, now: u64, idle_suspend_secs: u64) -> (r: bool)
    ensures
        r == pings(last_call, now, idle_suspend_secs),
{
    match last_call {
        Some(at) => {
            let elapsed: u64 = if now >= at {
                now - at
            } else {
                0
            };
            elapsed / 1_000_000_000 < idle_suspend_secs
        },
        None => false,
    }
}

/// A server that has served no tool call is never kept warm, whatever woke it.
pub proof fn law_no_call_no_ping(last_call: Option<u64>, now: u64, idle_suspend_secs: u64)
    requires
        pings(last_call, now, idle_suspend_secs),
    ensures
        last_call is Some,
{
}

/// Once keep-warm stops pinging for want of calls, it does not start again by itself.
pub proof fn law_keep_warm_stops(last_call: Option<u64>, now: u64, later: u64, idle_suspend_secs: u64)
    requires
        !pings(last_call, now, idle_suspend_secs),
        now <= later,
    ensures
        !pings(last_call, later, idle_suspend_secs),
{
}

/// The port to listen on: the flag's, or else the environment's when it is a port number,
/// or else the default.
pub open spec fn effective_port(flag: Option<u16>, env: Option<Seq<char>>) -> u16 {
    match flag {
        Some(p) => p,
        None => match env {
            Some(t) => match parsed_u64(t) {
                Some(n) => if n <= 65535 {
                    n as u16
                } else {
                    DEFAULT_SERVE_PORT
                },
                None => DEFAULT_SERVE_PORT,
            },
            None => DEFAULT_SERVE_PORT,
        },
    }
}

/// The port to listen on.
pub fn resolve_serve_port(flag: Option<u16>, env: Option<&str>) -> (r: u16)
    ensures
        r == effective_port(flag, opt_str(env)),
{
    match flag {
        Some(p) => p,
        None => match env {
            Some(t) => match parse_u64(t) {
                Some(n) => if n <= 65535 {
                    n as u16
                } else {
                    DEFAULT_SERVE_PORT
                },
                None => DEFAULT_SERVE_PORT,
            },
            None => DEFAULT_SERVE_PORT,
        },
    }
}

/// A wildcard bind never warns, whatever the target.
pub proof fn law_wildcard_bind_never_warns(ping_url: Seq<char>, self_host: Seq<char>)
    requires
        wildcard(self_host),
    ensures
        foreign_target(ping_url, self_host) is None,
{
}

} // verus!
