//! What is shown of repositories and of the log.
use crate::config::{lemma_path_in_names, ReposConfig};
use crate::dashboard::{
    events, latency_series, repo_counts, repo_inputs, Event, LatencySeries, RepoCounts, RepoInput,
};
use crate::laws::opening::only_touches;
use crate::laws::scraping::lemma_sifted_alike;
use crate::metrics::{has_status, is_queued, RepoHealth};
use crate::order::{is_text_order, lemma_text_order_is_whole, lists, text_less};
use crate::paths::{innermost, RepoRoot};
use crate::state::{CSharpIndexStatus, RepoState, RepoView, ServeState, StateView};
use crate::status::{
    fact_aliases, fact_keys, format_tool_call_ago, registered_facts, status_entries, status_of,
    tool_call_ago, Freshness, RepoFacts, RepoStateLabel, RepoStatusInfo, Span, StatusEntry,
};
use crate::telemetry::{LatencyBucket, LatencyRecorder};
use crate::text::{ascii_lower, decimal, occurs_in, opt_text, texts};
use vstd::prelude::*;

verus! {

/// Whether a row tells what is the case of a repository: whether it is being indexed, how it
/// is open, its changes, its calls, and its symbol indices.
pub open spec fn tells_repo(
    info: RepoStatusInfo,
    r: RepoView,
    f: RepoFacts,
    now: u64,
    max_secs: u64,
) -> bool {
    let busy = r.indexing_since is Some && now < r.indexing_since->0 + max_secs * 1_000_000_000
        && max_secs > 0;
    &&& info.status is Indexing <==> busy
    &&& !busy ==> {
        &&& info.status is Open <==> r.mode == Some(RepoState::Write)
        &&& info.status is Warm <==> r.mode == Some(RepoState::Warm)
        &&& info.status is Readonly <==> r.mode == Some(RepoState::Readonly)
        &&& info.status is Error <==> r.mode == Some(RepoState::Conflicted)
        &&& info.status is Closed <==> r.mode is None && f.db_exists
        &&& info.status is NoIndex <==> r.mode is None && !f.db_exists
    }
    &&& r.mode is None ==> info.changes == r.changes
    &&& r.mode == Some(RepoState::Conflicted) ==> info.changes == 0
    &&& r.mode == Some(RepoState::Write) || r.mode == Some(RepoState::Warm) || r.mode == Some(
        RepoState::Readonly,
    ) ==> info.changes == f.store_changes
    &&& info.tool_call_count == r.tool_calls
    &&& info.last_tool_call is None <==> r.last_tool is None
    &&& r.last_tool is Some ==> occurs_in((r.last_tool->0).0, (info.last_tool_call->0)@)
    &&& r.csharp matches Some(s) ==> info.csharp_index == s
    &&& r.csharp is None && f.csharp_built ==> info.csharp_index is Ready
    &&& r.csharp is None && !f.csharp_built ==> info.csharp_index is Absent
    &&& info.csharp_index is Error ==> opt_text(info.csharp_error) == r.csharp_error
    &&& !(info.csharp_index is Error) ==> info.csharp_error is None
    &&& f.typescript_built ==> info.typescript_index is Ready
    &&& !f.typescript_built ==> info.typescript_index is Absent
}

proof fn lemma_ago(tool: Seq<char>, secs: nat)
    ensures
        occurs_in(tool, tool_call_ago(tool, secs)),
{
    let t = tool_call_ago(tool, secs);
    assert(t.subrange(0, tool.len() as int) =~= tool);
    assert(crate::text::occurs_at(t, tool, 0));
}

proof fn lemma_tells_repo(
    info: RepoStatusInfo,
    s: StateView,
    f: RepoFacts,
    now: u64,
    max_secs: u64,
)
    requires
        info@ == status_of(s, f, now, max_secs),
    ensures
        tells_repo(info, s.repo(f.alias@), f, now, max_secs),
{
    let r = s.repo(f.alias@);
    assert(info@.status == info.status);
    assert(info@.csharp_index == info.csharp_index);
    assert(opt_text(info.last_tool_call) == info@.last_tool_call);
    assert(opt_text(info.csharp_error) == info@.csharp_error);
    if let Some((tool, at)) = r.last_tool {
        lemma_ago(tool, (crate::state::elapsed(now, at) / 1_000_000_000) as nat);
    }
}

/// Each row of the list of repositories tells what is the case of a registered one; each
/// registered one of which something is known has its row; they stand by name, in whatever
/// case.
pub proof fn law_rows_tell_what_is_the_case(
    s: &mut ServeState,
    facts: Vec<RepoFacts>,
    now: u64,
    max_secs: u64,
    r: Vec<(String, RepoStatusInfo)>,
    i: int,
    j: int,
    k: int,
)
    requires
        fact_aliases(facts@).no_duplicates(),
        call_ensures(ServeState::repo_statuses_lightweight, (s, &facts, now, max_secs), r),
    ensures
        0 <= i < r@.len() ==> exists|k: int|
            0 <= k < facts@.len() && (#[trigger] facts@[k]).alias@ == r@[i].0@
                && old(s)@.config.resolve(facts@[k].alias@) is Some && tells_repo(
                r@[i].1,
                old(s)@.repo(facts@[k].alias@),
                facts@[k],
                now,
                max_secs,
            ),
        0 <= i < j < r@.len() ==> !text_less(ascii_lower(r@[j].0@), ascii_lower(r@[i].0@)),
        0 <= k < facts@.len() && old(s)@.config.resolve(facts@[k].alias@) is Some ==> exists|i: int|
            0 <= i < r@.len() && (#[trigger] r@[i]).0@ == facts@[k].alias@,
        final(s)@.config == old(s)@.config,
        0 <= k < facts@.len() ==> final(s)@.repo(facts@[k].alias@).mode == old(s)@.repo(
            facts@[k].alias@,
        ).mode && final(s)@.repo(facts@[k].alias@).last_access == old(s)@.repo(
            facts@[k].alias@,
        ).last_access,
{
    let listed = registered_facts(old(s)@, facts@);
    let keys = fact_keys(listed);
    let f = |f: RepoFacts| old(s)@.config.resolve(f.alias@) is Some;
    let order = choose|order: Seq<usize>| #[trigger]
        is_text_order(keys, order) && r@.len() == order.len() && forall|i: int|
            0 <= i < r@.len() ==> (#[trigger] r@[i]).0@ == listed[order[i] as int].alias@
                && r@[i].1@ == status_of(old(s)@, listed[order[i] as int], now, max_secs);
    lemma_text_order_is_whole(keys, order);
    if 0 <= i < r@.len() {
        let x = order[i] as int;
        assert(r@[i].0@ == listed[x].alias@);
        lemma_tells_repo(r@[i].1, old(s)@, listed[x], now, max_secs);
        facts@.lemma_filter_pred(f, x);
        assert(listed.contains(listed[x]));
        facts@.lemma_filter_contains_rev(f, listed[x]);
        let k = choose|k: int| 0 <= k < facts@.len() && facts@[k] == listed[x];
        assert(facts@[k].alias@ == r@[i].0@);
    }
    if 0 <= i < j < r@.len() {
        assert(crate::order::text_ordered(keys, order[i] as int, order[j] as int));
        assert(r@[i].0@ == listed[order[i] as int].alias@);
        assert(r@[j].0@ == listed[order[j] as int].alias@);
        crate::order::lemma_text_less_total(
            ascii_lower(r@[i].0@),
            ascii_lower(r@[j].0@),
        );
    }
    if 0 <= k < facts@.len() && old(s)@.config.resolve(facts@[k].alias@) is Some {
        facts@.lemma_filter_contains(f, k);
        assert(listed.contains(facts@[k]));
        let x = choose|x: int| 0 <= x < listed.len() && listed[x] == facts@[k];
        assert(lists(order, x));
        let i = choose|i: int| 0 <= i < order.len() && #[trigger] order[i] == x;
        assert(r@[i].0@ == listed[x].alias@);
    }
}

/// How long ago a call was is told in seconds below a minute, in minutes below an hour, and in
/// hours and minutes from there on.
pub proof fn law_how_long_ago(tool: &str, secs: u64, r: String)
    requires
        call_ensures(format_tool_call_ago, (tool, secs), r),
    ensures
        secs < 60 ==> r@ == tool@ + " ("@ + decimal(secs as nat) + "s ago)"@,
        60 <= secs < 3600 ==> r@ == tool@ + " ("@ + decimal((secs / 60) as nat) + "m ago)"@,
        secs >= 3600 ==> r@ == tool@ + " ("@ + decimal((secs / 3600) as nat) + "h "@ + decimal(
            ((secs - 3600 * (secs / 3600)) / 60) as nat,
        ) + "m ago)"@,
{
}

/// Each entry of the status has the values of its row, with the names of the states.
pub proof fn law_entries_tell_their_rows(
    rows: Vec<(String, RepoStatusInfo)>,
    r: Vec<StatusEntry>,
    i: int,
)
    requires
        call_ensures(status_entries, (&rows,), r),
        0 <= i < rows@.len(),
    ensures
        r@.len() == rows@.len(),
        ({
            let e = r@[i];
            let info = rows@[i].1;
            &&& e.alias@ == rows@[i].0@
            &&& e.changes == info.changes
            &&& e.tool_call_count == info.tool_call_count
            &&& opt_text(e.last_tool_call) == opt_text(info.last_tool_call)
            &&& opt_text(e.csharp_error) == opt_text(info.csharp_error)
            &&& info.status is Open ==> e.status@ == "open"@ && e.lock_mode@ == "write"@
            &&& info.status is Indexing ==> e.status@ == "indexing"@ && e.lock_mode@ == "write"@
            &&& info.status is Warm ==> e.status@ == "warm"@ && e.lock_mode@ == "read"@
            &&& info.status is Readonly ==> e.status@ == "readonly"@ && e.lock_mode@ == "read"@
            &&& info.status is Closed ==> e.status@ == "closed"@ && e.lock_mode@ == "—"@
            &&& info.status is Error ==> e.status@ == "error"@ && e.lock_mode@ == "—"@
            &&& info.status is NoIndex ==> e.status@ == "no_index"@ && e.lock_mode@ == "—"@
            &&& info.csharp_index is Absent ==> e.csharp_index@ == "none"@
            &&& info.csharp_index is Ready ==> e.csharp_index@ == "ready"@
            &&& info.csharp_index is Error ==> e.csharp_index@ == "error"@
            &&& info.csharp_index is Indexing ==> e.csharp_index@ == "indexing"@
            &&& info.typescript_index is Absent ==> e.typescript_index@ == "none"@
            &&& info.typescript_index is Ready ==> e.typescript_index@ == "ready"@
        }),
{
    assert(crate::status::tells(r@[i], rows@[i].0@, rows@[i].1@));
    assert(rows@[i].1@.status == rows@[i].1.status);
}

/// The names of a state are its own.
pub proof fn law_state_names(l: RepoStateLabel, name: &'static str, key: &'static str, mode: &'static str)
    requires
        call_ensures(RepoStateLabel::name, (&l,), name),
        call_ensures(RepoStateLabel::as_str, (&l,), key),
        call_ensures(RepoStateLabel::lock_mode, (&l,), mode),
    ensures
        l is Open ==> name@ == "Open"@ && key@ == "open"@ && mode@ == "write"@,
        l is Warm ==> name@ == "Warm"@ && key@ == "warm"@ && mode@ == "read"@,
        l is Readonly ==> name@ == "Readonly"@ && key@ == "readonly"@ && mode@ == "read"@,
        l is Closed ==> name@ == "Closed"@ && key@ == "closed"@ && mode@ == "—"@,
        l is Indexing ==> name@ == "Indexing"@ && key@ == "indexing"@ && mode@ == "write"@,
        l is Error ==> name@ == "Error"@ && key@ == "error"@ && mode@ == "—"@,
        l is NoIndex ==> name@ == "No Index"@ && key@ == "no_index"@ && mode@ == "—"@,
{
}

/// What the board is fed with has a row for a row, with the path of its alias, its state and
/// its changes.
pub proof fn law_inputs_tell_their_rows(
    rows: Vec<(String, RepoStatusInfo)>,
    config: ReposConfig,
    r: Vec<RepoInput>,
    i: int,
    alias: &str,
    path: Option<String>,
    key: &'static str,
)
    requires
        call_ensures(repo_inputs, (&rows, &config), r),
        0 <= i < rows@.len(),
        alias@ == rows@[i].0@,
        call_ensures(ReposConfig::resolve, (&config, alias), path),
        call_ensures(RepoStateLabel::as_str, (&rows@[i].1.status,), key),
    ensures
        r@.len() == rows@.len(),
        r@[i].alias@ == rows@[i].0@,
        path matches Some(p) ==> r@[i].path@ == p@,
        path is None ==> r@[i].path@.len() == 0,
        r@[i].state@ == key@,
        r@[i].changes == rows@[i].1.changes,
{
    assert(r@[i].alias@ == rows@[i].0@);
}

/// As many repositories are counted as there are, as are being indexed, as fail and as wait.
pub proof fn law_repositories_are_counted(repos: Vec<RepoHealth>, r: RepoCounts)
    requires
        call_ensures(repo_counts, (&repos,), r),
    ensures
        r.total == repos@.len(),
        r.indexing == repos@.filter(|x: RepoHealth| x.status@ == "indexing"@).len(),
        r.failing == repos@.filter(|x: RepoHealth| x.status@ == "failing"@).len(),
        r.queued == repos@.filter(|x: RepoHealth| x.queued).len(),
{
    lemma_sifted_alike(
        repos@,
        has_status("indexing"@),
        |x: RepoHealth| x.status@ == "indexing"@,
    );
    lemma_sifted_alike(repos@, has_status("failing"@), |x: RepoHealth| x.status@ == "failing"@);
    lemma_sifted_alike(repos@, is_queued(), |x: RepoHealth| x.queued);
}

/// The latest events are shown, the last first: as many as are asked for, fifty when nothing
/// is, at least one and no more than allowed, as far as there are any.
pub proof fn law_the_latest_events(
    log: Vec<Event>,
    limit: Option<usize>,
    most: usize,
    r: Vec<Event>,
    i: int,
)
    requires
        most >= 1,
        call_ensures(events, (&log, limit, most), r),
    ensures
        r@.len() <= log@.len(),
        r@.len() <= most,
        log@.len() > 0 ==> r@.len() > 0,
        limit matches Some(n) ==> 1 <= n <= most ==> r@.len() == n || (r@.len() < n && r@.len()
            == log@.len()),
        limit is None && most >= 50 ==> r@.len() == 50 || (r@.len() < 50 && r@.len()
            == log@.len()),
        limit matches Some(n) ==> n > most ==> r@.len() == most || r@.len() == log@.len(),
        0 <= i < r@.len() ==> r@[i].at_ms == log@[log@.len() - 1 - i].at_ms && r@[i].level@
            == log@[log@.len() - 1 - i].level@ && r@[i].msg@ == log@[log@.len() - 1 - i].msg@
            && opt_text(r@[i].repo) == opt_text(log@[log@.len() - 1 - i].repo),
{
    if 0 <= i < r@.len() {
        assert(r@[i]@ == log@[log@.len() - 1 - i]@);
    }
}

/// A series covers the hours that are asked for, six when none are, at least one and no more
/// than a day, in buckets of the minutes that are asked for, ten when none are, at least one
/// and no more than four hours.
pub proof fn law_the_span_of_a_series(
    reads: LatencyRecorder,
    now: u128,
    now_unix_ms: u64,
    hours: Option<u64>,
    minutes: Option<u64>,
    r: LatencySeries,
)
    requires
        call_ensures(latency_series, (&reads, now, now_unix_ms, hours, minutes), r),
    ensures
        hours is None ==> r.hours == 6,
        hours matches Some(h) ==> 1 <= h <= 24 ==> r.hours == h,
        hours matches Some(h) ==> h > 24 ==> r.hours == 24,
        hours == Some(0u64) ==> r.hours == 1,
        minutes is None ==> r.bucket_minutes == 10,
        minutes matches Some(m) ==> 1 <= m <= 240 ==> r.bucket_minutes == m,
        minutes matches Some(m) ==> m > 240 ==> r.bucket_minutes == 240,
        minutes == Some(0u64) ==> r.bucket_minutes == 1,
{
}

/// The buckets of a series are those of the recorder, over its hours and of its minutes.
pub proof fn law_the_buckets_of_a_series(
    reads: LatencyRecorder,
    now: u128,
    now_unix_ms: u64,
    hours: Option<u64>,
    minutes: Option<u64>,
    r: LatencySeries,
    window: u128,
    bucket: u128,
    b: Vec<LatencyBucket>,
    i: int,
)
    requires
        call_ensures(latency_series, (&reads, now, now_unix_ms, hours, minutes), r),
        window == r.hours * 3_600_000_000_000,
        bucket == r.bucket_minutes * 60_000_000_000,
        call_ensures(LatencyRecorder::series_at, (&reads, now, now_unix_ms, window, bucket), b),
    ensures
        r.buckets@.len() == b@.len(),
        0 <= i < b@.len() ==> r.buckets@[i] == b@[i],
{
    assert(window == crate::dashboard::nanos_of(r.hours * 3600));
    assert(bucket == crate::dashboard::nanos_of(r.bucket_minutes * 60));
    if 0 <= i < b@.len() {
        assert(r.buckets@[i] == r.buckets@[i]);
        assert(b@[i] == b@[i]);
    }
}

/// A path is as fresh as its repository: being indexed while its reindex is within its time,
/// which a look does not change.
pub proof fn law_how_fresh_a_path_is(
    s: &mut ServeState,
    repos: Vec<RepoRoot>,
    target: Vec<String>,
    ignore_case: bool,
    now: u64,
    max_secs: u64,
    finished: Vec<String>,
    r: Freshness,
)
    requires
        call_ensures(
            ServeState::freshness_for_path,
            (s, &repos, &target, ignore_case, now, max_secs, &finished),
            r,
        ),
        max_secs > 0,
    ensures
        r.alias is None ==> !r.indexing && !r.cancel_task && final(s)@ == old(s)@,
        r.alias matches Some(a) ==> {
            let since = old(s)@.repo(a@).indexing_since;
            let busy = since is Some && now < since->0 + max_secs * 1_000_000_000;
            &&& r.indexing <==> busy
            &&& r.cancel_task <==> since is Some && !busy && old(s)@.repo(a@).index_task is Some
                && !texts(finished@).contains(a@)
            &&& busy ==> final(s)@ == old(s)@
            &&& since is Some && !busy ==> final(s)@.repo(a@).indexing_since is None
            &&& only_touches(old(s)@, final(s)@, a@)
            &&& exists|i: int| 0 <= i < repos@.len() && (#[trigger] repos@[i]).alias@ == a@
        },
{
    if let Some(a) = r.alias {
        let i = choose|i: int|
            innermost(repos@, texts(target@), ignore_case, i) && (#[trigger] repos@[i]).alias@
                == a@;
        assert(repos@[i].alias@ == a@);
    }
}

/// The names of symbol indices, and the colours of states, are their own.
pub proof fn law_names_and_colours(
    c: CSharpIndexStatus,
    key: &'static str,
    l: RepoStateLabel,
    span: Span,
    name: &'static str,
)
    requires
        call_ensures(CSharpIndexStatus::as_str, (&c,), key),
        call_ensures(RepoStateLabel::colored, (&l,), span),
        call_ensures(RepoStateLabel::name, (&l,), name),
    ensures
        c is Absent ==> key@ == "none"@,
        c is Ready ==> key@ == "ready"@,
        c is Error ==> key@ == "error"@,
        c is Indexing ==> key@ == "indexing"@,
        span.text@ == name@,
        l is Open ==> span.ink is GreenBold,
        l is Warm ==> span.ink is Yellow,
        l is Readonly ==> span.ink is Cyan,
        l is Closed || l is NoIndex ==> span.ink is Dimmed,
        l is Indexing ==> span.ink is MagentaBold,
        l is Error ==> span.ink is RedBold,
{
    assert(span@.text == span.text@ && span@.ink == span.ink);
}

} // verus!
