//! When symbol indices are rebuilt, and what a server does as it starts and reloads.
use crate::config::{RepoEntry, ReposConfig};
use crate::laws::opening::{lemma_stands_between, only_touches};
use crate::startup::{
    bind_address, fd_shortage, fd_target, standalone_check, HealthAnswer, PrewarmFacts,
};
use crate::state::{CSharpIndexStatus, RepoState, RepoView, ServeState, StateView};
use crate::symbols::{
    by_recency, commit_time, csharp_scip_concurrency, due, evaluate_csharp_rebuild, fresh_status,
    is_candidate_extension, is_ignored_dir, prewarm_enabled, prewarms, prunes, rebuild_queue,
    rebuilds, ChangeScan, RebuildCandidate, RebuildDecision, RebuildEnd, RebuildFacts,
    RebuildOutcome, ScanStep,
};
use crate::text::{
    ascii_lower, decimal, law_decimal_round_trip, lemma_decimal_value, occurs_in, opt_text, texts,
};
use vstd::prelude::*;

verus! {

/// A symbol index is rebuilt when there is a solution, the helper is there and none runs, and
/// there is no index or the sources changed after it was built. The last change that was
/// found by looking is told, to be kept.
pub proof fn law_when_symbols_are_rebuilt(
    f: RebuildFacts,
    r: (RebuildDecision, Option<i64>),
    rebuild: bool,
)
    requires
        call_ensures(evaluate_csharp_rebuild, (&f,), r),
        call_ensures(RebuildDecision::needs_rebuild, (r.0,), rebuild),
    ensures
        ({
            let may = f.has_solution && f.helper_available && f.status != Some(
                CSharpIndexStatus::Indexing,
            );
            let changed = match f.last_changed {
                Some(t) => t,
                None => match f.found_change {
                    Some(t) => t,
                    None => f.now,
                },
            };
            let built = match f.last_built {
                Some(t) => t as int,
                None => 0,
            };
            &&& rebuild <==> may && (!f.has_index || changed > built)
            &&& !f.has_solution ==> r.0 is NoSolutionFile
            &&& f.has_solution && !f.helper_available ==> r.0 is HelperUnavailable
            &&& f.has_solution && f.helper_available && !may ==> r.0 is AlreadyInFlight
            &&& may && !f.has_index ==> r.0 is NoIndex
            &&& may && f.has_index && changed > built ==> r.0 is ChangedSinceLastBuild
            &&& may && f.has_index && changed <= built ==> r.0 is Fresh
            &&& r.1 is Some <==> may && f.last_changed is None
            &&& r.1 matches Some(t) ==> t == changed
        }),
{
}

/// As many rebuilds run at once as are set, at least one and at most four.
pub proof fn law_rebuilds_at_once(setting: Option<&str>, default: u64, r: u64, n: u64)
    requires
        call_ensures(csharp_scip_concurrency, (setting, default), r),
    ensures
        1 <= r <= 4,
        setting is None && 1 <= default <= 4 ==> r == default,
        setting matches Some(t) ==> t@ == decimal(n as nat) ==> (n == 0 ==> r == 1) && (1 <= n <= 4
            ==> r == n) && (n > 4 ==> r == 4),
{
    law_decimal_round_trip(n);
}

/// Prewarming is on unless it is switched off.
pub proof fn law_prewarming(setting: Option<&str>, r: bool)
    requires
        call_ensures(prewarm_enabled, (setting,), r),
    ensures
        setting is None ==> r,
        setting matches Some(t) ==> (r <==> t@ != "false"@),
{
}

/// A scan counts each entry, and stops at ten thousand; it enters folders but those that are
/// built or kept by tools, and measures solutions, projects and sources.
pub proof fn law_scanning(
    c: &mut ChangeScan,
    is_dir: bool,
    name: Option<&str>,
    extension: Option<&str>,
    r: ScanStep,
    ignored: bool,
    candidate: bool,
)
    requires
        old(c).scanned <= 10_000,
        call_ensures(ChangeScan::entry, (c, is_dir, name, extension), r),
        name is Some ==> call_ensures(is_ignored_dir, (name->0,), ignored),
        call_ensures(is_candidate_extension, (extension,), candidate),
    ensures
        final(c).best == old(c).best,
        r is Stop <==> old(c).scanned == 10_000,
        !(r is Stop) ==> final(c).scanned == old(c).scanned + 1,
        !(r is Stop) ==> (r is Enter <==> is_dir && (name is None || !ignored)),
        !(r is Stop) ==> (r is Measure <==> !is_dir && candidate),
        name matches Some(n) ==> (ignored <==> n@ == "bin"@ || n@ == "obj"@ || n@
            == "node_modules"@ || n@ == ".git"@ || n@ == ".codesearch.db"@),
        extension is None ==> !candidate,
        extension matches Some(e) ==> (candidate <==> e@ == "sln"@ || e@ == "csproj"@ || e@
            == "cs"@),
{
}

/// The latest of the times that were measured is kept.
pub proof fn law_measuring(c: &mut ChangeScan, secs: i64)
    requires
        call_ensures(ChangeScan::measured, (c, secs), ()),
    ensures
        final(c).scanned == old(c).scanned,
        final(c).best is Some,
        (final(c).best->0) >= secs,
        old(c).best matches Some(b) ==> final(c).best->0 >= b,
        final(c).best == Some(secs) || final(c).best == old(c).best,
{
}

/// A rebuild that begins is marked as one, and so is its repository, unless it is already; it
/// begins where it applies.
pub proof fn law_a_symbol_rebuild_begins(
    s: &mut ServeState,
    alias: &str,
    applies: bool,
    now: u64,
    max_secs: u64,
    r: bool,
)
    requires
        call_ensures(ServeState::symbol_rebuild_begun, (s, alias, applies, now, max_secs), r),
    ensures
        ({
            let before = old(s)@.repo(alias@);
            let after = final(s)@.repo(alias@);
            let since = before.indexing_since;
            let busy = since is Some && now < since->0 + max_secs * 1_000_000_000 && max_secs > 0;
            &&& r == applies
            &&& !applies ==> final(s)@ == old(s)@
            &&& only_touches(old(s)@, final(s)@, alias@)
            &&& applies ==> after.csharp == Some(CSharpIndexStatus::Indexing)
            &&& applies && busy ==> after.indexing_since == since
            &&& applies && !busy ==> after.indexing_since == Some(now)
            &&& after.mode == before.mode && after.csharp_error == before.csharp_error
        }),
{
}

/// A rebuild that succeeded is recorded and clears the error; one that failed keeps its error,
/// and asks for a recovery when the format of the database is corrupt and it was not wiped
/// yet; one that panicked keeps its message. The repository is no longer being indexed.
pub proof fn law_a_symbol_rebuild_ends(
    s: &mut ServeState,
    alias: &str,
    outcome: RebuildOutcome,
    r: RebuildEnd,
)
    requires
        call_ensures(ServeState::symbol_rebuild_finished, (s, alias, outcome), r),
    ensures
        ({
            let before = old(s)@.repo(alias@);
            let after = final(s)@.repo(alias@);
            &&& after.indexing_since is None
            &&& after.mode == before.mode
            &&& final(s)@.config == old(s)@.config
            &&& r.record_build <==> outcome is Succeeded
            &&& outcome is Succeeded ==> after.csharp == Some(CSharpIndexStatus::Ready)
                && after.csharp_error is None && !r.start_worker && final(s)@.queue
                == old(s)@.queue
            &&& outcome matches RebuildOutcome::Failed(msg) ==> after.csharp_error == Some(msg@)
            &&& outcome matches RebuildOutcome::Failed(msg) ==> occurs_in(
                "mdb_bad_valsize"@,
                ascii_lower(msg@),
            ) && !before.wiped ==> after.csharp == Some(CSharpIndexStatus::Indexing) && final(s)@.queue.contains(alias@) && (old(s)@.queue.len() == 0 ==> final(s)@.worker)
            &&& outcome matches RebuildOutcome::Failed(msg) ==> before.wiped ==> after.csharp
                == Some(CSharpIndexStatus::Error) && final(s)@.queue == old(s)@.queue
            &&& outcome matches RebuildOutcome::Panicked(msg) ==> after.csharp == Some(
                CSharpIndexStatus::Error,
            ) && after.csharp_error is Some && occurs_in(msg@, after.csharp_error->0)
                && final(s)@.queue == old(s)@.queue
        }),
        old(s)@.queue.len() > 0 ==> old(s)@.worker ==> r.start_worker == false,
{
    if let RebuildOutcome::Panicked(msg) = outcome {
        lemma_stands_between("Task panicked: "@, msg@, Seq::empty());
        assert("Task panicked: "@ + msg@ + Seq::<char>::empty() =~= "Task panicked: "@ + msg@);
    }
    if let RebuildOutcome::Failed(msg) = outcome {
        let q = old(s)@.queue;
        if !q.contains(alias@) {
            assert(q.push(alias@)[q.len() as int] == alias@);
        }
    }
}

/// Prewarming shows as indexing while it runs, and as ready behind it.
pub proof fn law_prewarming_shows(s: &mut ServeState, alias: &str, running: bool)
    requires
        call_ensures(ServeState::prewarm_status, (s, alias, running), ()),
    ensures
        only_touches(old(s)@, final(s)@, alias@),
        running ==> final(s)@.repo(alias@).csharp == Some(CSharpIndexStatus::Indexing),
        !running ==> final(s)@.repo(alias@).csharp == Some(CSharpIndexStatus::Ready),
        final(s)@.repo(alias@).indexing_since == old(s)@.repo(alias@).indexing_since,
        final(s)@.repo(alias@).mode == old(s)@.repo(alias@).mode,
{
}

/// Those wait to be rebuilt that need it, the one that changed last first.
pub proof fn law_the_order_of_rebuilds(candidates: Vec<RebuildCandidate>, r: Vec<String>, i: int)
    requires
        call_ensures(rebuild_queue, (&candidates,), r),
        0 <= i < r@.len(),
    ensures
        exists|k: int|
            0 <= k < candidates@.len() && (#[trigger] candidates@[k]).alias@ == r@[i]@ && (
            candidates@[k].decision is NoIndex || candidates@[k].decision
                is ChangedSinceLastBuild),
        r@.len() == candidates@.filter(
            |c: RebuildCandidate| c.decision is NoIndex || c.decision is ChangedSinceLastBuild,
        ).len(),
        i + 1 < r@.len() ==> exists|k: int, l: int|
            0 <= k < candidates@.len() && 0 <= l < candidates@.len() && (
            #[trigger] candidates@[k]).alias@ == r@[i]@ && (#[trigger] candidates@[l]).alias@
                == r@[i + 1]@ && candidates@[k].last_changed >= candidates@[l].last_changed,
{
    let f = |x: RebuildCandidate| rebuilds(x.decision);
    let list = due(candidates@);
    crate::laws::scraping::lemma_sifted_alike(
        candidates@,
        f,
        |c: RebuildCandidate| c.decision is NoIndex || c.decision is ChangedSinceLastBuild,
    );
    let order = choose|order: Seq<usize>| #[trigger]
        by_recency(list, order) && texts(r@) == Seq::new(
            order.len(),
            |i: int| list[order[i] as int].alias@,
        );
    assert(texts(r@).len() == r@.len());
    let x = order[i] as int;
    assert(texts(r@)[i] == r@[i]@);
    candidates@.lemma_filter_pred(f, x);
    assert(list.contains(list[x]));
    candidates@.lemma_filter_contains_rev(f, list[x]);
    let k = choose|k: int| 0 <= k < candidates@.len() && candidates@[k] == list[x];
    assert(candidates@[k].alias@ == r@[i]@);
    if i + 1 < r@.len() {
        let y = order[i + 1] as int;
        assert(texts(r@)[i + 1] == r@[i + 1]@);
        candidates@.lemma_filter_pred(f, y);
        assert(list.contains(list[y]));
        candidates@.lemma_filter_contains_rev(f, list[y]);
        let l = choose|l: int| 0 <= l < candidates@.len() && candidates@[l] == list[y];
        assert(candidates@[l].alias@ == r@[i + 1]@);
        assert(order[i] == x && order[i + 1] == y);
    }
}

/// What is up to date shows as ready, unless something else is known; what is ready, there and
/// applies is prewarmed; what is not registered, or has lost its path or its database, is
/// pruned.
pub proof fn law_small_decisions(
    cached: Option<CSharpIndexStatus>,
    a: CSharpIndexStatus,
    path: bool,
    applies: bool,
    b: bool,
    resolved: bool,
    db: bool,
    c: bool,
)
    requires
        call_ensures(fresh_status, (cached,), a),
        call_ensures(prewarms, (path, cached, applies), b),
        call_ensures(prunes, (resolved, db, path), c),
    ensures
        cached is None || cached == Some(CSharpIndexStatus::Absent) ==> a is Ready,
        cached is Some && cached != Some(CSharpIndexStatus::Absent) ==> Some(a) == cached,
        b <==> path && cached == Some(CSharpIndexStatus::Ready) && applies,
        c <==> !resolved || !db || !path,
{
}

/// A time that is printed is read, with its sign.
pub proof fn law_printed_times(printed: &str, r: Option<i64>, n: u64)
    requires
        call_ensures(commit_time, (printed,), r),
        crate::text::trimmed(printed@) == decimal(n as nat),
    ensures
        n <= i64::MAX ==> r == Some(n as i64),
        n > i64::MAX ==> r is None,
{
    lemma_decimal_value(n as nat);
    lemma_no_sign(n as nat);
}

proof fn lemma_no_sign(n: nat)
    ensures
        decimal(n).len() > 0,
        decimal(n)[0] != '-',
        decimal(n)[0] != '+',
    decreases n,
{
    lemma_decimal_value(n);
    assert(crate::text::all_digits(decimal(n)));
}

/// The limit of open files is raised as far as it may be, and only when that is further than
/// it is; too few for the repositories are told.
pub proof fn law_open_files(
    soft: u64,
    hard: u64,
    system: Option<u64>,
    r: Option<u64>,
    repos: u64,
    short: Option<u64>,
)
    requires
        repos * 20 + 256 <= u64::MAX,
        call_ensures(fd_target, (soft, hard, system), r),
        call_ensures(fd_shortage, (soft, repos), short),
    ensures
        r matches Some(t) ==> soft < t <= hard && (t == hard || system == Some(t)),
        system is None && soft < hard ==> r == Some(hard),
        system matches Some(s) ==> soft < hard <= s ==> r == Some(hard),
        system matches Some(s) ==> soft < s < hard ==> r == Some(s),
        soft >= hard ==> r is None,
        short is Some <==> soft < 256 + 20 * repos,
        short matches Some(n) ==> n == 256 + 20 * repos,
{
}

/// A server that answers may be used; one that refuses, fails or is not there may not, and its
/// URL is told.
pub proof fn law_answers_of_a_server(
    url: &str,
    key: bool,
    answer: HealthAnswer,
    r: Result<(), String>,
)
    requires
        call_ensures(standalone_check, (url, key, answer), r),
    ensures
        r is Ok <==> answer is Success,
        r matches Err(e) ==> occurs_in(url@, e@),
{
    lemma_stands_between(
        "Error: Serve at "@,
        url@,
        " rejected the configured API key (401 Unauthorized)."@,
    );
    lemma_stands_between(
        "Error: Serve at "@,
        url@,
        " requires an API key — none configured for this URL. Register it with `codesearch remote add` or pass `--api-key`."@,
    );
    lemma_stands_between("Error: Serve at "@, url@, " returned an error. Is it running?"@);
    lemma_stands_between("Error: No serve running at "@, url@, ". Start with: codesearch serve"@);
}

/// A server listens at its host and its port.
pub proof fn law_bind_addresses(host: &str, port: u16, r: String)
    requires
        call_ensures(bind_address, (host, port), r),
    ensures
        r@ == host@ + ":"@ + decimal(port as nat),
{
}

/// A configuration that was read takes the place of the old one: a repository that it does not
/// list any more is closed, with its watcher, and told if it could be written; all others are
/// as they were. Without one nothing changes but its stamp.
pub proof fn law_reloading(
    s: &mut ServeState,
    observed: Option<u128>,
    loaded: Option<ReposConfig>,
    r: Vec<String>,
    a: Seq<char>,
)
    requires
        call_ensures(ServeState::config_read, (s, observed, loaded), r),
    ensures
        final(s)@.config_stamp == observed,
        final(s)@.queue == old(s)@.queue,
        final(s)@.peers == old(s)@.peers,
        loaded is None ==> r@.len() == 0 && final(s)@.config == old(s)@.config && final(s)@.repo(a) == old(s)@.repo(a),
        loaded matches Some(new) ==> {
            let gone = old(s)@.config.resolve(a) is Some && new@.resolve(a) is None;
            &&& final(s)@.config == new@
            &&& !gone ==> final(s)@.repo(a) == old(s)@.repo(a)
            &&& gone ==> final(s)@.repo(a).mode is None && !final(s)@.repo(a).watcher
                && final(s)@.repo(a).tool_calls == old(s)@.repo(a).tool_calls
            &&& texts(r@).contains(a) <==> gone && old(s)@.repo(a).mode == Some(RepoState::Write)
        },
{
    crate::config::lemma_path_in_names(old(s)@.config.repos, a);
    if let Some(new) = loaded {
        assert(final(s)@.repo(a) == old(s)@.kept_under(new@, a));
        assert(texts(r@).contains(a) <==> old(s)@.drops(new@, a) && old(s)@.repo(a).mode == Some(
            RepoState::Write,
        ));
    }
}

/// A pruned repository is closed and forgotten; the others stay registered and as they were.
pub proof fn law_pruning(s: &mut ServeState, alias: &str, r: bool, other: Seq<char>)
    requires
        call_ensures(ServeState::prune, (s, alias), r),
        other != alias@,
    ensures
        r <==> old(s)@.config.resolve(alias@) is Some,
        final(s)@.config.resolve(alias@) is None,
        final(s)@.repo(alias@).mode is None,
        final(s)@.repo(alias@).last_access is None,
        !final(s)@.repo(alias@).watcher,
        final(s)@.config.resolve(other) == old(s)@.config.resolve(other),
        final(s)@.repo(other) == old(s)@.repo(other),
{
    crate::config::law_unregister(old(s)@.config, alias@);
    assert(old(s)@.config.without(alias@).resolve(other) == old(s)@.config.resolve(other));
}

/// What waits for a rebuild shows as being indexed, and nothing else changes.
pub proof fn law_queued_rebuilds_show(s: &mut ServeState, aliases: Vec<String>, a: Seq<char>)
    requires
        call_ensures(ServeState::mark_queued, (s, &aliases), ()),
    ensures
        final(s)@.config == old(s)@.config,
        texts(aliases@).contains(a) ==> final(s)@.repo(a).csharp == Some(
            CSharpIndexStatus::Indexing,
        ) && final(s)@.repo(a).mode == old(s)@.repo(a).mode && final(s)@.repo(a).indexing_since
            == old(s)@.repo(a).indexing_since,
        !texts(aliases@).contains(a) ==> final(s)@.repo(a) == old(s)@.repo(a),
{
    assert(final(s)@.repo(a) == final(s)@.repo(a));
}

/// An index that is up to date shows as ready, unless something else is known of it.
pub proof fn law_fresh_symbols_show(s: &mut ServeState, alias: &str)
    requires
        call_ensures(ServeState::symbol_index_fresh, (s, alias), ()),
    ensures
        only_touches(old(s)@, final(s)@, alias@),
        old(s)@.repo(alias@).csharp is None || old(s)@.repo(alias@).csharp == Some(
            CSharpIndexStatus::Absent,
        ) ==> final(s)@.repo(alias@).csharp == Some(CSharpIndexStatus::Ready),
        old(s)@.repo(alias@).csharp is Some && old(s)@.repo(alias@).csharp != Some(
            CSharpIndexStatus::Absent,
        ) ==> final(s)@.repo(alias@) == old(s)@.repo(alias@),
{
}

/// Those are prewarmed that are registered, there, ready and to which it applies.
pub proof fn law_what_is_prewarmed(
    s: ServeState,
    facts: Vec<PrewarmFacts>,
    r: Vec<String>,
    i: int,
    k: int,
)
    requires
        call_ensures(ServeState::prewarm_candidates, (&s, &facts), r),
    ensures
        0 <= i < r@.len() ==> exists|k: int|
            0 <= k < facts@.len() && (#[trigger] facts@[k]).alias@ == r@[i]@
                && s@.config.resolve(r@[i]@) is Some && facts@[k].path_exists && facts@[k].applies
                && s@.repo(r@[i]@).csharp == Some(CSharpIndexStatus::Ready),
        0 <= k < facts@.len() && s@.config.resolve(facts@[k].alias@) is Some
            && facts@[k].path_exists && facts@[k].applies && s@.repo(facts@[k].alias@).csharp
            == Some(CSharpIndexStatus::Ready) ==> texts(r@).contains(facts@[k].alias@),
{
    let f = |f: PrewarmFacts| ServeState::is_prewarmed(s@, f);
    let kept = facts@.filter(f);
    let names = kept.map_values(|f: PrewarmFacts| f.alias@);
    assert(texts(r@) == names);
    assert(texts(r@).len() == r@.len());
    if 0 <= i < r@.len() {
        assert(texts(r@)[i] == r@[i]@);
        facts@.lemma_filter_pred(f, i);
        assert(kept.contains(kept[i]));
        facts@.lemma_filter_contains_rev(f, kept[i]);
        let k = choose|k: int| 0 <= k < facts@.len() && facts@[k] == kept[i];
        assert(facts@[k].alias@ == r@[i]@);
    }
    if 0 <= k < facts@.len() && f(facts@[k]) {
        facts@.lemma_filter_contains(f, k);
        let x = choose|x: int| 0 <= x < kept.len() && kept[x] == facts@[k];
        assert(names[x] == facts@[k].alias@);
    }
}

} // verus!
