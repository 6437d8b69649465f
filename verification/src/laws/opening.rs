//! Opening, handing out, evicting and closing the stores of a repository.
use crate::lifecycle::{
    conflicted_msg, evicted_names, first_open_step, needs_build, open_dimensions,
    unknown_alias_msg, write_open_failed, CachedStores, OpenPlan, OpenStep, OpenedStores, Reaped, StopWatcher,
};
use crate::state::{RepoState, RepoView, ServeState, StateView};
use crate::text::{occurs_at, occurs_in, opt_text, texts};
use vstd::prelude::*;

verus! {

/// Whether a step changes nothing but what is kept of `alias`.
pub open spec fn only_touches(before: StateView, after: StateView, alias: Seq<char>) -> bool {
    &&& forall|other: Seq<char>| other != alias ==> #[trigger] after.repo(other) == before.repo(other)
    &&& after.config == before.config
    &&& after.peers == before.peers
    &&& after.queue == before.queue
    &&& after.worker == before.worker
    &&& after.active_sessions == before.active_sessions
    &&& after.total_sessions == before.total_sessions
    &&& after.persist_deadline == before.persist_deadline
    &&& after.persist_worker == before.persist_worker
    &&& after.config_stamp == before.config_stamp
}

/// Whether the counters, the tasks and the marks of a repository are as they were.
pub open spec fn same_history(a: RepoView, b: RepoView) -> bool {
    &&& a.indexing_since == b.indexing_since
    &&& a.index_task == b.index_task
    &&& a.wiped == b.wiped
    &&& a.changes == b.changes
    &&& a.last_tool == b.last_tool
    &&& a.tool_calls == b.tool_calls
    &&& a.legacy_warned == b.legacy_warned
}

/// Open stores of a registered repository are handed out to every query: written to, warm or
/// read-only, and whether the query counts or not. A watcher is started for a query that counts
/// on a warm repository, and for no other.
pub proof fn law_open_stores_are_handed_out(
    s: &mut ServeState,
    alias: &str,
    touch: bool,
    now: u64,
    r: CachedStores,
)
    requires
        call_ensures(ServeState::lookup_stores, (s, alias, touch, now), r) || call_ensures(
            ServeState::try_cached_stores,
            (s, alias, touch, now),
            r,
        ),
        old(s)@.config.resolve(alias@) is Some,
        old(s)@.repo(alias@).mode == Some(RepoState::Write) || old(s)@.repo(alias@).mode == Some(
            RepoState::Warm,
        ) || old(s)@.repo(alias@).mode == Some(RepoState::Readonly),
    ensures
        r is Hit,
        r->start_watcher <==> touch && old(s)@.repo(alias@).mode == Some(RepoState::Warm),
        touch ==> final(s)@.repo(alias@).last_access == Some(now),
        !touch ==> final(s)@.repo(alias@) == old(s)@.repo(alias@),
        final(s)@.repo(alias@).mode == (if r->start_watcher {
            Some(RepoState::Write)
        } else {
            old(s)@.repo(alias@).mode
        }),
        r->start_watcher ==> final(s)@.repo(alias@).watcher,
        !r->start_watcher ==> final(s)@.repo(alias@).watcher == old(s)@.repo(alias@).watcher,
        same_history(final(s)@.repo(alias@), old(s)@.repo(alias@)),
        final(s)@.repo(alias@).csharp == old(s)@.repo(alias@).csharp,
        only_touches(old(s)@, final(s)@, alias@),
{
}

/// A query is refused only for a repository in conflict, or for a warm one that is not
/// registered any more; the refusal names it. What is closed is a miss, and a lookup takes a
/// conflict for closed.
pub proof fn law_when_a_query_is_refused(
    s: &mut ServeState,
    alias: &str,
    touch: bool,
    now: u64,
    r: CachedStores,
)
    requires
        call_ensures(ServeState::try_cached_stores, (s, alias, touch, now), r),
    ensures
        r is Refused <==> old(s)@.repo(alias@).mode == Some(RepoState::Conflicted) || (old(s)@.repo(
            alias@,
        ).mode == Some(RepoState::Warm) && touch && old(s)@.config.resolve(alias@) is None),
        r is Miss <==> old(s)@.repo(alias@).mode is None,
        r is Miss ==> final(s)@ == old(s)@,
        r is Refused ==> occurs_in(alias@, r->Refused_0@),
        only_touches(old(s)@, final(s)@, alias@),
{
    if r is Refused {
        let e = r->Refused_0@;
        if old(s)@.repo(alias@).mode == Some(RepoState::Conflicted) {
            lemma_stands_between(
                "Repo '"@,
                alias@,
                "' is currently locked by another codesearch process with write access. Stop that process (or let it finish) and retry. If you only need read access, the next query will retry automatically."@,
            );
        } else {
            lemma_stands_between("Unknown alias '"@, alias@, "'"@);
        }
    }
}

/// A lookup never replays a conflict: what is in conflict, or closed, has to be opened.
pub proof fn law_lookup_retries_a_conflict(
    s: &mut ServeState,
    alias: &str,
    touch: bool,
    now: u64,
    r: CachedStores,
)
    requires
        call_ensures(ServeState::lookup_stores, (s, alias, touch, now), r),
        old(s)@.repo(alias@).mode is None || old(s)@.repo(alias@).mode == Some(
            RepoState::Conflicted,
        ),
    ensures
        r is Miss,
        final(s)@.repo(alias@).mode is None,
        final(s)@.repo(alias@).last_access == old(s)@.repo(alias@).last_access,
        only_touches(old(s)@, final(s)@, alias@),
{
}

/// `middle` stands in a text between two others.
pub proof fn lemma_stands_between(before: Seq<char>, middle: Seq<char>, after: Seq<char>)
    ensures
        occurs_in(middle, before + middle + after),
{
    let all = before + middle + after;
    let at = before.len() as int;
    assert(all.subrange(at, at + middle.len()) =~= middle);
    assert(occurs_at(all, middle, at));
}

/// A store that was opened for reading is handed out by the next lookup, without a watcher; a
/// store that could not be opened is refused with the alias, and the next lookup tries again.
pub proof fn law_readonly_stores_are_handed_out(
    s: &mut ServeState,
    t: &mut ServeState,
    alias: &str,
    opened: bool,
    touch: bool,
    now: u64,
    first: Result<OpenedStores, String>,
    second: CachedStores,
)
    requires
        call_ensures(ServeState::readonly_open_finished, (s, alias, opened), first),
        old(t)@ == final(s)@,
        call_ensures(ServeState::lookup_stores, (t, alias, touch, now), second),
    ensures
        first is Ok <==> opened,
        opened ==> second is Hit && !second->start_watcher,
        opened ==> first->Ok_0 == OpenedStores::Readonly,
        !opened ==> second is Miss && occurs_in(alias@, first->Err_0@),
        only_touches(old(s)@, final(s)@, alias@),
        final(s)@.repo(alias@).last_access == old(s)@.repo(alias@).last_access,
        final(s)@.repo(alias@).watcher == old(s)@.repo(alias@).watcher,
        same_history(final(s)@.repo(alias@), old(s)@.repo(alias@)),
{
    lemma_stands_between(
        "Repo '"@,
        alias@,
        "' is currently locked by another codesearch process with write access. Stop that process (or let it finish) and retry. If you only need read access, the next query will retry automatically."@,
    );
}

/// What a query opened is handed out by the next lookup: a store opened for writing is written
/// to for a query that counts and warm for any other; one opened for reading stays so. The idle
/// timer starts with the query.
pub proof fn law_a_query_leaves_its_stores_open(
    s: &mut ServeState,
    t: &mut ServeState,
    alias: &str,
    opened: OpenedStores,
    touch: bool,
    watching: bool,
    now: u64,
    later: u64,
    next: CachedStores,
)
    requires
        call_ensures(
            ServeState::query_open_finished,
            (s, alias, opened, touch, watching, now),
            (),
        ),
        old(t)@ == final(s)@,
        call_ensures(ServeState::lookup_stores, (t, alias, false, later), next),
    ensures
        final(s)@.repo(alias@).last_access == Some(now),
        opened == OpenedStores::Write ==> next is Hit && final(s)@.repo(alias@).mode == Some(
            if touch {
                RepoState::Write
            } else {
                RepoState::Warm
            },
        ),
        opened == OpenedStores::Readonly ==> final(s)@.repo(alias@).mode == old(s)@.repo(
            alias@,
        ).mode && final(s)@.repo(alias@).watcher == old(s)@.repo(alias@).watcher,
        opened == OpenedStores::Write && touch && watching ==> final(s)@.repo(alias@).watcher,
        !watching ==> final(s)@.repo(alias@).watcher == old(s)@.repo(alias@).watcher,
        same_history(final(s)@.repo(alias@), old(s)@.repo(alias@)),
        only_touches(old(s)@, final(s)@, alias@),
{
}

/// Warming up opens what is closed and nothing else: it is needed for what is closed, refused
/// for what is in conflict, and leaves a repository warm when it can be written to.
pub proof fn law_warming_up(
    s: &mut ServeState,
    alias: &str,
    opened: OpenedStores,
    now: u64,
    needed: Result<bool, String>,
)
    requires
        call_ensures(ServeState::warmup_needed, (&*s, alias), needed),
        call_ensures(ServeState::warmup_finished, (s, alias, opened, now), ()),
    ensures
        old(s)@.repo(alias@).mode is None <==> needed == Ok::<bool, String>(true),
        old(s)@.repo(alias@).mode == Some(RepoState::Conflicted) <==> needed is Err,
        opened == OpenedStores::Write ==> final(s)@.repo(alias@).mode == Some(RepoState::Warm),
        opened == OpenedStores::Readonly ==> final(s)@.repo(alias@).mode == old(s)@.repo(alias@).mode,
        final(s)@.repo(alias@).last_access == Some(now),
        final(s)@.repo(alias@).watcher == old(s)@.repo(alias@).watcher,
        same_history(final(s)@.repo(alias@), old(s)@.repo(alias@)),
        only_touches(old(s)@, final(s)@, alias@),
{
}

/// What is open, and how, is told as it is: opened stores are those that are not closed and not
/// in conflict, and each way of being open has a name of its own.
pub proof fn law_lock_status_tells_the_mode(
    s: ServeState,
    alias: &str,
    r: Option<&'static str>,
    open: bool,
)
    requires
        call_ensures(ServeState::repo_lock_status, (&s, alias), r),
        call_ensures(ServeState::has_opened_stores, (&s, alias), open),
    ensures
        r is None <==> s@.repo(alias@).mode is None,
        s@.repo(alias@).mode == Some(RepoState::Write) ==> r->0@ == "write"@ && open,
        s@.repo(alias@).mode == Some(RepoState::Warm) ==> r->0@ == "warm"@ && open,
        s@.repo(alias@).mode == Some(RepoState::Readonly) ==> r->0@ == "readonly"@ && open,
        s@.repo(alias@).mode == Some(RepoState::Conflicted) ==> r->0@ == "conflicted"@ && !open,
        s@.repo(alias@).mode is None ==> !open,
{
}

/// A repository is opened at the path that it is registered with, read-only when it is marked
/// so; an alias that is not registered is refused by name.
pub proof fn law_the_plan_is_the_registration(
    s: ServeState,
    alias: &str,
    r: Result<OpenPlan, String>,
)
    requires
        call_ensures(ServeState::open_plan, (&s, alias), r),
    ensures
        r is Ok <==> s@.config.resolve(alias@) is Some,
        r matches Ok(p) ==> Some(p.path@) == s@.config.resolve(alias@),
        r matches Ok(p) ==> p.force_readonly == s@.config.is_read_only(alias@),
        r matches Err(e) ==> occurs_in(alias@, e@),
{
    lemma_stands_between("Unknown alias '"@, alias@, "'"@);
}

/// A database that is not there is only opened by a caller that may create it, and one that
/// another writer owns is only opened for reading. A store that cannot be written to is read
/// instead, unless the caller wants to write.
pub proof fn law_steps_of_opening(
    db_exists: bool,
    allow_create: bool,
    force_readonly: bool,
    db_path: &str,
    parent: &str,
    first: OpenStep,
    alias: &str,
    error: &str,
    second: OpenStep,
)
    requires
        call_ensures(
            first_open_step,
            (db_exists, allow_create, force_readonly, db_path, parent),
            first,
        ),
        call_ensures(write_open_failed, (alias, allow_create, error), second),
    ensures
        first is TryWrite ==> (db_exists || allow_create) && !force_readonly,
        first is TryReadonly ==> (db_exists || allow_create) && force_readonly,
        first is Refuse ==> !db_exists && !allow_create && occurs_in(db_path@, first->Refuse_0@)
            && occurs_in(parent@, first->Refuse_0@),
        second is Refuse <==> allow_create,
        second is Refuse ==> occurs_in(alias@, second->Refuse_0@) && occurs_in(
            error@,
            second->Refuse_0@,
        ),
        second is TryReadonly <==> !allow_create,
{
    if first is Refuse {
        let e = first->Refuse_0@;
        let a = "Database not found at "@;
        let b =
            ". This usually means the repo was removed externally. Run `codesearch index add "@;
        let c = "` to recreate, or `codesearch index rm "@;
        let d = "` to clean up the config entry."@;
        assert(e =~= a + db_path@ + (b + parent@ + c + parent@ + d));
        lemma_stands_between(a, db_path@, b + parent@ + c + parent@ + d);
        assert(e =~= (a + db_path@ + b) + parent@ + (c + parent@ + d));
        lemma_stands_between(a + db_path@ + b, parent@, c + parent@ + d);
    }
    if second is Refuse {
        let e = second->Refuse_0@;
        let a = "Failed to open/create database for "@;
        assert(e =~= a + alias@ + (": "@ + error@));
        lemma_stands_between(a, alias@, ": "@ + error@);
        assert(e =~= (a + alias@ + ": "@) + error@ + Seq::empty());
        lemma_stands_between(a + alias@ + ": "@, error@, Seq::empty());
    }
}

/// A store is opened with the dimensions that are asked for, or else those on record, or else
/// the usual ones. An index is built when there are chunks and it is not there.
pub proof fn law_what_a_store_is_opened_with(
    given: Option<usize>,
    recorded: Option<usize>,
    default: usize,
    dimensions: usize,
    chunks: usize,
    indexed: bool,
    build: bool,
)
    requires
        call_ensures(open_dimensions, (given, recorded, default), dimensions),
        call_ensures(needs_build, (chunks, indexed), build),
    ensures
        given is Some ==> given == Some(dimensions),
        given is None && recorded is Some ==> recorded == Some(dimensions),
        given is None && recorded is None ==> dimensions == default,
        build ==> chunks > 0 && !indexed,
        !build ==> chunks == 0 || indexed,
{
}

/// A repository whose last access lies less than the idle time before the round is not evicted:
/// it keeps its mode, its last access and its watcher. So does one that was never accessed.
pub proof fn law_a_recent_repository_is_kept(
    s: &mut ServeState,
    now: u64,
    idle_secs: u64,
    max_secs: u64,
    finished: &Vec<String>,
    r: Reaped,
    a: Seq<char>,
)
    requires
        call_ensures(
            ServeState::evict_idle_repos,
            (s, now, idle_secs, max_secs, finished),
            r,
        ),
        match old(s)@.repo(a).last_access {
            Some(at) => now < at + idle_secs * 1_000_000_000 && idle_secs > 0,
            None => true,
        },
    ensures
        !evicted_names(r.evicted@).contains(a),
        forall|i: int| 0 <= i < r.evicted@.len() ==> (#[trigger] r.evicted@[i]).alias@ != a,
        final(s)@.repo(a).mode == old(s)@.repo(a).mode,
        final(s)@.repo(a).last_access == old(s)@.repo(a).last_access,
        final(s)@.repo(a).watcher == old(s)@.repo(a).watcher,
        final(s)@.repo(a).csharp == old(s)@.repo(a).csharp,
        final(s)@.repo(a).csharp_error == old(s)@.repo(a).csharp_error,
{
    assert forall|i: int| 0 <= i < r.evicted@.len() implies (#[trigger] r.evicted@[i]).alias@
        != a by {
        assert(evicted_names(r.evicted@)[i] == r.evicted@[i].alias@);
        if r.evicted@[i].alias@ == a {
            assert(evicted_names(r.evicted@).contains(a));
        }
    }
}

/// A repository that was last accessed the idle time ago or earlier is evicted, unless it is
/// being indexed: it is closed, its timer and its watcher are gone. The token of the watcher is
/// cancelled exactly for one that was written to.
pub proof fn law_an_idle_repository_is_evicted(
    s: &mut ServeState,
    now: u64,
    idle_secs: u64,
    max_secs: u64,
    finished: &Vec<String>,
    r: Reaped,
    a: Seq<char>,
    at: u64,
)
    requires
        call_ensures(
            ServeState::evict_idle_repos,
            (s, now, idle_secs, max_secs, finished),
            r,
        ),
        old(s)@.repo(a).last_access == Some(at),
        now >= at + idle_secs * 1_000_000_000,
        match old(s)@.repo(a).indexing_since {
            Some(since) => now >= since + max_secs * 1_000_000_000,
            None => true,
        },
    ensures
        final(s)@.repo(a).mode is None,
        final(s)@.repo(a).last_access is None,
        !final(s)@.repo(a).watcher,
        final(s)@.repo(a).csharp is None,
        final(s)@.repo(a).csharp_error is None,
        final(s)@.repo(a).indexing_since is None,
        final(s)@.repo(a).changes == old(s)@.repo(a).changes,
        final(s)@.repo(a).tool_calls == old(s)@.repo(a).tool_calls,
        final(s)@.repo(a).last_tool == old(s)@.repo(a).last_tool,
        final(s)@.repo(a).wiped == old(s)@.repo(a).wiped,
        exists|i: int|
            0 <= i < r.evicted@.len() && (#[trigger] r.evicted@[i]).alias@ == a
                && r.evicted@[i].cancel_watcher == (old(s)@.repo(a).mode == Some(RepoState::Write)),
        forall|i: int|
            0 <= i < r.evicted@.len() && (#[trigger] r.evicted@[i]).alias@ == a && r.evicted@[i].leaked_task
                ==> old(s)@.repo(a).index_task is Some && !texts(finished@).contains(a),
{
    assert(evicted_names(r.evicted@).contains(a));
    let i = choose|i: int| 0 <= i < evicted_names(r.evicted@).len() && evicted_names(r.evicted@)[i] == a;
    assert(r.evicted@[i].alias@ == a);
    assert(r.evicted@[i].cancel_watcher == (old(s)@.repo(a).mode == Some(RepoState::Write)));
}

/// A repository that is being indexed is not evicted, however long it has been idle, and a round
/// touches nothing but what is kept of repositories.
pub proof fn law_a_round_spares_what_is_indexed(
    s: &mut ServeState,
    now: u64,
    idle_secs: u64,
    max_secs: u64,
    finished: &Vec<String>,
    r: Reaped,
    a: Seq<char>,
    since: u64,
)
    requires
        call_ensures(
            ServeState::evict_idle_repos,
            (s, now, idle_secs, max_secs, finished),
            r,
        ),
        old(s)@.repo(a).indexing_since == Some(since),
        since <= now < since + max_secs * 1_000_000_000,
    ensures
        !evicted_names(r.evicted@).contains(a),
        !texts(r.cancel_tasks@).contains(a),
        final(s)@.repo(a) == old(s)@.repo(a),
        final(s)@.config == old(s)@.config,
        final(s)@.peers == old(s)@.peers,
        final(s)@.queue == old(s)@.queue,
        final(s)@.active_sessions == old(s)@.active_sessions,
{
}

/// Closing leaves nothing open and nothing cached, and tells whether anything was open.
pub proof fn law_closing_closes(s: &mut ServeState, alias: &str, r: bool)
    requires
        call_ensures(ServeState::close_repo, (s, alias), r),
    ensures
        r <==> old(s)@.repo(alias@).mode is Some,
        final(s)@.repo(alias@).mode is None,
        final(s)@.repo(alias@).csharp is None,
        final(s)@.repo(alias@).csharp_error is None,
        final(s)@.repo(alias@).last_access == old(s)@.repo(alias@).last_access,
        final(s)@.repo(alias@).watcher == old(s)@.repo(alias@).watcher,
        same_history(final(s)@.repo(alias@), old(s)@.repo(alias@)),
        only_touches(old(s)@, final(s)@, alias@),
{
}

/// Stopping the watcher keeps a store that can be written to, and cancels the token of one that
/// is; anything else that was open is closed, so that it can be opened for writing.
pub proof fn law_stopping_the_watcher(s: &mut ServeState, alias: &str, r: StopWatcher)
    requires
        call_ensures(ServeState::stop_fsw, (s, alias), r),
    ensures
        r is Open <==> old(s)@.repo(alias@).mode == Some(RepoState::Write) || old(s)@.repo(
            alias@,
        ).mode == Some(RepoState::Warm),
        r is Open ==> r->cancel_watcher == (old(s)@.repo(alias@).mode == Some(RepoState::Write)),
        r is Open ==> final(s)@ == old(s)@,
        r is NotOpen ==> final(s)@.repo(alias@).mode is None,
        only_touches(old(s)@, final(s)@, alias@),
        same_history(final(s)@.repo(alias@), old(s)@.repo(alias@)),
{
}

/// A watcher that was restarted is there, and a repository that is open is then written to; one
/// that was closed stays closed. A watcher that is gone is told once.
pub proof fn law_watchers_come_and_go(
    s: &mut ServeState,
    t: &mut ServeState,
    u: &mut ServeState,
    alias: &str,
    had: bool,
    again: bool,
)
    requires
        call_ensures(ServeState::watcher_restarted, (s, alias), ()),
        old(t)@ == final(s)@,
        call_ensures(ServeState::watcher_gone, (t, alias), had),
        old(u)@ == final(t)@,
        call_ensures(ServeState::watcher_gone, (u, alias), again),
    ensures
        had,
        !again,
        final(s)@.repo(alias@).mode is Some <==> old(s)@.repo(alias@).mode is Some,
        final(s)@.repo(alias@).mode is Some ==> final(s)@.repo(alias@).mode == Some(RepoState::Write),
        final(t)@.repo(alias@).mode == final(s)@.repo(alias@).mode,
        same_history(final(t)@.repo(alias@), old(s)@.repo(alias@)),
        final(t)@.repo(alias@).last_access == old(s)@.repo(alias@).last_access,
        only_touches(old(s)@, final(t)@, alias@),
{
}

/// A background task goes on while its token lives and its repository is registered; a
/// directory may be deleted only when the repository is not registered; the watcher is
/// restarted where the repository is registered.
pub proof fn law_background_tasks_follow_the_registration(
    s: ServeState,
    alias: &str,
    cancelled: bool,
    live: bool,
    clean: bool,
    path: Option<String>,
)
    requires
        call_ensures(ServeState::is_alias_live, (&s, alias, cancelled), live),
        call_ensures(ServeState::self_clean_if_unregistered, (&s, alias), clean),
        call_ensures(ServeState::restart_path, (&s, alias), path),
    ensures
        live ==> !cancelled && s@.config.resolve(alias@) is Some,
        !live ==> cancelled || s@.config.resolve(alias@) is None,
        clean <==> s@.config.resolve(alias@) is None,
        live ==> !clean,
        path is Some <==> s@.config.resolve(alias@) is Some,
        path matches Some(p) ==> s@.config.resolve(alias@) == Some(p@),
{
}

/// The errors for a repository that another process writes and for an alias that is unknown
/// name it.
pub proof fn law_errors_name_the_alias(alias: &str, taken: String, unknown: String)
    requires
        call_ensures(conflicted_msg, (alias,), taken),
        call_ensures(unknown_alias_msg, (alias,), unknown),
    ensures
        taken@.take((6 + alias@.len()) as int) == "Repo '"@ + alias@,
        unknown@ == "Unknown alias '"@ + alias@ + "'"@,
{
    reveal_strlit("Repo '");
    assert(taken@.take((6 + alias@.len()) as int) =~= "Repo '"@ + alias@);
}

} // verus!
