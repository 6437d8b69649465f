//! The markers, tasks, counters and timers that are kept of repositories and sessions.
use crate::laws::opening::{lemma_stands_between, only_touches};
use crate::config::{RepoEntry, ReposConfig};
use crate::state::{
    is_at_least_ago, seconds_setting, CSharpIndexStatus, IndexTask, IndexingProbe, RecoveryRequest,
    RepoView, ServeState, SymbolRebuildSignal,
};
use crate::text::{decimal, law_decimal_round_trip, occurs_in, opt_text, texts};
use vstd::prelude::*;

verus! {

/// Whether what is open, and what runs beside it, is as it was.
pub open spec fn same_stores(a: RepoView, b: RepoView) -> bool {
    &&& a.mode == b.mode
    &&& a.last_access == b.last_access
    &&& a.watcher == b.watcher
}

/// Seconds are counted as such: an instant lies at least so many seconds back when as many
/// billions of nanoseconds have gone by, and one still to come lies none back.
pub proof fn law_seconds_ago(now: u64, at: u64, secs: u64, r: bool)
    requires
        call_ensures(is_at_least_ago, (now, at, secs), r),
    ensures
        now >= at + secs * 1_000_000_000 ==> r,
        at <= now < at + secs * 1_000_000_000 ==> !r,
        now < at && secs > 0 ==> !r,
        secs == 0 ==> r,
{
}

/// A setting in seconds is taken when it writes a positive number; anything else, zero too,
/// leaves the usual value.
pub proof fn law_settings_in_seconds(n: u64, setting: Option<&str>, default: u64, r: u64)
    requires
        call_ensures(seconds_setting, (setting, default), r),
    ensures
        setting is None ==> r == default,
        setting matches Some(t) && t@ == decimal(n as nat) && n > 0 ==> r == n,
        setting matches Some(t) && t@ == decimal(0) ==> r == default,
        default > 0 ==> r > 0,
        setting matches Some(t) && t@.len() == 0 ==> r == default,
{
    law_decimal_round_trip(n);
    law_decimal_round_trip(0);
}

/// Of two reindexes of one repository the second is turned away until the first has ended or
/// has lasted the limit; a repository that is not being indexed may always begin.
pub proof fn law_one_reindex_at_a_time(
    s: &mut ServeState,
    t: &mut ServeState,
    alias: &str,
    now: u64,
    later: u64,
    max_secs: u64,
    first: bool,
    second: bool,
)
    requires
        call_ensures(ServeState::begin_indexing, (s, alias, now, max_secs), first),
        old(t)@ == final(s)@,
        call_ensures(ServeState::begin_indexing, (t, alias, later, max_secs), second),
    ensures
        old(s)@.repo(alias@).indexing_since is None ==> first,
        first ==> final(s)@.repo(alias@).indexing_since == Some(now),
        !first ==> final(s)@ == old(s)@,
        first && now <= later < now + max_secs * 1_000_000_000 ==> !second,
        first && later >= now + max_secs * 1_000_000_000 ==> second,
        old(s)@.repo(alias@).indexing_since matches Some(at) && at <= now < at + max_secs
            * 1_000_000_000 ==> !first,
        old(s)@.repo(alias@).indexing_since matches Some(at) && now >= at + max_secs
            * 1_000_000_000 ==> first,
        same_stores(final(s)@.repo(alias@), old(s)@.repo(alias@)),
        final(s)@.repo(alias@).index_task == old(s)@.repo(alias@).index_task,
        only_touches(old(s)@, final(s)@, alias@),
{
}

/// Ending a reindex lets the next begin.
pub proof fn law_an_ended_reindex_lets_another_begin(
    s: &mut ServeState,
    t: &mut ServeState,
    alias: &str,
    now: u64,
    max_secs: u64,
    next: bool,
)
    requires
        call_ensures(ServeState::end_indexing, (s, alias), ()) || call_ensures(
            ServeState::indexing_status,
            (s, alias, false, now),
            (),
        ),
        old(t)@ == final(s)@,
        call_ensures(ServeState::begin_indexing, (t, alias, now, max_secs), next),
    ensures
        final(s)@.repo(alias@).indexing_since is None,
        next,
        same_stores(final(s)@.repo(alias@), old(s)@.repo(alias@)),
        final(s)@.repo(alias@).index_task == old(s)@.repo(alias@).index_task,
        only_touches(old(s)@, final(s)@, alias@),
{
}

/// A reindex that the watcher runs is marked while it runs.
pub proof fn law_the_watcher_marks_its_reindex(s: &mut ServeState, alias: &str, now: u64)
    requires
        call_ensures(ServeState::indexing_status, (s, alias, true, now), ()),
    ensures
        final(s)@.repo(alias@).indexing_since == Some(now),
        same_stores(final(s)@.repo(alias@), old(s)@.repo(alias@)),
        only_touches(old(s)@, final(s)@, alias@),
{
}

/// A look tells a fresh marker as indexing and changes nothing. A marker that has lasted the
/// limit is removed; a task behind it that still runs is cancelled, one that finished is
/// forgotten.
pub proof fn law_a_look_at_a_marker(
    s: &mut ServeState,
    alias: &str,
    now: u64,
    max_secs: u64,
    finished: bool,
    r: IndexingProbe,
)
    requires
        call_ensures(ServeState::is_indexing, (s, alias, now, max_secs, finished), r),
    ensures
        old(s)@.repo(alias@).indexing_since is None ==> !r.indexing && !r.cancel_task && final(s)@
            == old(s)@,
        old(s)@.repo(alias@).indexing_since matches Some(at) && at <= now < at + max_secs
            * 1_000_000_000 ==> r.indexing && !r.cancel_task && final(s)@ == old(s)@,
        old(s)@.repo(alias@).indexing_since matches Some(at) && now >= at + max_secs
            * 1_000_000_000 ==> !r.indexing && final(s)@.repo(alias@).indexing_since is None
            && r.cancel_task == (old(s)@.repo(alias@).index_task is Some && !finished),
        r.cancel_task ==> final(s)@.repo(alias@).index_task == Some(IndexTask { cancelled: true }),
        !r.indexing && finished && old(s)@.repo(alias@).indexing_since is Some
            ==> final(s)@.repo(alias@).index_task is None,
        same_stores(final(s)@.repo(alias@), old(s)@.repo(alias@)),
        only_touches(old(s)@, final(s)@, alias@),
{
}

/// A task that was started is there and not cancelled, so that a rebuild by it is confirmed;
/// one whose token was cancelled is told as an error that names the repository; a task that is
/// taken out is there once.
pub proof fn law_tasks_are_confirmed(
    s: &mut ServeState,
    t: &mut ServeState,
    alias: &str,
    confirmed: Result<(), String>,
    had: bool,
)
    requires
        call_ensures(ServeState::index_task_started, (s, alias), ()),
        old(t)@ == final(s)@,
        call_ensures(ServeState::confirm_rebuild_finished, (&*t, alias), confirmed),
        call_ensures(ServeState::take_index_task, (t, alias), had),
    ensures
        confirmed is Ok,
        had,
        final(t)@.repo(alias@).index_task is None,
        final(t)@.repo(alias@).indexing_since == old(s)@.repo(alias@).indexing_since,
        same_stores(final(t)@.repo(alias@), old(s)@.repo(alias@)),
        only_touches(old(s)@, final(t)@, alias@),
{
}

/// A rebuild whose task was cancelled did not finish, and only such a one.
pub proof fn law_a_cancelled_rebuild_is_told(s: ServeState, alias: &str, r: Result<(), String>)
    requires
        call_ensures(ServeState::confirm_rebuild_finished, (&s, alias), r),
    ensures
        s@.repo(alias@).index_task == Some(IndexTask { cancelled: true }) ==> r is Err,
        s@.repo(alias@).index_task == Some(IndexTask { cancelled: false }) ==> r is Ok,
        s@.repo(alias@).index_task is None ==> r is Ok,
        r matches Err(e) ==> occurs_in(alias@, e@),
{
    lemma_stands_between(
        "rebuild for '"@,
        alias@,
        "' was cancelled before it completed (stale indexing marker); the index is left empty"@,
    );
}

/// Recoveries are made in the order in which they were asked for, each once: an alias that is
/// accepted waits at the end, one that waits already or was wiped adds nothing, and the next
/// recovery is that of the front.
pub proof fn law_recoveries_wait_in_line(
    s: &mut ServeState,
    t: &mut ServeState,
    alias: &str,
    r: RecoveryRequest,
    next: Option<String>,
)
    requires
        call_ensures(ServeState::enqueue_format_recovery, (s, alias), r),
        old(t)@ == final(s)@,
        call_ensures(ServeState::next_format_recovery, (t,), next),
    ensures
        r.accepted <==> !old(s)@.repo(alias@).wiped,
        r.accepted ==> final(s)@.queue.contains(alias@),
        !r.accepted ==> final(s)@ == old(s)@,
        old(s)@.queue.contains(alias@) ==> final(s)@.queue == old(s)@.queue,
        r.accepted && !old(s)@.queue.contains(alias@) ==> final(s)@.queue == old(s)@.queue.push(
            alias@,
        ) && final(s)@.worker && r.start_worker == !old(s)@.worker,
        final(s)@.queue.len() > 0 ==> opt_text(next) == Some(final(s)@.queue[0])
            && final(t)@.queue == final(s)@.queue.skip(1) && final(t)@.worker == final(s)@.worker,
        final(s)@.queue.len() == 0 ==> next is None && !final(t)@.worker,
        final(s)@.repos == old(s)@.repos,
        final(t)@.repos == old(s)@.repos,
        final(t)@.config == old(s)@.config,
{
    if r.accepted && !old(s)@.queue.contains(alias@) {
        assert(final(s)@.queue[old(s)@.queue.len() as int] == alias@);
    }
}

/// A database is wiped once: after it was, a recovery is refused.
pub proof fn law_a_wiped_database_is_not_wiped_again(
    s: &mut ServeState,
    t: &mut ServeState,
    alias: &str,
    r: RecoveryRequest,
)
    requires
        call_ensures(ServeState::mark_wiped, (s, alias), ()),
        old(t)@ == final(s)@,
        call_ensures(ServeState::enqueue_format_recovery, (t, alias), r),
    ensures
        !r.accepted,
        !r.start_worker,
        final(t)@ == final(s)@,
        same_stores(final(s)@.repo(alias@), old(s)@.repo(alias@)),
        final(s)@.repo(alias@).indexing_since == old(s)@.repo(alias@).indexing_since,
        only_touches(old(s)@, final(s)@, alias@),
{
}

/// A symbol rebuild is told as it goes: it is being built, it is there without an error, or it
/// failed with the error that was given. What is dropped is neither.
pub proof fn law_symbol_status_follows_the_signals(
    s: &mut ServeState,
    t: &mut ServeState,
    alias: &str,
    signal: SymbolRebuildSignal,
)
    requires
        call_ensures(ServeState::csharp_signal, (s, alias, signal), ()),
        old(t)@ == final(s)@,
        call_ensures(ServeState::clear_csharp_index_state, (t, alias), ()),
    ensures
        signal is Started ==> final(s)@.repo(alias@).csharp == Some(CSharpIndexStatus::Indexing)
            && final(s)@.repo(alias@).csharp_error == old(s)@.repo(alias@).csharp_error,
        signal is Succeeded ==> final(s)@.repo(alias@).csharp == Some(CSharpIndexStatus::Ready)
            && final(s)@.repo(alias@).csharp_error is None,
        signal matches SymbolRebuildSignal::Failed(msg) ==> final(s)@.repo(alias@).csharp == Some(
            CSharpIndexStatus::Error,
        ) && final(s)@.repo(alias@).csharp_error == Some(msg@),
        final(t)@.repo(alias@).csharp is None,
        final(t)@.repo(alias@).csharp_error is None,
        same_stores(final(t)@.repo(alias@), old(s)@.repo(alias@)),
        only_touches(old(s)@, final(t)@, alias@),
{
}

/// Accesses, tool calls and changes are kept of the repository that they are of: the last access
/// and the last call are the ones just made, calls count up by one and changes by their number.
pub proof fn law_uses_are_counted(
    s: &mut ServeState,
    t: &mut ServeState,
    u: &mut ServeState,
    alias: &str,
    tool: &str,
    count: u64,
    now: u64,
)
    requires
        call_ensures(ServeState::touch_access, (s, alias, now), ()),
        old(t)@ == final(s)@,
        call_ensures(ServeState::record_tool_call, (t, alias, tool, now), ()),
        old(u)@ == final(t)@,
        call_ensures(ServeState::record_changes, (u, alias, count), ()),
    ensures
        final(s)@.repo(alias@).last_access == Some(now),
        final(s)@.repo(alias@).tool_calls == old(s)@.repo(alias@).tool_calls,
        final(t)@.repo(alias@).last_tool == Some((tool@, now)),
        old(s)@.repo(alias@).tool_calls < u64::MAX ==> final(t)@.repo(alias@).tool_calls == old(s)@.repo(alias@).tool_calls + 1,
        final(t)@.repo(alias@).changes == old(s)@.repo(alias@).changes,
        old(s)@.repo(alias@).changes + count <= u64::MAX ==> final(u)@.repo(alias@).changes
            == old(s)@.repo(alias@).changes + count,
        final(u)@.repo(alias@).tool_calls == final(t)@.repo(alias@).tool_calls,
        final(u)@.repo(alias@).last_tool == final(t)@.repo(alias@).last_tool,
        final(u)@.repo(alias@).last_access == Some(now),
        final(u)@.repo(alias@).mode == old(s)@.repo(alias@).mode,
        final(u)@.repo(alias@).watcher == old(s)@.repo(alias@).watcher,
        final(u)@.repo(alias@).indexing_since == old(s)@.repo(alias@).indexing_since,
        only_touches(old(s)@, final(u)@, alias@),
{
}

/// The most recent tool call is one that was made, and none was made later.
pub proof fn law_the_most_recent_call(s: ServeState, alias: Seq<char>, r: Option<u64>)
    requires
        call_ensures(ServeState::most_recent_tool_call, (&s,), r),
        s@.repos.contains_key(alias),
    ensures
        s@.repo(alias).last_tool matches Some(call) ==> r is Some && call.1 <= r->0,
        r is None ==> s@.repo(alias).last_tool is None,
        r is Some ==> exists|a: Seq<char>| #[trigger]
            s@.repos.contains_key(a) && s@.repos[a].last_tool is Some && (s@.repos[a].last_tool->0).1
                == r->0,
{
    assert(s@.repo(alias) == s@.repos[alias]);
    if r is Some {
        let a = choose|a: Seq<char>|
            s@.repos.contains_key(a) && (#[trigger] s@.repos[a]).last_tool is Some && (
            s@.repos[a].last_tool->0).1 == r->0;
        assert(s@.repos.contains_key(a));
    }
}

/// What a peer was last asked is what was recorded of it, and of that peer alone.
pub proof fn law_peer_activity_reads_back(
    s: &mut ServeState,
    t: ServeState,
    peer: &str,
    other: &str,
    now: u64,
    own: Option<u64>,
    others: Option<u64>,
    before: Option<u64>,
)
    requires
        call_ensures(ServeState::remote_peer_last_activity, (&*s, other), before),
        call_ensures(ServeState::record_remote_peer_activity, (s, peer, now), ()),
        t@ == final(s)@,
        call_ensures(ServeState::remote_peer_last_activity, (&t, peer), own),
        call_ensures(ServeState::remote_peer_last_activity, (&t, other), others),
    ensures
        own == Some(now),
        peer@ != other@ ==> others == before,
        final(s)@.repos == old(s)@.repos,
        final(s)@.config == old(s)@.config,
{
}

/// Sessions are numbered from the first on, and the counts follow: one more active and one more
/// in all for each that connects, one less active for each that leaves.
pub proof fn law_sessions_are_counted(
    s: &mut ServeState,
    t: &mut ServeState,
    u: ServeState,
    id: u64,
    active: u64,
    total: u64,
)
    requires
        call_ensures(ServeState::session_connected, (s,), id),
        old(t)@ == final(s)@,
        call_ensures(ServeState::session_disconnected, (t,), ()),
        u@ == final(t)@,
        call_ensures(ServeState::active_session_count, (&u,), active),
        call_ensures(ServeState::total_session_count, (&u,), total),
    ensures
        id == old(s)@.total_sessions,
        active == old(s)@.active_sessions,
        old(s)@.active_sessions < u64::MAX ==> final(s)@.active_sessions == old(s)@.active_sessions
            + 1,
        old(s)@.total_sessions < u64::MAX ==> total == old(s)@.total_sessions + 1,
        final(t)@.repos == old(s)@.repos,
        final(t)@.config == old(s)@.config,
{
}

/// A save is due once the quiet time has passed since it was last asked for, and not before;
/// after it was made nothing is due, unless another was asked for meanwhile.
pub proof fn law_saves_are_debounced(
    s: &mut ServeState,
    t: &mut ServeState,
    now: u64,
    debounce_secs: u64,
    later: u64,
    start: bool,
    due: Option<u64>,
    deadline: u64,
    goes_on: bool,
)
    requires
        now + debounce_secs * 1000 <= u64::MAX,
        now > 0,
        call_ensures(ServeState::schedule_persist_repos_config, (s, now, debounce_secs), start),
        old(t)@ == final(s)@,
        call_ensures(ServeState::persist_due, (&*t, later), due),
        call_ensures(ServeState::persist_done, (t, deadline), goes_on),
    ensures
        start <==> !old(s)@.persist_worker,
        later < now + debounce_secs * 1000 ==> due is None,
        later >= now + debounce_secs * 1000 ==> due is Some && due->0 == now + debounce_secs * 1000,
        due == Some(deadline) ==> !goes_on && final(t)@.persist_deadline == 0
            && !final(t)@.persist_worker,
        deadline != now + debounce_secs * 1000 ==> goes_on && final(t)@ == final(s)@,
        final(s)@.persist_worker,
        final(t)@.repos == old(s)@.repos,
        final(t)@.config == old(s)@.config,
{
}

/// Nothing is due to be saved before a save was asked for.
pub proof fn law_nothing_is_saved_unasked(s: ServeState, later: u64, due: Option<u64>)
    requires
        s@.persist_deadline == 0,
        call_ensures(ServeState::persist_due, (&s, later), due),
    ensures
        due is None,
{
}

/// A configuration file is another than the one last read exactly when it bears another stamp.
pub proof fn law_the_configuration_is_read_once(
    s: &mut ServeState,
    t: ServeState,
    stamp: Option<u128>,
    observed: Option<u128>,
    changed: bool,
)
    requires
        call_ensures(ServeState::set_config_stamp, (s, stamp), ()),
        t@ == final(s)@,
        call_ensures(ServeState::config_changed, (&t, observed), changed),
    ensures
        changed <==> observed != stamp,
        final(s)@.config == old(s)@.config,
        final(s)@.repos == old(s)@.repos,
{
}

/// The warning about an unrecorded model is given once for each repository.
pub proof fn law_the_legacy_warning_is_given_once(
    s: &mut ServeState,
    t: &mut ServeState,
    alias: &str,
    first: bool,
    second: bool,
)
    requires
        call_ensures(ServeState::mark_legacy_model_warned, (s, alias), first),
        old(t)@ == final(s)@,
        call_ensures(ServeState::mark_legacy_model_warned, (t, alias), second),
    ensures
        first <==> !old(s)@.repo(alias@).legacy_warned,
        !second,
        same_stores(final(s)@.repo(alias@), old(s)@.repo(alias@)),
        only_touches(old(s)@, final(s)@, alias@),
{
}

/// The registration reads back: a registered alias has the path it was given, one that was
/// dropped has none, and dropping tells whether it was there.
pub proof fn law_registrations_read_back(
    s: &mut ServeState,
    t: &mut ServeState,
    alias: &str,
    path: &str,
    other: Seq<char>,
    dropped: bool,
)
    requires
        call_ensures(ServeState::register, (s, alias, path), ()),
        old(t)@ == final(s)@,
        call_ensures(ServeState::unregister, (t, alias), dropped),
        other != alias@,
    ensures
        final(s)@.config.resolve(alias@) == Some(path@),
        final(s)@.config.resolve(other) == old(s)@.config.resolve(other),
        dropped,
        final(t)@.config.resolve(alias@) is None,
        final(t)@.config.resolve(other) == old(s)@.config.resolve(other),
        final(t)@.repos == old(s)@.repos,
{
    crate::config::law_register(old(s)@.config, alias@, path@);
    crate::config::law_unregister(final(s)@.config, alias@);
}

/// The task of a repository is taken out once, and nothing else changes.
pub proof fn law_tasks_are_taken_out(s: &mut ServeState, alias: &str, r: bool)
    requires
        call_ensures(ServeState::take_index_task, (s, alias), r),
    ensures
        r <==> old(s)@.repo(alias@).index_task is Some,
        final(s)@.repo(alias@).index_task is None,
        only_touches(old(s)@, final(s)@, alias@),
        same_stores(old(s)@.repo(alias@), final(s)@.repo(alias@)),
        final(s)@.repo(alias@).indexing_since == old(s)@.repo(alias@).indexing_since,
{
}

/// The cancelled tasks are those that are marked as such, each once.
pub proof fn law_cancelled_tasks(s: ServeState, r: Vec<String>, alias: Seq<char>)
    requires
        call_ensures(ServeState::cancelled_tasks, (&s,), r),
    ensures
        texts(r@).contains(alias) <==> s@.repo(alias).index_task is Some && (s@.repo(
            alias,
        ).index_task->0).cancelled,
        texts(r@).no_duplicates(),
{
}

/// A new server knows its configuration and nothing else.
pub proof fn law_a_new_server(c: ReposConfig, s: ServeState, alias: Seq<char>, all: Vec<String>)
    requires
        call_ensures(ServeState::new, (c,), s),
        call_ensures(ServeState::aliases, (&s,), all),
    ensures
        s@.config == c@,
        s@.repo(alias).mode is None,
        s@.repo(alias).indexing_since is None,
        s@.repo(alias).tool_calls == 0,
        s@.queue.len() == 0,
        s@.active_sessions == 0 && s@.total_sessions == 0,
        texts(all@).contains(alias) <==> c@.resolve(alias) is Some,
{
    crate::config::lemma_path_in_names(c@.repos, alias);
}

/// The relocated repositories resolve to their new paths.
pub proof fn law_relocations(s: &mut ServeState, moved: Vec<RepoEntry>, r: bool)
    requires
        call_ensures(ServeState::paths_relocated, (s, &moved), r),
    ensures
        r <==> moved@.len() > 0,
        moved@.len() == 0 ==> final(s)@ == old(s)@,
        final(s)@.repos == old(s)@.repos,
        moved@.len() > 0 && final(s)@.config.resolve(moved@[moved@.len() - 1].alias@) is Some
            ==> final(s)@.config.resolve(moved@[moved@.len() - 1].alias@) == Some(
            moved@[moved@.len() - 1].path@,
        ),
{
    if moved@.len() > 0 {
        let last = moved@.last();
        crate::laws::settings::lemma_moved(
            crate::startup::relocated_all(old(s)@.config, moved@.drop_last()).repos,
            last.alias@,
            last.path@,
            last.alias@,
        );
    }
}

} // verus!
