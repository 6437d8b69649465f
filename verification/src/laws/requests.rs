//! How requests to add, reindex and remove repositories are answered, and what they leave.
use crate::config::alias_in;
use crate::handlers::{
    is_switched_on, launch_message, resolve_add_repo_model, AddRepoRequest, AddRepoStep, AfterAdd,
    AfterIndexing, ReindexLaunch, ReindexStep, Reply,
};
use crate::laws::opening::{lemma_stands_between, only_touches, same_history};
use crate::lifecycle::{OpenedStores, StopWatcher};
use crate::removal::{
    is_db_locked_error, is_lmdb_format_corruption, is_transient_rename_error, release_wait_over,
    recovery_timeout_msg, removal_outcome, removal_reply, retry_rename, DeleteAttempt, DeleteRetry,
    DeleteStep, RecoveryWait, RemovalReply, RemovalStart, RepoRemovalOutcome,
};
use crate::state::{IndexTask, RepoState, RepoView, ServeState, StateView};
use crate::text::{ascii_lower, occurs_at, occurs_in, opt_text};
use vstd::prelude::*;

verus! {

/// Whether a reply refuses with a code and an error.
pub open spec fn refuses(a: Reply, code: int) -> bool {
    a.code == code && a.error is Some && a.message is None && a.path is None
}

/// Whether nothing of a state changed.
pub open spec fn unchanged(before: StateView, after: StateView) -> bool {
    before == after
}

/// A repository that is not registered is not found; one that another writer owns, and one
/// whose reindex began less than the time limit ago, are refused; nothing changes then. Any
/// other is marked as being indexed from now on, and a forced one keeps its stores
/// only where they can be written, and then has its watcher stopped.
pub proof fn law_a_reindex_is_taken_or_refused(
    s: &mut ServeState,
    alias: &str,
    force: bool,
    now: u64,
    max_secs: u64,
    r: ReindexStep,
)
    requires
        call_ensures(ServeState::reindex_requested, (s, alias, force, now, max_secs), r),
    ensures
        ({
            let before = old(s)@;
            let after = final(s)@;
            let known = before.config.resolve(alias@) is Some;
            let owned = before.config.is_read_only(alias@);
            let since = before.repo(alias@).indexing_since;
            let busy = since is Some && now < since->0 + max_secs * 1_000_000_000 && max_secs > 0;
            &&& r is Answer <==> !known || owned || busy
            &&& r is Answer ==> unchanged(before, after)
            &&& !known ==> (r matches ReindexStep::Answer(a) && refuses(a, 404) && a.status@
                == "not_found"@ && occurs_in(alias@, a.error->0@))
            &&& known && owned ==> (r matches ReindexStep::Answer(a) && refuses(a, 409)
                && a.status@ == "read_only"@ && occurs_in(alias@, a.error->0@))
            &&& known && !owned && busy ==> (r matches ReindexStep::Answer(a) && refuses(a, 409)
                && a.status@ == "conflict"@ && occurs_in(alias@, a.error->0@))
            &&& !(r is Answer) ==> only_touches(before, after, alias@) && after.repo(
                alias@,
            ).indexing_since == Some(now)
            &&& !(r is Answer) && !force ==> r is OpenThenRefresh && after.repo(alias@).mode
                == before.repo(alias@).mode && after.repo(alias@).watcher == before.repo(
                alias@,
            ).watcher
            &&& !(r is Answer) && force ==> ({
                let mode = before.repo(alias@).mode;
                let open = mode == Some(RepoState::Write) || mode == Some(RepoState::Warm);
                &&& r is Rebuild <==> open
                &&& r is OpenThenRebuild <==> !open
                &&& r matches ReindexStep::Rebuild { cancel_watcher } ==> cancel_watcher == (mode
                    == Some(RepoState::Write))
                &&& open ==> after.repo(alias@).mode == mode
                &&& !open ==> after.repo(alias@).mode is None
            })
        }),
{
    if let ReindexStep::Answer(a) = r {
        if old(s)@.config.resolve(alias@) is None {
            lemma_unknown(alias@);
        } else if old(s)@.config.is_read_only(alias@) {
            lemma_stands_between(
                "Repo '"@,
                alias@,
                "' is marked read-only (repo_read_only) — its index is owned by another writer (e.g. a separate indexing job). Reindex it there, or clear the flag in repos.json."@,
            );
        } else {
            lemma_stands_between("Reindex already in progress for '"@, alias@, "'"@);
        }
    }
}

proof fn lemma_unknown(alias: Seq<char>)
    ensures
        occurs_in(alias, crate::lifecycle::unknown_alias_text(alias)),
{
    lemma_stands_between("Unknown alias '"@, alias, "'"@);
}

/// A forced reindex goes on only with stores that can be written; else it ends, and its mark
/// is taken back.
pub proof fn law_a_rebuild_needs_a_writer(
    s: &mut ServeState,
    alias: &str,
    opened: Result<OpenedStores, String>,
    now: u64,
    r: Option<Reply>,
)
    requires
        call_ensures(ServeState::rebuild_opened, (s, alias, opened, now), r),
    ensures
        only_touches(old(s)@, final(s)@, alias@),
        r is None <==> opened == Ok::<OpenedStores, String>(OpenedStores::Write),
        r is None ==> final(s)@.repo(alias@).mode == Some(RepoState::Write) && final(s)@.repo(
            alias@,
        ).last_access == Some(now) && final(s)@.repo(alias@).indexing_since == old(s)@.repo(
            alias@,
        ).indexing_since,
        r matches Some(a) ==> refuses(a, 500) && a.status@ == "error"@ && final(s)@.repo(
            alias@,
        ).indexing_since is None && final(s)@.repo(alias@).mode == old(s)@.repo(alias@).mode,
        opened matches Err(e) ==> r is Some && (r->0).error->0@ == e@,
{
}

/// A refresh whose stores did not open ends with their error, and its mark is taken back.
pub proof fn law_a_refresh_needs_its_stores(
    s: &mut ServeState,
    alias: &str,
    opened: Result<(), String>,
    r: Option<Reply>,
)
    requires
        call_ensures(ServeState::refresh_opened, (s, alias, opened), r),
    ensures
        opened is Ok ==> r is None && final(s)@ == old(s)@,
        opened matches Err(e) ==> r is Some && refuses(r->0, 500) && (r->0).error->0@ == e@
            && only_touches(old(s)@, final(s)@, alias@) && final(s)@.repo(
            alias@,
        ).indexing_since is None && final(s)@.repo(alias@).mode == old(s)@.repo(alias@).mode,
{
}

/// A reindex that started is accepted, and its task can be cancelled from then on.
pub proof fn law_a_started_reindex_is_accepted(s: &mut ServeState, alias: &str, r: Reply)
    requires
        call_ensures(ServeState::reindex_started, (s, alias), r),
    ensures
        r.code == 202,
        r.status@ == "accepted"@,
        r.alias is Some && r.alias->0@ == alias@,
        r.error is None,
        only_touches(old(s)@, final(s)@, alias@),
        final(s)@.repo(alias@).index_task == Some(IndexTask { cancelled: false }),
        final(s)@.repo(alias@).indexing_since == old(s)@.repo(alias@).indexing_since,
        final(s)@.repo(alias@).mode == old(s)@.repo(alias@).mode,
{
}

/// What follows a reindex: of a repository that is gone nothing goes on and its database is
/// deleted; of a cancelled one nothing goes on, and its database stays; any other goes on, and
/// after a forced one its watcher starts again. The mark is taken back unless it goes on.
pub proof fn law_what_follows_a_reindex(
    s: &mut ServeState,
    alias: &str,
    force: bool,
    failed: bool,
    cancelled: bool,
    r: AfterIndexing,
)
    requires
        call_ensures(ServeState::reindex_finished, (s, alias, force, failed, cancelled), r),
    ensures
        ({
            let known = old(s)@.config.resolve(alias@) is Some;
            &&& r is GoOn <==> known && !cancelled
            &&& r is Stop <==> force && failed && cancelled
            &&& r matches AfterIndexing::LetGo { delete_db } ==> delete_db == !known
            &&& r matches AfterIndexing::GoOn { restart_watcher } ==> restart_watcher == force
            &&& r is GoOn ==> final(s)@ == old(s)@
            &&& !(r is GoOn) ==> only_touches(old(s)@, final(s)@, alias@) && final(s)@.repo(
                alias@,
            ).indexing_since is None && final(s)@.repo(alias@).mode == old(s)@.repo(alias@).mode
        }),
{
}

/// A reindex that is asked for at the board starts when none runs and the repository is there
/// and may be written.
pub proof fn law_a_reindex_at_the_board(
    s: &mut ServeState,
    alias: &str,
    now: u64,
    max_secs: u64,
    r: Result<StopWatcher, ReindexLaunch>,
)
    requires
        call_ensures(ServeState::force_reindex_requested, (s, alias, now, max_secs), r),
    ensures
        ({
            let before = old(s)@;
            let after = final(s)@;
            let since = before.repo(alias@).indexing_since;
            let busy = since is Some && now < since->0 + max_secs * 1_000_000_000 && max_secs > 0;
            let may = before.config.resolve(alias@) is Some && !before.config.is_read_only(alias@);
            &&& r is Ok <==> !busy && may
            &&& busy ==> r == Err::<StopWatcher, ReindexLaunch>(ReindexLaunch::AlreadyRunning)
                && after == before
            &&& !busy && !may ==> r == Err::<StopWatcher, ReindexLaunch>(ReindexLaunch::Failed)
                && after.repo(alias@).indexing_since is None
            &&& r is Ok ==> after.repo(alias@).indexing_since == Some(now)
            &&& r matches Ok(stop) ==> (stop is Open <==> before.repo(alias@).mode == Some(
                RepoState::Write,
            ) || before.repo(alias@).mode == Some(RepoState::Warm))
            &&& r matches Ok(StopWatcher::Open { cancel_watcher }) ==> cancel_watcher == (
            before.repo(alias@).mode == Some(RepoState::Write))
            &&& only_touches(before, after, alias@)
        }),
{
}

/// What is told at the board of a launch names the repository, and tells the three ways apart.
pub proof fn law_launches_are_told_apart(
    alias: &str,
    a: String,
    b: String,
    c: String,
)
    requires
        call_ensures(launch_message, (ReindexLaunch::Started, alias), a),
        call_ensures(launch_message, (ReindexLaunch::AlreadyRunning, alias), b),
        call_ensures(launch_message, (ReindexLaunch::Failed, alias), c),
    ensures
        occurs_in(alias@, a@),
        occurs_in(alias@, b@),
        occurs_in(alias@, c@),
        a@ != b@ && a@ != c@ && b@ != c@,
{
    lemma_stands_between("⟳ Reindex started for '"@, alias@, "' …"@);
    lemma_stands_between("⟳ Reindex already running for '"@, alias@, "'"@);
    lemma_stands_between("✗ Cannot reindex '"@, alias@, "' — see logs"@);
    reveal_strlit("⟳ Reindex started for '");
    reveal_strlit("' …");
    reveal_strlit("⟳ Reindex already running for '");
    reveal_strlit("'");
    reveal_strlit("✗ Cannot reindex '");
    reveal_strlit("' — see logs");
    assert(a@[10] == 's');
    assert(b@[10] == 'a');
    assert(a@[0] == '⟳' && b@[0] == '⟳' && c@[0] == '✗');
}

/// The model of an added repository is the one that was asked for; else that of its database
/// stays; else it is the usual one.
pub proof fn law_the_model_of_an_added_repository(
    explicit: Option<u64>,
    recorded: Option<u64>,
    usual: Option<u64>,
    r: Option<u64>,
)
    requires
        call_ensures(resolve_add_repo_model::<u64>, (explicit, recorded, usual), r),
    ensures
        explicit is Some ==> r == explicit,
        explicit is None && recorded is Some ==> r is None,
        explicit is None && recorded is None ==> r == usual,
{
}

/// A switch is on when it says so.
pub proof fn law_switches(value: Option<&str>, r: bool)
    requires
        call_ensures(is_switched_on, (value,), r),
    ensures
        value is None ==> !r,
        value matches Some(v) ==> (r <==> v@ == "true"@ || v@ == "1"@),
{
}

/// A repository may be added when its path can be found, lies inside the allowed roots and is
/// not registered yet, and its model, where one is asked for, is known.
pub proof fn law_when_a_repository_may_be_added(
    s: ServeState,
    req: AddRepoRequest,
    r: Option<Reply>,
)
    requires
        call_ensures(ServeState::add_repo_requested, (&s, &req), r),
    ensures
        req.canonical is Err ==> r is Some && refuses(r->0, 400) && occurs_in(
            req.asked@,
            (r->0).error->0@,
        ),
        req.canonical is Ok && req.allowed is Err ==> r is Some && refuses(r->0, 403) && (r->0)
            .error->0@ == (req.allowed->Err_0)@,
        req.canonical is Ok && req.allowed is Ok && req.model is Some && !req.model_known ==> r
            is Some && refuses(r->0, 400) && occurs_in((req.model->0)@, (r->0).error->0@),
        req.canonical is Ok && req.allowed is Ok && (req.model is None || req.model_known) ==> (r
            is Some <==> alias_in(s@.config.repos, (req.canonical->Ok_0)@) is Some) && (r is Some
            ==> refuses(r->0, 409) && opt_text((r->0).alias) == alias_in(
            s@.config.repos,
            (req.canonical->Ok_0)@,
        )),
{
    if let Err(e) = req.canonical {
        lemma_stands_between("Cannot canonicalize path '"@, req.asked@, "': "@ + e@);
        assert("Cannot canonicalize path '"@ + req.asked@ + "': "@ + e@
            =~= "Cannot canonicalize path '"@ + req.asked@ + ("': "@ + e@));
    }
    if let Some(m) = req.model {
        lemma_stands_between("Unknown model: '"@, m@, "'. Use one of: "@ + req.valid_models@);
        assert("Unknown model: '"@ + m@ + "'. Use one of: "@ + req.valid_models@
            =~= "Unknown model: '"@ + m@ + ("'. Use one of: "@ + req.valid_models@));
    }
}

/// An added repository whose database does not open, or which another reindex holds, is
/// forgotten again; else it can be written, is being indexed from now on, and the request is
/// accepted with its alias and its path.
pub proof fn law_an_added_repository_is_indexed(
    s: &mut ServeState,
    alias: &str,
    path: &str,
    opened: Result<(), String>,
    now: u64,
    max_secs: u64,
    r: AddRepoStep,
    other: Seq<char>,
)
    requires
        call_ensures(
            ServeState::add_repo_opened,
            (s, alias, path, opened, now, max_secs),
            r,
        ),
        other != alias@,
    ensures
        ({
            let before = old(s)@;
            let after = final(s)@;
            let since = before.repo(alias@).indexing_since;
            let busy = since is Some && now < since->0 + max_secs * 1_000_000_000 && max_secs > 0;
            &&& r is Index <==> opened is Ok && !busy
            &&& r is Answer ==> after.config.resolve(alias@) is None
            &&& after.config.resolve(other) == before.config.resolve(other)
            &&& after.repo(other) == before.repo(other)
            &&& opened matches Err(e) ==> (r matches AddRepoStep::Answer(a) && refuses(a, 500)
                && occurs_in(alias@, a.error->0@))
            &&& opened is Ok && busy ==> (r matches AddRepoStep::Answer(a) && refuses(a, 409)
                && after.repo(alias@).mode is None)
            &&& r matches AddRepoStep::Index(a) ==> a.code == 202 && opt_text(a.alias) == Some(
                alias@,
            ) && opt_text(a.path) == Some(path@) && a.error is None && after.config == before.config
                && after.repo(alias@).mode == Some(RepoState::Write) && after.repo(
                alias@,
            ).last_access == Some(now) && after.repo(alias@).indexing_since == Some(now)
                && after.repo(alias@).index_task == Some(IndexTask { cancelled: false })
        }),
{
    let before = old(s)@;
    crate::handlers::law_failed_add_is_rolled_back(before, alias@);
    assert(before.unregistered(alias@).config.resolve(other) == before.config.resolve(other));
    if let Err(e) = opened {
        lemma_stands_between("Failed to open database for "@, alias@, ": "@ + e@);
        assert("Failed to open database for "@ + alias@ + ": "@ + e@
            =~= "Failed to open database for "@ + alias@ + (": "@ + e@));
    }
}

/// An added repository that failed to be indexed is forgotten again, unless it was cancelled;
/// a cancelled one, and one that is gone, stops; any other goes on to build.
pub proof fn law_what_follows_an_add(
    s: &mut ServeState,
    alias: &str,
    failed: bool,
    cancelled: bool,
    r: AfterAdd,
)
    requires
        call_ensures(ServeState::add_repo_indexed, (s, alias, failed, cancelled), r),
    ensures
        ({
            let before = old(s)@;
            let after = final(s)@;
            let known = before.config.resolve(alias@) is Some;
            &&& r is Undone <==> failed && !cancelled
            &&& r is Build <==> !failed && !cancelled && known
            &&& r is Build ==> after == before
            &&& r is Stop ==> only_touches(before, after, alias@) && after.repo(
                alias@,
            ).indexing_since is None
            &&& r is Undone ==> after.config.resolve(alias@) is None && after.repo(alias@).mode
                is None && after.repo(alias@).indexing_since is None
        }),
{
    crate::handlers::law_failed_add_is_rolled_back(old(s)@, alias@);
}

/// A built repository goes on with its watcher unless it was cancelled or is gone.
pub proof fn law_what_follows_a_build(
    s: &mut ServeState,
    alias: &str,
    cancelled: bool,
    r: AfterIndexing,
)
    requires
        call_ensures(ServeState::add_repo_built, (s, alias, cancelled), r),
    ensures
        ({
            let known = old(s)@.config.resolve(alias@) is Some;
            &&& r is GoOn <==> known && !cancelled
            &&& r matches AfterIndexing::GoOn { restart_watcher } ==> restart_watcher
            &&& r matches AfterIndexing::LetGo { delete_db } ==> delete_db == !known
            &&& r is GoOn ==> final(s)@ == old(s)@
            &&& !(r is GoOn) ==> only_touches(old(s)@, final(s)@, alias@) && final(s)@.repo(
                alias@,
            ).indexing_since is None
        }),
{
}

/// A registration that failed is refused, and so is one that could not be saved.
pub proof fn law_registrations_are_answered(
    s: &mut ServeState,
    registered: Result<String, String>,
    path: &str,
    r: Result<String, Reply>,
    saved: Result<(), String>,
    t: Option<Reply>,
)
    requires
        call_ensures(ServeState::add_repo_registered, (s, registered, path), r),
        call_ensures(ServeState::add_repo_saved, (&*s, saved), t),
    ensures
        r is Ok <==> registered is Ok,
        registered matches Ok(a) ==> r->Ok_0@ == a@ && final(s)@.config
            == old(s)@.config.registering(a@, path@) && final(s)@.repos == old(s)@.repos,
        registered matches Err(e) ==> refuses(r->Err_0, 400) && final(s)@ == old(s)@,
        t is None <==> saved is Ok,
        t matches Some(a) ==> refuses(a, 500),
{
}

/// A repository that is removed is closed first, with its watcher; its registration stays
/// until then, and its path is told. One that is not registered is not.
pub proof fn law_a_removal_closes_first(
    s: &mut ServeState,
    alias: &str,
    r: Result<RemovalStart, String>,
)
    requires
        call_ensures(ServeState::removal_begun, (s, alias), r),
    ensures
        ({
            let before = old(s)@;
            let after = final(s)@;
            &&& r is Ok <==> before.config.resolve(alias@) is Some
            &&& r is Err ==> after == before && occurs_in(alias@, r->Err_0@)
            &&& r matches Ok(start) ==> before.config.resolve(alias@) == Some(start.project_path@)
                && start.cancel_watcher == (before.repo(alias@).mode == Some(RepoState::Write))
                && only_touches(before, after, alias@) && after.repo(alias@).mode is None
                && after.repo(alias@).last_access is None
                && same_history(before.repo(alias@), after.repo(alias@))
        }),
{
    lemma_unknown(alias@);
}

/// A recovery closes first too, but never of a repository that another writer owns.
pub proof fn law_a_recovery_closes_first(
    s: &mut ServeState,
    alias: &str,
    r: Result<RemovalStart, String>,
)
    requires
        call_ensures(ServeState::recovery_begun, (s, alias), r),
    ensures
        ({
            let before = old(s)@;
            let after = final(s)@;
            &&& r is Ok <==> before.config.resolve(alias@) is Some && !before.config.is_read_only(
                alias@,
            )
            &&& r is Err ==> after == before && occurs_in(alias@, r->Err_0@)
            &&& r matches Ok(start) ==> before.config.resolve(alias@) == Some(start.project_path@)
                && start.cancel_watcher == (before.repo(alias@).mode == Some(RepoState::Write))
                && only_touches(before, after, alias@) && after.repo(alias@).mode is None
                && after.repo(alias@).last_access is None
                && same_history(before.repo(alias@), after.repo(alias@))
        }),
{
    lemma_stands_between(
        "'"@,
        alias@,
        "' is marked read-only; rebuild its index on the owning writer"@,
    );
    lemma_stands_between("unknown alias '"@, alias@, "'"@);
}

/// A recovery waits while a reindex runs, at most eight times its time limit.
pub proof fn law_a_recovery_waits(
    s: &mut ServeState,
    alias: &str,
    started: u64,
    now: u64,
    max_secs: u64,
    finished: bool,
    r: (RecoveryWait, bool),
)
    requires
        max_secs * 8 <= u64::MAX,
        call_ensures(
            ServeState::recovery_wait,
            (s, alias, started, now, max_secs, finished),
            r,
        ),
        started <= now,
        max_secs > 0,
    ensures
        ({
            let since = old(s)@.repo(alias@).indexing_since;
            let busy = since is Some && now < since->0 + max_secs * 1_000_000_000;
            &&& r.0 is Ended <==> !busy
            &&& r.0 is TimedOut <==> busy && now >= started + 8 * max_secs * 1_000_000_000
            &&& r.1 <==> since is Some && !busy && old(s)@.repo(alias@).index_task is Some
                && !finished
            &&& busy ==> final(s)@ == old(s)@
            &&& only_touches(old(s)@, final(s)@, alias@)
            &&& since is Some && !busy ==> final(s)@.repo(alias@).indexing_since is None
        }),
{
}

/// A database that could not be deleted is told as such, with its path and the error; an
/// alias that is not known is not found; and any other error is one.
pub proof fn law_removals_are_answered(
    project_path: String,
    db_path: String,
    failure: Option<String>,
    o: RepoRemovalOutcome,
    a: RemovalReply,
    e: &str,
    b: RemovalReply,
)
    requires
        call_ensures(removal_outcome, (project_path, db_path, failure), o),
        call_ensures(removal_reply, (Ok::<&RepoRemovalOutcome, &str>(&o),), a),
        call_ensures(removal_reply, (Err::<&RepoRemovalOutcome, &str>(e),), b),
    ensures
        o.project_path@ == project_path@,
        o.db_path@ == db_path@,
        o.db_deleted <==> failure is None,
        opt_text(o.db_delete_error) == opt_text(failure),
        a.code == 200,
        failure is None ==> a.status@ == "removed"@,
        failure matches Some(why) ==> a.status@ == "removed_db_locked"@ && occurs_in(
            db_path@,
            a.message@,
        ) && occurs_in(why@, a.message@),
        b.message@ == e@,
        occurs_in("Unknown alias"@, e@) ==> b.code == 404 && b.status@ == "not_found"@,
        !occurs_in("Unknown alias"@, e@) ==> b.code == 500 && b.status@ == "error"@,
{
    if let Some(why) = failure {
        let head =
            "Repo removed: FSW stopped, evicted from memory, unregistered; DB delete failed (still on disk at "@;
        lemma_stands_between(head, db_path@, "): "@ + why@);
        assert(head + db_path@ + "): "@ + why@ =~= head + db_path@ + ("): "@ + why@));
        lemma_stands_between(head + db_path@ + "): "@, why@, Seq::empty());
        assert(head + db_path@ + "): "@ + why@ + Seq::<char>::empty() =~= head + db_path@ + "): "@
            + why@);
    }
}

/// A deletion is done when the database is gone; given up when it failed for another reason
/// than that it is held, or the time is up; tried again after a pause that doubles up to its
/// cap, or, while it is held in this process, after its release.
pub proof fn law_deletions_are_tried_again(
    retry: &mut DeleteRetry,
    attempt: DeleteAttempt,
    held_here: bool,
    now: u64,
    r: DeleteStep,
    raw: Option<i32>,
    msg: &str,
    held: bool,
)
    requires
        call_ensures(DeleteRetry::step, (retry, attempt, held_here, now), r),
        call_ensures(is_db_locked_error, (raw, msg), held),
    ensures
        r is Done <==> attempt is Deleted || attempt is Gone,
        attempt is Failed && now >= old(retry).deadline ==> r is GiveUp,
        r matches DeleteStep::GiveUp(e) ==> (attempt matches DeleteAttempt::Failed { raw, msg }
            && e@ == msg@),
        attempt matches DeleteAttempt::Failed { raw: x, msg: y } ==> x == raw && y@ == msg@ && now
            < old(retry).deadline ==> (r is GiveUp <==> !held),
        r matches DeleteStep::Sleep(ms) ==> !held_here && ms == old(retry).backoff_ms && now < old(retry).deadline && (final(retry).backoff_ms == ms + ms || final(retry).backoff_ms == old(retry).cap_ms) && final(retry).backoff_ms <= old(retry).cap_ms,
        r is AwaitRelease ==> held_here && now < old(retry).deadline,
        !(r is Sleep) ==> final(retry).backoff_ms == old(retry).backoff_ms,
        final(retry).deadline == old(retry).deadline,
        final(retry).cap_ms == old(retry).cap_ms,
{
}

/// A database is held by the codes of a sharing violation, or when the error says so.
pub proof fn law_what_tells_that_a_database_is_held(
    raw: Option<i32>,
    msg: &str,
    held: bool,
    transient: bool,
    attempt: u32,
    again: bool,
)
    requires
        call_ensures(is_db_locked_error, (raw, msg), held),
        call_ensures(is_transient_rename_error, (raw, msg), transient),
        call_ensures(retry_rename, (raw, msg, attempt), again),
    ensures
        raw == Some(5i32) || raw == Some(32i32) || raw == Some(33i32) ==> held && transient,
        occurs_in("being used"@, msg@) || occurs_in("is in use"@, msg@) ==> held && transient,
        occurs_in("locked"@, msg@) || occurs_in("busy"@, msg@) ==> held,
        occurs_in("Access is denied"@, msg@) ==> transient,
        held ==> raw == Some(5i32) || raw == Some(32i32) || raw == Some(33i32) || occurs_in(
            "being used"@,
            msg@,
        ) || occurs_in("is in use"@, msg@) || occurs_in("locked"@, msg@) || occurs_in(
            "busy"@,
            msg@,
        ),
        transient ==> raw == Some(5i32) || raw == Some(32i32) || raw == Some(33i32) || occurs_in(
            "being used"@,
            msg@,
        ) || occurs_in("is in use"@, msg@) || occurs_in("Access is denied"@, msg@),
        again <==> transient && attempt < 4,
{
}

/// A database is corrupt in its format when the error names one of three ways, in whatever
/// case.
pub proof fn law_what_tells_a_corrupt_format(msg: &str, r: bool)
    requires
        call_ensures(is_lmdb_format_corruption, (msg,), r),
    ensures
        r <==> occurs_in("mdb_bad_valsize"@, ascii_lower(msg@)) || occurs_in(
            "unsupported size of key"@,
            ascii_lower(msg@),
        ) || occurs_in("wrong dupfixed size"@, ascii_lower(msg@)),
{
}

/// The wait for a release is over when nobody holds on, or the time is up.
pub proof fn law_waiting_for_a_release(holders: usize, now: u64, deadline: u64, r: bool)
    requires
        call_ensures(release_wait_over, (holders, now, deadline), r),
    ensures
        r <==> holders == 0 || now >= deadline,
{
}

} // verus!
