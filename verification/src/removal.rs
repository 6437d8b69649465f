//! Deleting databases: removing a repository, and wiping one whose storage format is
//! corrupt.
use crate::lifecycle::{unknown_alias_msg, unknown_alias_text};
use crate::state::{at_least_ago, is_at_least_ago, RepoRuntime, RepoState, RepoView, ServeState, StateView};
use crate::text::{
    ascii_lower, contains_text, decimal, decimal_text, occurs_in, opt_text, to_ascii_lower,
};
use vstd::prelude::*;

verus! {

/// Whether an operating-system error code says that a file is held by someone: access denied,
/// sharing violation or lock violation.
pub open spec fn held_code(raw: Option<i32>) -> bool {
    raw matches Some(c) && (c == 5 || c == 32 || c == 33)
}

fn is_held_code(raw: Option<i32>) -> (r: bool)
    ensures
        r == held_code(raw),
{
    match raw {
        Some(c) => c == 5 || c == 32 || c == 33,
        None => false,
    }
}

/// Whether an error of a directory delete says that the directory is locked or in use.
pub open spec fn locked(raw: Option<i32>, msg: Seq<char>) -> bool {
    ||| held_code(raw)
    ||| occurs_in("being used"@, msg)
    ||| occurs_in("is in use"@, msg)
    ||| occurs_in("locked"@, msg)
    ||| occurs_in("busy"@, msg)
}

/// Classify an error of a directory delete as a transient "DB is locked / in use" failure
/// worth retrying, versus a permanent failure. `raw` is its operating-system code.
pub fn is_db_locked_error(raw: Option<i32>, msg: &str) -> (r: bool)
    ensures
        r == locked(raw, msg@),
{
    is_held_code(raw) || contains_text(msg, "being used") || contains_text(msg, "is in use")
        || contains_text(msg, "locked") || contains_text(msg, "busy")
}

/// Whether an error of a file rename comes from someone who holds the file for a moment.
pub open spec fn transient_rename(raw: Option<i32>, msg: Seq<char>) -> bool {
    ||| held_code(raw)
    ||| occurs_in("being used"@, msg)
    ||| occurs_in("is in use"@, msg)
    ||| occurs_in("Access is denied"@, msg)
}

/// Classify an error of a file rename as transient. `raw` is its operating-system code.
pub fn is_transient_rename_error(raw: Option<i32>, msg: &str) -> (r: bool)
    ensures
        r == transient_rename(raw, msg@),
{
    is_held_code(raw) || contains_text(msg, "being used") || contains_text(msg, "is in use")
        || contains_text(msg, "Access is denied")
}

/// How often a rename is tried.
pub const RENAME_RETRY_ATTEMPTS: u32 = 5;

/// How long to wait before a rename is tried again, in milliseconds.
pub const RENAME_RETRY_DELAY_MS: u64 = 20;

/// Whether a rename that failed at the attempt `attempt`, counted from zero, is tried again.
pub fn retry_rename(raw: Option<i32>, msg: &str, attempt: u32) -> (r: bool)
    ensures
        r == (transient_rename(raw, msg@) && attempt + 1 < RENAME_RETRY_ATTEMPTS),
{
    attempt < RENAME_RETRY_ATTEMPTS - 1 && is_transient_rename_error(raw, msg)
}

/// Whether an error text tells of a storage format that the running storage layer refuses to
/// read.
pub open spec fn format_corruption(msg: Seq<char>) -> bool {
    let m = ascii_lower(msg);
    ||| occurs_in("mdb_bad_valsize"@, m)
    ||| occurs_in("unsupported size of key"@, m)
    ||| occurs_in("wrong dupfixed size"@, m)
}

/// True iff an error chain indicates storage-format corruption rather than a transient or
/// unrelated failure.
pub fn is_lmdb_format_corruption(msg: &str) -> (r: bool)
    ensures
        r == format_corruption(msg@),
{
    let m: String = to_ascii_lower(msg);
    contains_text(m.as_str(), "mdb_bad_valsize") || contains_text(
        m.as_str(),
        "unsupported size of key",
    ) || contains_text(m.as_str(), "wrong dupfixed size")
}

/// How an attempt to delete a directory went.
pub enum DeleteAttempt {
    Deleted,
    /// It was gone already.
    Gone,
    /// It failed: the operating-system code and the text of the error.
    Failed { raw: Option<i32>, msg: String },
}

/// What comes after an attempt to delete a directory.
pub enum DeleteStep {
    /// The directory is gone.
    Done,
    /// The directory stays; this is the error.
    GiveUp(String),
    /// Wait so many milliseconds, then try again.
    Sleep(u64),
    /// Wait until this process holds nothing in the directory, or the deadline has come;
    /// then try again.
    AwaitRelease,
}

/// A deadline-bounded row of attempts to delete a directory.
#[derive(Debug, Clone, Copy, PartialEq, Eq, Structural)]
pub struct DeleteRetry {
    /// When to give up.
    pub deadline: u64,
    /// How long to wait before the next attempt, in milliseconds.
    pub backoff_ms: u64,
    /// The longest wait, in milliseconds.
    pub cap_ms: u64,
}

/// The next wait: twice as long, at most `cap`.
pub open spec fn doubled(backoff: u64, cap: u64) -> u64 {
    if backoff * 2 < cap {
        (backoff * 2) as u64
    } else {
        cap
    }
}

/// Whether an attempt to delete ended the matter: the directory is gone.
pub open spec fn is_gone(attempt: DeleteAttempt) -> bool {
    attempt is Deleted || attempt is Gone
}

/// Whether a failed attempt to delete at `now` is the last: the error is not a lock, or the
/// deadline has come.
pub open spec fn gives_up(retry: DeleteRetry, attempt: DeleteAttempt, now: u64) -> bool {
    attempt matches DeleteAttempt::Failed { raw, msg } && (!locked(raw, msg@) || now
        >= retry.deadline)
}

impl DeleteRetry {
    /// What comes after an attempt to delete.
    ///
    /// Only lock-class errors are tried again, and only before the deadline. When this
    /// process itself holds something in the directory (`held_here`), the next attempt waits
    /// for the release; otherwise it waits twice as long as before, at most the cap.
    pub fn step(&mut self, attempt: DeleteAttempt, held_here: bool, now: u64) -> (r: DeleteStep)
        ensures
            is_gone(attempt) <==> r is Done,
            gives_up(*old(self), attempt, now) <==> r is GiveUp,
            r matches DeleteStep::GiveUp(e) ==> attempt matches DeleteAttempt::Failed { raw, msg }
                && e@ == msg@,
            !is_gone(attempt) && !gives_up(*old(self), attempt, now) ==> r == (if held_here {
                DeleteStep::AwaitRelease
            } else {
                DeleteStep::Sleep(old(self).backoff_ms)
            }),
            *final(self) == (DeleteRetry {
                backoff_ms: if r is Sleep {
                    doubled(old(self).backoff_ms, old(self).cap_ms)
                } else {
                    old(self).backoff_ms
                },
                ..*old(self)
            }),
    {
        match attempt {
            DeleteAttempt::Deleted => DeleteStep::Done,
            DeleteAttempt::Gone => DeleteStep::Done,
            DeleteAttempt::Failed { raw, msg } => {
                if !is_db_locked_error(raw, msg.as_str()) || now >= self.deadline {
                    return DeleteStep::GiveUp(msg);
                }
                if held_here {
                    return DeleteStep::AwaitRelease;
                }
                let wait: u64 = self.backoff_ms;
                let twice: u128 = (wait as u128) * 2;
                self.backoff_ms = if twice < self.cap_ms as u128 {
                    twice as u64
                } else {
                    self.cap_ms
                };
                DeleteStep::Sleep(wait)
            },
        }
    }
}

/// From the deadline on, every attempt to delete is the last.
pub proof fn law_deleting_ends_at_the_deadline(retry: DeleteRetry, attempt: DeleteAttempt, now: u64)
    requires
        now >= retry.deadline,
    ensures
        is_gone(attempt) || gives_up(retry, attempt, now),
{
}

/// Waits never shrink below the first and never grow beyond the cap.
pub proof fn law_backoff_is_capped(backoff: u64, cap: u64)
    requires
        backoff <= cap,
    ensures
        backoff <= doubled(backoff, cap) <= cap,
{
}

/// Whether the wait for this process to release a directory is over: nothing is held any
/// more, or the deadline has come.
pub fn release_wait_over(holders: usize, now: u64, deadline: u64) -> (r: bool)
    ensures
        r == (holders == 0 || now >= deadline),
{
    holders == 0 || now >= deadline
}

/// Outcome of a removal. Reports whether the database was deleted.
pub struct RepoRemovalOutcome {
    /// The project path, resolved before the alias was unregistered.
    pub project_path: String,
    /// The database directory that was the deletion target.
    pub db_path: String,
    /// Whether the database directory is gone.
    pub db_deleted: bool,
    /// The last error of the delete.
    pub db_delete_error: Option<String>,
}

/// What removing a repository from memory asks of the caller.
pub struct RemovalStart {
    pub project_path: String,
    /// Whether the watcher's token is to be cancelled.
    pub cancel_watcher: bool,
}

impl StateView {
    /// This state after `alias` was evicted from memory.
    pub open spec fn evicted(self, alias: Seq<char>) -> StateView {
        let stopped = self.watcher_stopped(alias);
        stopped.with_repo(
            alias,
            RepoView { mode: None, last_access: None, ..stopped.repo(alias) },
        )
    }
}

impl ServeState {
    fn evict(&mut self, alias: &str) -> (r: bool)
        ensures
            r == (old(self)@.repo(alias@).mode == Some(RepoState::Write)),
            final(self)@ == old(self)@.evicted(alias@),
    {
        let was: RepoRuntime = self.repo(alias);
        let writing: bool = match was.mode {
            Some(RepoState::Write) => true,
            _ => false,
        };
        let _ = self.stop_fsw(alias);
        let mut record: RepoRuntime = self.repo(alias);
        record.mode = None;
        record.last_access = None;
        self.set_repo(alias, record);
        writing
    }

    /// The removal of `alias` begins: its watcher is stopped and it is evicted from memory.
    /// An alias that is not registered is refused.
    pub fn removal_begun(&mut self, alias: &str) -> (r: Result<RemovalStart, String>)
        ensures
            match r {
                Ok(start) => {
                    &&& old(self)@.config.resolve(alias@) == Some(start.project_path@)
                    &&& start.cancel_watcher == (old(self)@.repo(alias@).mode == Some(
                        RepoState::Write,
                    ))
                    &&& final(self)@ == old(self)@.evicted(alias@)
                },
                Err(e) => {
                    &&& old(self)@.config.resolve(alias@) is None
                    &&& e@ == unknown_alias_text(alias@)
                    &&& final(self)@ == old(self)@
                },
            },
    {
        match self.config().resolve(alias) {
            Some(project_path) => {
                let cancel_watcher: bool = self.evict(alias);
                Ok(RemovalStart { project_path, cancel_watcher })
            },
            None => Err(unknown_alias_msg(alias)),
        }
    }
}

/// What a removal reports, from how the delete ended.
pub fn removal_outcome(project_path: String, db_path: String, failure: Option<String>) -> (r:
    RepoRemovalOutcome)
    ensures
        r.project_path@ == project_path@,
        r.db_path@ == db_path@,
        opt_text(r.db_delete_error) == opt_text(failure),
        r.db_deleted <==> r.db_delete_error is None,
{
    let db_deleted: bool = failure.is_none();
    RepoRemovalOutcome { project_path, db_path, db_deleted, db_delete_error: failure }
}

/// The answer to a request to remove a repository.
pub struct RemovalReply {
    pub code: u16,
    pub status: String,
    /// What was done, or the error.
    pub message: String,
}

/// What is said of a removal whose delete failed.
pub open spec fn still_on_disk(db_path: Seq<char>, error: Seq<char>) -> Seq<char> {
    "Repo removed: FSW stopped, evicted from memory, unregistered; DB delete failed (still on disk at "@
        + db_path + "): "@ + error
}

/// The answer to a request to remove a repository: it reports the real outcome of the delete.
pub fn removal_reply(outcome: Result<&RepoRemovalOutcome, &str>) -> (r: RemovalReply)
    ensures
        match outcome {
            Ok(o) => if o.db_deleted {
                &&& r.code == 200
                &&& r.status@ == "removed"@
                &&& r.message@
                    == "Repo removed: FSW stopped, evicted from memory, unregistered, DB deleted"@
            } else {
                &&& r.code == 200
                &&& r.status@ == "removed_db_locked"@
                &&& r.message@ == still_on_disk(
                    o.db_path@,
                    match opt_text(o.db_delete_error) {
                        Some(e) => e,
                        None => "unknown error"@,
                    },
                )
            },
            Err(e) => if occurs_in("Unknown alias"@, e@) {
                r.code == 404 && r.status@ == "not_found"@ && r.message@ == e@
            } else {
                r.code == 500 && r.status@ == "error"@ && r.message@ == e@
            },
        },
{
    match outcome {
        Ok(o) => if o.db_deleted {
            RemovalReply {
                code: 200,
                status: "removed".to_owned(),
                message: "Repo removed: FSW stopped, evicted from memory, unregistered, DB deleted".to_owned(),
            }
        } else {
            let mut message: String =
                "Repo removed: FSW stopped, evicted from memory, unregistered; DB delete failed (still on disk at ".to_owned();
            message.push_str(o.db_path.as_str());
            message.push_str("): ");
            match &o.db_delete_error {
                Some(e) => message.push_str(e.as_str()),
                None => message.push_str("unknown error"),
            }
            RemovalReply { code: 200, status: "removed_db_locked".to_owned(), message }
        },
        Err(e) => if contains_text(e, "Unknown alias") {
            RemovalReply { code: 404, status: "not_found".to_owned(), message: e.to_owned() }
        } else {
            RemovalReply { code: 500, status: "error".to_owned(), message: e.to_owned() }
        },
    }
}

/// The error for a removal of an alias that is not registered is answered as not found.
pub proof fn law_unknown_alias_is_not_found(alias: Seq<char>)
    ensures
        occurs_in("Unknown alias"@, unknown_alias_text(alias)),
{
    reveal_strlit("Unknown alias");
    reveal_strlit("Unknown alias '");
    reveal_strlit("'");
    let t = unknown_alias_text(alias);
    assert(t.subrange(0, 13) =~= "Unknown alias"@);
    assert(crate::text::occurs_at(t, "Unknown alias"@, 0));
}

/// After a removal nothing is left of the repository in memory, and it is not registered.
pub proof fn law_removed_repository_is_gone(s: StateView, alias: Seq<char>)
    ensures
        s.evicted(alias).repo(alias).mode is None,
        s.evicted(alias).repo(alias).last_access is None,
        s.evicted(alias).unregistered(alias).config.resolve(alias) is None,
{
    crate::config::law_unregister(s.evicted(alias).config, alias);
}

/// The error for a format recovery of a repository whose index is owned by another writer.
pub open spec fn recovery_owned_elsewhere(alias: Seq<char>) -> Seq<char> {
    "'"@ + alias + "' is marked read-only; rebuild its index on the owning writer"@
}

/// How the wait for a recovery rebuild goes on.
#[derive(Debug, Clone, Copy, PartialEq, Eq, Structural)]
pub enum RecoveryWait {
    /// The rebuild still runs: look again later.
    Wait,
    /// The rebuild has ended.
    Ended,
    /// It took too long.
    TimedOut,
}

impl ServeState {
    /// A format recovery of `alias` begins: it is evicted from memory, but stays registered.
    /// The path of its project, or why there is no recovery.
    pub fn recovery_begun(&mut self, alias: &str) -> (r: Result<RemovalStart, String>)
        ensures
            match r {
                Ok(start) => {
                    &&& !old(self)@.config.is_read_only(alias@)
                    &&& old(self)@.config.resolve(alias@) == Some(start.project_path@)
                    &&& start.cancel_watcher == (old(self)@.repo(alias@).mode == Some(
                        RepoState::Write,
                    ))
                    &&& final(self)@ == old(self)@.evicted(alias@)
                },
                Err(e) => {
                    &&& final(self)@ == old(self)@
                    &&& if old(self)@.config.is_read_only(alias@) {
                        e@ == recovery_owned_elsewhere(alias@)
                    } else {
                        old(self)@.config.resolve(alias@) is None && e@ == "unknown alias '"@
                            + alias@ + "'"@
                    }
                },
            },
    {
        if self.config().is_read_only(alias) {
            let mut e: String = "'".to_owned();
            e.push_str(alias);
            e.push_str("' is marked read-only; rebuild its index on the owning writer");
            return Err(e);
        }
        match self.config().resolve(alias) {
            Some(project_path) => {
                let cancel_watcher: bool = self.evict(alias);
                Ok(RemovalStart { project_path, cancel_watcher })
            },
            None => {
                let mut e: String = "unknown alias '".to_owned();
                e.push_str(alias);
                e.push_str("'");
                Err(e)
            },
        }
    }

    /// A look at a rebuild that started at `started`: it is given eight times the limit for
    /// indexing. A stale marker is evicted by the look, which also tells whether its task is
    /// to be cancelled.
    pub fn recovery_wait(
        &mut self,
        alias: &str,
        started: u64,
        now: u64,
        max_secs: u64,
        finished: bool,
    ) -> (r: (RecoveryWait, bool))
        requires
            max_secs * 8 <= u64::MAX,
        ensures
            r.0 == (if !old(self)@.busy(alias@, now, max_secs) {
                RecoveryWait::Ended
            } else if at_least_ago(now, started, (max_secs * 8) as u64) {
                RecoveryWait::TimedOut
            } else {
                RecoveryWait::Wait
            }),
            r.1 == (old(self)@.stale(alias@, now, max_secs) && old(self)@.repo(
                alias@,
            ).index_task is Some && !finished),
            final(self)@ == old(self)@.probed(alias@, now, max_secs, finished),
    {
        let probe: crate::state::IndexingProbe = self.is_indexing(alias, now, max_secs, finished);
        let wait: RecoveryWait = if !probe.indexing {
            RecoveryWait::Ended
        } else if is_at_least_ago(now, started, max_secs * 8) {
            RecoveryWait::TimedOut
        } else {
            RecoveryWait::Wait
        };
        (wait, probe.cancel_task)
    }
}

/// The error for a recovery rebuild that took longer than `cap_secs`. `own` tells whether the
/// recovery started it.
pub fn recovery_timeout_msg(alias: &str, cap_secs: u64, own: bool) -> (r: String)
    ensures
        r@ == (if own {
            "rebuild for '"@
        } else {
            "in-flight rebuild for '"@
        }) + alias@ + "' exceeded the "@ + decimal(cap_secs as nat) + "s recovery cap"@,
{
    let mut r: String = if own {
        "rebuild for '".to_owned()
    } else {
        "in-flight rebuild for '".to_owned()
    };
    r.push_str(alias);
    r.push_str("' exceeded the ");
    let n: String = decimal_text(cap_secs);
    r.push_str(n.as_str());
    r.push_str("s recovery cap");
    r
}

/// A recovery keeps the repository registered.
pub proof fn law_recovery_keeps_the_registration(s: StateView, alias: Seq<char>)
    ensures
        s.evicted(alias).config == s.config,
{
}

} // verus!
