//! Opening, caching, evicting and closing repositories.
use crate::state::{
    at_least_ago, healed, is_at_least_ago, IndexTask, IndexingProbe, RepoRuntime, RepoState,
    RepoView, ServeState, StateView,
};
use crate::text::{opt_text, position_of, texts};
use vstd::prelude::*;

verus! {

/// Why a repository that another process holds cannot be queried.
pub open spec fn conflicted_text(alias: Seq<char>) -> Seq<char> {
    "Repo '"@ + alias
        + "' is currently locked by another codesearch process with write access. Stop that process (or let it finish) and retry. If you only need read access, the next query will retry automatically."@
}

/// Build an actionable conflict error message.
pub fn conflicted_msg(alias: &str) -> (r: String)
    ensures
        r@ == conflicted_text(alias@),
{
    let mut r: String = "Repo '".to_owned();
    r.push_str(alias);
    r.push_str(
        "' is currently locked by another codesearch process with write access. Stop that process (or let it finish) and retry. If you only need read access, the next query will retry automatically.",
    );
    r
}

/// Why an alias that is not registered cannot be queried.
pub open spec fn unknown_alias_text(alias: Seq<char>) -> Seq<char> {
    "Unknown alias '"@ + alias + "'"@
}

/// The error for an alias that is not registered.
pub fn unknown_alias_msg(alias: &str) -> (r: String)
    ensures
        r@ == unknown_alias_text(alias@),
{
    let mut r: String = "Unknown alias '".to_owned();
    r.push_str(alias);
    r.push_str("'");
    r
}

/// What stopping the file watcher of a repository found.
#[derive(Debug, Clone, Copy, PartialEq, Eq, Structural)]
pub enum StopWatcher {
    /// No store was open for writing; whatever was open is closed now.
    NotOpen,
    /// The store is open. `cancel_watcher` tells whether the watcher's token is to be
    /// cancelled.
    Open { cancel_watcher: bool },
}

/// What the cache of open repositories answers a query with.
pub enum CachedStores {
    /// Nothing is cached: the repository has to be opened.
    Miss,
    /// The open stores. `start_watcher` tells whether a file watcher is to be started.
    Hit { start_watcher: bool },
    /// The query is refused.
    Refused(String),
}

/// What the cache of open repositories answers a query with.
pub enum CachedStoresView {
    Miss,
    Hit { start_watcher: bool },
    Refused(Seq<char>),
}

impl View for CachedStores {
    type V = CachedStoresView;

    open spec fn view(&self) -> CachedStoresView {
        match self {
            CachedStores::Miss => CachedStoresView::Miss,
            CachedStores::Hit { start_watcher } => CachedStoresView::Hit {
                start_watcher: *start_watcher,
            },
            CachedStores::Refused(e) => CachedStoresView::Refused(e@),
        }
    }
}

impl StateView {
    /// This state after the cached symbol status of `alias` was dropped and its stores were
    /// closed.
    pub open spec fn closed(self, alias: Seq<char>) -> StateView {
        self.with_repo(
            alias,
            RepoView { mode: None, csharp: None, csharp_error: None, ..self.repo(alias) },
        )
    }

    /// This state after the watcher of `alias` was stopped: a store that is not open for
    /// writing is closed.
    pub open spec fn watcher_stopped(self, alias: Seq<char>) -> StateView {
        match self.repo(alias).mode {
            Some(RepoState::Readonly) => self.closed(alias),
            Some(RepoState::Conflicted) => self.closed(alias),
            _ => self,
        }
    }

    /// What stopping the watcher of `alias` finds.
    pub open spec fn stop_answer(self, alias: Seq<char>) -> StopWatcher {
        match self.repo(alias).mode {
            Some(RepoState::Write) => StopWatcher::Open { cancel_watcher: true },
            Some(RepoState::Warm) => StopWatcher::Open { cancel_watcher: false },
            _ => StopWatcher::NotOpen,
        }
    }

    /// What the cache answers a query of `alias` with.
    pub open spec fn cached_answer(self, alias: Seq<char>, touch: bool) -> CachedStoresView {
        match self.repo(alias).mode {
            None => CachedStoresView::Miss,
            Some(RepoState::Write) => CachedStoresView::Hit { start_watcher: false },
            Some(RepoState::Readonly) => CachedStoresView::Hit { start_watcher: false },
            Some(RepoState::Conflicted) => CachedStoresView::Refused(conflicted_text(alias)),
            Some(RepoState::Warm) => if !touch {
                CachedStoresView::Hit { start_watcher: false }
            } else if self.config.resolve(alias) is None {
                CachedStoresView::Refused(unknown_alias_text(alias))
            } else {
                CachedStoresView::Hit { start_watcher: true }
            },
        }
    }

    /// This state after the cache answered a query of `alias`: a query that counts touches
    /// what is open, and turns a warm repository into one that is written to.
    pub open spec fn cache_used(self, alias: Seq<char>, touch: bool, now: u64) -> StateView {
        if self.repo(alias).mode is None || !touch {
            self
        } else if self.cached_answer(alias, touch) == (CachedStoresView::Hit {
            start_watcher: true,
        }) {
            self.with_repo(
                alias,
                RepoView {
                    mode: Some(RepoState::Write),
                    watcher: true,
                    last_access: Some(now),
                    ..self.repo(alias)
                },
            )
        } else {
            self.touched(alias, now)
        }
    }

    /// This state without a cached conflict of `alias`.
    pub open spec fn conflict_forgotten(self, alias: Seq<char>) -> StateView {
        if self.repo(alias).mode == Some(RepoState::Conflicted) {
            self.with_repo(alias, RepoView { mode: None, ..self.repo(alias) })
        } else {
            self
        }
    }

    /// This state with `alias` open in another way.
    pub open spec fn reopened(self, alias: Seq<char>, mode: RepoState) -> StateView {
        self.with_repo(alias, RepoView { mode: Some(mode), ..self.repo(alias) })
    }
}

impl ServeState {
    /// Stop the file system watcher for a repository.
    ///
    /// A repository that is open read-only or in conflict cannot be reindexed: it is closed,
    /// so that the caller can open it for writing.
    pub fn stop_fsw(&mut self, alias: &str) -> (r: StopWatcher)
        ensures
            r == old(self)@.stop_answer(alias@),
            final(self)@ == old(self)@.watcher_stopped(alias@),
    {
        let record: RepoRuntime = self.repo(alias);
        match record.mode {
            Some(RepoState::Write) => StopWatcher::Open { cancel_watcher: true },
            Some(RepoState::Warm) => StopWatcher::Open { cancel_watcher: false },
            Some(RepoState::Readonly) => {
                let _ = self.close_repo(alias);
                StopWatcher::NotOpen
            },
            Some(RepoState::Conflicted) => {
                let _ = self.close_repo(alias);
                StopWatcher::NotOpen
            },
            None => StopWatcher::NotOpen,
        }
    }

    /// Closes a repository and drops its cached symbol status; tells whether it was open.
    pub fn close_repo(&mut self, alias: &str) -> (r: bool)
        ensures
            r == (old(self)@.repo(alias@).mode is Some),
            final(self)@ == old(self)@.closed(alias@),
    {
        self.clear_csharp_index_state(alias);
        let mut record: RepoRuntime = self.repo(alias);
        let open: bool = record.mode.is_some();
        record.mode = None;
        self.set_repo(alias, record);
        assert(self@.repos =~= old(self)@.closed(alias@).repos);
        open
    }

    /// Fast-path lookup of a repository that is already open.
    ///
    /// A query that counts (`touch`) touches the repository and turns a warm one into one
    /// that is written to, with a file watcher. Other callers change nothing.
    pub fn try_cached_stores(&mut self, alias: &str, touch: bool, now: u64) -> (r: CachedStores)
        ensures
            r@ == old(self)@.cached_answer(alias@, touch),
            final(self)@ == old(self)@.cache_used(alias@, touch, now),
    {
        let mut record: RepoRuntime = self.repo(alias);
        let mode: RepoState = match record.mode {
            Some(m) => m,
            None => {
                return CachedStores::Miss;
            },
        };
        let answer: CachedStores = match mode {
            RepoState::Write => CachedStores::Hit { start_watcher: false },
            RepoState::Readonly => CachedStores::Hit { start_watcher: false },
            RepoState::Conflicted => CachedStores::Refused(conflicted_msg(alias)),
            RepoState::Warm => if !touch {
                CachedStores::Hit { start_watcher: false }
            } else {
                match self.config().resolve(alias) {
                    Some(_) => {
                        record.mode = Some(RepoState::Write);
                        record.watcher = true;
                        CachedStores::Hit { start_watcher: true }
                    },
                    None => CachedStores::Refused(unknown_alias_msg(alias)),
                }
            },
        };
        if touch {
            record.last_access = Some(now);
            self.set_repo(alias, record);
        }
        answer
    }

    /// Looks a repository up for a query. A cached conflict is a stale failure: it is
    /// dropped, so that the repository is opened afresh.
    pub fn lookup_stores(&mut self, alias: &str, touch: bool, now: u64) -> (r: CachedStores)
        ensures
            r@ == old(self)@.conflict_forgotten(alias@).cached_answer(alias@, touch),
            final(self)@ == old(self)@.conflict_forgotten(alias@).cache_used(alias@, touch, now),
    {
        let mut record: RepoRuntime = self.repo(alias);
        match record.mode {
            Some(RepoState::Conflicted) => {
                record.mode = None;
                self.set_repo(alias, record);
            },
            _ => {},
        }
        self.try_cached_stores(alias, touch, now)
    }

    /// The lock status of a repository; `None` when it is not open.
    pub fn repo_lock_status(&self, alias: &str) -> (r: Option<&'static str>)
        ensures
            match self@.repo(alias@).mode {
                Some(RepoState::Write) => r matches Some(s) && s@ == "write"@,
                Some(RepoState::Warm) => r matches Some(s) && s@ == "warm"@,
                Some(RepoState::Readonly) => r matches Some(s) && s@ == "readonly"@,
                Some(RepoState::Conflicted) => r matches Some(s) && s@ == "conflicted"@,
                None => r is None,
            },
    {
        let record: RepoRuntime = self.repo(alias);
        match record.mode {
            Some(RepoState::Write) => Some("write"),
            Some(RepoState::Warm) => Some("warm"),
            Some(RepoState::Readonly) => Some("readonly"),
            Some(RepoState::Conflicted) => Some("conflicted"),
            None => None,
        }
    }

    /// Whether the stores of a repository are open: not closed, and not in conflict.
    pub fn has_opened_stores(&self, alias: &str) -> (r: bool)
        ensures
            r == (self@.repo(alias@).mode matches Some(m) && m != RepoState::Conflicted),
    {
        let record: RepoRuntime = self.repo(alias);
        match record.mode {
            Some(RepoState::Conflicted) => false,
            Some(_) => true,
            None => false,
        }
    }
}

/// What to open a repository with.
pub struct OpenPlan {
    pub path: String,
    /// Whether its index is owned by another writer.
    pub force_readonly: bool,
}

/// The next step of opening a store.
pub enum OpenStep {
    /// Opening is refused.
    Refuse(String),
    /// Open it for reading.
    TryReadonly,
    /// Open it for writing.
    TryWrite,
}

/// How a store came to be open.
#[derive(Debug, Clone, Copy, PartialEq, Eq, Structural)]
pub enum OpenedStores {
    /// Open for writing; the caller decides what state the repository is in.
    Write,
    /// Open for reading, and registered so.
    Readonly,
}

/// The error for a database that is not there.
pub open spec fn missing_database_text(db_path: Seq<char>, parent: Seq<char>) -> Seq<char> {
    "Database not found at "@ + db_path
        + ". This usually means the repo was removed externally. Run `codesearch index add "@
        + parent + "` to recreate, or `codesearch index rm "@ + parent
        + "` to clean up the config entry."@
}

/// The first step of opening the store at `db_path`, whose parent directory is `parent`.
///
/// A database that is not there is refused unless it may be created; one whose index is
/// owned by another writer is only ever opened for reading.
pub fn first_open_step(
    db_exists: bool,
    allow_create: bool,
    force_readonly: bool,
    db_path: &str,
    parent: &str,
) -> (r: OpenStep)
    ensures
        !db_exists && !allow_create <==> r is Refuse,
        r matches OpenStep::Refuse(e) ==> e@ == missing_database_text(db_path@, parent@),
        db_exists || allow_create ==> (force_readonly <==> r is TryReadonly) && (!force_readonly
            <==> r is TryWrite),
{
    if !db_exists && !allow_create {
        let mut e: String = "Database not found at ".to_owned();
        e.push_str(db_path);
        e.push_str(
            ". This usually means the repo was removed externally. Run `codesearch index add ",
        );
        e.push_str(parent);
        e.push_str("` to recreate, or `codesearch index rm ");
        e.push_str(parent);
        e.push_str("` to clean up the config entry.");
        return OpenStep::Refuse(e);
    }
    if force_readonly {
        OpenStep::TryReadonly
    } else {
        OpenStep::TryWrite
    }
}

/// The error for a database that could not be opened for writing.
pub open spec fn create_failed_text(alias: Seq<char>, error: Seq<char>) -> Seq<char> {
    "Failed to open/create database for "@ + alias + ": "@ + error
}

/// The step after a store could not be opened for writing: a caller that wants to write
/// gets the error, any other gets the store for reading.
pub fn write_open_failed(alias: &str, allow_create: bool, error: &str) -> (r: OpenStep)
    ensures
        allow_create <==> r is Refuse,
        r matches OpenStep::Refuse(e) ==> e@ == create_failed_text(alias@, error@),
        !allow_create <==> r is TryReadonly,
{
    if allow_create {
        let mut e: String = "Failed to open/create database for ".to_owned();
        e.push_str(alias);
        e.push_str(": ");
        e.push_str(error);
        OpenStep::Refuse(e)
    } else {
        OpenStep::TryReadonly
    }
}

/// The dimension to open a store with: the given one, or else the recorded one, or else
/// `default`.
pub fn open_dimensions(given: Option<usize>, recorded: Option<usize>, default: usize) -> (r: usize)
    ensures
        r == (match given {
            Some(d) => d,
            None => match recorded {
                Some(d) => d,
                None => default,
            },
        }),
{
    match given {
        Some(d) => d,
        None => match recorded {
            Some(d) => d,
            None => default,
        },
    }
}

/// Whether the vector index of a store has to be built before it is searched: there are
/// chunks, and no graph over them.
pub fn needs_build(total_chunks: usize, indexed: bool) -> (r: bool)
    ensures
        r == (total_chunks > 0 && !indexed),
{
    total_chunks > 0 && !indexed
}

impl ServeState {
    /// What to open the repository `alias` with.
    pub fn open_plan(&self, alias: &str) -> (r: Result<OpenPlan, String>)
        ensures
            match r {
                Ok(p) => self@.config.resolve(alias@) == Some(p.path@) && p.force_readonly
                    == self@.config.is_read_only(alias@),
                Err(e) => self@.config.resolve(alias@) is None && e@ == unknown_alias_text(alias@),
            },
    {
        match self.config().resolve(alias) {
            Some(path) => {
                let force_readonly: bool = self.config().is_read_only(alias);
                Ok(OpenPlan { path, force_readonly })
            },
            None => Err(unknown_alias_msg(alias)),
        }
    }

    /// Registers the outcome of opening a store for reading: read-only, or in conflict.
    pub fn readonly_open_finished(&mut self, alias: &str, opened: bool) -> (r: Result<
        OpenedStores,
        String,
    >)
        ensures
            opened <==> r is Ok,
            r matches Ok(o) ==> o == OpenedStores::Readonly,
            r matches Err(e) ==> e@ == conflicted_text(alias@),
            final(self)@ == (if opened {
                old(self)@.reopened(alias@, RepoState::Readonly)
            } else {
                old(self)@.reopened(alias@, RepoState::Conflicted)
            }),
    {
        let mut record: RepoRuntime = self.repo(alias);
        record.mode = Some(
            if opened {
                RepoState::Readonly
            } else {
                RepoState::Conflicted
            },
        );
        self.set_repo(alias, record);
        if opened {
            Ok(OpenedStores::Readonly)
        } else {
            Err(conflicted_msg(alias))
        }
    }

    /// Registers a store that a query opened.
    ///
    /// A store opened for writing becomes warm for a fan-out query, and is written to for a
    /// query that counts; `watching` tells whether its file watcher was started. Opening
    /// always starts the idle timer.
    pub fn query_open_finished(
        &mut self,
        alias: &str,
        opened: OpenedStores,
        touch: bool,
        watching: bool,
        now: u64,
    )
        ensures
            final(self)@ == (match opened {
                OpenedStores::Readonly => old(self)@.touched(alias@, now),
                OpenedStores::Write => if touch {
                    old(self)@.with_repo(
                        alias@,
                        RepoView {
                            mode: Some(RepoState::Write),
                            watcher: old(self)@.repo(alias@).watcher || watching,
                            last_access: Some(now),
                            ..old(self)@.repo(alias@)
                        },
                    )
                } else {
                    old(self)@.with_repo(
                        alias@,
                        RepoView {
                            mode: Some(RepoState::Warm),
                            last_access: Some(now),
                            ..old(self)@.repo(alias@)
                        },
                    )
                },
            }),
    {
        let mut record: RepoRuntime = self.repo(alias);
        match opened {
            OpenedStores::Readonly => {},
            OpenedStores::Write => if touch {
                record.mode = Some(RepoState::Write);
                record.watcher = record.watcher || watching;
            } else {
                record.mode = Some(RepoState::Warm);
            },
        }
        record.last_access = Some(now);
        self.set_repo(alias, record);
    }

    /// Whether a repository still has to be warmed up: `Ok(false)` when it is open already,
    /// an error when it is in conflict.
    pub fn warmup_needed(&self, alias: &str) -> (r: Result<bool, String>)
        ensures
            match self@.repo(alias@).mode {
                None => r == Ok::<bool, String>(true),
                Some(RepoState::Conflicted) => r matches Err(e) && e@ == conflicted_text(alias@),
                Some(_) => r == Ok::<bool, String>(false),
            },
    {
        let record: RepoRuntime = self.repo(alias);
        match record.mode {
            None => Ok(true),
            Some(RepoState::Conflicted) => Err(conflicted_msg(alias)),
            Some(_) => Ok(false),
        }
    }

    /// Registers a store that was opened to warm a repository up: warm when it can be
    /// written to. The idle timer starts.
    pub fn warmup_finished(&mut self, alias: &str, opened: OpenedStores, now: u64)
        ensures
            final(self)@ == (match opened {
                OpenedStores::Readonly => old(self)@.touched(alias@, now),
                OpenedStores::Write => old(self)@.with_repo(
                    alias@,
                    RepoView {
                        mode: Some(RepoState::Warm),
                        last_access: Some(now),
                        ..old(self)@.repo(alias@)
                    },
                ),
            }),
    {
        let mut record: RepoRuntime = self.repo(alias);
        match opened {
            OpenedStores::Readonly => {},
            OpenedStores::Write => {
                record.mode = Some(RepoState::Warm);
            },
        }
        record.last_access = Some(now);
        self.set_repo(alias, record);
    }

    /// The path to restart the file watcher of a repository on; `None` when it is not
    /// registered any more, and nothing is restarted.
    pub fn restart_path(&self, alias: &str) -> (r: Option<String>)
        ensures
            opt_text(r) == self@.config.resolve(alias@),
    {
        self.config().resolve(alias)
    }

    /// Registers a restarted file watcher: a repository that is open is written to.
    pub fn watcher_restarted(&mut self, alias: &str)
        ensures
            final(self)@ == old(self)@.with_repo(
                alias@,
                RepoView {
                    watcher: true,
                    mode: match old(self)@.repo(alias@).mode {
                        Some(_) => Some(RepoState::Write),
                        None => None,
                    },
                    ..old(self)@.repo(alias@)
                },
            ),
    {
        let mut record: RepoRuntime = self.repo(alias);
        record.watcher = true;
        if record.mode.is_some() {
            record.mode = Some(RepoState::Write);
        }
        self.set_repo(alias, record);
    }

    /// The file watcher's task has been joined or let go.
    pub fn watcher_gone(&mut self, alias: &str) -> (r: bool)
        ensures
            r == old(self)@.repo(alias@).watcher,
            final(self)@ == old(self)@.with_repo(
                alias@,
                RepoView { watcher: false, ..old(self)@.repo(alias@) },
            ),
    {
        let mut record: RepoRuntime = self.repo(alias);
        let had: bool = record.watcher;
        record.watcher = false;
        self.set_repo(alias, record);
        had
    }

    /// Takes the background indexing task of `alias` out, to be cancelled and joined.
    pub fn take_index_task(&mut self, alias: &str) -> (r: bool)
        ensures
            r == (old(self)@.repo(alias@).index_task is Some),
            final(self)@ == old(self)@.with_repo(
                alias@,
                RepoView { index_task: None, ..old(self)@.repo(alias@) },
            ),
    {
        let mut record: RepoRuntime = self.repo(alias);
        let had: bool = record.index_task.is_some();
        record.index_task = None;
        self.set_repo(alias, record);
        had
    }

    /// Whether a background task may go on with `alias`: its token is not cancelled, and the
    /// alias is still registered.
    pub fn is_alias_live(&self, alias: &str, cancelled: bool) -> (r: bool)
        ensures
            r == (!cancelled && self@.config.resolve(alias@) is Some),
    {
        !cancelled && self.config().resolve(alias).is_some()
    }

    /// Whether the database directory of `alias` may be deleted by a task that was stopped:
    /// only when the alias is really gone from the configuration.
    pub fn self_clean_if_unregistered(&self, alias: &str) -> (r: bool)
        ensures
            r == (self@.config.resolve(alias@) is None),
    {
        self.config().resolve(alias).is_none()
    }

    /// The aliases of all registered repositories, each once.
    pub fn aliases(&self) -> (r: Vec<String>)
        ensures
            texts(r@) == self@.config.aliases(),
            texts(r@).no_duplicates(),
    {
        self.config().aliases()
    }
}

/// A repository that was evicted for being idle.
pub struct Evicted {
    pub alias: String,
    /// Whether the token of its file watcher is to be cancelled.
    pub cancel_watcher: bool,
    /// Whether an indexing task still runs, which may hold its store.
    pub leaked_task: bool,
}

/// What a round of the idle reaper did.
pub struct Reaped {
    pub evicted: Vec<Evicted>,
    /// Aliases whose background task is to be cancelled, because its marker was stale.
    pub cancel_tasks: Vec<String>,
}

/// Whether the record `r` is evicted at `now`: it was touched, it is not being indexed, and
/// it was last touched at least `idle_secs` ago.
pub open spec fn evictable(r: RepoView, now: u64, idle_secs: u64, max_secs: u64) -> bool {
    &&& r.last_access matches Some(at) && at_least_ago(now, at, idle_secs)
    &&& !(r.indexing_since matches Some(since) && !at_least_ago(now, since, max_secs))
}

/// The record `r` after a round of the idle reaper.
pub open spec fn reaped(r: RepoView, now: u64, idle_secs: u64, max_secs: u64, finished: bool) -> RepoView {
    if r.last_access is None {
        r
    } else {
        let looked = if r.indexing_since matches Some(since) && at_least_ago(now, since, max_secs) {
            healed(r, finished)
        } else {
            r
        };
        if evictable(r, now, idle_secs, max_secs) {
            RepoView {
                mode: None,
                last_access: None,
                watcher: false,
                csharp: None,
                csharp_error: None,
                ..looked
            }
        } else {
            looked
        }
    }
}

/// The aliases of the evicted repositories.
pub open spec fn evicted_names(e: Seq<Evicted>) -> Seq<Seq<char>> {
    e.map_values(|x: Evicted| x.alias@)
}

impl ServeState {
    /// Evict all repositories that have been idle for at least `idle_secs`.
    ///
    /// Closes their stores and stops their watchers; each is opened again on the next query.
    /// A repository that is being indexed is never evicted. `finished` lists the aliases
    /// whose background task has finished.
    pub fn evict_idle_repos(
        &mut self,
        now: u64,
        idle_secs: u64,
        max_secs: u64,
        finished: &Vec<String>,
    ) -> (r: Reaped)
        ensures
            final(self)@ == (StateView { repos: final(self)@.repos, ..old(self)@ }),
            forall|a: Seq<char>| #[trigger]
                final(self)@.repo(a) == reaped(
                    old(self)@.repo(a),
                    now,
                    idle_secs,
                    max_secs,
                    texts(finished@).contains(a),
                ),
            evicted_names(r.evicted@).no_duplicates(),
            forall|a: Seq<char>| #[trigger]
                evicted_names(r.evicted@).contains(a) <==> evictable(
                    old(self)@.repo(a),
                    now,
                    idle_secs,
                    max_secs,
                ),
            forall|i: int|
                0 <= i < r.evicted@.len() ==> (#[trigger] r.evicted@[i]).cancel_watcher == (old(self)@.repo(r.evicted@[i].alias@).mode == Some(RepoState::Write)),
            forall|i: int|
                0 <= i < r.evicted@.len() ==> (#[trigger] r.evicted@[i]).leaked_task == (old(self)@.repo(r.evicted@[i].alias@).mode == Some(RepoState::Write) && reaped(
                    old(self)@.repo(r.evicted@[i].alias@),
                    now,
                    idle_secs,
                    max_secs,
                    texts(finished@).contains(r.evicted@[i].alias@),
                ).index_task is Some && !texts(finished@).contains(r.evicted@[i].alias@)),
            forall|a: Seq<char>| #[trigger]
                texts(r.cancel_tasks@).contains(a) <==> (old(self)@.repo(a).last_access is Some
                    && old(self)@.stale(a, now, max_secs) && old(self)@.repo(a).index_task is Some
                    && !texts(finished@).contains(a)),
    {
        let ghost before = self@;
        let names: Vec<String> = self.known_aliases();
        let ghost keys = texts(names@);
        let mut evicted: Vec<Evicted> = Vec::new();
        let mut cancel_tasks: Vec<String> = Vec::new();
        let mut i: usize = 0;
        while i < names.len()
            invariant
                i <= names@.len(),
                keys == texts(names@),
                keys.no_duplicates(),
                forall|a: Seq<char>| #[trigger] keys.contains(a) <==> before.repos.contains_key(a),
                self@ == (StateView { repos: self@.repos, ..before }),
                forall|a: Seq<char>| #[trigger] self@.repos.contains_key(a) <==> before.repos.contains_key(a),
                forall|j: int|
                    0 <= j < i ==> self@.repo(#[trigger] keys[j]) == reaped(
                        before.repo(keys[j]),
                        now,
                        idle_secs,
                        max_secs,
                        texts(finished@).contains(keys[j]),
                    ),
                forall|j: int|
                    i <= j < keys.len() ==> self@.repo(#[trigger] keys[j]) == before.repo(keys[j]),
                evicted_names(evicted@).no_duplicates(),
                forall|a: Seq<char>| #[trigger]
                    evicted_names(evicted@).contains(a) <==> keys.take(i as int).contains(a)
                        && evictable(before.repo(a), now, idle_secs, max_secs),
                forall|j: int|
                    0 <= j < evicted@.len() ==> (#[trigger] evicted@[j]).cancel_watcher == (
                    before.repo(evicted@[j].alias@).mode == Some(RepoState::Write)),
                forall|j: int|
                    0 <= j < evicted@.len() ==> (#[trigger] evicted@[j]).leaked_task == (
                    before.repo(evicted@[j].alias@).mode == Some(RepoState::Write) && reaped(
                        before.repo(evicted@[j].alias@),
                        now,
                        idle_secs,
                        max_secs,
                        texts(finished@).contains(evicted@[j].alias@),
                    ).index_task is Some && !texts(finished@).contains(evicted@[j].alias@)),
                forall|a: Seq<char>| #[trigger]
                    texts(cancel_tasks@).contains(a) <==> keys.take(i as int).contains(a) && (
                    before.repo(a).last_access is Some && before.stale(a, now, max_secs)
                        && before.repo(a).index_task is Some && !texts(finished@).contains(a)),
            decreases names.len() - i,
        {
            let ghost state_before = self@;
            let ghost ev_before = evicted@;
            let ghost ct_before = cancel_tasks@;
            let alias: &String = &names[i];
            let ghost a0 = alias@;
            assert(keys[i as int] == a0);
            let done: bool = listed(finished, alias.as_str());
            let mut record: RepoRuntime = self.repo(alias.as_str());
            if record.last_access.is_some() {
                let accessed: u64 = record.last_access.unwrap();
                let probe: IndexingProbe = self.is_indexing(alias.as_str(), now, max_secs, done);
                let mut looked: RepoRuntime = self.repo(alias.as_str());
                if probe.cancel_task {
                    cancel_tasks.push(alias.clone());
                }
                if !probe.indexing && is_at_least_ago(now, accessed, idle_secs) {
                    let writing: bool = match looked.mode {
                        Some(RepoState::Write) => true,
                        _ => false,
                    };
                    let leaked: bool = writing && looked.index_task.is_some() && !done;
                    looked.mode = None;
                    looked.last_access = None;
                    looked.watcher = false;
                    looked.csharp = None;
                    looked.csharp_error = None;
                    self.set_repo(alias.as_str(), looked);
                    evicted.push(
                        Evicted { alias: alias.clone(), cancel_watcher: writing, leaked_task: leaked },
                    );
                }
            }
            proof {
                lemma_take_contains(keys, i as int);
                assert(self@.repo(a0) == reaped(
                    before.repo(a0),
                    now,
                    idle_secs,
                    max_secs,
                    texts(finished@).contains(a0),
                ));
                assert forall|j: int| 0 <= j < keys.len() && j != i implies self@.repo(
                    #[trigger] keys[j],
                ) == state_before.repo(keys[j]) by {
                    assert(keys[j] != a0);
                }
                let gone = evictable(before.repo(a0), now, idle_secs, max_secs);
                if gone {
                    assert(evicted_names(evicted@) =~= evicted_names(ev_before).push(a0));
                    assert(!keys.take(i as int).contains(a0)) by {
                        lemma_not_before(keys, i as int);
                    }
                    assert(!evicted_names(ev_before).contains(a0));
                    lemma_push_members(evicted_names(ev_before), a0);
                } else {
                    assert(evicted@ == ev_before);
                }
                if cancel_tasks@.len() != ct_before.len() {
                    assert(texts(cancel_tasks@) =~= texts(ct_before).push(a0));
                    lemma_push_members(texts(ct_before), a0);
                } else {
                    assert(cancel_tasks@ == ct_before);
                }
            }
            i += 1;
        }
        proof {
            assert(keys.take(keys.len() as int) =~= keys);
            assert forall|a: Seq<char>| #[trigger] self@.repo(a) == reaped(
                before.repo(a),
                now,
                idle_secs,
                max_secs,
                texts(finished@).contains(a),
            ) by {
                if keys.contains(a) {
                    let j = keys.index_of(a);
                    assert(keys[j] == a);
                } else {
                    assert(!before.repos.contains_key(a));
                    assert(!self@.repos.contains_key(a));
                }
            }
            assert forall|a: Seq<char>| #[trigger] evicted_names(evicted@).contains(a) <==> evictable(
                before.repo(a),
                now,
                idle_secs,
                max_secs,
            ) by {
                if !keys.contains(a) {
                    assert(!before.repos.contains_key(a));
                }
            }
            assert forall|a: Seq<char>| #[trigger] texts(cancel_tasks@).contains(a) <==> (before.repo(
                a,
            ).last_access is Some && before.stale(a, now, max_secs) && before.repo(a).index_task is Some
                && !texts(finished@).contains(a)) by {
                if !keys.contains(a) {
                    assert(!before.repos.contains_key(a));
                }
            }
        }
        Reaped { evicted, cancel_tasks }
    }

    /// The aliases whose background task was cancelled and is still registered, because a
    /// look found its marker stale. The token of each is to be cancelled.
    pub fn cancelled_tasks(&self) -> (r: Vec<String>)
        ensures
            texts(r@).no_duplicates(),
            forall|a: Seq<char>| #[trigger]
                texts(r@).contains(a) <==> self@.repo(a).index_task == Some(
                    IndexTask { cancelled: true },
                ),
    {
        let names: Vec<String> = self.known_aliases();
        let ghost keys = texts(names@);
        let mut r: Vec<String> = Vec::new();
        let mut i: usize = 0;
        while i < names.len()
            invariant
                i <= names@.len(),
                keys == texts(names@),
                keys.no_duplicates(),
                texts(r@).no_duplicates(),
                forall|a: Seq<char>| #[trigger]
                    texts(r@).contains(a) <==> keys.take(i as int).contains(a) && self@.repo(
                        a,
                    ).index_task == Some(IndexTask { cancelled: true }),
            decreases names.len() - i,
        {
            let ghost before = r@;
            let ghost a0 = keys[i as int];
            let record: RepoRuntime = self.repo(names[i].as_str());
            let cancelled: bool = match record.index_task {
                Some(task) => task.cancelled,
                None => false,
            };
            if cancelled {
                r.push(names[i].clone());
            }
            proof {
                lemma_take_contains(keys, i as int);
                lemma_not_before(keys, i as int);
                if cancelled {
                    assert(texts(r@) =~= texts(before).push(a0));
                    lemma_push_members(texts(before), a0);
                }
            }
            i += 1;
        }
        proof {
            assert(keys.take(keys.len() as int) =~= keys);
            assert forall|a: Seq<char>| #[trigger] texts(r@).contains(a) <==> self@.repo(
                a,
            ).index_task == Some(IndexTask { cancelled: true }) by {
                if !keys.contains(a) {
                    assert(!self@.repos.contains_key(a));
                }
            }
        }
        r
    }
}

/// Whether `list` holds the text `s`.
pub fn listed(list: &Vec<String>, s: &str) -> (r: bool)
    ensures
        r == texts(list@).contains(s@),
{
    match position_of(list, s) {
        Some(i) => {
            assert(texts(list@)[i as int] == s@);
            true
        },
        None => {
            assert forall|j: int| 0 <= j < list@.len() implies texts(list@)[j] != s@ by {
                assert(list@[j]@ != s@);
            }
            false
        },
    }
}

pub(crate) proof fn lemma_take_contains<A>(s: Seq<A>, i: int)
    requires
        0 <= i < s.len(),
    ensures
        forall|a: A| #[trigger] s.take(i + 1).contains(a) <==> s.take(i).contains(a) || a == s[i],
{
    assert(s.take(i + 1) =~= s.take(i).push(s[i]));
    lemma_push_members(s.take(i), s[i]);
}

pub(crate) proof fn lemma_push_members<A>(s: Seq<A>, x: A)
    ensures
        forall|a: A| #[trigger] s.push(x).contains(a) <==> s.contains(a) || a == x,
        s.no_duplicates() && !s.contains(x) ==> s.push(x).no_duplicates(),
{
    assert forall|a: A| #[trigger] s.push(x).contains(a) <==> s.contains(a) || a == x by {
        if s.contains(a) {
            let j = s.index_of(a);
            assert(s.push(x)[j] == a);
        }
        if a == x {
            assert(s.push(x)[s.len() as int] == a);
        }
        if s.push(x).contains(a) && a != x {
            let j = s.push(x).index_of(a);
            assert(s[j] == a);
        }
    }
}

proof fn lemma_not_before<A>(s: Seq<A>, i: int)
    requires
        s.no_duplicates(),
        0 <= i < s.len(),
    ensures
        !s.take(i).contains(s[i]),
{
    if s.take(i).contains(s[i]) {
        let j = s.take(i).index_of(s[i]);
        assert(s[j] == s[i]);
    }
}

/// A repository that was evicted keeps no cached symbol status: an old error does not outlive
/// it.
pub proof fn law_eviction_clears_symbol_status(
    r: RepoView,
    now: u64,
    idle_secs: u64,
    max_secs: u64,
    finished: bool,
)
    requires
        evictable(r, now, idle_secs, max_secs),
    ensures
        reaped(r, now, idle_secs, max_secs, finished).csharp is None,
        reaped(r, now, idle_secs, max_secs, finished).csharp_error is None,
        reaped(r, now, idle_secs, max_secs, finished).mode is None,
{
}

/// A repository that is being indexed is never evicted: the reaper leaves its record alone.
pub proof fn law_indexing_is_never_evicted(
    s: StateView,
    alias: Seq<char>,
    now: u64,
    idle_secs: u64,
    max_secs: u64,
    finished: bool,
)
    requires
        s.busy(alias, now, max_secs),
    ensures
        !evictable(s.repo(alias), now, idle_secs, max_secs),
        reaped(s.repo(alias), now, idle_secs, max_secs, finished) == s.repo(alias),
{
}

/// After a reindex has begun, another is refused until it ends or the limit has passed.
pub proof fn law_begin_excludes_another(
    s: StateView,
    alias: Seq<char>,
    now: u64,
    later: u64,
    max_secs: u64,
)
    requires
        now <= later,
        later - now < max_secs * 1_000_000_000,
    ensures
        s.begun(alias, now).busy(alias, later, max_secs),
        !s.begun(alias, now).ended(alias).busy(alias, later, max_secs),
{
}

/// Beginning and ending touch no other repository.
pub proof fn law_markers_are_per_alias(s: StateView, alias: Seq<char>, other: Seq<char>, now: u64)
    requires
        alias != other,
    ensures
        s.begun(alias, now).repo(other) == s.repo(other),
        s.ended(alias).repo(other) == s.repo(other),
{
}

/// A marker that was never removed stops counting once the limit has passed, and a look at it
/// removes it and cancels the task behind it.
pub proof fn law_stale_marker_heals(
    s: StateView,
    alias: Seq<char>,
    now: u64,
    later: u64,
    max_secs: u64,
)
    requires
        now <= later,
        later - now >= max_secs * 1_000_000_000,
    ensures
        !s.begun(alias, now).busy(alias, later, max_secs),
        s.begun(alias, now).probed(alias, later, max_secs, false).repo(alias).indexing_since is None,
        s.repo(alias).index_task is Some ==> s.begun(alias, now).probed(
            alias,
            later,
            max_secs,
            false,
        ).repo(alias).index_task == Some(IndexTask { cancelled: true }),
{
}

/// A look at a marker within the limit changes nothing: a live reindex is never cancelled.
pub proof fn law_fresh_marker_is_left_alone(
    s: StateView,
    alias: Seq<char>,
    now: u64,
    max_secs: u64,
    finished: bool,
)
    requires
        s.busy(alias, now, max_secs),
    ensures
        s.probed(alias, now, max_secs, finished) == s,
{
}

/// The recovery queue stays in order: nothing waits twice, and a worker is alive as long as
/// something waits.
pub proof fn law_recovery_queue_stays_in_order(s: StateView, alias: Seq<char>)
    requires
        s.queue_in_order(),
    ensures
        s.enqueued(alias).queue_in_order(),
        s.dequeued().queue_in_order(),
        s.accepts_recovery(alias) ==> s.enqueued(alias).queue.contains(alias),
        s.enqueued(alias).enqueued(alias) == s.enqueued(alias),
{
    lemma_push_members(s.queue, alias);
    if s.queue.len() > 0 {
        let rest = s.queue.drop_first();
        assert forall|i: int, j: int| 0 <= i < rest.len() && 0 <= j < rest.len() && i != j implies rest[i]
            != rest[j] by {
            assert(s.queue[i + 1] != s.queue[j + 1]);
        }
    }
}

/// A database is wiped at most once: after a wipe every further request for that alias is
/// refused and queues nothing.
pub proof fn law_second_wipe_is_refused(s: StateView, alias: Seq<char>)
    requires
        s.repo(alias).wiped,
    ensures
        !s.accepts_recovery(alias),
        s.enqueued(alias) == s,
{
}

/// A cached conflict is never replayed: the next query opens the repository afresh.
pub proof fn law_conflict_is_retried(s: StateView, alias: Seq<char>, touch: bool)
    requires
        s.repo(alias).mode == Some(RepoState::Conflicted),
    ensures
        s.conflict_forgotten(alias).cached_answer(alias, touch) is Miss,
{
}

/// A query that does not count changes nothing: it neither resets an idle timer nor starts a
/// watcher.
pub proof fn law_fan_out_changes_nothing(s: StateView, alias: Seq<char>, now: u64)
    ensures
        s.cache_used(alias, false, now) == s,
        s.cached_answer(alias, false) != (CachedStoresView::Hit { start_watcher: true }),
{
}

/// The first query that counts turns a warm repository into one that is written to, and
/// starts one watcher; the next starts none.
pub proof fn law_one_watcher_per_warm_repository(
    s: StateView,
    alias: Seq<char>,
    now: u64,
    later: u64,
)
    requires
        s.repo(alias).mode == Some(RepoState::Warm),
        s.config.resolve(alias) is Some,
    ensures
        s.cached_answer(alias, true) == (CachedStoresView::Hit { start_watcher: true }),
        s.cache_used(alias, true, now).repo(alias).mode == Some(RepoState::Write),
        s.cache_used(alias, true, now).cached_answer(alias, true) == (CachedStoresView::Hit {
            start_watcher: false,
        }),
{
}

/// A session that connects and disconnects leaves the count of active sessions as it was.
pub proof fn law_sessions_balance(s: StateView)
    ensures
        s.connected().disconnected().active_sessions == s.active_sessions,
{
}

/// A save asked for while another is being made is not lost: its deadline stays, and so does
/// the worker.
pub proof fn law_scheduled_save_is_kept(
    s: StateView,
    due: u64,
    scheduled_at: u64,
    debounce_secs: u64,
)
    requires
        s.persist_deadline == due,
        due <= scheduled_at,
        debounce_secs > 0,
        scheduled_at + debounce_secs * 1000 <= u64::MAX,
    ensures
        s.save_scheduled(scheduled_at, debounce_secs).saved(due) == s.save_scheduled(
            scheduled_at,
            debounce_secs,
        ),
        s.save_scheduled(scheduled_at, debounce_secs).saved(due).persist_worker,
{
}

} // verus!
