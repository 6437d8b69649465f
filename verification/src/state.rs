//! The state of a running server: what is open, what is being indexed, what was asked for
//! and when.
//!
//! Instants are nanoseconds since the server started; limits are whole seconds.
use crate::config::{ConfigView, ReposConfig};
use crate::text::{copy_opt, opt_text, same_text, texts};
use dashmap::DashMap;
use std::collections::VecDeque;
use vstd::prelude::*;

verus! {

/// How a repository is open.
#[derive(Debug, Clone, Copy, PartialEq, Eq, Structural)]
pub enum RepoState {
    /// Writable: full file watching and git HEAD watching active.
    Write,
    /// Opened and vector index built, but no file system watcher running.
    Warm,
    /// Another process holds the write lock: read-only access, no live updates.
    Readonly,
    /// Both write and readonly open failed.
    Conflicted,
}

/// Status of the C# symbol index of a repository.
#[derive(Debug, Clone, Copy, PartialEq, Eq, Structural)]
pub enum CSharpIndexStatus {
    /// No C# helper detected or no index built.
    Absent,
    /// Helper available and index built successfully.
    Ready,
    /// Index exists but had errors or is stale.
    Error,
    /// Symbol index is currently being built.
    Indexing,
}

/// What a symbol rebuild tells of itself.
pub enum SymbolRebuildSignal {
    Started,
    Succeeded,
    Failed(String),
}

/// The background indexing task of a repository.
#[derive(Debug, Clone, Copy, PartialEq, Eq, Structural)]
pub struct IndexTask {
    /// Whether its token was cancelled.
    pub cancelled: bool,
}

/// A tool call: its name and when it was made.
pub struct ToolCall {
    pub tool: String,
    pub at: u64,
}

/// What the server keeps of one repository.
pub struct RepoRuntime {
    /// How it is open; `None` when it is closed.
    pub mode: Option<RepoState>,
    /// When a query last touched it.
    pub last_access: Option<u64>,
    /// Since when it is being indexed.
    pub indexing_since: Option<u64>,
    /// Its background indexing task, if one is registered.
    pub index_task: Option<IndexTask>,
    /// Whether a file-system-watcher task is registered.
    pub watcher: bool,
    /// Whether its database was wiped by a format recovery in this process.
    pub wiped: bool,
    /// Changes recorded since the server started.
    pub changes: u64,
    pub last_tool: Option<ToolCall>,
    pub tool_calls: u64,
    /// The cached status of its C# symbol index.
    pub csharp: Option<CSharpIndexStatus>,
    pub csharp_error: Option<String>,
    /// Whether the warning about its unrecorded model was given.
    pub legacy_warned: bool,
}

/// What the server keeps of one repository.
pub struct RepoView {
    pub mode: Option<RepoState>,
    pub last_access: Option<u64>,
    pub indexing_since: Option<u64>,
    pub index_task: Option<IndexTask>,
    pub watcher: bool,
    pub wiped: bool,
    pub changes: u64,
    pub last_tool: Option<(Seq<char>, u64)>,
    pub tool_calls: u64,
    pub csharp: Option<CSharpIndexStatus>,
    pub csharp_error: Option<Seq<char>>,
    pub legacy_warned: bool,
}

impl View for RepoRuntime {
    type V = RepoView;

    open spec fn view(&self) -> RepoView {
        RepoView {
            mode: self.mode,
            last_access: self.last_access,
            indexing_since: self.indexing_since,
            index_task: self.index_task,
            watcher: self.watcher,
            wiped: self.wiped,
            changes: self.changes,
            last_tool: match self.last_tool {
                Some(c) => Some((c.tool@, c.at)),
                None => None,
            },
            tool_calls: self.tool_calls,
            csharp: self.csharp,
            csharp_error: opt_text(self.csharp_error),
            legacy_warned: self.legacy_warned,
        }
    }
}

/// A repository that nothing is known of.
pub open spec fn untouched() -> RepoView {
    RepoView {
        mode: None,
        last_access: None,
        indexing_since: None,
        index_task: None,
        watcher: false,
        wiped: false,
        changes: 0,
        last_tool: None,
        tool_calls: 0,
        csharp: None,
        csharp_error: None,
        legacy_warned: false,
    }
}

impl RepoRuntime {
    fn untouched() -> (r: RepoRuntime)
        ensures
            r@ == untouched(),
    {
        RepoRuntime {
            mode: None,
            last_access: None,
            indexing_since: None,
            index_task: None,
            watcher: false,
            wiped: false,
            changes: 0,
            last_tool: None,
            tool_calls: 0,
            csharp: None,
            csharp_error: None,
            legacy_warned: false,
        }
    }

    /// A copy of the record.
    pub fn copy(&self) -> (r: RepoRuntime)
        ensures
            r@ == self@,
    {
        RepoRuntime {
            mode: self.mode,
            last_access: self.last_access,
            indexing_since: self.indexing_since,
            index_task: self.index_task,
            watcher: self.watcher,
            wiped: self.wiped,
            changes: self.changes,
            last_tool: match &self.last_tool {
                Some(c) => Some(ToolCall { tool: c.tool.clone(), at: c.at }),
                None => None,
            },
            tool_calls: self.tool_calls,
            csharp: self.csharp,
            csharp_error: copy_opt(&self.csharp_error),
            legacy_warned: self.legacy_warned,
        }
    }
}

/// `dashmap::DashMap`, a map that may be shared between threads.
#[verifier::external_type_specification]
#[verifier::external_body]
#[verifier::reject_recursive_types(K)]
#[verifier::reject_recursive_types(V)]
#[verifier::reject_recursive_types(S)]
pub struct ExDashMap<K, V, S>(DashMap<K, V, S>);

/// What a map of repositories holds: a record for each alias in it.
pub uninterp spec fn repo_entries(m: DashMap<String, RepoRuntime>) -> Map<Seq<char>, RepoView>;

/// What a map of instants holds: an instant for each name in it.
pub uninterp spec fn stamp_entries(m: DashMap<String, u64>) -> Map<Seq<char>, u64>;

/// `DashMap::new`: a map that holds nothing.
#[verifier::external_body]
fn new_repo_map() -> (m: DashMap<String, RepoRuntime>)
    ensures
        repo_entries(m).is_empty(),
{
    DashMap::new()
}

/// `DashMap::insert`: the key's old value, if any, gives way to the new one; the other keys
/// keep theirs.
#[verifier::external_body]
fn put_repo(m: &mut DashMap<String, RepoRuntime>, alias: String, record: RepoRuntime)
    ensures
        repo_entries(*final(m)) == repo_entries(*old(m)).insert(alias@, record@),
{
    m.insert(alias, record);
}

/// `DashMap::view`: a copy of the value of the key, `None` when the map does not hold it.
#[verifier::external_body]
fn get_repo(m: &DashMap<String, RepoRuntime>, alias: &str) -> (r: Option<RepoRuntime>)
    ensures
        match r {
            Some(record) => repo_entries(*m).contains_key(alias@) && record@ == repo_entries(
                *m,
            )[alias@],
            None => !repo_entries(*m).contains_key(alias@),
        },
{
    m.view(alias, |_, record| record.copy())
}

/// `DashMap::iter`: each key that the map holds once, in no particular order.
#[verifier::external_body]
fn repo_keys(m: &DashMap<String, RepoRuntime>) -> (r: Vec<String>)
    ensures
        texts(r@).no_duplicates(),
        forall|a: Seq<char>| #[trigger] texts(r@).contains(a) <==> repo_entries(*m).contains_key(a),
{
    m.iter().map(|entry| entry.key().clone()).collect()
}

/// `DashMap::new`: a map that holds nothing.
#[verifier::external_body]
pub(crate) fn new_stamps() -> (m: DashMap<String, u64>)
    ensures
        stamp_entries(m).is_empty(),
{
    DashMap::new()
}

/// `DashMap::insert`: the key's old value, if any, gives way to the new one; the other keys
/// keep theirs.
#[verifier::external_body]
pub(crate) fn put_stamp(m: &mut DashMap<String, u64>, name: String, at: u64)
    ensures
        stamp_entries(*final(m)) == stamp_entries(*old(m)).insert(name@, at),
{
    m.insert(name, at);
}

/// `DashMap::get`: the value of the key, `None` when the map does not hold it.
#[verifier::external_body]
pub(crate) fn get_stamp(m: &DashMap<String, u64>, name: &str) -> (r: Option<u64>)
    ensures
        r == (if stamp_entries(*m).contains_key(name@) {
            Some(stamp_entries(*m)[name@])
        } else {
            None
        }),
{
    m.get(name).map(|entry| *entry.value())
}

/// The state of a running server.
pub struct ServeState {
    config: ReposConfig,
    repos: DashMap<String, RepoRuntime>,
    peer_activity: DashMap<String, u64>,
    recovery_queue: VecDeque<String>,
    recovery_worker_started: bool,
    active_sessions: u64,
    total_sessions: u64,
    persist_deadline_unix_ms: u64,
    persist_worker_started: bool,
    config_stamp: Option<u128>,
}

/// The state of a running server.
#[verifier::ext_equal]
pub struct StateView {
    pub config: ConfigView,
    pub repos: Map<Seq<char>, RepoView>,
    pub peers: Map<Seq<char>, u64>,
    /// Aliases waiting for a format recovery.
    pub queue: Seq<Seq<char>>,
    /// Whether a recovery worker is alive.
    pub worker: bool,
    pub active_sessions: u64,
    pub total_sessions: u64,
    /// When the configuration is due to be saved, in Unix milliseconds; zero for never.
    pub persist_deadline: u64,
    /// Whether a worker waits to save the configuration.
    pub persist_worker: bool,
    /// When the configuration file that was last read was written.
    pub config_stamp: Option<u128>,
}

impl View for ServeState {
    type V = StateView;

    closed spec fn view(&self) -> StateView {
        StateView {
            config: self.config@,
            repos: repo_entries(self.repos),
            peers: stamp_entries(self.peer_activity),
            queue: self.recovery_queue@.map_values(|s: String| s@),
            worker: self.recovery_worker_started,
            active_sessions: self.active_sessions,
            total_sessions: self.total_sessions,
            persist_deadline: self.persist_deadline_unix_ms,
            persist_worker: self.persist_worker_started,
            config_stamp: self.config_stamp,
        }
    }
}

/// How long before `now` the instant `at` lies; nothing for an instant still to come.
pub open spec fn elapsed(now: u64, at: u64) -> int {
    if now >= at {
        now - at
    } else {
        0
    }
}

/// Whether `at` lies at least `secs` seconds before `now`.
pub open spec fn at_least_ago(now: u64, at: u64, secs: u64) -> bool {
    elapsed(now, at) >= secs * 1_000_000_000
}

/// Whether `at` lies at least `secs` seconds before `now`.
pub fn is_at_least_ago(now: u64, at: u64, secs: u64) -> (r: bool)
    ensures
        r == at_least_ago(now, at, secs),
{
    let gone: u64 = if now >= at {
        now - at
    } else {
        0
    };
    (gone as u128) >= (secs as u128) * 1_000_000_000
}

/// The number of seconds that a setting gives: a positive number, or else `default`.
pub open spec fn positive_or(setting: Option<Seq<char>>, default: u64) -> u64 {
    match setting {
        Some(t) => match crate::text::parsed_u64(t) {
            Some(n) => if n > 0 {
                n
            } else {
                default
            },
            None => default,
        },
        None => default,
    }
}

/// The limit that a setting gives in seconds: a positive number, or else `default`. Bounds
/// how long a repository counts as being indexed, and how long it may stay idle.
pub fn seconds_setting(setting: Option<&str>, default: u64) -> (r: u64)
    ensures
        r == positive_or(crate::text::opt_str(setting), default),
{
    match setting {
        Some(t) => match crate::text::parse_u64(t) {
            Some(n) => if n > 0 {
                n
            } else {
                default
            },
            None => default,
        },
        None => default,
    }
}

impl StateView {
    /// What is kept of the repository `alias`.
    pub open spec fn repo(self, alias: Seq<char>) -> RepoView {
        if self.repos.contains_key(alias) {
            self.repos[alias]
        } else {
            untouched()
        }
    }

    /// This state with another record for `alias`.
    pub open spec fn with_repo(self, alias: Seq<char>, record: RepoView) -> StateView {
        StateView { repos: self.repos.insert(alias, record), ..self }
    }

    /// Whether a reindex of `alias` is in progress at `now`.
    pub open spec fn busy(self, alias: Seq<char>, now: u64, max_secs: u64) -> bool {
        self.repo(alias).indexing_since matches Some(at) && !at_least_ago(now, at, max_secs)
    }

    /// Whether the marker of `alias` has outlived the limit.
    pub open spec fn stale(self, alias: Seq<char>, now: u64, max_secs: u64) -> bool {
        self.repo(alias).indexing_since matches Some(at) && at_least_ago(now, at, max_secs)
    }

    /// This state after `alias` was marked as being indexed at `now`.
    pub open spec fn begun(self, alias: Seq<char>, now: u64) -> StateView {
        self.with_repo(alias, RepoView { indexing_since: Some(now), ..self.repo(alias) })
    }

    /// This state after the marker of `alias` was removed.
    pub open spec fn ended(self, alias: Seq<char>) -> StateView {
        self.with_repo(alias, RepoView { indexing_since: None, ..self.repo(alias) })
    }

    /// This state after a look at the marker of `alias`: a stale one is gone, with it a task
    /// that has finished, and a task that still runs is cancelled.
    pub open spec fn probed(self, alias: Seq<char>, now: u64, max_secs: u64, finished: bool) -> StateView {
        if self.stale(alias, now, max_secs) {
            self.with_repo(alias, healed(self.repo(alias), finished))
        } else {
            self
        }
    }

    /// Whether the queue of format recoveries is in order: nothing waits twice, and a worker
    /// is alive as long as something waits.
    pub open spec fn queue_in_order(self) -> bool {
        &&& self.queue.no_duplicates()
        &&& self.queue.len() > 0 ==> self.worker
    }

    /// Whether a format recovery of `alias` is accepted: its database was not wiped before.
    pub open spec fn accepts_recovery(self, alias: Seq<char>) -> bool {
        !self.repo(alias).wiped
    }

    /// This state after a format recovery of `alias` was asked for.
    pub open spec fn enqueued(self, alias: Seq<char>) -> StateView {
        if !self.accepts_recovery(alias) || self.queue.contains(alias) {
            self
        } else {
            StateView { queue: self.queue.push(alias), worker: true, ..self }
        }
    }

    /// This state after the recovery worker took the next alias, or stopped for want of one.
    pub open spec fn dequeued(self) -> StateView {
        if self.queue.len() > 0 {
            StateView { queue: self.queue.drop_first(), ..self }
        } else {
            StateView { worker: false, ..self }
        }
    }

    /// This state after a session was counted in.
    pub open spec fn connected(self) -> StateView {
        StateView {
            active_sessions: self.active_sessions.wrapping_add(1),
            total_sessions: self.total_sessions.wrapping_add(1),
            ..self
        }
    }

    /// This state after a session was counted out.
    pub open spec fn disconnected(self) -> StateView {
        StateView { active_sessions: self.active_sessions.wrapping_sub(1), ..self }
    }

    /// This state after a save of the configuration was asked for.
    pub open spec fn save_scheduled(self, now_unix_ms: u64, debounce_secs: u64) -> StateView {
        StateView {
            persist_deadline: (now_unix_ms + debounce_secs * 1000) as u64,
            persist_worker: true,
            ..self
        }
    }

    /// This state after the configuration was saved for `deadline`: unless another save was
    /// asked for meanwhile, nothing is due and the worker stops.
    pub open spec fn saved(self, deadline: u64) -> StateView {
        if self.persist_deadline != deadline {
            self
        } else {
            StateView { persist_deadline: 0, persist_worker: false, ..self }
        }
    }

    /// Whether some repository's last tool call was made at `t`.
    pub open spec fn has_call_at(self, t: u64) -> bool {
        exists|a: Seq<char>|
            self.repos.contains_key(a) && (#[trigger] self.repos[a]).last_tool is Some && (
            self.repos[a].last_tool->0).1 == t
    }

    /// This state after a query touched `alias`.
    pub open spec fn touched(self, alias: Seq<char>, now: u64) -> StateView {
        self.with_repo(alias, RepoView { last_access: Some(now), ..self.repo(alias) })
    }
}

/// A record whose stale marker is removed.
pub open spec fn healed(r: RepoView, finished: bool) -> RepoView {
    RepoView {
        indexing_since: None,
        index_task: match r.index_task {
            Some(t) => if finished {
                None
            } else {
                Some(IndexTask { cancelled: true })
            },
            None => None,
        },
        ..r
    }
}

/// What a look at an indexing marker found.
#[derive(Debug, Clone, Copy, PartialEq, Eq, Structural)]
pub struct IndexingProbe {
    /// Whether the repository is being indexed.
    pub indexing: bool,
    /// Whether the token of its background task is to be cancelled.
    pub cancel_task: bool,
}

/// What became of a request for a format recovery.
#[derive(Debug, Clone, Copy, PartialEq, Eq, Structural)]
pub struct RecoveryRequest {
    /// Whether it was accepted; a second wipe of one database is refused.
    pub accepted: bool,
    /// Whether the recovery worker is to be started.
    pub start_worker: bool,
}

impl ServeState {
    /// A server that has just started.
    pub fn new(config: ReposConfig) -> (r: ServeState)
        ensures
            r@ == (StateView {
                config: config@,
                repos: Map::empty(),
                peers: Map::empty(),
                queue: Seq::empty(),
                worker: false,
                active_sessions: 0,
                total_sessions: 0,
                persist_deadline: 0,
                persist_worker: false,
                config_stamp: None,
            }),
    {
        let r: ServeState = ServeState {
            config,
            repos: new_repo_map(),
            peer_activity: new_stamps(),
            recovery_queue: VecDeque::new(),
            recovery_worker_started: false,
            active_sessions: 0,
            total_sessions: 0,
            persist_deadline_unix_ms: 0,
            persist_worker_started: false,
            config_stamp: None,
        };
        assert(r@.queue =~= Seq::empty());
        r
    }

    /// What is kept of the repository `alias`.
    pub fn repo(&self, alias: &str) -> (r: RepoRuntime)
        ensures
            r@ == self@.repo(alias@),
    {
        match get_repo(&self.repos, alias) {
            Some(record) => record,
            None => RepoRuntime::untouched(),
        }
    }

    /// Replaces what is kept of the repository `alias`.
    pub(crate) fn set_repo(&mut self, alias: &str, record: RepoRuntime)
        ensures
            final(self)@ == old(self)@.with_repo(alias@, record@),
    {
        put_repo(&mut self.repos, alias.to_owned(), record);
    }

    /// The aliases that something is kept of, in no particular order.
    pub(crate) fn known_aliases(&self) -> (r: Vec<String>)
        ensures
            texts(r@).no_duplicates(),
            forall|a: Seq<char>| #[trigger] texts(r@).contains(a) <==> self@.repos.contains_key(a),
    {
        repo_keys(&self.repos)
    }

    /// The registered repositories, groups and peers.
    pub fn config(&self) -> (r: &ReposConfig)
        ensures
            r@ == self@.config,
    {
        &self.config
    }

    /// Replaces the configuration.
    pub(crate) fn set_config(&mut self, config: ReposConfig)
        ensures
            final(self)@ == (StateView { config: config@, ..old(self)@ }),
    {
        self.config = config;
    }

    /// Registers a repository in the configuration; an alias that is registered already gets
    /// the new path.
    pub fn register(&mut self, alias: &str, path: &str)
        ensures
            final(self)@ == (StateView {
                config: old(self)@.config.registering(alias@, path@),
                ..old(self)@
            }),
    {
        self.config.register(alias, path);
    }

    /// Gives a repository of the configuration another path.
    pub fn relocate(&mut self, alias: &str, path: &str)
        ensures
            final(self)@ == (StateView {
                config: old(self)@.config.relocating(alias@, path@),
                ..old(self)@
            }),
    {
        self.config.relocate(alias, path);
    }

    /// Drops a repository from the configuration; tells whether it was registered.
    pub fn unregister(&mut self, alias: &str) -> (r: bool)
        ensures
            final(self)@ == (StateView {
                config: old(self)@.config.without(alias@),
                ..old(self)@
            }),
            r == (old(self)@.config.resolve(alias@) is Some),
    {
        self.config.unregister_alias(alias)
    }

    /// Record that `alias` was queried with the built-in default model because its
    /// index records none, returning `true` on the first call for that alias.
    pub fn mark_legacy_model_warned(&mut self, alias: &str) -> (r: bool)
        ensures
            r == !old(self)@.repo(alias@).legacy_warned,
            final(self)@ == old(self)@.with_repo(
                alias@,
                RepoView { legacy_warned: true, ..old(self)@.repo(alias@) },
            ),
    {
        let mut record: RepoRuntime = self.repo(alias);
        let first: bool = !record.legacy_warned;
        record.legacy_warned = true;
        self.set_repo(alias, record);
        first
    }

    /// Takes down what a symbol rebuild of `alias` tells of itself.
    pub fn csharp_signal(&mut self, alias: &str, signal: SymbolRebuildSignal)
        ensures
            final(self)@ == old(self)@.with_repo(
                alias@,
                (match signal {
                    SymbolRebuildSignal::Started => RepoView {
                        csharp: Some(CSharpIndexStatus::Indexing),
                        ..old(self)@.repo(alias@)
                    },
                    SymbolRebuildSignal::Succeeded => RepoView {
                        csharp: Some(CSharpIndexStatus::Ready),
                        csharp_error: None,
                        ..old(self)@.repo(alias@)
                    },
                    SymbolRebuildSignal::Failed(msg) => RepoView {
                        csharp: Some(CSharpIndexStatus::Error),
                        csharp_error: Some(msg@),
                        ..old(self)@.repo(alias@)
                    },
                }),
            ),
    {
        let mut record: RepoRuntime = self.repo(alias);
        match signal {
            SymbolRebuildSignal::Started => {
                record.csharp = Some(CSharpIndexStatus::Indexing);
            },
            SymbolRebuildSignal::Succeeded => {
                record.csharp = Some(CSharpIndexStatus::Ready);
                record.csharp_error = None;
            },
            SymbolRebuildSignal::Failed(msg) => {
                record.csharp = Some(CSharpIndexStatus::Error);
                record.csharp_error = Some(msg);
            },
        }
        self.set_repo(alias, record);
    }

    /// Drop the cached C# symbol-index status and error of `alias`.
    pub fn clear_csharp_index_state(&mut self, alias: &str)
        ensures
            final(self)@ == old(self)@.with_repo(
                alias@,
                RepoView { csharp: None, csharp_error: None, ..old(self)@.repo(alias@) },
            ),
    {
        let mut record: RepoRuntime = self.repo(alias);
        record.csharp = None;
        record.csharp_error = None;
        self.set_repo(alias, record);
    }

    /// Sets or removes the indexing marker around a reindex that the file watcher runs.
    pub fn indexing_status(&mut self, alias: &str, active: bool, now: u64)
        ensures
            final(self)@ == (if active {
                old(self)@.begun(alias@, now)
            } else {
                old(self)@.ended(alias@)
            }),
    {
        let mut record: RepoRuntime = self.repo(alias);
        record.indexing_since = if active {
            Some(now)
        } else {
            None
        };
        self.set_repo(alias, record);
    }

    /// Mark `alias` as actively indexing, returning `true` if the caller may
    /// proceed. Returns `false` only when a **non-stale** marker already exists, and then
    /// changes nothing. A stale marker is overwritten with a fresh one.
    pub fn begin_indexing(&mut self, alias: &str, now: u64, max_secs: u64) -> (r: bool)
        ensures
            r == !old(self)@.busy(alias@, now, max_secs),
            final(self)@ == (if r {
                old(self)@.begun(alias@, now)
            } else {
                old(self)@
            }),
    {
        let mut record: RepoRuntime = self.repo(alias);
        match record.indexing_since {
            Some(at) => if !is_at_least_ago(now, at, max_secs) {
                return false;
            },
            None => {},
        }
        record.indexing_since = Some(now);
        self.set_repo(alias, record);
        true
    }

    /// Remove the indexing marker for `alias`.
    pub fn end_indexing(&mut self, alias: &str)
        ensures
            final(self)@ == old(self)@.ended(alias@),
    {
        let mut record: RepoRuntime = self.repo(alias);
        record.indexing_since = None;
        self.set_repo(alias, record);
    }

    /// Whether `alias` is currently (non-stale) indexing.
    ///
    /// A stale marker is evicted here. With it goes the background task that is still
    /// registered: one that has `finished` is forgotten, any other is to be cancelled.
    pub fn is_indexing(&mut self, alias: &str, now: u64, max_secs: u64, finished: bool) -> (r:
        IndexingProbe)
        ensures
            r.indexing == old(self)@.busy(alias@, now, max_secs),
            r.cancel_task == (old(self)@.stale(alias@, now, max_secs) && old(self)@.repo(
                alias@,
            ).index_task is Some && !finished),
            final(self)@ == old(self)@.probed(alias@, now, max_secs, finished),
    {
        let mut record: RepoRuntime = self.repo(alias);
        match record.indexing_since {
            Some(at) => {
                if is_at_least_ago(now, at, max_secs) {
                    let running: bool = record.index_task.is_some() && !finished;
                    record.indexing_since = None;
                    record.index_task = if running {
                        Some(IndexTask { cancelled: true })
                    } else {
                        None
                    };
                    self.set_repo(alias, record);
                    IndexingProbe { indexing: false, cancel_task: running }
                } else {
                    IndexingProbe { indexing: true, cancel_task: false }
                }
            },
            None => IndexingProbe { indexing: false, cancel_task: false },
        }
    }

    /// Registers the background indexing task of `alias`.
    pub fn index_task_started(&mut self, alias: &str)
        ensures
            final(self)@ == old(self)@.with_repo(
                alias@,
                RepoView {
                    index_task: Some(IndexTask { cancelled: false }),
                    ..old(self)@.repo(alias@)
                },
            ),
    {
        let mut record: RepoRuntime = self.repo(alias);
        record.index_task = Some(IndexTask { cancelled: false });
        self.set_repo(alias, record);
    }

    /// Distinguish a rebuild that finished from one whose indexing marker was
    /// merely evicted as stale: an error when its task was cancelled.
    pub fn confirm_rebuild_finished(&self, alias: &str) -> (r: Result<(), String>)
        ensures
            r is Err <==> (self@.repo(alias@).index_task matches Some(t) && t.cancelled),
            r matches Err(e) ==> e@ == "rebuild for '"@ + alias@
                + "' was cancelled before it completed (stale indexing marker); the index is left empty"@,
    {
        let record: RepoRuntime = self.repo(alias);
        match record.index_task {
            Some(t) => if t.cancelled {
                let mut msg: String = "rebuild for '".to_owned();
                msg.push_str(alias);
                msg.push_str(
                    "' was cancelled before it completed (stale indexing marker); the index is left empty",
                );
                return Err(msg);
            },
            None => {},
        }
        Ok(())
    }

    /// Queue `alias` for a sequential wipe and reindex after a corrupt storage format was
    /// detected. An alias waits once; a second wipe of one database is refused.
    pub fn enqueue_format_recovery(&mut self, alias: &str) -> (r: RecoveryRequest)
        ensures
            final(self)@ == old(self)@.enqueued(alias@),
            r.accepted == old(self)@.accepts_recovery(alias@),
            r.start_worker == (!old(self)@.worker && final(self)@.worker),
    {
        let ghost before = self@;
        let record: RepoRuntime = self.repo(alias);
        if record.wiped {
            return RecoveryRequest { accepted: false, start_worker: false };
        }
        let mut i: usize = 0;
        while i < self.recovery_queue.len()
            invariant
                self@ == before,
                i <= self.recovery_queue@.len(),
                before.accepts_recovery(alias@),
                forall|j: int| 0 <= j < i ==> (#[trigger] self.recovery_queue@[j])@ != alias@,
            decreases self.recovery_queue.len() - i,
        {
            assert(before.queue[i as int] == self.recovery_queue@[i as int]@);
            if same_text(self.recovery_queue[i].as_str(), alias) {
                assert(before.queue.contains(alias@));
                return RecoveryRequest { accepted: true, start_worker: false };
            }
            i += 1;
        }
        proof {
            assert forall|j: int| 0 <= j < before.queue.len() implies before.queue[j] != alias@ by {
                assert(self.recovery_queue@[j]@ != alias@);
            }
        }
        self.recovery_queue.push_back(alias.to_owned());
        let start: bool = !self.recovery_worker_started;
        self.recovery_worker_started = true;
        assert(self@.queue =~= before.queue.push(alias@));
        assert(self@ =~= before.enqueued(alias@));
        RecoveryRequest { accepted: true, start_worker: start }
    }

    /// The next alias for the recovery worker, from the front of the queue; `None` stops the
    /// worker.
    pub fn next_format_recovery(&mut self) -> (r: Option<String>)
        ensures
            final(self)@ == old(self)@.dequeued(),
            opt_text(r) == (if old(self)@.queue.len() > 0 {
                Some(old(self)@.queue[0])
            } else {
                None
            }),
    {
        let ghost before = self@;
        match self.recovery_queue.pop_front() {
            Some(alias) => {
                assert(self@.queue =~= before.queue.drop_first());
                assert(self@ =~= before.dequeued());
                Some(alias)
            },
            None => {
                self.recovery_worker_started = false;
                assert(self@ =~= before.dequeued());
                None
            },
        }
    }

    /// Record that the database of `alias` was wiped by a format recovery.
    pub fn mark_wiped(&mut self, alias: &str)
        ensures
            final(self)@ == old(self)@.with_repo(
                alias@,
                RepoView { wiped: true, ..old(self)@.repo(alias@) },
            ),
    {
        let mut record: RepoRuntime = self.repo(alias);
        record.wiped = true;
        self.set_repo(alias, record);
    }

    /// Record that a repository was just accessed.
    pub fn touch_access(&mut self, alias: &str, now: u64)
        ensures
            final(self)@ == old(self)@.touched(alias@, now),
    {
        let mut record: RepoRuntime = self.repo(alias);
        record.last_access = Some(now);
        self.set_repo(alias, record);
    }

    /// Record a tool call for a specific repository. The count starts again at zero after
    /// the largest 64-bit number.
    pub fn record_tool_call(&mut self, alias: &str, tool_name: &str, now: u64)
        ensures
            final(self)@ == old(self)@.with_repo(
                alias@,
                RepoView {
                    last_tool: Some((tool_name@, now)),
                    tool_calls: old(self)@.repo(alias@).tool_calls.wrapping_add(1),
                    ..old(self)@.repo(alias@)
                },
            ),
    {
        let mut record: RepoRuntime = self.repo(alias);
        record.last_tool = Some(ToolCall { tool: tool_name.to_owned(), at: now });
        record.tool_calls = record.tool_calls.wrapping_add(1);
        self.set_repo(alias, record);
    }

    /// Most recent tool-call time across all repositories, if any.
    pub fn most_recent_tool_call(&self) -> (r: Option<u64>)
        ensures
            match r {
                Some(t) => self@.has_call_at(t) && forall|a: Seq<char>|
                    self@.repos.contains_key(a) && (#[trigger] self@.repos[a]).last_tool is Some
                        ==> (self@.repos[a].last_tool->0).1 <= t,
                None => forall|a: Seq<char>|
                    self@.repos.contains_key(a) ==> (#[trigger] self@.repos[a]).last_tool is None,
            },
    {
        let names: Vec<String> = self.known_aliases();
        let mut best: Option<u64> = None;
        let mut i: usize = 0;
        while i < names.len()
            invariant
                i <= names@.len(),
                forall|a: Seq<char>| #[trigger] texts(names@).contains(a) <==> self@.repos.contains_key(a),
                match best {
                    Some(t) => self@.has_call_at(t) && forall|j: int|
                        0 <= j < i && self@.repo(#[trigger] texts(names@)[j]).last_tool is Some ==> (
                        self@.repo(texts(names@)[j]).last_tool->0).1 <= t,
                    None => forall|j: int|
                        0 <= j < i ==> self@.repo(#[trigger] texts(names@)[j]).last_tool is None,
                },
            decreases names.len() - i,
        {
            let record: RepoRuntime = self.repo(names[i].as_str());
            proof {
                assert(texts(names@)[i as int] == names@[i as int]@);
                assert(texts(names@).contains(texts(names@)[i as int]));
            }
            match record.last_tool {
                Some(call) => {
                    assert(self@.repos[names@[i as int]@] == record@);
                    assert(self@.has_call_at(call.at));
                    best = match best {
                        Some(t) => if t < call.at {
                            Some(call.at)
                        } else {
                            Some(t)
                        },
                        None => Some(call.at),
                    };
                },
                None => {},
            }
            i += 1;
        }
        proof {
            assert forall|a: Seq<char>| self@.repos.contains_key(a) implies exists|j: int|
                0 <= j < names@.len() && texts(names@)[j] == a && self@.repo(a)
                    == #[trigger] self@.repos[a] by {
                assert(texts(names@).contains(a));
            }
        }
        best
    }

    /// Record that a federated tool call was dispatched to `peer_name`.
    pub fn record_remote_peer_activity(&mut self, peer_name: &str, now: u64)
        ensures
            final(self)@ == (StateView {
                peers: old(self)@.peers.insert(peer_name@, now),
                ..old(self)@
            }),
    {
        put_stamp(&mut self.peer_activity, peer_name.to_owned(), now);
    }

    /// Last time a federated tool call hit `peer_name`, if any.
    pub fn remote_peer_last_activity(&self, peer_name: &str) -> (r: Option<u64>)
        ensures
            r == (if self@.peers.contains_key(peer_name@) {
                Some(self@.peers[peer_name@])
            } else {
                None
            }),
    {
        get_stamp(&self.peer_activity, peer_name)
    }

    /// Record that changes were made to a repository. The count starts again at zero after
    /// the largest 64-bit number.
    pub fn record_changes(&mut self, alias: &str, count: u64)
        ensures
            final(self)@ == old(self)@.with_repo(
                alias@,
                RepoView {
                    changes: old(self)@.repo(alias@).changes.wrapping_add(count),
                    ..old(self)@.repo(alias@)
                },
            ),
    {
        let mut record: RepoRuntime = self.repo(alias);
        record.changes = record.changes.wrapping_add(count);
        self.set_repo(alias, record);
    }

    /// Counts a session in. Returns its number: how many there were before it.
    pub fn session_connected(&mut self) -> (r: u64)
        ensures
            r == old(self)@.total_sessions,
            final(self)@ == old(self)@.connected(),
    {
        self.active_sessions = self.active_sessions.wrapping_add(1);
        let id: u64 = self.total_sessions;
        self.total_sessions = self.total_sessions.wrapping_add(1);
        id
    }

    /// Counts a session out.
    pub fn session_disconnected(&mut self)
        ensures
            final(self)@ == old(self)@.disconnected(),
    {
        self.active_sessions = self.active_sessions.wrapping_sub(1);
    }

    /// The current number of active sessions.
    pub fn active_session_count(&self) -> (r: u64)
        ensures
            r == self@.active_sessions,
    {
        self.active_sessions
    }

    /// The number of sessions since the server started.
    pub fn total_session_count(&self) -> (r: u64)
        ensures
            r == self@.total_sessions,
    {
        self.total_sessions
    }

    /// Asks for the configuration to be saved after `debounce_secs` without another such
    /// request. Tells whether the worker that saves it is to be started.
    pub fn schedule_persist_repos_config(&mut self, now_unix_ms: u64, debounce_secs: u64) -> (r: bool)
        requires
            now_unix_ms + debounce_secs * 1000 <= u64::MAX,
        ensures
            r == !old(self)@.persist_worker,
            final(self)@ == old(self)@.save_scheduled(now_unix_ms, debounce_secs),
    {
        self.persist_deadline_unix_ms = now_unix_ms + debounce_secs * 1000;
        let start: bool = !self.persist_worker_started;
        self.persist_worker_started = true;
        start
    }

    /// The deadline to save for, once it has come; `None` while there is nothing to save yet.
    pub fn persist_due(&self, now_unix_ms: u64) -> (r: Option<u64>)
        ensures
            r == (if self@.persist_deadline == 0 || now_unix_ms < self@.persist_deadline {
                None
            } else {
                Some(self@.persist_deadline)
            }),
    {
        let deadline: u64 = self.persist_deadline_unix_ms;
        if deadline == 0 || now_unix_ms < deadline {
            None
        } else {
            Some(deadline)
        }
    }

    /// The configuration was saved for `deadline`. Tells whether the worker goes on: only
    /// when another save was asked for meanwhile.
    pub fn persist_done(&mut self, deadline: u64) -> (r: bool)
        ensures
            r == (old(self)@.persist_deadline != deadline),
            final(self)@ == old(self)@.saved(deadline),
    {
        if self.persist_deadline_unix_ms != deadline {
            return true;
        }
        self.persist_deadline_unix_ms = 0;
        self.persist_worker_started = false;
        false
    }

    /// Whether a configuration file written at `observed` is another than the one last read.
    pub fn config_changed(&self, observed: Option<u128>) -> (r: bool)
        ensures
            r == (observed != self@.config_stamp),
    {
        match (observed, self.config_stamp) {
            (Some(a), Some(b)) => a != b,
            (None, None) => false,
            _ => true,
        }
    }

    /// Takes down when the configuration file that was read was written; `None` makes the
    /// next look at the file read it again.
    pub fn set_config_stamp(&mut self, stamp: Option<u128>)
        ensures
            final(self)@ == (StateView { config_stamp: stamp, ..old(self)@ }),
    {
        self.config_stamp = stamp;
    }
}

} // verus!
