//! The management requests: reindexing, adding, removing and recovering repositories.
//!
//! Each request is a row of steps. A step decides and updates the state; what it answers
//! with tells the caller which outside work comes next, and the outcome of that work goes
//! into the next step.
use crate::config::alias_in;
use crate::lifecycle::{unknown_alias_msg, unknown_alias_text, OpenedStores, StopWatcher};
use crate::state::{IndexTask, RepoRuntime, RepoState, RepoView, ServeState, StateView};
use crate::text::{opt_str, opt_text, same_text};
use vstd::prelude::*;

verus! {

/// The answer to a request.
pub struct Reply {
    /// The HTTP status code.
    pub code: u16,
    pub status: String,
    pub alias: Option<String>,
    pub path: Option<String>,
    pub error: Option<String>,
    pub message: Option<String>,
}

/// The answer to a request.
pub struct ReplyView {
    pub code: u16,
    pub status: Seq<char>,
    pub alias: Option<Seq<char>>,
    pub path: Option<Seq<char>>,
    pub error: Option<Seq<char>>,
    pub message: Option<Seq<char>>,
}

impl View for Reply {
    type V = ReplyView;

    open spec fn view(&self) -> ReplyView {
        ReplyView {
            code: self.code,
            status: self.status@,
            alias: opt_text(self.alias),
            path: opt_text(self.path),
            error: opt_text(self.error),
            message: opt_text(self.message),
        }
    }
}

/// An answer that refuses a request.
pub open spec fn refusal(code: u16, status: Seq<char>, error: Seq<char>) -> ReplyView {
    ReplyView { code, status, alias: None, path: None, error: Some(error), message: None }
}

pub(crate) fn refuse(code: u16, status: &str, error: String) -> (r: Reply)
    ensures
        r@ == refusal(code, status@, error@),
{
    Reply {
        code,
        status: status.to_owned(),
        alias: None,
        path: None,
        error: Some(error),
        message: None,
    }
}

fn quoted(before: &str, alias: &str, after: &str) -> (r: String)
    ensures
        r@ == before@ + alias@ + after@,
{
    let mut r: String = before.to_owned();
    r.push_str(alias);
    r.push_str(after);
    r
}

/// Whether a query parameter switches something on: `true` or `1`.
pub open spec fn switched_on(value: Option<Seq<char>>) -> bool {
    value matches Some(v) && (v == "true"@ || v == "1"@)
}

/// Whether a query parameter switches something on: `true` or `1`.
pub fn is_switched_on(value: Option<&str>) -> (r: bool)
    ensures
        r == switched_on(opt_str(value)),
{
    match value {
        Some(v) => same_text(v, "true") || same_text(v, "1"),
        None => false,
    }
}

/// The refusal of a reindex of an alias that is not registered.
pub open spec fn not_found(alias: Seq<char>) -> ReplyView {
    refusal(404, "not_found"@, unknown_alias_text(alias))
}

/// The refusal of a reindex of a repository whose index is owned by another writer.
pub open spec fn owned_elsewhere(alias: Seq<char>) -> ReplyView {
    refusal(
        409,
        "read_only"@,
        "Repo '"@ + alias
            + "' is marked read-only (repo_read_only) — its index is owned by another writer (e.g. a separate indexing job). Reindex it there, or clear the flag in repos.json."@,
    )
}

/// The refusal of a reindex while another is in progress.
pub open spec fn already_indexing(alias: Seq<char>) -> ReplyView {
    refusal(409, "conflict"@, "Reindex already in progress for '"@ + alias + "'"@)
}

/// What comes after a reindex was asked for.
pub enum ReindexStep {
    /// The request is answered.
    Answer(Reply),
    /// Force rebuild on the open stores. `cancel_watcher` tells whether the watcher's token
    /// is to be cancelled first.
    Rebuild { cancel_watcher: bool },
    /// Force rebuild once the stores are open for writing; they may be created.
    OpenThenRebuild,
    /// Incremental refresh once the stores are open for a query.
    OpenThenRefresh,
}

impl StateView {
    /// How the request to reindex `alias` is refused, if it is.
    pub open spec fn reindex_refusal(self, alias: Seq<char>, now: u64, max_secs: u64) -> Option<
        ReplyView,
    > {
        if self.config.resolve(alias) is None {
            Some(not_found(alias))
        } else if self.config.is_read_only(alias) {
            Some(owned_elsewhere(alias))
        } else if self.busy(alias, now, max_secs) {
            Some(already_indexing(alias))
        } else {
            None
        }
    }
}

impl ServeState {
    /// A reindex of `alias` was asked for.
    ///
    /// An unknown alias, a repository whose index is owned by another writer and one that
    /// is already being indexed are refused, with or without `force`. Otherwise the
    /// repository is marked as being indexed; a force rebuild stops its watcher.
    pub fn reindex_requested(&mut self, alias: &str, force: bool, now: u64, max_secs: u64) -> (r:
        ReindexStep)
        ensures
            match old(self)@.reindex_refusal(alias@, now, max_secs) {
                Some(reply) => {
                    &&& r matches ReindexStep::Answer(a) && a@ == reply
                    &&& final(self)@ == old(self)@
                },
                None => if force {
                    let begun = old(self)@.begun(alias@, now);
                    &&& final(self)@ == begun.watcher_stopped(alias@)
                    &&& match begun.stop_answer(alias@) {
                        StopWatcher::Open { cancel_watcher } => r == (ReindexStep::Rebuild {
                            cancel_watcher,
                        }),
                        StopWatcher::NotOpen => r is OpenThenRebuild,
                    }
                } else {
                    &&& final(self)@ == old(self)@.begun(alias@, now)
                    &&& r is OpenThenRefresh
                },
            },
    {
        if self.config().resolve(alias).is_none() {
            return ReindexStep::Answer(refuse(404, "not_found", unknown_alias_msg(alias)));
        }
        if self.config().is_read_only(alias) {
            return ReindexStep::Answer(
                refuse(
                    409,
                    "read_only",
                    quoted(
                        "Repo '",
                        alias,
                        "' is marked read-only (repo_read_only) — its index is owned by another writer (e.g. a separate indexing job). Reindex it there, or clear the flag in repos.json.",
                    ),
                ),
            );
        }
        if !self.begin_indexing(alias, now, max_secs) {
            return ReindexStep::Answer(
                refuse(409, "conflict", quoted("Reindex already in progress for '", alias, "'")),
            );
        }
        if force {
            match self.stop_fsw(alias) {
                StopWatcher::Open { cancel_watcher } => ReindexStep::Rebuild { cancel_watcher },
                StopWatcher::NotOpen => ReindexStep::OpenThenRebuild,
            }
        } else {
            ReindexStep::OpenThenRefresh
        }
    }

    /// The stores for a force rebuild were opened, or not. `None` goes on with the rebuild;
    /// otherwise the marker is removed and the request answered.
    pub fn rebuild_opened(&mut self, alias: &str, opened: Result<OpenedStores, String>, now: u64) -> (r:
        Option<Reply>)
        ensures
            match opened {
                Ok(OpenedStores::Write) => {
                    &&& r is None
                    &&& final(self)@ == old(self)@.with_repo(
                        alias@,
                        RepoView {
                            mode: Some(RepoState::Write),
                            last_access: Some(now),
                            ..old(self)@.repo(alias@)
                        },
                    )
                },
                Ok(OpenedStores::Readonly) => {
                    &&& r matches Some(a) && a@ == refusal(
                        500,
                        "error"@,
                        "Repo "@ + alias@
                            + " could only be opened read-only; cannot force-reindex"@,
                    )
                    &&& final(self)@ == old(self)@.ended(alias@)
                },
                Err(e) => {
                    &&& r matches Some(a) && a@ == refusal(500, "error"@, e@)
                    &&& final(self)@ == old(self)@.ended(alias@)
                },
            },
    {
        match opened {
            Ok(OpenedStores::Write) => {
                let mut record: RepoRuntime = self.repo(alias);
                record.mode = Some(RepoState::Write);
                record.last_access = Some(now);
                self.set_repo(alias, record);
                None
            },
            Ok(OpenedStores::Readonly) => {
                self.end_indexing(alias);
                Some(
                    refuse(
                        500,
                        "error",
                        quoted(
                            "Repo ",
                            alias,
                            " could only be opened read-only; cannot force-reindex",
                        ),
                    ),
                )
            },
            Err(e) => {
                self.end_indexing(alias);
                Some(refuse(500, "error", e))
            },
        }
    }

    /// The stores for an incremental refresh were opened, or not. `None` goes on with the
    /// refresh; otherwise the marker is removed and the request answered.
    pub fn refresh_opened(&mut self, alias: &str, opened: Result<(), String>) -> (r: Option<Reply>)
        ensures
            match opened {
                Ok(_) => r is None && final(self)@ == old(self)@,
                Err(e) => {
                    &&& r matches Some(a) && a@ == refusal(500, "error"@, e@)
                    &&& final(self)@ == old(self)@.ended(alias@)
                },
            },
    {
        match opened {
            Ok(_) => None,
            Err(e) => {
                self.end_indexing(alias);
                Some(refuse(500, "error", e))
            },
        }
    }

    /// The background task of a reindex was started: the request is accepted.
    pub fn reindex_started(&mut self, alias: &str) -> (r: Reply)
        ensures
            r@ == (ReplyView {
                code: 202,
                status: "accepted"@,
                alias: Some(alias@),
                path: None,
                error: None,
                message: Some("Reindex started in background"@),
            }),
            final(self)@ == old(self)@.with_repo(
                alias@,
                RepoView {
                    index_task: Some(IndexTask { cancelled: false }),
                    ..old(self)@.repo(alias@)
                },
            ),
    {
        self.index_task_started(alias);
        Reply {
            code: 202,
            status: "accepted".to_owned(),
            alias: Some(alias.to_owned()),
            path: None,
            error: None,
            message: Some("Reindex started in background".to_owned()),
        }
    }

    /// The embed pass of a background task ended. `failed` tells how, `cancelled` whether
    /// its token was cancelled.
    ///
    /// A force rebuild that was cancelled ends here. A task whose alias is not live any more
    /// lets go of its stores, and deletes the database only of an alias that is not
    /// registered. Any other goes on: a force rebuild restarts the watcher.
    pub fn reindex_finished(&mut self, alias: &str, force: bool, failed: bool, cancelled: bool) -> (r:
        AfterIndexing)
        ensures
            r == old(self)@.after_reindex(alias@, force, failed, cancelled),
            final(self)@ == (if r is GoOn {
                old(self)@
            } else {
                old(self)@.ended(alias@)
            }),
    {
        if force && failed && cancelled {
            self.end_indexing(alias);
            return AfterIndexing::Stop;
        }
        if !self.is_alias_live(alias, cancelled) {
            let delete_db: bool = self.self_clean_if_unregistered(alias);
            self.end_indexing(alias);
            return AfterIndexing::LetGo { delete_db };
        }
        AfterIndexing::GoOn { restart_watcher: force }
    }

    /// A force reindex was asked for at the terminal. `Err` tells why it does not start,
    /// `Ok` whether the stores are open; then a marker is set and the watcher is stopped.
    pub fn force_reindex_requested(&mut self, alias: &str, now: u64, max_secs: u64) -> (r: Result<
        StopWatcher,
        ReindexLaunch,
    >)
        ensures
            match r {
                Err(ReindexLaunch::AlreadyRunning) => old(self)@.busy(alias@, now, max_secs) && final(self)@ == old(self)@,
                Err(ReindexLaunch::Failed) => {
                    &&& !old(self)@.busy(alias@, now, max_secs)
                    &&& old(self)@.config.resolve(alias@) is None || old(self)@.config.is_read_only(alias@)
                    &&& final(self)@ == old(self)@.ended(alias@)
                },
                Err(ReindexLaunch::Started) => false,
                Ok(stop) => {
                    &&& !old(self)@.busy(alias@, now, max_secs)
                    &&& old(self)@.config.resolve(alias@) is Some
                    &&& !old(self)@.config.is_read_only(alias@)
                    &&& stop == old(self)@.begun(alias@, now).stop_answer(alias@)
                    &&& final(self)@ == old(self)@.begun(alias@, now).watcher_stopped(alias@)
                },
            },
    {
        let ghost before = self@;
        if !self.begin_indexing(alias, now, max_secs) {
            return Err(ReindexLaunch::AlreadyRunning);
        }
        if self.config().resolve(alias).is_none() || self.config().is_read_only(alias) {
            self.end_indexing(alias);
            assert(self@ =~= before.ended(alias@)) by {
                assert(self@.repos =~= before.ended(alias@).repos);
            }
            return Err(ReindexLaunch::Failed);
        }
        Ok(self.stop_fsw(alias))
    }
}

/// What a background task does after its embed pass.
#[derive(Debug, Clone, Copy, PartialEq, Eq, Structural)]
pub enum AfterIndexing {
    /// Nothing more.
    Stop,
    /// It lets go of its stores; then it deletes the database directory, or not.
    LetGo { delete_db: bool },
    /// It goes on, with or without restarting the watcher, and removes the marker at the
    /// end.
    GoOn { restart_watcher: bool },
}

/// Whether a force reindex was started at the terminal.
#[derive(Debug, Clone, Copy, PartialEq, Eq, Structural)]
pub enum ReindexLaunch {
    /// Background reindex task spawned successfully.
    Started,
    /// A reindex was already running for this alias: the request is ignored.
    AlreadyRunning,
    /// It could not be started.
    Failed,
}

impl StateView {
    /// What a background task does after its embed pass.
    pub open spec fn after_reindex(
        self,
        alias: Seq<char>,
        force: bool,
        failed: bool,
        cancelled: bool,
    ) -> AfterIndexing {
        if force && failed && cancelled {
            AfterIndexing::Stop
        } else if cancelled || self.config.resolve(alias) is None {
            AfterIndexing::LetGo { delete_db: self.config.resolve(alias) is None }
        } else {
            AfterIndexing::GoOn { restart_watcher: force }
        }
    }
}

/// What is shown at the terminal after a force reindex was asked for.
pub fn launch_message(launch: ReindexLaunch, alias: &str) -> (r: String)
    ensures
        r@ == (match launch {
            ReindexLaunch::Started => "⟳ Reindex started for '"@ + alias@ + "' …"@,
            ReindexLaunch::AlreadyRunning => "⟳ Reindex already running for '"@ + alias@ + "'"@,
            ReindexLaunch::Failed => "✗ Cannot reindex '"@ + alias@ + "' — see logs"@,
        }),
{
    match launch {
        ReindexLaunch::Started => quoted("⟳ Reindex started for '", alias, "' …"),
        ReindexLaunch::AlreadyRunning => quoted("⟳ Reindex already running for '", alias, "'"),
        ReindexLaunch::Failed => quoted("✗ Cannot reindex '", alias, "' — see logs"),
    }
}

/// Decide the embedding model that a newly added repository is indexed with.
///
/// 1. an explicit model always wins;
/// 2. otherwise the serve-wide default applies only when no model is recorded on disk;
/// 3. an index that already records its own model keeps it.
pub fn resolve_add_repo_model<M>(
    explicit: Option<M>,
    recorded: Option<M>,
    serve_default: Option<M>,
) -> (r: Option<M>)
    ensures
        r == (match explicit {
            Some(m) => Some(m),
            None => match recorded {
                Some(_) => None,
                None => serve_default,
            },
        }),
{
    match explicit {
        Some(m) => Some(m),
        None => match recorded {
            Some(_) => None,
            None => serve_default,
        },
    }
}

/// What was found out about a repository that is to be added.
pub struct AddRepoRequest {
    /// The path as it was asked for.
    pub asked: String,
    /// The canonical path, or why there is none.
    pub canonical: Result<String, String>,
    /// Whether the canonical path lies under an allowed root, or why not.
    pub allowed: Result<(), String>,
    /// The name of the model that was asked for.
    pub model: Option<String>,
    /// Whether that name is known.
    pub model_known: bool,
    /// The names that are known.
    pub valid_models: String,
}

impl StateView {
    /// How the request to add a repository is refused, if it is.
    pub open spec fn add_refusal(self, req: AddRepoRequest) -> Option<ReplyView> {
        match req.canonical {
            Err(e) => Some(
                refusal(
                    400,
                    "error"@,
                    "Cannot canonicalize path '"@ + req.asked@ + "': "@ + e@,
                ),
            ),
            Ok(path) => match req.allowed {
                Err(e) => Some(refusal(403, "forbidden"@, e@)),
                Ok(_) => if req.model is Some && !req.model_known {
                    Some(
                        refusal(
                            400,
                            "error"@,
                            "Unknown model: '"@ + (req.model->0)@ + "'. Use one of: "@
                                + req.valid_models@,
                        ),
                    )
                } else {
                    match alias_in(self.config.repos, path@) {
                        Some(existing) => Some(
                            ReplyView {
                                alias: Some(existing),
                                ..refusal(
                                    409,
                                    "conflict"@,
                                    "Path already registered as '"@ + existing + "'"@,
                                )
                            },
                        ),
                        None => None,
                    }
                },
            },
        }
    }

    /// This state after the registration of `alias` was undone.
    pub open spec fn unregistered(self, alias: Seq<char>) -> StateView {
        StateView { config: self.config.without(alias), ..self }
    }
}

/// What comes after the stores of a new repository were opened.
pub enum AddRepoStep {
    /// The request is answered, and the configuration saved: its registration was undone.
    Answer(Reply),
    /// Indexing starts in the background.
    Index(Reply),
}

impl ServeState {
    /// Whether a repository may be added: `None` goes on with its registration.
    pub fn add_repo_requested(&self, req: &AddRepoRequest) -> (r: Option<Reply>)
        ensures
            match self@.add_refusal(*req) {
                Some(reply) => r matches Some(a) && a@ == reply,
                None => r is None,
            },
    {
        let path: &String = match &req.canonical {
            Err(e) => {
                let mut msg: String = quoted(
                    "Cannot canonicalize path '",
                    req.asked.as_str(),
                    "': ",
                );
                msg.push_str(e.as_str());
                return Some(refuse(400, "error", msg));
            },
            Ok(p) => p,
        };
        match &req.allowed {
            Err(e) => {
                return Some(refuse(403, "forbidden", e.clone()));
            },
            Ok(_) => {},
        }
        match &req.model {
            Some(name) => if !req.model_known {
                let mut msg: String = quoted("Unknown model: '", name.as_str(), "'. Use one of: ");
                msg.push_str(req.valid_models.as_str());
                return Some(refuse(400, "error", msg));
            },
            None => {},
        }
        match self.config().alias_for_path(path.as_str()) {
            Some(existing) => {
                let mut reply: Reply = refuse(
                    409,
                    "conflict",
                    quoted("Path already registered as '", existing.as_str(), "'"),
                );
                reply.alias = Some(existing);
                Some(reply)
            },
            None => None,
        }
    }

    /// A registration was tried: the alias it was given, or why it failed. A repository that
    /// could be registered is in the configuration from here on.
    pub fn add_repo_registered(&mut self, registered: Result<String, String>, path: &str) -> (r:
        Result<String, Reply>)
        ensures
            match registered {
                Ok(alias) => {
                    &&& r matches Ok(a) && a@ == alias@
                    &&& final(self)@ == (StateView {
                        config: old(self)@.config.registering(alias@, path@),
                        ..old(self)@
                    })
                },
                Err(e) => {
                    &&& r matches Err(reply) && reply@ == refusal(
                        400,
                        "error"@,
                        "Registration failed: "@ + e@,
                    )
                    &&& final(self)@ == old(self)@
                },
            },
    {
        match registered {
            Ok(alias) => {
                self.register(alias.as_str(), path);
                Ok(alias)
            },
            Err(e) => {
                let mut msg: String = "Registration failed: ".to_owned();
                msg.push_str(e.as_str());
                Err(refuse(400, "error", msg))
            },
        }
    }

    /// The configuration with the new repository was saved, or not. `None` goes on with
    /// opening its stores.
    pub fn add_repo_saved(&self, saved: Result<(), String>) -> (r: Option<Reply>)
        ensures
            match saved {
                Ok(_) => r is None,
                Err(e) => r matches Some(a) && a@ == refusal(
                    500,
                    "error"@,
                    "Failed to save repos config: "@ + e@,
                ),
            },
    {
        match saved {
            Ok(_) => None,
            Err(e) => {
                let mut msg: String = "Failed to save repos config: ".to_owned();
                msg.push_str(e.as_str());
                Some(refuse(500, "error", msg))
            },
        }
    }

    /// The stores of a new repository were opened for writing, or not.
    ///
    /// When they were not, or another reindex of the alias is in progress, the registration
    /// is undone. Otherwise the repository is open, touched and marked as being indexed.
    pub fn add_repo_opened(
        &mut self,
        alias: &str,
        path: &str,
        opened: Result<(), String>,
        now: u64,
        max_secs: u64,
    ) -> (r: AddRepoStep)
        ensures
            match opened {
                Err(e) => {
                    &&& r matches AddRepoStep::Answer(a) && a@ == refusal(
                        500,
                        "error"@,
                        "Failed to open database for "@ + alias@ + ": "@ + e@,
                    )
                    &&& final(self)@ == old(self)@.unregistered(alias@)
                },
                Ok(_) => if old(self)@.busy(alias@, now, max_secs) {
                    &&& r matches AddRepoStep::Answer(a) && a@ == already_indexing(alias@)
                    &&& final(self)@ == old(self)@.unregistered(alias@).with_repo(
                        alias@,
                        RepoView {
                            mode: None,
                            last_access: Some(now),
                            ..old(self)@.repo(alias@)
                        },
                    )
                } else {
                    &&& r matches AddRepoStep::Index(a) && a@ == (ReplyView {
                        code: 202,
                        status: "accepted"@,
                        alias: Some(alias@),
                        path: Some(path@),
                        error: None,
                        message: Some("Repo registered, indexing in background"@),
                    })
                    &&& final(self)@ == old(self)@.with_repo(
                        alias@,
                        RepoView {
                            mode: Some(RepoState::Write),
                            last_access: Some(now),
                            indexing_since: Some(now),
                            index_task: Some(IndexTask { cancelled: false }),
                            ..old(self)@.repo(alias@)
                        },
                    )
                },
            },
    {
        let ghost before = self@;
        match opened {
            Err(e) => {
                let _ = self.unregister(alias);
                let mut msg: String = quoted("Failed to open database for ", alias, ": ");
                msg.push_str(e.as_str());
                AddRepoStep::Answer(refuse(500, "error", msg))
            },
            Ok(_) => {
                let mut record: RepoRuntime = self.repo(alias);
                record.mode = Some(RepoState::Write);
                record.last_access = Some(now);
                self.set_repo(alias, record);
                if !self.begin_indexing(alias, now, max_secs) {
                    let mut undone: RepoRuntime = self.repo(alias);
                    undone.mode = None;
                    self.set_repo(alias, undone);
                    let _ = self.unregister(alias);
                    assert(self@.repos =~= before.repos.insert(
                        alias@,
                        RepoView { mode: None, last_access: Some(now), ..before.repo(alias@) },
                    ));
                    return AddRepoStep::Answer(
                        refuse(
                            409,
                            "conflict",
                            quoted("Reindex already in progress for '", alias, "'"),
                        ),
                    );
                }
                self.index_task_started(alias);
                assert(self@.repos =~= before.repos.insert(
                    alias@,
                    RepoView {
                        mode: Some(RepoState::Write),
                        last_access: Some(now),
                        indexing_since: Some(now),
                        index_task: Some(IndexTask { cancelled: false }),
                        ..before.repo(alias@)
                    },
                ));
                AddRepoStep::Index(
                    Reply {
                        code: 202,
                        status: "accepted".to_owned(),
                        alias: Some(alias.to_owned()),
                        path: Some(path.to_owned()),
                        error: None,
                        message: Some("Repo registered, indexing in background".to_owned()),
                    },
                )
            },
        }
    }

    /// The first embed pass of a new repository ended.
    ///
    /// A cancelled one leaves the rest to whoever cancelled it. One that failed undoes the
    /// registration. One whose alias is not live any more ends. Any other goes on to build
    /// the vector index.
    pub fn add_repo_indexed(&mut self, alias: &str, failed: bool, cancelled: bool) -> (r: AfterAdd)
        ensures
            r == (if failed && !cancelled {
                AfterAdd::Undone
            } else if failed || cancelled || old(self)@.config.resolve(alias@) is None {
                AfterAdd::Stop
            } else {
                AfterAdd::Build
            }),
            final(self)@ == (match r {
                AfterAdd::Stop => old(self)@.ended(alias@),
                AfterAdd::Undone => old(self)@.unregistered(alias@).with_repo(
                    alias@,
                    RepoView { mode: None, indexing_since: None, ..old(self)@.repo(alias@) },
                ),
                AfterAdd::Build => old(self)@,
            }),
    {
        let ghost before = self@;
        if failed {
            if cancelled {
                self.end_indexing(alias);
                return AfterAdd::Stop;
            }
            let mut record: RepoRuntime = self.repo(alias);
            record.mode = None;
            record.indexing_since = None;
            self.set_repo(alias, record);
            let _ = self.unregister(alias);
            return AfterAdd::Undone;
        }
        if !self.is_alias_live(alias, cancelled) {
            self.end_indexing(alias);
            return AfterAdd::Stop;
        }
        AfterAdd::Build
    }

    /// The vector index of a new repository was built, or not. An alias that is not live any
    /// more lets go of its stores; any other restarts its watcher.
    pub fn add_repo_built(&mut self, alias: &str, cancelled: bool) -> (r: AfterIndexing)
        ensures
            r == old(self)@.after_reindex(alias@, true, false, cancelled),
            final(self)@ == (if r is GoOn {
                old(self)@
            } else {
                old(self)@.ended(alias@)
            }),
    {
        self.reindex_finished(alias, true, false, cancelled)
    }
}

/// What the background task of a new repository does after its embed pass.
#[derive(Debug, Clone, Copy, PartialEq, Eq, Structural)]
pub enum AfterAdd {
    /// Nothing more.
    Stop,
    /// The registration was undone; the configuration is to be saved.
    Undone,
    /// It builds the vector index.
    Build,
}

/// A refused or failed add leaves the alias unregistered, whatever was registered before under
/// other aliases.
pub proof fn law_failed_add_is_rolled_back(s: StateView, alias: Seq<char>)
    ensures
        s.unregistered(alias).config.resolve(alias) is None,
        forall|other: Seq<char>|
            other != alias ==> #[trigger] s.unregistered(alias).config.resolve(other)
                == s.config.resolve(other),
{
    crate::config::law_unregister(s.config, alias);
    assert forall|other: Seq<char>| other != alias implies #[trigger] s.unregistered(
        alias,
    ).config.resolve(other) == s.config.resolve(other) by {
        assert(s.config.without(alias).resolve(other) == s.config.resolve(other));
    }
}

/// A repository whose index is owned by another writer is never reindexed here.
pub proof fn law_read_only_is_never_reindexed(
    s: StateView,
    alias: Seq<char>,
    now: u64,
    max_secs: u64,
)
    requires
        s.config.resolve(alias) is Some,
        s.config.is_read_only(alias),
    ensures
        s.reindex_refusal(alias, now, max_secs) == Some(owned_elsewhere(alias)),
{
}

/// While a reindex of an alias is in progress, a second request for it is refused.
pub proof fn law_concurrent_reindex_conflicts(
    s: StateView,
    alias: Seq<char>,
    now: u64,
    later: u64,
    max_secs: u64,
)
    requires
        s.reindex_refusal(alias, now, max_secs) is None,
        now <= later,
        later - now < max_secs * 1_000_000_000,
    ensures
        s.begun(alias, now).reindex_refusal(alias, later, max_secs) == Some(
            already_indexing(alias),
        ),
{
}

/// A background task deletes a database directory only when its alias is not registered: a
/// cancelled token alone never deletes the index of a live repository.
pub proof fn law_only_orphans_are_deleted(
    s: StateView,
    alias: Seq<char>,
    force: bool,
    failed: bool,
    cancelled: bool,
)
    requires
        s.after_reindex(alias, force, failed, cancelled) == (AfterIndexing::LetGo {
            delete_db: true,
        }),
    ensures
        s.config.resolve(alias) is None,
{
}

/// A task whose alias was removed never restarts a watcher: a removed repository is not
/// brought back.
pub proof fn law_removed_repository_stays_removed(
    s: StateView,
    alias: Seq<char>,
    force: bool,
    failed: bool,
    cancelled: bool,
)
    requires
        s.config.resolve(alias) is None || cancelled,
    ensures
        !(s.after_reindex(alias, force, failed, cancelled) is GoOn),
{
}

} // verus!
