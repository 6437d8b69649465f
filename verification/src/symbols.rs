//! The C# symbol index: when it is rebuilt, in which order, and what becomes of the outcome.
use crate::order::number_order;
use crate::removal::{format_corruption, is_lmdb_format_corruption};
use crate::state::{
    CSharpIndexStatus, RecoveryRequest, RepoRuntime, RepoView, ServeState, StateView,
};
use crate::text::{
    all_digits, chars_of, digits_value, opt_str, parse_u64, parsed_u64, same_text, substring,
    texts, trim_text, trimmed, unsigned_part,
};
use vstd::prelude::*;

verus! {

/// Whether a symbol rebuild is due, and why or why not.
#[derive(Debug, Clone, Copy, PartialEq, Eq, Structural)]
pub enum RebuildDecision {
    /// The index exists and nothing changed since the last build.
    Fresh,
    /// No solution file found: C# indexing is not applicable.
    NoSolutionFile,
    /// The helper binary is not available.
    HelperUnavailable,
    /// An indexing task for this alias is already running.
    AlreadyInFlight,
    /// The configuration could not be read; retry later.
    ConfigPoisoned,
    /// No index exists yet: a first build is needed.
    NoIndex,
    /// The repository has changed since the last build.
    ChangedSinceLastBuild,
}

impl RebuildDecision {
    /// Whether the decision is to rebuild.
    pub fn needs_rebuild(self) -> (r: bool)
        ensures
            r == rebuilds(self),
    {
        match self {
            RebuildDecision::NoIndex => true,
            RebuildDecision::ChangedSinceLastBuild => true,
            _ => false,
        }
    }
}

/// Whether a decision is to rebuild.
pub open spec fn rebuilds(d: RebuildDecision) -> bool {
    d is NoIndex || d is ChangedSinceLastBuild
}

/// What is known of a repository when its symbol rebuild is decided.
#[derive(Debug, Clone, Copy, PartialEq, Eq, Structural)]
pub struct RebuildFacts {
    pub has_solution: bool,
    pub helper_available: bool,
    /// The cached status of its symbol index.
    pub status: Option<CSharpIndexStatus>,
    /// When it last changed, in Unix seconds.
    pub last_changed: Option<i64>,
    /// When it last changed as far as its history or its files tell.
    pub found_change: Option<i64>,
    /// The time of the decision.
    pub now: i64,
    /// When its symbol index was last built.
    pub last_built: Option<i64>,
    pub has_index: bool,
}

/// Whether a symbol rebuild may be decided at all; if not, why.
pub open spec fn rebuild_gate(f: RebuildFacts) -> Option<RebuildDecision> {
    if !f.has_solution {
        Some(RebuildDecision::NoSolutionFile)
    } else if !f.helper_available {
        Some(RebuildDecision::HelperUnavailable)
    } else if f.status == Some(CSharpIndexStatus::Indexing) {
        Some(RebuildDecision::AlreadyInFlight)
    } else {
        None
    }
}

/// When a repository last changed: what is recorded, or else what its history or files tell,
/// or else the time of the decision.
pub open spec fn change_time(f: RebuildFacts) -> i64 {
    match f.last_changed {
        Some(t) => t,
        None => match f.found_change {
            Some(t) => t,
            None => f.now,
        },
    }
}

/// Whether a symbol rebuild is due.
pub open spec fn rebuild_decision(f: RebuildFacts) -> RebuildDecision {
    match rebuild_gate(f) {
        Some(d) => d,
        None => if !f.has_index {
            RebuildDecision::NoIndex
        } else if change_time(f) > (match f.last_built {
            Some(t) => t,
            None => 0,
        }) {
            RebuildDecision::ChangedSinceLastBuild
        } else {
            RebuildDecision::Fresh
        },
    }
}

/// Evaluates whether a symbol rebuild is needed and why. The second part is the time of the
/// last change to record, when none was recorded yet and the rebuild could be decided.
pub fn evaluate_csharp_rebuild(f: &RebuildFacts) -> (r: (RebuildDecision, Option<i64>))
    ensures
        r.0 == rebuild_decision(*f),
        r.1 == (if rebuild_gate(*f) is None && f.last_changed is None {
            Some(change_time(*f))
        } else {
            None
        }),
{
    if !f.has_solution {
        return (RebuildDecision::NoSolutionFile, None);
    }
    if !f.helper_available {
        return (RebuildDecision::HelperUnavailable, None);
    }
    match f.status {
        Some(CSharpIndexStatus::Indexing) => {
            return (RebuildDecision::AlreadyInFlight, None);
        },
        _ => {},
    }
    let changed: i64 = match f.last_changed {
        Some(t) => t,
        None => match f.found_change {
            Some(t) => t,
            None => f.now,
        },
    };
    let record: Option<i64> = if f.last_changed.is_none() {
        Some(changed)
    } else {
        None
    };
    if !f.has_index {
        return (RebuildDecision::NoIndex, record);
    }
    let built: i64 = match f.last_built {
        Some(t) => t,
        None => 0,
    };
    if changed > built {
        (RebuildDecision::ChangedSinceLastBuild, record)
    } else {
        (RebuildDecision::Fresh, record)
    }
}

/// An index built after the last change is fresh: rebuilding settles the decision.
pub proof fn law_rebuild_settles(f: RebuildFacts, built: i64)
    requires
        rebuild_gate(f) is None,
        f.has_index,
        built >= change_time(f),
    ensures
        rebuild_decision(RebuildFacts { last_built: Some(built), ..f }) is Fresh,
{
}

/// How many symbol rebuilds may run at once: the setting when it is a number, or else
/// `default`, between one and four.
pub open spec fn concurrency(setting: Option<Seq<char>>, default: u64) -> u64 {
    let raw = match setting {
        Some(t) => match parsed_u64(t) {
            Some(n) => n,
            None => default,
        },
        None => default,
    };
    if raw < 1 {
        1
    } else if raw > 4 {
        4
    } else {
        raw
    }
}

/// How many symbol rebuilds may run at once.
pub fn csharp_scip_concurrency(setting: Option<&str>, default: u64) -> (r: u64)
    ensures
        r == concurrency(opt_str(setting), default),
        1 <= r <= 4,
{
    let raw: u64 = match setting {
        Some(t) => match parse_u64(t) {
            Some(n) => n,
            None => default,
        },
        None => default,
    };
    if raw < 1 {
        1
    } else if raw > 4 {
        4
    } else {
        raw
    }
}

/// Whether the reference cache is pre-warmed: unless the setting is exactly `false`.
pub fn prewarm_enabled(setting: Option<&str>) -> (r: bool)
    ensures
        r == (opt_str(setting) != Some("false"@)),
{
    match setting {
        Some(v) => !same_text(v, "false"),
        None => true,
    }
}

/// Whether a scan for source changes skips a directory of this name.
pub fn is_ignored_dir(name: &str) -> (r: bool)
    ensures
        r == (name@ == "bin"@ || name@ == "obj"@ || name@ == "node_modules"@ || name@ == ".git"@
            || name@ == ".codesearch.db"@),
{
    same_text(name, "bin") || same_text(name, "obj") || same_text(name, "node_modules")
        || same_text(name, ".git") || same_text(name, ".codesearch.db")
}

/// Whether a scan for source changes looks at a file with this extension.
pub fn is_candidate_extension(extension: Option<&str>) -> (r: bool)
    ensures
        r == (opt_str(extension) matches Some(e) && (e == "sln"@ || e == "csproj"@ || e == "cs"@)),
{
    match extension {
        Some(e) => same_text(e, "sln") || same_text(e, "csproj") || same_text(e, "cs"),
        None => false,
    }
}

/// The most directory entries that a scan for source changes looks at.
pub const MAX_SCANNED: usize = 10_000;

/// A scan of a source tree for its latest change.
#[derive(Debug, Clone, Copy, PartialEq, Eq, Structural)]
pub struct ChangeScan {
    /// How many entries were looked at.
    pub scanned: usize,
    /// The latest change so far, in Unix seconds.
    pub best: Option<i64>,
}

/// What a scan does with a directory entry.
#[derive(Debug, Clone, Copy, PartialEq, Eq, Structural)]
pub enum ScanStep {
    /// It has looked at enough entries.
    Stop,
    /// It goes into the directory later.
    Enter,
    /// It takes the time of the file's last change.
    Measure,
    /// It passes the entry over.
    Skip,
}

impl ChangeScan {
    /// A scan that has looked at nothing.
    pub fn new() -> (r: ChangeScan)
        ensures
            r == (ChangeScan { scanned: 0, best: None }),
    {
        ChangeScan { scanned: 0, best: None }
    }

    /// What to do with an entry: a directory or a file, its name and its extension.
    pub fn entry(&mut self, is_dir: bool, name: Option<&str>, extension: Option<&str>) -> (r: ScanStep)
        requires
            old(self).scanned <= MAX_SCANNED,
        ensures
            final(self).best == old(self).best,
            final(self).scanned <= MAX_SCANNED,
            old(self).scanned >= MAX_SCANNED <==> r is Stop,
            final(self).scanned == (if r is Stop {
                old(self).scanned as int
            } else {
                old(self).scanned + 1
            }),
            old(self).scanned < MAX_SCANNED ==> (r is Enter <==> is_dir && !(opt_str(
                name,
            ) matches Some(n) && (n == "bin"@ || n == "obj"@ || n == "node_modules"@ || n
                == ".git"@ || n == ".codesearch.db"@))),
            old(self).scanned < MAX_SCANNED ==> (r is Measure <==> !is_dir && (opt_str(
                extension,
            ) matches Some(e) && (e == "sln"@ || e == "csproj"@ || e == "cs"@))),
    {
        if self.scanned >= MAX_SCANNED {
            return ScanStep::Stop;
        }
        self.scanned = self.scanned + 1;
        if is_dir {
            let ignored: bool = match name {
                Some(n) => is_ignored_dir(n),
                None => false,
            };
            return if ignored {
                ScanStep::Skip
            } else {
                ScanStep::Enter
            };
        }
        if is_candidate_extension(extension) {
            ScanStep::Measure
        } else {
            ScanStep::Skip
        }
    }

    /// Takes down when a file last changed.
    pub fn measured(&mut self, secs: i64)
        ensures
            final(self).scanned == old(self).scanned,
            final(self).best == (match old(self).best {
                Some(b) => if b < secs {
                    Some(secs)
                } else {
                    Some(b)
                },
                None => Some(secs),
            }),
    {
        self.best = match self.best {
            Some(b) => if b < secs {
                Some(secs)
            } else {
                Some(b)
            },
            None => Some(secs),
        };
    }
}

/// How a symbol rebuild ended.
pub enum RebuildOutcome {
    Succeeded,
    /// It failed: the whole chain of errors.
    Failed(String),
    /// Its task panicked.
    Panicked(String),
}

/// What the end of a symbol rebuild asks of the caller.
#[derive(Debug, Clone, Copy, PartialEq, Eq, Structural)]
pub struct RebuildEnd {
    /// Whether the time of the build is to be recorded and saved.
    pub record_build: bool,
    /// Whether the format recovery worker is to be started.
    pub start_worker: bool,
}

impl StateView {
    /// This state after a symbol rebuild of `alias` failed with `msg`: a corrupt storage
    /// format is queued for recovery, once.
    pub open spec fn rebuild_failed(self, alias: Seq<char>, msg: Seq<char>) -> StateView {
        let noted = self.with_repo(
            alias,
            RepoView { indexing_since: None, csharp_error: Some(msg), ..self.repo(alias) },
        );
        if format_corruption(msg) && self.accepts_recovery(alias) {
            noted.enqueued(alias).with_repo(
                alias,
                RepoView {
                    csharp: Some(CSharpIndexStatus::Indexing),
                    ..noted.repo(alias)
                },
            )
        } else {
            noted.with_repo(
                alias,
                RepoView { csharp: Some(CSharpIndexStatus::Error), ..noted.repo(alias) },
            )
        }
    }
}

impl ServeState {
    /// A symbol rebuild of `alias` begins, if it applies to the repository: its status turns
    /// to indexing. A repository it does not apply to is left alone.
    pub fn symbol_rebuild_begun(&mut self, alias: &str, applies: bool, now: u64, max_secs: u64) -> (r:
        bool)
        ensures
            r == applies,
            final(self)@ == (if !applies {
                old(self)@
            } else {
                old(self)@.with_repo(
                    alias@,
                    RepoView {
                        csharp: Some(CSharpIndexStatus::Indexing),
                        indexing_since: if old(self)@.busy(alias@, now, max_secs) {
                            old(self)@.repo(alias@).indexing_since
                        } else {
                            Some(now)
                        },
                        ..old(self)@.repo(alias@)
                    },
                )
            }),
    {
        if !applies {
            return false;
        }
        let ghost before = self@;
        let mut record: RepoRuntime = self.repo(alias);
        record.csharp = Some(CSharpIndexStatus::Indexing);
        self.set_repo(alias, record);
        let _ = self.begin_indexing(alias, now, max_secs);
        assert(self@.repos =~= before.with_repo(
            alias@,
            RepoView {
                csharp: Some(CSharpIndexStatus::Indexing),
                indexing_since: if before.busy(alias@, now, max_secs) {
                    before.repo(alias@).indexing_since
                } else {
                    Some(now)
                },
                ..before.repo(alias@)
            },
        ).repos);
        true
    }

    /// A symbol rebuild of `alias` ended.
    ///
    /// A success clears the error. A failure keeps it; when it tells of a corrupt storage
    /// format that was not wiped before, a recovery is queued and owns the outcome from
    /// there.
    pub fn symbol_rebuild_finished(&mut self, alias: &str, outcome: RebuildOutcome) -> (r: RebuildEnd)
        ensures
            match outcome {
                RebuildOutcome::Succeeded => {
                    &&& r == (RebuildEnd { record_build: true, start_worker: false })
                    &&& final(self)@ == old(self)@.with_repo(
                        alias@,
                        RepoView {
                            indexing_since: None,
                            csharp: Some(CSharpIndexStatus::Ready),
                            csharp_error: None,
                            ..old(self)@.repo(alias@)
                        },
                    )
                },
                RebuildOutcome::Failed(msg) => {
                    &&& !r.record_build
                    &&& r.start_worker == (!old(self)@.worker && final(self)@.worker)
                    &&& final(self)@ == old(self)@.rebuild_failed(alias@, msg@)
                },
                RebuildOutcome::Panicked(msg) => {
                    &&& r == (RebuildEnd { record_build: false, start_worker: false })
                    &&& final(self)@ == old(self)@.with_repo(
                        alias@,
                        RepoView {
                            indexing_since: None,
                            csharp: Some(CSharpIndexStatus::Error),
                            csharp_error: Some("Task panicked: "@ + msg@),
                            ..old(self)@.repo(alias@)
                        },
                    )
                },
            },
    {
        let ghost before = self@;
        let mut record: RepoRuntime = self.repo(alias);
        record.indexing_since = None;
        match outcome {
            RebuildOutcome::Succeeded => {
                record.csharp = Some(CSharpIndexStatus::Ready);
                record.csharp_error = None;
                self.set_repo(alias, record);
                RebuildEnd { record_build: true, start_worker: false }
            },
            RebuildOutcome::Failed(msg) => {
                let corrupt: bool = is_lmdb_format_corruption(msg.as_str());
                let ghost text = msg@;
                record.csharp_error = Some(msg);
                self.set_repo(alias, record);
                let mut start_worker: bool = false;
                let mut status: CSharpIndexStatus = CSharpIndexStatus::Error;
                let ghost noted = self@;
                if corrupt {
                    let request: RecoveryRequest = self.enqueue_format_recovery(alias);
                    start_worker = request.start_worker;
                    if request.accepted {
                        status = CSharpIndexStatus::Indexing;
                    }
                }
                let mut again: RepoRuntime = self.repo(alias);
                again.csharp = Some(status);
                self.set_repo(alias, again);
                assert(noted =~= before.with_repo(
                    alias@,
                    RepoView {
                        indexing_since: None,
                        csharp_error: Some(text),
                        ..before.repo(alias@)
                    },
                ));
                assert(self@ =~= before.rebuild_failed(alias@, text));
                RebuildEnd { record_build: false, start_worker }
            },
            RebuildOutcome::Panicked(msg) => {
                let mut e: String = "Task panicked: ".to_owned();
                e.push_str(msg.as_str());
                record.csharp = Some(CSharpIndexStatus::Error);
                record.csharp_error = Some(e);
                self.set_repo(alias, record);
                RebuildEnd { record_build: false, start_worker: false }
            },
        }
    }

    /// Takes down the status of a repository's symbol index around the pre-warming of its
    /// reference cache, which leaves the index itself ready whatever its outcome.
    pub fn prewarm_status(&mut self, alias: &str, running: bool)
        ensures
            final(self)@ == old(self)@.with_repo(
                alias@,
                RepoView {
                    csharp: Some(
                        if running {
                            CSharpIndexStatus::Indexing
                        } else {
                            CSharpIndexStatus::Ready
                        },
                    ),
                    ..old(self)@.repo(alias@)
                },
            ),
    {
        let mut record: RepoRuntime = self.repo(alias);
        record.csharp = Some(
            if running {
                CSharpIndexStatus::Indexing
            } else {
                CSharpIndexStatus::Ready
            },
        );
        self.set_repo(alias, record);
    }
}

/// A repository as the rebuild phase sees it: the decision, and when it last changed.
pub struct RebuildCandidate {
    pub alias: String,
    pub decision: RebuildDecision,
    pub last_changed: i64,
}

/// The candidates whose decision is to rebuild.
pub open spec fn due(c: Seq<RebuildCandidate>) -> Seq<RebuildCandidate> {
    c.filter(|x: RebuildCandidate| rebuilds(x.decision))
}

/// Whether `order` puts the later change first, equal ones keeping their order.
pub open spec fn by_recency(c: Seq<RebuildCandidate>, order: Seq<usize>) -> bool {
    &&& order.len() == c.len()
    &&& forall|i: int| 0 <= i < order.len() ==> (#[trigger] order[i]) < c.len()
    &&& forall|i: int, j: int|
        0 <= i < j < order.len() ==> c[(#[trigger] order[i]) as int].last_changed
            > c[(#[trigger] order[j]) as int].last_changed || (c[order[i] as int].last_changed
            == c[order[j] as int].last_changed && order[i] < order[j])
}

/// The positions of `candidates` whose decision is to rebuild.
fn due_positions(candidates: &Vec<RebuildCandidate>) -> (r: Vec<usize>)
    ensures
        r@.len() == due(candidates@).len(),
        forall|i: int|
            0 <= i < r@.len() ==> (#[trigger] r@[i]) < candidates@.len() && candidates@[r@[i] as int]
                == due(candidates@)[i],
{
    let mut r: Vec<usize> = Vec::new();
    let mut i: usize = 0;
    let ghost all = candidates@;
    proof {
        reveal(Seq::filter);
        assert(due(all.take(0)) =~= Seq::empty());
    }
    while i < candidates.len()
        invariant
            i <= candidates@.len(),
            all == candidates@,
            r@.len() == due(all.take(i as int)).len(),
            forall|j: int|
                0 <= j < r@.len() ==> (#[trigger] r@[j]) < all.len() && all[r@[j] as int] == due(
                    all.take(i as int),
                )[j],
        decreases candidates.len() - i,
    {
        proof {
            reveal(Seq::filter);
            assert(all.take(i + 1).drop_last() =~= all.take(i as int));
        }
        if candidates[i].decision.needs_rebuild() {
            r.push(i);
        }
        i += 1;
    }
    assert(all.take(all.len() as int) =~= all);
    r
}

/// The number that orders instants backwards: the later the change, the smaller the number.
fn recency_key(secs: i64) -> (r: u64)
    ensures
        r == i64::MAX - secs,
{
    (i64::MAX as i128 - secs as i128) as u64
}

/// The aliases to rebuild, the most recently changed first.
pub fn rebuild_queue(candidates: &Vec<RebuildCandidate>) -> (r: Vec<String>)
    ensures
        exists|order: Seq<usize>| #[trigger]
            by_recency(due(candidates@), order) && texts(r@) == Seq::new(
                order.len(),
                |i: int| due(candidates@)[order[i] as int].alias@,
            ),
{
    let positions: Vec<usize> = due_positions(candidates);
    let ghost chosen = due(candidates@);
    let mut keys: Vec<u64> = Vec::new();
    let mut i: usize = 0;
    while i < positions.len()
        invariant
            i <= positions@.len(),
            positions@.len() == chosen.len(),
            chosen == due(candidates@),
            forall|j: int|
                0 <= j < positions@.len() ==> (#[trigger] positions@[j]) < candidates@.len()
                    && candidates@[positions@[j] as int] == chosen[j],
            keys@.len() == i,
            forall|j: int| 0 <= j < i ==> #[trigger] keys@[j] == i64::MAX - chosen[j].last_changed,
        decreases positions.len() - i,
    {
        keys.push(recency_key(candidates[positions[i]].last_changed));
        i += 1;
    }
    let order: Vec<usize> = number_order(&keys);
    proof {
        assert forall|a: int, b: int| 0 <= a < b < order@.len() implies chosen[(
        #[trigger] order@[a]) as int].last_changed > chosen[(#[trigger] order@[b]) as int].last_changed
            || (chosen[order@[a] as int].last_changed == chosen[order@[b] as int].last_changed
            && order@[a] < order@[b]) by {
            let x = order@[a] as int;
            let y = order@[b] as int;
            assert(crate::order::number_ordered(keys@, x, y));
            assert(keys@[x] == i64::MAX - chosen[x].last_changed);
            assert(keys@[y] == i64::MAX - chosen[y].last_changed);
        }
        assert(by_recency(chosen, order@));
    }
    let mut r: Vec<String> = Vec::new();
    let mut k: usize = 0;
    while k < order.len()
        invariant
            k <= order@.len(),
            order@.len() == positions@.len(),
            positions@.len() == chosen.len(),
            forall|j: int| 0 <= j < order@.len() ==> (#[trigger] order@[j]) < chosen.len(),
            forall|j: int|
                0 <= j < positions@.len() ==> (#[trigger] positions@[j]) < candidates@.len()
                    && candidates@[positions@[j] as int] == chosen[j],
            r@.len() == k,
            forall|j: int| 0 <= j < k ==> (#[trigger] r@[j])@ == chosen[order@[j] as int].alias@,
        decreases order.len() - k,
    {
        r.push(candidates[positions[order[k]]].alias.clone());
        k += 1;
    }
    assert(texts(r@) =~= Seq::new(order@.len(), |j: int| chosen[order@[j] as int].alias@));
    r
}

/// Whether a repository whose index is fresh is shown as ready: a status that was cached
/// otherwise stays.
pub fn fresh_status(cached: Option<CSharpIndexStatus>) -> (r: CSharpIndexStatus)
    ensures
        r == (match cached {
            None => CSharpIndexStatus::Ready,
            Some(CSharpIndexStatus::Absent) => CSharpIndexStatus::Ready,
            Some(s) => s,
        }),
{
    match cached {
        None => CSharpIndexStatus::Ready,
        Some(CSharpIndexStatus::Absent) => CSharpIndexStatus::Ready,
        Some(s) => s,
    }
}

/// Whether the reference cache of a repository is pre-warmed: its path exists, its symbol
/// index is ready, and symbol indexing applies to it.
pub fn prewarms(path_exists: bool, status: Option<CSharpIndexStatus>, applies: bool) -> (r: bool)
    ensures
        r == (path_exists && status == Some(CSharpIndexStatus::Ready) && applies),
{
    let ready: bool = match status {
        Some(CSharpIndexStatus::Ready) => true,
        _ => false,
    };
    path_exists && ready && applies
}

/// Whether an alias whose warmup failed is dropped from the configuration: its path is not
/// registered, or its database or its path is not there.
pub fn prunes(resolved: bool, db_exists: bool, path_exists: bool) -> (r: bool)
    ensures
        r == (!resolved || !db_exists || !path_exists),
{
    !resolved || !db_exists || !path_exists
}

/// The signed 64-bit number that `s` writes: an optional sign, then decimal digits only, at
/// least one, in range.
pub open spec fn parsed_i64(s: Seq<char>) -> Option<i64> {
    let negative = s.len() > 0 && s[0] == '-';
    let d = if negative {
        s.drop_first()
    } else {
        unsigned_part(s)
    };
    let v = if negative {
        -(digits_value(d) as int)
    } else {
        digits_value(d) as int
    };
    if d.len() > 0 && all_digits(d) && i64::MIN <= v <= i64::MAX {
        Some(v as i64)
    } else {
        None
    }
}

fn parse_i64(s: &str) -> (r: Option<i64>)
    ensures
        r == parsed_i64(s@),
{
    let n: usize = s.unicode_len();
    if n == 0 {
        return None;
    }
    if s.get_char(0) == '-' {
        let chars: Vec<char> = chars_of(s);
        let rest: String = substring(&chars, 1, chars.len());
        assert(rest@ =~= s@.drop_first());
        if n > 1 && chars[1] == '+' {
            assert(!all_digits(rest@)) by {
                assert(rest@[0] == '+');
            }
            return None;
        }
        match parse_u64(rest.as_str()) {
            Some(v) => if v <= 0x7fff_ffff_ffff_ffff {
                Some(-(v as i64))
            } else if v == 0x8000_0000_0000_0000 {
                Some(i64::MIN)
            } else {
                None
            },
            None => None,
        }
    } else {
        match parse_u64(s) {
            Some(v) => if v <= 0x7fff_ffff_ffff_ffff {
                Some(v as i64)
            } else {
                None
            },
            None => None,
        }
    }
}

/// The time of the last commit, from what `git log` printed: a number, with blanks around it.
pub fn commit_time(printed: &str) -> (r: Option<i64>)
    ensures
        r == parsed_i64(trimmed(printed@)),
{
    let t: String = trim_text(printed);
    parse_i64(t.as_str())
}

} // verus!
