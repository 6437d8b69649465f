//! What the server shows of its repositories.
use crate::config::lemma_path_in_names;
use crate::lifecycle::listed;
use crate::order::{is_text_order, lemma_text_order_is_whole, lists, text_order};
use crate::paths::{containing_repo_alias, innermost, lies_inside, RepoRoot};
use crate::state::{
    elapsed, CSharpIndexStatus, IndexingProbe, RepoRuntime, RepoState, RepoView, ServeState,
    StateView,
};
use crate::text::{
    ascii_lower, copy_opt, decimal, decimal_text, opt_text, texts, to_ascii_lower,
};
use vstd::prelude::*;

verus! {

/// Lightweight repository status label, derived without opening any database.
#[derive(Debug, Clone, Copy, PartialEq, Eq, Structural)]
pub enum RepoStateLabel {
    Open,
    Warm,
    Readonly,
    Closed,
    Indexing,
    Error,
    NoIndex,
}

/// The ink that a piece of text is shown in.
#[derive(Debug, Clone, Copy, PartialEq, Eq, Structural)]
pub enum Ink {
    Plain,
    Bold,
    Dimmed,
    BrightBlack,
    Green,
    Yellow,
    Cyan,
    GreenBold,
    MagentaBold,
    RedBold,
}

/// A piece of text and its ink.
pub struct Span {
    pub text: String,
    pub ink: Ink,
}

/// A piece of text and its ink.
pub struct SpanView {
    pub text: Seq<char>,
    pub ink: Ink,
}

impl View for Span {
    type V = SpanView;

    open spec fn view(&self) -> SpanView {
        SpanView { text: self.text@, ink: self.ink }
    }
}

/// The name under which a label is shown.
pub open spec fn label_text(l: RepoStateLabel) -> Seq<char> {
    match l {
        RepoStateLabel::Open => "Open"@,
        RepoStateLabel::Warm => "Warm"@,
        RepoStateLabel::Readonly => "Readonly"@,
        RepoStateLabel::Closed => "Closed"@,
        RepoStateLabel::Indexing => "Indexing"@,
        RepoStateLabel::Error => "Error"@,
        RepoStateLabel::NoIndex => "No Index"@,
    }
}

/// The ink that a label is shown in.
pub open spec fn label_ink(l: RepoStateLabel) -> Ink {
    match l {
        RepoStateLabel::Open => Ink::GreenBold,
        RepoStateLabel::Warm => Ink::Yellow,
        RepoStateLabel::Readonly => Ink::Cyan,
        RepoStateLabel::Closed => Ink::Dimmed,
        RepoStateLabel::Indexing => Ink::MagentaBold,
        RepoStateLabel::Error => Ink::RedBold,
        RepoStateLabel::NoIndex => Ink::Dimmed,
    }
}

/// The name of a label in the status of the server.
pub open spec fn label_key(l: RepoStateLabel) -> Seq<char> {
    match l {
        RepoStateLabel::Open => "open"@,
        RepoStateLabel::Warm => "warm"@,
        RepoStateLabel::Readonly => "readonly"@,
        RepoStateLabel::Closed => "closed"@,
        RepoStateLabel::Indexing => "indexing"@,
        RepoStateLabel::Error => "error"@,
        RepoStateLabel::NoIndex => "no_index"@,
    }
}

/// How a repository with this label is locked.
pub open spec fn lock_mode_text(l: RepoStateLabel) -> Seq<char> {
    match l {
        RepoStateLabel::Open => "write"@,
        RepoStateLabel::Indexing => "write"@,
        RepoStateLabel::Warm => "read"@,
        RepoStateLabel::Readonly => "read"@,
        _ => "—"@,
    }
}

/// The name of a symbol index status.
pub open spec fn symbol_key(s: CSharpIndexStatus) -> Seq<char> {
    match s {
        CSharpIndexStatus::Absent => "none"@,
        CSharpIndexStatus::Ready => "ready"@,
        CSharpIndexStatus::Error => "error"@,
        CSharpIndexStatus::Indexing => "indexing"@,
    }
}

impl RepoStateLabel {
    /// The name under which the label is shown.
    pub fn name(&self) -> (r: &'static str)
        ensures
            r@ == label_text(*self),
    {
        match self {
            RepoStateLabel::Open => "Open",
            RepoStateLabel::Warm => "Warm",
            RepoStateLabel::Readonly => "Readonly",
            RepoStateLabel::Closed => "Closed",
            RepoStateLabel::Indexing => "Indexing",
            RepoStateLabel::Error => "Error",
            RepoStateLabel::NoIndex => "No Index",
        }
    }

    /// The label with the ink that it is shown in.
    pub fn colored(&self) -> (r: Span)
        ensures
            r@ == (SpanView { text: label_text(*self), ink: label_ink(*self) }),
    {
        let ink: Ink = match self {
            RepoStateLabel::Open => Ink::GreenBold,
            RepoStateLabel::Warm => Ink::Yellow,
            RepoStateLabel::Readonly => Ink::Cyan,
            RepoStateLabel::Closed => Ink::Dimmed,
            RepoStateLabel::Indexing => Ink::MagentaBold,
            RepoStateLabel::Error => Ink::RedBold,
            RepoStateLabel::NoIndex => Ink::Dimmed,
        };
        Span { text: self.name().to_owned(), ink }
    }

    /// The name of the label in the status of the server.
    pub fn as_str(&self) -> (r: &'static str)
        ensures
            r@ == label_key(*self),
    {
        match self {
            RepoStateLabel::Open => "open",
            RepoStateLabel::Warm => "warm",
            RepoStateLabel::Readonly => "readonly",
            RepoStateLabel::Closed => "closed",
            RepoStateLabel::Indexing => "indexing",
            RepoStateLabel::Error => "error",
            RepoStateLabel::NoIndex => "no_index",
        }
    }

    /// How a repository with this label is locked.
    pub fn lock_mode(&self) -> (r: &'static str)
        ensures
            r@ == lock_mode_text(*self),
    {
        match self {
            RepoStateLabel::Open => "write",
            RepoStateLabel::Indexing => "write",
            RepoStateLabel::Warm => "read",
            RepoStateLabel::Readonly => "read",
            _ => "—",
        }
    }
}

impl CSharpIndexStatus {
    /// The name of the status in the status of the server.
    pub fn as_str(&self) -> (r: &'static str)
        ensures
            r@ == symbol_key(*self),
    {
        match self {
            CSharpIndexStatus::Absent => "none",
            CSharpIndexStatus::Ready => "ready",
            CSharpIndexStatus::Error => "error",
            CSharpIndexStatus::Indexing => "indexing",
        }
    }
}

/// A tool call and how long ago it was, in words.
pub open spec fn tool_call_ago(tool: Seq<char>, secs: nat) -> Seq<char> {
    if secs < 60 {
        tool + " ("@ + decimal(secs) + "s ago)"@
    } else if secs < 3600 {
        tool + " ("@ + decimal(secs / 60) + "m ago)"@
    } else {
        tool + " ("@ + decimal(secs / 3600) + "h "@ + decimal((secs % 3600) / 60) + "m ago)"@
    }
}

/// Format a tool call name and elapsed seconds into a human-readable string.
pub fn format_tool_call_ago(tool_name: &str, secs: u64) -> (r: String)
    ensures
        r@ == tool_call_ago(tool_name@, secs as nat),
{
    let mut r: String = tool_name.to_owned();
    r.push_str(" (");
    if secs < 60 {
        let n: String = decimal_text(secs);
        r.push_str(n.as_str());
        r.push_str("s ago)");
    } else if secs < 3600 {
        let n: String = decimal_text(secs / 60);
        r.push_str(n.as_str());
        r.push_str("m ago)");
    } else {
        let h: String = decimal_text(secs / 3600);
        let m: String = decimal_text((secs % 3600) / 60);
        r.push_str(h.as_str());
        r.push_str("h ");
        r.push_str(m.as_str());
        r.push_str("m ago)");
    }
    r
}

/// What is found on disk and in the open stores of a registered repository.
pub struct RepoFacts {
    pub alias: String,
    pub db_exists: bool,
    /// Changes counted by its open stores.
    pub store_changes: u64,
    /// Whether the C# helper is available and an index exists.
    pub csharp_built: bool,
    /// Whether the TypeScript helper is available and an index exists.
    pub typescript_built: bool,
    /// Whether its background indexing task has finished.
    pub task_finished: bool,
}

impl RepoFacts {
    fn copy(&self) -> (r: RepoFacts)
        ensures
            r == *self,
    {
        RepoFacts {
            alias: self.alias.clone(),
            db_exists: self.db_exists,
            store_changes: self.store_changes,
            csharp_built: self.csharp_built,
            typescript_built: self.typescript_built,
            task_finished: self.task_finished,
        }
    }
}

/// Lightweight status of a repository.
pub struct RepoStatusInfo {
    pub status: RepoStateLabel,
    pub changes: u64,
    pub last_tool_call: Option<String>,
    pub tool_call_count: u64,
    pub csharp_index: CSharpIndexStatus,
    pub csharp_error: Option<String>,
    pub typescript_index: CSharpIndexStatus,
}

/// Lightweight status of a repository.
pub struct RepoStatusView {
    pub status: RepoStateLabel,
    pub changes: u64,
    pub last_tool_call: Option<Seq<char>>,
    pub tool_call_count: u64,
    pub csharp_index: CSharpIndexStatus,
    pub csharp_error: Option<Seq<char>>,
    pub typescript_index: CSharpIndexStatus,
}

impl View for RepoStatusInfo {
    type V = RepoStatusView;

    open spec fn view(&self) -> RepoStatusView {
        RepoStatusView {
            status: self.status,
            changes: self.changes,
            last_tool_call: opt_text(self.last_tool_call),
            tool_call_count: self.tool_call_count,
            csharp_index: self.csharp_index,
            csharp_error: opt_text(self.csharp_error),
            typescript_index: self.typescript_index,
        }
    }
}

/// The label of a repository: being indexed comes first, then how it is open, then whether it
/// has a database at all.
pub open spec fn label_of(r: RepoView, busy: bool, db_exists: bool) -> RepoStateLabel {
    if busy {
        RepoStateLabel::Indexing
    } else {
        match r.mode {
            Some(RepoState::Write) => RepoStateLabel::Open,
            Some(RepoState::Warm) => RepoStateLabel::Warm,
            Some(RepoState::Readonly) => RepoStateLabel::Readonly,
            Some(RepoState::Conflicted) => RepoStateLabel::Error,
            None => if db_exists {
                RepoStateLabel::Closed
            } else {
                RepoStateLabel::NoIndex
            },
        }
    }
}

/// The symbol status of a repository: the cached one, or else what is found on disk.
pub open spec fn symbol_status(r: RepoView, built: bool) -> CSharpIndexStatus {
    match r.csharp {
        Some(s) => s,
        None => if built {
            CSharpIndexStatus::Ready
        } else {
            CSharpIndexStatus::Absent
        },
    }
}

/// The status of a repository.
pub open spec fn status_of(s: StateView, f: RepoFacts, now: u64, max_secs: u64) -> RepoStatusView {
    let r = s.repo(f.alias@);
    RepoStatusView {
        status: label_of(r, s.busy(f.alias@, now, max_secs), f.db_exists),
        changes: match r.mode {
            Some(RepoState::Conflicted) => 0,
            Some(_) => f.store_changes,
            None => r.changes,
        },
        last_tool_call: match r.last_tool {
            Some((tool, at)) => Some(
                tool_call_ago(tool, (elapsed(now, at) / 1_000_000_000) as nat),
            ),
            None => None,
        },
        tool_call_count: r.tool_calls,
        csharp_index: symbol_status(r, f.csharp_built),
        csharp_error: if symbol_status(r, f.csharp_built) == CSharpIndexStatus::Error {
            r.csharp_error
        } else {
            None
        },
        typescript_index: if f.typescript_built {
            CSharpIndexStatus::Ready
        } else {
            CSharpIndexStatus::Absent
        },
    }
}

/// The aliases of `facts`.
pub open spec fn fact_aliases(facts: Seq<RepoFacts>) -> Seq<Seq<char>> {
    facts.map_values(|f: RepoFacts| f.alias@)
}

/// What is found of the repositories that are registered.
pub open spec fn registered_facts(s: StateView, facts: Seq<RepoFacts>) -> Seq<RepoFacts> {
    facts.filter(|f: RepoFacts| s.config.resolve(f.alias@) is Some)
}

/// The aliases of `facts`, in lowercase.
pub open spec fn fact_keys(facts: Seq<RepoFacts>) -> Seq<Seq<char>> {
    facts.map_values(|f: RepoFacts| ascii_lower(f.alias@))
}

/// Whether `rows` shows each of `facts` once, in the order of their aliases in lowercase.
pub open spec fn shows(
    rows: Seq<(String, RepoStatusInfo)>,
    s: StateView,
    facts: Seq<RepoFacts>,
    now: u64,
    max_secs: u64,
) -> bool {
    exists|order: Seq<usize>| #[trigger]
        is_text_order(fact_keys(facts), order) && rows.len() == order.len() && forall|i: int|
            0 <= i < rows.len() ==> (#[trigger] rows[i]).0@ == facts[order[i] as int].alias@
                && rows[i].1@ == status_of(s, facts[order[i] as int], now, max_secs)
}

/// The aliases of `rows`.
pub open spec fn shown_names(rows: Seq<(String, RepoStatusInfo)>) -> Seq<Seq<char>> {
    rows.map_values(|r: (String, RepoStatusInfo)| r.0@)
}

/// When something is told of every registered alias, every registered alias has one row, and
/// no other alias has any.
pub proof fn law_every_registered_repository_has_a_row(
    rows: Seq<(String, RepoStatusInfo)>,
    s: StateView,
    facts: Seq<RepoFacts>,
    now: u64,
    max_secs: u64,
)
    requires
        fact_aliases(facts).no_duplicates(),
        shows(rows, s, registered_facts(s, facts), now, max_secs),
        forall|a: Seq<char>| #[trigger]
            s.config.aliases().contains(a) ==> fact_aliases(facts).contains(a),
    ensures
        shown_names(rows).no_duplicates(),
        forall|a: Seq<char>| #[trigger]
            shown_names(rows).contains(a) <==> s.config.aliases().contains(a),
{
    let keep = |f: RepoFacts| s.config.resolve(f.alias@) is Some;
    let kept = registered_facts(s, facts);
    let names = fact_aliases(kept);
    let shown = shown_names(rows);
    lemma_filter_aliases(facts, keep);
    let order = choose|order: Seq<usize>| #[trigger]
        is_text_order(fact_keys(kept), order) && rows.len() == order.len() && forall|i: int|
            0 <= i < rows.len() ==> (#[trigger] rows[i]).0@ == kept[order[i] as int].alias@
                && rows[i].1@ == status_of(s, kept[order[i] as int], now, max_secs);
    lemma_text_order_is_whole(fact_keys(kept), order);
    assert forall|i: int, j: int| 0 <= i < shown.len() && 0 <= j < shown.len() && i != j implies shown[i]
        != shown[j] by {
        assert(shown[i] == rows[i].0@ && shown[j] == rows[j].0@);
        assert(names[order[i] as int] == shown[i] && names[order[j] as int] == shown[j]);
        assert(order[i] != order[j]);
    }
    assert forall|a: Seq<char>| #[trigger] shown.contains(a) <==> s.config.aliases().contains(a) by {
        lemma_path_in_names(s.config.repos, a);
        if shown.contains(a) {
            let i = shown.index_of(a);
            let f = kept[order[i] as int];
            assert(shown[i] == rows[i].0@);
            assert(kept.contains(f));
            assert(keep(f));
        }
        if s.config.aliases().contains(a) {
            assert(fact_aliases(facts).contains(a));
            let j = fact_aliases(facts).index_of(a);
            let f = facts[j];
            assert(facts.contains(f));
            assert(f.alias@ == a);
            assert(keep(f));
            assert(kept.contains(f));
            let k = kept.index_of(f);
            assert(lists(order, k));
            let i = choose|i: int| 0 <= i < order.len() && #[trigger] order[i] == k;
            assert(shown[i] == rows[i].0@);
            assert(shown[i] == a);
        }
    }
}

/// What passes a filter by alias keeps its facts, and no alias comes twice that did not
/// before.
proof fn lemma_filter_aliases(facts: Seq<RepoFacts>, keep: spec_fn(RepoFacts) -> bool)
    requires
        fact_aliases(facts).no_duplicates(),
        forall|f: RepoFacts, g: RepoFacts|
            f.alias@ == g.alias@ ==> #[trigger] keep(f) == #[trigger] keep(g),
    ensures
        fact_aliases(facts.filter(keep)).no_duplicates(),
        forall|f: RepoFacts| #[trigger]
            facts.filter(keep).contains(f) <==> facts.contains(f) && keep(f),
        forall|f: RepoFacts|
            !(#[trigger] keep(f)) ==> !fact_aliases(facts.filter(keep)).contains(f.alias@),
        forall|a: Seq<char>| #[trigger]
            fact_aliases(facts.filter(keep)).contains(a) ==> fact_aliases(facts).contains(a),
    decreases facts.len(),
{
    reveal(Seq::filter);
    let kept = facts.filter(keep);
    let names = fact_aliases(kept);
    if facts.len() > 0 {
        let rest = facts.drop_last();
        let last = facts.last();
        let all = fact_aliases(facts);
        assert(fact_aliases(rest) =~= all.drop_last());
        lemma_filter_aliases(rest, keep);
        let kept_rest = rest.filter(keep);
        let names_rest = fact_aliases(kept_rest);
        assert(!fact_aliases(rest).contains(last.alias@)) by {
            if fact_aliases(rest).contains(last.alias@) {
                let j = fact_aliases(rest).index_of(last.alias@);
                assert(all[j] == all[facts.len() - 1]);
            }
        }
        assert forall|f: RepoFacts| facts.contains(f) <==> rest.contains(f) || f == last by {
            if facts.contains(f) {
                let j = facts.index_of(f);
                if j < rest.len() {
                    assert(rest[j] == f);
                }
            }
            if rest.contains(f) {
                let j = rest.index_of(f);
                assert(facts[j] == f);
            }
            assert(facts[facts.len() - 1] == last);
        }
        assert forall|a: Seq<char>| #[trigger] fact_aliases(rest).contains(a) implies all.contains(a) by {
            let j = fact_aliases(rest).index_of(a);
            assert(all[j] == a);
        }
        if keep(last) {
            assert(kept =~= kept_rest.push(last));
            assert(names =~= names_rest.push(last.alias@));
            assert(all[facts.len() - 1] == last.alias@);
            assert forall|f: RepoFacts| #[trigger] kept.contains(f) <==> kept_rest.contains(f) || f
                == last by {
                if kept_rest.contains(f) {
                    let j = kept_rest.index_of(f);
                    assert(kept[j] == f);
                }
                if f == last {
                    assert(kept[kept_rest.len() as int] == f);
                }
                if kept.contains(f) && f != last {
                    let j = kept.index_of(f);
                    assert(kept_rest[j] == f);
                }
            }
            assert forall|a: Seq<char>| #[trigger] names.contains(a) <==> names_rest.contains(a) || a
                == last.alias@ by {
                if names_rest.contains(a) {
                    let j = names_rest.index_of(a);
                    assert(names[j] == a);
                }
                if a == last.alias@ {
                    assert(names[names_rest.len() as int] == a);
                }
                if names.contains(a) && a != last.alias@ {
                    let j = names.index_of(a);
                    assert(names_rest[j] == a);
                }
            }
            assert(!names_rest.contains(last.alias@));
            assert forall|i: int, j: int| 0 <= i < names.len() && 0 <= j < names.len() && i != j implies names[i]
                != names[j] by {
                if i < names_rest.len() {
                    assert(names_rest[i] == names[i]);
                    assert(names_rest.contains(names_rest[i]));
                }
                if j < names_rest.len() {
                    assert(names_rest[j] == names[j]);
                    assert(names_rest.contains(names_rest[j]));
                }
            }
            assert forall|f: RepoFacts| !(#[trigger] keep(f)) implies !names.contains(f.alias@) by {
                assert(f.alias@ != last.alias@);
            }
        } else {
            assert(kept =~= kept_rest);
        }
    }
}

impl ServeState {
    fn status_row(&self, f: &RepoFacts, busy: bool, now: u64) -> (r: RepoStatusInfo)
        ensures
            forall|s: StateView, max_secs: u64|
                s.repo(f.alias@) == (RepoView {
                    indexing_since: s.repo(f.alias@).indexing_since,
                    index_task: s.repo(f.alias@).index_task,
                    ..self@.repo(f.alias@)
                }) && s.busy(f.alias@, now, max_secs) == busy ==> r@ == #[trigger] status_of(
                    s,
                    *f,
                    now,
                    max_secs,
                ),
    {
        let record: RepoRuntime = self.repo(f.alias.as_str());
        let status: RepoStateLabel = if busy {
            RepoStateLabel::Indexing
        } else {
            match record.mode {
                Some(RepoState::Write) => RepoStateLabel::Open,
                Some(RepoState::Warm) => RepoStateLabel::Warm,
                Some(RepoState::Readonly) => RepoStateLabel::Readonly,
                Some(RepoState::Conflicted) => RepoStateLabel::Error,
                None => if f.db_exists {
                    RepoStateLabel::Closed
                } else {
                    RepoStateLabel::NoIndex
                },
            }
        };
        let changes: u64 = match record.mode {
            Some(RepoState::Conflicted) => 0,
            Some(_) => f.store_changes,
            None => record.changes,
        };
        let last_tool_call: Option<String> = match &record.last_tool {
            Some(call) => {
                let gone: u64 = if now >= call.at {
                    now - call.at
                } else {
                    0
                };
                Some(format_tool_call_ago(call.tool.as_str(), gone / 1_000_000_000))
            },
            None => None,
        };
        let csharp_index: CSharpIndexStatus = match record.csharp {
            Some(s) => s,
            None => if f.csharp_built {
                CSharpIndexStatus::Ready
            } else {
                CSharpIndexStatus::Absent
            },
        };
        let csharp_error: Option<String> = match csharp_index {
            CSharpIndexStatus::Error => copy_opt(&record.csharp_error),
            _ => None,
        };
        RepoStatusInfo {
            status,
            changes,
            last_tool_call,
            tool_call_count: record.tool_calls,
            csharp_index,
            csharp_error,
            typescript_index: if f.typescript_built {
                CSharpIndexStatus::Ready
            } else {
                CSharpIndexStatus::Absent
            },
        }
    }

    /// Get lightweight repository statuses without opening any databases, in the order of
    /// the aliases in lowercase. `facts` tells what is found of each registered repository;
    /// what it tells of an alias that is not registered is passed over.
    ///
    /// The look at the indexing markers evicts stale ones, and marks the tasks behind them as
    /// cancelled.
    pub fn repo_statuses_lightweight(&mut self, facts: &Vec<RepoFacts>, now: u64, max_secs: u64) -> (r:
        Vec<(String, RepoStatusInfo)>)
        requires
            fact_aliases(facts@).no_duplicates(),
        ensures
            shows(r@, old(self)@, registered_facts(old(self)@, facts@), now, max_secs),
            final(self)@ == (StateView { repos: final(self)@.repos, ..old(self)@ }),
            forall|i: int|
                0 <= i < facts@.len() ==> final(self)@.repo((#[trigger] facts@[i]).alias@) == (
                if old(self)@.config.resolve(facts@[i].alias@) is Some {
                    old(self)@.probed(
                        facts@[i].alias@,
                        now,
                        max_secs,
                        facts@[i].task_finished,
                    ).repo(facts@[i].alias@)
                } else {
                    old(self)@.repo(facts@[i].alias@)
                }),
            forall|a: Seq<char>|
                !fact_aliases(facts@).contains(a) ==> #[trigger] final(self)@.repo(a) == old(self)@.repo(a),
    {
        let ghost before = self@;
        let ghost keep = |f: RepoFacts| before.config.resolve(f.alias@) is Some;
        let mut known: Vec<RepoFacts> = Vec::new();
        let mut i: usize = 0;
        assert(known@ =~= facts@.take(0).filter(keep)) by {
            reveal(Seq::filter);
        }
        while i < facts.len()
            invariant
                i <= facts@.len(),
                self@ == before,
                keep == (|f: RepoFacts| before.config.resolve(f.alias@) is Some),
                known@ == facts@.take(i as int).filter(keep),
            decreases facts.len() - i,
        {
            proof {
                reveal(Seq::filter);
                assert(facts@.take(i + 1).drop_last() =~= facts@.take(i as int));
            }
            if self.config().resolve(facts[i].alias.as_str()).is_some() {
                known.push(facts[i].copy());
            }
            i += 1;
        }
        assert(facts@.take(facts@.len() as int) =~= facts@);
        proof {
            lemma_filter_aliases(facts@, keep);
        }
        let r: Vec<(String, RepoStatusInfo)> = self.statuses_of(&known, now, max_secs);
        proof {
            let names = fact_aliases(known@);
            assert forall|i: int| 0 <= i < facts@.len() implies self@.repo(
                (#[trigger] facts@[i]).alias@,
            ) == (if before.config.resolve(facts@[i].alias@) is Some {
                before.probed(
                    facts@[i].alias@,
                    now,
                    max_secs,
                    facts@[i].task_finished,
                ).repo(facts@[i].alias@)
            } else {
                before.repo(facts@[i].alias@)
            }) by {
                let f = facts@[i];
                if keep(f) {
                    assert(known@.contains(f));
                    let j = known@.index_of(f);
                    assert(known@[j] == f);
                } else {
                    assert(!names.contains(f.alias@));
                }
            }
            assert forall|a: Seq<char>| !fact_aliases(facts@).contains(a) implies #[trigger] self@.repo(
                a,
            ) == before.repo(a) by {
                assert(!names.contains(a));
            }
        }
        r
    }

    fn statuses_of(&mut self, facts: &Vec<RepoFacts>, now: u64, max_secs: u64) -> (r:
        Vec<(String, RepoStatusInfo)>)
        requires
            fact_aliases(facts@).no_duplicates(),
        ensures
            shows(r@, old(self)@, facts@, now, max_secs),
            final(self)@ == (StateView { repos: final(self)@.repos, ..old(self)@ }),
            forall|i: int|
                0 <= i < facts@.len() ==> final(self)@.repo((#[trigger] facts@[i]).alias@) == old(self)@.probed(
                    facts@[i].alias@,
                    now,
                    max_secs,
                    facts@[i].task_finished,
                ).repo(facts@[i].alias@),
            forall|a: Seq<char>|
                !fact_aliases(facts@).contains(a) ==> #[trigger] final(self)@.repo(a) == old(self)@.repo(a),
    {
        let ghost before = self@;
        let ghost names = fact_aliases(facts@);
        let mut keys: Vec<String> = Vec::new();
        let mut infos: Vec<RepoStatusInfo> = Vec::new();
        let mut i: usize = 0;
        while i < facts.len()
            invariant
                i <= facts@.len(),
                names == fact_aliases(facts@),
                names.no_duplicates(),
                self@ == (StateView { repos: self@.repos, ..before }),
                texts(keys@) == fact_keys(facts@).take(i as int),
                infos@.len() == i,
                forall|j: int|
                    0 <= j < i ==> (#[trigger] infos@[j])@ == status_of(
                        before,
                        facts@[j],
                        now,
                        max_secs,
                    ),
                forall|j: int|
                    0 <= j < i ==> self@.repo((#[trigger] facts@[j]).alias@) == before.probed(
                        facts@[j].alias@,
                        now,
                        max_secs,
                        facts@[j].task_finished,
                    ).repo(facts@[j].alias@),
                forall|j: int|
                    i <= j < facts@.len() ==> self@.repo((#[trigger] facts@[j]).alias@)
                        == before.repo(facts@[j].alias@),
                forall|a: Seq<char>|
                    !names.contains(a) ==> #[trigger] self@.repo(a) == before.repo(a),
            decreases facts.len() - i,
        {
            let ghost state_before = self@;
            let ghost keys_before = keys@;
            let f: &RepoFacts = &facts[i];
            let ghost a0 = f.alias@;
            assert(names[i as int] == a0);
            let probe: IndexingProbe = self.is_indexing(
                f.alias.as_str(),
                now,
                max_secs,
                f.task_finished,
            );
            let info: RepoStatusInfo = self.status_row(f, probe.indexing, now);
            infos.push(info);
            let key: String = to_ascii_lower(f.alias.as_str());
            keys.push(key);
            proof {
                assert(state_before.repo(a0) == before.repo(a0));
                assert(before.busy(a0, now, max_secs) == probe.indexing);
                assert(info@ == status_of(before, *f, now, max_secs));
                let all = fact_keys(facts@);
                assert(texts(keys@) =~= texts(keys_before).push(all[i as int]));
                assert(all.take(i + 1) =~= all.take(i as int).push(all[i as int]));
                assert forall|j: int| 0 <= j < facts@.len() && j != i implies self@.repo(
                    (#[trigger] facts@[j]).alias@,
                ) == state_before.repo(facts@[j].alias@) by {
                    assert(names[j] == facts@[j].alias@);
                    assert(names[j] != a0);
                }
                assert forall|a: Seq<char>| !names.contains(a) implies #[trigger] self@.repo(a)
                    == before.repo(a) by {
                    assert(a != a0) by {
                        if a == a0 {
                            assert(names.contains(names[i as int]));
                        }
                    }
                    assert(self@.repo(a) == state_before.repo(a));
                }
                assert(self@.repo(a0) == before.probed(a0, now, max_secs, f.task_finished).repo(a0));
            }
            i += 1;
        }
        assert(fact_keys(facts@).take(facts@.len() as int) =~= fact_keys(facts@));
        let order: Vec<usize> = text_order(&keys);
        let mut r: Vec<(String, RepoStatusInfo)> = Vec::new();
        let mut k: usize = 0;
        while k < order.len()
            invariant
                k <= order@.len(),
                is_text_order(fact_keys(facts@), order@),
                order@.len() == facts@.len(),
                infos@.len() == facts@.len(),
                forall|j: int|
                    0 <= j < infos@.len() ==> (#[trigger] infos@[j])@ == status_of(
                        before,
                        facts@[j],
                        now,
                        max_secs,
                    ),
                r@.len() == k,
                forall|j: int|
                    0 <= j < k ==> (#[trigger] r@[j]).0@ == facts@[order@[j] as int].alias@
                        && r@[j].1@ == status_of(before, facts@[order@[j] as int], now, max_secs),
            decreases order.len() - k,
        {
            let at: usize = order[k];
            r.push((facts[at].alias.clone(), infos[at].copy()));
            k += 1;
        }
        r
    }

    /// Freshness for an absolute filesystem path: which registered repo contains it (if any),
    /// and is that repo mid-reindex right now? `finished` lists the aliases whose background
    /// indexing task has ended.
    ///
    /// A stale marker is evicted, so a leaked indexing task cannot report "indexing" forever.
    pub fn freshness_for_path(
        &mut self,
        repos: &Vec<RepoRoot>,
        target: &Vec<String>,
        ignore_case: bool,
        now: u64,
        max_secs: u64,
        finished: &Vec<String>,
    ) -> (r: Freshness)
        ensures
            match r.alias {
                Some(a) => {
                    &&& exists|i: int|
                        innermost(repos@, texts(target@), ignore_case, i) && (
                        #[trigger] repos@[i]).alias@ == a@
                    &&& r.indexing == old(self)@.busy(a@, now, max_secs)
                    &&& r.cancel_task == (old(self)@.stale(a@, now, max_secs) && old(self)@.repo(
                        a@,
                    ).index_task is Some && !texts(finished@).contains(a@))
                    &&& final(self)@ == old(self)@.probed(
                        a@,
                        now,
                        max_secs,
                        texts(finished@).contains(a@),
                    )
                },
                None => {
                    &&& forall|j: int|
                        0 <= j < repos@.len() ==> !lies_inside(
                            texts(target@),
                            texts((#[trigger] repos@[j]).root@),
                            ignore_case,
                        )
                    &&& !r.indexing && !r.cancel_task
                    &&& final(self)@ == old(self)@
                },
            },
    {
        match containing_repo_alias(repos, target, ignore_case) {
            Some(alias) => {
                let ended: bool = listed(finished, alias.as_str());
                let probe: IndexingProbe = self.is_indexing(alias.as_str(), now, max_secs, ended);
                Freshness {
                    alias: Some(alias),
                    indexing: probe.indexing,
                    cancel_task: probe.cancel_task,
                }
            },
            None => Freshness { alias: None, indexing: false, cancel_task: false },
        }
    }
}

/// How fresh the index is that covers a path.
pub struct Freshness {
    /// The repository that contains the path.
    pub alias: Option<String>,
    /// Whether it is being indexed.
    pub indexing: bool,
    /// Whether the token of its background task is to be cancelled.
    pub cancel_task: bool,
}

/// A repository in the status of the server.
pub struct StatusEntry {
    pub alias: String,
    pub status: &'static str,
    pub lock_mode: &'static str,
    pub changes: u64,
    pub last_tool_call: Option<String>,
    pub tool_call_count: u64,
    pub csharp_index: &'static str,
    pub csharp_error: Option<String>,
    pub typescript_index: &'static str,
}

/// Whether `e` tells the status `info` of the repository `alias`.
pub open spec fn tells(e: StatusEntry, alias: Seq<char>, info: RepoStatusView) -> bool {
    &&& e.alias@ == alias
    &&& e.status@ == label_key(info.status)
    &&& e.lock_mode@ == lock_mode_text(info.status)
    &&& e.changes == info.changes
    &&& opt_text(e.last_tool_call) == info.last_tool_call
    &&& e.tool_call_count == info.tool_call_count
    &&& e.csharp_index@ == symbol_key(info.csharp_index)
    &&& opt_text(e.csharp_error) == info.csharp_error
    &&& e.typescript_index@ == symbol_key(info.typescript_index)
}

/// The entries of the status of the server, one for each row.
pub fn status_entries(rows: &Vec<(String, RepoStatusInfo)>) -> (r: Vec<StatusEntry>)
    ensures
        r@.len() == rows@.len(),
        forall|i: int|
            0 <= i < rows@.len() ==> tells(#[trigger] r@[i], rows@[i].0@, rows@[i].1@),
{
    let mut r: Vec<StatusEntry> = Vec::new();
    let mut i: usize = 0;
    while i < rows.len()
        invariant
            i <= rows@.len(),
            r@.len() == i,
            forall|j: int| 0 <= j < i ==> tells(#[trigger] r@[j], rows@[j].0@, rows@[j].1@),
        decreases rows.len() - i,
    {
        let info: &RepoStatusInfo = &rows[i].1;
        r.push(
            StatusEntry {
                alias: rows[i].0.clone(),
                status: info.status.as_str(),
                lock_mode: info.status.lock_mode(),
                changes: info.changes,
                last_tool_call: copy_opt(&info.last_tool_call),
                tool_call_count: info.tool_call_count,
                csharp_index: info.csharp_index.as_str(),
                csharp_error: copy_opt(&info.csharp_error),
                typescript_index: info.typescript_index.as_str(),
            },
        );
        i += 1;
    }
    r
}

impl RepoStatusInfo {
    /// A copy of the status.
    pub fn copy(&self) -> (r: RepoStatusInfo)
        ensures
            r@ == self@,
    {
        RepoStatusInfo {
            status: self.status,
            changes: self.changes,
            last_tool_call: copy_opt(&self.last_tool_call),
            tool_call_count: self.tool_call_count,
            csharp_index: self.csharp_index,
            csharp_error: copy_opt(&self.csharp_error),
            typescript_index: self.typescript_index,
        }
    }
}

} // verus!
