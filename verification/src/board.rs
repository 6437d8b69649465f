//! The table of repositories that the server prints on its terminal.
use crate::state::{ServeState, StateView};
use crate::status::{
    fact_aliases, label_ink, label_text, registered_facts, shows, Ink, RepoFacts, RepoStateLabel, RepoStatusInfo,
    RepoStatusView, Span, SpanView,
};
use crate::text::{decimal, decimal_text};
use vstd::prelude::*;
use vstd::utf8::encode_utf8;

verus! {

/// A line of the terminal.
pub struct Line {
    pub spans: Vec<Span>,
}

impl View for Line {
    type V = Seq<SpanView>;

    open spec fn view(&self) -> Seq<SpanView> {
        self.spans@.map_values(|s: Span| s@)
    }
}

/// What a list of lines shows.
pub open spec fn line_views(lines: Seq<Line>) -> Seq<Seq<SpanView>> {
    lines.map_values(|l: Line| l@)
}

/// A row of the table.
pub open spec fn row_view(row: (String, RepoStatusInfo)) -> (Seq<char>, RepoStatusView) {
    (row.0@, row.1@)
}

/// The rows of the table.
pub open spec fn row_views(rows: Seq<(String, RepoStatusInfo)>) -> Seq<
    (Seq<char>, RepoStatusView),
> {
    rows.map_values(|r: (String, RepoStatusInfo)| row_view(r))
}

/// The character `c`, `n` times.
pub open spec fn repeated(c: char, n: nat) -> Seq<char> {
    Seq::new(n, |i: int| c)
}

/// `t`, filled up with blanks on its right to `width` characters.
pub open spec fn left_aligned(t: Seq<char>, width: nat) -> Seq<char> {
    if t.len() < width {
        t + repeated(' ', (width - t.len()) as nat)
    } else {
        t
    }
}

/// `t`, filled up with blanks on its left to `width` characters.
pub open spec fn right_aligned(t: Seq<char>, width: nat) -> Seq<char> {
    if t.len() < width {
        repeated(' ', (width - t.len()) as nat) + t
    } else {
        t
    }
}

/// The number of bytes that `t` takes in UTF-8.
pub open spec fn byte_len(t: Seq<char>) -> usize {
    encode_utf8(t).len() as usize
}

/// The width of the first column: that of the longest alias, and 5 at least.
pub open spec fn alias_width(rows: Seq<(Seq<char>, RepoStatusView)>) -> nat
    decreases rows.len(),
{
    if rows.len() == 0 {
        5
    } else {
        let rest = alias_width(rows.drop_last());
        let last = byte_len(rows.last().0) as nat;
        if last > rest {
            last
        } else {
            rest
        }
    }
}

/// Whether a row has the label `l`.
pub open spec fn has_label(l: RepoStateLabel) -> spec_fn((Seq<char>, RepoStatusView)) -> bool {
    |r: (Seq<char>, RepoStatusView)| r.1.status == l
}

/// The number of rows that have the label `l`.
pub open spec fn labelled(rows: Seq<(Seq<char>, RepoStatusView)>, l: RepoStateLabel) -> nat {
    rows.filter(has_label(l)).len()
}

/// Text in an ink.
pub open spec fn inked(text: Seq<char>, ink: Ink) -> SpanView {
    SpanView { text, ink }
}

/// A border of the table.
pub open spec fn border(left: char, cross: char, right: char, width: nat) -> Seq<SpanView> {
    seq![
        inked(
            seq![left] + repeated('─', width + 2) + seq![cross] + repeated('─', 12) + seq![cross]
                + repeated('─', 9) + seq![cross] + repeated('─', 26) + seq![right],
            Ink::BrightBlack,
        ),
    ]
}

/// A line of the table with its four cells.
pub open spec fn cells(
    alias: SpanView,
    status: Seq<SpanView>,
    changes: SpanView,
    tool: SpanView,
) -> Seq<SpanView> {
    let edge = inked("│"@, Ink::BrightBlack);
    let gap = inked(" "@, Ink::Plain);
    seq![edge, gap, alias, gap, edge, gap] + status + seq![
        gap,
        edge,
        gap,
        changes,
        gap,
        edge,
        gap,
        tool,
        gap,
        edge,
    ]
}

/// The head of the table.
pub open spec fn head_cells(width: nat) -> Seq<SpanView> {
    cells(
        inked(left_aligned("Project"@, width), Ink::Bold),
        seq![inked(left_aligned("Status"@, 10), Ink::Bold)],
        inked(right_aligned("Changes"@, 7), Ink::Bold),
        inked(left_aligned("Last Tool Call"@, 24), Ink::Bold),
    )
}

/// The line of a repository: its label stands in its ink, the blanks behind it do not.
pub open spec fn repo_cells(row: (Seq<char>, RepoStatusView), width: nat) -> Seq<SpanView> {
    let label = label_text(row.1.status);
    cells(
        inked(left_aligned(row.0, width), Ink::Plain),
        seq![
            inked(label, label_ink(row.1.status)),
            inked(repeated(' ', (10 - label.len()) as nat), Ink::Plain),
        ],
        inked(right_aligned(decimal(row.1.changes as nat), 7), Ink::Plain),
        inked(
            left_aligned(
                match row.1.last_tool_call {
                    Some(t) => t,
                    None => "—"@,
                },
                24,
            ),
            Ink::Plain,
        ),
    )
}

/// The lines of `rows`.
pub open spec fn body_cells(rows: Seq<(Seq<char>, RepoStatusView)>, width: nat) -> Seq<
    Seq<SpanView>,
> {
    Seq::new(rows.len(), |i: int| repo_cells(rows[i], width))
}

/// The overall health and the number of open, warm and closed repositories.
pub open spec fn health_line(rows: Seq<(Seq<char>, RepoStatusView)>) -> Seq<SpanView> {
    seq![
        inked("  "@, Ink::Plain),
        inked("Status:"@, Ink::Dimmed),
        inked(" "@, Ink::Plain),
        if labelled(rows, RepoStateLabel::Error) > 0 {
            inked("Error"@, Ink::RedBold)
        } else {
            inked("Healthy"@, Ink::GreenBold)
        },
        inked("   "@, Ink::Plain),
        inked("Open:"@, Ink::Dimmed),
        inked(" "@, Ink::Plain),
        inked(decimal(labelled(rows, RepoStateLabel::Open)), Ink::Green),
        inked("   "@, Ink::Plain),
        inked("Warm:"@, Ink::Dimmed),
        inked(" "@, Ink::Plain),
        inked(decimal(labelled(rows, RepoStateLabel::Warm)), Ink::Yellow),
        inked("   "@, Ink::Plain),
        inked("Closed:"@, Ink::Dimmed),
        inked(" "@, Ink::Plain),
        inked(
            decimal(
                labelled(rows, RepoStateLabel::Closed) + labelled(rows, RepoStateLabel::NoIndex),
            ),
            Ink::Dimmed,
        ),
    ]
}

/// The number of sessions.
pub open spec fn sessions_line(active: u64, total: u64) -> Seq<SpanView> {
    seq![
        inked("  "@, Ink::Plain),
        inked("Active Sessions:"@, Ink::Dimmed),
        inked(" "@, Ink::Plain),
        inked(decimal(active as nat), Ink::Cyan),
        inked("   "@, Ink::Plain),
        inked("Total Since Start:"@, Ink::Dimmed),
        inked(" "@, Ink::Plain),
        inked(decimal(total as nat), Ink::Dimmed),
    ]
}

/// The table, with its head, one line for each repository, and the summary below it.
/// Without repositories there is none.
pub open spec fn dashboard(
    rows: Seq<(Seq<char>, RepoStatusView)>,
    active: u64,
    total: u64,
) -> Seq<Seq<SpanView>> {
    let width = alias_width(rows);
    if rows.len() == 0 {
        Seq::empty()
    } else {
        seq![
            Seq::empty(),
            border('╭', '┬', '╮', width),
            head_cells(width),
            border('╞', '╪', '╡', width),
        ] + body_cells(rows, width) + seq![
            border('╰', '┴', '╯', width),
            Seq::empty(),
            health_line(rows),
            sessions_line(active, total),
            Seq::empty(),
        ]
    }
}

fn push_repeated(s: &mut String, c: char, n: usize)
    ensures
        final(s)@ == old(s)@ + repeated(c, n as nat),
{
    let ghost start = s@;
    let mut i: usize = 0;
    assert(start + repeated(c, 0) =~= start);
    while i < n
        invariant
            i <= n,
            s@ == start + repeated(c, i as nat),
        decreases n - i,
    {
        s.push(c);
        assert(repeated(c, (i + 1) as nat) =~= repeated(c, i as nat).push(c));
        i += 1;
    }
}

fn align_left(t: &str, width: usize) -> (r: String)
    ensures
        r@ == left_aligned(t@, width as nat),
{
    let mut r: String = t.to_owned();
    let n: usize = t.unicode_len();
    if n < width {
        push_repeated(&mut r, ' ', width - n);
    }
    r
}

fn align_right(t: &str, width: usize) -> (r: String)
    ensures
        r@ == right_aligned(t@, width as nat),
{
    let mut r: String = String::new();
    let n: usize = t.unicode_len();
    if n < width {
        push_repeated(&mut r, ' ', width - n);
    }
    r.push_str(t);
    assert(Seq::<char>::empty() + t@ =~= t@);
    assert(Seq::<char>::empty() + repeated(' ', (width - n) as nat) =~= repeated(
        ' ',
        (width - n) as nat,
    ));
    r
}

fn span(text: &str, ink: Ink) -> (r: Span)
    ensures
        r@ == inked(text@, ink),
{
    Span { text: text.to_owned(), ink }
}

fn rule(left: char, cross: char, right: char, width: usize) -> (r: Line)
    ensures
        r@ == border(left, cross, right, width as nat),
{
    let mut t: String = String::new();
    t.push(left);
    push_repeated(&mut t, '─', width);
    push_repeated(&mut t, '─', 2);
    t.push(cross);
    push_repeated(&mut t, '─', 12);
    t.push(cross);
    push_repeated(&mut t, '─', 9);
    t.push(cross);
    push_repeated(&mut t, '─', 26);
    t.push(right);
    assert(t@ =~= border(left, cross, right, width as nat)[0].text);
    let mut spans: Vec<Span> = Vec::new();
    spans.push(Span { text: t, ink: Ink::BrightBlack });
    let r: Line = Line { spans };
    assert(r@ =~= border(left, cross, right, width as nat));
    r
}

fn edge() -> (r: Span)
    ensures
        r@ == inked("│"@, Ink::BrightBlack),
{
    span("│", Ink::BrightBlack)
}

fn gap() -> (r: Span)
    ensures
        r@ == inked(" "@, Ink::Plain),
{
    span(" ", Ink::Plain)
}

fn table_line(alias: Span, status: Vec<Span>, changes: Span, tool: Span) -> (r: Line)
    ensures
        r@ == cells(alias@, status@.map_values(|s: Span| s@), changes@, tool@),
{
    let ghost shown = status@.map_values(|s: Span| s@);
    let ghost (a, c, t) = (alias@, changes@, tool@);
    let mut spans: Vec<Span> = Vec::new();
    spans.push(edge());
    spans.push(gap());
    spans.push(alias);
    spans.push(gap());
    spans.push(edge());
    spans.push(gap());
    let mut status: Vec<Span> = status;
    spans.append(&mut status);
    spans.push(gap());
    spans.push(edge());
    spans.push(gap());
    spans.push(changes);
    spans.push(gap());
    spans.push(edge());
    spans.push(gap());
    spans.push(tool);
    spans.push(gap());
    spans.push(edge());
    let r: Line = Line { spans };
    assert(r@ =~= cells(a, shown, c, t));
    r
}

fn head_line(width: usize) -> (r: Line)
    ensures
        r@ == head_cells(width as nat),
{
    let alias: Span = Span { text: align_left("Project", width), ink: Ink::Bold };
    let mut status: Vec<Span> = Vec::new();
    status.push(Span { text: align_left("Status", 10), ink: Ink::Bold });
    assert(status@.map_values(|s: Span| s@) =~= seq![
        inked(left_aligned("Status"@, 10), Ink::Bold),
    ]);
    let changes: Span = Span { text: align_right("Changes", 7), ink: Ink::Bold };
    let tool: Span = Span { text: align_left("Last Tool Call", 24), ink: Ink::Bold };
    table_line(alias, status, changes, tool)
}

fn repo_line(row: &(String, RepoStatusInfo), width: usize) -> (r: Line)
    ensures
        r@ == repo_cells(row_view(*row), width as nat),
{
    let alias: Span = Span { text: align_left(row.0.as_str(), width), ink: Ink::Plain };
    let label: Span = row.1.status.colored();
    proof {
        reveal_strlit("Open");
        reveal_strlit("Warm");
        reveal_strlit("Readonly");
        reveal_strlit("Closed");
        reveal_strlit("Indexing");
        reveal_strlit("Error");
        reveal_strlit("No Index");
    }
    let n: usize = label.text.as_str().unicode_len();
    let mut blanks: String = String::new();
    push_repeated(&mut blanks, ' ', 10 - n);
    assert(Seq::<char>::empty() + repeated(' ', (10 - n) as nat) =~= repeated(
        ' ',
        (10 - n) as nat,
    ));
    let ghost l = label@;
    let mut status: Vec<Span> = Vec::new();
    status.push(label);
    status.push(Span { text: blanks, ink: Ink::Plain });
    assert(status@.map_values(|s: Span| s@) =~= seq![
        l,
        inked(repeated(' ', (10 - n) as nat), Ink::Plain),
    ]);
    let count: String = decimal_text(row.1.changes);
    let changes: Span = Span { text: align_right(count.as_str(), 7), ink: Ink::Plain };
    let call: &str = match &row.1.last_tool_call {
        Some(t) => t.as_str(),
        None => "—",
    };
    let tool: Span = Span { text: align_left(call, 24), ink: Ink::Plain };
    table_line(alias, status, changes, tool)
}

fn widest(rows: &Vec<(String, RepoStatusInfo)>) -> (r: usize)
    ensures
        r == alias_width(row_views(rows@)),
{
    let ghost all = row_views(rows@);
    let mut r: usize = 5;
    let mut i: usize = 0;
    while i < rows.len()
        invariant
            i <= rows@.len(),
            all == row_views(rows@),
            r == alias_width(all.take(i as int)),
        decreases rows.len() - i,
    {
        let n: usize = rows[i].0.as_str().len();
        if n > r {
            r = n;
        }
        assert(all.take(i + 1).drop_last() =~= all.take(i as int));
        i += 1;
    }
    assert(all.take(rows@.len() as int) =~= all);
    r
}

fn same_label(a: RepoStateLabel, b: RepoStateLabel) -> (r: bool)
    ensures
        r == (a == b),
{
    a == b
}

fn count_labelled(rows: &Vec<(String, RepoStatusInfo)>, l: RepoStateLabel) -> (r: usize)
    ensures
        r == labelled(row_views(rows@), l),
        r <= rows@.len(),
{
    let ghost all = row_views(rows@);
    let mut r: usize = 0;
    let mut i: usize = 0;
    while i < rows.len()
        invariant
            i <= rows@.len(),
            all == row_views(rows@),
            r <= i,
            r == labelled(all.take(i as int), l),
        decreases rows.len() - i,
    {
        proof {
            reveal(Seq::filter);
            assert(all.take(i + 1).drop_last() =~= all.take(i as int));
        }
        if same_label(rows[i].1.status, l) {
            r += 1;
        }
        i += 1;
    }
    proof {
        reveal(Seq::filter);
        assert(all.take(rows@.len() as int) =~= all);
    }
    r
}

proof fn lemma_two_labels(rows: Seq<(Seq<char>, RepoStatusView)>, a: RepoStateLabel, b: RepoStateLabel)
    requires
        a != b,
    ensures
        labelled(rows, a) + labelled(rows, b) <= rows.len(),
    decreases rows.len(),
{
    reveal(Seq::filter);
    if rows.len() > 0 {
        lemma_two_labels(rows.drop_last(), a, b);
    }
}

fn summary_line(rows: &Vec<(String, RepoStatusInfo)>) -> (r: Line)
    ensures
        r@ == health_line(row_views(rows@)),
{
    let errors: usize = count_labelled(rows, RepoStateLabel::Error);
    let open: String = decimal_text(count_labelled(rows, RepoStateLabel::Open) as u64);
    let warm: String = decimal_text(count_labelled(rows, RepoStateLabel::Warm) as u64);
    proof {
        lemma_two_labels(row_views(rows@), RepoStateLabel::Closed, RepoStateLabel::NoIndex);
    }
    let held: usize = rows.len();
    let shut: usize = count_labelled(rows, RepoStateLabel::Closed) + count_labelled(
        rows,
        RepoStateLabel::NoIndex,
    );
    assert(shut <= held);
    let closed: String = decimal_text(shut as u64);
    let mut spans: Vec<Span> = Vec::new();
    spans.push(span("  ", Ink::Plain));
    spans.push(span("Status:", Ink::Dimmed));
    spans.push(gap());
    spans.push(
        if errors > 0 {
            span("Error", Ink::RedBold)
        } else {
            span("Healthy", Ink::GreenBold)
        },
    );
    spans.push(span("   ", Ink::Plain));
    spans.push(span("Open:", Ink::Dimmed));
    spans.push(gap());
    spans.push(Span { text: open, ink: Ink::Green });
    spans.push(span("   ", Ink::Plain));
    spans.push(span("Warm:", Ink::Dimmed));
    spans.push(gap());
    spans.push(Span { text: warm, ink: Ink::Yellow });
    spans.push(span("   ", Ink::Plain));
    spans.push(span("Closed:", Ink::Dimmed));
    spans.push(gap());
    spans.push(Span { text: closed, ink: Ink::Dimmed });
    let r: Line = Line { spans };
    assert(r@ =~= health_line(row_views(rows@)));
    r
}

fn count_line(active: u64, total: u64) -> (r: Line)
    ensures
        r@ == sessions_line(active, total),
{
    let mut spans: Vec<Span> = Vec::new();
    spans.push(span("  ", Ink::Plain));
    spans.push(span("Active Sessions:", Ink::Dimmed));
    spans.push(gap());
    spans.push(Span { text: decimal_text(active), ink: Ink::Cyan });
    spans.push(span("   ", Ink::Plain));
    spans.push(span("Total Since Start:", Ink::Dimmed));
    spans.push(gap());
    spans.push(Span { text: decimal_text(total), ink: Ink::Dimmed });
    let r: Line = Line { spans };
    assert(r@ =~= sessions_line(active, total));
    r
}

fn empty_line() -> (r: Line)
    ensures
        r@ == Seq::<SpanView>::empty(),
{
    let r: Line = Line { spans: Vec::new() };
    assert(r@ =~= Seq::<SpanView>::empty());
    r
}

/// The lines of the table for the given rows and numbers of sessions.
pub fn dashboard_lines(rows: &Vec<(String, RepoStatusInfo)>, active: u64, total: u64) -> (r: Vec<
    Line,
>)
    ensures
        line_views(r@) == dashboard(row_views(rows@), active, total),
{
    let ghost all = row_views(rows@);
    let mut r: Vec<Line> = Vec::new();
    if rows.len() == 0 {
        assert(line_views(r@) =~= dashboard(all, active, total));
        return r;
    }
    let width: usize = widest(rows);
    let ghost shown = body_cells(all, width as nat);
    r.push(empty_line());
    r.push(rule('╭', '┬', '╮', width));
    r.push(head_line(width));
    r.push(rule('╞', '╪', '╡', width));
    let ghost head = line_views(r@);
    assert(head =~= seq![
        Seq::empty(),
        border('╭', '┬', '╮', width as nat),
        head_cells(width as nat),
        border('╞', '╪', '╡', width as nat),
    ]);
    let mut i: usize = 0;
    while i < rows.len()
        invariant
            i <= rows@.len(),
            all == row_views(rows@),
            shown == body_cells(all, width as nat),
            line_views(r@) == head + shown.take(i as int),
        decreases rows.len() - i,
    {
        let ghost before = r@;
        r.push(repo_line(&rows[i], width));
        assert(line_views(r@) =~= line_views(before).push(shown[i as int]));
        assert(shown.take(i + 1) =~= shown.take(i as int).push(shown[i as int]));
        i += 1;
    }
    assert(shown.take(rows@.len() as int) =~= shown);
    let ghost body = line_views(r@);
    r.push(rule('╰', '┴', '╯', width));
    r.push(empty_line());
    r.push(summary_line(rows));
    r.push(count_line(active, total));
    r.push(empty_line());
    assert(line_views(r@) =~= body + seq![
        border('╰', '┴', '╯', width as nat),
        Seq::empty(),
        health_line(all),
        sessions_line(active, total),
        Seq::empty(),
    ]);
    r
}

impl ServeState {
    /// The table of every registered repository. `facts` tells what is found of each.
    pub fn print_dashboard(&mut self, facts: &Vec<RepoFacts>, now: u64, max_secs: u64) -> (r: Vec<
        Line,
    >)
        requires
            fact_aliases(facts@).no_duplicates(),
        ensures
            exists|rows: Seq<(String, RepoStatusInfo)>| #[trigger]
                shows(rows, old(self)@, registered_facts(old(self)@, facts@), now, max_secs) && line_views(r@) == dashboard(
                    row_views(rows),
                    old(self)@.active_sessions,
                    old(self)@.total_sessions,
                ),
            final(self)@ == (StateView { repos: final(self)@.repos, ..old(self)@ }),
            forall|i: int|
                0 <= i < facts@.len() ==> final(self)@.repo((#[trigger] facts@[i]).alias@) == (
                if old(self)@.config.resolve(facts@[i].alias@) is Some {
                    old(self)@.probed(
                        facts@[i].alias@,
                        now,
                        max_secs,
                        facts@[i].task_finished,
                    ).repo(facts@[i].alias@)
                } else {
                    old(self)@.repo(facts@[i].alias@)
                }),
            forall|a: Seq<char>|
                !fact_aliases(facts@).contains(a) ==> #[trigger] final(self)@.repo(a)
                    == old(self)@.repo(a),
    {
        let rows: Vec<(String, RepoStatusInfo)> = self.repo_statuses_lightweight(
            facts,
            now,
            max_secs,
        );
        dashboard_lines(&rows, self.active_session_count(), self.total_session_count())
    }
}

} // verus!
