//! `GET /metrics`: serve telemetry as an exposition.
use crate::exposition::{
    family_words, fraction, histogram_words, label_views, number_words, sample_words, single_words,
    Exposition, Histogram, Kind, Number,
};
use crate::grammar::is_exposition;
use crate::lifecycle::listed;
use crate::scrape::{law_a_scrape_is_an_exposition, shows_numbers};
use crate::telemetry::{
    recent, splits_by_tool, stats_of, LatencyRecorder, LatencyStats, LatencySummary, NANOS_PER_SEC,
};
use crate::text::{begins_with, decimal, opt_text, same_text, starts_with_text, texts};
use vstd::prelude::*;

verus! {

/// What `f` writes for each of `rows`, in order.
pub open spec fn each<A>(rows: Seq<A>, f: spec_fn(A) -> Seq<char>) -> Seq<char>
    decreases rows.len(),
{
    if rows.len() == 0 {
        Seq::empty()
    } else {
        each(rows.drop_last(), f) + f(rows.last())
    }
}

/// `start`, followed by what was `written` since.
pub open spec fn grown(start: Seq<char>, written: Seq<char>) -> Seq<char> {
    start + written
}

broadcast proof fn lemma_grows(start: Seq<char>, written: Seq<char>, piece: Seq<char>)
    ensures
        #[trigger] (grown(start, written) + piece) == grown(start, written + piece),
{
    assert((start + written) + piece =~= start + (written + piece));
}

broadcast proof fn lemma_grows_first(start: Seq<char>, piece: Seq<char>)
    ensures
        #[trigger] grown(start, Seq::<char>::empty() + piece) == grown(start, piece),
{
    assert(Seq::<char>::empty() + piece =~= piece);
}

proof fn lemma_append(start: Seq<char>, written: Seq<char>, piece: Seq<char>)
    ensures
        (start + written) + piece == start + (written + piece),
{
    assert((start + written) + piece =~= start + (written + piece));
}

proof fn lemma_each_step<A>(rows: Seq<A>, i: int, f: spec_fn(A) -> Seq<char>)
    requires
        0 <= i < rows.len(),
    ensures
        each(rows.take(i + 1), f) == each(rows.take(i), f) + f(rows[i]),
{
    assert(rows.take(i + 1).drop_last() =~= rows.take(i));
}

/// The category that a pause reason is reduced to.
pub open spec fn pause_category(reason: Seq<char>) -> Seq<char> {
    if begins_with(reason, "a tool call took"@) {
        "read_latency"@
    } else if begins_with(reason, "memory pressure"@) {
        "memory_pressure"@
    } else if begins_with(reason, "other processes"@) {
        "cpu"@
    } else if reason == "on battery"@ {
        "battery"@
    } else {
        "other"@
    }
}

/// Categories a governor pause reason is reduced to, so labels stay bounded.
pub open spec fn pause_categories() -> Seq<Seq<char>> {
    seq!["read_latency"@, "memory_pressure"@, "cpu"@, "battery"@, "other"@]
}

/// Reduce a free-text governor pause reason to one of the pause categories.
pub fn pause_reason(reason: &str) -> (r: &'static str)
    ensures
        r@ == pause_category(reason@),
        pause_categories().contains(r@),
{
    proof {
        let all = pause_categories();
        assert(all[0] == "read_latency"@ && all[1] == "memory_pressure"@ && all[2] == "cpu"@
            && all[3] == "battery"@ && all[4] == "other"@);
    }
    if starts_with_text(reason, "a tool call took") {
        "read_latency"
    } else if starts_with_text(reason, "memory pressure") {
        "memory_pressure"
    } else if starts_with_text(reason, "other processes") {
        "cpu"
    } else if same_text(reason, "on battery") {
        "battery"
    } else {
        "other"
    }
}

/// The pause categories.
pub fn pause_reasons() -> (r: Vec<&'static str>)
    ensures
        r@.map_values(|s: &'static str| s@) == pause_categories(),
{
    let mut r: Vec<&'static str> = Vec::new();
    r.push("read_latency");
    r.push("memory_pressure");
    r.push("cpu");
    r.push("battery");
    r.push("other");
    assert(r@.map_values(|s: &'static str| s@) =~= pause_categories());
    r
}

fn sample_one(m: &mut Exposition, name: &str, key: &str, label: &str, value: &Number)
    ensures
        final(m)@ == old(m)@ + sample_words(name@, seq![(key@, label@)], number_words(*value)),
{
    let mut labels: Vec<(&str, &str)> = Vec::new();
    labels.push((key, label));
    assert(label_views(labels@) =~= seq![(key@, label@)]);
    m.sample(name, &labels, value);
}

fn sample_two(
    m: &mut Exposition,
    name: &str,
    first: (&str, &str),
    second: (&str, &str),
    value: &Number,
)
    ensures
        final(m)@ == old(m)@ + sample_words(
            name@,
            seq![(first.0@, first.1@), (second.0@, second.1@)],
            number_words(*value),
        ),
{
    let mut labels: Vec<(&str, &str)> = Vec::new();
    labels.push(first);
    labels.push(second);
    assert(label_views(labels@) =~= seq![(first.0@, first.1@), (second.0@, second.1@)]);
    m.sample(name, &labels, value);
}

fn sample_three(
    m: &mut Exposition,
    name: &str,
    first: (&str, &str),
    second: (&str, &str),
    third: (&str, &str),
    value: &Number,
)
    ensures
        final(m)@ == old(m)@ + sample_words(
            name@,
            seq![(first.0@, first.1@), (second.0@, second.1@), (third.0@, third.1@)],
            number_words(*value),
        ),
{
    let mut labels: Vec<(&str, &str)> = Vec::new();
    labels.push(first);
    labels.push(second);
    labels.push(third);
    assert(label_views(labels@) =~= seq![
        (first.0@, first.1@),
        (second.0@, second.1@),
        (third.0@, third.1@),
    ]);
    m.sample(name, &labels, value);
}

/// 1 for yes, 0 for no.
pub open spec fn flag_words(on: bool) -> Seq<char> {
    decimal(
        if on {
            1
        } else {
            0
        },
    )
}

fn flag(on: bool) -> (r: Number)
    ensures
        number_words(r) == flag_words(on),
{
    Number::Whole(
        if on {
            1
        } else {
            0
        },
    )
}

/// The calls of a tool since serve started.
pub struct ToolTotals {
    pub tool: String,
    pub histogram: Histogram,
    pub failures: u64,
}

/// The statistics of one of the trailing windows.
pub struct WindowSummary {
    pub window: &'static str,
    pub summary: LatencySummary,
}

/// The windows of the percentile gauges: their names and their lengths in seconds.
pub open spec fn windows() -> Seq<(Seq<char>, u128)> {
    seq![("5m"@, 300u128), ("1h"@, 3_600), ("6h"@, 21_600), ("24h"@, 86_400)]
}

/// The statistics of the trailing windows that end at `now`.
pub fn window_summaries(reads: &LatencyRecorder, now: u128) -> (r: Vec<WindowSummary>)
    ensures
        r@.len() == windows().len(),
        forall|i: int|
            0 <= i < r@.len() ==> (#[trigger] r@[i]).window@ == windows()[i].0
                && r@[i].summary.window_secs == windows()[i].1 && r@[i].summary.overall == stats_of(
                recent(reads@, now, (windows()[i].1 * NANOS_PER_SEC) as u128),
            ) && splits_by_tool(
                recent(reads@, now, (windows()[i].1 * NANOS_PER_SEC) as u128),
                r@[i].summary.by_tool@,
            ),
{
    let mut r: Vec<WindowSummary> = Vec::new();
    r.push(
        WindowSummary { window: "5m", summary: reads.summary_at(now, 300 * NANOS_PER_SEC) },
    );
    r.push(
        WindowSummary { window: "1h", summary: reads.summary_at(now, 3_600 * NANOS_PER_SEC) },
    );
    r.push(
        WindowSummary { window: "6h", summary: reads.summary_at(now, 21_600 * NANOS_PER_SEC) },
    );
    r.push(
        WindowSummary { window: "24h", summary: reads.summary_at(now, 86_400 * NANOS_PER_SEC) },
    );
    r
}

/// The statistics of a tool, or of all, over a window.
pub struct WindowRow {
    pub tool: String,
    pub window: &'static str,
    pub stats: LatencyStats,
}

/// The statistics of a tool, or of all, over a window.
pub struct WindowRowView {
    pub tool: Seq<char>,
    pub window: Seq<char>,
    pub stats: LatencyStats,
}

impl View for WindowRow {
    type V = WindowRowView;

    open spec fn view(&self) -> WindowRowView {
        WindowRowView { tool: self.tool@, window: self.window@, stats: self.stats }
    }
}

/// The statistics that a list of rows holds.
pub open spec fn window_row_views(rows: Seq<WindowRow>) -> Seq<WindowRowView> {
    rows.map_values(|r: WindowRow| r@)
}

/// The rows of the known tools of a window.
pub open spec fn tool_rows(
    by_tool: Seq<(String, LatencyStats)>,
    window: Seq<char>,
    known: Seq<Seq<char>>,
) -> Seq<WindowRowView>
    decreases by_tool.len(),
{
    if by_tool.len() == 0 {
        Seq::empty()
    } else {
        let rest = tool_rows(by_tool.drop_last(), window, known);
        let last = by_tool.last();
        if known.contains(last.0@) {
            rest.push(WindowRowView { tool: last.0@, window, stats: last.1 })
        } else {
            rest
        }
    }
}

/// The rows of the windows: first that of all calls, then those of the known tools.
pub open spec fn window_rows(ws: Seq<WindowSummary>, known: Seq<Seq<char>>) -> Seq<WindowRowView>
    decreases ws.len(),
{
    if ws.len() == 0 {
        Seq::empty()
    } else {
        let w = ws.last();
        window_rows(ws.drop_last(), known).push(
            WindowRowView { tool: "all"@, window: w.window@, stats: w.summary.overall },
        ) + tool_rows(w.summary.by_tool@, w.window@, known)
    }
}

fn rows_of_windows(ws: &Vec<WindowSummary>, known: &Vec<String>) -> (r: Vec<WindowRow>)
    ensures
        window_row_views(r@) == window_rows(ws@, texts(known@)),
{
    let ghost names = texts(known@);
    let mut r: Vec<WindowRow> = Vec::new();
    let mut i: usize = 0;
    assert(window_row_views(r@) =~= window_rows(ws@.take(0), names));
    while i < ws.len()
        invariant
            i <= ws@.len(),
            names == texts(known@),
            window_row_views(r@) == window_rows(ws@.take(i as int), names),
        decreases ws.len() - i,
    {
        let w: &WindowSummary = &ws[i];
        let ghost before = window_row_views(r@);
        r.push(WindowRow { tool: "all".to_owned(), window: w.window, stats: w.summary.overall });
        let ghost led = before.push(
            WindowRowView { tool: "all"@, window: w.window@, stats: w.summary.overall },
        );
        assert(window_row_views(r@) =~= led);
        let by_tool: &Vec<(String, LatencyStats)> = &w.summary.by_tool;
        let mut j: usize = 0;
        assert(led + Seq::<WindowRowView>::empty() =~= led);
        while j < by_tool.len()
            invariant
                j <= by_tool@.len(),
                names == texts(known@),
                window_row_views(r@) == led + tool_rows(by_tool@.take(j as int), w.window@, names),
            decreases by_tool.len() - j,
        {
            let ghost was = r@;
            proof {
                assert(by_tool@.take(j + 1).drop_last() =~= by_tool@.take(j as int));
            }
            if listed(known, by_tool[j].0.as_str()) {
                r.push(
                    WindowRow {
                        tool: by_tool[j].0.clone(),
                        window: w.window,
                        stats: by_tool[j].1,
                    },
                );
                assert(window_row_views(r@) =~= window_row_views(was).push(
                    WindowRowView {
                        tool: by_tool@[j as int].0@,
                        window: w.window@,
                        stats: by_tool@[j as int].1,
                    },
                ));
                assert(window_row_views(r@) =~= led + tool_rows(
                    by_tool@.take(j + 1),
                    w.window@,
                    names,
                ));
            }
            j += 1;
        }
        assert(by_tool@.take(by_tool@.len() as int) =~= by_tool@);
        assert(ws@.take(i + 1).drop_last() =~= ws@.take(i as int));
        i += 1;
    }
    assert(ws@.take(ws@.len() as int) =~= ws@);
    r
}

/// A percentile of a row; a row without calls has none.
pub open spec fn quantile_words(r: WindowRowView, quantile: Seq<char>, ms: Option<u64>) -> Seq<char> {
    match ms {
        Some(v) => sample_words(
            "codesearch_tool_call_latency_seconds"@,
            seq![("tool"@, r.tool), ("window"@, r.window), ("quantile"@, quantile)],
            fraction(v as nat, 3),
        ),
        None => Seq::empty(),
    }
}

/// The percentiles of a row.
pub open spec fn latency_words() -> spec_fn(WindowRowView) -> Seq<char> {
    |r: WindowRowView|
        quantile_words(r, "0.5"@, r.stats.p50) + quantile_words(r, "0.95"@, r.stats.p95)
            + quantile_words(r, "0.98"@, r.stats.p98) + quantile_words(r, "0.99"@, r.stats.p99)
            + quantile_words(r, "1"@, r.stats.p100)
}

/// The calls of a row.
pub open spec fn calls_words() -> spec_fn(WindowRowView) -> Seq<char> {
    |r: WindowRowView|
        sample_words(
            "codesearch_tool_call_window_calls"@,
            seq![("tool"@, r.tool), ("window"@, r.window)],
            decimal(r.stats.count as nat),
        )
}

/// The failed calls of a row.
pub open spec fn window_failures_words() -> spec_fn(WindowRowView) -> Seq<char> {
    |r: WindowRowView|
        sample_words(
            "codesearch_tool_call_window_failures"@,
            seq![("tool"@, r.tool), ("window"@, r.window)],
            decimal(r.stats.failures as nat),
        )
}

/// The durations of the calls of a tool.
pub open spec fn durations_words() -> spec_fn(ToolTotals) -> Seq<char> {
    |t: ToolTotals|
        histogram_words(
            "codesearch_tool_call_duration_seconds"@,
            seq![("tool"@, t.tool@)],
            t.histogram@,
        )
}

/// The failed calls of a tool.
pub open spec fn failures_words() -> spec_fn(ToolTotals) -> Seq<char> {
    |t: ToolTotals|
        sample_words(
            "codesearch_tool_call_failures_total"@,
            seq![("tool"@, t.tool@)],
            decimal(t.failures as nat),
        )
}

/// The families of the tool calls.
pub open spec fn tool_calls_words(
    totals: Seq<ToolTotals>,
    rows: Seq<WindowRowView>,
) -> Seq<char> {
    family_words(
        "codesearch_tool_call_duration_seconds"@,
        Kind::Histogram,
        "Tool-call duration since serve started."@,
    ) + each(totals, durations_words()) + family_words(
        "codesearch_tool_call_failures_total"@,
        Kind::Counter,
        "Tool calls that returned an error since serve started."@,
    ) + each(totals, failures_words()) + family_words(
        "codesearch_tool_call_latency_seconds"@,
        Kind::Gauge,
        "Nearest-rank tool-call latency percentile over a trailing window; tool=\"all\" is every call."@,
    ) + each(rows, latency_words()) + family_words(
        "codesearch_tool_call_window_calls"@,
        Kind::Gauge,
        "Tool calls finished within a trailing window."@,
    ) + each(rows, calls_words()) + family_words(
        "codesearch_tool_call_window_failures"@,
        Kind::Gauge,
        "Failed tool calls within a trailing window."@,
    ) + each(rows, window_failures_words())
}

fn write_quantile(m: &mut Exposition, row: &WindowRow, quantile: &str, ms: Option<u64>)
    ensures
        final(m)@ == old(m)@ + quantile_words(row@, quantile@, ms),
{
    if let Some(v) = ms {
        sample_three(
            m,
            "codesearch_tool_call_latency_seconds",
            ("tool", row.tool.as_str()),
            ("window", row.window),
            ("quantile", quantile),
            &Number::Thousandths(v),
        );
    } else {
        assert(m@ + Seq::<char>::empty() =~= m@);
    }
}

fn write_totals(m: &mut Exposition, totals: &Vec<ToolTotals>)
    ensures
        final(m)@ == old(m)@ + (family_words(
            "codesearch_tool_call_duration_seconds"@,
            Kind::Histogram,
            "Tool-call duration since serve started."@,
        ) + each(totals@, durations_words()) + family_words(
            "codesearch_tool_call_failures_total"@,
            Kind::Counter,
            "Tool calls that returned an error since serve started."@,
        ) + each(totals@, failures_words())),
{
    let ghost start = m@;
    proof {
        broadcast use {lemma_grows, lemma_grows_first};

        assert(m@ =~= grown(start, Seq::empty()));
    }
    m.family(
        "codesearch_tool_call_duration_seconds",
        Kind::Histogram,
        "Tool-call duration since serve started.",
    );
    let ghost head = m@;
    let mut i: usize = 0;
    assert(head + Seq::<char>::empty() =~= head);
    while i < totals.len()
        invariant
            i <= totals@.len(),
            m@ == head + each(totals@.take(i as int), durations_words()),
        decreases totals.len() - i,
    {
        let ghost before = m@;
        let mut labels: Vec<(&str, &str)> = Vec::new();
        labels.push(("tool", totals[i].tool.as_str()));
        assert(label_views(labels@) =~= seq![("tool"@, totals@[i as int].tool@)]);
        m.histogram("codesearch_tool_call_duration_seconds", &labels, &totals[i].histogram);
        proof {
            lemma_each_step(totals@, i as int, durations_words());
            lemma_append(head, each(totals@.take(i as int), durations_words()), durations_words()(totals@[i as int]));
        }
        i += 1;
    }
    assert(totals@.take(totals@.len() as int) =~= totals@);
    m.family(
        "codesearch_tool_call_failures_total",
        Kind::Counter,
        "Tool calls that returned an error since serve started.",
    );
    let ghost second = m@;
    let mut k: usize = 0;
    assert(second + Seq::<char>::empty() =~= second);
    while k < totals.len()
        invariant
            k <= totals@.len(),
            m@ == second + each(totals@.take(k as int), failures_words()),
        decreases totals.len() - k,
    {
        sample_one(
            m,
            "codesearch_tool_call_failures_total",
            "tool",
            totals[k].tool.as_str(),
            &Number::Whole(totals[k].failures),
        );
        proof {
            lemma_each_step(totals@, k as int, failures_words());
            lemma_append(second, each(totals@.take(k as int), failures_words()), failures_words()(totals@[k as int]));
        }
        k += 1;
    }
}

fn write_row_latencies(m: &mut Exposition, row: &WindowRow)
    ensures
        final(m)@ == old(m)@ + latency_words()(row@),
{
    let ghost start = m@;
    proof {
        broadcast use {lemma_grows, lemma_grows_first};

        assert(m@ =~= grown(start, Seq::empty()));
    }
    write_quantile(m, row, "0.5", row.stats.p50);
    write_quantile(m, row, "0.95", row.stats.p95);
    write_quantile(m, row, "0.98", row.stats.p98);
    write_quantile(m, row, "0.99", row.stats.p99);
    write_quantile(m, row, "1", row.stats.p100);
}

fn write_latencies(m: &mut Exposition, rows: &Vec<WindowRow>)
    ensures
        final(m)@ == old(m)@ + each(window_row_views(rows@), latency_words()),
{
    let ghost views = window_row_views(rows@);
    let ghost start = m@;
    let mut i: usize = 0;
    assert(start + Seq::<char>::empty() =~= start);
    while i < rows.len()
        invariant
            i <= rows@.len(),
            views == window_row_views(rows@),
            m@ == start + each(views.take(i as int), latency_words()),
        decreases rows.len() - i,
    {
        write_row_latencies(m, &rows[i]);
        proof {
            lemma_each_step(views, i as int, latency_words());
            lemma_append(start, each(views.take(i as int), latency_words()), latency_words()(views[i as int]));
        }
        i += 1;
    }
    assert(views.take(rows@.len() as int) =~= views);
}

fn write_window_calls(m: &mut Exposition, rows: &Vec<WindowRow>)
    ensures
        final(m)@ == old(m)@ + each(window_row_views(rows@), calls_words()),
{
    let ghost views = window_row_views(rows@);
    let ghost start = m@;
    let mut i: usize = 0;
    assert(start + Seq::<char>::empty() =~= start);
    while i < rows.len()
        invariant
            i <= rows@.len(),
            views == window_row_views(rows@),
            m@ == start + each(views.take(i as int), calls_words()),
        decreases rows.len() - i,
    {
        sample_two(
            m,
            "codesearch_tool_call_window_calls",
            ("tool", rows[i].tool.as_str()),
            ("window", rows[i].window),
            &Number::Whole(rows[i].stats.count as u64),
        );
        proof {
            lemma_each_step(views, i as int, calls_words());
            lemma_append(start, each(views.take(i as int), calls_words()), calls_words()(views[i as int]));
        }
        i += 1;
    }
    assert(views.take(rows@.len() as int) =~= views);
}

fn write_window_failures(m: &mut Exposition, rows: &Vec<WindowRow>)
    ensures
        final(m)@ == old(m)@ + each(window_row_views(rows@), window_failures_words()),
{
    let ghost views = window_row_views(rows@);
    let ghost start = m@;
    let mut i: usize = 0;
    assert(start + Seq::<char>::empty() =~= start);
    while i < rows.len()
        invariant
            i <= rows@.len(),
            views == window_row_views(rows@),
            m@ == start + each(views.take(i as int), window_failures_words()),
        decreases rows.len() - i,
    {
        sample_two(
            m,
            "codesearch_tool_call_window_failures",
            ("tool", rows[i].tool.as_str()),
            ("window", rows[i].window),
            &Number::Whole(rows[i].stats.failures as u64),
        );
        proof {
            lemma_each_step(views, i as int, window_failures_words());
            lemma_append(start, each(views.take(i as int), window_failures_words()), window_failures_words()(views[i as int]));
        }
        i += 1;
    }
    assert(views.take(rows@.len() as int) =~= views);
}

/// The statistics of all calls in the window of an hour.
pub open spec fn last_hour(ws: Seq<WindowSummary>) -> LatencyStats
    decreases ws.len(),
{
    if ws.len() == 0 {
        stats_of(Seq::empty())
    } else if ws[0].window@ == "1h"@ {
        ws[0].summary.overall
    } else {
        last_hour(ws.drop_first())
    }
}

/// The statistics of all calls in the window of an hour: what the overall health is judged by.
pub fn last_hour_stats(ws: &Vec<WindowSummary>) -> (r: LatencyStats)
    ensures
        r == last_hour(ws@),
{
    let mut i: usize = 0;
    assert(ws@.skip(0) =~= ws@);
    while i < ws.len()
        invariant
            i <= ws@.len(),
            last_hour(ws@) == last_hour(ws@.skip(i as int)),
        decreases ws.len() - i,
    {
        if same_text(ws[i].window, "1h") {
            assert(ws@.skip(i as int)[0] == ws@[i as int]);
            return ws[i].summary.overall;
        }
        assert(ws@.skip(i as int).drop_first() =~= ws@.skip(i + 1));
        i += 1;
    }
    LatencyStats::default()
}

/// Writes the families of the tool calls; of the tools, only those of `known` have rows of
/// their own. Returns the statistics of all calls of the last hour.
pub fn write_tool_calls(
    m: &mut Exposition,
    totals: &Vec<ToolTotals>,
    summaries: &Vec<WindowSummary>,
    known: &Vec<String>,
) -> (r: LatencyStats)
    ensures
        final(m)@ == old(m)@ + tool_calls_words(
            totals@,
            window_rows(summaries@, texts(known@)),
        ),
        r == last_hour(summaries@),
{
    let ghost start = m@;
    proof {
        broadcast use {lemma_grows, lemma_grows_first};

        assert(m@ =~= grown(start, Seq::empty()));
    }
    let rows: Vec<WindowRow> = rows_of_windows(summaries, known);
    write_totals(m, totals);
    m.family(
        "codesearch_tool_call_latency_seconds",
        Kind::Gauge,
        "Nearest-rank tool-call latency percentile over a trailing window; tool=\"all\" is every call.",
    );
    write_latencies(m, &rows);
    m.family(
        "codesearch_tool_call_window_calls",
        Kind::Gauge,
        "Tool calls finished within a trailing window.",
    );
    write_window_calls(m, &rows);
    m.family(
        "codesearch_tool_call_window_failures",
        Kind::Gauge,
        "Failed tool calls within a trailing window.",
    );
    write_window_failures(m, &rows);
    last_hour_stats(summaries)
}

/// How the last index jobs of a repository ended.
pub struct RepoOutcome {
    pub indexed_at_ms: Option<u64>,
    pub duration_ms: Option<u64>,
    /// Failed index jobs since the last success.
    pub failures: u32,
}

/// A registered repo with its serve state, last index outcome and queue position.
pub struct RepoHealth {
    pub alias: String,
    pub path: String,
    pub status: String,
    pub queued: bool,
    pub changes: u64,
    pub outcome: RepoOutcome,
}

/// An index job.
pub struct GovernorJob {
    /// The path of its repository.
    pub label: String,
    pub priority: String,
    pub secs: u64,
    /// Why it is paused, if it is.
    pub paused: Option<String>,
}

/// What the indexing governor goes by.
pub struct GovernorInputs {
    pub recent_read_max_ms: Option<u64>,
    /// CPU used by other processes as a fraction of all cores, as it is to be shown.
    pub other_cpu_ratio: Option<String>,
    pub memory_pressure: Option<String>,
    pub on_battery: Option<bool>,
}

/// The state of the indexing governor.
pub struct GovernorStatus {
    pub max_jobs: u64,
    pub running: Vec<GovernorJob>,
    pub waiting: Vec<GovernorJob>,
    pub inputs: GovernorInputs,
}

/// The alias of the repository at `path`: of several the last one, and without one
/// `unregistered`.
pub open spec fn alias_at(repos: Seq<RepoHealth>, path: Seq<char>) -> Seq<char>
    decreases repos.len(),
{
    if repos.len() == 0 {
        "unregistered"@
    } else if repos.last().path@ == path {
        repos.last().alias@
    } else {
        alias_at(repos.drop_last(), path)
    }
}

fn find_alias(repos: &Vec<RepoHealth>, path: &str) -> (r: String)
    ensures
        r@ == alias_at(repos@, path@),
{
    let mut n: usize = repos.len();
    assert(repos@.take(n as int) =~= repos@);
    while n > 0
        invariant
            n <= repos@.len(),
            alias_at(repos@, path@) == alias_at(repos@.take(n as int), path@),
        decreases n,
    {
        assert(repos@.take(n as int).drop_last() =~= repos@.take(n - 1));
        assert(repos@.take(n as int).last() == repos@[n - 1]);
        if same_text(repos[n - 1].path.as_str(), path) {
            return repos[n - 1].alias.clone();
        }
        n -= 1;
    }
    "unregistered".to_owned()
}

/// How long a job has been running or waiting.
pub open spec fn job_words(repos: Seq<RepoHealth>, state: Seq<char>) -> spec_fn(GovernorJob) -> Seq<
    char,
> {
    |j: GovernorJob|
        sample_words(
            "codesearch_index_governor_job_seconds"@,
            seq![
                ("repo"@, alias_at(repos, j.label@)),
                ("priority"@, j.priority@),
                ("state"@, state),
            ],
            decimal(j.secs as nat),
        )
}

fn write_jobs(m: &mut Exposition, repos: &Vec<RepoHealth>, state: &str, jobs: &Vec<GovernorJob>)
    ensures
        final(m)@ == old(m)@ + each(jobs@, job_words(repos@, state@)),
{
    let ghost f = job_words(repos@, state@);
    let ghost start = m@;
    let mut i: usize = 0;
    assert(start + Seq::<char>::empty() =~= start);
    while i < jobs.len()
        invariant
            i <= jobs@.len(),
            f == job_words(repos@, state@),
            m@ == start + each(jobs@.take(i as int), f),
        decreases jobs.len() - i,
    {
        let repo: String = find_alias(repos, jobs[i].label.as_str());
        sample_three(
            m,
            "codesearch_index_governor_job_seconds",
            ("repo", repo.as_str()),
            ("priority", jobs[i].priority.as_str()),
            ("state", state),
            &Number::Whole(jobs[i].secs),
        );
        proof {
            lemma_each_step(jobs@, i as int, f);
            lemma_append(start, each(jobs@.take(i as int), f), f(jobs@[i as int]));
        }
        i += 1;
    }
    assert(jobs@.take(jobs@.len() as int) =~= jobs@);
}

/// Whether a job is paused for a reason of the category.
pub open spec fn paused_for(category: Seq<char>) -> spec_fn(GovernorJob) -> bool {
    |j: GovernorJob| j.paused matches Some(r) && pause_category(r@) == category
}

/// The jobs that are paused for a reason of the category.
pub open spec fn paused_words(running: Seq<GovernorJob>) -> spec_fn(Seq<char>) -> Seq<char> {
    |category: Seq<char>|
        sample_words(
            "codesearch_index_governor_paused_jobs"@,
            seq![("reason"@, category)],
            decimal(running.filter(paused_for(category)).len()),
        )
}

fn count_paused(running: &Vec<GovernorJob>, category: &str) -> (r: usize)
    ensures
        r == running@.filter(paused_for(category@)).len(),
{
    let mut r: usize = 0;
    let mut i: usize = 0;
    proof {
        reveal(Seq::filter);
    }
    while i < running.len()
        invariant
            i <= running.len(),
            r <= i,
            r == running@.take(i as int).filter(paused_for(category@)).len(),
        decreases running.len() - i,
    {
        proof {
            reveal(Seq::filter);
            assert(running@.take(i + 1).drop_last() =~= running@.take(i as int));
        }
        match &running[i].paused {
            Some(reason) => {
                if same_text(pause_reason(reason.as_str()), category) {
                    r += 1;
                }
            },
            None => {},
        }
        i += 1;
    }
    assert(running@.take(running@.len() as int) =~= running@);
    r
}

fn write_paused(m: &mut Exposition, running: &Vec<GovernorJob>)
    ensures
        final(m)@ == old(m)@ + each(pause_categories(), paused_words(running@)),
{
    let ghost f = paused_words(running@);
    let ghost start = m@;
    let reasons: Vec<&'static str> = pause_reasons();
    let ghost names = pause_categories();
    let mut i: usize = 0;
    assert(start + Seq::<char>::empty() =~= start);
    while i < reasons.len()
        invariant
            i <= reasons@.len(),
            f == paused_words(running@),
            names == reasons@.map_values(|s: &'static str| s@),
            m@ == start + each(names.take(i as int), f),
        decreases reasons.len() - i,
    {
        let paused: usize = count_paused(running, reasons[i]);
        sample_one(
            m,
            "codesearch_index_governor_paused_jobs",
            "reason",
            reasons[i],
            &Number::Whole(paused as u64),
        );
        proof {
            lemma_each_step(names, i as int, f);
            lemma_append(start, each(names.take(i as int), f), f(names[i as int]));
        }
        i += 1;
    }
    assert(names.take(names.len() as int) =~= names);
}

/// A level of memory pressure: the current one is 1.
pub open spec fn pressure_words(current: Seq<char>) -> spec_fn(Seq<char>) -> Seq<char> {
    |level: Seq<char>|
        sample_words(
            "codesearch_index_governor_memory_pressure"@,
            seq![("level"@, level)],
            flag_words(level == current),
        )
}

/// The slowest recent call, if there is one.
pub open spec fn read_max_words(ms: Option<u64>) -> Seq<char> {
    match ms {
        Some(ms) => single_words(
            "codesearch_index_governor_recent_read_max_seconds"@,
            Kind::Gauge,
            "Slowest interactive tool call in the governor protect window."@,
            fraction(ms as nat, 3),
        ),
        None => Seq::empty(),
    }
}

/// The CPU used by other processes, if it is known.
pub open spec fn other_cpu_words(ratio: Option<Seq<char>>) -> Seq<char> {
    match ratio {
        Some(ratio) => single_words(
            "codesearch_index_governor_other_cpu_ratio"@,
            Kind::Gauge,
            "CPU used by other processes as a fraction of all cores."@,
            ratio,
        ),
        None => Seq::empty(),
    }
}

/// The level of memory pressure among `levels`, if it is known.
pub open spec fn memory_words(level: Option<Seq<char>>, levels: Seq<Seq<char>>) -> Seq<char> {
    match level {
        Some(level) => family_words(
            "codesearch_index_governor_memory_pressure"@,
            Kind::Gauge,
            "System memory pressure level; the current level is 1."@,
        ) + each(levels, pressure_words(level)),
        None => Seq::empty(),
    }
}

/// Whether the machine runs on battery, if it is known.
pub open spec fn battery_words(on: Option<bool>) -> Seq<char> {
    match on {
        Some(on) => single_words(
            "codesearch_index_governor_on_battery"@,
            Kind::Gauge,
            "1 when the machine is running on battery."@,
            flag_words(on),
        ),
        None => Seq::empty(),
    }
}

/// What the governor goes by: only what is known is written.
pub open spec fn inputs_words(g: GovernorInputs, levels: Seq<Seq<char>>) -> Seq<char> {
    read_max_words(g.recent_read_max_ms) + other_cpu_words(opt_text(g.other_cpu_ratio))
        + memory_words(opt_text(g.memory_pressure), levels) + battery_words(g.on_battery)
}

/// The families of the indexing governor.
pub open spec fn governor_words(
    g: GovernorStatus,
    repos: Seq<RepoHealth>,
    levels: Seq<Seq<char>>,
) -> Seq<char> {
    single_words(
        "codesearch_index_governor_max_jobs"@,
        Kind::Gauge,
        "Index jobs allowed to run at once."@,
        decimal(g.max_jobs as nat),
    ) + family_words(
        "codesearch_index_governor_jobs"@,
        Kind::Gauge,
        "Index jobs running or waiting for a slot."@,
    ) + sample_words(
        "codesearch_index_governor_jobs"@,
        seq![("state"@, "running"@)],
        decimal(g.running@.len()),
    ) + sample_words(
        "codesearch_index_governor_jobs"@,
        seq![("state"@, "waiting"@)],
        decimal(g.waiting@.len()),
    ) + family_words(
        "codesearch_index_governor_job_seconds"@,
        Kind::Gauge,
        "Seconds each index job has been running or waiting; repo is the alias."@,
    ) + each(g.running@, job_words(repos, "running"@)) + each(
        g.waiting@,
        job_words(repos, "waiting"@),
    ) + family_words(
        "codesearch_index_governor_paused_jobs"@,
        Kind::Gauge,
        "Running index jobs paused at a yield point, by reason."@,
    ) + each(pause_categories(), paused_words(g.running@)) + inputs_words(g.inputs, levels)
}

fn write_pressure(m: &mut Exposition, levels: &Vec<String>, current: &str)
    ensures
        final(m)@ == old(m)@ + each(texts(levels@), pressure_words(current@)),
{
    let ghost f = pressure_words(current@);
    let ghost names = texts(levels@);
    let ghost start = m@;
    let mut i: usize = 0;
    assert(start + Seq::<char>::empty() =~= start);
    while i < levels.len()
        invariant
            i <= levels@.len(),
            f == pressure_words(current@),
            names == texts(levels@),
            m@ == start + each(names.take(i as int), f),
        decreases levels.len() - i,
    {
        let on: Number = flag(same_text(levels[i].as_str(), current));
        sample_one(
            m,
            "codesearch_index_governor_memory_pressure",
            "level",
            levels[i].as_str(),
            &on,
        );
        proof {
            lemma_each_step(names, i as int, f);
            lemma_append(start, each(names.take(i as int), f), f(names[i as int]));
        }
        i += 1;
    }
    assert(names.take(names.len() as int) =~= names);
}

fn write_read_max(m: &mut Exposition, ms: Option<u64>)
    ensures
        final(m)@ == old(m)@ + read_max_words(ms),
{
    match ms {
        Some(ms) => {
            m.single(
                "codesearch_index_governor_recent_read_max_seconds",
                Kind::Gauge,
                "Slowest interactive tool call in the governor protect window.",
                &Number::Thousandths(ms),
            );
        },
        None => {
            assert(m@ + Seq::<char>::empty() =~= m@);
        },
    }
}

fn write_other_cpu(m: &mut Exposition, ratio: &Option<String>)
    ensures
        final(m)@ == old(m)@ + other_cpu_words(opt_text(*ratio)),
{
    match ratio {
        Some(ratio) => {
            m.single(
                "codesearch_index_governor_other_cpu_ratio",
                Kind::Gauge,
                "CPU used by other processes as a fraction of all cores.",
                &Number::Shown(ratio.clone()),
            );
        },
        None => {
            assert(m@ + Seq::<char>::empty() =~= m@);
        },
    }
}

fn write_memory(m: &mut Exposition, level: &Option<String>, levels: &Vec<String>)
    ensures
        final(m)@ == old(m)@ + memory_words(opt_text(*level), texts(levels@)),
{
    let ghost start = m@;
    match level {
        Some(level) => {
            m.family(
                "codesearch_index_governor_memory_pressure",
                Kind::Gauge,
                "System memory pressure level; the current level is 1.",
            );
            let ghost head = family_words(
                "codesearch_index_governor_memory_pressure"@,
                Kind::Gauge,
                "System memory pressure level; the current level is 1."@,
            );
            write_pressure(m, levels, level.as_str());
            proof {
                lemma_append(start, head, each(texts(levels@), pressure_words(level@)));
            }
        },
        None => {
            assert(m@ + Seq::<char>::empty() =~= m@);
        },
    }
}

fn write_battery(m: &mut Exposition, on: Option<bool>)
    ensures
        final(m)@ == old(m)@ + battery_words(on),
{
    match on {
        Some(on) => {
            let on: Number = flag(on);
            m.single(
                "codesearch_index_governor_on_battery",
                Kind::Gauge,
                "1 when the machine is running on battery.",
                &on,
            );
        },
        None => {
            assert(m@ + Seq::<char>::empty() =~= m@);
        },
    }
}

fn write_inputs(m: &mut Exposition, inputs: &GovernorInputs, levels: &Vec<String>)
    ensures
        final(m)@ == old(m)@ + inputs_words(*inputs, texts(levels@)),
{
    let ghost start = m@;
    proof {
        broadcast use {lemma_grows, lemma_grows_first};

        assert(m@ =~= grown(start, Seq::empty()));
    }
    write_read_max(m, inputs.recent_read_max_ms);
    write_other_cpu(m, &inputs.other_cpu_ratio);
    write_memory(m, &inputs.memory_pressure, levels);
    write_battery(m, inputs.on_battery);
}

/// Writes the families of the indexing governor. A job is labelled with the alias of its
/// repository; `levels` lists the levels of memory pressure.
pub fn write_governor(
    m: &mut Exposition,
    g: &GovernorStatus,
    repos: &Vec<RepoHealth>,
    levels: &Vec<String>,
)
    ensures
        final(m)@ == old(m)@ + governor_words(*g, repos@, texts(levels@)),
{
    let ghost start = m@;
    proof {
        broadcast use {lemma_grows, lemma_grows_first};

        assert(m@ =~= grown(start, Seq::empty()));
    }
    m.single(
        "codesearch_index_governor_max_jobs",
        Kind::Gauge,
        "Index jobs allowed to run at once.",
        &Number::Whole(g.max_jobs),
    );
    m.family(
        "codesearch_index_governor_jobs",
        Kind::Gauge,
        "Index jobs running or waiting for a slot.",
    );
    sample_one(
        m,
        "codesearch_index_governor_jobs",
        "state",
        "running",
        &Number::Whole(g.running.len() as u64),
    );
    sample_one(
        m,
        "codesearch_index_governor_jobs",
        "state",
        "waiting",
        &Number::Whole(g.waiting.len() as u64),
    );
    m.family(
        "codesearch_index_governor_job_seconds",
        Kind::Gauge,
        "Seconds each index job has been running or waiting; repo is the alias.",
    );
    write_jobs(m, repos, "running", &g.running);
    write_jobs(m, repos, "waiting", &g.waiting);
    m.family(
        "codesearch_index_governor_paused_jobs",
        Kind::Gauge,
        "Running index jobs paused at a yield point, by reason.",
    );
    write_paused(m, &g.running);
    write_inputs(m, &g.inputs, levels);
}

/// A number that is written for each repository.
#[derive(Debug, Clone, Copy, PartialEq, Eq, Structural)]
pub enum RepoValue {
    LastIndexed,
    LastDuration,
    Failures,
    PendingChanges,
    Indexing,
    Queued,
}

/// The family of a number.
pub open spec fn value_name(v: RepoValue) -> Seq<char> {
    match v {
        RepoValue::LastIndexed => "codesearch_repo_last_indexed_timestamp_seconds"@,
        RepoValue::LastDuration => "codesearch_repo_last_index_duration_seconds"@,
        RepoValue::Failures => "codesearch_repo_index_consecutive_failures"@,
        RepoValue::PendingChanges => "codesearch_repo_pending_changes"@,
        RepoValue::Indexing => "codesearch_repo_indexing"@,
        RepoValue::Queued => "codesearch_repo_queued"@,
    }
}

/// What a number tells.
pub open spec fn value_help(v: RepoValue) -> Seq<char> {
    match v {
        RepoValue::LastIndexed => "Unix time of the last successful index job."@,
        RepoValue::LastDuration => "Duration of the last finished index job, successful or not."@,
        RepoValue::Failures => "Failed index jobs since the last success."@,
        RepoValue::PendingChanges => "File changes the watcher has not indexed yet."@,
        RepoValue::Indexing => "1 while the repo is being indexed."@,
        RepoValue::Queued => "1 while the repo waits for an indexing governor slot."@,
    }
}

/// The number of a repository, where it has one.
pub open spec fn value_words(v: RepoValue, r: RepoHealth) -> Option<Seq<char>> {
    match v {
        RepoValue::LastIndexed => match r.outcome.indexed_at_ms {
            Some(ms) => Some(fraction(ms as nat, 3)),
            None => None,
        },
        RepoValue::LastDuration => match r.outcome.duration_ms {
            Some(ms) => Some(fraction(ms as nat, 3)),
            None => None,
        },
        RepoValue::Failures => Some(decimal(r.outcome.failures as nat)),
        RepoValue::PendingChanges => Some(decimal(r.changes as nat)),
        RepoValue::Indexing => Some(flag_words(r.status@ == "indexing"@)),
        RepoValue::Queued => Some(flag_words(r.queued)),
    }
}

/// The sample of a repository, where it has one.
pub open spec fn repo_value_words(v: RepoValue) -> spec_fn(RepoHealth) -> Seq<char> {
    |r: RepoHealth|
        match value_words(v, r) {
            Some(value) => sample_words(value_name(v), seq![("repo"@, r.alias@)], value),
            None => Seq::empty(),
        }
}

/// A family with a sample for each repository that has the number.
pub open spec fn repo_family_words(v: RepoValue, repos: Seq<RepoHealth>) -> Seq<char> {
    family_words(value_name(v), Kind::Gauge, value_help(v)) + each(repos, repo_value_words(v))
}

fn name_of(v: RepoValue) -> (r: &'static str)
    ensures
        r@ == value_name(v),
{
    match v {
        RepoValue::LastIndexed => "codesearch_repo_last_indexed_timestamp_seconds",
        RepoValue::LastDuration => "codesearch_repo_last_index_duration_seconds",
        RepoValue::Failures => "codesearch_repo_index_consecutive_failures",
        RepoValue::PendingChanges => "codesearch_repo_pending_changes",
        RepoValue::Indexing => "codesearch_repo_indexing",
        RepoValue::Queued => "codesearch_repo_queued",
    }
}

fn help_of(v: RepoValue) -> (r: &'static str)
    ensures
        r@ == value_help(v),
{
    match v {
        RepoValue::LastIndexed => "Unix time of the last successful index job.",
        RepoValue::LastDuration => "Duration of the last finished index job, successful or not.",
        RepoValue::Failures => "Failed index jobs since the last success.",
        RepoValue::PendingChanges => "File changes the watcher has not indexed yet.",
        RepoValue::Indexing => "1 while the repo is being indexed.",
        RepoValue::Queued => "1 while the repo waits for an indexing governor slot.",
    }
}

fn value_of(v: RepoValue, r: &RepoHealth) -> (n: Option<Number>)
    ensures
        match n {
            Some(x) => value_words(v, *r) == Some(number_words(x)),
            None => value_words(v, *r) is None,
        },
{
    match v {
        RepoValue::LastIndexed => match r.outcome.indexed_at_ms {
            Some(ms) => Some(Number::Thousandths(ms)),
            None => None,
        },
        RepoValue::LastDuration => match r.outcome.duration_ms {
            Some(ms) => Some(Number::Thousandths(ms)),
            None => None,
        },
        RepoValue::Failures => Some(Number::Whole(r.outcome.failures as u64)),
        RepoValue::PendingChanges => Some(Number::Whole(r.changes)),
        RepoValue::Indexing => Some(flag(same_text(r.status.as_str(), "indexing"))),
        RepoValue::Queued => Some(flag(r.queued)),
    }
}

fn write_repo_family(m: &mut Exposition, v: RepoValue, repos: &Vec<RepoHealth>)
    ensures
        final(m)@ == old(m)@ + repo_family_words(v, repos@),
{
    let ghost start = m@;
    let ghost f = repo_value_words(v);
    m.family(name_of(v), Kind::Gauge, help_of(v));
    let ghost head = m@;
    let mut i: usize = 0;
    assert(head + Seq::<char>::empty() =~= head);
    while i < repos.len()
        invariant
            i <= repos@.len(),
            f == repo_value_words(v),
            m@ == head + each(repos@.take(i as int), f),
        decreases repos.len() - i,
    {
        match value_of(v, &repos[i]) {
            Some(n) => {
                sample_one(m, name_of(v), "repo", repos[i].alias.as_str(), &n);
            },
            None => {
                assert(m@ + Seq::<char>::empty() =~= m@);
            },
        }
        proof {
            lemma_each_step(repos@, i as int, f);
            lemma_append(head, each(repos@.take(i as int), f), f(repos@[i as int]));
        }
        i += 1;
    }
    proof {
        assert(repos@.take(repos@.len() as int) =~= repos@);
        lemma_append(start, family_words(value_name(v), Kind::Gauge, value_help(v)), each(repos@, f));
    }
}

/// Whether a repository has the status.
pub open spec fn has_status(status: Seq<char>) -> spec_fn(RepoHealth) -> bool {
    |r: RepoHealth| r.status@ == status
}

/// Whether a repository waits for a slot.
pub open spec fn is_queued() -> spec_fn(RepoHealth) -> bool {
    |r: RepoHealth| r.queued
}

/// How many repositories have the status.
pub fn count_status(repos: &Vec<RepoHealth>, status: &str) -> (r: usize)
    ensures
        r == repos@.filter(has_status(status@)).len(),
{
    let mut r: usize = 0;
    let mut i: usize = 0;
    proof {
        reveal(Seq::filter);
    }
    while i < repos.len()
        invariant
            i <= repos.len(),
            r <= i,
            r == repos@.take(i as int).filter(has_status(status@)).len(),
        decreases repos.len() - i,
    {
        proof {
            reveal(Seq::filter);
            assert(repos@.take(i + 1).drop_last() =~= repos@.take(i as int));
        }
        if same_text(repos[i].status.as_str(), status) {
            r += 1;
        }
        i += 1;
    }
    assert(repos@.take(repos@.len() as int) =~= repos@);
    r
}

/// How many repositories wait for a slot.
pub fn count_queued(repos: &Vec<RepoHealth>) -> (r: usize)
    ensures
        r == repos@.filter(is_queued()).len(),
{
    let mut r: usize = 0;
    let mut i: usize = 0;
    proof {
        reveal(Seq::filter);
    }
    while i < repos.len()
        invariant
            i <= repos.len(),
            r <= i,
            r == repos@.take(i as int).filter(is_queued()).len(),
        decreases repos.len() - i,
    {
        proof {
            reveal(Seq::filter);
            assert(repos@.take(i + 1).drop_last() =~= repos@.take(i as int));
        }
        if repos[i].queued {
            r += 1;
        }
        i += 1;
    }
    assert(repos@.take(repos@.len() as int) =~= repos@);
    r
}

/// The path and the status of a repository.
pub open spec fn repo_info_words() -> spec_fn(RepoHealth) -> Seq<char> {
    |r: RepoHealth|
        sample_words(
            "codesearch_repo_info"@,
            seq![("repo"@, r.alias@), ("path"@, r.path@), ("status"@, r.status@)],
            decimal(1),
        )
}

fn write_repo_infos(m: &mut Exposition, repos: &Vec<RepoHealth>)
    ensures
        final(m)@ == old(m)@ + each(repos@, repo_info_words()),
{
    let ghost start = m@;
    let mut i: usize = 0;
    assert(start + Seq::<char>::empty() =~= start);
    while i < repos.len()
        invariant
            i <= repos@.len(),
            m@ == start + each(repos@.take(i as int), repo_info_words()),
        decreases repos.len() - i,
    {
        sample_three(
            m,
            "codesearch_repo_info",
            ("repo", repos[i].alias.as_str()),
            ("path", repos[i].path.as_str()),
            ("status", repos[i].status.as_str()),
            &Number::Whole(1),
        );
        proof {
            lemma_each_step(repos@, i as int, repo_info_words());
            lemma_append(
                start,
                each(repos@.take(i as int), repo_info_words()),
                repo_info_words()(repos@[i as int]),
            );
        }
        i += 1;
    }
    assert(repos@.take(repos@.len() as int) =~= repos@);
}

/// The families of the repositories.
pub open spec fn repos_words(repos: Seq<RepoHealth>) -> Seq<char> {
    single_words("codesearch_repos"@, Kind::Gauge, "Registered repos."@, decimal(repos.len()))
        + single_words(
        "codesearch_repos_indexing"@,
        Kind::Gauge,
        "Repos being indexed now."@,
        decimal(repos.filter(has_status("indexing"@)).len()),
    ) + single_words(
        "codesearch_repos_failing"@,
        Kind::Gauge,
        "Repos whose last index job failed."@,
        decimal(repos.filter(has_status("failing"@)).len()),
    ) + single_words(
        "codesearch_repos_queued"@,
        Kind::Gauge,
        "Repos waiting for an indexing governor slot."@,
        decimal(repos.filter(is_queued()).len()),
    ) + family_words(
        "codesearch_repo_info"@,
        Kind::Gauge,
        "Always 1; carries the repo path and status (failing, open, warm, indexing, ...)."@,
    ) + each(repos, repo_info_words()) + repo_family_words(RepoValue::LastIndexed, repos)
        + repo_family_words(RepoValue::LastDuration, repos) + repo_family_words(
        RepoValue::Failures,
        repos,
    ) + repo_family_words(RepoValue::PendingChanges, repos) + repo_family_words(
        RepoValue::Indexing,
        repos,
    ) + repo_family_words(RepoValue::Queued, repos)
}

/// Writes the families of the repositories.
pub fn write_repos(m: &mut Exposition, repos: &Vec<RepoHealth>)
    ensures
        final(m)@ == old(m)@ + repos_words(repos@),
{
    let ghost start = m@;
    proof {
        broadcast use {lemma_grows, lemma_grows_first};

        assert(m@ =~= grown(start, Seq::empty()));
    }
    m.single(
        "codesearch_repos",
        Kind::Gauge,
        "Registered repos.",
        &Number::Whole(repos.len() as u64),
    );
    m.single(
        "codesearch_repos_indexing",
        Kind::Gauge,
        "Repos being indexed now.",
        &Number::Whole(count_status(repos, "indexing") as u64),
    );
    m.single(
        "codesearch_repos_failing",
        Kind::Gauge,
        "Repos whose last index job failed.",
        &Number::Whole(count_status(repos, "failing") as u64),
    );
    m.single(
        "codesearch_repos_queued",
        Kind::Gauge,
        "Repos waiting for an indexing governor slot.",
        &Number::Whole(count_queued(repos) as u64),
    );
    m.family(
        "codesearch_repo_info",
        Kind::Gauge,
        "Always 1; carries the repo path and status (failing, open, warm, indexing, ...).",
    );
    write_repo_infos(m, repos);
    write_repo_family(m, RepoValue::LastIndexed, repos);
    write_repo_family(m, RepoValue::LastDuration, repos);
    write_repo_family(m, RepoValue::Failures, repos);
    write_repo_family(m, RepoValue::PendingChanges, repos);
    write_repo_family(m, RepoValue::Indexing, repos);
    write_repo_family(m, RepoValue::Queued, repos);
}

/// The memory and the CPU time of the process.
#[derive(Debug, Clone, Copy, PartialEq, Eq, Structural)]
pub struct ProcessUsage {
    pub memory_bytes: u64,
    pub cpu_ms: u64,
}

/// The families of the process, where its usage is known.
pub open spec fn process_words(usage: Option<ProcessUsage>) -> Seq<char> {
    match usage {
        Some(u) => single_words(
            "process_resident_memory_bytes"@,
            Kind::Gauge,
            "Resident memory size in bytes."@,
            decimal(u.memory_bytes as nat),
        ) + single_words(
            "process_cpu_seconds_total"@,
            Kind::Counter,
            "User and system CPU time spent in seconds."@,
            fraction(u.cpu_ms as nat, 3),
        ),
        None => Seq::empty(),
    }
}

/// Writes the families of the process.
pub fn write_process(m: &mut Exposition, usage: Option<ProcessUsage>)
    ensures
        final(m)@ == old(m)@ + process_words(usage),
{
    let ghost start = m@;
    match usage {
        Some(u) => {
            m.single(
                "process_resident_memory_bytes",
                Kind::Gauge,
                "Resident memory size in bytes.",
                &Number::Whole(u.memory_bytes),
            );
            let ghost first = single_words(
                "process_resident_memory_bytes"@,
                Kind::Gauge,
                "Resident memory size in bytes."@,
                decimal(u.memory_bytes as nat),
            );
            m.single(
                "process_cpu_seconds_total",
                Kind::Counter,
                "User and system CPU time spent in seconds.",
                &Number::Thousandths(u.cpu_ms),
            );
            proof {
                lemma_append(
                    start,
                    first,
                    single_words(
                        "process_cpu_seconds_total"@,
                        Kind::Counter,
                        "User and system CPU time spent in seconds."@,
                        fraction(u.cpu_ms as nat, 3),
                    ),
                );
            }
        },
        None => {
            assert(m@ + Seq::<char>::empty() =~= m@);
        },
    }
}

/// The events of a level since serve started.
pub struct EventTotal {
    pub level: String,
    pub total: u64,
}

/// The events of a level.
pub open spec fn event_words() -> spec_fn(EventTotal) -> Seq<char> {
    |e: EventTotal|
        sample_words(
            "codesearch_index_events_total"@,
            seq![("level"@, e.level@)],
            decimal(e.total as nat),
        )
}

fn write_events(m: &mut Exposition, events: &Vec<EventTotal>)
    ensures
        final(m)@ == old(m)@ + each(events@, event_words()),
{
    let ghost start = m@;
    let mut i: usize = 0;
    assert(start + Seq::<char>::empty() =~= start);
    while i < events.len()
        invariant
            i <= events@.len(),
            m@ == start + each(events@.take(i as int), event_words()),
        decreases events.len() - i,
    {
        sample_one(
            m,
            "codesearch_index_events_total",
            "level",
            events[i].level.as_str(),
            &Number::Whole(events[i].total),
        );
        proof {
            lemma_each_step(events@, i as int, event_words());
            lemma_append(
                start,
                each(events@.take(i as int), event_words()),
                event_words()(events@[i as int]),
            );
        }
        i += 1;
    }
    assert(events@.take(events@.len() as int) =~= events@);
}

/// Whether all is well.
#[derive(Debug, Clone, Copy, PartialEq, Eq, Structural)]
pub enum OverallStatus {
    Healthy,
    Degraded,
}

/// The name of a status.
pub open spec fn overall_name(s: OverallStatus) -> Seq<char> {
    match s {
        OverallStatus::Healthy => "ok"@,
        OverallStatus::Degraded => "degraded"@,
    }
}

impl OverallStatus {
    /// The name of the status.
    pub fn as_str(&self) -> (r: &'static str)
        ensures
            r@ == overall_name(*self),
    {
        match self {
            OverallStatus::Healthy => "ok",
            OverallStatus::Degraded => "degraded",
        }
    }
}

/// The overall health.
pub struct Overall {
    pub status: OverallStatus,
    pub reasons: Vec<String>,
}

/// The value of the sample of a status: 1 for the current one, 0 for the other.
pub open spec fn status_value(o: Overall, s: OverallStatus) -> nat {
    if o.status == s {
        1
    } else {
        0
    }
}

/// The sample of a status.
pub open spec fn status_sample(o: Overall, s: OverallStatus) -> Seq<char> {
    sample_words(
        "codesearch_status"@,
        seq![("status"@, overall_name(s))],
        decimal(status_value(o, s)),
    )
}

/// Of the two status samples exactly one is 1: their values sum to 1.
pub proof fn law_one_status_is_current(o: Overall)
    ensures
        status_value(o, OverallStatus::Healthy) + status_value(o, OverallStatus::Degraded) == 1,
        status_value(o, o.status) == 1,
{
}

/// Everything that a scrape tells.
pub struct Scrape {
    pub version: String,
    pub uptime_nanos: u128,
    pub slo_ms: u64,
    pub read_target_ms: u64,
    pub totals: Vec<ToolTotals>,
    pub summaries: Vec<WindowSummary>,
    pub known_tools: Vec<String>,
    pub overall: Overall,
    pub governor: GovernorStatus,
    pub pressure_levels: Vec<String>,
    pub qos_read: Option<String>,
    pub qos_index: Option<String>,
    pub index_threads: u64,
    pub repos: Vec<RepoHealth>,
    pub events: Vec<EventTotal>,
    pub usage: Option<ProcessUsage>,
}

/// A text, or `unset`.
pub open spec fn or_unset(t: Option<Seq<char>>) -> Seq<char> {
    match t {
        Some(s) => s,
        None => "unset"@,
    }
}

fn text_or_unset(t: &Option<String>) -> (r: &str)
    ensures
        r@ == or_unset(opt_text(*t)),
{
    match t {
        Some(s) => s.as_str(),
        None => "unset",
    }
}

/// The families of the server as such.
pub open spec fn server_words(s: Scrape) -> Seq<char> {
    family_words(
        "codesearch_build_info"@,
        Kind::Gauge,
        "Always 1; carries the codesearch version."@,
    ) + sample_words("codesearch_build_info"@, seq![("version"@, s.version@)], decimal(1))
        + single_words(
        "codesearch_uptime_seconds"@,
        Kind::Gauge,
        "Seconds since serve started."@,
        fraction(s.uptime_nanos as nat, 9),
    ) + single_words(
        "codesearch_slo_seconds"@,
        Kind::Gauge,
        "Tool-call p95 latency SLO."@,
        fraction(s.slo_ms as nat, 3),
    ) + single_words(
        "codesearch_read_target_seconds"@,
        Kind::Gauge,
        "Tool-call latency above which indexing yields."@,
        fraction(s.read_target_ms as nat, 3),
    )
}

/// The families of the overall health: of its two states the current one is 1.
pub open spec fn status_words(o: Overall) -> Seq<char> {
    family_words(
        "codesearch_status"@,
        Kind::Gauge,
        "Overall health; the current status is 1. An unreachable serve is down (up == 0)."@,
    ) + status_sample(o, OverallStatus::Healthy) + status_sample(o, OverallStatus::Degraded)
        + single_words(
        "codesearch_degraded_reasons"@,
        Kind::Gauge,
        "Reasons the overall status is degraded; the text is in /api/summary."@,
        decimal(o.reasons@.len()),
    )
}

/// The families of the scheduling classes.
pub open spec fn qos_words(s: Scrape) -> Seq<char> {
    family_words(
        "codesearch_qos_info"@,
        Kind::Gauge,
        "Always 1; carries the read-path and index-pool QoS classes."@,
    ) + sample_words(
        "codesearch_qos_info"@,
        seq![
            ("read"@, or_unset(opt_text(s.qos_read))),
            ("index"@, or_unset(opt_text(s.qos_index))),
        ],
        decimal(1),
    ) + single_words(
        "codesearch_index_threads"@,
        Kind::Gauge,
        "Threads in the index executor pool."@,
        decimal(s.index_threads as nat),
    )
}

/// The whole body of a scrape.
pub open spec fn scrape_words(s: Scrape) -> Seq<char> {
    server_words(s) + tool_calls_words(
        s.totals@,
        window_rows(s.summaries@, texts(s.known_tools@)),
    ) + status_words(s.overall) + governor_words(s.governor, s.repos@, texts(s.pressure_levels@))
        + qos_words(s) + repos_words(s.repos@) + family_words(
        "codesearch_index_events_total"@,
        Kind::Counter,
        "Index and governor events logged since serve started, by level."@,
    ) + each(s.events@, event_words()) + process_words(s.usage)
}

fn write_server(m: &mut Exposition, s: &Scrape)
    ensures
        final(m)@ == old(m)@ + server_words(*s),
{
    let ghost start = m@;
    proof {
        broadcast use {lemma_grows, lemma_grows_first};

        assert(m@ =~= grown(start, Seq::empty()));
    }
    m.family(
        "codesearch_build_info",
        Kind::Gauge,
        "Always 1; carries the codesearch version.",
    );
    sample_one(m, "codesearch_build_info", "version", s.version.as_str(), &Number::Whole(1));
    m.single(
        "codesearch_uptime_seconds",
        Kind::Gauge,
        "Seconds since serve started.",
        &Number::Billionths(s.uptime_nanos),
    );
    m.single(
        "codesearch_slo_seconds",
        Kind::Gauge,
        "Tool-call p95 latency SLO.",
        &Number::Thousandths(s.slo_ms),
    );
    m.single(
        "codesearch_read_target_seconds",
        Kind::Gauge,
        "Tool-call latency above which indexing yields.",
        &Number::Thousandths(s.read_target_ms),
    );
}

fn write_status(m: &mut Exposition, o: &Overall)
    ensures
        final(m)@ == old(m)@ + status_words(*o),
{
    let ghost start = m@;
    proof {
        broadcast use {lemma_grows, lemma_grows_first};

        assert(m@ =~= grown(start, Seq::empty()));
    }
    m.family(
        "codesearch_status",
        Kind::Gauge,
        "Overall health; the current status is 1. An unreachable serve is down (up == 0).",
    );
    let healthy: bool = match o.status {
        OverallStatus::Healthy => true,
        OverallStatus::Degraded => false,
    };
    let on: Number = flag(healthy);
    sample_one(m, "codesearch_status", "status", OverallStatus::Healthy.as_str(), &on);
    let off: Number = flag(!healthy);
    sample_one(m, "codesearch_status", "status", OverallStatus::Degraded.as_str(), &off);
    m.single(
        "codesearch_degraded_reasons",
        Kind::Gauge,
        "Reasons the overall status is degraded; the text is in /api/summary.",
        &Number::Whole(o.reasons.len() as u64),
    );
}

fn write_qos(m: &mut Exposition, s: &Scrape)
    ensures
        final(m)@ == old(m)@ + qos_words(*s),
{
    let ghost start = m@;
    proof {
        broadcast use {lemma_grows, lemma_grows_first};

        assert(m@ =~= grown(start, Seq::empty()));
    }
    m.family(
        "codesearch_qos_info",
        Kind::Gauge,
        "Always 1; carries the read-path and index-pool QoS classes.",
    );
    sample_two(
        m,
        "codesearch_qos_info",
        ("read", text_or_unset(&s.qos_read)),
        ("index", text_or_unset(&s.qos_index)),
        &Number::Whole(1),
    );
    m.single(
        "codesearch_index_threads",
        Kind::Gauge,
        "Threads in the index executor pool.",
        &Number::Whole(s.index_threads),
    );
}

/// The full `/metrics` body: an exposition, when the one number that comes as a text is a
/// number.
pub fn render(s: &Scrape) -> (r: String)
    ensures
        r@ == scrape_words(*s),
        shows_numbers(*s) ==> is_exposition(r@),
{
    let mut m: Exposition = Exposition::new();
    let ghost start = m@;
    proof {
        broadcast use {lemma_grows, lemma_grows_first};

        assert(m@ =~= grown(start, Seq::empty()));
    }
    write_server(&mut m, s);
    let _ = write_tool_calls(&mut m, &s.totals, &s.summaries, &s.known_tools);
    write_status(&mut m, &s.overall);
    write_governor(&mut m, &s.governor, &s.repos, &s.pressure_levels);
    write_qos(&mut m, s);
    write_repos(&mut m, &s.repos);
    m.family(
        "codesearch_index_events_total",
        Kind::Counter,
        "Index and governor events logged since serve started, by level.",
    );
    write_events(&mut m, &s.events);
    write_process(&mut m, s.usage);
    assert(m@ =~= scrape_words(*s)) by {
        assert(start + scrape_words(*s) =~= scrape_words(*s));
    }
    proof {
        if shows_numbers(*s) {
            law_a_scrape_is_an_exposition(*s);
        }
    }
    m.finish()
}

} // verus!
