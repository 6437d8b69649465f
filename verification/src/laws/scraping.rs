//! What a scrape tells, read back from its text.
use crate::exposition::fraction;
use crate::metrics::{
    alias_at, count_queued, count_status, has_status, is_queued, last_hour, last_hour_stats,
    pause_categories, pause_category, pause_reason, pause_reasons, paused_for, render,
    scrape_words, tool_rows, value_name, value_words, window_rows, window_summaries, windows,
    GovernorJob, RepoHealth, RepoValue, Scrape, WindowRowView,
    WindowSummary,
};
use crate::reader::{lemma_decimal_reads, lemma_fraction_reads, read_units, samples_named};
use crate::scrape::{
    is_repo_value, lemma_told_counts, lemma_told_events,
    lemma_told_failures, lemma_told_inputs, lemma_told_job_seconds, lemma_told_jobs,
    lemma_told_paused, lemma_told_percentile, lemma_told_process, lemma_told_repo_value,
    lemma_told_repos, lemma_told_server, lemma_told_status, quantile_sample, rows_of,
    shows_numbers, told,
};
use crate::telemetry::{
    age, calls_of, failures, recent, splits_by_tool, stats_of, LatencyRecorder, LatencyStats,
    SampleView,
    NANOS_PER_SEC,
};
use crate::text::{begins_with, decimal, digits_value, texts};
use vstd::prelude::*;

verus! {

/// Whether `name` names the window of so many seconds.
pub open spec fn is_window(name: Seq<char>, secs: int) -> bool {
    ||| name == "5m"@ && secs == 300
    ||| name == "1h"@ && secs == 3_600
    ||| name == "6h"@ && secs == 21_600
    ||| name == "24h"@ && secs == 86_400
}

/// Sifting twice is sifting once by both.
pub proof fn lemma_sifted_twice<A>(
    s: Seq<A>,
    f: spec_fn(A) -> bool,
    g: spec_fn(A) -> bool,
    h: spec_fn(A) -> bool,
)
    requires
        forall|x: A| #[trigger] h(x) == (f(x) && g(x)),
    ensures
        s.filter(f).filter(g) == s.filter(h),
    decreases s.len(),
{
    reveal(Seq::filter);
    if s.len() > 0 {
        lemma_sifted_twice(s.drop_last(), f, g, h);
        let x = s.last();
        assert(h(x) == (f(x) && g(x)));
        if f(x) {
            assert(s.drop_last().filter(f).push(x).drop_last() =~= s.drop_last().filter(f));
        }
    }
    assert(s.filter(f).filter(g) =~= s.filter(h));
}

/// Sifting leaves no more than there was.
pub proof fn lemma_sifted_is_shorter<A>(s: Seq<A>, f: spec_fn(A) -> bool)
    ensures
        s.filter(f).len() <= s.len(),
    decreases s.len(),
{
    reveal(Seq::filter);
    if s.len() > 0 {
        lemma_sifted_is_shorter(s.drop_last(), f);
    }
}

/// Sifting by tests that agree leaves the same.
pub proof fn lemma_sifted_alike<A>(s: Seq<A>, f: spec_fn(A) -> bool, g: spec_fn(A) -> bool)
    requires
        forall|x: A| #[trigger] f(x) == g(x),
    ensures
        s.filter(f) == s.filter(g),
    decreases s.len(),
{
    reveal(Seq::filter);
    if s.len() > 0 {
        lemma_sifted_alike(s.drop_last(), f, g);
        assert(f(s.last()) == g(s.last()));
    }
}

/// A row of the known tools is that of one of them.
proof fn lemma_tool_row(
    by_tool: Seq<(String, crate::telemetry::LatencyStats)>,
    window: Seq<char>,
    known: Seq<Seq<char>>,
    k: int,
) -> (j: int)
    requires
        0 <= k < tool_rows(by_tool, window, known).len(),
    ensures
        0 <= j < by_tool.len(),
        tool_rows(by_tool, window, known)[k] == (WindowRowView {
            tool: by_tool[j].0@,
            window,
            stats: by_tool[j].1,
        }),
        known.contains(by_tool[j].0@),
    decreases by_tool.len(),
{
    if by_tool.len() == 0 {
        0
    } else {
        let rest = tool_rows(by_tool.drop_last(), window, known);
        if k < rest.len() {
            lemma_tool_row(by_tool.drop_last(), window, known, k)
        } else {
            by_tool.len() - 1
        }
    }
}

/// A known tool has its row.
proof fn lemma_row_of_tool(
    by_tool: Seq<(String, crate::telemetry::LatencyStats)>,
    window: Seq<char>,
    known: Seq<Seq<char>>,
    j: int,
) -> (k: int)
    requires
        0 <= j < by_tool.len(),
        known.contains(by_tool[j].0@),
    ensures
        0 <= k < tool_rows(by_tool, window, known).len(),
        tool_rows(by_tool, window, known)[k] == (WindowRowView {
            tool: by_tool[j].0@,
            window,
            stats: by_tool[j].1,
        }),
    decreases by_tool.len(),
{
    let rest = tool_rows(by_tool.drop_last(), window, known);
    if j < by_tool.len() - 1 {
        lemma_row_of_tool(by_tool.drop_last(), window, known, j)
    } else {
        rest.len() as int
    }
}

/// A row is that of all calls of a window, or of a tool in it.
proof fn lemma_window_row(ws: Seq<WindowSummary>, known: Seq<Seq<char>>, k: int) -> (r: (int, int))
    requires
        0 <= k < window_rows(ws, known).len(),
    ensures
        0 <= r.0 < ws.len(),
        window_rows(ws, known)[k].window == ws[r.0].window@,
        r.1 < 0 ==> window_rows(ws, known)[k].tool == "all"@ && window_rows(ws, known)[k].stats
            == ws[r.0].summary.overall,
        r.1 >= 0 ==> r.1 < ws[r.0].summary.by_tool@.len() && window_rows(ws, known)[k].tool
            == ws[r.0].summary.by_tool@[r.1].0@ && window_rows(ws, known)[k].stats
            == ws[r.0].summary.by_tool@[r.1].1 && known.contains(
            ws[r.0].summary.by_tool@[r.1].0@,
        ),
    decreases ws.len(),
{
    if ws.len() == 0 {
        (0, 0)
    } else {
        let before = window_rows(ws.drop_last(), known);
        let w = ws.last();
        if k < before.len() {
            lemma_window_row(ws.drop_last(), known, k)
        } else if k == before.len() {
            (ws.len() - 1, -1)
        } else {
            let j = lemma_tool_row(w.summary.by_tool@, w.window@, known, k - before.len() - 1);
            (ws.len() - 1, j)
        }
    }
}

/// All calls of a window have their row, and so have those of a known tool.
proof fn lemma_row_of_window(
    ws: Seq<WindowSummary>,
    known: Seq<Seq<char>>,
    i: int,
    j: int,
) -> (k: int)
    requires
        0 <= i < ws.len(),
        j < ws[i].summary.by_tool@.len(),
        j >= 0 ==> known.contains(ws[i].summary.by_tool@[j].0@),
    ensures
        0 <= k < window_rows(ws, known).len(),
        window_rows(ws, known)[k].window == ws[i].window@,
        j < 0 ==> window_rows(ws, known)[k].tool == "all"@ && window_rows(ws, known)[k].stats
            == ws[i].summary.overall,
        j >= 0 ==> window_rows(ws, known)[k].tool == ws[i].summary.by_tool@[j].0@ && window_rows(
            ws,
            known,
        )[k].stats == ws[i].summary.by_tool@[j].1,
    decreases ws.len(),
{
    let before = window_rows(ws.drop_last(), known);
    let w = ws.last();
    if i < ws.len() - 1 {
        lemma_row_of_window(ws.drop_last(), known, i, j)
    } else if j < 0 {
        before.len() as int
    } else {
        let k = lemma_row_of_tool(w.summary.by_tool@, w.window@, known, j);
        before.len() + 1 + k
    }
}

/// The calls that finished in a window of so many seconds.
proof fn lemma_recent(calls: Seq<SampleView>, now: u128, secs: int)
    requires
        0 <= secs <= 86_400,
    ensures
        recent(calls, now, (secs * NANOS_PER_SEC) as u128) == calls.filter(
            |c: SampleView| now <= c.at + secs * 1_000_000_000,
        ),
{
    let window = (secs * NANOS_PER_SEC) as u128;
    lemma_sifted_alike(
        calls,
        |c: SampleView| age(now, c.at) <= window,
        |c: SampleView| now <= c.at + secs * 1_000_000_000,
    );
}

/// The summary of a window is that of the calls that finished in it.
proof fn lemma_summary(
    reads: LatencyRecorder,
    now: u128,
    ws: Vec<WindowSummary>,
    i: int,
    secs: int,
)
    requires
        call_ensures(window_summaries, (&reads, now), ws),
        0 <= i < ws@.len(),
        is_window(ws@[i].window@, secs),
    ensures
        ({
            let within = |c: SampleView| now <= c.at + secs * 1_000_000_000;
            &&& ws@[i].summary.overall == stats_of(reads@.filter(within))
            &&& splits_by_tool(reads@.filter(within), ws@[i].summary.by_tool@)
        }),
{
    reveal_strlit("5m");
    reveal_strlit("1h");
    reveal_strlit("6h");
    reveal_strlit("24h");
    assert(ws@[i].window@ == windows()[i].0);
    assert("5m"@[1] != "1h"@[1] && "1h"@[0] != "6h"@[0] && "24h"@.len() == 3 && "5m"@.len() == 2);
    assert(secs == windows()[i].1) by {
        if i == 0 {
        } else if i == 1 {
        } else if i == 2 {
        } else {
        }
    }
    assert((windows()[i].1 * NANOS_PER_SEC) as u128 == (secs * NANOS_PER_SEC) as u128);
    lemma_recent(reads@, now, secs);
}

/// The statistics of a row are those of the calls of its window, and of its tool.
pub proof fn lemma_row_stats(
    reads: LatencyRecorder,
    now: u128,
    ws: Vec<WindowSummary>,
    known: Seq<Seq<char>>,
    k: int,
    secs: int,
)
    requires
        reads@.len() <= usize::MAX,
        call_ensures(window_summaries, (&reads, now), ws),
        0 <= k < window_rows(ws@, known).len(),
        is_window(window_rows(ws@, known)[k].window, secs),
    ensures
        ({
            let r = window_rows(ws@, known)[k];
            let within = |c: SampleView| now <= c.at + secs * 1_000_000_000;
            let of_tool = |c: SampleView|
                now <= c.at + secs * 1_000_000_000 && c.tool == r.tool;
            &&& r.tool != "all"@ ==> known.contains(r.tool) && r.stats == stats_of(
                reads@.filter(of_tool),
            )
            &&& r.tool == "all"@ && !known.contains("all"@) ==> r.stats == stats_of(
                reads@.filter(within),
            )
        }),
{
    let r = window_rows(ws@, known)[k];
    let (i, j) = lemma_window_row(ws@, known, k);
    lemma_summary(reads, now, ws, i, secs);
    let within = |c: SampleView| now <= c.at + secs * 1_000_000_000;
    let of_tool = |c: SampleView| now <= c.at + secs * 1_000_000_000 && c.tool == r.tool;
    lemma_sifted_twice(reads@, within, |c: SampleView| c.tool == r.tool, of_tool);
    if j >= 0 {
        let by_tool = ws@[i].summary.by_tool@;
        assert(by_tool[j].1 == stats_of(calls_of(reads@.filter(within), by_tool[j].0@)));
    }
}

/// What is counted of calls, in plain numbers.
proof fn lemma_counts(calls: Seq<SampleView>, f: spec_fn(SampleView) -> bool)
    requires
        calls.len() <= usize::MAX,
    ensures
        stats_of(calls.filter(f)).count == calls.filter(f).len(),
        stats_of(calls.filter(f)).failures == calls.filter(
            |c: SampleView| f(c) && !c.ok,
        ).len(),
{
    lemma_sifted_is_shorter(calls, f);
    lemma_sifted_is_shorter(calls.filter(f), |c: SampleView| !c.ok);
    lemma_sifted_twice(
        calls,
        f,
        |c: SampleView| !c.ok,
        |c: SampleView| f(c) && !c.ok,
    );
}

/// In the body of a scrape, a sample of the failed calls of a window carries, for a tool, the
/// number of its calls that finished in that window and failed, and for `all`, the number of
/// all such calls. So a window of successful calls only reads 0.
pub proof fn law_window_failures_are_the_failed_calls(
    reads: LatencyRecorder,
    now: u128,
    ws: Vec<WindowSummary>,
    s: Scrape,
    text: String,
    k: int,
    secs: int,
)
    requires
        reads@.len() <= usize::MAX,
        call_ensures(window_summaries, (&reads, now), ws),
        s.summaries@ == ws@,
        shows_numbers(s),
        call_ensures(render, (&s,), text),
        0 <= k < samples_named(text@, "codesearch_tool_call_window_failures"@).len(),
        is_window(
            samples_named(text@, "codesearch_tool_call_window_failures"@)[k].labels[1].1,
            secs,
        ),
    ensures
        ({
            let x = samples_named(text@, "codesearch_tool_call_window_failures"@)[k];
            let tool = x.labels[0].1;
            &&& x.labels.len() == 2
            &&& x.labels[0].0 == "tool"@
            &&& x.labels[1].0 == "window"@
            &&& tool != "all"@ ==> digits_value(x.value) == reads@.filter(
                |c: SampleView| now <= c.at + secs * 1_000_000_000 && c.tool == tool && !c.ok,
            ).len()
            &&& tool == "all"@ && !texts(s.known_tools@).contains("all"@) ==> digits_value(x.value)
                == reads@.filter(
                |c: SampleView| now <= c.at + secs * 1_000_000_000 && !c.ok,
            ).len()
        }),
{
    lemma_told_counts(s);
    let r = rows_of(s)[k];
    lemma_row_stats(reads, now, ws, texts(s.known_tools@), k, secs);
    let x = samples_named(text@, "codesearch_tool_call_window_failures"@)[k];
    let tool = x.labels[0].1;
    assert(tool == r.tool);
    lemma_decimal_reads(r.stats.failures as nat);
    let within = |c: SampleView| now <= c.at + secs * 1_000_000_000;
    let of_tool = |c: SampleView| now <= c.at + secs * 1_000_000_000 && c.tool == tool;
    lemma_counts(reads@, within);
    lemma_counts(reads@, of_tool);
    lemma_sifted_alike(
        reads@,
        |c: SampleView| of_tool(c) && !c.ok,
        |c: SampleView| now <= c.at + secs * 1_000_000_000 && c.tool == tool && !c.ok,
    );
    lemma_sifted_alike(
        reads@,
        |c: SampleView| within(c) && !c.ok,
        |c: SampleView| now <= c.at + secs * 1_000_000_000 && !c.ok,
    );
}

/// A sample of the calls of a window carries, for a tool, the number of its calls that
/// finished in that window, and for `all`, the number of all calls.
pub proof fn law_window_calls_are_the_finished_calls(
    reads: LatencyRecorder,
    now: u128,
    ws: Vec<WindowSummary>,
    s: Scrape,
    text: String,
    k: int,
    secs: int,
)
    requires
        reads@.len() <= usize::MAX,
        call_ensures(window_summaries, (&reads, now), ws),
        s.summaries@ == ws@,
        shows_numbers(s),
        call_ensures(render, (&s,), text),
        0 <= k < samples_named(text@, "codesearch_tool_call_window_calls"@).len(),
        is_window(
            samples_named(text@, "codesearch_tool_call_window_calls"@)[k].labels[1].1,
            secs,
        ),
    ensures
        ({
            let x = samples_named(text@, "codesearch_tool_call_window_calls"@)[k];
            let tool = x.labels[0].1;
            &&& x.labels.len() == 2
            &&& x.labels[0].0 == "tool"@
            &&& x.labels[1].0 == "window"@
            &&& tool != "all"@ ==> digits_value(x.value) == reads@.filter(
                |c: SampleView| now <= c.at + secs * 1_000_000_000 && c.tool == tool,
            ).len()
            &&& tool == "all"@ && !texts(s.known_tools@).contains("all"@) ==> digits_value(x.value)
                == reads@.filter(|c: SampleView| now <= c.at + secs * 1_000_000_000).len()
        }),
{
    lemma_told_counts(s);
    let r = rows_of(s)[k];
    lemma_row_stats(reads, now, ws, texts(s.known_tools@), k, secs);
    let x = samples_named(text@, "codesearch_tool_call_window_calls"@)[k];
    let tool = x.labels[0].1;
    assert(tool == r.tool);
    lemma_decimal_reads(r.stats.count as nat);
    lemma_counts(reads@, |c: SampleView| now <= c.at + secs * 1_000_000_000);
    lemma_counts(
        reads@,
        |c: SampleView| now <= c.at + secs * 1_000_000_000 && c.tool == tool,
    );
}

/// For each of the four windows there is a sample of all calls, and one of all that failed.
pub proof fn law_each_window_is_told(
    reads: LatencyRecorder,
    now: u128,
    ws: Vec<WindowSummary>,
    s: Scrape,
    text: String,
    window: Seq<char>,
    secs: int,
)
    requires
        call_ensures(window_summaries, (&reads, now), ws),
        s.summaries@ == ws@,
        shows_numbers(s),
        call_ensures(render, (&s,), text),
        is_window(window, secs),
    ensures
        exists|k: int|
            0 <= k < samples_named(text@, "codesearch_tool_call_window_calls"@).len() && (
            #[trigger] samples_named(text@, "codesearch_tool_call_window_calls"@)[k]).labels
                == seq![("tool"@, "all"@), ("window"@, window)],
        exists|k: int|
            0 <= k < samples_named(text@, "codesearch_tool_call_window_failures"@).len() && (
            #[trigger] samples_named(text@, "codesearch_tool_call_window_failures"@)[k]).labels
                == seq![("tool"@, "all"@), ("window"@, window)],
{
    lemma_told_counts(s);
    let i = if window == "5m"@ {
        0int
    } else if window == "1h"@ {
        1
    } else if window == "6h"@ {
        2
    } else {
        3
    };
    assert(ws@[i].window@ == window);
    let k = lemma_row_of_window(ws@, texts(s.known_tools@), i, -1);
    assert(samples_named(text@, "codesearch_tool_call_window_calls"@)[k].labels == seq![
        ("tool"@, "all"@),
        ("window"@, window),
    ]);
    assert(samples_named(text@, "codesearch_tool_call_window_failures"@)[k].labels == seq![
        ("tool"@, "all"@),
        ("window"@, window),
    ]);
}

/// Each tool that was called is listed.
proof fn lemma_listed(
    calls: Seq<SampleView>,
    within: spec_fn(SampleView) -> bool,
    by_tool: Seq<(String, crate::telemetry::LatencyStats)>,
    c: int,
) -> (j: int)
    requires
        splits_by_tool(calls.filter(within), by_tool),
        0 <= c < calls.len(),
        within(calls[c]),
    ensures
        0 <= j < by_tool.len(),
        by_tool[j].0@ == calls[c].tool,
{
    let near = calls.filter(within);
    calls.lemma_filter_contains(within, c);
    assert(near.contains(calls[c]));
    let m = choose|m: int| 0 <= m < near.len() && near[m] == calls[c];
    assert(near[m].tool == calls[c].tool);
    choose|j: int| 0 <= j < by_tool.len() && (#[trigger] by_tool[j]).0@ == calls[c].tool
}

/// A known tool that was called in a window has its samples for that window.
pub proof fn law_each_known_tool_is_told(
    reads: LatencyRecorder,
    now: u128,
    ws: Vec<WindowSummary>,
    s: Scrape,
    text: String,
    window: Seq<char>,
    secs: int,
    c: int,
)
    requires
        call_ensures(window_summaries, (&reads, now), ws),
        s.summaries@ == ws@,
        shows_numbers(s),
        call_ensures(render, (&s,), text),
        is_window(window, secs),
        0 <= c < reads@.len(),
        now <= reads@[c].at + secs * 1_000_000_000,
        texts(s.known_tools@).contains(reads@[c].tool),
    ensures
        exists|k: int|
            0 <= k < samples_named(text@, "codesearch_tool_call_window_calls"@).len() && (
            #[trigger] samples_named(text@, "codesearch_tool_call_window_calls"@)[k]).labels
                == seq![("tool"@, reads@[c].tool), ("window"@, window)],
        exists|k: int|
            0 <= k < samples_named(text@, "codesearch_tool_call_window_failures"@).len() && (
            #[trigger] samples_named(text@, "codesearch_tool_call_window_failures"@)[k]).labels
                == seq![("tool"@, reads@[c].tool), ("window"@, window)],
{
    lemma_told_counts(s);
    let i = if window == "5m"@ {
        0int
    } else if window == "1h"@ {
        1
    } else if window == "6h"@ {
        2
    } else {
        3
    };
    assert(ws@[i].window@ == window);
    lemma_summary(reads, now, ws, i, secs);
    let tool = reads@[c].tool;
    let within = |x: SampleView| now <= x.at + secs * 1_000_000_000;
    let j = lemma_listed(reads@, within, ws@[i].summary.by_tool@, c);
    let k = lemma_row_of_window(ws@, texts(s.known_tools@), i, j);
    assert(samples_named(text@, "codesearch_tool_call_window_calls"@)[k].labels == seq![
        ("tool"@, tool),
        ("window"@, window),
    ]);
    assert(samples_named(text@, "codesearch_tool_call_window_failures"@)[k].labels == seq![
        ("tool"@, tool),
        ("window"@, window),
    ]);
}

/// The version, the uptime and the targets of a scrape read back as they were given: seconds
/// are told of nanoseconds and of milliseconds.
pub proof fn law_the_server_is_told(s: Scrape, text: String)
    requires
        shows_numbers(s),
        call_ensures(render, (&s,), text),
    ensures
        ({
            let info = samples_named(text@, "codesearch_build_info"@);
            &&& info.len() == 1
            &&& info[0].labels == seq![("version"@, s.version@)]
            &&& digits_value(info[0].value) == 1
        }),
        ({
            let up = samples_named(text@, "codesearch_uptime_seconds"@);
            &&& up.len() == 1
            &&& up[0].labels.len() == 0
            &&& read_units(up[0].value, 9) == s.uptime_nanos
        }),
        ({
            let slo = samples_named(text@, "codesearch_slo_seconds"@);
            &&& slo.len() == 1
            &&& slo[0].labels.len() == 0
            &&& read_units(slo[0].value, 3) == s.slo_ms
        }),
        ({
            let target = samples_named(text@, "codesearch_read_target_seconds"@);
            &&& target.len() == 1
            &&& target[0].labels.len() == 0
            &&& read_units(target[0].value, 3) == s.read_target_ms
        }),
{
    lemma_told_server(s);
    lemma_decimal_reads(1);
    lemma_fraction_reads(s.uptime_nanos as nat, 9);
    lemma_fraction_reads(s.slo_ms as nat, 3);
    lemma_fraction_reads(s.read_target_ms as nat, 3);
}

/// The failed calls of each tool, and the events of each level, read back as they were given.
pub proof fn law_totals_are_told(s: Scrape, text: String, i: int)
    requires
        shows_numbers(s),
        call_ensures(render, (&s,), text),
    ensures
        ({
            let t = samples_named(text@, "codesearch_tool_call_failures_total"@);
            &&& t.len() == s.totals@.len()
            &&& 0 <= i < t.len() ==> t[i].labels == seq![("tool"@, s.totals@[i].tool@)]
                && digits_value(t[i].value) == s.totals@[i].failures
        }),
        ({
            let t = samples_named(text@, "codesearch_index_events_total"@);
            &&& t.len() == s.events@.len()
            &&& 0 <= i < t.len() ==> t[i].labels == seq![("level"@, s.events@[i].level@)]
                && digits_value(t[i].value) == s.events@[i].total
        }),
{
    lemma_told_failures(s);
    lemma_told_events(s);
    lemma_decimal_reads(s.totals@[i].failures as nat);
    lemma_decimal_reads(s.events@[i].total as nat);
}

/// Of the two states of the overall health the current one reads 1 and the other 0; and as
/// many reasons are told as there are.
pub proof fn law_the_overall_health_is_told(s: Scrape, text: String)
    requires
        shows_numbers(s),
        call_ensures(render, (&s,), text),
    ensures
        ({
            let t = samples_named(text@, "codesearch_status"@);
            &&& t.len() == 2
            &&& t[0].labels == seq![("status"@, "ok"@)]
            &&& t[1].labels == seq![("status"@, "degraded"@)]
            &&& s.overall.status is Healthy ==> digits_value(t[0].value) == 1 && digits_value(
                t[1].value,
            ) == 0
            &&& s.overall.status is Degraded ==> digits_value(t[0].value) == 0 && digits_value(
                t[1].value,
            ) == 1
        }),
        ({
            let t = samples_named(text@, "codesearch_degraded_reasons"@);
            &&& t.len() == 1
            &&& t[0].labels.len() == 0
            &&& digits_value(t[0].value) == s.overall.reasons@.len()
        }),
{
    lemma_told_status(s);
    lemma_decimal_reads(0);
    lemma_decimal_reads(1);
    lemma_decimal_reads(s.overall.reasons@.len());
}

/// The scheduling classes, the threads, and the memory and CPU time of the process read back
/// as they were given; nothing is told of a process whose usage is not known.
pub proof fn law_the_process_is_told(s: Scrape, text: String)
    requires
        shows_numbers(s),
        call_ensures(render, (&s,), text),
    ensures
        ({
            let t = samples_named(text@, "codesearch_qos_info"@);
            &&& t.len() == 1
            &&& t[0].labels.len() == 2
            &&& t[0].labels[0].0 == "read"@
            &&& t[0].labels[1].0 == "index"@
            &&& s.qos_read matches Some(q) ==> t[0].labels[0].1 == q@
            &&& s.qos_read is None ==> t[0].labels[0].1 == "unset"@
            &&& s.qos_index matches Some(q) ==> t[0].labels[1].1 == q@
            &&& s.qos_index is None ==> t[0].labels[1].1 == "unset"@
            &&& digits_value(t[0].value) == 1
        }),
        ({
            let t = samples_named(text@, "codesearch_index_threads"@);
            t.len() == 1 && t[0].labels.len() == 0 && digits_value(t[0].value) == s.index_threads
        }),
        ({
            let t = samples_named(text@, "process_resident_memory_bytes"@);
            match s.usage {
                Some(u) => t.len() == 1 && t[0].labels.len() == 0 && digits_value(t[0].value)
                    == u.memory_bytes,
                None => t.len() == 0,
            }
        }),
        ({
            let t = samples_named(text@, "process_cpu_seconds_total"@);
            match s.usage {
                Some(u) => t.len() == 1 && t[0].labels.len() == 0 && read_units(t[0].value, 3)
                    == u.cpu_ms,
                None => t.len() == 0,
            }
        }),
{
    lemma_told_process(s);
    lemma_decimal_reads(1);
    lemma_decimal_reads(s.index_threads as nat);
    match s.usage {
        Some(u) => {
            lemma_decimal_reads(u.memory_bytes as nat);
            lemma_fraction_reads(u.cpu_ms as nat, 3);
        },
        None => {},
    }
}

/// As many jobs are told to run and to wait as do, beside how many may run.
pub proof fn law_jobs_are_counted(s: Scrape, text: String)
    requires
        shows_numbers(s),
        call_ensures(render, (&s,), text),
    ensures
        ({
            let t = samples_named(text@, "codesearch_index_governor_max_jobs"@);
            t.len() == 1 && t[0].labels.len() == 0 && digits_value(t[0].value)
                == s.governor.max_jobs
        }),
        ({
            let t = samples_named(text@, "codesearch_index_governor_jobs"@);
            &&& t.len() == 2
            &&& t[0].labels.len() == 1 && t[0].labels[0] == ("state"@, "running"@)
            &&& t[1].labels.len() == 1 && t[1].labels[0] == ("state"@, "waiting"@)
            &&& digits_value(t[0].value) == s.governor.running@.len()
            &&& digits_value(t[1].value) == s.governor.waiting@.len()
        }),
{
    lemma_told_jobs(s);
    lemma_decimal_reads(s.governor.max_jobs as nat);
    lemma_decimal_reads(s.governor.running@.len());
    lemma_decimal_reads(s.governor.waiting@.len());
}

proof fn lemma_alias(repos: Seq<RepoHealth>, path: Seq<char>, i: int)
    requires
        0 <= i < repos.len(),
        repos[i].path@ == path,
        forall|j: int| i < j < repos.len() ==> (#[trigger] repos[j]).path@ != path,
    ensures
        alias_at(repos, path) == repos[i].alias@,
    decreases repos.len(),
{
    if i < repos.len() - 1 {
        assert(repos[repos.len() - 1].path@ != path);
        lemma_alias(repos.drop_last(), path, i);
    }
}

proof fn lemma_no_alias(repos: Seq<RepoHealth>, path: Seq<char>)
    requires
        forall|j: int| 0 <= j < repos.len() ==> (#[trigger] repos[j]).path@ != path,
    ensures
        alias_at(repos, path) == "unregistered"@,
    decreases repos.len(),
{
    if repos.len() > 0 {
        assert(repos[repos.len() - 1].path@ != path);
        lemma_no_alias(repos.drop_last(), path);
    }
}

/// Each job is told once, those that run before those that wait, with its priority, its
/// seconds, and the alias of the repository at its path: `unregistered`, where there is none.
pub proof fn law_each_job_is_told(s: Scrape, text: String, i: int, r: int)
    requires
        shows_numbers(s),
        call_ensures(render, (&s,), text),
        0 <= i < s.governor.running@.len() + s.governor.waiting@.len(),
    ensures
        ({
            let t = samples_named(text@, "codesearch_index_governor_job_seconds"@);
            let n = s.governor.running@.len();
            let job = if i < n {
                s.governor.running@[i]
            } else {
                s.governor.waiting@[i - n]
            };
            &&& t.len() == n + s.governor.waiting@.len()
            &&& t[i].labels.len() == 3
            &&& t[i].labels[0].0 == "repo"@
            &&& t[i].labels[1] == ("priority"@, job.priority@)
            &&& i < n ==> t[i].labels[2] == ("state"@, "running"@)
            &&& i >= n ==> t[i].labels[2] == ("state"@, "waiting"@)
            &&& digits_value(t[i].value) == job.secs
            &&& 0 <= r < s.repos@.len() && s.repos@[r].path@ == job.label@ && (forall|j: int|
                r < j < s.repos@.len() ==> (#[trigger] s.repos@[j]).path@ != job.label@)
                ==> t[i].labels[0].1 == s.repos@[r].alias@
            &&& (forall|j: int|
                0 <= j < s.repos@.len() ==> (#[trigger] s.repos@[j]).path@ != job.label@)
                ==> t[i].labels[0].1 == "unregistered"@
        }),
{
    lemma_told_job_seconds(s);
    let n = s.governor.running@.len();
    let job = if i < n {
        s.governor.running@[i]
    } else {
        s.governor.waiting@[i - n]
    };
    let t = samples_named(text@, "codesearch_index_governor_job_seconds"@);
    assert(t[i].labels[0].1 == alias_at(s.repos@, job.label@));
    lemma_decimal_reads(job.secs as nat);
    if 0 <= r < s.repos@.len() && s.repos@[r].path@ == job.label@ && (forall|j: int|
        r < j < s.repos@.len() ==> (#[trigger] s.repos@[j]).path@ != job.label@) {
        lemma_alias(s.repos@, job.label@, r);
    }
    if forall|j: int| 0 <= j < s.repos@.len() ==> (#[trigger] s.repos@[j]).path@ != job.label@ {
        lemma_no_alias(s.repos@, job.label@);
    }
}

/// For each reason as many jobs are told as run and are paused for it.
pub proof fn law_paused_jobs_are_counted(s: Scrape, text: String)
    requires
        shows_numbers(s),
        call_ensures(render, (&s,), text),
    ensures
        ({
            let t = samples_named(text@, "codesearch_index_governor_paused_jobs"@);
            let running = s.governor.running@;
            &&& t.len() == 5
            &&& t[0].labels == seq![("reason"@, "read_latency"@)]
            &&& digits_value(t[0].value) == running.filter(
                |j: GovernorJob| j.paused matches Some(r) && begins_with(r@, "a tool call took"@),
            ).len()
            &&& t[1].labels == seq![("reason"@, "memory_pressure"@)]
            &&& digits_value(t[1].value) == running.filter(
                |j: GovernorJob| j.paused matches Some(r) && begins_with(r@, "memory pressure"@),
            ).len()
            &&& t[2].labels == seq![("reason"@, "cpu"@)]
            &&& digits_value(t[2].value) == running.filter(
                |j: GovernorJob| j.paused matches Some(r) && begins_with(r@, "other processes"@),
            ).len()
            &&& t[3].labels == seq![("reason"@, "battery"@)]
            &&& digits_value(t[3].value) == running.filter(
                |j: GovernorJob| j.paused matches Some(r) && r@ == "on battery"@,
            ).len()
            &&& t[4].labels == seq![("reason"@, "other"@)]
            &&& digits_value(t[0].value) + digits_value(t[1].value) + digits_value(t[2].value)
                + digits_value(t[3].value) + digits_value(t[4].value) == running.filter(
                |j: GovernorJob| j.paused is Some,
            ).len()
        }),
{
    lemma_told_paused(s);
    let running = s.governor.running@;
    lemma_pause_reasons_differ();
    lemma_sifted_alike(
        running,
        paused_for("read_latency"@),
        |j: GovernorJob| j.paused matches Some(r) && begins_with(r@, "a tool call took"@),
    );
    lemma_sifted_alike(
        running,
        paused_for("memory_pressure"@),
        |j: GovernorJob| j.paused matches Some(r) && begins_with(r@, "memory pressure"@),
    );
    lemma_sifted_alike(
        running,
        paused_for("cpu"@),
        |j: GovernorJob| j.paused matches Some(r) && begins_with(r@, "other processes"@),
    );
    lemma_sifted_alike(
        running,
        paused_for("battery"@),
        |j: GovernorJob| j.paused matches Some(r) && r@ == "on battery"@,
    );
    lemma_paused_add_up(running);
    let all = pause_categories();
    assert(all[0] == "read_latency"@ && all[1] == "memory_pressure"@ && all[2] == "cpu"@ && all[3]
        == "battery"@ && all[4] == "other"@ && all.len() == 5);
    lemma_decimal_reads(running.filter(paused_for(all[0])).len());
    lemma_decimal_reads(running.filter(paused_for(all[1])).len());
    lemma_decimal_reads(running.filter(paused_for(all[2])).len());
    lemma_decimal_reads(running.filter(paused_for(all[3])).len());
    lemma_decimal_reads(running.filter(paused_for(all[4])).len());
}

/// No reason begins, or is written, in two of the ways that a pause is told by.
proof fn lemma_pause_reasons_differ()
    ensures
        forall|r: Seq<char>|
            #![trigger pause_category(r)]
            {
                &&& pause_category(r) == "read_latency"@ <==> begins_with(r, "a tool call took"@)
                &&& pause_category(r) == "memory_pressure"@ <==> begins_with(r, "memory pressure"@)
                &&& pause_category(r) == "cpu"@ <==> begins_with(r, "other processes"@)
                &&& pause_category(r) == "battery"@ <==> r == "on battery"@
            },
        "read_latency"@ != "memory_pressure"@ && "read_latency"@ != "cpu"@ && "read_latency"@
            != "battery"@ && "read_latency"@ != "other"@,
        "memory_pressure"@ != "cpu"@ && "memory_pressure"@ != "battery"@ && "memory_pressure"@
            != "other"@,
        "cpu"@ != "battery"@ && "cpu"@ != "other"@ && "battery"@ != "other"@,
{
    reveal_strlit("a tool call took");
    reveal_strlit("memory pressure");
    reveal_strlit("other processes");
    reveal_strlit("on battery");
    reveal_strlit("read_latency");
    reveal_strlit("memory_pressure");
    reveal_strlit("cpu");
    reveal_strlit("battery");
    reveal_strlit("other");
    assert("read_latency"@.len() == 12 && "memory_pressure"@.len() == 15 && "cpu"@.len() == 3
        && "battery"@.len() == 7 && "other"@.len() == 5);
    assert("a tool call took"@[0] == 'a' && "memory pressure"@[0] == 'm' && "other processes"@[0]
        == 'o' && "other processes"@[1] == 't' && "on battery"@[0] == 'o' && "on battery"@[1]
        == 'n');
    assert forall|r: Seq<char>|
        #![trigger pause_category(r)]
        {
            &&& pause_category(r) == "read_latency"@ <==> begins_with(r, "a tool call took"@)
            &&& pause_category(r) == "memory_pressure"@ <==> begins_with(r, "memory pressure"@)
            &&& pause_category(r) == "cpu"@ <==> begins_with(r, "other processes"@)
            &&& pause_category(r) == "battery"@ <==> r == "on battery"@
        } by {
        if begins_with(r, "a tool call took"@) {
            assert(r[0] == 'a');
        }
        if begins_with(r, "memory pressure"@) {
            assert(r[0] == 'm');
        }
        if begins_with(r, "other processes"@) {
            assert(r[0] == 'o' && r[1] == 't');
        }
    }
}

proof fn lemma_paused_add_up(running: Seq<GovernorJob>)
    ensures
        running.filter(paused_for("read_latency"@)).len() + running.filter(
            paused_for("memory_pressure"@),
        ).len() + running.filter(paused_for("cpu"@)).len() + running.filter(
            paused_for("battery"@),
        ).len() + running.filter(paused_for("other"@)).len() == running.filter(
            |j: GovernorJob| j.paused is Some,
        ).len(),
    decreases running.len(),
{
    reveal(Seq::filter);
    if running.len() > 0 {
        lemma_paused_add_up(running.drop_last());
        lemma_pause_reasons_differ();
        let j = running.last();
        if let Some(r) = j.paused {
            assert(pause_category(r@) == "read_latency"@ || pause_category(r@)
                == "memory_pressure"@ || pause_category(r@) == "cpu"@ || pause_category(r@)
                == "battery"@ || pause_category(r@) == "other"@);
        }
    }
}

/// What the governor goes by is told where it is known: the slowest recent call in seconds,
/// the share of the other processes, 1 on battery and 0 off it, and of the levels of memory
/// pressure 1 for the current one and 0 for the others.
pub proof fn law_governor_inputs_are_told(s: Scrape, text: String, i: int)
    requires
        shows_numbers(s),
        call_ensures(render, (&s,), text),
    ensures
        ({
            let t = samples_named(text@, "codesearch_index_governor_recent_read_max_seconds"@);
            match s.governor.inputs.recent_read_max_ms {
                Some(ms) => t.len() == 1 && t[0].labels.len() == 0 && read_units(t[0].value, 3)
                    == ms,
                None => t.len() == 0,
            }
        }),
        ({
            let t = samples_named(text@, "codesearch_index_governor_other_cpu_ratio"@);
            match s.governor.inputs.other_cpu_ratio {
                Some(r) => t.len() == 1 && t[0].labels.len() == 0 && t[0].value == r@,
                None => t.len() == 0,
            }
        }),
        ({
            let t = samples_named(text@, "codesearch_index_governor_on_battery"@);
            match s.governor.inputs.on_battery {
                Some(true) => t.len() == 1 && t[0].labels.len() == 0 && digits_value(t[0].value)
                    == 1,
                Some(false) => t.len() == 1 && t[0].labels.len() == 0 && digits_value(t[0].value)
                    == 0,
                None => t.len() == 0,
            }
        }),
        ({
            let t = samples_named(text@, "codesearch_index_governor_memory_pressure"@);
            match s.governor.inputs.memory_pressure {
                Some(current) => {
                    &&& t.len() == s.pressure_levels@.len()
                    &&& 0 <= i < t.len() ==> t[i].labels == seq![
                        ("level"@, s.pressure_levels@[i]@),
                    ]
                    &&& 0 <= i < t.len() && s.pressure_levels@[i]@ == current@ ==> digits_value(
                        t[i].value,
                    ) == 1
                    &&& 0 <= i < t.len() && s.pressure_levels@[i]@ != current@ ==> digits_value(
                        t[i].value,
                    ) == 0
                },
                None => t.len() == 0,
            }
        }),
{
    lemma_told_inputs(s);
    lemma_decimal_reads(0);
    lemma_decimal_reads(1);
    if let Some(ms) = s.governor.inputs.recent_read_max_ms {
        lemma_fraction_reads(ms as nat, 3);
    }
}

/// As many repositories are told as there are, as are being indexed, as fail and as wait; and
/// each is told with its path and its status.
pub proof fn law_repos_are_counted(s: Scrape, text: String, i: int)
    requires
        shows_numbers(s),
        call_ensures(render, (&s,), text),
    ensures
        ({
            let t = samples_named(text@, "codesearch_repos"@);
            t.len() == 1 && t[0].labels.len() == 0 && digits_value(t[0].value) == s.repos@.len()
        }),
        ({
            let t = samples_named(text@, "codesearch_repos_indexing"@);
            t.len() == 1 && t[0].labels.len() == 0 && digits_value(t[0].value) == s.repos@.filter(
                |r: RepoHealth| r.status@ == "indexing"@,
            ).len()
        }),
        ({
            let t = samples_named(text@, "codesearch_repos_failing"@);
            t.len() == 1 && t[0].labels.len() == 0 && digits_value(t[0].value) == s.repos@.filter(
                |r: RepoHealth| r.status@ == "failing"@,
            ).len()
        }),
        ({
            let t = samples_named(text@, "codesearch_repos_queued"@);
            t.len() == 1 && t[0].labels.len() == 0 && digits_value(t[0].value) == s.repos@.filter(
                |r: RepoHealth| r.queued,
            ).len()
        }),
        ({
            let t = samples_named(text@, "codesearch_repo_info"@);
            &&& t.len() == s.repos@.len()
            &&& 0 <= i < t.len() ==> t[i].labels == seq![
                ("repo"@, s.repos@[i].alias@),
                ("path"@, s.repos@[i].path@),
                ("status"@, s.repos@[i].status@),
            ] && digits_value(t[i].value) == 1
        }),
{
    lemma_told_repos(s);
    lemma_decimal_reads(1);
    lemma_decimal_reads(s.repos@.len());
    lemma_decimal_reads(s.repos@.filter(has_status("indexing"@)).len());
    lemma_decimal_reads(s.repos@.filter(has_status("failing"@)).len());
    lemma_decimal_reads(s.repos@.filter(is_queued()).len());
    lemma_sifted_alike(
        s.repos@,
        has_status("indexing"@),
        |r: RepoHealth| r.status@ == "indexing"@,
    );
    lemma_sifted_alike(s.repos@, has_status("failing"@), |r: RepoHealth| r.status@ == "failing"@);
    lemma_sifted_alike(s.repos@, is_queued(), |r: RepoHealth| r.queued);
}

/// Whether a sample tells `units` of the repository, in units of that decimal place.
pub open spec fn tells_of(t: Seq<crate::grammar::SampleView>, alias: Seq<char>, units: int, places: nat) -> bool {
    exists|k: int|
        0 <= k < t.len() && (#[trigger] t[k]).labels == seq![("repo"@, alias)] && read_units(
            t[k].value,
            places,
        ) == units
}

proof fn lemma_tells_of(
    s: Scrape,
    v: RepoValue,
    i: int,
    units: nat,
    places: nat,
)
    requires
        shows_numbers(s),
        0 <= i < s.repos@.len(),
        value_words(v, s.repos@[i]) == Some(fraction(units, places)),
    ensures
        tells_of(
            samples_named(scrape_words(s), value_name(v)),
            s.repos@[i].alias@,
            units as int,
            places,
        ),
{
    lemma_told_repo_value(s, v);
    lemma_fraction_reads(units, places);
    let x = crate::grammar::SampleView {
        name: value_name(v),
        labels: seq![("repo"@, s.repos@[i].alias@)],
        value: value_words(v, s.repos@[i])->0,
    };
    let t = samples_named(scrape_words(s), value_name(v));
    assert(t.contains(x));
    let k = choose|k: int| 0 <= k < t.len() && t[k] == x;
    assert(t[k].labels == seq![("repo"@, s.repos@[i].alias@)]);
}

/// Of each repository its last successful index job, the duration of the last one, its
/// failures since, its pending changes, whether it is being indexed and whether it waits are
/// told under their names.
pub proof fn law_each_repo_is_told(s: Scrape, text: String, i: int)
    requires
        shows_numbers(s),
        call_ensures(render, (&s,), text),
        0 <= i < s.repos@.len(),
    ensures
        ({
            let r = s.repos@[i];
            &&& r.outcome.indexed_at_ms matches Some(ms) ==> tells_of(
                samples_named(text@, "codesearch_repo_last_indexed_timestamp_seconds"@),
                r.alias@,
                ms as int,
                3,
            )
            &&& r.outcome.duration_ms matches Some(ms) ==> tells_of(
                samples_named(text@, "codesearch_repo_last_index_duration_seconds"@),
                r.alias@,
                ms as int,
                3,
            )
            &&& tells_of(
                samples_named(text@, "codesearch_repo_index_consecutive_failures"@),
                r.alias@,
                r.outcome.failures as int,
                0,
            )
            &&& tells_of(
                samples_named(text@, "codesearch_repo_pending_changes"@),
                r.alias@,
                r.changes as int,
                0,
            )
            &&& r.status@ == "indexing"@ ==> tells_of(
                samples_named(text@, "codesearch_repo_indexing"@),
                r.alias@,
                1,
                0,
            )
            &&& r.status@ != "indexing"@ ==> tells_of(
                samples_named(text@, "codesearch_repo_indexing"@),
                r.alias@,
                0,
                0,
            )
            &&& r.queued ==> tells_of(
                samples_named(text@, "codesearch_repo_queued"@),
                r.alias@,
                1,
                0,
            )
            &&& !r.queued ==> tells_of(
                samples_named(text@, "codesearch_repo_queued"@),
                r.alias@,
                0,
                0,
            )
        }),
{
    let r = s.repos@[i];
    if let Some(ms) = r.outcome.indexed_at_ms {
        lemma_tells_of(s, RepoValue::LastIndexed, i, ms as nat, 3);
    }
    if let Some(ms) = r.outcome.duration_ms {
        lemma_tells_of(s, RepoValue::LastDuration, i, ms as nat, 3);
    }
    lemma_tells_of(s, RepoValue::Failures, i, r.outcome.failures as nat, 0);
    lemma_tells_of(s, RepoValue::PendingChanges, i, r.changes as nat, 0);
    let on: nat = if r.status@ == "indexing"@ {
        1
    } else {
        0
    };
    lemma_tells_of(s, RepoValue::Indexing, i, on, 0);
    let waits: nat = if r.queued {
        1
    } else {
        0
    };
    lemma_tells_of(s, RepoValue::Queued, i, waits, 0);
}

/// What is told of an index job that ended is told of a repository that had one.
pub proof fn law_no_index_job_is_made_up(s: Scrape, text: String, k: int)
    requires
        shows_numbers(s),
        call_ensures(render, (&s,), text),
    ensures
        ({
            let t = samples_named(text@, "codesearch_repo_last_indexed_timestamp_seconds"@);
            0 <= k < t.len() ==> exists|i: int|
                0 <= i < s.repos@.len() && t[k].labels == seq![
                    ("repo"@, (#[trigger] s.repos@[i]).alias@),
                ] && s.repos@[i].outcome.indexed_at_ms is Some && read_units(t[k].value, 3)
                    == s.repos@[i].outcome.indexed_at_ms->0
        }),
        ({
            let t = samples_named(text@, "codesearch_repo_last_index_duration_seconds"@);
            0 <= k < t.len() ==> exists|i: int|
                0 <= i < s.repos@.len() && t[k].labels == seq![
                    ("repo"@, (#[trigger] s.repos@[i]).alias@),
                ] && s.repos@[i].outcome.duration_ms is Some && read_units(t[k].value, 3)
                    == s.repos@[i].outcome.duration_ms->0
        }),
{
    lemma_told_repo_value(s, RepoValue::LastIndexed);
    lemma_told_repo_value(s, RepoValue::LastDuration);
    let a = samples_named(text@, "codesearch_repo_last_indexed_timestamp_seconds"@);
    if 0 <= k < a.len() {
        assert(is_repo_value(s.repos@, RepoValue::LastIndexed, told(s, value_name(RepoValue::LastIndexed))[k]));
        let i = choose|i: int|
            0 <= i < s.repos@.len() && a[k].labels == seq![
                ("repo"@, (#[trigger] s.repos@[i]).alias@),
            ] && value_words(RepoValue::LastIndexed, s.repos@[i]) == Some(a[k].value);
        lemma_fraction_reads(s.repos@[i].outcome.indexed_at_ms->0 as nat, 3);
    }
    let b = samples_named(text@, "codesearch_repo_last_index_duration_seconds"@);
    if 0 <= k < b.len() {
        assert(is_repo_value(s.repos@, RepoValue::LastDuration, told(s, value_name(RepoValue::LastDuration))[k]));
        let i = choose|i: int|
            0 <= i < s.repos@.len() && b[k].labels == seq![
                ("repo"@, (#[trigger] s.repos@[i]).alias@),
            ] && value_words(RepoValue::LastDuration, s.repos@[i]) == Some(b[k].value);
        lemma_fraction_reads(s.repos@[i].outcome.duration_ms->0 as nat, 3);
    }
}

/// The statistics that the overall health is judged by are those of all calls that finished
/// within the last hour.
pub proof fn law_the_last_hour(
    reads: LatencyRecorder,
    now: u128,
    ws: Vec<WindowSummary>,
    r: LatencyStats,
)
    requires
        reads@.len() <= usize::MAX,
        call_ensures(window_summaries, (&reads, now), ws),
        call_ensures(last_hour_stats, (&ws,), r),
    ensures
        r.count == reads@.filter(|c: SampleView| now <= c.at + 3_600_000_000_000).len(),
        r.failures == reads@.filter(
            |c: SampleView| now <= c.at + 3_600_000_000_000 && !c.ok,
        ).len(),
{
    reveal_strlit("5m");
    reveal_strlit("1h");
    assert(ws@[0].window@ == windows()[0].0);
    assert(ws@[1].window@ == windows()[1].0);
    assert("5m"@[1] != "1h"@[1]);
    assert(ws@.drop_first()[0] == ws@[1]);
    reveal_with_fuel(last_hour, 3);
    assert(r == ws@[1].summary.overall);
    lemma_summary(reads, now, ws, 1, 3_600);
    let within = |c: SampleView| now <= c.at + 3_600 * 1_000_000_000;
    lemma_counts(reads@, within);
    lemma_sifted_alike(reads@, within, |c: SampleView| now <= c.at + 3_600_000_000_000);
    lemma_sifted_alike(
        reads@,
        |c: SampleView| within(c) && !c.ok,
        |c: SampleView| now <= c.at + 3_600_000_000_000 && !c.ok,
    );
}

/// A pause is told by how its reason begins.
pub proof fn law_reasons_of_pauses(reason: &str, r: &'static str)
    requires
        call_ensures(pause_reason, (reason,), r),
    ensures
        r@ == "read_latency"@ <==> begins_with(reason@, "a tool call took"@),
        r@ == "memory_pressure"@ <==> begins_with(reason@, "memory pressure"@),
        r@ == "cpu"@ <==> begins_with(reason@, "other processes"@),
        r@ == "battery"@ <==> reason@ == "on battery"@,
        r@ == "read_latency"@ || r@ == "memory_pressure"@ || r@ == "cpu"@ || r@ == "battery"@ || r@
            == "other"@,
{
    lemma_pause_reasons_differ();
    assert(r@ == pause_category(reason@));
}

/// Repositories are counted by their status, and by whether they wait.
pub proof fn law_counting_repositories(
    repos: Vec<RepoHealth>,
    status: &str,
    n: usize,
    waiting: usize,
)
    requires
        call_ensures(count_status, (&repos, status), n),
        call_ensures(count_queued, (&repos,), waiting),
    ensures
        n == repos@.filter(|r: RepoHealth| r.status@ == status@).len(),
        waiting == repos@.filter(|r: RepoHealth| r.queued).len(),
{
    lemma_sifted_alike(repos@, has_status(status@), |r: RepoHealth| r.status@ == status@);
    lemma_sifted_alike(repos@, is_queued(), |r: RepoHealth| r.queued);
}

/// Each name that a pause can have stands once among the names of the pauses.
pub proof fn law_the_names_of_pauses(
    all: Vec<&'static str>,
    reason: &str,
    r: &'static str,
    i: int,
    j: int,
)
    requires
        call_ensures(pause_reasons, (), all),
        call_ensures(pause_reason, (reason,), r),
    ensures
        all@.len() == 5,
        exists|k: int| 0 <= k < all@.len() && (#[trigger] all@[k])@ == r@,
        0 <= i < j < all@.len() ==> all@[i]@ != all@[j]@,
{
    lemma_pause_reasons_differ();
    let names = all@.map_values(|s: &'static str| s@);
    assert(names.len() == 5);
    assert forall|k: int| 0 <= k < 5 implies names[k] == (#[trigger] all@[k])@ by {}
    assert(all@[0]@ == "read_latency"@);
    assert(all@[1]@ == "memory_pressure"@);
    assert(all@[2]@ == "cpu"@);
    assert(all@[3]@ == "battery"@);
    assert(all@[4]@ == "other"@);
    law_reasons_of_pauses(reason, r);
}

} // verus!
