//! What is recorded of tool calls, and what is told of their durations.
use crate::laws::scraping::{
    is_window, lemma_row_stats, lemma_sifted_alike, lemma_sifted_is_shorter, lemma_sifted_twice,
};
use crate::metrics::{render, window_rows, window_summaries, Scrape, WindowRowView, WindowSummary};
use crate::order::{ascending, lemma_ascending};
use crate::reader::{lemma_fraction_reads, read_units, samples_named};
use crate::scrape::{
    lemma_percentile_is_told, lemma_told_counts, lemma_told_percentile, quantile_sample, rows_of,
    shows_numbers,
};
use crate::telemetry::{
    age, age_of, bucket_count, bucket_width, calls_of, calls_tool, dropped_front, durations, in_bucket, interactive_tools,
    law_latest_samples_are_kept, law_nearest_rank, law_recorder_is_bounded, lists_tool, rank,
    recent, record_tool_call, slowest, splits_by_tool, stats_of, to_ms, unix_ms_at, views,
    whole_ms, LatencyBucket, LatencyRecorder, LatencyStats, LatencySummary, Sample, SampleView,
};
use crate::text::texts;
use vstd::prelude::*;

verus! {

/// Whether `v` is the nearest-rank `p`-th percentile of the durations of `calls`: at least `p`
/// percent of them took at most so long, and fewer took less. No calls have none.
#[verifier::opaque]
pub open spec fn is_percentile(calls: Seq<SampleView>, p: int, v: Option<u64>) -> bool {
    match v {
        Some(ms) => {
            &&& calls.len() > 0
            &&& 100 * calls.filter(|c: SampleView| c.ms <= ms).len() >= p * calls.len()
            &&& 100 * calls.filter(|c: SampleView| c.ms < ms).len() < p * calls.len()
        },
        None => calls.len() == 0,
    }
}

proof fn lemma_without_one(a: Seq<u64>, i: int, f: spec_fn(u64) -> bool)
    requires
        0 <= i < a.len(),
    ensures
        a.filter(f).len() == a.remove(i).filter(f).len() + (if f(a[i]) {
            1int
        } else {
            0
        }),
{
    let left = a.take(i);
    let one = seq![a[i]];
    let right = a.skip(i + 1);
    assert(a =~= (left + one) + right);
    assert(a.remove(i) =~= left + right);
    Seq::filter_distributes_over_add(left + one, right, f);
    Seq::filter_distributes_over_add(left, one, f);
    Seq::filter_distributes_over_add(left, right, f);
    if f(a[i]) {
        lemma_all_pass(one, f);
    } else {
        lemma_none_pass(one, f);
    }
}

/// As many pass a test, in whatever order they stand.
proof fn lemma_order_does_not_count(a: Seq<u64>, b: Seq<u64>, f: spec_fn(u64) -> bool)
    requires
        a.to_multiset() == b.to_multiset(),
    ensures
        a.filter(f).len() == b.filter(f).len(),
    decreases b.len(),
{
    broadcast use vstd::seq_lib::group_to_multiset_ensures;

    assert(a.to_multiset().len() == a.len());
    assert(b.to_multiset().len() == b.len());
    if b.len() > 0 {
        let x = b.last();
        let n = b.len() - 1;
        assert(b.contains(x));
        assert(b.to_multiset().count(x) > 0);
        assert(a.contains(x));
        let i = choose|i: int| 0 <= i < a.len() && a[i] == x;
        vstd::seq_lib::to_multiset_remove(a, i);
        vstd::seq_lib::to_multiset_remove(b, n);
        lemma_order_does_not_count(a.remove(i), b.remove(n), f);
        lemma_without_one(a, i, f);
        lemma_without_one(b, n, f);
    } else {
        assert(a =~= b);
    }
}

proof fn lemma_all_pass(a: Seq<u64>, f: spec_fn(u64) -> bool)
    requires
        forall|i: int| 0 <= i < a.len() ==> f(#[trigger] a[i]),
    ensures
        a.filter(f).len() == a.len(),
    decreases a.len(),
{
    reveal(Seq::filter);
    if a.len() > 0 {
        let rest = a.drop_last();
        assert forall|i: int| 0 <= i < rest.len() implies f(#[trigger] rest[i]) by {
            assert(rest[i] == a[i]);
        }
        lemma_all_pass(rest, f);
        assert(f(a[a.len() - 1]));
    }
}

proof fn lemma_none_pass(a: Seq<u64>, f: spec_fn(u64) -> bool)
    requires
        forall|i: int| 0 <= i < a.len() ==> !f(#[trigger] a[i]),
    ensures
        a.filter(f).len() == 0,
    decreases a.len(),
{
    reveal(Seq::filter);
    if a.len() > 0 {
        let rest = a.drop_last();
        assert forall|i: int| 0 <= i < rest.len() implies !f(#[trigger] rest[i]) by {
            assert(rest[i] == a[i]);
        }
        lemma_none_pass(rest, f);
        assert(!f(a[a.len() - 1]));
    }
}

proof fn lemma_durations_sifted(
    calls: Seq<SampleView>,
    f: spec_fn(u64) -> bool,
    g: spec_fn(SampleView) -> bool,
)
    requires
        forall|c: SampleView| #[trigger] g(c) == f(c.ms),
    ensures
        durations(calls).filter(f).len() == calls.filter(g).len(),
    decreases calls.len(),
{
    reveal(Seq::filter);
    if calls.len() > 0 {
        lemma_durations_sifted(calls.drop_last(), f, g);
        assert(durations(calls).drop_last() =~= durations(calls.drop_last()));
        assert(durations(calls).last() == calls.last().ms);
        assert(g(calls.last()) == f(calls.last().ms));
    }
}

/// The value at the place of a percentile among the sorted durations is that percentile.
proof fn lemma_is_percentile(calls: Seq<SampleView>, p: nat)
    requires
        calls.len() > 0,
        0 < p <= 100,
    ensures
        is_percentile(
            calls,
            p as int,
            Some(ascending(durations(calls))[rank(calls.len(), p)]),
        ),
{
    reveal(is_percentile);
    let ms = durations(calls);
    let sorted = ascending(ms);
    let r = rank(calls.len(), p);
    lemma_ascending(ms);
    law_nearest_rank(calls, p);
    let v = sorted[r];
    let f = |x: u64| x <= v;
    let g = |x: u64| x < v;
    let low = sorted.take(r + 1);
    let rest = sorted.skip(r + 1);
    assert(sorted =~= low + rest);
    Seq::filter_distributes_over_add(low, rest, f);
    assert forall|i: int| 0 <= i < low.len() implies f(#[trigger] low[i]) by {
        assert(sorted[i] <= sorted[r]);
    }
    lemma_all_pass(low, f);
    assert(sorted.filter(f).len() >= r + 1);
    let below = sorted.take(r);
    let above = sorted.skip(r);
    assert(sorted =~= below + above);
    Seq::filter_distributes_over_add(below, above, g);
    assert forall|i: int| 0 <= i < above.len() implies !g(#[trigger] above[i]) by {
        assert(sorted[r] <= sorted[r + i]);
    }
    lemma_none_pass(above, g);
    lemma_sifted_is_shorter(below, g);
    assert(sorted.filter(g).len() <= r);
    lemma_order_does_not_count(ms, sorted, f);
    lemma_order_does_not_count(ms, sorted, g);
    lemma_durations_sifted(calls, f, |c: SampleView| c.ms <= v);
    lemma_durations_sifted(calls, g, |c: SampleView| c.ms < v);
    let n = calls.len();
    assert(p * n == n * p) by (nonlinear_arith);
    assert(calls.filter(|c: SampleView| c.ms <= v).len() >= r + 1);
    assert(calls.filter(|c: SampleView| c.ms < v).len() <= r);
}

/// Whether statistics are those of `calls`: how many there are, how many failed, and their
/// percentiles.
pub open spec fn tells_calls(s: LatencyStats, calls: Seq<SampleView>) -> bool {
    &&& s.count == calls.len()
    &&& s.failures == calls.filter(|c: SampleView| !c.ok).len()
    &&& is_percentile(calls, 50, s.p50)
    &&& is_percentile(calls, 95, s.p95)
    &&& is_percentile(calls, 98, s.p98)
    &&& is_percentile(calls, 99, s.p99)
    &&& is_percentile(calls, 100, s.p100)
}

/// The statistics of calls tell of them.
pub proof fn lemma_tells_calls(calls: Seq<SampleView>)
    requires
        calls.len() <= usize::MAX,
    ensures
        tells_calls(stats_of(calls), calls),
{
    reveal(is_percentile);
    lemma_sifted_is_shorter(calls, |c: SampleView| !c.ok);
    assert(durations(calls).len() == calls.len());
    if calls.len() > 0 {
        lemma_is_percentile(calls, 50);
        lemma_is_percentile(calls, 95);
        lemma_is_percentile(calls, 98);
        lemma_is_percentile(calls, 99);
        lemma_is_percentile(calls, 100);
    }
}

/// The statistics of calls say how many there are and how many failed, and their percentiles
/// are such that so many percent of the calls took at most so long, and fewer took less.
pub proof fn law_statistics_tell_of_the_calls(samples: Vec<&Sample>, r: LatencyStats)
    requires
        call_ensures(LatencyStats::from_samples, (&samples,), r),
    ensures
        tells_calls(r, views(samples@)),
{
    assert(views(samples@).len() == samples.len());
    lemma_tells_calls(views(samples@));
}

/// A summary tells of the calls that finished in its window: of all of them, and of those of a
/// tool under its name. A tool is listed when it was called in the window, and only then.
pub proof fn law_a_summary_tells_of_its_window(
    reads: LatencyRecorder,
    now: u128,
    window: u128,
    r: LatencySummary,
    i: int,
)
    requires
        reads@.len() <= usize::MAX,
        call_ensures(LatencyRecorder::summary_at, (&reads, now, window), r),
    ensures
        ({
            let near = reads@.filter(|c: SampleView| now <= c.at + window);
            &&& r.window_secs * 1_000_000_000 <= window < (r.window_secs + 1) * 1_000_000_000
            &&& tells_calls(r.overall, near)
            &&& 0 <= i < r.by_tool@.len() ==> tells_calls(
                r.by_tool@[i].1,
                reads@.filter(
                    |c: SampleView| now <= c.at + window && c.tool == r.by_tool@[i].0@,
                ),
            ) && r.by_tool@[i].1.count > 0
            &&& 0 <= i < near.len() ==> lists_tool(r.by_tool@, near[i].tool)
        }),
{
    let within = |c: SampleView| now <= c.at + window;
    let near = reads@.filter(within);
    lemma_sifted_alike(reads@, |c: SampleView| age(now, c.at) <= window, within);
    assert(recent(reads@, now, window) == near);
    lemma_sifted_is_shorter(reads@, within);
    lemma_tells_calls(near);
    if 0 <= i < r.by_tool@.len() {
        let tool = r.by_tool@[i].0@;
        let of_tool = |c: SampleView| c.tool == tool;
        let both = |c: SampleView| now <= c.at + window && c.tool == tool;
        lemma_sifted_twice(reads@, within, of_tool, both);
        lemma_sifted_is_shorter(reads@, both);
        lemma_tells_calls(reads@.filter(both));
        assert(calls_tool(near, tool));
        let k = choose|k: int| 0 <= k < near.len() && (#[trigger] near[k]).tool == tool;
        near.lemma_filter_contains(of_tool, k);
        assert(near.filter(of_tool).contains(near[k]));
        assert(near.filter(of_tool).len() > 0);
    }
}

/// A tool is found in a summary when it was called in the window, and then with the statistics
/// of its calls.
pub proof fn law_a_tool_is_found_by_its_calls(
    reads: LatencyRecorder,
    now: u128,
    window: u128,
    s: LatencySummary,
    name: &str,
    r: Option<LatencyStats>,
)
    requires
        reads@.len() <= usize::MAX,
        call_ensures(LatencyRecorder::summary_at, (&reads, now, window), s),
        call_ensures(LatencySummary::tool, (&s, name), r),
    ensures
        ({
            let calls = reads@.filter(|c: SampleView| now <= c.at + window && c.tool == name@);
            match r {
                Some(t) => calls.len() > 0 && tells_calls(t, calls),
                None => calls.len() == 0,
            }
        }),
{
    let within = |c: SampleView| now <= c.at + window;
    let of_tool = |c: SampleView| c.tool == name@;
    let both = |c: SampleView| now <= c.at + window && c.tool == name@;
    let near = reads@.filter(within);
    let calls = reads@.filter(both);
    lemma_sifted_alike(reads@, |c: SampleView| age(now, c.at) <= window, within);
    lemma_sifted_twice(reads@, within, of_tool, both);
    match r {
        Some(t) => {
            let i = choose|i: int|
                0 <= i < s.by_tool@.len() && (#[trigger] s.by_tool@[i]).0@ == name@
                    && s.by_tool@[i].1 == t;
            law_a_summary_tells_of_its_window(reads, now, window, s, i);
        },
        None => {
            if calls.len() > 0 {
                let c = calls[0];
                assert(near.filter(of_tool).contains(c));
                near.lemma_filter_contains_rev(of_tool, c);
                near.lemma_filter_pred(of_tool, 0);
                let k = choose|k: int| 0 <= k < near.len() && near[k] == c;
                law_a_summary_tells_of_its_window(reads, now, window, s, k);
                assert(lists_tool(s.by_tool@, name@));
            }
        },
    }
}

/// Whether a sample tells a percentile of calls, in seconds, under the name of the quantile.
pub open spec fn tells_percentile(
    x: crate::grammar::SampleView,
    quantile: Seq<char>,
    p: int,
    calls: Seq<SampleView>,
) -> bool {
    &&& x.labels[2].1 == quantile
    &&& 0 <= read_units(x.value, 3) <= u64::MAX
    &&& is_percentile(calls, p, Some(read_units(x.value, 3) as u64))
}

/// The calls that finished in the last `secs` seconds, of a tool or, for `all`, of any.
pub open spec fn calls_within(
    calls: Seq<SampleView>,
    now: u128,
    secs: int,
    tool: Seq<char>,
) -> Seq<SampleView> {
    if tool == "all"@ {
        calls.filter(|c: SampleView| now <= c.at + secs * 1_000_000_000)
    } else {
        calls.filter(|c: SampleView| now <= c.at + secs * 1_000_000_000 && c.tool == tool)
    }
}

proof fn lemma_row_tells(
    reads: LatencyRecorder,
    now: u128,
    ws: Vec<WindowSummary>,
    known: Seq<Seq<char>>,
    i: int,
    secs: int,
)
    requires
        reads@.len() <= usize::MAX,
        call_ensures(window_summaries, (&reads, now), ws),
        0 <= i < window_rows(ws@, known).len(),
        is_window(window_rows(ws@, known)[i].window, secs),
        window_rows(ws@, known)[i].tool != "all"@ || !known.contains("all"@),
    ensures
        tells_calls(
            window_rows(ws@, known)[i].stats,
            calls_within(reads@, now, secs, window_rows(ws@, known)[i].tool),
        ),
{
    let r = window_rows(ws@, known)[i];
    lemma_row_stats(reads, now, ws, known, i, secs);
    let within = |c: SampleView| now <= c.at + secs * 1_000_000_000;
    let of_tool = |c: SampleView| now <= c.at + secs * 1_000_000_000 && c.tool == r.tool;
    lemma_sifted_is_shorter(reads@, within);
    lemma_sifted_is_shorter(reads@, of_tool);
    if r.tool == "all"@ {
        lemma_tells_calls(reads@.filter(within));
    } else {
        lemma_tells_calls(reads@.filter(of_tool));
    }
}

proof fn lemma_tells_percentile(
    x: crate::grammar::SampleView,
    r: WindowRowView,
    quantile: Seq<char>,
    v: u64,
    p: int,
    calls: Seq<SampleView>,
)
    requires
        x == quantile_sample(r, quantile, v),
        is_percentile(calls, p, Some(v)),
    ensures
        tells_percentile(x, quantile, p, calls),
{
    lemma_fraction_reads(v as nat, 3);
}

/// A percentile that a scrape tells, of a tool or of `all`, in a window, is that percentile of
/// the durations of the calls that finished in it, in seconds.
pub proof fn law_percentiles_are_told(
    reads: LatencyRecorder,
    now: u128,
    ws: Vec<WindowSummary>,
    s: Scrape,
    text: String,
    k: int,
    secs: int,
)
    requires
        reads@.len() <= usize::MAX,
        call_ensures(window_summaries, (&reads, now), ws),
        s.summaries@ == ws@,
        shows_numbers(s),
        call_ensures(render, (&s,), text),
        0 <= k < samples_named(text@, "codesearch_tool_call_latency_seconds"@).len(),
        is_window(
            samples_named(text@, "codesearch_tool_call_latency_seconds"@)[k].labels[1].1,
            secs,
        ),
        samples_named(text@, "codesearch_tool_call_latency_seconds"@)[k].labels[0].1 != "all"@
            || !texts(s.known_tools@).contains("all"@),
    ensures
        ({
            let x = samples_named(text@, "codesearch_tool_call_latency_seconds"@)[k];
            let calls = calls_within(reads@, now, secs, x.labels[0].1);
            &&& x.labels.len() == 3
            &&& x.labels[0].0 == "tool"@
            &&& x.labels[1].0 == "window"@
            &&& x.labels[2].0 == "quantile"@
            &&& {
                ||| tells_percentile(x, "0.5"@, 50, calls)
                ||| tells_percentile(x, "0.95"@, 95, calls)
                ||| tells_percentile(x, "0.98"@, 98, calls)
                ||| tells_percentile(x, "0.99"@, 99, calls)
                ||| tells_percentile(x, "1"@, 100, calls)
            }
        }),
{
    let i = lemma_told_percentile(s, k);
    let r = rows_of(s)[i];
    let x = samples_named(text@, "codesearch_tool_call_latency_seconds"@)[k];
    assert(x.labels == seq![
        ("tool"@, r.tool),
        ("window"@, r.window),
        ("quantile"@, x.labels[2].1),
    ]);
    let calls = calls_within(reads@, now, secs, r.tool);
    lemma_row_tells(reads, now, ws, texts(s.known_tools@), i, secs);
    if r.stats.p50 is Some && x == quantile_sample(r, "0.5"@, r.stats.p50->0) {
        lemma_tells_percentile(x, r, "0.5"@, r.stats.p50->0, 50, calls);
    } else if r.stats.p95 is Some && x == quantile_sample(r, "0.95"@, r.stats.p95->0) {
        lemma_tells_percentile(x, r, "0.95"@, r.stats.p95->0, 95, calls);
    } else if r.stats.p98 is Some && x == quantile_sample(r, "0.98"@, r.stats.p98->0) {
        lemma_tells_percentile(x, r, "0.98"@, r.stats.p98->0, 98, calls);
    } else if r.stats.p99 is Some && x == quantile_sample(r, "0.99"@, r.stats.p99->0) {
        lemma_tells_percentile(x, r, "0.99"@, r.stats.p99->0, 99, calls);
    } else {
        lemma_tells_percentile(x, r, "1"@, r.stats.p100->0, 100, calls);
    }
}

/// Milliseconds are whole ones: so many millions of nanoseconds have passed and not one
/// million more, unless there are more than can be told.
pub proof fn law_milliseconds(nanos: u128, r: u64)
    requires
        call_ensures(to_ms, (nanos,), r),
    ensures
        r * 1_000_000 <= nanos,
        r < u64::MAX ==> nanos < (r + 1) * 1_000_000,
{
}

/// A clock set before the epoch reads zero, any other the whole milliseconds since.
pub proof fn law_wall_clock(reading: Option<u128>, r: u64)
    requires
        call_ensures(unix_ms_at, (reading,), r),
    ensures
        reading is None ==> r == 0,
        reading matches Some(nanos) ==> r * 1_000_000 <= nanos && (r < u64::MAX ==> nanos < (r + 1)
            * 1_000_000),
{
}

proof fn lemma_kept_front(samples: Seq<SampleView>, at: u128)
    requires
        samples.len() < 100_000,
        samples.len() > 0 ==> at <= samples[0].at + 86_400_000_000_000,
    ensures
        dropped_front(samples, at) == samples,
{
}

proof fn lemma_dropped(samples: Seq<SampleView>, at: u128)
    ensures
        dropped_front(samples, at).len() > 0 ==> at <= dropped_front(samples, at)[0].at
            + 86_400_000_000_000,
        dropped_front(samples, at).len() < 100_000,
        samples.len() >= 100_000 && (forall|i: int|
            0 <= i < samples.len() ==> at <= (#[trigger] samples[i]).at + 86_400_000_000_000)
            ==> dropped_front(samples, at).len() == 99_999,
    decreases samples.len(),
{
    if samples.len() > 0 && (age(at, samples[0].at) > 86_400_000_000_000 || samples.len()
        >= 100_000) {
        let rest = samples.drop_first();
        lemma_dropped(rest, at);
        if samples.len() >= 100_000 && (forall|i: int|
            0 <= i < samples.len() ==> at <= (#[trigger] samples[i]).at + 86_400_000_000_000) {
            assert forall|i: int| 0 <= i < rest.len() implies at <= (#[trigger] rest[i]).at
                + 86_400_000_000_000 by {
                assert(rest[i] == samples[i + 1]);
            }
            if rest.len() < 100_000 {
                lemma_kept_front(rest, at);
            }
        }
    }
}

/// A recorded call stands last, with its tool, its end, its whole milliseconds and how it
/// ended; before it stand the latest of the earlier calls, all of them where there is room and
/// none is older than a day. No more than a hundred thousand are kept, and what stands first
/// is not older than a day.
pub proof fn law_a_recorded_call_stands_last(
    reads: &mut LatencyRecorder,
    at: u128,
    tool: &str,
    elapsed: u128,
    ok: bool,
    r: (),
)
    requires
        call_ensures(LatencyRecorder::record_at, (reads, at, tool, elapsed, ok), r),
    ensures
        ({
            let before = old(reads)@;
            let after = final(reads)@;
            let n = after.len() - 1;
            &&& 0 <= n <= before.len()
            &&& n < 100_000
            &&& after[n].at == at
            &&& after[n].tool == tool@
            &&& after[n].ok == ok
            &&& after[n].ms * 1_000_000 <= elapsed
            &&& after[n].ms < u64::MAX ==> elapsed < (after[n].ms + 1) * 1_000_000
            &&& after.take(n) == before.skip(before.len() - n)
            &&& before.len() < 100_000 && (before.len() > 0 ==> at <= before[0].at
                + 86_400_000_000_000) ==> n == before.len()
            &&& before.len() >= 100_000 && (forall|i: int|
                0 <= i < before.len() ==> at <= (#[trigger] before[i]).at + 86_400_000_000_000)
                ==> n == 99_999
            &&& at <= after[0].at + 86_400_000_000_000
        }),
{
    let before = old(reads)@;
    let after = final(reads)@;
    let kept = dropped_front(before, at);
    law_latest_samples_are_kept(before, at);
    lemma_dropped(before, at);
    assert(after.take(after.len() - 1) =~= kept);
    if before.len() < 100_000 && (before.len() > 0 ==> at <= before[0].at + 86_400_000_000_000) {
        lemma_kept_front(before, at);
    }
}

/// A finished tool call is recorded as such.
pub proof fn law_a_tool_call_is_recorded(
    reads: &mut LatencyRecorder,
    now: u128,
    tool: &str,
    elapsed: u128,
    ok: bool,
    r: (),
)
    requires
        call_ensures(record_tool_call, (reads, now, tool, elapsed, ok), r),
    ensures
        ({
            let before = old(reads)@;
            let after = final(reads)@;
            let n = after.len() - 1;
            &&& 0 <= n <= before.len()
            &&& after[n].at == now
            &&& after[n].tool == tool@
            &&& after[n].ok == ok
            &&& after[n].ms * 1_000_000 <= elapsed
            &&& after[n].ms < u64::MAX ==> elapsed < (after[n].ms + 1) * 1_000_000
            &&& after.take(n) == before.skip(before.len() - n)
            &&& before.len() < 100_000 && (before.len() > 0 ==> now <= before[0].at
                + 86_400_000_000_000) ==> n == before.len()
        }),
{
    let before = old(reads)@;
    let after = final(reads)@;
    let kept = dropped_front(before, now);
    law_latest_samples_are_kept(before, now);
    assert(after.take(after.len() - 1) =~= kept);
    if before.len() < 100_000 && (before.len() > 0 ==> now <= before[0].at + 86_400_000_000_000) {
        lemma_kept_front(before, now);
    }
}

proof fn lemma_slowest(ms: Seq<u64>)
    ensures
        slowest(ms) is None <==> ms.len() == 0,
        slowest(ms) matches Some(v) ==> ms.contains(v) && forall|i: int|
            0 <= i < ms.len() ==> #[trigger] ms[i] <= v,
    decreases ms.len(),
{
    if ms.len() > 0 {
        let rest = ms.drop_last();
        lemma_slowest(rest);
        assert(ms[ms.len() - 1] == ms.last());
        if let Some(b) = slowest(rest) {
            let j = choose|j: int| 0 <= j < rest.len() && rest[j] == b;
            assert(ms[j] == b);
            assert forall|i: int| 0 <= i < ms.len() implies #[trigger] ms[i] <= slowest(ms)->0 by {
                if i < rest.len() {
                    assert(rest[i] == ms[i]);
                }
            }
        }
    }
}

/// The slowest recent call of some tools is one that finished in the time and of one of the
/// tools, and no other of them took longer; there is none when none was called.
pub proof fn law_the_slowest_recent_call(
    reads: LatencyRecorder,
    now: u128,
    within: u128,
    tools: Vec<String>,
    r: Option<u64>,
    i: int,
)
    requires
        call_ensures(LatencyRecorder::recent_max_at, (&reads, now, within, &tools), r),
    ensures
        r matches Some(ms) ==> exists|j: int|
            0 <= j < reads@.len() && (#[trigger] reads@[j]).ms == ms && now <= reads@[j].at + within
                && texts(tools@).contains(reads@[j].tool),
        0 <= i < reads@.len() && now <= reads@[i].at + within && texts(tools@).contains(
            reads@[i].tool,
        ) ==> r is Some && reads@[i].ms <= r->0,
{
    let near = |c: SampleView| age(now, c.at) <= within;
    let wanted = |s: SampleView| texts(tools@).contains(s.tool);
    let both = |c: SampleView| now <= c.at + within && texts(tools@).contains(c.tool);
    lemma_sifted_twice(reads@, near, wanted, both);
    let all = reads@.filter(both);
    let ms = durations(all);
    assert(r == slowest(ms));
    lemma_slowest(ms);
    if let Some(v) = r {
        let k = choose|k: int| 0 <= k < ms.len() && ms[k] == v;
        let c = all[k];
        reads@.lemma_filter_pred(both, k);
        assert(all.contains(c));
        reads@.lemma_filter_contains_rev(both, c);
        let j = choose|j: int| 0 <= j < reads@.len() && reads@[j] == c;
        assert(reads@[j].ms == v);
    }
    if 0 <= i < reads@.len() && now <= reads@[i].at + within && texts(tools@).contains(
        reads@[i].tool,
    ) {
        reads@.lemma_filter_contains(both, i);
        let k = choose|k: int| 0 <= k < all.len() && all[k] == reads@[i];
        assert(ms[k] == reads@[i].ms);
    }
}

/// The place of a call among the buckets of a series, in milliseconds back from `now`.
pub open spec fn falls_between(now: u128, c: SampleView, from_ms: int, to_ms: int) -> bool {
    let back = if now >= c.at {
        (now - c.at) / 1_000_000
    } else {
        0
    };
    from_ms <= back < to_ms
}

proof fn lemma_falls(back: int, width: int, total: int, i: int)
    requires
        0 <= back,
        width >= 1,
        0 <= i < total,
    ensures
        (back < width * total && total - 1 - back / width == i) <==> (total - 1 - i) * width <= back
            < (total - i) * width,
{
    let q = back / width;
    vstd::arithmetic::div_mod::lemma_fundamental_div_mod(back, width);
    assert(back == width * q + back % width && 0 <= back % width < width);
    let k = total - 1 - i;
    assert(q == k ==> k * width <= back < (k + 1) * width) by (nonlinear_arith)
        requires
            back == width * q + back % width,
            0 <= back % width < width,
    ;
    assert(k * width <= back < (k + 1) * width ==> q == k) by (nonlinear_arith)
        requires
            back == width * q + back % width,
            0 <= back % width < width,
            width >= 1,
    ;
    assert((k + 1) * width <= width * total) by (nonlinear_arith)
        requires
            k + 1 <= total,
            width >= 1,
    ;
}

/// A series has as many buckets as it takes to cover its window; each begins where the one
/// before it ends, and tells of the calls that finished in it, counted back from now.
pub proof fn law_a_series_tells_of_its_buckets(
    reads: LatencyRecorder,
    now: u128,
    now_unix_ms: u64,
    window: u128,
    bucket: u128,
    r: Vec<LatencyBucket>,
    i: int,
    j: int,
)
    requires
        reads@.len() <= usize::MAX,
        call_ensures(LatencyRecorder::series_at, (&reads, now, now_unix_ms, window, bucket), r),
        0 <= i < r@.len(),
        0 <= j < r@.len(),
        1_000_000 <= bucket,
        bucket / 1_000_000 <= u64::MAX,
        window / 1_000_000 + bucket / 1_000_000 <= u64::MAX,
        window / 1_000_000 <= usize::MAX,
        now < 1_000_000 * u64::MAX,
        window / 1_000_000 + bucket / 1_000_000 <= now_unix_ms,
    ensures
        ({
            let width = bucket as int / 1_000_000;
            let total = r@.len();
            &&& (total - 1) * width < window as int / 1_000_000 <= total * width
            &&& r@[i].start_ms == now_unix_ms - (total - i) * width
            &&& tells_calls(
                r@[i].stats,
                reads@.filter(
                    |c: SampleView|
                        falls_between(now, c, (total - 1 - i) * width, (total - i) * width),
                ),
            )
        }),
{
    let width = bucket as int / 1_000_000;
    let wide = window as int / 1_000_000;
    let total = r@.len() as int;
    assert(whole_ms(window) == wide);
    assert(whole_ms(bucket) == width);
    assert(bucket_width(bucket) == width);
    let n = (wide + width - 1) / width;
    vstd::arithmetic::div_mod::lemma_fundamental_div_mod(wide + width - 1, width);
    let rest = (wide + width - 1) % width;
    assert(wide + width - 1 == width * n + rest && 0 <= rest < width);
    assert(n <= wide) by (nonlinear_arith)
        requires
            wide + width - 1 == width * n + rest,
            0 <= rest,
            width >= 1,
            wide >= 0,
            n >= 1,
    ;
    assert(total == n);
    assert((n - 1) * width < wide <= n * width && n * width == width * n && n * width <= wide
        + width - 1) by (nonlinear_arith)
        requires
            wide + width - 1 == width * n + rest,
            0 <= rest < width,
            width >= 1,
    ;
    assert(width * i + (n - i) * width == n * width) by (nonlinear_arith);
    assert(width * i >= 0) by (nonlinear_arith)
        requires
            width >= 1,
            i >= 0,
    ;
    assert((n - i) * width >= 0) by (nonlinear_arith)
        requires
            width >= 1,
            n >= i,
    ;
    let w = whole_ms(window);
    let b = bucket_width(bucket);
    let inside = |s: SampleView|
        {
            let back = whole_ms(age(now, s.at) as u128);
            back < crate::telemetry::series_span(w, b) && bucket_count(w, b) - 1 - back as int
                / b as int == i
        };
    let between = |c: SampleView|
        falls_between(now, c, (total - 1 - i) * width, (total - i) * width);
    assert forall|c: SampleView| #[trigger] inside(c) == between(c) by {
        let back = age(now, c.at) / 1_000_000;
        assert(whole_ms(age(now, c.at) as u128) == back);
        lemma_falls(back, width, total, i);
    }
    lemma_sifted_alike(reads@, inside, between);
    assert(in_bucket(reads@, now, w, b, i) == reads@.filter(inside)) by {
        assert(reads@.filter(inside) =~= in_bucket(reads@, now, w, b, i));
    }
    lemma_sifted_is_shorter(reads@, between);
    lemma_tells_calls(reads@.filter(between));
}

/// The interactive tools are the four that search and read.
pub proof fn law_interactive_tools(r: Vec<String>)
    requires
        call_ensures(interactive_tools, (), r),
    ensures
        texts(r@) == seq!["search"@, "find"@, "explore"@, "get_chunk"@],
{
}

/// An instant lies as far back as the clock went on since, and not at all when it is still to
/// come.
pub proof fn law_ages_of_instants(now: u128, at: u128, r: u128)
    requires
        call_ensures(age_of, (now, at), r),
    ensures
        now >= at ==> r == now - at,
        now < at ==> r == 0,
{
}

proof fn lemma_some_percentile(calls: Seq<SampleView>, p: int, v: Option<u64>)
    requires
        is_percentile(calls, p, v),
        calls.len() > 0,
    ensures
        v is Some,
{
    reveal(is_percentile);
}

/// Where calls finished in a window, of a tool or of all, each of the five percentiles is told
/// of it, beside how many there were.
pub proof fn law_each_percentile_is_told(
    reads: LatencyRecorder,
    now: u128,
    ws: Vec<WindowSummary>,
    s: Scrape,
    text: String,
    k: int,
    secs: int,
    q: Seq<char>,
)
    requires
        reads@.len() <= usize::MAX,
        call_ensures(window_summaries, (&reads, now), ws),
        s.summaries@ == ws@,
        shows_numbers(s),
        call_ensures(render, (&s,), text),
        0 <= k < samples_named(text@, "codesearch_tool_call_window_calls"@).len(),
        is_window(
            samples_named(text@, "codesearch_tool_call_window_calls"@)[k].labels[1].1,
            secs,
        ),
        samples_named(text@, "codesearch_tool_call_window_calls"@)[k].labels[0].1 != "all"@
            || !texts(s.known_tools@).contains("all"@),
        calls_within(
            reads@,
            now,
            secs,
            samples_named(text@, "codesearch_tool_call_window_calls"@)[k].labels[0].1,
        ).len() > 0,
        q == "0.5"@ || q == "0.95"@ || q == "0.98"@ || q == "0.99"@ || q == "1"@,
    ensures
        exists|m: int|
            0 <= m < samples_named(text@, "codesearch_tool_call_latency_seconds"@).len() && (
            #[trigger] samples_named(text@, "codesearch_tool_call_latency_seconds"@)[m]).labels
                == samples_named(text@, "codesearch_tool_call_window_calls"@)[k].labels.push(
                ("quantile"@, q),
            ),
{
    lemma_told_counts(s);
    let r = rows_of(s)[k];
    let labels = samples_named(text@, "codesearch_tool_call_window_calls"@)[k].labels;
    assert(labels == seq![("tool"@, r.tool), ("window"@, r.window)]);
    lemma_row_tells(reads, now, ws, texts(s.known_tools@), k, secs);
    lemma_percentile_is_told(s, k);
    let calls = calls_within(reads@, now, secs, r.tool);
    lemma_some_percentile(calls, 50, r.stats.p50);
    lemma_some_percentile(calls, 95, r.stats.p95);
    lemma_some_percentile(calls, 98, r.stats.p98);
    lemma_some_percentile(calls, 99, r.stats.p99);
    lemma_some_percentile(calls, 100, r.stats.p100);
    let v = if q == "0.5"@ {
        r.stats.p50->0
    } else if q == "0.95"@ {
        r.stats.p95->0
    } else if q == "0.98"@ {
        r.stats.p98->0
    } else if q == "0.99"@ {
        r.stats.p99->0
    } else {
        r.stats.p100->0
    };
    let told = samples_named(text@, "codesearch_tool_call_latency_seconds"@);
    let x = quantile_sample(r, q, v);
    assert(told.contains(x));
    let m = choose|m: int| 0 <= m < told.len() && told[m] == x;
    assert(x.labels =~= labels.push(("quantile"@, q)));
    assert(told[m].labels == labels.push(("quantile"@, q)));
}

} // verus!
