//! In-process read-path latency: every tool call is recorded so the status page can
//! report percentiles against the service level and the indexing governor can yield to
//! reads.
//!
//! Instants and durations are nanosecond counts on one monotonic clock.
use crate::order::{ascending, lemma_ascending, sort_numbers, text_before, text_less};
use crate::text::same_text;
use std::collections::VecDeque;
use vstd::prelude::*;

verus! {

/// Samples older than this are dropped; also the longest dashboard window.
pub const RETENTION: u128 = 86_400_000_000_000;

/// Window for the headline percentiles.
pub const SUMMARY_WINDOW: u128 = 3_600_000_000_000;

/// The most samples a recorder keeps.
pub const MAX_SAMPLES: usize = 100_000;

/// Nanoseconds in a millisecond.
pub const NANOS_PER_MS: u128 = 1_000_000;

/// Nanoseconds in a second.
pub const NANOS_PER_SEC: u128 = 1_000_000_000;

/// Grep-style tools whose latency the indexing governor protects.
pub fn interactive_tools() -> (r: Vec<String>)
    ensures
        crate::text::texts(r@) == interactive_tool_names(),
{
    let mut r: Vec<String> = Vec::new();
    r.push("search".to_owned());
    r.push("find".to_owned());
    r.push("explore".to_owned());
    r.push("get_chunk".to_owned());
    assert(crate::text::texts(r@) =~= interactive_tool_names());
    r
}

/// The names of the interactive tools.
pub open spec fn interactive_tool_names() -> Seq<Seq<char>> {
    seq!["search"@, "find"@, "explore"@, "get_chunk"@]
}

/// One finished tool call.
pub struct Sample {
    at: u128,
    tool: String,
    ms: u64,
    ok: bool,
}

/// What a sample says.
pub struct SampleView {
    pub at: u128,
    pub tool: Seq<char>,
    pub ms: u64,
    pub ok: bool,
}

impl View for Sample {
    type V = SampleView;

    closed spec fn view(&self) -> SampleView {
        SampleView { at: self.at, tool: self.tool@, ms: self.ms, ok: self.ok }
    }
}

/// How long before `now` the instant `at` lies; nothing for an instant still to come.
pub open spec fn age(now: u128, at: u128) -> int {
    if now >= at {
        now - at
    } else {
        0
    }
}

/// How long before `now` the instant `at` lies.
pub fn age_of(now: u128, at: u128) -> (r: u128)
    ensures
        r == age(now, at),
{
    if now >= at {
        now - at
    } else {
        0
    }
}

/// A duration in whole milliseconds, at most the largest 64-bit number.
pub open spec fn whole_ms(nanos: u128) -> u64 {
    if nanos / NANOS_PER_MS > u64::MAX {
        u64::MAX
    } else {
        (nanos / NANOS_PER_MS) as u64
    }
}

/// A duration in whole milliseconds, at most the largest 64-bit number.
pub fn to_ms(nanos: u128) -> (r: u64)
    ensures
        r == whole_ms(nanos),
{
    let ms: u128 = nanos / NANOS_PER_MS;
    if ms > u64::MAX as u128 {
        u64::MAX
    } else {
        ms as u64
    }
}

/// Nearest-rank percentiles over a set of tool calls.
#[derive(Debug, Clone, Copy, PartialEq, Eq, Structural)]
pub struct LatencyStats {
    pub count: usize,
    pub failures: usize,
    pub p50: Option<u64>,
    pub p95: Option<u64>,
    pub p98: Option<u64>,
    pub p99: Option<u64>,
    pub p100: Option<u64>,
}

impl Default for LatencyStats {
    fn default() -> (r: LatencyStats)
        ensures
            r == stats_of(Seq::empty()),
    {
        proof {
            reveal(Seq::filter);
        }
        LatencyStats {
            count: 0,
            failures: 0,
            p50: None,
            p95: None,
            p98: None,
            p99: None,
            p100: None,
        }
    }
}

/// The durations of `samples`, in milliseconds.
pub open spec fn durations(samples: Seq<SampleView>) -> Seq<u64> {
    samples.map_values(|s: SampleView| s.ms)
}

/// How many of `samples` failed.
pub open spec fn failures(samples: Seq<SampleView>) -> nat {
    samples.filter(|s: SampleView| !s.ok).len()
}

/// The place of the `p`-th percentile among `n` sorted values: the smallest place that at
/// least `p` percent of the values lie at or before.
pub open spec fn rank(n: nat, p: nat) -> int {
    let r = (n * p + 99) as int / 100;
    if r < 1 {
        0
    } else {
        r - 1
    }
}

/// The nearest-rank `p`-th percentile; none of no values.
pub open spec fn percentile(ms: Seq<u64>, p: nat) -> Option<u64> {
    if ms.len() == 0 {
        None
    } else {
        Some(ascending(ms)[rank(ms.len(), p)])
    }
}

/// The statistics of a set of tool calls.
pub open spec fn stats_of(samples: Seq<SampleView>) -> LatencyStats {
    let ms = durations(samples);
    LatencyStats {
        count: samples.len() as usize,
        failures: failures(samples) as usize,
        p50: percentile(ms, 50),
        p95: percentile(ms, 95),
        p98: percentile(ms, 98),
        p99: percentile(ms, 99),
        p100: percentile(ms, 100),
    }
}

/// The samples that `v` refers to.
pub open spec fn views(v: Seq<&Sample>) -> Seq<SampleView> {
    v.map_values(|s: &Sample| s@)
}

fn nearest_rank(sorted: &Vec<u64>, p: u8) -> (r: Option<u64>)
    requires
        p <= 100,
    ensures
        sorted@.len() == 0 ==> r is None,
        sorted@.len() > 0 ==> r == Some(sorted@[rank(sorted@.len(), p as nat)]),
{
    let n: usize = sorted.len();
    if n == 0 {
        return None;
    }
    assert(0 <= n * p <= n * 100) by (nonlinear_arith)
        requires
            p <= 100,
    ;
    let scaled: u128 = (n as u128) * (p as u128);
    let ceil: u128 = (scaled + 99) / 100;
    let at: usize = if ceil < 1 {
        0
    } else {
        (ceil - 1) as usize
    };
    Some(sorted[at])
}

impl LatencyStats {
    /// The statistics of `samples`.
    pub fn from_samples(samples: &Vec<&Sample>) -> (r: LatencyStats)
        ensures
            r == stats_of(views(samples@)),
    {
        let mut ms: Vec<u64> = Vec::new();
        let mut failed: usize = 0;
        let mut i: usize = 0;
        let ghost all = views(samples@);
        proof {
            reveal(Seq::filter);
        }
        while i < samples.len()
            invariant
                i <= samples@.len(),
                all == views(samples@),
                ms@ == durations(all.take(i as int)),
                failed == failures(all.take(i as int)),
                failed <= i,
            decreases samples.len() - i,
        {
            proof {
                reveal(Seq::filter);
                assert(all.take(i + 1).drop_last() =~= all.take(i as int));
                assert(durations(all.take(i + 1)) =~= durations(all.take(i as int)).push(
                    all[i as int].ms,
                ));
            }
            ms.push(samples[i].ms);
            if !samples[i].ok {
                failed += 1;
            }
            i += 1;
        }
        assert(all.take(all.len() as int) =~= all);
        let sorted: Vec<u64> = sort_numbers(&ms);
        proof {
            lemma_ascending(ms@);
        }
        LatencyStats {
            count: ms.len(),
            failures: failed,
            p50: nearest_rank(&sorted, 50),
            p95: nearest_rank(&sorted, 95),
            p98: nearest_rank(&sorted, 98),
            p99: nearest_rank(&sorted, 99),
            p100: nearest_rank(&sorted, 100),
        }
    }
}

/// Percentiles over a window: of all tool calls, and tool by tool in the order of their
/// names.
pub struct LatencySummary {
    pub window_secs: u64,
    pub overall: LatencyStats,
    pub by_tool: Vec<(String, LatencyStats)>,
}

impl LatencySummary {
    /// The statistics of one tool, if it was called.
    pub fn tool(&self, name: &str) -> (r: Option<LatencyStats>)
        ensures
            match r {
                Some(s) => exists|i: int|
                    0 <= i < self.by_tool@.len() && (#[trigger] self.by_tool@[i]).0@ == name@
                        && self.by_tool@[i].1 == s,
                None => forall|i: int|
                    0 <= i < self.by_tool@.len() ==> (#[trigger] self.by_tool@[i]).0@ != name@,
            },
    {
        let mut i: usize = 0;
        while i < self.by_tool.len()
            invariant
                i <= self.by_tool@.len(),
                forall|j: int| 0 <= j < i ==> (#[trigger] self.by_tool@[j]).0@ != name@,
            decreases self.by_tool.len() - i,
        {
            if same_text(self.by_tool[i].0.as_str(), name) {
                return Some(self.by_tool[i].1);
            }
            i += 1;
        }
        None
    }
}

/// One time bucket of a latency series; `start_ms` is Unix epoch milliseconds.
#[derive(Debug, Clone, Copy, PartialEq, Eq, Structural)]
pub struct LatencyBucket {
    pub start_ms: u64,
    pub stats: LatencyStats,
}

/// The calls among `samples` that finished within `window` of `now`.
pub open spec fn recent(samples: Seq<SampleView>, now: u128, window: u128) -> Seq<SampleView> {
    samples.filter(|s: SampleView| age(now, s.at) <= window)
}

/// The calls among `samples` to one tool.
pub open spec fn calls_of(samples: Seq<SampleView>, tool: Seq<char>) -> Seq<SampleView> {
    samples.filter(|s: SampleView| s.tool == tool)
}

/// Whether `by_tool` gives, in the order of their names, each tool called in `samples`
/// once, with the statistics of its calls.
pub open spec fn splits_by_tool(
    samples: Seq<SampleView>,
    by_tool: Seq<(String, LatencyStats)>,
) -> bool {
    &&& forall|i: int, j: int|
        0 <= i < j < by_tool.len() ==> text_less((#[trigger] by_tool[i]).0@, (#[trigger] by_tool[j]).0@)
    &&& forall|i: int|
        0 <= i < by_tool.len() ==> (#[trigger] by_tool[i]).1 == stats_of(
            calls_of(samples, by_tool[i].0@),
        ) && calls_tool(samples, by_tool[i].0@)
    &&& forall|k: int|
        0 <= k < samples.len() ==> lists_tool(by_tool, (#[trigger] samples[k]).tool)
}

/// Whether `by_tool` has an entry for `tool`.
pub open spec fn lists_tool(by_tool: Seq<(String, LatencyStats)>, tool: Seq<char>) -> bool {
    exists|i: int| 0 <= i < by_tool.len() && (#[trigger] by_tool[i]).0@ == tool
}

/// Whether one of `samples` is a call to `tool`.
pub open spec fn calls_tool(samples: Seq<SampleView>, tool: Seq<char>) -> bool {
    exists|k: int| 0 <= k < samples.len() && (#[trigger] samples[k]).tool == tool
}

/// How many buckets of `bucket_ms` a window of `window_ms` takes.
pub open spec fn bucket_count(window_ms: u64, bucket_ms: u64) -> int {
    let n = (window_ms + bucket_ms - 1) / bucket_ms as int;
    if n > usize::MAX {
        usize::MAX as int
    } else {
        n
    }
}

/// The width of a bucket: at least a millisecond.
pub open spec fn bucket_width(bucket: u128) -> u64 {
    if whole_ms(bucket) < 1 {
        1
    } else {
        whole_ms(bucket)
    }
}

/// How far back the buckets reach, at most the largest 64-bit number.
pub open spec fn series_span(window_ms: u64, bucket_ms: u64) -> int {
    let span = bucket_ms * bucket_count(window_ms, bucket_ms);
    if span > u64::MAX {
        u64::MAX as int
    } else {
        span
    }
}

/// The calls among `samples` that fall into bucket `i`, counted from the oldest.
pub open spec fn in_bucket(
    samples: Seq<SampleView>,
    now: u128,
    window_ms: u64,
    bucket_ms: u64,
    i: int,
) -> Seq<SampleView> {
    samples.filter(
        |s: SampleView|
            {
                let back = whole_ms(age(now, s.at) as u128);
                back < series_span(window_ms, bucket_ms) && bucket_count(window_ms, bucket_ms) - 1
                    - back as int / bucket_ms as int == i
            },
    )
}

/// The bucket `i` of a series.
pub open spec fn bucket_at(
    samples: Seq<SampleView>,
    now: u128,
    now_unix_ms: u64,
    window_ms: u64,
    bucket_ms: u64,
    i: int,
) -> LatencyBucket {
    let span = series_span(window_ms, bucket_ms);
    let origin = if now_unix_ms >= span {
        now_unix_ms - span
    } else {
        0
    };
    LatencyBucket {
        start_ms: (origin + bucket_ms * i) as u64,
        stats: stats_of(in_bucket(samples, now, window_ms, bucket_ms, i)),
    }
}

/// The samples that a recorder drops before it takes one more at `at`: from the front,
/// while the front is too old or the recorder is full.
pub open spec fn dropped_front(samples: Seq<SampleView>, at: u128) -> Seq<SampleView>
    decreases samples.len(),
{
    if samples.len() > 0 && (age(at, samples[0].at) > RETENTION || samples.len() >= MAX_SAMPLES) {
        dropped_front(samples.drop_first(), at)
    } else {
        samples
    }
}

/// Records finished tool calls, in the order in which they finished.
pub struct LatencyRecorder {
    samples: VecDeque<Sample>,
}

impl View for LatencyRecorder {
    type V = Seq<SampleView>;

    closed spec fn view(&self) -> Seq<SampleView> {
        self.samples@.map_values(|s: Sample| s@)
    }
}

impl Default for LatencyRecorder {
    fn default() -> (r: LatencyRecorder)
        ensures
            r@ == Seq::<SampleView>::empty(),
    {
        LatencyRecorder { samples: VecDeque::new() }
    }
}

impl LatencyRecorder {
    /// Takes down a call to `tool` that finished at `at` after `elapsed`. Samples past
    /// retention are dropped from the front, and so are the oldest when the recorder is
    /// full.
    pub fn record_at(&mut self, at: u128, tool: &str, elapsed: u128, ok: bool)
        ensures
            final(self)@ == dropped_front(old(self)@, at).push(
                SampleView { at, tool: tool@, ms: whole_ms(elapsed), ok },
            ),
    {
        while self.samples.len() > 0 && (age_of(at, self.samples[0].at) > RETENTION
            || self.samples.len() >= MAX_SAMPLES)
            invariant
                dropped_front(self@, at) == dropped_front(old(self)@, at),
            decreases self.samples@.len(),
        {
            let ghost before = self@;
            let _ = self.samples.pop_front();
            assert(self@ =~= before.drop_first());
        }
        let ghost kept = self@;
        self.samples.push_back(Sample { at, tool: tool.to_owned(), ms: to_ms(elapsed), ok });
        assert(self@ =~= kept.push(SampleView { at, tool: tool@, ms: whole_ms(elapsed), ok }));
    }

    /// Percentiles over the calls that finished within `window` of `now`.
    pub fn summary_at(&self, now: u128, window: u128) -> (r: LatencySummary)
        requires
            window / NANOS_PER_SEC <= u64::MAX,
        ensures
            r.window_secs == window / NANOS_PER_SEC,
            r.overall == stats_of(recent(self@, now, window)),
            splits_by_tool(recent(self@, now, window), r.by_tool@),
    {
        let ghost all = self@;
        let mut within: Vec<&Sample> = Vec::new();
        let mut i: usize = 0;
        proof {
            reveal(Seq::filter);
        }
        assert(views(within@) =~= recent(all.take(0), now, window));
        while i < self.samples.len()
            invariant
                i <= self.samples@.len(),
                all == self@,
                views(within@) == recent(all.take(i as int), now, window),
            decreases self.samples.len() - i,
        {
            proof {
                reveal(Seq::filter);
                assert(all.take(i + 1).drop_last() =~= all.take(i as int));
            }
            let ghost before = within@;
            if age_of(now, self.samples[i].at) <= window {
                within.push(&self.samples[i]);
                assert(views(within@) =~= views(before).push(all[i as int]));
            }
            i += 1;
        }
        assert(all.take(all.len() as int) =~= all);
        let overall: LatencyStats = LatencyStats::from_samples(&within);
        let by_tool: Vec<(String, LatencyStats)> = split_by_tool(&within);
        LatencySummary { window_secs: (window / NANOS_PER_SEC) as u64, overall, by_tool }
    }

    /// `window` split into `bucket`-wide slices ending at `now`, oldest first.
    /// `now_unix_ms` is the wall clock at `now`, used to label bucket starts.
    pub fn series_at(&self, now: u128, now_unix_ms: u64, window: u128, bucket: u128) -> (r: Vec<
        LatencyBucket,
    >)
        ensures
            r@.len() == bucket_count(whole_ms(window), bucket_width(bucket)),
            forall|i: int|
                0 <= i < r@.len() ==> #[trigger] r@[i] == bucket_at(
                    self@,
                    now,
                    now_unix_ms,
                    whole_ms(window),
                    bucket_width(bucket),
                    i,
                ),
    {
        let raw: u64 = to_ms(bucket);
        let bucket_ms: u64 = if raw < 1 {
            1
        } else {
            raw
        };
        let window_ms: u64 = to_ms(window);
        let wanted: u128 = (window_ms as u128 + bucket_ms as u128 - 1) / (bucket_ms as u128);
        let count: usize = if wanted > usize::MAX as u128 {
            usize::MAX
        } else {
            wanted as usize
        };
        assert(bucket_ms * count <= u64::MAX * u64::MAX) by (nonlinear_arith)
            requires
                bucket_ms <= u64::MAX,
                count <= u64::MAX,
        ;
        let wide: u128 = (bucket_ms as u128) * (count as u128);
        let span_ms: u64 = if wide > u64::MAX as u128 {
            u64::MAX
        } else {
            wide as u64
        };
        let ghost all = self@;
        let mut slices: Vec<Vec<&Sample>> = Vec::new();
        while slices.len() < count
            invariant
                slices@.len() <= count,
                forall|b: int| 0 <= b < slices@.len() ==> (#[trigger] slices@[b])@.len() == 0,
            decreases count - slices.len(),
        {
            slices.push(Vec::new());
        }
        proof {
            reveal(Seq::filter);
            assert forall|b: int| 0 <= b < count implies views((#[trigger] slices@[b])@) == in_bucket(
                all.take(0),
                now,
                window_ms,
                bucket_ms,
                b,
            ) by {
                assert(views(slices@[b]@) =~= Seq::empty());
            }
        }
        let mut i: usize = 0;
        while i < self.samples.len()
            invariant
                i <= self.samples@.len(),
                all == self@,
                bucket_ms >= 1,
                count == bucket_count(window_ms, bucket_ms),
                span_ms == series_span(window_ms, bucket_ms),
                slices@.len() == count,
                forall|b: int|
                    0 <= b < count ==> views((#[trigger] slices@[b])@) == in_bucket(
                        all.take(i as int),
                        now,
                        window_ms,
                        bucket_ms,
                        b,
                    ),
            decreases self.samples.len() - i,
        {
            let ghost before = slices@;
            proof {
                reveal(Seq::filter);
                assert(all.take(i + 1).drop_last() =~= all.take(i as int));
            }
            let back: u64 = to_ms(age_of(now, self.samples[i].at));
            if back < span_ms {
                let steps: u64 = back / bucket_ms;
                proof {
                    lemma_inside_span(back as int, bucket_ms as int, count as int);
                }
                let slot: usize = count - 1 - steps as usize;
                slices[slot].push(&self.samples[i]);
                proof {
                    assert forall|b: int| 0 <= b < count implies views((#[trigger] slices@[b])@)
                        == in_bucket(all.take(i + 1), now, window_ms, bucket_ms, b) by {
                        if b == slot {
                            assert(views(slices@[b]@) =~= views(before[b]@).push(all[i as int]));
                        } else {
                            assert(slices@[b] == before[b]);
                        }
                    }
                }
            }
            i += 1;
        }
        assert(all.take(all.len() as int) =~= all);
        let origin: u64 = if now_unix_ms >= span_ms {
            now_unix_ms - span_ms
        } else {
            0
        };
        let mut r: Vec<LatencyBucket> = Vec::new();
        while r.len() < slices.len()
            invariant
                all == self@,
                bucket_ms >= 1,
                bucket_ms == bucket_width(bucket),
                window_ms == whole_ms(window),
                count == bucket_count(window_ms, bucket_ms),
                span_ms == series_span(window_ms, bucket_ms),
                origin == (if now_unix_ms >= span_ms {
                    now_unix_ms - span_ms
                } else {
                    0
                }),
                slices@.len() == count,
                r@.len() <= count,
                forall|b: int|
                    0 <= b < count ==> views((#[trigger] slices@[b])@) == in_bucket(
                        all,
                        now,
                        window_ms,
                        bucket_ms,
                        b,
                    ),
                forall|b: int|
                    0 <= b < r@.len() ==> #[trigger] r@[b] == bucket_at(
                        self@,
                        now,
                        now_unix_ms,
                        window_ms,
                        bucket_ms,
                        b,
                    ),
            decreases count - r.len(),
        {
            let b: usize = r.len();
            proof {
                lemma_bucket_start(window_ms as int, bucket_ms as int, b as int);
            }
            let start_ms: u64 = origin + bucket_ms * (b as u64);
            let stats: LatencyStats = LatencyStats::from_samples(&slices[b]);
            r.push(LatencyBucket { start_ms, stats });
        }
        r
    }

    /// Slowest call to one of `tools` finishing within `within` of `now`, if any.
    pub fn recent_max_at(&self, now: u128, within: u128, tools: &Vec<String>) -> (r: Option<u64>)
        ensures
            r == slowest(
                durations(
                    recent(self@, now, within).filter(
                        |s: SampleView| crate::text::texts(tools@).contains(s.tool),
                    ),
                ),
            ),
    {
        let ghost all = self@;
        let ghost wanted = |s: SampleView| crate::text::texts(tools@).contains(s.tool);
        let mut best: Option<u64> = None;
        let mut i: usize = 0;
        proof {
            reveal(Seq::filter);
            assert(durations(recent(all.take(0), now, within).filter(wanted)) =~= Seq::empty());
        }
        while i < self.samples.len()
            invariant
                i <= self.samples@.len(),
                all == self@,
                wanted == (|s: SampleView| crate::text::texts(tools@).contains(s.tool)),
                best == slowest(durations(recent(all.take(i as int), now, within).filter(wanted))),
            decreases self.samples.len() - i,
        {
            let s: &Sample = &self.samples[i];
            let ghost seen = recent(all.take(i as int), now, within);
            let ghost next = recent(all.take(i + 1), now, within);
            proof {
                reveal(Seq::filter);
                assert(all.take(i + 1).drop_last() =~= all.take(i as int));
                assert(all.take(i + 1).last() == s@);
            }
            if age_of(now, s.at) <= within {
                proof {
                    assert(next =~= seen.push(s@));
                    assert(next.drop_last() =~= seen);
                }
                let named: bool = match crate::text::position_of(tools, s.tool.as_str()) {
                    Some(p) => {
                        assert(crate::text::texts(tools@)[p as int] == s.tool@);
                        true
                    },
                    None => {
                        assert forall|p: int| 0 <= p < tools@.len() implies crate::text::texts(
                            tools@,
                        )[p] != s.tool@ by {
                            assert(tools@[p]@ != s.tool@);
                        }
                        false
                    },
                };
                if named {
                    proof {
                        let d = durations(seen.filter(wanted));
                        let d2 = durations(next.filter(wanted));
                        assert(d2 =~= d.push(s.ms));
                        assert(d2.drop_last() =~= d);
                    }
                    best = match best {
                        Some(b) => if b < s.ms {
                            Some(s.ms)
                        } else {
                            Some(b)
                        },
                        None => Some(s.ms),
                    };
                }
            }
            i += 1;
        }
        assert(all.take(all.len() as int) =~= all);
        best
    }
}

/// The largest of `ms`, if there is one.
pub open spec fn slowest(ms: Seq<u64>) -> Option<u64>
    decreases ms.len(),
{
    if ms.len() == 0 {
        None
    } else {
        match slowest(ms.drop_last()) {
            Some(b) => if b < ms.last() {
                Some(ms.last())
            } else {
                Some(b)
            },
            None => Some(ms.last()),
        }
    }
}

proof fn lemma_inside_span(back: int, bucket: int, count: int)
    requires
        0 <= back < bucket * count,
        bucket >= 1,
        count >= 0,
    ensures
        0 <= back / bucket < count,
{
    assert(0 <= back / bucket < count) by (nonlinear_arith)
        requires
            0 <= back < bucket * count,
            bucket >= 1,
            count >= 0,
    ;
}

proof fn lemma_bucket_start(window: int, bucket: int, b: int)
    requires
        0 <= window <= u64::MAX,
        1 <= bucket <= u64::MAX,
        0 <= b < bucket_count(window as u64, bucket as u64),
    ensures
        0 <= bucket * b < window,
        bucket * b <= series_span(window as u64, bucket as u64),
{
    let n = (window + bucket - 1) / bucket;
    assert(bucket * b < window) by (nonlinear_arith)
        requires
            0 <= b < n,
            bucket >= 1,
            n == (window + bucket - 1) / bucket,
    ;
    assert(0 <= bucket * b <= bucket * bucket_count(window as u64, bucket as u64)) by (nonlinear_arith)
        requires
            0 <= b < bucket_count(window as u64, bucket as u64),
            bucket >= 1,
    ;
}

/// The statistics of each tool called in `samples`, in the order of the tools' names.
fn split_by_tool(samples: &Vec<&Sample>) -> (r: Vec<(String, LatencyStats)>)
    ensures
        splits_by_tool(views(samples@), r@),
{
    let ghost all = views(samples@);
    let mut names: Vec<String> = Vec::new();
    let mut i: usize = 0;
    while i < samples.len()
        invariant
            i <= samples@.len(),
            all == views(samples@),
            forall|x: int, y: int|
                0 <= x < y < names@.len() ==> text_less((#[trigger] names@[x])@, (#[trigger] names@[y])@),
            forall|x: int|
                0 <= x < names@.len() ==> exists|k: int|
                    0 <= k < all.len() && (#[trigger] all[k]).tool == (#[trigger] names@[x])@,
            forall|k: int|
                0 <= k < i ==> exists|x: int|
                    0 <= x < names@.len() && (#[trigger] names@[x])@ == (#[trigger] all[k]).tool,
        decreases samples.len() - i,
    {
        let ghost before = names@;
        let tool: &String = &samples[i].tool;
        assert(all[i as int].tool == tool@);
        let (found, at): (bool, usize) = place_of(&names, tool.as_str());
        if found {
            assert(names@[at as int]@ == tool@);
        } else {
            names.insert(at, tool.clone());
            proof {
                assert forall|x: int, y: int| 0 <= x < y < names@.len() implies text_less(
                    (#[trigger] names@[x])@,
                    (#[trigger] names@[y])@,
                ) by {
                    if x != at && y != at {
                        let ox = if x < at { x } else { x - 1 };
                        let oy = if y < at { y } else { y - 1 };
                        assert(names@[x] == before[ox]);
                        assert(names@[y] == before[oy]);
                    } else if x == at {
                        assert(names@[y] == before[y - 1]);
                    } else {
                        assert(names@[x] == before[x]);
                    }
                }
                assert forall|x: int| 0 <= x < names@.len() implies exists|k: int|
                    0 <= k < all.len() && (#[trigger] all[k]).tool == (#[trigger] names@[x])@ by {
                    if x == at {
                        assert(all[i as int].tool == names@[x]@);
                    } else {
                        let ox = if x < at { x } else { x - 1 };
                        assert(names@[x] == before[ox]);
                    }
                }
                assert forall|k: int| 0 <= k < i + 1 implies exists|x: int|
                    0 <= x < names@.len() && (#[trigger] names@[x])@ == (#[trigger] all[k]).tool by {
                    if k == i {
                        assert(names@[at as int]@ == all[k].tool);
                    } else {
                        let ox = choose|x: int| 0 <= x < before.len() && (#[trigger] before[x])@ == all[k].tool;
                        let x = if ox < at { ox } else { ox + 1 };
                        assert(names@[x] == before[ox]);
                    }
                }
            }
        }
        i += 1;
    }
    let mut r: Vec<(String, LatencyStats)> = Vec::new();
    let mut n: usize = 0;
    while n < names.len()
        invariant
            n <= names@.len(),
            all == views(samples@),
            r@.len() == n,
            forall|x: int|
                0 <= x < n ==> (#[trigger] r@[x]).0@ == names@[x]@ && r@[x].1 == stats_of(
                    calls_of(all, names@[x]@),
                ),
        decreases names.len() - n,
    {
        let mut mine: Vec<&Sample> = Vec::new();
        let mut k: usize = 0;
        proof {
            reveal(Seq::filter);
        }
        assert(views(mine@) =~= calls_of(all.take(0), names@[n as int]@));
        while k < samples.len()
            invariant
                k <= samples@.len(),
                n < names@.len(),
                all == views(samples@),
                views(mine@) == calls_of(all.take(k as int), names@[n as int]@),
            decreases samples.len() - k,
        {
            let ghost before = mine@;
            proof {
                reveal(Seq::filter);
                assert(all.take(k + 1).drop_last() =~= all.take(k as int));
            }
            if same_text(samples[k].tool.as_str(), names[n].as_str()) {
                mine.push(samples[k]);
                assert(views(mine@) =~= views(before).push(all[k as int]));
            }
            k += 1;
        }
        assert(all.take(all.len() as int) =~= all);
        let stats: LatencyStats = LatencyStats::from_samples(&mine);
        r.push((names[n].clone(), stats));
        n += 1;
    }
    proof {
        assert forall|x: int, y: int| 0 <= x < y < r@.len() implies text_less(
            (#[trigger] r@[x]).0@,
            (#[trigger] r@[y]).0@,
        ) by {
            assert(text_less(names@[x]@, names@[y]@));
        }
        assert forall|k: int| 0 <= k < all.len() implies lists_tool(
            r@,
            (#[trigger] all[k]).tool,
        ) by {
            let x = choose|x: int| 0 <= x < names@.len() && (#[trigger] names@[x])@ == all[k].tool;
            assert(r@[x].0@ == all[k].tool);
        }
        assert forall|x: int| 0 <= x < r@.len() implies (#[trigger] r@[x]).1 == stats_of(
            calls_of(all, r@[x].0@),
        ) && calls_tool(all, r@[x].0@) by {
            let k = choose|k: int| 0 <= k < all.len() && (#[trigger] all[k]).tool == names@[x]@;
            assert(all[k].tool == r@[x].0@);
        }
    }
    r
}

/// Where `name` stands in the sorted list `names`, or where it belongs.
fn place_of(names: &Vec<String>, name: &str) -> (r: (bool, usize))
    requires
        forall|x: int, y: int|
            0 <= x < y < names@.len() ==> text_less((#[trigger] names@[x])@, (#[trigger] names@[y])@),
    ensures
        r.1 <= names@.len(),
        r.0 ==> r.1 < names@.len() && names@[r.1 as int]@ == name@,
        !r.0 ==> forall|x: int| 0 <= x < r.1 ==> text_less((#[trigger] names@[x])@, name@),
        !r.0 ==> forall|x: int| r.1 <= x < names@.len() ==> text_less(name@, (#[trigger] names@[x])@),
{
    let mut p: usize = 0;
    while p < names.len() && text_before(names[p].as_str(), name)
        invariant
            p <= names@.len(),
            forall|x: int| 0 <= x < p ==> text_less((#[trigger] names@[x])@, name@),
        decreases names.len() - p,
    {
        p += 1;
    }
    if p < names.len() && same_text(names[p].as_str(), name) {
        return (true, p);
    }
    proof {
        if p < names@.len() {
            crate::order::lemma_text_less_total(names@[p as int]@, name@);
            assert forall|x: int| p <= x < names@.len() implies text_less(name@, (#[trigger] names@[x])@) by {
                if p < x {
                    crate::order::lemma_text_less_transitive(name@, names@[p as int]@, names@[x]@);
                }
            }
        }
    }
    (false, p)
}

/// The milliseconds that a reading of the wall clock stands for: whole milliseconds since
/// the Unix epoch, zero for a clock set before it.
pub open spec fn epoch_ms(since_epoch: Option<u128>) -> u64 {
    match since_epoch {
        Some(nanos) => whole_ms(nanos),
        None => 0,
    }
}

/// The milliseconds that a reading of the wall clock stands for.
pub fn unix_ms_at(since_epoch: Option<u128>) -> (r: u64)
    ensures
        r == epoch_ms(since_epoch),
{
    match since_epoch {
        Some(nanos) => to_ms(nanos),
        None => 0,
    }
}

/// `SystemTime::now`, as nanoseconds after the Unix epoch; `None` for a clock set before
/// it. Nothing is claimed of the result: it is the time of the call. It is public because the
/// contract of [`unix_ms_now`] names it.
#[verifier::external_body]
pub fn wall_clock() -> (r: Option<u128>)
{
    match std::time::SystemTime::now().duration_since(std::time::UNIX_EPOCH) {
        Ok(d) => Some(d.as_nanos()),
        Err(_) => None,
    }
}

/// Current wall clock as Unix epoch milliseconds: those of a reading that the clock gave.
pub fn unix_ms_now() -> (r: u64)
    ensures
        exists|reading: Option<u128>|
            call_ensures(wall_clock, (), reading) && r == #[trigger] epoch_ms(reading),
{
    let reading: Option<u128> = wall_clock();
    unix_ms_at(reading)
}

/// Records one tool call that finished at `now`.
pub fn record_tool_call(reads: &mut LatencyRecorder, now: u128, tool: &str, elapsed: u128, ok: bool)
    ensures
        final(reads)@ == dropped_front(old(reads)@, now).push(
            SampleView { at: now, tool: tool@, ms: whole_ms(elapsed), ok },
        ),
{
    reads.record_at(now, tool, elapsed, ok);
}

/// A recorder makes room before it takes one more sample, so it never holds more than
/// `MAX_SAMPLES`.
pub proof fn law_recorder_is_bounded(samples: Seq<SampleView>, at: u128, new: SampleView)
    ensures
        dropped_front(samples, at).push(new).len() <= MAX_SAMPLES,
    decreases samples.len(),
{
    if samples.len() > 0 && (age(at, samples[0].at) > RETENTION || samples.len() >= MAX_SAMPLES) {
        law_recorder_is_bounded(samples.drop_first(), at, new);
    }
}

/// Whether samples stand in the order in which they finished.
pub open spec fn in_order(samples: Seq<SampleView>) -> bool {
    forall|i: int, j: int|
        0 <= i <= j < samples.len() ==> (#[trigger] samples[i]).at <= (#[trigger] samples[j]).at
}

/// Samples taken down in order stay in order, and after each none is past retention.
pub proof fn law_retention(samples: Seq<SampleView>, new: SampleView)
    requires
        in_order(samples),
        samples.len() > 0 ==> samples.last().at <= new.at,
    ensures
        in_order(dropped_front(samples, new.at).push(new)),
        forall|i: int|
            0 <= i < dropped_front(samples, new.at).push(new).len() ==> age(
                new.at,
                (#[trigger] dropped_front(samples, new.at).push(new)[i]).at,
            ) <= RETENTION,
    decreases samples.len(),
{
    let at = new.at;
    if samples.len() > 0 && (age(at, samples[0].at) > RETENTION || samples.len() >= MAX_SAMPLES) {
        law_retention(samples.drop_first(), new);
    }
}

/// Dropping from the front keeps the samples after the dropped ones, all of them and in
/// order.
pub proof fn law_latest_samples_are_kept(samples: Seq<SampleView>, at: u128)
    ensures
        dropped_front(samples, at).len() <= samples.len(),
        dropped_front(samples, at) == samples.skip(
            samples.len() - dropped_front(samples, at).len(),
        ),
    decreases samples.len(),
{
    if samples.len() > 0 && (age(at, samples[0].at) > RETENTION || samples.len() >= MAX_SAMPLES) {
        law_latest_samples_are_kept(samples.drop_first(), at);
        let kept = dropped_front(samples.drop_first(), at);
        assert(samples.drop_first().skip(samples.drop_first().len() - kept.len()) =~= samples.skip(
            samples.len() - kept.len(),
        ));
    } else {
        assert(samples.skip(0) =~= samples);
    }
}

/// Percentiles grow with the percentage, each is the duration of one of the calls, and the
/// hundredth is the slowest.
pub proof fn law_percentiles(samples: Seq<SampleView>)
    requires
        samples.len() > 0,
    ensures
        ({
            let s = stats_of(samples);
            &&& s.p50->0 <= s.p95->0 <= s.p98->0 <= s.p99->0 <= s.p100->0
            &&& s.p50 is Some && s.p95 is Some && s.p98 is Some && s.p99 is Some && s.p100 is Some
            &&& durations(samples).contains(s.p50->0)
            &&& durations(samples).contains(s.p95->0)
            &&& durations(samples).contains(s.p98->0)
            &&& durations(samples).contains(s.p99->0)
            &&& durations(samples).contains(s.p100->0)
            &&& forall|i: int| 0 <= i < samples.len() ==> (#[trigger] samples[i]).ms <= s.p100->0
        }),
{
    let ms = durations(samples);
    lemma_ascending(ms);
    let n = ms.len();
    let sorted = ascending(ms);
    assert(rank(n, 100) == n - 1);
    assert(0 <= rank(n, 50) <= rank(n, 95) <= rank(n, 98) <= rank(n, 99) <= rank(n, 100));
    lemma_same_members(ms, sorted);
    assert(ms.contains(sorted[rank(n, 50)]));
    assert(ms.contains(sorted[rank(n, 95)]));
    assert(ms.contains(sorted[rank(n, 98)]));
    assert(ms.contains(sorted[rank(n, 99)]));
    assert(ms.contains(sorted[rank(n, 100)]));
    assert forall|i: int| 0 <= i < samples.len() implies (#[trigger] samples[i]).ms <= sorted[n - 1] by {
        assert(ms[i] == samples[i].ms);
        assert(ms.contains(ms[i]));
        let j = choose|j: int| 0 <= j < sorted.len() && sorted[j] == ms[i];
        assert(sorted[j] <= sorted[n - 1]);
    }
}

proof fn lemma_same_members(a: Seq<u64>, b: Seq<u64>)
    requires
        a.to_multiset() == b.to_multiset(),
    ensures
        forall|i: int| 0 <= i < b.len() ==> a.contains(#[trigger] b[i]),
        forall|i: int| 0 <= i < a.len() ==> b.contains(#[trigger] a[i]),
{
    broadcast use vstd::seq_lib::group_to_multiset_ensures;
    assert forall|i: int| 0 <= i < b.len() implies a.contains(#[trigger] b[i]) by {
        assert(b.contains(b[i]));
        assert(b.to_multiset().count(b[i]) > 0);
    }
    assert forall|i: int| 0 <= i < a.len() implies b.contains(#[trigger] a[i]) by {
        assert(a.contains(a[i]));
        assert(a.to_multiset().count(a[i]) > 0);
    }
}

/// At least `p` percent of the calls took no longer than the `p`-th percentile: that many
/// come before it in the sorted durations, itself among them.
pub proof fn law_nearest_rank(samples: Seq<SampleView>, p: nat)
    requires
        samples.len() > 0,
        0 < p <= 100,
    ensures
        0 <= rank(samples.len(), p) < samples.len(),
        (rank(samples.len(), p) + 1) * 100 >= samples.len() * p,
        rank(samples.len(), p) * 100 < samples.len() * p,
{
    let n = samples.len();
    assert(n * p >= 1) by (nonlinear_arith)
        requires
            n > 0,
            p > 0,
    ;
    assert(n * p <= n * 100) by (nonlinear_arith)
        requires
            p <= 100,
    ;
}

/// How many calls the first `n` buckets of a series hold.
pub open spec fn counted(
    samples: Seq<SampleView>,
    now: u128,
    window_ms: u64,
    bucket_ms: u64,
    n: nat,
) -> nat
    decreases n,
{
    if n == 0 {
        0
    } else {
        counted(samples, now, window_ms, bucket_ms, (n - 1) as nat) + in_bucket(
            samples,
            now,
            window_ms,
            bucket_ms,
            n - 1,
        ).len()
    }
}

/// The calls among `samples` that a series reaches back to.
pub open spec fn in_span(
    samples: Seq<SampleView>,
    now: u128,
    window_ms: u64,
    bucket_ms: u64,
) -> Seq<SampleView> {
    samples.filter(
        |s: SampleView| whole_ms(age(now, s.at) as u128) < series_span(window_ms, bucket_ms),
    )
}

/// Every call that a series reaches back to is counted in exactly one of its buckets.
pub proof fn law_series_counts_each_call_once(
    samples: Seq<SampleView>,
    now: u128,
    window_ms: u64,
    bucket_ms: u64,
)
    requires
        bucket_ms >= 1,
    ensures
        counted(samples, now, window_ms, bucket_ms, bucket_count(window_ms, bucket_ms) as nat)
            == in_span(samples, now, window_ms, bucket_ms).len(),
    decreases samples.len(),
{
    reveal(Seq::filter);
    let total = bucket_count(window_ms, bucket_ms);
    if samples.len() == 0 {
        lemma_counted_of_none(samples, now, window_ms, bucket_ms, total as nat);
    } else {
        law_series_counts_each_call_once(samples.drop_last(), now, window_ms, bucket_ms);
        let back = whole_ms(age(now, samples.last().at) as u128);
        if back < series_span(window_ms, bucket_ms) {
            assert(bucket_ms * total >= series_span(window_ms, bucket_ms));
            lemma_inside_span(back as int, bucket_ms as int, total);
            lemma_counted_last(samples, now, window_ms, bucket_ms, total as nat);
        } else {
            lemma_counted_last(samples, now, window_ms, bucket_ms, total as nat);
        }
    }
}

proof fn lemma_counted_of_none(
    samples: Seq<SampleView>,
    now: u128,
    window_ms: u64,
    bucket_ms: u64,
    n: nat,
)
    requires
        samples.len() == 0,
    ensures
        counted(samples, now, window_ms, bucket_ms, n) == 0,
    decreases n,
{
    reveal(Seq::filter);
    if n > 0 {
        lemma_counted_of_none(samples, now, window_ms, bucket_ms, (n - 1) as nat);
    }
}

proof fn lemma_counted_last(
    samples: Seq<SampleView>,
    now: u128,
    window_ms: u64,
    bucket_ms: u64,
    n: nat,
)
    requires
        samples.len() > 0,
    ensures
        ({
            let back = whole_ms(age(now, samples.last().at) as u128);
            let slot = bucket_count(window_ms, bucket_ms) - 1 - back as int / bucket_ms as int;
            counted(samples, now, window_ms, bucket_ms, n) == counted(
                samples.drop_last(),
                now,
                window_ms,
                bucket_ms,
                n,
            ) + (if back < series_span(window_ms, bucket_ms) && 0 <= slot < n {
                1nat
            } else {
                0nat
            })
        }),
    decreases n,
{
    reveal(Seq::filter);
    if n > 0 {
        lemma_counted_last(samples, now, window_ms, bucket_ms, (n - 1) as nat);
    }
}

} // verus!
