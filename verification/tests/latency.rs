use codesearch::telemetry::{
    interactive_tools, record_tool_call, unix_ms_at, unix_ms_now, LatencyRecorder, LatencyStats,
    MAX_SAMPLES, NANOS_PER_MS, NANOS_PER_SEC, RETENTION,
};

fn ms(n: u64) -> u128 {
    n as u128 * NANOS_PER_MS
}

fn secs(n: u64) -> u128 {
    n as u128 * NANOS_PER_SEC
}

const START: u128 = 1_000 * NANOS_PER_SEC;

#[test]
fn summary_reports_nearest_rank_percentiles() {
    let mut recorder = LatencyRecorder::default();
    let now = START;
    for i in 1..=100 {
        recorder.record_at(now, "search", ms(i * 10), i != 1);
    }

    let s = recorder.summary_at(now, RETENTION).overall;
    assert_eq!(
        s,
        LatencyStats {
            count: 100,
            failures: 1,
            p50: Some(500),
            p95: Some(950),
            p98: Some(980),
            p99: Some(990),
            p100: Some(1000),
        }
    );
}

#[test]
fn summary_splits_by_tool_and_honours_the_window() {
    let mut recorder = LatencyRecorder::default();
    let start = START;
    recorder.record_at(start, "search", ms(15_000), true);
    let later = start + secs(120);
    recorder.record_at(later, "search", ms(40), true);
    recorder.record_at(later, "get_chunk", ms(5), true);

    let last_minute = recorder.summary_at(later, secs(60));
    assert_eq!(last_minute.overall.count, 2);
    assert_eq!(last_minute.tool("search").unwrap().p100, Some(40));
    assert_eq!(last_minute.tool("get_chunk").unwrap().count, 1);

    let all = recorder.summary_at(later, RETENTION);
    assert_eq!(all.tool("search").unwrap().p100, Some(15_000));
    assert!(all.tool("find").is_none());
    assert_eq!(all.by_tool[0].0, "get_chunk");
    assert_eq!(all.by_tool[1].0, "search");
}

#[test]
fn an_empty_window_has_no_percentiles() {
    let s = LatencyRecorder::default().summary_at(START, RETENTION);
    assert_eq!(s.overall, LatencyStats::default());
    assert!(s.by_tool.is_empty());
    assert_eq!(s.window_secs, 86_400);
}

#[test]
fn samples_older_than_retention_are_dropped() {
    let mut recorder = LatencyRecorder::default();
    let start = START;
    recorder.record_at(start, "search", ms(9_000), true);
    let later = start + RETENTION + secs(1);
    recorder.record_at(later, "search", ms(10), true);

    let s = recorder.summary_at(later, RETENTION * 2).overall;
    assert_eq!((s.count, s.p100), (1, Some(10)));
}

#[test]
fn recent_max_sees_only_interactive_calls_inside_the_window() {
    let mut recorder = LatencyRecorder::default();
    let start = START;
    recorder.record_at(start, "search", ms(4_000), true);
    let later = start + secs(45);
    recorder.record_at(later, "search", ms(80), true);
    recorder.record_at(later, "find_impact", ms(30_000), true);

    let tools = interactive_tools();
    assert_eq!(recorder.recent_max_at(later, secs(30), &tools), Some(80));
    assert_eq!(recorder.recent_max_at(later, secs(60), &tools), Some(4_000));
    assert_eq!(
        LatencyRecorder::default().recent_max_at(later, secs(30), &tools),
        None
    );
}

#[test]
fn the_slowest_recent_call_does_not_depend_on_the_order_of_recording() {
    let mut recorder = LatencyRecorder::default();
    let later = START + secs(60);
    let tools = vec!["search".to_string()];
    recorder.record_at(later, "search", ms(500), true);
    recorder.record_at(START, "search", ms(10), true);
    assert_eq!(recorder.recent_max_at(later, secs(30), &tools), Some(500));
    recorder.record_at(later, "find", ms(9_000), true);
    assert_eq!(recorder.recent_max_at(later, secs(30), &tools), Some(500));
    assert_eq!(recorder.recent_max_at(later + secs(31), secs(30), &tools), None);
}

#[test]
fn a_full_recorder_drops_its_oldest_call() {
    let mut recorder = LatencyRecorder::default();
    recorder.record_at(START, "search", ms(777), true);
    for _ in 0..MAX_SAMPLES {
        recorder.record_at(START, "search", ms(1), true);
    }
    let s = recorder.summary_at(START, RETENTION).overall;
    assert_eq!((s.count, s.p100), (MAX_SAMPLES, Some(1)));
}

#[test]
fn a_series_counts_each_call_in_one_bucket() {
    let mut recorder = LatencyRecorder::default();
    let now = START;
    recorder.record_at(now - secs(25), "search", ms(30), true);
    recorder.record_at(now - secs(15), "search", ms(20), false);
    recorder.record_at(now, "search", ms(10), true);
    let buckets = recorder.series_at(now, 1_000_000, secs(30), secs(10));
    assert_eq!(buckets.len(), 3);
    assert_eq!(buckets[0].start_ms, 970_000);
    assert_eq!(buckets[2].start_ms, 990_000);
    let counts: Vec<usize> = buckets.iter().map(|b| b.stats.count).collect();
    assert_eq!(counts, vec![1, 1, 1]);
    assert_eq!(buckets[1].stats.failures, 1);
    assert_eq!(buckets[2].stats.p50, Some(10));
}

#[test]
fn a_tool_call_is_recorded_where_it_is_read() {
    let mut reads = LatencyRecorder::default();
    record_tool_call(&mut reads, START, "search", ms(12), false);
    let s = reads.summary_at(START, RETENTION);
    assert_eq!(s.tool("search").unwrap().failures, 1);
    assert_eq!(s.overall.p100, Some(12));
}

#[test]
fn the_wall_clock_is_told_in_unix_milliseconds() {
    assert_eq!(unix_ms_at(Some(1_500_999_999)), 1_500);
    assert_eq!(unix_ms_at(None), 0);
    // Some time after the year 2020.
    assert!(unix_ms_now() > 1_577_836_800_000);
}
