use codesearch::dashboard::{events, latency_series, repo_counts, repo_inputs, Event};
use codesearch::exposition::{
    escape_label, format_value, tool_call_buckets_ms, Exposition, Histogram, Kind, Number,
    CONTENT_TYPE,
};
use codesearch::metrics::{
    last_hour_stats, pause_reason, pause_reasons, render, window_summaries, EventTotal, GovernorInputs,
    GovernorJob, GovernorStatus, Overall, OverallStatus, ProcessUsage, RepoHealth, RepoOutcome,
    Scrape, ToolTotals,
};
use codesearch::config::ReposConfig;
use codesearch::state::{CSharpIndexStatus, ServeState};
use codesearch::status::{RepoFacts, RepoStateLabel, RepoStatusInfo};
use codesearch::telemetry::{LatencyRecorder, NANOS_PER_MS, NANOS_PER_SEC};
use std::collections::{BTreeMap, HashSet};

fn is_metric_name(name: &str) -> bool {
    let mut chars = name.chars();
    chars
        .next()
        .is_some_and(|c| c.is_ascii_alphabetic() || c == '_' || c == ':')
        && chars.all(|c| c.is_ascii_alphanumeric() || c == '_' || c == ':')
}

fn is_value(value: &str) -> bool {
    matches!(value, "+Inf" | "-Inf" | "NaN") || value.parse::<f64>().is_ok()
}

/// Parse `key="value",...}` and return the unescaped labels plus the rest of the line.
fn parse_labels(mut rest: &str) -> Result<(BTreeMap<String, String>, &str), String> {
    let mut labels = BTreeMap::new();
    loop {
        if let Some(after) = rest.strip_prefix('}') {
            return Ok((labels, after));
        }
        let (key, after) = rest.split_once("=\"").ok_or("label without =\"")?;
        if !is_metric_name(key) || key.contains(':') {
            return Err(format!("bad label name {key:?}"));
        }
        let mut value = String::new();
        let mut chars = after.char_indices();
        let end = loop {
            match chars.next().ok_or("unterminated label value")? {
                (_, '\\') => match chars.next().ok_or("dangling escape")?.1 {
                    '\\' => value.push('\\'),
                    '"' => value.push('"'),
                    'n' => value.push('\n'),
                    c => return Err(format!("bad escape \\{c}")),
                },
                (_, '\n') => return Err("raw newline in label".to_string()),
                (i, '"') => break i,
                (_, c) => value.push(c),
            }
        };
        labels.insert(key.to_string(), value);
        rest = &after[end + 1..];
        rest = rest.strip_prefix(',').unwrap_or(rest);
    }
}

#[derive(Debug)]
struct Sample {
    name: String,
    labels: BTreeMap<String, String>,
    value: String,
}

/// Strict text-format 0.0.4 check: HELP/TYPE once per family before its samples, valid names,
/// labels and values.
fn parse(body: &str) -> Result<(BTreeMap<String, String>, Vec<Sample>), String> {
    let mut types: BTreeMap<String, String> = BTreeMap::new();
    let mut helped = HashSet::new();
    let mut samples = Vec::new();
    let mut current: Option<String> = None;
    for (n, line) in body.lines().enumerate() {
        let err = |msg: String| format!("line {}: {msg}: {line:?}", n + 1);
        if let Some(help) = line.strip_prefix("# HELP ") {
            let (name, _) = help
                .split_once(' ')
                .ok_or_else(|| err("HELP without text".into()))?;
            if !is_metric_name(name) || !helped.insert(name.to_string()) {
                return Err(err("bad or repeated HELP".into()));
            }
        } else if let Some(ty) = line.strip_prefix("# TYPE ") {
            let (name, kind) = ty
                .split_once(' ')
                .ok_or_else(|| err("TYPE without kind".into()))?;
            if !matches!(kind, "counter" | "gauge" | "histogram") {
                return Err(err(format!("unknown type {kind}")));
            }
            if types.insert(name.to_string(), kind.to_string()).is_some() {
                return Err(err("repeated TYPE".into()));
            }
            current = Some(name.to_string());
        } else if line.starts_with('#') || line.is_empty() {
            return Err(err("unexpected comment or blank line".into()));
        } else {
            let split = line
                .find(['{', ' '])
                .ok_or_else(|| err("no value".into()))?;
            let name = &line[..split];
            let (labels, rest) = match line[split..].strip_prefix('{') {
                Some(after) => parse_labels(after).map_err(err)?,
                None => (BTreeMap::new(), &line[split..]),
            };
            let value = rest
                .strip_prefix(' ')
                .ok_or_else(|| err("no space before value".into()))?;
            if !is_metric_name(name) || !is_value(value) {
                return Err(err("bad name or value".into()));
            }
            let family = ["_bucket", "_sum", "_count"]
                .iter()
                .find_map(|suffix| {
                    name.strip_suffix(suffix)
                        .filter(|base| types.get(*base).is_some_and(|k| k == "histogram"))
                })
                .unwrap_or(name);
            if current.as_deref() != Some(family) {
                return Err(err(format!("sample of {family} outside its family block")));
            }
            samples.push(Sample {
                name: name.to_string(),
                labels,
                value: value.to_string(),
            });
        }
    }
    Ok((types, samples))
}

#[test]
fn label_values_escape_backslash_quote_and_newline() {
    assert_eq!(escape_label(r#"a\b"c"#), r#"a\\b\"c"#);
    assert_eq!(escape_label("line1\nline2"), r"line1\nline2");
    assert_eq!(escape_label("plain /path"), "plain /path");

    let mut m = Exposition::new();
    m.family("x", Kind::Gauge, "help with \\ and\nnewline");
    m.sample("x", &vec![("path", "C:\\r\"e\"\npo")], &Number::Whole(1));
    let body = m.finish();
    let (_, samples) = parse(&body).unwrap();
    assert_eq!(samples[0].labels["path"], "C:\\r\"e\"\npo");
    assert!(
        body.starts_with("# HELP x help with \\\\ and\\nnewline\n"),
        "{body}"
    );
}

#[test]
fn values_use_prometheus_spellings() {
    let shown = |v: f64| Number::Shown(v.to_string());
    assert_eq!(format_value(&Number::Infinite), "+Inf");
    assert_eq!(format_value(&Number::NegativeInfinite), "-Inf");
    assert_eq!(format_value(&Number::NotANumber), "NaN");
    assert_eq!(format_value(&shown(1.0)), "1");
    assert_eq!(format_value(&shown(0.025)), "0.025");
    assert_eq!(format_value(&Number::Whole(1)), "1");
    assert_eq!(format_value(&Number::Thousandths(25)), "0.025");
    assert_eq!(format_value(&Number::Thousandths(1_500)), "1.5");
    assert_eq!(format_value(&Number::Thousandths(0)), "0");
    assert_eq!(format_value(&Number::Billionths(12_000_000_001)), "12.000000001");
}

#[test]
fn histograms_emit_cumulative_buckets_then_inf_sum_and_count() {
    let mut h = Histogram::new();
    for secs in [0.005, 0.2, 3.0, 45.0] {
        h.observe((secs * 1e9) as u64);
    }
    let mut m = Exposition::new();
    m.family("d_seconds", Kind::Histogram, "d");
    m.histogram("d_seconds", &vec![("tool", "search")], &h);
    let (_, samples) = parse(&m.finish()).unwrap();

    let buckets: Vec<(&str, f64)> = samples
        .iter()
        .filter(|s| s.name == "d_seconds_bucket")
        .map(|s| (s.labels["le"].as_str(), s.value.parse().unwrap()))
        .collect();
    assert_eq!(buckets.len(), tool_call_buckets_ms().len() + 1);
    assert!(buckets.windows(2).all(|w| w[0].1 <= w[1].1), "{buckets:?}");
    assert_eq!(buckets[0], ("0.01", 1.0));
    assert!(buckets.contains(&("0.25", 2.0)));
    assert!(buckets.contains(&("5", 3.0)));
    assert!(buckets.contains(&("30", 3.0)));
    assert_eq!(buckets.last(), Some(&("+Inf", 4.0)));
    assert!(samples.iter().all(|s| s.labels["tool"] == "search"));
    let value = |name: &str| {
        samples
            .iter()
            .find(|s| s.name == name)
            .unwrap()
            .value
            .clone()
    };
    assert_eq!(value("d_seconds_count"), "4");
    assert!((value("d_seconds_sum").parse::<f64>().unwrap() - 48.205).abs() < 1e-9);
    assert_eq!(h.count(), 4);
    assert_eq!(h.sum(), 48_205_000_000);
    assert_eq!(h.cumulative()[0], 1);
}

#[test]
fn every_governor_pause_reason_maps_to_a_bounded_category() {
    let cases = [
        ("a tool call took 4000 ms", "read_latency"),
        ("memory pressure critical", "memory_pressure"),
        ("memory pressure warn", "memory_pressure"),
        ("other processes use 90% CPU", "cpu"),
        ("on battery", "battery"),
        ("something new", "other"),
    ];
    for (reason, expected) in cases {
        assert_eq!(pause_reason(reason), expected, "{reason}");
        assert!(pause_reasons().contains(&expected));
    }
    assert!(pause_reasons().contains(&"other"));
}

fn health(alias: &str, path: &str, status: &str) -> RepoHealth {
    RepoHealth {
        alias: alias.to_string(),
        path: path.to_string(),
        status: status.to_string(),
        queued: false,
        changes: 3,
        outcome: RepoOutcome {
            indexed_at_ms: None,
            duration_ms: None,
            failures: 0,
        },
    }
}

fn job(label: &str, paused: Option<&str>) -> GovernorJob {
    GovernorJob {
        label: label.to_string(),
        priority: "background".to_string(),
        secs: 7,
        paused: paused.map(str::to_string),
    }
}

fn scrape() -> Scrape {
    let now = 100 * NANOS_PER_SEC;
    let mut reads = LatencyRecorder::default();
    reads.record_at(now, "search", 30 * NANOS_PER_MS, true);
    reads.record_at(now, "find", 12 * NANOS_PER_MS, false);
    reads.record_at(now, "unheard-of", 12 * NANOS_PER_MS, true);
    let mut totals = Vec::new();
    for (tool, ms, failures) in [("find", 12u64, 1u64), ("search", 30, 0)] {
        let mut histogram = Histogram::new();
        histogram.observe(ms * 1_000_000);
        totals.push(ToolTotals {
            tool: tool.to_string(),
            histogram,
            failures,
        });
    }
    let mut svc = health("metrics-svc", "/w/metrics-svc", "open");
    svc.outcome.duration_ms = Some(250);
    svc.outcome.indexed_at_ms = Some(1_700_000_000_500);
    let mut queued = health("waiting", "/w/waiting", "indexing");
    queued.queued = true;
    Scrape {
        version: "1.2.3".to_string(),
        uptime_nanos: 12_500_000_000,
        slo_ms: 1_500,
        read_target_ms: 800,
        totals,
        summaries: window_summaries(&reads, now),
        known_tools: vec!["find".to_string(), "search".to_string()],
        overall: Overall {
            status: OverallStatus::Degraded,
            reasons: vec!["slow".to_string()],
        },
        governor: GovernorStatus {
            max_jobs: 2,
            running: vec![
                job("/w/metrics-svc", Some("on battery")),
                job("/w/nobody", None),
            ],
            waiting: vec![job("/w/waiting", None)],
            inputs: GovernorInputs {
                recent_read_max_ms: Some(40),
                other_cpu_ratio: Some("0.25".to_string()),
                memory_pressure: Some("warn".to_string()),
                on_battery: Some(true),
            },
        },
        pressure_levels: vec!["normal".to_string(), "warn".to_string(), "critical".to_string()],
        qos_read: None,
        qos_index: Some("background".to_string()),
        index_threads: 4,
        repos: vec![svc, queued],
        events: vec![EventTotal {
            level: "info".to_string(),
            total: 9,
        }],
        usage: Some(ProcessUsage {
            memory_bytes: 4_096,
            cpu_ms: 1_250,
        }),
    }
}

#[test]
fn metrics_endpoint_serves_valid_exposition_with_every_family() {
    assert_eq!(CONTENT_TYPE, "text/plain; version=0.0.4; charset=utf-8");
    let body = render(&scrape());
    let (types, samples) = parse(&body).unwrap_or_else(|e| panic!("{e}\n{body}"));

    for (family, kind) in [
        ("codesearch_build_info", "gauge"),
        ("codesearch_uptime_seconds", "gauge"),
        ("codesearch_slo_seconds", "gauge"),
        ("codesearch_read_target_seconds", "gauge"),
        ("codesearch_status", "gauge"),
        ("codesearch_degraded_reasons", "gauge"),
        ("codesearch_tool_call_duration_seconds", "histogram"),
        ("codesearch_tool_call_failures_total", "counter"),
        ("codesearch_tool_call_latency_seconds", "gauge"),
        ("codesearch_tool_call_window_calls", "gauge"),
        ("codesearch_index_governor_max_jobs", "gauge"),
        ("codesearch_index_governor_jobs", "gauge"),
        ("codesearch_index_governor_paused_jobs", "gauge"),
        ("codesearch_qos_info", "gauge"),
        ("codesearch_repos", "gauge"),
        ("codesearch_repo_info", "gauge"),
        ("codesearch_repo_last_indexed_timestamp_seconds", "gauge"),
        ("codesearch_index_events_total", "counter"),
    ] {
        assert_eq!(types.get(family).map(String::as_str), Some(kind), "{family}");
    }
    let find = |name: &str, labels: &[(&str, &str)]| {
        samples
            .iter()
            .find(|s| {
                s.name == name
                    && labels
                        .iter()
                        .all(|(k, v)| s.labels.get(*k).map(String::as_str) == Some(*v))
            })
            .map(|s| s.value.clone())
    };
    assert_eq!(
        find("codesearch_build_info", &[("version", "1.2.3")]).as_deref(),
        Some("1")
    );
    assert_eq!(find("codesearch_uptime_seconds", &[]).as_deref(), Some("12.5"));
    assert!(find(
        "codesearch_tool_call_duration_seconds_bucket",
        &[("tool", "search"), ("le", "+Inf")]
    )
    .is_some());
    assert_eq!(
        find("codesearch_tool_call_failures_total", &[("tool", "find")]).as_deref(),
        Some("1")
    );
    assert_eq!(
        find(
            "codesearch_tool_call_latency_seconds",
            &[("tool", "all"), ("window", "1h"), ("quantile", "0.95")]
        )
        .as_deref(),
        Some("0.03")
    );
    assert!(find(
        "codesearch_tool_call_latency_seconds",
        &[("tool", "unheard-of")]
    )
    .is_none());
    assert_eq!(
        find(
            "codesearch_tool_call_window_calls",
            &[("tool", "all"), ("window", "24h")]
        )
        .as_deref(),
        Some("3")
    );
    assert!(find(
        "codesearch_repo_info",
        &[("repo", "metrics-svc"), ("path", "/w/metrics-svc")]
    )
    .is_some());
    assert_eq!(
        find(
            "codesearch_repo_last_index_duration_seconds",
            &[("repo", "metrics-svc")]
        )
        .as_deref(),
        Some("0.25")
    );
    assert_eq!(
        find(
            "codesearch_repo_last_indexed_timestamp_seconds",
            &[("repo", "metrics-svc")]
        )
        .as_deref(),
        Some("1700000000.5")
    );
    assert!(find(
        "codesearch_repo_last_index_duration_seconds",
        &[("repo", "waiting")]
    )
    .is_none());
    assert_eq!(
        find("codesearch_index_governor_paused_jobs", &[("reason", "battery")]).as_deref(),
        Some("1")
    );
    assert_eq!(
        find(
            "codesearch_index_governor_job_seconds",
            &[("repo", "unregistered"), ("state", "running")]
        )
        .as_deref(),
        Some("7")
    );
    assert_eq!(
        find("codesearch_index_governor_memory_pressure", &[("level", "warn")]).as_deref(),
        Some("1")
    );
    assert_eq!(
        find("codesearch_index_governor_memory_pressure", &[("level", "normal")]).as_deref(),
        Some("0")
    );
    assert_eq!(find("codesearch_qos_info", &[("read", "unset")]).as_deref(), Some("1"));
    assert_eq!(find("codesearch_repos_indexing", &[]).as_deref(), Some("1"));
    assert_eq!(find("codesearch_repos_queued", &[]).as_deref(), Some("1"));
    assert_eq!(find("process_cpu_seconds_total", &[]).as_deref(), Some("1.25"));
    let statuses: f64 = samples
        .iter()
        .filter(|s| s.name == "codesearch_status")
        .map(|s| s.value.parse::<f64>().unwrap())
        .sum();
    assert_eq!(statuses, 1.0);
}

#[test]
fn a_scrape_parses_whatever_its_labels_hold() {
    let odd = "a\"b\\c\n# TYPE x gauge\n} 1";
    let mut s = scrape();
    s.version = odd.to_string();
    s.qos_read = Some(odd.to_string());
    s.repos = vec![health(odd, odd, odd)];
    s.totals[0].tool = odd.to_string();
    s.governor.running = vec![job(odd, Some(odd))];
    s.governor.inputs.memory_pressure = Some(odd.to_string());
    s.pressure_levels = vec![odd.to_string()];
    s.events[0].level = odd.to_string();
    for ratio in ["0", "12.5", "-3", "+Inf", "-Inf", "NaN"] {
        s.governor.inputs.other_cpu_ratio = Some(ratio.to_string());
        let (types, samples) = parse(&render(&s)).unwrap();
        assert_eq!(types.len(), 35);
        let info = samples.iter().find(|s| s.name == "codesearch_repo_info").unwrap();
        assert_eq!(info.labels["repo"], odd);
        assert_eq!(info.labels["path"], odd);
        assert_eq!(info.labels["status"], odd);
    }
}

#[test]
fn one_status_is_current() {
    for (status, name) in [(OverallStatus::Healthy, "ok"), (OverallStatus::Degraded, "degraded")] {
        assert_eq!(status.as_str(), name);
        let mut s = scrape();
        s.overall.status = status;
        let (_, samples) = parse(&render(&s)).unwrap();
        let current: Vec<(&str, &str)> = samples
            .iter()
            .filter(|s| s.name == "codesearch_status")
            .map(|s| (s.labels["status"].as_str(), s.value.as_str()))
            .collect();
        assert_eq!(current.len(), 2);
        for (label, value) in current {
            assert_eq!(value, if label == name { "1" } else { "0" });
        }
    }
}

#[test]
fn health_is_judged_by_the_last_hour() {
    let now = 10_000 * NANOS_PER_SEC;
    let mut reads = LatencyRecorder::default();
    reads.record_at(now - 3_000 * NANOS_PER_SEC, "search", 30 * NANOS_PER_MS, false);
    reads.record_at(now, "search", 12 * NANOS_PER_MS, true);
    let hour = last_hour_stats(&window_summaries(&reads, now));
    assert_eq!((hour.count, hour.failures), (2, 1));
    assert_eq!(hour.p100, Some(30));
    let none = last_hour_stats(&Vec::new());
    assert_eq!((none.count, none.p100), (0, None));
}

#[test]
fn an_escaped_label_ends_at_the_first_quote_without_a_backslash() {
    for label in ["a\"b", "\\", "\\\"", "\"}\n", ""] {
        let line = format!("k=\"{}\"}} 1", escape_label(label));
        let (labels, rest) = parse_labels(line.as_str()).unwrap();
        assert_eq!(labels["k"], label);
        assert_eq!(rest, " 1");
    }
}

#[test]
fn unknown_governor_inputs_are_left_out() {
    let mut s = scrape();
    s.governor.inputs = GovernorInputs {
        recent_read_max_ms: None,
        other_cpu_ratio: None,
        memory_pressure: None,
        on_battery: None,
    };
    s.usage = None;
    let body = render(&s);
    let (types, _) = parse(&body).unwrap();
    assert!(!types.contains_key("codesearch_index_governor_on_battery"));
    assert!(!types.contains_key("codesearch_index_governor_memory_pressure"));
    assert!(!types.contains_key("process_cpu_seconds_total"));
}

#[test]
fn latency_series_clamps_the_window_and_bucket() {
    let reads = LatencyRecorder::default();
    let cases = [
        (None, None, 6, 10, 36),
        (Some(1), Some(2), 1, 2, 30),
        (Some(500), Some(0), 24, 1, 1440),
        (Some(0), Some(9_999), 1, 240, 1),
    ];
    for (hours, bucket, want_hours, want_bucket, want_len) in cases {
        let v = latency_series(&reads, 1_000 * NANOS_PER_SEC, 1_700_000_000_000, hours, bucket);
        assert_eq!(v.hours, want_hours, "{hours:?}");
        assert_eq!(v.bucket_minutes, want_bucket, "{bucket:?}");
        assert_eq!(v.buckets.len(), want_len);
    }
}

#[test]
fn events_are_clamped_to_the_log_size() {
    let max_events = 4;
    let log: Vec<Event> = (0..6)
        .map(|i| Event {
            at_ms: i,
            level: "info".to_string(),
            msg: format!("dashboard-test event {i}"),
            repo: None,
        })
        .collect();
    let one = events(&log, Some(0), max_events);
    assert_eq!(one.len(), 1);
    assert_eq!(one[0].at_ms, 5);
    let all = events(&log, Some(usize::MAX), max_events);
    assert_eq!(all.len(), max_events);
    assert_eq!(all[3].msg, "dashboard-test event 2");
    assert_eq!(events(&log, None, 100).len(), 6);
}

fn info(status: RepoStateLabel) -> RepoStatusInfo {
    RepoStatusInfo {
        status,
        changes: 2,
        last_tool_call: None,
        tool_call_count: 0,
        csharp_index: CSharpIndexStatus::Absent,
        csharp_error: None,
        typescript_index: CSharpIndexStatus::Absent,
    }
}

#[test]
fn repo_health_is_judged_by_status_and_path() {
    let mut config = ReposConfig::empty();
    config.register("api", "/w/api");
    let rows = vec![
        ("api".to_string(), info(RepoStateLabel::NoIndex)),
        ("gone".to_string(), info(RepoStateLabel::Open)),
    ];
    let inputs = repo_inputs(&rows, &config);
    assert_eq!((inputs[0].path.as_str(), inputs[0].state), ("/w/api", "no_index"));
    assert_eq!((inputs[1].path.as_str(), inputs[1].state), ("", "open"));
    assert_eq!(inputs[1].changes, 2);
    let counts = repo_counts(&scrape().repos);
    assert_eq!(
        (counts.total, counts.indexing, counts.failing, counts.queued),
        (2, 1, 0, 1)
    );
}

#[test]
fn a_repository_without_a_database_has_no_index() {
    let mut config = ReposConfig::empty();
    config.register("api", "/w/api");
    let mut state = ServeState::new(config);
    let facts = vec![RepoFacts {
        alias: "api".to_string(),
        db_exists: false,
        store_changes: 0,
        csharp_built: false,
        typescript_built: false,
        task_finished: false,
    }];
    let rows = state.repo_statuses_lightweight(&facts, 5, 600);
    assert_eq!(rows[0].1.status, RepoStateLabel::NoIndex);
}
