use codesearch::board::{dashboard_lines, Line};
use codesearch::config::{RepoEntry, ReposConfig};
use codesearch::handlers::ReindexLaunch;
use codesearch::info::{
    age_text, dir_size_human, doctor_failure, format_age, repo_info, LiveStats, OpenedIndex,
};
use codesearch::lifecycle::OpenedStores;
use codesearch::startup::{
    bind_address, fd_shortage, fd_target, invalid_bind_msg, standalone_check, HealthAnswer,
    PrewarmFacts,
};
use codesearch::state::{CSharpIndexStatus, ServeState, SymbolRebuildSignal};
use codesearch::status::{
    format_tool_call_ago, status_entries, Ink, RepoFacts, RepoStateLabel, RepoStatusInfo,
};
use codesearch::symbols::{
    commit_time, csharp_scip_concurrency, evaluate_csharp_rebuild, is_candidate_extension,
    is_ignored_dir, prewarm_enabled, prunes, rebuild_queue, ChangeScan, RebuildCandidate,
    RebuildDecision, RebuildFacts, RebuildOutcome, ScanStep,
};
use codesearch::text::trim_text;
use codesearch::tui::{
    build_remote_rows, map_repo_rows, peer_refreshed, with_remote_stats, KeyAction, Mount,
    Overlay, OverlayKeyAction, Refreshed, RemoteIndexStats, RemoteRows, RemoteStatsState,
    RemoteStatus, RepoRow, Tui, TuiEffect,
};

const SECOND: u64 = 1_000_000_000;

fn state_with(entries: &[(&str, &str)]) -> ServeState {
    let mut config = ReposConfig::empty();
    for (alias, path) in entries {
        config.register(alias, path);
    }
    ServeState::new(config)
}

fn facts(alias: &str, db_exists: bool) -> RepoFacts {
    RepoFacts {
        alias: alias.to_string(),
        db_exists,
        store_changes: 11,
        csharp_built: true,
        typescript_built: false,
        task_finished: false,
    }
}

#[test]
fn tool_calls_are_told_in_seconds_minutes_and_hours() {
    assert_eq!(format_tool_call_ago("search", 59), "search (59s ago)");
    assert_eq!(format_tool_call_ago("search", 60), "search (1m ago)");
    assert_eq!(format_tool_call_ago("find", 7_384), "find (2h 3m ago)");
}

#[test]
fn statuses_come_in_the_order_of_their_names() {
    let mut state = state_with(&[
        ("zeta", "/w/z"),
        ("Alpha", "/w/a"),
        ("mid", "/w/m"),
        ("busy", "/w/b"),
    ]);
    let now = 100 * SECOND;
    state.query_open_finished("zeta", OpenedStores::Write, true, true, now);
    let _ = state.readonly_open_finished("mid", false);
    state.begin_indexing("busy", now, 600);
    state.record_tool_call("zeta", "search", now - 61 * SECOND);
    state.csharp_signal("zeta", SymbolRebuildSignal::Failed("boom".to_string()));
    let rows = state.repo_statuses_lightweight(
        &vec![
            facts("zeta", true),
            facts("Alpha", true),
            facts("mid", true),
            facts("busy", true),
        ],
        now,
        600,
    );
    let names: Vec<&str> = rows.iter().map(|r| r.0.as_str()).collect();
    assert_eq!(names, vec!["Alpha", "busy", "mid", "zeta"]);
    let labels: Vec<RepoStateLabel> = rows.iter().map(|r| r.1.status).collect();
    assert_eq!(
        labels,
        vec![
            RepoStateLabel::Closed,
            RepoStateLabel::Indexing,
            RepoStateLabel::Error,
            RepoStateLabel::Open,
        ]
    );
    assert_eq!(rows[3].1.last_tool_call.as_deref(), Some("search (1m ago)"));
    assert_eq!(rows[3].1.changes, 11);
    assert_eq!(rows[2].1.changes, 0);
    assert_eq!(rows[3].1.csharp_index, CSharpIndexStatus::Error);
    assert_eq!(rows[3].1.csharp_error.as_deref(), Some("boom"));
    assert_eq!(rows[0].1.csharp_index, CSharpIndexStatus::Ready);

    let entries = status_entries(&rows);
    assert_eq!((entries[3].status, entries[3].lock_mode), ("open", "write"));
    assert_eq!((entries[0].status, entries[0].lock_mode), ("closed", "—"));
    assert_eq!(entries[3].csharp_index, "error");
    assert_eq!(entries[0].typescript_index, "none");
}

#[test]
fn labels_have_their_ink() {
    let open = RepoStateLabel::Open.colored();
    assert_eq!((open.text.as_str(), open.ink), ("Open", Ink::GreenBold));
    let none = RepoStateLabel::NoIndex.colored();
    assert_eq!((none.text.as_str(), none.ink), ("No Index", Ink::Dimmed));
    assert_eq!(RepoStateLabel::Readonly.lock_mode(), "read");
    assert_eq!(RepoStateLabel::Error.as_str(), "error");
}

fn plain(lines: &[Line]) -> Vec<String> {
    lines
        .iter()
        .map(|l| l.spans.iter().map(|s| s.text.as_str()).collect())
        .collect()
}

fn info(status: RepoStateLabel, changes: u64) -> RepoStatusInfo {
    RepoStatusInfo {
        status,
        changes,
        last_tool_call: None,
        tool_call_count: 4,
        csharp_index: CSharpIndexStatus::Absent,
        csharp_error: None,
        typescript_index: CSharpIndexStatus::Ready,
    }
}

#[test]
fn the_table_is_framed_and_summed_up() {
    let rows = vec![
        ("api".to_string(), info(RepoStateLabel::Open, 5)),
        ("frontend".to_string(), info(RepoStateLabel::Warm, 12)),
        ("old".to_string(), info(RepoStateLabel::NoIndex, 0)),
    ];
    let text = plain(&dashboard_lines(&rows, 2, 9));
    assert_eq!(text.len(), 4 + 3 + 5);
    assert_eq!(text[0], "");
    assert_eq!(
        text[1],
        "╭──────────┬────────────┬─────────┬──────────────────────────╮"
    );
    assert_eq!(
        text[2],
        "│ Project  │ Status     │ Changes │ Last Tool Call           │"
    );
    assert_eq!(
        text[4],
        "│ api      │ Open       │       5 │ —                        │"
    );
    assert_eq!(text[8], "");
    assert_eq!(text[9], "  Status: Healthy   Open: 1   Warm: 1   Closed: 1");
    assert_eq!(text[10], "  Active Sessions: 2   Total Since Start: 9");
    assert!(dashboard_lines(&vec![], 0, 0).is_empty());
}

#[test]
fn only_registered_repositories_are_shown() {
    let mut state = state_with(&[("kept", "/w/kept")]);
    let rows =
        state.repo_statuses_lightweight(&vec![facts("gone", true), facts("kept", true)], 1, 600);
    assert_eq!(rows.len(), 1);
    assert_eq!(rows[0].0, "kept");
}

#[test]
fn a_look_at_the_status_cancels_the_task_of_a_stale_marker() {
    let mut state = state_with(&[("leaky", "/w/leaky"), ("busy", "/w/busy")]);
    state.begin_indexing("leaky", 0, 600);
    state.index_task_started("leaky");
    state.begin_indexing("busy", 599 * SECOND, 600);
    state.index_task_started("busy");
    assert!(state.cancelled_tasks().is_empty());
    let rows = state.repo_statuses_lightweight(
        &vec![facts("leaky", true), facts("busy", true)],
        600 * SECOND,
        600,
    );
    assert_eq!(rows[0].1.status, RepoStateLabel::Indexing);
    assert_eq!(rows[1].1.status, RepoStateLabel::Closed);
    assert_eq!(state.cancelled_tasks(), vec!["leaky".to_string()]);
}

#[test]
fn an_error_makes_the_whole_table_unhealthy() {
    let rows = vec![("bad".to_string(), info(RepoStateLabel::Error, 0))];
    let lines = dashboard_lines(&rows, 0, 0);
    let summary: String = lines[7].spans.iter().map(|s| s.text.as_str()).collect();
    assert_eq!(summary, "  Status: Error   Open: 0   Warm: 0   Closed: 0");
    assert_eq!(lines[7].spans[3].ink, Ink::RedBold);
    let mut state = state_with(&[("bad", "/w/bad")]);
    let _ = state.readonly_open_finished("bad", false);
    assert_eq!(
        state.print_dashboard(&vec![facts("bad", true)], 1, 600).len(),
        lines.len()
    );
}

#[test]
fn ages_are_told_in_minutes_hours_and_days() {
    assert_eq!(age_text(-5), "just now");
    assert_eq!(age_text(59), "just now");
    assert_eq!(age_text(60), "1m ago");
    assert_eq!(age_text(3_599), "59m ago");
    assert_eq!(age_text(3_600), "1h ago");
    assert_eq!(age_text(86_400), "1d ago");
    // 2024-01-01T00:00:00Z is 1704067200.
    let now = (1_704_067_200, 0);
    assert_eq!(format_age("2023-12-31T22:30:00Z", now), "1h ago");
    assert_eq!(format_age("2023-12-31T23:00:00+02:00", now), "3h ago");
    assert_eq!(format_age("2023-12-31T23:10:00", now), "50m ago");
    assert_eq!(format_age("2024-01-01T00:00:00.5", now), "just now");
    assert_eq!(format_age("2030-01-01T00:00:00Z", now), "just now");
    assert_eq!(format_age("yesterday", now), "yesterday");
}

#[test]
fn a_leap_second_counts_to_the_instants_later_in_the_day() {
    // 2016-12-31T12:00:59Z is 1483185659.
    let leap = "2016-12-31T12:00:60Z";
    assert_eq!(format_age(leap, (1_483_185_718, 999_999_999)), "just now");
    assert_eq!(format_age(leap, (1_483_185_719, 0)), "1m ago");
    let inside = (1_483_185_659 + 82_800, 1_000_000_000);
    assert_eq!(format_age("2016-12-31T12:01:00Z", inside), "22h ago");
    assert_eq!(format_age("2016-12-31T12:00:59Z", inside), "23h ago");
}

#[test]
fn white_space_is_that_of_unicode() {
    assert_eq!(
        trim_text("\u{3000}\u{a0}\t k\u{2003}v \u{2029}\u{85}\n"),
        "k\u{2003}v"
    );
    assert_eq!(trim_text("\u{1680}\u{202f}\u{205f}\u{c}\u{b}"), "");
    assert_eq!(trim_text("\u{200b}x\u{feff}"), "\u{200b}x\u{feff}");
    assert_eq!(trim_text("\u{1c}x\u{180e}"), "\u{1c}x\u{180e}");
}

#[test]
fn every_registered_repository_has_one_row() {
    let mut state = state_with(&[("b", "/w/b"), ("a", "/w/a"), ("b", "/w/b2")]);
    let told = vec![facts("b", true), facts("stranger", true), facts("a", true)];
    let rows = state.repo_statuses_lightweight(&told, 1, 600);
    let names: Vec<&str> = rows.iter().map(|r| r.0.as_str()).collect();
    assert_eq!(names, vec!["a", "b"]);
}

#[test]
fn sizes_are_rounded_as_they_are_shown() {
    assert_eq!(dir_size_human(0), "—");
    for n in [
        1u64,
        511,
        512,
        513,
        1_536,
        2_560,
        1_048_575,
        1_048_576,
        1_101_004,
        1_073_741_823,
        1_073_741_824,
        1_181_116_006,
        5_000_000_000,
        9_007_199_254_740_993,
        u64::MAX,
    ] {
        let expected = if n >= 1 << 30 {
            format!("{:.1} GB", n as f64 / (1u64 << 30) as f64)
        } else if n >= 1 << 20 {
            format!("{:.1} MB", n as f64 / (1u64 << 20) as f64)
        } else {
            format!("{:.0} KB", n as f64 / 1024.0)
        };
        assert_eq!(dir_size_human(n), expected, "{n}");
    }
}

#[test]
fn live_statistics_override_the_metadata() {
    let meta = r#"{"model_short_name":"mini","dimensions":384,"total_chunks":7,"total_files":2,"indexed_at":"2023-12-31T22:30:00Z"}"#;
    let now = (1_704_067_200, 0);
    let closed = repo_info("/w/.db".to_string(), Some(meta), None, 2_048, now);
    assert_eq!((closed.chunks, closed.files, closed.dims), (7, 2, 384));
    assert_eq!((closed.model.as_str(), closed.lock), ("mini", "—"));
    assert_eq!(closed.index_age, "1h ago");
    assert_eq!(closed.db_size_human, "2 KB");
    assert_eq!(closed.indexed, None);
    let opened = OpenedIndex {
        readonly: false,
        stats: Some(LiveStats {
            total_chunks: 9,
            total_files: 3,
            max_chunk_id: 20,
            dimensions: 768,
            indexed: false,
        }),
    };
    let live = repo_info("/w/.db".to_string(), Some(meta), Some(opened), 0, now);
    assert_eq!((live.chunks, live.files, live.max_chunk_id), (9, 3, 20));
    assert_eq!((live.dims, live.indexed, live.lock), (384, Some(false), "write"));
    let bare = repo_info("/w/.db".to_string(), None, Some(opened), 0, now);
    assert_eq!((bare.dims, bare.model.as_str(), bare.index_age.as_str()), (768, "unknown", "—"));
}

#[test]
fn info_is_asked_for_a_registered_repository() {
    let state = state_with(&[("a", "/w/a")]);
    assert!(matches!(state.info_requested("a"), Ok(p) if p == "/w/a"));
    assert!(matches!(state.info_requested("b"), Err(r)
        if r.code == 404 && r.error.as_deref() == Some("unknown repo alias: b")));
    assert_eq!(
        doctor_failure("✗ Doctor failed: ", "boom"),
        vec![
            "✗ Doctor failed: boom".to_string(),
            String::new(),
            "  [Esc] close".to_string()
        ]
    );
}

#[test]
fn model_for_alias_reads_the_index_metadata_model() {
    let state = state_with(&[("repo", "/w/repo")]);
    for model in ["embeddinggemma-q4", "minilm-l6-q", "bge-base"] {
        let metadata = format!(r#"{{"model_short_name":"{model}","dimensions":768}}"#);
        assert_eq!(
            state.model_for_alias("repo", Some(&metadata)).as_deref(),
            Some(model)
        );
    }
}

#[test]
fn model_for_alias_is_none_without_index_metadata() {
    let state = state_with(&[("repo", "/w/repo")]);
    assert_eq!(state.model_for_alias("repo", None), None);
    let metadata = r#"{"model_short_name":"mini"}"#;
    assert_eq!(state.model_for_alias("not-registered", Some(metadata)), None);
}

#[test]
fn model_for_alias_is_per_repo_not_hub_wide() {
    let models = [("legacy", "minilm-l6-q"), ("rebuilt", "embeddinggemma-q4")];
    let state = state_with(&[("legacy", "/w/legacy"), ("rebuilt", "/w/rebuilt")]);
    for (alias, model) in models {
        let metadata = format!(r#"{{"model_short_name":"{model}"}}"#);
        assert_eq!(
            state.model_for_alias(alias, Some(&metadata)).as_deref(),
            Some(model)
        );
    }
}

fn candidate(alias: &str, decision: RebuildDecision, last_changed: i64) -> RebuildCandidate {
    RebuildCandidate {
        alias: alias.to_string(),
        decision,
        last_changed,
    }
}

#[test]
fn rebuilds_are_queued_by_recency() {
    let queue = rebuild_queue(&vec![
        candidate("old", RebuildDecision::NoIndex, 10),
        candidate("fresh", RebuildDecision::Fresh, 99),
        candidate("new", RebuildDecision::ChangedSinceLastBuild, 50),
    ]);
    assert_eq!(queue, vec!["new".to_string(), "old".to_string()]);
    let mut state = state_with(&[("new", "/w/n"), ("old", "/w/o"), ("fresh", "/w/f")]);
    state.mark_queued(&queue);
    state.symbol_index_fresh("fresh");
    assert_eq!(state.repo("new").csharp, Some(CSharpIndexStatus::Indexing));
    assert_eq!(state.repo("fresh").csharp, Some(CSharpIndexStatus::Ready));
    assert!(state.symbol_rebuild_begun("old", true, 5, 600));
    let end = state.symbol_rebuild_finished("old", RebuildOutcome::Succeeded);
    assert!(end.record_build);
    assert_eq!(state.repo("old").csharp, Some(CSharpIndexStatus::Ready));
    let candidates = state.prewarm_candidates(&vec![
        PrewarmFacts {
            alias: "old".to_string(),
            path_exists: true,
            applies: true,
        },
        PrewarmFacts {
            alias: "new".to_string(),
            path_exists: true,
            applies: true,
        },
        PrewarmFacts {
            alias: "fresh".to_string(),
            path_exists: false,
            applies: true,
        },
    ]);
    assert_eq!(candidates, vec!["old".to_string()]);
    state.prewarm_status("old", true);
    assert_eq!(state.repo("old").csharp, Some(CSharpIndexStatus::Indexing));
    state.prewarm_status("old", false);
    assert_eq!(state.repo("old").csharp, Some(CSharpIndexStatus::Ready));
}

#[test]
fn a_rebuild_is_due_when_something_changed() {
    let facts = |built: Option<i64>, has_index: bool| RebuildFacts {
        has_solution: true,
        helper_available: true,
        status: None,
        last_changed: Some(100),
        found_change: None,
        now: 500,
        last_built: built,
        has_index,
    };
    assert_eq!(
        evaluate_csharp_rebuild(&facts(None, false)).0,
        RebuildDecision::NoIndex
    );
    assert_eq!(
        evaluate_csharp_rebuild(&facts(Some(99), true)).0,
        RebuildDecision::ChangedSinceLastBuild
    );
    assert_eq!(
        evaluate_csharp_rebuild(&facts(Some(100), true)).0,
        RebuildDecision::Fresh
    );
    assert!(RebuildDecision::NoIndex.needs_rebuild());
    assert!(!RebuildDecision::Fresh.needs_rebuild());
}

#[test]
fn the_time_of_a_commit_is_read_from_what_git_prints() {
    assert_eq!(commit_time(" 1700000000\n"), Some(1_700_000_000));
    assert_eq!(commit_time("-5"), Some(-5));
    assert_eq!(commit_time("-9223372036854775808"), Some(i64::MIN));
    assert_eq!(commit_time("9223372036854775808"), None);
    assert_eq!(commit_time("-+5"), None);
    assert_eq!(commit_time("fatal: not a repository"), None);
    assert_eq!(commit_time(""), None);
}

#[test]
fn a_scan_for_changes_looks_at_project_files_only() {
    let mut scan = ChangeScan::new();
    assert!(matches!(scan.entry(true, Some("src"), None), ScanStep::Enter));
    assert!(matches!(scan.entry(true, Some("bin"), None), ScanStep::Skip));
    assert!(matches!(scan.entry(false, Some("a.cs"), Some("cs")), ScanStep::Measure));
    scan.measured(7);
    scan.measured(3);
    assert_eq!(scan.best, Some(7));
    assert!(matches!(scan.entry(false, Some("a.rs"), Some("rs")), ScanStep::Skip));
    assert!(is_ignored_dir("node_modules"));
    assert!(is_candidate_extension(Some("sln")));
    assert!(!is_candidate_extension(None));
    assert_eq!(csharp_scip_concurrency(Some("3"), 2), 3);
    assert_eq!(csharp_scip_concurrency(Some("x"), 2), 2);
    assert!(prewarm_enabled(None));
    assert!(!prewarm_enabled(Some("false")));
    assert!(prewarm_enabled(Some("no")));
}

#[test]
fn a_stale_repository_is_pruned() {
    let mut state = state_with(&[("gone", "/w/gone"), ("kept", "/w/kept")]);
    state.query_open_finished("gone", OpenedStores::Write, true, true, 1);
    assert!(prunes(true, false, true));
    assert!(!prunes(true, true, true));
    assert!(state.prune("gone"));
    assert!(state.repo("gone").mode.is_none());
    assert!(state.repo("gone").last_access.is_none());
    assert!(state.config().resolve("gone").is_none());
    assert!(!state.prune("gone"));
    let moved = vec![RepoEntry {
        alias: "kept".to_string(),
        path: "/v/kept".to_string(),
    }];
    assert!(state.paths_relocated(&moved));
    assert_eq!(state.config().resolve("kept").as_deref(), Some("/v/kept"));
    assert!(!state.paths_relocated(&vec![]));
}

#[test]
fn the_soft_limit_is_raised_as_far_as_it_goes() {
    assert_eq!(fd_target(256, 4_096, None), Some(4_096));
    assert_eq!(fd_target(256, 4_096, Some(1_024)), Some(1_024));
    assert_eq!(fd_target(256, 4_096, Some(100)), None);
    assert_eq!(fd_target(4_096, 4_096, None), None);
    assert_eq!(fd_shortage(1_000, 60), Some(1_456));
    assert_eq!(fd_shortage(1_456, 60), None);
}

#[test]
fn startup_errors_tell_what_to_do() {
    assert_eq!(bind_address("127.0.0.1", 39725), "127.0.0.1:39725");
    assert_eq!(
        invalid_bind_msg("::1", 80, "bad", "HOST_ENV"),
        "Invalid bind address '::1:80': bad. For IPv6, use brackets: `[::1]:port`. Override with --host or HOST_ENV."
    );
    assert!(standalone_check("http://x", false, HealthAnswer::Success).is_ok());
    let cases = [
        (true, HealthAnswer::Unauthorized, "rejected the configured API key"),
        (false, HealthAnswer::Unauthorized, "requires an API key"),
        (false, HealthAnswer::Failure, "returned an error"),
        (false, HealthAnswer::Unreachable, "No serve running at http://x"),
    ];
    for (key, answer, expected) in cases {
        let e = standalone_check("http://x", key, answer).unwrap_err();
        assert!(e.contains(expected), "{e}");
    }
}

fn mount(local: &str, peer: &str, remote: &str) -> Mount {
    Mount {
        local_name: local.to_string(),
        peer: peer.to_string(),
        peer_url: format!("https://{peer}"),
        remote_alias: remote.to_string(),
    }
}

fn told(peer: &str, alias: &str, status: &str) -> RemoteStatus {
    RemoteStatus {
        peer: peer.to_string(),
        alias: alias.to_string(),
        status: status.to_string(),
        lock_mode: "read".to_string(),
        changes: 1,
        tool_call_count: None,
        last_tool_call: Some("search (1m ago)".to_string()),
    }
}

#[test]
fn remote_rows_come_from_the_mounts() {
    let mounts = vec![mount("docs", "cloud", "kb"), mount("lib", "other", "lib")];
    let known = vec![told("cloud", "kb", "open")];
    let rows = build_remote_rows(&mounts, &known);
    assert_eq!(rows.len(), 2);
    assert_eq!((rows[0].status.as_str(), rows[0].changes), ("open", 1));
    assert_eq!(rows[0].path, "https://cloud");
    assert_eq!(rows[0].tool_call_count, 0);
    assert_eq!((rows[1].status.as_str(), rows[1].lock_mode.as_str()), ("warm", ""));
    assert!(rows.iter().all(|r| r.is_remote));

    // A repository that vanished on the peer is forgotten; other peers are untouched.
    let known = vec![told("cloud", "kb", "open"), told("other", "lib", "warm")];
    let fresh = vec![told("cloud", "new", "open"), told("its own name", "odd", "open")];
    let after = peer_refreshed(&known, "cloud", &fresh);
    let names: Vec<(&str, &str)> = after
        .iter()
        .map(|s| (s.peer.as_str(), s.alias.as_str()))
        .collect();
    assert_eq!(names, vec![("other", "lib"), ("cloud", "new"), ("cloud", "odd")]);
}

#[test]
fn a_peer_is_poked_only_when_it_was_used() {
    let mounts = vec![mount("docs", "cloud", "kb"), mount("more", "cloud", "kb2")];
    let mut state = state_with(&[]);
    let mut remote = RemoteRows::new();
    let refreshed = vec![Refreshed {
        peer: "cloud".to_string(),
        at: 100 * SECOND,
    }];
    remote.absorb(build_remote_rows(&mounts, &vec![]), &refreshed);

    // Nothing is known: nobody is poked.
    assert!(remote.look(&mounts, &state, 101 * SECOND, 30 * SECOND).is_empty());
    assert!(!remote.rows[0].activity_stale);
    // Activity that predates the view only seeds the mark.
    state.record_remote_peer_activity("cloud", 90 * SECOND);
    assert!(remote.look(&mounts, &state, 102 * SECOND, 30 * SECOND).is_empty());
    // A real call pokes the peer once, for all of its rows.
    state.record_remote_peer_activity("cloud", 103 * SECOND);
    assert_eq!(
        remote.look(&mounts, &state, 104 * SECOND, 30 * SECOND),
        vec!["cloud".to_string()]
    );
    // Without another call it is left alone, and its rows go stale.
    assert!(remote.look(&mounts, &state, 140 * SECOND, 30 * SECOND).is_empty());
    assert!(remote.rows.iter().all(|r| r.activity_stale));
}

fn tui() -> Tui {
    let mut config = ReposConfig::empty();
    config.register("api", "/w/api");
    let local = map_repo_rows(
        &vec![("api".to_string(), info(RepoStateLabel::Warm, 5))],
        &config,
    );
    assert_eq!((local[0].path.as_str(), local[0].lock_mode.as_str()), ("/w/api", "read"));
    let remote: Vec<RepoRow> = build_remote_rows(&vec![mount("docs", "cloud", "kb")], &vec![]);
    let mut tui = Tui::new();
    tui.selected = 9;
    tui.frame(local, &remote, 0);
    tui
}

#[test]
fn a_frame_keeps_the_selection_within_the_rows() {
    let mut t = tui();
    assert_eq!((t.rows.len(), t.local, t.selected), (2, 1, 1));
    t.frame(Vec::new(), &Vec::new(), 0);
    assert_eq!((t.rows.len(), t.selected), (0, 1));
}

#[test]
fn local_actions_do_not_apply_to_a_remote_mount() {
    for action in [
        KeyAction::RunDoctor(1),
        KeyAction::ForceReindex(1),
        KeyAction::RequestRemove(1),
    ] {
        let mut t = tui();
        assert!(matches!(t.key(action, true, 5), TuiEffect::Nothing));
        let (msg, at) = t.flash.as_ref().unwrap();
        assert_eq!(msg, "✗ doctor / reindex / remove don't apply to a remote mount");
        assert_eq!(*at, 5);
        assert!(t.overlay.is_none());
    }
}

#[test]
fn a_flash_goes_after_four_seconds() {
    let mut t = tui();
    assert!(matches!(t.key(KeyAction::ForceReindex(0), true, 0), TuiEffect::Reindex(a) if a == "api"));
    t.reindex_launched(ReindexLaunch::Started, "api", SECOND);
    assert_eq!(t.flash.as_ref().unwrap().0, "⟳ Reindex started for 'api' …");
    t.frame(Vec::new(), &Vec::new(), 5 * SECOND - 1);
    assert!(t.flash.is_some());
    t.frame(Vec::new(), &Vec::new(), 5 * SECOND);
    assert!(t.flash.is_none());
}

#[test]
fn removal_is_confirmed_first() {
    let mut t = tui();
    assert!(matches!(t.key(KeyAction::RequestRemove(0), true, 0), TuiEffect::Nothing));
    assert!(matches!(&t.overlay, Some(Overlay::ConfirmRemove(a)) if a == "api"));
    assert_eq!(t.overlay_key(OverlayKeyAction::ConfirmRemove), Some("api".to_string()));
    assert!(t.overlay.is_none());
    let _ = t.key(KeyAction::RequestRemove(0), true, 0);
    assert_eq!(t.overlay_key(OverlayKeyAction::Dismiss), None);
    assert!(t.overlay.is_none());
}

#[test]
fn a_late_result_does_not_replace_a_newer_one() {
    let mut t = tui();
    let first = match t.key(KeyAction::RunDoctor(0), true, 0) {
        TuiEffect::RunDoctor(_, generation) => generation,
        _ => panic!("a diagnosis is run"),
    };
    let second = match t.key(KeyAction::ShowInfo(1), true, 0) {
        TuiEffect::FetchRemote(alias, generation) => {
            assert_eq!(alias, "docs");
            generation
        }
        _ => panic!("the stats are fetched"),
    };
    assert!(second > first);
    t.result_arrived(first, Overlay::Doctor("api".to_string(), vec![]));
    let shown = match t.overlay.take() {
        Some(Overlay::RemoteInfo(i)) => i,
        _ => panic!("the late result is dropped"),
    };
    assert_eq!((shown.peer_url.as_str(), shown.lock.as_str()), ("https://cloud", "—"));
    assert!(matches!(shown.stats, RemoteStatsState::Loading));
    let ready = RemoteStatsState::Ready(RemoteIndexStats {
        path: "/kb".to_string(),
        chunks: 3,
        files: 1,
        db_size_human: "2 KB".to_string(),
        model: "mini".to_string(),
    });
    t.overlay = Some(Overlay::DoctorRunning("api".to_string()));
    t.result_arrived(second, with_remote_stats(Overlay::RemoteInfo(shown), ready));
    assert!(matches!(&t.overlay, Some(Overlay::RemoteInfo(i))
        if matches!(&i.stats, RemoteStatsState::Ready(s) if s.chunks == 3)));
}

#[test]
fn a_mount_that_no_longer_resolves_has_no_stats() {
    let mut t = tui();
    assert!(matches!(t.key(KeyAction::ShowInfo(1), false, 0), TuiEffect::Nothing));
    assert!(matches!(&t.overlay, Some(Overlay::RemoteInfo(i))
        if matches!(i.stats, RemoteStatsState::Unavailable)));
    assert!(matches!(t.key(KeyAction::ShowInfo(7), true, 0), TuiEffect::Nothing));
    assert!(matches!(t.key(KeyAction::ShowInfo(0), true, 0), TuiEffect::GatherInfo(a) if a == "api"));
    let info = repo_info("/w/api/.db".to_string(), None, None, 0, (0, 0));
    t.info_gathered("api".to_string(), Some(info));
    assert!(matches!(&t.overlay, Some(Overlay::Info(a, _)) if a == "api"));
    assert!(matches!(t.key(KeyAction::Reload, true, 0), TuiEffect::Reload));
}
