use codesearch::config::{
    effective_api_key, list_remotes, resolve_api_key_for_url, Group, RemotePeer, ReposConfig,
};
use codesearch::handlers::{
    is_switched_on, launch_message, resolve_add_repo_model, AddRepoRequest, AddRepoStep, AfterAdd,
    AfterIndexing, ReindexLaunch, ReindexStep,
};
use codesearch::lifecycle::{
    conflicted_msg, first_open_step, needs_build, open_dimensions, write_open_failed, CachedStores,
    OpenStep, OpenedStores, StopWatcher,
};
use codesearch::paths::{
    configured_roots, containing_repo_alias, path_contains, validate_path_within_allowed_roots,
    CanonicalPath, RepoRoot,
};
use codesearch::removal::{
    is_db_locked_error, is_lmdb_format_corruption, is_transient_rename_error, recovery_timeout_msg,
    release_wait_over, removal_outcome, removal_reply, retry_rename, DeleteAttempt, DeleteRetry,
    DeleteStep, RecoveryWait,
};
use codesearch::state::{
    seconds_setting, CSharpIndexStatus, RepoState, ServeState, SymbolRebuildSignal,
};
use std::io;

const SECOND: u64 = 1_000_000_000;

fn config_with(entries: &[(&str, &str)]) -> ReposConfig {
    let mut config = ReposConfig::empty();
    for (alias, path) in entries {
        config.register(alias, path);
    }
    config
}

fn state_with(entries: &[(&str, &str)]) -> ServeState {
    ServeState::new(config_with(entries))
}

/// The components of a Unix path: the root, then the names.
fn parts(path: &str) -> Vec<String> {
    let mut all = vec!["/".to_string()];
    all.extend(path.split('/').filter(|s| !s.is_empty()).map(|s| s.to_string()));
    all
}

fn roots(entries: &[(&str, &str)]) -> Vec<RepoRoot> {
    entries
        .iter()
        .map(|(alias, path)| RepoRoot {
            alias: alias.to_string(),
            root: parts(path),
        })
        .collect()
}

fn canonical(path: &str) -> CanonicalPath {
    CanonicalPath {
        display: path.to_string(),
        components: parts(path),
    }
}

#[test]
fn tracked_session_drop_balances_active_sessions() {
    let mut state = ServeState::new(ReposConfig::empty());
    let id = state.session_connected();
    assert_eq!(id, 0);
    assert_eq!(state.active_session_count(), 1);
    state.session_disconnected();
    assert_eq!(state.active_session_count(), 0);
    assert_eq!(state.total_session_count(), 1);
}

#[test]
fn remove_repo_reports_db_deleted_when_delete_succeeds() {
    let mut state = state_with(&[("somerepo", "/w/somerepo")]);
    let start = state.removal_begun("somerepo").ok().unwrap();
    assert_eq!(start.project_path, "/w/somerepo");
    let mut retry = DeleteRetry {
        deadline: 30 * SECOND,
        backoff_ms: 100,
        cap_ms: 2_000,
    };
    assert!(matches!(
        retry.step(DeleteAttempt::Deleted, false, 0),
        DeleteStep::Done
    ));
    let outcome = removal_outcome(start.project_path, "/w/somerepo/.db".to_string(), None);
    assert!(outcome.db_deleted);
    assert!(outcome.db_delete_error.is_none());
    let reply = removal_reply(Ok(&outcome));
    assert_eq!((reply.code, reply.status.as_str()), (200, "removed"));
}

#[test]
fn remove_repo_reports_db_locked_when_delete_fails() {
    let mut retry = DeleteRetry {
        deadline: 30 * SECOND,
        backoff_ms: 100,
        cap_ms: 2_000,
    };
    let failed = DeleteAttempt::Failed {
        raw: Some(20),
        msg: "Not a directory".to_string(),
    };
    let step = retry.step(failed, false, 0);
    assert!(matches!(&step, DeleteStep::GiveUp(e) if e == "Not a directory"));
    let outcome = removal_outcome(
        "/w/somerepo".to_string(),
        "/w/somerepo/.db".to_string(),
        Some("Not a directory".to_string()),
    );
    assert!(!outcome.db_deleted);
    assert!(outcome.db_delete_error.is_some());
    let reply = removal_reply(Ok(&outcome));
    assert_eq!((reply.code, reply.status.as_str()), (200, "removed_db_locked"));
    assert!(reply.message.contains("/w/somerepo/.db"));
    let unknown = removal_reply(Err("Unknown alias 'x'"));
    assert_eq!(unknown.code, 404);
    let other = removal_reply(Err("disk on fire"));
    assert_eq!((other.code, other.message.as_str()), (500, "disk on fire"));
}

#[test]
fn a_locked_directory_is_tried_again_until_the_deadline() {
    let mut retry = DeleteRetry {
        deadline: 10 * SECOND,
        backoff_ms: 100,
        cap_ms: 300,
    };
    let locked = || DeleteAttempt::Failed {
        raw: Some(32),
        msg: "sharing violation".to_string(),
    };
    assert!(matches!(retry.step(locked(), false, 0), DeleteStep::Sleep(100)));
    assert!(matches!(retry.step(locked(), false, 0), DeleteStep::Sleep(200)));
    assert!(matches!(retry.step(locked(), false, 0), DeleteStep::Sleep(300)));
    assert!(matches!(retry.step(locked(), false, 0), DeleteStep::Sleep(300)));
    assert!(matches!(
        retry.step(locked(), true, 0),
        DeleteStep::AwaitRelease
    ));
    assert!(matches!(
        retry.step(locked(), false, 10 * SECOND),
        DeleteStep::GiveUp(_)
    ));
    assert!(release_wait_over(0, 0, 10));
    assert!(!release_wait_over(1, 9, 10));
    assert!(release_wait_over(1, 10, 10));
}

#[test]
#[allow(clippy::io_other_error)]
fn is_db_locked_error_classifies_lock_and_non_lock_errors() {
    let locked = |e: io::Error| is_db_locked_error(e.raw_os_error(), &e.to_string());
    assert!(!locked(io::Error::from(io::ErrorKind::NotFound)));
    assert!(locked(io::Error::from_raw_os_error(32)));
    assert!(locked(io::Error::from_raw_os_error(33)));
    assert!(locked(io::Error::new(
        io::ErrorKind::Other,
        "The process cannot access the file because it is being used by another process"
    )));
    assert!(!locked(io::Error::new(
        io::ErrorKind::Other,
        "not a directory"
    )));
}

#[test]
fn a_rename_is_tried_again_only_on_a_transient_error() {
    assert!(is_transient_rename_error(Some(5), ""));
    assert!(is_transient_rename_error(None, "Access is denied"));
    assert!(!is_transient_rename_error(Some(2), "no such file"));
    assert!(retry_rename(Some(5), "", 0));
    assert!(retry_rename(Some(5), "", 3));
    assert!(!retry_rename(Some(5), "", 4));
    assert!(!retry_rename(Some(2), "", 0));
}

#[test]
fn is_alias_live_reflects_config_and_cancellation() {
    let state = state_with(&[("repo", "/w/repo")]);
    assert!(state.is_alias_live("repo", false));
    assert!(!state.is_alias_live("repo", true));
    assert!(!state.is_alias_live("ghost", false));
}

#[test]
fn remote_peer_info_never_serializes_api_key() {
    let peer = RemotePeer {
        alias: "cloud".to_string(),
        url: "https://codesearch-serve.example.internal".to_string(),
        api_key: "supersecret-LEAK-MARKER-do-not-serialize".to_string(),
        group: Some("all".to_string()),
        timeout_secs: Some(90),
    };
    let infos = list_remotes(&vec![peer]);
    assert_eq!(infos.len(), 1);
    let info = &infos[0];
    let shown = format!(
        "{} {} {:?} {:?}",
        info.alias, info.url, info.group, info.timeout_secs
    );
    assert!(shown.contains("cloud"));
    assert!(shown.contains("codesearch-serve.example.internal"));
    assert!(shown.contains("all"));
    assert!(shown.contains("90"));
    assert!(!shown.contains("supersecret-LEAK-MARKER"));
}

#[test]
fn the_key_of_a_peer_is_found_by_its_url() {
    let peers = vec![RemotePeer {
        alias: "cloud".to_string(),
        url: "https://Peer.example.com/".to_string(),
        api_key: "k".to_string(),
        group: None,
        timeout_secs: None,
    }];
    assert_eq!(
        resolve_api_key_for_url(&peers, "https://peer.example.com").as_deref(),
        Some("k")
    );
    assert_eq!(resolve_api_key_for_url(&peers, "https://other"), None);
    assert_eq!(
        effective_api_key(Some("given".to_string()), &peers, "https://other").as_deref(),
        Some("given")
    );
    assert_eq!(
        effective_api_key(None, &peers, "https://peer.example.com").as_deref(),
        Some("k")
    );
}

#[test]
fn missing_db_not_cached_as_conflicted() {
    let mut state = state_with(&[("testalias", "/w/myrepo")]);
    let plan = state.open_plan("testalias").ok().unwrap();
    assert_eq!(plan.path, "/w/myrepo");
    let refused = first_open_step(false, false, plan.force_readonly, "/w/myrepo/.db", "/w/myrepo");
    assert!(matches!(&refused, OpenStep::Refuse(e) if e.contains("Database not found")));
    assert!(state.repo("testalias").mode.is_none());
    let again = first_open_step(true, false, plan.force_readonly, "/w/myrepo/.db", "/w/myrepo");
    assert!(matches!(again, OpenStep::TryWrite));
    state.query_open_finished("testalias", OpenedStores::Write, true, true, 7);
    assert!(matches!(
        state.repo("testalias").mode,
        Some(RepoState::Write)
    ));
}

#[test]
fn not_found_error_mentions_fix_commands() {
    let refused = first_open_step(false, false, false, "/w/myrepo/.db", "/w/myrepo");
    assert!(matches!(&refused, OpenStep::Refuse(e)
        if e.contains("codesearch index add") && e.contains("codesearch index rm")));
}

#[test]
fn conflicted_error_mentions_stop_and_retry() {
    let err = conflicted_msg("testalias");
    assert!(err.contains("Stop"));
    assert!(err.contains("retry"));
}

#[test]
fn conflicted_repo_recovers_after_lock_released() {
    let mut state = state_with(&[("testalias", "/w/myrepo")]);
    assert!(state.readonly_open_finished("testalias", false).is_err());
    assert!(matches!(
        state.repo("testalias").mode,
        Some(RepoState::Conflicted)
    ));
    // The next query does not replay the conflict: it opens the stores again.
    assert!(matches!(
        state.lookup_stores("testalias", true, 5),
        CachedStores::Miss
    ));
    state.query_open_finished("testalias", OpenedStores::Write, true, true, 5);
    assert!(state.has_opened_stores("testalias"));
}

#[test]
fn try_open_stores_creates_db_for_brand_new_repo() {
    let step = first_open_step(false, true, false, "/w/brandnew/.db", "/w/brandnew");
    assert!(matches!(step, OpenStep::TryWrite));
    let failed = write_open_failed("brandnew", true, "disk full");
    assert!(matches!(&failed, OpenStep::Refuse(e) if e.contains("brandnew: disk full")));
    assert!(matches!(
        write_open_failed("brandnew", false, "locked"),
        OpenStep::TryReadonly
    ));
}

#[test]
fn try_open_stores_honours_dimension_override_for_a_fresh_repo() {
    assert_eq!(open_dimensions(Some(768), None, 384), 768);
    assert_eq!(open_dimensions(None, Some(512), 384), 512);
    assert_eq!(open_dimensions(None, None, 384), 384);
    assert!(needs_build(3, false));
    assert!(!needs_build(0, false));
    assert!(!needs_build(3, true));
}

#[test]
fn add_repo_handler_registers_brand_new_repo_without_rollback() {
    let mut state = ServeState::new(ReposConfig::empty());
    let req = AddRepoRequest {
        asked: "/w/new".to_string(),
        canonical: Ok("/w/new".to_string()),
        allowed: Ok(()),
        model: None,
        model_known: false,
        valid_models: "a, b".to_string(),
    };
    assert!(state.add_repo_requested(&req).is_none());
    let alias = state
        .add_repo_registered(Ok("new".to_string()), "/w/new")
        .ok()
        .unwrap();
    assert_eq!(alias, "new");
    assert!(state.add_repo_saved(Ok(())).is_none());
    let step = state.add_repo_opened("new", "/w/new", Ok(()), 9, 600);
    assert!(matches!(&step, AddRepoStep::Index(r) if r.code == 202 && r.status == "accepted"));
    assert_eq!(state.config().resolve("new").as_deref(), Some("/w/new"));
    assert!(matches!(
        state.add_repo_indexed("new", false, false),
        AfterAdd::Build
    ));
    assert!(matches!(
        state.add_repo_built("new", false),
        AfterIndexing::GoOn { .. }
    ));
}

#[test]
fn a_failed_add_is_undone() {
    let mut state = ServeState::new(ReposConfig::empty());
    let _ = state.add_repo_registered(Ok("new".to_string()), "/w/new");
    let step = state.add_repo_opened("new", "/w/new", Err("locked".to_string()), 9, 600);
    assert!(matches!(&step, AddRepoStep::Answer(r) if r.code == 500));
    assert!(state.config().resolve("new").is_none());

    let _ = state.add_repo_registered(Ok("other".to_string()), "/w/other");
    let _ = state.add_repo_opened("other", "/w/other", Ok(()), 9, 600);
    assert!(matches!(
        state.add_repo_indexed("other", true, false),
        AfterAdd::Undone
    ));
    assert!(state.config().resolve("other").is_none());
    let refused = state.add_repo_registered(Err("taken".to_string()), "/w/other");
    assert!(matches!(&refused, Err(r) if r.code == 400));
    let unsaved = state.add_repo_saved(Err("read-only file system".to_string()));
    assert!(matches!(&unsaved, Some(r) if r.code == 500));
}

#[test]
fn resolve_add_repo_model_precedence() {
    let gemma = "embeddinggemma-q4";
    let mini = "minilm-l6-q";

    // Explicit model always wins, even over a recorded model and a default.
    assert_eq!(
        resolve_add_repo_model(Some(gemma), Some(mini), Some(mini)),
        Some(gemma)
    );
    // No explicit model, no recorded model: the serve default applies (new index).
    assert_eq!(resolve_add_repo_model(None, None, Some(gemma)), Some(gemma));
    // No explicit model, recorded model present: the serve default is ignored.
    assert_eq!(resolve_add_repo_model(None, Some(mini), Some(gemma)), None);
    // No explicit model, no recorded model, no default: no override.
    assert_eq!(resolve_add_repo_model::<&str>(None, None, None), None);
    // Explicit model still wins when nothing else is set.
    assert_eq!(resolve_add_repo_model(Some(mini), None, None), Some(mini));
}

#[test]
fn legacy_model_warning_is_logged_once_per_alias() {
    let mut state = ServeState::new(ReposConfig::empty());
    assert!(state.mark_legacy_model_warned("a"));
    assert!(!state.mark_legacy_model_warned("a"));
    assert!(state.mark_legacy_model_warned("b"));
}

#[test]
fn config_reload_picks_up_new_alias() {
    let mut state = state_with(&[("a", "/w/repo-a")]);
    assert_eq!(state.aliases(), vec!["a"]);
    assert!(state.config_changed(Some(2)));
    let cancel = state.config_read(
        Some(2),
        Some(config_with(&[("a", "/w/repo-a"), ("b", "/w/repo-b")])),
    );
    assert!(cancel.is_empty());
    let aliases = state.aliases();
    assert!(aliases.contains(&"a".to_string()));
    assert!(aliases.contains(&"b".to_string()));
}

#[test]
fn config_reload_drops_removed_alias() {
    let mut state = state_with(&[("x", "/w/myrepo"), ("y", "/w/other")]);
    state.query_open_finished("x", OpenedStores::Write, true, true, 1);
    state.query_open_finished("y", OpenedStores::Write, true, true, 1);
    let cancel = state.config_read(Some(3), Some(config_with(&[("y", "/w/other")])));
    assert_eq!(cancel, vec!["x".to_string()]);
    let err = state.open_plan("x").err().unwrap();
    assert!(err.contains("Unknown alias"));
    assert!(state.repo("x").mode.is_none());
    assert!(!state.repo("x").watcher);
    assert!(matches!(state.repo("y").mode, Some(RepoState::Write)));
}

#[test]
fn config_reload_no_spurious_reload() {
    let mut state = state_with(&[("a", "/w/myrepo")]);
    assert!(state.config_changed(Some(10)));
    let _ = state.config_read(Some(10), Some(config_with(&[("a", "/w/myrepo")])));
    assert!(!state.config_changed(Some(10)));
    state.set_config_stamp(None);
    assert!(state.config_changed(Some(10)));
}

#[test]
fn config_reload_tolerates_parse_error() {
    let mut state = state_with(&[("a", "/w/myrepo")]);
    let cancel = state.config_read(Some(11), None);
    assert!(cancel.is_empty());
    assert!(state.aliases().contains(&"a".to_string()));
    assert!(!state.config_changed(Some(11)));
}

#[test]
fn reindex_refused_for_read_only_repo_even_with_force() {
    let mut config = config_with(&[("readonlyrepo", "/w/readonlyrepo")]);
    config.mark_read_only("readonlyrepo");
    let mut state = ServeState::new(config);
    let step = state.reindex_requested("readonlyrepo", true, 0, 600);
    assert!(matches!(&step, ReindexStep::Answer(r) if r.code == 409 && r.status == "read_only"));
    assert!(matches!(
        state.force_reindex_requested("readonlyrepo", 0, 600),
        Err(ReindexLaunch::Failed)
    ));
}

#[test]
fn concurrent_reindex_returns_conflict() {
    let mut state = state_with(&[("testalias", "/w/myrepo")]);
    assert!(matches!(
        state.reindex_requested("testalias", false, SECOND, 600),
        ReindexStep::OpenThenRefresh
    ));
    assert!(state.refresh_opened("testalias", Ok(())).is_none());
    let accepted = state.reindex_started("testalias");
    assert_eq!((accepted.code, accepted.status.as_str()), (202, "accepted"));
    let second = state.reindex_requested("testalias", false, 2 * SECOND, 600);
    assert!(matches!(&second, ReindexStep::Answer(r) if r.code == 409 && r.status == "conflict"));
    assert!(matches!(
        state.force_reindex_requested("testalias", 2 * SECOND, 600),
        Err(ReindexLaunch::AlreadyRunning)
    ));
    let unknown = state.reindex_requested("ghost", false, 2 * SECOND, 600);
    assert!(matches!(&unknown, ReindexStep::Answer(r) if r.code == 404));
}

#[test]
fn a_force_reindex_stops_the_watcher_and_ends_its_marker() {
    let mut state = state_with(&[("a", "/w/a")]);
    state.query_open_finished("a", OpenedStores::Write, true, true, 1);
    let launched = state.force_reindex_requested("a", SECOND, 600);
    assert!(matches!(
        launched,
        Ok(StopWatcher::Open {
            cancel_watcher: true
        })
    ));
    assert!(state.is_indexing("a", SECOND, 600, false).indexing);
    assert!(matches!(
        state.reindex_finished("a", true, false, false),
        AfterIndexing::GoOn { .. }
    ));
    assert!(matches!(
        state.reindex_finished("a", true, true, true),
        AfterIndexing::Stop
    ));
    assert!(!state.is_indexing("a", SECOND, 600, false).indexing);
    assert!(matches!(
        state.reindex_requested("a", true, SECOND, 600),
        ReindexStep::Rebuild {
            cancel_watcher: true
        }
    ));
    let refused = state.rebuild_opened("a", Ok(OpenedStores::Readonly), SECOND);
    assert!(matches!(&refused, Some(r) if r.code == 500));
    assert_eq!(
        launch_message(ReindexLaunch::AlreadyRunning, "a"),
        "⟳ Reindex already running for 'a'"
    );
    assert!(is_switched_on(Some("true")));
    assert!(!is_switched_on(None));
}

#[test]
fn env_unset_allows_all() {
    let configured = configured_roots(None);
    let path = canonical("/some/random/path");
    assert!(validate_path_within_allowed_roots(&path, &configured, &vec![]).is_ok());
}

#[test]
fn env_empty_allows_all() {
    let configured = configured_roots(Some(""));
    let path = canonical("/some/random/path");
    assert!(validate_path_within_allowed_roots(&path, &configured, &vec![]).is_ok());
}

#[test]
fn path_within_root_is_allowed() {
    let configured = configured_roots(Some("/tmp/root"));
    let resolved = vec![canonical("/tmp/root")];
    let child = canonical("/tmp/root/my-project");
    assert!(validate_path_within_allowed_roots(&child, &configured, &resolved).is_ok());
}

#[test]
fn exact_root_match_is_allowed() {
    let configured = configured_roots(Some("/tmp/root"));
    let resolved = vec![canonical("/tmp/root")];
    let root = canonical("/tmp/root");
    assert!(validate_path_within_allowed_roots(&root, &configured, &resolved).is_ok());
}

#[test]
fn path_outside_root_is_rejected() {
    let configured = configured_roots(Some("/tmp/root"));
    let resolved = vec![canonical("/tmp/root")];
    let outside = canonical("/etc");
    let result = validate_path_within_allowed_roots(&outside, &configured, &resolved);
    assert!(result.is_err());
    assert!(result.unwrap_err().contains("outside allowed roots"));
}

#[test]
fn all_nonexistent_roots_rejects() {
    let configured = configured_roots(Some("/nonexistent/path/abc;/also/nonexistent/xyz"));
    assert_eq!(configured.len(), 2);
    let result =
        validate_path_within_allowed_roots(&canonical("/tmp"), &configured, &vec![]);
    assert!(result.is_err());
    assert!(result.unwrap_err().contains("No valid roots found"));
}

#[test]
fn semicolons_with_empty_segments_works() {
    let configured = configured_roots(Some(";/tmp/root;;"));
    assert_eq!(configured, vec!["/tmp/root".to_string()]);
    let resolved = vec![canonical("/tmp/root")];
    let child = canonical("/tmp/root/project");
    assert!(validate_path_within_allowed_roots(&child, &configured, &resolved).is_ok());
}

#[test]
fn multiple_roots_any_match() {
    let configured = configured_roots(Some("/tmp/root1;/tmp/root2"));
    let resolved = vec![canonical("/tmp/root1"), canonical("/tmp/root2")];
    for child in ["/tmp/root1/project", "/tmp/root2/project"] {
        let path = canonical(child);
        assert!(validate_path_within_allowed_roots(&path, &configured, &resolved).is_ok());
    }
}

#[test]
fn resolve_group_aliases_all_returns_every_repo() {
    let mut config = config_with(&[("beta", "/w/repo-b"), ("alpha", "/w/repo-a")]);
    config.set_group(Group {
        name: "mine".to_string(),
        aliases: vec!["beta".to_string()],
    });
    let aliases = config
        .resolve_group_aliases("all")
        .expect("'all' should resolve");
    assert_eq!(aliases, vec!["alpha".to_string(), "beta".to_string()]);
    assert_eq!(
        config.resolve_group_aliases("mine"),
        Ok(vec!["beta".to_string()])
    );
    assert!(config.resolve_group_aliases("does-not-exist").is_err());
}

#[test]
fn an_alias_is_registered_once() {
    let mut config = config_with(&[("api", "/w/old"), ("web", "/w/web")]);
    config.register("api", "/w/new");
    assert_eq!(config.resolve("api").as_deref(), Some("/w/new"));
    assert_eq!(config.aliases(), vec!["api".to_string(), "web".to_string()]);
    assert_eq!(config.repos().len(), 2);
    assert!(config.unregister_alias("api"));
    assert_eq!(config.resolve("api"), None);
    assert!(!config.unregister_alias("api"));
}

#[test]
fn marks_groups_and_peers_are_held_once() {
    let mut config = ReposConfig::empty();
    config.mark_read_only("api");
    config.mark_read_only("api");
    assert!(config.is_read_only("api"));
    assert!(!config.is_read_only("web"));
    for members in [vec!["api".to_string()], vec!["web".to_string()]] {
        config.set_group(Group {
            name: "mine".to_string(),
            aliases: members,
        });
    }
    assert_eq!(
        config.resolve_group_aliases("mine"),
        Ok(vec!["web".to_string()])
    );
    for (alias, url) in [("cloud", "http://a"), ("lab", "http://b"), ("cloud", "http://c")] {
        config.set_remote(RemotePeer {
            alias: alias.to_string(),
            url: url.to_string(),
            api_key: "k".to_string(),
            group: None,
            timeout_secs: None,
        });
    }
    let urls: Vec<&str> = config.remotes().iter().map(|p| p.url.as_str()).collect();
    assert_eq!(urls, vec!["http://c", "http://b"]);
}

#[test]
fn the_peers_survive_changes_of_the_repositories() {
    let mut config = config_with(&[("api", "/w/api")]);
    config.set_remote(RemotePeer {
        alias: "cloud".to_string(),
        url: "http://cloud".to_string(),
        api_key: "k".to_string(),
        group: None,
        timeout_secs: None,
    });
    let mut state = ServeState::new(config);
    state.register("web", "/w/web");
    state.relocate("web", "/w/web2");
    state.unregister("api");
    assert_eq!(state.config().remotes().len(), 1);
    assert_eq!(state.config().remotes()[0].url, "http://cloud");
    let _ = state.config_read(Some(3), Some(ReposConfig::empty()));
    assert!(state.config().remotes().is_empty());
}

#[test]
fn containing_repo_alias_matches_subdir_but_not_sibling_prefix() {
    let repos = roots(&[("alpha", "/base/alpha"), ("beta", "/base/beta")]);
    let find = |path: &str| containing_repo_alias(&repos, &parts(path), false);

    // Exact root.
    assert_eq!(find("/base/alpha"), Some("alpha".to_string()));
    // File inside the repo.
    assert_eq!(find("/base/alpha/src/main.rs"), Some("alpha".to_string()));
    // Component boundary: /base/alpha-x is NOT inside /base/alpha.
    assert_eq!(find("/base/alpha-x/file.rs"), None);
    // Entirely outside.
    assert_eq!(find("/elsewhere"), None);
}

#[test]
fn containing_repo_alias_prefers_nested_repo() {
    let repos = roots(&[("outer", "/base"), ("inner", "/base/inner")]);
    assert_eq!(
        containing_repo_alias(&repos, &parts("/base/inner/src/a.rs"), false),
        Some("inner".to_string())
    );
    assert_eq!(
        containing_repo_alias(&repos, &parts("/base/other/src/b.rs"), false),
        Some("outer".to_string())
    );
}

#[test]
fn containing_repo_alias_case_insensitive_only_on_windows() {
    let repos = roots(&[("alpha", "/Base/Alpha")]);
    let target = parts("/base/alpha/x.rs");
    assert_eq!(
        containing_repo_alias(&repos, &target, true),
        Some("alpha".to_string())
    );
    assert_eq!(containing_repo_alias(&repos, &target, false), None);
    assert!(path_contains(&parts("/a/b"), &parts("/a"), false));
}

#[test]
fn freshness_for_path_reports_indexing_state() {
    let mut state = state_with(&[("fresh", "/tmp/t/repo")]);
    let repos = roots(&[("fresh", "/tmp/t/repo")]);
    let target = parts("/tmp/t/repo/src/lib.rs");

    // Idle: covered, not indexing.
    let idle = state.freshness_for_path(&repos, &target, false, SECOND, 600, &vec![]);
    assert_eq!(idle.alias.as_deref(), Some("fresh"));
    assert!(!idle.indexing);

    // Mid-reindex.
    state.begin_indexing("fresh", SECOND, 600);
    let busy = state.freshness_for_path(&repos, &target, false, SECOND, 600, &vec![]);
    assert!(busy.indexing);

    state.end_indexing("fresh");
    let done = state.freshness_for_path(&repos, &target, false, SECOND, 600, &vec![]);
    assert!(!done.indexing);

    // Unknown path: not covered, no crash.
    let unknown = state.freshness_for_path(
        &repos,
        &parts("/definitely/not/registered"),
        false,
        SECOND,
        600,
        &vec![],
    );
    assert_eq!(unknown.alias, None);
    assert!(!unknown.indexing);
}

#[test]
fn evicting_idle_repo_clears_frozen_csharp_error_state() {
    let mut state = ServeState::new(ReposConfig::empty());
    state.csharp_signal(
        "frozen",
        SymbolRebuildSignal::Failed("LMDB double-open prevented".to_string()),
    );
    assert!(matches!(
        state.repo("frozen").csharp,
        Some(CSharpIndexStatus::Error)
    ));
    let now = 100 * SECOND;
    state.touch_access("frozen", now - 5 * SECOND);

    let reaped = state.evict_idle_repos(now, seconds_setting(Some("1"), 3600), 600, &vec![]);

    assert_eq!(reaped.evicted.len(), 1);
    assert!(state.repo("frozen").csharp.is_none());
    assert!(state.repo("frozen").csharp_error.is_none());
}

#[test]
fn a_repository_that_is_being_indexed_is_not_evicted() {
    let mut state = ServeState::new(ReposConfig::empty());
    let now = 100 * SECOND;
    state.touch_access("busy", now - 50 * SECOND);
    state.begin_indexing("busy", now, 600);
    let reaped = state.evict_idle_repos(now, 1, 600, &vec![]);
    assert!(reaped.evicted.is_empty());
    assert_eq!(seconds_setting(Some("0"), 9), 9);
}

#[test]
fn is_lmdb_format_corruption_matches_known_lmdb_errors() {
    let cases = [
        (
            "MDB_BAD_VALSIZE: Unsupported size of key/DB name/data, or wrong DUPFIXED size",
            true,
        ),
        ("Symbol rebuild failed: heed -> MDB_BAD_VALSIZE", true),
        ("storage error: wrong DUPFIXED size", true),
        ("Unsupported size of key while opening vectordb", true),
        ("scip-csharp failed with exit code 1", false),
        ("MDB_NOTFOUND: No matching key/data pair found", false),
        ("Task panicked: workspace load failed", false),
        ("", false),
    ];
    for (msg, expected) in cases {
        assert_eq!(is_lmdb_format_corruption(msg), expected, "{msg:?}");
    }
}

#[test]
fn a_contextualised_lmdb_error_still_classifies_as_format_corruption() {
    let err = anyhow::Error::msg(
        "MDB_BAD_VALSIZE: Unsupported size of key/DB name/data, or wrong DUPFIXED size",
    )
    .context("LMDB put into 'scip_symbols' failed — key 0 byte(s), value 12 byte(s), key: ");

    assert!(!is_lmdb_format_corruption(&format!("{err}")));
    assert!(is_lmdb_format_corruption(&format!("{err:#}")));
}

#[test]
fn enqueue_format_recovery_dedupes_and_starts_single_worker() {
    let mut state = ServeState::new(ReposConfig::empty());
    let first = state.enqueue_format_recovery("ghost-repo");
    assert!(first.accepted && first.start_worker);
    for _ in 0..2 {
        let more = state.enqueue_format_recovery("ghost-repo");
        assert!(more.accepted && !more.start_worker);
    }
    assert_eq!(state.next_format_recovery().as_deref(), Some("ghost-repo"));
    assert_eq!(state.next_format_recovery(), None);
}

#[test]
fn a_second_format_recovery_for_the_same_alias_is_refused() {
    let mut state = ServeState::new(ReposConfig::empty());
    assert!(state.enqueue_format_recovery("ghost-repo").accepted);
    let _ = state.next_format_recovery();
    let _ = state.next_format_recovery();
    state.mark_wiped("ghost-repo");

    assert!(!state.enqueue_format_recovery("ghost-repo").accepted);
    assert_eq!(state.next_format_recovery(), None);
    assert!(state.enqueue_format_recovery("other-repo").accepted);
}

#[test]
fn stale_indexing_marker_cancels_the_leaked_index_task() {
    let mut state = ServeState::new(ReposConfig::empty());
    state.begin_indexing("leaky", 0, 1);
    state.index_task_started("leaky");

    let probe = state.is_indexing("leaky", 2 * SECOND, 1, false);
    assert!(!probe.indexing);
    assert!(probe.cancel_task);
    assert!(state.take_index_task("leaky"), "task entry kept");
}

#[test]
fn fresh_indexing_marker_leaves_its_index_task_running() {
    let mut state = ServeState::new(ReposConfig::empty());
    state.begin_indexing("busy", SECOND, 600);
    state.index_task_started("busy");
    let probe = state.is_indexing("busy", 2 * SECOND, 600, false);
    assert!(probe.indexing);
    assert!(!probe.cancel_task);
}

#[test]
fn self_clean_keeps_the_db_dir_of_a_still_registered_repo() {
    let state = state_with(&[("live", "/w/live")]);
    assert!(!state.self_clean_if_unregistered("live"));
    assert!(state.self_clean_if_unregistered("gone"));
}

#[test]
fn a_recovery_waits_for_its_rebuild_and_gives_up_at_its_cap() {
    let mut state = state_with(&[("r", "/w/r")]);
    assert!(state.recovery_begun("r").is_ok());
    assert!(state.recovery_begun("ghost").is_err());
    state.begin_indexing("r", 10 * SECOND, 5);
    let (wait, _) = state.recovery_wait("r", 10 * SECOND, 12 * SECOND, 5, false);
    assert!(matches!(wait, RecoveryWait::Wait));
    state.indexing_status("r", true, 50 * SECOND);
    let (wait, _) = state.recovery_wait("r", 10 * SECOND, 51 * SECOND, 5, false);
    assert!(matches!(wait, RecoveryWait::TimedOut));
    state.end_indexing("r");
    assert!(state.confirm_rebuild_finished("r").is_ok());
    let (wait, _) = state.recovery_wait("r", 10 * SECOND, 52 * SECOND, 5, false);
    assert!(matches!(wait, RecoveryWait::Ended));
    assert_eq!(
        recovery_timeout_msg("r", 40, true),
        "rebuild for 'r' exceeded the 40s recovery cap"
    );
}

#[test]
fn a_warm_repository_gets_one_watcher_when_it_is_queried() {
    let mut state = state_with(&[("w", "/w/w")]);
    assert!(matches!(state.warmup_needed("w"), Ok(true)));
    state.warmup_finished("w", OpenedStores::Write, 1);
    assert!(matches!(state.repo("w").mode, Some(RepoState::Warm)));
    assert_eq!(state.repo_lock_status("w"), Some("warm"));
    assert!(matches!(
        state.try_cached_stores("w", false, 2),
        CachedStores::Hit {
            start_watcher: false
        }
    ));
    assert!(matches!(
        state.try_cached_stores("w", true, 3),
        CachedStores::Hit {
            start_watcher: true
        }
    ));
    assert!(matches!(
        state.try_cached_stores("w", true, 4),
        CachedStores::Hit {
            start_watcher: false
        }
    ));
    assert_eq!(state.repo_lock_status("w"), Some("write"));
    assert!(matches!(
        state.stop_fsw("w"),
        StopWatcher::Open {
            cancel_watcher: true
        }
    ));
    assert!(state.watcher_gone("w"));
    assert_eq!(state.restart_path("w").as_deref(), Some("/w/w"));
    state.watcher_restarted("w");
    assert!(state.repo("w").watcher);
    assert!(state.close_repo("w"));
    assert!(!state.close_repo("w"));
}

#[test]
fn tool_calls_and_changes_are_counted_per_repository() {
    let mut state = state_with(&[("a", "/w/a")]);
    assert_eq!(state.most_recent_tool_call(), None);
    state.record_tool_call("a", "search", 10);
    state.record_tool_call("b", "find", 7);
    assert_eq!(state.most_recent_tool_call(), Some(10));
    state.record_changes("a", 3);
    state.record_changes("a", 4);
    assert_eq!(state.repo("a").changes, 7);
    assert_eq!(state.repo("a").tool_calls, 1);
    state.record_remote_peer_activity("peer", 5);
    assert_eq!(state.remote_peer_last_activity("peer"), Some(5));
    assert_eq!(state.remote_peer_last_activity("other"), None);
}

#[test]
fn a_save_that_is_scheduled_while_another_runs_is_kept() {
    let mut state = ServeState::new(ReposConfig::empty());
    assert!(state.schedule_persist_repos_config(1_000, 2));
    assert_eq!(state.persist_due(2_999), None);
    let deadline = state.persist_due(3_000).unwrap();
    assert!(!state.schedule_persist_repos_config(3_500, 2));
    assert!(state.persist_done(deadline), "a later save is still due");
    let next = state.persist_due(5_500).unwrap();
    assert!(!state.persist_done(next));
    assert_eq!(state.persist_due(9_000), None);
}
