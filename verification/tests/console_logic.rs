use sift::console::api::{
    default_top_k, ensure_idle, page_bounds, unexpected, window, ApiError, IndexJob, JobState,
    OperationPhase, OperationType,
};
use sift::console::assets::{
    asset_reply, extension, inside_root, mime_for, outside_root_error, plan_asset,
    use_index_fallback, AssetReply, AssetTarget, Assets, AssetsErrorKind,
};
use sift::console::collector::{
    collection_step, error_code, CollectionStep, Collector, ObserverSessions, PageOutcome,
};
use sift::console::schema::{migration_step, MigrationStep, SCHEMA_VERSION};
use sift::console::freshness::{
    cached_freshness, freshness_from, Freshness, Inspection, FRESHNESS_CACHE_MILLIS,
};
use sift::console::history::{
    bucket_summary, bucket_windows, gap_record, nearest, observation_gap, retention_cutoff,
    safe_error, safe_operation, safe_outcome, sanitize_event, RequestEvent as HistoryEvent,
    ResourceSample, RETENTION_MILLIS,
};
use sift::console::jobs::{
    apply_index_response, finish_index, restore_job, stream_ended, IndexStep, JobBook,
};
use sift::console::registry::{
    absolute, directory, executable, store, validate, validate_name, RegistrationInput, RegistryError,
    ResolvedPaths, StoreLookup,
};
use sift::console::security::{
    body_too_large, guard_after_body, guard_begin, guard_refusal, is_json_response,
    seal_response, security_headers, GuardAction, RequestHeaders, Security,
};
use sift::protocol::{
    DaemonError, DaemonStatus, EventCursor, IndexPhase, Lifecycle, Observation, RequestEvent,
    ResourceSnapshot, Response,
};

fn observation() -> Observation {
    Observation {
        status: DaemonStatus {
            lifecycle: Lifecycle::Ready,
            instance_id: "a".into(),
            observed_at_unix_ms: 10,
            model_id: None,
            chunks_live: None,
            chunks_dead: None,
            indexed_commit: None,
            idle_seconds: 0,
            uptime_seconds: 0,
            current_progress: None,
            last_index: None,
            resources: ResourceSnapshot::unavailable(10),
        },
        events: vec![],
        next_cursor: EventCursor { instance_id: "a".into(), sequence: 1 },
        gap: false,
        more: false,
    }
}

fn config() -> Security {
    Security {
        host: "127.0.0.1:7000".into(),
        origin: "http://127.0.0.1:7000".into(),
        csrf: "token".into(),
    }
}

fn mutation() -> RequestHeaders {
    RequestHeaders {
        read_only: false,
        host: Some("127.0.0.1:7000".into()),
        origin: Some(b"http://127.0.0.1:7000".to_vec()),
        sec_fetch_site: Some(b"same-origin".to_vec()),
        csrf: Some(b"token".to_vec()),
        content_type: Some("application/json; charset=utf-8".into()),
    }
}

fn daemon_event(completed: u64, elapsed: u64) -> HistoryEvent {
    HistoryEvent {
        repository_id: "repo".into(),
        event: RequestEvent {
            cursor: EventCursor { instance_id: "a".into(), sequence: 0 },
            connection_id: 1,
            request_id: 1,
            completed_at_unix_ms: completed,
            operation: "Search".into(),
            elapsed_micros: elapsed,
            outcome: "ok".into(),
            error_code: None,
            result_count: None,
            stage_millis: None,
        },
    }
}

fn sample(at: u64) -> ResourceSample {
    ResourceSample { repository_id: "repo".into(), resources: ResourceSnapshot::unavailable(at) }
}

#[test]
fn failed_observation_keeps_the_last_state_and_marks_it_stale() {
    let mut collector = Collector::new();
    collector.apply("repo", Ok(observation()), 10).unwrap();
    let stale = collector.apply("repo", Err(DaemonError::Starting), 12).unwrap();
    assert!(stale.stale);
    assert_eq!(stale.error_code.as_deref(), Some("starting"));
    assert_eq!(stale.status.lifecycle, Lifecycle::Ready);
    assert_eq!(stale.collected_at_unix_ms, 10);
    assert!(collector.status("repo").unwrap().stale);
    assert_eq!(collector.cursor("repo").unwrap().sequence, 1);
}

#[test]
fn failure_without_earlier_status_is_returned() {
    let mut collector = Collector::new();
    let err = collector.apply("repo", Err(DaemonError::Starting), 12).unwrap_err();
    assert_eq!(err, DaemonError::Starting);
    assert!(collector.status("repo").is_none());
    assert!(collector.cursor("repo").is_none());
    assert_eq!(error_code(&DaemonError::StoreStale { reason: "x".into() }), "stale");
    assert_eq!(error_code(&DaemonError::Internal { detail: "x".into() }), "unreachable");
}

#[test]
fn percentile_is_nearest_rank_and_empty_is_missing() {
    let values: Vec<u64> = (1..=100).collect();
    assert_eq!(nearest(&values, 95), Some(95));
    assert_eq!(nearest(&[], 95), None);
    assert_eq!(nearest(&[10, 20, 30, 40], 50), Some(20));
    assert_eq!(nearest(&[10, 20, 30], 0), Some(10));
}

#[test]
fn history_keeps_only_known_names() {
    assert_eq!(safe_operation("Search"), "Search");
    assert_eq!(safe_operation("SECRET_QUERY"), "unknown");
    assert_eq!(safe_outcome("ok"), "ok");
    assert_eq!(safe_outcome("weird"), "unknown");
    assert_eq!(safe_error("starting"), "starting");
    assert_eq!(safe_error("/home/secret_path.rs"), "operation_failed");
    let mut e = daemon_event(5, 6).event;
    e.operation = "SECRET_QUERY".into();
    e.error_code = Some("secret_path.rs".into());
    let kept = sanitize_event("repo", &e);
    assert_eq!(kept.repository_id, "repo");
    assert_eq!(kept.event.operation, "unknown");
    assert_eq!(kept.event.error_code.as_deref(), Some("operation_failed"));
}

#[test]
fn reconnect_restart_and_buffer_loss_are_gaps() {
    let previous = Some(("a".to_string(), 10u64));
    assert_eq!(observation_gap(false, &previous, "a", 20), None);
    assert_eq!(observation_gap(true, &previous, "a", 20), Some(("buffer_loss", 10)));
    assert_eq!(observation_gap(false, &previous, "b", 30), Some(("daemon_restart", 10)));
    assert_eq!(observation_gap(true, &None, "b", 30), Some(("buffer_loss", 30)));
    let g = gap_record("repo", 50, 40, "whatever");
    assert_eq!(g.from_unix_ms, 40);
    assert_eq!(g.reason, "collection_outage");
}

#[test]
fn retention_is_seven_days() {
    assert_eq!(retention_cutoff(RETENTION_MILLIS + 5), 5);
    assert_eq!(retention_cutoff(3), 0);
}

#[test]
fn buckets_cover_the_window_by_minute() {
    let b = bucket_windows(61_000, 185_000);
    assert_eq!(b, vec![(60_000, 120_000), (120_000, 180_000), (180_000, 185_001)]);
    let events = vec![daemon_event(60_500, 30), daemon_event(61_000, 10), daemon_event(130_000, 99)];
    let samples = vec![sample(60_000), sample(70_000), sample(200_000)];
    let s = bucket_summary(&events, &samples, 60_000, 120_000);
    assert_eq!(s.request_count, 2);
    assert_eq!(s.sample_count, 2);
    assert_eq!(s.coverage_millis, 10_000);
    assert_eq!(s.p50_micros, Some(10));
    assert_eq!(s.p95_micros, Some(30));
}

#[test]
fn history_window_defaults_and_limits() {
    assert_eq!(window(None, None, 5_000_000).unwrap(), (1_400_000, 5_000_000));
    assert_eq!(window(None, Some(10), 99).unwrap(), (0, 10));
    let err = window(Some(20), Some(10), 99).unwrap_err();
    assert_eq!(err.code, "invalid_request");
    assert_eq!(err.status(), 400);
    assert!(window(Some(0), Some(RETENTION_MILLIS + 1), 0).is_err());
}

#[test]
fn pages_are_bounded() {
    assert_eq!(page_bounds(10, None, None), (0, 10, None));
    assert_eq!(page_bounds(300, None, Some(500)), (0, 200, Some("200".to_string())));
    assert_eq!(page_bounds(10, Some(4), Some(0)), (4, 5, Some("5".to_string())));
    assert_eq!(page_bounds(10, Some(40), None), (10, 10, None));
    assert_eq!(default_top_k(), 5);
}

#[test]
fn error_codes_map_to_http_status() {
    let e = ApiError::from_daemon(&DaemonError::IndexInProgress);
    assert_eq!(e.code, "index_in_progress");
    assert!(e.retryable);
    assert_eq!(e.status(), 409);
    let e = ApiError::from_daemon(&DaemonError::ProtocolVersion { daemon: 2, client: 1 });
    assert_eq!(e.code, "protocol_incompatible");
    assert!(!e.retryable);
    assert_eq!(ApiError::missing().status(), 404);
    assert_eq!(ApiError::timeout().status(), 504);
    assert_eq!(body_too_large().status(), 413);
    assert_eq!(unexpected().status(), 503);
    let e = ApiError::from_registry(&RegistryError::DuplicateStore("/s".into()));
    assert_eq!(e.status(), 409);
    assert!(ensure_idle(false).is_ok());
    assert_eq!(ensure_idle(true).unwrap_err().code, "index_in_progress");
}

#[test]
fn registrations_need_names_and_absolute_paths() {
    assert_eq!(validate_name("  repo  ").unwrap(), "repo");
    assert_eq!(validate_name("   "), Err(RegistryError::BlankName));
    assert!(absolute("repo", "/x").is_ok());
    assert_eq!(absolute("repo", "x"), Err(RegistryError::RelativePath { field: "repo" }));
    assert_eq!(directory("store", "/s", Some(("/real/s".into(), true))).unwrap(), "/real/s");
    let err = directory("store", "/s", Some(("/real/s".into(), false))).unwrap_err();
    assert_eq!(err.describe(), "store is not a valid directory: /s");
    assert_eq!(executable("/d", Some(("/real/d".into(), true, 0o755))).unwrap(), "/real/d");
    let err = executable("/d", Some(("/real/d".into(), true, 0o644))).unwrap_err();
    assert_eq!(err.describe(), "daemon is not a valid executable file: /d");
    assert_eq!(RegistryError::BlankName.describe(), "registration name must not be blank");
}

#[test]
fn an_arbitrary_csrf_token_is_not_authorization() {
    let mut req = mutation();
    req.csrf = Some(b"guess".to_vec());
    let e = guard_refusal(&req, &config()).unwrap();
    assert_eq!(e.code, "invalid_csrf");
    assert_eq!(e.status(), 403);
    assert!(guard_refusal(&mutation(), &config()).is_none());
}

#[test]
fn cross_origin_reads_are_rejected() {
    let read = RequestHeaders {
        read_only: true,
        host: Some("127.0.0.1:7000".into()),
        origin: Some(b"http://evil.example".to_vec()),
        sec_fetch_site: None,
        csrf: None,
        content_type: None,
    };
    assert_eq!(guard_refusal(&read, &config()).unwrap().code, "cross_origin");
    let mut read = read;
    read.origin = None;
    read.sec_fetch_site = Some(b"cross-site".to_vec());
    assert_eq!(guard_refusal(&read, &config()).unwrap().code, "cross_origin");
    read.sec_fetch_site = None;
    assert!(guard_refusal(&read, &config()).is_none());
    read.host = Some("localhost:7000".into());
    assert_eq!(guard_refusal(&read, &config()).unwrap().code, "invalid_host");
}

#[test]
fn mutations_need_json() {
    let mut req = mutation();
    req.content_type = Some("text/plain".into());
    assert_eq!(guard_refusal(&req, &config()).unwrap().code, "unsupported_media_type");
    assert!(is_json_response(b"application/json; charset=utf-8"));
    assert!(!is_json_response(b"text/html"));
    assert_eq!(security_headers().len(), 3);
}

#[test]
fn session_token_is_fresh_hex() {
    let a = Security::new("127.0.0.1:1".into());
    let b = Security::new("127.0.0.1:1".into());
    assert_eq!(a.origin, "http://127.0.0.1:1");
    assert_eq!(a.csrf.len(), 64);
    assert!(a.csrf.chars().all(|c| c.is_ascii_hexdigit() && !c.is_ascii_uppercase()));
    assert_ne!(a.csrf, b.csrf);
}

#[test]
fn cached_freshness_expires() {
    let f = Freshness {
        head: Some("h".into()),
        indexed_commit: Some("old".into()),
        dirty: Some(false),
        unavailable_reason: None,
        inspected_at_unix_ms: 1,
    };
    assert!(cached_freshness(&f, FRESHNESS_CACHE_MILLIS, None).is_none());
    let again = cached_freshness(&f, 10, Some("new".into())).unwrap();
    assert_eq!(again.indexed_commit.as_deref(), Some("new"));
    assert_eq!(again.head.as_deref(), Some("h"));
    assert_eq!(again.dirty, Some(false));
    let f = freshness_from(Inspection::Inspected { head: None, dirty: true }, None, 7);
    assert_eq!(f.dirty, Some(true));
    assert_eq!(f.inspected_at_unix_ms, 7);
}

fn job_for(book: &mut JobBook, id: &str, repo: &str) -> IndexJob {
    book.reserve(id.into(), repo, OperationType::UpdateIndex, 100).unwrap()
}

#[test]
fn indexing_survives_http_disconnect_and_refuses_duplicate_and_edits() {
    let mut book = JobBook::new();
    let job = job_for(&mut book, "j1", "repo");
    assert_eq!(job.state, JobState::Queued);
    let mut running = job.clone();
    running.state = JobState::Running;
    book.put(running);
    assert!(book.running("repo"));
    let err = book.reserve("j2".into(), "repo", OperationType::FullRebuild, 101).unwrap_err();
    assert_eq!(err.code, "index_in_progress");
    let err = book.reserve("j3".into(), "repo", OperationType::StartDaemon, 101).unwrap_err();
    assert_eq!(err.code, "starting");
    assert!(book.get("j2").is_err());
    assert!(book.reserve("k1".into(), "other", OperationType::UpdateIndex, 5).is_ok());
    assert_eq!(book.list("repo").len(), 1);
}

#[test]
fn index_stream_moves_the_job() {
    let mut book = JobBook::new();
    let mut job = job_for(&mut book, "j1", "repo");
    let step = apply_index_response(
        &mut job,
        Response::IndexProgress { phase: IndexPhase::Embedding, done: 3, total: Some(9) },
    );
    assert_eq!(step, IndexStep::Continue);
    assert_eq!(job.phase, OperationPhase::Embedding);
    assert_eq!(job.done, 3);
    let step = apply_index_response(&mut job, Response::Error(DaemonError::Starting));
    match step {
        IndexStep::Failed(e) => assert_eq!(e.code, "starting"),
        other => panic!("unexpected {other:?}"),
    }
    finish_index(&mut job, &Err(stream_ended()), 200);
    assert_eq!(job.state, JobState::Interrupted);
    assert_eq!(job.error_code.as_deref(), Some("connection_lost"));
    let mut other = job_for(&mut book, "j9", "else");
    finish_index(&mut other, &Err(ApiError::invalid("bad")), 200);
    assert_eq!(other.state, JobState::Failed);
    restore_job(&mut other, "running", 300);
    assert_eq!(other.state, JobState::Interrupted);
    assert_eq!(other.completed_at_unix_ms, Some(300));
    assert_eq!(other.error_code.as_deref(), Some("console_restarted"));
}

#[test]
fn schema_steps_follow_the_stored_version() {
    assert_eq!(migration_step(SCHEMA_VERSION + 1, false), MigrationStep::RefuseNewer);
    assert_eq!(migration_step(2, true), MigrationStep::RefuseNewer);
    assert_eq!(migration_step(1, true), MigrationStep::UpToDate);
    assert_eq!(migration_step(0, true), MigrationStep::MigrateLegacy);
    assert_eq!(migration_step(0, false), MigrationStep::Create);
}

#[test]
fn repeated_observations_reuse_one_observer_connection() {
    let mut sessions = ObserverSessions::new();
    assert!(sessions.needs_connection("repo", "/run/a.sock"));
    sessions.connected("repo", "/run/a.sock".into());
    assert!(!sessions.needs_connection("repo", "/run/a.sock"));
    assert!(!sessions.needs_connection("repo", "/run/a.sock"));
    assert!(sessions.needs_connection("repo", "/run/b.sock"));
    assert!(sessions.needs_connection("other", "/run/a.sock"));
    sessions.remove("repo");
    assert!(sessions.needs_connection("repo", "/run/a.sock"));
    sessions.remove("missing");
}

fn registration() -> RegistrationInput {
    RegistrationInput {
        name: " Example ".into(),
        repo_path: "/t/repo".into(),
        store_path: "/t/stores/future".into(),
        model_path: "/t/model".into(),
        daemon_path: "/t/daemon".into(),
    }
}

fn resolved() -> ResolvedPaths {
    ResolvedPaths {
        repo: Some(("/real/repo".into(), true)),
        store: StoreLookup::Missing {
            parent: "/t/stores".into(),
            leaf: "future".into(),
            parent_resolved: Some(("/real/stores".into(), true)),
        },
        model: Some(("/real/model".into(), true)),
        daemon: Some(("/real/daemon".into(), true, 0o700)),
    }
}

#[test]
fn accepts_missing_store_leaf_and_removal_preserves_it() {
    let r = validate(registration(), resolved()).unwrap();
    assert_eq!(r.name, "Example");
    assert_eq!(r.repo_path, "/real/repo");
    assert_eq!(r.store_path, "/real/stores/future");
    assert_eq!(r.model_path, "/real/model");
    assert_eq!(r.daemon_path, "/real/daemon");
}

#[test]
fn store_paths_resolve_or_name_the_problem() {
    assert_eq!(
        store("/s", StoreLookup::Existing(Some(("/real/s".into(), true)))).unwrap(),
        "/real/s"
    );
    assert_eq!(store("s", StoreLookup::Unsplittable), Err(RegistryError::RelativePath { field: "store" }));
    let err = store("/", StoreLookup::Unsplittable).unwrap_err();
    assert_eq!(err.describe(), "store is not a valid directory or missing final leaf below a directory: /");
    let err = store(
        "/gone/leaf",
        StoreLookup::Missing { parent: "/gone".into(), leaf: "leaf".into(), parent_resolved: None },
    )
    .unwrap_err();
    assert_eq!(err.describe(), "store is not a valid directory: /gone");
}

#[test]
fn registration_checks_fail_in_order() {
    let mut input = registration();
    input.name = "  ".into();
    assert_eq!(validate(input, resolved()), Err(RegistryError::BlankName));
    let mut found = resolved();
    found.repo = None;
    found.daemon = None;
    let err = validate(registration(), found).unwrap_err();
    assert_eq!(err.describe(), "repository is not a valid directory: /t/repo");
    let mut found = resolved();
    found.daemon = Some(("/real/daemon".into(), true, 0o600));
    let err = validate(registration(), found).unwrap_err();
    assert_eq!(err.describe(), "daemon is not a valid executable file: /t/daemon");
    let mut input = registration();
    input.model_path = "model".into();
    assert_eq!(validate(input, resolved()), Err(RegistryError::RelativePath { field: "model" }));
}

fn canonical_asset(target: &str) -> Option<(String, &'static [u8])> {
    match target {
        "index.html" => Some(("/t/ui/index.html".into(), b"<main>Console</main>")),
        "app.js" => Some(("/t/ui/app.js".into(), b"export default 1;")),
        "escape.txt" => Some(("/t/secret".into(), b"PRIVATE")),
        _ => None,
    }
}

fn serve_method(
    root: &Assets,
    head: bool,
    path: &str,
    accept: Option<&str>,
) -> (u16, Option<AssetReply>, String) {
    let target = match plan_asset(true, path) {
        Err(e) => return (e.status(), None, e.message),
        Ok(AssetTarget::Index) => "index.html".to_string(),
        Ok(AssetTarget::File(rel)) => {
            let exists = canonical_asset(&rel).is_some();
            if use_index_fallback(exists, &rel, accept) {
                "index.html".to_string()
            } else {
                rel
            }
        }
    };
    let Some((canonical, bytes)) = canonical_asset(&target) else {
        let e = ApiError::missing();
        return (e.status(), None, e.message);
    };
    if !inside_root(&canonical, root.root()) {
        let e = outside_root_error();
        return (e.status(), None, e.message);
    }
    (200, Some(asset_reply(head, &canonical, bytes.to_vec())), String::new())
}

fn serve(root: &Assets, path: &str, accept: Option<&str>) -> (u16, Option<&'static str>) {
    let (status, reply, _) = serve_method(root, false, path, accept);
    (status, reply.map(|r| r.content_type))
}

#[test]
fn production_assets_and_spa_fallback_do_not_expose_api_or_filesystem() {
    let assets = Assets::open("/t/ui".into(), true, true).unwrap();
    for path in ["/", "/repositories/example"] {
        assert_eq!(serve(&assets, path, Some("text/html")), (200, Some("text/html; charset=utf-8")));
        let (_, reply, _) = serve_method(&assets, false, path, Some("text/html"));
        assert!(String::from_utf8(reply.unwrap().body).unwrap().contains("Console"));
    }
    for (path, status) in [
        ("/api/missing", 404),
        ("/api", 404),
        ("/missing.js", 404),
        ("/%2e%2e/secret", 400),
        ("/escape.txt", 403),
    ] {
        assert_eq!(serve(&assets, path, Some("text/html")).0, status, "{path}");
        let (_, reply, message) = serve_method(&assets, false, path, Some("text/html"));
        assert!(reply.is_none());
        assert!(!message.contains("PRIVATE"));
    }
    assert_eq!(serve(&assets, "/app.js", None), (200, Some("text/javascript; charset=utf-8")));
    assert_eq!(plan_asset(false, "/app.js").unwrap_err().status(), 404);
}

#[test]
fn head_requests_get_headers_without_a_body() {
    let assets = Assets::open("/t/ui".into(), true, true).unwrap();
    let (status, reply, _) = serve_method(&assets, true, "/app.js", None);
    assert_eq!(status, 200);
    let reply = reply.unwrap();
    assert_eq!(reply.content_type, "text/javascript; charset=utf-8");
    assert_eq!(reply.content_length, "export default 1;".len());
    assert!(reply.body.is_empty());
    let get = asset_reply(false, "/t/ui/app.js", b"export default 1;".to_vec());
    assert_eq!(get.content_type, reply.content_type);
    assert_eq!(get.content_length, reply.content_length);
    assert_eq!(get.body, b"export default 1;".to_vec());
    let other = asset_reply(false, "/t/ui/data.bin", vec![1, 2, 3]);
    assert_eq!(other.content_type, "application/octet-stream");
    assert_eq!(other.content_length, 3);
}

#[test]
fn missing_build_has_an_actionable_startup_error() {
    let err = Assets::open("/t/empty".into(), true, false).err().unwrap();
    assert!(err.message.contains("--assets"));
    assert!(Assets::open("/t/file".into(), false, true).is_err());
}

#[test]
fn missing_assets_returns_actionable_error_referencing_assets_flag() {
    let err = Assets::open("/t/empty".into(), true, false).err().unwrap();
    assert_eq!(err.kind, AssetsErrorKind::NotFound);
    assert!(err.message.contains("--assets"));
    assert!(err.message.contains("Frontend assets are missing"));
}

#[test]
fn guard_runs_the_handler_only_when_nothing_refuses() {
    let read = RequestHeaders {
        read_only: true,
        host: Some("127.0.0.1:7000".into()),
        origin: None,
        sec_fetch_site: None,
        csrf: None,
        content_type: None,
    };
    assert_eq!(guard_begin(&read, &config()), GuardAction::RunHandler);
    let mut wrong_host = read.clone();
    wrong_host.host = Some("evil:7000".into());
    match guard_begin(&wrong_host, &config()) {
        GuardAction::Refuse(e) => {
            assert_eq!(e.code, "invalid_host");
            assert_eq!(e.status(), 400);
        }
        other => panic!("unexpected {other:?}"),
    }
    assert_eq!(guard_begin(&mutation(), &config()), GuardAction::ReadBody);
    assert_eq!(guard_after_body(true), GuardAction::RunHandler);
    match guard_after_body(false) {
        GuardAction::RefuseOversized(e) => assert_eq!(e.status(), 413),
        other => panic!("unexpected {other:?}"),
    }
    let mut no_csrf = mutation();
    no_csrf.csrf = None;
    match guard_begin(&no_csrf, &config()) {
        GuardAction::Refuse(e) => assert_eq!(e.code, "invalid_csrf"),
        other => panic!("unexpected {other:?}"),
    }
}

#[test]
fn every_sealed_response_carries_the_security_headers() {
    let sealed = seal_response(200, Some(b"application/json; charset=utf-8"));
    assert!(sealed.replace_with.is_none());
    assert!(sealed.no_store);
    assert_eq!(sealed.headers, security_headers());
    let sealed = seal_response(422, None);
    assert_eq!(sealed.replace_with.unwrap().code, "invalid_request");
    assert!(sealed.no_store);
    assert_eq!(sealed.headers[1], ("x-content-type-options", "nosniff"));
    let sealed = seal_response(200, Some(b"text/html"));
    assert!(!sealed.no_store);
    assert_eq!(sealed.headers[2], ("referrer-policy", "no-referrer"));
}

#[test]
fn collection_rounds_read_at_most_four_pages() {
    assert_eq!(collection_step(0, PageOutcome::Recorded { more: true }, 10), CollectionStep::NextPage);
    assert_eq!(collection_step(2, PageOutcome::Recorded { more: true }, 10), CollectionStep::NextPage);
    assert_eq!(collection_step(3, PageOutcome::Recorded { more: true }, 10), CollectionStep::Done);
    assert_eq!(collection_step(0, PageOutcome::Recorded { more: false }, 10), CollectionStep::Done);
    assert_eq!(collection_step(1, PageOutcome::RecordFailed, 10), CollectionStep::RecordingFailed);
    assert_eq!(
        collection_step(1, PageOutcome::ObserveFailed, 10_000),
        CollectionStep::Outage { from_unix_ms: 8_000, to_unix_ms: 10_000 }
    );
    assert_eq!(
        collection_step(1, PageOutcome::ObserveFailed, 500),
        CollectionStep::Outage { from_unix_ms: 0, to_unix_ms: 500 }
    );
}
