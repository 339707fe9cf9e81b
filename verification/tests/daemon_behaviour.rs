use sift::measure::{
    aggregate_console_medians, median_u64, nearest_rank_percentile, pair_order,
    parse_console_measure_args, parse_measure_args, sort_samples, ConsoleRunReport,
    MeasureArgsError,
};
use sift::observe::{
    build_observation, fit_observation_step, record_terminal, safe_error_code, shrink_observation,
    EventRing,
    TerminalEventDraft,
};
use sift::paths::{
    check_not_world_writable, check_runtime_dir_mode, check_socket_mode, format_octal, join_path,
    lock_path_for_store, runtime_base, runtime_dir_for_store, socket_path_for_store,
};
use sift::protocol::{
    ClientRole, DaemonError, DaemonStatus, EventCursor, IndexMode, Lifecycle, Request,
    RequestEvent, ResourceSnapshot, EVENT_RING_CAPACITY, OBSERVE_PAGE_SIZE,
};
use sift::session::{
    build_status, failure_draft, gate_request, hello_inputs, idle_shutdown_due, opening_step,
    plan_request, read_failure_step, request_log_level, request_type_name, DispatchPlan, LogLevel,
    GateStep, OpeningStep, ReadFailureStep, ServingView, classify_connection, close_connection,
    connection_role, index_run_step, serving_kind, ClientCount, IndexRunEvent, ServingKind,
};

fn event(instance: &str, seq_hint: u64, connection_id: u64, request_id: u64) -> RequestEvent {
    RequestEvent {
        cursor: EventCursor { instance_id: instance.into(), sequence: seq_hint },
        connection_id,
        request_id,
        completed_at_unix_ms: 1,
        operation: "Search".into(),
        elapsed_micros: 10,
        outcome: "ok".into(),
        error_code: None,
        result_count: Some(1),
        stage_millis: None,
    }
}

fn status(instance: &str) -> DaemonStatus {
    DaemonStatus {
        lifecycle: Lifecycle::Ready,
        instance_id: instance.into(),
        observed_at_unix_ms: 1,
        model_id: None,
        chunks_live: None,
        chunks_dead: None,
        indexed_commit: None,
        idle_seconds: 0,
        uptime_seconds: 0,
        current_progress: None,
        last_index: None,
        resources: ResourceSnapshot::unavailable(1),
    }
}

fn strings(items: &[&str]) -> Vec<String> {
    items.iter().map(|s| s.to_string()).collect()
}

#[test]
fn ring_assigns_monotonic_sequences() {
    let mut ring = EventRing::default();
    let s0 = ring.push(event("a", 99, 1, 2));
    let s1 = ring.push(event("a", 99, 1, 3));
    assert_eq!(s0, 0);
    assert_eq!(s1, 1);
    assert_eq!(ring.next_sequence(), 2);
}

#[test]
fn page_never_replays_last_consumed_sequence() {
    let mut ring = EventRing::default();
    for i in 0..5 {
        ring.push(event("a", 0, 1, i));
    }
    let (page, next, gap, more) =
        ring.page("a", Some(&EventCursor { instance_id: "a".into(), sequence: 1 }));
    assert!(!gap);
    assert!(!more);
    assert_eq!(page.first().map(|e| e.cursor.sequence), Some(2));
    assert_eq!(next.sequence, 4);
}

#[test]
fn mismatched_instance_signals_gap() {
    let mut ring = EventRing::default();
    ring.push(event("new", 0, 1, 1));
    let (events, _next, gap, _) =
        ring.page("new", Some(&EventCursor { instance_id: "old".into(), sequence: 0 }));
    assert!(gap);
    assert_eq!(events.len(), 1);
}

#[test]
fn observation_omits_sensitive_payload_fields() {
    let mut ring = EventRing::default();
    let mut ev = event("a", 0, 1, 2);
    ev.operation = "Search".into();
    ring.push(ev);
    let obs = build_observation(status("a"), &ring, None);
    let encoded = format!("{obs:?}");
    assert!(!encoded.contains("SECRET_QUERY"));
    assert!(!encoded.contains("secret_path.rs"));
    assert_eq!(obs.events[0].operation, "Search");
    assert_eq!(obs.events[0].request_id, 2);
}

#[test]
fn ring_drops_oldest_beyond_capacity() {
    let mut ring = EventRing::new();
    for i in 0..(EVENT_RING_CAPACITY as u64 + 3) {
        ring.push(event("a", 0, 1, i));
    }
    let (page, _, gap, more) = ring.page("a", None);
    assert!(!gap);
    assert!(more);
    assert_eq!(page.len(), OBSERVE_PAGE_SIZE);
    assert_eq!(page[0].cursor.sequence, 3);
    let (_, _, gap, _) = ring.page("a", Some(&EventCursor { instance_id: "a".into(), sequence: 0 }));
    assert!(gap);
}

#[test]
fn empty_page_keeps_cursor() {
    let ring = EventRing::new();
    let (page, next, gap, more) =
        ring.page("a", Some(&EventCursor { instance_id: "a".into(), sequence: 9 }));
    assert!(page.is_empty());
    assert_eq!(next.sequence, 9);
    assert!(!gap);
    assert!(!more);
}

#[test]
fn recording_off_leaves_ring_untouched() {
    let mut ring = EventRing::new();
    let draft = TerminalEventDraft {
        connection_id: 1,
        request_id: 2,
        operation: "Search".into(),
        outcome: "ok".into(),
        error_code: None,
        result_count: Some(3),
        stage_millis: None,
    };
    record_terminal(&mut ring, false, draft, "inst", 5, 6);
    assert_eq!(ring.next_sequence(), 0);
    let draft = failure_draft(4, 5, "Index", &DaemonError::IndexInProgress);
    record_terminal(&mut ring, true, draft, "inst", 7, 8);
    let (page, _, _, _) = ring.page("inst", None);
    assert_eq!(page.len(), 1);
    assert_eq!(page[0].cursor.instance_id, "inst");
    assert_eq!(page[0].request_id, 5);
    assert_eq!(page[0].completed_at_unix_ms, 7);
    assert_eq!(page[0].elapsed_micros, 8);
    assert_eq!(page[0].outcome, "error");
    assert_eq!(page[0].error_code.as_deref(), Some("index_in_progress"));
}

#[test]
fn shrinking_moves_cursor_back() {
    let mut ring = EventRing::new();
    for i in 0..3 {
        ring.push(event("a", 0, 1, i));
    }
    let mut obs = build_observation(status("a"), &ring, None);
    assert_eq!(obs.next_cursor.sequence, 2);
    shrink_observation(&mut obs);
    assert!(obs.more);
    assert_eq!(obs.events.len(), 2);
    assert_eq!(obs.next_cursor.sequence, 1);
}

#[test]
fn oversized_observations_drop_events_until_they_fit() {
    let mut ring = EventRing::new();
    for i in 0..3 {
        ring.push(event("a", 0, 1, i));
    }
    let mut obs = build_observation(status("a"), &ring, None);
    let limit = sift::protocol::MAX_REQUEST_BYTES + 4;
    assert!(fit_observation_step(&mut obs, Some(limit + 1)));
    assert_eq!(obs.events.len(), 2);
    assert!(obs.more);
    assert_eq!(obs.next_cursor.sequence, 1);
    assert!(fit_observation_step(&mut obs, None));
    assert_eq!(obs.events.len(), 1);
    assert_eq!(obs.next_cursor.sequence, 0);
    let before = obs.clone();
    assert!(!fit_observation_step(&mut obs, Some(limit)));
    assert_eq!(obs, before);
    assert!(fit_observation_step(&mut obs, Some(usize::MAX)));
    assert!(obs.events.is_empty());
    assert!(!fit_observation_step(&mut obs, None));
    assert!(obs.events.is_empty());
}

#[test]
fn error_codes_carry_no_detail() {
    let err = DaemonError::SymbolNotFound { file: "secret_path.rs".into(), symbol: "s".into() };
    assert_eq!(safe_error_code(&err), "symbol_not_found");
    assert_eq!(safe_error_code(&DaemonError::Starting), "starting");
}

#[test]
fn routine_successes_are_debug_and_operations_are_info() {
    assert_eq!(request_log_level("Hello", "ok"), LogLevel::Debug);
    assert_eq!(request_log_level("Observe", "ok"), LogLevel::Debug);
    assert_eq!(request_log_level("Status", "ok"), LogLevel::Debug);
    assert_eq!(request_log_level("Search", "ok"), LogLevel::Info);
    assert_eq!(request_log_level("Index", "ok"), LogLevel::Info);
}

#[test]
fn recoverable_conditions_warn_and_failures_error() {
    assert_eq!(request_log_level("Search", "starting"), LogLevel::Warn);
    assert_eq!(request_log_level("Search", "forbidden"), LogLevel::Warn);
    assert_eq!(request_log_level("Search", "error"), LogLevel::Error);
}

#[test]
fn observers_may_only_read_status_and_events() {
    let search = Request::Search { query: "q".into(), top_k: 5 };
    match gate_request(ClientRole::Observer, &search) {
        GateStep::RefuseAndContinue(DaemonError::ObserverForbidden { operation }) => {
            assert_eq!(operation, "Search")
        }
        other => panic!("unexpected {other:?}"),
    }
    assert_eq!(gate_request(ClientRole::Observer, &Request::Status), GateStep::Dispatch);
    assert_eq!(
        gate_request(ClientRole::Observer, &Request::Observe { after: None }),
        GateStep::Dispatch
    );
    assert_eq!(gate_request(ClientRole::Worker, &search), GateStep::Dispatch);
    assert_eq!(request_type_name(&Request::Shutdown), "Shutdown");
}

#[test]
fn starting_daemon_rejects_workers_but_answers_status() {
    let hello = Request::Hello { protocol_version: 2, client: "w".into() };
    let search = Request::Search { query: "q".into(), top_k: 5 };
    assert_eq!(opening_step(&hello, &ServingView::Starting), OpeningStep::Handshake);
    assert_eq!(opening_step(&Request::Status, &ServingView::Starting), OpeningStep::AnswerStatus);
    assert_eq!(opening_step(&search, &ServingView::Starting), OpeningStep::RejectStarting);
    let stale = ServingView::Stale { reason: "gone".into() };
    assert_eq!(opening_step(&hello, &stale), OpeningStep::RejectStale { reason: "gone".into() });
    let observer = Request::Hello {
        protocol_version: 2,
        client: sift::protocol::OBSERVER_CLIENT.into(),
    };
    assert_eq!(opening_step(&observer, &stale), OpeningStep::Handshake);
}

#[test]
fn plans_follow_the_serving_state() {
    let ready = ServingView::Ready {
        model_id: "m".into(),
        chunks_live: 3,
        chunks_dead: 1,
        indexed_commit: None,
    };
    let search = Request::Search { query: "q".into(), top_k: 5 };
    let index = Request::Index { mode: IndexMode::Full, repo_dir: "/r".into() };
    assert_eq!(plan_request(&search, &ready, false), DispatchPlan::Run);
    assert_eq!(
        plan_request(&search, &ServingView::Starting, false),
        DispatchPlan::RefuseRecorded(DaemonError::Starting)
    );
    assert_eq!(
        plan_request(&index, &ready, true),
        DispatchPlan::RefuseRecorded(DaemonError::IndexInProgress)
    );
    assert_eq!(plan_request(&index, &ready, false), DispatchPlan::StartIndex);
    assert_eq!(plan_request(&Request::Shutdown, &ready, false), DispatchPlan::AnswerStatusThenShutdown);
    let hello = Request::Hello { protocol_version: 2, client: "w".into() };
    assert_eq!(
        plan_request(&hello, &ready, false),
        DispatchPlan::Refuse(DaemonError::Malformed { detail: "duplicate Hello".into() })
    );
    assert_eq!(hello_inputs(&ready), ("m".to_string(), 3));
    assert_eq!(hello_inputs(&ServingView::Starting), (String::new(), 0));
}

#[test]
fn read_failures_close_on_truncation() {
    let truncated = DaemonError::Malformed { detail: "truncated frame body".into() };
    assert_eq!(read_failure_step(&truncated, true), ReadFailureStep::Close);
    let too_large = DaemonError::RequestTooLarge { bytes: 5, limit: 4 };
    assert_eq!(read_failure_step(&too_large, true), ReadFailureStep::ReplyAndContinue);
    assert_eq!(read_failure_step(&too_large, false), ReadFailureStep::ReplyAndClose);
}

#[test]
fn status_reports_shutting_down_over_serving_state() {
    let ready = ServingView::Ready {
        model_id: "m".into(),
        chunks_live: 3,
        chunks_dead: 1,
        indexed_commit: Some("abc".into()),
    };
    let s = build_status(&ready, true, "i".into(), 1, 2, 3, None, None, ResourceSnapshot::unavailable(1));
    assert_eq!(s.lifecycle, Lifecycle::ShuttingDown);
    assert_eq!(s.model_id.as_deref(), Some("m"));
    assert_eq!(s.chunks_live, Some(3));
    assert_eq!(s.indexed_commit.as_deref(), Some("abc"));
    let s = build_status(&ServingView::Starting, false, "i".into(), 1, 2, 3, None, None, ResourceSnapshot::unavailable(1));
    assert_eq!(s.lifecycle, Lifecycle::Starting);
    assert!(s.model_id.is_none());
}

#[test]
fn idle_shutdown_waits_for_workers() {
    assert!(idle_shutdown_due(0, true, false));
    assert!(!idle_shutdown_due(1, true, false));
    assert!(!idle_shutdown_due(0, false, false));
}

#[test]
fn nearest_rank_p95_of_1_to_100_is_95() {
    let values: Vec<u64> = (1..=100).collect();
    assert_eq!(nearest_rank_percentile(&values, 95), Some(95));
    assert_eq!(nearest_rank_percentile(&values, 50), Some(50));
}

#[test]
fn nearest_rank_rejects_out_of_range_percentiles() {
    let values: Vec<u64> = vec![3, 5, 9];
    assert_eq!(nearest_rank_percentile(&values, 0), None);
    assert_eq!(nearest_rank_percentile(&values, 101), None);
    assert_eq!(nearest_rank_percentile(&[], 50), None);
    assert_eq!(nearest_rank_percentile(&values, 100), Some(9));
    assert_eq!(nearest_rank_percentile(&values, 1), Some(3));
}

#[test]
fn median_sorts_and_averages_middle_pair() {
    assert_eq!(median_u64(&[]), None);
    assert_eq!(median_u64(&[5, 1, 3]), Some(3));
    assert_eq!(median_u64(&[4, 1, 3, 2]), Some(2));
    assert_eq!(median_u64(&[u64::MAX, u64::MAX]), Some(u64::MAX));
    assert_eq!(sort_samples(&[3, 1, 2]), vec![1, 2, 3]);
}

#[test]
fn parse_requires_paths_and_rejects_zero_runs() {
    let err = parse_measure_args(&[]).unwrap_err();
    assert!(matches!(err, MeasureArgsError::Missing("repo")));
    let args = strings(&[
        "--repo", "/r", "--store", "/s", "--model", "/m", "--daemon", "/d", "--runs", "0",
        "--output", "/o",
    ]);
    assert!(matches!(parse_measure_args(&args), Err(MeasureArgsError::InvalidRuns(_))));
}

#[test]
fn parse_accepts_valid_args() {
    let args = strings(&[
        "--repo", "/r", "--store", "/s", "--model", "/m", "--daemon", "/d", "--runs", "3",
        "--output", "/o",
    ]);
    let parsed = parse_measure_args(&args).unwrap();
    assert_eq!(parsed.runs, 3);
    assert_eq!(std::path::PathBuf::from(&parsed.repo), std::path::PathBuf::from("/r"));
}

#[test]
fn parse_reports_unknown_flags_and_missing_values() {
    let err = parse_measure_args(&strings(&["--bogus"])).unwrap_err();
    assert_eq!(err, MeasureArgsError::UnknownFlag("--bogus".into()));
    assert_eq!(err.message(), "unknown argument: --bogus");
    let err = parse_measure_args(&strings(&["--repo"])).unwrap_err();
    assert_eq!(err, MeasureArgsError::Missing("repo"));
    assert_eq!(err.message(), "missing required argument --repo");
    let err = parse_measure_args(&strings(&["--runs", "x"])).unwrap_err();
    assert_eq!(err.message(), "invalid --runs value: x");
}

#[test]
fn pair_order_alternates_off_and_on() {
    assert_eq!(pair_order(0), [false, true]);
    assert_eq!(pair_order(1), [true, false]);
    assert_eq!(pair_order(2), [false, true]);
}

#[test]
fn parse_console_measure_args_handles_valid_and_missing() {
    let err = parse_console_measure_args(&[]).unwrap_err();
    assert!(matches!(err, MeasureArgsError::Missing("repo")));
    let args = strings(&[
        "--repo", "/r", "--store", "/s", "--model", "/m", "--daemon", "/d", "--console", "/c",
        "--runs", "3", "--output", "/o",
    ]);
    let parsed = parse_console_measure_args(&args).unwrap();
    assert_eq!(parsed.runs, 3);
    assert_eq!(std::path::PathBuf::from(&parsed.console), std::path::PathBuf::from("/c"));
}

fn run(collection: bool, run_index: u32, p50: u64, p95: u64, daemon_rss: u64, console_rss: u64) -> ConsoleRunReport {
    ConsoleRunReport {
        collection,
        run_index,
        latencies_micros: vec![p50, p95],
        p50_micros: p50,
        p95_micros: p95,
        daemon_rss_bytes: Some(daemon_rss),
        console_rss_bytes: Some(console_rss),
        device_id: Some("GPU-uuid".into()),
        device_used_bytes: Some(1024),
        process_used_bytes: Some(512),
        sample_count: 20,
    }
}

#[test]
fn aggregate_console_summary_computes_medians_and_p95_change() {
    let runs = vec![
        run(false, 0, 100, 200, 10_000, 5_000),
        run(true, 0, 110, 220, 10_500, 5_500),
        run(true, 1, 115, 230, 10_600, 5_600),
        run(false, 1, 105, 210, 10_100, 5_100),
        run(false, 2, 95, 190, 9_900, 4_900),
        run(true, 2, 108, 215, 10_400, 5_400),
    ];
    let summary = aggregate_console_medians(&runs);
    assert_eq!(summary.runs_count, 6);
    assert_eq!(summary.collection_off_p50_median, Some(100));
    assert_eq!(summary.collection_off_p95_median, Some(200));
    assert_eq!(summary.collection_on_p50_median, Some(110));
    assert_eq!(summary.collection_on_p95_median, Some(220));
    assert_eq!(summary.daemon_rss_off_median, Some(10_000));
    assert_eq!(summary.daemon_rss_on_median, Some(10_500));
    assert_eq!(summary.console_rss_off_median, Some(5_000));
    assert_eq!(summary.console_rss_on_median, Some(5_500));
    let off = summary.collection_off_p95_median.unwrap() as f64;
    let on = summary.collection_on_p95_median.unwrap() as f64;
    assert_eq!((on - off) / off * 100.0, 10.0);
}

#[test]
fn aggregate_handles_unavailable_baseline_gracefully() {
    let make_run = |collection: bool, p95: u64| ConsoleRunReport {
        collection,
        run_index: 0,
        latencies_micros: vec![],
        p50_micros: 0,
        p95_micros: p95,
        daemon_rss_bytes: None,
        console_rss_bytes: None,
        device_id: None,
        device_used_bytes: None,
        process_used_bytes: None,
        sample_count: 0,
    };
    let summary = aggregate_console_medians(&vec![make_run(false, 0), make_run(true, 100)]);
    assert_eq!(summary.collection_off_p95_median, Some(0));
    assert_eq!(summary.collection_on_p95_median, Some(100));
    assert_eq!(summary.daemon_rss_off_median, None);
    assert_eq!(summary.console_rss_on_median, None);
}

#[test]
fn socket_path_deterministic_for_same_store() {
    let a = socket_path_for_store("/run/user/1000", "/tmp/x/store", &Ok("/tmp/x/store".to_string())).unwrap();
    let b = socket_path_for_store("/run/user/1000", "/tmp/x/store", &Ok("/tmp/x/store".to_string())).unwrap();
    assert_eq!(a, b);
    assert!(a.starts_with("/run/user/1000/sift/"));
    assert!(a.ends_with("/daemon.sock"));
    assert_eq!(a.len(), "/run/user/1000/sift/".len() + 16 + "/daemon.sock".len());
}

#[test]
fn socket_path_differs_for_different_stores() {
    let p1 = socket_path_for_store("/run/user/1000", "/tmp/x/a", &Ok("/tmp/x/a".to_string())).unwrap();
    let p2 = socket_path_for_store("/run/user/1000", "/tmp/x/b", &Ok("/tmp/x/b".to_string())).unwrap();
    assert_ne!(p1, p2);
}

#[test]
fn socket_and_lock_fail_together_when_the_store_cannot_be_canonicalized() {
    let missing: Result<String, String> = Err("No such file or directory (os error 2)".into());
    let sock = socket_path_for_store("/base", "/gone", &missing).unwrap_err();
    let lock = lock_path_for_store("/base", "/gone", &missing).unwrap_err();
    assert_eq!(sock, lock);
    assert_eq!(
        sock,
        DaemonError::Internal {
            detail: "canonicalize store /gone: No such file or directory (os error 2)".into()
        }
    );
    assert!(runtime_dir_for_store("/base", "/gone", &missing).is_err());
    let found: Result<String, String> = Ok("/real/store".into());
    let dir = runtime_dir_for_store("/base", "store", &found).unwrap();
    let sock = socket_path_for_store("/base", "store", &found).unwrap();
    let lock = lock_path_for_store("/base", "store", &found).unwrap();
    assert_eq!(sock, format!("{dir}/daemon.sock"));
    assert_eq!(lock, format!("{dir}/daemon.lock"));
}

#[test]
fn runtime_dir_uses_blake3_prefix() {
    let dir = runtime_dir_for_store("/base", "abc", &Ok("abc".to_string())).unwrap();
    let hex = blake3::hash(b"abc").to_hex().to_string();
    assert_eq!(dir, format!("/base/sift/{}", &hex[..16]));
    let lock = lock_path_for_store("/base/", "abc", &Ok("abc".to_string())).unwrap();
    assert_eq!(lock, format!("/base/sift/{}/daemon.lock", &hex[..16]));
}

#[test]
fn runtime_base_prefers_xdg_then_user() {
    assert_eq!(runtime_base(Some("/run/user/7"), Some("bob")), "/run/user/7");
    assert_eq!(runtime_base(None, Some("bob")), "/tmp/sift-bob");
    assert_eq!(runtime_base(None, None), "/tmp/sift-user");
    assert_eq!(join_path("", "x"), "x");
    assert_eq!(join_path("a/", "x"), "a/x");
    assert_eq!(join_path("a", "x"), "a/x");
}

#[test]
fn ensure_runtime_dir_is_owner_only() {
    assert!(check_runtime_dir_mode("/rt/hash", 0o40700).is_ok());
    match check_runtime_dir_mode("/rt/hash", 0o40750) {
        Err(DaemonError::Internal { detail }) => {
            assert_eq!(detail, "runtime dir /rt/hash permissions 750 allow group/other")
        }
        other => panic!("unexpected {other:?}"),
    }
}

#[test]
fn refuses_world_writable_directory() {
    let err = check_not_world_writable("/tmp/ww", 0o40777).unwrap_err();
    match err {
        DaemonError::Internal { detail } => {
            assert!(detail.contains("world-writable"), "detail={detail}");
            assert_eq!(detail, "refusing world-writable directory /tmp/ww (mode 777)");
        }
        other => panic!("unexpected {other:?}"),
    }
    assert!(check_not_world_writable("/tmp/ok", 0o40755).is_ok());
}

#[test]
fn socket_mode_must_be_owner_only() {
    assert!(check_socket_mode("/s", 0o140600).is_ok());
    match check_socket_mode("/s", 0o140666) {
        Err(DaemonError::Internal { detail }) => {
            assert_eq!(detail, "socket /s mode 666 allows group/other")
        }
        other => panic!("unexpected {other:?}"),
    }
    assert_eq!(format_octal(0), "0");
    assert_eq!(format_octal(0o1777), "1777");
}

#[test]
fn only_classified_workers_count_as_clients() {
    assert_eq!(classify_connection(ClientRole::Worker, 2), ClientCount { clients: 3, touch: true });
    assert_eq!(classify_connection(ClientRole::Observer, 2), ClientCount { clients: 2, touch: false });
    assert_eq!(close_connection(Some(ClientRole::Worker), 3), ClientCount { clients: 2, touch: true });
    assert_eq!(close_connection(Some(ClientRole::Observer), 3), ClientCount { clients: 3, touch: false });
    assert_eq!(close_connection(None, 3), ClientCount { clients: 3, touch: false });
    assert_eq!(connection_role(&OpeningStep::AnswerStatus, Some(ClientRole::Worker)), None);
    assert_eq!(connection_role(&OpeningStep::RejectStarting, Some(ClientRole::Worker)), None);
    assert_eq!(
        connection_role(&OpeningStep::Handshake, Some(ClientRole::Worker)),
        Some(ClientRole::Worker)
    );
    assert_eq!(connection_role(&OpeningStep::Handshake, None), None);
}

#[test]
fn index_runs_swap_the_served_snapshot_and_always_clear_the_flag() {
    assert_eq!(serving_kind(&ServingView::Starting), ServingKind::Starting);
    let step = index_run_step(IndexRunEvent::Taken { was: ServingKind::Ready, exclusive: true });
    assert_eq!(step.serving, ServingKind::Starting);
    assert!(!step.clear_indexing);
    assert_eq!(step.outcome, None);
    let step = index_run_step(IndexRunEvent::Split { error: None });
    assert_eq!(step.serving, ServingKind::Indexing);
    assert!(!step.clear_indexing);
    let step = index_run_step(IndexRunEvent::Finished { error: None, restored: false });
    assert_eq!(step.serving, ServingKind::Ready);
    assert!(step.clear_indexing);
    assert_eq!(step.outcome, Some(Ok(())));

    let step = index_run_step(IndexRunEvent::Taken { was: ServingKind::Ready, exclusive: false });
    assert_eq!(step.serving, ServingKind::Ready);
    assert!(step.clear_indexing);
    assert_eq!(
        step.outcome,
        Some(Err(DaemonError::Internal { detail: "resident still borrowed".into() }))
    );
    let step = index_run_step(IndexRunEvent::Taken { was: ServingKind::Stale, exclusive: true });
    assert_eq!(step.serving, ServingKind::Stale);
    assert_eq!(
        step.outcome,
        Some(Err(DaemonError::Internal { detail: "not ready for index".into() }))
    );
    let step = index_run_step(IndexRunEvent::Split { error: Some(DaemonError::Starting) });
    assert_eq!(step.serving, ServingKind::Starting);
    assert_eq!(step.outcome, Some(Err(DaemonError::Starting)));
    let failed = DaemonError::Internal { detail: "disk full".into() };
    let step =
        index_run_step(IndexRunEvent::Finished { error: Some(failed.clone()), restored: true });
    assert_eq!(step.serving, ServingKind::Ready);
    assert_eq!(step.outcome, Some(Err(failed.clone())));
    let step = index_run_step(IndexRunEvent::Finished { error: Some(failed), restored: false });
    assert_eq!(step.serving, ServingKind::Indexing);
    assert!(step.clear_indexing);
}
