use sift::console::api::{daemon_index_mode, ApiError, IndexJob, IndexMode, JobState, OperationPhase, OperationType};
use sift::console::assets::{accepts_html, decode};
use sift::console::history::{sanitize_last_index, sanitize_resources};
use sift::console::jobs::{
    event_message, finish_start, record_update, start_ready, unexpected_startup, JobBook,
};
use sift::console::registry::is_executable;
use sift::console::security::unprocessable_replacement;
use sift::keyed::{find_key, lookup, remove_key, upsert};
use sift::mining::{
    changed_lines_from_tags, commit_limit_reached, contains_pair, Label, LabelSource, LineTag,
    MiningConfig, MiningReport,
};
use sift::protocol::{
    DaemonError, IndexReportWire, LastIndexCompletion, Lifecycle, ResourceSnapshot, Response,
    StageTimings,
};
use sift::scoring::{labels_from_source, labels_in_bucket, LengthBucket};
use sift::session::{index_completion, needs_resource_refresh, resources_snapshot, success_draft};
use sift::store::{resolve_symbol, symbol_response, StoreIdentity, SymbolRecord};
use sift::text::{
    char_is_white, chars_of, count_words, format_u64, hex_digit, parse_u32,
    push_str_chars, str_contains, string_of, trim_white,
};

fn record(file: &str, symbol: &str, signature: &str) -> SymbolRecord {
    SymbolRecord {
        file: file.into(),
        symbol: symbol.into(),
        language: "rust".into(),
        signature: signature.into(),
        line_start: 3,
        line_end: 9,
    }
}

fn report(commit: &str) -> IndexReportWire {
    IndexReportWire {
        commit: commit.into(),
        files_seen: 1,
        files_indexed: 2,
        files_excluded: 3,
        files_unsupported: 4,
        files_unparsed: 5,
        chunks_added: 6,
        chunks_reused: 7,
        chunks_removed: 8,
        embeddings_computed: 9,
        chunks_truncated: 10,
        parse_millis: 11,
        embed_millis: 12,
        store_millis: 13,
        wall_millis: 14,
        live_before: 15,
        live_after: 16,
    }
}

fn job(id: &str, repo: &str, state: JobState) -> IndexJob {
    IndexJob {
        id: id.into(),
        repository_id: repo.into(),
        state,
        operation_type: OperationType::StartDaemon,
        phase: OperationPhase::SpawningDaemon,
        progress: None,
        done: 0,
        total: None,
        report: None,
        error_code: None,
        error_message: None,
        daemon_instance_id: None,
        started_at_unix_ms: 1,
        updated_at_unix_ms: 1,
        completed_at_unix_ms: None,
        events: vec![],
    }
}

#[test]
fn get_symbol_found_absent_ambiguous() {
    let records = vec![
        Some(record("a.rs", "alpha", "fn alpha()")),
        None,
        Some(record("a.rs", "beta", "fn beta()")),
        Some(record("a.rs", "beta", "fn beta(x: u8)")),
    ];
    assert_eq!(resolve_symbol("a.rs", "alpha", &records), Ok(0));
    assert_eq!(
        resolve_symbol("a.rs", "gamma", &records),
        Err(DaemonError::SymbolNotFound { file: "a.rs".into(), symbol: "gamma".into() })
    );
    assert_eq!(
        resolve_symbol("a.rs", "beta", &records),
        Err(DaemonError::SymbolAmbiguous {
            file: "a.rs".into(),
            symbol: "beta".into(),
            candidates: vec!["a.rs:fn beta()".into(), "a.rs:fn beta(x: u8)".into()],
        })
    );
    let r = symbol_response(&record("a.rs", "alpha", "fn alpha()"), "body".into());
    assert_eq!(
        r,
        Response::Symbol {
            file: "a.rs".into(),
            symbol: "alpha".into(),
            language: "rust".into(),
            signature: "fn alpha()".into(),
            lines: [3, 9],
            body: "body".into(),
        }
    );
}

#[test]
fn store_stale_after_replace() {
    let id = StoreIdentity {
        canonical_path: "/s".into(),
        schema_version: 1,
        model_id: "m".into(),
        dir_dev: 7,
        dir_ino: 42,
    };
    assert!(id.check_still_valid(Ok((7, 42))).is_ok());
    assert_eq!(
        id.check_still_valid(Ok((7, 43))),
        Err(DaemonError::StoreStale { reason: "store directory replaced".into() })
    );
    assert_eq!(
        id.check_still_valid(Err("No such file".into())),
        Err(DaemonError::StoreStale { reason: "store missing: No such file".into() })
    );
}

#[test]
fn index_completion_keeps_report_or_code() {
    let done = index_completion(5, 1, 2, Ok(report("abc")));
    assert_eq!(done.outcome, "ok");
    assert_eq!(done.report, Some(report("abc")));
    let failed = index_completion(5, 1, 2, Err(DaemonError::GpuUnavailable { detail: "x".into() }));
    assert_eq!(failed.outcome, "error");
    assert_eq!(failed.error_code.as_deref(), Some("gpu_unavailable"));
    assert!(failed.report.is_none());
    let t = StageTimings { embed: 1, lexical: 1, dense: 1, fuse: 1, assemble: 1, total: 5 };
    let d = success_draft(1, 2, "Search", 7, Some(t));
    assert_eq!(d.outcome, "ok");
    assert_eq!(d.result_count, Some(7));
}

#[test]
fn resources_are_stamped_and_refreshed() {
    let never = ResourceSnapshot::unavailable(0);
    assert_eq!(resources_snapshot(&never, 99).sampled_at_unix_ms, 99);
    let taken = ResourceSnapshot::unavailable(5);
    assert_eq!(resources_snapshot(&taken, 99), taken);
    assert!(needs_resource_refresh(2000));
    assert!(!needs_resource_refresh(1999));
}

#[test]
fn history_drops_odd_device_ids_and_commits() {
    let mut r = ResourceSnapshot::unavailable(3);
    r.device_id = Some("GPU-1234:abcd".into());
    assert_eq!(sanitize_resources(&r).device_id.as_deref(), Some("GPU-1234:abcd"));
    r.device_id = Some("/home/user/secret".into());
    assert!(sanitize_resources(&r).device_id.is_none());
    r.device_id = Some("a".repeat(81));
    assert!(sanitize_resources(&r).device_id.is_none());
    let last = LastIndexCompletion {
        completed_at_unix_ms: 1,
        outcome: "weird".into(),
        error_code: Some("secret".into()),
        connection_id: 2,
        request_id: 3,
        report: Some(report("not a commit")),
    };
    let kept = sanitize_last_index(&last);
    assert_eq!(kept.outcome, "unknown");
    assert_eq!(kept.error_code.as_deref(), Some("operation_failed"));
    let mut expected = report("");
    expected.commit = String::new();
    assert_eq!(kept.report, Some(expected));
    let mut last = last;
    last.report = Some(report("deadbeef"));
    assert_eq!(sanitize_last_index(&last).report.unwrap().commit, "deadbeef");
}

#[test]
fn daemon_starts_are_settled() {
    let mut j = job("s1", "repo", JobState::Running);
    assert_eq!(event_message(&j), "Starting daemon");
    record_update(&mut j, 10);
    assert_eq!(j.updated_at_unix_ms, 10);
    assert_eq!(j.events.len(), 1);
    assert_eq!(j.events[0].message, "Starting daemon");
    finish_start(&mut j, Err(unexpected_startup()), 11);
    assert_eq!(j.state, JobState::Failed);
    assert_eq!(j.phase, OperationPhase::Failed);
    assert_eq!(j.error_code.as_deref(), Some("connection_lost"));
    assert_eq!(j.completed_at_unix_ms, Some(11));
    assert_eq!(event_message(&j), "The daemon returned an unexpected startup response.");
    let mut k = job("s2", "repo", JobState::Running);
    finish_start(&mut k, Ok(()), 12);
    assert_eq!(k.state, JobState::Succeeded);
    assert_eq!(k.phase, OperationPhase::Completed);
    assert!(start_ready(Lifecycle::Ready));
    assert!(start_ready(Lifecycle::Indexing));
    assert!(!start_ready(Lifecycle::Starting));
}

#[test]
fn job_book_loads_forgets_and_keeps_persisted() {
    let mut book = JobBook::load(vec![
        job("a", "r1", JobState::Succeeded),
        job("b", "r1", JobState::Running),
        job("c", "r2", JobState::Failed),
    ]);
    assert!(book.running("r1"));
    assert!(!book.running("r2"));
    book.keep_persisted(&vec!["c".to_string()]);
    assert!(book.get("a").is_err());
    assert!(book.get("b").is_ok());
    assert!(book.get("c").is_ok());
    book.forget("r1");
    assert!(book.get("b").is_err());
    assert_eq!(book.list("r2").len(), 1);
    let book = JobBook::load(vec![
        job("z9", "r", JobState::Failed),
        job("a1", "other", JobState::Failed),
        job("m5", "r", JobState::Succeeded),
        job("b2", "r", JobState::Interrupted),
    ]);
    let ids: Vec<String> = book.list("r").iter().map(|j| j.id.clone()).collect();
    assert_eq!(ids, vec!["b2".to_string(), "m5".to_string(), "z9".to_string()]);
}

#[test]
fn small_console_rules() {
    assert_eq!(daemon_index_mode(IndexMode::Full), sift::protocol::IndexMode::Full);
    assert_eq!(daemon_index_mode(IndexMode::Update), sift::protocol::IndexMode::Update);
    assert!(ApiError::database().retryable);
    assert_eq!(ApiError::database().status(), 503);
    assert_eq!(unprocessable_replacement().code, "invalid_request");
    assert!(is_executable(0o100));
    assert!(!is_executable(0o644));
    assert_eq!(decode("/a%20b"), Some("/a b".to_string()));
    assert_eq!(decode("/%zz"), None);
    assert_eq!(decode("/%ff"), None);
    assert!(accepts_html("application/json, text/html;q=0.9"));
    assert!(!accepts_html("application/json"));
}

#[test]
fn text_helpers() {
    assert_eq!(string_of(&chars_of("héllo")), "héllo");
    assert!(char_is_white('\t'));
    assert_eq!(count_words("  one two\tthree "), 3);
    assert_eq!(hex_digit('f'), Some(15));
    assert_eq!(hex_digit('g'), None);
    assert_eq!(parse_u32("4294967295"), Some(u32::MAX));
    assert_eq!(parse_u32("4294967296"), None);
    assert_eq!(parse_u32(""), None);
    assert_eq!(parse_u32("12a"), None);
    assert!(str_contains("frame truncated here", "truncated"));
    assert!(!str_contains("abc", "abd"));
    let mut s = sift::text::concat("a", "b");
    push_str_chars(&mut s, "c");
    assert_eq!(s, "abc");
    assert_eq!(format_u64(0), "0");
    assert_eq!(format_u64(u64::MAX), "18446744073709551615");
    assert_eq!(trim_white("  x y \n"), "x y");
}

#[test]
fn keyed_entries_behave_as_a_map() {
    let mut entries: Vec<(String, u32)> = Vec::new();
    upsert(&mut entries, "a", 1);
    upsert(&mut entries, "b", 2);
    upsert(&mut entries, "a", 3);
    assert_eq!(entries.len(), 2);
    assert_eq!(lookup(&entries, "a"), Some(&3));
    assert_eq!(find_key(&entries, "b"), Some(1));
    remove_key(&mut entries, "a");
    assert_eq!(lookup(&entries, "a"), None);
    remove_key(&mut entries, "zzz");
    assert_eq!(entries.len(), 1);
}

#[test]
fn mining_helpers() {
    let tags = vec![LineTag::Equal, LineTag::Delete, LineTag::Insert, LineTag::Equal, LineTag::Insert];
    assert_eq!(changed_lines_from_tags(&tags), vec![2, 4]);
    let config = MiningConfig { max_commits: Some(1), ..MiningConfig::default() };
    let mut report = MiningReport::new();
    assert!(!commit_limit_reached(&config, &report));
    report.examine();
    assert!(commit_limit_reached(&config, &report));
    assert!(!commit_limit_reached(&MiningConfig::default(), &report));
    let set = vec![("a.rs".to_string(), "x".to_string())];
    assert!(contains_pair(&set, &("a.rs".to_string(), "x".to_string())));
    assert!(!contains_pair(&set, &("a.rs".to_string(), "y".to_string())));
    let labels = vec![
        Label { query: "one two".into(), expected: vec![], source: LabelSource::Docstring, provenance: "1".into() },
        Label { query: "a b c d e".into(), expected: vec![], source: LabelSource::CommitSubject, provenance: "2".into() },
    ];
    assert_eq!(labels_from_source(&labels, LabelSource::Docstring).len(), 1);
    assert_eq!(labels_in_bucket(&labels, LengthBucket::Medium)[0].provenance, "2");
}
