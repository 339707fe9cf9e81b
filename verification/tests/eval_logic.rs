use sift::mining::{
    chunk_touched, compile_maintenance, default_handwritten_path, expand_home, handwritten_labels,
    judge_touched, line_count, match_maintenance, new_side_changed_lines, require_mined_revision,
    same_ignoring_ascii_case, screen_commit, EvalError, HandwrittenEntry, Label, LabelSource,
    MiningConfig, MiningReport, RejectReason, MINED_CORPUS_PINNED_REVISION, mine_commit_facts,
    sort_by_provenance, CommitFacts, add_touched, changed_lines_for, insert_pair, ChunkSpan,
    escape_meta, commit_subject, indexed_pairs, changed_paths_from,
};
use sift::protocol::{SearchResult, StageTimings};
use sift::text::text_less;
use sift::scoring::{
    breakdown_by_length, breakdown_by_source, bytes_before_hit_summary, median_bytes,
    baseline_command, bytes_until_file, count_top_k_hits, first_hit_index, mcp_bytes_to_first_hit,
    normalize_separators, partition_labels, LengthBucket, BASELINE_COMMAND,
};

fn pair(file: &str, symbol: &str) -> (String, String) {
    (file.to_string(), symbol.to_string())
}

fn words(items: &[&str]) -> Vec<String> {
    items.iter().map(|s| s.to_string()).collect()
}

fn reciprocal_rank(ranked: &Vec<(String, String)>, expected: &Vec<(String, String)>) -> f64 {
    match first_hit_index(ranked, expected) {
        Some(i) => 1.0 / (i as f64 + 1.0),
        None => 0.0,
    }
}

fn top_k_accuracy(
    rankings: &Vec<Vec<(String, String)>>,
    expected: &Vec<Vec<(String, String)>>,
    k: usize,
) -> f64 {
    count_top_k_hits(rankings, expected, k) as f64 / rankings.len() as f64
}

fn label(query: &str, expected: Vec<(String, String)>) -> Label {
    Label {
        query: query.into(),
        expected,
        source: LabelSource::CommitSubject,
        provenance: "c0ffee".into(),
    }
}

fn result(file: &str, symbol: &str, signature: &str, preview: &str, lines: [u32; 2]) -> SearchResult {
    SearchResult {
        file: file.into(),
        symbol: symbol.into(),
        signature: signature.into(),
        doc: None,
        preview: preview.into(),
        lines,
        lexical_score: Some(1.0f32.to_bits()),
        dense_score: None,
        fused_score: 1.0f32.to_bits(),
    }
}

#[test]
fn reciprocal_rank_expected_at_rank_one_is_one() {
    let ranked = vec![pair("a.rs", "foo"), pair("b.rs", "bar")];
    let expected = vec![pair("a.rs", "foo")];
    assert_eq!(reciprocal_rank(&ranked, &expected), 1.0);
}

#[test]
fn reciprocal_rank_expected_at_rank_four_is_quarter() {
    let ranked = vec![pair("a.rs", "a"), pair("b.rs", "b"), pair("c.rs", "c"), pair("d.rs", "d")];
    let expected = vec![pair("d.rs", "d")];
    assert_eq!(reciprocal_rank(&ranked, &expected), 0.25);
}

#[test]
fn reciprocal_rank_absent_is_zero() {
    let ranked = vec![pair("a.rs", "foo")];
    let expected = vec![pair("b.rs", "bar")];
    assert_eq!(reciprocal_rank(&ranked, &expected), 0.0);
}

#[test]
fn reciprocal_rank_empty_ranking_is_zero() {
    let expected = vec![pair("a.rs", "foo")];
    assert_eq!(reciprocal_rank(&vec![], &expected), 0.0);
}

#[test]
fn reciprocal_rank_first_of_two_expected_determines_rank() {
    let ranked = vec![pair("a.rs", "a"), pair("b.rs", "b"), pair("c.rs", "c")];
    let expected = vec![pair("c.rs", "c"), pair("b.rs", "b")];
    assert_eq!(reciprocal_rank(&ranked, &expected), 0.5);
}

#[test]
fn reciprocal_rank_requires_both_file_and_symbol() {
    let ranked = vec![pair("same.rs", "other_symbol")];
    let expected = vec![pair("same.rs", "wanted")];
    assert_eq!(reciprocal_rank(&ranked, &expected), 0.0);
}

#[test]
fn top_k_accuracy_counts_hits_in_window() {
    let rankings = vec![
        vec![pair("a.rs", "a"), pair("b.rs", "b")],
        vec![pair("x.rs", "x"), pair("y.rs", "y"), pair("z.rs", "z")],
        vec![pair("p.rs", "p"), pair("q.rs", "q")],
    ];
    let expected = vec![vec![pair("a.rs", "a")], vec![pair("z.rs", "z")], vec![pair("q.rs", "q")]];
    assert_eq!(top_k_accuracy(&rankings, &expected, 1), 1.0 / 3.0);
    assert_eq!(top_k_accuracy(&rankings, &expected, 2), 2.0 / 3.0);
    assert_eq!(top_k_accuracy(&rankings, &expected, 3), 1.0);
}

#[test]
fn top_k_accuracy_empty_results_are_misses() {
    let rankings = vec![vec![], vec![pair("a.rs", "a")]];
    let expected = vec![vec![pair("a.rs", "a")], vec![pair("a.rs", "a")]];
    assert_eq!(top_k_accuracy(&rankings, &expected, 3), 0.5);
}

#[test]
fn absent_expected_symbols_are_discarded_not_scored() {
    let indexed = vec![pair("a.rs", "alpha"), pair("b.rs", "beta")];
    let labels = vec![
        label("find alpha", vec![pair("a.rs", "alpha")]),
        label("find ghost", vec![pair("g.rs", "ghost")]),
        label("find both", vec![pair("a.rs", "alpha"), pair("b.rs", "beta")]),
        label("find nothing", vec![]),
        label("half known", vec![pair("a.rs", "alpha"), pair("g.rs", "ghost")]),
    ];
    let (scored, discarded) = partition_labels(&indexed, labels);
    assert_eq!(discarded, 3);
    let queries: Vec<&str> = scored.iter().map(|l| l.query.as_str()).collect();
    assert_eq!(queries, vec!["find alpha", "find both"]);
}

#[test]
fn metrics_over_zero_labels_report_zero_scored_not_nan() {
    let (scored, discarded) = partition_labels(&vec![pair("a.rs", "a")], vec![]);
    assert!(scored.is_empty());
    assert_eq!(discarded, 0);
    assert_eq!(count_top_k_hits(&vec![], &vec![], 5), 0);
}

#[test]
fn query_length_buckets() {
    assert_eq!(LengthBucket::from_query("find the parser"), LengthBucket::Short);
    assert_eq!(LengthBucket::from_query("one two three four"), LengthBucket::Short);
    assert_eq!(LengthBucket::from_query("one two three four five"), LengthBucket::Medium);
    assert_eq!(
        LengthBucket::from_query("a b c d e f g h i j k"),
        LengthBucket::Long
    );
    assert_eq!(LengthBucket::from_query("   "), LengthBucket::Short);
}

#[test]
fn proxy_kpi_hand_computed_bytes_and_records_baseline_command() {
    let results = vec![
        result("other.rs", "nope", "fn nope()", "aaa", [1, 2]),
        result("hit.rs", "target", "fn target()", "bbb", [3, 4]),
    ];
    let expected = vec![pair("hit.rs", "target")];
    let mcp = mcp_bytes_to_first_hit(&results, &expected);
    let first = r#"{"doc":null,"file":"other.rs","lines":[1,2],"preview":"aaa","signature":"fn nope()","symbol":"nope"}"#.len() as u64;
    let second = r#"{"doc":null,"file":"hit.rs","lines":[3,4],"preview":"bbb","signature":"fn target()","symbol":"target"}"#.len() as u64;
    assert_eq!(mcp, first + second);

    let files = vec![("a.rs".to_string(), 4u64), ("hit.rs".to_string(), 8u64)];
    assert_eq!(bytes_until_file(&files, "hit.rs"), 12);
    assert_eq!(BASELINE_COMMAND, "rg --files-with-matches -F");
    assert!(BASELINE_COMMAND.starts_with("rg "));
}

#[test]
fn bytes_read_without_a_hit_cover_everything() {
    let results = vec![result("x.rs", "x", "fn x()", "", [1, 1])];
    let one = mcp_bytes_to_first_hit(&results, &vec![]);
    assert!(one > 0);
    let files = vec![
        ("src\\a.rs".to_string(), 4u64),
        ("src/b.rs".to_string(), 6u64),
        ("c.rs".to_string(), u64::MAX),
    ];
    assert_eq!(bytes_until_file(&files, "src/a.rs"), 4);
    assert_eq!(bytes_until_file(&files, "src\\b.rs"), 10);
    assert_eq!(bytes_until_file(&files, "none.rs"), u64::MAX);
    assert_eq!(normalize_separators("a\\b\\c"), "a/b/c");
}

#[test]
fn baseline_command_searches_first_word() {
    assert_eq!(baseline_command("  parse config file"), "rg --files-with-matches -F parse");
    assert_eq!(baseline_command("single"), "rg --files-with-matches -F single");
    assert_eq!(baseline_command(""), "rg --files-with-matches -F ");
}

#[test]
fn refuses_checkout_whose_head_differs_from_pinned_revision() {
    let actual = "0123456789abcdef0123456789abcdef01234567".to_string();
    let err = require_mined_revision(actual.clone()).expect_err("must refuse wrong HEAD");
    let msg = err.describe();
    assert!(msg.contains(MINED_CORPUS_PINNED_REVISION), "{msg}");
    assert!(msg.contains(&actual), "{msg}");
    match err {
        EvalError::RevisionMismatch { expected, actual: a } => {
            assert_eq!(expected, MINED_CORPUS_PINNED_REVISION);
            assert_eq!(a, actual);
        }
        other => panic!("unexpected {other:?}"),
    }
    assert_eq!(
        require_mined_revision(MINED_CORPUS_PINNED_REVISION.to_string()).unwrap(),
        MINED_CORPUS_PINNED_REVISION
    );
}

#[test]
fn handwritten_loads_only_from_its_file_and_not_from_mining() {
    let path = default_handwritten_path("/crates/eval");
    assert_eq!(path, "/crates/eval/data/handwritten.json");
    let entries = vec![
        HandwrittenEntry { query: "where is alpha".into(), expected: vec![pair("a.rs", "alpha")] },
        HandwrittenEntry { query: "where is beta".into(), expected: vec![pair("b.rs", "beta")] },
    ];
    let labels = handwritten_labels(entries);
    assert_eq!(labels.len(), 2);
    assert!(labels.iter().all(|l| l.provenance.starts_with("handwritten:")));
    assert_eq!(labels[1].provenance, "handwritten:1");
    assert_eq!(labels[0].query, "where is alpha");
}

#[test]
fn expand_home_replaces_leading_tilde() {
    assert_eq!(expand_home("~/llama.cpp", Some("/home/u")), "/home/u/llama.cpp");
    assert_eq!(expand_home("~", Some("/home/u")), "/home/u");
    assert_eq!(expand_home("~other", Some("/home/u")), "~other");
    assert_eq!(expand_home("~/x", None), "~/x");
}

#[test]
fn screening_attributes_each_rejection() {
    let config = MiningConfig { enforce_pinned_revision: false, ..MiningConfig::default() };
    let patterns = compile_maintenance(&config.maintenance_patterns).unwrap();
    assert_eq!(screen_commit(&config, 2, "Merge branch feature into main", &patterns), Err(RejectReason::Merge));
    assert_eq!(
        screen_commit(&config, 1, "lint cleanup across the helper module", &patterns),
        Err(RejectReason::MaintenancePattern { pattern: "lint" })
    );
    assert_eq!(
        screen_commit(&config, 1, "Fix TYPO in the docs", &patterns),
        Err(RejectReason::MaintenancePattern { pattern: "typo" })
    );
    assert_eq!(
        screen_commit(&config, 1, "Add alpha", &patterns),
        Err(RejectReason::SubjectTooShort { words: 2 })
    );
    assert_eq!(screen_commit(&config, 1, "Add the alpha helper function", &patterns), Ok(()));
    assert_eq!(screen_commit(&config, 0, "Introduce gamma for clarity sake", &patterns), Ok(()));
    assert_eq!(match_maintenance("blinted words", &patterns), None);
}

#[test]
fn meta_characters_are_escaped_like_the_regex_crate() {
    assert_eq!(escape_meta("a.b-c"), "a\\.b\\-c");
    assert_eq!(escape_meta("plain words"), "plain words");
    assert_eq!(escape_meta("(x|y)*"), "\\(x\\|y\\)\\*");
    for word in ["wip", "a.b", "c++", "[x]", "$#&~^?{}\\"] {
        assert_eq!(escape_meta(word), regex::escape(word));
    }
}

#[test]
fn maintenance_words_compile_into_one_pattern_each() {
    let patterns = compile_maintenance(&words(&["chore", "a.b", "c++", ""])).unwrap();
    assert_eq!(patterns.len(), 4);
    assert_eq!(patterns[2].0, "c++");
    assert_eq!(match_maintenance("bump c++ flags", &patterns), Some("custom"));
}

#[test]
fn custom_maintenance_words_are_reported_as_custom() {
    let patterns = compile_maintenance(&words(&["chore", "a.b"])).unwrap();
    assert_eq!(match_maintenance("chore: tidy", &patterns), Some("custom"));
    assert_eq!(match_maintenance("axb", &patterns), None);
    assert_eq!(match_maintenance("see a.b here", &patterns), Some("custom"));
    assert!(same_ignoring_ascii_case("WiP", "wip"));
    assert!(!same_ignoring_ascii_case("wipe", "wip"));
}

#[test]
fn touched_symbols_are_judged() {
    let config = MiningConfig::default();
    let indexed = vec![pair("a.rs", "alpha"), pair("b.rs", "beta")];
    assert_eq!(judge_touched(&config, &vec![], &indexed), Err(RejectReason::NoSymbolsTouched));
    let many = vec![pair("a.rs", "1"), pair("a.rs", "2"), pair("a.rs", "3"), pair("a.rs", "4")];
    assert_eq!(judge_touched(&config, &many, &indexed), Err(RejectReason::TooManySymbols { count: 4 }));
    let some = vec![pair("a.rs", "alpha"), pair("c.rs", "gamma")];
    assert_eq!(judge_touched(&config, &some, &indexed), Err(RejectReason::SymbolsNotIndexed { missing: 1 }));
    assert_eq!(judge_touched(&config, &vec![pair("b.rs", "beta")], &indexed), Ok(()));
}

#[test]
fn mining_report_tracks_each_outcome() {
    let mut report = MiningReport::new();
    let outcomes = [
        None,
        Some(RejectReason::Merge),
        Some(RejectReason::MaintenancePattern { pattern: "lint" }),
        Some(RejectReason::MaintenancePattern { pattern: "wip" }),
        None,
        Some(RejectReason::NoSymbolsTouched),
    ];
    for outcome in outcomes.iter() {
        report.examine();
        match outcome {
            None => report.accept(),
            Some(reason) => report.reject(reason),
        }
        assert!(report.reconciles());
    }
    assert_eq!(report.commits_examined(), 6);
    assert_eq!(report.labels_accepted(), 2);
    assert_eq!(report.rejected_count("maintenance_pattern"), 2);
    assert_eq!(report.rejected_count("merge"), 1);
    assert_eq!(report.rejected_count("too_many_symbols"), 0);
    let rules = report.rejected_rules();
    let names: Vec<&str> = rules.iter().map(|(r, _)| r.as_str()).collect();
    assert_eq!(names, vec!["maintenance_pattern", "merge", "no_symbols_touched"]);
    assert_eq!(rules[0].1, 2);
    let sum: u64 = rules.iter().map(|(_, n)| *n).sum();
    assert_eq!(report.labels_accepted() + sum, report.commits_examined());
    report.examine();
    assert!(!report.reconciles());
    assert_eq!(RejectReason::SymbolsNotIndexed { missing: 2 }.rule_name(), "symbols_not_indexed");
}

#[test]
fn changed_lines_are_new_side_insertions() {
    let old = "a\nb\nc\n";
    let new = "a\nB\nc\nd\n";
    assert_eq!(new_side_changed_lines(old, new), Some(vec![2, 4]));
    assert_eq!(new_side_changed_lines("", "x\ny\n"), Some(vec![1, 2]));
    assert_eq!(new_side_changed_lines("x\n", ""), Some(vec![]));
    assert!(chunk_touched(&vec![2, 4], 3, 5));
    assert!(!chunk_touched(&vec![2, 4], 5, 9));
    assert_eq!(line_count(""), 0);
    assert_eq!(line_count("a\nb"), 2);
    assert_eq!(line_count("a\nb\n"), 2);
}

#[test]
fn stage_timings_are_plain_values() {
    let t = StageTimings { embed: 1, lexical: 2, dense: 3, fuse: 4, assemble: 5, total: 15 };
    assert_eq!(t, t.clone());
}

fn facts(id: &str, parents: usize, subject: &str, touched: &[(&str, &str)]) -> CommitFacts {
    CommitFacts {
        id: id.into(),
        parent_count: parents,
        subject: subject.into(),
        touched: touched.iter().map(|(f, s)| pair(f, s)).collect(),
    }
}

fn mining_fixture() -> Vec<CommitFacts> {
    vec![
        facts("c13", 1, "Document the repository overview notes", &[]),
        facts("c12", 1, "lint cleanup across the helper module", &[("lint.rs", "lint_fn")]),
        facts("c11", 1, "bump dependency versions across workspace", &[("bump.rs", "bump_fn")]),
        facts("c10", 1, "typo in a comment only really", &[("typo.rs", "typo_fn")]),
        facts("c09", 1, "fixup the previous helper change", &[("fixup.rs", "fixup_fn")]),
        facts("c08", 1, "wip unfinished helper for later", &[("wip.rs", "wip_fn")]),
        facts("c07", 1, "Add shorty", &[("short.rs", "shorty")]),
        facts(
            "c06",
            1,
            "Add five unrelated helper symbols together",
            &[("many.rs", "s1"), ("many.rs", "s2"), ("many.rs", "s3"), ("many.rs", "s4"), ("many.rs", "s5")],
        ),
        facts("c05", 2, "Merge branch side into main", &[("side.rs", "side_only")]),
        facts("c04", 1, "wip add side helper symbol here", &[("side.rs", "side_only")]),
        facts("c03", 1, "Introduce gamma for clarity sake", &[("lib.rs", "gamma")]),
        facts("c02", 1, "Improve beta calculation logic path", &[("lib.rs", "beta")]),
        facts("c01", 1, "Add the alpha helper function", &[("lib.rs", "alpha")]),
        facts("c00", 0, "Initialize the empty library crate", &[]),
    ]
}

fn fixture_index() -> Vec<(String, String)> {
    let mut v = vec![pair("lib.rs", "alpha"), pair("lib.rs", "beta"), pair("lib.rs", "gamma")];
    for s in ["s1", "s2", "s3", "s4", "s5"] {
        v.push(pair("many.rs", s));
    }
    v.push(pair("short.rs", "shorty"));
    v.push(pair("side.rs", "side_only"));
    v
}

#[test]
fn mine_commits_accepts_three_and_attributes_each_rejection() {
    let config = MiningConfig { enforce_pinned_revision: false, ..MiningConfig::default() };
    let patterns = compile_maintenance(&config.maintenance_patterns).unwrap();
    let (labels, report) = mine_commit_facts(&config, &mining_fixture(), &fixture_index(), &patterns);
    assert_eq!(labels.len(), 3);
    let queries: Vec<&str> = labels.iter().map(|l| l.query.as_str()).collect();
    assert!(queries.contains(&"Add the alpha helper function"));
    assert!(queries.contains(&"Improve beta calculation logic path"));
    assert!(queries.contains(&"Introduce gamma for clarity sake"));
    let provenances: Vec<&str> = labels.iter().map(|l| l.provenance.as_str()).collect();
    assert_eq!(provenances, vec!["c01", "c02", "c03"]);
    assert!(report.rejected_count("merge") >= 1);
    assert!(report.rejected_count("too_many_symbols") >= 1);
    assert!(report.rejected_count("subject_too_short") >= 1);
    assert!(report.rejected_count("maintenance_pattern") >= 5);
    assert!(report.rejected_count("no_symbols_touched") >= 1);
    assert_eq!(report.rejected_count("maintenance_pattern"), 6);
    assert_eq!(report.rejected_count("no_symbols_touched"), 2);
}

#[test]
fn mining_report_reconciles_accepted_plus_rejected() {
    let config = MiningConfig { enforce_pinned_revision: false, ..MiningConfig::default() };
    let patterns = compile_maintenance(&config.maintenance_patterns).unwrap();
    let (_labels, report) = mine_commit_facts(&config, &mining_fixture(), &fixture_index(), &patterns);
    let rejected_sum: u64 = report.rejected_rules().iter().map(|(_, n)| *n).sum();
    assert_eq!(report.labels_accepted() + rejected_sum, report.commits_examined());
    assert_eq!(report.commits_examined(), 14);
    assert!(report.reconciles());
}

#[test]
fn mining_stops_at_the_commit_limit() {
    let config = MiningConfig {
        enforce_pinned_revision: false,
        max_commits: Some(12),
        ..MiningConfig::default()
    };
    let patterns = compile_maintenance(&config.maintenance_patterns).unwrap();
    let (labels, report) = mine_commit_facts(&config, &mining_fixture(), &fixture_index(), &patterns);
    assert_eq!(report.commits_examined(), 12);
    assert_eq!(labels.len(), 2);
    assert_eq!(labels[0].provenance, "c02");
    assert!(report.reconciles());
    let indexed_short = vec![pair("lib.rs", "alpha")];
    let config = MiningConfig { enforce_pinned_revision: false, ..MiningConfig::default() };
    let (labels, report) = mine_commit_facts(&config, &mining_fixture(), &indexed_short, &patterns);
    assert_eq!(labels.len(), 1);
    assert_eq!(report.rejected_count("symbols_not_indexed"), 2);
}

#[test]
fn provenance_order_is_stable_and_lexicographic() {
    let mk = |q: &str, p: &str| Label {
        query: q.into(),
        expected: vec![],
        source: LabelSource::Docstring,
        provenance: p.into(),
    };
    let sorted = sort_by_provenance(vec![mk("1", "b"), mk("2", "a"), mk("3", "b"), mk("4", "ab"), mk("5", "")]);
    let order: Vec<&str> = sorted.iter().map(|l| l.query.as_str()).collect();
    assert_eq!(order, vec!["5", "2", "4", "1", "3"]);
    assert!(text_less("a", "b"));
    assert!(text_less("a", "ab"));
    assert!(!text_less("b", "ab"));
    assert!(!text_less("x", "x"));
}

#[test]
fn breakdowns_partition_labels_exactly_once() {
    let labels = vec![
        Label {
            query: "short q".into(),
            expected: vec![pair("a.rs", "documented")],
            source: LabelSource::CommitSubject,
            provenance: "1".into(),
        },
        Label {
            query: "Doc for documented".into(),
            expected: vec![pair("a.rs", "documented")],
            source: LabelSource::Docstring,
            provenance: "2".into(),
        },
        Label {
            query: "one two three four five six".into(),
            expected: vec![pair("a.rs", "documented")],
            source: LabelSource::CommitSubject,
            provenance: "3".into(),
        },
    ];
    let by_source = breakdown_by_source(&labels);
    let by_length = breakdown_by_length(&labels);
    let source_sum: usize = by_source.iter().map(|(_, g)| g.len()).sum();
    let length_sum: usize = by_length.iter().map(|(_, g)| g.len()).sum();
    assert_eq!(source_sum, 3);
    assert_eq!(length_sum, 3);
    assert_eq!(by_source[0].0, LabelSource::CommitSubject);
    assert_eq!(by_source[0].1.len(), 2);
    assert_eq!(by_source[1].0, LabelSource::Docstring);
    assert_eq!(by_source[1].1.len(), 1);
    assert_eq!(by_length.len(), 2);
    assert_eq!(by_length[0].0, LengthBucket::Short);
    assert_eq!(by_length[0].1.len(), 2);
    assert_eq!(by_length[1].0, LengthBucket::Medium);
    assert_eq!(by_length[1].1[0].provenance, "3");
}

#[test]
fn empty_groups_are_left_out() {
    assert!(breakdown_by_source(&vec![]).is_empty());
    let only_doc = vec![Label {
        query: "a b c d e f g h i j k l".into(),
        expected: vec![],
        source: LabelSource::Docstring,
        provenance: "p".into(),
    }];
    let by_source = breakdown_by_source(&only_doc);
    assert_eq!(by_source.len(), 1);
    assert_eq!(by_source[0].0, LabelSource::Docstring);
    let by_length = breakdown_by_length(&only_doc);
    assert_eq!(by_length.len(), 1);
    assert_eq!(by_length[0].0, LengthBucket::Long);
}

#[test]
fn a_new_file_changes_every_line() {
    assert_eq!(changed_lines_for("", "a\nb\nc"), Some(vec![1, 2, 3]));
    assert_eq!(changed_lines_for("", ""), Some(vec![]));
    assert_eq!(changed_lines_for("a\n", "a\nb\n"), Some(vec![2]));
}

#[test]
fn touched_symbols_are_a_sorted_set() {
    let mut set: Vec<(String, String)> = Vec::new();
    insert_pair(&mut set, "b.rs", "x");
    insert_pair(&mut set, "a.rs", "z");
    insert_pair(&mut set, "b.rs", "a");
    insert_pair(&mut set, "a.rs", "z");
    assert_eq!(set, vec![pair("a.rs", "z"), pair("b.rs", "a"), pair("b.rs", "x")]);
    let chunks = vec![
        ChunkSpan { symbol: "<file_prelude>".into(), line_start: 1, line_end: 2 },
        ChunkSpan { symbol: "alpha".into(), line_start: 3, line_end: 5 },
        ChunkSpan { symbol: "beta".into(), line_start: 6, line_end: 9 },
        ChunkSpan { symbol: "gamma".into(), line_start: 10, line_end: 12 },
    ];
    let mut touched: Vec<(String, String)> = Vec::new();
    add_touched(&mut touched, "lib.rs", &vec![1, 4, 12], &chunks);
    assert_eq!(touched, vec![pair("lib.rs", "alpha"), pair("lib.rs", "gamma")]);
    add_touched(&mut touched, "lib.rs", &vec![7], &chunks);
    assert_eq!(touched, vec![pair("lib.rs", "alpha"), pair("lib.rs", "beta"), pair("lib.rs", "gamma")]);
}

#[test]
fn bytes_medians_use_nearest_rank() {
    assert_eq!(median_bytes(&[5, 1, 3, 2]), 2);
    assert_eq!(median_bytes(&[7]), 7);
    assert_eq!(median_bytes(&[]), 0);
    assert_eq!(median_bytes(&[9, 4, 6]), 6);
    let s = bytes_before_hit_summary(&[10, 30, 20], &[400, 100], BASELINE_COMMAND.to_string());
    assert_eq!(s.mcp_median, 20);
    assert_eq!(s.baseline_median, 100);
    assert_eq!(s.baseline_command, "rg --files-with-matches -F");
}

#[test]
fn percentile_p95_of_one_to_hundred_is_ninety_five() {
    let samples: Vec<u64> = (1..=100).collect();
    assert_eq!(sift::measure::nearest_rank_percentile(&samples, 95), Some(95));
}

#[test]
fn percentile_single_sample_returns_that_sample() {
    assert_eq!(sift::measure::nearest_rank_percentile(&[42], 95), Some(42));
    assert_eq!(sift::measure::nearest_rank_percentile(&[42], 50), Some(42));
    assert_eq!(median_bytes(&[42]), 42);
}

#[test]
fn percentile_empty_returns_zero() {
    assert_eq!(median_bytes(&[]), 0);
    assert_eq!(sift::measure::nearest_rank_percentile(&[], 95), None);
}

#[test]
fn percentile_p50_even_length_uses_nearest_rank_not_interpolation() {
    let samples = [10, 20, 30, 40];
    assert_eq!(sift::measure::nearest_rank_percentile(&samples, 50), Some(20));
    assert_eq!(median_bytes(&samples), 20);
}

#[test]
fn commit_subject_is_the_trimmed_first_line() {
    assert_eq!(commit_subject("  fix parser  \n\nbody text"), "fix parser");
    assert_eq!(commit_subject("subject\r\nbody"), "subject");
    assert_eq!(commit_subject(""), "");
    assert_eq!(commit_subject("\nsecond line"), "");
    assert_eq!(commit_subject("only line"), "only line");
}

#[test]
fn indexed_symbols_skip_preludes_and_repeats() {
    let rows = vec![
        ("b.rs".to_string(), "beta".to_string()),
        ("a.rs".to_string(), "<file_prelude>".to_string()),
        ("a.rs".to_string(), "alpha".to_string()),
        ("b.rs".to_string(), "beta".to_string()),
        ("a.rs".to_string(), "zeta".to_string()),
    ];
    assert_eq!(
        indexed_pairs(&rows),
        vec![
            ("a.rs".to_string(), "alpha".to_string()),
            ("a.rs".to_string(), "zeta".to_string()),
            ("b.rs".to_string(), "beta".to_string()),
        ]
    );
    assert!(indexed_pairs(&Vec::new()).is_empty());
}

#[test]
fn changed_paths_are_slashed_sorted_and_unique() {
    let locations = vec![
        Some("src\\lib.rs".to_string()),
        Some("README.md".to_string()),
        None,
        Some(String::new()),
        Some("src/lib.rs".to_string()),
        Some("a/b.rs".to_string()),
    ];
    assert_eq!(
        changed_paths_from(&locations),
        vec!["README.md".to_string(), "a/b.rs".to_string(), "src/lib.rs".to_string()]
    );
}
