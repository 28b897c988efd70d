use snif::eval::{
    aggregate_findings, aggregate_totals, categories_match, compute_fixture_result, fixture_regressions,
    ExpectedFinding, FixtureRecord, FixtureResult,
};
use snif::types::{FileLocation, Finding, FindingCategory};

const TEST_FIXTURE_NAME: &str = "test";
const TEST_LINE_TOLERANCE: usize = 5;
const TEST_CONFIDENCE_HIGH: f64 = 0.9;
const TEST_EXPECTED_COUNT: usize = 1;
const TEST_ZERO_COUNT: usize = 0;

fn make_finding(file: &str, line: usize, category: FindingCategory, confidence: f64) -> Finding {
    Finding {
        location: FileLocation { file: file.to_string(), start_line: line, end_line: None },
        category,
        confidence_bits: confidence.to_bits(),
        evidence: "evidence".to_string(),
        explanation: "explanation".to_string(),
        impact: "impact".to_string(),
        suggestion: None,
        fingerprint: None,
    }
}

fn expected(file: &str, line: usize, category: &str, acceptable: Vec<String>) -> Vec<ExpectedFinding> {
    vec![ExpectedFinding {
        file: file.to_string(),
        start_line: line,
        category: category.to_string(),
        acceptable_categories: acceptable,
    }]
}

#[test]
fn category_alias_security_logic_match() {
    let expected = expected("src/parser.ts", 6, "security", vec![]);
    let actual = vec![make_finding("src/parser.ts", 6, FindingCategory::Logic, TEST_CONFIDENCE_HIGH)];

    let result = compute_fixture_result(TEST_FIXTURE_NAME, &expected, &actual, TEST_LINE_TOLERANCE);
    assert_eq!(result.true_positives, TEST_EXPECTED_COUNT);
    assert_eq!(result.false_positives, TEST_ZERO_COUNT);
    assert_eq!(result.false_negatives, TEST_ZERO_COUNT);
}

#[test]
fn category_alias_performance_logic_match() {
    let expected = expected("src/ingest.rs", 3, "security", vec![]);
    let actual = vec![make_finding("src/ingest.rs", 3, FindingCategory::Performance, TEST_CONFIDENCE_HIGH)];

    let result = compute_fixture_result(TEST_FIXTURE_NAME, &expected, &actual, TEST_LINE_TOLERANCE);
    assert_eq!(result.true_positives, TEST_EXPECTED_COUNT);
    assert_eq!(result.false_positives, TEST_ZERO_COUNT);
}

#[test]
fn fixture_acceptable_categories_override() {
    let expected = expected(
        "src/tracker.ts",
        5,
        "logic",
        vec!["performance".to_string(), "other".to_string()],
    );
    let actual = vec![make_finding("src/tracker.ts", 5, FindingCategory::Other, TEST_CONFIDENCE_HIGH)];

    let result = compute_fixture_result(TEST_FIXTURE_NAME, &expected, &actual, TEST_LINE_TOLERANCE);
    assert_eq!(result.true_positives, TEST_EXPECTED_COUNT);
    assert_eq!(result.false_positives, TEST_ZERO_COUNT);
}

#[test]
fn unrelated_category_still_mismatches() {
    let expected = expected("src/lib.rs", 10, "security", vec![]);
    let actual = vec![make_finding("src/lib.rs", 10, FindingCategory::Style, TEST_CONFIDENCE_HIGH)];

    let result = compute_fixture_result(TEST_FIXTURE_NAME, &expected, &actual, TEST_LINE_TOLERANCE);
    assert_eq!(result.true_positives, TEST_ZERO_COUNT);
    assert_eq!(result.false_positives, TEST_EXPECTED_COUNT);
    assert_eq!(result.false_negatives, TEST_EXPECTED_COUNT);
}

#[test]
fn categories_match_function_tests() {
    assert!(categories_match("security", "logic", &[]));
    assert!(categories_match("logic", "security", &[]));
    assert!(categories_match("performance", "logic", &[]));
    assert!(categories_match("other", "security", &[]));
    assert!(categories_match("logic", "logic", &[]));
    assert!(!categories_match("style", "security", &[]));
    assert!(!categories_match("convention", "security", &[]));
    assert!(categories_match("style", "convention", &[]));
}

#[test]
fn greedy_matching_counts_add_up() {
    let mut exp = expected("a.rs", 10, "logic", vec![]);
    exp.extend(expected("a.rs", 30, "logic", vec![]));
    exp.extend(expected("b.rs", 1, "security", vec![]));
    let actual = vec![
        make_finding("a.rs", 12, FindingCategory::Logic, 0.9),
        make_finding("a.rs", 11, FindingCategory::Logic, 0.9),
        make_finding("a.rs", 29, FindingCategory::Logic, 0.9),
        make_finding("c.rs", 1, FindingCategory::Logic, 0.9),
    ];
    let r = compute_fixture_result("f", &exp, &actual, 5);
    assert_eq!(r.fixture_name, "f");
    assert_eq!((r.expected, r.actual), (3, 4));
    assert_eq!(r.true_positives, 2);
    assert_eq!(r.false_positives, 2);
    assert_eq!(r.false_negatives, 1);
    assert_eq!(r.true_positives + r.false_positives, r.actual);
    assert_eq!(r.true_positives + r.false_negatives, r.expected);
}

#[test]
fn totals_sum_fixture_counts() {
    let rs = vec![
        FixtureResult { fixture_name: "a".to_string(), expected: 2, actual: 3, true_positives: 1, false_positives: 2, false_negatives: 1 },
        FixtureResult { fixture_name: "b".to_string(), expected: 1, actual: 0, true_positives: 0, false_positives: 0, false_negatives: 1 },
    ];
    let t = aggregate_totals(&rs);
    assert_eq!(t.total_fixtures, 2);
    assert_eq!(t.total_expected, 3);
    assert_eq!(t.total_actual, 3);
    assert_eq!(t.total_tp, 1);
    assert_eq!(t.total_fp, 2);
    assert_eq!(t.total_fn, 2);
}

const TEST_FILE: &str = "src/parser.ts";
const OTHER_FILE: &str = "src/other.ts";
const TEST_TOLERANCE: usize = 5;

#[test]
fn aggregate_accepts_majority_finding_with_line_tolerance() {
    let runs = vec![
        vec![make_finding(TEST_FILE, 6, FindingCategory::Security, 0.9)],
        vec![],
        vec![make_finding(TEST_FILE, 9, FindingCategory::Security, 0.9)],
    ];

    let aggregated = aggregate_findings(&runs, 2, TEST_TOLERANCE);

    assert_eq!(aggregated.len(), 1);
    assert_eq!(aggregated[0].location.start_line, 6);
}

#[test]
fn aggregate_rejects_single_run_finding_when_majority_required() {
    let runs = vec![
        vec![make_finding(TEST_FILE, 6, FindingCategory::Security, 0.9)],
        vec![],
        vec![],
    ];

    let aggregated = aggregate_findings(&runs, 2, TEST_TOLERANCE);

    assert!(aggregated.is_empty());
}

#[test]
fn aggregate_counts_duplicate_findings_once_per_run() {
    let runs = vec![
        vec![
            make_finding(TEST_FILE, 6, FindingCategory::Security, 0.9),
            make_finding(TEST_FILE, 7, FindingCategory::Security, 0.9),
        ],
        vec![],
        vec![],
    ];

    let aggregated = aggregate_findings(&runs, 2, TEST_TOLERANCE);

    assert!(aggregated.is_empty());
}

#[test]
fn aggregate_keeps_file_and_category_separate() {
    let runs = vec![
        vec![make_finding(TEST_FILE, 6, FindingCategory::Security, 0.9)],
        vec![make_finding(OTHER_FILE, 6, FindingCategory::Security, 0.9)],
        vec![make_finding(TEST_FILE, 6, FindingCategory::Logic, 0.9)],
    ];

    let aggregated = aggregate_findings(&runs, 2, TEST_TOLERANCE);

    assert!(aggregated.is_empty());
}

#[test]
fn aggregate_threshold_zero_acts_as_one() {
    let runs = vec![vec![make_finding(TEST_FILE, 6, FindingCategory::Security, 0.9)]];
    assert_eq!(aggregate_findings(&runs, 0, TEST_TOLERANCE).len(), 1);
}

fn record(name: &str, tp: usize, fp: usize) -> FixtureRecord {
    FixtureRecord { name: name.to_string(), expected: 1, actual: tp + fp, tp, fp, fn_count: usize::from(tp == 0) }
}

#[test]
fn fixture_regressions_report_lost_detection_and_new_false_positives() {
    let previous = vec![record("fx", 1, 0), record("other", 0, 3)];
    let current = vec![record("fx", 0, 2), record("other", 0, 5), record("new", 0, 1)];
    let warnings = fixture_regressions(&current, &previous);
    let messages: Vec<&str> = warnings.iter().map(|w| w.message.as_str()).collect();
    assert_eq!(
        messages,
        vec![
            "Fixture 'fx': lost detection (TP 1 -> 0)",
            "Fixture 'fx': new false positives (FP 0 -> 2)",
        ]
    );
}

#[test]
fn fixture_regressions_use_last_previous_record_of_a_name() {
    let previous = vec![record("fx", 0, 0), record("fx", 3, 1)];
    let current = vec![record("fx", 0, 1)];
    let warnings = fixture_regressions(&current, &previous);
    assert_eq!(warnings.len(), 1);
    assert_eq!(warnings[0].message, "Fixture 'fx': lost detection (TP 3 -> 0)");
}

fn fixture(files: Vec<(&str, &str)>, retry_count: u32) -> snif::eval::Fixture {
    snif::eval::Fixture {
        name: "f".to_string(),
        description: "d".to_string(),
        diff: "+x".to_string(),
        files: files.into_iter().map(|(p, c)| (p.to_string(), c.to_string())).collect(),
        conventions: None,
        expected_findings: Vec::new(),
        retry_count,
    }
}

#[test]
fn fixture_context_holds_every_file_in_full() {
    let c = snif::eval::fixture_context(&fixture(vec![("a.rs", "fn a() {}"), ("b.rs", "fn b() {}")], 1));
    assert_eq!(c.diff, "+x");
    assert_eq!(c.changed_files.len(), 2);
    assert_eq!(c.changed_files[1].path, "b.rs");
    assert_eq!(c.changed_files[1].content, "fn b() {}");
    assert_eq!(c.budget.files_full, 2);
    assert_eq!(c.budget.files_included, 2);
    assert_eq!(c.budget.total_budget, 128_000);
    assert!(c.related_files.is_empty());
}

#[test]
fn single_run_findings_are_taken_as_they_are() {
    let runs = vec![vec![make_finding("a.rs", 3, FindingCategory::Logic, 0.9)]];
    let r = snif::eval::fixture_findings(runs, 1);
    assert_eq!(r.len(), 1);
    assert_eq!(r[0].location.start_line, 3);
}

#[test]
fn repeated_runs_keep_majority_findings() {
    let a = || make_finding("a.rs", 10, FindingCategory::Logic, 0.9);
    let b = || make_finding("b.rs", 50, FindingCategory::Security, 0.9);
    let runs = vec![vec![a(), b()], vec![a()], vec![make_finding("a.rs", 12, FindingCategory::Logic, 0.8)]];
    let r = snif::eval::fixture_findings(runs, 3);
    assert_eq!(r.len(), 1);
    assert_eq!(r[0].location.file, "a.rs");
    assert_eq!(r[0].location.start_line, 10);
}
