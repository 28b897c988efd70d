use snif::config::FilterConfig;
use snif::filter::{apply_filters, deduplicate, is_self_dismissed};
use snif::types::{FileLocation, Finding, FindingCategory};

const TEST_MIN_CONFIDENCE: f64 = 0.5;
const TEST_CONFIDENCE_HIGH: f64 = 0.9;
const TEST_CONFIDENCE_MID: f64 = 0.8;
const TEST_LINE: usize = 10;
const TEST_FILE: &str = "src/test.rs";
const TEST_EVIDENCE: &str = "fn test() {}";

fn default_config() -> FilterConfig {
    FilterConfig {
        min_confidence_bits: TEST_MIN_CONFIDENCE.to_bits(),
        suppress_style_only: false,
        feedback_min_signals: 0,
    }
}

fn make_finding(explanation: &str, impact: &str, confidence: f64) -> Finding {
    Finding {
        location: FileLocation { file: TEST_FILE.to_string(), start_line: TEST_LINE, end_line: None },
        category: FindingCategory::Logic,
        confidence_bits: confidence.to_bits(),
        evidence: TEST_EVIDENCE.to_string(),
        explanation: explanation.to_string(),
        impact: impact.to_string(),
        suggestion: None,
        fingerprint: None,
    }
}

#[test]
fn self_dismissed_no_bug() {
    let f = make_finding("no bug here", "None", TEST_CONFIDENCE_HIGH);
    assert!(is_self_dismissed(&f));
}

#[test]
fn self_dismissed_i_will_remove() {
    let f = make_finding("I will remove this finding as it's speculative", "Minimal impact", TEST_CONFIDENCE_MID);
    assert!(is_self_dismissed(&f));
}

#[test]
fn self_dismissed_impact_none() {
    let f = make_finding("logic seems correct", "impact: none", TEST_CONFIDENCE_MID);
    assert!(is_self_dismissed(&f));
}

#[test]
fn self_dismissed_acceptable_behavior() {
    let f = make_finding("This is acceptable behavior for this use case", "No real issue", TEST_CONFIDENCE_MID);
    assert!(is_self_dismissed(&f));
}

#[test]
fn self_dismissed_i_will_look_for() {
    let f = make_finding("I will look for a stronger bug", "Minor issue", TEST_CONFIDENCE_MID);
    assert!(is_self_dismissed(&f));
}

#[test]
fn self_dismissed_minimal_security_impact() {
    let f = make_finding(
        "Minor robustness issue, but not a critical security vulnerability",
        "Minimal security impact",
        TEST_CONFIDENCE_HIGH,
    );
    assert!(is_self_dismissed(&f));
}

#[test]
fn legitimate_finding_passes() {
    let f = make_finding(
        "Concurrent writes to the history file can corrupt the JSONL format",
        "Data corruption in the history file if concurrent writes occur",
        0.95,
    );
    assert!(!is_self_dismissed(&f));
}

#[test]
fn legitimate_performance_finding_passes() {
    let f = make_finding(
        "There is no locking mechanism. If multiple processes try to append simultaneously, writes could interleave.",
        "Concurrent writes can corrupt the JSONL file, leading to data loss",
        0.9,
    );
    assert!(!is_self_dismissed(&f));
}

#[test]
fn filter_chain_removes_self_dismissed() {
    let findings = vec![
        make_finding("no bug here", "None", TEST_CONFIDENCE_HIGH),
        make_finding("Concurrent writes corrupt JSONL", "Data corruption risk", 0.95),
    ];
    let filtered = apply_filters(findings, &default_config());
    assert_eq!(filtered.len(), 1);
    assert!(filtered[0].explanation.contains("Concurrent"));
}

#[test]
fn minimal_impact_on_something_is_kept() {
    let f = make_finding("Slow loop over items", "minimal impact on latency", 0.9);
    assert!(!is_self_dismissed(&f));
}

#[test]
fn filters_drop_low_confidence_blank_fields_and_style() {
    let mut style = make_finding("Rename the variable", "Readability", 0.9);
    style.category = FindingCategory::Style;
    let mut blank = make_finding("Real problem", "   ", 0.9);
    blank.location.start_line = 20;
    let low = make_finding("Real problem", "Crash", 0.4);
    let negative = make_finding("Real problem", "Crash", -1.0);
    let nan = make_finding("Real problem", "Crash", f64::NAN);
    let config = FilterConfig { suppress_style_only: true, ..default_config() };
    assert!(apply_filters(vec![style, blank, low, negative], &config).is_empty());
    assert_eq!(apply_filters(vec![nan], &config).len(), 1);
}

#[test]
fn deduplicate_keeps_highest_confidence_at_first_position() {
    let a = make_finding("first", "impact", 0.6);
    let mut other = make_finding("other place", "impact", 0.7);
    other.location.start_line = 99;
    let b = make_finding("second", "impact", 0.9);
    let c = make_finding("third", "impact", 0.9);
    let out = deduplicate(vec![a, other, b, c]);
    assert_eq!(out.len(), 2);
    assert_eq!(out[0].explanation, "second");
    assert_eq!(out[1].explanation, "other place");
}
