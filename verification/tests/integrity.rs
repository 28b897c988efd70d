use snif::integrity::{contains_finding_claim, empty_review_inconclusive_reason, summary_claims_findings, InconclusiveReason, ParseQuality, ParsedResponse};

#[test]
fn no_issues_language_is_not_a_finding_claim() {
    assert!(!contains_finding_claim("No issues found. Change looks clean."));
    assert!(!contains_finding_claim("No reportable issues found in analyzed context."));
}

#[test]
fn neutral_domain_words_are_not_finding_claims() {
    assert!(!contains_finding_claim("Risk scoring code was refactored."));
    assert!(!contains_finding_claim("Security concern handling was moved into a helper."));
}

fn parsed(summary: &str, quality: ParseQuality) -> ParsedResponse {
    ParsedResponse { summary: summary.to_string(), findings: Vec::new(), quality }
}

#[test]
fn claiming_summary_on_empty_review_is_inconclusive() {
    let p = parsed("Two security concerns identified in file handling.", ParseQuality::Strict);
    assert!(summary_claims_findings(&p.summary));
    assert_eq!(
        empty_review_inconclusive_reason("{}", &p, None),
        Some(InconclusiveReason::SummaryClaimsFindings)
    );
    let clean = parsed("Clean change", ParseQuality::Strict);
    assert_eq!(empty_review_inconclusive_reason("{}", &clean, None), None);
}

#[test]
fn unstructured_repair_is_inconclusive() {
    let p = parsed("", ParseQuality::Malformed);
    let repaired = parsed("", ParseQuality::Array);
    assert_eq!(
        empty_review_inconclusive_reason("Review of diff. No issues found.", &p, Some(("[]", &repaired))),
        Some(InconclusiveReason::RepairDidNotProduceStructuredReview)
    );
}

#[test]
fn malformed_issue_language_is_inconclusive() {
    let p = parsed("", ParseQuality::Malformed);
    let repaired = parsed("", ParseQuality::Strict);
    assert_eq!(
        empty_review_inconclusive_reason(
            "Review of diff. Two security concerns identified: file reads are unsafe.",
            &p,
            Some(("{\"summary\":\"\",\"findings\":[]}", &repaired))
        ),
        Some(InconclusiveReason::MalformedResponseContainsFindingLanguage)
    );
}

// The decoding stages' outcomes for each raw response, as the JSON decoder
// produces them; the library assembles the parse from them.
fn stages(
    strict: Option<(Option<&str>, Vec<snif::types::Finding>)>,
    array: Option<Vec<snif::types::Finding>>,
) -> snif::parser::DecodeAttempts {
    snif::parser::DecodeAttempts {
        strict: strict.map(|(s, fs)| (s.map(String::from), fs)),
        json: None,
        array,
        salvaged: Vec::new(),
    }
}

fn assemble(a: snif::parser::DecodeAttempts) -> ParsedResponse {
    snif::parser::assemble_parsed_response(a)
}

#[test]
fn clean_empty_response_is_not_inconclusive() {
    let raw = r#"{"summary":"Clean change","findings":[]}"#;
    let parsed = assemble(stages(Some((Some("Clean change"), Vec::new())), None));
    assert_eq!(empty_review_inconclusive_reason(raw, &parsed, None), None);
}

#[test]
fn issue_claiming_summary_with_empty_findings_is_inconclusive() {
    let raw = r#"{"summary":"Two security concerns identified in file handling.","findings":[]}"#;
    let parsed = assemble(stages(Some((Some("Two security concerns identified in file handling."), Vec::new())), None));
    assert_eq!(
        empty_review_inconclusive_reason(raw, &parsed, None),
        Some(InconclusiveReason::SummaryClaimsFindings)
    );
}

#[test]
fn malformed_issue_language_with_empty_repair_is_inconclusive() {
    let raw = "Review of diff. Two security concerns identified: file reads are unsafe.";
    let parsed = assemble(stages(None, None));
    let repaired_raw = r#"{"summary":"","findings":[]}"#;
    let repaired = assemble(stages(Some((Some(""), Vec::new())), None));
    assert_eq!(
        empty_review_inconclusive_reason(raw, &parsed, Some((repaired_raw, &repaired))),
        Some(InconclusiveReason::MalformedResponseContainsFindingLanguage)
    );
}

#[test]
fn valid_finding_is_not_downgraded_by_summary_language() {
    let raw = r#"{"summary": "One bug identified.", "findings": [{"file": "src/lib.rs", "start_line": 10, "end_line": null, "category": "logic", "confidence": 0.9, "evidence": "panic!()", "explanation": "This can panic.", "impact": "The process can crash.", "suggestion": null}]}"#;
    let finding = snif::types::Finding {
        location: snif::types::FileLocation { file: "src/lib.rs".to_string(), start_line: 10, end_line: None },
        category: snif::types::FindingCategory::Logic,
        confidence_bits: 0.9f64.to_bits(),
        evidence: "panic!()".to_string(),
        explanation: "This can panic.".to_string(),
        impact: "The process can crash.".to_string(),
        suggestion: None,
        fingerprint: None,
    };
    let parsed = assemble(stages(Some((Some("One bug identified."), vec![finding])), None));
    assert_eq!(parsed.findings.len(), 1);
    assert_eq!(empty_review_inconclusive_reason(raw, &parsed, None), None);
}

#[test]
fn empty_array_repair_is_not_a_structured_clean_review() {
    let raw = "Review of diff. No issues found.";
    let parsed = assemble(stages(None, None));
    let repaired_raw = "[]";
    let repaired = assemble(stages(None, Some(Vec::new())));
    assert_eq!(
        empty_review_inconclusive_reason(raw, &parsed, Some((repaired_raw, &repaired))),
        Some(InconclusiveReason::RepairDidNotProduceStructuredReview)
    );
}
