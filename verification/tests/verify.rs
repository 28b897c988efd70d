use snif::verify::{check_evidence, extract_code_candidates, is_evidence_found, truncate, EvidenceCheck};

#[test]
fn backtick_code_references_are_extracted() {
    let candidates = extract_code_candidates("The method `get_embedded_chunk_ids` is called");
    assert!(candidates.contains(&"get_embedded_chunk_ids".to_string()));
}

#[test]
fn identifier_extraction_catches_snake_case() {
    let candidates = extract_code_candidates("delete_summaries_for_files is called");
    assert!(candidates.contains(&"delete_summaries_for_files".to_string()));
}

#[test]
fn truncate_handles_multibyte_utf8() {
    let evidence = "This code has a résumé function and some 日本語 characters that exceed eighty bytes total length";
    let truncated = truncate(evidence, 80);
    assert!(truncated.len() <= 83, "truncated length should be at or near boundary: got {}", truncated.len());
    let _ = truncated.to_string();
}

#[test]
fn truncate_short_string_unchanged() {
    let short = "hello";
    assert_eq!(truncate(short, 80), "hello");
}

#[test]
fn truncate_empty_string() {
    assert_eq!(truncate("", 80), "");
}

#[test]
fn evidence_checks_against_file_content() {
    assert!(is_evidence_found("Calls `real_function` and `fake_function`", "fn real_function() {}\n"));
    assert!(!is_evidence_found("Calls `nonexistent_method`", "fn main() {}\n"));
    assert!(matches!(check_evidence("Calls `nonexistent_method`", Some("fn main() {}\n")), EvidenceCheck::NotFoundInFile));
    assert!(matches!(check_evidence("Calls `x_y`", None), EvidenceCheck::FileMissing));
    assert!(matches!(check_evidence("This code has a logic error", Some("")), EvidenceCheck::Verified));
}
