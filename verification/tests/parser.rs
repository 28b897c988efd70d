use snif::parser::JsonNode;
use snif::parser::{extract_balanced_objects, extract_json_object, has_chain_of_thought, sanitize_text};

#[test]
fn detects_chain_of_thought_in_response() {
    let response = "Let me think about this code. {\"summary\":\"test\",\"findings\":[]}";
    assert!(has_chain_of_thought(response));
}

#[test]
fn does_not_detect_clean_response_as_cot() {
    let response = r#"{"summary":"Clean change","findings":[]}"#;
    assert!(!has_chain_of_thought(response));
}

#[test]
fn outermost_object_skips_preamble_and_strings() {
    let input: Vec<char> = "noise {\"a\": \"}\", \"b\": {\"c\": 1}} tail".chars().collect();
    let obj: String = extract_json_object(&input).expect("object").into_iter().collect();
    assert_eq!(obj, "{\"a\": \"}\", \"b\": {\"c\": 1}}");
    let none: Vec<char> = "no braces".chars().collect();
    assert!(extract_json_object(&none).is_none());
}

#[test]
fn balanced_objects_are_listed_in_order() {
    let input: Vec<char> = "[{\"x\":1}, {\"y\":{\"z\":2}}, {\"w\"".chars().collect();
    let objs: Vec<String> = extract_balanced_objects(&input).into_iter().map(|o| o.into_iter().collect()).collect();
    assert_eq!(objs, vec!["{\"x\":1}".to_string(), "{\"y\":{\"z\":2}}".to_string()]);
}

#[test]
fn sanitize_keeps_clean_text_trimmed() {
    assert_eq!(sanitize_text("  The code panics.  "), "The code panics.");
    assert_eq!(sanitize_text("   "), "");
    let s = sanitize_text("Let me analyze this. Actually, the code panics here.");
    assert!(!s.to_lowercase().contains("let me analyze"));
    assert!(!s.to_lowercase().starts_with("actually"));
}

fn lib_finding(explanation: &str) -> snif::types::Finding {
    snif::types::Finding {
        location: snif::types::FileLocation { file: "src/lib.rs".to_string(), start_line: 7, end_line: Some(8) },
        category: snif::types::FindingCategory::Logic,
        confidence_bits: 0.9f64.to_bits(),
        evidence: "panic!()".to_string(),
        explanation: explanation.to_string(),
        impact: "The process crashes.".to_string(),
        suggestion: None,
        fingerprint: None,
    }
}

fn no_stages() -> snif::parser::DecodeAttempts {
    snif::parser::DecodeAttempts { strict: None, json: None, array: None, salvaged: Vec::new() }
}

#[test]
fn parses_object_with_issues_field() {
    // The object has no `findings` key, so only the JSON stage reads it.
    let node = JsonNode::Object(vec![
        ("summary".to_string(), JsonNode::Text("Found a bug.".to_string())),
        ("issues".to_string(), JsonNode::Array(vec![lib_finding("This panics.")])),
    ]);
    let parsed = snif::parser::assemble_parsed_response(snif::parser::DecodeAttempts { json: Some(node), ..no_stages() });
    assert_eq!(parsed.findings.len(), 1);
    assert_eq!(parsed.summary, "Found a bug.");
}

#[test]
fn recovers_complete_finding_from_truncated_response() {
    let response = r#"{
          "summary": "Found a bug.",
          "findings": [
            {
              "file": "src/lib.rs",
              "start_line": 7,
              "end_line": 8,
              "category": "logic",
              "confidence": 0.9,
              "evidence": "panic!()",
              "explanation": "This panics.",
              "impact": "The process crashes.",
              "suggestion": null
            },
            {
              "file": "src/other.rs",
              "start_line": 12,
              "category": "security",
              "confidence": 1.0,
              "evidence": "unterminated
        "#;
    let candidates = snif::parser::salvage_candidates(response);
    assert_eq!(candidates.len(), 1);
    assert!(candidates[0].contains("\"file\": \"src/lib.rs\""));
    // Only the complete candidate decodes as a finding.
    let parsed = snif::parser::assemble_parsed_response(snif::parser::DecodeAttempts {
        salvaged: vec![lib_finding("This panics.")],
        ..no_stages()
    });
    assert_eq!(parsed.findings.len(), 1);
    assert_eq!(parsed.findings[0].location.file, "src/lib.rs");
}

#[test]
fn sanitizes_cot_from_finding_explanation() {
    let parsed = snif::parser::assemble_parsed_response(snif::parser::DecodeAttempts {
        strict: Some((Some("Found issue".to_string()), vec![lib_finding("Let me analyze this. Actually, the code panics here.")])),
        ..no_stages()
    });
    assert_eq!(parsed.findings.len(), 1);
    let explanation = &parsed.findings[0].explanation;
    assert!(!explanation.to_lowercase().contains("let me analyze"));
    assert!(!explanation.to_lowercase().starts_with("actually"));
}

#[test]
fn tail_after_reasoning_counts_bytes() {
    // Three two-byte characters are six bytes: enough to keep.
    assert_eq!(sanitize_text("let me think ééé"), "ééé");
    // Five one-byte characters are not.
    assert_eq!(sanitize_text("let me think abcde"), "let me think abcde");
}
