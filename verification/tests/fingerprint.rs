use snif::fingerprint::{compute_content_hash, compute_fingerprints, compute_line_hash, normalize_evidence};
use snif::types::{FileLocation, Finding, FindingCategory};

fn finding(line: usize, end: Option<usize>, evidence: &str) -> Finding {
    Finding {
        location: FileLocation { file: "src/lib.rs".to_string(), start_line: line, end_line: end },
        category: FindingCategory::Logic,
        confidence_bits: 0.9f64.to_bits(),
        evidence: evidence.to_string(),
        explanation: "x".to_string(),
        impact: "i".to_string(),
        suggestion: None,
        fingerprint: None,
    }
}

#[test]
fn evidence_is_normalized_before_hashing() {
    assert_eq!(normalize_evidence("  Foo\t\n BAR  "), "foo bar");
    assert_eq!(compute_content_hash(&finding(10, None, "  Foo   bar")), "f6f267ee166a0f93");
    assert_eq!(
        compute_content_hash(&finding(10, None, "FOO BAR")),
        compute_content_hash(&finding(99, Some(120), "foo\nbar"))
    );
}

#[test]
fn line_hash_covers_file_lines_and_category() {
    assert_eq!(compute_line_hash(&finding(10, None, "e")), "fc1dfae2809dd511");
    assert_eq!(compute_line_hash(&finding(10, Some(12), "e")), "99656e35230a9414");
}

#[test]
fn repeated_content_gets_distinct_ids() {
    let mut fs = vec![finding(1, None, "same"), finding(5, None, "same"), finding(9, None, "other"), finding(12, None, "same")];
    compute_fingerprints(&mut fs);
    let ids: Vec<String> = fs.iter().map(|f| f.fingerprint.as_ref().unwrap().id.clone()).collect();
    assert_eq!(ids[0].len(), 16);
    assert_eq!(ids[1], format!("{}-1", ids[0]));
    assert_eq!(ids[3], format!("{}-2", ids[0]));
    assert_ne!(ids[2], ids[0]);
    assert_eq!(fs[2].fingerprint.as_ref().unwrap().line_id.len(), 16);
    assert_eq!(fs[1].location.start_line, 5);
}

#[test]
fn rerunning_keeps_the_fingerprints() {
    let mut fs = vec![finding(3, None, "a == b"), finding(9, Some(12), "A  ==  B"), finding(20, None, "c")];
    compute_fingerprints(&mut fs);
    let first: Vec<(String, String)> = fs
        .iter()
        .map(|f| {
            let fp = f.fingerprint.as_ref().unwrap();
            (fp.id.clone(), fp.line_id.clone())
        })
        .collect();
    compute_fingerprints(&mut fs);
    let second: Vec<(String, String)> = fs
        .iter()
        .map(|f| {
            let fp = f.fingerprint.as_ref().unwrap();
            (fp.id.clone(), fp.line_id.clone())
        })
        .collect();
    assert_eq!(first, second);
    assert_ne!(first[0].0, first[1].0);
    assert!(first[1].0.ends_with("-1"));
}
