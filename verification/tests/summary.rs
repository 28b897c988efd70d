use snif::summary::{format_pr_summary, ReviewOutcome, ReviewSummaryInput};
use snif::types::{FileLocation, Finding, FindingCategory, RetrievalMethod, RetrievalResult, RetrievalResults};

fn retrieval_results(count: usize) -> RetrievalResults {
    RetrievalResults {
        results: (0..count)
            .map(|i| RetrievalResult {
                path: format!("src/{i}.rs"),
                score_bits: 1.0f64.to_bits(),
                score_text: "1.00".to_string(),
                method: RetrievalMethod::Keyword,
            })
            .collect(),
        structural_count: 0,
        semantic_count: 0,
        code_semantic_count: 0,
        keyword_count: count,
    }
}

#[test]
fn clean_summary_uses_no_issues_wording() {
    let retrieval = retrieval_results(0);
    let summary = format_pr_summary(&ReviewSummaryInput {
        change_summary: "Clean refactor.",
        findings: &[],
        outcome: ReviewOutcome::Clean,
        changed_paths: &["src/lib.rs".to_string()],
        retrieval_results: &retrieval,
        related_files_analyzed: 0,
        diff_lines: 10,
        model_name: "test-model",
        duration_secs: 1,
        context_note: None,
    });

    assert!(summary.contains("**No issues found.** Change looks clean."));
}

#[test]
fn limited_clean_summary_uses_limited_wording() {
    let retrieval = retrieval_results(2);
    let summary = format_pr_summary(&ReviewSummaryInput {
        change_summary: "Large refactor.",
        findings: &[],
        outcome: ReviewOutcome::LimitedClean,
        changed_paths: &["src/lib.rs".to_string()],
        retrieval_results: &retrieval,
        related_files_analyzed: 1,
        diff_lines: 10,
        model_name: "test-model",
        duration_secs: 1,
        context_note: Some("Context was reduced."),
    });

    assert!(summary.contains("No reportable issues found in analyzed context"));
    assert!(summary.contains("**Context analyzed:** 1 related file included after trimming."));
}

#[test]
fn inconclusive_summary_never_says_clean_or_repeats_untrusted_summary() {
    let retrieval = retrieval_results(0);
    let summary = format_pr_summary(&ReviewSummaryInput {
        change_summary: "Two security concerns identified.",
        findings: &[],
        outcome: ReviewOutcome::Inconclusive,
        changed_paths: &["src/lib.rs".to_string()],
        retrieval_results: &retrieval,
        related_files_analyzed: 0,
        diff_lines: 10,
        model_name: "test-model",
        duration_secs: 1,
        context_note: Some("Review was inconclusive."),
    });

    assert!(summary.contains("Review inconclusive"));
    assert!(!summary.contains("No issues found"));
    assert!(!summary.contains("Two security concerns identified."));
}

#[test]
fn findings_summary_counts_and_lists_methods() {
    let finding = Finding {
        location: FileLocation { file: "a.rs".to_string(), start_line: 1, end_line: None },
        category: FindingCategory::Logic,
        confidence_bits: 0.9f64.to_bits(),
        evidence: "e".to_string(),
        explanation: "x".to_string(),
        impact: "i".to_string(),
        suggestion: None,
        fingerprint: None,
    };
    let mut retrieval = retrieval_results(3);
    retrieval.structural_count = 2;
    retrieval.keyword_count = 1;
    let summary = format_pr_summary(&ReviewSummaryInput {
        change_summary: "",
        findings: std::slice::from_ref(&finding),
        outcome: ReviewOutcome::Findings,
        changed_paths: &["a.rs".to_string(), "b.rs".to_string()],
        retrieval_results: &retrieval,
        related_files_analyzed: 3,
        diff_lines: 42,
        model_name: "m",
        duration_secs: 7,
        context_note: None,
    });
    assert!(summary.starts_with("## Snif Review\n\n**Found 1 issue.**\n"));
    assert!(summary.contains("- `a.rs`\n- `b.rs`\n"));
    assert!(summary.contains("**Context analyzed:** 3 related files (2 structural, 1 keyword).\n"));
    assert!(summary.contains("*Reviewed 42 diff lines with m in 7s.*"));
    assert!(summary.ends_with("</details>\n"));
}
