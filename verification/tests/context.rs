use snif::context::{build_context, count_hunks_per_file, estimate_tokens, is_non_reviewable, stable_order_desc, ChangedFileInput, RelatedFileInput};
use snif::types::{ChangeMetadata, ContentTier};

#[test]
fn token_estimate_is_bytes_over_three() {
    assert_eq!(estimate_tokens(""), 0);
    assert_eq!(estimate_tokens("abcdefg"), 2);
    assert_eq!(estimate_tokens("日本"), 2);
}

#[test]
fn generated_files_are_not_reviewable() {
    assert!(is_non_reviewable("Cargo.lock"));
    assert!(is_non_reviewable("web/dist/app.min.js"));
    assert!(is_non_reviewable("deps/yarn.lock"));
    assert!(!is_non_reviewable("src/lock.rs"));
}

#[test]
fn hunks_are_counted_per_file() {
    let diff = "--- a/x.rs\n+++ b/x.rs\n@@ -1 +1 @@\n-a\n+b\n@@ -5 +5 @@\n+++ b/y.rs\n@@ -1 +1 @@\n+++ /dev/null\n@@ -2 +2 @@\n";
    let counts = count_hunks_per_file(diff);
    let get = |p: &str| counts.iter().find(|c| c.path == p).map(|c| c.hunks);
    assert_eq!(get("x.rs"), Some(2));
    assert_eq!(get("y.rs"), Some(2));
    assert_eq!(counts.len(), 2);
}

#[test]
fn order_is_by_descending_hunks_then_original() {
    assert_eq!(stable_order_desc(&vec![1, 3, 3, 0, 2]), vec![1, 2, 4, 0, 3]);
}

fn changed(path: &str, content: &str, summary: Option<&str>) -> ChangedFileInput {
    ChangedFileInput {
        path: path.to_string(),
        file_size: content.len(),
        content: content.to_string(),
        summary: summary.map(|s| s.to_string()),
    }
}

#[test]
fn context_places_changed_files_by_budget() {
    let diff = "+++ b/big.rs\n@@ -1 +1 @@\n@@ -9 +9 @@\n+++ b/small.rs\n@@ -1 +1 @@\n";
    let big = "x".repeat(3000);
    let files = vec![
        changed("small.rs", "fn s() {}", None),
        changed("big.rs", &big, Some("big summary")),
        changed("Cargo.lock", "lock", None),
    ];
    let related = vec![
        RelatedFileInput { path: "r1.rs".to_string(), content: Some("r".repeat(30)), summary: None, score_bits: 0.9f64.to_bits(), score_text: "0.90".to_string() },
        RelatedFileInput { path: "gone.rs".to_string(), content: None, summary: None, score_bits: 0.8f64.to_bits(), score_text: "0.80".to_string() },
        RelatedFileInput { path: "r2.rs".to_string(), content: Some("r".repeat(3000)), summary: None, score_bits: 0.7f64.to_bits(), score_text: "0.70".to_string() },
    ];
    let pkg = build_context(diff, files, related, 1_000, 100, 5, ChangeMetadata::empty());
    assert_eq!(pkg.budget.total_budget, 900);
    assert_eq!(pkg.changed_files[0].path, "big.rs");
    assert_eq!(pkg.changed_files[0].content_tier, ContentTier::SummaryOnly);
    assert_eq!(pkg.changed_files[1].path, "small.rs");
    assert_eq!(pkg.changed_files[1].content_tier, ContentTier::Full);
    assert_eq!(pkg.changed_files[2].path, "Cargo.lock");
    assert_eq!(pkg.changed_files[2].content_tier, ContentTier::DiffOnly);
    assert_eq!(pkg.related_files.len(), 1);
    assert_eq!(pkg.related_files[0].path, "r1.rs");
    assert_eq!(pkg.related_files[0].retrieval_score.as_deref(), Some("0.90"));
    let reasons: Vec<&str> = pkg.omissions.iter().map(|o| o.reason.as_str()).collect();
    assert_eq!(reasons, vec!["content_degraded_to_summary", "token_budget_exceeded"]);
    assert_eq!(pkg.budget.files_summary_only, 1);
    assert_eq!(pkg.budget.files_full, 1);
    assert_eq!(pkg.budget.files_diff_only, 1);
    assert_eq!(pkg.budget.files_included, 4);
    assert_eq!(pkg.budget.files_omitted, 2);
}
