use snif::config::{ReviewInconclusiveMode, SnifConfig};
use snif::execution::{is_reducible_provider_error, LlmRetryFailure, LlmRetryFailureKind};
use snif::integrity::InconclusiveReason;
use snif::review::{
    classify_review_outcome, context_was_limited, detect_platform, fallback_output_max_tokens,
    fallback_start, fallback_step, FallbackAction, FallbackEvent, FallbackState,
    fallback_prompt_targets, fallback_reduces_request, inconclusive_message, provider_failure_reason,
    push_context_note, render_prompts_for_prompt_budget, resolve_adapter_target,
    review_output_max_tokens, select_stale_fingerprints, should_fail_inconclusive_review,
    truncate_diff_to_token_budget, AdapterTarget, AdapterTargetError, PromptTrimStats,
    RenderedReviewPrompts, DIFF_TRUNCATION_NOTICE,
};
use snif::summary::ReviewOutcome;
use snif::types::{
    BudgetReport, ChangeMetadata, ContentTier, ContextFile, ContextPackage, FileLocation, Finding,
    FindingCategory, Fingerprint,
};

fn empty_budget() -> BudgetReport {
    BudgetReport {
        total_budget: 0,
        diff_tokens: 0,
        changed_files_tokens: 0,
        related_files_tokens: 0,
        remaining_tokens: 0,
        files_included: 0,
        files_omitted: 0,
        files_full: 0,
        files_summary_only: 0,
        files_diff_only: 0,
    }
}

fn failure(kind: LlmRetryFailureKind, status: u16) -> LlmRetryFailure {
    LlmRetryFailure {
        kind,
        max_retries: 5,
        status: Some(status),
        retry_after: None,
        body: None,
        message: String::new(),
    }
}

#[test]
fn fallback_targets_only_include_smaller_prompt_budgets() {
    assert_eq!(
        fallback_prompt_targets(91_184),
        vec![64_000, 48_000, 32_000, 16_000, 8_000, 4_000]
    );
    assert_eq!(
        fallback_prompt_targets(50_000),
        vec![48_000, 32_000, 16_000, 8_000, 4_000]
    );
    assert_eq!(fallback_prompt_targets(32_000), vec![16_000, 8_000, 4_000]);
    assert_eq!(
        fallback_prompt_targets(37_129),
        vec![32_000, 16_000, 8_000, 4_000]
    );
}

#[test]
fn provider_failure_reason_distinguishes_rate_limit_from_pressure() {
    let rate_limit = failure(LlmRetryFailureKind::RateLimited, 429);
    let pressure = failure(LlmRetryFailureKind::ProviderPressure, 504);

    assert_eq!(provider_failure_reason(Some(&rate_limit)), "provider rate limiting");
    assert_eq!(provider_failure_reason(Some(&pressure)), "provider pressure");
    assert!(is_reducible_provider_error(Some(&rate_limit)));
    assert!(is_reducible_provider_error(Some(&pressure)));
}

#[test]
fn provider_failure_reason_is_generic_otherwise() {
    let server = failure(LlmRetryFailureKind::RetryableServerError, 500);
    assert_eq!(provider_failure_reason(Some(&server)), "provider failure");
    assert_eq!(provider_failure_reason(None), "provider failure");
}

#[test]
fn prompt_trimming_removes_related_files_before_degrading_changed_files() {
    let config = SnifConfig::default();
    let mut context = ContextPackage {
        metadata: ChangeMetadata::empty(),
        diff: "diff --git a/src/main.rs b/src/main.rs\n".to_string(),
        changed_files: vec![ContextFile {
            path: "src/main.rs".to_string(),
            content: "fn main() {}".to_string(),
            summary: None,
            retrieval_score: None,
            content_tier: ContentTier::Full,
        }],
        related_files: vec![
            ContextFile {
                path: "src/a.rs".to_string(),
                content: "a".repeat(12_000),
                summary: None,
                retrieval_score: Some("1.00".to_string()),
                content_tier: ContentTier::Full,
            },
            ContextFile {
                path: "src/b.rs".to_string(),
                content: "b".repeat(12_000),
                summary: None,
                retrieval_score: Some("0.90".to_string()),
                content_tier: ContentTier::Full,
            },
        ],
        omissions: Vec::new(),
        budget: empty_budget(),
    };

    let rendered = render_prompts_for_prompt_budget(&config, &mut context, 8_000, false);

    assert!(rendered.trim_stats.related_files_removed > 0);
    assert_eq!(rendered.trim_stats.changed_files_degraded, 0);
    assert_eq!(context.changed_files[0].content_tier, ContentTier::Full);
}

#[test]
fn review_output_cap_uses_reserve_but_shrinks_for_fallback_targets() {
    let config = SnifConfig::default();

    assert_eq!(review_output_max_tokens(&config, 96_000), 32_000);
    assert_eq!(review_output_max_tokens(&config, 16_000), 16_000);
    assert_eq!(review_output_max_tokens(&config, 8_000), 8_000);
    assert_eq!(fallback_output_max_tokens(&config, 64_000), 16_000);
    assert_eq!(fallback_output_max_tokens(&config, 32_000), 8_000);
    assert_eq!(fallback_output_max_tokens(&config, 16_000), 4_000);
    assert_eq!(fallback_output_max_tokens(&config, 8_000), 2_000);
    assert_eq!(fallback_output_max_tokens(&config, 4_000), 1_024);
}

#[test]
fn review_output_cap_clamps_zero_reserve() {
    let mut config = SnifConfig::default();
    config.context.output_reserve_tokens = 0;

    assert_eq!(review_output_max_tokens(&config, 8_000), 1);
}

#[test]
fn fallback_retry_can_reduce_output_cap_even_when_prompt_cannot_shrink() {
    assert!(fallback_reduces_request(15_596, 4_000, 15_596, 2_000));
    assert!(fallback_reduces_request(27_562, 8_000, 15_596, 4_000));
    assert!(!fallback_reduces_request(15_596, 2_000, 15_596, 2_000));
}

#[test]
fn provider_pressure_fallback_can_truncate_irreducible_diff() {
    let config = SnifConfig::default();
    let mut context = ContextPackage {
        metadata: ChangeMetadata::empty(),
        diff: format!(
            "diff --git a/src/main.rs b/src/main.rs\n{}",
            "+let value = very_long_expression();\n".repeat(4_000)
        ),
        changed_files: Vec::new(),
        related_files: Vec::new(),
        omissions: Vec::new(),
        budget: empty_budget(),
    };
    let original_diff_len = context.diff.len();

    let rendered = render_prompts_for_prompt_budget(&config, &mut context, 2_000, true);

    assert!(rendered.trim_stats.diff_truncated);
    assert!(context.diff.len() < original_diff_len);
    assert!(context.diff.contains(DIFF_TRUNCATION_NOTICE.trim()));
}

#[test]
fn trimming_degrades_largest_full_file_after_related_files() {
    let config = SnifConfig::default();
    let full = |path: &str, content: String| ContextFile {
        path: path.to_string(),
        content,
        summary: Some("summary".to_string()),
        retrieval_score: None,
        content_tier: ContentTier::Full,
    };
    let mut context = ContextPackage {
        metadata: ChangeMetadata::empty(),
        diff: "diff".to_string(),
        changed_files: vec![
            full("small.rs", "x\n".repeat(100)),
            full("large.rs", "y\n".repeat(20_000)),
        ],
        related_files: Vec::new(),
        omissions: Vec::new(),
        budget: empty_budget(),
    };

    let rendered = render_prompts_for_prompt_budget(&config, &mut context, 8_000, false);

    assert_eq!(rendered.trim_stats.changed_files_degraded, 1);
    assert_eq!(context.changed_files[1].content_tier, ContentTier::DiffOnly);
    assert_eq!(context.changed_files[1].content, "[See diff for changes to this file.]");
    assert_eq!(context.changed_files[1].summary, None);
    assert_eq!(context.changed_files[0].content_tier, ContentTier::Full);
    assert!(rendered.prompt_tokens <= 8_000);
}

#[test]
fn truncation_keeps_leading_lines_and_adds_notice() {
    assert_eq!(truncate_diff_to_token_budget("short", 10), None);
    let diff = "aaaa\nbbbb\ncccc\ndddd\n".repeat(50);
    let cut = truncate_diff_to_token_budget(&diff, 40).expect("diff exceeds the budget");
    assert!(cut.starts_with("aaaa\nbbbb\n"));
    assert!(cut.ends_with(DIFF_TRUNCATION_NOTICE));
    assert!(cut.len() < diff.len());
}

#[test]
fn context_notes_are_appended_in_order() {
    let mut note = None;

    push_context_note(&mut note, "Semantic retrieval was skipped.");
    push_context_note(&mut note, "Context was reduced.");

    assert_eq!(
        note.as_deref(),
        Some("Semantic retrieval was skipped. Context was reduced.")
    );
}

#[test]
fn review_outcome_is_inconclusive_when_integrity_check_fails() {
    let outcome =
        classify_review_outcome(Some(InconclusiveReason::SummaryClaimsFindings), &[], false);

    assert_eq!(outcome, ReviewOutcome::Inconclusive);
}

#[test]
fn review_outcome_marks_empty_limited_context_as_limited_clean() {
    let outcome = classify_review_outcome(None, &[], true);

    assert_eq!(outcome, ReviewOutcome::LimitedClean);
}

#[test]
fn review_outcome_marks_empty_full_context_as_clean() {
    let outcome = classify_review_outcome(None, &[], false);

    assert_eq!(outcome, ReviewOutcome::Clean);
}

#[test]
fn context_limited_tracks_prompt_trimming() {
    let rendered = RenderedReviewPrompts {
        system_prompt: String::new(),
        user_prompt: String::new(),
        prompt_tokens: 0,
        related_files: 0,
        trim_stats: PromptTrimStats {
            related_files_removed: 1,
            changed_files_degraded: 0,
            diff_truncated: false,
        },
    };

    assert!(context_was_limited(&rendered, &None));
}

#[test]
fn context_not_limited_without_trimming_or_note() {
    let rendered = RenderedReviewPrompts {
        system_prompt: String::new(),
        user_prompt: String::new(),
        prompt_tokens: 0,
        related_files: 0,
        trim_stats: PromptTrimStats::default(),
    };
    assert!(!context_was_limited(&rendered, &None));
    assert!(context_was_limited(&rendered, &Some("note".to_string())));
}

#[test]
fn inconclusive_fail_mode_exits_non_zero() {
    assert!(should_fail_inconclusive_review(
        ReviewOutcome::Inconclusive,
        ReviewInconclusiveMode::Fail
    ));
}

#[test]
fn inconclusive_warn_mode_exits_zero() {
    assert!(!should_fail_inconclusive_review(
        ReviewOutcome::Inconclusive,
        ReviewInconclusiveMode::Warn
    ));
}

#[test]
fn inconclusive_message_names_reason_or_default() {
    assert_eq!(
        inconclusive_message(None),
        "Review inconclusive: review output could not be trusted"
    );
    let m = inconclusive_message(Some(InconclusiveReason::SummaryClaimsFindings));
    assert!(m.starts_with("Review inconclusive: "));
    assert!(m.len() > "Review inconclusive: ".len());
}

#[test]
fn platform_detection_prefers_explicit_then_environment() {
    assert_eq!(detect_platform(Some("gitlab"), Some("github"), false, true, "github"), "gitlab");
    assert_eq!(detect_platform(None, Some("gitlab"), false, true, "github"), "gitlab");
    assert_eq!(detect_platform(None, None, true, true, "github"), "gitlab");
    assert_eq!(detect_platform(None, None, false, true, "gitlab"), "github");
    assert_eq!(detect_platform(None, None, false, false, "custom"), "custom");
}

#[test]
fn adapter_target_resolution() {
    match resolve_adapter_target("github", Some("owner/repo/extra"), Some(7), None, None, None, None, None, None, None) {
        Ok(AdapterTarget::GitHub { owner, repo, pr_number }) => {
            assert_eq!(owner, "owner");
            assert_eq!(repo, "repo/extra");
            assert_eq!(pr_number, 7);
        }
        _ => panic!("expected a GitHub target"),
    }
    assert!(matches!(
        resolve_adapter_target("github", Some("noslash"), Some(7), None, None, None, None, None, None, None),
        Err(AdapterTargetError::RepoFormat)
    ));
    assert!(matches!(
        resolve_adapter_target("github", None, Some(7), None, None, None, None, None, None, None),
        Err(AdapterTargetError::GitHubRepositoryRequired)
    ));
    assert!(matches!(
        resolve_adapter_target("github", Some("a/b"), None, None, None, None, None, None, None, None),
        Err(AdapterTargetError::PrNumberRequired)
    ));
    match resolve_adapter_target("gitlab", None, None, None, None, Some("group/project"), Some(12), Some("https://gl/api/v4"), None, None) {
        Ok(AdapterTarget::GitLab { project_path, mr_iid, api_base }) => {
            assert_eq!(project_path, "group/project");
            assert_eq!(mr_iid, 12);
            assert_eq!(api_base.as_deref(), Some("https://gl/api/v4"));
        }
        _ => panic!("expected a GitLab target"),
    }
    assert!(matches!(
        resolve_adapter_target("gitlab", None, Some(1), None, None, None, None, None, None, None),
        Err(AdapterTargetError::GitLabProjectPathRequired)
    ));
    assert!(matches!(
        resolve_adapter_target("gitlab", Some("g/p"), None, None, None, None, None, None, None, None),
        Err(AdapterTargetError::GitLabMrIidRequired)
    ));
}

fn fingerprinted(id: &str, line_id: &str) -> Finding {
    Finding {
        location: FileLocation { file: "src/lib.rs".to_string(), start_line: 1, end_line: None },
        category: FindingCategory::Logic,
        confidence_bits: 0.9f64.to_bits(),
        evidence: "e".to_string(),
        explanation: "x".to_string(),
        impact: "i".to_string(),
        suggestion: None,
        fingerprint: Some(Fingerprint { id: id.to_string(), line_id: line_id.to_string() }),
    }
}

fn fp(id: &str, line_id: &str) -> Fingerprint {
    Fingerprint { id: id.to_string(), line_id: line_id.to_string() }
}

#[test]
fn stale_fingerprints_match_neither_identity() {
    let current = vec![fingerprinted("c1", "l1")];
    let prior = vec![fp("c1", "zz"), fp("old", "l1"), fp("gone", "gone2"), fp("x", "c1")];
    let stale = select_stale_fingerprints(prior, &current);
    assert_eq!(stale.len(), 1);
    assert_eq!(stale[0].id, "gone");
}

#[test]
fn clean_review_resolves_nothing() {
    let prior = vec![fp("a", "b")];
    assert!(select_stale_fingerprints(prior, &[]).is_empty());
}

#[test]
fn reduced_context_note_names_failure_and_sizes() {
    let f = failure(LlmRetryFailureKind::RateLimited, 429);
    assert_eq!(
        snif::review::reduced_context_note(Some(&f), 70000, 30000, false),
        "Context was reduced after provider rate limiting (prompt tokens 70000 -> 30000)."
    );
    assert_eq!(
        snif::review::reduced_context_note(None, 12, 3, true),
        "Context was reduced after provider failure (prompt tokens 12 -> 3). Diff was truncated to fit the reduced provider-pressure budget."
    );
}

#[test]
fn exhausted_fallback_message_names_last_error() {
    let f = failure(LlmRetryFailureKind::ProviderPressure, 503);
    assert_eq!(
        snif::review::fallback_exhausted_message(&f),
        "Review request failed after reduced-context retries due to provider pressure. Last error: LLM request failed after 5 retries: status 503. Try lowering context.max_tokens and/or context.summarizer_concurrency."
    );
}

#[test]
fn fallback_steps_render_send_and_run_out() {
    let config = SnifConfig::default();
    let targets = vec![16_000, 8_000];
    let (state, action) = fallback_start(&targets, 30_000, 32_000);
    assert_eq!(state, FallbackState { tried: 0, prompt_tokens: 30_000, output_max_tokens: 32_000 });
    assert_eq!(action, FallbackAction::Render { target: 16_000 });

    let (state, action) = fallback_step(&config, &targets, state, FallbackEvent::Rendered { prompt_tokens: 15_000 });
    assert_eq!(action, FallbackAction::Send { output_max_tokens: 4_000 });
    assert_eq!(state.prompt_tokens, 15_000);

    let (state, action) = fallback_step(&config, &targets, state, FallbackEvent::Refused);
    assert_eq!(state, FallbackState { tried: 1, prompt_tokens: 15_000, output_max_tokens: 4_000 });
    assert_eq!(action, FallbackAction::Render { target: 8_000 });

    // Prompts that do not shrink the request are not sent.
    let (state, action) = fallback_step(&config, &targets, state, FallbackEvent::Rendered { prompt_tokens: 15_000 });
    assert_eq!(action, FallbackAction::Send { output_max_tokens: 2_000 });
    let (_, action) = fallback_step(&config, &targets, state, FallbackEvent::Refused);
    assert_eq!(action, FallbackAction::Exhausted);

    let (_, none) = fallback_start(&Vec::new(), 1_000, 1_000);
    assert_eq!(none, FallbackAction::Exhausted);
}

#[test]
fn fallback_skips_prompts_that_ask_for_no_less() {
    let config = SnifConfig::default();
    let targets = vec![4_000];
    let state = FallbackState { tried: 0, prompt_tokens: 3_000, output_max_tokens: 1_000 };
    let (state, action) = fallback_step(&config, &targets, state, FallbackEvent::Rendered { prompt_tokens: 3_000 });
    assert_eq!(action, FallbackAction::Exhausted);
    assert_eq!(state.tried, 1);
}
