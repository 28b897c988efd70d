use snif::config::SnifConfig;
use snif::prompts::{fill_template, render_system_prompt, render_system_prompt_with_conventions, render_user_prompt, SYSTEM_PROMPT_INTRO, SYSTEM_PROMPT_RESPONSE_FORMAT};
use snif::types::{BudgetReport, ChangeMetadata, ContentTier, ContextFile, ContextPackage};

#[test]
fn fill_template_replaces_placeholder() {
    assert_eq!(fill_template("Hello, {}!", "World"), "Hello, World!");
}

#[test]
fn fill_template_no_placeholder() {
    assert_eq!(fill_template("No placeholder", "X"), "No placeholder");
}

#[test]
fn render_system_prompt_contains_rules() {
    let config = SnifConfig::default();
    let prompt = render_system_prompt(&config);
    assert!(prompt.contains("Rules:"));
    assert!(prompt.contains(SYSTEM_PROMPT_INTRO));
    assert!(prompt.contains(SYSTEM_PROMPT_RESPONSE_FORMAT));
}

#[test]
fn system_prompt_includes_conventions_and_guidance() {
    let config = SnifConfig::default();
    let prompt = render_system_prompt_with_conventions(&config, Some("no debug prints"), Some("extra guidance"));
    assert!(prompt.contains("Project Conventions"));
    assert!(prompt.contains("no debug prints"));
    assert!(prompt.contains("extra guidance"));
}

#[test]
fn render_system_prompt_style_suppression() {
    let mut config = SnifConfig::default();
    config.filter.suppress_style_only = true;
    let prompt = render_system_prompt(&config);
    assert!(prompt.contains("style-only"));
}

#[test]
fn render_system_prompt_no_style_suppression() {
    let mut config = SnifConfig::default();
    config.filter.suppress_style_only = false;
    let prompt = render_system_prompt(&config);
    assert!(!prompt.contains("style-only"));
}

#[test]
fn user_prompt_numbers_full_files_and_lists_related() {
    let mut metadata = ChangeMetadata::empty();
    metadata.title = Some("Fix bug".to_string());
    let context = ContextPackage {
        metadata,
        diff: "+x".to_string(),
        changed_files: vec![ContextFile {
            path: "a.rs".to_string(),
            content: "fn a() {}\nfn b() {}".to_string(),
            summary: None,
            retrieval_score: None,
            content_tier: ContentTier::Full,
        }],
        related_files: vec![ContextFile {
            path: "r.rs".to_string(),
            content: "r".to_string(),
            summary: None,
            retrieval_score: Some("0.50".to_string()),
            content_tier: ContentTier::Full,
        }],
        omissions: Vec::new(),
        budget: BudgetReport {
            total_budget: 0,
            diff_tokens: 0,
            changed_files_tokens: 0,
            related_files_tokens: 0,
            remaining_tokens: 0,
            files_included: 0,
            files_omitted: 0,
            files_full: 0,
            files_summary_only: 0,
            files_diff_only: 0,
        },
    };
    let p = render_user_prompt(&context);
    assert!(p.starts_with("Change: Fix bug\n"));
    assert!(p.contains("### a.rs\n"));
    assert!(p.contains("fn a() {}"));
    assert!(p.contains("### r.rs\n"));
    assert!(p.contains("+x"));
}
