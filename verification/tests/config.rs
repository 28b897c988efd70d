use snif::config::{ReviewInconclusiveMode, SnifConfig};

#[test]
fn default_context_sets_summarizer_concurrency_to_current_behavior() {
    let config = SnifConfig::default();

    assert_eq!(config.context.summarizer_concurrency, 3);
}

#[test]
fn default_review_inconclusive_mode_fails() {
    let config = SnifConfig::default();

    assert_eq!(config.review.inconclusive_mode, ReviewInconclusiveMode::Fail);
}

#[test]
fn default_embedding_cache_dir_matches_fastembed_default() {
    let config = SnifConfig::default();

    assert_eq!(config.index.embedding_cache_dir, ".fastembed_cache");
}

#[test]
fn relative_embedding_cache_dir_resolves_from_repo_root() {
    let config = SnifConfig::default();

    assert_eq!(config.resolved_embedding_cache_dir("/repo"), "/repo/.fastembed_cache");
}

#[test]
fn absolute_embedding_cache_dir_is_preserved() {
    let mut config = SnifConfig::default();
    config.index.embedding_cache_dir = "/tmp/snif-fastembed".to_string();

    assert_eq!(config.resolved_embedding_cache_dir("/repo"), "/tmp/snif-fastembed");
}

#[test]
fn fastembed_cache_dir_env_overrides_json() {
    let mut config = SnifConfig::default();
    config.index.embedding_cache_dir = ".json-cache".to_string();
    config.merge_env_values(None, None, Some("/tmp/fastembed-cache".to_string()), None, None);

    assert_eq!(config.index.embedding_cache_dir, "/tmp/fastembed-cache");
}

#[test]
fn snif_embedding_cache_dir_env_overrides_fastembed_env() {
    let mut config = SnifConfig::default();
    config.merge_env_values(
        None,
        None,
        Some("/tmp/fastembed-cache".to_string()),
        Some("/tmp/snif-cache".to_string()),
        None,
    );

    assert_eq!(config.index.embedding_cache_dir, "/tmp/snif-cache");
}

#[test]
fn review_inconclusive_mode_env_overrides_json() {
    let mut config = SnifConfig::default();
    config.merge_env_values(None, None, None, None, Some(" WARN ".to_string()));
    assert_eq!(config.review.inconclusive_mode, ReviewInconclusiveMode::Warn);

    config.merge_env_values(None, None, None, None, Some("sometimes".to_string()));
    assert_eq!(config.review.inconclusive_mode, ReviewInconclusiveMode::Warn);
}

#[test]
fn env_overrides_endpoint_and_database() {
    let mut config = SnifConfig::default();
    config.merge_env_values(Some("http://llm".to_string()), Some("/db".to_string()), None, None, None);
    assert_eq!(config.model.endpoint, "http://llm");
    assert_eq!(config.index.db_path, "/db");
    assert_eq!(config.index.embedding_cache_dir, ".fastembed_cache");
}

#[test]
fn mode_parsing_ignores_case_and_whitespace() {
    assert_eq!(ReviewInconclusiveMode::parse("fail"), Some(ReviewInconclusiveMode::Fail));
    assert_eq!(ReviewInconclusiveMode::parse("  Warn\n"), Some(ReviewInconclusiveMode::Warn));
    assert_eq!(ReviewInconclusiveMode::parse("FAIL"), Some(ReviewInconclusiveMode::Fail));
    assert_eq!(ReviewInconclusiveMode::parse("warning"), None);
    assert_eq!(ReviewInconclusiveMode::parse(""), None);
}

#[test]
fn cache_dir_joins_with_single_separator() {
    let config = SnifConfig::default();
    assert_eq!(config.resolved_embedding_cache_dir("/repo/"), "/repo/.fastembed_cache");
    assert_eq!(config.resolved_embedding_cache_dir(""), ".fastembed_cache");
}

#[test]
fn strictly_inside_needs_a_proper_prefix() {
    let v = |parts: &[&str]| parts.iter().map(|s| s.to_string()).collect::<Vec<String>>();
    assert!(snif::config::is_strictly_inside(&v(&["/", "repo"]), &v(&["/", "repo", ".fastembed_cache"])));
    assert!(!snif::config::is_strictly_inside(&v(&["/", "repo"]), &v(&["/", "repo"])));
    assert!(!snif::config::is_strictly_inside(&v(&["/", "repo"]), &v(&["/", "repository", "cache"])));
    assert!(!snif::config::is_strictly_inside(&v(&["/", "repo"]), &v(&["/", "tmp", "cache"])));
}
