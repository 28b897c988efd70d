use snif::embeddings::{classify_embedder_load_error, classify_messages, has_summaries_missing_embeddings, EmbedderLoadError, EmbedderLoadFailureKind};

#[test]
fn classifier_detects_status_code_429() {
    let error = anyhow::Error::msg("request error: https://huggingface.co/model.onnx: status code 429");

    assert_eq!(classify_embedder_load_error(&error), EmbedderLoadFailureKind::RateLimited);
}

#[test]
fn classifier_detects_too_many_requests() {
    let error = anyhow::Error::msg("429 Too Many Requests for model.onnx");

    assert_eq!(classify_embedder_load_error(&error), EmbedderLoadFailureKind::RateLimited);
}

#[test]
fn classifier_keeps_non_429_failures_generic() {
    let error = anyhow::Error::msg("failed to parse tokenizer.json");

    assert_eq!(classify_embedder_load_error(&error), EmbedderLoadFailureKind::Other);
}

#[test]
fn classifier_reads_the_whole_chain() {
    let error = anyhow::Error::msg("TOO MANY REQUESTS").context("loading model");
    assert_eq!(classify_embedder_load_error(&error), EmbedderLoadFailureKind::RateLimited);
    assert_eq!(
        classify_messages(&vec!["outer".to_string(), "Status Code 429".to_string()]),
        EmbedderLoadFailureKind::RateLimited
    );
    assert_eq!(classify_messages(&vec!["status code".to_string(), "429".to_string()]), EmbedderLoadFailureKind::Other);
}

#[test]
fn load_error_reports_kind_and_advice() {
    let e = EmbedderLoadError::new(anyhow::Error::msg("status code 429"));
    assert!(e.is_rate_limited());
    assert!(e.describe().starts_with("Embedding model download was rate-limited"));
    let o = EmbedderLoadError::new(anyhow::Error::msg("disk full"));
    assert_eq!(o.kind(), EmbedderLoadFailureKind::Other);
    assert_eq!(o.describe(), "Failed to load embedding model: disk full");
}

#[test]
fn load_error_description_carries_the_outermost_message() {
    let e = EmbedderLoadError::new(anyhow::Error::msg("HTTP status code 429").context("fetching model.onnx"));
    assert!(e.is_rate_limited());
    let text = e.describe();
    assert!(text.starts_with("Embedding model download was rate-limited by Hugging Face/FastEmbed: fetching model.onnx. "));
    assert!(!text.contains("HTTP status code 429"));
}

#[test]
fn detects_cached_summary_missing_embedding() {
    assert!(has_summaries_missing_embeddings(&vec![1], &vec![]));
}

#[test]
fn skips_embedding_load_when_all_cached_summaries_are_embedded() {
    assert!(!has_summaries_missing_embeddings(&vec![1], &vec![1]));
}

#[test]
fn skips_embedding_load_when_no_summaries_exist() {
    assert!(!has_summaries_missing_embeddings(&vec![], &vec![]));
}
