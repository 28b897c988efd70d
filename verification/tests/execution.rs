use snif::execution::{
    chat_step, ChatAction, ChatOutcome, is_provider_pressure_error, is_rate_limit_error, is_retryable_status, normalize_endpoint,
    retry_delay_secs, LlmRetryFailure, LlmRetryFailureKind,
};

#[test]
fn retry_exhausted_429_is_classified_as_rate_limited() {
    let error = LlmRetryFailure::retryable_response(
        5,
        429,
        Some("60".to_string()),
        "{\"error\":\"quota exceeded\"}".to_string(),
    );

    assert!(error.is_rate_limited());
    assert!(is_rate_limit_error(Some(&error)));
    assert_eq!(error.retry_after.as_deref(), Some("60"));
    assert_eq!(error.body.as_deref(), Some("{\"error\":\"quota exceeded\"}"));
}

#[test]
fn retry_exhausted_server_error_is_not_rate_limited() {
    let error = LlmRetryFailure::retryable_response(5, 500, None, "oops".to_string());

    assert!(!error.is_rate_limited());
    assert!(!is_rate_limit_error(Some(&error)));
}

#[test]
fn statuses_other_than_429_are_retryable_server_errors() {
    for status in [408u16, 500, 502, 503, 504] {
        let e = LlmRetryFailure::retryable_response(3, status, None, String::new());
        assert_eq!(e.kind, LlmRetryFailureKind::RetryableServerError);
        assert!(!is_provider_pressure_error(Some(&e)));
        assert_eq!(e.message, format!("Server error {status}"));
    }
    assert!(!is_provider_pressure_error(None));
}

#[test]
fn retryable_statuses_and_delays() {
    assert!(is_retryable_status(429));
    assert!(is_retryable_status(408));
    assert!(is_retryable_status(500));
    assert!(!is_retryable_status(404));
    assert!(!is_retryable_status(200));
    assert_eq!(retry_delay_secs(0), 1);
    assert_eq!(retry_delay_secs(1), 2);
    assert_eq!(retry_delay_secs(3), 8);
}

#[test]
fn endpoint_trailing_slashes_are_removed() {
    assert_eq!(normalize_endpoint("http://h/v1//"), "http://h/v1");
    assert_eq!(normalize_endpoint("http://h/v1"), "http://h/v1");
}

#[test]
fn server_error_is_retried_with_doubling_wait() {
    let outcome = ChatOutcome::Status { status: 503, retry_after: None, body: "busy".to_string() };
    match chat_step(2, outcome, false) {
        ChatAction::Retry { failure, delay_secs } => {
            assert_eq!(delay_secs, 8);
            assert_eq!(failure.kind, LlmRetryFailureKind::RetryableServerError);
            assert_eq!(failure.message, "Server error 503: busy");
        }
        _ => panic!("expected a retry"),
    }
}

#[test]
fn last_attempt_gives_up() {
    let outcome = ChatOutcome::SendFailed { message: "Request failed: timeout".to_string() };
    match chat_step(5, outcome, false) {
        ChatAction::GaveUp { failure } => {
            assert_eq!(failure.kind, LlmRetryFailureKind::RequestFailed);
            assert_eq!(failure.message, "Request failed: timeout");
            assert_eq!(failure.max_retries, 5);
        }
        _ => panic!("expected to give up"),
    }
}

#[test]
fn rate_limit_is_surfaced_at_once_when_asked() {
    let outcome = ChatOutcome::Status { status: 429, retry_after: Some("30".to_string()), body: String::new() };
    match chat_step(0, outcome, true) {
        ChatAction::GaveUp { failure } => {
            assert!(failure.is_rate_limited());
            assert_eq!(failure.retry_after.as_deref(), Some("30"));
        }
        _ => panic!("expected the rate limit to be surfaced"),
    }
    let again = ChatOutcome::Status { status: 429, retry_after: None, body: String::new() };
    assert!(matches!(chat_step(0, again, false), ChatAction::Retry { delay_secs: 2, .. }));
}

#[test]
fn client_error_is_refused_without_retry() {
    let outcome = ChatOutcome::Status { status: 400, retry_after: None, body: "bad".to_string() };
    match chat_step(0, outcome, false) {
        ChatAction::Refused { status, body } => {
            assert_eq!(status, 400);
            assert_eq!(body, "bad");
        }
        _ => panic!("expected a refusal"),
    }
}

#[test]
fn reply_falls_back_to_reasoning_content() {
    let outcome = ChatOutcome::Reply { content: Some("  ".to_string()), reasoning: Some(" {\"findings\": []} ".to_string()) };
    match chat_step(0, outcome, false) {
        ChatAction::Answered { text } => assert_eq!(text, "{\"findings\": []}"),
        _ => panic!("expected an answer"),
    }
    let empty = ChatOutcome::Reply { content: None, reasoning: Some(String::new()) };
    assert!(matches!(chat_step(0, empty, false), ChatAction::EmptyReply));
}
