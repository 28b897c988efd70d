use snif::experiment::{experiment_name, generate_experiment_name, monitor_step, sha_short, MonitorAction, MONITOR_MAX_RETRIES};

#[test]
fn generate_experiment_name_produces_correct_format() {
    let name = generate_experiment_name("abc1234def5678abc1234def5678abc1234def56", "2026-04-14T10:30:00Z");
    assert_eq!(name, "snif-eval-abc1234-20260414-103000");
}

#[test]
fn generate_experiment_name_handles_milliseconds() {
    let name = generate_experiment_name("abc1234def5678abc1234def5678abc1234def56", "2026-04-14T10:30:00.123Z");
    assert_eq!(name, "snif-eval-abc1234-20260414-103000");
}

#[test]
fn generate_experiment_name_handles_offset_timezone() {
    let name = generate_experiment_name("abc1234def5678abc1234def5678abc1234def56", "2026-04-14T10:30:00+02:00");
    assert_eq!(name, "snif-eval-abc1234-20260414-103000");
}

#[test]
fn generate_experiment_name_fallback_for_malformed_timestamp() {
    let name = generate_experiment_name("abc1234def5678abc1234def5678abc1234def56", "not-a-timestamp");
    assert!(name.starts_with("snif-eval-abc1234-"));
    let parts: Vec<&str> = name.split('-').collect();
    assert_eq!(parts.len(), 5);
    assert_eq!(parts[3].len(), 8);
    assert_eq!(parts[4].len(), 6);
}

#[test]
fn generate_experiment_name_uses_unique_sha_per_run() {
    let name1 = generate_experiment_name("sha1111111111111111111111111111111111", "2026-04-14T10:30:00Z");
    let name2 = generate_experiment_name("sha2222222222222222222222222222222222", "2026-04-14T10:30:00Z");
    assert_ne!(name1, name2);
    assert!(name1.starts_with("snif-eval-sha1111-"));
    assert!(name2.starts_with("snif-eval-sha2222-"));
}

#[test]
fn generate_experiment_name_handles_short_sha() {
    let name = generate_experiment_name("abc1234", "2026-04-14T10:30:00Z");
    assert_eq!(name, "snif-eval-abc1234-20260414-103000");
}

#[test]
fn short_sha_keeps_whole_text_when_seven_bytes_split_a_character() {
    assert_eq!(sha_short("abc"), "abc");
    assert_eq!(sha_short("abcdef\u{e9}xyz"), "abcdef\u{e9}xyz");
    assert_eq!(sha_short("abcde\u{e9}xyz"), "abcde\u{e9}");
    assert_eq!(experiment_name("0123456789", "T"), "snif-eval-0123456-T");
}

#[test]
fn monitoring_retries_double_then_give_up() {
    let mut delays = Vec::new();
    let mut attempt = 0u32;
    loop {
        match monitor_step(attempt, false) {
            MonitorAction::Retry { delay_secs } => {
                delays.push(delay_secs);
                attempt += 1;
            }
            MonitorAction::GiveUp => break,
            MonitorAction::Done => panic!("a failure is never done"),
        }
    }
    assert_eq!(delays, vec![1, 2, 4, 8, 16]);
    assert_eq!(attempt + 1, MONITOR_MAX_RETRIES + 1);
    assert_eq!(monitor_step(2, true), MonitorAction::Done);
}
