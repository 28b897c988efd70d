use snif::eval::FixtureRecord;
use snif::guidance::{analyze_history, fixture_pattern_guidance, TrendSignals, GUIDANCE_HEADER};

fn record(name: &str, tp: usize, fp: usize, fn_count: usize) -> FixtureRecord {
    FixtureRecord { name: name.to_string(), expected: 5, actual: tp + fp, tp, fp, fn_count }
}

fn quiet() -> TrendSignals {
    TrendSignals {
        precision_declined: false,
        precision_strong: false,
        recall_declined: false,
        recall_strong: false,
        noise_rising: false,
    }
}

const FP_LINE: &str = "- The following fixtures have produced persistent false positives: style-ts. These are likely clean or stylistic changes. Only report findings if you identify a clear bug with concrete evidence.";

#[test]
fn empty_history_returns_empty_guidance() {
    let guidance = analyze_history(&[], quiet());
    assert!(guidance.prompt_augmentation.is_empty());
}

#[test]
fn single_record_returns_no_trend_guidance() {
    let recent = vec![Vec::new()];
    let mut signals = quiet();
    signals.precision_declined = true;
    let guidance = analyze_history(&recent, signals);
    assert!(guidance.prompt_augmentation.is_empty());
}

// The trend signals of records given oldest first, as the metrics of the
// newest and the oldest of them compare against the thresholds.
fn signals_of(metrics: &[(f64, f64, f64)]) -> TrendSignals {
    let (newest, oldest) = (metrics[metrics.len() - 1], metrics[0]);
    let (p, r, n) = (newest.0 - oldest.0, newest.1 - oldest.1, newest.2 - oldest.2);
    TrendSignals {
        precision_declined: p < -0.10,
        precision_strong: p > 0.05,
        recall_declined: r < -0.10,
        recall_strong: r > 0.05,
        noise_rising: n > 0.10,
    }
}

#[test]
fn declining_precision_generates_conservative_guidance() {
    let metrics = [(0.95, 0.96, 0.10), (0.90, 0.96, 0.10), (0.84, 0.96, 0.18)];
    let recent = vec![Vec::new(), Vec::new(), Vec::new()];
    let guidance = analyze_history(&recent, signals_of(&metrics));
    assert!(guidance.prompt_augmentation.starts_with(GUIDANCE_HEADER));
    assert!(
        guidance.prompt_augmentation.contains("more conservative"),
        "expected conservative guidance, got: {}",
        guidance.prompt_augmentation
    );
}

#[test]
fn rising_noise_generates_suppression_guidance() {
    let metrics = [(0.95, 0.96, 0.04), (0.90, 0.96, 0.10), (0.84, 0.96, 0.18)];
    let recent = vec![Vec::new(), Vec::new(), Vec::new()];
    let guidance = analyze_history(&recent, signals_of(&metrics));
    assert!(
        guidance.prompt_augmentation.contains("Noise rate") || guidance.prompt_augmentation.contains("false positive"),
        "expected noise guidance, got: {}",
        guidance.prompt_augmentation
    );
}

#[test]
fn header_alone_gives_no_guidance() {
    let recent = vec![Vec::new(), Vec::new()];
    assert_eq!(analyze_history(&recent, quiet()).prompt_augmentation, "");
}

#[test]
fn persistent_fp_fixtures_generates_targeted_guidance() {
    let recent = vec![
        vec![record("style-ts", 5, 4, 0)],
        vec![record("style-ts", 5, 3, 0)],
        vec![record("style-ts", 5, 2, 0)],
    ];
    let guidance = analyze_history(&recent, quiet());
    assert_eq!(guidance.prompt_augmentation, format!("{}\n{}", GUIDANCE_HEADER, FP_LINE));
}

#[test]
fn fixture_patterns_need_three_runs() {
    let recent = vec![vec![record("style-ts", 5, 4, 0)], vec![record("style-ts", 5, 3, 0)]];
    assert_eq!(fixture_pattern_guidance(&recent).prompt_augmentation, "");
}

#[test]
fn ratio_must_exceed_three_fifths() {
    // three false positives over five runs is exactly three fifths: not persistent
    let recent: Vec<Vec<FixtureRecord>> = (0..5)
        .map(|i| vec![record("edge", 5, if i < 3 { 1 } else { 0 }, 0)])
        .collect();
    assert_eq!(fixture_pattern_guidance(&recent).prompt_augmentation, "");
    let recent: Vec<Vec<FixtureRecord>> = (0..5)
        .map(|i| vec![record("edge", 5, if i < 4 { 1 } else { 0 }, 0)])
        .collect();
    assert!(fixture_pattern_guidance(&recent).prompt_augmentation.contains("edge"));
}

#[test]
fn more_than_three_fixtures_are_counted() {
    let run = || vec![record("a", 1, 1, 1), record("b", 1, 1, 1), record("c", 1, 1, 1), record("d", 1, 1, 0)];
    let recent = vec![run(), run(), run()];
    let text = fixture_pattern_guidance(&recent).prompt_augmentation;
    assert_eq!(
        text,
        "- The following fixtures have produced persistent false positives: a, b, c and 1 more. These are likely clean or stylistic changes. Only report findings if you identify a clear bug with concrete evidence.\n- The following fixtures have had findings missed in recent runs: a, b, c. Pay close attention to these patterns — they contain real bugs."
    );
}
