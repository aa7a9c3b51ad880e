use autosplit_timer::segments::{
    calculate_delta, calculate_segment_time, classify, delta_color, Delta, DeltaClass, TimeSpan,
    MAX_MODERATE_MILLIS, TIME_GOLD, TIME_GREEN, TIME_RED,
};

/// A span of so many seconds, to the millisecond.
fn span(seconds: f64) -> TimeSpan {
    TimeSpan::from_milliseconds((seconds * 1000.0).round() as i64)
}

fn seconds(span: TimeSpan) -> f64 {
    span.total_milliseconds() as f64 / 1000.0
}

/// A delta of so many seconds, to the millisecond.
fn delta_of(seconds: f64) -> Delta {
    Delta::from_milliseconds((seconds * 1000.0).round() as i64)
}

fn delta_seconds(delta: Delta) -> f64 {
    delta.total_milliseconds() as f64 / 1000.0
}

#[test]
fn test_calculate_segment_time_first_segment() {
    // First segment: no previous split, so segment time = split time
    let current = Some(span(30.0));
    let previous = None;

    let result = calculate_segment_time(current, previous);

    assert!(result.is_some());
    assert!((seconds(result.unwrap()) - 30.0).abs() < 0.001);
}

#[test]
fn test_calculate_segment_time_subsequent_segment() {
    // Second segment: split at 60s, previous at 30s, so segment = 30s
    let current = Some(span(60.0));
    let previous = Some(span(30.0));

    let result = calculate_segment_time(current, previous);

    assert!(result.is_some());
    assert!((seconds(result.unwrap()) - 30.0).abs() < 0.001);
}

#[test]
fn test_calculate_segment_time_none_current() {
    let current = None;
    let previous = Some(span(30.0));

    let result = calculate_segment_time(current, previous);

    assert!(result.is_none());
}

#[test]
fn test_calculate_delta_faster_than_best() {
    // Current segment: 25s, Best segment: 30s = -5s delta (faster)
    let current = Some(span(25.0));
    let best = Some(span(30.0));

    let delta = calculate_delta(current, best);

    assert!(delta.is_some());
    assert!((delta_seconds(delta.unwrap()) - (-5.0)).abs() < 0.001);
}

#[test]
fn test_calculate_delta_slower_than_best() {
    // Current segment: 35s, Best segment: 30s = +5s delta (slower)
    let current = Some(span(35.0));
    let best = Some(span(30.0));

    let delta = calculate_delta(current, best);

    assert!(delta.is_some());
    assert!((delta_seconds(delta.unwrap()) - 5.0).abs() < 0.001);
}

#[test]
fn test_calculate_delta_equal_to_best() {
    // Current segment: 30s, Best segment: 30s = 0s delta
    let current = Some(span(30.0));
    let best = Some(span(30.0));

    let delta = calculate_delta(current, best);

    assert!(delta.is_some());
    assert!(delta_seconds(delta.unwrap()).abs() < 0.001);
}

#[test]
fn test_calculate_delta_no_best() {
    // No best segment recorded
    let current = Some(span(30.0));
    let best = None;

    let delta = calculate_delta(current, best);

    assert!(delta.is_none());
}

#[test]
fn test_delta_color_ahead() {
    // Negative delta = ahead = green
    assert_eq!(delta_color(delta_of(-5.0)), TIME_GREEN);
    assert_eq!(delta_color(delta_of(-0.1)), TIME_GREEN);
}

#[test]
fn test_delta_color_slightly_behind() {
    // 0 to 1 second behind = gold
    assert_eq!(delta_color(delta_of(0.0)), TIME_GOLD);
    assert_eq!(delta_color(delta_of(0.5)), TIME_GOLD);
    assert_eq!(delta_color(delta_of(0.99)), TIME_GOLD);
}

#[test]
fn test_delta_color_behind() {
    // More than 1 second behind = red
    assert_eq!(delta_color(delta_of(1.0)), TIME_RED);
    assert_eq!(delta_color(delta_of(5.0)), TIME_RED);
    assert_eq!(delta_color(delta_of(100.0)), TIME_RED);
}

#[test]
fn test_full_run_scenario_all_segments_faster() {
    // Simulate a run where all segments are faster than best
    // Best times: 30s, 30s, 30s (segments)
    // Current times: 25s, 25s, 25s (segments)
    // Cumulative: 25s, 50s, 75s vs best cumulative would be 30s, 60s, 90s

    let best_segments = vec![span(30.0), span(30.0), span(30.0)];

    let current_splits = vec![
        span(25.0), // Split 1: 25s cumulative
        span(50.0), // Split 2: 50s cumulative
        span(75.0), // Split 3: 75s cumulative
    ];

    let mut prev_split: Option<TimeSpan> = None;

    for (i, &current_split) in current_splits.iter().enumerate() {
        let segment_time = calculate_segment_time(Some(current_split), prev_split);
        let delta = calculate_delta(segment_time, Some(best_segments[i]));

        // All segments should be 5 seconds faster
        assert!(delta.is_some());
        assert!(
            (delta_seconds(delta.unwrap()) - (-5.0)).abs() < 0.001,
            "Segment {} delta should be -5.0, got {}",
            i,
            delta_seconds(delta.unwrap())
        );

        // Color should be green (ahead)
        assert_eq!(delta_color(delta.unwrap()), TIME_GREEN);

        prev_split = Some(current_split);
    }
}

#[test]
fn test_full_run_scenario_mixed_performance() {
    // Simulate a run with mixed performance
    // Best segments: 30s, 30s, 30s
    // Current segments: 25s (fast), 35s (slow), 30s (same)
    // Cumulative: 25s, 60s, 90s

    let best_segments = vec![span(30.0), span(30.0), span(30.0)];

    let current_splits = vec![
        span(25.0), // Segment 1: 25s (5s ahead)
        span(60.0), // Segment 2: 35s (5s behind)
        span(90.0), // Segment 3: 30s (even)
    ];

    let expected_deltas = vec![-5.0, 5.0, 0.0];
    let expected_colors = vec![TIME_GREEN, TIME_RED, TIME_GOLD];

    let mut prev_split: Option<TimeSpan> = None;

    for (i, &current_split) in current_splits.iter().enumerate() {
        let segment_time = calculate_segment_time(Some(current_split), prev_split);
        let delta = calculate_delta(segment_time, Some(best_segments[i]));

        assert!(delta.is_some());
        assert!(
            (delta_seconds(delta.unwrap()) - expected_deltas[i]).abs() < 0.001,
            "Segment {} delta should be {}, got {}",
            i,
            expected_deltas[i],
            delta_seconds(delta.unwrap())
        );

        assert_eq!(
            delta_color(delta.unwrap()),
            expected_colors[i],
            "Segment {} color mismatch",
            i
        );

        prev_split = Some(current_split);
    }
}

#[test]
fn segment_time_is_the_difference_of_cumulative_times() {
    let cases: Vec<(i64, i64)> = vec![(0, 0), (1, 0), (60_000, 30_000), (90_500, 90_499), (7, 7)];
    for (c, p) in cases {
        let segment = calculate_segment_time(
            Some(TimeSpan::from_milliseconds(c)),
            Some(TimeSpan::from_milliseconds(p)),
        );
        assert_eq!(segment, Some(TimeSpan::from_milliseconds(c - p)));
        let first = calculate_segment_time(Some(TimeSpan::from_milliseconds(c)), None);
        assert_eq!(first, Some(TimeSpan::from_milliseconds(c)));
    }
}

#[test]
fn segment_time_may_be_negative() {
    let segment = calculate_segment_time(
        Some(TimeSpan::from_milliseconds(1_000)),
        Some(TimeSpan::from_milliseconds(4_500)),
    );
    assert_eq!(segment.unwrap().total_milliseconds(), -3_500);
}

#[test]
fn segment_time_is_undefined_without_the_current_split() {
    assert_eq!(calculate_segment_time(None, None), None);
    assert_eq!(calculate_segment_time(None, Some(TimeSpan::from_seconds(30))), None);
}

#[test]
fn delta_is_segment_less_best() {
    let delta = calculate_delta(
        Some(TimeSpan::from_milliseconds(31_250)),
        Some(TimeSpan::from_milliseconds(30_000)),
    );
    assert_eq!(delta, Some(Delta::from_milliseconds(1_250)));
    let delta = calculate_delta(
        Some(TimeSpan::from_milliseconds(-10)),
        Some(TimeSpan::from_milliseconds(20)),
    );
    assert_eq!(delta, Some(Delta::from_milliseconds(-30)));
}

#[test]
fn delta_is_defined_for_any_two_times() {
    let longest = Some(TimeSpan::from_milliseconds(i64::MAX));
    let shortest = Some(TimeSpan::from_milliseconds(i64::MIN));
    let delta = calculate_delta(longest, shortest).unwrap();
    assert_eq!(delta.total_milliseconds(), i64::MAX as i128 - i64::MIN as i128);
    assert_eq!(classify(delta), DeltaClass::Behind);
    let delta = calculate_delta(shortest, longest).unwrap();
    assert_eq!(delta.total_milliseconds(), i64::MIN as i128 - i64::MAX as i128);
    assert_eq!(classify(delta), DeltaClass::Ahead);
    let delta = calculate_delta(shortest, shortest).unwrap();
    assert_eq!(delta.total_milliseconds(), 0);
    assert_eq!(classify(delta), DeltaClass::Close);
}

#[test]
fn delta_is_undefined_when_either_time_is_missing() {
    let time = Some(TimeSpan::from_seconds(30));
    assert_eq!(calculate_delta(None, time), None);
    assert_eq!(calculate_delta(time, None), None);
    assert_eq!(calculate_delta(None, None), None);
}

#[test]
fn classify_tells_ahead_close_and_behind() {
    assert_eq!(classify(delta_of(-5.0)), DeltaClass::Ahead);
    assert_eq!(classify(delta_of(0.0)), DeltaClass::Close);
    assert_eq!(classify(delta_of(0.999)), DeltaClass::Close);
    assert_eq!(classify(delta_of(1.0)), DeltaClass::Behind);
}

#[test]
fn classify_at_the_edges_of_the_bands() {
    assert_eq!(classify(Delta::from_milliseconds(-1)), DeltaClass::Ahead);
    assert_eq!(classify(Delta::from_milliseconds(0)), DeltaClass::Close);
    assert_eq!(classify(Delta::from_milliseconds(999)), DeltaClass::Close);
    assert_eq!(classify(Delta::from_milliseconds(1000)), DeltaClass::Behind);
    assert_eq!(classify(Delta::from_milliseconds(i64::MIN)), DeltaClass::Ahead);
    assert_eq!(classify(Delta::from_milliseconds(i64::MAX)), DeltaClass::Behind);
}

#[test]
fn colours_are_packed_red_green_blue() {
    assert_eq!(TIME_GREEN, (50 << 16) | (205 << 8) | 50);
    assert_eq!(TIME_GOLD, (255 << 16) | (215 << 8));
    assert_eq!(TIME_RED, (220 << 16) | (60 << 8) | 60);
}

#[test]
fn spans_are_made_of_seconds_and_milliseconds() {
    assert_eq!(TimeSpan::zero().total_milliseconds(), 0);
    assert_eq!(TimeSpan::from_seconds(30).total_milliseconds(), 30_000);
    assert_eq!(TimeSpan::from_seconds(-2).total_milliseconds(), -2_000);
    assert_eq!(TimeSpan::from_milliseconds(1_234).total_milliseconds(), 1_234);
    assert_eq!(TimeSpan::from_seconds(30), TimeSpan::from_milliseconds(30_000));
}

#[test]
fn spans_of_seconds_and_nanoseconds_round_towards_zero() {
    let span = TimeSpan::from_seconds_and_nanoseconds(12, 345_678_901);
    assert_eq!(span.total_milliseconds(), 12_345);
    let span = TimeSpan::from_seconds_and_nanoseconds(-12, -345_678_901);
    assert_eq!(span.total_milliseconds(), -12_345);
    let span = TimeSpan::from_seconds_and_nanoseconds(0, 999_999);
    assert_eq!(span.total_milliseconds(), 0);
    let span = TimeSpan::from_seconds_and_nanoseconds(0, -999_999);
    assert_eq!(span.total_milliseconds(), 0);
    let span = TimeSpan::from_seconds_and_nanoseconds(0, -1_000_000);
    assert_eq!(span.total_milliseconds(), -1);
}

#[test]
fn spans_of_seconds_and_nanoseconds_are_cut_to_a_moderate_length() {
    assert_eq!(MAX_MODERATE_MILLIS, i64::MAX / 4);
    let span = TimeSpan::from_seconds_and_nanoseconds(i64::MAX, 999_999_999);
    assert_eq!(span.total_milliseconds(), MAX_MODERATE_MILLIS);
    let span = TimeSpan::from_seconds_and_nanoseconds(i64::MIN, -999_999_999);
    assert_eq!(span.total_milliseconds(), -MAX_MODERATE_MILLIS);
    let span = TimeSpan::from_seconds_and_nanoseconds(MAX_MODERATE_MILLIS / 1000, 0);
    assert_eq!(span.total_milliseconds(), MAX_MODERATE_MILLIS / 1000 * 1000);
}
