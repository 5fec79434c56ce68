use usvg_animation::clock::{ClockUnit, ClockValue};
use usvg_animation::durations::{parse_dur, parse_repeat_count, parse_repeat_dur, RepeatCount};
use usvg_animation::metadata::{parse_iterations, parse_time, CssTime, IterationCount};

fn timecount(text: &str, unit: ClockUnit) -> Option<ClockValue> {
    Some(ClockValue::Timecount(text.to_string(), unit))
}

#[test]
fn dur_keywords_and_clock_values() {
    assert_eq!(parse_dur(None), None);
    assert_eq!(parse_dur(Some(" indefinite ")), None);
    assert_eq!(parse_dur(Some("media")), None);
    assert_eq!(parse_dur(Some("2s")), timecount("2", ClockUnit::Seconds));
    assert_eq!(parse_dur(Some(" 1.5min")), timecount("1.5", ClockUnit::Minutes));
    assert_eq!(
        parse_dur(Some("01:02")),
        Some(ClockValue::Colon(None, "01".to_string(), "02".to_string()))
    );
    assert_eq!(parse_dur(Some("soon")), None);
    // The sign is the caller's to check.
    assert_eq!(parse_dur(Some("-1s")), timecount("-1", ClockUnit::Seconds));
}

#[test]
fn repeat_count_is_indefinite_or_positive() {
    assert_eq!(parse_repeat_count(None), None);
    assert_eq!(parse_repeat_count(Some(" indefinite")), Some(RepeatCount::Indefinite));
    assert_eq!(parse_repeat_count(Some("2.5")), Some(RepeatCount::Count("2.5".to_string())));
    assert_eq!(parse_repeat_count(Some("0")), None);
    assert_eq!(parse_repeat_count(Some("-3")), None);
    assert_eq!(parse_repeat_count(Some("inf")), None);
    assert_eq!(parse_repeat_count(Some("1e39")), None);
    // Rounds to zero as an `f32`.
    assert_eq!(parse_repeat_count(Some("1e-46")), None);
    assert_eq!(parse_repeat_count(Some("1e-45")), Some(RepeatCount::Count("1e-45".to_string())));
}

#[test]
fn repeat_dur_reads_a_clock_value() {
    assert_eq!(parse_repeat_dur(None), None);
    assert_eq!(parse_repeat_dur(Some("indefinite")), None);
    assert_eq!(parse_repeat_dur(Some("500ms")), timecount("500", ClockUnit::Milliseconds));
    assert_eq!(parse_repeat_dur(Some("x")), None);
}

#[test]
fn css_times_carry_their_unit() {
    assert_eq!(parse_time("2s"), Some(CssTime::Seconds("2".to_string())));
    assert_eq!(parse_time(" 250MS "), Some(CssTime::Milliseconds("250".to_string())));
    assert_eq!(parse_time("1.5 s"), Some(CssTime::Seconds("1.5".to_string())));
    assert_eq!(parse_time("3"), Some(CssTime::Seconds("3".to_string())));
    assert_eq!(parse_time("fast"), None);
    assert_eq!(parse_time("ms"), None);
    assert_eq!(parse_time("xms"), None);
}

#[test]
fn iteration_counts() {
    assert_eq!(parse_iterations(" INFINITE "), IterationCount::Infinite);
    assert_eq!(parse_iterations("2.5"), IterationCount::Count("2.5".to_string()));
    assert_eq!(parse_iterations("0"), IterationCount::Count("0".to_string()));
    assert_eq!(parse_iterations("-1"), IterationCount::Count("1".to_string()));
    assert_eq!(parse_iterations("many"), IterationCount::Count("1".to_string()));
}
