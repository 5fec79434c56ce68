use usvg_animation::clock::{
    parse_begin_entry, parse_clock_value, ClockUnit, ClockValue, RawBegin, SyncEdge, TimeTerm,
};
use usvg_animation::durations::parse_dur;
use usvg_animation::syncbase::{resolve_timing, resolve_timing_list, Begin, TimedElement};

/// Seconds of a clock value, computed as the timing model does.
fn clock_seconds(clock: &ClockValue) -> f32 {
    let number = |text: &str| text.parse::<f32>().unwrap();
    match clock {
        ClockValue::Timecount(text, unit) => match unit {
            ClockUnit::Milliseconds => number(text) / 1000.0,
            ClockUnit::Minutes => number(text) * 60.0,
            ClockUnit::Hours => number(text) * 3600.0,
            ClockUnit::Seconds | ClockUnit::Bare => number(text),
        },
        ClockValue::Colon(hours, minutes, seconds) => {
            let hours = hours.as_deref().map_or(0.0, number);
            hours * 3600.0 + number(minutes) * 60.0 + number(seconds)
        }
    }
}

fn clock(value: &str) -> Option<f32> {
    let chars: Vec<char> = value.chars().collect();
    parse_clock_value(&chars).map(|c| clock_seconds(&c))
}

fn term_seconds(term: &TimeTerm, active: &[f32]) -> f32 {
    match term {
        TimeTerm::Zero => 0.0,
        TimeTerm::Clock(c) => {
            let sign = if c.negative { -1.0 } else { 1.0 };
            sign * clock_seconds(&c.clock)
        }
        TimeTerm::ActiveDuration(i) => active[*i],
    }
}

fn offsets(begins: &[Begin], active: &[f32]) -> Vec<f32> {
    begins
        .iter()
        .filter_map(|b| match b {
            Begin::Offset(terms) => {
                let mut total = term_seconds(&terms[0], active);
                for term in &terms[1..] {
                    total = total + term_seconds(term, active);
                }
                Some(total)
            }
            Begin::Indefinite => None,
        })
        .collect()
}

fn element(id: &str, begin: Option<&str>, end: Option<&str>, finite_active: bool) -> TimedElement {
    TimedElement {
        id: id.to_string(),
        begin: begin.map(str::to_string),
        end: end.map(str::to_string),
        finite_active,
    }
}

fn messages(nodes: &[TimedElement], index: usize) -> Vec<String> {
    resolve_timing(nodes, index, false, false).2.iter().map(|w| w.message()).collect()
}

#[test]
fn timing_clock_values() {
    assert_eq!(clock("4"), Some(4.0));
    assert_eq!(clock("3s"), Some(3.0));
    assert_eq!(clock("1.5s"), Some(1.5));
    assert_eq!(clock("02:30"), Some(150.0));
    assert_eq!(clock("1min"), Some(60.0));
    assert_eq!(clock("500ms"), Some(0.5));
    assert_eq!(clock("01:00:00"), Some(3600.0));
    assert_eq!(clock("bogus"), None);
}

#[test]
fn timing_multi_entry_begin_list() {
    let nodes = [element("a", Some("0s;2s;4s"), None, true)];
    let (begins, _, _) = resolve_timing(&nodes, 0, false, false);
    assert_eq!(offsets(&begins, &[1.0]), vec![0.0, 2.0, 4.0]);
}

#[test]
fn timing_omitted_begin_and_dur() {
    let nodes = [element("a", None, None, false)];
    let (begins, ends, _) = resolve_timing(&nodes, 0, false, false);
    assert_eq!(begins, vec![Begin::Offset(vec![TimeTerm::Zero])]);
    assert!(ends.is_empty());
    // No `dur` attribute: an indefinite duration.
    assert_eq!(parse_dur(None), None);
}

#[test]
fn timing_all_invalid_begin_is_empty() {
    let nodes = [element("a", Some("click;foo"), None, true)];
    let (begins, _, _) = resolve_timing(&nodes, 0, false, false);
    assert!(begins.is_empty());
}

#[test]
fn timing_event_begin_is_dropped_with_warning() {
    let nodes = [element("a", Some("click"), None, true)];
    let (begins, _, _) = resolve_timing(&nodes, 0, false, false);
    assert!(begins.is_empty());
    assert!(messages(&nodes, 0)
        .contains(&"Unsupported animation begin/end value: 'click'.".to_string()));
}

#[test]
fn timing_min_max_are_dropped_with_warning() {
    let nodes = [element("a", Some("0s"), None, true)];
    let warnings: Vec<String> =
        resolve_timing(&nodes, 0, true, true).2.iter().map(|w| w.message()).collect();
    assert!(warnings.contains(&"Unsupported SMIL timing attribute: 'min'.".to_string()));
    assert!(warnings.contains(&"Unsupported SMIL timing attribute: 'max'.".to_string()));
}

#[test]
fn timing_syncbase_chain_resolves() {
    let nodes = [
        element("a", Some("1s"), None, true),
        element("b", Some("a.begin+2s"), None, true),
        element("c", Some("b.begin+3s"), None, true),
    ];
    let (begins, _, _) = resolve_timing(&nodes, 2, false, false);
    assert_eq!(offsets(&begins, &[1.0, 1.0, 1.0]), vec![6.0]);
}

#[test]
fn timing_end_reference_to_indefinite_repeat_drops() {
    let nodes = [
        element("a", Some("0s"), None, false),
        element("b", Some("a.end+1s"), None, true),
    ];
    let (begins, _, _) = resolve_timing(&nodes, 1, false, false);
    assert!(begins.is_empty());
    assert!(messages(&nodes, 1)
        .contains(&"Unsupported animation begin/end value: 'a.end+1s'.".to_string()));
}

#[test]
fn timing_end_reference_to_multiple_begins_drops() {
    let nodes = [
        element("a", Some("0s;2s"), None, true),
        element("b", Some("a.end+1s"), None, true),
    ];
    let (begins, _, _) = resolve_timing(&nodes, 1, false, false);
    assert!(begins.is_empty());
}

#[test]
fn timing_end_reference_to_explicit_end_drops() {
    let nodes = [
        element("a", Some("0s"), Some("5s"), true),
        element("b", Some("a.end+1s"), None, true),
    ];
    let (begins, _, _) = resolve_timing(&nodes, 1, false, false);
    assert!(begins.is_empty());
}

#[test]
fn end_reference_adds_the_active_duration() {
    let nodes = [
        element("a", Some("2s"), None, true),
        element("b", Some("a.end-500ms"), None, true),
    ];
    let (begins, _, _) = resolve_timing(&nodes, 1, false, false);
    assert_eq!(
        begins,
        vec![Begin::Offset(vec![
            match parse_begin_entry("2s") {
                Some(RawBegin::Offset(t)) => t,
                other => panic!("expected an offset, got {other:?}"),
            },
            TimeTerm::ActiveDuration(0),
            match parse_begin_entry("a.end-500ms") {
                Some(RawBegin::SyncBase { offset, .. }) => offset,
                other => panic!("expected a syncbase, got {other:?}"),
            },
        ])]
    );
    assert_eq!(offsets(&begins, &[3.0, 1.0]), vec![4.5]);
}

#[test]
fn timing_cyclic_syncbase_drops() {
    let nodes = [
        element("a", Some("b.begin"), None, true),
        element("b", Some("a.begin"), None, true),
    ];
    let (begins, _, _) = resolve_timing(&nodes, 0, false, false);
    assert!(begins.is_empty());
    assert!(messages(&nodes, 0)
        .contains(&"Unsupported animation begin/end value: 'b.begin'.".to_string()));
}

#[test]
fn begin_entries_are_classified() {
    assert_eq!(parse_begin_entry(" indefinite "), Some(RawBegin::Indefinite));
    assert!(matches!(parse_begin_entry("-1.5s"), Some(RawBegin::Offset(TimeTerm::Clock(c))) if c.negative));
    assert!(matches!(
        parse_begin_entry("my.id.end"),
        Some(RawBegin::SyncBase { ref id, edge: SyncEdge::End, offset: TimeTerm::Zero }) if id == "my.id"
    ));
    assert!(matches!(
        parse_begin_entry("x.begin 2s"),
        None
    ));
    assert!(matches!(
        parse_begin_entry("x.begin.begin+1s"),
        Some(RawBegin::SyncBase { ref id, edge: SyncEdge::Begin, .. }) if id == "x.begin"
    ));
    assert_eq!(parse_begin_entry(".begin"), None);
    assert_eq!(parse_begin_entry("click"), None);
    assert_eq!(parse_begin_entry("  "), None);
}

#[test]
fn clock_values_check_their_numbers() {
    assert_eq!(clock("1e39s"), None);
    assert_eq!(clock("-1:30"), None);
    assert_eq!(clock("1:2:3:4"), None);
    assert_eq!(clock(" 1 : 30 "), Some(90.0));
    assert_eq!(clock("2h"), Some(7200.0));
    assert_eq!(clock(""), None);
}

#[test]
fn absent_end_list_is_empty_and_absent_begin_is_zero() {
    let nodes = [element("a", None, None, true)];
    let (ends, bad) = resolve_timing_list(&nodes, 0, None, false);
    assert!(ends.is_empty() && bad.is_empty());
    let (begins, _) = resolve_timing_list(&nodes, 0, None, true);
    assert_eq!(offsets(&begins, &[0.0]), vec![0.0]);
    let (ends, bad) = resolve_timing_list(&nodes, 0, Some("5s; bad ;indefinite"), false);
    assert_eq!(ends.len(), 2);
    assert_eq!(ends[1], Begin::Indefinite);
    assert_eq!(bad, vec!["bad".to_string()]);
}
