use usvg_animation::shorthand::{expand_animation_shorthand, AnimationLonghands};

fn expand(value: &str) -> AnimationLonghands {
    expand_animation_shorthand(value).expect("valid shorthand")
}

#[test]
fn full_single_animation() {
    let longhands = expand("move 4s steps(4, jump-end) both");
    assert_eq!(longhands.name, "move");
    assert_eq!(longhands.duration, "4s");
    assert_eq!(longhands.timing_function, "steps(4, jump-end)");
    assert_eq!(longhands.fill_mode, "both");
    assert_eq!(longhands.delay, "0s");
    assert_eq!(longhands.iteration_count, "1");
    assert_eq!(longhands.direction, "normal");
    assert_eq!(longhands.play_state, "running");
}

#[test]
fn duration_then_delay() {
    let longhands = expand("move 4s 3s");
    assert_eq!(longhands.duration, "4s");
    assert_eq!(longhands.delay, "3s");
}

#[test]
fn iteration_count_and_direction_and_play_state() {
    let longhands = expand("spin 1s infinite alternate paused");
    assert_eq!(longhands.iteration_count, "infinite");
    assert_eq!(longhands.direction, "alternate");
    assert_eq!(longhands.play_state, "paused");
}

#[test]
fn duration_only_has_no_name() {
    let longhands = expand("4s");
    assert_eq!(longhands.name, "none");
    assert_eq!(longhands.duration, "4s");
}

#[test]
fn multi_animation_lists_are_index_matched() {
    let longhands = expand("spin 1s linear infinite, fade 2s ease-out");
    assert_eq!(longhands.name, "spin, fade");
    assert_eq!(longhands.duration, "1s, 2s");
    assert_eq!(longhands.timing_function, "linear, ease-out");
    assert_eq!(longhands.iteration_count, "infinite, 1");
    assert_eq!(longhands.delay, "0s, 0s");
}

#[test]
fn three_time_values_is_invalid() {
    assert!(expand_animation_shorthand("4s 3s 2s move").is_none());
}

#[test]
fn duplicate_category_is_invalid() {
    assert!(expand_animation_shorthand("move linear ease").is_none());
    assert!(expand_animation_shorthand("a b").is_none());
}

#[test]
fn steps_keeps_inner_comma_and_space() {
    let longhands = expand("4s steps(4, jump-end)");
    assert_eq!(longhands.timing_function, "steps(4, jump-end)");
    assert_eq!(longhands.duration, "4s");
}

#[test]
fn none_becomes_name_then_fill_mode() {
    let single = expand("none");
    assert_eq!(single.name, "none");
    assert_eq!(single.fill_mode, "none");

    let with_name = expand("move none");
    assert_eq!(with_name.name, "move");
    assert_eq!(with_name.fill_mode, "none");
}

#[test]
fn empty_animation_is_invalid() {
    assert!(expand_animation_shorthand("a,").is_none());
}
