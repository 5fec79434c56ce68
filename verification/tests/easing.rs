use usvg_animation::easing::{parse_key_times, plan_easing, Spline};
use usvg_animation::kinds::CalcMode;
use usvg_animation::smil::parse_calc_mode;

/// Whether the key times, read as `f32`, never decrease.
fn ordered(key_times: Option<&str>) -> bool {
    match key_times.and_then(parse_key_times) {
        Some(texts) => {
            let values: Vec<f32> = texts.iter().map(|t| t.trim().parse::<f32>().unwrap()).collect();
            values.windows(2).all(|w| w[0] <= w[1])
        }
        None => true,
    }
}

type Planned = Result<(Option<Vec<String>>, Option<Vec<Spline>>), String>;

fn easing_of(calc_mode: &str, key_times: Option<&str>, key_splines: Option<&str>, values_count: usize) -> (CalcMode, Planned) {
    let mode = parse_calc_mode(Some(calc_mode), false);
    (mode, plan_easing(mode, key_times, key_splines, values_count, ordered(key_times)))
}

fn linear_key_times_valid() {
    let (mode, easing) = easing_of("linear", Some("0;0.5;1"), None, 3);
    assert_eq!(mode, CalcMode::Linear);
    assert_eq!(easing.unwrap().0.unwrap().len(), 3);
}

fn key_times_first_not_zero_rejected() {
    let (_, easing) = easing_of("linear", Some("0.1;1"), None, 2);
    assert_eq!(easing, Err("Invalid animation timing: '0.1;1'.".to_string()));
}

fn key_times_last_not_one_rejected_for_linear() {
    assert!(easing_of("linear", Some("0;0.5"), None, 2).1.is_err());
}

fn key_times_count_mismatch_rejected() {
    assert!(easing_of("linear", Some("0;1"), None, 3).1.is_err());
}

fn key_times_non_monotonic_rejected() {
    assert!(easing_of("linear", Some("0;0.8;0.5;1"), None, 4).1.is_err());
}

fn spline_valid() {
    let (mode, easing) = easing_of("spline", Some("0;1"), Some("0 0 1 1"), 2);
    assert_eq!(mode, CalcMode::Spline);
    assert_eq!(easing.unwrap().1.unwrap().len(), 1);
}

fn spline_out_of_range_rejected() {
    let (_, easing) = easing_of("spline", Some("0;1"), Some("1.2 0 0 1"), 2);
    assert_eq!(easing, Err("Invalid animation timing: '1.2 0 0 1'.".to_string()));
}

fn spline_count_mismatch_rejected() {
    assert!(easing_of("spline", Some("0;0.5;1"), Some("0 0 1 1"), 3).1.is_err());
}

fn spline_missing_splines_rejected() {
    assert!(easing_of("spline", Some("0;1"), None, 2).1.is_err());
}

fn discrete_waives_last_one() {
    let (mode, easing) = easing_of("discrete", Some("0;0.5"), None, 2);
    assert_eq!(mode, CalcMode::Discrete);
    assert_eq!(easing.unwrap().0.unwrap().len(), 2);
}

fn discrete_first_not_zero_rejected() {
    assert!(easing_of("discrete", Some("0.2;0.5"), None, 2).1.is_err());
}

fn paced_ignores_key_times_and_splines() {
    let (mode, easing) = easing_of("paced", Some("bogus"), Some("bogus"), 2);
    assert_eq!(mode, CalcMode::Paced);
    assert_eq!(easing, Ok((None, None)));
}

#[test]
fn timing_easing_linear_key_times_valid() {
    linear_key_times_valid();
}

#[test]
fn mod_easing_linear_key_times_valid() {
    linear_key_times_valid();
}

#[test]
fn timing_easing_key_times_first_not_zero_rejected() {
    key_times_first_not_zero_rejected();
}

#[test]
fn mod_easing_key_times_first_not_zero_rejected() {
    key_times_first_not_zero_rejected();
}

#[test]
fn timing_easing_key_times_last_not_one_rejected_for_linear() {
    key_times_last_not_one_rejected_for_linear();
}

#[test]
fn mod_easing_key_times_last_not_one_rejected_for_linear() {
    key_times_last_not_one_rejected_for_linear();
}

#[test]
fn timing_easing_key_times_count_mismatch_rejected() {
    key_times_count_mismatch_rejected();
}

#[test]
fn mod_easing_key_times_count_mismatch_rejected() {
    key_times_count_mismatch_rejected();
}

#[test]
fn timing_easing_key_times_non_monotonic_rejected() {
    key_times_non_monotonic_rejected();
}

#[test]
fn mod_easing_key_times_non_monotonic_rejected() {
    key_times_non_monotonic_rejected();
}

#[test]
fn timing_easing_spline_valid() {
    spline_valid();
}

#[test]
fn mod_easing_spline_valid() {
    spline_valid();
}

#[test]
fn timing_easing_spline_out_of_range_rejected() {
    spline_out_of_range_rejected();
}

#[test]
fn mod_easing_spline_out_of_range_rejected() {
    spline_out_of_range_rejected();
}

#[test]
fn timing_easing_spline_count_mismatch_rejected() {
    spline_count_mismatch_rejected();
}

#[test]
fn mod_easing_spline_count_mismatch_rejected() {
    spline_count_mismatch_rejected();
}

#[test]
fn timing_easing_spline_missing_splines_rejected() {
    spline_missing_splines_rejected();
}

#[test]
fn mod_easing_spline_missing_splines_rejected() {
    spline_missing_splines_rejected();
}

#[test]
fn timing_easing_discrete_waives_last_one() {
    discrete_waives_last_one();
}

#[test]
fn mod_easing_discrete_waives_last_one() {
    discrete_waives_last_one();
}

#[test]
fn timing_easing_discrete_first_not_zero_rejected() {
    discrete_first_not_zero_rejected();
}

#[test]
fn mod_easing_discrete_first_not_zero_rejected() {
    discrete_first_not_zero_rejected();
}

#[test]
fn timing_easing_paced_ignores_key_times_and_splines() {
    paced_ignores_key_times_and_splines();
}

#[test]
fn mod_easing_paced_ignores_key_times_and_splines() {
    paced_ignores_key_times_and_splines();
}

#[test]
fn key_times_rounding_to_the_bounds_count() {
    // Within half an `f32` step of 0 and 1, the key times read as exactly 0 and 1.
    let (_, easing) = easing_of("linear", Some("1e-46;0.99999998"), None, 2);
    assert!(easing.is_ok());
    let (_, easing) = easing_of("linear", Some("0;0.9999999"), None, 2);
    assert!(easing.is_err());
}

#[test]
fn splines_without_key_times_follow_the_values() {
    let (_, easing) = easing_of("spline", None, Some("0 0 1 1; 0 0 1 1"), 3);
    assert_eq!(easing.unwrap().1.unwrap().len(), 2);
    let (_, easing) = easing_of("spline", None, Some("0 0 1 1"), 3);
    assert_eq!(easing, Err("Invalid animation timing: '0 0 1 1'.".to_string()));
    let (_, easing) = easing_of("spline", None, None, 2);
    assert_eq!(easing, Err("Invalid animation timing: ''.".to_string()));
}
