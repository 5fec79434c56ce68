use usvg_animation::easing::{parse_key_splines as parse_timing_splines, parse_key_times, splines_in_range, Spline};
use usvg_animation::kinds::CalcMode;
use usvg_animation::motion::{
    motion_key_points, motion_path, parse_key_points, parse_key_splines, parse_key_times as parse_motion_key_times,
    parse_rotate, MotionRotate, MotionWarning,
};
use usvg_animation::smil::parse_calc_mode;

fn texts(items: &[&str]) -> Vec<String> {
    items.iter().map(|s| s.to_string()).collect()
}

fn spline(x1: &str, y1: &str, x2: &str, y2: &str) -> Spline {
    Spline { x1: x1.to_string(), y1: y1.to_string(), x2: x2.to_string(), y2: y2.to_string() }
}

#[test]
fn path_form_with_key_points() {
    assert_eq!(motion_path(false, Some("M0 0 L10 10")), Ok("M0 0 L10 10"));
    let key_times = parse_motion_key_times(Some("0;1"));
    assert_eq!(key_times, Some(texts(&["0", "1"])));
    let points = motion_key_points(Some("0;1"), &key_times).unwrap().unwrap();
    assert_eq!(points.len(), 2);
}

#[test]
fn mpath_child_is_unsupported() {
    assert_eq!(motion_path(false, None), Err(MotionWarning::UnsupportedForm));
}

#[test]
fn values_form_is_unsupported() {
    assert_eq!(motion_path(true, None), Err(MotionWarning::UnsupportedForm));
}

#[test]
fn from_to_form_is_unsupported() {
    assert_eq!(motion_path(true, Some("M0 0 L10 10")), Err(MotionWarning::UnsupportedForm));
}

#[test]
fn key_points_count_mismatch_is_invalid() {
    let key_times = parse_motion_key_times(Some("0;1"));
    assert_eq!(motion_key_points(Some("0;0.5;1"), &key_times), Err(MotionWarning::InvalidPath));
}

#[test]
fn rotate_auto() {
    assert_eq!(parse_rotate(Some("auto")), MotionRotate::Auto);
    assert_eq!(parse_rotate(Some("auto-reverse")), MotionRotate::AutoReverse);
}

#[test]
fn rotate_angle() {
    assert_eq!(parse_rotate(Some("90")), MotionRotate::Angle("90".to_string()));
    assert_eq!(parse_rotate(Some(" -45.5 ")), MotionRotate::Angle("-45.5".to_string()));
    assert_eq!(parse_rotate(Some("sideways")), MotionRotate::Angle("0".to_string()));
    assert_eq!(parse_rotate(None), MotionRotate::Angle("0".to_string()));
    assert_eq!(parse_rotate(Some(" auto")), MotionRotate::Angle("0".to_string()));
    assert_eq!(parse_rotate(Some("inf")), MotionRotate::Angle("inf".to_string()));
}

#[test]
fn default_calc_mode_is_paced() {
    assert_eq!(parse_calc_mode(None, true), CalcMode::Paced);
    assert_eq!(parse_calc_mode(Some("bogus"), true), CalcMode::Paced);
}

#[test]
fn spline_calc_mode_parses_key_splines() {
    assert_eq!(parse_calc_mode(Some("spline"), true), CalcMode::Spline);
    let splines = parse_key_splines(Some("0 0 1 1")).unwrap();
    assert_eq!(splines.len(), 1);
    assert_eq!(splines[0], spline("0", "0", "1", "1"));
}

#[test]
fn key_points_must_lie_in_the_unit_interval() {
    assert_eq!(parse_key_points(None), Ok(None));
    assert_eq!(parse_key_points(Some(" 0 ; 0.25;;1 ")), Ok(Some(texts(&["0", "0.25", "1"]))));
    assert_eq!(parse_key_points(Some("0;1.5")), Err(()));
    assert_eq!(parse_key_points(Some("-0.5;1")), Err(()));
    assert_eq!(parse_key_points(Some("-0;1")), Ok(Some(texts(&["-0", "1"]))));
    assert_eq!(parse_key_points(Some(" ; ")), Err(()));
    assert_eq!(parse_key_points(Some("0;x")), Err(()));
    assert_eq!(parse_key_points(Some("nan")), Err(()));
    // 1 + 2^-24 still rounds to 1.0; the next decimal above does not.
    assert_eq!(
        parse_key_points(Some("1.000000059604644775390625")),
        Ok(Some(texts(&["1.000000059604644775390625"])))
    );
    assert_eq!(parse_key_points(Some("1.0000000596046447753906251")), Err(()));
}

#[test]
fn motion_key_points_without_key_times_must_be_absent() {
    assert_eq!(motion_key_points(None, &None), Ok(None));
    assert_eq!(motion_key_points(Some("0;1"), &None), Err(MotionWarning::InvalidPath));
    assert_eq!(motion_key_points(Some("0;2"), &Some(texts(&["0", "1"]))), Err(MotionWarning::InvalidPath));
}

#[test]
fn motion_key_times_ignore_malformed_lists() {
    assert_eq!(parse_motion_key_times(None), None);
    assert_eq!(parse_motion_key_times(Some("0;2")), None);
    assert_eq!(parse_motion_key_times(Some("")), None);
}

#[test]
fn motion_splines_accept_any_float_text() {
    assert_eq!(parse_key_splines(Some("0,0,1,inf")), Some(vec![spline("0", "0", "1", "inf")]));
    assert_eq!(parse_key_splines(Some("0 0 1")), None);
    assert_eq!(parse_key_splines(Some("0 0 1 1 1")), None);
    assert_eq!(parse_key_splines(None), None);
}

#[test]
fn warning_messages() {
    assert_eq!(MotionWarning::UnsupportedForm.message(), "Unsupported animateMotion form.");
    assert_eq!(MotionWarning::InvalidPath.message(), "Invalid animateMotion path.");
}

#[test]
fn timing_key_times_read_finite_numbers() {
    assert_eq!(parse_key_times("0; 0.5 ;1"), Some(texts(&["0", "0.5", "1"])));
    assert_eq!(parse_key_times("0;1e40"), None);
    assert_eq!(parse_key_times("0;x"), None);
    assert_eq!(parse_key_times(";;"), None);
    assert_eq!(parse_key_times("0.1;1.5"), Some(texts(&["0.1", "1.5"])));
}

#[test]
fn timing_splines_are_groups_of_four_finite_numbers() {
    assert_eq!(
        parse_timing_splines("0 0 1 1; .5,0\t.5 1"),
        Some(vec![spline("0", "0", "1", "1"), spline(".5", "0", ".5", "1")])
    );
    assert_eq!(parse_timing_splines("0 0 1 inf"), None);
    assert_eq!(parse_timing_splines(""), None);
    let out_of_range = parse_timing_splines("1.2 0 0 1").unwrap();
    assert!(!splines_in_range(&out_of_range));
    let in_range = parse_timing_splines("0.42 0 0.58 1").unwrap();
    assert!(splines_in_range(&in_range));
}
