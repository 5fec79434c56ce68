use std::cell::Cell;

use usvg_animation::forms::{
    read_forms, build_forms, form_texts, uniform_offsets, value_items, FormRules, FormTexts, FormValue,
    FormsError, KeyOffset, Keyframe, ParsedForms,
};
use usvg_animation::kinds::{Accumulate, Additive, AnimationVisibility, CalcMode};
use usvg_animation::paint::Color;
use usvg_animation::smil_values::{
    build_list_track, build_track, form_rules, parse_plain_values, smil_attribute, PlainValue, SmilAttribute,
    SmilValues, ValueKind,
};
use usvg_animation::warnings::{warn_last_additive_geometry, ValueWarning};

const REPLACE: Additive = Additive::Replace;
const NONE: Accumulate = Accumulate::NoAccumulate;
const LINEAR: CalcMode = CalcMode::Linear;

fn rgb(red: u8, green: u8, blue: u8) -> Color {
    Color { red, green, blue, alpha: 255 }
}

fn plain(
    name: &str,
    values: Option<&str>,
    from: Option<&str>,
    to: Option<&str>,
    by: Option<&str>,
    base: Option<PlainValue>,
) -> (Option<SmilValues<f32, PlainValue>>, Vec<ValueWarning>) {
    let kind = match smil_attribute(name) {
        SmilAttribute::Value(kind) => kind,
        other => panic!("expected a value attribute, got {other:?}"),
    };
    let mut warnings = Vec::new();
    let result = parse_plain_values(
        kind, values, from, to, by, REPLACE, NONE, LINEAR, None, base, &mut warnings,
    );
    (result, warnings)
}

fn value(keyframe: &Keyframe<f32, PlainValue>) -> PlainValue {
    match &keyframe.value {
        FormValue::Parsed(v) => *v,
        other => panic!("expected a parsed value, got {other:?}"),
    }
}

fn offset(keyframe: &Keyframe<f32, impl Clone>) -> f32 {
    match keyframe.offset {
        KeyOffset::KeyTime(t) => t,
        KeyOffset::Fraction(n, d) => n as f32 / d as f32,
    }
}

/// Parses the forms of a numeric attribute as numbers, stopping at the first
/// form that fails.
fn numeric_forms(texts: &FormTexts) -> ParsedForms<f32> {
    read_forms(texts, &|s: &String| s.parse::<f32>().ok())
}

/// The numbers of a numeric track, with each `by` delta added to the start.
fn numbers(keyframes: &[Keyframe<f32, f32>]) -> Vec<f32> {
    let start = match &keyframes[0].value {
        FormValue::Parsed(v) => *v,
        FormValue::Zero => 0.0,
        FormValue::AddedToStart(d) => *d,
    };
    keyframes
        .iter()
        .map(|k| match &k.value {
            FormValue::Parsed(v) => *v,
            FormValue::Zero => 0.0,
            FormValue::AddedToStart(d) => start + d,
        })
        .collect()
}

fn numeric(
    name: &str,
    values: Option<&str>,
    from: Option<&str>,
    to: Option<&str>,
    by: Option<&str>,
    additive: Additive,
    calc_mode: CalcMode,
    base: Option<f32>,
) -> Option<SmilValues<f32, f32>> {
    let kind = match smil_attribute(name) {
        SmilAttribute::Value(kind) => kind,
        other => panic!("expected a value attribute, got {other:?}"),
    };
    let texts = form_texts(values, from, to, by);
    let forms = numeric_forms(&texts);
    let mut warnings = Vec::new();
    build_track(kind, forms, &texts, None::<&[f32]>, additive, NONE, calc_mode, base, &mut warnings)
}

#[test]
fn additive_geometry_warning_literal() {
    // Exercises the cross-animation helper owned by this module.
    let warning = warn_last_additive_geometry();
    assert_eq!(warning.message(), "Only the last additive geometry animation is used.");
}

#[test]
fn mod_opacity_values_list() {
    let result = numeric("opacity", Some("0;0.5;1"), None, None, None, REPLACE, LINEAR, None)
        .unwrap();
    assert_eq!(result.keyframes.len(), 3);
    assert_eq!(numbers(&result.keyframes), vec![0.0, 0.5, 1.0]);
    let offsets: Vec<f32> = result.keyframes.iter().map(offset).collect();
    assert_eq!(offsets, vec![0.0, 0.5, 1.0]);
}

#[test]
fn mod_fill_from_to() {
    let (result, warnings) = plain("fill", None, Some("red"), Some("blue"), None, None);
    let result = result.unwrap();
    assert_eq!(result.keyframes.len(), 2);
    assert_eq!(value(&result.keyframes[0]), PlainValue::Color(rgb(255, 0, 0)));
    assert_eq!(value(&result.keyframes[1]), PlainValue::Color(rgb(0, 0, 255)));
    assert!(warnings.is_empty());
}

#[test]
fn mod_url_paint_is_dropped() {
    let (result, warnings) = plain("fill", None, None, Some("url(#g)"), None, None);
    assert!(result.is_none());
    assert_eq!(warnings.len(), 1);
    assert_eq!(warnings[0].message(), "Unsupported paint value: 'url(#g)'.");
}

#[test]
fn mod_dasharray_length_mismatch_is_discrete() {
    let texts = form_texts(Some("1 2;3 4 5"), None, None, None);
    let forms = ParsedForms::<Vec<f32>> {
        values: texts.values.as_ref().map(|items| {
            items
                .iter()
                .map(|s| s.split(' ').map(|n| n.parse::<f32>().ok()).collect::<Option<Vec<f32>>>())
                .collect()
        }),
        from: None,
        to: None,
        by: None,
    };
    let mut warnings = Vec::new();
    let result = build_list_track(
        ValueKind::StrokeDasharray,
        forms,
        &texts,
        None::<&[f32]>,
        REPLACE,
        NONE,
        LINEAR,
        None,
        &mut warnings,
    )
    .unwrap();
    assert_eq!(result.keyframes.len(), 2);
    assert_eq!(result.calc_mode, CalcMode::Discrete);
    assert_eq!(warnings.len(), 1);
    assert_eq!(
        warnings[0].message(),
        "Animation values are not interpolable; using discrete interpolation."
    );
}

#[test]
fn dasharray_lists_of_one_length_keep_their_calc_mode() {
    let texts = form_texts(Some("1 2;3 4"), None, None, None);
    let forms = ParsedForms::<Vec<f32>> {
        values: texts.values.as_ref().map(|items| {
            items
                .iter()
                .map(|s| s.split(' ').map(|n| n.parse::<f32>().ok()).collect::<Option<Vec<f32>>>())
                .collect()
        }),
        from: None,
        to: None,
        by: None,
    };
    let mut warnings = Vec::new();
    let result = build_list_track(
        ValueKind::StrokeDasharray,
        forms,
        &texts,
        None::<&[f32]>,
        REPLACE,
        NONE,
        LINEAR,
        None,
        &mut warnings,
    )
    .unwrap();
    assert_eq!(result.calc_mode, CalcMode::Linear);
    assert!(warnings.is_empty());
}

#[test]
fn mod_to_only_uses_base() {
    let result =
        numeric("stroke-width", None, None, Some("20"), None, REPLACE, LINEAR, Some(10.0)).unwrap();
    assert_eq!(result.keyframes.len(), 2);
    assert_eq!(numbers(&result.keyframes), vec![10.0, 20.0]);
    assert_eq!(result.additive, Additive::Replace);
}

#[test]
fn mod_from_by_bakes_delta() {
    // Input additive is `Sum`, but `from`/`by` forces `Replace`.
    let result =
        numeric("stroke-width", None, Some("10"), None, Some("5"), Additive::Sum, LINEAR, None)
            .unwrap();
    assert_eq!(numbers(&result.keyframes), vec![10.0, 15.0]);
    assert_eq!(result.additive, Additive::Replace);
}

#[test]
fn mod_bare_by_non_geometry_is_sum() {
    // Input additive is `Replace`, but a bare `by` forces `Sum`.
    let result =
        numeric("stroke-width", None, None, None, Some("5"), REPLACE, LINEAR, None).unwrap();
    assert_eq!(numbers(&result.keyframes), vec![0.0, 5.0]);
    assert_eq!(result.additive, Additive::Sum);
}

#[test]
fn mod_bare_by_geometry_bakes_base() {
    let result =
        numeric("cx", None, None, None, Some("50"), REPLACE, LINEAR, Some(100.0)).unwrap();
    assert_eq!(numbers(&result.keyframes), vec![100.0, 150.0]);
    assert_eq!(result.additive, Additive::Replace);
}

#[test]
fn mod_invalid_value_is_dropped() {
    let (result, warnings) = plain("fill", Some("red;notacolor;blue"), None, None, None, None);
    let result = result.unwrap();
    assert_eq!(result.keyframes.len(), 2);
    assert_eq!(value(&result.keyframes[0]), PlainValue::Color(rgb(255, 0, 0)));
    assert_eq!(value(&result.keyframes[1]), PlainValue::Color(rgb(0, 0, 255)));
    assert_eq!(warnings.len(), 1);
    assert_eq!(warnings[0].message(), "Invalid animation value: 'notacolor'.");
}

#[test]
fn inherited_visibility_values_stay_visible() {
    let (result, _) = plain(
        "visibility",
        Some("inherit;hidden;inherit"),
        None,
        None,
        None,
        Some(PlainValue::Visibility(AnimationVisibility::Visible)),
    );
    let result = result.unwrap();
    assert_eq!(result.keyframes.len(), 3);
    assert_eq!(value(&result.keyframes[0]), PlainValue::Visibility(AnimationVisibility::Visible));
    assert_eq!(value(&result.keyframes[1]), PlainValue::Visibility(AnimationVisibility::Hidden));
    assert_eq!(value(&result.keyframes[2]), PlainValue::Visibility(AnimationVisibility::Visible));
}

#[test]
fn inherited_display_values_stay_shown() {
    let (result, _) = plain(
        "display",
        Some("inherit;none;inherit"),
        None,
        None,
        None,
        Some(PlainValue::Display(true)),
    );
    let result = result.unwrap();
    assert_eq!(result.keyframes.len(), 3);
    assert_eq!(value(&result.keyframes[0]), PlainValue::Display(true));
    assert_eq!(value(&result.keyframes[1]), PlainValue::Display(false));
    assert_eq!(value(&result.keyframes[2]), PlainValue::Display(true));
}

#[test]
fn inherited_visibility_value_keeps_hidden_base() {
    let (result, _) = plain(
        "visibility",
        Some("inherit"),
        None,
        None,
        None,
        Some(PlainValue::Visibility(AnimationVisibility::Hidden)),
    );
    let result = result.unwrap();
    assert_eq!(value(&result.keyframes[0]), PlainValue::Visibility(AnimationVisibility::Hidden));
}

#[test]
fn inherited_display_value_keeps_hidden_base() {
    let (result, _) =
        plain("display", Some("inherit"), None, None, None, Some(PlainValue::Display(false)));
    let result = result.unwrap();
    assert_eq!(value(&result.keyframes[0]), PlainValue::Display(false));
}

#[test]
fn discrete_display_from_to_switches_halfway() {
    let (result, _) =
        plain("display", None, Some("none"), Some("inline"), None, Some(PlainValue::Display(false)));
    let result = result.unwrap();
    assert_eq!(offset(&result.keyframes[1]), 0.5);
    assert_eq!(result.calc_mode, CalcMode::Discrete);
}

#[test]
fn mod_unsupported_attribute_is_none() {
    assert_eq!(smil_attribute("font-size"), SmilAttribute::Unsupported);
    let warning = usvg_animation::warnings::warn_unsupported_attribute("font-size");
    assert_eq!(warning.message(), "Unsupported animation attribute: 'font-size'.");
}

#[test]
fn mod_set_single_value_is_discrete() {
    // `<set>` is modeled as a single-item `values` list with a discrete mode.
    let result = numeric(
        "opacity",
        Some("0.5"),
        None,
        None,
        None,
        REPLACE,
        CalcMode::Discrete,
        None,
    )
    .unwrap();
    assert_eq!(result.keyframes.len(), 1);
    assert_eq!(numbers(&result.keyframes), vec![0.5]);
    assert_eq!(offset(&result.keyframes[0]), 0.0);
    assert_eq!(result.calc_mode, CalcMode::Discrete);
}

#[test]
fn transform_attributes_are_routed_elsewhere() {
    assert_eq!(smil_attribute("transform"), SmilAttribute::Transform);
    assert_eq!(smil_attribute("gradientTransform"), SmilAttribute::Transform);
    assert_eq!(smil_attribute("r"), SmilAttribute::Value(ValueKind::Geometry));
    assert_eq!(smil_attribute("viewBox"), SmilAttribute::Value(ValueKind::ViewBox));
}

#[test]
fn keyword_values_step_and_drop_accumulation() {
    let mut warnings = Vec::new();
    let result = parse_plain_values::<f32>(
        ValueKind::StrokeLinecap,
        Some("butt;round;square;bogus"),
        None,
        None,
        None,
        REPLACE,
        Accumulate::Sum,
        LINEAR,
        None,
        None,
        &mut warnings,
    )
    .unwrap();
    assert_eq!(result.keyframes.len(), 3);
    assert_eq!(result.calc_mode, CalcMode::Discrete);
    assert_eq!(result.accumulate, Accumulate::NoAccumulate);
    let messages: Vec<String> = warnings.iter().map(|w| w.message()).collect();
    assert_eq!(
        messages,
        vec![
            "Invalid animation value: 'bogus'.".to_string(),
            "Unsupported accumulate value; ignoring.".to_string(),
        ]
    );
    // The offsets are spread over the four entries, including the invalid one.
    let offsets: Vec<f32> = result.keyframes.iter().map(offset).collect();
    assert_eq!(offsets, vec![0.0, 1.0 / 3.0, 2.0 / 3.0]);
}

#[test]
fn by_on_a_color_is_reported() {
    let (result, warnings) = plain("fill", None, Some("red"), None, Some(" blue "), None);
    assert!(result.is_none());
    let messages: Vec<String> = warnings.iter().map(|w| w.message()).collect();
    assert_eq!(messages, vec!["Invalid animation value: 'blue'.".to_string()]);
}

#[test]
fn failed_from_stops_reading_the_other_forms() {
    let (result, warnings) = plain("fill", None, Some("nope"), Some("alsonope"), None, None);
    assert!(result.is_none());
    assert_eq!(warnings.len(), 1);
    assert_eq!(warnings[0].message(), "Invalid animation value: 'nope'.");
}

#[test]
fn key_times_replace_even_spacing_when_counts_match() {
    let times = [0.0f32, 0.9, 1.0];
    let offsets = uniform_offsets(3, Some(&times[..]));
    assert!(matches!(offsets[1], KeyOffset::KeyTime(t) if t == 0.9));
    let offsets = uniform_offsets(4, Some(&times[..]));
    assert!(matches!(offsets[1], KeyOffset::Fraction(1, 3)));
    let offsets = uniform_offsets::<f32>(1, None);
    assert!(matches!(offsets[..], [KeyOffset::Fraction(0, 1)]));
}

#[test]
fn values_list_entries_are_trimmed_and_blanks_dropped() {
    assert_eq!(value_items(" a ; ;b;"), vec!["a".to_string(), "b".to_string()]);
    assert_eq!(value_items(""), Vec::<String>::new());
}

#[test]
fn rules_of_value_kinds() {
    let r = form_rules(ValueKind::Fill);
    assert!(!r.supports_delta);
    let r = form_rules(ValueKind::Geometry);
    assert!(r.is_geometry && r.supports_delta && r.has_zero);
    let r = form_rules(ValueKind::ViewBox);
    assert!(r.is_geometry && !r.has_zero);
}

#[test]
fn conflicting_forms_give_no_track() {
    let forms = ParsedForms::<f32> { values: None, from: None, to: Some(Some(1.0)), by: Some(Some(2.0)) };
    let rules = FormRules { is_geometry: false, supports_delta: true, has_zero: true };
    let r = build_forms::<f32, f32>(forms, None, REPLACE, rules, None);
    assert!(matches!(r, Err(FormsError::NoTrack)));
    let forms = ParsedForms::<f32> { values: None, from: None, to: Some(Some(1.0)), by: None };
    let r = build_forms::<f32, f32>(forms, None, REPLACE, rules, None);
    assert!(matches!(r, Err(FormsError::NoTrack)));
}

#[test]
fn reading_stops_at_the_first_failed_form() {
    let calls = Cell::new(0);
    let parse = |s: &String| {
        calls.set(calls.get() + 1);
        s.parse::<f32>().ok()
    };
    let texts = form_texts(None, Some("x"), Some("1"), Some("2"));
    let forms = read_forms(&texts, &parse);
    assert_eq!(calls.get(), 1);
    assert_eq!(forms.from, Some(None));
    assert_eq!(forms.to, Some(None));
    assert_eq!(forms.by, Some(None));

    calls.set(0);
    let texts = form_texts(None, Some("0"), Some("y"), Some("2"));
    let forms = read_forms(&texts, &parse);
    assert_eq!(calls.get(), 2);
    assert_eq!(forms.from, Some(Some(0.0)));
    assert_eq!(forms.to, Some(None));
    assert_eq!(forms.by, Some(None));

    calls.set(0);
    let texts = form_texts(Some("1; x; 3"), Some("0"), None, None);
    let forms = read_forms(&texts, &parse);
    assert_eq!(calls.get(), 3);
    assert_eq!(forms.values, Some(vec![Some(1.0), None, Some(3.0)]));
    assert_eq!(forms.from, None);
}
