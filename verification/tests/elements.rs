use usvg_animation::elements::{
    base_hidden, has_display_or_visibility_animation, has_paint_animation,
    has_remote_text_animation, is_animation, is_gradient_geometry, is_image_geometry,
    is_non_negative_attribute, is_shape_geometry, raw_geometry_values, warn_text_animations,
    can_be_revealed_by_display_animation, geometry_form_texts, plan_geometry, AnimationLink,
    ElementTag, GeometryPlan, suppressed_by_important, verbs_match, plan_geometry_bake,
    GeometryBakePlan,
};
use usvg_animation::smil::{
    accumulate, additive, has_end_entries, parse_calc_mode, parse_fill, parse_restart,
    parse_transform_kind, value_count, value_forms,
};
use usvg_animation::kinds::{Accumulate, Additive, CalcMode, Restart, SmilFill, TransformKind};

#[test]
fn text_animation_warns_without_attachment() {
    // `<text>` holding an `<animate>` child.
    let nested = is_animation(ElementTag::Animate);
    let warning = warn_text_animations(nested, false).expect("a warning");
    assert_eq!(warning.message(), "Animation of text elements is not supported.");
}

#[test]
fn remote_text_animation_warns_without_attachment() {
    // `<animate xlink:href='#text' .../>` whose target does not exist.
    let links = [AnimationLink { target: None, href: Some("#text".to_string()) }];
    let remote = has_remote_text_animation(&links);
    assert!(remote);
    let warning = warn_text_animations(false, remote).expect("a warning");
    assert_eq!(warning.message(), "Animation of text elements is not supported.");
}

#[test]
fn links_to_other_elements_are_not_text() {
    let links = [
        AnimationLink { target: Some(ElementTag::Rect), href: Some("#box".to_string()) },
        AnimationLink { target: None, href: None },
    ];
    assert!(!has_remote_text_animation(&links));
    let links = [AnimationLink { target: Some(ElementTag::Text), href: Some("#t".to_string()) }];
    assert!(has_remote_text_animation(&links));
    assert_eq!(warn_text_animations(false, false), None);
}

#[test]
fn geometry_targets() {
    assert!(is_shape_geometry(ElementTag::Rect, "rx"));
    assert!(is_shape_geometry(ElementTag::Path, "d"));
    assert!(!is_shape_geometry(ElementTag::Image, "x"));
    assert!(!is_shape_geometry(ElementTag::Circle, "fill"));
    assert!(is_image_geometry(ElementTag::Image, "width"));
    assert!(!is_image_geometry(ElementTag::Image, "r"));
    assert!(is_gradient_geometry(ElementTag::RadialGradient, "fr"));
    assert!(!is_gradient_geometry(ElementTag::Rect, "x1"));
    assert!(is_non_negative_attribute("rx"));
    assert!(!is_non_negative_attribute("cx"));
}

#[test]
fn raw_path_values() {
    assert_eq!(
        raw_geometry_values(true, Some("a;b"), None, Some(" M0 0 "), None),
        Some(vec!["M0 0".to_string()])
    );
    assert_eq!(
        raw_geometry_values(false, Some("M0 0; M1 1 ;"), Some("x"), None, None),
        Some(vec!["M0 0".to_string(), "M1 1".to_string()])
    );
    assert_eq!(
        raw_geometry_values(false, None, Some("M0 0"), Some("M1 1"), None),
        Some(vec!["M0 0".to_string(), "M1 1".to_string()])
    );
    assert_eq!(
        raw_geometry_values(false, None, None, Some("M1 1"), Some("M5 5")),
        Some(vec!["M5 5".to_string(), "M1 1".to_string()])
    );
    assert_eq!(raw_geometry_values(false, None, None, Some("M1 1"), None), None);
    assert_eq!(raw_geometry_values(false, None, Some("M0 0"), None, None), None);
}

#[test]
fn display_and_paint_animation_checks() {
    assert!(base_hidden(Some("none")));
    assert!(!base_hidden(Some("inline")));
    assert!(!base_hidden(None));
    assert!(has_display_or_visibility_animation(&[Some("x"), Some("visibility")]));
    assert!(!has_display_or_visibility_animation(&[None, Some("fill")]));
    assert!(has_paint_animation(&[Some("stroke")], &["fill", "stroke"]));
    assert!(!has_paint_animation(&[Some("opacity"), None], &["fill", "stroke"]));
}

#[test]
fn animation_element_attributes() {
    assert_eq!(parse_transform_kind("skewX"), Some(TransformKind::SkewX));
    assert_eq!(parse_transform_kind("skewx"), None);
    assert_eq!(additive(Some("sum")), Additive::Sum);
    assert_eq!(additive(Some(" sum")), Additive::Replace);
    assert_eq!(accumulate(Some("sum")), Accumulate::Sum);
    assert_eq!(accumulate(None), Accumulate::NoAccumulate);
    assert_eq!(parse_restart(Some("whenNotActive")), Restart::WhenNotActive);
    assert_eq!(parse_restart(Some("never")), Restart::Never);
    assert_eq!(parse_restart(None), Restart::Always);
    assert_eq!(parse_fill(Some("freeze")), SmilFill::Freeze);
    assert_eq!(parse_fill(Some("remove")), SmilFill::Remove);
    assert_eq!(parse_calc_mode(Some("spline"), false), CalcMode::Spline);
    assert_eq!(parse_calc_mode(None, true), CalcMode::Paced);
    assert_eq!(parse_calc_mode(Some("bogus"), false), CalcMode::Linear);
}

#[test]
fn value_counts_and_forms() {
    assert_eq!(value_count(Some("1;2; ;3;"), true, false), 3);
    assert_eq!(value_count(None, true, false), 2);
    assert_eq!(value_count(None, false, false), 1);
    assert_eq!(value_count(Some("1;2"), false, true), 1);
    assert!(has_end_entries(Some(" ; 2s")));
    assert!(!has_end_entries(Some(" ; ")));
    assert!(!has_end_entries(None));
    assert_eq!(
        value_forms(true, Some("v"), Some("f"), Some("t"), Some("b")),
        (Some("t"), None, None, None)
    );
    assert_eq!(value_forms(true, Some("v"), None, None, None), (Some("v"), None, None, None));
    assert_eq!(
        value_forms(false, Some("v"), Some("f"), Some("t"), Some("b")),
        (Some("v"), Some("f"), Some("t"), Some("b"))
    );
}

#[test]
fn geometry_plans() {
    assert_eq!(
        plan_geometry("d", false, Additive::Sum, CalcMode::Discrete, false, true, true, 0),
        GeometryPlan { raw_texts: true, sum_over_base: false, additive: Additive::Sum, halfway_pair: false }
    );
    assert_eq!(
        plan_geometry("width", false, Additive::Sum, CalcMode::Linear, false, false, false, 3),
        GeometryPlan { raw_texts: false, sum_over_base: true, additive: Additive::Replace, halfway_pair: false }
    );
    assert_eq!(
        plan_geometry("x", false, Additive::Replace, CalcMode::Discrete, false, true, true, 2),
        GeometryPlan { raw_texts: false, sum_over_base: false, additive: Additive::Replace, halfway_pair: true }
    );
    // A `values` list of another length overrides `from`/`to`.
    assert!(!plan_geometry("x", false, Additive::Replace, CalcMode::Discrete, false, true, true, 3).halfway_pair);
    assert!(!plan_geometry("points", false, Additive::Replace, CalcMode::Discrete, false, true, true, 0).halfway_pair);
    assert!(!plan_geometry("x", true, Additive::Replace, CalcMode::Discrete, false, true, true, 2).halfway_pair);
    assert!(!plan_geometry("x", false, Additive::Replace, CalcMode::Discrete, true, true, true, 2).halfway_pair);
}

#[test]
fn set_geometry_reads_to_or_values() {
    let texts = geometry_form_texts(true, Some("1;2"), Some("0"), Some(" 5 "), None);
    assert_eq!(texts.values, Some(vec!["5".to_string()]));
    assert_eq!(texts.from, None);
    let texts = geometry_form_texts(true, Some("1;2"), None, None, None);
    assert_eq!(texts.values, Some(vec!["1".to_string(), "2".to_string()]));
    let texts = geometry_form_texts(false, None, Some("0"), Some("5"), Some("1"));
    assert_eq!(texts.values, None);
    assert_eq!(texts.from, Some("0".to_string()));
    assert_eq!(texts.to, Some("5".to_string()));
    assert_eq!(texts.by, Some("1".to_string()));
}

#[test]
fn hidden_ancestor_with_display_animation_can_reveal() {
    assert!(can_be_revealed_by_display_animation(&[(false, true), (true, true)]));
    assert!(!can_be_revealed_by_display_animation(&[(true, false), (false, true)]));
    assert!(!can_be_revealed_by_display_animation(&[]));
}

#[test]
fn important_declaration_suppresses_the_animation() {
    let attributes = [("fill", true), ("opacity", false), ("fill", false)];
    assert!(suppressed_by_important(&attributes, "fill"));
    assert!(!suppressed_by_important(&attributes, "opacity"));
    assert!(!suppressed_by_important(&attributes, "stroke"));
    assert!(!suppressed_by_important(&attributes, "Fill"));
    assert!(!suppressed_by_important(&[], "fill"));
}

#[test]
fn verbs_match_compares_with_first() {
    assert!(verbs_match(&[]));
    assert!(verbs_match(&[vec![0, 1, 1, 4]]));
    assert!(verbs_match(&[vec![0, 1], vec![0, 1], vec![0, 1]]));
    assert!(!verbs_match(&[vec![0, 1], vec![0, 1, 1]]));
    assert!(!verbs_match(&[vec![0, 1], vec![0, 1], vec![0, 2]]));
}

#[test]
fn geometry_bake_without_keyframes_bakes_nothing() {
    assert_eq!(plan_geometry_bake(false, &[], CalcMode::Linear, Accumulate::Sum), None);
}

#[test]
fn geometry_bake_verb_mismatch_forces_discrete() {
    // `d` keyframes "M0 0 L10 10" and "M0 0 L10 10 L20 0".
    let plan = plan_geometry_bake(true, &[vec![0, 1], vec![0, 1, 1]], CalcMode::Linear, Accumulate::NoAccumulate);
    assert_eq!(
        plan,
        Some(GeometryBakePlan {
            calc_mode: CalcMode::Discrete,
            not_interpolable: true,
            replaces_geometry: true,
            accumulate_ignored: false,
            bakes_delta: false,
        })
    );
}

#[test]
fn geometry_bake_scalar_sum_bakes_delta() {
    let plan = plan_geometry_bake(false, &[vec![0, 1, 1, 1, 4], vec![0, 1, 1, 1, 4]], CalcMode::Linear, Accumulate::Sum);
    assert_eq!(
        plan,
        Some(GeometryBakePlan {
            calc_mode: CalcMode::Linear,
            not_interpolable: false,
            replaces_geometry: false,
            accumulate_ignored: false,
            bakes_delta: true,
        })
    );
    // One keyframe gives no offset.
    assert!(!plan_geometry_bake(false, &[vec![0, 1]], CalcMode::Linear, Accumulate::Sum).unwrap().bakes_delta);
}

#[test]
fn geometry_bake_accumulate_on_d_is_ignored() {
    let plan = plan_geometry_bake(true, &[vec![0, 1], vec![0, 1]], CalcMode::Linear, Accumulate::Sum).unwrap();
    assert!(plan.accumulate_ignored);
    assert!(!plan.bakes_delta);
    assert_eq!(plan.calc_mode, CalcMode::Linear);
}
