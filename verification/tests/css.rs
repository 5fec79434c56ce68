use usvg_animation::css_plan::{
    check_property, color_track, plan_css_animations, property_entries, resolve_keyframes_name,
    CssWarning, NameMatch, PropertyPlan,
};
use usvg_animation::css_values::{parse_css_path, parse_easing, parse_u32, CssEasing};
use usvg_animation::declarations::{parse_declarations, KeyframeOffset};
use usvg_animation::keyframes::{extract_keyframes, KeyframesRule};
use usvg_animation::kinds::StepPosition;
use usvg_animation::metadata::CssProperty;
use usvg_animation::order::sort_by_keys;
use usvg_animation::paint::{parse_css_color, Color};
use usvg_animation::shorthand::expand_animation_shorthand;

/// Plans the CSS animations of the element that the style's `#box` rule
/// styles, from the style sheet text alone.
fn plan_box(style: &str) -> (Vec<PropertyPlan>, Vec<String>) {
    let (rules, remaining, _) = extract_keyframes(style);
    let open = remaining.find('{').expect("a style rule");
    let close = remaining.rfind('}').expect("a style rule");
    let body: Vec<char> = remaining[open + 1..close].chars().collect();
    let (declarations, _) = parse_declarations(&body);
    let (_, shorthand) = declarations
        .iter()
        .find(|(name, _)| name == "animation")
        .expect("an animation declaration");
    let longhands = expand_animation_shorthand(shorthand).expect("a valid shorthand");
    let (plans, warnings) = plan_css_animations(&longhands.name, &rules, false, false);
    (plans, warnings.iter().map(CssWarning::message).collect())
}

#[test]
fn css_unknown_keyframes_name_warns() {
    let (plans, warnings) = plan_box("#box { animation: missing 4s linear; }");
    assert!(plans.is_empty());
    assert!(warnings.iter().any(|warning| warning == "Unknown keyframes name: 'missing'."));
}

#[test]
fn css_unsupported_property_warns() {
    let (plans, warnings) = plan_box(
        "@keyframes shift { from { color: red; } to { color: blue; } } #box { animation: shift 4s linear; }",
    );
    assert!(plans.is_empty());
    assert!(warnings
        .iter()
        .any(|warning| warning == "Unsupported CSS property in keyframes: 'color'."));
}

#[test]
fn css_variables_are_not_supported_warns() {
    let (plans, warnings) = plan_box(
        "@keyframes shift { from { fill: var(--a); } to { fill: var(--b); } } #box { animation: shift 4s linear; }",
    );
    assert!(plans.is_empty());
    assert!(warnings.iter().any(|warning| warning == "CSS variables are not supported."));
}

#[test]
fn supported_properties_are_planned_per_name() {
    let (rules, _, _) = extract_keyframes(
        "@keyframes a { from { fill: red; opacity: 0 } to { fill: blue; opacity: 1 } } @keyframes b { 50% { --x: 1; stroke: green } }",
    );
    let (plans, warnings) = plan_css_animations("a, none, b, , c", &rules, false, false);
    let summary: Vec<(usize, usize, CssProperty, String)> = plans
        .iter()
        .map(|p| (p.name_index, p.rule, p.property, p.name.clone()))
        .collect();
    assert_eq!(
        summary,
        vec![
            (0, 0, CssProperty::Fill, "fill".to_string()),
            (0, 0, CssProperty::Opacity, "opacity".to_string()),
            (2, 1, CssProperty::Stroke, "stroke".to_string()),
        ]
    );
    let messages: Vec<String> = warnings.iter().map(CssWarning::message).collect();
    assert_eq!(
        messages,
        vec![
            "CSS variables are not supported.".to_string(),
            "Unknown keyframes name: 'c'.".to_string(),
        ]
    );
    assert_eq!(plans[0].entries.len(), 2);
    assert_eq!(plans[0].entries[1].value, "blue");
}

#[test]
fn stop_and_path_properties_depend_on_the_element() {
    let (rules, _, _) =
        extract_keyframes("@keyframes s { to { stop-color: red; d: path('M0 0') } }");
    let rule = &rules[0];
    assert!(matches!(
        check_property(rule, "stop-color", false, false),
        Err(CssWarning::UnsupportedProperty(name)) if name == "stop-color"
    ));
    assert!(matches!(
        check_property(rule, " STOP-COLOR ", true, false),
        Ok((CssProperty::StopColor, _))
    ));
    assert!(matches!(check_property(rule, "d", false, true), Ok((CssProperty::D, _))));
}

#[test]
fn names_are_matched_exactly_and_first_wins() {
    let rules = vec![
        KeyframesRule { name: "Fade".to_string(), keyframes: Vec::new() },
        KeyframesRule { name: "fade".to_string(), keyframes: Vec::new() },
    ];
    assert_eq!(resolve_keyframes_name(" fade ", &rules), NameMatch::Found(1));
    assert_eq!(resolve_keyframes_name("NONE", &rules), NameMatch::Skip);
    assert_eq!(resolve_keyframes_name("  ", &rules), NameMatch::Skip);
    assert_eq!(resolve_keyframes_name("FADE", &rules), NameMatch::Unknown("FADE".to_string()));
}

#[test]
fn entries_follow_selectors_and_first_declaration() {
    let (rules, _, _) = extract_keyframes(
        "@keyframes a { 0%, 50% { fill: red; FILL: green; animation-timing-function: ease-in } 100% { opacity: 1 } to { fill: blue } }",
    );
    let entries = property_entries(&rules[0], "fill");
    let values: Vec<&str> = entries.iter().map(|e| e.value.as_str()).collect();
    assert_eq!(values, vec!["red", "red", "blue"]);
    assert_eq!(entries[1].offset, KeyframeOffset::Percent("50".to_string()));
    assert_eq!(entries[0].timing_function.as_deref(), Some("ease-in"));
    assert_eq!(entries[2].offset, KeyframeOffset::To);
}

#[test]
fn colors_of_a_track_skip_invalid_values() {
    let (rules, _, _) = extract_keyframes(
        "@keyframes a { from { fill: red; animation-timing-function: steps(2) } 50% { fill: nonsense } to { fill: #00f } }",
    );
    let entries = property_entries(&rules[0], "fill");
    let track = color_track(&entries);
    assert_eq!(track.len(), 2);
    assert_eq!(track[0].value, Color { red: 255, green: 0, blue: 0, alpha: 255 });
    assert_eq!(track[0].easing, Some(CssEasing::Steps(2, StepPosition::JumpEnd)));
    assert_eq!(track[1].value, Color { red: 0, green: 0, blue: 255, alpha: 255 });
    assert_eq!(track[1].offset, KeyframeOffset::To);
}

#[test]
fn css_color_reads_named_and_hex_colors() {
    assert_eq!(parse_css_color("green"), Some(Color { red: 0, green: 128, blue: 0, alpha: 255 }));
    assert_eq!(parse_css_color("#0f08"), Some(Color { red: 0, green: 255, blue: 0, alpha: 136 }));
    assert_eq!(parse_css_color("url(#g)"), None);
}

#[test]
fn stable_sort_keeps_equal_keys_in_order() {
    let items = vec!["c", "a1", "b", "a2", "a3"];
    let keys = [3u32, 1, 2, 1, 1];
    assert_eq!(sort_by_keys(items, &keys), vec!["a1", "a2", "a3", "b", "c"]);
    assert_eq!(sort_by_keys(Vec::<u8>::new(), &[]), Vec::<u8>::new());
}

#[test]
fn css_path_reads_the_quoted_path_data() {
    assert_eq!(parse_css_path(" path('M 0 0 L 10 10') "), Some("M 0 0 L 10 10".to_string()));
    assert_eq!(parse_css_path("PATH ( /* c */ \"M0 0\" ) "), Some("M0 0".to_string()));
    assert_eq!(parse_css_path("path(M0 0)"), None);
    assert_eq!(parse_css_path("paths('M0 0')"), None);
    assert_eq!(parse_css_path("path('M0 0') x"), None);
    assert_eq!(parse_css_path("path('M0 0)"), None);
}

#[test]
fn easing_keywords_and_functions() {
    assert_eq!(parse_easing(" EASE-in "), Some(CssEasing::EaseIn));
    assert_eq!(parse_easing("step-start"), Some(CssEasing::Steps(1, StepPosition::JumpStart)));
    assert_eq!(parse_easing("steps(4, jump-both)"), Some(CssEasing::Steps(4, StepPosition::JumpBoth)));
    assert_eq!(parse_easing("steps(+3)"), Some(CssEasing::Steps(3, StepPosition::JumpEnd)));
    assert_eq!(parse_easing("steps(0)"), None);
    assert_eq!(parse_easing("steps(2, end, start)"), None);
    assert_eq!(parse_easing("steps(2, middle)"), None);
    assert_eq!(
        parse_easing("cubic-bezier(0.1, .7, 1.0, 0.1)"),
        Some(CssEasing::CubicBezier(
            "0.1".to_string(),
            ".7".to_string(),
            "1.0".to_string(),
            "0.1".to_string()
        ))
    );
    assert_eq!(parse_easing("cubic-bezier(0.1, 0.7, 1.0)"), None);
    assert_eq!(parse_easing("cubic-bezier(1e39, 0, 0, 0)"), None);
    assert_eq!(parse_easing("wobble"), None);
}

#[test]
fn u32_text_follows_from_str() {
    let digits = |s: &str| s.chars().collect::<Vec<char>>();
    let parse = |s: &str| {
        let v = digits(s);
        parse_u32(&v, 0, v.len())
    };
    assert_eq!(parse("4294967295"), Some(u32::MAX));
    assert_eq!(parse("4294967296"), None);
    assert_eq!(parse("+7"), Some(7));
    assert_eq!(parse("007"), Some(7));
    assert_eq!(parse("-1"), None);
    assert_eq!(parse("+"), None);
    assert_eq!(parse(""), None);
    for s in ["0", "12", "+0", "99999999999", "1a", " 1"] {
        assert_eq!(parse(s), s.parse::<u32>().ok(), "{s}");
    }
}
