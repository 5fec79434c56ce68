use usvg_animation::declarations::KeyframeOffset;
use usvg_animation::keyframes::{extract_keyframes, ExtractWarning};

/// The keyframe position that a selector offset stands for.
fn position(offset: &KeyframeOffset) -> f32 {
    match offset {
        KeyframeOffset::From => 0.0,
        KeyframeOffset::To => 1.0,
        KeyframeOffset::Percent(text) => text.parse::<f32>().unwrap() / 100.0,
    }
}

fn positions(offsets: &[KeyframeOffset]) -> Vec<f32> {
    offsets.iter().map(position).collect()
}

#[test]
fn nested_braces_are_balanced() {
    let (rules, remaining, _) =
        extract_keyframes("@keyframes spin { 0% { fill: red } } .foo { fill: blue }");
    assert_eq!(rules.len(), 1);
    assert_eq!(rules[0].name, "spin");
    assert_eq!(rules[0].keyframes.len(), 1);
    assert_eq!(positions(&rules[0].keyframes[0].offsets), vec![0.0]);
    assert_eq!(
        rules[0].keyframes[0].declarations,
        vec![("fill".to_string(), "red".to_string())]
    );
    assert!(remaining.contains(".foo { fill: blue }"));
    assert!(!remaining.contains("@keyframes"));
}

#[test]
fn closing_brace_inside_string_does_not_close_block() {
    let (rules, remaining, _) = extract_keyframes(
        "@keyframes a { 0% { content: \"}\"; fill: red } 100% { fill: blue } } rect { x: 1 }",
    );
    assert_eq!(rules.len(), 1);
    assert_eq!(rules[0].keyframes.len(), 2);
    assert_eq!(
        rules[0].keyframes[0].declarations,
        vec![
            ("content".to_string(), "\"}\"".to_string()),
            ("fill".to_string(), "red".to_string()),
        ]
    );
    assert_eq!(positions(&rules[0].keyframes[1].offsets), vec![1.0]);
    assert!(remaining.contains("rect { x: 1 }"));
    assert!(!remaining.contains("@keyframes"));
}

#[test]
fn keyframes_inside_comment_is_not_extracted() {
    let input = "/* @keyframes fake { 0% { fill: red } } */ a { fill: green }";
    let (rules, remaining, _) = extract_keyframes(input);
    assert!(rules.is_empty());
    assert_eq!(remaining, input);
}

#[test]
fn multiple_blocks_are_extracted() {
    let (rules, remaining, _) = extract_keyframes(
        "@keyframes a { from { opacity: 0 } } @keyframes b { to { opacity: 1 } } rect { x: 5 }",
    );
    assert_eq!(rules.len(), 2);
    assert_eq!(rules[0].name, "a");
    assert_eq!(positions(&rules[0].keyframes[0].offsets), vec![0.0]);
    assert_eq!(rules[1].name, "b");
    assert_eq!(positions(&rules[1].keyframes[0].offsets), vec![1.0]);
    assert!(remaining.contains("rect { x: 5 }"));
    assert!(!remaining.contains("@keyframes"));
}

#[test]
fn duplicate_names_keep_last() {
    let (rules, _, _) = extract_keyframes(
        "@keyframes a { from { opacity: 0 } } @keyframes a { from { opacity: 1 } }",
    );
    assert_eq!(rules.len(), 1);
    assert_eq!(rules[0].name, "a");
    assert_eq!(
        rules[0].keyframes[0].declarations,
        vec![("opacity".to_string(), "1".to_string())]
    );
}

#[test]
fn unterminated_block_is_skipped() {
    let (rules, remaining, warnings) =
        extract_keyframes("rect { x: 1 } @keyframes a { from { opacity: 0 }");
    assert!(rules.is_empty());
    assert!(remaining.contains("rect { x: 1 }"));
    assert!(!remaining.contains("@keyframes"));
    assert_eq!(warnings, vec![ExtractWarning::UnterminatedKeyframes]);
    assert_eq!(
        warnings[0].message(),
        "Unterminated @keyframes block; skipped."
    );
}

#[test]
fn import_is_dropped() {
    let (rules, remaining, warnings) =
        extract_keyframes("@import url(\"theme.css\"); a { fill: red }");
    assert!(rules.is_empty());
    assert!(!remaining.contains("@import"));
    assert!(remaining.contains("a { fill: red }"));
    assert_eq!(warnings, vec![ExtractWarning::ExternalCss]);
    assert_eq!(warnings[0].message(), "External CSS is not supported.");
}

#[test]
fn selector_forms_and_comma_lists() {
    let (rules, _, _) =
        extract_keyframes("@keyframes a { 0%, 100% { opacity: 1 } 50% { opacity: 0.5 } }");
    assert_eq!(rules.len(), 1);
    assert_eq!(positions(&rules[0].keyframes[0].offsets), vec![0.0, 1.0]);
    assert_eq!(positions(&rules[0].keyframes[1].offsets), vec![0.5]);
}

#[test]
fn timing_function_is_split_out() {
    let (rules, _, _) = extract_keyframes(
        "@keyframes a { from { opacity: 0; animation-timing-function: ease-in } to { opacity: 1 } }",
    );
    let first = &rules[0].keyframes[0];
    assert_eq!(first.timing_function.as_deref(), Some("ease-in"));
    assert_eq!(
        first.declarations,
        vec![("opacity".to_string(), "0".to_string())]
    );
    assert_eq!(rules[0].keyframes[1].timing_function, None);
}

#[test]
fn declaration_split_respects_parens_and_strings() {
    let (rules, _, _) = extract_keyframes(
        "@keyframes a { 50% { transform: translate(1px, 2px); content: \";\" } }",
    );
    assert_eq!(
        rules[0].keyframes[0].declarations,
        vec![
            ("transform".to_string(), "translate(1px, 2px)".to_string()),
            ("content".to_string(), "\";\"".to_string()),
        ]
    );
}

#[test]
fn empty_input_yields_no_rules() {
    let (rules, remaining, _) = extract_keyframes("");
    assert!(rules.is_empty());
    assert_eq!(remaining, "");
}

#[test]
fn plain_css_passes_through_unchanged() {
    let input = "rect { fill: red } .a { stroke: blue }";
    let (rules, remaining, _) = extract_keyframes(input);
    assert!(rules.is_empty());
    assert_eq!(remaining, input);
}

/// Whether `part` is `whole` with some characters left out.
fn is_subsequence(part: &str, whole: &str) -> bool {
    let mut rest = whole.chars();
    part.chars().all(|c| rest.any(|w| w == c))
}

#[test]
fn remaining_sheet_is_a_subsequence_of_the_input() {
    let css = "a { x: 1 } @keyframes k { to { opacity: 1 } } /* @keyframes */ b { y: 2 } @import url(x.css); c { }";
    let (rules, remaining, warnings) = extract_keyframes(css);
    assert_eq!(rules.len(), 1);
    assert_eq!(warnings, vec![ExtractWarning::ExternalCss]);
    assert!(is_subsequence(&remaining, css));
    assert_eq!(remaining, "a { x: 1 }  /* @keyframes */ b { y: 2 }  c { }");
}
