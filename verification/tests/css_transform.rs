use usvg_animation::css_transform::{
    is_user_unit, parse_angle, parse_transform_function, parse_transform_functions,
    transform_panics, AngleUnit, CssAngle, CssTransform, LengthUnit,
};

fn angle(unit: AngleUnit, number: &str) -> CssAngle {
    CssAngle { unit, number: number.to_string() }
}

fn text(s: &str) -> String {
    s.to_string()
}

#[test]
fn angles_carry_their_unit() {
    assert_eq!(parse_angle("45deg"), Some(angle(AngleUnit::Degrees, "45")));
    assert_eq!(parse_angle(" 100GRAD "), Some(angle(AngleUnit::Gradians, "100")));
    assert_eq!(parse_angle("1.5rad"), Some(angle(AngleUnit::Radians, "1.5")));
    assert_eq!(parse_angle("0.25turn"), Some(angle(AngleUnit::Turns, "0.25")));
    assert_eq!(parse_angle("-30"), Some(angle(AngleUnit::Unitless, "-30")));
    assert_eq!(parse_angle("deg"), None);
    assert_eq!(parse_angle("1e40deg"), None);
    assert_eq!(parse_angle("45px"), None);
}

#[test]
fn transform_lists() {
    assert_eq!(parse_transform_functions(" none "), Some(Vec::new()));
    assert_eq!(
        parse_transform_functions("translate(10px, 5px) rotate(45deg)"),
        Some(vec![
            CssTransform::Translate(text("10px"), Some(text("5px"))),
            CssTransform::Rotate(angle(AngleUnit::Degrees, "45")),
        ])
    );
    assert_eq!(
        parse_transform_functions("SCALE(2) skewX(10)"),
        Some(vec![
            CssTransform::Scale(text("2"), None),
            CssTransform::SkewX(angle(AngleUnit::Unitless, "10")),
        ])
    );
    assert_eq!(
        parse_transform_functions("matrix(1, 0, 0, 1, 5, 6)"),
        Some(vec![CssTransform::Matrix(vec![
            text("1"),
            text("0"),
            text("0"),
            text("1"),
            text("5"),
            text("6")
        ])])
    );
    assert_eq!(parse_transform_functions(""), None);
    assert_eq!(parse_transform_functions("rotate(45deg"), None);
    assert_eq!(parse_transform_functions("spin(45deg)"), None);
    assert_eq!(parse_transform_functions("rotate(45deg) x"), None);
}

#[test]
fn transform_function_arities() {
    assert_eq!(parse_transform_function("translate", ""), None);
    assert_eq!(parse_transform_function("translate", "1, 2, 3"), None);
    assert_eq!(parse_transform_function("translateX", " 3px "), Some(CssTransform::TranslateX(text("3px"))));
    assert_eq!(parse_transform_function("translatey", "1, 2"), None);
    assert_eq!(parse_transform_function("scale", "2, x"), None);
    assert_eq!(parse_transform_function("scale", "2, 3"), Some(CssTransform::Scale(text("2"), Some(text("3")))));
    assert_eq!(parse_transform_function("scaleY", "0.5"), Some(CssTransform::ScaleY(text("0.5"))));
    assert_eq!(parse_transform_function("matrix", "1, 0, 0, 1, 5"), None);
    assert_eq!(parse_transform_function("rotate", "1turn, 2"), None);
    assert_eq!(
        parse_transform_function("skewy", "-0.5rad"),
        Some(CssTransform::SkewY(angle(AngleUnit::Radians, "-0.5")))
    );
}

#[test]
fn angle_unit_lookup_that_splits_a_character_is_found() {
    // Splitting `éxx` three bytes from its end falls inside `é`.
    assert!(transform_panics("rotate(éxx)"));
    assert!(!transform_panics("rotate(45deg)"));
    assert!(!transform_panics("scale(éxx)"));
    assert!(!transform_panics("spin(1) rotate(éxx)"));
    assert!(!transform_panics("none"));
    assert!(!transform_panics("rotate(xé)"));
}

#[test]
fn translate_takes_user_unit_lengths_only() {
    assert_eq!(parse_transform_function("translate", "10"), Some(CssTransform::Translate(text("10"), None)));
    assert_eq!(parse_transform_function("translate", "10%"), None);
    assert_eq!(parse_transform_function("translate", "1px, 2em"), None);
    assert_eq!(parse_transform_function("translatex", "3mm"), None);
    assert_eq!(parse_transform_function("translatey", "abc"), None);
    assert_eq!(parse_transform_functions("translate(10%) scale(2)"), None);
    assert_eq!(parse_transform_function("scale", "2"), Some(CssTransform::Scale(text("2"), None)));
    assert_eq!(
        parse_transform_function("rotate", "0.5turn"),
        Some(CssTransform::Rotate(angle(AngleUnit::Turns, "0.5")))
    );
    assert_eq!(parse_transform_function("matrix", "1, 0, 0, 1, 0"), None);
    assert_eq!(parse_transform_function("perspective", "5"), None);
}

#[test]
fn user_units_are_unitless_or_px() {
    assert!(is_user_unit(Some(LengthUnit::NoUnit)));
    assert!(is_user_unit(Some(LengthUnit::Px)));
    assert!(!is_user_unit(Some(LengthUnit::Percent)));
    assert!(!is_user_unit(None));
}
