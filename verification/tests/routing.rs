use usvg_animation::elements::ElementTag;
use usvg_animation::kinds::{Additive, AnimationVisibility, FillRule, TransformKind};
use usvg_animation::paint::Color;
use usvg_animation::presentation::{LineCap, LineJoin};
use usvg_animation::routing::{
    image_root_animations, is_image_geometry_kind, is_wrapper_kind, plan_smil_animation,
    renderable_animations, select_view_box, target_kind, use_translation, value_kind_tag,
    wrapper_animations, KindTag, SmilPlan, TargetGroup, UseTranslation,
};
use usvg_animation::smil_values::{plain_base_value, PlainValue, ValueKind};

#[test]
fn leaf_animations_are_split_between_wrapper_shape_and_image() {
    let kinds = vec![
        KindTag::Opacity,
        KindTag::Fill,
        KindTag::ImageX,
        KindTag::Transform,
        KindTag::StrokeWidth,
        KindTag::ImageHeight,
        KindTag::Motion,
    ];
    assert_eq!(wrapper_animations(&kinds, TargetGroup::Leaf), vec![0, 3, 6]);
    assert_eq!(renderable_animations(&kinds), vec![1, 4]);
    assert_eq!(image_root_animations(&kinds), vec![2, 5]);
}

#[test]
fn group_target_carries_every_animation() {
    let kinds = vec![KindTag::Fill, KindTag::Transform, KindTag::ViewBox];
    assert_eq!(wrapper_animations(&kinds, TargetGroup::Group), vec![0, 1, 2]);
    assert_eq!(wrapper_animations(&[], TargetGroup::Group), Vec::<usize>::new());
}

#[test]
fn wrapper_and_image_kinds() {
    assert!(is_wrapper_kind(KindTag::Transform));
    assert!(is_wrapper_kind(KindTag::Motion));
    assert!(is_wrapper_kind(KindTag::Opacity));
    assert!(!is_wrapper_kind(KindTag::GradientTransform));
    assert!(!is_wrapper_kind(KindTag::StopOpacity));
    assert!(is_image_geometry_kind(KindTag::ImageWidth));
    assert!(!is_image_geometry_kind(KindTag::GradientGeometry));
}

#[test]
fn image_and_use_targets_retype_lengths() {
    assert_eq!(target_kind(ElementTag::Image, "x", KindTag::GradientGeometry), KindTag::ImageX);
    assert_eq!(target_kind(ElementTag::Image, "y", KindTag::GradientGeometry), KindTag::ImageY);
    assert_eq!(
        target_kind(ElementTag::Image, "width", KindTag::GradientGeometry),
        KindTag::ImageWidth
    );
    assert_eq!(
        target_kind(ElementTag::Image, "height", KindTag::GradientGeometry),
        KindTag::ImageHeight
    );
    assert_eq!(
        target_kind(ElementTag::Image, "rx", KindTag::GradientGeometry),
        KindTag::GradientGeometry
    );
    assert_eq!(target_kind(ElementTag::Use, "x", KindTag::GradientGeometry), KindTag::Transform);
    assert_eq!(target_kind(ElementTag::Rect, "x", KindTag::GradientGeometry), KindTag::GradientGeometry);
    assert_eq!(target_kind(ElementTag::Image, "x", KindTag::Opacity), KindTag::Opacity);
}

#[test]
fn use_translation_axes() {
    assert_eq!(use_translation("x"), UseTranslation::AlongX);
    assert_eq!(use_translation("y"), UseTranslation::AlongY);
    assert_eq!(use_translation("width"), UseTranslation::ValueOnly);
}

#[test]
fn value_kinds_map_to_tags() {
    assert_eq!(value_kind_tag(ValueKind::Geometry), KindTag::GradientGeometry);
    assert_eq!(value_kind_tag(ValueKind::StopColor), KindTag::StopColor);
    assert_eq!(value_kind_tag(ValueKind::ViewBox), KindTag::ViewBox);
}

#[test]
fn first_replacing_view_box_is_kept() {
    let animations = vec![
        (KindTag::Opacity, Additive::Replace),
        (KindTag::ViewBox, Additive::Sum),
        (KindTag::ViewBox, Additive::Replace),
        (KindTag::ViewBox, Additive::Replace),
    ];
    assert_eq!(select_view_box(&animations), (Some(2), 2));
    assert_eq!(select_view_box(&[(KindTag::Fill, Additive::Sum)]), (None, 0));
    assert_eq!(select_view_box(&[(KindTag::ViewBox, Additive::Sum)]), (None, 1));
}

#[test]
fn smil_elements_are_planned() {
    assert_eq!(
        plan_smil_animation(ElementTag::AnimateMotion, ElementTag::Rect, None, None),
        Some(SmilPlan::Motion)
    );
    assert_eq!(
        plan_smil_animation(ElementTag::AnimateTransform, ElementTag::Rect, None, Some("rotate")),
        Some(SmilPlan::Transform(TransformKind::Rotate))
    );
    assert_eq!(
        plan_smil_animation(ElementTag::AnimateTransform, ElementTag::Rect, None, Some("spin")),
        None
    );
    assert_eq!(
        plan_smil_animation(ElementTag::AnimateTransform, ElementTag::Rect, None, None),
        None
    );
    assert_eq!(
        plan_smil_animation(ElementTag::Animate, ElementTag::Rect, Some("width"), None),
        Some(SmilPlan::ShapeGeometry)
    );
    assert_eq!(
        plan_smil_animation(ElementTag::Animate, ElementTag::Stop, Some("offset"), None),
        Some(SmilPlan::Values(ValueKind::StopOffset))
    );
    assert_eq!(
        plan_smil_animation(ElementTag::SetElement, ElementTag::Rect, Some("fill"), None),
        Some(SmilPlan::Values(ValueKind::Fill))
    );
    assert_eq!(
        plan_smil_animation(ElementTag::Animate, ElementTag::Rect, Some("transform"), None),
        Some(SmilPlan::TransformAttribute)
    );
    assert_eq!(
        plan_smil_animation(ElementTag::Animate, ElementTag::Rect, Some("font-size"), None),
        Some(SmilPlan::UnsupportedAttribute)
    );
    assert_eq!(plan_smil_animation(ElementTag::Animate, ElementTag::Rect, None, None), None);
    assert_eq!(plan_smil_animation(ElementTag::Rect, ElementTag::Rect, Some("x"), None), None);
}

#[test]
fn base_values_of_keyword_and_paint_attributes() {
    assert_eq!(
        plain_base_value(ValueKind::Fill, Some("#ff0000")),
        Some(PlainValue::Color(Color { red: 255, green: 0, blue: 0, alpha: 255 }))
    );
    assert_eq!(plain_base_value(ValueKind::Fill, None), None);
    assert_eq!(
        plain_base_value(ValueKind::StrokeLinecap, Some("round")),
        Some(PlainValue::LineCap(LineCap::Round))
    );
    assert_eq!(
        plain_base_value(ValueKind::StrokeLinecap, Some("bogus")),
        Some(PlainValue::LineCap(LineCap::Butt))
    );
    assert_eq!(
        plain_base_value(ValueKind::StrokeLinejoin, None),
        Some(PlainValue::LineJoin(LineJoin::Miter))
    );
    assert_eq!(
        plain_base_value(ValueKind::FillRule, Some("evenodd")),
        Some(PlainValue::FillRule(FillRule::EvenOdd))
    );
    assert_eq!(plain_base_value(ValueKind::Display, Some("none")), Some(PlainValue::Display(false)));
    assert_eq!(plain_base_value(ValueKind::Display, Some("inline")), Some(PlainValue::Display(true)));
    assert_eq!(
        plain_base_value(ValueKind::Visibility, Some("collapse")),
        Some(PlainValue::Visibility(AnimationVisibility::Collapse))
    );
    assert_eq!(plain_base_value(ValueKind::Opacity, Some("0.5")), None);
}
