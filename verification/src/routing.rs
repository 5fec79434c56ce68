//! Where each parsed animation goes: which element of the render tree carries
//! it, how a target element retypes it, and which `viewBox` animation is kept.

use vstd::prelude::*;
use crate::elements::ElementTag;
use crate::kinds::Additive;
use crate::elements::{is_shape_attribute, is_shape_geometry, is_shape_tag};
use crate::kinds::TransformKind;
use crate::smil::{lemma_transform_kind_names, parse_transform_kind, transform_keyword, transform_kind_of};
use crate::smil_values::{
    lemma_attribute_names_kind, smil_attribute, smil_attribute_spec, value_kind_attribute, SmilAttribute,
    ValueKind,
};
use crate::text::str_eq;

verus! {

broadcast use vstd::string::group_string_axioms;

/// What an animation animates, without its keyframes.
#[derive(Clone, Copy, Debug, PartialEq, Eq, Structural)]
pub enum KindTag {
    Transform,
    GradientTransform,
    Motion,
    Opacity,
    Fill,
    Stroke,
    StrokeWidth,
    StrokeDashoffset,
    StrokeDasharray,
    StrokeMiterlimit,
    StrokeLinecap,
    StrokeLinejoin,
    FillRule,
    Display,
    Visibility,
    Path,
    Geometry,
    StopColor,
    StopOpacity,
    StopOffset,
    GradientGeometry,
    ViewBox,
    ImageX,
    ImageY,
    ImageWidth,
    ImageHeight,
}

/// Animations that a wrapping group carries: transforms, motion and opacity.
pub open spec fn is_wrapper_tag(kind: KindTag) -> bool {
    kind == KindTag::Transform || kind == KindTag::Motion || kind == KindTag::Opacity
}

pub fn is_wrapper_kind(kind: KindTag) -> (r: bool)
    ensures
        r == is_wrapper_tag(kind),
{
    matches!(kind, KindTag::Transform | KindTag::Motion | KindTag::Opacity)
}

/// Animations of an image's position and size.
pub open spec fn is_image_tag(kind: KindTag) -> bool {
    kind == KindTag::ImageX || kind == KindTag::ImageY || kind == KindTag::ImageWidth || kind
        == KindTag::ImageHeight
}

pub fn is_image_geometry_kind(kind: KindTag) -> (r: bool)
    ensures
        r == is_image_tag(kind),
{
    matches!(kind, KindTag::ImageX | KindTag::ImageY | KindTag::ImageWidth | KindTag::ImageHeight)
}

/// Targets whose own group carries every animation: `<g>`, `<svg>`, `<use>`.
#[derive(Clone, Copy, Debug, PartialEq, Eq, Structural)]
pub enum TargetGroup {
    /// `<g>`, `<svg>` or `<use>`.
    Group,
    /// Any other element.
    Leaf,
}

/// The indexes of the kinds that satisfy `keep`, in order.
pub open spec fn select(kinds: Seq<KindTag>, keep: spec_fn(KindTag) -> bool) -> Seq<int>
    decreases kinds.len(),
{
    if kinds.len() == 0 {
        Seq::empty()
    } else {
        let prev = select(kinds.drop_last(), keep);
        if keep(kinds.last()) {
            prev.push(kinds.len() - 1)
        } else {
            prev
        }
    }
}

pub open spec fn wrapper_keep(target: TargetGroup) -> spec_fn(KindTag) -> bool {
    |k: KindTag| target == TargetGroup::Group || is_wrapper_tag(k)
}

pub open spec fn renderable_keep() -> spec_fn(KindTag) -> bool {
    |k: KindTag| !is_wrapper_tag(k) && !is_image_tag(k)
}

pub open spec fn image_keep() -> spec_fn(KindTag) -> bool {
    |k: KindTag| is_image_tag(k)
}

pub open spec fn indexes(v: Seq<usize>) -> Seq<int> {
    v.map_values(|x: usize| x as int)
}

/// The animations that the wrapping group of a target carries: all of them
/// for a group target, the wrapper kinds otherwise.
pub fn wrapper_animations(kinds: &[KindTag], target: TargetGroup) -> (r: Vec<usize>)
    ensures
        indexes(r@) == select(kinds@, wrapper_keep(target)),
{
    let mut out: Vec<usize> = Vec::new();
    let mut i: usize = 0;
    while i < kinds.len()
        invariant
            0 <= i <= kinds@.len(),
            indexes(out@) == select(kinds@.take(i as int), wrapper_keep(target)),
        decreases kinds.len() - i,
    {
        assert(kinds@.take(i + 1).drop_last() =~= kinds@.take(i as int));
        assert(kinds@.take(i + 1).last() == kinds@[i as int]);
        if matches!(target, TargetGroup::Group) || is_wrapper_kind(kinds[i]) {
            let ghost before = out@;
            out.push(i);
            assert(indexes(out@) =~= indexes(before).push(i as int));
        }
        i = i + 1;
    }
    assert(kinds@.take(kinds@.len() as int) =~= kinds@);
    out
}

/// The animations that the rendered element itself carries.
pub fn renderable_animations(kinds: &[KindTag]) -> (r: Vec<usize>)
    ensures
        indexes(r@) == select(kinds@, renderable_keep()),
{
    let mut out: Vec<usize> = Vec::new();
    let mut i: usize = 0;
    while i < kinds.len()
        invariant
            0 <= i <= kinds@.len(),
            indexes(out@) == select(kinds@.take(i as int), renderable_keep()),
        decreases kinds.len() - i,
    {
        assert(kinds@.take(i + 1).drop_last() =~= kinds@.take(i as int));
        assert(kinds@.take(i + 1).last() == kinds@[i as int]);
        if !is_wrapper_kind(kinds[i]) && !is_image_geometry_kind(kinds[i]) {
            let ghost before = out@;
            out.push(i);
            assert(indexes(out@) =~= indexes(before).push(i as int));
        }
        i = i + 1;
    }
    assert(kinds@.take(kinds@.len() as int) =~= kinds@);
    out
}

/// The animations of an image's position and size, which its root carries.
pub fn image_root_animations(kinds: &[KindTag]) -> (r: Vec<usize>)
    ensures
        indexes(r@) == select(kinds@, image_keep()),
{
    let mut out: Vec<usize> = Vec::new();
    let mut i: usize = 0;
    while i < kinds.len()
        invariant
            0 <= i <= kinds@.len(),
            indexes(out@) == select(kinds@.take(i as int), image_keep()),
        decreases kinds.len() - i,
    {
        assert(kinds@.take(i + 1).drop_last() =~= kinds@.take(i as int));
        assert(kinds@.take(i + 1).last() == kinds@[i as int]);
        if is_image_geometry_kind(kinds[i]) {
            let ghost before = out@;
            out.push(i);
            assert(indexes(out@) =~= indexes(before).push(i as int));
        }
        i = i + 1;
    }
    assert(kinds@.take(kinds@.len() as int) =~= kinds@);
    out
}

proof fn lemma_select_bounds(kinds: Seq<KindTag>, keep: spec_fn(KindTag) -> bool)
    ensures
        forall|k: int|
            0 <= k < select(kinds, keep).len() ==> 0 <= #[trigger] select(kinds, keep)[k]
                < kinds.len(),
    decreases kinds.len(),
{
    if kinds.len() > 0 {
        let p = kinds.drop_last();
        lemma_select_bounds(p, keep);
        let prev = select(p, keep);
        assert forall|k: int| 0 <= k < select(kinds, keep).len() implies 0 <= #[trigger] select(
            kinds,
            keep,
        )[k] < kinds.len() by {
            if k < prev.len() {
                assert(select(kinds, keep)[k] == prev[k]);
            }
        }
    }
}

proof fn lemma_select_members(kinds: Seq<KindTag>, keep: spec_fn(KindTag) -> bool, i: int)
    requires
        0 <= i < kinds.len(),
    ensures
        select(kinds, keep).contains(i) <==> keep(kinds[i]),
    decreases kinds.len(),
{
    broadcast use vstd::seq_lib::group_seq_properties;

    let p = kinds.drop_last();
    let prev = select(p, keep);
    lemma_select_bounds(p, keep);
    if i < kinds.len() - 1 {
        lemma_select_members(p, keep, i);
        assert(p[i] == kinds[i]);
    } else {
        assert(!prev.contains(i)) by {
            if prev.contains(i) {
                let w = choose|w: int| 0 <= w < prev.len() && #[trigger] prev[w] == i;
                assert(prev[w] < p.len());
            }
        }
    }
}

/// Law: for an element that is not a group, every animation is carried in
/// exactly one place: by the wrapping group, by the element itself, or by
/// the image root.
pub proof fn lemma_leaf_animations_partition(kinds: Seq<KindTag>, i: int)
    requires
        0 <= i < kinds.len(),
    ensures
        (if select(kinds, wrapper_keep(TargetGroup::Leaf)).contains(i) {
            1int
        } else {
            0int
        }) + (if select(kinds, renderable_keep()).contains(i) {
            1int
        } else {
            0int
        }) + (if select(kinds, image_keep()).contains(i) {
            1int
        } else {
            0int
        }) == 1,
{
    lemma_select_members(kinds, wrapper_keep(TargetGroup::Leaf), i);
    lemma_select_members(kinds, renderable_keep(), i);
    lemma_select_members(kinds, image_keep(), i);
}

/// The kind of animation that a value animation of `kind` makes.
pub open spec fn value_kind_tag_spec(kind: ValueKind) -> KindTag {
    match kind {
        ValueKind::Opacity => KindTag::Opacity,
        ValueKind::StopOpacity => KindTag::StopOpacity,
        ValueKind::Fill => KindTag::Fill,
        ValueKind::Stroke => KindTag::Stroke,
        ValueKind::StopColor => KindTag::StopColor,
        ValueKind::StrokeWidth => KindTag::StrokeWidth,
        ValueKind::StrokeDashoffset => KindTag::StrokeDashoffset,
        ValueKind::StrokeDasharray => KindTag::StrokeDasharray,
        ValueKind::StrokeMiterlimit => KindTag::StrokeMiterlimit,
        ValueKind::StrokeLinecap => KindTag::StrokeLinecap,
        ValueKind::StrokeLinejoin => KindTag::StrokeLinejoin,
        ValueKind::FillRule => KindTag::FillRule,
        ValueKind::Display => KindTag::Display,
        ValueKind::Visibility => KindTag::Visibility,
        ValueKind::StopOffset => KindTag::StopOffset,
        ValueKind::Geometry => KindTag::GradientGeometry,
        ValueKind::ViewBox => KindTag::ViewBox,
    }
}

pub fn value_kind_tag(kind: ValueKind) -> (r: KindTag)
    ensures
        r == value_kind_tag_spec(kind),
{
    match kind {
        ValueKind::Opacity => KindTag::Opacity,
        ValueKind::StopOpacity => KindTag::StopOpacity,
        ValueKind::Fill => KindTag::Fill,
        ValueKind::Stroke => KindTag::Stroke,
        ValueKind::StopColor => KindTag::StopColor,
        ValueKind::StrokeWidth => KindTag::StrokeWidth,
        ValueKind::StrokeDashoffset => KindTag::StrokeDashoffset,
        ValueKind::StrokeDasharray => KindTag::StrokeDasharray,
        ValueKind::StrokeMiterlimit => KindTag::StrokeMiterlimit,
        ValueKind::StrokeLinecap => KindTag::StrokeLinecap,
        ValueKind::StrokeLinejoin => KindTag::StrokeLinejoin,
        ValueKind::FillRule => KindTag::FillRule,
        ValueKind::Display => KindTag::Display,
        ValueKind::Visibility => KindTag::Visibility,
        ValueKind::StopOffset => KindTag::StopOffset,
        ValueKind::Geometry => KindTag::GradientGeometry,
        ValueKind::ViewBox => KindTag::ViewBox,
    }
}

/// How a target retypes a length animation: on an `<image>`, `x`, `y`,
/// `width` and `height` animate the image's box; on a `<use>`, any length
/// animation becomes a translation.
pub open spec fn target_kind_spec(target: ElementTag, name: Seq<char>, kind: KindTag) -> KindTag {
    if target == ElementTag::Image && kind == KindTag::GradientGeometry {
        if name == "x"@ {
            KindTag::ImageX
        } else if name == "y"@ {
            KindTag::ImageY
        } else if name == "width"@ {
            KindTag::ImageWidth
        } else if name == "height"@ {
            KindTag::ImageHeight
        } else {
            kind
        }
    } else if target == ElementTag::Use && kind == KindTag::GradientGeometry {
        KindTag::Transform
    } else {
        kind
    }
}

pub fn target_kind(target: ElementTag, name: &str, kind: KindTag) -> (r: KindTag)
    ensures
        r == target_kind_spec(target, name@, kind),
{
    if target == ElementTag::Image && kind == KindTag::GradientGeometry {
        if str_eq(name, "x") {
            KindTag::ImageX
        } else if str_eq(name, "y") {
            KindTag::ImageY
        } else if str_eq(name, "width") {
            KindTag::ImageWidth
        } else if str_eq(name, "height") {
            KindTag::ImageHeight
        } else {
            kind
        }
    } else if target == ElementTag::Use && kind == KindTag::GradientGeometry {
        KindTag::Transform
    } else {
        kind
    }
}

/// Which translation a length animation of a `<use>` makes.
#[derive(Clone, Copy, Debug, PartialEq, Eq, Structural)]
pub enum UseTranslation {
    /// `x`: the value, then the element's static `y`.
    AlongX,
    /// `y`: the element's static `x`, then the value.
    AlongY,
    /// Any other length: the value, then zero.
    ValueOnly,
}

pub open spec fn use_translation_of(name: Seq<char>) -> UseTranslation {
    if name == "x"@ {
        UseTranslation::AlongX
    } else if name == "y"@ {
        UseTranslation::AlongY
    } else {
        UseTranslation::ValueOnly
    }
}

pub fn use_translation(name: &str) -> (r: UseTranslation)
    ensures
        r == use_translation_of(name@),
{
    if str_eq(name, "x") {
        UseTranslation::AlongX
    } else if str_eq(name, "y") {
        UseTranslation::AlongY
    } else {
        UseTranslation::ValueOnly
    }
}

/// The `viewBox` animation kept, with the number of others that are
/// reported: the first non-additive one; every later one, and every
/// additive one, is reported.
pub open spec fn view_box_scan(animations: Seq<(KindTag, Additive)>) -> (Option<int>, nat)
    decreases animations.len(),
{
    if animations.len() == 0 {
        (None, 0)
    } else {
        let (kept, dropped) = view_box_scan(animations.drop_last());
        let (kind, additive) = animations.last();
        if kind != KindTag::ViewBox {
            (kept, dropped)
        } else if kept is Some || additive == Additive::Sum {
            (kept, dropped + 1)
        } else {
            (Some(animations.len() - 1), dropped)
        }
    }
}

/// Chooses the single `viewBox` animation of an element.
pub fn select_view_box(animations: &[(KindTag, Additive)]) -> (r: (Option<usize>, usize))
    ensures
        (match r.0 {
            Some(i) => Some(i as int),
            None => None,
        }, r.1 as nat) == view_box_scan(animations@),
{
    let mut kept: Option<usize> = None;
    let mut dropped: usize = 0;
    let mut i: usize = 0;
    while i < animations.len()
        invariant
            0 <= i <= animations@.len(),
            dropped <= i,
            (match kept {
                Some(k) => Some(k as int),
                None => None,
            }, dropped as nat) == view_box_scan(animations@.take(i as int)),
        decreases animations.len() - i,
    {
        assert(animations@.take(i + 1).drop_last() =~= animations@.take(i as int));
        assert(animations@.take(i + 1).last() == animations@[i as int]);
        let (kind, additive) = animations[i];
        if kind == KindTag::ViewBox {
            if kept.is_some() || additive == Additive::Sum {
                dropped = dropped + 1;
            } else {
                kept = Some(i);
            }
        }
        i = i + 1;
    }
    assert(animations@.take(animations@.len() as int) =~= animations@);
    (kept, dropped)
}

/// What a SMIL animation element animates on its target.
#[derive(Clone, Copy, Debug, PartialEq, Eq, Structural)]
pub enum SmilPlan {
    /// `<animateMotion>`.
    Motion,
    /// `<animateTransform>` of the given `type`.
    Transform(TransformKind),
    /// A shape's geometry (`d`, `points`, or a length of the shape).
    ShapeGeometry,
    /// A value animation of the given kind.
    Values(ValueKind),
    /// `attributeName="transform"` (or `gradientTransform`) on `<animate>`,
    /// which animates nothing.
    TransformAttribute,
    /// An attribute that cannot be animated, which is reported.
    UnsupportedAttribute,
}

pub open spec fn plan_spec(
    tag: ElementTag,
    target: ElementTag,
    attribute_name: Option<Seq<char>>,
    transform_type: Option<Seq<char>>,
) -> Option<SmilPlan> {
    if tag == ElementTag::AnimateMotion {
        Some(SmilPlan::Motion)
    } else if tag == ElementTag::AnimateTransform {
        match transform_type {
            Some(t) => match transform_kind_of(t) {
                Some(k) => Some(SmilPlan::Transform(k)),
                None => None,
            },
            None => None,
        }
    } else if tag == ElementTag::Animate || tag == ElementTag::AnimateColor || tag
        == ElementTag::SetElement {
        match attribute_name {
            None => None,
            Some(name) => if is_shape_tag(target) && is_shape_attribute(name) {
                Some(SmilPlan::ShapeGeometry)
            } else {
                match smil_attribute_spec(name) {
                    SmilAttribute::Value(k) => Some(SmilPlan::Values(k)),
                    SmilAttribute::Transform => Some(SmilPlan::TransformAttribute),
                    SmilAttribute::Unsupported => Some(SmilPlan::UnsupportedAttribute),
                }
            },
        }
    } else {
        None
    }
}

/// Decides what an animation element (`tag`) animates on its target element
/// (`target`), from its `attributeName` and, for `<animateTransform>`, its
/// `type`; `None` when it animates nothing.
pub fn plan_smil_animation(
    tag: ElementTag,
    target: ElementTag,
    attribute_name: Option<&str>,
    transform_type: Option<&str>,
) -> (r: Option<SmilPlan>)
    ensures
        r == plan_spec(
            tag,
            target,
            crate::forms::str_opt(attribute_name),
            crate::forms::str_opt(transform_type),
        ),
{
    match tag {
        ElementTag::AnimateMotion => Some(SmilPlan::Motion),
        ElementTag::AnimateTransform => match transform_type {
            Some(t) => match parse_transform_kind(t) {
                Some(k) => Some(SmilPlan::Transform(k)),
                None => None,
            },
            None => None,
        },
        ElementTag::Animate | ElementTag::AnimateColor | ElementTag::SetElement => {
            match attribute_name {
                None => None,
                Some(name) => {
                    if is_shape_geometry(target, name) {
                        Some(SmilPlan::ShapeGeometry)
                    } else {
                        match smil_attribute(name) {
                            SmilAttribute::Value(k) => Some(SmilPlan::Values(k)),
                            SmilAttribute::Transform => Some(SmilPlan::TransformAttribute),
                            SmilAttribute::Unsupported => Some(SmilPlan::UnsupportedAttribute),
                        }
                    }
                },
            }
        },
        _ => None,
    }
}


/// Law: what an animation element plans follows the names it is given. An
/// `<animateTransform>` plans the transform kind that its `type` names, and
/// only a kind's own keyword plans that kind; an `<animate>`, `<animateColor>`
/// or `<set>` of a value kind's attribute plans that value kind, and only that
/// attribute plans it.
pub proof fn lemma_plan_follows_names(
    tag: ElementTag,
    target: ElementTag,
    attribute_name: Option<Seq<char>>,
    transform_type: Option<Seq<char>>,
    name: Seq<char>,
    t: Seq<char>,
    k: TransformKind,
    v: ValueKind,
)
    ensures
        plan_spec(ElementTag::AnimateTransform, target, attribute_name, Some(transform_keyword(k)))
            == Some(SmilPlan::Transform(k)),
        plan_spec(ElementTag::AnimateTransform, target, attribute_name, Some(t)) matches Some(
            SmilPlan::Transform(j),
        ) ==> t == transform_keyword(j),
        (tag == ElementTag::Animate || tag == ElementTag::AnimateColor || tag
            == ElementTag::SetElement) ==> (value_kind_attribute(v) matches Some(a) ==> plan_spec(
            tag,
            target,
            Some(a),
            transform_type,
        ) == Some(SmilPlan::Values(v))),
        plan_spec(tag, target, Some(name), transform_type) == Some(SmilPlan::Values(v))
            && value_kind_attribute(v) is Some ==> name == value_kind_attribute(v)->Some_0,
{
    lemma_transform_kind_names(t, k);
    lemma_attribute_names_kind(name, v);
    if value_kind_attribute(v) is Some {
        let a = value_kind_attribute(v)->Some_0;
        reveal_strlit("opacity");
        reveal_strlit("stop-opacity");
        reveal_strlit("fill");
        reveal_strlit("stop-color");
        reveal_strlit("stroke-width");
        reveal_strlit("stroke-dashoffset");
        reveal_strlit("stroke-dasharray");
        reveal_strlit("stroke-miterlimit");
        reveal_strlit("stroke-linecap");
        reveal_strlit("stroke-linejoin");
        reveal_strlit("fill-rule");
        reveal_strlit("display");
        reveal_strlit("visibility");
        reveal_strlit("viewBox");
    reveal_strlit("stroke");
    reveal_strlit("offset");
    reveal_strlit("height");
    reveal_strlit("points");
    reveal_strlit("d");
    reveal_strlit("x");
    reveal_strlit("y");
    reveal_strlit("width");
    reveal_strlit("rx");
    reveal_strlit("ry");
    reveal_strlit("cx");
    reveal_strlit("cy");
    reveal_strlit("r");
    reveal_strlit("x1");
    reveal_strlit("y1");
    reveal_strlit("x2");
    reveal_strlit("y2");
    assert("stroke"@.len() == 6);
    assert("offset"@.len() == 6);
    assert("height"@.len() == 6);
    assert("points"@.len() == 6);
    assert("d"@.len() == 1);
    assert("x"@.len() == 1);
    assert("y"@.len() == 1);
    assert("width"@.len() == 5);
    assert("rx"@.len() == 2);
    assert("ry"@.len() == 2);
    assert("cx"@.len() == 2);
    assert("cy"@.len() == 2);
    assert("r"@.len() == 1);
    assert("x1"@.len() == 2);
    assert("y1"@.len() == 2);
    assert("x2"@.len() == 2);
    assert("y2"@.len() == 2);
        assert("stroke"@[0] != "height"@[0] && "stroke"@[0] != "points"@[0]);
        assert("offset"@[0] != "height"@[0] && "offset"@[0] != "points"@[0]);
        assert(!is_shape_attribute(a));
    }
}


/// Law: on an `<image>`, a length animation of `x`, `y`, `width` or `height`
/// animates the image box's coordinate of the same name, and only those four
/// attributes do; on a `<use>` it becomes a translation.
pub proof fn lemma_image_box_names(target: ElementTag, name: Seq<char>, kind: KindTag)
    ensures
        target_kind_spec(target, name, kind) == KindTag::ImageX ==> name == "x"@ || kind
            == KindTag::ImageX,
        target_kind_spec(target, name, kind) == KindTag::ImageY ==> name == "y"@ || kind
            == KindTag::ImageY,
        target_kind_spec(target, name, kind) == KindTag::ImageWidth ==> name == "width"@ || kind
            == KindTag::ImageWidth,
        target_kind_spec(target, name, kind) == KindTag::ImageHeight ==> name == "height"@ || kind
            == KindTag::ImageHeight,
        target == ElementTag::Image && kind == KindTag::GradientGeometry ==> {
            &&& target_kind_spec(target, "x"@, kind) == KindTag::ImageX
            &&& target_kind_spec(target, "y"@, kind) == KindTag::ImageY
            &&& target_kind_spec(target, "width"@, kind) == KindTag::ImageWidth
            &&& target_kind_spec(target, "height"@, kind) == KindTag::ImageHeight
        },
        target == ElementTag::Use && kind == KindTag::GradientGeometry ==> target_kind_spec(
            target,
            name,
            kind,
        ) == KindTag::Transform,
{
    reveal_strlit("x");
    reveal_strlit("y");
    reveal_strlit("width");
    reveal_strlit("height");
    assert("x"@.len() == 1 && "x"@[0] == 'x');
    assert("y"@.len() == 1 && "y"@[0] == 'y');
    assert("width"@.len() == 5);
    assert("height"@.len() == 6);
}


/// Law: a `<use>` length animation translates along x exactly for `x` and
/// along y exactly for `y`.
pub proof fn lemma_use_translation_axes(name: Seq<char>)
    ensures
        (use_translation_of(name) == UseTranslation::AlongX) <==> name == "x"@,
        (use_translation_of(name) == UseTranslation::AlongY) <==> name == "y"@,
{
    reveal_strlit("x");
    reveal_strlit("y");
    assert("x"@.len() == 1 && "x"@[0] == 'x');
    assert("y"@.len() == 1 && "y"@[0] == 'y');
}

/// Law: distinct value kinds are carried under distinct animation kinds.
pub proof fn lemma_value_kind_tags_distinct(a: ValueKind, b: ValueKind)
    ensures
        value_kind_tag_spec(a) == value_kind_tag_spec(b) ==> a == b,
{
}

} // verus!
