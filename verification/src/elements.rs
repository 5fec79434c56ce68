//! What an animation's target element decides: which attributes animate its
//! geometry, and the checks that report animations that cannot be attached.

use vstd::prelude::*;
use vstd::string::StringExecFns;
use crate::css_plan::{contains_seq, contains_str};
use crate::forms::{form_texts, str_opt, texts_spec, value_items, value_items_spec, FormTexts};
use crate::text::texts_of;
use crate::kinds::{Accumulate, Additive, CalcMode};
use crate::kinds::{gradient_component_of, GradientGeometryComponent};
use crate::text::{chars_of, str_eq, string_of, trim, trim_bounds};

verus! {

broadcast use vstd::string::group_string_axioms;

/// The SVG elements that animation handling tells apart.
#[derive(Clone, Copy, Debug, PartialEq, Eq, Structural)]
pub enum ElementTag {
    Rect,
    Circle,
    Ellipse,
    Line,
    Polyline,
    Polygon,
    Path,
    Image,
    Use,
    Text,
    Stop,
    LinearGradient,
    RadialGradient,
    Animate,
    AnimateColor,
    AnimateMotion,
    AnimateTransform,
    /// `<set>`.
    SetElement,
    /// Any other element.
    Other,
}

/// The animation elements.
pub open spec fn is_animation_tag(tag: ElementTag) -> bool {
    tag == ElementTag::Animate || tag == ElementTag::AnimateColor || tag
        == ElementTag::AnimateMotion || tag == ElementTag::AnimateTransform || tag == ElementTag::SetElement
}

pub fn is_animation(tag: ElementTag) -> (r: bool)
    ensures
        r == is_animation_tag(tag),
{
    matches!(
        tag,
        ElementTag::Animate | ElementTag::AnimateColor | ElementTag::AnimateMotion
            | ElementTag::AnimateTransform | ElementTag::SetElement
    )
}

/// The basic shapes and `<path>`.
pub open spec fn is_shape_tag(tag: ElementTag) -> bool {
    tag == ElementTag::Rect || tag == ElementTag::Circle || tag == ElementTag::Ellipse || tag
        == ElementTag::Line || tag == ElementTag::Polyline || tag == ElementTag::Polygon || tag
        == ElementTag::Path
}

/// The attributes that describe a shape's geometry.
pub open spec fn is_shape_attribute(name: Seq<char>) -> bool {
    name == "x"@ || name == "y"@ || name == "width"@ || name == "height"@ || name == "rx"@
        || name == "ry"@ || name == "cx"@ || name == "cy"@ || name == "r"@ || name == "x1"@
        || name == "y1"@ || name == "x2"@ || name == "y2"@ || name == "d"@ || name == "points"@
}

/// Whether animating `name` on an element `tag` changes a shape's geometry.
pub fn is_shape_geometry(tag: ElementTag, name: &str) -> (r: bool)
    ensures
        r == (is_shape_tag(tag) && is_shape_attribute(name@)),
{
    let shape = matches!(
        tag,
        ElementTag::Rect | ElementTag::Circle | ElementTag::Ellipse | ElementTag::Line
            | ElementTag::Polyline | ElementTag::Polygon | ElementTag::Path
    );
    shape && (str_eq(name, "x") || str_eq(name, "y") || str_eq(name, "width") || str_eq(
        name,
        "height",
    ) || str_eq(name, "rx") || str_eq(name, "ry") || str_eq(name, "cx") || str_eq(name, "cy")
        || str_eq(name, "r") || str_eq(name, "x1") || str_eq(name, "y1") || str_eq(name, "x2")
        || str_eq(name, "y2") || str_eq(name, "d") || str_eq(name, "points"))
}

/// Whether animating `name` on an element `tag` moves or resizes an `<image>`.
pub fn is_image_geometry(tag: ElementTag, name: &str) -> (r: bool)
    ensures
        r == (tag == ElementTag::Image && (name@ == "x"@ || name@ == "y"@ || name@ == "width"@
            || name@ == "height"@)),
{
    tag == ElementTag::Image && (str_eq(name, "x") || str_eq(name, "y") || str_eq(name, "width")
        || str_eq(name, "height"))
}

/// Whether animating `name` on an element `tag` changes a gradient's geometry.
pub fn is_gradient_geometry(tag: ElementTag, name: &str) -> (r: bool)
    ensures
        r == ((tag == ElementTag::LinearGradient || tag == ElementTag::RadialGradient)
            && gradient_component_of(name@) is Some),
{
    let gradient = matches!(tag, ElementTag::LinearGradient | ElementTag::RadialGradient);
    gradient && GradientGeometryComponent::from_attribute_name(name).is_some()
}

/// Whether an attribute must be non-negative for a shape to be drawn.
pub fn is_non_negative_attribute(name: &str) -> (r: bool)
    ensures
        r == (name@ == "width"@ || name@ == "height"@ || name@ == "r"@ || name@ == "rx"@ || name@
            == "ry"@ || name@ == "fr"@),
{
    str_eq(name, "width") || str_eq(name, "height") || str_eq(name, "r") || str_eq(name, "rx")
        || str_eq(name, "ry") || str_eq(name, "fr")
}

/// The raw value texts of a `d` or `points` animation, as `(values, from,
/// to)` of the animation element and the target's own attribute.
///
/// A `<set>` takes its `to` (or else `values`) as a single trimmed text; a
/// `values` list is split; `from` and `to` give two texts; a lone `to` starts
/// from the target's own value.
pub open spec fn raw_geometry_spec(
    is_set: bool,
    values: Option<Seq<char>>,
    from: Option<Seq<char>>,
    to: Option<Seq<char>>,
    target_value: Option<Seq<char>>,
) -> Option<Seq<Seq<char>>> {
    if is_set {
        match (if to is Some { to } else { values }) {
            Some(v) => Some(seq![trim(v)]),
            None => None,
        }
    } else {
        match values {
            Some(v) => Some(value_items_spec(v)),
            None => match (from, to) {
                (Some(f), Some(t)) => Some(seq![f, t]),
                (None, Some(t)) => match target_value {
                    Some(b) => Some(seq![b, t]),
                    None => None,
                },
                _ => None,
            },
        }
    }
}

/// The optional list of texts that a vector of strings holds.
pub open spec fn opt_texts(r: Option<Vec<String>>) -> Option<Seq<Seq<char>>> {
    match r {
        Some(v) => Some(texts_of(v@)),
        None => None,
    }
}

fn trimmed_string(value: &str) -> (r: String)
    ensures
        r@ == trim(value@),
{
    let v = chars_of(value);
    let (a, b) = trim_bounds(v.as_slice(), 0, v.len());
    assert(v@.subrange(0, v@.len() as int) =~= v@);
    string_of(v.as_slice(), a, b)
}

/// Collects the raw value texts of a `d` or `points` animation.
pub fn raw_geometry_values(
    is_set: bool,
    values: Option<&str>,
    from: Option<&str>,
    to: Option<&str>,
    target_value: Option<&str>,
) -> (r: Option<Vec<String>>)
    ensures
        opt_texts(r) == raw_geometry_spec(
            is_set,
            str_opt(values),
            str_opt(from),
            str_opt(to),
            str_opt(target_value),
        ),
{
    if is_set {
        let v = match to {
            Some(t) => Some(t),
            None => values,
        };
        return match v {
            Some(v) => {
                let r = vec![trimmed_string(v)];
                assert(texts_of(r@) =~= seq![trim(v@)]);
                Some(r)
            },
            None => None,
        };
    }
    if let Some(v) = values {
        return Some(value_items(v));
    }
    match (from, to) {
        (Some(f), Some(t)) => {
            let r = vec![String::from_str(f), String::from_str(t)];
            assert(texts_of(r@) =~= seq![f@, t@]);
            Some(r)
        },
        (None, Some(t)) => match target_value {
            Some(b) => {
                let r = vec![String::from_str(b), String::from_str(t)];
                assert(texts_of(r@) =~= seq![b@, t@]);
                Some(r)
            },
            None => None,
        },
        _ => None,
    }
}

/// How a shape-geometry animation takes and applies its values.
#[derive(Clone, Copy, Debug, PartialEq, Eq, Structural)]
pub struct GeometryPlan {
    /// `d` and `points` keep their value texts; other attributes read numbers.
    pub raw_texts: bool,
    /// A numeric `additive="sum"` animation is baked over the shape's own value.
    pub sum_over_base: bool,
    /// The additive behavior of the baked track.
    pub additive: Additive,
    /// A numeric `from`/`to` animation of two values that steps discretely,
    /// without `keyTimes`, switches half-way.
    pub halfway_pair: bool,
}

/// Decides how a shape-geometry animation of attribute `name` is baked;
/// `value_count` is the number of numeric values its forms gave (none for
/// `d` and `points`, whose texts are kept).
pub fn plan_geometry(
    name: &str,
    is_set: bool,
    additive: Additive,
    calc_mode: CalcMode,
    has_key_times: bool,
    has_from: bool,
    has_to: bool,
    value_count: usize,
) -> (r: GeometryPlan)
    ensures
        r.raw_texts == (name@ == "d"@ || name@ == "points"@),
        r.sum_over_base == (!r.raw_texts && additive == Additive::Sum),
        r.additive == (if r.sum_over_base {
            Additive::Replace
        } else {
            additive
        }),
        r.halfway_pair == (!r.raw_texts && !is_set && calc_mode == CalcMode::Discrete
            && !has_key_times && has_from && has_to && value_count == 2),
{
    let raw_texts = str_eq(name, "d") || str_eq(name, "points");
    let sum_over_base = !raw_texts && additive == Additive::Sum;
    GeometryPlan {
        raw_texts,
        sum_over_base,
        additive: if sum_over_base {
            Additive::Replace
        } else {
            additive
        },
        halfway_pair: !raw_texts && !is_set && calc_mode == CalcMode::Discrete && !has_key_times
            && has_from && has_to && value_count == 2,
    }
}

/// The forms that a numeric geometry animation reads: `<set>` takes `to`, or
/// else `values`, as its one value list.
pub fn geometry_form_texts(
    is_set: bool,
    values: Option<&str>,
    from: Option<&str>,
    to: Option<&str>,
    by: Option<&str>,
) -> (r: FormTexts)
    ensures
        r@ == (if is_set {
            texts_spec(
                match str_opt(to) {
                    Some(t) => Some(t),
                    None => str_opt(values),
                },
                None,
                None,
                None,
            )
        } else {
            texts_spec(str_opt(values), str_opt(from), str_opt(to), str_opt(by))
        }),
{
    if is_set {
        let v = match to {
            Some(t) => Some(t),
            None => values,
        };
        form_texts(v, None, None, None)
    } else {
        form_texts(values, from, to, by)
    }
}

/// Whether some element from the target up to the root has `display="none"`
/// and animates `display` or `visibility`; each entry holds those two facts
/// of one element.
pub fn can_be_revealed_by_display_animation(chain: &[(bool, bool)]) -> (r: bool)
    ensures
        r == exists|i: int| 0 <= i < chain@.len() && (#[trigger] chain@[i]).0 && chain@[i].1,
{
    let mut i: usize = 0;
    while i < chain.len()
        invariant
            0 <= i <= chain@.len(),
            forall|k: int| 0 <= k < i ==> !((#[trigger] chain@[k]).0 && chain@[k].1),
        decreases chain.len() - i,
    {
        if chain[i].0 && chain[i].1 {
            return true;
        }
        i = i + 1;
    }
    false
}

/// Whether the first of the target's attributes named `name` (each given
/// with whether its declaration is `!important`) is `!important`; `false`
/// when the target has no such attribute.
pub open spec fn important_spec(attributes: Seq<(&str, bool)>, name: Seq<char>) -> bool
    decreases attributes.len(),
{
    if attributes.len() == 0 {
        false
    } else if attributes[0].0@ == name {
        attributes[0].1
    } else {
        important_spec(attributes.drop_first(), name)
    }
}

/// Whether an animation of attribute `name` is suppressed by a winning
/// `!important` static declaration of that attribute on its target.
pub fn suppressed_by_important(attributes: &[(&str, bool)], name: &str) -> (r: bool)
    ensures
        r == important_spec(attributes@, name@),
{
    let mut i: usize = 0;
    assert(attributes@.skip(0) =~= attributes@);
    while i < attributes.len()
        invariant
            0 <= i <= attributes@.len(),
            important_spec(attributes@, name@) == important_spec(attributes@.skip(i as int), name@),
        decreases attributes.len() - i,
    {
        assert(attributes@.skip(i as int).drop_first() =~= attributes@.skip(i + 1));
        assert(attributes@.skip(i as int)[0] == attributes@[i as int]);
        let (n, important) = attributes[i];
        if str_eq(n, name) {
            return important;
        }
        i = i + 1;
    }
    false
}

/// Where an animation element's `href` points: the element it resolves to,
/// if any, and its text.
pub struct AnimationLink {
    pub target: Option<ElementTag>,
    pub href: Option<String>,
}

/// An animation aimed at a `<text>`, or whose link mentions `text`.
pub open spec fn links_text(link: AnimationLink) -> bool {
    link.target == Some(ElementTag::Text) || match link.href {
        Some(h) => contains_seq(h@, "text"@),
        None => false,
    }
}

/// Whether some animation elsewhere in the document is aimed at text.
pub fn has_remote_text_animation(links: &[AnimationLink]) -> (r: bool)
    ensures
        r == exists|i: int| 0 <= i < links@.len() && links_text(#[trigger] links@[i]),
{
    let mut i: usize = 0;
    while i < links.len()
        invariant
            0 <= i <= links@.len(),
            forall|k: int| 0 <= k < i ==> !links_text(#[trigger] links@[k]),
        decreases links.len() - i,
    {
        let hit = match &links[i].href {
            Some(h) => contains_str(h.as_str(), "text"),
            None => false,
        };
        if links[i].target == Some(ElementTag::Text) || hit {
            assert(links_text(links@[i as int]));
            return true;
        }
        i = i + 1;
    }
    false
}

/// Whether an element's own `display` hides it.
pub fn base_hidden(display: Option<&str>) -> (r: bool)
    ensures
        r == (str_opt(display) == Some("none"@)),
{
    match display {
        Some(d) => str_eq(d, "none"),
        None => false,
    }
}

/// Whether one of the animations (by `attributeName`) animates `display` or
/// `visibility`.
pub fn has_display_or_visibility_animation(attribute_names: &[Option<&str>]) -> (r: bool)
    ensures
        r == exists|i: int|
            0 <= i < attribute_names@.len() && (str_opt(#[trigger] attribute_names@[i]) == Some(
                "display"@,
            ) || str_opt(attribute_names@[i]) == Some("visibility"@)),
{
    let mut i: usize = 0;
    while i < attribute_names.len()
        invariant
            0 <= i <= attribute_names@.len(),
            forall|k: int|
                0 <= k < i ==> !(str_opt(#[trigger] attribute_names@[k]) == Some("display"@)
                    || str_opt(attribute_names@[k]) == Some("visibility"@)),
        decreases attribute_names.len() - i,
    {
        if let Some(n) = attribute_names[i] {
            if str_eq(n, "display") || str_eq(n, "visibility") {
                return true;
            }
        }
        i = i + 1;
    }
    false
}

/// Whether one of the animations (by `attributeName`) animates one of `names`.
pub fn has_paint_animation(attribute_names: &[Option<&str>], names: &[&str]) -> (r: bool)
    ensures
        r == exists|i: int, j: int|
            0 <= i < attribute_names@.len() && 0 <= j < names@.len() && str_opt(
                #[trigger] attribute_names@[i],
            ) == Some((#[trigger] names@[j])@),
{
    let mut i: usize = 0;
    while i < attribute_names.len()
        invariant
            0 <= i <= attribute_names@.len(),
            forall|k: int, j: int|
                0 <= k < i && 0 <= j < names@.len() ==> str_opt(#[trigger] attribute_names@[k])
                    != Some((#[trigger] names@[j])@),
        decreases attribute_names.len() - i,
    {
        if let Some(n) = attribute_names[i] {
            let mut j: usize = 0;
            while j < names.len()
                invariant
                    0 <= j <= names@.len(),
                    0 <= i < attribute_names@.len(),
                    attribute_names@[i as int] == Some(n),
                    forall|m: int| 0 <= m < j ==> n@ != (#[trigger] names@[m])@,
                decreases names.len() - j,
            {
                if str_eq(n, names[j]) {
                    assert(str_opt(attribute_names@[i as int]) == Some(names@[j as int]@));
                    return true;
                }
                j = j + 1;
            }
        }
        i = i + 1;
    }
    false
}

/// Animations of elements whose animations are not attached, such as text.
#[derive(Clone, Copy, Debug, PartialEq, Eq, Structural)]
pub enum AttachmentWarning {
    TextAnimation,
    FilterContentAnimation,
}

impl AttachmentWarning {
    /// The text that is logged for this warning.
    pub fn message(&self) -> (r: &'static str)
        ensures
            r@ == attachment_message(*self),
    {
        match self {
            AttachmentWarning::TextAnimation => "Animation of text elements is not supported.",
            AttachmentWarning::FilterContentAnimation => "Animation of filter content is not supported.",
        }
    }
}

pub open spec fn attachment_message(w: AttachmentWarning) -> Seq<char> {
    match w {
        AttachmentWarning::TextAnimation => "Animation of text elements is not supported."@,
        AttachmentWarning::FilterContentAnimation => "Animation of filter content is not supported."@,
    }
}

/// A text element warns when an animation is nested in it or aimed at it.
pub fn warn_text_animations(nested: bool, remote: bool) -> (r: Option<AttachmentWarning>)
    ensures
        r == (if nested || remote {
            Some(AttachmentWarning::TextAnimation)
        } else {
            None
        }),
{
    if nested || remote {
        Some(AttachmentWarning::TextAnimation)
    } else {
        None
    }
}

/// Filter content warns when an animation is nested in it or aimed inside it.
pub fn warn_filter_content_animations(nested: bool, remote: bool) -> (r: Option<AttachmentWarning>)
    ensures
        r == (if nested || remote {
            Some(AttachmentWarning::FilterContentAnimation)
        } else {
            None
        }),
{
    if nested || remote {
        Some(AttachmentWarning::FilterContentAnimation)
    } else {
        None
    }
}


/// Whether two verb sequences are the same.
fn same_verbs(a: &[u8], b: &[u8]) -> (r: bool)
    ensures
        r == (a@ == b@),
{
    if a.len() != b.len() {
        return false;
    }
    let mut i: usize = 0;
    while i < a.len()
        invariant
            a.len() == b.len(),
            i <= a.len(),
            forall|k: int| 0 <= k < i ==> a@[k] == b@[k],
        decreases a.len() - i,
    {
        if a[i] != b[i] {
            return false;
        }
        i = i + 1;
    }
    assert(a@ =~= b@);
    true
}

/// Every baked keyframe path shares the verb sequence of the first.
pub open spec fn verbs_agree(verb_lists: Seq<Seq<u8>>) -> bool {
    forall|i: int| 0 <= i < verb_lists.len() ==> #[trigger] verb_lists[i] == verb_lists[0]
}

/// The verb sequences of a list of keyframe paths, as plain sequences.
pub open spec fn verb_seqs(verb_lists: Seq<Vec<u8>>) -> Seq<Seq<u8>> {
    verb_lists.map_values(|v: Vec<u8>| v@)
}

/// Reports whether every keyframe path, given by its verb sequence, has the
/// verbs of the first; no keyframes at all agree.
pub fn verbs_match(verb_lists: &[Vec<u8>]) -> (r: bool)
    ensures
        r == verbs_agree(verb_seqs(verb_lists@)),
{
    if verb_lists.len() == 0 {
        return true;
    }
    let first = verb_lists[0].as_slice();
    let mut i: usize = 1;
    while i < verb_lists.len()
        invariant
            1 <= i <= verb_lists.len(),
            first@ == verb_lists@[0]@,
            forall|k: int| 0 <= k < i ==> #[trigger] verb_lists@[k]@ == verb_lists@[0]@,
        decreases verb_lists.len() - i,
    {
        if !same_verbs(verb_lists[i].as_slice(), first) {
            assert(verb_seqs(verb_lists@)[i as int] != verb_seqs(verb_lists@)[0]);
            return false;
        }
        i = i + 1;
    }
    assert forall|k: int| 0 <= k < verb_lists@.len() implies #[trigger] verb_seqs(
        verb_lists@,
    )[k] == verb_seqs(verb_lists@)[0] by {
        assert(verb_lists@[k]@ == verb_lists@[0]@);
    }
    true
}

/// How the baked keyframe paths of a shape-geometry animation become a track.
#[derive(Clone, Copy, Debug, PartialEq, Eq, Structural)]
pub struct GeometryBakePlan {
    /// The interpolation of the track: the animation's own where the keyframe
    /// paths share their verbs, else discrete.
    pub calc_mode: CalcMode,
    /// The keyframe paths do not share their verbs, which is warned about.
    pub not_interpolable: bool,
    /// The track replaces the element's geometry (`d` and `points`).
    pub replaces_geometry: bool,
    /// `accumulate="sum"` on `d` or `points` is ignored with a warning.
    pub accumulate_ignored: bool,
    /// A per-iteration accumulation offset is taken from the last keyframe
    /// (the path subtraction itself is float work outside this plan).
    pub bakes_delta: bool,
}

/// Decides how the keyframe paths baked for a geometry animation, given by
/// their verb sequences, become a track; `raw_texts` marks `d` and `points`.
/// Nothing is baked when no keyframe path was made.
pub fn plan_geometry_bake(
    raw_texts: bool,
    verb_lists: &[Vec<u8>],
    calc_mode: CalcMode,
    accumulate: Accumulate,
) -> (r: Option<GeometryBakePlan>)
    ensures
        r is None <==> verb_lists.len() == 0,
        r matches Some(p) ==> {
            let agree = verbs_agree(verb_seqs(verb_lists@));
            &&& p.not_interpolable == !agree
            &&& p.calc_mode == (if agree {
                calc_mode
            } else {
                CalcMode::Discrete
            })
            &&& p.replaces_geometry == raw_texts
            &&& p.accumulate_ignored == (accumulate == Accumulate::Sum && raw_texts)
            &&& p.bakes_delta == (accumulate == Accumulate::Sum && !raw_texts && agree
                && verb_lists.len() >= 2)
        },
{
    if verb_lists.len() == 0 {
        return None;
    }
    let interpolable = verbs_match(verb_lists);
    let sum = accumulate == Accumulate::Sum;
    Some(GeometryBakePlan {
        calc_mode: if interpolable {
            calc_mode
        } else {
            CalcMode::Discrete
        },
        not_interpolable: !interpolable,
        replaces_geometry: raw_texts,
        accumulate_ignored: sum && raw_texts,
        bakes_delta: sum && !raw_texts && interpolable && verb_lists.len() >= 2,
    })
}

} // verus!
