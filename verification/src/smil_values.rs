//! The value layer of SMIL `<animate>`/`<set>`: which attributes can be
//! animated, how their value forms become a track, and the attributes whose
//! values are read here in full (paints and keywords).

use vstd::prelude::*;
use crate::forms::{
    build_forms, dasharray_calc_mode, discrete_from_to_midpoint, form_texts, same_lengths, forms_track, is_from_to, midpoint_spec,
    resolve_accumulate, slice_opt, str_opt, texts_spec, FormRules, FormTexts, FormsError,
    Keyframe, ParsedForms, ParsedView, TextsView,
};
use crate::kinds::{Accumulate, Additive, AnimationVisibility, CalcMode, FillRule};
use crate::paint::{
    color_form_of, parse_color_form, parse_css_color, svg_color, svg_paint, Color, ColorForm, PaintView,
};
use crate::presentation::{
    display_of, fill_rule_of, linecap_of, linejoin_of, parse_display, parse_fill_rule,
    parse_linecap, parse_linejoin, parse_visibility, visibility_of, LineCap, LineJoin,
    fill_rule_keyword, lemma_display_and_visibility_keywords, lemma_stroke_keywords,
    linecap_keyword, linejoin_keyword, visibility_keyword,
};
use crate::text::str_eq;
use crate::warnings::{
    messages, quoted, value_warning_message, warn_invalid_value, warn_not_interpolable,
    warn_unsupported_accumulate, ValueWarning,
};

verus! {

broadcast use vstd::string::group_string_axioms;

/// The value type that an animated attribute takes.
#[derive(Clone, Copy, Debug, PartialEq, Eq, Structural)]
pub enum ValueKind {
    Opacity,
    StopOpacity,
    Fill,
    Stroke,
    StopColor,
    StrokeWidth,
    StrokeDashoffset,
    StrokeDasharray,
    StrokeMiterlimit,
    StrokeLinecap,
    StrokeLinejoin,
    FillRule,
    Display,
    Visibility,
    /// A gradient stop's `offset`.
    StopOffset,
    /// A length of a shape, image or gradient (`cx`, `r`, `x1`, `width`, ...).
    Geometry,
    ViewBox,
}

/// How `<animate>` treats an attribute name.
#[derive(Clone, Copy, Debug, PartialEq, Eq, Structural)]
pub enum SmilAttribute {
    /// A value animation of the given kind.
    Value(ValueKind),
    /// `transform`/`gradientTransform`, which `<animateTransform>` handles.
    Transform,
    /// Anything else, which is reported.
    Unsupported,
}

pub open spec fn is_geometry_name(name: Seq<char>) -> bool {
    name == "cx"@ || name == "cy"@ || name == "r"@ || name == "rx"@ || name == "ry"@ || name
        == "x"@ || name == "y"@ || name == "x1"@ || name == "y1"@ || name == "x2"@ || name
        == "y2"@ || name == "width"@ || name == "height"@ || name == "fr"@ || name == "fx"@
        || name == "fy"@
}

pub open spec fn smil_attribute_spec(name: Seq<char>) -> SmilAttribute {
    if name == "opacity"@ {
        SmilAttribute::Value(ValueKind::Opacity)
    } else if name == "stop-opacity"@ {
        SmilAttribute::Value(ValueKind::StopOpacity)
    } else if name == "fill"@ {
        SmilAttribute::Value(ValueKind::Fill)
    } else if name == "stroke"@ {
        SmilAttribute::Value(ValueKind::Stroke)
    } else if name == "stop-color"@ {
        SmilAttribute::Value(ValueKind::StopColor)
    } else if name == "stroke-width"@ {
        SmilAttribute::Value(ValueKind::StrokeWidth)
    } else if name == "stroke-dashoffset"@ {
        SmilAttribute::Value(ValueKind::StrokeDashoffset)
    } else if name == "stroke-dasharray"@ {
        SmilAttribute::Value(ValueKind::StrokeDasharray)
    } else if name == "stroke-miterlimit"@ {
        SmilAttribute::Value(ValueKind::StrokeMiterlimit)
    } else if name == "stroke-linecap"@ {
        SmilAttribute::Value(ValueKind::StrokeLinecap)
    } else if name == "stroke-linejoin"@ {
        SmilAttribute::Value(ValueKind::StrokeLinejoin)
    } else if name == "fill-rule"@ {
        SmilAttribute::Value(ValueKind::FillRule)
    } else if name == "display"@ {
        SmilAttribute::Value(ValueKind::Display)
    } else if name == "visibility"@ {
        SmilAttribute::Value(ValueKind::Visibility)
    } else if name == "offset"@ {
        SmilAttribute::Value(ValueKind::StopOffset)
    } else if is_geometry_name(name) {
        SmilAttribute::Value(ValueKind::Geometry)
    } else if name == "viewBox"@ {
        SmilAttribute::Value(ValueKind::ViewBox)
    } else if name == "transform"@ || name == "gradientTransform"@ {
        SmilAttribute::Transform
    } else {
        SmilAttribute::Unsupported
    }
}

fn is_geometry_attribute(name: &str) -> (r: bool)
    ensures
        r == is_geometry_name(name@),
{
    str_eq(name, "cx") || str_eq(name, "cy") || str_eq(name, "r") || str_eq(name, "rx")
        || str_eq(name, "ry") || str_eq(name, "x") || str_eq(name, "y") || str_eq(name, "x1")
        || str_eq(name, "y1") || str_eq(name, "x2") || str_eq(name, "y2") || str_eq(
        name,
        "width",
    ) || str_eq(name, "height") || str_eq(name, "fr") || str_eq(name, "fx") || str_eq(name, "fy")
}

/// Classifies the `attributeName` of an `<animate>`, `<animateColor>` or `<set>`.
pub fn smil_attribute(name: &str) -> (r: SmilAttribute)
    ensures
        r == smil_attribute_spec(name@),
{
    if str_eq(name, "opacity") {
        SmilAttribute::Value(ValueKind::Opacity)
    } else if str_eq(name, "stop-opacity") {
        SmilAttribute::Value(ValueKind::StopOpacity)
    } else if str_eq(name, "fill") {
        SmilAttribute::Value(ValueKind::Fill)
    } else if str_eq(name, "stroke") {
        SmilAttribute::Value(ValueKind::Stroke)
    } else if str_eq(name, "stop-color") {
        SmilAttribute::Value(ValueKind::StopColor)
    } else if str_eq(name, "stroke-width") {
        SmilAttribute::Value(ValueKind::StrokeWidth)
    } else if str_eq(name, "stroke-dashoffset") {
        SmilAttribute::Value(ValueKind::StrokeDashoffset)
    } else if str_eq(name, "stroke-dasharray") {
        SmilAttribute::Value(ValueKind::StrokeDasharray)
    } else if str_eq(name, "stroke-miterlimit") {
        SmilAttribute::Value(ValueKind::StrokeMiterlimit)
    } else if str_eq(name, "stroke-linecap") {
        SmilAttribute::Value(ValueKind::StrokeLinecap)
    } else if str_eq(name, "stroke-linejoin") {
        SmilAttribute::Value(ValueKind::StrokeLinejoin)
    } else if str_eq(name, "fill-rule") {
        SmilAttribute::Value(ValueKind::FillRule)
    } else if str_eq(name, "display") {
        SmilAttribute::Value(ValueKind::Display)
    } else if str_eq(name, "visibility") {
        SmilAttribute::Value(ValueKind::Visibility)
    } else if str_eq(name, "offset") {
        SmilAttribute::Value(ValueKind::StopOffset)
    } else if is_geometry_attribute(name) {
        SmilAttribute::Value(ValueKind::Geometry)
    } else if str_eq(name, "viewBox") {
        SmilAttribute::Value(ValueKind::ViewBox)
    } else if str_eq(name, "transform") || str_eq(name, "gradientTransform") {
        SmilAttribute::Transform
    } else {
        SmilAttribute::Unsupported
    }
}

/// How the `by` forms treat each kind of value.
pub open spec fn kind_rules(kind: ValueKind) -> FormRules {
    match kind {
        ValueKind::Opacity | ValueKind::StopOpacity | ValueKind::StrokeWidth
        | ValueKind::StrokeDashoffset | ValueKind::StopOffset => FormRules {
            is_geometry: false,
            supports_delta: true,
            has_zero: true,
        },
        ValueKind::StrokeDasharray | ValueKind::StrokeMiterlimit => FormRules {
            is_geometry: false,
            supports_delta: true,
            has_zero: false,
        },
        ValueKind::Geometry => FormRules { is_geometry: true, supports_delta: true, has_zero: true },
        ValueKind::ViewBox => FormRules { is_geometry: true, supports_delta: true, has_zero: false },
        _ => FormRules { is_geometry: false, supports_delta: false, has_zero: false },
    }
}

pub fn form_rules(kind: ValueKind) -> (r: FormRules)
    ensures
        r == kind_rules(kind),
{
    match kind {
        ValueKind::Opacity | ValueKind::StopOpacity | ValueKind::StrokeWidth
        | ValueKind::StrokeDashoffset | ValueKind::StopOffset => FormRules {
            is_geometry: false,
            supports_delta: true,
            has_zero: true,
        },
        ValueKind::StrokeDasharray | ValueKind::StrokeMiterlimit => FormRules {
            is_geometry: false,
            supports_delta: true,
            has_zero: false,
        },
        ValueKind::Geometry => FormRules { is_geometry: true, supports_delta: true, has_zero: true },
        ValueKind::ViewBox => FormRules { is_geometry: true, supports_delta: true, has_zero: false },
        _ => FormRules { is_geometry: false, supports_delta: false, has_zero: false },
    }
}

/// Keyword kinds step discretely and cannot accumulate.
pub open spec fn is_keyword_kind(kind: ValueKind) -> bool {
    kind == ValueKind::StrokeLinecap || kind == ValueKind::StrokeLinejoin || kind
        == ValueKind::FillRule || kind == ValueKind::Display || kind == ValueKind::Visibility
}

/// `display` and `visibility` switch a `from`/`to` pair half-way.
pub open spec fn switches_half_way(kind: ValueKind) -> bool {
    kind == ValueKind::Display || kind == ValueKind::Visibility
}

/// The parsed result of a SMIL value animation.
pub struct SmilValues<K, T> {
    /// The keyframe track.
    pub keyframes: Vec<Keyframe<K, T>>,
    /// The resolved additive behavior.
    pub additive: Additive,
    /// The resolved accumulate behavior.
    pub accumulate: Accumulate,
    /// The resolved calculation mode.
    pub calc_mode: CalcMode,
}

pub struct SmilValuesView<K, T> {
    pub keyframes: Seq<Keyframe<K, T>>,
    pub additive: Additive,
    pub accumulate: Accumulate,
    pub calc_mode: CalcMode,
}

impl<K, T> View for SmilValues<K, T> {
    type V = SmilValuesView<K, T>;

    open spec fn view(&self) -> SmilValuesView<K, T> {
        SmilValuesView {
            keyframes: self.keyframes@,
            additive: self.additive,
            accumulate: self.accumulate,
            calc_mode: self.calc_mode,
        }
    }
}

pub open spec fn opt_values_view<K, T>(r: Option<SmilValues<K, T>>) -> Option<SmilValuesView<K, T>> {
    match r {
        Some(v) => Some(v@),
        None => None,
    }
}

/// The track of parsed forms for an attribute of `kind`, with the messages it
/// reports.
pub open spec fn track_spec<K, T>(
    kind: ValueKind,
    forms: ParsedView<T>,
    texts: TextsView,
    key_times: Option<Seq<K>>,
    additive: Additive,
    accumulate: Accumulate,
    calc_mode: CalcMode,
    base: Option<T>,
) -> (Option<SmilValuesView<K, T>>, Seq<Seq<char>>) {
    match forms_track(forms, key_times, additive, kind_rules(kind), base) {
        Err(FormsError::NoTrack) => (None, Seq::empty()),
        Err(FormsError::DeltaUnsupported) => (
            None,
            seq![
                quoted(
                    "Invalid animation value: '"@,
                    match texts.by {
                        Some(b) => b,
                        None => Seq::empty(),
                    },
                ),
            ],
        ),
        Ok((kfs, add)) => {
            let dropped = is_keyword_kind(kind) && accumulate == Accumulate::Sum;
            (
                Some(
                    SmilValuesView {
                        keyframes: if switches_half_way(kind) {
                            midpoint_spec(kfs, is_from_to(texts))
                        } else {
                            kfs
                        },
                        additive: add,
                        accumulate: if dropped {
                            Accumulate::NoAccumulate
                        } else {
                            accumulate
                        },
                        calc_mode: if is_keyword_kind(kind) {
                            CalcMode::Discrete
                        } else {
                            calc_mode
                        },
                    },
                ),
                if dropped {
                    seq!["Unsupported accumulate value; ignoring."@]
                } else {
                    Seq::empty()
                },
            )
        },
    }
}

/// Builds the track of an attribute of `kind` from its parsed forms, applying
/// the rules of the kind: keyword kinds step discretely and do not
/// accumulate, and `display`/`visibility` switch a `from`/`to` pair half-way.
fn build_any_track<K: Copy, T>(
    kind: ValueKind,
    forms: ParsedForms<T>,
    texts: &FormTexts,
    key_times: Option<&[K]>,
    additive: Additive,
    accumulate: Accumulate,
    calc_mode: CalcMode,
    base: Option<T>,
    warnings: &mut Vec<ValueWarning>,
) -> (r: Option<SmilValues<K, T>>)
    ensures
        (opt_values_view(r), messages(final(warnings)@).skip(old(warnings)@.len() as int))
            == track_spec(
            kind,
            forms@,
            texts@,
            slice_opt(key_times),
            additive,
            accumulate,
            calc_mode,
            base,
        ),
        messages(final(warnings)@).take(old(warnings)@.len() as int) == messages(old(warnings)@),
        old(warnings)@.len() <= final(warnings)@.len(),
{
    let ghost before = warnings@;
    let ghost fv = forms@;
    let built = build_forms(forms, key_times, additive, form_rules(kind), base);
    match built {
        Err(FormsError::NoTrack) => {
            assert(messages(warnings@).skip(before.len() as int) =~= Seq::empty());
            assert(messages(warnings@).take(before.len() as int) =~= messages(before));
            None
        },
        Err(FormsError::DeltaUnsupported) => {
            let w = match &texts.by {
                Some(b) => warn_invalid_value(b.as_str()),
                None => warn_invalid_value(""),
            };
            proof {
                reveal_strlit("");
            }
            warnings.push(w);
            assert(messages(warnings@) =~= messages(before).push(
                crate::warnings::value_warning_message(w),
            ));
            assert(messages(warnings@).skip(before.len() as int) =~= seq![
                crate::warnings::value_warning_message(w),
            ]);
            assert(messages(warnings@).take(before.len() as int) =~= messages(before));
            None
        },
        Ok((keyframes, add)) => {
            let keyframes = if matches!(kind, ValueKind::Display | ValueKind::Visibility) {
                discrete_from_to_midpoint(keyframes, texts)
            } else {
                keyframes
            };
            let keyword = matches!(
                kind,
                ValueKind::StrokeLinecap | ValueKind::StrokeLinejoin | ValueKind::FillRule
                    | ValueKind::Display | ValueKind::Visibility
            );
            let (acc, dropped) = resolve_accumulate(accumulate, !keyword);
            if dropped {
                warnings.push(warn_unsupported_accumulate());
                assert(messages(warnings@).skip(before.len() as int) =~= seq![
                    "Unsupported accumulate value; ignoring."@,
                ]);
            } else {
                assert(messages(warnings@).skip(before.len() as int) =~= Seq::empty());
            }
            assert(messages(warnings@).take(before.len() as int) =~= messages(before));
            let calc = if keyword {
                CalcMode::Discrete
            } else {
                calc_mode
            };
            Some(SmilValues { keyframes, additive: add, accumulate: acc, calc_mode: calc })
        },
    }
}

/// Builds the track of an attribute of `kind` from its parsed forms, applying
/// the rules of the kind: keyword kinds step discretely and do not
/// accumulate, and `display`/`visibility` switch a `from`/`to` pair half-way.
///
/// `stroke-dasharray`, whose values are lists, is built by `build_list_track`,
/// which also checks the lengths of the lists.
pub fn build_track<K: Copy, T>(
    kind: ValueKind,
    forms: ParsedForms<T>,
    texts: &FormTexts,
    key_times: Option<&[K]>,
    additive: Additive,
    accumulate: Accumulate,
    calc_mode: CalcMode,
    base: Option<T>,
    warnings: &mut Vec<ValueWarning>,
) -> (r: Option<SmilValues<K, T>>)
    requires
        kind != ValueKind::StrokeDasharray,
    ensures
        (opt_values_view(r), messages(final(warnings)@).skip(old(warnings)@.len() as int))
            == track_spec(
            kind,
            forms@,
            texts@,
            slice_opt(key_times),
            additive,
            accumulate,
            calc_mode,
            base,
        ),
        messages(final(warnings)@).take(old(warnings)@.len() as int) == messages(old(warnings)@),
        old(warnings)@.len() <= final(warnings)@.len(),
{
    build_any_track(kind, forms, texts, key_times, additive, accumulate, calc_mode, base, warnings)
}

/// The track of list values: as `track_spec`, except that a `stroke-dasharray`
/// track whose lists differ in length cannot interpolate; it steps
/// discretely, which is reported.
pub open spec fn list_track_spec<K, E>(
    kind: ValueKind,
    forms: ParsedView<Vec<E>>,
    texts: TextsView,
    key_times: Option<Seq<K>>,
    additive: Additive,
    accumulate: Accumulate,
    calc_mode: CalcMode,
    base: Option<Vec<E>>,
) -> (Option<SmilValuesView<K, Vec<E>>>, Seq<Seq<char>>) {
    let (t, ms) = track_spec(kind, forms, texts, key_times, additive, accumulate, calc_mode, base);
    match t {
        Some(v) => if kind == ValueKind::StrokeDasharray && !same_lengths(v.keyframes) {
            (
                Some(
                    SmilValuesView {
                        keyframes: v.keyframes,
                        additive: v.additive,
                        accumulate: v.accumulate,
                        calc_mode: CalcMode::Discrete,
                    },
                ),
                ms.push(value_warning_message(ValueWarning::NotInterpolable)),
            )
        } else {
            (t, ms)
        },
        None => (t, ms),
    }
}

/// Builds the track of an attribute whose values are lists, such as
/// `stroke-dasharray`: as `build_track`, and a `stroke-dasharray` track whose
/// lists differ in length steps discretely.
pub fn build_list_track<K: Copy, E>(
    kind: ValueKind,
    forms: ParsedForms<Vec<E>>,
    texts: &FormTexts,
    key_times: Option<&[K]>,
    additive: Additive,
    accumulate: Accumulate,
    calc_mode: CalcMode,
    base: Option<Vec<E>>,
    warnings: &mut Vec<ValueWarning>,
) -> (r: Option<SmilValues<K, Vec<E>>>)
    ensures
        (opt_values_view(r), messages(final(warnings)@).skip(old(warnings)@.len() as int))
            == list_track_spec(
            kind,
            forms@,
            texts@,
            slice_opt(key_times),
            additive,
            accumulate,
            calc_mode,
            base,
        ),
        messages(final(warnings)@).take(old(warnings)@.len() as int) == messages(old(warnings)@),
        old(warnings)@.len() <= final(warnings)@.len(),
{
    let ghost before = warnings@;
    let built = build_any_track(
        kind,
        forms,
        texts,
        key_times,
        additive,
        accumulate,
        calc_mode,
        base,
        warnings,
    );
    match built {
        None => None,
        Some(track) => {
            if kind != ValueKind::StrokeDasharray {
                return Some(track);
            }
            let (calc, not_interpolable) = dasharray_calc_mode(track.keyframes.as_slice(), track.calc_mode);
            if !not_interpolable {
                return Some(track);
            }
            let ghost mid = warnings@;
            warnings.push(warn_not_interpolable());
            proof {
                assert(messages(warnings@) =~= messages(mid).push(
                    value_warning_message(ValueWarning::NotInterpolable),
                ));
                assert(messages(warnings@).take(before.len() as int) =~= messages(mid).take(
                    before.len() as int,
                ));
                assert(messages(warnings@).skip(before.len() as int) =~= messages(mid).skip(
                    before.len() as int,
                ).push(value_warning_message(ValueWarning::NotInterpolable)));
            }
            Some(
                SmilValues {
                    keyframes: track.keyframes,
                    additive: track.additive,
                    accumulate: track.accumulate,
                    calc_mode: calc,
                },
            )
        },
    }
}


/// A value of an attribute that carries no number: a paint color or a keyword.
#[derive(Clone, Copy, Debug, PartialEq, Eq, Structural)]
pub enum PlainValue {
    Color(Color),
    LineCap(LineCap),
    LineJoin(LineJoin),
    FillRule(FillRule),
    /// `display`: whether the element is shown.
    Display(bool),
    Visibility(AnimationVisibility),
}

/// The kinds whose values are read here in full.
pub open spec fn is_plain_kind(kind: ValueKind) -> bool {
    kind == ValueKind::Fill || kind == ValueKind::Stroke || kind == ValueKind::StopColor
        || is_keyword_kind(kind)
}

pub fn plain_kind(kind: ValueKind) -> (r: bool)
    ensures
        r == is_plain_kind(kind),
{
    matches!(
        kind,
        ValueKind::Fill | ValueKind::Stroke | ValueKind::StopColor | ValueKind::StrokeLinecap
            | ValueKind::StrokeLinejoin | ValueKind::FillRule | ValueKind::Display
            | ValueKind::Visibility
    )
}

/// Whether `value` is a value of an attribute of `kind`.
pub open spec fn fits_kind(kind: ValueKind, value: PlainValue) -> bool {
    match value {
        PlainValue::Color(_) => kind == ValueKind::Fill || kind == ValueKind::Stroke || kind
            == ValueKind::StopColor,
        PlainValue::LineCap(_) => kind == ValueKind::StrokeLinecap,
        PlainValue::LineJoin(_) => kind == ValueKind::StrokeLinejoin,
        PlainValue::FillRule(_) => kind == ValueKind::FillRule,
        PlainValue::Display(_) => kind == ValueKind::Display,
        PlainValue::Visibility(_) => kind == ValueKind::Visibility,
    }
}

/// The base value, when it is of the attribute's kind.
pub open spec fn base_for(kind: ValueKind, base: Option<PlainValue>) -> Option<PlainValue> {
    match base {
        Some(v) => if fits_kind(kind, v) {
            Some(v)
        } else {
            None
        },
        None => None,
    }
}

fn base_of_kind(kind: ValueKind, base: Option<PlainValue>) -> (r: Option<PlainValue>)
    ensures
        r == base_for(kind, base),
{
    match base {
        None => None,
        Some(v) => {
            let fits = match v {
                PlainValue::Color(_) => matches!(
                    kind,
                    ValueKind::Fill | ValueKind::Stroke | ValueKind::StopColor
                ),
                PlainValue::LineCap(_) => matches!(kind, ValueKind::StrokeLinecap),
                PlainValue::LineJoin(_) => matches!(kind, ValueKind::StrokeLinejoin),
                PlainValue::FillRule(_) => matches!(kind, ValueKind::FillRule),
                PlainValue::Display(_) => matches!(kind, ValueKind::Display),
                PlainValue::Visibility(_) => matches!(kind, ValueKind::Visibility),
            };
            if fits {
                Some(v)
            } else {
                None
            }
        },
    }
}

pub open spec fn invalid_message(text: Seq<char>) -> Seq<char> {
    quoted("Invalid animation value: '"@, text)
}

/// One value text of an attribute of `kind`, with the messages it reports.
/// `display`/`visibility` take `inherit` from the base value (shown and
/// visible when there is none).
pub open spec fn plain_item(kind: ValueKind, text: Seq<char>, base: Option<PlainValue>) -> (
    Option<PlainValue>,
    Seq<Seq<char>>,
) {
    match kind {
        ValueKind::Fill | ValueKind::Stroke | ValueKind::StopColor => match color_form_of(
            svg_paint(text),
        ) {
            ColorForm::Color(c) => (Some(PlainValue::Color(c)), Seq::empty()),
            ColorForm::Url => (None, seq![quoted("Unsupported paint value: '"@, text)]),
            ColorForm::Invalid => (None, seq![invalid_message(text)]),
        },
        ValueKind::StrokeLinecap => match linecap_of(text) {
            Some(v) => (Some(PlainValue::LineCap(v)), Seq::empty()),
            None => (None, seq![invalid_message(text)]),
        },
        ValueKind::StrokeLinejoin => match linejoin_of(text) {
            Some(v) => (Some(PlainValue::LineJoin(v)), Seq::empty()),
            None => (None, seq![invalid_message(text)]),
        },
        ValueKind::FillRule => match fill_rule_of(text) {
            Some(v) => (Some(PlainValue::FillRule(v)), Seq::empty()),
            None => (None, seq![invalid_message(text)]),
        },
        ValueKind::Display => {
            let inherited = match base_for(kind, base) {
                Some(PlainValue::Display(b)) => b,
                _ => true,
            };
            (Some(PlainValue::Display(display_of(text, inherited))), Seq::empty())
        },
        ValueKind::Visibility => {
            let inherited = match base_for(kind, base) {
                Some(PlainValue::Visibility(v)) => v,
                _ => AnimationVisibility::Visible,
            };
            match visibility_of(text, inherited) {
                Some(v) => (Some(PlainValue::Visibility(v)), Seq::empty()),
                None => (None, seq![invalid_message(text)]),
            }
        },
        _ => (None, Seq::empty()),
    }
}

proof fn lemma_push_message(before: Seq<ValueWarning>, w: ValueWarning)
    ensures
        messages(before.push(w)).skip(before.len() as int) == seq![
            crate::warnings::value_warning_message(w),
        ],
        messages(before.push(w)).take(before.len() as int) == messages(before),
{
    assert(messages(before.push(w)).skip(before.len() as int) =~= seq![
        crate::warnings::value_warning_message(w),
    ]);
    assert(messages(before.push(w)).take(before.len() as int) =~= messages(before));
}

/// Reads one value text of an attribute of `kind`.
pub fn parse_plain_item(
    kind: ValueKind,
    text: &str,
    base: Option<PlainValue>,
    warnings: &mut Vec<ValueWarning>,
) -> (r: Option<PlainValue>)
    ensures
        (r, messages(final(warnings)@).skip(old(warnings)@.len() as int)) == plain_item(
            kind,
            text@,
            base,
        ),
        messages(final(warnings)@).take(old(warnings)@.len() as int) == messages(old(warnings)@),
        old(warnings)@.len() <= final(warnings)@.len(),
{
    let ghost before = warnings@;
    let base = base_of_kind(kind, base);
    let r = match kind {
        ValueKind::Fill | ValueKind::Stroke | ValueKind::StopColor => {
            match parse_color_form(text, warnings) {
                Some(c) => Some(PlainValue::Color(c)),
                None => None,
            }
        },
        ValueKind::StrokeLinecap => match parse_linecap(text) {
            Some(v) => Some(PlainValue::LineCap(v)),
            None => {
                warnings.push(warn_invalid_value(text));
                None
            },
        },
        ValueKind::StrokeLinejoin => match parse_linejoin(text) {
            Some(v) => Some(PlainValue::LineJoin(v)),
            None => {
                warnings.push(warn_invalid_value(text));
                None
            },
        },
        ValueKind::FillRule => match parse_fill_rule(text) {
            Some(v) => Some(PlainValue::FillRule(v)),
            None => {
                warnings.push(warn_invalid_value(text));
                None
            },
        },
        ValueKind::Display => {
            let inherited = match base {
                Some(PlainValue::Display(b)) => b,
                _ => true,
            };
            Some(PlainValue::Display(parse_display(text, inherited)))
        },
        ValueKind::Visibility => {
            let inherited = match base {
                Some(PlainValue::Visibility(v)) => v,
                _ => AnimationVisibility::Visible,
            };
            match parse_visibility(text, inherited) {
                Some(v) => Some(PlainValue::Visibility(v)),
                None => {
                    warnings.push(warn_invalid_value(text));
                    None
                },
            }
        },
        _ => None,
    };
    proof {
        if warnings@.len() == before.len() {
            assert(warnings@ == before);
            assert(messages(warnings@).skip(before.len() as int) =~= Seq::empty());
            assert(messages(warnings@).take(before.len() as int) =~= messages(before));
        } else {
            assert(warnings@ =~= before.push(warnings@.last()));
            lemma_push_message(before, warnings@.last());
        }
    }
    r
}


/// The value texts of a `values` list, read in order.
pub open spec fn plain_items(kind: ValueKind, items: Seq<Seq<char>>, base: Option<PlainValue>) -> (
    Seq<Option<PlainValue>>,
    Seq<Seq<char>>,
)
    decreases items.len(),
{
    if items.len() == 0 {
        (Seq::empty(), Seq::empty())
    } else {
        let (vs, ws) = plain_items(kind, items.drop_last(), base);
        let (v, w) = plain_item(kind, items.last(), base);
        (vs.push(v), ws + w)
    }
}

/// A `from`/`to`/`by` text, read unless an earlier form already failed.
pub open spec fn plain_endpoint(
    kind: ValueKind,
    text: Option<Seq<char>>,
    base: Option<PlainValue>,
    skip: bool,
) -> (Option<Option<PlainValue>>, Seq<Seq<char>>) {
    match text {
        None => (None, Seq::empty()),
        Some(t) => if skip {
            (Some(None), Seq::empty())
        } else {
            let (v, w) = plain_item(kind, t, base);
            (Some(v), w)
        },
    }
}

/// The forms of an attribute of `kind`, read as `from`, `to`, `by` in that
/// order, stopping at the first that fails.
pub open spec fn plain_forms(kind: ValueKind, texts: TextsView, base: Option<PlainValue>) -> (
    ParsedView<PlainValue>,
    Seq<Seq<char>>,
) {
    match texts.values {
        Some(items) => {
            let (vs, ws) = plain_items(kind, items, base);
            (ParsedView { values: Some(vs), from: None, to: None, by: None }, ws)
        },
        None => {
            let (f, wf) = plain_endpoint(kind, texts.from, base, false);
            let (t, wt) = plain_endpoint(kind, texts.to, base, f == Some(None::<PlainValue>));
            let (b, wb) = plain_endpoint(
                kind,
                texts.by,
                base,
                f == Some(None::<PlainValue>) || t == Some(None::<PlainValue>),
            );
            (ParsedView { values: None, from: f, to: t, by: b }, wf + wt + wb)
        },
    }
}

fn parse_plain_endpoint(
    kind: ValueKind,
    text: &Option<String>,
    base: Option<PlainValue>,
    skip: bool,
    warnings: &mut Vec<ValueWarning>,
) -> (r: Option<Option<PlainValue>>)
    ensures
        (r, messages(final(warnings)@).skip(old(warnings)@.len() as int)) == plain_endpoint(
            kind,
            crate::declarations::opt_view(*text),
            base,
            skip,
        ),
        messages(final(warnings)@).take(old(warnings)@.len() as int) == messages(old(warnings)@),
        old(warnings)@.len() <= final(warnings)@.len(),
{
    let ghost before = warnings@;
    match text {
        None => {
            assert(messages(warnings@).skip(before.len() as int) =~= Seq::empty());
            assert(messages(warnings@).take(before.len() as int) =~= messages(before));
            None
        },
        Some(t) => {
            if skip {
                assert(messages(warnings@).skip(before.len() as int) =~= Seq::empty());
                assert(messages(warnings@).take(before.len() as int) =~= messages(before));
                Some(None)
            } else {
                Some(parse_plain_item(kind, t.as_str(), base, warnings))
            }
        },
    }
}

proof fn lemma_messages_append(a: Seq<ValueWarning>, b: Seq<ValueWarning>, c: Seq<ValueWarning>)
    requires
        messages(b).take(a.len() as int) == messages(a),
        messages(c).take(b.len() as int) == messages(b),
        a.len() <= b.len() <= c.len(),
    ensures
        messages(c).take(a.len() as int) == messages(a),
        messages(c).skip(a.len() as int) == messages(b).skip(a.len() as int) + messages(c).skip(
            b.len() as int,
        ),
{
    assert(messages(b).len() == b.len());
    assert(messages(c).len() == c.len());
    assert(messages(c).take(a.len() as int) =~= messages(c).take(b.len() as int).take(
        a.len() as int,
    ));
    assert(messages(c).skip(a.len() as int) =~= messages(b).skip(a.len() as int) + messages(
        c,
    ).skip(b.len() as int));
}

/// Reads the forms of an attribute of `kind`.
pub fn parse_plain_forms(
    kind: ValueKind,
    texts: &FormTexts,
    base: Option<PlainValue>,
    warnings: &mut Vec<ValueWarning>,
) -> (r: ParsedForms<PlainValue>)
    ensures
        (r@, messages(final(warnings)@).skip(old(warnings)@.len() as int)) == plain_forms(
            kind,
            texts@,
            base,
        ),
        messages(final(warnings)@).take(old(warnings)@.len() as int) == messages(old(warnings)@),
        old(warnings)@.len() <= final(warnings)@.len(),
{
    let ghost before = warnings@;
    match &texts.values {
        Some(items) => {
            let ghost iv = crate::text::texts_of(items@);
            let mut out: Vec<Option<PlainValue>> = Vec::new();
            let mut i: usize = 0;
            assert(messages(warnings@).skip(before.len() as int) =~= Seq::empty());
            assert(messages(warnings@).take(before.len() as int) =~= messages(before));
            assert(iv.take(0) =~= Seq::<Seq<char>>::empty());
            while i < items.len()
                invariant
                    0 <= i <= items@.len(),
                    iv == crate::text::texts_of(items@),
                    before.len() <= warnings@.len(),
                    (out@, messages(warnings@).skip(before.len() as int)) == plain_items(
                        kind,
                        iv.take(i as int),
                        base,
                    ),
                    messages(warnings@).take(before.len() as int) == messages(before),
                decreases items.len() - i,
            {
                let ghost mid = warnings@;
                let v = parse_plain_item(kind, items[i].as_str(), base, warnings);
                proof {
                    lemma_messages_append(before, mid, warnings@);
                    assert(iv.take(i + 1).drop_last() =~= iv.take(i as int));
                    assert(iv.take(i + 1).last() == items@[i as int]@);
                }
                out.push(v);
                i = i + 1;
            }
            assert(iv.take(items@.len() as int) =~= iv);
            ParsedForms { values: Some(out), from: None, to: None, by: None }
        },
        None => {
            let f = parse_plain_endpoint(kind, &texts.from, base, false, warnings);
            let ghost w1 = warnings@;
            let stop1 = matches!(f, Some(None));
            let t = parse_plain_endpoint(kind, &texts.to, base, stop1, warnings);
            let ghost w2 = warnings@;
            proof {
                lemma_messages_append(before, w1, w2);
            }
            let stop2 = stop1 || matches!(t, Some(None));
            let b = parse_plain_endpoint(kind, &texts.by, base, stop2, warnings);
            proof {
                lemma_messages_append(before, w2, warnings@);
                assert(messages(w2).skip(before.len() as int) =~= messages(w1).skip(
                    before.len() as int,
                ) + messages(w2).skip(w1.len() as int));
            }
            ParsedForms { values: None, from: f, to: t, by: b }
        },
    }
}

/// The track of an attribute whose values are read here in full, with the
/// messages it reports.
pub open spec fn plain_values_spec<K>(
    kind: ValueKind,
    values: Option<Seq<char>>,
    from: Option<Seq<char>>,
    to: Option<Seq<char>>,
    by: Option<Seq<char>>,
    additive: Additive,
    accumulate: Accumulate,
    calc_mode: CalcMode,
    key_times: Option<Seq<K>>,
    base: Option<PlainValue>,
) -> (Option<SmilValuesView<K, PlainValue>>, Seq<Seq<char>>) {
    let texts = texts_spec(values, from, to, by);
    let (forms, parse_messages) = plain_forms(kind, texts, base);
    let (track, track_messages) = track_spec(
        kind,
        forms,
        texts,
        key_times,
        additive,
        accumulate,
        calc_mode,
        base_for(kind, base),
    );
    (track, parse_messages + track_messages)
}

/// Parses a SMIL value animation of a paint (`fill`, `stroke`, `stop-color`)
/// or keyword attribute (`stroke-linecap`, `stroke-linejoin`, `fill-rule`,
/// `display`, `visibility`).
///
/// Returns `None` when no track results; what it reports is appended to
/// `warnings`.
pub fn parse_plain_values<K: Copy>(
    kind: ValueKind,
    values: Option<&str>,
    from: Option<&str>,
    to: Option<&str>,
    by: Option<&str>,
    additive: Additive,
    accumulate: Accumulate,
    calc_mode: CalcMode,
    key_times: Option<&[K]>,
    base: Option<PlainValue>,
    warnings: &mut Vec<ValueWarning>,
) -> (r: Option<SmilValues<K, PlainValue>>)
    requires
        is_plain_kind(kind),
    ensures
        (opt_values_view(r), messages(final(warnings)@).skip(old(warnings)@.len() as int))
            == plain_values_spec(
            kind,
            str_opt(values),
            str_opt(from),
            str_opt(to),
            str_opt(by),
            additive,
            accumulate,
            calc_mode,
            slice_opt(key_times),
            base,
        ),
        messages(final(warnings)@).take(old(warnings)@.len() as int) == messages(old(warnings)@),
        old(warnings)@.len() <= final(warnings)@.len(),
{
    let ghost before = warnings@;
    let texts = form_texts(values, from, to, by);
    let forms = parse_plain_forms(kind, &texts, base, warnings);
    let ghost mid = warnings@;
    let r = build_any_track(
        kind,
        forms,
        &texts,
        key_times,
        additive,
        accumulate,
        calc_mode,
        base_of_kind(kind, base),
        warnings,
    );
    proof {
        lemma_messages_append(before, mid, warnings@);
    }
    r
}

/// The static base value of a paint or keyword attribute, from the text that
/// the target inherits for it (for `display` and `visibility`, the text its
/// parent inherits): a paint only when it is a color, and a keyword's default
/// when the text is absent or not a keyword.
pub open spec fn plain_base_spec(kind: ValueKind, inherited: Option<Seq<char>>) -> Option<PlainValue> {
    match kind {
        ValueKind::Fill | ValueKind::Stroke => match inherited {
            Some(t) => match svg_color(t) {
                Some(c) => Some(PlainValue::Color(c)),
                None => None,
            },
            None => None,
        },
        ValueKind::StrokeLinecap => Some(
            PlainValue::LineCap(
                match inherited {
                    Some(t) => match linecap_of(t) {
                        Some(v) => v,
                        None => LineCap::Butt,
                    },
                    None => LineCap::Butt,
                },
            ),
        ),
        ValueKind::StrokeLinejoin => Some(
            PlainValue::LineJoin(
                match inherited {
                    Some(t) => match linejoin_of(t) {
                        Some(v) => v,
                        None => LineJoin::Miter,
                    },
                    None => LineJoin::Miter,
                },
            ),
        ),
        ValueKind::FillRule => Some(
            PlainValue::FillRule(
                match inherited {
                    Some(t) => match fill_rule_of(t) {
                        Some(v) => v,
                        None => FillRule::NonZero,
                    },
                    None => FillRule::NonZero,
                },
            ),
        ),
        ValueKind::Display => Some(PlainValue::Display(inherited != Some("none"@))),
        ValueKind::Visibility => Some(
            PlainValue::Visibility(
                match inherited {
                    Some(t) => match visibility_of(t, AnimationVisibility::Visible) {
                        Some(v) => v,
                        None => AnimationVisibility::Visible,
                    },
                    None => AnimationVisibility::Visible,
                },
            ),
        ),
        _ => None,
    }
}

/// Reads the static base value of a paint or keyword attribute.
pub fn plain_base_value(kind: ValueKind, inherited: Option<&str>) -> (r: Option<PlainValue>)
    ensures
        r == plain_base_spec(kind, str_opt(inherited)),
{
    match kind {
        ValueKind::Fill | ValueKind::Stroke => match inherited {
            Some(t) => match parse_css_color(t) {
                Some(c) => Some(PlainValue::Color(c)),
                None => None,
            },
            None => None,
        },
        ValueKind::StrokeLinecap => Some(
            PlainValue::LineCap(
                match inherited {
                    Some(t) => match parse_linecap(t) {
                        Some(v) => v,
                        None => LineCap::Butt,
                    },
                    None => LineCap::Butt,
                },
            ),
        ),
        ValueKind::StrokeLinejoin => Some(
            PlainValue::LineJoin(
                match inherited {
                    Some(t) => match parse_linejoin(t) {
                        Some(v) => v,
                        None => LineJoin::Miter,
                    },
                    None => LineJoin::Miter,
                },
            ),
        ),
        ValueKind::FillRule => Some(
            PlainValue::FillRule(
                match inherited {
                    Some(t) => match parse_fill_rule(t) {
                        Some(v) => v,
                        None => FillRule::NonZero,
                    },
                    None => FillRule::NonZero,
                },
            ),
        ),
        ValueKind::Display => {
            let hidden = match inherited {
                Some(t) => str_eq(t, "none"),
                None => false,
            };
            Some(PlainValue::Display(!hidden))
        },
        ValueKind::Visibility => Some(
            PlainValue::Visibility(
                match inherited {
                    Some(t) => match parse_visibility(t, AnimationVisibility::Visible) {
                        Some(v) => v,
                        None => AnimationVisibility::Visible,
                    },
                    None => AnimationVisibility::Visible,
                },
            ),
        ),
        _ => None,
    }
}


/// The `attributeName` that names a value kind; geometry kinds have many names.
pub open spec fn value_kind_attribute(k: ValueKind) -> Option<Seq<char>> {
    match k {
        ValueKind::Opacity => Some("opacity"@),
        ValueKind::StopOpacity => Some("stop-opacity"@),
        ValueKind::Fill => Some("fill"@),
        ValueKind::Stroke => Some("stroke"@),
        ValueKind::StopColor => Some("stop-color"@),
        ValueKind::StrokeWidth => Some("stroke-width"@),
        ValueKind::StrokeDashoffset => Some("stroke-dashoffset"@),
        ValueKind::StrokeDasharray => Some("stroke-dasharray"@),
        ValueKind::StrokeMiterlimit => Some("stroke-miterlimit"@),
        ValueKind::StrokeLinecap => Some("stroke-linecap"@),
        ValueKind::StrokeLinejoin => Some("stroke-linejoin"@),
        ValueKind::FillRule => Some("fill-rule"@),
        ValueKind::Display => Some("display"@),
        ValueKind::Visibility => Some("visibility"@),
        ValueKind::StopOffset => Some("offset"@),
        ValueKind::Geometry => None,
        ValueKind::ViewBox => Some("viewBox"@),
    }
}

/// Law: every value kind but geometry is the kind of exactly one
/// `attributeName`, the attribute of the same name: that name is classified as
/// the kind (`"stroke"` as `Stroke`, `"fill"` as `Fill`, ...), and any name
/// classified as the kind is that name, so distinct names give distinct kinds.
pub proof fn lemma_attribute_names_kind(name: Seq<char>, k: ValueKind)
    ensures
        value_kind_attribute(k) matches Some(a) ==> smil_attribute_spec(a) == SmilAttribute::Value(k),
        smil_attribute_spec(name) == SmilAttribute::Value(k) && value_kind_attribute(k) is Some
            ==> name == value_kind_attribute(k)->Some_0,
{
    reveal_strlit("opacity");
    reveal_strlit("stop-opacity");
    reveal_strlit("fill");
    reveal_strlit("stroke");
    reveal_strlit("stop-color");
    reveal_strlit("stroke-width");
    reveal_strlit("stroke-dashoffset");
    reveal_strlit("stroke-dasharray");
    reveal_strlit("stroke-miterlimit");
    reveal_strlit("stroke-linecap");
    reveal_strlit("stroke-linejoin");
    reveal_strlit("fill-rule");
    reveal_strlit("display");
    reveal_strlit("visibility");
    reveal_strlit("offset");
    reveal_strlit("viewBox");
    reveal_strlit("cx");
    reveal_strlit("cy");
    reveal_strlit("r");
    reveal_strlit("rx");
    reveal_strlit("ry");
    reveal_strlit("x");
    reveal_strlit("y");
    reveal_strlit("x1");
    reveal_strlit("y1");
    reveal_strlit("x2");
    reveal_strlit("y2");
    reveal_strlit("width");
    reveal_strlit("height");
    reveal_strlit("fr");
    reveal_strlit("fx");
    reveal_strlit("fy");
    assert("opacity"@.len() == 7);
    assert("stop-opacity"@.len() == 12);
    assert("fill"@.len() == 4);
    assert("stroke"@.len() == 6);
    assert("stop-color"@.len() == 10);
    assert("stroke-width"@.len() == 12);
    assert("stroke-dashoffset"@.len() == 17);
    assert("stroke-dasharray"@.len() == 16);
    assert("stroke-miterlimit"@.len() == 17);
    assert("stroke-linecap"@.len() == 14);
    assert("stroke-linejoin"@.len() == 15);
    assert("fill-rule"@.len() == 9);
    assert("display"@.len() == 7);
    assert("visibility"@.len() == 10);
    assert("offset"@.len() == 6);
    assert("viewBox"@.len() == 7);
    assert("cx"@.len() == 2);
    assert("cy"@.len() == 2);
    assert("r"@.len() == 1);
    assert("rx"@.len() == 2);
    assert("ry"@.len() == 2);
    assert("x"@.len() == 1);
    assert("y"@.len() == 1);
    assert("x1"@.len() == 2);
    assert("y1"@.len() == 2);
    assert("x2"@.len() == 2);
    assert("y2"@.len() == 2);
    assert("width"@.len() == 5);
    assert("height"@.len() == 6);
    assert("fr"@.len() == 2);
    assert("fx"@.len() == 2);
    assert("fy"@.len() == 2);
    assert("stroke-width"@[2] != "stop-opacity"@[2]);
    assert("stroke-miterlimit"@[7] != "stroke-dashoffset"@[7]);
    assert("display"@[0] != "opacity"@[0]);
    assert("visibility"@[0] != "stop-color"@[0]);
    assert("offset"@[0] != "stroke"@[0]);
    assert("viewBox"@[0] != "opacity"@[0]);
    assert("viewBox"@[0] != "display"@[0]);
}


/// Whether a plain value is of the sort that attribute kind `kind` takes.
pub open spec fn plain_value_fits(kind: ValueKind, v: PlainValue) -> bool {
    match v {
        PlainValue::Color(_) => kind == ValueKind::Fill || kind == ValueKind::Stroke || kind
            == ValueKind::StopColor,
        PlainValue::LineCap(_) => kind == ValueKind::StrokeLinecap,
        PlainValue::LineJoin(_) => kind == ValueKind::StrokeLinejoin,
        PlainValue::FillRule(_) => kind == ValueKind::FillRule,
        PlainValue::Display(_) => kind == ValueKind::Display,
        PlainValue::Visibility(_) => kind == ValueKind::Visibility,
    }
}

/// Law: a paint or keyword value text reads as a value of its attribute's
/// own sort, and as the value that the text names: a paint as the color that
/// the text is, a cap, join or rule as the one of the same keyword, and a
/// visibility as the state of the same keyword (or the inherited one).
pub proof fn lemma_plain_item_names(kind: ValueKind, text: Seq<char>, base: Option<PlainValue>)
    ensures
        plain_item(kind, text, base).0 matches Some(v) ==> {
            &&& plain_value_fits(kind, v)
            &&& v matches PlainValue::Color(c) ==> svg_paint(text) == PaintView::Color(c)
            &&& v matches PlainValue::LineCap(x) ==> text == linecap_keyword(x)
            &&& v matches PlainValue::LineJoin(x) ==> text == linejoin_keyword(x)
            &&& v matches PlainValue::FillRule(x) ==> text == fill_rule_keyword(x)
            &&& v matches PlainValue::Visibility(x) ==> text == visibility_keyword(x) || text
                == "inherit"@
        },
{
    lemma_stroke_keywords(text, LineCap::Butt, LineJoin::Miter, FillRule::NonZero);
    lemma_display_and_visibility_keywords(
        text,
        true,
        AnimationVisibility::Visible,
        AnimationVisibility::Visible,
    );
    if kind == ValueKind::Visibility {
        let inherited = match base_for(kind, base) {
            Some(PlainValue::Visibility(v)) => v,
            _ => AnimationVisibility::Visible,
        };
        lemma_display_and_visibility_keywords(
            text,
            true,
            inherited,
            AnimationVisibility::Visible,
        );
    }
}

} // verus!
