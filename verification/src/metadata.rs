//! The `animation-*` longhands and the properties a `@keyframes` rule animates.

use vstd::prelude::*;
use crate::declarations::{decl_views, KeyframeView};
use crate::keyframes::{KeyframesRule, RuleView, rule_views};
use crate::kinds::{CssFillMode, Direction, StepPosition, TransformBox};
use crate::scanner::{split_ranges, split_top_level, tiles};
use crate::number::{f32_finite, f32_finite_non_negative, is_finite_f32, is_finite_non_negative_f32};
use crate::shorthand::time_check_panics;
use crate::text::{
    chars_of, ends_with_ci, eq_ci, is_ws, lemma_eq_ci_apart, lower, range_ends_with_ci, range_eq_ci_str, range_eq_str,
    starts_with_ci, string_of, trim, trim_bounds,
};
use crate::text::texts_of;

verus! {

broadcast use vstd::string::group_string_axioms;

/// The trimmed top-level entries of a comma-separated longhand list.
pub open spec fn split_list_spec(value: Seq<char>) -> Seq<Seq<char>> {
    split_ranges(value, ',', true).map_values(
        |r: (int, int)| trim(value.subrange(r.0, r.1)),
    )
}

/// Splits a longhand list such as `1s, steps(4, end)` at its top-level commas.
pub fn split_list(value: &str) -> (r: Vec<String>)
    ensures
        texts_of(r@) == split_list_spec(value@),
{
    let v = chars_of(value);
    let parts = split_top_level(v.as_slice(), ',', true);
    let ghost all = split_ranges(v@, ',', true);
    let mut out: Vec<String> = Vec::new();
    let mut k: usize = 0;
    while k < parts.len()
        invariant
            v@ == value@,
            parts@.len() == all.len(),
            all == split_ranges(v@, ',', true),
            tiles(v@, ',', 0, all),
            forall|j: int|
                0 <= j < parts@.len() ==> parts@[j].0 as int == all[j].0 && parts@[j].1 as int
                    == all[j].1,
            0 <= k <= parts@.len(),
            out@.len() == k,
            forall|j: int| 0 <= j < k ==> (#[trigger] out@[j])@ == trim(v@.subrange(all[j].0, all[j].1)),
        decreases parts.len() - k,
    {
        let (lo, hi) = parts[k];
        assert(0 <= all[k as int].0 <= all[k as int].1 <= v@.len());
        let (a, b) = trim_bounds(v.as_slice(), lo, hi);
        out.push(string_of(v.as_slice(), a, b));
        k = k + 1;
    }
    assert(texts_of(out@) =~= split_list_spec(value@));
    out
}

/// Reads the `index`th list entry, cycling as CSS does when a longhand list is
/// shorter than the `animation-name` list.
pub fn cycle<T>(list: &[T], index: usize) -> (r: Option<&T>)
    ensures
        list@.len() == 0 ==> r is None,
        list@.len() > 0 ==> r == Some(&list@[(index as int) % (list@.len() as int)]),
{
    if list.len() == 0 {
        None
    } else {
        Some(&list[index % list.len()])
    }
}

/// `animation-direction`; anything unrecognised is `normal`.
pub open spec fn direction_of(value: Seq<char>) -> Direction {
    let v = trim(value);
    if eq_ci(v, "reverse"@) {
        Direction::Reverse
    } else if eq_ci(v, "alternate"@) {
        Direction::Alternate
    } else if eq_ci(v, "alternate-reverse"@) {
        Direction::AlternateReverse
    } else {
        Direction::Normal
    }
}

pub fn parse_direction(value: &str) -> (r: Direction)
    ensures
        r == direction_of(value@),
{
    let v = chars_of(value);
    let (a, b) = trim_bounds(v.as_slice(), 0, v.len());
    assert(v@.subrange(0, v@.len() as int) =~= v@);
    if range_eq_ci_str(v.as_slice(), a, b, "reverse") {
        Direction::Reverse
    } else if range_eq_ci_str(v.as_slice(), a, b, "alternate") {
        Direction::Alternate
    } else if range_eq_ci_str(v.as_slice(), a, b, "alternate-reverse") {
        Direction::AlternateReverse
    } else {
        Direction::Normal
    }
}

/// `animation-fill-mode`; anything unrecognised is `none`.
pub open spec fn fill_mode_of(value: Seq<char>) -> CssFillMode {
    let v = trim(value);
    if eq_ci(v, "forwards"@) {
        CssFillMode::Forwards
    } else if eq_ci(v, "backwards"@) {
        CssFillMode::Backwards
    } else if eq_ci(v, "both"@) {
        CssFillMode::Both
    } else {
        CssFillMode::NoFill
    }
}

pub fn parse_fill_mode(value: &str) -> (r: CssFillMode)
    ensures
        r == fill_mode_of(value@),
{
    let v = chars_of(value);
    let (a, b) = trim_bounds(v.as_slice(), 0, v.len());
    assert(v@.subrange(0, v@.len() as int) =~= v@);
    if range_eq_ci_str(v.as_slice(), a, b, "forwards") {
        CssFillMode::Forwards
    } else if range_eq_ci_str(v.as_slice(), a, b, "backwards") {
        CssFillMode::Backwards
    } else if range_eq_ci_str(v.as_slice(), a, b, "both") {
        CssFillMode::Both
    } else {
        CssFillMode::NoFill
    }
}

/// `animation-play-state: paused`.
pub fn is_paused(value: &str) -> (r: bool)
    ensures
        r == eq_ci(trim(value@), "paused"@),
{
    let v = chars_of(value);
    let (a, b) = trim_bounds(v.as_slice(), 0, v.len());
    assert(v@.subrange(0, v@.len() as int) =~= v@);
    range_eq_ci_str(v.as_slice(), a, b, "paused")
}

/// An `animation-iteration-count` entry.
#[derive(Clone, Debug, PartialEq)]
pub enum IterationCount {
    /// `infinite`.
    Infinite,
    /// A finite count that is not below zero, as its literal.
    Count(String),
}

pub enum IterationCountView {
    Infinite,
    Count(Seq<char>),
}

impl View for IterationCount {
    type V = IterationCountView;

    open spec fn view(&self) -> IterationCountView {
        match self {
            IterationCount::Infinite => IterationCountView::Infinite,
            IterationCount::Count(t) => IterationCountView::Count(t@),
        }
    }
}

/// `animation-iteration-count`: `infinite`, a finite number `>= 0`, and one
/// iteration for anything else.
pub open spec fn iterations_of(value: Seq<char>) -> IterationCountView {
    let v = trim(value);
    if eq_ci(v, "infinite"@) {
        IterationCountView::Infinite
    } else if f32_finite_non_negative(v) {
        IterationCountView::Count(v)
    } else {
        IterationCountView::Count("1"@)
    }
}

pub fn parse_iterations(value: &str) -> (r: IterationCount)
    ensures
        r@ == iterations_of(value@),
{
    let v = chars_of(value);
    let (a, b) = trim_bounds(v.as_slice(), 0, v.len());
    assert(v@.subrange(0, v@.len() as int) =~= v@);
    if range_eq_ci_str(v.as_slice(), a, b, "infinite") {
        IterationCount::Infinite
    } else if is_finite_non_negative_f32(v.as_slice(), a, b) {
        IterationCount::Count(string_of(v.as_slice(), a, b))
    } else {
        IterationCount::Count(String::from_str("1"))
    }
}

/// A CSS `<time>`, its number kept as the text of a finite `f32`.
#[derive(Clone, Debug, PartialEq)]
pub enum CssTime {
    /// A number of milliseconds (`ms`).
    Milliseconds(String),
    /// A number of seconds (`s`, or no unit).
    Seconds(String),
}

pub enum CssTimeView {
    Milliseconds(Seq<char>),
    Seconds(Seq<char>),
}

impl View for CssTime {
    type V = CssTimeView;

    open spec fn view(&self) -> CssTimeView {
        match self {
            CssTime::Milliseconds(t) => CssTimeView::Milliseconds(t@),
            CssTime::Seconds(t) => CssTimeView::Seconds(t@),
        }
    }
}

pub open spec fn time_view(r: Option<CssTime>) -> Option<CssTimeView> {
    match r {
        Some(t) => Some(t@),
        None => None,
    }
}

/// The trimmed number text of a time, when it reads as a finite `f32`.
pub open spec fn finite_text(n: Seq<char>) -> Option<Seq<char>> {
    if f32_finite(trim(n)) {
        Some(trim(n))
    } else {
        None
    }
}

/// An `animation-duration` or `animation-delay` entry: a number ending in
/// `ms`, in `s` (either in any case), or with no unit, which is seconds.
pub open spec fn time_of(value: Seq<char>) -> Option<CssTimeView> {
    let v = trim(value);
    if ends_with_ci(v, "ms"@) {
        match finite_text(v.subrange(0, v.len() - 2)) {
            Some(n) => Some(CssTimeView::Milliseconds(n)),
            None => None,
        }
    } else if ends_with_ci(v, "s"@) {
        match finite_text(v.subrange(0, v.len() - 1)) {
            Some(n) => Some(CssTimeView::Seconds(n)),
            None => None,
        }
    } else {
        match finite_text(v) {
            Some(n) => Some(CssTimeView::Seconds(n)),
            None => None,
        }
    }
}

pub(crate) fn finite_part(v: &[char], lo: usize, hi: usize) -> (r: Option<String>)
    requires
        lo <= hi <= v@.len(),
    ensures
        match r {
            Some(s) => finite_text(v@.subrange(lo as int, hi as int)) == Some(s@),
            None => finite_text(v@.subrange(lo as int, hi as int)) is None,
        },
{
    let (a, b) = trim_bounds(v, lo, hi);
    if is_finite_f32(v, a, b) {
        Some(string_of(v, a, b))
    } else {
        None
    }
}

/// Reads a CSS `<time>`.
///
/// The unit is found by slicing the UTF-8 text a fixed number of bytes from
/// its end, which must fall between characters.
pub fn parse_time(value: &str) -> (r: Option<CssTime>)
    requires
        !time_check_panics(trim(value@)),
    ensures
        time_view(r) == time_of(value@),
{
    let v = chars_of(value);
    let (a, b) = trim_bounds(v.as_slice(), 0, v.len());
    assert(v@.subrange(0, v@.len() as int) =~= v@);
    let ghost t = v@.subrange(a as int, b as int);
    if range_ends_with_ci(v.as_slice(), a, b, "ms") {
        proof {
            reveal_strlit("ms");
        }
        assert(v@.subrange(a as int, b - 2) =~= t.subrange(0, t.len() - 2));
        match finite_part(v.as_slice(), a, b - 2) {
            Some(n) => Some(CssTime::Milliseconds(n)),
            None => None,
        }
    } else if range_ends_with_ci(v.as_slice(), a, b, "s") {
        proof {
            reveal_strlit("s");
        }
        assert(v@.subrange(a as int, b - 1) =~= t.subrange(0, t.len() - 1));
        match finite_part(v.as_slice(), a, b - 1) {
            Some(n) => Some(CssTime::Seconds(n)),
            None => None,
        }
    } else {
        match finite_part(v.as_slice(), a, b) {
            Some(n) => Some(CssTime::Seconds(n)),
            None => None,
        }
    }
}

/// `transform-box`; absent or unrecognised is `view-box`.
pub open spec fn transform_box_of(value: Option<Seq<char>>) -> TransformBox {
    match value {
        None => TransformBox::ViewBox,
        Some(v) => {
            let t = trim(v);
            if t == "content-box"@ {
                TransformBox::ContentBox
            } else if t == "border-box"@ {
                TransformBox::BorderBox
            } else if t == "fill-box"@ {
                TransformBox::FillBox
            } else if t == "stroke-box"@ {
                TransformBox::StrokeBox
            } else {
                TransformBox::ViewBox
            }
        },
    }
}

/// Reads the `transform-box` attribute value, if any.
pub fn read_transform_box(value: Option<&str>) -> (r: TransformBox)
    ensures
        r == transform_box_of(
            match value {
                Some(v) => Some(v@),
                None => None,
            },
        ),
{
    match value {
        None => TransformBox::ViewBox,
        Some(value) => {
            let v = chars_of(value);
            let (a, b) = trim_bounds(v.as_slice(), 0, v.len());
            assert(v@.subrange(0, v@.len() as int) =~= v@);
            if range_eq_str(v.as_slice(), a, b, "content-box") {
                TransformBox::ContentBox
            } else if range_eq_str(v.as_slice(), a, b, "border-box") {
                TransformBox::BorderBox
            } else if range_eq_str(v.as_slice(), a, b, "fill-box") {
                TransformBox::FillBox
            } else if range_eq_str(v.as_slice(), a, b, "stroke-box") {
                TransformBox::StrokeBox
            } else {
                TransformBox::ViewBox
            }
        },
    }
}

/// A `steps()` position keyword.
pub open spec fn step_position_of(keyword: Seq<char>) -> Option<StepPosition> {
    if keyword == "jump-start"@ || keyword == "start"@ {
        Some(StepPosition::JumpStart)
    } else if keyword == "jump-end"@ || keyword == "end"@ {
        Some(StepPosition::JumpEnd)
    } else if keyword == "jump-none"@ {
        Some(StepPosition::JumpNone)
    } else if keyword == "jump-both"@ {
        Some(StepPosition::JumpBoth)
    } else {
        None
    }
}

pub fn parse_step_position(s: &[char], lo: usize, hi: usize) -> (r: Option<StepPosition>)
    requires
        lo <= hi <= s@.len(),
    ensures
        r == step_position_of(s@.subrange(lo as int, hi as int)),
{
    if range_eq_str(s, lo, hi, "jump-start") || range_eq_str(s, lo, hi, "start") {
        Some(StepPosition::JumpStart)
    } else if range_eq_str(s, lo, hi, "jump-end") || range_eq_str(s, lo, hi, "end") {
        Some(StepPosition::JumpEnd)
    } else if range_eq_str(s, lo, hi, "jump-none") {
        Some(StepPosition::JumpNone)
    } else if range_eq_str(s, lo, hi, "jump-both") {
        Some(StepPosition::JumpBoth)
    } else {
        None
    }
}

/// The CSS properties whose `@keyframes` values are converted.
#[derive(Clone, Copy, Debug, PartialEq, Eq, Structural)]
pub enum CssProperty {
    Transform,
    Opacity,
    Fill,
    Stroke,
    StrokeWidth,
    StrokeDashoffset,
    StopColor,
    StopOpacity,
    D,
}

/// Classifies a CSS property name against the supported set.
///
/// `stop-color`/`stop-opacity` are only admitted on `<stop>` targets, while
/// `d` is only admitted on `<path>` targets.
pub open spec fn classify_property_spec(property: Seq<char>, is_stop: bool, is_path: bool) -> Option<
    CssProperty,
> {
    if eq_ci(property, "transform"@) {
        Some(CssProperty::Transform)
    } else if eq_ci(property, "opacity"@) {
        Some(CssProperty::Opacity)
    } else if eq_ci(property, "fill"@) {
        Some(CssProperty::Fill)
    } else if eq_ci(property, "stroke"@) {
        Some(CssProperty::Stroke)
    } else if eq_ci(property, "stroke-width"@) {
        Some(CssProperty::StrokeWidth)
    } else if eq_ci(property, "stroke-dashoffset"@) {
        Some(CssProperty::StrokeDashoffset)
    } else if is_stop && eq_ci(property, "stop-color"@) {
        Some(CssProperty::StopColor)
    } else if is_stop && eq_ci(property, "stop-opacity"@) {
        Some(CssProperty::StopOpacity)
    } else if is_path && eq_ci(property, "d"@) {
        Some(CssProperty::D)
    } else {
        None
    }
}

pub fn classify_property(property: &str, is_stop: bool, is_path: bool) -> (r: Option<CssProperty>)
    ensures
        r == classify_property_spec(property@, is_stop, is_path),
{
    let p = chars_of(property);
    let n = p.len();
    assert(p@.subrange(0, n as int) =~= p@);
    let s = p.as_slice();
    if range_eq_ci_str(s, 0, n, "transform") {
        Some(CssProperty::Transform)
    } else if range_eq_ci_str(s, 0, n, "opacity") {
        Some(CssProperty::Opacity)
    } else if range_eq_ci_str(s, 0, n, "fill") {
        Some(CssProperty::Fill)
    } else if range_eq_ci_str(s, 0, n, "stroke") {
        Some(CssProperty::Stroke)
    } else if range_eq_ci_str(s, 0, n, "stroke-width") {
        Some(CssProperty::StrokeWidth)
    } else if range_eq_ci_str(s, 0, n, "stroke-dashoffset") {
        Some(CssProperty::StrokeDashoffset)
    } else if is_stop && range_eq_ci_str(s, 0, n, "stop-color") {
        Some(CssProperty::StopColor)
    } else if is_stop && range_eq_ci_str(s, 0, n, "stop-opacity") {
        Some(CssProperty::StopOpacity)
    } else if is_path && range_eq_ci_str(s, 0, n, "d") {
        Some(CssProperty::D)
    } else {
        None
    }
}

/// Whether a name equal to `p` (ignoring ASCII case) is already in `names`.
pub open spec fn contains_ci(names: Seq<Seq<char>>, p: Seq<char>) -> bool {
    exists|j: int| 0 <= j < names.len() && eq_ci(#[trigger] names[j], p)
}

/// The distinct property names of the declarations `decls`, trimmed, added to
/// `names` in first-seen order.
pub open spec fn collect_properties(
    names: Seq<Seq<char>>,
    decls: Seq<(Seq<char>, Seq<char>)>,
) -> Seq<Seq<char>>
    decreases decls.len(),
{
    if decls.len() == 0 {
        names
    } else {
        let prev = collect_properties(names, decls.drop_last());
        let p = trim(decls.last().0);
        if contains_ci(prev, p) {
            prev
        } else {
            prev.push(p)
        }
    }
}

/// The property names a rule animates, over its keyframes in order.
pub open spec fn properties_of(keyframes: Seq<KeyframeView>) -> Seq<Seq<char>>
    decreases keyframes.len(),
{
    if keyframes.len() == 0 {
        Seq::empty()
    } else {
        collect_properties(properties_of(keyframes.drop_last()), keyframes.last().declarations)
    }
}

fn contains_name_ci(names: &Vec<String>, p: &[char], lo: usize, hi: usize) -> (r: bool)
    requires
        lo <= hi <= p@.len(),
    ensures
        r == contains_ci(texts_of(names@), p@.subrange(lo as int, hi as int)),
{
    let mut j: usize = 0;
    while j < names.len()
        invariant
            lo <= hi <= p@.len(),
            0 <= j <= names@.len(),
            forall|q: int| 0 <= q < j ==> !eq_ci(names@[q]@, p@.subrange(lo as int, hi as int)),
        decreases names.len() - j,
    {
        let n = chars_of(names[j].as_str());
        if n.len() == hi - lo && crate::text::range_eq_ci(p, lo, hi, n.as_slice()) {
            proof {
                let a = names@[j as int]@;
                let b = p@.subrange(lo as int, hi as int);
                assert(eq_ci(b, a));
                assert(eq_ci(a, b));
                assert(texts_of(names@)[j as int] == a);
            }
            return true;
        }
        proof {
            let a = names@[j as int]@;
            let b = p@.subrange(lo as int, hi as int);
            if eq_ci(a, b) {
                assert(a.len() == b.len());
                assert forall|i: int| 0 <= i < b.len() implies crate::text::lower(#[trigger] b[i])
                    == crate::text::lower(a[i]) by {
                    assert(crate::text::lower(a[i]) == crate::text::lower(b[i]));
                }
                assert(eq_ci(b, n@));
            }
        }
        j = j + 1;
    }
    proof {
        let b = p@.subrange(lo as int, hi as int);
        if contains_ci(texts_of(names@), b) {
            let w = choose|w: int| 0 <= w < texts_of(names@).len() && eq_ci(#[trigger] texts_of(names@)[w], b);
            assert(texts_of(names@)[w] == names@[w]@);
        }
    }
    false
}

/// The distinct property names a rule animates, in first-seen order.
pub fn animated_properties(rule: &KeyframesRule) -> (r: Vec<String>)
    ensures
        texts_of(r@) == properties_of(rule@.keyframes),
{
    let mut names: Vec<String> = Vec::new();
    let mut k: usize = 0;
    while k < rule.keyframes.len()
        invariant
            0 <= k <= rule.keyframes@.len(),
            texts_of(names@) == properties_of(rule@.keyframes.take(k as int)),
        decreases rule.keyframes.len() - k,
    {
        let kf = &rule.keyframes[k];
        let ghost kv = rule@.keyframes[k as int];
        assert(kv == kf@);
        let ghost base = texts_of(names@);
        assert(rule@.keyframes.take(k + 1).drop_last() =~= rule@.keyframes.take(k as int));
        let mut d: usize = 0;
        while d < kf.declarations.len()
            invariant
                0 <= d <= kf.declarations@.len(),
                kv == kf@,
                texts_of(names@) == collect_properties(base, kv.declarations.take(d as int)),
            decreases kf.declarations.len() - d,
        {
            let p = chars_of(kf.declarations[d].0.as_str());
            let (a, b) = trim_bounds(p.as_slice(), 0, p.len());
            assert(p@.subrange(0, p@.len() as int) =~= p@);
            assert(kv.declarations.take(d + 1).drop_last() =~= kv.declarations.take(d as int));
            assert(kv.declarations[d as int] == (kf.declarations@[d as int].0@, kf.declarations@[d as int].1@));
            if !contains_name_ci(&names, p.as_slice(), a, b) {
                let ghost before = names@;
                names.push(string_of(p.as_slice(), a, b));
                assert(texts_of(names@) =~= texts_of(before).push(p@.subrange(a as int, b as int)));
            }
            d = d + 1;
        }
        assert(kv.declarations.take(kv.declarations.len() as int) =~= kv.declarations);
        k = k + 1;
    }
    assert(rule@.keyframes.take(rule@.keyframes.len() as int) =~= rule@.keyframes);
    names
}


/// The `animation-direction` keyword of each direction.
pub open spec fn direction_keyword(d: Direction) -> Seq<char> {
    match d {
        Direction::Normal => "normal"@,
        Direction::Reverse => "reverse"@,
        Direction::Alternate => "alternate"@,
        Direction::AlternateReverse => "alternate-reverse"@,
    }
}

/// Law: an `animation-direction` value reads as the direction that it names,
/// in any ASCII case and with surrounding white space: each direction's
/// keyword gives that direction, and a direction other than `normal` comes
/// only from its own keyword (so the four keywords give four directions).
pub proof fn lemma_direction_names(value: Seq<char>, d: Direction)
    ensures
        eq_ci(trim(value), direction_keyword(d)) ==> direction_of(value) == d,
        direction_of(value) != Direction::Normal ==> eq_ci(
            trim(value),
            direction_keyword(direction_of(value)),
        ),
{
    reveal_strlit("normal");
    reveal_strlit("reverse");
    reveal_strlit("alternate");
    reveal_strlit("alternate-reverse");
    assert("normal"@.len() == 6);
    assert("reverse"@.len() == 7);
    assert("alternate"@.len() == 9);
    assert("alternate-reverse"@.len() == 17);
}

/// The `animation-fill-mode` keyword of each fill mode.
pub open spec fn fill_mode_keyword(m: CssFillMode) -> Seq<char> {
    match m {
        CssFillMode::NoFill => "none"@,
        CssFillMode::Forwards => "forwards"@,
        CssFillMode::Backwards => "backwards"@,
        CssFillMode::Both => "both"@,
    }
}

/// Law: an `animation-fill-mode` value reads as the fill mode that it names,
/// in any ASCII case and with surrounding white space: each mode's keyword
/// gives that mode, and a mode other than `none` comes only from its own
/// keyword.
pub proof fn lemma_fill_mode_names(value: Seq<char>, m: CssFillMode)
    ensures
        eq_ci(trim(value), fill_mode_keyword(m)) ==> fill_mode_of(value) == m,
        fill_mode_of(value) != CssFillMode::NoFill ==> eq_ci(
            trim(value),
            fill_mode_keyword(fill_mode_of(value)),
        ),
{
    reveal_strlit("none");
    reveal_strlit("forwards");
    reveal_strlit("backwards");
    reveal_strlit("both");
    assert("none"@.len() == 4);
    assert("forwards"@.len() == 8);
    assert("backwards"@.len() == 9);
    assert("both"@.len() == 4);
    let t = trim(value);
    if eq_ci(t, "none"@) && eq_ci(t, "both"@) {
        assert(lower(t[0]) == lower("none"@[0]));
        assert(lower(t[0]) == lower("both"@[0]));
    }
}


/// Law: `animation-iteration-count` is infinite exactly for the keyword
/// `infinite` (any ASCII case, trimmed); a finite count is the trimmed text
/// itself when that is a finite number `>= 0`, and `1` otherwise.
pub proof fn lemma_iterations_keyword(value: Seq<char>)
    ensures
        (iterations_of(value) == IterationCountView::Infinite) <==> eq_ci(trim(value), "infinite"@),
        iterations_of(value) matches IterationCountView::Count(n) ==> (n == trim(value)
            && f32_finite_non_negative(trim(value))) || (n == "1"@ && !f32_finite_non_negative(
            trim(value),
        )),
{
}

/// Law: a time ending in `ms` (any case) is a number of milliseconds; any
/// other time is a number of seconds; the number is the text before the unit.
pub proof fn lemma_time_units(value: Seq<char>)
    ensures
        time_of(value) matches Some(CssTimeView::Milliseconds(n)) ==> ends_with_ci(
            trim(value),
            "ms"@,
        ) && finite_text(trim(value).subrange(0, trim(value).len() - 2)) == Some(n),
        time_of(value) matches Some(CssTimeView::Seconds(n)) ==> !ends_with_ci(trim(value), "ms"@)
            && (finite_text(trim(value).subrange(0, trim(value).len() - 1)) == Some(n)
            || finite_text(trim(value)) == Some(n)),
{
}

/// The `transform-box` keyword of each box.
pub open spec fn transform_box_keyword(b: TransformBox) -> Seq<char> {
    match b {
        TransformBox::ContentBox => "content-box"@,
        TransformBox::BorderBox => "border-box"@,
        TransformBox::FillBox => "fill-box"@,
        TransformBox::StrokeBox => "stroke-box"@,
        TransformBox::ViewBox => "view-box"@,
    }
}

/// Law: a `transform-box` keyword (trimmed) reads as the box of the same
/// name, and a box other than the default `view-box` comes only from its own
/// keyword.
pub proof fn lemma_transform_box_names(value: Option<Seq<char>>, b: TransformBox)
    ensures
        transform_box_of(Some(transform_box_keyword(b))) == b,
        transform_box_of(value) != TransformBox::ViewBox ==> value is Some && trim(value->Some_0)
            == transform_box_keyword(transform_box_of(value)),
{
    reveal_strlit("content-box");
    reveal_strlit("border-box");
    reveal_strlit("fill-box");
    reveal_strlit("stroke-box");
    reveal_strlit("view-box");
    assert("content-box"@.len() == 11);
    assert("border-box"@.len() == 10);
    assert("fill-box"@.len() == 8);
    assert("stroke-box"@.len() == 10);
    assert("view-box"@.len() == 8);
    assert("stroke-box"@[0] != "border-box"@[0]);
    assert("view-box"@[0] != "fill-box"@[0]);
    let k = transform_box_keyword(b);
    assert(k[0] == 'c' || k[0] == 'b' || k[0] == 'f' || k[0] == 's' || k[0] == 'v');
    assert(k[k.len() - 1] == 'x');
    lemma_trim_keyword(k);
}

/// A keyword without white space at either end is its own trim.
proof fn lemma_trim_keyword(k: Seq<char>)
    requires
        k.len() > 0,
        !is_ws(k[0]),
        !is_ws(k[k.len() - 1]),
    ensures
        trim(k) == k,
{
}

/// The `steps()` position of each keyword's spelling with `jump-`.
pub open spec fn step_position_keyword(p: StepPosition) -> Seq<char> {
    match p {
        StepPosition::JumpStart => "jump-start"@,
        StepPosition::JumpEnd => "jump-end"@,
        StepPosition::JumpNone => "jump-none"@,
        StepPosition::JumpBoth => "jump-both"@,
    }
}

/// Law: each `jump-*` position keyword reads as the position of the same
/// name, `start` and `end` as `jump-start` and `jump-end`, and nothing else
/// reads as a position.
pub proof fn lemma_step_position_names(keyword: Seq<char>, p: StepPosition)
    ensures
        step_position_of(step_position_keyword(p)) == Some(p),
        step_position_of("start"@) == Some(StepPosition::JumpStart),
        step_position_of("end"@) == Some(StepPosition::JumpEnd),
        step_position_of(keyword) matches Some(x) ==> keyword == step_position_keyword(x) || (
        x == StepPosition::JumpStart && keyword == "start"@) || (x == StepPosition::JumpEnd
            && keyword == "end"@),
{
    reveal_strlit("jump-start");
    reveal_strlit("start");
    reveal_strlit("jump-end");
    reveal_strlit("end");
    reveal_strlit("jump-none");
    reveal_strlit("jump-both");
    assert("jump-start"@.len() == 10);
    assert("start"@.len() == 5);
    assert("jump-end"@.len() == 8);
    assert("end"@.len() == 3);
    assert("jump-none"@.len() == 9);
    assert("jump-both"@.len() == 9);
    assert("jump-both"@[5] != "jump-none"@[5]);
}

/// The CSS name of each supported property.
pub open spec fn property_name(p: CssProperty) -> Seq<char> {
    match p {
        CssProperty::Transform => "transform"@,
        CssProperty::Opacity => "opacity"@,
        CssProperty::Fill => "fill"@,
        CssProperty::Stroke => "stroke"@,
        CssProperty::StrokeWidth => "stroke-width"@,
        CssProperty::StrokeDashoffset => "stroke-dashoffset"@,
        CssProperty::StopColor => "stop-color"@,
        CssProperty::StopOpacity => "stop-opacity"@,
        CssProperty::D => "d"@,
    }
}

/// Whether property `p` is admitted on the target: `stop-*` on `<stop>` only,
/// `d` on `<path>` only.
pub open spec fn property_admitted(p: CssProperty, is_stop: bool, is_path: bool) -> bool {
    match p {
        CssProperty::StopColor | CssProperty::StopOpacity => is_stop,
        CssProperty::D => is_path,
        _ => true,
    }
}

/// Law: a CSS property name (any ASCII case) is classified as the property
/// of the same name where the target admits it, and a property is only ever
/// classified from its own name on a target that admits it.
pub proof fn lemma_property_names(property: Seq<char>, p: CssProperty, is_stop: bool, is_path: bool)
    ensures
        eq_ci(property, property_name(p)) && property_admitted(p, is_stop, is_path)
            ==> classify_property_spec(property, is_stop, is_path) == Some(p),
        classify_property_spec(property, is_stop, is_path) matches Some(x) ==> eq_ci(
            property,
            property_name(x),
        ) && property_admitted(x, is_stop, is_path),
{
    reveal_strlit("transform");
    reveal_strlit("opacity");
    reveal_strlit("fill");
    reveal_strlit("stroke");
    reveal_strlit("stroke-width");
    reveal_strlit("stroke-dashoffset");
    reveal_strlit("stop-color");
    reveal_strlit("stop-opacity");
    reveal_strlit("d");
    assert("transform"@.len() == 9);
    assert("opacity"@.len() == 7);
    assert("fill"@.len() == 4);
    assert("stroke"@.len() == 6);
    assert("stroke-width"@.len() == 12);
    assert("stroke-dashoffset"@.len() == 17);
    assert("stop-color"@.len() == 10);
    assert("stop-opacity"@.len() == 12);
    assert("d"@.len() == 1);
    if eq_ci(property, "stop-opacity"@) {
        lemma_eq_ci_apart(property, "stop-opacity"@, "stroke-width"@, 2);
    }
}

} // verus!
