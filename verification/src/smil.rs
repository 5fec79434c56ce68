//! The attributes of a SMIL animation element that are read before its values:
//! `type`, `additive`, `accumulate`, `calcMode`, `restart`, `fill`, `end`, and
//! which value forms a `<set>` uses.

use vstd::prelude::*;
use crate::forms::{str_opt, value_items, value_items_spec};
use crate::kinds::{Accumulate, Additive, CalcMode, Restart, SmilFill, TransformKind};
use crate::text::str_eq;

verus! {

broadcast use vstd::string::group_string_axioms;

pub open spec fn transform_kind_of(value: Seq<char>) -> Option<TransformKind> {
    if value == "translate"@ {
        Some(TransformKind::Translate)
    } else if value == "scale"@ {
        Some(TransformKind::Scale)
    } else if value == "rotate"@ {
        Some(TransformKind::Rotate)
    } else if value == "skewX"@ {
        Some(TransformKind::SkewX)
    } else if value == "skewY"@ {
        Some(TransformKind::SkewY)
    } else {
        None
    }
}

/// The `type` of an `<animateTransform>`.
pub fn parse_transform_kind(value: &str) -> (r: Option<TransformKind>)
    ensures
        r == transform_kind_of(value@),
{
    if str_eq(value, "translate") {
        Some(TransformKind::Translate)
    } else if str_eq(value, "scale") {
        Some(TransformKind::Scale)
    } else if str_eq(value, "rotate") {
        Some(TransformKind::Rotate)
    } else if str_eq(value, "skewX") {
        Some(TransformKind::SkewX)
    } else if str_eq(value, "skewY") {
        Some(TransformKind::SkewY)
    } else {
        None
    }
}

/// Whether an attribute is present with exactly the text `expected`.
pub open spec fn is_text(value: Option<Seq<char>>, expected: Seq<char>) -> bool {
    value == Some(expected)
}

fn attribute_is(value: Option<&str>, expected: &str) -> (r: bool)
    ensures
        r == is_text(str_opt(value), expected@),
{
    match value {
        Some(v) => str_eq(v, expected),
        None => false,
    }
}

/// The `additive` attribute: only `sum` adds.
pub open spec fn additive_of(value: Option<Seq<char>>) -> Additive {
    if is_text(value, "sum"@) {
        Additive::Sum
    } else {
        Additive::Replace
    }
}

/// The `additive` attribute: only `sum` adds.
pub fn additive(value: Option<&str>) -> (r: Additive)
    ensures
        r == additive_of(str_opt(value)),
{
    if attribute_is(value, "sum") {
        Additive::Sum
    } else {
        Additive::Replace
    }
}

/// The `accumulate` attribute: only `sum` accumulates.
pub open spec fn accumulate_of(value: Option<Seq<char>>) -> Accumulate {
    if is_text(value, "sum"@) {
        Accumulate::Sum
    } else {
        Accumulate::NoAccumulate
    }
}

/// The `accumulate` attribute: only `sum` accumulates.
pub fn accumulate(value: Option<&str>) -> (r: Accumulate)
    ensures
        r == accumulate_of(str_opt(value)),
{
    if attribute_is(value, "sum") {
        Accumulate::Sum
    } else {
        Accumulate::NoAccumulate
    }
}

/// The `restart` attribute, defaulting to `always`.
pub open spec fn restart_of(value: Option<Seq<char>>) -> Restart {
    if is_text(value, "never"@) {
        Restart::Never
    } else if is_text(value, "whenNotActive"@) {
        Restart::WhenNotActive
    } else {
        Restart::Always
    }
}

/// The `restart` attribute, defaulting to `always`.
pub fn parse_restart(value: Option<&str>) -> (r: Restart)
    ensures
        r == restart_of(str_opt(value)),
{
    if attribute_is(value, "never") {
        Restart::Never
    } else if attribute_is(value, "whenNotActive") {
        Restart::WhenNotActive
    } else {
        Restart::Always
    }
}

/// The SMIL `fill` attribute, defaulting to `remove`.
pub open spec fn smil_fill_of(value: Option<Seq<char>>) -> SmilFill {
    if is_text(value, "freeze"@) {
        SmilFill::Freeze
    } else {
        SmilFill::Remove
    }
}

/// The SMIL `fill` attribute, defaulting to `remove`.
pub fn parse_fill(value: Option<&str>) -> (r: SmilFill)
    ensures
        r == smil_fill_of(str_opt(value)),
{
    if attribute_is(value, "freeze") {
        SmilFill::Freeze
    } else {
        SmilFill::Remove
    }
}

pub open spec fn calc_mode_of(value: Option<Seq<char>>, is_animate_motion: bool) -> CalcMode {
    if is_text(value, "discrete"@) {
        CalcMode::Discrete
    } else if is_text(value, "linear"@) {
        CalcMode::Linear
    } else if is_text(value, "paced"@) {
        CalcMode::Paced
    } else if is_text(value, "spline"@) {
        CalcMode::Spline
    } else if is_animate_motion {
        CalcMode::Paced
    } else {
        CalcMode::Linear
    }
}

/// The `calcMode` attribute; the default is `paced` for `<animateMotion>` and
/// `linear` otherwise.
pub fn parse_calc_mode(value: Option<&str>, is_animate_motion: bool) -> (r: CalcMode)
    ensures
        r == calc_mode_of(str_opt(value), is_animate_motion),
{
    if attribute_is(value, "discrete") {
        CalcMode::Discrete
    } else if attribute_is(value, "linear") {
        CalcMode::Linear
    } else if attribute_is(value, "paced") {
        CalcMode::Paced
    } else if attribute_is(value, "spline") {
        CalcMode::Spline
    } else if is_animate_motion {
        CalcMode::Paced
    } else {
        CalcMode::Linear
    }
}

/// The number of values an animation element describes: one for `<set>`, the
/// non-blank entries of `values`, two for `to`/`by` and one otherwise.
pub open spec fn value_count_spec(values: Option<Seq<char>>, has_to_or_by: bool, is_set: bool) -> int {
    if is_set {
        1
    } else {
        match values {
            Some(v) => value_items_spec(v).len() as int,
            None => if has_to_or_by {
                2
            } else {
                1
            },
        }
    }
}

pub fn value_count(values: Option<&str>, has_to_or_by: bool, is_set: bool) -> (r: usize)
    ensures
        r as int == value_count_spec(str_opt(values), has_to_or_by, is_set),
{
    if is_set {
        return 1;
    }
    match values {
        Some(v) => {
            let items = value_items(v);
            assert(crate::text::texts_of(items@).len() == items@.len());
            items.len()
        },
        None => if has_to_or_by {
            2
        } else {
            1
        },
    }
}

/// Whether an `end` attribute has at least one non-blank entry.
pub fn has_end_entries(end: Option<&str>) -> (r: bool)
    ensures
        r == (match str_opt(end) {
            Some(v) => value_items_spec(v).len() > 0,
            None => false,
        }),
{
    match end {
        Some(v) => {
            let items = value_items(v);
            assert(crate::text::texts_of(items@).len() == items@.len());
            items.len() > 0
        },
        None => false,
    }
}

/// The value forms of an animation element, as `(values, from, to, by)`.
///
/// A `<set>` takes its single value from `to`, or from `values` when `to` is
/// absent, and has no other forms.
pub fn value_forms<'a>(
    is_set: bool,
    values: Option<&'a str>,
    from: Option<&'a str>,
    to: Option<&'a str>,
    by: Option<&'a str>,
) -> (r: (Option<&'a str>, Option<&'a str>, Option<&'a str>, Option<&'a str>))
    ensures
        is_set ==> r == (if to is Some {
            to
        } else {
            values
        }, None::<&str>, None::<&str>, None::<&str>),
        !is_set ==> r == (values, from, to, by),
{
    if is_set {
        let v = match to {
            Some(t) => Some(t),
            None => values,
        };
        (v, None, None, None)
    } else {
        (values, from, to, by)
    }
}

/// Law: the number of values an element describes with a `values` list is
/// the number of entries that the value forms read from it.
pub proof fn lemma_value_count_matches_forms(
    values: Seq<char>,
    from: Option<Seq<char>>,
    to: Option<Seq<char>>,
    by: Option<Seq<char>>,
    has_to_or_by: bool,
)
    ensures
        crate::forms::texts_spec(Some(values), from, to, by).values matches Some(items)
            && items.len() == value_count_spec(Some(values), has_to_or_by, false),
{
}


/// The `type` keyword of `<animateTransform>` that names a transform kind.
pub open spec fn transform_keyword(k: TransformKind) -> Seq<char> {
    match k {
        TransformKind::Translate => "translate"@,
        TransformKind::Scale => "scale"@,
        TransformKind::Rotate => "rotate"@,
        TransformKind::SkewX => "skewX"@,
        TransformKind::SkewY => "skewY"@,
    }
}

/// Law: an `<animateTransform>` `type` reads as the transform kind of the
/// same name, and only the five keywords read as a kind: each kind's keyword
/// gives that kind, and whatever gives a kind is that kind's keyword (so no
/// two keywords give the same kind).
pub proof fn lemma_transform_kind_names(value: Seq<char>, k: TransformKind)
    ensures
        transform_kind_of(transform_keyword(k)) == Some(k),
        transform_kind_of(value) matches Some(j) ==> value == transform_keyword(j),
{
    reveal_strlit("translate");
    reveal_strlit("scale");
    reveal_strlit("rotate");
    reveal_strlit("skewX");
    reveal_strlit("skewY");
    let t = "translate"@;
    let sc = "scale"@;
    let r = "rotate"@;
    let x = "skewX"@;
    let y = "skewY"@;
    assert(sc != t) by { assert(sc.len() != t.len()); }
    assert(r != t && r != sc) by { assert(r.len() != t.len() && r.len() != sc.len()); }
    assert(x != t && x != r) by { assert(x.len() != t.len() && x.len() != r.len()); }
    assert(x != sc) by { assert(x[1] != sc[1]); }
    assert(y != t && y != r) by { assert(y.len() != t.len() && y.len() != r.len()); }
    assert(y != sc) by { assert(y[1] != sc[1]); }
    assert(y != x) by { assert(y[4] != x[4]); }
}


/// Law: `additive`, `accumulate` and the SMIL `fill` take their non-default
/// behavior from exactly one keyword: `sum` adds, `sum` accumulates, `freeze`
/// freezes; any other text, or none, keeps the default.
pub proof fn lemma_sum_and_freeze_keywords(value: Option<Seq<char>>)
    ensures
        (additive_of(value) == Additive::Sum) <==> value == Some("sum"@),
        (accumulate_of(value) == Accumulate::Sum) <==> value == Some("sum"@),
        (smil_fill_of(value) == SmilFill::Freeze) <==> value == Some("freeze"@),
{
}

/// The `restart` keyword of each restart behavior.
pub open spec fn restart_keyword(r: Restart) -> Seq<char> {
    match r {
        Restart::Always => "always"@,
        Restart::Never => "never"@,
        Restart::WhenNotActive => "whenNotActive"@,
    }
}

/// Law: a `restart` keyword gives the behavior of the same name, and a
/// behavior other than the default `always` comes only from its own keyword.
pub proof fn lemma_restart_names(value: Option<Seq<char>>, r: Restart)
    ensures
        restart_of(Some(restart_keyword(r))) == r,
        restart_of(value) != Restart::Always ==> value == Some(restart_keyword(restart_of(value))),
{
    reveal_strlit("always");
    reveal_strlit("never");
    reveal_strlit("whenNotActive");
    assert("always"@.len() == 6);
    assert("never"@.len() == 5);
    assert("whenNotActive"@.len() == 13);
}

/// The `calcMode` keyword of each interpolation.
pub open spec fn calc_mode_keyword(m: CalcMode) -> Seq<char> {
    match m {
        CalcMode::Linear => "linear"@,
        CalcMode::Discrete => "discrete"@,
        CalcMode::Paced => "paced"@,
        CalcMode::Spline => "spline"@,
    }
}

/// Law: a `calcMode` keyword gives the interpolation of the same name on any
/// element; any other text, or none, gives the element's default (`paced`
/// for `<animateMotion>`, `linear` otherwise).
pub proof fn lemma_calc_mode_names(value: Option<Seq<char>>, m: CalcMode, is_animate_motion: bool)
    ensures
        calc_mode_of(Some(calc_mode_keyword(m)), is_animate_motion) == m,
        (forall|k: CalcMode| value != Some(#[trigger] calc_mode_keyword(k))) ==> calc_mode_of(
            value,
            is_animate_motion,
        ) == (if is_animate_motion {
            CalcMode::Paced
        } else {
            CalcMode::Linear
        }),
{
    reveal_strlit("linear");
    reveal_strlit("discrete");
    reveal_strlit("paced");
    reveal_strlit("spline");
    assert("linear"@.len() == 6);
    assert("discrete"@.len() == 8);
    assert("paced"@.len() == 5);
    assert("spline"@.len() == 6);
    assert("spline"@[1] != "linear"@[1]);
    if forall|k: CalcMode| value != Some(#[trigger] calc_mode_keyword(k)) {
        assert(value != Some(calc_mode_keyword(CalcMode::Linear)));
        assert(value != Some(calc_mode_keyword(CalcMode::Discrete)));
        assert(value != Some(calc_mode_keyword(CalcMode::Paced)));
        assert(value != Some(calc_mode_keyword(CalcMode::Spline)));
    }
}

} // verus!
