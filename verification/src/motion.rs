//! `<animateMotion>`: only the `path` attribute form is supported, with its
//! `keyPoints`, `keyTimes`, `keySplines` and `rotate`.
//!
//! Building the path itself is float geometry and is left to the caller; the
//! decisions around it are made here.

use vstd::prelude::*;
use crate::easing::{opt_splines, spline_list, splines_spec, unit_items, unit_items_spec, Spline};
use crate::elements::opt_texts;
use crate::forms::str_opt;
use crate::number::{f32_parses, parses_f32};
use crate::text::{chars_of, str_eq, string_of, trim, trim_bounds};

verus! {

broadcast use vstd::string::group_string_axioms;

/// Why an `<animateMotion>` is dropped.
#[derive(Clone, Copy, Debug, PartialEq, Eq, Structural)]
pub enum MotionWarning {
    /// The `values`/`from`/`to`/`by` forms, or no `path` (an `<mpath>` child).
    UnsupportedForm,
    /// A path that draws nothing, or `keyPoints` that do not fit.
    InvalidPath,
}

pub open spec fn motion_message(w: MotionWarning) -> Seq<char> {
    match w {
        MotionWarning::UnsupportedForm => "Unsupported animateMotion form."@,
        MotionWarning::InvalidPath => "Invalid animateMotion path."@,
    }
}

impl MotionWarning {
    /// The text that is logged for this warning.
    pub fn message(&self) -> (r: String)
        ensures
            r@ == motion_message(*self),
    {
        match self {
            MotionWarning::UnsupportedForm => String::from_str("Unsupported animateMotion form."),
            MotionWarning::InvalidPath => String::from_str("Invalid animateMotion path."),
        }
    }
}

/// The path data that an `<animateMotion>` follows: its `path` attribute,
/// unless it has a `values`, `from`, `to` or `by` attribute.
pub fn motion_path<'a>(has_value_form: bool, path: Option<&'a str>) -> (r: Result<&'a str, MotionWarning>)
    ensures
        has_value_form ==> r == Err::<&str, MotionWarning>(MotionWarning::UnsupportedForm),
        !has_value_form ==> r == match path {
            Some(p) => Ok(p),
            None => Err(MotionWarning::UnsupportedForm),
        },
{
    if has_value_form {
        return Err(MotionWarning::UnsupportedForm);
    }
    match path {
        Some(p) => Ok(p),
        None => Err(MotionWarning::UnsupportedForm),
    }
}

/// `keyPoints`: absent is `Ok(None)`; otherwise each entry must read as a
/// number in `0.0..=1.0` and there must be at least one.
pub open spec fn key_points_spec(value: Option<Seq<char>>) -> Result<Option<Seq<Seq<char>>>, ()> {
    match value {
        None => Ok(None),
        Some(v) => match unit_items_spec(v) {
            Some(items) => Ok(Some(items)),
            None => Err(()),
        },
    }
}

pub open spec fn key_points_view(r: Result<Option<Vec<String>>, ()>) -> Result<Option<Seq<Seq<char>>>, ()> {
    match r {
        Ok(p) => Ok(opt_texts(p)),
        Err(()) => Err(()),
    }
}

/// Reads the `keyPoints` attribute.
pub fn parse_key_points(value: Option<&str>) -> (r: Result<Option<Vec<String>>, ()>)
    ensures
        key_points_view(r) == key_points_spec(str_opt(value)),
{
    match value {
        None => Ok(None),
        Some(v) => match unit_items(v) {
            Some(items) => Ok(Some(items)),
            None => Err(()),
        },
    }
}

/// `keyTimes` of a motion: each entry a number in `0.0..=1.0`, at least one;
/// anything else is ignored.
pub fn parse_key_times(value: Option<&str>) -> (r: Option<Vec<String>>)
    ensures
        opt_texts(r) == match str_opt(value) {
            Some(v) => unit_items_spec(v),
            None => None,
        },
{
    match value {
        Some(v) => unit_items(v),
        None => None,
    }
}

/// `keySplines` of a motion: groups of four texts that `f32` parsing accepts.
pub fn parse_key_splines(value: Option<&str>) -> (r: Option<Vec<Spline>>)
    ensures
        opt_splines(r) == match str_opt(value) {
            Some(v) => splines_spec(v, false),
            None => None,
        },
{
    match value {
        Some(v) => spline_list(v, false),
        None => None,
    }
}

pub open spec fn count_of(t: Option<Seq<Seq<char>>>) -> nat {
    match t {
        Some(s) => s.len(),
        None => 0,
    }
}

/// `keyPoints` checked against `keyTimes`: a malformed list, or one with a
/// different number of entries than `keyTimes` (none when it is absent), is
/// an invalid path.
pub open spec fn motion_key_points_spec(
    key_points: Option<Seq<char>>,
    key_times: Option<Seq<Seq<char>>>,
) -> Result<Option<Seq<Seq<char>>>, MotionWarning> {
    match key_points_spec(key_points) {
        Err(()) => Err(MotionWarning::InvalidPath),
        Ok(None) => Ok(None),
        Ok(Some(p)) => if p.len() == count_of(key_times) {
            Ok(Some(p))
        } else {
            Err(MotionWarning::InvalidPath)
        },
    }
}

pub open spec fn motion_points_view(r: Result<Option<Vec<String>>, MotionWarning>) -> Result<
    Option<Seq<Seq<char>>>,
    MotionWarning,
> {
    match r {
        Ok(p) => Ok(opt_texts(p)),
        Err(w) => Err(w),
    }
}

/// Reads `keyPoints` and checks it against the motion's `keyTimes`.
pub fn motion_key_points(key_points: Option<&str>, key_times: &Option<Vec<String>>) -> (r: Result<
    Option<Vec<String>>,
    MotionWarning,
>)
    ensures
        motion_points_view(r) == motion_key_points_spec(str_opt(key_points), opt_texts(*key_times)),
{
    match parse_key_points(key_points) {
        Err(()) => Err(MotionWarning::InvalidPath),
        Ok(None) => Ok(None),
        Ok(Some(p)) => {
            let n: usize = match key_times {
                Some(t) => t.len(),
                None => 0,
            };
            if p.len() == n {
                Ok(Some(p))
            } else {
                Err(MotionWarning::InvalidPath)
            }
        },
    }
}

/// The `rotate` of a motion.
#[derive(Clone, Debug, PartialEq)]
pub enum MotionRotate {
    /// `auto`: along the path's direction.
    Auto,
    /// `auto-reverse`: against the path's direction.
    AutoReverse,
    /// A fixed angle in degrees, as a text that `f32` parsing accepts.
    Angle(String),
}

pub enum RotateView {
    Auto,
    AutoReverse,
    Angle(Seq<char>),
}

impl View for MotionRotate {
    type V = RotateView;

    open spec fn view(&self) -> RotateView {
        match self {
            MotionRotate::Auto => RotateView::Auto,
            MotionRotate::AutoReverse => RotateView::AutoReverse,
            MotionRotate::Angle(t) => RotateView::Angle(t@),
        }
    }
}

/// `rotate`: exactly `auto` or `auto-reverse`; otherwise the trimmed value
/// as an angle when it parses, and an angle of zero when it does not or when
/// the attribute is absent.
pub open spec fn rotate_of(value: Option<Seq<char>>) -> RotateView {
    match value {
        None => RotateView::Angle("0"@),
        Some(v) => if v == "auto"@ {
            RotateView::Auto
        } else if v == "auto-reverse"@ {
            RotateView::AutoReverse
        } else if f32_parses(trim(v)) {
            RotateView::Angle(trim(v))
        } else {
            RotateView::Angle("0"@)
        },
    }
}

/// Reads the `rotate` attribute.
pub fn parse_rotate(value: Option<&str>) -> (r: MotionRotate)
    ensures
        r@ == rotate_of(str_opt(value)),
{
    match value {
        None => MotionRotate::Angle(String::from_str("0")),
        Some(v) => {
            if str_eq(v, "auto") {
                MotionRotate::Auto
            } else if str_eq(v, "auto-reverse") {
                MotionRotate::AutoReverse
            } else {
                let cs = chars_of(v);
                let (a, b) = trim_bounds(cs.as_slice(), 0, cs.len());
                assert(cs@.subrange(0, cs@.len() as int) =~= v@);
                if parses_f32(cs.as_slice(), a, b) {
                    MotionRotate::Angle(string_of(cs.as_slice(), a, b))
                } else {
                    MotionRotate::Angle(String::from_str("0"))
                }
            }
        },
    }
}


/// Law: `rotate` is `auto` exactly for the text `auto` and `auto-reverse`
/// exactly for the text `auto-reverse`; anything else is an angle.
pub proof fn lemma_rotate_keywords(value: Option<Seq<char>>)
    ensures
        (rotate_of(value) == RotateView::Auto) <==> value == Some("auto"@),
        (rotate_of(value) == RotateView::AutoReverse) <==> value == Some("auto-reverse"@),
{
    reveal_strlit("auto");
    reveal_strlit("auto-reverse");
    assert("auto"@.len() == 4);
    assert("auto-reverse"@.len() == 12);
}

} // verus!
