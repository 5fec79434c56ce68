//! The SMIL `dur`, `repeatCount` and `repeatDur` attributes.
//!
//! Each is read from the attribute's text, or `None` where the element does
//! not have it. Clock values keep their numbers as texts (see `clock`): the
//! caller turns them into seconds, and keeps a `dur` only when those seconds
//! are not below zero and a `repeatDur` only when they are above zero.

use vstd::prelude::*;
use crate::clock::{clock_spec, clock_view, parse_clock_value, ClockValue, ClockView};
use crate::number::{f32_finite_positive, is_finite_positive_f32};
use crate::forms::str_opt;
use crate::text::{chars_of, copy_range, range_eq_str, string_of, trim, trim_bounds};

verus! {

broadcast use vstd::string::group_string_axioms;

/// `dur`: `None` stands for an indefinite duration, which is what a missing
/// attribute, `indefinite`, `media` and an unreadable value give.
pub open spec fn dur_spec(value: Option<Seq<char>>) -> Option<ClockView> {
    match value {
        None => None,
        Some(v) => {
            let t = trim(v);
            if t == "indefinite"@ || t == "media"@ {
                None
            } else {
                clock_spec(t)
            }
        },
    }
}

/// Reads the `dur` attribute.
pub fn parse_dur(value: Option<&str>) -> (r: Option<ClockValue>)
    ensures
        clock_view(r) == dur_spec(str_opt(value)),
{
    match value {
        None => None,
        Some(v) => {
            let cs = chars_of(v);
            let (a, b) = trim_bounds(cs.as_slice(), 0, cs.len());
            assert(cs@.subrange(0, cs@.len() as int) =~= v@);
            if range_eq_str(cs.as_slice(), a, b, "indefinite") || range_eq_str(
                cs.as_slice(),
                a,
                b,
                "media",
            ) {
                return None;
            }
            let t = copy_range(cs.as_slice(), a, b);
            parse_clock_value(t.as_slice())
        },
    }
}

/// A `repeatCount` value.
#[derive(Clone, Debug, PartialEq)]
pub enum RepeatCount {
    /// `indefinite`.
    Indefinite,
    /// A finite count above zero, as its literal.
    Count(String),
}

pub enum RepeatCountView {
    Indefinite,
    Count(Seq<char>),
}

impl View for RepeatCount {
    type V = RepeatCountView;

    open spec fn view(&self) -> RepeatCountView {
        match self {
            RepeatCount::Indefinite => RepeatCountView::Indefinite,
            RepeatCount::Count(t) => RepeatCountView::Count(t@),
        }
    }
}

pub open spec fn repeat_count_view(r: Option<RepeatCount>) -> Option<RepeatCountView> {
    match r {
        Some(c) => Some(c@),
        None => None,
    }
}

/// `repeatCount`: `indefinite`, or a number that reads as a finite `f32`
/// above zero; anything else counts as absent.
pub open spec fn repeat_count_spec(value: Option<Seq<char>>) -> Option<RepeatCountView> {
    match value {
        None => None,
        Some(v) => {
            let t = trim(v);
            if t == "indefinite"@ {
                Some(RepeatCountView::Indefinite)
            } else if f32_finite_positive(t) {
                Some(RepeatCountView::Count(t))
            } else {
                None
            }
        },
    }
}

/// Reads the `repeatCount` attribute.
pub fn parse_repeat_count(value: Option<&str>) -> (r: Option<RepeatCount>)
    ensures
        repeat_count_view(r) == repeat_count_spec(str_opt(value)),
{
    match value {
        None => None,
        Some(v) => {
            let cs = chars_of(v);
            let (a, b) = trim_bounds(cs.as_slice(), 0, cs.len());
            assert(cs@.subrange(0, cs@.len() as int) =~= v@);
            if range_eq_str(cs.as_slice(), a, b, "indefinite") {
                Some(RepeatCount::Indefinite)
            } else if is_finite_positive_f32(cs.as_slice(), a, b) {
                Some(RepeatCount::Count(string_of(cs.as_slice(), a, b)))
            } else {
                None
            }
        },
    }
}

/// `repeatDur`: a clock value; a missing attribute, `indefinite` and an
/// unreadable value give `None`.
pub open spec fn repeat_dur_spec(value: Option<Seq<char>>) -> Option<ClockView> {
    match value {
        None => None,
        Some(v) => {
            let t = trim(v);
            if t == "indefinite"@ {
                None
            } else {
                clock_spec(t)
            }
        },
    }
}

/// Reads the `repeatDur` attribute.
pub fn parse_repeat_dur(value: Option<&str>) -> (r: Option<ClockValue>)
    ensures
        clock_view(r) == repeat_dur_spec(str_opt(value)),
{
    match value {
        None => None,
        Some(v) => {
            let cs = chars_of(v);
            let (a, b) = trim_bounds(cs.as_slice(), 0, cs.len());
            assert(cs@.subrange(0, cs@.len() as int) =~= v@);
            if range_eq_str(cs.as_slice(), a, b, "indefinite") {
                return None;
            }
            let t = copy_range(cs.as_slice(), a, b);
            parse_clock_value(t.as_slice())
        },
    }
}


/// Law: `repeatCount` is indefinite exactly for `indefinite` (trimmed); a
/// count is the trimmed text, a finite number above zero.
pub proof fn lemma_repeat_count_forms(value: Option<Seq<char>>)
    ensures
        (repeat_count_spec(value) == Some(RepeatCountView::Indefinite)) <==> (value is Some
            && trim(value->Some_0) == "indefinite"@),
        repeat_count_spec(value) matches Some(RepeatCountView::Count(n)) ==> value is Some && n
            == trim(value->Some_0) && f32_finite_positive(n),
{
}

} // verus!
