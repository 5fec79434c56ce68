//! The `keyTimes` and `keySplines` lists of SMIL animations.
//!
//! Their numbers are kept as the texts that `f32` parsing reads; the caller
//! turns them into numbers.

use vstd::prelude::*;
use crate::elements::opt_texts;
use crate::forms::{str_opt, value_items, value_items_spec};
use crate::text::texts_of;
use crate::kinds::CalcMode;
use crate::number::{
    f32_finite, f32_parses, f32_rounds_to_one, f32_rounds_to_zero, f32_unit, is_finite_f32,
    is_unit_f32, parses_f32, rounds_to_one_f32, rounds_to_zero_f32,
};
use crate::warnings::{quote, quoted};
use crate::text::{chars_of, string_of, trim, trim_bounds};

verus! {

broadcast use vstd::string::group_string_axioms;

/// The entries of a `keyTimes` list when each reads as a finite `f32` and
/// there is at least one.
pub open spec fn key_times_spec(value: Seq<char>) -> Option<Seq<Seq<char>>> {
    let items = value_items_spec(value);
    if items.len() > 0 && (forall|i: int| 0 <= i < items.len() ==> f32_finite(trim(#[trigger] items[i]))) {
        Some(items)
    } else {
        None
    }
}

/// Reads a `keyTimes` list.
pub fn parse_key_times(value: &str) -> (r: Option<Vec<String>>)
    ensures
        opt_texts(r) == key_times_spec(value@),
{
    let items = value_items(value);
    if items.len() == 0 {
        return None;
    }
    let mut i: usize = 0;
    while i < items.len()
        invariant
            texts_of(items@) == value_items_spec(value@),
            0 <= i <= items@.len(),
            forall|j: int| 0 <= j < i ==> f32_finite(trim(#[trigger] texts_of(items@)[j])),
        decreases items.len() - i,
    {
        let cs = chars_of(items[i].as_str());
        let (a, b) = trim_bounds(cs.as_slice(), 0, cs.len());
        assert(cs@.subrange(0, cs@.len() as int) =~= cs@);
        assert(texts_of(items@)[i as int] == items@[i as int]@);
        if !is_finite_f32(cs.as_slice(), a, b) {
            return None;
        }
        i = i + 1;
    }
    Some(items)
}

/// The entries of a `;` list when each reads as a finite `f32` in
/// `0.0..=1.0` and there is at least one.
pub open spec fn unit_items_spec(value: Seq<char>) -> Option<Seq<Seq<char>>> {
    let items = value_items_spec(value);
    if items.len() > 0 && (forall|i: int| 0 <= i < items.len() ==> f32_unit(#[trigger] items[i])) {
        Some(items)
    } else {
        None
    }
}

/// Reads a `;` list of numbers in `0.0..=1.0`.
pub fn unit_items(value: &str) -> (r: Option<Vec<String>>)
    ensures
        opt_texts(r) == unit_items_spec(value@),
{
    let items = value_items(value);
    if items.len() == 0 {
        return None;
    }
    let mut i: usize = 0;
    while i < items.len()
        invariant
            texts_of(items@) == value_items_spec(value@),
            0 <= i <= items@.len(),
            forall|j: int| 0 <= j < i ==> f32_unit(#[trigger] texts_of(items@)[j]),
        decreases items.len() - i,
    {
        let cs = chars_of(items[i].as_str());
        assert(cs@.subrange(0, cs@.len() as int) =~= cs@);
        assert(texts_of(items@)[i as int] == items@[i as int]@);
        if !is_unit_f32(cs.as_slice(), 0, cs.len()) {
            return None;
        }
        i = i + 1;
    }
    Some(items)
}

/// The characters that separate the numbers of a spline.
pub open spec fn is_spline_sep(c: char) -> bool {
    c == ',' || c == ' ' || c == '\t' || c == '\n' || c == '\r'
}

/// The non-empty runs of `g[i..]` between separators, the current run having
/// started at `start`.
pub open spec fn spline_tokens(g: Seq<char>, i: int, start: int) -> Seq<Seq<char>>
    decreases g.len() - i,
{
    if i < 0 || i >= g.len() {
        if start < g.len() {
            seq![g.subrange(start, g.len() as int)]
        } else {
            Seq::empty()
        }
    } else if is_spline_sep(g[i]) {
        (if start < i {
            seq![g.subrange(start, i)]
        } else {
            Seq::empty()
        }) + spline_tokens(g, i + 1, i + 1)
    } else {
        spline_tokens(g, i + 1, start)
    }
}

/// Splits a spline group at its separators, dropping empty runs.
fn spline_token_list(g: &[char]) -> (r: Vec<String>)
    ensures
        texts_of(r@) == spline_tokens(g@, 0, 0),
{
    let mut out: Vec<String> = Vec::new();
    let mut start: usize = 0;
    let mut i: usize = 0;
    while i < g.len()
        invariant
            0 <= start <= i <= g@.len(),
            texts_of(out@) + spline_tokens(g@, i as int, start as int) == spline_tokens(g@, 0, 0),
        decreases g.len() - i,
    {
        let c = g[i];
        if c == ',' || c == ' ' || c == '\t' || c == '\n' || c == '\r' {
            let ghost before = texts_of(out@);
            let ghost rest = spline_tokens(g@, i + 1, i + 1);
            if start < i {
                out.push(string_of(g, start, i));
                assert(texts_of(out@) =~= before.push(g@.subrange(start as int, i as int)));
                assert(before + (seq![g@.subrange(start as int, i as int)] + rest) =~= texts_of(
                    out@,
                ) + rest);
            } else {
                assert(before + (Seq::<Seq<char>>::empty() + rest) =~= before + rest);
            }
            start = i + 1;
        }
        i = i + 1;
    }
    let ghost before = texts_of(out@);
    if start < g.len() {
        out.push(string_of(g, start, g.len()));
        assert(texts_of(out@) =~= before + seq![g@.subrange(start as int, g@.len() as int)]);
    } else {
        assert(before + Seq::<Seq<char>>::empty() =~= before);
    }
    out
}

/// One `keySplines` entry: the control points `x1 y1 x2 y2` as texts.
#[derive(Clone, Debug, PartialEq)]
pub struct Spline {
    pub x1: String,
    pub y1: String,
    pub x2: String,
    pub y2: String,
}

pub struct SplineView {
    pub x1: Seq<char>,
    pub y1: Seq<char>,
    pub x2: Seq<char>,
    pub y2: Seq<char>,
}

impl View for Spline {
    type V = SplineView;

    open spec fn view(&self) -> SplineView {
        SplineView { x1: self.x1@, y1: self.y1@, x2: self.x2@, y2: self.y2@ }
    }
}

pub open spec fn spline_views(s: Seq<Spline>) -> Seq<SplineView> {
    s.map_values(|x: Spline| x@)
}

pub open spec fn opt_splines(r: Option<Vec<Spline>>) -> Option<Seq<SplineView>> {
    match r {
        Some(v) => Some(spline_views(v@)),
        None => None,
    }
}

/// Whether a spline number is accepted: for SMIL timing, a finite `f32`
/// once trimmed; for `<animateMotion>`, any text that `f32` parsing accepts.
pub open spec fn spline_number(t: Seq<char>, finite: bool) -> bool {
    if finite {
        f32_finite(trim(t))
    } else {
        f32_parses(t)
    }
}

/// The text kept for an accepted spline number.
pub open spec fn spline_text(t: Seq<char>, finite: bool) -> Seq<char> {
    if finite {
        trim(t)
    } else {
        t
    }
}

/// A spline group: exactly four accepted numbers.
pub open spec fn spline_of(g: Seq<char>, finite: bool) -> Option<SplineView> {
    let ts = spline_tokens(g, 0, 0);
    if ts.len() == 4 && spline_number(ts[0], finite) && spline_number(ts[1], finite)
        && spline_number(ts[2], finite) && spline_number(ts[3], finite) {
        Some(
            SplineView {
                x1: spline_text(ts[0], finite),
                y1: spline_text(ts[1], finite),
                x2: spline_text(ts[2], finite),
                y2: spline_text(ts[3], finite),
            },
        )
    } else {
        None
    }
}

/// A `keySplines` list: `;`-separated groups, blanks dropped, at least one,
/// each a valid spline.
pub open spec fn splines_spec(value: Seq<char>, finite: bool) -> Option<Seq<SplineView>> {
    let groups = value_items_spec(value);
    if groups.len() > 0 && (forall|i: int| 0 <= i < groups.len() ==> (#[trigger] spline_of(groups[i], finite)) is Some) {
        Some(groups.map_values(|g: Seq<char>| spline_of(g, finite)->0))
    } else {
        None
    }
}

fn spline_number_text(t: &str, finite: bool) -> (r: Option<String>)
    ensures
        match r {
            Some(s) => spline_number(t@, finite) && s@ == spline_text(t@, finite),
            None => !spline_number(t@, finite),
        },
{
    let cs = chars_of(t);
    assert(cs@.subrange(0, cs@.len() as int) =~= cs@);
    if finite {
        let (a, b) = trim_bounds(cs.as_slice(), 0, cs.len());
        if is_finite_f32(cs.as_slice(), a, b) {
            Some(string_of(cs.as_slice(), a, b))
        } else {
            None
        }
    } else if parses_f32(cs.as_slice(), 0, cs.len()) {
        Some(string_of(cs.as_slice(), 0, cs.len()))
    } else {
        None
    }
}

fn parse_spline(group: &str, finite: bool) -> (r: Option<Spline>)
    ensures
        match r {
            Some(s) => spline_of(group@, finite) == Some(s@),
            None => spline_of(group@, finite) is None,
        },
{
    let g = chars_of(group);
    let ts = spline_token_list(g.as_slice());
    if ts.len() != 4 {
        return None;
    }
    assert(texts_of(ts@)[0] == ts@[0]@);
    assert(texts_of(ts@)[1] == ts@[1]@);
    assert(texts_of(ts@)[2] == ts@[2]@);
    assert(texts_of(ts@)[3] == ts@[3]@);
    let x1 = match spline_number_text(ts[0].as_str(), finite) {
        Some(t) => t,
        None => return None,
    };
    let y1 = match spline_number_text(ts[1].as_str(), finite) {
        Some(t) => t,
        None => return None,
    };
    let x2 = match spline_number_text(ts[2].as_str(), finite) {
        Some(t) => t,
        None => return None,
    };
    let y2 = match spline_number_text(ts[3].as_str(), finite) {
        Some(t) => t,
        None => return None,
    };
    Some(Spline { x1, y1, x2, y2 })
}

/// Reads a `keySplines` list; `finite` selects the SMIL timing reading of
/// its numbers rather than the `<animateMotion>` one.
pub fn spline_list(value: &str, finite: bool) -> (r: Option<Vec<Spline>>)
    ensures
        opt_splines(r) == splines_spec(value@, finite),
{
    let groups = value_items(value);
    let ghost gs = texts_of(groups@);
    if groups.len() == 0 {
        return None;
    }
    let mut out: Vec<Spline> = Vec::new();
    let mut i: usize = 0;
    while i < groups.len()
        invariant
            gs == texts_of(groups@),
            gs == value_items_spec(value@),
            0 <= i <= groups@.len(),
            out@.len() == i,
            forall|j: int| 0 <= j < i ==> (#[trigger] spline_of(gs[j], finite)) == Some(out@[j]@),
        decreases groups.len() - i,
    {
        assert(gs[i as int] == groups@[i as int]@);
        match parse_spline(groups[i].as_str(), finite) {
            Some(s) => {
                out.push(s);
            },
            None => {
                return None;
            },
        }
        i = i + 1;
    }
    assert(spline_views(out@) =~= gs.map_values(|g: Seq<char>| spline_of(g, finite)->0));
    Some(out)
}

/// Reads a SMIL `keySplines` list, each number a finite `f32`.
pub fn parse_key_splines(value: &str) -> (r: Option<Vec<Spline>>)
    ensures
        opt_splines(r) == splines_spec(value@, true),
{
    spline_list(value, true)
}

/// Every control value of the splines lies in `0.0..=1.0`.
pub open spec fn splines_in_range_spec(s: Seq<SplineView>) -> bool {
    forall|i: int|
        0 <= i < s.len() ==> f32_unit((#[trigger] s[i]).x1) && f32_unit(s[i].y1) && f32_unit(
            s[i].x2,
        ) && f32_unit(s[i].y2)
}

fn unit_text(t: &String) -> (r: bool)
    ensures
        r == f32_unit(t@),
{
    let cs = chars_of(t.as_str());
    assert(cs@.subrange(0, cs@.len() as int) =~= cs@);
    is_unit_f32(cs.as_slice(), 0, cs.len())
}

/// Checks that every control value of the splines lies in `0.0..=1.0`.
pub fn splines_in_range(splines: &[Spline]) -> (r: bool)
    ensures
        r == splines_in_range_spec(spline_views(splines@)),
{
    let ghost sv = spline_views(splines@);
    let mut i: usize = 0;
    while i < splines.len()
        invariant
            sv == spline_views(splines@),
            0 <= i <= splines@.len(),
            forall|j: int|
                0 <= j < i ==> f32_unit((#[trigger] sv[j]).x1) && f32_unit(sv[j].y1) && f32_unit(
                    sv[j].x2,
                ) && f32_unit(sv[j].y2),
        decreases splines.len() - i,
    {
        let s = &splines[i];
        assert(sv[i as int] == s@);
        if !(unit_text(&s.x1) && unit_text(&s.y1) && unit_text(&s.x2) && unit_text(&s.y2)) {
            return false;
        }
        i = i + 1;
    }
    true
}

/// The checks that `keyTimes` must pass besides their order: one entry per
/// animation value, each in `0.0..=1.0`, the first zero and, except for
/// `discrete`, the last one. That they never decrease is decided on their
/// `f32` values and is given as `ordered`.
pub open spec fn key_times_fit(t: Seq<Seq<char>>, calc_mode: CalcMode, values_count: nat, ordered: bool) -> bool {
    &&& t.len() == values_count
    &&& t.len() > 0
    &&& f32_rounds_to_zero(trim(t[0]))
    &&& forall|i: int| 0 <= i < t.len() ==> f32_unit(trim(#[trigger] t[i]))
    &&& ordered
    &&& (calc_mode == CalcMode::Discrete || f32_rounds_to_one(trim(t.last())))
}

/// `n - 1`, or zero.
pub open spec fn one_less(n: nat) -> nat {
    if n == 0 {
        0
    } else {
        (n - 1) as nat
    }
}

/// The timing of a SMIL animation besides its `calcMode`: its `keyTimes` and
/// `keySplines`, or the text of the attribute that fails.
///
/// `paced` ignores both lists. `keyTimes`, when present, must read and fit
/// (`key_times_fit`). `spline` needs `keySplines` (absent reads as empty)
/// with one spline per interval between key times, or between values when
/// there are no key times, every control value in `0.0..=1.0`.
pub open spec fn easing_spec(
    calc_mode: CalcMode,
    key_times: Option<Seq<char>>,
    key_splines: Option<Seq<char>>,
    values_count: nat,
    ordered: bool,
) -> Result<(Option<Seq<Seq<char>>>, Option<Seq<SplineView>>), Seq<char>> {
    if calc_mode == CalcMode::Paced {
        Ok((None, None))
    } else {
        let times: Result<Option<Seq<Seq<char>>>, Seq<char>> = match key_times {
            None => Ok(None),
            Some(raw) => match key_times_spec(raw) {
                Some(t) => if key_times_fit(t, calc_mode, values_count, ordered) {
                    Ok(Some(t))
                } else {
                    Err(raw)
                },
                None => Err(raw),
            },
        };
        match times {
            Err(raw) => Err(raw),
            Ok(times) => if calc_mode == CalcMode::Spline {
                let raw = match key_splines {
                    Some(r) => r,
                    None => Seq::empty(),
                };
                let expected = match times {
                    Some(t) => one_less(t.len()),
                    None => one_less(values_count),
                };
                match splines_spec(raw, true) {
                    Some(s) => if s.len() == expected && splines_in_range_spec(s) {
                        Ok((times, Some(s)))
                    } else {
                        Err(raw)
                    },
                    None => Err(raw),
                }
            } else {
                Ok((times, None))
            },
        }
    }
}

/// The message logged for timing that is dropped.
pub open spec fn invalid_timing_message(raw: Seq<char>) -> Seq<char> {
    quoted("Invalid animation timing: '"@, raw)
}

pub open spec fn easing_view(r: Result<(Option<Vec<String>>, Option<Vec<Spline>>), String>) -> Result<
    (Option<Seq<Seq<char>>>, Option<Seq<SplineView>>),
    Seq<char>,
> {
    match r {
        Ok((t, s)) => Ok((opt_texts(t), opt_splines(s))),
        Err(m) => Err(m@),
    }
}

fn key_times_check(t: &Vec<String>, calc_mode: CalcMode, values_count: usize, ordered: bool) -> (r: bool)
    ensures
        r == key_times_fit(texts_of(t@), calc_mode, values_count as nat, ordered),
{
    let ghost tv = texts_of(t@);
    if t.len() != values_count || t.len() == 0 || !ordered {
        return false;
    }
    let first = chars_of(t[0].as_str());
    assert(tv[0] == t@[0]@);
    let (a, b) = trim_bounds(first.as_slice(), 0, first.len());
    assert(first@.subrange(0, first@.len() as int) =~= first@);
    if !rounds_to_zero_f32(first.as_slice(), a, b) {
        return false;
    }
    let mut i: usize = 0;
    while i < t.len()
        invariant
            tv == texts_of(t@),
            0 <= i <= t@.len(),
            forall|j: int| 0 <= j < i ==> f32_unit(trim(#[trigger] tv[j])),
        decreases t.len() - i,
    {
        let cs = chars_of(t[i].as_str());
        assert(tv[i as int] == t@[i as int]@);
        let (a, b) = trim_bounds(cs.as_slice(), 0, cs.len());
        assert(cs@.subrange(0, cs@.len() as int) =~= cs@);
        if !is_unit_f32(cs.as_slice(), a, b) {
            return false;
        }
        i = i + 1;
    }
    if calc_mode == CalcMode::Discrete {
        return true;
    }
    let last = chars_of(t[t.len() - 1].as_str());
    assert(tv.last() == t@[t@.len() - 1]@);
    let (a, b) = trim_bounds(last.as_slice(), 0, last.len());
    assert(last@.subrange(0, last@.len() as int) =~= last@);
    rounds_to_one_f32(last.as_slice(), a, b)
}

/// Reads the `keyTimes` and `keySplines` of a SMIL animation with the given
/// `calcMode` and number of values; `ordered` says whether the key times,
/// read as `f32`, never decrease. A failure gives the warning to log.
pub fn plan_easing(
    calc_mode: CalcMode,
    key_times: Option<&str>,
    key_splines: Option<&str>,
    values_count: usize,
    ordered: bool,
) -> (r: Result<(Option<Vec<String>>, Option<Vec<Spline>>), String>)
    ensures
        easing_view(r) == match easing_spec(
            calc_mode,
            str_opt(key_times),
            str_opt(key_splines),
            values_count as nat,
            ordered,
        ) {
            Ok(v) => Ok(v),
            Err(raw) => Err(invalid_timing_message(raw)),
        },
{
    if calc_mode == CalcMode::Paced {
        return Ok((None, None));
    }
    let times: Option<Vec<String>> = match key_times {
        None => None,
        Some(raw) => match parse_key_times(raw) {
            Some(t) => {
                if key_times_check(&t, calc_mode, values_count, ordered) {
                    Some(t)
                } else {
                    return Err(quote("Invalid animation timing: '", raw));
                }
            },
            None => {
                return Err(quote("Invalid animation timing: '", raw));
            },
        },
    };
    if calc_mode != CalcMode::Spline {
        return Ok((times, None));
    }
    let raw: &str = match key_splines {
        Some(r) => r,
        None => "",
    };
    proof {
        reveal_strlit("");
    }
    assert(raw@ == match str_opt(key_splines) {
        Some(r) => r,
        None => Seq::<char>::empty(),
    });
    let count: usize = match &times {
        Some(t) => t.len(),
        None => values_count,
    };
    let expected: usize = if count == 0 {
        0
    } else {
        count - 1
    };
    match parse_key_splines(raw) {
        Some(s) => {
            if s.len() == expected && splines_in_range(s.as_slice()) {
                Ok((times, Some(s)))
            } else {
                Err(quote("Invalid animation timing: '", raw))
            }
        },
        None => Err(quote("Invalid animation timing: '", raw)),
    }
}

} // verus!
