//! CSS values in `@keyframes` that need no number: the `path("...")` form of
//! `d`, functional notation, and `steps()` easing.

use vstd::prelude::*;
use crate::scanner::{
    is_quote, keyword_at, lemma_skip_ws_comments_bounds, lemma_string_end_bounds, matches_keyword,
    skip_string, skip_ws_comments, skip_ws_comments_end, string_end,
};
use crate::digits::{all_digits, digit_val, digits_value, is_digit};
use crate::kinds::StepPosition;
use crate::metadata::{parse_step_position, step_position_of};
use crate::number::{f32_finite, find_first, first_index, is_finite_f32};
use crate::declarations::{opt_view, plain_scan, split_plain};
use crate::text::{chars_of, eq_ci, lemma_eq_ci_apart, range_eq_ci_str, string_of, trim, trim_bounds};

verus! {

broadcast use vstd::string::group_string_axioms;

/// The path data of a CSS `path("...")` value: the keyword `path`, an opening
/// parenthesis, one quoted string, a closing parenthesis and nothing else
/// (whitespace and comments aside).
pub open spec fn css_path_spec(value: Seq<char>) -> Option<Seq<char>> {
    let v = trim(value);
    if !keyword_at(v, 0, "path"@) {
        None
    } else {
        let i1 = skip_ws_comments_end(v, 4);
        if !(i1 < v.len() && v[i1] == '(') {
            None
        } else {
            let i2 = skip_ws_comments_end(v, i1 + 1);
            if !(i2 < v.len() && is_quote(v[i2])) {
                None
            } else {
                let q = v[i2];
                let se = string_end(v, i2 + 1, q);
                if se <= i2 + 1 || v[se - 1] != q {
                    None
                } else {
                    let i3 = skip_ws_comments_end(v, se);
                    if !(i3 < v.len() && v[i3] == ')') {
                        None
                    } else if skip_ws_comments_end(v, i3 + 1) == v.len() {
                        Some(v.subrange(i2 + 1, se - 1))
                    } else {
                        None
                    }
                }
            }
        }
    }
}


/// Reads the path data out of a CSS `path("...")` value.
pub fn parse_css_path(value: &str) -> (r: Option<String>)
    ensures
        opt_view(r) == css_path_spec(value@),
{
    let all = chars_of(value);
    let (a, b) = trim_bounds(all.as_slice(), 0, all.len());
    assert(all@.subrange(0, all@.len() as int) =~= all@);
    let v = crate::text::copy_range(all.as_slice(), a, b);
    let s = v.as_slice();
    if !matches_keyword(s, 0, "path") {
        return None;
    }
    proof {
        reveal_strlit("path");
        lemma_skip_ws_comments_bounds(v@, 4);
    }
    let i1 = skip_ws_comments(s, 4);
    if !(i1 < s.len() && s[i1] == '(') {
        return None;
    }
    proof {
        lemma_skip_ws_comments_bounds(v@, i1 + 1);
    }
    let i2 = skip_ws_comments(s, i1 + 1);
    if !(i2 < s.len() && (s[i2] == '\'' || s[i2] == '"')) {
        return None;
    }
    let q = s[i2];
    let se = skip_string(s, i2, q);
    if se <= i2 + 1 || s[se - 1] != q {
        return None;
    }
    proof {
        lemma_skip_ws_comments_bounds(v@, se as int);
    }
    let i3 = skip_ws_comments(s, se);
    if !(i3 < s.len() && s[i3] == ')') {
        return None;
    }
    proof {
        lemma_skip_ws_comments_bounds(v@, i3 + 1);
    }
    let i4 = skip_ws_comments(s, i3 + 1);
    if i4 == s.len() {
        Some(string_of(s, i2 + 1, se - 1))
    } else {
        None
    }
}


/// The arguments of a `name(...)` functional value: the text must end with
/// `)`, and the text before its first `(`, trimmed, must be `name` (ignoring
/// ASCII case).
pub open spec fn function_arguments_spec(value: Seq<char>, name: Seq<char>) -> Option<
    (int, int),
> {
    if value.len() == 0 || value.last() != ')' {
        None
    } else {
        let inner = value.drop_last();
        let open = first_index(inner, '(', '(');
        if open < inner.len() && eq_ci(trim(inner.subrange(0, open)), name) {
            Some((open + 1, inner.len() as int))
        } else {
            None
        }
    }
}

/// Finds the argument list of a `name(...)` functional value in `value`, as
/// a range of `value`.
pub fn function_arguments(value: &[char], name: &str) -> (r: Option<(usize, usize)>)
    ensures
        match r {
            Some((lo, hi)) => function_arguments_spec(value@, name@) == Some(
                (lo as int, hi as int),
            ),
            None => function_arguments_spec(value@, name@) is None,
        },
{
    let n = value.len();
    if n == 0 || value[n - 1] != ')' {
        return None;
    }
    let inner_end = n - 1;
    assert(value@.subrange(0, inner_end as int) =~= value@.drop_last());
    let open = find_first(value, 0, inner_end, '(', '(');
    if open == inner_end {
        return None;
    }
    let (a, b) = trim_bounds(value, 0, open);
    assert(value@.subrange(0, open as int) =~= value@.drop_last().subrange(0, open as int));
    if range_eq_ci_str(value, a, b, name) {
        Some((open + 1, inner_end))
    } else {
        None
    }
}

/// What `u32::from_str` accepts: an optional `+`, then decimal digits whose
/// value fits.
pub open spec fn u32_text(s: Seq<char>) -> Option<nat> {
    let body = if s.len() > 0 && s[0] == '+' {
        s.subrange(1, s.len() as int)
    } else {
        s
    };
    if body.len() > 0 && all_digits(body) && digits_value(body) <= u32::MAX {
        Some(digits_value(body))
    } else {
        None
    }
}

proof fn lemma_digits_value_monotone(s: Seq<char>, k: int)
    requires
        0 <= k <= s.len(),
        all_digits(s),
    ensures
        digits_value(s.subrange(0, k)) <= digits_value(s),
    decreases s.len() - k,
{
    if k < s.len() {
        lemma_digits_value_monotone(s, k + 1);
        assert(s.subrange(0, k + 1).drop_last() =~= s.subrange(0, k));
    } else {
        assert(s.subrange(0, k) =~= s);
    }
}

/// Reads `text[lo..hi]` as `u32::from_str` does.
pub fn parse_u32(text: &[char], lo: usize, hi: usize) -> (r: Option<u32>)
    requires
        lo <= hi <= text@.len(),
    ensures
        match r {
            Some(v) => u32_text(text@.subrange(lo as int, hi as int)) == Some(v as nat),
            None => u32_text(text@.subrange(lo as int, hi as int)) is None,
        },
{
    let ghost s = text@.subrange(lo as int, hi as int);
    let start = if lo < hi && text[lo] == '+' {
        lo + 1
    } else {
        lo
    };
    let ghost body = text@.subrange(start as int, hi as int);
    assert(body =~= (if s.len() > 0 && s[0] == '+' {
        s.subrange(1, s.len() as int)
    } else {
        s
    }));
    if start == hi {
        return None;
    }
    let mut value: u64 = 0;
    let mut i = start;
    while i < hi
        invariant
            lo <= start <= i <= hi <= text@.len(),
            start < hi,
            body == text@.subrange(start as int, hi as int),
            s == text@.subrange(lo as int, hi as int),
            body == (if s.len() > 0 && s[0] == '+' {
                s.subrange(1, s.len() as int)
            } else {
                s
            }),
            all_digits(text@.subrange(start as int, i as int)),
            value as nat == digits_value(text@.subrange(start as int, i as int)),
            value <= u32::MAX,
        decreases hi - i,
    {
        let c = text[i];
        assert(text@.subrange(start as int, i + 1).drop_last() =~= text@.subrange(start as int, i as int));
        if !('0' <= c && c <= '9') {
            assert(body[i - start] == c);
            return None;
        }
        let d = (c as u32 - '0' as u32) as u64;
        value = value * 10 + d;
        if value > 0xffff_ffff {
            proof {
                assert(all_digits(text@.subrange(start as int, i + 1)));
                if all_digits(body) {
                    assert(text@.subrange(start as int, i + 1) =~= body.subrange(0, i + 1 - start));
                    lemma_digits_value_monotone(body, i + 1 - start);
                }
            }
            return None;
        }
        i = i + 1;
    }
    assert(text@.subrange(start as int, hi as int) =~= body);
    Some(value as u32)
}

/// A CSS easing function, with the numbers of `cubic-bezier()` kept as the
/// texts of finite `f32` literals.
#[derive(Clone, Debug, PartialEq)]
pub enum CssEasing {
    Linear,
    /// `ease`, `cubic-bezier(0.25, 0.1, 0.25, 1)`.
    Ease,
    /// `ease-in`, `cubic-bezier(0.42, 0, 1, 1)`.
    EaseIn,
    /// `ease-out`, `cubic-bezier(0, 0, 0.58, 1)`.
    EaseOut,
    /// `ease-in-out`, `cubic-bezier(0.42, 0, 0.58, 1)`.
    EaseInOut,
    /// `steps(count, position)`; `step-start` and `step-end` are one step.
    Steps(u32, StepPosition),
    /// `cubic-bezier(x1, y1, x2, y2)`.
    CubicBezier(String, String, String, String),
}

pub enum CssEasingView {
    Linear,
    Ease,
    EaseIn,
    EaseOut,
    EaseInOut,
    Steps(u32, StepPosition),
    CubicBezier(Seq<char>, Seq<char>, Seq<char>, Seq<char>),
}

impl View for CssEasing {
    type V = CssEasingView;

    open spec fn view(&self) -> CssEasingView {
        match self {
            CssEasing::Linear => CssEasingView::Linear,
            CssEasing::Ease => CssEasingView::Ease,
            CssEasing::EaseIn => CssEasingView::EaseIn,
            CssEasing::EaseOut => CssEasingView::EaseOut,
            CssEasing::EaseInOut => CssEasingView::EaseInOut,
            CssEasing::Steps(n, p) => CssEasingView::Steps(*n, *p),
            CssEasing::CubicBezier(a, b, c, d) => CssEasingView::CubicBezier(a@, b@, c@, d@),
        }
    }
}

/// The pieces of `s` split at every comma (`str::split(',')`).
pub open spec fn comma_pieces(s: Seq<char>) -> Seq<Seq<char>> {
    plain_scan(s, ',', 0, 0).map_values(|r: (int, int)| s.subrange(r.0, r.1))
}

/// `steps(...)` arguments: a positive count, then an optional position.
pub open spec fn steps_spec(arguments: Seq<char>) -> Option<CssEasingView> {
    let parts = comma_pieces(arguments);
    match u32_text(trim(parts[0])) {
        None => None,
        Some(count) => if count == 0 || parts.len() > 2 {
            None
        } else if parts.len() == 1 {
            Some(CssEasingView::Steps(count as u32, StepPosition::JumpEnd))
        } else {
            match step_position_of(trim(parts[1])) {
                Some(p) => Some(CssEasingView::Steps(count as u32, p)),
                None => None,
            }
        },
    }
}

/// `cubic-bezier(...)` arguments: exactly four finite numbers.
pub open spec fn cubic_bezier_spec(arguments: Seq<char>) -> Option<CssEasingView> {
    let parts = comma_pieces(arguments);
    if parts.len() == 4 && f32_finite(trim(parts[0])) && f32_finite(trim(parts[1])) && f32_finite(
        trim(parts[2]),
    ) && f32_finite(trim(parts[3])) {
        Some(
            CssEasingView::CubicBezier(
                trim(parts[0]),
                trim(parts[1]),
                trim(parts[2]),
                trim(parts[3]),
            ),
        )
    } else {
        None
    }
}

/// A CSS easing function: the keywords, `steps()` and `cubic-bezier()`.
pub open spec fn easing_spec(value: Seq<char>) -> Option<CssEasingView> {
    let v = trim(value);
    if eq_ci(v, "linear"@) {
        Some(CssEasingView::Linear)
    } else if eq_ci(v, "ease"@) {
        Some(CssEasingView::Ease)
    } else if eq_ci(v, "ease-in"@) {
        Some(CssEasingView::EaseIn)
    } else if eq_ci(v, "ease-out"@) {
        Some(CssEasingView::EaseOut)
    } else if eq_ci(v, "ease-in-out"@) {
        Some(CssEasingView::EaseInOut)
    } else if eq_ci(v, "step-start"@) {
        Some(CssEasingView::Steps(1, StepPosition::JumpStart))
    } else if eq_ci(v, "step-end"@) {
        Some(CssEasingView::Steps(1, StepPosition::JumpEnd))
    } else {
        match function_arguments_spec(v, "steps"@) {
            Some((lo, hi)) => steps_spec(v.subrange(lo, hi)),
            None => match function_arguments_spec(v, "cubic-bezier"@) {
                Some((lo, hi)) => cubic_bezier_spec(v.subrange(lo, hi)),
                None => None,
            },
        }
    }
}


pub open spec fn easing_view(r: Option<CssEasing>) -> Option<CssEasingView> {
    match r {
        Some(e) => Some(e@),
        None => None,
    }
}

proof fn lemma_comma_pieces(s: Seq<char>)
    ensures
        comma_pieces(s).len() >= 1,
        comma_pieces(s).len() == plain_scan(s, ',', 0, 0).len(),
{
    crate::declarations::lemma_plain_scan_tiles(s, ',', 0, 0);
}

/// Reads `steps()` arguments.
pub fn parse_steps(arguments: &[char]) -> (r: Option<CssEasing>)
    ensures
        easing_view(r) == steps_spec(arguments@),
{
    let parts = split_plain(arguments, ',');
    let ghost ps = plain_scan(arguments@, ',', 0, 0);
    proof {
        lemma_comma_pieces(arguments@);
    }
    let ghost pieces = comma_pieces(arguments@);
    let (lo0, hi0) = parts[0];
    assert(pieces[0] == arguments@.subrange(lo0 as int, hi0 as int));
    let (a, b) = trim_bounds(arguments, lo0, hi0);
    let count = match parse_u32(arguments, a, b) {
        Some(c) => c,
        None => return None,
    };
    if count == 0 || parts.len() > 2 {
        return None;
    }
    if parts.len() == 1 {
        return Some(CssEasing::Steps(count, StepPosition::JumpEnd));
    }
    let (lo1, hi1) = parts[1];
    assert(pieces[1] == arguments@.subrange(lo1 as int, hi1 as int));
    let (c, d) = trim_bounds(arguments, lo1, hi1);
    match parse_step_position(arguments, c, d) {
        Some(p) => Some(CssEasing::Steps(count, p)),
        None => None,
    }
}

/// Reads `cubic-bezier()` arguments.
pub fn parse_cubic_bezier(arguments: &[char]) -> (r: Option<CssEasing>)
    ensures
        easing_view(r) == cubic_bezier_spec(arguments@),
{
    let parts = split_plain(arguments, ',');
    proof {
        lemma_comma_pieces(arguments@);
    }
    let ghost pieces = comma_pieces(arguments@);
    if parts.len() != 4 {
        return None;
    }
    let mut texts: Vec<String> = Vec::new();
    let mut k: usize = 0;
    while k < 4
        invariant
            0 <= k <= 4,
            parts@.len() == 4,
            pieces == comma_pieces(arguments@),
            pieces.len() == 4,
            forall|j: int|
                0 <= j < parts@.len() ==> pieces[j] == arguments@.subrange(
                    parts@[j].0 as int,
                    parts@[j].1 as int,
                ) && parts@[j].0 <= parts@[j].1 <= arguments@.len(),
            texts@.len() == k,
            forall|j: int| 0 <= j < k ==> f32_finite(trim(#[trigger] pieces[j])),
            forall|j: int| 0 <= j < k ==> (#[trigger] texts@[j])@ == trim(pieces[j]),
        decreases 4 - k,
    {
        let (lo, hi) = parts[k];
        assert(pieces[k as int] == arguments@.subrange(lo as int, hi as int));
        let (a, b) = trim_bounds(arguments, lo, hi);
        if !is_finite_f32(arguments, a, b) {
            return None;
        }
        let ghost before = texts@;
        texts.push(string_of(arguments, a, b));
        assert(texts@[k as int]@ == trim(pieces[k as int]));
        assert(f32_finite(trim(pieces[k as int])));
        assert(forall|j: int| 0 <= j < k ==> texts@[j] == before[j]);
        k = k + 1;
    }
    let d = texts.pop().unwrap();
    let c = texts.pop().unwrap();
    let b = texts.pop().unwrap();
    let a = texts.pop().unwrap();
    Some(CssEasing::CubicBezier(a, b, c, d))
}

/// Reads a CSS easing function (`animation-timing-function`).
pub fn parse_easing(value: &str) -> (r: Option<CssEasing>)
    ensures
        easing_view(r) == easing_spec(value@),
{
    let all = chars_of(value);
    let (a, b) = trim_bounds(all.as_slice(), 0, all.len());
    assert(all@.subrange(0, all@.len() as int) =~= all@);
    let v = crate::text::copy_range(all.as_slice(), a, b);
    let s = v.as_slice();
    let n = v.len();
    assert(v@.subrange(0, n as int) =~= v@);
    if range_eq_ci_str(s, 0, n, "linear") {
        Some(CssEasing::Linear)
    } else if range_eq_ci_str(s, 0, n, "ease") {
        Some(CssEasing::Ease)
    } else if range_eq_ci_str(s, 0, n, "ease-in") {
        Some(CssEasing::EaseIn)
    } else if range_eq_ci_str(s, 0, n, "ease-out") {
        Some(CssEasing::EaseOut)
    } else if range_eq_ci_str(s, 0, n, "ease-in-out") {
        Some(CssEasing::EaseInOut)
    } else if range_eq_ci_str(s, 0, n, "step-start") {
        Some(CssEasing::Steps(1, StepPosition::JumpStart))
    } else if range_eq_ci_str(s, 0, n, "step-end") {
        Some(CssEasing::Steps(1, StepPosition::JumpEnd))
    } else if let Some((lo, hi)) = function_arguments(s, "steps") {
        let args = crate::text::copy_range(s, lo, hi);
        parse_steps(args.as_slice())
    } else if let Some((lo, hi)) = function_arguments(s, "cubic-bezier") {
        let args = crate::text::copy_range(s, lo, hi);
        parse_cubic_bezier(args.as_slice())
    } else {
        None
    }
}


/// The keyword that names an easing, for the five named ones.
pub open spec fn easing_keyword(e: CssEasingView) -> Option<Seq<char>> {
    match e {
        CssEasingView::Linear => Some("linear"@),
        CssEasingView::Ease => Some("ease"@),
        CssEasingView::EaseIn => Some("ease-in"@),
        CssEasingView::EaseOut => Some("ease-out"@),
        CssEasingView::EaseInOut => Some("ease-in-out"@),
        _ => None,
    }
}

/// Law: the five easing keywords read as the easings of the same name, in
/// any ASCII case and with surrounding white space, and a named easing comes
/// only from its own keyword (so the five keywords give five easings).
pub proof fn lemma_easing_keywords(value: Seq<char>, e: CssEasingView)
    ensures
        easing_keyword(e) matches Some(k) ==> (eq_ci(trim(value), k) ==> easing_spec(value) == Some(
            e,
        )),
        easing_spec(value) matches Some(r) ==> (easing_keyword(r) matches Some(k) ==> eq_ci(
            trim(value),
            k,
        )),
{
    reveal_strlit("linear");
    reveal_strlit("ease");
    reveal_strlit("ease-in");
    reveal_strlit("ease-out");
    reveal_strlit("ease-in-out");
    assert("linear"@.len() == 6);
    assert("ease"@.len() == 4);
    assert("ease-in"@.len() == 7);
    assert("ease-out"@.len() == 8);
    assert("ease-in-out"@.len() == 11);
}


/// Law: `step-start` and `step-end` (any ASCII case, trimmed) are one step
/// that jumps at the start and at the end of the interval.
pub proof fn lemma_step_keywords(value: Seq<char>)
    ensures
        eq_ci(trim(value), "step-start"@) ==> easing_spec(value) == Some(
            CssEasingView::Steps(1, StepPosition::JumpStart),
        ),
        eq_ci(trim(value), "step-end"@) ==> easing_spec(value) == Some(
            CssEasingView::Steps(1, StepPosition::JumpEnd),
        ),
{
    reveal_strlit("linear");
    reveal_strlit("ease");
    reveal_strlit("ease-in");
    reveal_strlit("ease-out");
    reveal_strlit("ease-in-out");
    reveal_strlit("step-start");
    reveal_strlit("step-end");
    assert("linear"@.len() == 6);
    assert("ease"@.len() == 4);
    assert("ease-in"@.len() == 7);
    assert("ease-out"@.len() == 8);
    assert("ease-in-out"@.len() == 11);
    assert("step-start"@.len() == 10);
    assert("step-end"@.len() == 8);
    if eq_ci(trim(value), "step-end"@) {
        assert("step-end"@[0] == 's' && "ease-out"@[0] == 'e');
        lemma_eq_ci_apart(trim(value), "step-end"@, "ease-out"@, 0);
    }
}

} // verus!
