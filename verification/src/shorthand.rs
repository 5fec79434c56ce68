//! Expansion of the `animation` shorthand property.
//!
//! Implements the CSS Animations Level 1 grammar so a single `animation`
//! declaration can be expanded into its eight longhands, index-matched across
//! comma-separated animation definitions.

use vstd::prelude::*;
use crate::declarations::opt_view;
use crate::number::{f64_finite, f64_finite_non_negative, is_finite_f64, is_finite_non_negative_f64};
use crate::scanner::{split_ranges, split_top_level, tiles};
use crate::text::{
    chars_of, ends_with_ci, eq_ci, join, join_strings, range_ends_with_ci, range_eq_ci_str,
    range_starts_with_ci, starts_with_ci, substring, trim, trim_bounds, texts_of, copy_range,
};

verus! {

broadcast use vstd::string::group_string_axioms;

/// What a parse produced: a value, a rejection, or a panic of the byte-slicing
/// checks (which this crate never performs; such inputs are left out).
pub enum Outcome<T> {
    Panic,
    Invalid,
    Done(T),
}

/// The eight longhands the `animation` shorthand expands into.
///
/// Every field is a comma-separated list. The lists are index-matched: the Nth
/// entry of each belongs to the Nth animation in the shorthand.
pub struct AnimationLonghands {
    pub name: String,
    pub duration: String,
    pub timing_function: String,
    pub delay: String,
    pub iteration_count: String,
    pub direction: String,
    pub fill_mode: String,
    pub play_state: String,
}

/// The text of each longhand list.
pub struct LonghandsView {
    pub name: Seq<char>,
    pub duration: Seq<char>,
    pub timing_function: Seq<char>,
    pub delay: Seq<char>,
    pub iteration_count: Seq<char>,
    pub direction: Seq<char>,
    pub fill_mode: Seq<char>,
    pub play_state: Seq<char>,
}

impl View for AnimationLonghands {
    type V = LonghandsView;

    open spec fn view(&self) -> LonghandsView {
        LonghandsView {
            name: self.name@,
            duration: self.duration@,
            timing_function: self.timing_function@,
            delay: self.delay@,
            iteration_count: self.iteration_count@,
            direction: self.direction@,
            fill_mode: self.fill_mode@,
            play_state: self.play_state@,
        }
    }
}

/// The longhand values one animation definition sets.
pub struct SingleView {
    pub duration: Option<Seq<char>>,
    pub delay: Option<Seq<char>>,
    pub timing_function: Option<Seq<char>>,
    pub iteration_count: Option<Seq<char>>,
    pub direction: Option<Seq<char>>,
    pub fill_mode: Option<Seq<char>>,
    pub play_state: Option<Seq<char>>,
    pub name: Option<Seq<char>>,
    pub name_seen: bool,
}

pub open spec fn empty_single() -> SingleView {
    SingleView {
        duration: None,
        delay: None,
        timing_function: None,
        iteration_count: None,
        direction: None,
        fill_mode: None,
        play_state: None,
        name: None,
        name_seen: false,
    }
}

/// Number of UTF-8 bytes that encode `c`.
pub open spec fn utf8_width(c: char) -> nat {
    if (c as u32) < 0x80 {
        1
    } else if (c as u32) < 0x800 {
        2
    } else if (c as u32) < 0x10000 {
        3
    } else {
        4
    }
}

/// Number of UTF-8 bytes that encode `t`.
pub open spec fn byte_len(t: Seq<char>) -> nat
    decreases t.len(),
{
    if t.len() == 0 {
        0
    } else {
        byte_len(t.drop_last()) + utf8_width(t.last())
    }
}

/// Whether byte offset `p` of `t`'s UTF-8 encoding falls between characters.
pub open spec fn byte_boundary(t: Seq<char>, p: int) -> bool {
    exists|m: int| 0 <= m <= t.len() && byte_len(t.take(m)) == p
}

fn utf8_width_of(c: char) -> (w: u128)
    ensures
        w == utf8_width(c),
{
    let v = c as u32;
    if v < 0x80 {
        1
    } else if v < 0x800 {
        2
    } else if v < 0x10000 {
        3
    } else {
        4
    }
}

/// The number of bytes of the UTF-8 encoding of `v`.
pub fn utf8_len(v: &[char]) -> (r: u128)
    ensures
        r == byte_len(v@),
{
    let mut total: u128 = 0;
    let mut m: usize = 0;
    while m < v.len()
        invariant
            0 <= m <= v@.len(),
            total == byte_len(v@.take(m as int)),
            total <= 4 * m,
        decreases v.len() - m,
    {
        assert(v@.take(m + 1).drop_last() =~= v@.take(m as int));
        assert(v@.take(m + 1).last() == v@[m as int]);
        total = total + utf8_width_of(v[m]);
        m = m + 1;
    }
    assert(v@.take(v@.len() as int) =~= v@);
    total
}

/// Whether byte offset `p` of the UTF-8 encoding of `v` falls between
/// characters.
pub fn is_char_boundary(v: &[char], p: u128) -> (r: bool)
    ensures
        r == byte_boundary(v@, p as int),
{
    let mut total: u128 = 0;
    let mut m: usize = 0;
    while m < v.len()
        invariant
            0 <= m <= v@.len(),
            total == byte_len(v@.take(m as int)),
            total <= 4 * m,
            forall|k: int| 0 <= k < m ==> byte_len(#[trigger] v@.take(k)) != p,
        decreases v.len() - m,
    {
        if total == p {
            assert(byte_len(v@.take(m as int)) == p as int);
            return true;
        }
        assert(v@.take(m + 1).drop_last() =~= v@.take(m as int));
        assert(v@.take(m + 1).last() == v@[m as int]);
        total = total + utf8_width_of(v[m]);
        m = m + 1;
    }
    if total == p {
        assert(byte_len(v@.take(m as int)) == p as int);
        return true;
    }
    assert(forall|k: int| 0 <= k <= v@.len() ==> byte_len(#[trigger] v@.take(k)) != p);
    false
}

/// Whether a time suffix check slices `t` inside a character.
pub open spec fn time_check_panics(t: Seq<char>) -> bool {
    let bl = byte_len(t) as int;
    (bl >= 2 && !byte_boundary(t, bl - 2)) || (!ends_with_ci(t, "ms"@) && bl >= 1
        && !byte_boundary(t, bl - 1))
}

/// Whether the functional-notation prefix check slices `t` inside a character.
pub open spec fn function_check_panics(t: Seq<char>) -> bool {
    let bl = byte_len(t) as int;
    t.len() > 0 && t.last() == ')' && ((bl >= 6 && !byte_boundary(t, 6)) || (!starts_with_ci(
        t,
        "steps("@,
    ) && bl >= 13 && !byte_boundary(t, 13)))
}

/// `<time>`: a finite number followed by `s` or `ms`.
pub open spec fn is_time(t: Seq<char>) -> bool {
    if ends_with_ci(t, "ms"@) {
        let n = t.subrange(0, t.len() - 2);
        n.len() > 0 && f64_finite(n)
    } else if ends_with_ci(t, "s"@) {
        let n = t.subrange(0, t.len() - 1);
        n.len() > 0 && f64_finite(n)
    } else {
        false
    }
}

pub open spec fn is_timing_keyword(t: Seq<char>) -> bool {
    eq_ci(t, "linear"@) || eq_ci(t, "ease"@) || eq_ci(t, "ease-in"@) || eq_ci(t, "ease-out"@)
        || eq_ci(t, "ease-in-out"@) || eq_ci(t, "step-start"@) || eq_ci(t, "step-end"@)
}

/// `<easing-function>`: a keyword, or a `steps(...)`/`cubic-bezier(...)` call.
pub open spec fn is_timing_function(t: Seq<char>) -> bool {
    is_timing_keyword(t) || (t.len() > 0 && t.last() == ')' && (starts_with_ci(t, "steps("@)
        || starts_with_ci(t, "cubic-bezier("@)))
}

/// `infinite` or a finite number `>= 0`.
pub open spec fn is_iteration_count(t: Seq<char>) -> bool {
    eq_ci(t, "infinite"@) || f64_finite_non_negative(t)
}

pub open spec fn is_direction(t: Seq<char>) -> bool {
    eq_ci(t, "normal"@) || eq_ci(t, "reverse"@) || eq_ci(t, "alternate"@) || eq_ci(
        t,
        "alternate-reverse"@,
    )
}

pub open spec fn is_play_state(t: Seq<char>) -> bool {
    eq_ci(t, "running"@) || eq_ci(t, "paused"@)
}

pub open spec fn is_fill_mode(t: Seq<char>) -> bool {
    eq_ci(t, "forwards"@) || eq_ci(t, "backwards"@) || eq_ci(t, "both"@)
}

pub open spec fn is_reserved_name(t: Seq<char>) -> bool {
    eq_ci(t, "initial"@) || eq_ci(t, "inherit"@) || eq_ci(t, "unset"@) || eq_ci(t, "revert"@)
        || eq_ci(t, "default"@) || eq_ci(t, "none"@)
}

/// A keyframes name: a quoted string or an identifier start that is not reserved.
pub open spec fn is_name(t: Seq<char>) -> bool {
    !is_reserved_name(t) && t.len() > 0 && (t[0] == '"' || t[0] == '\'' || t[0] == '-' || t[0]
        == '_' || ('a' <= t[0] <= 'z') || ('A' <= t[0] <= 'Z') || (t[0] as u32) >= 0x80)
}

/// Folds one non-empty token into the animation definition read so far.
pub open spec fn step(st: SingleView, t: Seq<char>) -> Outcome<SingleView> {
    if time_check_panics(t) {
        Outcome::Panic
    } else if is_time(t) {
        if st.duration is None {
            Outcome::Done(SingleView { duration: Some(t), ..st })
        } else if st.delay is None {
            Outcome::Done(SingleView { delay: Some(t), ..st })
        } else {
            Outcome::Invalid
        }
    } else if !is_timing_keyword(t) && function_check_panics(t) {
        Outcome::Panic
    } else if is_timing_function(t) {
        if st.timing_function is Some {
            Outcome::Invalid
        } else {
            Outcome::Done(SingleView { timing_function: Some(t), ..st })
        }
    } else if is_iteration_count(t) {
        if st.iteration_count is Some {
            Outcome::Invalid
        } else {
            Outcome::Done(SingleView { iteration_count: Some(t), ..st })
        }
    } else if is_direction(t) {
        if st.direction is Some {
            Outcome::Invalid
        } else {
            Outcome::Done(SingleView { direction: Some(t), ..st })
        }
    } else if is_play_state(t) {
        if st.play_state is Some {
            Outcome::Invalid
        } else {
            Outcome::Done(SingleView { play_state: Some(t), ..st })
        }
    } else if eq_ci(t, "none"@) {
        // `none` names the animation first, then falls back to the fill mode.
        if !st.name_seen {
            Outcome::Done(SingleView { name_seen: true, ..st })
        } else if st.fill_mode is None {
            Outcome::Done(SingleView { fill_mode: Some("none"@), ..st })
        } else {
            Outcome::Invalid
        }
    } else if is_fill_mode(t) {
        if st.fill_mode is Some {
            Outcome::Invalid
        } else {
            Outcome::Done(SingleView { fill_mode: Some(t), ..st })
        }
    } else if is_name(t) {
        if st.name_seen {
            Outcome::Invalid
        } else {
            Outcome::Done(SingleView { name_seen: true, name: Some(t), ..st })
        }
    } else {
        Outcome::Invalid
    }
}

/// Folds the space-separated tokens `toks` of `text` in order.
pub open spec fn parse_tokens(text: Seq<char>, toks: Seq<(int, int)>) -> Outcome<SingleView>
    decreases toks.len(),
{
    if toks.len() == 0 {
        Outcome::Done(empty_single())
    } else {
        match parse_tokens(text, toks.drop_last()) {
            Outcome::Done(st) => {
                let t = trim(text.subrange(toks.last().0, toks.last().1));
                if t.len() == 0 {
                    Outcome::Done(st)
                } else {
                    step(st, t)
                }
            },
            other => other,
        }
    }
}

/// Parses one space-separated animation definition.
pub open spec fn parse_single(text: Seq<char>) -> Outcome<SingleView> {
    if text.len() == 0 {
        Outcome::Invalid
    } else {
        parse_tokens(text, split_ranges(text, ' ', false))
    }
}

/// Parses the comma-separated definitions `parts` of `value` in order.
pub open spec fn parse_definitions(value: Seq<char>, parts: Seq<(int, int)>) -> Outcome<
    Seq<SingleView>,
>
    decreases parts.len(),
{
    if parts.len() == 0 {
        Outcome::Done(Seq::empty())
    } else {
        match parse_definitions(value, parts.drop_last()) {
            Outcome::Done(prev) => match parse_single(
                trim(value.subrange(parts.last().0, parts.last().1)),
            ) {
                Outcome::Done(x) => Outcome::Done(prev.push(x)),
                Outcome::Invalid => Outcome::Invalid,
                Outcome::Panic => Outcome::Panic,
            },
            other => other,
        }
    }
}

pub open spec fn or_default(v: Option<Seq<char>>, d: Seq<char>) -> Seq<char> {
    match v {
        Some(x) => x,
        None => d,
    }
}

/// The longhand lists for the given definitions, with CSS initial values for
/// whatever a definition leaves unset.
pub open spec fn longhands_of(singles: Seq<SingleView>) -> LonghandsView {
    let sep = ", "@;
    LonghandsView {
        name: join(singles.map_values(|x: SingleView| or_default(x.name, "none"@)), sep),
        duration: join(singles.map_values(|x: SingleView| or_default(x.duration, "0s"@)), sep),
        timing_function: join(
            singles.map_values(|x: SingleView| or_default(x.timing_function, "ease"@)),
            sep,
        ),
        delay: join(singles.map_values(|x: SingleView| or_default(x.delay, "0s"@)), sep),
        iteration_count: join(
            singles.map_values(|x: SingleView| or_default(x.iteration_count, "1"@)),
            sep,
        ),
        direction: join(
            singles.map_values(|x: SingleView| or_default(x.direction, "normal"@)),
            sep,
        ),
        fill_mode: join(singles.map_values(|x: SingleView| or_default(x.fill_mode, "none"@)), sep),
        play_state: join(
            singles.map_values(|x: SingleView| or_default(x.play_state, "running"@)),
            sep,
        ),
    }
}

/// What expanding `value` gives.
pub open spec fn expand_outcome(value: Seq<char>) -> Outcome<LonghandsView> {
    match parse_definitions(value, split_ranges(value, ',', false)) {
        Outcome::Done(singles) => Outcome::Done(longhands_of(singles)),
        Outcome::Invalid => Outcome::Invalid,
        Outcome::Panic => Outcome::Panic,
    }
}

/// The executable counterpart of `SingleView`.
struct SingleAnimation {
    duration: Option<String>,
    delay: Option<String>,
    timing_function: Option<String>,
    iteration_count: Option<String>,
    direction: Option<String>,
    fill_mode: Option<String>,
    play_state: Option<String>,
    name: Option<String>,
    name_seen: bool,
}


impl SingleAnimation {
    spec fn view(&self) -> SingleView {
        SingleView {
            duration: opt_view(self.duration),
            delay: opt_view(self.delay),
            timing_function: opt_view(self.timing_function),
            iteration_count: opt_view(self.iteration_count),
            direction: opt_view(self.direction),
            fill_mode: opt_view(self.fill_mode),
            play_state: opt_view(self.play_state),
            name: opt_view(self.name),
            name_seen: self.name_seen,
        }
    }
}

fn assign_once(slot: &mut Option<String>, token: String) -> (ok: bool)
    ensures
        ok == ((*old(slot)) is None),
        ok ==> opt_view(*final(slot)) == Some(token@),
        !ok ==> *final(slot) == *old(slot),
{
    if slot.is_some() {
        return false;
    }
    *slot = Some(token);
    true
}

fn is_time_token(p: &[char], lo: usize, hi: usize) -> (r: bool)
    requires
        lo <= hi <= p@.len(),
    ensures
        r == is_time(p@.subrange(lo as int, hi as int)),
{
    let ghost t = p@.subrange(lo as int, hi as int);
    if range_ends_with_ci(p, lo, hi, "ms") {
        proof {
            reveal_strlit("ms");
        }
        assert(p@.subrange(lo as int, hi - 2) =~= t.subrange(0, t.len() - 2));
        hi - 2 > lo && is_finite_f64(p, lo, hi - 2)
    } else if range_ends_with_ci(p, lo, hi, "s") {
        proof {
            reveal_strlit("s");
        }
        assert(p@.subrange(lo as int, hi - 1) =~= t.subrange(0, t.len() - 1));
        hi - 1 > lo && is_finite_f64(p, lo, hi - 1)
    } else {
        false
    }
}

fn is_timing_keyword_token(p: &[char], lo: usize, hi: usize) -> (r: bool)
    requires
        lo <= hi <= p@.len(),
    ensures
        r == is_timing_keyword(p@.subrange(lo as int, hi as int)),
{
    range_eq_ci_str(p, lo, hi, "linear") || range_eq_ci_str(p, lo, hi, "ease") || range_eq_ci_str(
        p,
        lo,
        hi,
        "ease-in",
    ) || range_eq_ci_str(p, lo, hi, "ease-out") || range_eq_ci_str(p, lo, hi, "ease-in-out")
        || range_eq_ci_str(p, lo, hi, "step-start") || range_eq_ci_str(p, lo, hi, "step-end")
}

fn is_timing_function_token(p: &[char], lo: usize, hi: usize) -> (r: bool)
    requires
        lo <= hi <= p@.len(),
    ensures
        r == is_timing_function(p@.subrange(lo as int, hi as int)),
{
    if is_timing_keyword_token(p, lo, hi) {
        return true;
    }
    hi > lo && p[hi - 1] == ')' && (range_starts_with_ci(p, lo, hi, "steps(")
        || range_starts_with_ci(p, lo, hi, "cubic-bezier("))
}

fn is_iteration_count_token(p: &[char], lo: usize, hi: usize) -> (r: bool)
    requires
        lo <= hi <= p@.len(),
    ensures
        r == is_iteration_count(p@.subrange(lo as int, hi as int)),
{
    range_eq_ci_str(p, lo, hi, "infinite") || is_finite_non_negative_f64(p, lo, hi)
}

fn is_direction_token(p: &[char], lo: usize, hi: usize) -> (r: bool)
    requires
        lo <= hi <= p@.len(),
    ensures
        r == is_direction(p@.subrange(lo as int, hi as int)),
{
    range_eq_ci_str(p, lo, hi, "normal") || range_eq_ci_str(p, lo, hi, "reverse")
        || range_eq_ci_str(p, lo, hi, "alternate") || range_eq_ci_str(
        p,
        lo,
        hi,
        "alternate-reverse",
    )
}

fn is_play_state_token(p: &[char], lo: usize, hi: usize) -> (r: bool)
    requires
        lo <= hi <= p@.len(),
    ensures
        r == is_play_state(p@.subrange(lo as int, hi as int)),
{
    range_eq_ci_str(p, lo, hi, "running") || range_eq_ci_str(p, lo, hi, "paused")
}

fn is_fill_mode_token(p: &[char], lo: usize, hi: usize) -> (r: bool)
    requires
        lo <= hi <= p@.len(),
    ensures
        r == is_fill_mode(p@.subrange(lo as int, hi as int)),
{
    range_eq_ci_str(p, lo, hi, "forwards") || range_eq_ci_str(p, lo, hi, "backwards")
        || range_eq_ci_str(p, lo, hi, "both")
}

fn is_name_token(p: &[char], lo: usize, hi: usize) -> (r: bool)
    requires
        lo <= hi <= p@.len(),
    ensures
        r == is_name(p@.subrange(lo as int, hi as int)),
{
    if range_eq_ci_str(p, lo, hi, "initial") || range_eq_ci_str(p, lo, hi, "inherit")
        || range_eq_ci_str(p, lo, hi, "unset") || range_eq_ci_str(p, lo, hi, "revert")
        || range_eq_ci_str(p, lo, hi, "default") || range_eq_ci_str(p, lo, hi, "none") {
        return false;
    }
    if hi == lo {
        return false;
    }
    let c = p[lo];
    assert(c == p@.subrange(lo as int, hi as int)[0]);
    c == '"' || c == '\'' || c == '-' || c == '_' || ('a' <= c && c <= 'z') || ('A' <= c && c
        <= 'Z') || (c as u32) >= 0x80
}

/// Folds one non-empty token `p[tlo..thi]` into `anim`; `false` when the
/// definition becomes invalid.
fn apply_token(
    value: &str,
    base: usize,
    p: &[char],
    tlo: usize,
    thi: usize,
    anim: &mut SingleAnimation,
) -> (ok: bool)
    requires
        value@.len() <= usize::MAX,
        base + p@.len() <= value@.len(),
        p@ == value@.subrange(base as int, base + p@.len()),
        tlo < thi <= p@.len(),
        !(step(old(anim).view(), p@.subrange(tlo as int, thi as int)) is Panic),
    ensures
        ok ==> step(old(anim).view(), p@.subrange(tlo as int, thi as int)) == Outcome::Done(
            final(anim).view(),
        ),
        !ok ==> step(old(anim).view(), p@.subrange(tlo as int, thi as int)) is Invalid,
{
    assert(p@.subrange(tlo as int, thi as int) =~= value@.subrange(base + tlo, base + thi));
    if is_time_token(p, tlo, thi) {
        let text = substring(value, base + tlo, base + thi);
        if anim.duration.is_none() {
            anim.duration = Some(text);
        } else if anim.delay.is_none() {
            anim.delay = Some(text);
        } else {
            return false;
        }
        true
    } else if is_timing_function_token(p, tlo, thi) {
        let text = substring(value, base + tlo, base + thi);
        assign_once(&mut anim.timing_function, text)
    } else if is_iteration_count_token(p, tlo, thi) {
        let text = substring(value, base + tlo, base + thi);
        assign_once(&mut anim.iteration_count, text)
    } else if is_direction_token(p, tlo, thi) {
        let text = substring(value, base + tlo, base + thi);
        assign_once(&mut anim.direction, text)
    } else if is_play_state_token(p, tlo, thi) {
        let text = substring(value, base + tlo, base + thi);
        assign_once(&mut anim.play_state, text)
    } else if range_eq_ci_str(p, tlo, thi, "none") {
        if !anim.name_seen {
            anim.name_seen = true;
        } else if anim.fill_mode.is_none() {
            anim.fill_mode = Some("none".to_owned());
        } else {
            return false;
        }
        true
    } else if is_fill_mode_token(p, tlo, thi) {
        let text = substring(value, base + tlo, base + thi);
        assign_once(&mut anim.fill_mode, text)
    } else if is_name_token(p, tlo, thi) {
        if anim.name_seen {
            return false;
        }
        anim.name_seen = true;
        anim.name = Some(substring(value, base + tlo, base + thi));
        true
    } else {
        false
    }
}

/// Parses one space-separated animation definition held in `p`, whose first
/// character sits at `base` in `value`.
fn parse_single_animation(value: &str, base: usize, p: &[char]) -> (r: Option<SingleAnimation>)
    requires
        value@.len() <= usize::MAX,
        base + p@.len() <= value@.len(),
        p@ == value@.subrange(base as int, base + p@.len()),
        !(parse_single(p@) is Panic),
    ensures
        r is None <==> parse_single(p@) is Invalid,
        r matches Some(a) ==> parse_single(p@) == Outcome::Done(a.view()),
{
    if p.len() == 0 {
        return None;
    }
    let mut anim = SingleAnimation {
        duration: None,
        delay: None,
        timing_function: None,
        iteration_count: None,
        direction: None,
        fill_mode: None,
        play_state: None,
        name: None,
        name_seen: false,
    };
    let toks = split_top_level(p, ' ', false);
    let ghost all = split_ranges(p@, ' ', false);
    let mut k: usize = 0;
    while k < toks.len()
        invariant
            value@.len() <= usize::MAX,
            base + p@.len() <= value@.len(),
            p@ == value@.subrange(base as int, base + p@.len()),
            toks@.len() == all.len(),
            all == split_ranges(p@, ' ', false),
            tiles(p@, ' ', 0, all),
            forall|j: int|
                0 <= j < toks@.len() ==> toks@[j].0 as int == all[j].0 && toks@[j].1 as int
                    == all[j].1,
            0 <= k <= toks@.len(),
            parse_tokens(p@, all.take(k as int)) == Outcome::Done(anim.view()),
            !(parse_tokens(p@, all) is Panic),
        decreases toks.len() - k,
    {
        let (tlo0, thi0) = toks[k];
        assert(all.take(k + 1).drop_last() =~= all.take(k as int));
        assert(all.take(k + 1).last() == all[k as int]);
        proof {
            lemma_prefix_outcome(p@, all, k + 1);
        }
        let (tlo, thi) = trim_bounds(p, tlo0, thi0);
        if tlo == thi {
            k = k + 1;
            continue;
        }
        if !apply_token(value, base, p, tlo, thi, &mut anim) {
            return None;
        }
        k = k + 1;
    }
    assert(all.take(all.len() as int) =~= all);
    Some(anim)
}

/// Once a prefix of the fold stops being `Done`, the whole fold keeps that outcome.
proof fn lemma_prefix_outcome(text: Seq<char>, all: Seq<(int, int)>, n: int)
    requires
        0 <= n <= all.len(),
    ensures
        parse_tokens(text, all.take(n)) is Invalid ==> parse_tokens(text, all) is Invalid,
        parse_tokens(text, all.take(n)) is Panic ==> parse_tokens(text, all) is Panic,
    decreases all.len() - n,
{
    if n < all.len() {
        lemma_prefix_outcome(text, all, n + 1);
        assert(all.take(n + 1).drop_last() =~= all.take(n));
    } else {
        assert(all.take(n) =~= all);
    }
}

/// The longhand lists collected so far.
struct Lists {
    names: Vec<String>,
    durations: Vec<String>,
    timing_functions: Vec<String>,
    delays: Vec<String>,
    iteration_counts: Vec<String>,
    directions: Vec<String>,
    fill_modes: Vec<String>,
    play_states: Vec<String>,
}

spec fn lists_match(l: Lists, singles: Seq<SingleView>) -> bool {
    &&& l.names@.len() == singles.len()
    &&& forall|j: int| 0 <= j < singles.len() ==> (#[trigger] l.names@[j])@ == or_default(singles[j].name, "none"@)
    &&& l.durations@.len() == singles.len()
    &&& forall|j: int| 0 <= j < singles.len() ==> (#[trigger] l.durations@[j])@ == or_default(singles[j].duration, "0s"@)
    &&& l.timing_functions@.len() == singles.len()
    &&& forall|j: int| 0 <= j < singles.len() ==> (#[trigger] l.timing_functions@[j])@ == or_default(singles[j].timing_function, "ease"@)
    &&& l.delays@.len() == singles.len()
    &&& forall|j: int| 0 <= j < singles.len() ==> (#[trigger] l.delays@[j])@ == or_default(singles[j].delay, "0s"@)
    &&& l.iteration_counts@.len() == singles.len()
    &&& forall|j: int| 0 <= j < singles.len() ==> (#[trigger] l.iteration_counts@[j])@ == or_default(singles[j].iteration_count, "1"@)
    &&& l.directions@.len() == singles.len()
    &&& forall|j: int| 0 <= j < singles.len() ==> (#[trigger] l.directions@[j])@ == or_default(singles[j].direction, "normal"@)
    &&& l.fill_modes@.len() == singles.len()
    &&& forall|j: int| 0 <= j < singles.len() ==> (#[trigger] l.fill_modes@[j])@ == or_default(singles[j].fill_mode, "none"@)
    &&& l.play_states@.len() == singles.len()
    &&& forall|j: int| 0 <= j < singles.len() ==> (#[trigger] l.play_states@[j])@ == or_default(singles[j].play_state, "running"@)
}

fn value_or(v: Option<String>, default: &str) -> (r: String)
    ensures
        r@ == or_default(opt_view(v), default@),
{
    match v {
        Some(x) => x,
        None => default.to_owned(),
    }
}

/// Appends one definition's longhands, with CSS initial values for unset ones.
fn record(l: &mut Lists, single: SingleAnimation, Ghost(singles): Ghost<Seq<SingleView>>)
    requires
        lists_match(*old(l), singles),
    ensures
        lists_match(*final(l), singles.push(single.view())),
{
    let ghost sv = single.view();
    l.names.push(value_or(single.name, "none"));
    l.durations.push(value_or(single.duration, "0s"));
    l.timing_functions.push(value_or(single.timing_function, "ease"));
    l.delays.push(value_or(single.delay, "0s"));
    l.iteration_counts.push(value_or(single.iteration_count, "1"));
    l.directions.push(value_or(single.direction, "normal"));
    l.fill_modes.push(value_or(single.fill_mode, "none"));
    l.play_states.push(value_or(single.play_state, "running"));
    let ghost t = singles.push(sv);
    assert(t[t.len() - 1] == sv);
    assert forall|j: int| 0 <= j < singles.len() implies t[j] == singles[j] by {}
}

/// Expands an `animation` shorthand value into its longhands.
///
/// Returns `None` when any animation in the comma-separated list is malformed,
/// matching the CSS rule that an invalid declaration is dropped as a whole.
pub fn expand_animation_shorthand(value: &str) -> (r: Option<AnimationLonghands>)
    requires
        !(expand_outcome(value@) is Panic),
    ensures
        r is None <==> expand_outcome(value@) is Invalid,
        r matches Some(l) ==> expand_outcome(value@) == Outcome::Done(l@),
{
    let v = chars_of(value);
    let parts = split_top_level(v.as_slice(), ',', false);
    let ghost all = split_ranges(v@, ',', false);
    let mut lists = Lists {
        names: Vec::new(),
        durations: Vec::new(),
        timing_functions: Vec::new(),
        delays: Vec::new(),
        iteration_counts: Vec::new(),
        directions: Vec::new(),
        fill_modes: Vec::new(),
        play_states: Vec::new(),
    };
    let ghost mut singles: Seq<SingleView> = Seq::empty();
    assert(lists_match(lists, singles));
    let mut k: usize = 0;
    while k < parts.len()
        invariant
            v@ == value@,
            parts@.len() == all.len(),
            all == split_ranges(v@, ',', false),
            tiles(v@, ',', 0, all),
            forall|j: int|
                0 <= j < parts@.len() ==> parts@[j].0 as int == all[j].0 && parts@[j].1 as int
                    == all[j].1,
            0 <= k <= parts@.len(),
            parse_definitions(v@, all.take(k as int)) == Outcome::Done(singles),
            !(parse_definitions(v@, all) is Panic),
            lists_match(lists, singles),
        decreases parts.len() - k,
    {
        let (plo0, phi0) = parts[k];
        assert(all.take(k + 1).drop_last() =~= all.take(k as int));
        assert(all.take(k + 1).last() == all[k as int]);
        proof {
            lemma_definitions_prefix(v@, all, k + 1);
        }
        let (plo, phi) = trim_bounds(v.as_slice(), plo0, phi0);
        let p = copy_range(v.as_slice(), plo, phi);
        let single = match parse_single_animation(value, plo, p.as_slice()) {
            Some(s) => s,
            None => return None,
        };
        record(&mut lists, single, Ghost(singles));
        proof {
            singles = singles.push(single.view());
        }
        k = k + 1;
    }
    assert(all.take(all.len() as int) =~= all);
    let sep = ", ";
    assert(texts_of(lists.names@) =~= singles.map_values(|x: SingleView| or_default(x.name, "none"@)));
    assert(texts_of(lists.durations@) =~= singles.map_values(|x: SingleView| or_default(x.duration, "0s"@)));
    assert(texts_of(lists.timing_functions@) =~= singles.map_values(|x: SingleView| or_default(x.timing_function, "ease"@)));
    assert(texts_of(lists.delays@) =~= singles.map_values(|x: SingleView| or_default(x.delay, "0s"@)));
    assert(texts_of(lists.iteration_counts@) =~= singles.map_values(|x: SingleView| or_default(x.iteration_count, "1"@)));
    assert(texts_of(lists.directions@) =~= singles.map_values(|x: SingleView| or_default(x.direction, "normal"@)));
    assert(texts_of(lists.fill_modes@) =~= singles.map_values(|x: SingleView| or_default(x.fill_mode, "none"@)));
    assert(texts_of(lists.play_states@) =~= singles.map_values(|x: SingleView| or_default(x.play_state, "running"@)));
    Some(
        AnimationLonghands {
            name: join_strings(&lists.names, sep),
            duration: join_strings(&lists.durations, sep),
            timing_function: join_strings(&lists.timing_functions, sep),
            delay: join_strings(&lists.delays, sep),
            iteration_count: join_strings(&lists.iteration_counts, sep),
            direction: join_strings(&lists.directions, sep),
            fill_mode: join_strings(&lists.fill_modes, sep),
            play_state: join_strings(&lists.play_states, sep),
        },
    )
}

proof fn lemma_definitions_prefix(value: Seq<char>, all: Seq<(int, int)>, n: int)
    requires
        0 <= n <= all.len(),
    ensures
        parse_definitions(value, all.take(n)) is Invalid ==> parse_definitions(value, all) is Invalid,
        parse_definitions(value, all.take(n)) is Panic ==> parse_definitions(value, all) is Panic,
    decreases all.len() - n,
{
    if n < all.len() {
        lemma_definitions_prefix(value, all, n + 1);
        assert(all.take(n + 1).drop_last() =~= all.take(n));
    } else {
        assert(all.take(n) =~= all);
    }
}


/// Each comma-separated part of `value` yields, in order, one definition.
proof fn lemma_definitions_each(value: Seq<char>, parts: Seq<(int, int)>)
    requires
        parse_definitions(value, parts) is Done,
    ensures
        parse_definitions(value, parts)->Done_0.len() == parts.len(),
        forall|i: int|
            0 <= i < parts.len() ==> parse_single(trim(value.subrange(parts[i].0, parts[i].1)))
                == Outcome::Done(#[trigger] parse_definitions(value, parts)->Done_0[i]),
    decreases parts.len(),
{
    if parts.len() > 0 {
        let prev = parts.drop_last();
        lemma_definitions_each(value, prev);
        assert forall|i: int| 0 <= i < parts.len() implies parse_single(
            trim(value.subrange(parts[i].0, parts[i].1)),
        ) == Outcome::Done(#[trigger] parse_definitions(value, parts)->Done_0[i]) by {
            if i < parts.len() - 1 {
                assert(parts[i] == prev[i]);
            }
        }
    }
}

/// Law: the longhand lists of an expanded `animation` value are index-matched: the
/// value has one definition per comma-separated part, the Nth definition is
/// what the Nth part parses to, and the Nth entry of every longhand list is
/// that definition's own value, or the longhand's initial value where the
/// definition leaves it unset.
pub proof fn lemma_longhands_index_matched(value: Seq<char>)
    requires
        expand_outcome(value) is Done,
    ensures
        ({
            let parts = split_ranges(value, ',', false);
            let defs = parse_definitions(value, parts)->Done_0;
            let n = parts.len() as int;
            let sep = ", "@;
            &&& parse_definitions(value, parts) is Done
            &&& defs.len() == n
            &&& forall|i: int|
                0 <= i < n ==> parse_single(trim(value.subrange(parts[i].0, parts[i].1)))
                    == Outcome::Done(#[trigger] defs[i])
            &&& expand_outcome(value) == Outcome::Done(
                LonghandsView {
                    name: join(Seq::new(n as nat, |i: int| or_default(defs[i].name, "none"@)), sep),
                    duration: join(Seq::new(n as nat, |i: int| or_default(defs[i].duration, "0s"@)), sep),
                    timing_function: join(
                        Seq::new(n as nat, |i: int| or_default(defs[i].timing_function, "ease"@)),
                        sep,
                    ),
                    delay: join(Seq::new(n as nat, |i: int| or_default(defs[i].delay, "0s"@)), sep),
                    iteration_count: join(
                        Seq::new(n as nat, |i: int| or_default(defs[i].iteration_count, "1"@)),
                        sep,
                    ),
                    direction: join(
                        Seq::new(n as nat, |i: int| or_default(defs[i].direction, "normal"@)),
                        sep,
                    ),
                    fill_mode: join(Seq::new(n as nat, |i: int| or_default(defs[i].fill_mode, "none"@)), sep),
                    play_state: join(
                        Seq::new(n as nat, |i: int| or_default(defs[i].play_state, "running"@)),
                        sep,
                    ),
                },
            )
        }),
{
    let parts = split_ranges(value, ',', false);
    let defs = parse_definitions(value, parts)->Done_0;
    let n = parts.len() as int;
    lemma_definitions_each(value, parts);
    assert(Seq::new(n as nat, |i: int| or_default(defs[i].name, "none"@)) =~= defs.map_values(|x: SingleView| or_default(x.name, "none"@)));
    assert(Seq::new(n as nat, |i: int| or_default(defs[i].duration, "0s"@)) =~= defs.map_values(|x: SingleView| or_default(x.duration, "0s"@)));
    assert(Seq::new(n as nat, |i: int| or_default(defs[i].timing_function, "ease"@)) =~= defs.map_values(|x: SingleView| or_default(x.timing_function, "ease"@)));
    assert(Seq::new(n as nat, |i: int| or_default(defs[i].delay, "0s"@)) =~= defs.map_values(|x: SingleView| or_default(x.delay, "0s"@)));
    assert(Seq::new(n as nat, |i: int| or_default(defs[i].iteration_count, "1"@)) =~= defs.map_values(|x: SingleView| or_default(x.iteration_count, "1"@)));
    assert(Seq::new(n as nat, |i: int| or_default(defs[i].direction, "normal"@)) =~= defs.map_values(|x: SingleView| or_default(x.direction, "normal"@)));
    assert(Seq::new(n as nat, |i: int| or_default(defs[i].fill_mode, "none"@)) =~= defs.map_values(|x: SingleView| or_default(x.fill_mode, "none"@)));
    assert(Seq::new(n as nat, |i: int| or_default(defs[i].play_state, "running"@)) =~= defs.map_values(|x: SingleView| or_default(x.play_state, "running"@)));
}

} // verus!
