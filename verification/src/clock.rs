//! SMIL clock values (`4`, `3s`, `1.5s`, `02:30`, `1min`, `500ms`) and the
//! entries of `begin`/`end` lists.
//!
//! Reading a clock value decides its form and checks each of its numbers; the
//! numbers are kept as the texts of finite `f32` literals, and the caller
//! turns them into seconds.

use vstd::prelude::*;
use crate::declarations::{lemma_plain_scan_tiles, plain_scan, split_plain};
use crate::digits::is_digit;
use crate::number::{
    f32_finite, f32_finite_non_negative, find_first, first_index, is_finite_f32,
    is_finite_non_negative_f32,
};
use crate::text::{chars_of, copy_range, range_eq_str, string_of, trim, trim_bounds};

verus! {

broadcast use vstd::string::group_string_axioms;

/// The unit of a timecount value.
#[derive(Clone, Copy, Debug, PartialEq, Eq, Structural)]
pub enum ClockUnit {
    /// `h`.
    Hours,
    /// `min`.
    Minutes,
    /// `s`.
    Seconds,
    /// `ms`.
    Milliseconds,
    /// No unit: seconds.
    Bare,
}

/// A clock value, its numbers kept as texts.
#[derive(Clone, Debug, PartialEq)]
pub enum ClockValue {
    /// A number and its unit.
    Timecount(String, ClockUnit),
    /// `HH:MM:SS` (with hours) or `MM:SS`; each part a non-negative number.
    Colon(Option<String>, String, String),
}

pub enum ClockView {
    Timecount(Seq<char>, ClockUnit),
    Colon(Option<Seq<char>>, Seq<char>, Seq<char>),
}

impl View for ClockValue {
    type V = ClockView;

    open spec fn view(&self) -> ClockView {
        match self {
            ClockValue::Timecount(n, u) => ClockView::Timecount(n@, *u),
            ClockValue::Colon(h, m, s) => ClockView::Colon(
                match h {
                    Some(t) => Some(t@),
                    None => None,
                },
                m@,
                s@,
            ),
        }
    }
}

pub open spec fn clock_view(c: Option<ClockValue>) -> Option<ClockView> {
    match c {
        Some(v) => Some(v@),
        None => None,
    }
}

/// A number of a clock value: trimmed, a finite `f32`.
pub open spec fn number_text(s: Seq<char>) -> Option<Seq<char>> {
    if f32_finite(trim(s)) {
        Some(trim(s))
    } else {
        None
    }
}

/// The pieces of `s` between its colons.
pub open spec fn colon_pieces(s: Seq<char>) -> Seq<Seq<char>> {
    plain_scan(s, ':', 0, 0).map_values(|r: (int, int)| s.subrange(r.0, r.1))
}

/// The `HH:MM:SS` and `MM:SS` forms: two or three parts, each a finite number
/// that is not below zero.
pub open spec fn colon_spec(v: Seq<char>) -> Option<ClockView> {
    let p = colon_pieces(v);
    if p.len() == 2 {
        if f32_finite_non_negative(trim(p[0])) && f32_finite_non_negative(trim(p[1])) {
            Some(ClockView::Colon(None, trim(p[0]), trim(p[1])))
        } else {
            None
        }
    } else if p.len() == 3 {
        if f32_finite_non_negative(trim(p[0])) && f32_finite_non_negative(trim(p[1]))
            && f32_finite_non_negative(trim(p[2])) {
            Some(ClockView::Colon(Some(trim(p[0])), trim(p[1]), trim(p[2])))
        } else {
            None
        }
    } else {
        None
    }
}

pub open spec fn ends_with(s: Seq<char>, suffix: Seq<char>) -> bool {
    s.len() >= suffix.len() && s.subrange(s.len() - suffix.len(), s.len() as int) == suffix
}

pub open spec fn timecount(number: Seq<char>, unit: ClockUnit) -> Option<ClockView> {
    match number_text(number) {
        Some(n) => Some(ClockView::Timecount(n, unit)),
        None => None,
    }
}

/// A clock value: the colon forms, or a number with `ms`, `min`, `h` or `s`
/// (tried in that order) or no unit.
pub open spec fn clock_spec(value: Seq<char>) -> Option<ClockView> {
    let v = trim(value);
    if v.len() == 0 {
        None
    } else if first_index(v, ':', ':') < v.len() {
        colon_spec(v)
    } else if ends_with(v, "ms"@) {
        timecount(v.subrange(0, v.len() - 2), ClockUnit::Milliseconds)
    } else if ends_with(v, "min"@) {
        timecount(v.subrange(0, v.len() - 3), ClockUnit::Minutes)
    } else if ends_with(v, "h"@) {
        timecount(v.subrange(0, v.len() - 1), ClockUnit::Hours)
    } else if ends_with(v, "s"@) {
        timecount(v.subrange(0, v.len() - 1), ClockUnit::Seconds)
    } else {
        timecount(v, ClockUnit::Bare)
    }
}

fn number_part(v: &[char], lo: usize, hi: usize) -> (r: Option<String>)
    requires
        lo <= hi <= v@.len(),
    ensures
        match r {
            Some(s) => number_text(v@.subrange(lo as int, hi as int)) == Some(s@),
            None => number_text(v@.subrange(lo as int, hi as int)) is None,
        },
{
    let (a, b) = trim_bounds(v, lo, hi);
    if is_finite_f32(v, a, b) {
        Some(string_of(v, a, b))
    } else {
        None
    }
}

fn suffix_is(v: &[char], suffix: &str) -> (r: bool)
    ensures
        r == ends_with(v@, suffix@),
{
    let k = chars_of(suffix);
    if k.len() > v.len() {
        return false;
    }
    range_eq_str(v, v.len() - k.len(), v.len(), suffix)
}

fn nonnegative_part(v: &[char], lo: usize, hi: usize) -> (r: Option<String>)
    requires
        lo <= hi <= v@.len(),
    ensures
        match r {
            Some(s) => f32_finite_non_negative(trim(v@.subrange(lo as int, hi as int))) && s@
                == trim(v@.subrange(lo as int, hi as int)),
            None => !f32_finite_non_negative(trim(v@.subrange(lo as int, hi as int))),
        },
{
    let (a, b) = trim_bounds(v, lo, hi);
    if is_finite_non_negative_f32(v, a, b) {
        Some(string_of(v, a, b))
    } else {
        None
    }
}

/// Reads the `HH:MM:SS(.fff)` and `MM:SS(.fff)` clock forms.
pub fn parse_clock_colon(v: &[char]) -> (r: Option<ClockValue>)
    ensures
        clock_view(r) == colon_spec(v@),
{
    let parts = split_plain(v, ':');
    proof {
        lemma_plain_scan_tiles(v@, ':', 0, 0);
    }
    let ghost p = colon_pieces(v@);
    if parts.len() != 2 && parts.len() != 3 {
        return None;
    }
    let (l0, h0) = parts[0];
    let (l1, h1) = parts[1];
    assert(p[0] == v@.subrange(l0 as int, h0 as int));
    assert(p[1] == v@.subrange(l1 as int, h1 as int));
    let first = match nonnegative_part(v, l0, h0) {
        Some(s) => s,
        None => return None,
    };
    let second = match nonnegative_part(v, l1, h1) {
        Some(s) => s,
        None => return None,
    };
    if parts.len() == 2 {
        return Some(ClockValue::Colon(None, first, second));
    }
    let (l2, h2) = parts[2];
    assert(p[2] == v@.subrange(l2 as int, h2 as int));
    match nonnegative_part(v, l2, h2) {
        Some(third) => Some(ClockValue::Colon(Some(first), second, third)),
        None => None,
    }
}

/// Reads a SMIL clock value.
pub fn parse_clock_value(value: &[char]) -> (r: Option<ClockValue>)
    ensures
        clock_view(r) == clock_spec(value@),
{
    let (a, b) = trim_bounds(value, 0, value.len());
    assert(value@.subrange(0, value@.len() as int) =~= value@);
    let v = copy_range(value, a, b);
    let s = v.as_slice();
    let n = v.len();
    if n == 0 {
        return None;
    }
    assert(v@.subrange(0, n as int) =~= v@);
    if find_first(s, 0, n, ':', ':') < n {
        return parse_clock_colon(s);
    }
    proof {
        reveal_strlit("ms");
        reveal_strlit("min");
        reveal_strlit("h");
        reveal_strlit("s");
    }
    let (number, unit) = if suffix_is(s, "ms") {
        (n - 2, ClockUnit::Milliseconds)
    } else if suffix_is(s, "min") {
        (n - 3, ClockUnit::Minutes)
    } else if suffix_is(s, "h") {
        (n - 1, ClockUnit::Hours)
    } else if suffix_is(s, "s") {
        (n - 1, ClockUnit::Seconds)
    } else {
        (n, ClockUnit::Bare)
    };
    match number_part(s, 0, number) {
        Some(t) => Some(ClockValue::Timecount(t, unit)),
        None => None,
    }
}

/// A clock value with its sign.
#[derive(Clone, Debug, PartialEq)]
pub struct SignedClock {
    pub negative: bool,
    pub clock: ClockValue,
}

pub struct SignedClockView {
    pub negative: bool,
    pub clock: ClockView,
}

impl View for SignedClock {
    type V = SignedClockView;

    open spec fn view(&self) -> SignedClockView {
        SignedClockView { negative: self.negative, clock: self.clock@ }
    }
}

/// An optionally signed clock value.
pub open spec fn offset_spec(value: Seq<char>) -> Option<SignedClockView> {
    let v = trim(value);
    let negative = v.len() > 0 && v[0] == '-';
    let rest = if v.len() > 0 && (v[0] == '+' || v[0] == '-') {
        v.subrange(1, v.len() as int)
    } else {
        v
    };
    match clock_spec(rest) {
        Some(c) => Some(SignedClockView { negative, clock: c }),
        None => None,
    }
}

pub open spec fn signed_view(c: Option<SignedClock>) -> Option<SignedClockView> {
    match c {
        Some(v) => Some(v@),
        None => None,
    }
}

/// Reads an optionally signed clock value.
pub fn parse_offset(value: &[char]) -> (r: Option<SignedClock>)
    ensures
        signed_view(r) == offset_spec(value@),
{
    let (a, b) = trim_bounds(value, 0, value.len());
    assert(value@.subrange(0, value@.len() as int) =~= value@);
    let v = copy_range(value, a, b);
    let negative = v.len() > 0 && v[0] == '-';
    let start: usize = if v.len() > 0 && (v[0] == '+' || v[0] == '-') {
        1
    } else {
        0
    };
    let rest = copy_range(v.as_slice(), start, v.len());
    assert(start == 0 ==> v@.subrange(0, v@.len() as int) =~= v@);
    match parse_clock_value(rest.as_slice()) {
        Some(c) => Some(SignedClock { negative, clock: c }),
        None => None,
    }
}

/// One summand of a time: a literal zero, a clock value, or the active
/// duration of the animation at an index.
#[derive(Clone, Debug, PartialEq)]
pub enum TimeTerm {
    Zero,
    Clock(SignedClock),
    ActiveDuration(usize),
}

pub enum TermView {
    Zero,
    Clock(SignedClockView),
    ActiveDuration(int),
}

impl View for TimeTerm {
    type V = TermView;

    open spec fn view(&self) -> TermView {
        match self {
            TimeTerm::Zero => TermView::Zero,
            TimeTerm::Clock(c) => TermView::Clock(c@),
            TimeTerm::ActiveDuration(i) => TermView::ActiveDuration(*i as int),
        }
    }
}

pub open spec fn term_views(t: Seq<TimeTerm>) -> Seq<TermView> {
    t.map_values(|x: TimeTerm| x@)
}

/// Which edge of another animation a syncbase value refers to.
#[derive(Clone, Copy, Debug, PartialEq, Eq, Structural)]
pub enum SyncEdge {
    Begin,
    End,
}

/// A `begin`/`end` entry before syncbase values are resolved.
#[derive(Clone, Debug, PartialEq)]
pub enum RawBegin {
    /// An offset from the start of the document time line.
    Offset(TimeTerm),
    /// `indefinite`.
    Indefinite,
    /// `id.begin` or `id.end`, plus an offset.
    SyncBase { id: String, edge: SyncEdge, offset: TimeTerm },
}

pub enum RawView {
    Offset(TermView),
    Indefinite,
    SyncBase { id: Seq<char>, edge: SyncEdge, offset: TermView },
}

impl View for RawBegin {
    type V = RawView;

    open spec fn view(&self) -> RawView {
        match self {
            RawBegin::Offset(t) => RawView::Offset(t@),
            RawBegin::Indefinite => RawView::Indefinite,
            RawBegin::SyncBase { id, edge, offset } => RawView::SyncBase {
                id: id@,
                edge: *edge,
                offset: offset@,
            },
        }
    }
}

pub open spec fn raw_view(r: Option<RawBegin>) -> Option<RawView> {
    match r {
        Some(v) => Some(v@),
        None => None,
    }
}

/// The offset after a syncbase marker: none (zero), or a signed clock value.
pub open spec fn sync_offset_spec(rest: Seq<char>) -> Option<TermView> {
    let r = trim(rest);
    if r.len() == 0 {
        Some(TermView::Zero)
    } else if r[0] != '+' && r[0] != '-' {
        None
    } else {
        match offset_spec(r) {
            Some(o) => Some(TermView::Clock(o)),
            None => None,
        }
    }
}

/// Whether `marker` occurs at `i` after a non-empty id and before a valid offset.
pub open spec fn sync_at(e: Seq<char>, i: int, marker: Seq<char>) -> bool {
    &&& 0 < i
    &&& i + marker.len() <= e.len()
    &&& e.subrange(i, i + marker.len()) == marker
    &&& sync_offset_spec(e.subrange(i + marker.len(), e.len() as int)) is Some
}

/// The first position at or after `i` where `sync_at` holds.
pub open spec fn find_sync(e: Seq<char>, marker: Seq<char>, i: int) -> Option<int>
    decreases e.len() - i,
{
    if i < 0 || i >= e.len() {
        None
    } else if sync_at(e, i, marker) {
        Some(i)
    } else {
        find_sync(e, marker, i + 1)
    }
}

pub open spec fn sync_entry(e: Seq<char>, i: int, edge: SyncEdge, marker: Seq<char>) -> RawView {
    RawView::SyncBase {
        id: e.subrange(0, i),
        edge,
        offset: sync_offset_spec(e.subrange(i + marker.len(), e.len() as int))->0,
    }
}

/// A syncbase value `id.begin` or `id.end` with an optional offset; `.begin`
/// is looked for first.
pub open spec fn syncbase_spec(e: Seq<char>) -> Option<RawView> {
    match find_sync(e, ".begin"@, 0) {
        Some(i) => Some(sync_entry(e, i, SyncEdge::Begin, ".begin"@)),
        None => match find_sync(e, ".end"@, 0) {
            Some(i) => Some(sync_entry(e, i, SyncEdge::End, ".end"@)),
            None => None,
        },
    }
}

/// One `begin`/`end` entry: `indefinite`, an offset (starting with a sign, a
/// point or a digit), or a syncbase value.
pub open spec fn begin_entry_spec(entry: Seq<char>) -> Option<RawView> {
    let e = trim(entry);
    if e.len() == 0 {
        None
    } else if e == "indefinite"@ {
        Some(RawView::Indefinite)
    } else if e[0] == '+' || e[0] == '-' || e[0] == '.' || is_digit(e[0]) {
        match offset_spec(e) {
            Some(o) => Some(RawView::Offset(TermView::Clock(o))),
            None => None,
        }
    } else {
        syncbase_spec(e)
    }
}

/// Reads the offset after a syncbase marker.
pub fn parse_sync_offset(rest: &[char]) -> (r: Option<TimeTerm>)
    ensures
        match r {
            Some(t) => sync_offset_spec(rest@) == Some(t@),
            None => sync_offset_spec(rest@) is None,
        },
{
    let (a, b) = trim_bounds(rest, 0, rest.len());
    assert(rest@.subrange(0, rest@.len() as int) =~= rest@);
    if a == b {
        return Some(TimeTerm::Zero);
    }
    if rest[a] != '+' && rest[a] != '-' {
        return None;
    }
    let r = copy_range(rest, a, b);
    match parse_offset(r.as_slice()) {
        Some(o) => Some(TimeTerm::Clock(o)),
        None => None,
    }
}

fn find_syncbase(e: &[char], marker: &str) -> (r: Option<(usize, TimeTerm)>)
    ensures
        match r {
            Some((i, t)) => 0 < i < e@.len() && find_sync(e@, marker@, 0) == Some(i as int) && sync_offset_spec(
                e@.subrange(i + marker@.len(), e@.len() as int),
            ) == Some(t@),
            None => find_sync(e@, marker@, 0) is None,
        },
{
    let m = chars_of(marker);
    let mut i: usize = 0;
    while i < e.len()
        invariant
            0 <= i <= e@.len(),
            m@ == marker@,
            find_sync(e@, marker@, 0) == find_sync(e@, marker@, i as int),
        decreases e.len() - i,
    {
        if i > 0 && m.len() <= e.len() - i && range_eq_str(e, i, i + m.len(), marker) {
            let rest = copy_range(e, i + m.len(), e.len());
            if let Some(t) = parse_sync_offset(rest.as_slice()) {
                return Some((i, t));
            }
        }
        i = i + 1;
    }
    None
}

/// Reads a syncbase value.
pub fn parse_syncbase(e: &[char]) -> (r: Option<RawBegin>)
    ensures
        raw_view(r) == syncbase_spec(e@),
{
    if let Some((i, t)) = find_syncbase(e, ".begin") {
        proof {
            reveal_strlit(".begin");
        }
        return Some(RawBegin::SyncBase { id: string_of(e, 0, i), edge: SyncEdge::Begin, offset: t });
    }
    match find_syncbase(e, ".end") {
        Some((i, t)) => {
            proof {
                reveal_strlit(".end");
            }
            Some(RawBegin::SyncBase { id: string_of(e, 0, i), edge: SyncEdge::End, offset: t })
        },
        None => None,
    }
}

/// Reads one `begin`/`end` entry.
pub fn parse_begin_entry(entry: &str) -> (r: Option<RawBegin>)
    ensures
        raw_view(r) == begin_entry_spec(entry@),
{
    let all = chars_of(entry);
    let (a, b) = trim_bounds(all.as_slice(), 0, all.len());
    assert(all@.subrange(0, all@.len() as int) =~= all@);
    let e = copy_range(all.as_slice(), a, b);
    let s = e.as_slice();
    if e.len() == 0 {
        return None;
    }
    assert(e@.subrange(0, e@.len() as int) =~= e@);
    if range_eq_str(s, 0, e.len(), "indefinite") {
        return Some(RawBegin::Indefinite);
    }
    let c = e[0];
    if c == '+' || c == '-' || c == '.' || ('0' <= c && c <= '9') {
        return match parse_offset(s) {
            Some(o) => Some(RawBegin::Offset(TimeTerm::Clock(o))),
            None => None,
        };
    }
    parse_syncbase(s)
}


/// The suffix that writes each timecount unit; none for a bare number.
pub open spec fn clock_unit_suffix(u: ClockUnit) -> Seq<char> {
    match u {
        ClockUnit::Hours => "h"@,
        ClockUnit::Minutes => "min"@,
        ClockUnit::Seconds => "s"@,
        ClockUnit::Milliseconds => "ms"@,
        ClockUnit::Bare => Seq::empty(),
    }
}

/// Law: a timecount clock value has the unit that its suffix writes (`ms`
/// milliseconds, `min` minutes, `h` hours, `s` seconds, none for a bare
/// number), and its number is the text before that suffix.
pub proof fn lemma_clock_units(value: Seq<char>)
    ensures
        clock_spec(value) matches Some(ClockView::Timecount(n, u)) ==> {
            let v = trim(value);
            let k = clock_unit_suffix(u);
            &&& ends_with(v, k)
            &&& number_text(v.subrange(0, v.len() - k.len())) == Some(n)
            &&& u == ClockUnit::Seconds ==> !ends_with(v, "ms"@)
            &&& u == ClockUnit::Bare ==> !ends_with(v, "ms"@) && !ends_with(v, "min"@)
                && !ends_with(v, "h"@) && !ends_with(v, "s"@)
        },
{
    reveal_strlit("h");
    reveal_strlit("min");
    reveal_strlit("s");
    reveal_strlit("ms");
    assert("h"@.len() == 1);
    assert("min"@.len() == 3);
    assert("s"@.len() == 1);
    assert("ms"@.len() == 2);
    let v = trim(value);
    assert(v.subrange(v.len() as int, v.len() as int) =~= Seq::<char>::empty());
    assert(v.subrange(0, v.len() as int) =~= v);
}


/// The marker that writes each syncbase edge.
pub open spec fn edge_marker(edge: SyncEdge) -> Seq<char> {
    match edge {
        SyncEdge::Begin => ".begin"@,
        SyncEdge::End => ".end"@,
    }
}

/// The position `find_sync` gives holds the marker.
pub proof fn lemma_find_sync_at(e: Seq<char>, marker: Seq<char>, j: int)
    ensures
        find_sync(e, marker, j) matches Some(i) ==> sync_at(e, i, marker),
    decreases e.len() - j,
{
    if !(j < 0 || j >= e.len()) && !sync_at(e, j, marker) {
        lemma_find_sync_at(e, marker, j + 1);
    }
}

/// Law: a syncbase value refers to the edge that its marker names: the id is
/// followed by `.begin` for the begin edge and by `.end` for the end edge.
pub proof fn lemma_syncbase_edge_marker(e: Seq<char>)
    ensures
        syncbase_spec(e) matches Some(RawView::SyncBase { id, edge, offset }) ==> {
            let m = edge_marker(edge);
            &&& id == e.subrange(0, id.len() as int)
            &&& id.len() + m.len() <= e.len()
            &&& e.subrange(id.len() as int, (id.len() + m.len()) as int) == m
        },
{
    lemma_find_sync_at(e, ".begin"@, 0);
    lemma_find_sync_at(e, ".end"@, 0);
}

} // verus!
