//! The body of a `@keyframes` rule: keyframe selectors and their declarations.

use vstd::prelude::*;
use crate::number::{f32_finite, is_finite_f32};
use crate::scanner::{
    block_scan, comment_at, comment_end, find_block_end, is_comment_at, lemma_block_scan_bounds,
    lemma_comment_end_bounds, lemma_skip_ws_comments_bounds, lemma_string_end_bounds,
    is_quote, skip_comment, skip_string, skip_ws_comments, skip_ws_comments_end, split_ranges,
    split_top_level, string_end, tiles,
};
use crate::text::{eq_ci, range_eq_ci_str, string_of, trim, trim_bounds};

verus! {

broadcast use vstd::string::group_string_axioms;

/// A keyframe selector: `from`, `to`, or a percentage.
///
/// A percentage keeps the text of its number, which is a finite `f32`
/// literal; the keyframe sits at that number divided by 100.
#[derive(Clone, Debug, PartialEq)]
pub enum KeyframeOffset {
    /// `from` (offset 0).
    From,
    /// `to` (offset 1).
    To,
    /// `N%`, holding the text of `N`.
    Percent(String),
}

pub enum OffsetView {
    From,
    To,
    Percent(Seq<char>),
}

impl View for KeyframeOffset {
    type V = OffsetView;

    open spec fn view(&self) -> OffsetView {
        match self {
            KeyframeOffset::From => OffsetView::From,
            KeyframeOffset::To => OffsetView::To,
            KeyframeOffset::Percent(s) => OffsetView::Percent(s@),
        }
    }
}

/// A single keyframe inside a `@keyframes` rule.
#[derive(Clone, Debug, PartialEq)]
pub struct CssKeyframe {
    /// Selector offsets in source order.
    pub offsets: Vec<KeyframeOffset>,
    /// Property/value declarations, excluding `animation-timing-function`.
    pub declarations: Vec<(String, String)>,
    /// The per-keyframe `animation-timing-function`, if present.
    pub timing_function: Option<String>,
}

pub struct KeyframeView {
    pub offsets: Seq<OffsetView>,
    pub declarations: Seq<(Seq<char>, Seq<char>)>,
    pub timing_function: Option<Seq<char>>,
}

pub open spec fn decl_views(d: Seq<(String, String)>) -> Seq<(Seq<char>, Seq<char>)> {
    d.map_values(|p: (String, String)| (p.0@, p.1@))
}

/// The text of an optional string.
pub open spec fn opt_view(o: Option<String>) -> Option<Seq<char>> {
    match o {
        Some(s) => Some(s@),
        None => None,
    }
}

impl View for CssKeyframe {
    type V = KeyframeView;

    open spec fn view(&self) -> KeyframeView {
        KeyframeView {
            offsets: self.offsets@.map_values(|o: KeyframeOffset| o@),
            declarations: decl_views(self.declarations@),
            timing_function: opt_view(self.timing_function),
        }
    }
}

// ---------------------------------------------------------------------------
// Comments

/// `s[i..]` with every `/* ... */` comment removed.
pub open spec fn strip_from(s: Seq<char>, i: int, copy_from: int) -> Seq<char>
    decreases s.len() - i,
{
    if i < 0 || i >= s.len() {
        s.subrange(copy_from, s.len() as int)
    } else if comment_at(s, i) {
        proof {
            lemma_comment_end_bounds(s, i + 2);
        }
        s.subrange(copy_from, i) + strip_from(s, comment_end(s, i + 2), comment_end(s, i + 2))
    } else {
        strip_from(s, i + 1, copy_from)
    }
}

/// `s` with every `/* ... */` comment removed (an unterminated one runs to the end).
pub open spec fn strip_comments_spec(s: Seq<char>) -> Seq<char> {
    strip_from(s, 0, 0)
}

/// Removes every comment from `s[lo..hi]`.
pub fn strip_comments(s: &[char], lo: usize, hi: usize) -> (r: Vec<char>)
    requires
        lo <= hi <= s@.len(),
    ensures
        r@ == strip_comments_spec(s@.subrange(lo as int, hi as int)),
{
    let t = crate::text::copy_range(s, lo, hi);
    let len = t.len();
    let mut out: Vec<char> = Vec::new();
    let mut copy_from: usize = 0;
    let mut i: usize = 0;
    while i < len
        invariant
            len == t@.len(),
            0 <= copy_from <= i <= len,
            strip_comments_spec(t@) == out@ + strip_from(t@, i as int, copy_from as int),
        decreases len - i,
    {
        if is_comment_at(t.as_slice(), i) {
            let mut j = copy_from;
            let ghost before = out@;
            while j < i
                invariant
                    copy_from <= j <= i < len,
                    len == t@.len(),
                    out@ == before + t@.subrange(copy_from as int, j as int),
                decreases i - j,
            {
                out.push(t[j]);
                assert(out@ =~= before + t@.subrange(copy_from as int, j + 1));
                j = j + 1;
            }
            let e = skip_comment(t.as_slice(), i);
            assert(before + (t@.subrange(copy_from as int, i as int) + strip_from(
                t@,
                e as int,
                e as int,
            )) =~= out@ + strip_from(t@, e as int, e as int));
            i = e;
            copy_from = e;
        } else {
            i = i + 1;
        }
    }
    let ghost before = out@;
    let mut j = copy_from;
    while j < len
        invariant
            copy_from <= j <= len,
            len == t@.len(),
            out@ == before + t@.subrange(copy_from as int, j as int),
        decreases len - j,
    {
        out.push(t[j]);
        assert(out@ =~= before + t@.subrange(copy_from as int, j + 1));
        j = j + 1;
    }
    out
}

// ---------------------------------------------------------------------------
// Declarations

/// The index of the first top-level `:` in `s` at or after `i`.
pub open spec fn colon_scan(s: Seq<char>, i: int, depth: nat) -> Option<int>
    decreases s.len() - i,
{
    if i < 0 || i >= s.len() {
        None
    } else if comment_at(s, i) {
        proof {
            lemma_comment_end_bounds(s, i + 2);
        }
        colon_scan(s, comment_end(s, i + 2), depth)
    } else if is_quote(s[i]) {
        proof {
            lemma_string_end_bounds(s, i + 1, s[i]);
        }
        colon_scan(s, string_end(s, i + 1, s[i]), depth)
    } else if s[i] == '(' {
        colon_scan(s, i + 1, depth + 1)
    } else if s[i] == ')' {
        colon_scan(
            s,
            i + 1,
            if depth == 0 {
                0
            } else {
                (depth - 1) as nat
            },
        )
    } else if s[i] == ':' && depth == 0 {
        Some(i)
    } else {
        colon_scan(s, i + 1, depth)
    }
}

pub proof fn lemma_colon_scan_bounds(s: Seq<char>, i: int, depth: nat)
    requires
        0 <= i,
    ensures
        colon_scan(s, i, depth) matches Some(c) ==> i <= c < s.len(),
    decreases s.len() - i,
{
    if i < 0 || i >= s.len() {
    } else if comment_at(s, i) {
        lemma_comment_end_bounds(s, i + 2);
        lemma_colon_scan_bounds(s, comment_end(s, i + 2), depth);
    } else if is_quote(s[i]) {
        lemma_string_end_bounds(s, i + 1, s[i]);
        lemma_colon_scan_bounds(s, string_end(s, i + 1, s[i]), depth);
    } else if s[i] == '(' {
        lemma_colon_scan_bounds(s, i + 1, depth + 1);
    } else if s[i] == ')' {
        lemma_colon_scan_bounds(
            s,
            i + 1,
            if depth == 0 {
                0
            } else {
                (depth - 1) as nat
            },
        );
    } else if !(s[i] == ':' && depth == 0) {
        lemma_colon_scan_bounds(s, i + 1, depth);
    }
}

/// Splits a declaration at its first top-level `:`, returning the colon's index.
pub fn split_property(s: &[char]) -> (r: Option<usize>)
    ensures
        r matches Some(c) ==> colon_scan(s@, 0, 0) == Some(c as int) && c < s@.len(),
        r is None ==> colon_scan(s@, 0, 0) is None,
{
    proof {
        lemma_colon_scan_bounds(s@, 0, 0);
    }
    let len = s.len();
    let mut i: usize = 0;
    let mut depth: usize = 0;
    while i < len
        invariant
            len == s@.len(),
            i <= len,
            depth <= i,
            colon_scan(s@, i as int, depth as nat) == colon_scan(s@, 0, 0),
        decreases len - i,
    {
        if is_comment_at(s, i) {
            i = skip_comment(s, i);
        } else if s[i] == '"' || s[i] == '\'' {
            i = skip_string(s, i, s[i]);
        } else if s[i] == '(' {
            depth = depth + 1;
            i = i + 1;
        } else if s[i] == ')' {
            if depth > 0 {
                depth = depth - 1;
            }
            i = i + 1;
        } else if s[i] == ':' && depth == 0 {
            return Some(i);
        } else {
            i = i + 1;
        }
    }
    None
}

/// What one `;`-separated piece of a declaration block contributes: nothing,
/// a declaration, or the keyframe's timing function.
pub enum DeclarationItem {
    Skip,
    Declaration(Seq<char>, Seq<char>),
    TimingFunction(Seq<char>),
}

pub open spec fn declaration_item(piece: Seq<char>) -> DeclarationItem {
    match colon_scan(piece, 0, 0) {
        None => DeclarationItem::Skip,
        Some(c) => {
            let property = trim(strip_comments_spec(piece.subrange(0, c)));
            let value = trim(strip_comments_spec(piece.subrange(c + 1, piece.len() as int)));
            if property.len() == 0 || value.len() == 0 {
                DeclarationItem::Skip
            } else if eq_ci(property, "animation-timing-function"@) {
                DeclarationItem::TimingFunction(value)
            } else {
                DeclarationItem::Declaration(property, value)
            }
        },
    }
}

/// The declarations and timing function of the pieces `ranges` of `text`, in order;
/// the last timing function wins.
pub open spec fn declarations_of(text: Seq<char>, ranges: Seq<(int, int)>) -> (
    Seq<(Seq<char>, Seq<char>)>,
    Option<Seq<char>>,
)
    decreases ranges.len(),
{
    if ranges.len() == 0 {
        (Seq::empty(), None)
    } else {
        let prev = declarations_of(text, ranges.drop_last());
        match declaration_item(text.subrange(ranges.last().0, ranges.last().1)) {
            DeclarationItem::Skip => prev,
            DeclarationItem::Declaration(p, v) => (prev.0.push((p, v)), prev.1),
            DeclarationItem::TimingFunction(v) => (prev.0, Some(v)),
        }
    }
}

/// The declarations of a keyframe block body.
pub open spec fn parse_declarations_spec(text: Seq<char>) -> (
    Seq<(Seq<char>, Seq<char>)>,
    Option<Seq<char>>,
) {
    declarations_of(text, split_ranges(text, ';', true))
}

/// Reads the declarations of a keyframe block, splitting out
/// `animation-timing-function`.
pub fn parse_declarations(text: &[char]) -> (r: (Vec<(String, String)>, Option<String>))
    ensures
        decl_views(r.0@) == parse_declarations_spec(text@).0,
        opt_view(r.1) == parse_declarations_spec(text@).1,
{
    let pieces = split_top_level(text, ';', true);
    let ghost all = split_ranges(text@, ';', true);
    let mut declarations: Vec<(String, String)> = Vec::new();
    let mut timing_function: Option<String> = None;
    let mut k: usize = 0;
    while k < pieces.len()
        invariant
            pieces@.len() == all.len(),
            all == split_ranges(text@, ';', true),
            tiles(text@, ';', 0, all),
            forall|j: int|
                0 <= j < pieces@.len() ==> pieces@[j].0 as int == all[j].0 && pieces@[j].1 as int
                    == all[j].1,
            0 <= k <= pieces@.len(),
            decl_views(declarations@) == declarations_of(text@, all.take(k as int)).0,
            opt_view(timing_function) == declarations_of(text@, all.take(k as int)).1,
        decreases pieces.len() - k,
    {
        let (plo, phi) = pieces[k];
        assert(all.take(k + 1).drop_last() =~= all.take(k as int));
        assert(all.take(k + 1).last() == all[k as int]);
        let piece = crate::text::copy_range(text, plo, phi);
        let ghost item = declaration_item(piece@);
        match split_property(piece.as_slice()) {
            None => {},
            Some(c) => {
                let p = strip_comments(piece.as_slice(), 0, c);
                let v = strip_comments(piece.as_slice(), c + 1, piece.len());
                let (pa, pb) = trim_bounds(p.as_slice(), 0, p.len());
                let (va, vb) = trim_bounds(v.as_slice(), 0, v.len());
                assert(p@.subrange(0, p@.len() as int) =~= p@);
                assert(v@.subrange(0, v@.len() as int) =~= v@);
                if pa == pb || va == vb {
                } else if range_eq_ci_str(p.as_slice(), pa, pb, "animation-timing-function") {
                    timing_function = Some(string_of(v.as_slice(), va, vb));
                } else {
                    let ghost before = declarations@;
                    declarations.push((string_of(p.as_slice(), pa, pb), string_of(v.as_slice(), va, vb)));
                    assert(decl_views(declarations@) =~= decl_views(before).push(
                        (p@.subrange(pa as int, pb as int), v@.subrange(va as int, vb as int)),
                    ));
                }
            },
        }
        k = k + 1;
    }
    assert(all.take(all.len() as int) =~= all);
    (declarations, timing_function)
}

// ---------------------------------------------------------------------------
// Selectors

/// The pieces of `s[start..]` between every `d` (`str::split`).
pub open spec fn plain_scan(s: Seq<char>, d: char, i: int, start: int) -> Seq<(int, int)>
    decreases s.len() - i,
{
    if i < 0 || i >= s.len() {
        seq![(start, s.len() as int)]
    } else if s[i] == d {
        seq![(start, i)] + plain_scan(s, d, i + 1, i + 1)
    } else {
        plain_scan(s, d, i + 1, start)
    }
}

/// The offset that one comma-separated selector part names, if any.
pub open spec fn selector_offset(part: Seq<char>) -> Option<OffsetView> {
    let token = trim(strip_comments_spec(part));
    if eq_ci(token, "from"@) {
        Some(OffsetView::From)
    } else if eq_ci(token, "to"@) {
        Some(OffsetView::To)
    } else if token.len() > 0 && token.last() == '%' {
        let number = trim(token.subrange(0, token.len() - 1));
        if f32_finite(number) {
            Some(OffsetView::Percent(number))
        } else {
            None
        }
    } else {
        None
    }
}

/// The offsets that the selector parts `ranges` of `s` name, in order.
pub open spec fn offsets_of(s: Seq<char>, ranges: Seq<(int, int)>) -> Seq<OffsetView>
    decreases ranges.len(),
{
    if ranges.len() == 0 {
        Seq::empty()
    } else {
        let prev = offsets_of(s, ranges.drop_last());
        match selector_offset(s.subrange(ranges.last().0, ranges.last().1)) {
            Some(o) => prev.push(o),
            None => prev,
        }
    }
}

/// The offsets of a keyframe selector list such as `0%, 50%` or `from`.
pub open spec fn parse_selectors_spec(s: Seq<char>) -> Seq<OffsetView> {
    offsets_of(s, plain_scan(s, ',', 0, 0))
}

pub proof fn lemma_plain_scan_tiles(s: Seq<char>, d: char, i: int, start: int)
    requires
        0 <= start <= i <= s.len(),
    ensures
        plain_scan(s, d, i, start).len() >= 1,
        forall|k: int|
            #![trigger plain_scan(s, d, i, start)[k]]
            0 <= k < plain_scan(s, d, i, start).len() ==> start <= plain_scan(s, d, i, start)[k].0
                && plain_scan(s, d, i, start)[k].0 <= plain_scan(s, d, i, start)[k].1
                && plain_scan(s, d, i, start)[k].1 <= s.len(),
    decreases s.len() - i,
{
    if i < s.len() {
        if s[i] == d {
            lemma_plain_scan_tiles(s, d, i + 1, i + 1);
            let rest = plain_scan(s, d, i + 1, i + 1);
            let r = seq![(start, i)] + rest;
            assert forall|k: int| #![trigger r[k]] 0 <= k < r.len() implies start <= r[k].0 && r[k].0
                <= r[k].1 && r[k].1 <= s.len() by {
                if k > 0 {
                    assert(r[k] == rest[k - 1]);
                }
            }
        } else {
            lemma_plain_scan_tiles(s, d, i + 1, start);
        }
    }
}

/// Splits `s` at every `d`.
pub fn split_plain(s: &[char], d: char) -> (r: Vec<(usize, usize)>)
    ensures
        r@.len() == plain_scan(s@, d, 0, 0).len(),
        forall|k: int|
            0 <= k < r@.len() ==> r@[k].0 as int == plain_scan(s@, d, 0, 0)[k].0 && r@[k].1 as int
                == plain_scan(s@, d, 0, 0)[k].1,
        forall|k: int|
            #![trigger plain_scan(s@, d, 0, 0)[k]]
            0 <= k < plain_scan(s@, d, 0, 0).len() ==> 0 <= plain_scan(s@, d, 0, 0)[k].0
                && plain_scan(s@, d, 0, 0)[k].0 <= plain_scan(s@, d, 0, 0)[k].1 && plain_scan(
                s@,
                d,
                0,
                0,
            )[k].1 <= s@.len(),
{
    proof {
        lemma_plain_scan_tiles(s@, d, 0, 0);
    }
    let len = s.len();
    let mut pieces: Vec<(usize, usize)> = Vec::new();
    let ghost done: Seq<(int, int)> = Seq::empty();
    let mut start: usize = 0;
    let mut i: usize = 0;
    while i < len
        invariant
            len == s@.len(),
            0 <= start <= i <= len,
            plain_scan(s@, d, 0, 0) == done + plain_scan(s@, d, i as int, start as int),
            pieces@.len() == done.len(),
            forall|k: int|
                0 <= k < pieces@.len() ==> pieces@[k].0 as int == done[k].0 && pieces@[k].1 as int
                    == done[k].1,
        decreases len - i,
    {
        if s[i] == d {
            proof {
                done = done.push((start as int, i as int));
            }
            pieces.push((start, i));
            assert(done + plain_scan(s@, d, i + 1, i + 1) =~= done.drop_last() + (seq![
                (start as int, i as int),
            ] + plain_scan(s@, d, i + 1, i + 1)));
            start = i + 1;
        }
        i = i + 1;
    }
    proof {
        done = done.push((start as int, len as int));
    }
    pieces.push((start, len));
    assert(plain_scan(s@, d, 0, 0) =~= done);
    pieces
}

/// Reads one selector part.
pub fn parse_selector_part(part: &[char]) -> (r: Option<KeyframeOffset>)
    ensures
        match r {
            Some(o) => selector_offset(part@) == Some(o@),
            None => selector_offset(part@) is None,
        },
{
    let cleaned = strip_comments(part, 0, part.len());
    assert(part@.subrange(0, part@.len() as int) =~= part@);
    let (a, b) = trim_bounds(cleaned.as_slice(), 0, cleaned.len());
    assert(cleaned@.subrange(0, cleaned@.len() as int) =~= cleaned@);
    let ghost token = cleaned@.subrange(a as int, b as int);
    if range_eq_ci_str(cleaned.as_slice(), a, b, "from") {
        Some(KeyframeOffset::From)
    } else if range_eq_ci_str(cleaned.as_slice(), a, b, "to") {
        Some(KeyframeOffset::To)
    } else if b > a && cleaned[b - 1] == '%' {
        let (na, nb) = trim_bounds(cleaned.as_slice(), a, b - 1);
        assert(cleaned@.subrange(a as int, b - 1) =~= token.subrange(0, token.len() - 1));
        if is_finite_f32(cleaned.as_slice(), na, nb) {
            Some(KeyframeOffset::Percent(string_of(cleaned.as_slice(), na, nb)))
        } else {
            None
        }
    } else {
        None
    }
}

/// Reads the offsets of a keyframe selector list.
pub fn parse_selectors(selector: &[char]) -> (r: Vec<KeyframeOffset>)
    ensures
        r@.map_values(|o: KeyframeOffset| o@) == parse_selectors_spec(selector@),
{
    let parts = split_plain(selector, ',');
    let ghost all = plain_scan(selector@, ',', 0, 0);
    let mut offsets: Vec<KeyframeOffset> = Vec::new();
    let mut k: usize = 0;
    while k < parts.len()
        invariant
            parts@.len() == all.len(),
            all == plain_scan(selector@, ',', 0, 0),
            forall|j: int|
                0 <= j < parts@.len() ==> parts@[j].0 as int == all[j].0 && parts@[j].1 as int
                    == all[j].1,
            forall|j: int|
                #![trigger all[j]]
                0 <= j < all.len() ==> 0 <= all[j].0 && all[j].0 <= all[j].1 && all[j].1
                    <= selector@.len(),
            0 <= k <= parts@.len(),
            offsets@.map_values(|o: KeyframeOffset| o@) == offsets_of(selector@, all.take(k as int)),
        decreases parts.len() - k,
    {
        let (lo, hi) = parts[k];
        assert(all.take(k + 1).drop_last() =~= all.take(k as int));
        assert(all.take(k + 1).last() == all[k as int]);
        let part = crate::text::copy_range(selector, lo, hi);
        match parse_selector_part(part.as_slice()) {
            Some(o) => {
                let ghost before = offsets@;
                offsets.push(o);
                assert(offsets@.map_values(|o: KeyframeOffset| o@) =~= before.map_values(
                    |o: KeyframeOffset| o@,
                ).push(o@));
            },
            None => {},
        }
        k = k + 1;
    }
    assert(all.take(all.len() as int) =~= all);
    offsets
}

// ---------------------------------------------------------------------------
// Block bodies

/// The index of the `{` that ends a keyframe selector starting at `i`, skipping
/// comments; `s.len()` when there is none.
pub open spec fn selector_end(s: Seq<char>, i: int) -> int
    decreases s.len() - i,
{
    if i < 0 || i >= s.len() {
        s.len() as int
    } else if comment_at(s, i) {
        proof {
            lemma_comment_end_bounds(s, i + 2);
        }
        selector_end(s, comment_end(s, i + 2))
    } else if s[i] == '{' {
        i
    } else {
        selector_end(s, i + 1)
    }
}

pub proof fn lemma_selector_end_bounds(s: Seq<char>, i: int)
    requires
        0 <= i <= s.len(),
    ensures
        i <= selector_end(s, i) <= s.len(),
        selector_end(s, i) < s.len() ==> s[selector_end(s, i)] == '{',
    decreases s.len() - i,
{
    if i < s.len() {
        if comment_at(s, i) {
            lemma_comment_end_bounds(s, i + 2);
            lemma_selector_end_bounds(s, comment_end(s, i + 2));
        } else if s[i] != '{' {
            lemma_selector_end_bounds(s, i + 1);
        }
    }
}

/// The keyframes of a `@keyframes` body from index `i` on.
pub open spec fn body_scan(s: Seq<char>, i: int) -> Seq<KeyframeView>
    decreases s.len() - i,
{
    if i < 0 || i > s.len() {
        Seq::empty()
    } else {
        let j = skip_ws_comments_end(s, i);
        proof {
            lemma_skip_ws_comments_bounds(s, i);
        }
        if j >= s.len() {
            Seq::empty()
        } else {
            let k = selector_end(s, j);
            proof {
                lemma_selector_end_bounds(s, j);
            }
            if k >= s.len() {
                Seq::empty()
            } else {
                let end = block_scan(s, k + 1, 1);
                proof {
                    lemma_block_scan_bounds(s, k + 1, 1);
                }
                let decl_end = match end {
                    Some(e) => e,
                    None => s.len() as int,
                };
                let next = match end {
                    Some(e) => e + 1,
                    None => s.len() as int,
                };
                let offsets = parse_selectors_spec(s.subrange(j, k));
                let rest = body_scan(s, next);
                if offsets.len() == 0 {
                    rest
                } else {
                    let decls = parse_declarations_spec(s.subrange(k + 1, decl_end));
                    seq![
                        KeyframeView {
                            offsets: offsets,
                            declarations: decls.0,
                            timing_function: decls.1,
                        },
                    ] + rest
                }
            }
        }
    }
}

/// The keyframes of a `@keyframes` body, in source order.
pub open spec fn parse_block_body_spec(s: Seq<char>) -> Seq<KeyframeView> {
    body_scan(s, 0)
}

pub open spec fn keyframe_views(k: Seq<CssKeyframe>) -> Seq<KeyframeView> {
    k.map_values(|x: CssKeyframe| x@)
}

/// Reads the keyframes of a `@keyframes` block body.
pub fn parse_block_body(body: &[char]) -> (r: Vec<CssKeyframe>)
    ensures
        keyframe_views(r@) == parse_block_body_spec(body@),
{
    let len = body.len();
    let mut keyframes: Vec<CssKeyframe> = Vec::new();
    let ghost mut done: Seq<KeyframeView> = Seq::empty();
    let mut i: usize = 0;
    loop
        invariant
            len == body@.len(),
            i <= len,
            parse_block_body_spec(body@) == done + body_scan(body@, i as int),
            keyframe_views(keyframes@) == done,
        decreases len - i,
    {
        let j = skip_ws_comments(body, i);
        if j >= len {
            assert(body_scan(body@, i as int) == Seq::<KeyframeView>::empty());
            assert(done + Seq::<KeyframeView>::empty() =~= done);
            return keyframes;
        }
        let mut k = j;
        while k < len && body[k] != '{'
            invariant
                len == body@.len(),
                j <= k <= len,
                selector_end(body@, k as int) == selector_end(body@, j as int),
            decreases len - k,
        {
            if is_comment_at(body, k) {
                k = skip_comment(body, k);
            } else {
                k = k + 1;
            }
        }
        proof {
            lemma_selector_end_bounds(body@, j as int);
        }
        if k >= len {
            assert(body_scan(body@, i as int) == Seq::<KeyframeView>::empty());
            assert(done + Seq::<KeyframeView>::empty() =~= done);
            return keyframes;
        }
        assert(k == selector_end(body@, j as int));
        let found = find_block_end(body, k);
        let (decl_end, next) = match found {
            Some(end) => (end, end + 1),
            None => (len, len),
        };
        let selector = crate::text::copy_range(body, j, k);
        let offsets = parse_selectors(selector.as_slice());
        if offsets.len() > 0 {
            let decl_text = crate::text::copy_range(body, k + 1, decl_end);
            let (declarations, timing_function) = parse_declarations(decl_text.as_slice());
            let kf = CssKeyframe { offsets, declarations, timing_function };
            let ghost before = keyframes@;
            keyframes.push(kf);
            proof {
                let v = kf@;
                assert(keyframe_views(keyframes@) =~= keyframe_views(before).push(v));
                assert(done.push(v) + body_scan(body@, next as int) =~= done + (seq![v] + body_scan(
                    body@,
                    next as int,
                )));
                done = done.push(v);
            }
        }
        i = next;
    }
}


/// Law: a keyframe selector part is the start `from` or the end `to` exactly
/// for those keywords (any ASCII case, around comments and white space), and
/// a percentage names the number before its `%`.
pub proof fn lemma_selector_keywords(part: Seq<char>)
    ensures
        ({
            let token = trim(strip_comments_spec(part));
            &&& (selector_offset(part) == Some(OffsetView::From)) <==> eq_ci(token, "from"@)
            &&& (selector_offset(part) == Some(OffsetView::To)) <==> eq_ci(token, "to"@)
            &&& selector_offset(part) matches Some(OffsetView::Percent(n)) ==> token.len() > 0
                && token.last() == '%' && n == trim(token.subrange(0, token.len() - 1))
                && f32_finite(n)
        }),
{
    reveal_strlit("from");
    reveal_strlit("to");
    assert("from"@.len() == 4);
    assert("to"@.len() == 2);
}

} // verus!
