//! Character-level helpers shared by the CSS and SMIL parsers.
//!
//! Text is modelled as a sequence of Unicode scalar values. Every delimiter the
//! parsers look for is ASCII, so scanning characters finds exactly the places
//! that scanning the UTF-8 bytes would.

use vstd::prelude::*;
use vstd::string::{StrSliceExecFns, StringExecFns};

verus! {

broadcast use vstd::string::group_string_axioms;

/// Collects the characters of `s`.
pub fn chars_of(s: &str) -> (v: Vec<char>)
    ensures
        v@ == s@,
{
    let mut v: Vec<char> = Vec::new();
    for c in it: s.chars()
        invariant
            v@ == it.seq().take(it.index() as int),
            it.seq() == s@,
    {
        v.push(c);
    }
    v
}

/// Copies the characters `lo..hi` of `s` into a new `String`.
pub fn substring(s: &str, lo: usize, hi: usize) -> (r: String)
    requires
        lo <= hi <= s@.len(),
    ensures
        r@ == s@.subrange(lo as int, hi as int),
{
    s.substring_char(lo, hi).to_owned()
}

/// Unicode `White_Space`, the set that `char::is_whitespace` and `str::trim` use.
pub open spec fn is_ws(c: char) -> bool {
    let v = c as u32;
    (0x09 <= v <= 0x0D) || v == 0x20 || v == 0x85 || v == 0xA0 || v == 0x1680 || (0x2000 <= v
        <= 0x200A) || v == 0x2028 || v == 0x2029 || v == 0x202F || v == 0x205F || v == 0x3000
}

/// ASCII whitespace as `u8::is_ascii_whitespace` defines it.
pub open spec fn is_ascii_ws(c: char) -> bool {
    c == ' ' || c == '\t' || c == '\n' || c == '\x0C' || c == '\r'
}

pub fn is_whitespace(c: char) -> (b: bool)
    ensures
        b == is_ws(c),
{
    let v = c as u32;
    (0x09 <= v && v <= 0x0D) || v == 0x20 || v == 0x85 || v == 0xA0 || v == 0x1680 || (0x2000
        <= v && v <= 0x200A) || v == 0x2028 || v == 0x2029 || v == 0x202F || v == 0x205F || v
        == 0x3000
}

pub fn is_ascii_whitespace(c: char) -> (b: bool)
    ensures
        b == is_ascii_ws(c),
{
    c == ' ' || c == '\t' || c == '\n' || c == '\x0C' || c == '\r'
}

/// `s` without its leading whitespace.
pub open spec fn trim_start(s: Seq<char>) -> Seq<char>
    decreases s.len(),
{
    if s.len() > 0 && is_ws(s[0]) {
        trim_start(s.drop_first())
    } else {
        s
    }
}

/// `s` without its trailing whitespace.
pub open spec fn trim_end(s: Seq<char>) -> Seq<char>
    decreases s.len(),
{
    if s.len() > 0 && is_ws(s.last()) {
        trim_end(s.drop_last())
    } else {
        s
    }
}

/// What `str::trim` returns.
pub open spec fn trim(s: Seq<char>) -> Seq<char> {
    trim_end(trim_start(s))
}

/// Finds the bounds of `trim(text[lo..hi])` inside `text`.
pub fn trim_bounds(text: &[char], lo: usize, hi: usize) -> (r: (usize, usize))
    requires
        lo <= hi <= text@.len(),
    ensures
        lo <= r.0 <= r.1 <= hi,
        text@.subrange(r.0 as int, r.1 as int) == trim(text@.subrange(lo as int, hi as int)),
{
    let mut a = lo;
    while a < hi && is_whitespace(text[a])
        invariant
            lo <= a <= hi <= text@.len(),
            trim_start(text@.subrange(lo as int, hi as int)) == trim_start(
                text@.subrange(a as int, hi as int),
            ),
        decreases hi - a,
    {
        assert(text@.subrange(a as int, hi as int).drop_first() =~= text@.subrange(
            a + 1,
            hi as int,
        ));
        a = a + 1;
    }
    let mut b = hi;
    while b > a && is_whitespace(text[b - 1])
        invariant
            lo <= a <= b <= hi <= text@.len(),
            trim_end(text@.subrange(a as int, hi as int)) == trim_end(
                text@.subrange(a as int, b as int),
            ),
        decreases b - a,
    {
        assert(text@.subrange(a as int, b as int).drop_last() =~= text@.subrange(
            a as int,
            b - 1,
        ));
        b = b - 1;
    }
    (a, b)
}

/// ASCII lowercase mapping of a single character (`char::to_ascii_lowercase`).
pub open spec fn lower(c: char) -> char {
    if 'A' <= c <= 'Z' {
        ((c as u32) + 32) as char
    } else {
        c
    }
}

/// ASCII case-insensitive equality (`str::eq_ignore_ascii_case`).
pub open spec fn eq_ci(a: Seq<char>, b: Seq<char>) -> bool {
    a.len() == b.len() && forall|i: int| 0 <= i < a.len() ==> lower(#[trigger] a[i]) == lower(b[i])
}

/// Whether `s` starts with `p`, ignoring ASCII case.
pub open spec fn starts_with_ci(s: Seq<char>, p: Seq<char>) -> bool {
    s.len() >= p.len() && eq_ci(s.subrange(0, p.len() as int), p)
}

/// Whether `s` ends with `p`, ignoring ASCII case.
pub open spec fn ends_with_ci(s: Seq<char>, p: Seq<char>) -> bool {
    s.len() >= p.len() && eq_ci(s.subrange(s.len() - p.len(), s.len() as int), p)
}

pub fn char_eq_ci(a: char, b: char) -> (r: bool)
    ensures
        r == (lower(a) == lower(b)),
{
    let la: u32 = if 'A' <= a && a <= 'Z' {
        (a as u32) + 32
    } else {
        a as u32
    };
    let lb: u32 = if 'A' <= b && b <= 'Z' {
        (b as u32) + 32
    } else {
        b as u32
    };
    assert(lower(a) as u32 == la);
    assert(lower(b) as u32 == lb);
    la == lb
}

/// Whether `text[lo..hi]` equals `kw`, ignoring ASCII case.
pub fn range_eq_ci(text: &[char], lo: usize, hi: usize, kw: &[char]) -> (r: bool)
    requires
        lo <= hi <= text@.len(),
    ensures
        r == eq_ci(text@.subrange(lo as int, hi as int), kw@),
{
    if hi - lo != kw.len() {
        return false;
    }
    let mut i: usize = 0;
    while i < kw.len()
        invariant
            hi - lo == kw@.len(),
            lo <= hi <= text@.len(),
            0 <= i <= kw@.len(),
            forall|j: int| 0 <= j < i ==> lower(#[trigger] text@[lo + j]) == lower(kw@[j]),
        decreases kw.len() - i,
    {
        if !char_eq_ci(text[lo + i], kw[i]) {
            assert(!(lower(text@.subrange(lo as int, hi as int)[i as int]) == lower(kw@[i as int])));
            return false;
        }
        i = i + 1;
    }
    assert forall|j: int| 0 <= j < text@.subrange(lo as int, hi as int).len() implies lower(
        #[trigger] text@.subrange(lo as int, hi as int)[j],
    ) == lower(kw@[j]) by {
        assert(text@.subrange(lo as int, hi as int)[j] == text@[lo + j]);
    }
    true
}

/// Whether `text[lo..hi]` equals `kw` exactly.
pub fn range_eq_str(text: &[char], lo: usize, hi: usize, kw: &str) -> (r: bool)
    requires
        lo <= hi <= text@.len(),
    ensures
        r == (text@.subrange(lo as int, hi as int) == kw@),
{
    let k = chars_of(kw);
    if hi - lo != k.len() {
        return false;
    }
    let mut i: usize = 0;
    while i < k.len()
        invariant
            k@ == kw@,
            hi - lo == k@.len(),
            lo <= hi <= text@.len(),
            0 <= i <= k@.len(),
            forall|j: int| 0 <= j < i ==> #[trigger] text@[lo + j] == k@[j],
        decreases k.len() - i,
    {
        if text[lo + i] != k[i] {
            assert(text@.subrange(lo as int, hi as int)[i as int] != k@[i as int]);
            assert(text@.subrange(lo as int, hi as int) != kw@);
            return false;
        }
        i = i + 1;
    }
    assert(text@.subrange(lo as int, hi as int) =~= k@) by {
        assert forall|j: int| 0 <= j < k@.len() implies text@.subrange(lo as int, hi as int)[j]
            == k@[j] by {
            assert(text@.subrange(lo as int, hi as int)[j] == text@[lo + j]);
        }
    }
    true
}

/// Whether `a` equals `b`.
pub fn str_eq(a: &str, b: &str) -> (r: bool)
    ensures
        r == (a@ == b@),
{
    let v = chars_of(a);
    let r = range_eq_str(v.as_slice(), 0, v.len(), b);
    assert(v@.subrange(0, v@.len() as int) =~= v@);
    r
}

/// Whether `text[lo..hi]` equals `kw`, ignoring ASCII case, with `kw` given as a `&str`.
pub fn range_eq_ci_str(text: &[char], lo: usize, hi: usize, kw: &str) -> (r: bool)
    requires
        lo <= hi <= text@.len(),
    ensures
        r == eq_ci(text@.subrange(lo as int, hi as int), kw@),
{
    let k = chars_of(kw);
    range_eq_ci(text, lo, hi, k.as_slice())
}

/// Whether `text[lo..hi]` starts with `kw`, ignoring ASCII case.
pub fn range_starts_with_ci(text: &[char], lo: usize, hi: usize, kw: &str) -> (r: bool)
    requires
        lo <= hi <= text@.len(),
    ensures
        r == starts_with_ci(text@.subrange(lo as int, hi as int), kw@),
{
    let k = chars_of(kw);
    if hi - lo < k.len() {
        return false;
    }
    let r = range_eq_ci(text, lo, lo + k.len(), k.as_slice());
    assert(text@.subrange(lo as int, hi as int).subrange(0, k@.len() as int) =~= text@.subrange(
        lo as int,
        lo + k@.len(),
    ));
    r
}

/// Whether `text[lo..hi]` ends with `kw`, ignoring ASCII case.
pub fn range_ends_with_ci(text: &[char], lo: usize, hi: usize, kw: &str) -> (r: bool)
    requires
        lo <= hi <= text@.len(),
    ensures
        r == ends_with_ci(text@.subrange(lo as int, hi as int), kw@),
{
    let k = chars_of(kw);
    if hi - lo < k.len() {
        return false;
    }
    let r = range_eq_ci(text, hi - k.len(), hi, k.as_slice());
    assert(text@.subrange(lo as int, hi as int).subrange(
        (hi - lo) - k@.len(),
        (hi - lo) as int,
    ) =~= text@.subrange(hi - k@.len(), hi as int));
    r
}

/// The items separated by `sep` (`[&str]::join`).
pub open spec fn join(items: Seq<Seq<char>>, sep: Seq<char>) -> Seq<char>
    decreases items.len(),
{
    if items.len() == 0 {
        Seq::empty()
    } else if items.len() == 1 {
        items[0]
    } else {
        join(items.drop_last(), sep) + sep + items.last()
    }
}


/// The texts of a list of strings.
pub open spec fn texts_of(items: Seq<String>) -> Seq<Seq<char>> {
    items.map_values(|s: String| s@)
}

/// Joins `items` with `sep` between consecutive entries.
pub fn join_strings(items: &Vec<String>, sep: &str) -> (r: String)
    ensures
        r@ == join(texts_of(items@), sep@),
{
    let mut r = String::new();
    let mut i: usize = 0;
    while i < items.len()
        invariant
            0 <= i <= items@.len(),
            r@ == join(texts_of(items@.take(i as int)), sep@),
        decreases items.len() - i,
    {
        assert(texts_of(items@.take(i + 1)).drop_last() =~= texts_of(items@.take(i as int)));
        assert(texts_of(items@.take(i + 1)).last() == items@[i as int]@);
        if i > 0 {
            r.append(sep);
        } else {
            assert(r@ =~= Seq::<char>::empty());
        }
        r.append(items[i].as_str());
        i = i + 1;
    }
    assert(items@.take(items@.len() as int) =~= items@);
    r
}

/// `String::push`: appends `c` to `s`.
#[verifier::external_body]
fn push_char(s: &mut String, c: char)
    ensures
        final(s)@ == old(s)@.push(c),
{
    s.push(c)
}

/// A new `String` holding the characters `cs[lo..hi]`.
pub fn string_of(cs: &[char], lo: usize, hi: usize) -> (r: String)
    requires
        lo <= hi <= cs@.len(),
    ensures
        r@ == cs@.subrange(lo as int, hi as int),
{
    let mut r = String::new();
    let mut i = lo;
    while i < hi
        invariant
            lo <= i <= hi <= cs@.len(),
            r@ == cs@.subrange(lo as int, i as int),
        decreases hi - i,
    {
        push_char(&mut r, cs[i]);
        assert(r@ =~= cs@.subrange(lo as int, i + 1));
        i = i + 1;
    }
    r
}

/// Copies `s[lo..hi]` into a new vector.
pub fn copy_range(s: &[char], lo: usize, hi: usize) -> (r: Vec<char>)
    requires
        lo <= hi <= s@.len(),
    ensures
        r@ == s@.subrange(lo as int, hi as int),
{
    let mut r: Vec<char> = Vec::new();
    let mut i = lo;
    while i < hi
        invariant
            lo <= i <= hi <= s@.len(),
            r@ == s@.subrange(lo as int, i as int),
        decreases hi - i,
    {
        r.push(s[i]);
        assert(r@ =~= s@.subrange(lo as int, i + 1));
        i = i + 1;
    }
    r
}


/// Two texts that differ, ignoring case, at some place cannot both equal a
/// third ignoring case.
pub proof fn lemma_eq_ci_apart(s: Seq<char>, a: Seq<char>, b: Seq<char>, i: int)
    requires
        eq_ci(s, a),
        0 <= i < a.len(),
        i < b.len(),
        lower(a[i]) != lower(b[i]),
    ensures
        !eq_ci(s, b),
{
    if eq_ci(s, b) {
        assert(lower(s[i]) == lower(a[i]));
        assert(lower(s[i]) == lower(b[i]));
    }
}

} // verus!
