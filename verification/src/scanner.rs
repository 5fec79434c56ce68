//! Low-level CSS scanning: strings, comments, nested blocks and top-level splitting.
//!
//! Every function works on a character slice and an index into it. The
//! positions they return are the same places that scanning the UTF-8 bytes
//! finds, since every character they look for is ASCII.

use vstd::prelude::*;
use crate::text::{eq_ci, is_ascii_ws, lower};

verus! {

/// Where a `"..."`/`'...'` string whose body starts at `j` ends: just past the
/// closing `q`, honouring backslash escapes, or `s.len()` when it never closes.
pub open spec fn string_end(s: Seq<char>, j: int, q: char) -> int
    decreases s.len() - j,
{
    if j >= s.len() {
        s.len() as int
    } else if s[j] == '\\' {
        if j + 2 >= s.len() {
            s.len() as int
        } else {
            string_end(s, j + 2, q)
        }
    } else if s[j] == q {
        j + 1
    } else {
        string_end(s, j + 1, q)
    }
}

/// Where a comment whose body starts at `j` ends: just past `*/`, or `s.len()`.
pub open spec fn comment_end(s: Seq<char>, j: int) -> int
    decreases s.len() - j,
{
    if j >= s.len() {
        s.len() as int
    } else if s[j] == '*' && j + 1 < s.len() && s[j + 1] == '/' {
        j + 2
    } else {
        comment_end(s, j + 1)
    }
}

/// Whether a `/*` comment opens at `i`.
pub open spec fn comment_at(s: Seq<char>, i: int) -> bool {
    0 <= i && i + 1 < s.len() && s[i] == '/' && s[i + 1] == '*'
}

pub open spec fn is_quote(c: char) -> bool {
    c == '"' || c == '\''
}

pub proof fn lemma_string_end_bounds(s: Seq<char>, j: int, q: char)
    requires
        0 <= j <= s.len(),
    ensures
        j <= string_end(s, j, q) <= s.len(),
        j < s.len() ==> j < string_end(s, j, q),
    decreases s.len() - j,
{
    if j < s.len() {
        if s[j] == '\\' {
            if j + 2 < s.len() {
                lemma_string_end_bounds(s, j + 2, q);
            }
        } else if s[j] != q {
            lemma_string_end_bounds(s, j + 1, q);
        }
    }
}

pub proof fn lemma_comment_end_bounds(s: Seq<char>, j: int)
    requires
        0 <= j <= s.len(),
    ensures
        j <= comment_end(s, j) <= s.len(),
    decreases s.len() - j,
{
    if j < s.len() {
        if !(s[j] == '*' && j + 1 < s.len() && s[j + 1] == '/') {
            lemma_comment_end_bounds(s, j + 1);
        }
    }
}

/// Skips a string whose opening quote `q` is at `i`, returning the index past
/// the closing quote, or `s.len()` when it never closes.
pub fn skip_string(s: &[char], i: usize, q: char) -> (r: usize)
    requires
        i < s@.len(),
    ensures
        r == string_end(s@, i + 1, q),
        i < r <= s@.len(),
{
    proof {
        lemma_string_end_bounds(s@, i + 1, q);
    }
    let len = s.len();
    let mut j = i + 1;
    while j < len
        invariant
            len == s@.len(),
            i < j <= len,
            string_end(s@, j as int, q) == string_end(s@, i + 1, q),
        decreases len - j,
    {
        let c = s[j];
        if c == '\\' {
            if j >= len - 2 {
                return len;
            }
            j = j + 2;
        } else if c == q {
            return j + 1;
        } else {
            j = j + 1;
        }
    }
    len
}

/// Skips a `/* ... */` comment that opens at `i`, returning the index past it.
pub fn skip_comment(s: &[char], i: usize) -> (r: usize)
    requires
        comment_at(s@, i as int),
    ensures
        r == comment_end(s@, i + 2),
        i + 2 <= r <= s@.len(),
{
    proof {
        lemma_comment_end_bounds(s@, i + 2);
    }
    let len = s.len();
    let mut j = i + 2;
    while j < len
        invariant
            len == s@.len(),
            i + 2 <= j <= len,
            comment_end(s@, j as int) == comment_end(s@, i + 2),
        decreases len - j,
    {
        if s[j] == '*' && j + 1 < len && s[j + 1] == '/' {
            return j + 2;
        }
        j = j + 1;
    }
    len
}

pub fn is_comment_at(s: &[char], i: usize) -> (r: bool)
    ensures
        r == comment_at(s@, i as int),
{
    i < s.len() && i + 1 < s.len() && s[i] == '/' && s[i + 1] == '*'
}

/// The pieces of `s[start..]` split at top-level `d`, as `(begin, end)` ranges.
///
/// A delimiter is top level when it is outside strings, outside parentheses
/// and (when `comments` is set) outside `/* */` comments. An unmatched `)`
/// never takes the nesting depth below zero.
pub open spec fn split_scan(
    s: Seq<char>,
    d: char,
    comments: bool,
    i: int,
    start: int,
    depth: nat,
) -> Seq<(int, int)>
    decreases s.len() - i,
{
    if i < 0 || i >= s.len() {
        seq![(start, s.len() as int)]
    } else if comments && comment_at(s, i) {
        proof {
            lemma_comment_end_bounds(s, i + 2);
        }
        split_scan(s, d, comments, comment_end(s, i + 2), start, depth)
    } else if is_quote(s[i]) {
        proof {
            lemma_string_end_bounds(s, i + 1, s[i]);
        }
        split_scan(s, d, comments, string_end(s, i + 1, s[i]), start, depth)
    } else if s[i] == '(' {
        split_scan(s, d, comments, i + 1, start, depth + 1)
    } else if s[i] == ')' {
        split_scan(
            s,
            d,
            comments,
            i + 1,
            start,
            if depth == 0 {
                0
            } else {
                (depth - 1) as nat
            },
        )
    } else if s[i] == d && depth == 0 {
        seq![(start, i)] + split_scan(s, d, comments, i + 1, i + 1, depth)
    } else {
        split_scan(s, d, comments, i + 1, start, depth)
    }
}

/// The top-level pieces of `s`, as ranges.
pub open spec fn split_ranges(s: Seq<char>, d: char, comments: bool) -> Seq<(int, int)> {
    split_scan(s, d, comments, 0, 0, 0)
}

/// The ranges tile `s[start..]`: consecutive, separated by exactly one `d`.
pub open spec fn tiles(s: Seq<char>, d: char, start: int, r: Seq<(int, int)>) -> bool {
    &&& r.len() >= 1
    &&& r[0].0 == start
    &&& r[r.len() - 1].1 == s.len()
    &&& forall|k: int|
        #![trigger r[k]]
        0 <= k < r.len() ==> start <= r[k].0 && r[k].0 <= r[k].1 && r[k].1 <= s.len()
    &&& forall|k: int|
        #![trigger r[k]]
        0 <= k < r.len() - 1 ==> s[r[k].1] == d && r[k + 1].0 == r[k].1 + 1
}

pub proof fn lemma_split_scan_tiles(
    s: Seq<char>,
    d: char,
    comments: bool,
    i: int,
    start: int,
    depth: nat,
)
    requires
        0 <= start <= i <= s.len(),
    ensures
        tiles(s, d, start, split_scan(s, d, comments, i, start, depth)),
    decreases s.len() - i,
{
    if i < 0 || i >= s.len() {
    } else if comments && comment_at(s, i) {
        lemma_comment_end_bounds(s, i + 2);
        lemma_split_scan_tiles(s, d, comments, comment_end(s, i + 2), start, depth);
    } else if is_quote(s[i]) {
        lemma_string_end_bounds(s, i + 1, s[i]);
        lemma_split_scan_tiles(s, d, comments, string_end(s, i + 1, s[i]), start, depth);
    } else if s[i] == '(' {
        lemma_split_scan_tiles(s, d, comments, i + 1, start, depth + 1);
    } else if s[i] == ')' {
        lemma_split_scan_tiles(
            s,
            d,
            comments,
            i + 1,
            start,
            if depth == 0 {
                0
            } else {
                (depth - 1) as nat
            },
        );
    } else if s[i] == d && depth == 0 {
        let rest = split_scan(s, d, comments, i + 1, i + 1, depth);
        lemma_split_scan_tiles(s, d, comments, i + 1, i + 1, depth);
        lemma_tiles_cons(s, d, start, i, rest);
    } else {
        lemma_split_scan_tiles(s, d, comments, i + 1, start, depth);
    }
}

proof fn lemma_tiles_cons(s: Seq<char>, d: char, start: int, i: int, rest: Seq<(int, int)>)
    requires
        0 <= start <= i < s.len(),
        s[i] == d,
        tiles(s, d, i + 1, rest),
    ensures
        tiles(s, d, start, seq![(start, i)] + rest),
{
    let r = seq![(start, i)] + rest;
    assert(r[0] == (start, i));
    assert forall|k: int|
        #![trigger r[k]]
        0 <= k < r.len() implies start <= r[k].0 && r[k].0 <= r[k].1 && r[k].1 <= s.len() by {
        if k > 0 {
            assert(r[k] == rest[k - 1]);
            assert(i + 1 <= rest[k - 1].0 <= rest[k - 1].1 <= s.len());
        }
    }
    assert forall|k: int|
        #![trigger r[k]]
        0 <= k < r.len() - 1 implies s[r[k].1] == d && r[k + 1].0 == r[k].1 + 1 by {
        if k > 0 {
            assert(r[k] == rest[k - 1]);
            assert(r[k + 1] == rest[k]);
            assert(s[rest[k - 1].1] == d);
        } else {
            assert(r[1] == rest[0]);
        }
    }
    assert(r[r.len() - 1] == rest[rest.len() - 1]);
}

/// Law: the top-level pieces, rejoined with the delimiter, give back the text.
///
/// The ranges start at 0, end at `s.len()`, and each one ends exactly where a
/// delimiter sits, the next one starting right after it.
pub proof fn lemma_split_rejoins(s: Seq<char>, d: char, comments: bool)
    ensures
        tiles(s, d, 0, split_ranges(s, d, comments)),
{
    lemma_split_scan_tiles(s, d, comments, 0, 0, 0);
}

/// Splits `s` on `d` at the top level, ignoring delimiters inside strings,
/// parentheses and (when `comments` is set) comments.
pub fn split_top_level(s: &[char], d: char, comments: bool) -> (r: Vec<(usize, usize)>)
    ensures
        r@.len() == split_ranges(s@, d, comments).len(),
        forall|k: int|
            0 <= k < r@.len() ==> r@[k].0 as int == split_ranges(s@, d, comments)[k].0 && r@[k].1
                as int == split_ranges(s@, d, comments)[k].1,
        tiles(s@, d, 0, split_ranges(s@, d, comments)),
{
    proof {
        lemma_split_rejoins(s@, d, comments);
    }
    let len = s.len();
    let mut pieces: Vec<(usize, usize)> = Vec::new();
    let ghost done: Seq<(int, int)> = Seq::empty();
    let mut start: usize = 0;
    let mut i: usize = 0;
    let mut depth: usize = 0;
    while i < len
        invariant
            len == s@.len(),
            0 <= start <= i <= len,
            depth <= i,
            split_ranges(s@, d, comments) == done + split_scan(
                s@,
                d,
                comments,
                i as int,
                start as int,
                depth as nat,
            ),
            pieces@.len() == done.len(),
            forall|k: int|
                0 <= k < pieces@.len() ==> pieces@[k].0 as int == done[k].0 && pieces@[k].1 as int
                    == done[k].1,
        decreases len - i,
    {
        if comments && is_comment_at(s, i) {
            i = skip_comment(s, i);
        } else if s[i] == '"' || s[i] == '\'' {
            i = skip_string(s, i, s[i]);
        } else if s[i] == '(' {
            depth = depth + 1;
            i = i + 1;
        } else if s[i] == ')' {
            if depth > 0 {
                depth = depth - 1;
            }
            i = i + 1;
        } else if s[i] == d && depth == 0 {
            proof {
                done = done.push((start as int, i as int));
            }
            pieces.push((start, i));
            assert(seq![(start as int, i as int)] + split_scan(
                s@,
                d,
                comments,
                i + 1,
                i + 1,
                0,
            ) =~= seq![(start as int, i as int)].add(
                split_scan(s@, d, comments, i + 1, i + 1, 0),
            ));
            assert(done + split_scan(s@, d, comments, i + 1, i + 1, 0) =~= done.drop_last() + (
            seq![(start as int, i as int)] + split_scan(s@, d, comments, i + 1, i + 1, 0)));
            start = i + 1;
            i = i + 1;
        } else {
            i = i + 1;
        }
    }
    proof {
        done = done.push((start as int, len as int));
    }
    pieces.push((start, len));
    assert(split_ranges(s@, d, comments) =~= done);
    pieces
}

/// The index of the `}` that closes the block opened at `i`, given `depth`
/// unclosed `{` before it; `None` when the block never closes.
pub open spec fn block_scan(s: Seq<char>, i: int, depth: nat) -> Option<int>
    decreases s.len() - i,
{
    if i < 0 || i >= s.len() {
        None
    } else if comment_at(s, i) {
        proof {
            lemma_comment_end_bounds(s, i + 2);
        }
        block_scan(s, comment_end(s, i + 2), depth)
    } else if is_quote(s[i]) {
        proof {
            lemma_string_end_bounds(s, i + 1, s[i]);
        }
        block_scan(s, string_end(s, i + 1, s[i]), depth)
    } else if s[i] == '{' {
        block_scan(s, i + 1, depth + 1)
    } else if s[i] == '}' {
        if depth <= 1 {
            Some(i)
        } else {
            block_scan(s, i + 1, (depth - 1) as nat)
        }
    } else {
        block_scan(s, i + 1, depth)
    }
}

pub proof fn lemma_block_scan_bounds(s: Seq<char>, i: int, depth: nat)
    requires
        0 <= i,
    ensures
        block_scan(s, i, depth) matches Some(e) ==> i <= e < s.len() && s[e] == '}',
    decreases s.len() - i,
{
    if i < 0 || i >= s.len() {
    } else if comment_at(s, i) {
        lemma_comment_end_bounds(s, i + 2);
        lemma_block_scan_bounds(s, comment_end(s, i + 2), depth);
    } else if is_quote(s[i]) {
        lemma_string_end_bounds(s, i + 1, s[i]);
        lemma_block_scan_bounds(s, string_end(s, i + 1, s[i]), depth);
    } else if s[i] == '{' {
        lemma_block_scan_bounds(s, i + 1, depth + 1);
    } else if s[i] == '}' {
        if depth > 1 {
            lemma_block_scan_bounds(s, i + 1, (depth - 1) as nat);
        }
    } else {
        lemma_block_scan_bounds(s, i + 1, depth);
    }
}

/// Finds the `}` matching the `{` at `open`, tracking nested braces while
/// ignoring braces inside strings and comments.
pub fn find_block_end(s: &[char], open: usize) -> (r: Option<usize>)
    requires
        open < s@.len(),
        s@[open as int] == '{',
    ensures
        r matches Some(e) ==> block_scan(s@, open + 1, 1) == Some(e as int),
        r is None ==> block_scan(s@, open + 1, 1) is None,
        r matches Some(e) ==> open < e < s@.len() && s@[e as int] == '}',
{
    proof {
        lemma_block_scan_bounds(s@, open + 1, 1);
    }
    let len = s.len();
    let mut depth: usize = 1;
    let mut i = open + 1;
    while i < len
        invariant
            len == s@.len(),
            open < i <= len,
            1 <= depth <= i,
            block_scan(s@, i as int, depth as nat) == block_scan(s@, open + 1, 1),
        decreases len - i,
    {
        if is_comment_at(s, i) {
            i = skip_comment(s, i);
        } else if s[i] == '"' || s[i] == '\'' {
            i = skip_string(s, i, s[i]);
        } else if s[i] == '{' {
            depth = depth + 1;
            i = i + 1;
        } else if s[i] == '}' {
            if depth <= 1 {
                return Some(i);
            }
            depth = depth - 1;
            i = i + 1;
        } else {
            i = i + 1;
        }
    }
    None
}

/// Where an at-statement starting at `i` (just after the `@`) ends: past its
/// `;`, past its block, or at the end of the text.
pub open spec fn at_statement_end(s: Seq<char>, i: int) -> int
    decreases s.len() - i,
{
    if i < 0 || i >= s.len() {
        s.len() as int
    } else if comment_at(s, i) {
        proof {
            lemma_comment_end_bounds(s, i + 2);
        }
        at_statement_end(s, comment_end(s, i + 2))
    } else if is_quote(s[i]) {
        proof {
            lemma_string_end_bounds(s, i + 1, s[i]);
        }
        at_statement_end(s, string_end(s, i + 1, s[i]))
    } else if s[i] == ';' {
        i + 1
    } else if s[i] == '{' {
        match block_scan(s, i + 1, 1) {
            Some(e) => e + 1,
            None => s.len() as int,
        }
    } else {
        at_statement_end(s, i + 1)
    }
}

/// Skips an at-statement (such as `@import`) whose `@` is at `at`, up to and
/// including its terminating `;`, or past its block when one is present.
pub fn skip_at_statement(s: &[char], at: usize) -> (r: usize)
    requires
        at < s@.len(),
    ensures
        r == at_statement_end(s@, at + 1),
        at < r <= s@.len(),
{
    let len = s.len();
    let mut i = at + 1;
    while i < len
        invariant
            len == s@.len(),
            at < i <= len,
            at_statement_end(s@, i as int) == at_statement_end(s@, at + 1),
        decreases len - i,
    {
        if is_comment_at(s, i) {
            i = skip_comment(s, i);
        } else if s[i] == '"' || s[i] == '\'' {
            i = skip_string(s, i, s[i]);
        } else if s[i] == ';' {
            return i + 1;
        } else if s[i] == '{' {
            return match find_block_end(s, i) {
                Some(end) => end + 1,
                None => len,
            };
        } else {
            i = i + 1;
        }
    }
    len
}

/// The first index at or after `i` that is neither ASCII whitespace nor inside
/// a comment.
pub open spec fn skip_ws_comments_end(s: Seq<char>, i: int) -> int
    decreases s.len() - i,
{
    if i < 0 || i >= s.len() {
        i
    } else if is_ascii_ws(s[i]) {
        skip_ws_comments_end(s, i + 1)
    } else if comment_at(s, i) {
        proof {
            lemma_comment_end_bounds(s, i + 2);
        }
        skip_ws_comments_end(s, comment_end(s, i + 2))
    } else {
        i
    }
}

pub proof fn lemma_skip_ws_comments_bounds(s: Seq<char>, i: int)
    requires
        0 <= i,
    ensures
        i <= skip_ws_comments_end(s, i),
        i <= s.len() ==> skip_ws_comments_end(s, i) <= s.len(),
    decreases s.len() - i,
{
    if i < 0 || i >= s.len() {
    } else if is_ascii_ws(s[i]) {
        lemma_skip_ws_comments_bounds(s, i + 1);
    } else if comment_at(s, i) {
        lemma_comment_end_bounds(s, i + 2);
        lemma_skip_ws_comments_bounds(s, comment_end(s, i + 2));
    }
}

/// Skips ASCII whitespace and comments starting at `i`.
pub fn skip_ws_comments(s: &[char], i: usize) -> (r: usize)
    ensures
        r as int == skip_ws_comments_end(s@, i as int),
        i <= r,
        i <= s@.len() ==> r <= s@.len(),
{
    proof {
        lemma_skip_ws_comments_bounds(s@, i as int);
    }
    let len = s.len();
    let mut j = i;
    loop
        invariant
            len == s@.len(),
            i <= j,
            i <= len ==> j <= len,
            skip_ws_comments_end(s@, j as int) == skip_ws_comments_end(s@, i as int),
        decreases len - j,
    {
        if j < len && crate::text::is_ascii_whitespace(s[j]) {
            j = j + 1;
        } else if is_comment_at(s, j) {
            j = skip_comment(s, j);
        } else {
            return j;
        }
    }
}

/// ASCII letters, digits, `-` and `_`.
pub open spec fn is_ident_char(c: char) -> bool {
    ('a' <= c <= 'z') || ('A' <= c <= 'Z') || ('0' <= c <= '9') || c == '-' || c == '_'
}

pub fn is_ident_byte(c: char) -> (r: bool)
    ensures
        r == is_ident_char(c),
{
    ('a' <= c && c <= 'z') || ('A' <= c && c <= 'Z') || ('0' <= c && c <= '9') || c == '-' || c
        == '_'
}

/// Whether `kw` (ASCII, compared case-insensitively) starts at `start` and is
/// not followed by another identifier character.
pub open spec fn keyword_at(s: Seq<char>, start: int, kw: Seq<char>) -> bool {
    &&& 0 <= start
    &&& start + kw.len() <= s.len()
    &&& eq_ci(s.subrange(start, start + kw.len()), kw)
    &&& (start + kw.len() < s.len() ==> !is_ident_char(s[start + kw.len()]))
}

pub fn matches_keyword(s: &[char], start: usize, kw: &str) -> (r: bool)
    ensures
        r == keyword_at(s@, start as int, kw@),
{
    let k = crate::text::chars_of(kw);
    if start > s.len() || k.len() > s.len() - start {
        return false;
    }
    let end = start + k.len();
    if !crate::text::range_eq_ci(s, start, end, k.as_slice()) {
        return false;
    }
    if end < s.len() {
        !is_ident_byte(s[end])
    } else {
        true
    }
}

} // verus!
