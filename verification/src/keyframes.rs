//! Extraction of `@keyframes` rules from a style sheet.
//!
//! Selector-based CSS parsers do not understand `@keyframes`, so the blocks are
//! pulled out here and the rest of the style sheet is handed back unchanged.

use vstd::prelude::*;
use crate::declarations::{keyframe_views, parse_block_body, parse_block_body_spec, KeyframeView, CssKeyframe};
use crate::scanner::{
    block_scan, comment_at, comment_end, find_block_end, is_comment_at,
    is_quote, keyword_at, lemma_block_scan_bounds, lemma_comment_end_bounds,
    lemma_skip_ws_comments_bounds, lemma_string_end_bounds, matches_keyword, skip_at_statement,
    at_statement_end, skip_comment, skip_string, skip_ws_comments, skip_ws_comments_end,
    string_end,
};
use crate::text::{chars_of, copy_range, is_ascii_ws, string_of, trim, trim_bounds};

verus! {

broadcast use vstd::string::group_string_axioms;

/// A parsed `@keyframes` rule.
#[derive(Clone, Debug, PartialEq)]
pub struct KeyframesRule {
    /// The animation name used by `animation`/`animation-name`.
    pub name: String,
    /// The keyframes in source order.
    pub keyframes: Vec<CssKeyframe>,
}

pub struct RuleView {
    pub name: Seq<char>,
    pub keyframes: Seq<KeyframeView>,
}

impl View for KeyframesRule {
    type V = RuleView;

    open spec fn view(&self) -> RuleView {
        RuleView { name: self.name@, keyframes: keyframe_views(self.keyframes@) }
    }
}

pub open spec fn rule_views(r: Seq<KeyframesRule>) -> Seq<RuleView> {
    r.map_values(|x: KeyframesRule| x@)
}

/// What extracting keyframes from a style sheet reports.
#[derive(Clone, Copy, Debug, PartialEq, Eq, Structural)]
pub enum ExtractWarning {
    /// A `@keyframes` block never closes; the rest of the style sheet is dropped.
    UnterminatedKeyframes,
    /// An `@import` statement was dropped.
    ExternalCss,
}

impl ExtractWarning {
    /// The text logged for this warning.
    pub fn message(&self) -> (r: &'static str)
        ensures
            r@ == warning_message(*self),
    {
        match self {
            ExtractWarning::UnterminatedKeyframes => "Unterminated @keyframes block; skipped.",
            ExtractWarning::ExternalCss => "External CSS is not supported.",
        }
    }
}

pub open spec fn warning_message(w: ExtractWarning) -> Seq<char> {
    match w {
        ExtractWarning::UnterminatedKeyframes => "Unterminated @keyframes block; skipped."@,
        ExtractWarning::ExternalCss => "External CSS is not supported."@,
    }
}

/// Where an unquoted keyframes name that starts at `j` ends.
pub open spec fn bare_name_end(s: Seq<char>, j: int) -> int
    decreases s.len() - j,
{
    if j < 0 || j >= s.len() {
        j
    } else if is_ascii_ws(s[j]) || s[j] == '{' || comment_at(s, j) {
        j
    } else {
        bare_name_end(s, j + 1)
    }
}

pub proof fn lemma_bare_name_end_bounds(s: Seq<char>, j: int)
    requires
        0 <= j <= s.len(),
    ensures
        j <= bare_name_end(s, j) <= s.len(),
    decreases s.len() - j,
{
    if j < s.len() && !(is_ascii_ws(s[j]) || s[j] == '{' || comment_at(s, j)) {
        lemma_bare_name_end_bounds(s, j + 1);
    }
}

/// The name of a `@keyframes` rule starting at `i`, and the index past it.
///
/// A quoted name runs to its closing quote; a bare name runs to whitespace, a
/// `{` or a comment, and is trimmed.
pub open spec fn read_name_spec(s: Seq<char>, i: int) -> (Seq<char>, int) {
    if 0 <= i < s.len() && is_quote(s[i]) {
        let end = string_end(s, i + 1, s[i]);
        let inner_end = if end > i + 1 && s[end - 1] == s[i] {
            end - 1
        } else {
            end
        };
        (s.subrange(i + 1, inner_end), end)
    } else {
        let j = bare_name_end(s, i);
        (trim(s.subrange(i, j)), j)
    }
}

/// Reads the name of a `@keyframes` rule starting at `i`.
pub fn read_name(s: &[char], i: usize) -> (r: (String, usize))
    requires
        i <= s@.len(),
    ensures
        r.0@ == read_name_spec(s@, i as int).0,
        r.1 as int == read_name_spec(s@, i as int).1,
        i <= r.1 <= s@.len(),
{
    let len = s.len();
    if i < len && (s[i] == '"' || s[i] == '\'') {
        let quote = s[i];
        let end = skip_string(s, i, quote);
        let inner_end = if end > i + 1 && s[end - 1] == quote {
            end - 1
        } else {
            end
        };
        (string_of(s, i + 1, inner_end), end)
    } else {
        proof {
            lemma_bare_name_end_bounds(s@, i as int);
        }
        let mut j = i;
        while j < len && !(crate::text::is_ascii_whitespace(s[j]) || s[j] == '{' || is_comment_at(s, j))
            invariant
                len == s@.len(),
                i <= j <= len,
                bare_name_end(s@, j as int) == bare_name_end(s@, i as int),
            decreases len - j,
        {
            j = j + 1;
        }
        let (a, b) = trim_bounds(s, i, j);
        (string_of(s, a, b), j)
    }
}

/// A `@keyframes` rule whose `@` is at `at`: the rule and the index past its
/// closing brace, or `None` when the block never opens or never closes.
pub open spec fn keyframes_block_spec(s: Seq<char>, at: int) -> Option<(RuleView, int)> {
    let i = skip_ws_comments_end(s, at + 10);
    let (name, i2) = read_name_spec(s, i);
    let i3 = skip_ws_comments_end(s, i2);
    if i3 >= s.len() || s[i3] != '{' {
        None
    } else {
        match block_scan(s, i3 + 1, 1) {
            None => None,
            Some(body_end) => Some(
                (
                    RuleView {
                        name: name,
                        keyframes: parse_block_body_spec(s.subrange(i3 + 1, body_end)),
                    },
                    body_end + 1,
                ),
            ),
        }
    }
}

/// Parses a `@keyframes` rule starting at the `@` at `at`.
fn parse_keyframes_block(s: &[char], at: usize) -> (r: Option<(KeyframesRule, usize)>)
    requires
        at + 10 <= s@.len(),
    ensures
        match r {
            Some((rule, end)) => keyframes_block_spec(s@, at as int) == Some((rule@, end as int))
                && at < end <= s@.len(),
            None => keyframes_block_spec(s@, at as int) is None,
        },
{
    let len = s.len();
    let i = skip_ws_comments(s, at + 10);
    let (name, i2) = read_name(s, i);
    let i3 = skip_ws_comments(s, i2);
    if i3 >= len || s[i3] != '{' {
        return None;
    }
    let body_end = match find_block_end(s, i3) {
        Some(e) => e,
        None => return None,
    };
    let body = copy_range(s, i3 + 1, body_end);
    let keyframes = parse_block_body(body.as_slice());
    Some((KeyframesRule { name, keyframes }, body_end + 1))
}

/// The index of the rule named `name`, or `rules.len()`.
pub open spec fn index_of_name(rules: Seq<RuleView>, name: Seq<char>) -> int
    decreases rules.len(),
{
    if rules.len() == 0 {
        0
    } else if index_of_name(rules.drop_last(), name) < rules.len() - 1 {
        index_of_name(rules.drop_last(), name)
    } else if rules.last().name == name {
        rules.len() - 1
    } else {
        rules.len() as int
    }
}

/// Adds `rule`, replacing an earlier rule of the same name in place.
pub open spec fn insert_rule(rules: Seq<RuleView>, rule: RuleView) -> Seq<RuleView> {
    let k = index_of_name(rules, rule.name);
    if k < rules.len() {
        rules.update(k, rule)
    } else {
        rules.push(rule)
    }
}

/// No two rules share a name.
pub open spec fn names_distinct(rules: Seq<RuleView>) -> bool {
    forall|a: int, b: int|
        0 <= a < rules.len() && 0 <= b < rules.len() && a != b ==> #[trigger] rules[a].name
            != #[trigger] rules[b].name
}

pub proof fn lemma_index_of_name(rules: Seq<RuleView>, name: Seq<char>)
    ensures
        0 <= index_of_name(rules, name) <= rules.len(),
        index_of_name(rules, name) < rules.len() ==> rules[index_of_name(rules, name)].name
            == name,
        forall|k: int| 0 <= k < index_of_name(rules, name) ==> #[trigger] rules[k].name != name,
    decreases rules.len(),
{
    if rules.len() > 0 {
        let p = rules.drop_last();
        lemma_index_of_name(p, name);
        assert forall|k: int| 0 <= k < p.len() implies #[trigger] rules[k] == p[k] by {}
    }
}

/// Law: adding a rule keeps rule names distinct, keeps the rule just added,
/// and keeps every rule of another name.
pub proof fn lemma_insert_rule(rules: Seq<RuleView>, rule: RuleView)
    requires
        names_distinct(rules),
    ensures
        names_distinct(insert_rule(rules, rule)),
        exists|k: int| 0 <= k < insert_rule(rules, rule).len() && insert_rule(rules, rule)[k] == rule,
        forall|k: int|
            0 <= k < rules.len() && rules[k].name != rule.name ==> exists|m: int|
                0 <= m < insert_rule(rules, rule).len() && insert_rule(rules, rule)[m] == rules[k],
{
    lemma_index_of_name(rules, rule.name);
    let k = index_of_name(rules, rule.name);
    let r = insert_rule(rules, rule);
    if k < rules.len() {
        assert(r[k] == rule);
        assert forall|a: int, b: int|
            0 <= a < r.len() && 0 <= b < r.len() && a != b implies #[trigger] r[a].name
            != #[trigger] r[b].name by {
            if a == k {
                assert(rules[b].name != rules[k].name);
            } else if b == k {
                assert(rules[a].name != rules[k].name);
            } else {
                assert(rules[a].name != rules[b].name);
            }
        }
        assert forall|j: int| 0 <= j < rules.len() && rules[j].name != rule.name implies exists|
            m: int,
        | 0 <= m < r.len() && r[m] == rules[j] by {
            assert(j != k);
            assert(r[j] == rules[j]);
        }
    } else {
        assert(r[rules.len() as int] == rule);
        assert forall|a: int, b: int|
            0 <= a < r.len() && 0 <= b < r.len() && a != b implies #[trigger] r[a].name
            != #[trigger] r[b].name by {
            if a == rules.len() {
                assert(rules[b].name != rule.name);
            } else if b == rules.len() {
                assert(rules[a].name != rule.name);
            } else {
                assert(rules[a].name != rules[b].name);
            }
        }
        assert forall|j: int| 0 <= j < rules.len() && rules[j].name != rule.name implies exists|
            m: int,
        | 0 <= m < r.len() && r[m] == rules[j] by {
            assert(r[j] == rules[j]);
        }
    }
}

/// The result of extracting keyframes: the rules, the remaining style sheet,
/// and the warnings raised on the way.
pub struct ExtractView {
    pub rules: Seq<RuleView>,
    pub remaining: Seq<char>,
    pub warnings: Seq<ExtractWarning>,
}

/// Scans the style sheet from `i` on, with the text from `copy_from` not yet copied.
pub open spec fn extract_scan(s: Seq<char>, i: int, copy_from: int, acc: ExtractView) -> ExtractView
    decreases s.len() - i,
{
    if i < 0 || i >= s.len() {
        ExtractView {
            remaining: if copy_from < s.len() {
                acc.remaining + s.subrange(copy_from, s.len() as int)
            } else {
                acc.remaining
            },
            ..acc
        }
    } else if comment_at(s, i) {
        proof {
            lemma_comment_end_bounds(s, i + 2);
        }
        extract_scan(s, comment_end(s, i + 2), copy_from, acc)
    } else if is_quote(s[i]) {
        proof {
            lemma_string_end_bounds(s, i + 1, s[i]);
        }
        extract_scan(s, string_end(s, i + 1, s[i]), copy_from, acc)
    } else if s[i] == '@' && keyword_at(s, i + 1, "keyframes"@) {
        let remaining = acc.remaining + s.subrange(copy_from, i);
        match keyframes_block_spec(s, i) {
            Some((rule, end)) => {
                if i < end <= s.len() {
                    extract_scan(
                        s,
                        end,
                        end,
                        ExtractView {
                            rules: insert_rule(acc.rules, rule),
                            remaining: remaining,
                            ..acc
                        },
                    )
                } else {
                    acc
                }
            },
            None => ExtractView {
                remaining: remaining,
                warnings: acc.warnings.push(ExtractWarning::UnterminatedKeyframes),
                ..acc
            },
        }
    } else if s[i] == '@' && keyword_at(s, i + 1, "import"@) {
        let end = at_statement_end(s, i + 1);
        if i < end <= s.len() {
            extract_scan(
                s,
                end,
                end,
                ExtractView {
                    remaining: acc.remaining + s.subrange(copy_from, i),
                    warnings: acc.warnings.push(ExtractWarning::ExternalCss),
                    ..acc
                },
            )
        } else {
            acc
        }
    } else {
        extract_scan(s, i + 1, copy_from, acc)
    }
}

/// What extracting keyframes from `css` gives.
pub open spec fn extract_keyframes_spec(css: Seq<char>) -> ExtractView {
    extract_scan(
        css,
        0,
        0,
        ExtractView { rules: Seq::empty(), remaining: Seq::empty(), warnings: Seq::empty() },
    )
}

/// Replaces the rule with the same name as `rule`, or appends it.
fn insert_last_wins(rules: &mut Vec<KeyframesRule>, rule: KeyframesRule)
    ensures
        rule_views(final(rules)@) == insert_rule(rule_views(old(rules)@), rule@),
{
    let ghost rv = rule_views(rules@);
    let mut k: usize = 0;
    let n = rules.len();
    proof {
        lemma_index_of_name(rv, rule.name@);
    }
    while k < n
        invariant
            n == rules@.len(),
            rv == rule_views(rules@),
            rv == rule_views(old(rules)@),
            0 <= k <= n,
            forall|j: int| 0 <= j < k ==> #[trigger] rules@[j].name@ != rule.name@,
            0 <= index_of_name(rv, rule.name@) <= rv.len(),
            index_of_name(rv, rule.name@) < rv.len() ==> rv[index_of_name(rv, rule.name@)].name
                == rule.name@,
            forall|j: int| 0 <= j < index_of_name(rv, rule.name@) ==> #[trigger] rv[j].name != rule.name@,
        decreases n - k,
    {
        if crate::text::str_eq(rules[k].name.as_str(), rule.name.as_str()) {
            assert(index_of_name(rv, rule.name@) == k) by {
                assert(rv[k as int].name == rule.name@);
                if index_of_name(rv, rule.name@) < k {
                    assert(rules@[index_of_name(rv, rule.name@)].name@ != rule.name@);
                    assert(rv[index_of_name(rv, rule.name@)] == rules@[index_of_name(
                        rv,
                        rule.name@,
                    )]@);
                }
            }
            let ghost rview = rule@;
            assert(rview.name == rule.name@);
            assert(insert_rule(rv, rview) == rv.update(k as int, rview));
            rules.set(k, rule);
            assert(rule_views(rules@) =~= rv.update(k as int, rview));
            return;
        }
        assert(rv[k as int].name == rules@[k as int].name@);
        k = k + 1;
    }
    assert(index_of_name(rv, rule.name@) == n) by {
        if index_of_name(rv, rule.name@) < n {
            assert(rules@[index_of_name(rv, rule.name@)].name@ != rule.name@);
            assert(rv[index_of_name(rv, rule.name@)] == rules@[index_of_name(rv, rule.name@)]@);
        }
    }
    rules.push(rule);
    assert(rule_views(rules@) =~= rv.push(rule@));
}

/// Extracts every `@keyframes` block from `css`.
///
/// Returns the parsed rules, the remaining CSS with the `@keyframes` blocks and
/// `@import` statements removed, and the warnings to report. Duplicate rule
/// names keep the last definition.
pub fn extract_keyframes(css: &str) -> (r: (Vec<KeyframesRule>, String, Vec<ExtractWarning>))
    ensures
        rule_views(r.0@) == extract_keyframes_spec(css@).rules,
        r.1@ == extract_keyframes_spec(css@).remaining,
        r.2@ == extract_keyframes_spec(css@).warnings,
{
    let s = chars_of(css);
    let len = s.len();
    let mut rules: Vec<KeyframesRule> = Vec::new();
    let mut remaining = String::new();
    let mut warnings: Vec<ExtractWarning> = Vec::new();
    let mut copy_from: usize = 0;
    let mut i: usize = 0;
    let ghost target = extract_keyframes_spec(s@);
    assert(rule_views(rules@) =~= Seq::<RuleView>::empty());
    while i < len
        invariant
            len == s@.len(),
            s@ == css@,
            0 <= copy_from <= i <= len,
            target == extract_keyframes_spec(s@),
            target == extract_scan(
                s@,
                i as int,
                copy_from as int,
                ExtractView { rules: rule_views(rules@), remaining: remaining@, warnings: warnings@ },
            ),
        decreases len - i,
    {
        if is_comment_at(s.as_slice(), i) {
            i = skip_comment(s.as_slice(), i);
        } else if s[i] == '"' || s[i] == '\'' {
            i = skip_string(s.as_slice(), i, s[i]);
        } else if s[i] == '@' && matches_keyword(s.as_slice(), i + 1, "keyframes") {
            proof {
                reveal_strlit("keyframes");
            }
            let chunk = string_of(s.as_slice(), copy_from, i);
            remaining.append(chunk.as_str());
            match parse_keyframes_block(s.as_slice(), i) {
                Some((rule, end)) => {
                    insert_last_wins(&mut rules, rule);
                    i = end;
                    copy_from = end;
                },
                None => {
                    warnings.push(ExtractWarning::UnterminatedKeyframes);
                    return (rules, remaining, warnings);
                },
            }
        } else if s[i] == '@' && matches_keyword(s.as_slice(), i + 1, "import") {
            let chunk = string_of(s.as_slice(), copy_from, i);
            remaining.append(chunk.as_str());
            warnings.push(ExtractWarning::ExternalCss);
            i = skip_at_statement(s.as_slice(), i);
            copy_from = i;
        } else {
            i = i + 1;
        }
    }
    if copy_from < len {
        let chunk = string_of(s.as_slice(), copy_from, len);
        remaining.append(chunk.as_str());
    }
    (rules, remaining, warnings)
}

/// Law: the rules that `extract_keyframes` returns have distinct names.
pub proof fn lemma_extracted_names_distinct(css: Seq<char>)
    ensures
        names_distinct(extract_keyframes_spec(css).rules),
{
    lemma_extract_scan_distinct(
        css,
        0,
        0,
        ExtractView { rules: Seq::empty(), remaining: Seq::empty(), warnings: Seq::empty() },
    );
}

proof fn lemma_extract_scan_distinct(s: Seq<char>, i: int, copy_from: int, acc: ExtractView)
    requires
        names_distinct(acc.rules),
    ensures
        names_distinct(extract_scan(s, i, copy_from, acc).rules),
    decreases s.len() - i,
{
    if i < 0 || i >= s.len() {
    } else if comment_at(s, i) {
        lemma_comment_end_bounds(s, i + 2);
        lemma_extract_scan_distinct(s, comment_end(s, i + 2), copy_from, acc);
    } else if is_quote(s[i]) {
        lemma_string_end_bounds(s, i + 1, s[i]);
        lemma_extract_scan_distinct(s, string_end(s, i + 1, s[i]), copy_from, acc);
    } else if s[i] == '@' && keyword_at(s, i + 1, "keyframes"@) {
        let remaining = acc.remaining + s.subrange(copy_from, i);
        match keyframes_block_spec(s, i) {
            Some((rule, end)) => {
                if i < end <= s.len() {
                    lemma_insert_rule(acc.rules, rule);
                    lemma_extract_scan_distinct(
                        s,
                        end,
                        end,
                        ExtractView {
                            rules: insert_rule(acc.rules, rule),
                            remaining: remaining,
                            ..acc
                        },
                    );
                }
            },
            None => {},
        }
    } else if s[i] == '@' && keyword_at(s, i + 1, "import"@) {
        let end = at_statement_end(s, i + 1);
        if i < end <= s.len() {
            lemma_extract_scan_distinct(
                s,
                end,
                end,
                ExtractView {
                    remaining: acc.remaining + s.subrange(copy_from, i),
                    warnings: acc.warnings.push(ExtractWarning::ExternalCss),
                    ..acc
                },
            );
        }
    } else {
        lemma_extract_scan_distinct(s, i + 1, copy_from, acc);
    }
}

/// Whether `s` has no `@`, so no at-rule.
pub open spec fn has_no_at_rule(s: Seq<char>) -> bool {
    forall|k: int| 0 <= k < s.len() ==> s[k] != '@'
}

proof fn lemma_scan_without_at_rules(s: Seq<char>, i: int, acc: ExtractView)
    requires
        has_no_at_rule(s),
        0 <= i,
    ensures
        extract_scan(s, i, 0, acc) == (ExtractView {
            remaining: if 0 < s.len() {
                acc.remaining + s
            } else {
                acc.remaining
            },
            ..acc
        }),
    decreases s.len() - i,
{
    if i >= s.len() {
        assert(s.subrange(0, s.len() as int) =~= s);
    } else if comment_at(s, i) {
        lemma_comment_end_bounds(s, i + 2);
        lemma_scan_without_at_rules(s, comment_end(s, i + 2), acc);
    } else if is_quote(s[i]) {
        lemma_string_end_bounds(s, i + 1, s[i]);
        lemma_scan_without_at_rules(s, string_end(s, i + 1, s[i]), acc);
    } else {
        assert(s[i] != '@');
        lemma_scan_without_at_rules(s, i + 1, acc);
    }
}

/// Law: a style sheet without at-rules passes through unchanged, with no
/// rules and no warnings.
pub proof fn lemma_plain_css_unchanged(css: Seq<char>)
    requires
        has_no_at_rule(css),
    ensures
        extract_keyframes_spec(css).remaining == css,
        extract_keyframes_spec(css).rules.len() == 0,
        extract_keyframes_spec(css).warnings.len() == 0,
{
    let acc = ExtractView { rules: Seq::empty(), remaining: Seq::empty(), warnings: Seq::empty() };
    lemma_scan_without_at_rules(css, 0, acc);
    if css.len() > 0 {
        assert(acc.remaining + css =~= css);
    } else {
        assert(css =~= Seq::<char>::empty());
    }
}


/// `idx` picks, in increasing order and below `bound`, the characters of `s`
/// that make up `r`.
pub open spec fn picks(idx: Seq<int>, r: Seq<char>, s: Seq<char>, bound: int) -> bool {
    &&& idx.len() == r.len()
    &&& forall|k: int| 0 <= k < idx.len() ==> 0 <= #[trigger] idx[k] < bound
    &&& forall|k: int| 0 <= k < idx.len() ==> r[k] == s[#[trigger] idx[k]]
    &&& forall|k: int, l: int| 0 <= k < l < idx.len() ==> #[trigger] idx[k] < #[trigger] idx[l]
}

/// `r` is `s` with some characters left out, the rest kept in their order.
pub open spec fn is_subsequence(r: Seq<char>, s: Seq<char>) -> bool {
    exists|idx: Seq<int>| picks(idx, r, s, s.len() as int)
}

proof fn lemma_picks_append(idx: Seq<int>, r: Seq<char>, s: Seq<char>, c: int, j: int)
    requires
        picks(idx, r, s, c),
        0 <= c <= j <= s.len(),
    ensures
        picks(idx + Seq::new((j - c) as nat, |t: int| c + t), r + s.subrange(c, j), s, j),
{
    let tail = Seq::new((j - c) as nat, |t: int| c + t);
    let idx2 = idx + tail;
    let r2 = r + s.subrange(c, j);
    assert forall|k: int| 0 <= k < idx2.len() implies r2[k] == s[#[trigger] idx2[k]] by {
        if k >= idx.len() {
            assert(idx2[k] == c + (k - idx.len()));
        }
    }
    assert forall|k: int, l: int| 0 <= k < l < idx2.len() implies #[trigger] idx2[k]
        < #[trigger] idx2[l] by {
        if l >= idx.len() {
            assert(idx2[l] == c + (l - idx.len()));
            if k < idx.len() {
                assert(idx2[k] == idx[k]);
            }
        }
    }
}

proof fn lemma_extract_scan_subsequence(s: Seq<char>, i: int, copy_from: int, acc: ExtractView)
    requires
        0 <= copy_from <= i,
        copy_from <= s.len(),
        exists|idx: Seq<int>| picks(idx, acc.remaining, s, copy_from),
    ensures
        is_subsequence(extract_scan(s, i, copy_from, acc).remaining, s),
    decreases s.len() - i,
{
    let idx = choose|idx: Seq<int>| picks(idx, acc.remaining, s, copy_from);
    if i >= s.len() {
        if copy_from < s.len() {
            lemma_picks_append(idx, acc.remaining, s, copy_from, s.len() as int);
        }
    } else if comment_at(s, i) {
        lemma_comment_end_bounds(s, i + 2);
        lemma_extract_scan_subsequence(s, comment_end(s, i + 2), copy_from, acc);
    } else if is_quote(s[i]) {
        lemma_string_end_bounds(s, i + 1, s[i]);
        lemma_extract_scan_subsequence(s, string_end(s, i + 1, s[i]), copy_from, acc);
    } else if s[i] == '@' && keyword_at(s, i + 1, "keyframes"@) {
        let remaining = acc.remaining + s.subrange(copy_from, i);
        lemma_picks_append(idx, acc.remaining, s, copy_from, i);
        match keyframes_block_spec(s, i) {
            Some((rule, end)) => {
                if i < end <= s.len() {
                    let next = ExtractView {
                        rules: insert_rule(acc.rules, rule),
                        remaining: remaining,
                        ..acc
                    };
                    let idx2 = idx + Seq::new((i - copy_from) as nat, |t: int| copy_from + t);
                    assert forall|k: int| 0 <= k < idx2.len() implies 0 <= #[trigger] idx2[k]
                        < end by {}
                    assert(picks(idx2, next.remaining, s, end));
                    lemma_extract_scan_subsequence(s, end, end, next);
                } else {
                    assert(picks(idx, acc.remaining, s, s.len() as int));
                }
            },
            None => {
                let idx2 = idx + Seq::new((i - copy_from) as nat, |t: int| copy_from + t);
                assert forall|k: int| 0 <= k < idx2.len() implies 0 <= #[trigger] idx2[k]
                    < s.len() by {}
                assert(picks(idx2, remaining, s, s.len() as int));
            },
        }
    } else if s[i] == '@' && keyword_at(s, i + 1, "import"@) {
        let end = at_statement_end(s, i + 1);
        if i < end <= s.len() {
            let next = ExtractView {
                remaining: acc.remaining + s.subrange(copy_from, i),
                warnings: acc.warnings.push(ExtractWarning::ExternalCss),
                ..acc
            };
            lemma_picks_append(idx, acc.remaining, s, copy_from, i);
            let idx2 = idx + Seq::new((i - copy_from) as nat, |t: int| copy_from + t);
            assert forall|k: int| 0 <= k < idx2.len() implies 0 <= #[trigger] idx2[k] < end by {}
            assert(picks(idx2, next.remaining, s, end));
            lemma_extract_scan_subsequence(s, end, end, next);
        } else {
            assert(picks(idx, acc.remaining, s, s.len() as int));
        }
    } else {
        lemma_extract_scan_subsequence(s, i + 1, copy_from, acc);
    }
}

/// Law: what `extract_keyframes` leaves of a style sheet is the style sheet
/// with some of its text taken out and the rest kept in order.
pub proof fn lemma_remaining_is_subsequence(css: Seq<char>)
    ensures
        is_subsequence(extract_keyframes_spec(css).remaining, css),
{
    let acc = ExtractView { rules: Seq::empty(), remaining: Seq::empty(), warnings: Seq::empty() };
    assert(picks(Seq::empty(), acc.remaining, css, 0));
    lemma_extract_scan_subsequence(css, 0, 0, acc);
}

} // verus!
