//! Decimal floating-point literals as Rust's `f64`/`f32` `FromStr` reads them.
//!
//! The grammar accepted is `Sign? (inf | infinity | nan | Number)` with
//! `Number ::= (Digit+ | Digit+ '.' Digit* | Digit* '.' Digit+) Exp?` and
//! `Exp ::= ('e' | 'E') Sign? Digit+`. Parsing rounds to the nearest
//! representable value (ties to even), so a literal is finite exactly when its
//! decimal value is below the smallest magnitude that rounds to infinity.

use vstd::prelude::*;
use crate::digits::{
    all_digits, compare_scaled, digit_val, digits_value, is_digit, lemma_digits_value_concat,
    lemma_digits_value_ge, lemma_digits_value_leading_zeros, lemma_digits_value_lt,
    lemma_scaled_by_magnitude, normalized, pow10, scaled_le, scaled_lt,
};

use crate::text::{eq_ci, range_eq_ci_str};

verus! {

/// The digits of `2^1024 - 2^970`: every decimal value at or above it rounds to
/// `f64::INFINITY`, every value below it to a finite `f64`.
pub open spec fn f64_overflow_digits() -> Seq<char> {
    "179769313486231580793728971405303415079934132710037826936173778980444968292764750946649017977587207096330286416692887910946555547851940402630657488671505820681908902000708383676273854845817711531764475730270069855571366959622842914819860834936475292719074168444365510704342711559699508093042880177904174497792"@
}

/// The digits of `5^1075`; times `10^-1075` this is `2^-1075`, half the least
/// positive `f64`. Magnitudes at or below it round to zero.
pub open spec fn f64_half_min_digits() -> Seq<char> {
    "24703282292062327208828439643411068618252990130716238221279284125033775363510437593264991818081799618989828234772285886546332835517796989819938739800539093906315035659515570226392290858392449105184435931802849936536152500319370457678249219365623669863658480757001585769269903706311928279558551332927834338409351978015531246597263579574622766465272827220056374006485499977096599470454020828166226237857393450736339007967761930577506740176324673600968951340535537458516661134223766678604162159680461914467291840300530057530849048765391711386591646239524912623653881879636239373280423891018672348497668235089863388587925628302755995657524455507255189313690836254779186948667994968324049705821028513185451396213837722826145437693412532098591327667236328125"@
}

/// The digits of `2^128 - 2^103`, the `f32` counterpart of `f64_overflow_digits`.
pub open spec fn f32_overflow_digits() -> Seq<char> {
    "340282356779733661637539395458142568448"@
}

/// The digits of `5^150`; times `10^-150` this is `2^-150`, half the least
/// positive `f32`. Magnitudes at or below it round to zero.
pub open spec fn f32_half_min_digits() -> Seq<char> {
    "700649232162408535461864791644958065640130970938257885878534141944895541342930300743319094181060791015625"@
}

/// The digits of `5^24 * (2^24 + 1)`; times `10^-24` this is `1 + 2^-24`,
/// halfway between `1.0` and the next `f32`. Magnitudes at or below it round
/// to at most `1.0`.
pub open spec fn f32_one_bound_digits() -> Seq<char> {
    "1000000059604644775390625"@
}

pub proof fn lemma_f32_one_bound_normalized()
    ensures
        normalized(f32_one_bound_digits()),
        f32_one_bound_digits().len() == 25,
{
    reveal_strlit("1000000059604644775390625");
}

/// The digits of `5^25 * (2^25 - 1)`; times `10^-25` this is `1 - 2^-25`,
/// halfway between `1.0` and the `f32` below it. Magnitudes from it up to
/// `1 + 2^-24` round to exactly `1.0`.
pub open spec fn f32_one_lower_digits() -> Seq<char> {
    "9999999701976776123046875"@
}

pub proof fn lemma_f32_one_lower_normalized()
    ensures
        normalized(f32_one_lower_digits()),
        f32_one_lower_digits().len() == 25,
{
    reveal_strlit("9999999701976776123046875");
}

pub proof fn lemma_f32_half_min_normalized()
    ensures
        normalized(f32_half_min_digits()),
        f32_half_min_digits().len() == 105,
{
    reveal_strlit("700649232162408535461864791644958065640130970938257885878534141944895541342930300743319094181060791015625");
}

pub proof fn lemma_constants_normalized()
    ensures
        normalized(f64_overflow_digits()),
        normalized(f64_half_min_digits()),
        normalized(f32_overflow_digits()),
        f64_overflow_digits().len() == 309,
        f64_half_min_digits().len() == 752,
        f32_overflow_digits().len() == 39,
{
    reveal_strlit("179769313486231580793728971405303415079934132710037826936173778980444968292764750946649017977587207096330286416692887910946555547851940402630657488671505820681908902000708383676273854845817711531764475730270069855571366959622842914819860834936475292719074168444365510704342711559699508093042880177904174497792");
    reveal_strlit("24703282292062327208828439643411068618252990130716238221279284125033775363510437593264991818081799618989828234772285886546332835517796989819938739800539093906315035659515570226392290858392449105184435931802849936536152500319370457678249219365623669863658480757001585769269903706311928279558551332927834338409351978015531246597263579574622766465272827220056374006485499977096599470454020828166226237857393450736339007967761930577506740176324673600968951340535537458516661134223766678604162159680461914467291840300530057530849048765391711386591646239524912623653881879636239373280423891018672348497668235089863388587925628302755995657524455507255189313690836254779186948667994968324049705821028513185451396213837722826145437693412532098591327667236328125");
    reveal_strlit("340282356779733661637539395458142568448");
}

/// Index of the first `a` or `b` in `s`, or `s.len()`.
pub open spec fn first_index(s: Seq<char>, a: char, b: char) -> int
    decreases s.len(),
{
    if s.len() == 0 {
        0
    } else if s[0] == a || s[0] == b {
        0
    } else {
        1 + first_index(s.drop_first(), a, b)
    }
}

pub proof fn lemma_first_index(s: Seq<char>, a: char, b: char, k: int)
    requires
        0 <= k <= s.len(),
        forall|j: int| 0 <= j < k ==> s[j] != a && s[j] != b,
        k < s.len() ==> (s[k] == a || s[k] == b),
    ensures
        first_index(s, a, b) == k,
    decreases k,
{
    if k > 0 {
        assert(s[0] != a && s[0] != b);
        let t = s.drop_first();
        assert forall|j: int| 0 <= j < k - 1 implies t[j] != a && t[j] != b by {
            assert(t[j] == s[j + 1]);
        }
        if k < s.len() {
            assert(t[k - 1] == s[k]);
        }
        lemma_first_index(t, a, b, k - 1);
    }
}

/// Length of an optional leading `+` or `-`.
pub open spec fn sign_len(s: Seq<char>) -> int {
    if s.len() > 0 && (s[0] == '+' || s[0] == '-') {
        1
    } else {
        0
    }
}

/// Whether the literal carries a leading `-`.
pub open spec fn literal_negative(s: Seq<char>) -> bool {
    s.len() > 0 && s[0] == '-'
}

/// The literal without its sign.
pub open spec fn literal_body(s: Seq<char>) -> Seq<char> {
    s.subrange(sign_len(s), s.len() as int)
}

/// The part before the exponent marker.
pub open spec fn mantissa_text(s: Seq<char>) -> Seq<char> {
    let b = literal_body(s);
    b.subrange(0, first_index(b, 'e', 'E'))
}

/// Whether an exponent marker is present.
pub open spec fn has_exponent(s: Seq<char>) -> bool {
    let b = literal_body(s);
    first_index(b, 'e', 'E') < b.len()
}

/// The text after the exponent marker (empty when there is none).
pub open spec fn exponent_text(s: Seq<char>) -> Seq<char> {
    let b = literal_body(s);
    if has_exponent(s) {
        b.subrange(first_index(b, 'e', 'E') + 1, b.len() as int)
    } else {
        Seq::empty()
    }
}

/// The integer digits of the mantissa.
pub open spec fn int_text(s: Seq<char>) -> Seq<char> {
    let m = mantissa_text(s);
    m.subrange(0, first_index(m, '.', '.'))
}

/// The fractional digits of the mantissa (empty without a `.`).
pub open spec fn frac_text(s: Seq<char>) -> Seq<char> {
    let m = mantissa_text(s);
    let d = first_index(m, '.', '.');
    if d < m.len() {
        m.subrange(d + 1, m.len() as int)
    } else {
        Seq::empty()
    }
}

/// Whether the exponent is negative.
pub open spec fn exponent_negative(s: Seq<char>) -> bool {
    let x = exponent_text(s);
    x.len() > 0 && x[0] == '-'
}

/// The exponent's digits.
pub open spec fn exponent_digits(s: Seq<char>) -> Seq<char> {
    let x = exponent_text(s);
    x.subrange(sign_len(x), x.len() as int)
}

/// Whether `s` is a decimal literal of the float grammar (not `inf`/`nan`).
pub open spec fn decimal_literal(s: Seq<char>) -> bool {
    &&& all_digits(int_text(s))
    &&& all_digits(frac_text(s))
    &&& int_text(s).len() + frac_text(s).len() >= 1
    &&& has_exponent(s) ==> (exponent_digits(s).len() >= 1 && all_digits(exponent_digits(s)))
}

/// The literal's digits as one integer.
pub open spec fn literal_mantissa(s: Seq<char>) -> nat {
    digits_value(int_text(s) + frac_text(s))
}

/// The power of ten that scales `literal_mantissa`.
pub open spec fn literal_exponent(s: Seq<char>) -> int {
    let e = digits_value(exponent_digits(s)) as int;
    (if exponent_negative(s) {
        -e
    } else {
        e
    }) - frac_text(s).len()
}

/// `s.parse::<f64>()` succeeds with a finite value.
///
/// `inf`, `infinity` and `nan` parse but are not finite, so only decimal
/// literals below the overflow bound qualify.
pub open spec fn f64_finite(s: Seq<char>) -> bool {
    decimal_literal(s) && scaled_lt(
        literal_mantissa(s),
        literal_exponent(s),
        digits_value(f64_overflow_digits()),
        0,
    )
}

/// `s.parse::<f32>()` succeeds with a finite value.
pub open spec fn f32_finite(s: Seq<char>) -> bool {
    decimal_literal(s) && scaled_lt(
        literal_mantissa(s),
        literal_exponent(s),
        digits_value(f32_overflow_digits()),
        0,
    )
}

/// `s.parse::<f64>()` gives a finite value `v` with `v >= 0.0`.
///
/// A negative literal qualifies when it rounds to `-0.0`.
pub open spec fn f64_finite_non_negative(s: Seq<char>) -> bool {
    f64_finite(s) && (!literal_negative(s) || scaled_le(
        literal_mantissa(s),
        literal_exponent(s),
        digits_value(f64_half_min_digits()),
        -1075,
    ))
}

/// `s.parse::<f32>()` gives a finite value `v` with `v >= 0.0`.
///
/// A negative literal qualifies when it rounds to `-0.0`.
pub open spec fn f32_finite_non_negative(s: Seq<char>) -> bool {
    f32_finite(s) && (!literal_negative(s) || scaled_le(
        literal_mantissa(s),
        literal_exponent(s),
        digits_value(f32_half_min_digits()),
        -150,
    ))
}

/// `s.parse::<f32>()` gives a finite value `v` with `v > 0.0`: a literal
/// without a minus sign that does not round to zero.
pub open spec fn f32_finite_positive(s: Seq<char>) -> bool {
    f32_finite(s) && !literal_negative(s) && !scaled_le(
        literal_mantissa(s),
        literal_exponent(s),
        digits_value(f32_half_min_digits()),
        -150,
    )
}

/// `inf`, `infinity` or `nan`, in any case, after an optional sign.
pub open spec fn special_float(s: Seq<char>) -> bool {
    let b = literal_body(s);
    eq_ci(b, "inf"@) || eq_ci(b, "infinity"@) || eq_ci(b, "nan"@)
}

/// `s.parse::<f32>()` succeeds (possibly with an infinite or NaN value).
pub open spec fn f32_parses(s: Seq<char>) -> bool {
    decimal_literal(s) || special_float(s)
}

/// `s.parse::<f32>()` gives a finite value in `0.0..=1.0`.
pub open spec fn f32_unit(s: Seq<char>) -> bool {
    f32_finite_non_negative(s) && scaled_le(
        literal_mantissa(s),
        literal_exponent(s),
        digits_value(f32_one_bound_digits()),
        -24,
    )
}

/// `s.parse::<f32>()` gives `0.0` or `-0.0`.
pub open spec fn f32_rounds_to_zero(s: Seq<char>) -> bool {
    f32_finite(s) && scaled_le(
        literal_mantissa(s),
        literal_exponent(s),
        digits_value(f32_half_min_digits()),
        -150,
    )
}

/// `s.parse::<f32>()` gives exactly `1.0`.
pub open spec fn f32_rounds_to_one(s: Seq<char>) -> bool {
    &&& f32_finite(s)
    &&& !literal_negative(s)
    &&& !scaled_lt(literal_mantissa(s), literal_exponent(s), digits_value(f32_one_lower_digits()), -25)
    &&& scaled_le(literal_mantissa(s), literal_exponent(s), digits_value(f32_one_bound_digits()), -24)
}

/// Positions of the pieces of a decimal literal inside a larger text.
pub struct LiteralParts {
    pub negative: bool,
    pub int_lo: usize,
    pub int_hi: usize,
    pub frac_lo: usize,
    pub frac_hi: usize,
    pub exp_negative: bool,
    pub exp_lo: usize,
    pub exp_hi: usize,
}

pub open spec fn parts_match(p: LiteralParts, text: Seq<char>, lo: int, hi: int) -> bool {
    let s = text.subrange(lo, hi);
    &&& lo <= p.int_lo <= p.int_hi <= hi
    &&& lo <= p.frac_lo <= p.frac_hi <= hi
    &&& lo <= p.exp_lo <= p.exp_hi <= hi
    &&& p.negative == literal_negative(s)
    &&& text.subrange(p.int_lo as int, p.int_hi as int) == int_text(s)
    &&& text.subrange(p.frac_lo as int, p.frac_hi as int) == frac_text(s)
    &&& text.subrange(p.exp_lo as int, p.exp_hi as int) == exponent_digits(s)
    &&& p.exp_negative == exponent_negative(s)
}

/// Finds the first `a` or `b` in `text[lo..hi]`.
pub fn find_first(text: &[char], lo: usize, hi: usize, a: char, b: char) -> (k: usize)
    requires
        lo <= hi <= text@.len(),
    ensures
        lo <= k <= hi,
        k - lo == first_index(text@.subrange(lo as int, hi as int), a, b),
{
    let mut i = lo;
    while i < hi && text[i] != a && text[i] != b
        invariant
            lo <= i <= hi <= text@.len(),
            forall|j: int| lo <= j < i ==> text@[j] != a && text@[j] != b,
        decreases hi - i,
    {
        i = i + 1;
    }
    proof {
        let s = text@.subrange(lo as int, hi as int);
        assert forall|j: int| 0 <= j < i - lo implies s[j] != a && s[j] != b by {
            assert(s[j] == text@[lo + j]);
        }
        lemma_first_index(s, a, b, i - lo);
    }
    i
}

/// Whether every character of `text[lo..hi]` is a decimal digit.
pub fn range_all_digits(text: &[char], lo: usize, hi: usize) -> (r: bool)
    requires
        lo <= hi <= text@.len(),
    ensures
        r == all_digits(text@.subrange(lo as int, hi as int)),
{
    let mut i = lo;
    while i < hi
        invariant
            lo <= i <= hi <= text@.len(),
            forall|j: int| lo <= j < i ==> is_digit(#[trigger] text@[j]),
        decreases hi - i,
    {
        if !('0' <= text[i] && text[i] <= '9') {
            assert(text@.subrange(lo as int, hi as int)[i - lo] == text@[i as int]);
            return false;
        }
        i = i + 1;
    }
    assert forall|j: int| 0 <= j < hi - lo implies is_digit(
        #[trigger] text@.subrange(lo as int, hi as int)[j],
    ) by {
        assert(text@.subrange(lo as int, hi as int)[j] == text@[lo + j]);
    }
    true
}

/// Splits `text[lo..hi]` into the pieces of a decimal float literal.
pub fn literal_parts(text: &[char], lo: usize, hi: usize) -> (r: Option<LiteralParts>)
    requires
        lo <= hi <= text@.len(),
    ensures
        r is Some <==> decimal_literal(text@.subrange(lo as int, hi as int)),
        r matches Some(p) ==> parts_match(p, text@, lo as int, hi as int),
{
    let ghost s = text@.subrange(lo as int, hi as int);
    let negative = lo < hi && text[lo] == '-';
    let blo: usize = if lo < hi && (text[lo] == '+' || text[lo] == '-') {
        lo + 1
    } else {
        lo
    };
    let ghost b = literal_body(s);
    assert(b =~= text@.subrange(blo as int, hi as int));
    let ep = find_first(text, blo, hi, 'e', 'E');
    let ghost m = mantissa_text(s);
    assert(m =~= text@.subrange(blo as int, ep as int));
    let dp = find_first(text, blo, ep, '.', '.');
    let int_lo = blo;
    let int_hi = dp;
    let frac_lo: usize = if dp < ep {
        dp + 1
    } else {
        ep
    };
    let frac_hi = ep;
    assert(text@.subrange(int_lo as int, int_hi as int) =~= int_text(s));
    assert(text@.subrange(frac_lo as int, frac_hi as int) =~= frac_text(s));
    let has_exp = ep < hi;
    let xlo: usize = if has_exp {
        ep + 1
    } else {
        hi
    };
    let ghost x = exponent_text(s);
    assert(x =~= text@.subrange(xlo as int, hi as int));
    let exp_negative = xlo < hi && text[xlo] == '-';
    let exp_lo: usize = if xlo < hi && (text[xlo] == '+' || text[xlo] == '-') {
        xlo + 1
    } else {
        xlo
    };
    let exp_hi = hi;
    assert(text@.subrange(exp_lo as int, exp_hi as int) =~= exponent_digits(s));
    if !range_all_digits(text, int_lo, int_hi) {
        return None;
    }
    if !range_all_digits(text, frac_lo, frac_hi) {
        return None;
    }
    if (int_hi - int_lo) + (frac_hi - frac_lo) == 0 {
        return None;
    }
    if has_exp {
        if exp_hi == exp_lo {
            return None;
        }
        if !range_all_digits(text, exp_lo, exp_hi) {
            return None;
        }
    }
    Some(
        LiteralParts {
            negative,
            int_lo,
            int_hi,
            frac_lo,
            frac_hi,
            exp_negative,
            exp_lo,
            exp_hi,
        },
    )
}

/// The bound above which exponents are treated as "huge": every text fits in
/// `usize`, so lengths never reach it.
pub open spec fn exponent_cap() -> int {
    0x4_0000_0000_0000_0000
}

/// `min(digits_value(text[lo..hi]), exponent_cap())`.
fn capped_value(text: &[char], lo: usize, hi: usize) -> (v: i128)
    requires
        lo <= hi <= text@.len(),
        all_digits(text@.subrange(lo as int, hi as int)),
    ensures
        v as int == if digits_value(text@.subrange(lo as int, hi as int)) >= exponent_cap() {
            exponent_cap()
        } else {
            digits_value(text@.subrange(lo as int, hi as int)) as int
        },
{
    let cap: i128 = 0x4_0000_0000_0000_0000;
    let mut v: i128 = 0;
    let mut i = lo;
    while i < hi
        invariant
            lo <= i <= hi <= text@.len(),
            all_digits(text@.subrange(lo as int, hi as int)),
            cap == exponent_cap(),
            v as int == if digits_value(text@.subrange(lo as int, i as int)) >= exponent_cap() {
                exponent_cap()
            } else {
                digits_value(text@.subrange(lo as int, i as int)) as int
            },
        decreases hi - i,
    {
        let ghost prev = text@.subrange(lo as int, i as int);
        let ghost next = text@.subrange(lo as int, i + 1);
        assert(next.drop_last() =~= prev);
        assert(next.last() == text@[i as int]);
        assert(is_digit(text@.subrange(lo as int, hi as int)[i - lo]));
        assert(text@.subrange(lo as int, hi as int)[i - lo] == text@[i as int]);
        let d: i128 = (text[i] as u32 - '0' as u32) as i128;
        assert(d as nat == digit_val(text@[i as int]));
        if v < cap {
            v = v * 10 + d;
            if v > cap {
                v = cap;
            }
        }
        i = i + 1;
    }
    assert(text@.subrange(lo as int, hi as int) =~= text@.subrange(lo as int, i as int));
    v
}

/// Compares the value of a decimal literal with `digits_value(c) * 10^f`.
///
/// Returns `-1`, `0` or `1` for less, equal and greater.
pub fn compare_literal(text: &[char], lo: usize, hi: usize, p: &LiteralParts, c: &[char], f: i128) -> (r: i8)
    requires
        lo <= hi <= text@.len(),
        decimal_literal(text@.subrange(lo as int, hi as int)),
        parts_match(*p, text@, lo as int, hi as int),
        normalized(c@),
        c@.len() <= 1000,
        -2000 <= f <= 2000,
    ensures
        (r <= 0) == scaled_le(
            literal_mantissa(text@.subrange(lo as int, hi as int)),
            literal_exponent(text@.subrange(lo as int, hi as int)),
            digits_value(c@),
            f as int,
        ),
        (r < 0) == scaled_lt(
            literal_mantissa(text@.subrange(lo as int, hi as int)),
            literal_exponent(text@.subrange(lo as int, hi as int)),
            digits_value(c@),
            f as int,
        ),
{
    let ghost s = text@.subrange(lo as int, hi as int);
    let ghost t = digits_value(c@);
    proof {
        lemma_digits_value_ge(c@);
        lemma_digits_value_lt(c@);
        assert(pow10(0) == 1);
    }
    // The mantissa digits, integer part then fraction.
    let mut all: Vec<char> = Vec::new();
    let mut i = p.int_lo;
    while i < p.int_hi
        invariant
            p.int_lo <= i <= p.int_hi <= text@.len(),
            all@ == text@.subrange(p.int_lo as int, i as int),
        decreases p.int_hi - i,
    {
        all.push(text[i]);
        assert(all@ =~= text@.subrange(p.int_lo as int, i + 1));
        i = i + 1;
    }
    let mut j = p.frac_lo;
    while j < p.frac_hi
        invariant
            p.frac_lo <= j <= p.frac_hi <= text@.len(),
            p.int_lo <= p.int_hi <= text@.len(),
            all@ == text@.subrange(p.int_lo as int, p.int_hi as int) + text@.subrange(
                p.frac_lo as int,
                j as int,
            ),
        decreases p.frac_hi - j,
    {
        all.push(text[j]);
        assert(all@ =~= text@.subrange(p.int_lo as int, p.int_hi as int) + text@.subrange(
            p.frac_lo as int,
            j + 1,
        ));
        j = j + 1;
    }
    assert(all@ == int_text(s) + frac_text(s));
    let ghost m = literal_mantissa(s);
    assert(all_digits(all@)) by {
        assert forall|k: int| 0 <= k < all@.len() implies is_digit(#[trigger] all@[k]) by {
            if k < int_text(s).len() {
                assert(all@[k] == int_text(s)[k]);
            } else {
                assert(all@[k] == frac_text(s)[k - int_text(s).len()]);
            }
        }
    }
    // Skip leading zeros.
    let mut z: usize = 0;
    while z < all.len() && all[z] == '0'
        invariant
            0 <= z <= all@.len(),
            forall|k: int| 0 <= k < z ==> all@[k] == '0',
        decreases all.len() - z,
    {
        z = z + 1;
    }
    proof {
        lemma_digits_value_leading_zeros(all@, z as int);
    }
    let frac_len: i128 = (p.frac_hi - p.frac_lo) as i128;
    let ghost e = literal_exponent(s);
    if z == all.len() {
        // The literal is zero.
        proof {
            assert(all@.subrange(z as int, all@.len() as int).len() == 0);
            assert(m == 0);
            if e >= f {
                assert(0 * pow10((e - f) as nat) == 0);
            } else {
                crate::digits::lemma_pow10_positive((f - e) as nat);
                assert(t * pow10((f - e) as nat) >= 1) by (nonlinear_arith)
                    requires
                        t >= 1,
                        pow10((f - e) as nat) >= 1,
                ;
            }
        }
        return -1;
    }
    let mut sig: Vec<char> = Vec::new();
    let mut k = z;
    while k < all.len()
        invariant
            z <= k <= all@.len(),
            sig@ == all@.subrange(z as int, k as int),
        decreases all.len() - k,
    {
        sig.push(all[k]);
        assert(sig@ =~= all@.subrange(z as int, k + 1));
        k = k + 1;
    }
    let n = sig.len();
    assert(sig@ =~= all@.subrange(z as int, all@.len() as int));
    assert(digits_value(sig@) == m);
    assert(normalized(sig@)) by {
        assert forall|q: int| 0 <= q < sig@.len() implies is_digit(#[trigger] sig@[q]) by {
            assert(sig@[q] == all@[z + q]);
        }
        assert(sig@[0] == all@[z as int]);
    }
    proof {
        lemma_digits_value_ge(sig@);
        lemma_digits_value_lt(sig@);
    }
    let xv = capped_value(text, p.exp_lo, p.exp_hi);
    let cap: i128 = 0x4_0000_0000_0000_0000;
    if xv >= cap {
        // The exponent's magnitude alone decides the comparison.
        if p.exp_negative {
            proof {
                assert(e <= -exponent_cap());
                lemma_scaled_by_magnitude(m, n as nat, e, t, c@.len() as nat, f as int);
            }
            return -1;
        } else {
            proof {
                assert(e >= exponent_cap() - frac_len);
                lemma_scaled_by_magnitude(t, c@.len() as nat, f as int, m, n as nat, e);
            }
            return 1;
        }
    }
    let ev: i128 = if p.exp_negative {
        -xv - frac_len
    } else {
        xv - frac_len
    };
    assert(ev as int == e);
    compare_scaled(sig.as_slice(), ev, c, f)
}

/// `text[lo..hi].parse::<f64>()` gives a finite value.
pub fn is_finite_f64(text: &[char], lo: usize, hi: usize) -> (r: bool)
    requires
        lo <= hi <= text@.len(),
    ensures
        r == f64_finite(text@.subrange(lo as int, hi as int)),
{
    match literal_parts(text, lo, hi) {
        None => false,
        Some(p) => {
            proof {
                lemma_constants_normalized();
            }
            let c = crate::text::chars_of("179769313486231580793728971405303415079934132710037826936173778980444968292764750946649017977587207096330286416692887910946555547851940402630657488671505820681908902000708383676273854845817711531764475730270069855571366959622842914819860834936475292719074168444365510704342711559699508093042880177904174497792");
            compare_literal(text, lo, hi, &p, c.as_slice(), 0) < 0
        },
    }
}

/// `text[lo..hi].parse::<f32>()` gives a finite value.
pub fn is_finite_f32(text: &[char], lo: usize, hi: usize) -> (r: bool)
    requires
        lo <= hi <= text@.len(),
    ensures
        r == f32_finite(text@.subrange(lo as int, hi as int)),
{
    match literal_parts(text, lo, hi) {
        None => false,
        Some(p) => {
            proof {
                lemma_constants_normalized();
            }
            let c = crate::text::chars_of("340282356779733661637539395458142568448");
            compare_literal(text, lo, hi, &p, c.as_slice(), 0) < 0
        },
    }
}

/// `text[lo..hi].parse::<f64>()` gives a finite value that is `>= 0.0`.
pub fn is_finite_non_negative_f64(text: &[char], lo: usize, hi: usize) -> (r: bool)
    requires
        lo <= hi <= text@.len(),
    ensures
        r == f64_finite_non_negative(text@.subrange(lo as int, hi as int)),
{
    match literal_parts(text, lo, hi) {
        None => false,
        Some(p) => {
            proof {
                lemma_constants_normalized();
            }
            let c = crate::text::chars_of("179769313486231580793728971405303415079934132710037826936173778980444968292764750946649017977587207096330286416692887910946555547851940402630657488671505820681908902000708383676273854845817711531764475730270069855571366959622842914819860834936475292719074168444365510704342711559699508093042880177904174497792");
            if compare_literal(text, lo, hi, &p, c.as_slice(), 0) >= 0 {
                return false;
            }
            if !p.negative {
                return true;
            }
            let h = crate::text::chars_of("24703282292062327208828439643411068618252990130716238221279284125033775363510437593264991818081799618989828234772285886546332835517796989819938739800539093906315035659515570226392290858392449105184435931802849936536152500319370457678249219365623669863658480757001585769269903706311928279558551332927834338409351978015531246597263579574622766465272827220056374006485499977096599470454020828166226237857393450736339007967761930577506740176324673600968951340535537458516661134223766678604162159680461914467291840300530057530849048765391711386591646239524912623653881879636239373280423891018672348497668235089863388587925628302755995657524455507255189313690836254779186948667994968324049705821028513185451396213837722826145437693412532098591327667236328125");
            compare_literal(text, lo, hi, &p, h.as_slice(), -1075) <= 0
        },
    }
}

/// `text[lo..hi].parse::<f32>()` gives a finite value that is `>= 0.0`.
pub fn is_finite_non_negative_f32(text: &[char], lo: usize, hi: usize) -> (r: bool)
    requires
        lo <= hi <= text@.len(),
    ensures
        r == f32_finite_non_negative(text@.subrange(lo as int, hi as int)),
{
    match literal_parts(text, lo, hi) {
        None => false,
        Some(p) => {
            proof {
                lemma_constants_normalized();
                lemma_f32_half_min_normalized();
            }
            let c = crate::text::chars_of("340282356779733661637539395458142568448");
            if compare_literal(text, lo, hi, &p, c.as_slice(), 0) >= 0 {
                return false;
            }
            if !p.negative {
                return true;
            }
            let h = crate::text::chars_of("700649232162408535461864791644958065640130970938257885878534141944895541342930300743319094181060791015625");
            compare_literal(text, lo, hi, &p, h.as_slice(), -150) <= 0
        },
    }
}

/// `text[lo..hi].parse::<f32>()` gives a finite value that is `> 0.0`.
pub fn is_finite_positive_f32(text: &[char], lo: usize, hi: usize) -> (r: bool)
    requires
        lo <= hi <= text@.len(),
    ensures
        r == f32_finite_positive(text@.subrange(lo as int, hi as int)),
{
    match literal_parts(text, lo, hi) {
        None => false,
        Some(p) => {
            proof {
                lemma_constants_normalized();
                lemma_f32_half_min_normalized();
            }
            let c = crate::text::chars_of("340282356779733661637539395458142568448");
            if compare_literal(text, lo, hi, &p, c.as_slice(), 0) >= 0 {
                return false;
            }
            if p.negative {
                return false;
            }
            let h = crate::text::chars_of("700649232162408535461864791644958065640130970938257885878534141944895541342930300743319094181060791015625");
            compare_literal(text, lo, hi, &p, h.as_slice(), -150) > 0
        },
    }
}

/// `text[lo..hi].parse::<f32>()` succeeds.
pub fn parses_f32(text: &[char], lo: usize, hi: usize) -> (r: bool)
    requires
        lo <= hi <= text@.len(),
    ensures
        r == f32_parses(text@.subrange(lo as int, hi as int)),
{
    let ghost s = text@.subrange(lo as int, hi as int);
    if literal_parts(text, lo, hi).is_some() {
        return true;
    }
    let b: usize = if lo < hi && (text[lo] == '+' || text[lo] == '-') {
        lo + 1
    } else {
        lo
    };
    assert(text@.subrange(b as int, hi as int) =~= literal_body(s));
    range_eq_ci_str(text, b, hi, "inf") || range_eq_ci_str(text, b, hi, "infinity")
        || range_eq_ci_str(text, b, hi, "nan")
}

/// `text[lo..hi].parse::<f32>()` gives a finite value in `0.0..=1.0`.
pub fn is_unit_f32(text: &[char], lo: usize, hi: usize) -> (r: bool)
    requires
        lo <= hi <= text@.len(),
    ensures
        r == f32_unit(text@.subrange(lo as int, hi as int)),
{
    if !is_finite_non_negative_f32(text, lo, hi) {
        return false;
    }
    match literal_parts(text, lo, hi) {
        None => false,
        Some(p) => {
            proof {
                lemma_f32_one_bound_normalized();
            }
            let c = crate::text::chars_of("1000000059604644775390625");
            compare_literal(text, lo, hi, &p, c.as_slice(), -24) <= 0
        },
    }
}

/// `text[lo..hi].parse::<f32>()` gives `0.0` or `-0.0`.
pub fn rounds_to_zero_f32(text: &[char], lo: usize, hi: usize) -> (r: bool)
    requires
        lo <= hi <= text@.len(),
    ensures
        r == f32_rounds_to_zero(text@.subrange(lo as int, hi as int)),
{
    if !is_finite_f32(text, lo, hi) {
        return false;
    }
    match literal_parts(text, lo, hi) {
        None => false,
        Some(p) => {
            proof {
                lemma_f32_half_min_normalized();
            }
            let h = crate::text::chars_of("700649232162408535461864791644958065640130970938257885878534141944895541342930300743319094181060791015625");
            compare_literal(text, lo, hi, &p, h.as_slice(), -150) <= 0
        },
    }
}

/// `text[lo..hi].parse::<f32>()` gives exactly `1.0`.
pub fn rounds_to_one_f32(text: &[char], lo: usize, hi: usize) -> (r: bool)
    requires
        lo <= hi <= text@.len(),
    ensures
        r == f32_rounds_to_one(text@.subrange(lo as int, hi as int)),
{
    if !is_finite_f32(text, lo, hi) {
        return false;
    }
    match literal_parts(text, lo, hi) {
        None => false,
        Some(p) => {
            if p.negative {
                return false;
            }
            proof {
                lemma_f32_one_lower_normalized();
                lemma_f32_one_bound_normalized();
            }
            let below = crate::text::chars_of("9999999701976776123046875");
            if compare_literal(text, lo, hi, &p, below.as_slice(), -25) < 0 {
                return false;
            }
            let above = crate::text::chars_of("1000000059604644775390625");
            compare_literal(text, lo, hi, &p, above.as_slice(), -24) <= 0
        },
    }
}

} // verus!
