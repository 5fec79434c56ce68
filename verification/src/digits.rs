//! Decimal digit strings and their values.

use vstd::prelude::*;

verus! {

pub open spec fn is_digit(c: char) -> bool {
    '0' <= c <= '9'
}

pub open spec fn digit_val(c: char) -> nat {
    ((c as u32) - ('0' as u32)) as nat
}

pub open spec fn all_digits(s: Seq<char>) -> bool {
    forall|i: int| 0 <= i < s.len() ==> is_digit(#[trigger] s[i])
}

/// The number that the decimal digits `s` spell (0 for no digits).
pub open spec fn digits_value(s: Seq<char>) -> nat
    decreases s.len(),
{
    if s.len() == 0 {
        0
    } else {
        digits_value(s.drop_last()) * 10 + digit_val(s.last())
    }
}

pub open spec fn pow10(n: nat) -> nat
    decreases n,
{
    if n == 0 {
        1
    } else {
        10 * pow10((n - 1) as nat)
    }
}

/// `n` zero digits.
pub open spec fn zeros(n: nat) -> Seq<char> {
    Seq::new(n, |i: int| '0')
}

pub proof fn lemma_pow10_positive(n: nat)
    ensures
        pow10(n) >= 1,
    decreases n,
{
    if n > 0 {
        lemma_pow10_positive((n - 1) as nat);
    }
}

pub proof fn lemma_pow10_add(a: nat, b: nat)
    ensures
        pow10(a + b) == pow10(a) * pow10(b),
    decreases a,
{
    if a > 0 {
        lemma_pow10_add((a - 1) as nat, b);
        assert(pow10(a + b) == 10 * pow10((a - 1 + b) as nat));
        assert(pow10(a) * pow10(b) == (10 * pow10((a - 1) as nat)) * pow10(b));
        assert((10 * pow10((a - 1) as nat)) * pow10(b) == 10 * (pow10((a - 1) as nat) * pow10(b)))
            by (nonlinear_arith);
    } else {
        assert(pow10(0) == 1);
        assert(1 * pow10(b) == pow10(b));
    }
}

pub proof fn lemma_pow10_le(a: nat, b: nat)
    requires
        a <= b,
    ensures
        pow10(a) <= pow10(b),
    decreases b,
{
    if a < b {
        lemma_pow10_le(a, (b - 1) as nat);
        lemma_pow10_positive((b - 1) as nat);
    }
}

/// Digit strings are below the next power of ten.
pub proof fn lemma_digits_value_lt(s: Seq<char>)
    requires
        all_digits(s),
    ensures
        digits_value(s) < pow10(s.len()),
    decreases s.len(),
{
    if s.len() > 0 {
        assert(is_digit(s[s.len() - 1]));
        let p = s.drop_last();
        assert(all_digits(p)) by {
            assert forall|i: int| 0 <= i < p.len() implies is_digit(#[trigger] p[i]) by {
                assert(p[i] == s[i]);
            }
        }
        lemma_digits_value_lt(p);
        let x = digits_value(p);
        let d = digit_val(s.last());
        let y = pow10(p.len());
        assert(d <= 9);
        assert(x + 1 <= y);
        assert(x * 10 + d < y * 10) by (nonlinear_arith)
            requires
                x + 1 <= y,
                d <= 9,
        ;
    }
}

/// Digit strings that start with a non-zero digit are at least the matching power of ten.
pub proof fn lemma_digits_value_ge(s: Seq<char>)
    requires
        all_digits(s),
        s.len() >= 1,
        s[0] != '0',
    ensures
        digits_value(s) >= pow10((s.len() - 1) as nat),
    decreases s.len(),
{
    if s.len() == 1 {
        assert(s.drop_last().len() == 0);
    } else {
        let p = s.drop_last();
        assert(all_digits(p)) by {
            assert forall|i: int| 0 <= i < p.len() implies is_digit(#[trigger] p[i]) by {
                assert(p[i] == s[i]);
            }
        }
        assert(p[0] == s[0]);
        lemma_digits_value_ge(p);
        let x = digits_value(p);
        assert(pow10((s.len() - 1) as nat) == 10 * pow10((p.len() - 1) as nat));
    }
}

/// Concatenating digit strings shifts the first by the length of the second.
pub proof fn lemma_digits_value_concat(a: Seq<char>, b: Seq<char>)
    ensures
        digits_value(a + b) == digits_value(a) * pow10(b.len()) + digits_value(b),
    decreases b.len(),
{
    if b.len() == 0 {
        assert(a + b =~= a);
        assert(pow10(0) == 1);
        assert(digits_value(b) == 0);
        assert(digits_value(a) * 1 == digits_value(a));
    } else {
        let b1 = b.drop_last();
        assert((a + b).drop_last() =~= a + b1);
        assert((a + b).last() == b.last());
        lemma_digits_value_concat(a, b1);
        let x = digits_value(a);
        let y = digits_value(b1);
        let p = pow10(b1.len());
        let d = digit_val(b.last());
        assert(pow10(b.len()) == 10 * p);
        assert((x * p + y) * 10 + d == x * (10 * p) + (y * 10 + d)) by (nonlinear_arith);
    }
}

/// Trailing zeros multiply by a power of ten.
pub proof fn lemma_digits_value_zeros(a: Seq<char>, n: nat)
    ensures
        digits_value(a + zeros(n)) == digits_value(a) * pow10(n),
{
    lemma_digits_value_concat(a, zeros(n));
    lemma_digits_value_all_zero(zeros(n));
}

pub proof fn lemma_digits_value_all_zero(s: Seq<char>)
    requires
        forall|i: int| 0 <= i < s.len() ==> s[i] == '0',
    ensures
        digits_value(s) == 0,
    decreases s.len(),
{
    if s.len() > 0 {
        assert(s[s.len() - 1] == '0');
        let p = s.drop_last();
        assert forall|i: int| 0 <= i < p.len() implies p[i] == '0' by {
            assert(p[i] == s[i]);
        }
        lemma_digits_value_all_zero(p);
    }
}

/// Leading zeros do not change the value.
pub proof fn lemma_digits_value_leading_zeros(s: Seq<char>, z: int)
    requires
        0 <= z <= s.len(),
        forall|i: int| 0 <= i < z ==> s[i] == '0',
    ensures
        digits_value(s) == digits_value(s.subrange(z, s.len() as int)),
{
    let a = s.subrange(0, z);
    let b = s.subrange(z, s.len() as int);
    assert(s =~= a + b);
    lemma_digits_value_concat(a, b);
    assert forall|i: int| 0 <= i < a.len() implies a[i] == '0' by {
        assert(a[i] == s[i]);
    }
    lemma_digits_value_all_zero(a);
}

/// Equal-length digit strings compare like their first differing digit.
pub proof fn lemma_digits_lex(a: Seq<char>, b: Seq<char>, k: int)
    requires
        all_digits(a),
        all_digits(b),
        a.len() == b.len(),
        0 <= k < a.len(),
        a.subrange(0, k) == b.subrange(0, k),
        digit_val(a[k]) < digit_val(b[k]),
    ensures
        digits_value(a) < digits_value(b),
{
    let n = a.len();
    let r = (n - k - 1) as nat;
    let a1 = a.subrange(0, k + 1);
    let a2 = a.subrange(k + 1, n as int);
    let b1 = b.subrange(0, k + 1);
    let b2 = b.subrange(k + 1, n as int);
    assert(a =~= a1 + a2);
    assert(b =~= b1 + b2);
    lemma_digits_value_concat(a1, a2);
    lemma_digits_value_concat(b1, b2);
    assert(all_digits(a2)) by {
        assert forall|i: int| 0 <= i < a2.len() implies is_digit(#[trigger] a2[i]) by {
            assert(a2[i] == a[k + 1 + i]);
        }
    }
    lemma_digits_value_lt(a2);
    assert(a1.drop_last() =~= a.subrange(0, k));
    assert(b1.drop_last() =~= b.subrange(0, k));
    let p = digits_value(a.subrange(0, k));
    let da = digit_val(a[k]);
    let db = digit_val(b[k]);
    assert(digits_value(a1) == p * 10 + da);
    assert(digits_value(b1) == p * 10 + db);
    let q = pow10(r);
    let x = digits_value(a2);
    let y = digits_value(b2);
    assert(a2.len() == r);
    assert((p * 10 + da) * q + x < (p * 10 + db) * q + y) by (nonlinear_arith)
        requires
            x < q,
            da + 1 <= db,
            y >= 0,
    ;
}

/// `m * 10^e < t * 10^f`, with both sides scaled to integers.
pub open spec fn scaled_lt(m: nat, e: int, t: nat, f: int) -> bool {
    if e >= f {
        m * pow10((e - f) as nat) < t
    } else {
        m < t * pow10((f - e) as nat)
    }
}

/// `m * 10^e <= t * 10^f`, with both sides scaled to integers.
pub open spec fn scaled_le(m: nat, e: int, t: nat, f: int) -> bool {
    if e >= f {
        m * pow10((e - f) as nat) <= t
    } else {
        m <= t * pow10((f - e) as nat)
    }
}

/// Digit strings without a leading zero.
pub open spec fn normalized(s: Seq<char>) -> bool {
    all_digits(s) && s.len() >= 1 && s[0] != '0'
}

/// Compares `digits_value(d) * 10^e` with `digits_value(c) * 10^f`.
///
/// Returns `-1`, `0` or `1` for less, equal and greater.
pub fn compare_scaled(d: &[char], e: i128, c: &[char], f: i128) -> (r: i8)
    requires
        normalized(d@),
        normalized(c@),
        -0x1_0000_0000_0000_0000_0000i128 <= e <= 0x1_0000_0000_0000_0000_0000i128,
        -0x1_0000_0000_0000_0000_0000i128 <= f <= 0x1_0000_0000_0000_0000_0000i128,
    ensures
        r == -1 || r == 0 || r == 1,
        (r <= 0) == scaled_le(digits_value(d@), e as int, digits_value(c@), f as int),
        (r < 0) == scaled_lt(digits_value(d@), e as int, digits_value(c@), f as int),
{
    let ld: i128 = d.len() as i128 + e;
    let lc: i128 = c.len() as i128 + f;
    proof {
        lemma_digits_value_ge(d@);
        lemma_digits_value_lt(d@);
        lemma_digits_value_ge(c@);
        lemma_digits_value_lt(c@);
    }
    let ghost m = digits_value(d@);
    let ghost t = digits_value(c@);
    if ld < lc {
        proof {
            lemma_scaled_by_magnitude(m, d@.len() as nat, e as int, t, c@.len() as nat, f as int);
        }
        return -1;
    }
    if ld > lc {
        proof {
            lemma_scaled_by_magnitude(t, c@.len() as nat, f as int, m, d@.len() as nat, e as int);
        }
        return 1;
    }
    // Same magnitude: pad both to the same length and compare digit by digit.

    let n: usize = if d.len() >= c.len() {
        d.len()
    } else {
        c.len()
    };
    let mut i: usize = 0;
    let ghost dp = d@ + zeros((n - d@.len()) as nat);
    let ghost cp = c@ + zeros((n - c@.len()) as nat);
    proof {
        lemma_digits_value_zeros(d@, (n - d@.len()) as nat);
        lemma_digits_value_zeros(c@, (n - c@.len()) as nat);
        lemma_scaled_same_magnitude(m, d@.len() as nat, e as int, t, c@.len() as nat, f as int, n as nat);
        assert(all_digits(dp)) by {
            assert forall|j: int| 0 <= j < dp.len() implies is_digit(#[trigger] dp[j]) by {
                if j >= d@.len() {
                    assert(dp[j] == '0');
                } else {
                    assert(dp[j] == d@[j]);
                }
            }
        }
        assert(all_digits(cp)) by {
            assert forall|j: int| 0 <= j < cp.len() implies is_digit(#[trigger] cp[j]) by {
                if j >= c@.len() {
                    assert(cp[j] == '0');
                } else {
                    assert(cp[j] == c@[j]);
                }
            }
        }
    }
    while i < n
        invariant
            0 <= i <= n,
            n == dp.len(),
            n == cp.len(),
            n >= d@.len(),
            n >= c@.len(),
            dp == d@ + zeros((n - d@.len()) as nat),
            cp == c@ + zeros((n - c@.len()) as nat),
            dp.subrange(0, i as int) == cp.subrange(0, i as int),
            all_digits(dp),
            all_digits(cp),
            m == digits_value(d@),
            t == digits_value(c@),
            scaled_lt(m, e as int, t, f as int) == (digits_value(dp) < digits_value(cp)),
            scaled_le(m, e as int, t, f as int) == (digits_value(dp) <= digits_value(cp)),
        decreases n - i,
    {
        let a: char = if i < d.len() {
            d[i]
        } else {
            '0'
        };
        let b: char = if i < c.len() {
            c[i]
        } else {
            '0'
        };
        assert(a == dp[i as int]);
        assert(b == cp[i as int]);
        if a < b {
            proof {
                assert(digit_val(a) < digit_val(b));
                lemma_digits_lex(dp, cp, i as int);
            }
            return -1;
        }
        if a > b {
            proof {
                assert(digit_val(b) < digit_val(a));
                lemma_digits_lex(cp, dp, i as int);
            }
            return 1;
        }
        assert(dp.subrange(0, i + 1) =~= dp.subrange(0, i as int).push(a));
        assert(cp.subrange(0, i + 1) =~= cp.subrange(0, i as int).push(b));
        i = i + 1;
    }
    assert(dp =~= dp.subrange(0, n as int));
    assert(cp =~= cp.subrange(0, n as int));
    0
}

/// Different magnitudes decide the comparison.
pub proof fn lemma_scaled_by_magnitude(m: nat, n: nat, e: int, t: nat, nc: nat, f: int)
    requires
        n >= 1,
        nc >= 1,
        m < pow10(n),
        t >= pow10((nc - 1) as nat),
        n + e < nc + f,
    ensures
        scaled_lt(m, e, t, f),
        scaled_le(m, e, t, f),
        !scaled_le(t, f, m, e),
{
    assert(pow10(0) == 1);
    if e >= f {
        let k = (e - f) as nat;
        if e == f {
            assert(m * pow10(0) == m);
            assert(t * pow10(0) == t);
        }
        lemma_pow10_add(n, k);
        lemma_pow10_le(n + k, (nc - 1) as nat);
        assert(m * pow10(k) < pow10(n) * pow10(k)) by {
            lemma_pow10_positive(k);
            assert(m * pow10(k) < pow10(n) * pow10(k)) by (nonlinear_arith)
                requires
                    m < pow10(n),
                    pow10(k) >= 1,
            ;
        }
    } else {
        let k = (f - e) as nat;
        // m < 10^n <= 10^(nc - 1 + k) = 10^(nc-1) * 10^k <= t * 10^k
        lemma_pow10_le(n, (nc - 1 + k) as nat);
        lemma_pow10_add((nc - 1) as nat, k);
        lemma_pow10_positive(k);
        assert(pow10((nc - 1) as nat) * pow10(k) <= t * pow10(k)) by (nonlinear_arith)
            requires
                t >= pow10((nc - 1) as nat),
                pow10(k) >= 1,
        ;
    }
}

/// Equal magnitudes compare like the zero-padded digit strings.
pub proof fn lemma_scaled_same_magnitude(
    m: nat,
    n: nat,
    e: int,
    t: nat,
    nc: nat,
    f: int,
    w: nat,
)
    requires
        n + e == nc + f,
        w >= n,
        w >= nc,
    ensures
        scaled_lt(m, e, t, f) == (m * pow10((w - n) as nat) < t * pow10((w - nc) as nat)),
        scaled_le(m, e, t, f) == (m * pow10((w - n) as nat) <= t * pow10((w - nc) as nat)),
{
    // Both sides are multiplied by the same power of ten.
    if e >= f {
        let k = (e - f) as nat;
        assert(nc == n + k);
        let g = (w - nc) as nat;
        assert((w - n) as nat == k + g);
        lemma_pow10_add(k, g);
        lemma_pow10_positive(g);
        let pk = pow10(k);
        let pg = pow10(g);
        assert(m * (pk * pg) == (m * pk) * pg) by (nonlinear_arith);
        assert((m * pk < t) == ((m * pk) * pg < t * pg)) by (nonlinear_arith)
            requires
                pg >= 1,
        ;
        assert((m * pk <= t) == ((m * pk) * pg <= t * pg)) by (nonlinear_arith)
            requires
                pg >= 1,
        ;
    } else {
        let k = (f - e) as nat;
        assert(n == nc + k);
        let g = (w - n) as nat;
        assert((w - nc) as nat == k + g);
        lemma_pow10_add(k, g);
        lemma_pow10_positive(g);
        let pk = pow10(k);
        let pg = pow10(g);
        assert(t * (pk * pg) == (t * pk) * pg) by (nonlinear_arith);
        assert((m < t * pk) == (m * pg < (t * pk) * pg)) by (nonlinear_arith)
            requires
                pg >= 1,
        ;
        assert((m <= t * pk) == (m * pg <= (t * pk) * pg)) by (nonlinear_arith)
            requires
                pg >= 1,
        ;
    }
}

} // verus!
