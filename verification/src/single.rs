//! Single-precision numbers, by their bit patterns.
//!
//! Every finite one is a whole number of units of two to the power -149, which
//! is the smallest of them. In these units a number is exactly its significand,
//! of twenty-four bits, shifted to the left.

use vstd::prelude::*;
use crate::fixed;
use crate::fixed::Micro;
use crate::text;

verus! {

pub open spec fn exponent(bits: u32) -> int {
    (bits % 0x8000_0000 / 0x80_0000) as int
}

pub open spec fn fraction(bits: u32) -> int {
    (bits % 0x80_0000) as int
}

pub open spec fn is_nan(bits: u32) -> bool {
    exponent(bits) == 255 && fraction(bits) != 0
}

pub open spec fn is_negative(bits: u32) -> bool {
    bits >= 0x8000_0000
}

pub open spec fn significand(bits: u32) -> int {
    if exponent(bits) == 0 {
        fraction(bits)
    } else {
        0x80_0000 + fraction(bits)
    }
}

pub open spec fn shift(bits: u32) -> nat {
    if exponent(bits) == 0 {
        0
    } else {
        (exponent(bits) - 1) as nat
    }
}

/// The absolute value, in units. Infinity counts as two to the power 128, which
/// is beyond every finite number.
pub open spec fn magnitude(bits: u32) -> int {
    significand(bits) * text::two_to(shift(bits))
}

/// The number itself, in units.
pub open spec fn units(bits: u32) -> int {
    if is_negative(bits) {
        -magnitude(bits)
    } else {
        magnitude(bits)
    }
}

/// One, in units.
pub open spec fn one() -> int {
    text::two_to(149) as int
}

/// The single-precision number nearest to `n` units, in units; of two equally
/// near ones, the one with the even significand.
pub open spec fn nearest(n: int) -> int {
    let h = text::doublings(0x100_0000, n + 1);
    text::rounded(n, text::two_to(h) as int) * text::two_to(h)
}

pub proof fn lemma_one()
    ensures
        one() > 0,
{
    text::lemma_two_to_monotone(0, 149);
}

/// Rounding to single precision moves a number by one part in two to the power
/// twenty-four at the most.
pub proof fn lemma_nearest(n: int)
    requires
        0 <= n,
    ensures
        0x100_0000 * fixed::magnitude_of(nearest(n) - n) <= n,
        0 <= nearest(n),
{
    let c = 0x100_0000int;
    let h = text::doublings(c, n + 1);
    let two = text::two_to(h) as int;
    text::lemma_two_to_monotone(0, h);
    assert(n * 1 == n);
    if n < c {
        assert(h == 0);
        assert(text::rounded(n, 1) == n);
        assert(nearest(n) == n);
    } else {
        fixed::lemma_doubled(c, n + 1, h);
        assert(c * two == 2 * (0x80_0000 * two));
        assert(0x80_0000 * two <= n);
        fixed::lemma_rounded_near(n, two);
        let q = text::rounded(n, two);
        assert(0 <= n / two) by (nonlinear_arith)
            requires
                0 <= n,
                0 < two,
        ;
        assert(0 <= q * two) by (nonlinear_arith)
            requires
                0 <= q,
                0 < two,
        ;
    }
}

/// `doublings` is the least number of doublings that reaches `floor`.
proof fn lemma_doublings_least(num: int, floor: int, h: nat)
    requires
        0 < num,
        floor <= num * text::two_to(h),
        h > 0 ==> num * text::two_to((h - 1) as nat) < floor,
    ensures
        text::doublings(num, floor) == h,
    decreases h,
{
    if h == 0 {
        assert(num * text::two_to(0) == num) by (nonlinear_arith)
            requires
                text::two_to(0) == 1,
        ;
    } else {
        let g = (h - 1) as nat;
        text::lemma_two_to_monotone(0, g);
        assert(num <= num * text::two_to(g)) by (nonlinear_arith)
            requires
                0 < num,
                1 <= text::two_to(g),
        ;
        assert(2 * num * text::two_to(g) == num * text::two_to(h)) by (nonlinear_arith)
            requires
                text::two_to(h) == 2 * text::two_to(g),
        ;
        if g > 0 {
            let f = (g - 1) as nat;
            assert(2 * num * text::two_to(f) == num * text::two_to(g)) by (nonlinear_arith)
                requires
                    text::two_to(g) == 2 * text::two_to(f),
            ;
        }
        lemma_doublings_least(2 * num, floor, g);
    }
}

/// Rounding does not see a factor that both share.
proof fn lemma_rounded_times(a: int, b: int, c: int)
    requires
        0 <= a,
        0 < b,
        0 < c,
    ensures
        text::rounded(a * c, b * c) == text::rounded(a, b),
{
    let (q, r) = (a / b, a % b);
    assert(a == q * b + r && 0 <= r < b) by (nonlinear_arith)
        requires
            q == a / b,
            r == a % b,
            0 < b,
    ;
    assert(0 < b * c && 0 <= r * c < b * c && a * c == q * (b * c) + r * c) by (nonlinear_arith)
        requires
            a == q * b + r,
            0 <= r < b,
            0 < b,
            0 < c,
    ;
    let (x, d, y) = (a * c, b * c, r * c);
    assert(x / d == q && x % d == y) by (nonlinear_arith)
        requires
            x == q * d + y,
            0 <= y < d,
    ;
    assert(2 * r < b <==> 2 * (r * c) < b * c) by (nonlinear_arith)
        requires
            0 < c,
    ;
    assert(2 * r > b <==> 2 * (r * c) > b * c) by (nonlinear_arith)
        requires
            0 < c,
    ;
}

/// The same of rounding halves away from zero.
pub proof fn lemma_rounded_away_times(a: int, b: int, c: int)
    requires
        0 <= a,
        0 < b,
        0 < c,
    ensures
        fixed::rounded_away(a * c, b * c) == fixed::rounded_away(a, b),
{
    assert(0 <= a * c && 0 < b * c) by (nonlinear_arith)
        requires
            0 <= a,
            0 < b,
            0 < c,
    ;
    let (n, d) = (2 * a + b, 2 * b);
    assert(2 * (a * c) + b * c == n * c && 2 * (b * c) == d * c) by (nonlinear_arith)
        requires
            n == 2 * a + b,
            d == 2 * b,
    ;
    let q = n / d;
    assert((n * c) / (d * c) == q) by (nonlinear_arith)
        requires
            q == n / d,
            0 < d,
            0 <= n,
            0 < c,
    {
        let r = n - q * d;
        assert(0 <= r < d);
        assert(n * c == q * (d * c) + r * c);
        assert(0 <= r * c < d * c);
    }
}

pub proof fn lemma_two_to_sum(a: nat, b: nat)
    ensures
        text::two_to(a + b) == text::two_to(a) * text::two_to(b),
    decreases a,
{
    if a == 0 {
        assert(1 * text::two_to(b) == text::two_to(b));
    } else {
        let c = (a - 1) as nat;
        lemma_two_to_sum(c, b);
        assert((2 * text::two_to(c)) * text::two_to(b) == 2 * (text::two_to(c) * text::two_to(b)))
            by (nonlinear_arith);
    }
}

/// Rounding a number of `24 + s` bits, shifted to the left, drops `s` of them.
pub proof fn lemma_nearest_shifted(m: int, s: nat, k: nat)
    requires
        0x80_0000 * text::two_to(s) <= m < 0x100_0000 * text::two_to(s),
    ensures
        nearest(m * text::two_to(k)) == text::rounded(m, text::two_to(s) as int) * text::two_to(s)
            * text::two_to(k),
{
    let (ts, tk) = (text::two_to(s) as int, text::two_to(k) as int);
    let h = s + k;
    let n = m * tk;
    text::lemma_two_to_monotone(0, s);
    text::lemma_two_to_monotone(0, k);
    lemma_two_to_sum(s, k);
    assert(n + 1 <= 0x100_0000 * (ts * tk)) by (nonlinear_arith)
        requires
            n == m * tk,
            m + 1 <= 0x100_0000 * ts,
            1 <= tk,
    ;
    if h > 0 {
        let g = (h - 1) as nat;
        assert(0x100_0000 * text::two_to(g) == 0x80_0000 * (ts * tk));
        assert(0x80_0000 * (ts * tk) <= n) by (nonlinear_arith)
            requires
                n == m * tk,
                0x80_0000 * ts <= m,
                1 <= tk,
        ;
    }
    lemma_doublings_least(0x100_0000, n + 1, h);
    lemma_rounded_times(m, ts, tk);
    let q = text::rounded(m, ts);
    assert(q * (ts * tk) == q * ts * tk) by (nonlinear_arith);
}

/// A single-precision number is its own nearest.
pub proof fn lemma_nearest_exact(bits: u32)
    ensures
        nearest(magnitude(bits)) == magnitude(bits),
{
    let (m, k) = (significand(bits), shift(bits));
    if exponent(bits) == 0 {
        assert(m * text::two_to(0) == m) by (nonlinear_arith)
            requires
                text::two_to(0) == 1,
        ;
        assert(text::doublings(0x100_0000, m + 1) == 0);
        assert(text::rounded(m, 1) == m);
    } else {
        lemma_nearest_shifted(m, 0, k);
        assert(text::rounded(m, 1) == m);
    }
}

/// What the pattern of a setting stands for: the setting, as near as
/// twenty-four bits can tell, and exactly if it is a whole number of modest
/// size.
pub proof fn lemma_pattern(num: Micro)
    ensures
        f32_fits(num as int),
        ({
            let bits = fixed::f32_pattern(num as int) as u32;
            let mag = fixed::magnitude_of(num as int);
            &&& !is_nan(bits)
            &&& is_negative(bits) <==> num < 0
            &&& 0x100_0000 * fixed::magnitude_of(magnitude(bits) * fixed::ONE - mag * one()) <= mag
                * one()
            &&& mag % 1_000_000 == 0 && mag < 16_777_216_000_000 ==> magnitude(bits)
                * fixed::ONE == mag * one()
        }),
{
    let u = one();
    lemma_one();
    if num == 0 {
        assert(significand(0) == 0 && shift(0) == 0);
        assert(magnitude(0) == 0);
        assert(0 * u == 0);
        return ;
    }
    let mag = fixed::magnitude_of(num as int);
    let (s, h) = (fixed::f32_doublings(mag), fixed::f32_halvings(mag));
    let (ts, th) = (text::two_to(s) as int, text::two_to(h) as int);
    let (n, d) = (mag * ts, fixed::ONE * th);
    let m = fixed::f32_significand(mag);
    fixed::lemma_normal(mag);
    text::lemma_two_to_monotone(0, s);
    text::lemma_two_to_monotone(0, h);
    fixed::lemma_rounded_near(n, d);
    let bits = fixed::f32_pattern(num as int) as u32;
    lemma_pattern_magnitude(num);
    // magnitude * two^s == m * two^h * one
    let x = magnitude(bits);
    let diff = x * fixed::ONE - mag * u;
    assert(ts * diff == (m * d - n) * u) by (nonlinear_arith)
        requires
            x * ts == m * th * u,
            diff == x * fixed::ONE - mag * u,
            d == fixed::ONE * th,
            n == mag * ts,
    ;
    let off = m * d - n;
    assert(0x100_0000 * fixed::magnitude_of(diff) <= mag * u) by {
        let a = fixed::magnitude_of(diff);
        let b = fixed::magnitude_of(off);
        assert(ts * a == b * u) by (nonlinear_arith)
            requires
                ts * diff == off * u,
                a == if diff < 0 {
                    -diff
                } else {
                    diff
                },
                b == if off < 0 {
                    -off
                } else {
                    off
                },
                ts > 0,
                u > 0,
        ;
        assert(2 * b <= d);
        assert(0x100_0000 * a <= mag * u) by (nonlinear_arith)
            requires
                ts * a == b * u,
                2 * b <= d,
                d * 0x80_0000 <= mag * ts,
                u > 0,
                ts > 0,
        {
            assert(0x100_0000 * b <= mag * ts);
            assert(0x100_0000 * (ts * a) <= (mag * ts) * u);
            assert(ts * (0x100_0000 * a) <= ts * (mag * u));
        }
    }
    if mag % 1_000_000 == 0 && mag < 16_777_216_000_000 {
        let w = mag / 1_000_000;
        assert(n == (w * ts) * d) by (nonlinear_arith)
            requires
                n == mag * ts,
                mag == 1_000_000 * w,
                d == 1_000_000,
        ;
        let v = w * ts;
        assert(n / d == v && n % d == 0) by (nonlinear_arith)
            requires
                n == v * d,
                d > 0,
        ;
        assert(off == 0);
        assert(diff == 0) by (nonlinear_arith)
            requires
                ts * diff == 0,
                ts > 0,
        ;
    }
}

/// The pattern of a setting has thirty-two bits.
pub open spec fn f32_fits(num: int) -> bool {
    fixed::f32_pattern(num) < 0x1_0000_0000
}

proof fn lemma_pattern_magnitude(num: Micro)
    requires
        num != 0,
    ensures
        ({
            let bits = fixed::f32_pattern(num as int) as u32;
            let mag = fixed::magnitude_of(num as int);
            let (s, h) = (fixed::f32_doublings(mag), fixed::f32_halvings(mag));
            &&& f32_fits(num as int)
            &&& !is_nan(bits)
            &&& is_negative(bits) <==> num < 0
            &&& magnitude(bits) * text::two_to(s) == fixed::f32_significand(mag) * text::two_to(h)
                * one()
        }),
{
    let mag = fixed::magnitude_of(num as int);
    let (s, h) = (fixed::f32_doublings(mag), fixed::f32_halvings(mag));
    let m = fixed::f32_significand(mag);
    fixed::lemma_normal(mag);
    let pattern = fixed::f32_pattern(num as int);
    let low = (149 - s + h) * 0x80_0000 + m;
    assert(0 < low < 0x8000_0000);
    let bits = pattern as u32;
    assert(bits == if num < 0 {
        low + 0x8000_0000
    } else {
        low
    });
    assert(bits % 0x8000_0000 == low);
    assert(bits % 0x80_0000 == low % 0x80_0000);
    let k = (149 - s + h) as nat;
    let tk = text::two_to(k) as int;
    let (ts, th) = (text::two_to(s) as int, text::two_to(h) as int);
    lemma_two_to_sum(k, s);
    lemma_two_to_sum(149, h);
    assert(k + s == 149 + h);
    assert(tk * ts == one() * th);
    if m < 0x100_0000 {
        assert(exponent(bits) == 150 - s + h && fraction(bits) == m - 0x80_0000);
        assert(magnitude(bits) == m * tk);
    } else {
        assert(exponent(bits) == 151 - s + h && fraction(bits) == 0);
        let k2 = (k + 1) as nat;
        assert(text::two_to(k2) == 2 * tk);
        assert(magnitude(bits) == 0x80_0000 * text::two_to(k2));
        assert(magnitude(bits) == m * tk) by (nonlinear_arith)
            requires
                magnitude(bits) == 0x80_0000 * text::two_to(k2),
                text::two_to(k2) == 2 * tk,
                m == 0x100_0000,
        ;
    }
    assert(m * tk * ts == m * th * one()) by (nonlinear_arith)
        requires
            tk * ts == one() * th,
    ;
}

} // verus!
