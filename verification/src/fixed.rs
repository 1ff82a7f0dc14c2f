//! Real-valued settings as whole numbers of millionths.

use vstd::prelude::*;
use crate::text;
use crate::text::{float_parts, halvings, round_quotient};

verus! {

/// A real value, in millionths.
pub type Micro = i64;

/// One, in millionths.
pub const ONE: i64 = 1_000_000;

pub open spec fn clamp_to(v: int, lo: int, hi: int) -> int {
    if v < lo {
        lo
    } else if v > hi {
        hi
    } else {
        v
    }
}

/// `value + delta`, moved into `lo ..= hi`.
pub fn nudged(value: Micro, delta: Micro, lo: Micro, hi: Micro) -> (r: Micro)
    requires
        lo <= value <= hi,
        -0x4000_0000_0000_0000 < lo,
        hi < 0x4000_0000_0000_0000,
    ensures
        r == clamp_to(value + delta, lo as int, hi as int),
        lo <= r <= hi,
{
    if delta > hi - value {
        hi
    } else if delta < lo - value {
        lo
    } else {
        value + delta
    }
}

/// The whole number nearest to `a / b`; of two equally near ones, the one
/// farther from zero.
pub open spec fn rounded_away(a: int, b: int) -> int {
    if a < 0 {
        -((2 * (-a) + b) / (2 * b))
    } else {
        (2 * a + b) / (2 * b)
    }
}

/// Rounding stays between whole numbers that the quotient lies between.
pub proof fn lemma_rounded_away(a: int, b: int, lo: int, hi: int)
    requires
        0 < b,
        0 <= lo,
        lo * b <= a <= hi * b,
    ensures
        lo <= rounded_away(a, b) <= hi,
        -hi <= rounded_away(-a, b) <= -lo,
{
    assert(0 <= a) by (nonlinear_arith)
        requires
            0 < b,
            0 <= lo,
            lo * b <= a,
    ;
    assert(lo <= (2 * a + b) / (2 * b) <= hi) by (nonlinear_arith)
        requires
            0 < b,
            lo * b <= a <= hi * b,
    ;
    if a == 0 {
        assert(b / (2 * b) == 0) by (nonlinear_arith)
            requires
                0 < b,
        ;
        assert(lo == 0) by (nonlinear_arith)
            requires
                lo * b <= 0,
                0 <= lo,
                0 < b,
        ;
    }
}

/// Rounds `a / b` to the nearest whole number, halves away from zero.
pub fn round_away(a: i64, b: i64) -> (r: i64)
    requires
        0 < b <= 0x1000_0000_0000_0000,
        -0x1000_0000_0000_0000 <= a <= 0x1000_0000_0000_0000,
    ensures
        r == rounded_away(a as int, b as int),
        -0x2000_0000_0000_0000 < r < 0x2000_0000_0000_0000,
{
    let magnitude: i64 = if a < 0 {
        -a
    } else {
        a
    };
    let q: i64 = (2 * magnitude + b) / (2 * b);
    proof {
        assert(0 <= q <= magnitude + 1) by (nonlinear_arith)
            requires
                q == (2 * magnitude + b) / (2 * b),
                0 < b,
                0 <= magnitude,
        ;
    }
    if a < 0 {
        -q
    } else {
        q
    }
}

/// How often a number of millionths is doubled to fill a significand of
/// twenty-four bits.
pub open spec fn f32_doublings(magnitude: int) -> nat {
    text::doublings(magnitude, ONE * text::two_to(23))
}

/// How often a number of millionths is halved to fit a significand of
/// twenty-four bits.
pub open spec fn f32_halvings(magnitude: int) -> nat {
    text::doublings(ONE * text::two_to(24), magnitude + 1)
}

/// The significand, of twenty-four bits, of the single-precision number nearest
/// to a positive number of millionths.
pub open spec fn f32_significand(magnitude: int) -> int {
    text::rounded(
        magnitude * text::two_to(f32_doublings(magnitude)),
        ONE * text::two_to(f32_halvings(magnitude)),
    )
}

pub open spec fn magnitude_of(num: int) -> int {
    if num < 0 {
        -num
    } else {
        num
    }
}

/// The bit pattern of the single-precision number nearest to `num` millionths.
pub open spec fn f32_pattern(num: int) -> nat {
    let magnitude = magnitude_of(num);
    let exponent = 149 - f32_doublings(magnitude) + f32_halvings(magnitude);
    if num == 0 {
        0
    } else {
        (if num < 0 {
            0x8000_0000nat
        } else {
            0nat
        }) + (exponent * 0x80_0000 + f32_significand(magnitude)) as nat
    }
}

/// The single-precision bit pattern of a setting.
pub fn f32_bits(num: Micro) -> (bits: u32)
    ensures
        bits == f32_pattern(num as int),
{
    if num == 0 {
        return 0;
    }
    let magnitude: u64 = if num < 0 {
        (-(num as i128)) as u64
    } else {
        num as u64
    };
    proof {
        lemma_normal(magnitude as int);
    }
    let pattern: u32 = if magnitude < 16_777_216_000_000 {
        let (m, two, s) = float_parts(magnitude, ONE as u64, 24);
        (149 - s) * 0x80_0000 + m as u32
    } else {
        let (h, two) = halvings(magnitude, 16_777_216_000_000);
        let m: u128 = round_quotient(magnitude as u128, 1_000_000 * two);
        (149 + h) * 0x80_0000 + m as u32
    };
    if num < 0 {
        pattern + 0x8000_0000
    } else {
        pattern
    }
}

/// What scaling does to a positive number of millionths: it fills twenty-four
/// bits, and is either doubled or halved.
pub proof fn lemma_normal(magnitude: int)
    requires
        0 < magnitude <= 0x8000_0000_0000_0000,
    ensures
        ({
            let (s, h) = (f32_doublings(magnitude), f32_halvings(magnitude));
            let (n, d) = (magnitude * text::two_to(s), ONE * text::two_to(h));
            &&& d > 0
            &&& d * 0x80_0000 <= n < d * 0x100_0000
            &&& 0x80_0000 <= f32_significand(magnitude) <= 0x100_0000
            &&& s <= 43
            &&& h <= 20
            &&& if magnitude < 16_777_216_000_000 {
                h == 0 && d == ONE
            } else {
                s == 0 && n == magnitude
            }
            &&& ONE * text::two_to(24) == 16_777_216_000_000
        }),
{
    let (s, h) = (f32_doublings(magnitude), f32_halvings(magnitude));
    let (n, d) = (magnitude * text::two_to(s), ONE * text::two_to(h));
    text::lemma_two_to_bounds();
    assert(ONE * text::two_to(23) == 8_388_608_000_000) by (nonlinear_arith)
        requires
            text::two_to(23) == 0x80_0000,
            ONE == 1_000_000,
    ;
    assert(ONE * text::two_to(24) == 16_777_216_000_000) by (nonlinear_arith)
        requires
            text::two_to(24) == 0x100_0000,
            ONE == 1_000_000,
    ;
    assert(ONE * text::two_to(0) == ONE && magnitude * text::two_to(0) == magnitude)
        by (nonlinear_arith)
        requires
            text::two_to(0) == 1,
    ;
    if magnitude < 16_777_216_000_000 {
        lemma_doubled(magnitude, 8_388_608_000_000, s);
        if s > 43 {
            text::lemma_two_to_monotone(44, s);
            assert(text::two_to(44) == 0x1000_0000_0000) by {
                reveal_with_fuel(text::two_to, 21);
            }
            assert(n >= text::two_to(s)) by (nonlinear_arith)
                requires
                    n == magnitude * text::two_to(s),
                    1 <= magnitude,
            ;
        }
    } else {
        let c = 16_777_216_000_000int;
        lemma_doubled(c, magnitude + 1, h);
        assert(c * text::two_to(h) == 2 * (8_388_608_000_000 * text::two_to(h)))
            by (nonlinear_arith)
            requires
                c == 16_777_216_000_000,
        ;
        assert(d * 0x80_0000 == 8_388_608_000_000 * text::two_to(h)) by (nonlinear_arith)
            requires
                d == ONE * text::two_to(h),
                ONE == 1_000_000,
        ;
        if h > 20 {
            text::lemma_two_to_monotone(21, h);
            assert(text::two_to(21) == 0x20_0000) by {
                reveal_with_fuel(text::two_to, 22);
            }
            assert(false);
        }
        text::lemma_two_to_monotone(0, h);
        assert(d > 0);
    }
    text::lemma_rounded_bound(n, d, 0x100_0000);
    assert(n / d >= 0x80_0000) by (nonlinear_arith)
        requires
            d * 0x80_0000 <= n,
            0 < d,
    ;
}

/// Doubled often enough to reach `floor`, a number stays below twice it.
pub proof fn lemma_doubled(num: int, floor: int, s: nat)
    requires
        0 < num < 2 * floor,
        s == text::doublings(num, floor),
    ensures
        floor <= num * text::two_to(s) < 2 * floor,
    decreases s,
{
    assert(num * text::two_to(0) == num) by (nonlinear_arith)
        requires
            text::two_to(0) == 1,
    ;
    if num < floor {
        let t = (s - 1) as nat;
        lemma_doubled(2 * num, floor, t);
        assert(num * text::two_to(s) == 2 * num * text::two_to(t)) by (nonlinear_arith)
            requires
                text::two_to(s) == 2 * text::two_to(t),
        ;
    }
}

/// Rounding moves a number by half at the most.
pub proof fn lemma_rounded_near(a: int, b: int)
    requires
        0 < b,
    ensures
        -b <= 2 * (text::rounded(a, b) * b - a) <= b,
{
    let (q, r) = (a / b, a % b);
    assert(a == q * b + r && 0 <= r < b) by (nonlinear_arith)
        requires
            q == a / b,
            r == a % b,
            0 < b,
    ;
    assert((q + 1) * b == q * b + b) by (nonlinear_arith);
}

/// Rounding to the nearest whole number, a half going away from zero.
pub proof fn lemma_rounded_away_is_nearest(a: int, b: int)
    requires
        0 < b,
    ensures
        -b <= 2 * (rounded_away(a, b) * b - a) <= b,
        a >= 0 ==> 2 * (rounded_away(a, b) * b - a) != -b,
        a < 0 ==> 2 * (rounded_away(a, b) * b - a) != b,
        a != 0 ==> rounded_away(-a, b) == -rounded_away(a, b),
{
    let m = if a < 0 {
        -a
    } else {
        a
    };
    let q = (2 * m + b) / (2 * b);
    assert(q * (2 * b) <= 2 * m + b < q * (2 * b) + 2 * b) by (nonlinear_arith)
        requires
            q == (2 * m + b) / (2 * b),
            0 < b,
            0 <= m,
    ;
    assert(q * (2 * b) == 2 * (q * b)) by (nonlinear_arith);
    assert((-q) * b == -(q * b)) by (nonlinear_arith);
}

/// What is moved into a range stays where it is if it lies there, and goes to the
/// nearer end otherwise.
pub proof fn lemma_clamp(v: int, lo: int, hi: int)
    requires
        lo <= hi,
    ensures
        lo <= v <= hi ==> clamp_to(v, lo, hi) == v,
        v < lo ==> clamp_to(v, lo, hi) == lo,
        v > hi ==> clamp_to(v, lo, hi) == hi,
{
}

} // verus!
