//! Packing of body and arm commands at each quantization tier.
//!
//! Commands hold single-precision numbers, by their bit patterns. At an integer
//! tier a field is the number times the tier's scale, rounded to the nearest
//! integer and clamped to the tier's range: its reading. At the full tier it is
//! the number itself.

use vstd::prelude::*;
use crate::fixed;
use crate::fixed::{f32_bits, Micro};
use crate::single;
use crate::sizing::QuantizationTier;
use crate::text;
use crate::text::{power_of_two, round_quotient};
use crate::wire::{push_be, read_be};

verus! {

/// A positive rational factor.
#[derive(Debug, Clone, Copy, PartialEq, Eq, Structural)]
pub struct Scale {
    pub num: u32,
    pub den: u32,
}

/// Hundredths of a unit.
pub const CONTINUOUS_SCALE_STANDARD: u32 = 100;

/// Whole units, so that a signed byte spans a useful range.
pub const CONTINUOUS_SCALE_COMPACT: u32 = 1;

/// Two millimetres per step, so that an arm's whole reach fits a signed byte.
pub const POSITION_STEP_COMPACT: u32 = 2;

/// The scale of velocity and attitude fields; the full tier stores the value
/// itself.
pub open spec fn continuous(tier: QuantizationTier) -> Scale {
    Scale {
        num: match tier {
            QuantizationTier::Compact => CONTINUOUS_SCALE_COMPACT,
            QuantizationTier::Standard => CONTINUOUS_SCALE_STANDARD,
            QuantizationTier::Full => 1,
        },
        den: 1,
    }
}

pub fn continuous_scale(tier: QuantizationTier) -> (s: Scale)
    ensures
        s == continuous(tier),
{
    match tier {
        QuantizationTier::Compact => Scale { num: CONTINUOUS_SCALE_COMPACT, den: 1 },
        QuantizationTier::Standard => Scale { num: CONTINUOUS_SCALE_STANDARD, den: 1 },
        QuantizationTier::Full => Scale { num: 1, den: 1 },
    }
}

/// The scale of position fields.
pub open spec fn position(tier: QuantizationTier) -> Scale {
    Scale {
        num: 1,
        den: match tier {
            QuantizationTier::Compact => POSITION_STEP_COMPACT,
            _ => 1,
        },
    }
}

pub fn position_scale(tier: QuantizationTier) -> (s: Scale)
    ensures
        s == position(tier),
{
    match tier {
        QuantizationTier::Compact => Scale { num: 1, den: POSITION_STEP_COMPACT },
        QuantizationTier::Standard => Scale { num: 1, den: 1 },
        QuantizationTier::Full => Scale { num: 1, den: 1 },
    }
}

/// A number times the numerator of a scale, in single precision, in the units of
/// single-precision numbers. (Halving afterwards loses nothing that a whole
/// number could show.)
pub open spec fn scaled(bits: u32, scale: Scale) -> int {
    single::nearest(scale.num * single::magnitude(bits))
}

/// The reading of a number: its product with the scale as the nearest whole
/// number, a half going away from zero; not-a-number reads as zero.
pub open spec fn reading_of(bits: u32, scale: Scale) -> int {
    if single::is_nan(bits) {
        0
    } else {
        let r = fixed::rounded_away(scaled(bits, scale), scale.den * single::one());
        if single::is_negative(bits) {
            -r
        } else {
            r
        }
    }
}

/// What a reading stands for, in millionths.
pub open spec fn value_of(reading: int, scale: Scale) -> int {
    reading * scale.den * (1_000_000int / scale.num as int)
}

/// The single-precision number nearest to what a reading stands for.
pub open spec fn number_of(reading: int, scale: Scale) -> u32 {
    fixed::f32_pattern(value_of(reading, scale)) as u32
}

/// One of the scales that are used.
pub open spec fn scale_ok(scale: Scale) -> bool {
    ||| scale.num == 1 && (scale.den == 1 || scale.den == 2)
    ||| scale.num == 100 && scale.den == 1
}

/// Puts a number on an integer scale.
pub fn quantize(bits: u32, scale: Scale) -> (reading: i32)
    requires
        scale_ok(scale),
    ensures
        reading == fixed::clamp_to(reading_of(bits, scale), i32::MIN as int, i32::MAX as int),
{
    let exponent: u32 = bits % 0x8000_0000 / 0x80_0000;
    let fraction: u32 = bits % 0x80_0000;
    if exponent == 255 && fraction != 0 {
        return 0;
    }
    let negative: bool = bits >= 0x8000_0000;
    if exponent < 100 {
        proof {
            lemma_small(bits, scale);
        }
        return 0;
    }
    if exponent >= 170 {
        proof {
            lemma_large(bits, scale);
        }
        return if negative {
            i32::MIN
        } else {
            i32::MAX
        };
    }
    let m: u128 = (0x80_0000 + fraction) as u128;
    let product: u128 = if scale.num == 1 {
        m
    } else {
        let p: u128 = 100 * m;
        let two: u128 = if p < 0x4000_0000 {
            64
        } else {
            128
        };
        let q: u128 = round_quotient(p, two);
        proof {
            text::lemma_rounded_bound(p as int, two as int, 0x100_0000);
        }
        q * two
    };
    let den: u128 = scale.den as u128;
    proof {
        lemma_product(bits, scale);
        assert(product <= 0x8000_0000);
    }
    let r: u128 = if exponent >= 150 {
        let two: u128 = power_of_two(exponent - 150);
        proof {
            text::lemma_two_to_bounds();
            text::lemma_two_to_monotone((exponent - 150) as nat, 24);
            assert(product * two <= 0x8000_0000 * 0x100_0000) by (nonlinear_arith)
                requires
                    product <= 0x8000_0000,
                    two <= 0x100_0000,
            ;
            lemma_whole(bits, scale, product as int);
        }
        (2 * (product * two) + den) / (2 * den)
    } else {
        let two: u128 = power_of_two(150 - exponent);
        proof {
            assert(0 < den * two <= 0x2_0000_0000_0000_0000) by (nonlinear_arith)
                requires
                    0 < den <= 2,
                    0 < two <= 0x1_0000_0000_0000_0000,
            ;
            lemma_parted(bits, scale, product as int);
        }
        (2 * product + den * two) / (2 * (den * two))
    };
    if negative {
        if r > 0x8000_0000 {
            i32::MIN
        } else {
            (-(r as i64)) as i32
        }
    } else if r > 0x7FFF_FFFF {
        i32::MAX
    } else {
        r as i32
    }
}

/// A number far below one reads as zero.
proof fn lemma_small(bits: u32, scale: Scale)
    requires
        scale_ok(scale),
        single::exponent(bits) < 100,
    ensures
        reading_of(bits, scale) == 0,
{
    let (m, k) = (single::significand(bits), single::shift(bits));
    let u = single::one();
    let t = text::two_to(99) as int;
    let n = scale.num * single::magnitude(bits);
    text::lemma_two_to_monotone(0, k);
    text::lemma_two_to_monotone(k, 99);
    assert(0 <= n <= 100 * 0x100_0000 * t) by (nonlinear_arith)
        requires
            n == scale.num * (m * text::two_to(k)),
            0 <= m <= 0x100_0000,
            0 < text::two_to(k) <= t,
            1 <= scale.num <= 100,
    {
        assert(0 <= m * text::two_to(k) <= 0x100_0000 * t);
    }
    single::lemma_nearest(n);
    let x = scaled(bits, scale);
    assert(u == text::two_to(50) * t) by {
        single::lemma_two_to_sum(50, 99);
    }
    assert(text::two_to(50) == 0x4_0000_0000_0000) by {
        reveal_with_fuel(text::two_to, 51);
    }
    assert(u == 0x4_0000_0000_0000 * t) by (nonlinear_arith)
        requires
            u == text::two_to(50) * t,
            text::two_to(50) == 0x4_0000_0000_0000,
    ;
    let b = scale.den * u;
    assert(b >= u) by (nonlinear_arith)
        requires
            b == scale.den * u,
            1 <= scale.den,
            0 <= u,
    ;
    assert(0 < t && x <= 2 * n);
    assert(2 * x < u) by (nonlinear_arith)
        requires
            x <= 2 * n,
            n <= 100 * 0x100_0000 * t,
            u == 0x4_0000_0000_0000 * t,
            0 < t,
    ;
    assert((2 * x + b) / (2 * b) == 0) by (nonlinear_arith)
        requires
            0 <= 2 * x < b,
    ;
}

/// A number far above one is beyond every reading.
proof fn lemma_large(bits: u32, scale: Scale)
    requires
        scale_ok(scale),
        single::exponent(bits) >= 170,
        !single::is_nan(bits),
    ensures
        single::is_negative(bits) ==> reading_of(bits, scale) < i32::MIN,
        !single::is_negative(bits) ==> reading_of(bits, scale) > i32::MAX,
{
    let (m, k) = (single::significand(bits), single::shift(bits));
    let u = single::one();
    let n = scale.num * single::magnitude(bits);
    single::lemma_one();
    text::lemma_two_to_monotone(169, k);
    assert(text::two_to(169) == 0x10_0000 * u) by {
        single::lemma_two_to_sum(20, 149);
        assert(text::two_to(20) == 0x10_0000) by {
            reveal_with_fuel(text::two_to, 21);
        }
    }
    assert(n >= 0x80_0000 * (0x10_0000 * u)) by (nonlinear_arith)
        requires
            n == scale.num * (m * text::two_to(k)),
            m >= 0x80_0000,
            text::two_to(k) >= 0x10_0000 * u,
            1 <= scale.num,
            u > 0,
    {
        assert(m * text::two_to(k) >= 0x80_0000 * (0x10_0000 * u));
    }
    single::lemma_nearest(n);
    let x = scaled(bits, scale);
    assert(x >= 0x4000_0000_000int * u);
    let b = scale.den * u;
    let hi = x;
    assert(0 < b && 0x2000_0000_00int * b <= x && x <= hi * b) by (nonlinear_arith)
        requires
            b == scale.den * u,
            1 <= scale.den <= 2,
            u > 0,
            x >= 0x4000_0000_000int * u,
            hi == x,
    {
        assert(b >= 1);
    }
    fixed::lemma_rounded_away(x, b, 0x2000_0000_00, hi);
}

/// The product with the scale's numerator, before the shift.
spec fn product_of(bits: u32, scale: Scale) -> int {
    let m = single::significand(bits);
    if scale.num == 1 {
        m
    } else if 100 * m < 0x4000_0000 {
        text::rounded(100 * m, 64) * 64
    } else {
        text::rounded(100 * m, 128) * 128
    }
}

proof fn lemma_product(bits: u32, scale: Scale)
    requires
        scale_ok(scale),
        single::exponent(bits) > 0,
    ensures
        scaled(bits, scale) == product_of(bits, scale) * text::two_to(single::shift(bits)),
        0 <= product_of(bits, scale) <= 0x8000_0000,
{
    let (m, k) = (single::significand(bits), single::shift(bits));
    let tk = text::two_to(k) as int;
    if scale.num == 1 {
        assert(1 * single::magnitude(bits) == single::magnitude(bits));
        single::lemma_nearest_exact(bits);
    } else {
        let p = 100 * m;
        assert(scale.num * single::magnitude(bits) == p * tk) by (nonlinear_arith)
            requires
                scale.num == 100,
                single::magnitude(bits) == m * tk,
                p == 100 * m,
        ;
        assert(text::two_to(6) == 64 && text::two_to(7) == 128) by {
            reveal_with_fuel(text::two_to, 8);
        }
        if p < 0x4000_0000 {
            single::lemma_nearest_shifted(p, 6, k);
            text::lemma_rounded_bound(p, 64, 0x100_0000);
        } else {
            single::lemma_nearest_shifted(p, 7, k);
            text::lemma_rounded_bound(p, 128, 0x100_0000);
        }
    }
}

proof fn lemma_whole(bits: u32, scale: Scale, product: int)
    requires
        scale_ok(scale),
        single::exponent(bits) >= 150,
        product == product_of(bits, scale),
        0 <= product,
        scaled(bits, scale) == product * text::two_to(single::shift(bits)),
    ensures
        ({
            let two = text::two_to((single::exponent(bits) - 150) as nat) as int;
            fixed::rounded_away(scaled(bits, scale), scale.den * single::one()) == (2 * (product
                * two) + scale.den) / (2 * scale.den as int)
        }),
{
    let g = (single::exponent(bits) - 150) as nat;
    let two = text::two_to(g) as int;
    let u = single::one();
    single::lemma_one();
    text::lemma_two_to_monotone(0, g);
    single::lemma_two_to_sum(g, 149);
    assert(g + 149 == single::shift(bits));
    let a = product * two;
    assert(scaled(bits, scale) == a * u) by (nonlinear_arith)
        requires
            scaled(bits, scale) == product * (two * u),
            a == product * two,
    ;
    assert(0 <= a) by (nonlinear_arith)
        requires
            a == product * two,
            0 <= product,
            0 < two,
    ;
    single::lemma_rounded_away_times(a, scale.den as int, u);
}

proof fn lemma_parted(bits: u32, scale: Scale, product: int)
    requires
        scale_ok(scale),
        0 < single::exponent(bits) < 150,
        product == product_of(bits, scale),
        0 <= product,
        scaled(bits, scale) == product * text::two_to(single::shift(bits)),
    ensures
        ({
            let two = text::two_to((150 - single::exponent(bits)) as nat) as int;
            fixed::rounded_away(scaled(bits, scale), scale.den * single::one()) == (2 * product
                + scale.den * two) / (2 * (scale.den * two))
        }),
{
    let g = (150 - single::exponent(bits)) as nat;
    let k = single::shift(bits);
    let two = text::two_to(g) as int;
    let tk = text::two_to(k) as int;
    text::lemma_two_to_monotone(0, g);
    text::lemma_two_to_monotone(0, k);
    single::lemma_two_to_sum(g, k);
    assert(g + k == 149);
    let b = scale.den * two;
    assert(scale.den * single::one() == b * tk && 0 < b) by (nonlinear_arith)
        requires
            single::one() == two * tk,
            b == scale.den * two,
            1 <= scale.den,
            0 < two,
    ;
    single::lemma_rounded_away_times(product, b, tk);
}

/// The number that a reading stands for.
pub fn dequantize(reading: i32, scale: Scale) -> (bits: u32)
    requires
        scale_ok(scale),
    ensures
        bits == number_of(reading as int, scale),
{
    let step: i64 = if scale.num == 1 {
        1_000_000
    } else {
        10_000
    };
    proof {
        assert(1_000_000int / 100 == 10_000 && 1_000_000int / 1 == 1_000_000);
        lemma_value_fits(reading as int, scale);
        assert(-0x1_0000_0000 <= reading * scale.den <= 0x1_0000_0000) by (nonlinear_arith)
            requires
                -0x8000_0000 <= reading <= 0x7FFF_FFFF,
                1 <= scale.den <= 2,
        ;
    }
    let value: Micro = reading as i64 * scale.den as i64 * step;
    f32_bits(value)
}

proof fn lemma_value_fits(reading: int, scale: Scale)
    requires
        scale_ok(scale),
        i32::MIN <= reading <= i32::MAX,
    ensures
        -0x1_0000_0000 * 1_000_000 <= value_of(reading, scale) <= 0x1_0000_0000 * 1_000_000,
{
    assert(1_000_000int / 100 == 10_000 && 1_000_000int / 1 == 1_000_000);
    let unit = 1_000_000int / scale.num as int;
    assert(-0x1_0000_0000 <= reading * scale.den <= 0x1_0000_0000) by (nonlinear_arith)
        requires
            -0x8000_0000 <= reading <= 0x7FFF_FFFF,
            1 <= scale.den <= 2,
    ;
    assert(-0x1_0000_0000 * 1_000_000 <= reading * scale.den * unit <= 0x1_0000_0000 * 1_000_000)
        by (nonlinear_arith)
        requires
            -0x1_0000_0000 <= reading * scale.den <= 0x1_0000_0000,
            unit == 1_000_000 || unit == 10_000,
    ;
}

/// How far what a reading stands for lies from the number that holds it: not at
/// all at a whole scale, and by one part in two to the power twenty-four at the
/// most at a finer one.
proof fn lemma_number_near(reading: int, scale: Scale)
    requires
        scale_ok(scale),
        i32::MIN <= reading <= i32::MAX,
    ensures
        ({
            let bits = number_of(reading, scale);
            let mag = fixed::magnitude_of(reading);
            let u = single::one();
            &&& !single::is_nan(bits)
            &&& single::is_negative(bits) <==> reading < 0
            &&& 0x100_0000 * fixed::magnitude_of(
                scale.num * single::magnitude(bits) - mag * scale.den * u,
            ) <= mag * scale.den * u
            &&& scale.num == 1 && mag <= 0x10_0000 ==> single::magnitude(bits) == mag * scale.den
                * u
        }),
{
    let bits = number_of(reading, scale);
    let num = value_of(reading, scale);
    let mag = fixed::magnitude_of(reading);
    let u = single::one();
    let x = single::magnitude(bits);
    lemma_value_fits(reading, scale);
    assert(1_000_000int / 100 == 10_000 && 1_000_000int / 1 == 1_000_000);
    let step = 1_000_000int / scale.num as int;
    assert(num < 0 <==> reading < 0) by (nonlinear_arith)
        requires
            num == reading * scale.den * step,
            1 <= scale.den <= 2,
            step == 1_000_000 || step == 10_000,
    ;
    let v = fixed::magnitude_of(num);
    assert(v == mag * scale.den * step) by (nonlinear_arith)
        requires
            num == reading * scale.den * step,
            v == if num < 0 {
                -num
            } else {
                num
            },
            mag == if reading < 0 {
                -reading
            } else {
                reading
            },
            num < 0 <==> reading < 0,
    ;
    single::lemma_pattern(num as i64);
    single::lemma_one();
    let y = mag * scale.den;
    let diff = scale.num * x - y * u;
    assert(scale.num * step == 1_000_000) by (nonlinear_arith)
        requires
            (scale.num == 1 && step == 1_000_000) || (scale.num == 100 && step == 10_000),
    ;
    let big = x * fixed::ONE - v * u;
    assert(big == step * diff) by (nonlinear_arith)
        requires
            big == x * 1_000_000 - v * u,
            v == y * step,
            diff == scale.num * x - y * u,
            scale.num * step == 1_000_000,
    ;
    assert(fixed::magnitude_of(big) == step * fixed::magnitude_of(diff)) by (nonlinear_arith)
        requires
            big == step * diff,
            step > 0,
            fixed::magnitude_of(big) == if big < 0 {
                -big
            } else {
                big
            },
            fixed::magnitude_of(diff) == if diff < 0 {
                -diff
            } else {
                diff
            },
    ;
    assert(0x100_0000 * fixed::magnitude_of(diff) <= y * u) by (nonlinear_arith)
        requires
            0x100_0000 * (step * fixed::magnitude_of(diff)) <= v * u,
            v == y * step,
            step > 0,
    {
        assert(step * (0x100_0000 * fixed::magnitude_of(diff)) <= step * (y * u));
    }
    if scale.num == 1 && mag <= 0x10_0000 {
        assert(v == 1_000_000 * y) by (nonlinear_arith)
            requires
                v == mag * scale.den * step,
                y == mag * scale.den,
                step == 1_000_000,
        ;
        assert(y <= 0x20_0000) by (nonlinear_arith)
            requires
                y == mag * scale.den,
                0 <= mag <= 0x10_0000,
                1 <= scale.den <= 2,
        ;
        assert(x * 1_000_000 == 1_000_000 * (y * u)) by (nonlinear_arith)
            requires
                x * 1_000_000 == v * u,
                v == 1_000_000 * y,
        ;
    }
}

/// A step of a scale reads as itself.
pub proof fn lemma_step(step: int, scale: Scale)
    requires
        scale_ok(scale),
        i32::MIN <= step <= i32::MAX,
    ensures
        -65536 <= step <= 65536 ==> reading_of(number_of(step, scale), scale) == step,
        step > 65536 ==> reading_of(number_of(step, scale), scale) >= 65535,
        step < -65536 ==> reading_of(number_of(step, scale), scale) <= -65535,
{
    let bits = number_of(step, scale);
    let mag = fixed::magnitude_of(step);
    let u = single::one();
    let b = scale.den * u;
    single::lemma_one();
    lemma_number_near(step, scale);
    let n = scale.num * single::magnitude(bits);
    let y = mag * scale.den * u;
    assert(y == mag * b) by (nonlinear_arith)
        requires
            y == mag * scale.den * u,
            b == scale.den * u,
    ;
    assert(0 < b && 0 <= y) by (nonlinear_arith)
        requires
            b == scale.den * u,
            1 <= scale.den,
            0 < u,
            y == mag * b,
            0 <= mag,
    ;
    assert(0 <= n);
    single::lemma_nearest(n);
    let x = scaled(bits, scale);
    assert(0x100_0000 * fixed::magnitude_of(x - y) <= 3 * y);
    lemma_rounds_to(x, mag, b);
}

/// A number that lies very near to a multiple rounds to it.
proof fn lemma_rounds_to(x: int, mag: int, b: int)
    requires
        0 < b,
        0 <= x,
        0 <= mag,
        0x100_0000 * fixed::magnitude_of(x - mag * b) <= 3 * (mag * b),
    ensures
        mag <= 65536 ==> fixed::rounded_away(x, b) == mag,
        mag > 65536 ==> fixed::rounded_away(x, b) >= 65535,
{
    let y = mag * b;
    if mag <= 65536 {
        assert(y <= 65536 * b) by (nonlinear_arith)
            requires
                y == mag * b,
                mag <= 65536,
                0 < b,
        ;
        assert((2 * x + b) / (2 * b) == mag) by (nonlinear_arith)
            requires
                y == mag * b,
                -b < 2 * (x - y) < b,
                0 < b,
        ;
    } else {
        assert(65536 * b <= y) by (nonlinear_arith)
            requires
                y == mag * b,
                mag >= 65536,
                0 < b,
        ;
        assert(x <= x * b) by (nonlinear_arith)
            requires
                1 <= b,
                0 <= x,
        ;
        fixed::lemma_rounded_away(x, b, 65535, x);
    }
}

/// Putting a number on a scale moves it by half a step at the most, and by what
/// rounding the product to single precision moves it.
pub proof fn lemma_quantization_error(bits: u32, scale: Scale)
    requires
        scale_ok(scale),
        !single::is_nan(bits),
    ensures
        ({
            let n = scale.num * single::magnitude(bits);
            let b = scale.den * single::one();
            let r = fixed::magnitude_of(reading_of(bits, scale));
            &&& 0x100_0000 * fixed::magnitude_of(r * b - n) <= 0x80_0000 * b + n
            &&& scale.num == 1 ==> 2 * fixed::magnitude_of(r * b - n) <= b
            &&& reading_of(bits, scale) < 0 ==> single::is_negative(bits)
            &&& reading_of(bits, scale) > 0 ==> !single::is_negative(bits)
        }),
{
    let n = scale.num * single::magnitude(bits);
    let b = scale.den * single::one();
    let x = scaled(bits, scale);
    let (m, k) = (single::significand(bits), single::shift(bits));
    single::lemma_one();
    text::lemma_two_to_monotone(0, k);
    assert(0 <= single::magnitude(bits)) by (nonlinear_arith)
        requires
            single::magnitude(bits) == m * text::two_to(k),
            0 <= m,
            0 < text::two_to(k),
    ;
    assert(0 <= n && 0 < b) by (nonlinear_arith)
        requires
            n == scale.num * single::magnitude(bits),
            0 <= single::magnitude(bits),
            b == scale.den * single::one(),
            1 <= scale.den,
            0 < single::one(),
    ;
    single::lemma_nearest(n);
    let r = fixed::rounded_away(x, b);
    assert(-b <= 2 * (r * b) - 2 * x <= b && 0 <= r) by (nonlinear_arith)
        requires
            r == (2 * x + b) / (2 * b),
            0 < b,
            0 <= x,
    ;
    assert(fixed::magnitude_of(reading_of(bits, scale)) == r);
    if scale.num == 1 {
        assert(n == single::magnitude(bits));
        single::lemma_nearest_exact(bits);
    }
}

/// How many bit patterns a field of the tier has.
pub open spec fn patterns(tier: QuantizationTier) -> int {
    match tier {
        QuantizationTier::Compact => 0x100,
        QuantizationTier::Standard => 0x1_0000,
        QuantizationTier::Full => 0x1_0000_0000,
    }
}

/// `v`, moved into the range of the tier's signed integers.
pub open spec fn clamped(v: int, tier: QuantizationTier) -> int {
    let half = patterns(tier) / 2;
    if v < -half {
        -half
    } else if v > half - 1 {
        half - 1
    } else {
        v
    }
}

/// The two's-complement bit pattern of `v`.
pub open spec fn pattern(v: int, tier: QuantizationTier) -> nat {
    if v < 0 {
        (v + patterns(tier)) as nat
    } else {
        v as nat
    }
}

/// The integer with a given two's-complement bit pattern.
pub open spec fn of_pattern(bits: nat, tier: QuantizationTier) -> int {
    if bits >= patterns(tier) / 2 {
        bits - patterns(tier)
    } else {
        bits as int
    }
}

/// One field on the wire, most significant byte first.
pub open spec fn field_bytes(v: int, tier: QuantizationTier) -> Seq<u8> {
    crate::wire::be_digits(pattern(clamped(v, tier), tier), tier.width())
}

/// The reading that a field on the wire stands for.
pub open spec fn field_value(s: Seq<u8>, tier: QuantizationTier) -> int {
    of_pattern(crate::wire::be_value(s), tier)
}

/// Does a byte string of this length hold a field? At the compact tier only
/// its first byte counts.
pub open spec fn field_len_ok(len: nat, tier: QuantizationTier) -> bool {
    match tier {
        QuantizationTier::Compact => len >= 1,
        _ => len == tier.width(),
    }
}

proof fn lemma_patterns(tier: QuantizationTier)
    ensures
        patterns(tier) == crate::wire::pow256(tier.width()),
{
    crate::wire::lemma_pow256_widths();
}

/// A number on the wire.
pub open spec fn value_bytes(bits: u32, scale: Scale, tier: QuantizationTier) -> Seq<u8> {
    match tier {
        QuantizationTier::Full => crate::wire::be_digits(bits as nat, 4),
        _ => field_bytes(reading_of(bits, scale), tier),
    }
}

/// The number that a field on the wire stands for.
pub open spec fn value_in(s: Seq<u8>, scale: Scale, tier: QuantizationTier) -> u32 {
    match tier {
        QuantizationTier::Full => crate::wire::be_value(s) as u32,
        _ => number_of(field_value(s, tier), scale),
    }
}

/// Appends one number.
pub fn pack_scaled(out: &mut Vec<u8>, bits: u32, scale: Scale, tier: QuantizationTier)
    requires
        scale_ok(scale),
    ensures
        final(out)@ == old(out)@ + value_bytes(bits, scale, tier),
{
    match tier {
        QuantizationTier::Compact => {
            let v: i32 = quantize(bits, scale);
            let c: i32 = if v < -128 {
                -128
            } else if v > 127 {
                127
            } else {
                v
            };
            let digits: u64 = if c < 0 {
                (c + 0x100) as u64
            } else {
                c as u64
            };
            push_be(out, digits, 1);
        },
        QuantizationTier::Standard => {
            let v: i32 = quantize(bits, scale);
            let c: i32 = if v < -32768 {
                -32768
            } else if v > 32767 {
                32767
            } else {
                v
            };
            let digits: u64 = if c < 0 {
                (c + 0x1_0000) as u64
            } else {
                c as u64
            };
            push_be(out, digits, 2);
        },
        QuantizationTier::Full => push_be(out, bits as u64, 4),
    }
}

/// Reads one number back; `None` exactly if `field` has the wrong length.
pub fn unpack_scaled(field: &[u8], scale: Scale, tier: QuantizationTier) -> (r: Option<u32>)
    requires
        scale_ok(scale),
    ensures
        r is Some <==> field_len_ok(field@.len(), tier),
        r is Some ==> r->0 == value_in(field@.take(tier.width() as int), scale, tier),
{
    proof {
        crate::wire::lemma_pow256_widths();
    }
    match tier {
        QuantizationTier::Compact => {
            if field.len() < 1 {
                return None;
            }
            let digits: u64 = read_be(field, 0, 1);
            proof {
                crate::wire::lemma_be_digits_of_value(field@.subrange(0, 1));
            }
            let reading: i32 = if digits >= 0x80 {
                (digits as i64 - 0x100) as i32
            } else {
                digits as i32
            };
            Some(dequantize(reading, scale))
        },
        QuantizationTier::Standard => {
            if field.len() != 2 {
                return None;
            }
            let digits: u64 = read_be(field, 0, 2);
            proof {
                crate::wire::lemma_be_digits_of_value(field@.subrange(0, 2));
            }
            let reading: i32 = if digits >= 0x8000 {
                (digits as i64 - 0x1_0000) as i32
            } else {
                digits as i32
            };
            Some(dequantize(reading, scale))
        },
        QuantizationTier::Full => {
            if field.len() != 4 {
                return None;
            }
            let digits: u64 = read_be(field, 0, 4);
            proof {
                crate::wire::lemma_be_digits_of_value(field@.subrange(0, 4));
            }
            Some(digits as u32)
        },
    }
}

/// A field reads back as the reading, clamped to the tier's range: in range
/// nothing is lost.
pub proof fn lemma_field_round_trip(v: int, tier: QuantizationTier)
    ensures
        field_bytes(v, tier).len() == tier.width(),
        field_value(field_bytes(v, tier), tier) == clamped(v, tier),
{
    lemma_patterns(tier);
    crate::wire::lemma_be_round_trip(pattern(clamped(v, tier), tier), tier.width());
}

/// What comes back of a number: the number itself at the full tier, else what
/// its reading stands for.
pub open spec fn returned(bits: u32, scale: Scale, tier: QuantizationTier) -> u32 {
    match tier {
        QuantizationTier::Full => bits,
        _ => number_of(clamped(reading_of(bits, scale), tier), scale),
    }
}

proof fn lemma_value_round_trip(bits: u32, scale: Scale, tier: QuantizationTier)
    ensures
        value_bytes(bits, scale, tier).len() == tier.width(),
        value_in(value_bytes(bits, scale, tier), scale, tier) == returned(bits, scale, tier),
{
    if tier == QuantizationTier::Full {
        crate::wire::lemma_pow256_widths();
        crate::wire::lemma_be_round_trip(bits as nat, 4);
    } else {
        lemma_field_round_trip(reading_of(bits, scale), tier);
    }
}

/// Is a number in the tier's range?
pub open spec fn in_range(bits: u32, scale: Scale, tier: QuantizationTier) -> bool {
    tier == QuantizationTier::Full || (!single::is_nan(bits) && clamped(
        reading_of(bits, scale),
        tier,
    ) == reading_of(bits, scale))
}

/// How far two numbers are apart, in the units of single-precision numbers.
pub open spec fn distance(a: u32, b: u32) -> int {
    fixed::magnitude_of(single::units(a) - single::units(b))
}

/// Does `back` lie as near to `bits` as the tier can tell: at the full tier it is
/// the same; else it lies within half a step of the scale, or, where the step is
/// a hundredth and single precision gets in the way, within 0.505 of a step.
pub open spec fn near(bits: u32, back: u32, scale: Scale, tier: QuantizationTier) -> bool {
    if tier == QuantizationTier::Full {
        back == bits
    } else if scale.num == 1 {
        2 * distance(bits, back) <= scale.den * single::one()
    } else {
        1000 * (scale.num * distance(bits, back)) <= 505 * single::one()
    }
}

/// A number in the tier's range comes back as near as the tier can tell.
pub proof fn lemma_returned_near(bits: u32, scale: Scale, tier: QuantizationTier)
    requires
        scale_ok(scale),
        in_range(bits, scale, tier),
    ensures
        near(bits, returned(bits, scale, tier), scale, tier),
{
    if tier != QuantizationTier::Full {
        let q = reading_of(bits, scale);
        let r = fixed::magnitude_of(q);
        let back = returned(bits, scale, tier);
        let u = single::one();
        let b = scale.den * u;
        let (x, y) = (single::magnitude(bits), single::magnitude(back));
        single::lemma_one();
        lemma_quantization_error(bits, scale);
        lemma_number_near(q, scale);
        assert(r * scale.den * u == r * b) by (nonlinear_arith)
            requires
                b == scale.den * u,
        ;
        assert(r <= 32768);
        // The signs agree, or the reading is zero.
        if q == 0 {
            assert(r * b == 0) by (nonlinear_arith)
                requires
                    r == 0,
            ;
            assert(scale.num * y == 0);
            assert(y == 0) by (nonlinear_arith)
                requires
                    scale.num * y == 0,
                    scale.num >= 1,
            ;
        }
        assert(distance(bits, back) == fixed::magnitude_of(x - y));
        if scale.num == 1 {
            assert(y == r * b);
        } else {
            assert(b == u) by (nonlinear_arith)
                requires
                    b == scale.den * u,
                    scale.den == 1,
            ;
            lemma_hundredth_near(x, y, r, u);
            assert(scale.num * distance(bits, back) == 100 * fixed::magnitude_of(x - y))
                by (nonlinear_arith)
                requires
                    scale.num == 100,
                    distance(bits, back) == fixed::magnitude_of(x - y),
            ;
        }
    }
}

proof fn lemma_hundredth_near(x: int, y: int, r: int, u: int)
    requires
        0 < u,
        0 <= x,
        0 <= r <= 32768,
        0x100_0000 * fixed::magnitude_of(r * u - 100 * x) <= 0x80_0000 * u + 100 * x,
        0x100_0000 * fixed::magnitude_of(100 * y - r * u) <= r * u,
    ensures
        1000 * (100 * fixed::magnitude_of(x - y)) <= 505 * u,
{
    let z = r * u;
    assert(z <= 32768 * u) by (nonlinear_arith)
        requires
            z == r * u,
            r <= 32768,
            0 < u,
    ;
    let (a, c) = (z - 100 * x, 100 * y - z);
    assert(100 * x <= 33000 * u);
    assert(100 * fixed::magnitude_of(x - y) <= fixed::magnitude_of(a) + fixed::magnitude_of(c));
    assert(0x100_0000 * fixed::magnitude_of(a) <= 0x80_0000 * u + 33000 * u);
    assert(0x100_0000 * fixed::magnitude_of(c) <= 32768 * u);
}

/// Every step of the scale that the standard tier has room for comes back, and
/// what lies beyond comes back as the last one.
pub proof fn lemma_standard_step(step: i32, scale: Scale)
    requires
        scale_ok(scale),
    ensures
        ({
            let tier = QuantizationTier::Standard;
            let back = returned(number_of(step as int, scale), scale, tier);
            &&& reading_of(back, scale) == clamped(step as int, tier)
            &&& -32768 <= step <= 32767 ==> back == number_of(step as int, scale)
        }),
{
    lemma_step(step as int, scale);
    let c = clamped(step as int, QuantizationTier::Standard);
    lemma_step(c, scale);
}

/// What is on the wire at the standard tier is a step of the scale.
pub proof fn lemma_standard_field(s: Seq<u8>, k: int, scale: Scale)
    requires
        scale_ok(scale),
        0 <= k,
        2 * k + 2 <= s.len(),
    ensures
        -32768 <= reading_of(field_at(s, k, scale, QuantizationTier::Standard), scale) <= 32767,
{
    let tier = QuantizationTier::Standard;
    assert(k * tier.width() == 2 * k) by (nonlinear_arith)
        requires
            tier.width() == 2,
    ;
    let f = s.subrange(2 * k, 2 * k + 2);
    crate::wire::lemma_pow256_widths();
    crate::wire::lemma_be_digits_of_value(f);
    lemma_step(field_value(f, tier), scale);
}

/// The power of two at or below `n`, with its exponent; `n` is one byte.
pub open spec fn top_power(n: int) -> (int, int) {
    if n >= 128 {
        (128, 7)
    } else if n >= 64 {
        (64, 6)
    } else if n >= 32 {
        (32, 5)
    } else if n >= 16 {
        (16, 4)
    } else if n >= 8 {
        (8, 3)
    } else if n >= 4 {
        (4, 2)
    } else if n >= 2 {
        (2, 1)
    } else {
        (1, 0)
    }
}

/// The single-precision bit pattern of a whole number from 0 to 255: biased
/// exponent and fraction of its leading power of two.
pub open spec fn f32_bits_of_byte(n: u8) -> nat {
    if n == 0 {
        0
    } else {
        let (p, e) = top_power(n as int);
        ((127 + e) * 0x80_0000 + (n - p) * (0x80_0000int / p)) as nat
    }
}

/// The whole number from 0 to 255 nearest to a single-precision number given
/// by its bit pattern, halves going up; not-a-number gives zero.
pub open spec fn nearest_byte(bits: nat) -> u8 {
    let exponent = bits / 0x80_0000;
    let fraction = bits % 0x80_0000;
    if bits >= 0x8000_0000 || (exponent == 255 && fraction != 0) || exponent < 126 {
        0
    } else if exponent == 126 {
        1
    } else if exponent >= 135 {
        255
    } else {
        // The value is (2^23 + fraction) * 2^(exponent - 127) / 2^23.
        let rounded = (2 * (0x80_0000 + fraction) * power_of(exponent) + 0x80_0000) / 0x100_0000;
        if rounded > 255 {
            255
        } else {
            rounded as u8
        }
    }
}

/// Two to the power `exponent - 127`, for exponents from 127 to 134.
pub open spec fn power_of(exponent: nat) -> int {
    if exponent == 127 {
        1
    } else if exponent == 128 {
        2
    } else if exponent == 129 {
        4
    } else if exponent == 130 {
        8
    } else if exponent == 131 {
        16
    } else if exponent == 132 {
        32
    } else if exponent == 133 {
        64
    } else {
        128
    }
}

/// A one-byte field at each tier: the byte, a sixteen-bit integer, or a
/// single-precision number.
pub open spec fn byte_field(value: u8, tier: QuantizationTier) -> Seq<u8> {
    match tier {
        QuantizationTier::Compact => seq![value],
        QuantizationTier::Standard => crate::wire::be_digits(value as nat, 2),
        QuantizationTier::Full => crate::wire::be_digits(f32_bits_of_byte(value), 4),
    }
}

/// The byte that a field stands for; of a sixteen-bit integer the low byte.
pub open spec fn byte_of_field(s: Seq<u8>, tier: QuantizationTier) -> u8 {
    match tier {
        QuantizationTier::Compact => s[0],
        QuantizationTier::Standard => s[1],
        QuantizationTier::Full => nearest_byte(crate::wire::be_value(s)),
    }
}

fn top_power_of(n: u8) -> (r: (u32, u32))
    ensures
        (r.0 as int, r.1 as int) == top_power(n as int),
{
    if n >= 128 {
        (128, 7)
    } else if n >= 64 {
        (64, 6)
    } else if n >= 32 {
        (32, 5)
    } else if n >= 16 {
        (16, 4)
    } else if n >= 8 {
        (8, 3)
    } else if n >= 4 {
        (4, 2)
    } else if n >= 2 {
        (2, 1)
    } else {
        (1, 0)
    }
}

proof fn lemma_byte_bits(n: u8)
    ensures
        f32_bits_of_byte(n) < 0x1_0000_0000,
        n > 0 ==> ({
            let (p, e) = top_power(n as int);
            &&& p <= n < 2 * p
            &&& 0 <= (n - p) * (0x80_0000int / p) < 0x80_0000
            &&& p * (0x80_0000int / p) == 0x80_0000
            &&& power_of((127 + e) as nat) == p
        }),
{
    if n > 0 {
        let (p, e) = top_power(n as int);
        let u = 0x80_0000int / p;
        assert(p * u == 0x80_0000 && u > 0) by (nonlinear_arith)
            requires
                u == 0x80_0000int / p,
                p == 1 || p == 2 || p == 4 || p == 8 || p == 16 || p == 32 || p == 64 || p == 128,
        ;
        assert(0 <= (n - p) * u < 0x80_0000) by (nonlinear_arith)
            requires
                0 <= n - p < p,
                p * u == 0x80_0000,
                u > 0,
        ;
    }
}

/// Appends a one-byte field. No tier loses anything of it.
pub fn pack_u8(out: &mut Vec<u8>, value: u8, tier: QuantizationTier)
    ensures
        final(out)@ == old(out)@ + byte_field(value, tier),
{
    match tier {
        QuantizationTier::Compact => {
            out.push(value);
            assert(out@ =~= old(out)@ + byte_field(value, tier));
        },
        QuantizationTier::Standard => push_be(out, value as u64, 2),
        QuantizationTier::Full => {
            let bits: u64 = if value == 0 {
                0
            } else {
                let (p, e): (u32, u32) = top_power_of(value);
                proof {
                    lemma_byte_bits(value);
                }
                let unit: u64 = 0x80_0000 / p as u64;
                (127 + e as u64) * 0x80_0000 + (value as u64 - p as u64) * unit
            };
            push_be(out, bits, 4);
        },
    }
}

fn nearest_byte_of(bits: u64) -> (n: u8)
    requires
        bits < 0x1_0000_0000,
    ensures
        n == nearest_byte(bits as nat),
{
    let exponent: u64 = bits / 0x80_0000;
    let fraction: u64 = bits % 0x80_0000;
    if bits >= 0x8000_0000 || (exponent == 255 && fraction != 0) || exponent < 126 {
        return 0;
    }
    if exponent == 126 {
        return 1;
    }
    if exponent >= 135 {
        return 255;
    }
    let power: u64 = match exponent {
        127 => 1,
        128 => 2,
        129 => 4,
        130 => 8,
        131 => 16,
        132 => 32,
        133 => 64,
        _ => 128,
    };
    proof {
        assert(power == power_of(exponent as nat));
        assert(2 * (0x80_0000 + fraction) * power <= 2 * 0x100_0000 * 128) by (nonlinear_arith)
            requires
                fraction < 0x80_0000,
                power <= 128,
        ;
    }
    let rounded: u64 = (2 * (0x80_0000 + fraction) * power + 0x80_0000) / 0x100_0000;
    if rounded > 255 {
        255
    } else {
        rounded as u8
    }
}

/// Reads a one-byte field back; `None` exactly if `field` has the wrong length.
pub fn unpack_u8(field: &[u8], tier: QuantizationTier) -> (r: Option<u8>)
    ensures
        r is Some <==> field_len_ok(field@.len(), tier),
        r is Some ==> r->0 == byte_of_field(field@.take(tier.width() as int), tier),
{
    match tier {
        QuantizationTier::Compact => {
            if field.len() < 1 {
                None
            } else {
                Some(field[0])
            }
        },
        QuantizationTier::Standard => {
            if field.len() != 2 {
                None
            } else {
                Some(field[1])
            }
        },
        QuantizationTier::Full => {
            if field.len() != 4 {
                None
            } else {
                let bits: u64 = read_be(field, 0, 4);
                proof {
                    crate::wire::lemma_pow256_widths();
                    crate::wire::lemma_be_digits_of_value(field@.subrange(0, 4));
                }
                Some(nearest_byte_of(bits))
            }
        },
    }
}

/// A one-byte field is exact at every tier.
pub proof fn lemma_byte_round_trip(value: u8, tier: QuantizationTier)
    ensures
        byte_field(value, tier).len() == tier.width(),
        byte_of_field(byte_field(value, tier), tier) == value,
{
    crate::wire::lemma_pow256_widths();
    match tier {
        QuantizationTier::Compact => {},
        QuantizationTier::Standard => {
            crate::wire::lemma_be_digits_len(value as nat, 2);
        },
        QuantizationTier::Full => {
            lemma_byte_bits(value);
            let bits = f32_bits_of_byte(value);
            crate::wire::lemma_be_round_trip(bits, 4);
            if value > 0 {
                let (p, e) = top_power(value as int);
                let u = 0x80_0000int / p;
                let f = (value - p) * u;
                assert(bits == (127 + e) * 0x80_0000 + f);
                assert(bits / 0x80_0000 == 127 + e);
                assert(bits % 0x80_0000 == f);
                assert((0x80_0000 + f) * p == value * 0x80_0000) by (nonlinear_arith)
                    requires
                        f == (value - p) * u,
                        p * u == 0x80_0000,
                ;
                assert(2 * (0x80_0000 + f) * p == 2 * ((0x80_0000 + f) * p)) by (nonlinear_arith);
            }
        },
    }
}

/// Body velocity and attitude, each a single-precision number by its bit
/// pattern.
#[derive(Debug, Clone, Copy, PartialEq, Eq, Structural)]
pub struct VelocityAttitudeCommand {
    pub vx: u32,
    pub vy: u32,
    pub turn: u32,
    pub roll: u32,
    pub pitch: u32,
    pub yaw: u32,
}

impl VelocityAttitudeCommand {
    pub open spec fn values(self) -> Seq<u32> {
        seq![self.vx, self.vy, self.turn, self.roll, self.pitch, self.yaw]
    }

    pub open spec fn bytes(self, tier: QuantizationTier) -> Seq<u8> {
        fields_bytes(self.values(), continuous(tier), tier)
    }

    /// The command at the front of `s`, which holds at least six fields.
    pub open spec fn of_bytes(s: Seq<u8>, tier: QuantizationTier) -> VelocityAttitudeCommand {
        let scale = continuous(tier);
        VelocityAttitudeCommand {
            vx: field_at(s, 0, scale, tier),
            vy: field_at(s, 1, scale, tier),
            turn: field_at(s, 2, scale, tier),
            roll: field_at(s, 3, scale, tier),
            pitch: field_at(s, 4, scale, tier),
            yaw: field_at(s, 5, scale, tier),
        }
    }

    /// What comes back of the command.
    pub open spec fn returned(self, tier: QuantizationTier) -> VelocityAttitudeCommand {
        let scale = continuous(tier);
        VelocityAttitudeCommand {
            vx: returned(self.vx, scale, tier),
            vy: returned(self.vy, scale, tier),
            turn: returned(self.turn, scale, tier),
            roll: returned(self.roll, scale, tier),
            pitch: returned(self.pitch, scale, tier),
            yaw: returned(self.yaw, scale, tier),
        }
    }

    pub fn pack(&self, tier: QuantizationTier) -> (out: Vec<u8>)
        ensures
            out@ == self.bytes(tier),
    {
        let scale = continuous_scale(tier);
        let mut out: Vec<u8> = Vec::new();
        pack_scaled(&mut out, self.vx, scale, tier);
        pack_scaled(&mut out, self.vy, scale, tier);
        pack_scaled(&mut out, self.turn, scale, tier);
        pack_scaled(&mut out, self.roll, scale, tier);
        pack_scaled(&mut out, self.pitch, scale, tier);
        pack_scaled(&mut out, self.yaw, scale, tier);
        proof {
            lemma_fields_unfold(self.values(), scale, tier);
            assert(out@ =~= self.bytes(tier));
        }
        out
    }

    /// `None` exactly if there are fewer than six fields.
    pub fn unpack(bytes: &[u8], tier: QuantizationTier) -> (r: Option<Self>)
        ensures
            r == if bytes@.len() < 6 * tier.width() {
                None
            } else {
                Some(Self::of_bytes(bytes@, tier))
            },
    {
        let width: usize = tier.bytes_per_field() as usize;
        if bytes.len() < 6 * width {
            return None;
        }
        let scale = continuous_scale(tier);
        Some(
            VelocityAttitudeCommand {
                vx: read_field(bytes, 0, scale, tier),
                vy: read_field(bytes, 1, scale, tier),
                turn: read_field(bytes, 2, scale, tier),
                roll: read_field(bytes, 3, scale, tier),
                pitch: read_field(bytes, 4, scale, tier),
                yaw: read_field(bytes, 5, scale, tier),
            },
        )
    }

    /// `pack` at the tier that sessions select.
    pub fn pack_standard(&self) -> (out: Vec<u8>)
        ensures
            out@ == self.bytes(QuantizationTier::Standard),
    {
        self.pack(QuantizationTier::Standard)
    }

    pub fn unpack_standard(bytes: &[u8]) -> (r: Option<Self>)
        ensures
            r == if bytes@.len() < 12 {
                None
            } else {
                Some(Self::of_bytes(bytes@, QuantizationTier::Standard))
            },
    {
        Self::unpack(bytes, QuantizationTier::Standard)
    }

    /// What is packed reads back, whatever follows it: each value in the tier's
    /// range as near as the tier can tell.
    pub proof fn lemma_round_trip(self, tier: QuantizationTier, rest: Seq<u8>)
        ensures
            self.bytes(tier).len() == 6 * tier.width(),
            Self::of_bytes(self.bytes(tier) + rest, tier) == self.returned(tier),
            forall|k: int|
                0 <= k < 6 && in_range(#[trigger] self.values()[k], continuous(tier), tier)
                    ==> near(
                    self.values()[k],
                    self.returned(tier).values()[k],
                    continuous(tier),
                    tier,
                ),
    {
        let scale = continuous(tier);
        let v = self.values();
        lemma_fields_read(v, scale, tier, rest);
        assert(v[0] == self.vx && v[1] == self.vy && v[2] == self.turn && v[3] == self.roll && v[4]
            == self.pitch && v[5] == self.yaw);
        let back = self.returned(tier).values();
        assert forall|k: int|
            0 <= k < 6 && in_range(#[trigger] v[k], scale, tier) implies near(
            v[k],
            back[k],
            scale,
            tier,
        ) by {
            lemma_returned_near(v[k], scale, tier);
            assert(back[k] == returned(v[k], scale, tier));
        }
    }
}

/// Numbers one behind the other.
pub open spec fn fields_bytes(values: Seq<u32>, scale: Scale, tier: QuantizationTier) -> Seq<u8>
    decreases values.len(),
{
    if values.len() == 0 {
        Seq::empty()
    } else {
        fields_bytes(values.drop_last(), scale, tier) + value_bytes(
            values.last(),
            scale,
            tier,
        )
    }
}

/// The number in field `k`.
pub open spec fn field_at(s: Seq<u8>, k: int, scale: Scale, tier: QuantizationTier) -> u32 {
    value_in(s.subrange(k * tier.width(), k * tier.width() + tier.width()), scale, tier)
}

proof fn lemma_fields_unfold(values: Seq<u32>, scale: Scale, tier: QuantizationTier)
    requires
        values.len() == 6 || values.len() == 3,
    ensures
        values.len() == 3 ==> fields_bytes(values, scale, tier) == value_bytes(
            values[0],
            scale,
            tier,
        ) + value_bytes(values[1], scale, tier) + value_bytes(
            values[2],
            scale,
            tier,
        ),
        values.len() == 6 ==> fields_bytes(values, scale, tier) == value_bytes(
            values[0],
            scale,
            tier,
        ) + value_bytes(values[1], scale, tier) + value_bytes(
            values[2],
            scale,
            tier,
        ) + value_bytes(values[3], scale, tier) + value_bytes(
            values[4],
            scale,
            tier,
        ) + value_bytes(values[5], scale, tier),
{
    reveal_with_fuel(fields_bytes, 7);
    let first = value_bytes(values[0], scale, tier);
    assert(Seq::<u8>::empty() + first =~= first);
}

proof fn lemma_fields_read(
    values: Seq<u32>,
    scale: Scale,
    tier: QuantizationTier,
    rest: Seq<u8>,
)
    ensures
        fields_bytes(values, scale, tier).len() == values.len() * tier.width(),
        forall|k: int|
            0 <= k < values.len() ==> #[trigger] field_at(
                fields_bytes(values, scale, tier) + rest,
                k,
                scale,
                tier,
            ) == returned(values[k], scale, tier),
    decreases values.len(),
{
    let w = tier.width();
    if values.len() > 0 {
        let head = values.drop_last();
        let n = head.len();
        let last = value_bytes(values.last(), scale, tier);
        lemma_value_round_trip(values.last(), scale, tier);
        lemma_fields_read(head, scale, tier, last + rest);
        let hb = fields_bytes(head, scale, tier);
        let s = fields_bytes(values, scale, tier) + rest;
        assert(s =~= hb + (last + rest));
        assert((n + 1) * w == n * w + w) by (nonlinear_arith);
        assert(field_at(s, n as int, scale, tier) == returned(values.last(), scale, tier))
            by {
            assert(s.subrange((n * w) as int, (n * w + w) as int) =~= last);
        }
        assert forall|k: int| 0 <= k < values.len() implies #[trigger] field_at(
            s,
            k,
            scale,
            tier,
        ) == returned(values[k], scale, tier) by {
            if k < n {
                assert(head[k] == values[k]);
            }
        }
    } else {
        assert(0 * w == 0) by (nonlinear_arith);
    }
}

fn read_field(bytes: &[u8], k: usize, scale: Scale, tier: QuantizationTier) -> (v: u32)
    requires
        k <= 8,
        scale_ok(scale),
        (k + 1) * tier.width() <= bytes@.len(),
    ensures
        v == field_at(bytes@, k as int, scale, tier),
{
    let width: usize = tier.bytes_per_field() as usize;
    assert((k + 1) * width == k * width + width) by (nonlinear_arith);
    let from: usize = k * width;
    let field: &[u8] = vstd::slice::slice_subrange(bytes, from, from + width);
    assert(field@.take(width as int) =~= field@);
    match unpack_scaled(field, scale, tier) {
        Some(v) => v,
        None => 0,
    }
}

/// A target position, as single-precision numbers by their bit patterns, and a
/// gripper from 0 to 255. An axis that a robot's
/// mechanism lacks stays zero.
#[derive(Debug, Clone, Copy, PartialEq, Eq, Structural)]
pub struct CartesianCommand {
    pub x: u32,
    pub y: u32,
    pub z: u32,
    pub gripper: u8,
}

impl CartesianCommand {
    pub open spec fn values(self) -> Seq<u32> {
        seq![self.x, self.y, self.z]
    }

    pub open spec fn bytes(self, tier: QuantizationTier) -> Seq<u8> {
        fields_bytes(self.values(), position(tier), tier) + byte_field(self.gripper, tier)
    }

    /// The command at the front of `s`, which holds at least four fields.
    pub open spec fn of_bytes(s: Seq<u8>, tier: QuantizationTier) -> CartesianCommand {
        let scale = position(tier);
        CartesianCommand {
            x: field_at(s, 0, scale, tier),
            y: field_at(s, 1, scale, tier),
            z: field_at(s, 2, scale, tier),
            gripper: byte_of_field(
                s.subrange(3 * tier.width() as int, 4 * tier.width() as int),
                tier,
            ),
        }
    }

    /// What comes back of the command.
    pub open spec fn returned(self, tier: QuantizationTier) -> CartesianCommand {
        let scale = position(tier);
        CartesianCommand {
            x: returned(self.x, scale, tier),
            y: returned(self.y, scale, tier),
            z: returned(self.z, scale, tier),
            gripper: self.gripper,
        }
    }

    pub fn pack(&self, tier: QuantizationTier) -> (out: Vec<u8>)
        ensures
            out@ == self.bytes(tier),
    {
        let scale = position_scale(tier);
        let mut out: Vec<u8> = Vec::new();
        pack_scaled(&mut out, self.x, scale, tier);
        pack_scaled(&mut out, self.y, scale, tier);
        pack_scaled(&mut out, self.z, scale, tier);
        pack_u8(&mut out, self.gripper, tier);
        proof {
            lemma_fields_unfold(self.values(), scale, tier);
            assert(out@ =~= self.bytes(tier));
        }
        out
    }

    /// `None` exactly if there are fewer than four fields.
    pub fn unpack(bytes: &[u8], tier: QuantizationTier) -> (r: Option<Self>)
        ensures
            r == if bytes@.len() < 4 * tier.width() {
                None
            } else {
                Some(Self::of_bytes(bytes@, tier))
            },
    {
        let width: usize = tier.bytes_per_field() as usize;
        if bytes.len() < 4 * width {
            return None;
        }
        let field: &[u8] = vstd::slice::slice_subrange(bytes, 3 * width, 4 * width);
        assert(field@.take(width as int) =~= field@);
        let gripper: u8 = match unpack_u8(field, tier) {
            Some(g) => g,
            None => 0,
        };
        let scale = position_scale(tier);
        Some(
            CartesianCommand {
                x: read_field(bytes, 0, scale, tier),
                y: read_field(bytes, 1, scale, tier),
                z: read_field(bytes, 2, scale, tier),
                gripper,
            },
        )
    }

    /// `pack` at the tier that sessions select.
    pub fn pack_standard(&self) -> (out: Vec<u8>)
        ensures
            out@ == self.bytes(QuantizationTier::Standard),
    {
        self.pack(QuantizationTier::Standard)
    }

    pub fn unpack_standard(bytes: &[u8]) -> (r: Option<Self>)
        ensures
            r == if bytes@.len() < 8 {
                None
            } else {
                Some(Self::of_bytes(bytes@, QuantizationTier::Standard))
            },
    {
        Self::unpack(bytes, QuantizationTier::Standard)
    }

    /// What is packed reads back, whatever follows it: the gripper unchanged,
    /// and each position in the tier's range as near as the tier can tell.
    pub proof fn lemma_round_trip(self, tier: QuantizationTier, rest: Seq<u8>)
        ensures
            self.bytes(tier).len() == 4 * tier.width(),
            Self::of_bytes(self.bytes(tier) + rest, tier) == self.returned(tier),
            self.returned(tier).gripper == self.gripper,
            forall|k: int|
                0 <= k < 3 && in_range(#[trigger] self.values()[k], position(tier), tier)
                    ==> near(
                    self.values()[k],
                    self.returned(tier).values()[k],
                    position(tier),
                    tier,
                ),
    {
        let scale = position(tier);
        let v = self.values();
        let g = byte_field(self.gripper, tier);
        lemma_byte_round_trip(self.gripper, tier);
        lemma_fields_read(v, scale, tier, g + rest);
        let s = self.bytes(tier) + rest;
        assert(s =~= fields_bytes(v, scale, tier) + (g + rest));
        assert(v[0] == self.x && v[1] == self.y && v[2] == self.z);
        let w = tier.width() as int;
        assert(s.subrange(3 * w, 4 * w) =~= g);
        let back = self.returned(tier).values();
        assert forall|k: int|
            0 <= k < 3 && in_range(#[trigger] v[k], scale, tier) implies near(
            v[k],
            back[k],
            scale,
            tier,
        ) by {
            lemma_returned_near(v[k], scale, tier);
            assert(back[k] == returned(v[k], scale, tier));
        }
    }
}

proof fn lemma_fields_len(values: Seq<u32>, scale: Scale, tier: QuantizationTier)
    ensures
        fields_bytes(values, scale, tier).len() == values.len() * tier.width(),
    decreases values.len(),
{
    let w = tier.width();
    if values.len() > 0 {
        let n = values.drop_last().len();
        lemma_fields_len(values.drop_last(), scale, tier);
        lemma_value_round_trip(values.last(), scale, tier);
        assert((n + 1) * w == n * w + w) by (nonlinear_arith);
    } else {
        assert(0 * w == 0) by (nonlinear_arith);
    }
}

proof fn lemma_value_len(value: u32, scale: Scale, tier: QuantizationTier)
    ensures
        value_bytes(value, scale, tier).len() == tier.width(),
{
    lemma_value_round_trip(value, scale, tier);
}

proof fn lemma_pieces(front: Seq<u8>, last: Seq<u8>, from: int, to: int)
    ensures
        0 <= from <= to <= front.len() ==> (front + last).subrange(from, to) == front.subrange(
            from,
            to,
        ),
        (front + last).subrange(front.len() as int, (front + last).len() as int) == last,
{
    if 0 <= from <= to <= front.len() {
        assert((front + last).subrange(from, to) =~= front.subrange(from, to));
    }
    assert((front + last).subrange(front.len() as int, (front + last).len() as int) =~= last);
}

/// Each number of a block stands in its own place: number `k` in field `k`,
/// counted from the front, and as wide as the tier says.
#[verifier::spinoff_prover]
#[verifier::rlimit(60)]
pub proof fn lemma_numbers_in_place(values: Seq<u32>, scale: Scale, tier: QuantizationTier, k: int)
    requires
        0 <= k < values.len(),
    ensures
        fields_bytes(values, scale, tier).len() == values.len() * tier.width(),
        fields_bytes(values, scale, tier).subrange(
            k * tier.width(),
            k * tier.width() + tier.width(),
        ) == value_bytes(values[k], scale, tier),
    decreases values.len(),
{
    let w = tier.width();
    let head = values.drop_last();
    let n = head.len();
    let front = fields_bytes(head, scale, tier);
    let last = value_bytes(values.last(), scale, tier);
    lemma_fields_len(values, scale, tier);
    lemma_fields_len(head, scale, tier);
    lemma_value_len(values.last(), scale, tier);
    assert(fields_bytes(values, scale, tier) == front + last);
    lemma_pieces(front, last, k * w, k * w + w);
    if k < n {
        lemma_numbers_in_place(head, scale, tier, k);
        assert(0 <= k * w && k * w + w <= n * w) by (nonlinear_arith)
            requires
                0 <= k < n,
        ;
    } else {
        assert(k == n);
    }
}

/// The order of a body command: forwards, sideways, turn, roll, pitch, yaw; and
/// of an arm command: out, sideways, up, gripper.
pub proof fn lemma_order_of_fields(
    body: VelocityAttitudeCommand,
    arm: CartesianCommand,
    tier: QuantizationTier,
)
    ensures
        ({
            let w = tier.width() as int;
            let s = body.bytes(tier);
            let t = arm.bytes(tier);
            &&& s.len() == 6 * w
            &&& s.subrange(0, w) == value_bytes(body.vx, continuous(tier), tier)
            &&& s.subrange(w, 2 * w) == value_bytes(body.vy, continuous(tier), tier)
            &&& s.subrange(2 * w, 3 * w) == value_bytes(body.turn, continuous(tier), tier)
            &&& s.subrange(3 * w, 4 * w) == value_bytes(body.roll, continuous(tier), tier)
            &&& s.subrange(4 * w, 5 * w) == value_bytes(body.pitch, continuous(tier), tier)
            &&& s.subrange(5 * w, 6 * w) == value_bytes(body.yaw, continuous(tier), tier)
            &&& t.len() == 4 * w
            &&& t.subrange(0, w) == value_bytes(arm.x, position(tier), tier)
            &&& t.subrange(w, 2 * w) == value_bytes(arm.y, position(tier), tier)
            &&& t.subrange(2 * w, 3 * w) == value_bytes(arm.z, position(tier), tier)
            &&& t.subrange(3 * w, 4 * w) == byte_field(arm.gripper, tier)
        }),
{
    let w = tier.width() as int;
    let b = body.values();
    lemma_numbers_in_place(b, continuous(tier), tier, 0);
    lemma_numbers_in_place(b, continuous(tier), tier, 1);
    lemma_numbers_in_place(b, continuous(tier), tier, 2);
    lemma_numbers_in_place(b, continuous(tier), tier, 3);
    lemma_numbers_in_place(b, continuous(tier), tier, 4);
    lemma_numbers_in_place(b, continuous(tier), tier, 5);
    let a = arm.values();
    lemma_numbers_in_place(a, position(tier), tier, 0);
    lemma_numbers_in_place(a, position(tier), tier, 1);
    lemma_numbers_in_place(a, position(tier), tier, 2);
    lemma_byte_round_trip(arm.gripper, tier);
    let t = arm.bytes(tier);
    let front = fields_bytes(a, position(tier), tier);
    assert(0 * w == 0 && 1 * w == w) by (nonlinear_arith);
    assert(t.subrange(0, w) =~= front.subrange(0, w));
    assert(t.subrange(w, 2 * w) =~= front.subrange(w, 2 * w));
    assert(t.subrange(2 * w, 3 * w) =~= front.subrange(2 * w, 3 * w));
    assert(t.subrange(3 * w, 4 * w) =~= byte_field(arm.gripper, tier));
}

/// How finely each tier tells numbers apart: velocities and angles in hundredths
/// at the standard tier and in whole units at the compact one; positions in
/// whole millimetres, and in pairs of them at the compact one.
pub proof fn lemma_scales()
    ensures
        continuous(QuantizationTier::Standard) == (Scale { num: 100, den: 1 }),
        continuous(QuantizationTier::Compact) == (Scale { num: 1, den: 1 }),
        position(QuantizationTier::Standard) == (Scale { num: 1, den: 1 }),
        position(QuantizationTier::Compact) == (Scale { num: 1, den: 2 }),
{
}

} // verus!
