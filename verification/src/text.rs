//! Numbers as text.

use vstd::prelude::*;

verus! {

/// The character of a decimal digit.
pub open spec fn digit_char(d: nat) -> char {
    if d == 0 {
        '0'
    } else if d == 1 {
        '1'
    } else if d == 2 {
        '2'
    } else if d == 3 {
        '3'
    } else if d == 4 {
        '4'
    } else if d == 5 {
        '5'
    } else if d == 6 {
        '6'
    } else if d == 7 {
        '7'
    } else if d == 8 {
        '8'
    } else {
        '9'
    }
}

/// The number in decimal, without leading zeros.
pub open spec fn decimal(n: nat) -> Seq<char>
    decreases n,
{
    if n < 10 {
        seq![digit_char(n)]
    } else {
        decimal(n / 10).push(digit_char(n % 10))
    }
}

/// The `width` low-order decimal digits of a number, zeros included.
pub open spec fn padded(n: nat, width: nat) -> Seq<char>
    decreases width,
{
    if width == 0 {
        Seq::empty()
    } else {
        padded(n / 10, (width - 1) as nat).push(digit_char(n % 10))
    }
}

/// A number in decimal, with a minus sign where it is negative.
pub open spec fn signed_decimal(n: int) -> Seq<char> {
    if n < 0 {
        seq!['-'] + decimal((-n) as nat)
    } else {
        decimal(n as nat)
    }
}

pub fn push_digit(out: &mut String, d: u8)
    requires
        d < 10,
    ensures
        final(out)@ == old(out)@.push(digit_char(d as nat)),
{
    proof {
        reveal_strlit("0");
        reveal_strlit("1");
        reveal_strlit("2");
        reveal_strlit("3");
        reveal_strlit("4");
        reveal_strlit("5");
        reveal_strlit("6");
        reveal_strlit("7");
        reveal_strlit("8");
        reveal_strlit("9");
    }
    let digit: &str = match d {
        0 => "0",
        1 => "1",
        2 => "2",
        3 => "3",
        4 => "4",
        5 => "5",
        6 => "6",
        7 => "7",
        8 => "8",
        _ => "9",
    };
    out.append(digit);
    proof {
        assert(digit@ =~= seq![digit_char(d as nat)]);
        assert(out@ =~= old(out)@.push(digit_char(d as nat)));
    }
}

/// Appends a number in decimal.
pub fn push_decimal(out: &mut String, n: u64)
    ensures
        final(out)@ == old(out)@ + decimal(n as nat),
    decreases n,
{
    if n >= 10 {
        push_decimal(out, n / 10);
    }
    push_digit(out, (n % 10) as u8);
    proof {
        assert(out@ =~= old(out)@ + decimal(n as nat));
    }
}

/// Appends the `width` low-order decimal digits of a number.
pub fn push_padded(out: &mut String, n: u64, width: usize)
    ensures
        final(out)@ == old(out)@ + padded(n as nat, width as nat),
    decreases width,
{
    if width > 0 {
        push_padded(out, n / 10, width - 1);
        push_digit(out, (n % 10) as u8);
    }
    proof {
        assert(out@ =~= old(out)@ + padded(n as nat, width as nat));
    }
}

/// Appends a number in decimal, with a minus sign where it is negative.
pub fn push_signed_decimal(out: &mut String, n: i64)
    ensures
        final(out)@ == old(out)@ + signed_decimal(n as int),
{
    if n < 0 {
        proof {
            reveal_strlit("-");
        }
        out.append("-");
        let magnitude: u64 = if n == i64::MIN {
            0x8000_0000_0000_0000
        } else {
            (-n) as u64
        };
        push_decimal(out, magnitude);
        proof {
            assert("-"@ =~= seq!['-']);
            assert(out@ =~= old(out)@ + signed_decimal(n as int));
        }
    } else {
        push_decimal(out, n as u64);
    }
}

/// Ten to the power `k`.
pub open spec fn pow10(k: nat) -> nat
    decreases k,
{
    if k == 0 {
        1
    } else {
        10 * pow10((k - 1) as nat)
    }
}

/// Is `a` before `b` in the order of characters?
pub open spec fn text_before(a: Seq<char>, b: Seq<char>) -> bool {
    exists|i: int| #[trigger] first_difference(a, b, i) && (i == a.len() || a[i] < b[i])
}

/// `a` and `b` agree before `i`, and at `i` they differ or `a` has ended.
pub open spec fn first_difference(a: Seq<char>, b: Seq<char>, i: int) -> bool {
    &&& 0 <= i <= a.len()
    &&& i < b.len()
    &&& a.subrange(0, i) == b.subrange(0, i)
    &&& i < a.len() ==> a[i] != b[i]
}

/// Numbers of one width are ordered as texts as they are as numbers.
pub proof fn lemma_padded_order(a: nat, b: nat, width: nat)
    requires
        a < b < pow10(width),
    ensures
        text_before(padded(a, width), padded(b, width)),
    decreases width,
{
    if width > 0 {
        let (sa, sb) = (padded(a, width), padded(b, width));
        let (ha, hb) = (padded(a / 10, (width - 1) as nat), padded(b / 10, (width - 1) as nat));
        lemma_padded_len(a / 10, (width - 1) as nat);
        lemma_padded_len(b / 10, (width - 1) as nat);
        if a / 10 == b / 10 {
            let i = width - 1;
            assert(sa.subrange(0, i) =~= ha);
            assert(sb.subrange(0, i) =~= hb);
            lemma_digit_order(a % 10, b % 10);
            assert(first_difference(sa, sb, i));
        } else {
            lemma_padded_order(a / 10, b / 10, (width - 1) as nat);
            let i = choose|i: int|
                #[trigger] first_difference(ha, hb, i) && (i == ha.len() || ha[i] < hb[i]);
            assert(sa.subrange(0, i) =~= ha.subrange(0, i));
            assert(sb.subrange(0, i) =~= hb.subrange(0, i));
            assert(first_difference(sa, sb, i));
        }
    }
}

proof fn lemma_digit_order(a: nat, b: nat)
    requires
        a < b < 10,
    ensures
        digit_char(a) < digit_char(b),
{
}

pub proof fn lemma_padded_len(n: nat, width: nat)
    ensures
        padded(n, width).len() == width,
    decreases width,
{
    if width > 0 {
        lemma_padded_len(n / 10, (width - 1) as nat);
    }
}

/// The whole number nearest to `a / b`; of two equally near ones, the even one.
pub open spec fn rounded(a: int, b: int) -> int {
    let (q, r) = (a / b, a % b);
    if 2 * r < b {
        q
    } else if 2 * r > b {
        q + 1
    } else if q % 2 == 0 {
        q
    } else {
        q + 1
    }
}

/// Two to the power `k`.
pub open spec fn two_to(k: nat) -> nat
    decreases k,
{
    if k == 0 {
        1
    } else {
        2 * two_to((k - 1) as nat)
    }
}

/// How often `num` has to be doubled to reach `floor`.
pub open spec fn doublings(num: int, floor: int) -> nat
    decreases
            if num < floor {
                floor - num
            } else {
                0
            },
{
    if num <= 0 || num >= floor {
        0
    } else {
        1 + doublings(2 * num, floor)
    }
}

/// The tenths in the binary floating-point number, with a significand of
/// `bits` bits, nearest to `num / den`: the number is
/// `rounded(num * 2^s, den * 2^h) * 2^h / 2^s`, where at most one of `s` and `h`
/// is not zero.
pub open spec fn float_tenths(num: int, den: int, bits: nat) -> int {
    let s = doublings(num, den * two_to((bits - 1) as nat));
    let h = doublings((den * two_to(bits)) as int, num + 1);
    rounded(
        10 * rounded(num * two_to(s), den * two_to(h)) * two_to(h),
        two_to(s) as int,
    )
}

/// A number of tenths, with its one place behind the point.
pub open spec fn tenths_text(t: nat) -> Seq<char> {
    decimal(t / 10) + seq!['.', digit_char(t % 10)]
}

/// `num / den` as a floating-point number of `bits` significant bits, with one
/// place behind the point.
pub open spec fn float_text(num: int, den: int, bits: nat) -> Seq<char> {
    if num < 0 {
        seq!['-'] + tenths_text(float_tenths(-num, den, bits) as nat)
    } else {
        tenths_text(float_tenths(num, den, bits) as nat)
    }
}

/// The whole number nearest to `a / b`; of two equally near ones, the even one.
pub fn round_quotient(a: u128, b: u128) -> (q: u128)
    requires
        0 < b < 0x1_0000_0000_0000_0000_0000_0000_0000,
        a < 0x1_0000_0000_0000_0000_0000_0000_0000,
    ensures
        q == rounded(a as int, b as int),
        q <= a + 1,
{
    let q: u128 = a / b;
    let r: u128 = a % b;
    proof {
        assert(q <= a) by (nonlinear_arith)
            requires
                q == a / b,
                0 < b,
        ;
    }
    if 2 * r < b || (2 * r == b && q % 2 == 0) {
        q
    } else {
        q + 1
    }
}

/// Rounding does not leave the range of the exact quotient.
pub proof fn lemma_rounded_bound(a: int, b: int, top: int)
    requires
        0 < b,
        0 <= a < b * top,
    ensures
        0 <= rounded(a, b) <= top,
{
    assert(0 <= a / b < top) by (nonlinear_arith)
        requires
            0 < b,
            0 <= a < b * top,
    ;
}

/// Appends a number of tenths with one place behind the point.
pub fn push_tenths_text(out: &mut String, t: u64)
    ensures
        final(out)@ == old(out)@ + tenths_text(t as nat),
{
    proof {
        reveal_strlit(".");
    }
    push_decimal(out, t / 10);
    out.append(".");
    push_digit(out, (t % 10) as u8);
    proof {
        assert(out@ =~= old(out)@ + tenths_text(t as nat));
    }
}

/// The floating-point number of `bits` significant bits nearest to
/// `num / den`, as its significand, the power of two by which that is divided,
/// and the exponent of that power.
pub fn float_parts(num: u64, den: u64, bits: u32) -> (r: (u128, u128, u32))
    requires
        0 < den <= 1_000_000_000,
        1 <= bits <= 53,
    ensures
        r.2 == doublings(num as int, den * two_to((bits - 1) as nat)),
        r.2 < 84,
        r.1 == two_to(r.2 as nat),
        0 < r.1 < 0x10_0000_0000_0000_0000_0000,
        r.0 == rounded(num * two_to(r.2 as nat), den as int),
        r.0 < 0x100_0000_0000_0000_0000_0000_0000,
{
    let mut floor: u128 = den as u128;
    let mut k: u32 = 1;
    proof {
        assert(den * two_to(0) == den) by (nonlinear_arith)
            requires
                two_to(0) == 1,
        ;
        lemma_two_to_bounds();
    }
    while k < bits
        invariant
            1 <= k <= bits <= 53,
            0 < den <= 1_000_000_000,
            floor == den * two_to((k - 1) as nat),
            two_to(53) == 0x20_0000_0000_0000,
        decreases bits - k,
    {
        proof {
            assert(den * two_to(k as nat) == 2 * (den * two_to((k - 1) as nat)))
                by (nonlinear_arith)
                requires
                    two_to(k as nat) == 2 * two_to((k - 1) as nat),
            ;
            lemma_two_to_monotone(k as nat, 53);
            lemma_floor_fits(den as int, two_to(k as nat) as int);
        }
        floor = floor * 2;
        k = k + 1;
    }
    proof {
        lemma_two_to_monotone((bits - 1) as nat, 53);
        lemma_floor_fits(den as int, two_to((bits - 1) as nat) as int);
        assert(num * two_to(0) == num) by (nonlinear_arith)
            requires
                two_to(0) == 1,
        ;
    }
    let mut a: u128 = num as u128;
    let mut two: u128 = 1;
    let mut s: u32 = 0;
    while 0 < a && a < floor
        invariant
            floor <= 1_000_000_000 * 0x20_0000_0000_0000,
            doublings(num as int, floor as int) == s + doublings(a as int, floor as int),
            a == num * two_to(s as nat),
            two == two_to(s as nat),
            a < 2 * floor || s == 0,
            0 < num ==> two <= a,
            a > 0 ==> num > 0,
            num == 0 ==> s == 0,
            0 < two,
            s < 84,
        decreases
                if a < floor {
                    floor - a
                } else {
                    0
                },
    {
        proof {
            let next = (s + 1) as nat;
            assert(num * two_to(next) == 2 * (num * two_to(s as nat))) by (nonlinear_arith)
                requires
                    two_to(next) == 2 * two_to(s as nat),
            ;
            if s + 1 >= 84 {
                lemma_two_to_bounds();
                lemma_two_to_monotone(84, next);
            }
        }
        a = a * 2;
        two = two * 2;
        s = s + 1;
    }
    proof {
        if num == 0 {
            assert(a == 0) by (nonlinear_arith)
                requires
                    a == num * two_to(s as nat),
                    num == 0,
            ;
        }
    }
    (round_quotient(a, den as u128), two, s)
}

/// Two to the power `k`.
pub fn power_of_two(k: u32) -> (p: u128)
    requires
        k < 64,
    ensures
        p == two_to(k as nat),
        0 < p < 0x1_0000_0000_0000_0000,
{
    let mut p: u128 = 1;
    let mut i: u32 = 0;
    proof {
        lemma_two_to_bounds();
    }
    while i < k
        invariant
            i <= k < 64,
            p == two_to(i as nat),
            two_to(64) == 0x1_0000_0000_0000_0000,
        decreases k - i,
    {
        proof {
            lemma_two_to_monotone((i + 1) as nat, 64);
        }
        p = p * 2;
        i = i + 1;
    }
    proof {
        lemma_two_to_monotone(k as nat, 63);
    }
    p
}

/// How often `ceiling` has to be doubled to lie above `num`, and the power of
/// two that it is multiplied by then.
pub fn halvings(num: u64, ceiling: u128) -> (r: (u32, u128))
    requires
        0x1000_0000 <= ceiling <= num,
    ensures
        r.0 == doublings(ceiling as int, num + 1),
        r.1 == two_to(r.0 as nat),
        0 < r.0 <= 64,
        0 < r.1 <= 0x20_0000_0000,
        num < ceiling * r.1 <= 2 * num,
{
    let mut top: u128 = ceiling;
    let mut two: u128 = 1;
    let mut h: u32 = 0;
    proof {
        assert(ceiling * two_to(0) == ceiling) by (nonlinear_arith)
            requires
                two_to(0) == 1,
        ;
    }
    while top <= num as u128
        invariant
            0x1000_0000 <= ceiling <= num,
            two == two_to(h as nat),
            0 < two,
            h < two,
            0 < top,
            top == ceiling * two,
            top <= 2 * num,
            h == 0 ==> top <= num,
            doublings(ceiling as int, num + 1) == h + doublings(top as int, num + 1),
            h <= 64,
        decreases 2 * num - top,
    {
        proof {
            assert(0x1000_0000 * two <= num) by (nonlinear_arith)
                requires
                    top == ceiling * two,
                    top <= num,
                    0x1000_0000 <= ceiling,
            ;
            assert(ceiling * (2 * two) == 2 * (ceiling * two)) by (nonlinear_arith);
            lemma_two_to_bounds();
            if h >= 64 {
                lemma_two_to_monotone(64, h as nat);
            }
        }
        top = top * 2;
        two = two * 2;
        h = h + 1;
    }
    proof {
        assert(0x1000_0000 * two <= 2 * num) by (nonlinear_arith)
            requires
                top == ceiling * two,
                top <= 2 * num,
                0x1000_0000 <= ceiling,
        ;
    }
    (h, two)
}

fn float_tenths_of(num: u64, den: u64, bits: u32) -> (t: u64)
    requires
        100 <= den <= 1_000_000_000,
        24 <= bits <= 53,
    ensures
        t == float_tenths(num as int, den as int, bits as nat),
{
    let power: u128 = power_of_two(bits);
    proof {
        lemma_two_to_bounds();
        lemma_two_to_monotone(24, bits as nat);
        lemma_two_to_monotone(bits as nat, 53);
        lemma_floor_fits(den as int, power as int);
        assert(den * power >= 100 * 0x100_0000) by (nonlinear_arith)
            requires
                den >= 100,
                power >= 0x100_0000,
        ;
    }
    let ceiling: u128 = den as u128 * power;
    if (num as u128) < ceiling {
        let (m, two, s) = float_parts(num, den, bits);
        let t: u128 = round_quotient(10 * m, two);
        proof {
            assert(two_to(0) == 1);
            assert(den * two_to(0) == den) by (nonlinear_arith)
                requires
                    two_to(0) == 1,
            ;
            assert(10 * m * two_to(0) == 10 * m) by (nonlinear_arith)
                requires
                    two_to(0) == 1,
            ;
            lemma_tenths_fit(num as int, den as int, num * two, two as int, m as int);
        }
        t as u64
    } else {
        large_tenths(num, den, bits, ceiling)
    }
}

/// The tenths of a number that has more than `bits` bits before the point.
fn large_tenths(num: u64, den: u64, bits: u32, ceiling: u128) -> (t: u64)
    requires
        100 <= den <= 1_000_000_000,
        24 <= bits <= 53,
        ceiling == den * two_to(bits as nat),
        0x1000_0000 <= ceiling <= num,
    ensures
        t == float_tenths(num as int, den as int, bits as nat),
{
    let (h, two) = halvings(num, ceiling);
    proof {
        assert(0 < den * two <= 1_000_000_000 * 0x20_0000_0000) by (nonlinear_arith)
            requires
                0 < den <= 1_000_000_000,
                0 < two <= 0x20_0000_0000,
        ;
    }
    let d: u128 = den as u128 * two;
    let m: u128 = round_quotient(num as u128, d);
    proof {
        lemma_large_fits(num as int, den as int, two as int, m as int);
        let s = doublings(num as int, den * two_to((bits - 1) as nat));
        assert(den * two_to(bits as nat) == 2 * (den * two_to((bits - 1) as nat)))
            by (nonlinear_arith)
            requires
                two_to(bits as nat) == 2 * two_to((bits - 1) as nat),
        ;
        assert(s == 0);
        assert(num * two_to(0) == num) by (nonlinear_arith)
            requires
                two_to(0) == 1,
        ;
    }
    (10 * m * two) as u64
}

proof fn lemma_large_fits(num: int, den: int, two: int, m: int)
    requires
        0 <= num <= u64::MAX,
        100 <= den,
        0 < two <= 0x20_0000_0000,
        m == rounded(num, den * two),
    ensures
        0 <= m,
        0 <= 10 * m,
        0 <= 10 * m * two <= u64::MAX,
        m * two <= 0x1000_0000_0000_0000,
{
    let d = den * two;
    let q = num / d;
    assert(d >= 100) by (nonlinear_arith)
        requires
            d == den * two,
            100 <= den,
            1 <= two,
    ;
    assert(0 <= q && q * d <= num) by (nonlinear_arith)
        requires
            q == num / d,
            0 < d,
            0 <= num,
    ;
    assert(m <= q + 1);
    assert(100 * (q * two) <= num) by (nonlinear_arith)
        requires
            q * d <= num,
            d == den * two,
            100 <= den,
            0 <= q,
            0 < two,
    ;
    assert(m * two <= q * two + two) by (nonlinear_arith)
        requires
            m <= q + 1,
            0 < two,
    ;
    assert(0 <= m * two) by (nonlinear_arith)
        requires
            0 <= m,
            0 < two,
    ;
    assert(10 * m * two == 10 * (m * two)) by (nonlinear_arith);
}

proof fn lemma_floor_fits(den: int, two: int)
    requires
        0 < den <= 1_000_000_000,
        0 < two <= 0x20_0000_0000_0000,
    ensures
        den * two <= 1_000_000_000 * 0x20_0000_0000_0000,
{
    assert(den * two <= 1_000_000_000 * 0x20_0000_0000_0000) by (nonlinear_arith)
        requires
            0 < den <= 1_000_000_000,
            0 < two <= 0x20_0000_0000_0000,
    ;
}

/// The powers of two that bound significands.
pub proof fn lemma_two_to_bounds()
    ensures
        two_to(23) == 0x80_0000,
        two_to(24) == 0x100_0000,
        two_to(53) == 0x20_0000_0000_0000,
        two_to(64) == 0x1_0000_0000_0000_0000,
        two_to(84) == 0x10_0000_0000_0000_0000_0000,
{
    assert(two_to(23) == 0x80_0000) by {
        reveal_with_fuel(two_to, 24);
    }
    assert(two_to(53) == 0x20_0000_0000_0000) by {
        reveal_with_fuel(two_to, 31);
    }
    assert(two_to(64) == 0x1_0000_0000_0000_0000) by {
        reveal_with_fuel(two_to, 12);
    }
    assert(two_to(84) == 0x10_0000_0000_0000_0000_0000) by {
        reveal_with_fuel(two_to, 32);
    }
}

pub proof fn lemma_two_to_monotone(a: nat, b: nat)
    requires
        a <= b,
    ensures
        0 < two_to(a) <= two_to(b),
    decreases b,
{
    if a < b {
        lemma_two_to_monotone(a, (b - 1) as nat);
    } else if a > 0 {
        lemma_two_to_monotone((a - 1) as nat, (a - 1) as nat);
    }
}

proof fn lemma_tenths_fit(num: int, den: int, a: int, two: int, m: int)
    requires
        100 <= den,
        0 <= num <= u64::MAX,
        0 < two,
        a == num * two,
        m == rounded(a, den),
    ensures
        0 <= rounded(10 * m, two) <= u64::MAX,
{
    let top = num / 100 + 1;
    assert(num < den * top) by (nonlinear_arith)
        requires
            num < 100 * top,
            100 <= den,
            0 < top,
    ;
    assert(0 <= a < den * (top * two)) by (nonlinear_arith)
        requires
            a == num * two,
            0 <= num < den * top,
            0 < two,
    ;
    lemma_rounded_bound(a, den, top * two);
    assert(0 <= 10 * m < two * (10 * top + 1)) by (nonlinear_arith)
        requires
            0 <= m <= top * two,
            0 < two,
    ;
    lemma_rounded_bound(10 * m, two, 10 * top + 1);
}

/// Appends `num / den` as a floating-point number of `bits` significant bits
/// prints with one place behind the point.
pub fn push_float(out: &mut String, num: i128, den: u64, bits: u32)
    requires
        100 <= den <= 1_000_000_000,
        24 <= bits <= 53,
        -u64::MAX <= num <= u64::MAX,
    ensures
        final(out)@ == old(out)@ + float_text(num as int, den as int, bits as nat),
{
    if num < 0 {
        proof {
            reveal_strlit("-");
        }
        out.append("-");
        let t: u64 = float_tenths_of((-num) as u64, den, bits);
        push_tenths_text(out, t);
        proof {
            assert("-"@ =~= seq!['-']);
            assert(out@ =~= old(out)@ + float_text(num as int, den as int, bits as nat));
        }
    } else {
        let t: u64 = float_tenths_of(num as u64, den, bits);
        push_tenths_text(out, t);
    }
}

/// Appends `num / den` with one place behind the point; a half is rounded to
/// the even digit.
pub fn push_rounded_tenths(out: &mut String, num: u64, den: u64)
    requires
        1000 <= den,
    ensures
        final(out)@ == old(out)@ + tenths_text(rounded(10 * num, den as int) as nat),
{
    let t: u128 = round_quotient(10 * num as u128, den as u128);
    proof {
        assert(10 * num < den * (num / 2 + 1)) by (nonlinear_arith)
            requires
                1000 <= den,
        ;
        lemma_rounded_bound(10 * num, den as int, num / 2 + 1);
    }
    push_tenths_text(out, t as u64);
}

/// Appends the whole number nearest to `num / den`; a half is rounded to the
/// even number.
pub fn push_rounded(out: &mut String, num: u64, den: u64)
    requires
        1000 <= den,
    ensures
        final(out)@ == old(out)@ + decimal(rounded(num as int, den as int) as nat),
{
    let q: u128 = round_quotient(num as u128, den as u128);
    proof {
        assert(num < den * (num / 2 + 1)) by (nonlinear_arith)
            requires
                1000 <= den,
        ;
        lemma_rounded_bound(num as int, den as int, num / 2 + 1);
    }
    push_decimal(out, q as u64);
}

/// A text with blanks in front, `width` characters wide at the least.
pub open spec fn right_aligned(s: Seq<char>, width: nat) -> Seq<char> {
    Seq::new(
        if s.len() < width {
            (width - s.len()) as nat
        } else {
            0
        },
        |i: int| ' ',
    ) + s
}

/// Appends a text with blanks in front, `width` characters wide at the least.
pub fn push_right_aligned(out: &mut String, s: &str, width: usize)
    ensures
        final(out)@ == old(out)@ + right_aligned(s@, width as nat),
{
    let n: usize = s.unicode_len();
    let mut filled: usize = n;
    proof {
        reveal_strlit(" ");
    }
    let ghost mut blanks: Seq<char> = Seq::empty();
    while filled < width
        invariant
            n == s@.len(),
            n <= filled,
            filled <= width || filled == n,
            " "@ == seq![' '],
            blanks == Seq::new((filled - n) as nat, |i: int| ' '),
            out@ == old(out)@ + blanks,
        decreases width - filled,
    {
        out.append(" ");
        filled = filled + 1;
        proof {
            let more = Seq::new((filled - n) as nat, |i: int| ' ');
            assert(more =~= blanks + " "@);
            assert(out@ =~= old(out)@ + more);
            blanks = more;
        }
    }
    out.append(s);
    proof {
        assert(out@ =~= old(out)@ + right_aligned(s@, width as nat));
    }
}

/// The texts of owned strings.
pub open spec fn texts(v: Seq<String>) -> Seq<Seq<char>> {
    Seq::new(v.len(), |i: int| v[i]@)
}

pub fn push_text(list: &mut Vec<String>, s: &str)
    ensures
        texts(final(list)@) == texts(old(list)@).push(s@),
{
    list.push(String::from_str(s));
    proof {
        assert(texts(list@) =~= texts(old(list)@).push(s@));
    }
}

/// The texts one behind the other, with `sep` between them.
pub open spec fn joined(parts: Seq<Seq<char>>, sep: Seq<char>) -> Seq<char>
    decreases parts.len(),
{
    if parts.len() == 0 {
        Seq::empty()
    } else if parts.len() == 1 {
        parts[0]
    } else {
        joined(parts.drop_last(), sep) + sep + parts.last()
    }
}

/// Appends the texts one behind the other, with `sep` between them.
pub fn push_joined(out: &mut String, parts: &Vec<String>, sep: &str)
    ensures
        final(out)@ == old(out)@ + joined(texts(parts@), sep@),
{
    let n: usize = parts.len();
    let mut i: usize = 0;
    let ghost all = texts(parts@);
    proof {
        assert(out@ =~= old(out)@ + joined(all.take(0), sep@));
    }
    while i < n
        invariant
            i <= n,
            n == parts@.len(),
            all == texts(parts@),
            out@ == old(out)@ + joined(all.take(i as int), sep@),
        decreases n - i,
    {
        if i > 0 {
            out.append(sep);
        }
        out.append(parts[i].as_str());
        proof {
            let more = all.take(i + 1);
            assert(more.drop_last() =~= all.take(i as int));
            assert(more.last() == parts@[i as int]@);
            assert(out@ =~= old(out)@ + joined(more, sep@));
        }
        i = i + 1;
    }
    proof {
        assert(all.take(n as int) =~= all);
    }
}

/// The character of a hexadecimal digit.
pub open spec fn hex_char(d: nat) -> char {
    if d < 10 {
        digit_char(d)
    } else if d == 10 {
        'a'
    } else if d == 11 {
        'b'
    } else if d == 12 {
        'c'
    } else if d == 13 {
        'd'
    } else if d == 14 {
        'e'
    } else {
        'f'
    }
}

/// A byte as two hexadecimal digits.
pub open spec fn hex_byte(b: u8) -> Seq<char> {
    seq![hex_char((b / 16) as nat), hex_char((b % 16) as nat)]
}

fn push_hex_digit(out: &mut String, d: u8)
    requires
        d < 16,
    ensures
        final(out)@ == old(out)@.push(hex_char(d as nat)),
{
    if d < 10 {
        push_digit(out, d);
    } else {
        proof {
            reveal_strlit("a");
            reveal_strlit("b");
            reveal_strlit("c");
            reveal_strlit("d");
            reveal_strlit("e");
            reveal_strlit("f");
        }
        let digit: &str = match d {
            10 => "a",
            11 => "b",
            12 => "c",
            13 => "d",
            14 => "e",
            _ => "f",
        };
        out.append(digit);
        proof {
            assert(digit@ =~= seq![hex_char(d as nat)]);
            assert(out@ =~= old(out)@.push(hex_char(d as nat)));
        }
    }
}

/// Appends a byte as two hexadecimal digits.
pub fn push_hex_byte(out: &mut String, b: u8)
    ensures
        final(out)@ == old(out)@ + hex_byte(b),
{
    push_hex_digit(out, b / 16);
    push_hex_digit(out, b % 16);
    proof {
        assert(out@ =~= old(out)@ + hex_byte(b));
    }
}

/// A number of hundredths as the shortest decimal fraction.
pub open spec fn hundredths_text(n: int) -> Seq<char> {
    let magnitude = if n < 0 {
        -n
    } else {
        n
    };
    let part = (magnitude % 100) as nat;
    (if n < 0 {
        seq!['-']
    } else {
        Seq::empty()
    }) + decimal((magnitude / 100) as nat) + (if part == 0 {
        Seq::empty()
    } else if part % 10 == 0 {
        seq!['.', digit_char(part / 10)]
    } else {
        seq!['.', digit_char(part / 10), digit_char(part % 10)]
    })
}

/// Appends a number of hundredths as the shortest decimal fraction.
pub fn push_hundredths(out: &mut String, n: i16)
    ensures
        final(out)@ == old(out)@ + hundredths_text(n as int),
{
    proof {
        reveal_strlit("-");
        reveal_strlit(".");
        assert("-"@ =~= seq!['-']);
        assert("."@ =~= seq!['.']);
    }
    let magnitude: u64 = if n < 0 {
        (-(n as i64)) as u64
    } else {
        n as u64
    };
    if n < 0 {
        out.append("-");
    }
    push_decimal(out, magnitude / 100);
    let part: u8 = (magnitude % 100) as u8;
    if part != 0 {
        out.append(".");
        push_digit(out, part / 10);
        if part % 10 != 0 {
            push_digit(out, part % 10);
        }
    }
    proof {
        assert(out@ =~= old(out)@ + hundredths_text(n as int));
    }
}

/// Are these the same text?
pub fn same_text(a: &str, b: &str) -> (same: bool)
    ensures
        same == (a@ == b@),
{
    String::from_str(a) == String::from_str(b)
}

/// The number that a row of decimal digits spells.
pub open spec fn spelled(s: Seq<char>) -> int
    decreases s.len(),
{
    if s.len() == 0 {
        0
    } else {
        10 * spelled(s.drop_last()) + (s.last() as int - '0' as int)
    }
}

/// A digit is the character that stands that far behind zero.
pub proof fn lemma_digit(d: nat)
    requires
        d < 10,
    ensures
        digit_char(d) as int == '0' as int + d,
{
}

/// A number in decimal spells that number, in digits alone and without a zero in
/// front, unless it is zero itself.
pub proof fn lemma_decimal_reads_back(n: nat)
    ensures
        spelled(decimal(n)) == n,
        decimal(n).len() >= 1,
        forall|i: int| 0 <= i < decimal(n).len() ==> '0' <= #[trigger] decimal(n)[i] <= '9',
        n > 0 ==> decimal(n)[0] != '0',
    decreases n,
{
    if n < 10 {
        lemma_digit(n);
        reveal_with_fuel(spelled, 2);
        assert(decimal(n).drop_last() =~= Seq::<char>::empty());
    } else {
        lemma_decimal_reads_back(n / 10);
        lemma_digit(n % 10);
        assert(decimal(n).drop_last() =~= decimal(n / 10));
    }
}

/// A number of a given width spells that number, as far as the width holds it.
pub proof fn lemma_padded_reads_back(n: nat, width: nat)
    ensures
        spelled(padded(n, width)) == n % pow10(width),
        padded(n, width).len() == width,
        pow10(width) > 0,
    decreases width,
{
    if width > 0 {
        let p = pow10((width - 1) as nat);
        lemma_padded_reads_back(n / 10, (width - 1) as nat);
        lemma_digit(n % 10);
        assert(padded(n, width).drop_last() =~= padded(n / 10, (width - 1) as nat));
        assert(10 * ((n / 10) % p) + n % 10 == n % (10 * p)) by {
            vstd::arithmetic::div_mod::lemma_breakdown(n as int, 10, p as int);
        }
    } else {
        assert(n % 1 == 0);
    }
}

/// A number below zero has a sign in front of what it is without one.
pub proof fn lemma_sign(n: int)
    ensures
        n >= 0 ==> signed_decimal(n) == decimal(n as nat),
        n < 0 ==> signed_decimal(n)[0] == '-' && signed_decimal(n).subrange(
            1,
            signed_decimal(n).len() as int,
        ) == decimal((-n) as nat),
{
    if n < 0 {
        assert(signed_decimal(n).subrange(1, signed_decimal(n).len() as int) =~= decimal(
            (-n) as nat,
        ));
    }
}

/// Joined texts: one is itself; each further one comes behind a separator.
pub proof fn lemma_joined(parts: Seq<Seq<char>>, one: Seq<char>, sep: Seq<char>)
    ensures
        joined(Seq::empty(), sep).len() == 0,
        parts.len() == 0 ==> joined(parts.push(one), sep) == one,
        parts.len() > 0 ==> joined(parts.push(one), sep) == joined(parts, sep) + sep + one,
{
    assert(parts.push(one).drop_last() =~= parts);
}

/// A byte is written as its high half and its low half, in hexadecimal.
pub proof fn lemma_hex(b: u8)
    ensures
        hex_byte(b).len() == 2,
        b / 16 < 10 ==> hex_byte(b)[0] as int == '0' as int + b / 16,
        b / 16 >= 10 ==> hex_byte(b)[0] as int == 'a' as int + (b / 16 - 10),
        b % 16 < 10 ==> hex_byte(b)[1] as int == '0' as int + b % 16,
        b % 16 >= 10 ==> hex_byte(b)[1] as int == 'a' as int + (b % 16 - 10),
{
}

/// Rounding to the nearest whole number, a half going to the even one.
pub proof fn lemma_rounded_to_nearest(a: int, b: int)
    requires
        0 <= a,
        0 < b,
    ensures
        -b <= 2 * (rounded(a, b) * b - a) <= b,
        2 * (rounded(a, b) * b - a) == b || 2 * (rounded(a, b) * b - a) == -b ==> rounded(a, b) % 2
            == 0,
{
    let (q, r) = (a / b, a % b);
    assert(a == q * b + r && 0 <= r < b) by (nonlinear_arith)
        requires
            q == a / b,
            r == a % b,
            0 < b,
    ;
    assert((q + 1) * b == q * b + b) by (nonlinear_arith);
}

/// What follows the point: one digit for tenths; for hundredths as many as are
/// needed, and no point where there are none. A minus sign goes before the rest.
pub proof fn lemma_tenths_and_hundredths(whole: nat, d: nat, e: nat)
    requires
        d <= 9,
        1 <= e <= 9,
    ensures
        tenths_text(10 * whole + d) == decimal(whole) + seq!['.', digit_char(d)],
        hundredths_text((100 * whole) as int) == decimal(whole),
        hundredths_text((100 * whole + 10 * e) as int) == decimal(whole) + seq!['.', digit_char(e)],
        hundredths_text((100 * whole + 10 * d + e) as int) == decimal(whole) + seq![
            '.',
            digit_char(d),
            digit_char(e),
        ],
        hundredths_text(-((100 * whole + 10 * d + e) as int)) == seq!['-'] + hundredths_text(
            (100 * whole + 10 * d + e) as int,
        ),
{
    assert((100 * whole + 10 * d + e) % 100 == 10 * d + e);
    assert((100 * whole + 10 * d + e) / 100 == whole);
    assert((100 * whole + 10 * e) % 100 == 10 * e);
    assert((100 * whole + 10 * e) / 100 == whole);
    assert(hundredths_text((100 * whole) as int) =~= decimal(whole));
    assert(hundredths_text((100 * whole + 10 * e) as int) =~= decimal(whole) + seq![
        '.',
        digit_char(e),
    ]);
    assert(hundredths_text((100 * whole + 10 * d + e) as int) =~= decimal(whole) + seq![
        '.',
        digit_char(d),
        digit_char(e),
    ]);
    assert(hundredths_text(-((100 * whole + 10 * d + e) as int)) =~= seq!['-'] + hundredths_text(
        (100 * whole + 10 * d + e) as int,
    ));
}

/// A text is moved to the right by blanks before it, up to the width, and never
/// cut.
pub proof fn lemma_right_aligned(s: Seq<char>, width: nat, i: int)
    ensures
        right_aligned(s, width).len() == if s.len() < width {
            width
        } else {
            s.len()
        },
        right_aligned(s, width).subrange(
            right_aligned(s, width).len() - s.len(),
            right_aligned(s, width).len() as int,
        ) == s,
        0 <= i < right_aligned(s, width).len() - s.len() ==> right_aligned(s, width)[i] == ' ',
{
    assert(right_aligned(s, width).subrange(
        right_aligned(s, width).len() - s.len(),
        right_aligned(s, width).len() as int,
    ) =~= s);
}

} // verus!
