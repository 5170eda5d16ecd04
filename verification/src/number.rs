//! Reading a single precision number from its decimal numeral.

use vstd::arithmetic::power2::lemma_pow2_adds;
use vstd::arithmetic::power2::lemma_pow2_pos;
use vstd::arithmetic::power2::lemma_pow2_unfold;
use vstd::arithmetic::power2::pow2;
use vstd::prelude::*;
use vstd::slice::slice_subrange;

use crate::natural::Natural;
use crate::natural::Order;
use crate::scalar::Scalar;
use crate::scalar;
use crate::text::chars_of;
use crate::text::is_word;
use crate::text::lowered;
use crate::text::numeral;
use crate::text;

verus! {

/// How many decimal digits `s` begins with.
pub open spec fn leading_digits(s: Seq<char>) -> nat
    decreases s.len(),
{
    if s.len() > 0 && text::is_digit(s[0]) {
        1 + leading_digits(s.drop_first())
    } else {
        0
    }
}

/// Whether `s` begins with a minus sign.
pub open spec fn has_minus(s: Seq<char>) -> bool {
    s.len() > 0 && s[0] == '-'
}

/// `s` without the sign that it may begin with.
pub open spec fn without_sign(s: Seq<char>) -> Seq<char> {
    if s.len() > 0 && (s[0] == '-' || s[0] == '+') {
        s.drop_first()
    } else {
        s
    }
}

/// The exponent that the end of a numeral gives: none is written, or an `e` of either case, a sign
/// if any, and at least one digit.
pub open spec fn exponent_of(s: Seq<char>) -> Option<int> {
    if s.len() == 0 {
        Some(0)
    } else if s[0] == 'e' || s[0] == 'E' {
        let digits = without_sign(s.drop_first());
        if digits.len() > 0 && text::all_digits(digits) {
            if has_minus(s.drop_first()) {
                Some(-(text::digits_value(digits) as int))
            } else {
                Some(text::digits_value(digits) as int)
            }
        } else {
            None
        }
    } else {
        None
    }
}

/// The digits of a numeral without a sign, and the power of ten that the last one counts for.
/// There may be a point anywhere among the digits, of which there is at least one.
pub open spec fn numeral_of(s: Seq<char>) -> Option<(Seq<char>, int)> {
    let n = leading_digits(s);
    let rest = s.skip(n as int);
    let (digits, places, tail) = if rest.len() > 0 && rest[0] == '.' {
        let after = rest.drop_first();
        let m = leading_digits(after);
        (s.take(n as int) + after.take(m as int), m, after.skip(m as int))
    } else {
        (s.take(n as int), 0, rest)
    };
    if digits.len() == 0 {
        None
    } else {
        match exponent_of(tail) {
            Some(e) => Some((digits, e - places)),
            None => None,
        }
    }
}

/// Of the number `n * 10^e`, the numerator in units of two to the power of minus 149.
pub open spec fn numerator(n: nat, e: int) -> nat {
    if e >= 0 {
        n * scalar::ten_to(e as nat) * pow2(149)
    } else {
        n * pow2(149)
    }
}

/// Of the number `n * 10^e`, the denominator.
pub open spec fn denominator(e: int) -> nat {
    if e >= 0 {
        1
    } else {
        scalar::ten_to((-e) as nat)
    }
}

/// What the pattern `b`, without a sign bit, stands for.
pub open spec fn size_at(b: nat) -> nat {
    (Scalar { bits: b as u32 }).size()
}

/// Whether `num / den` is nearer to the pattern above `b` than to `b`, or as near to both and `b`
/// is odd.
pub open spec fn passes(num: nat, den: nat, b: nat) -> bool {
    let middle = den * (size_at(b) + size_at(b + 1));
    2 * num > middle || (2 * num == middle && b % 2 == 1)
}

/// The first pattern from `b` on that `num / den` does not pass, at most that of infinity.
pub open spec fn rounded_from(num: nat, den: nat, b: nat) -> nat
    decreases 0x7F80_0000 - b,
{
    if b >= 0x7F80_0000 || !passes(num, den, b) {
        b
    } else {
        rounded_from(num, den, b + 1)
    }
}

/// The pattern nearest to `num / den`, and the even one of two that are equally near.
pub open spec fn nearest_pattern(num: nat, den: nat) -> nat {
    rounded_from(num, den, 0)
}

/// The pattern `b` with a sign.
pub open spec fn signed(negative: bool, b: nat) -> Scalar {
    if negative {
        Scalar { bits: (b + 0x8000_0000) as u32 }
    } else {
        Scalar { bits: b as u32 }
    }
}

/// The number that `s` stands for: after a sign, if any, a numeral, or the word `inf`, `infinity`
/// or `nan` in letters of either case.
pub open spec fn number_value(s: Seq<char>) -> Option<Scalar> {
    let body = without_sign(s);
    match numeral_of(body) {
        Some((digits, e)) => Some(
            signed(
                has_minus(s),
                nearest_pattern(numerator(text::digits_value(digits), e), denominator(e)),
            ),
        ),
        None => {
            let word = text::ascii_lowercase(body);
            if word == "inf"@ || word == "infinity"@ {
                Some(signed(has_minus(s), 0x7F80_0000))
            } else if word == "nan"@ {
                Some(signed(has_minus(s), 0x7FC0_0000))
            } else {
                None
            }
        },
    }
}

proof fn ten_to_adds(a: nat, b: nat)
    ensures
        scalar::ten_to(a) * scalar::ten_to(b) == scalar::ten_to(a + b),
        scalar::ten_to(a) > 0,
    decreases a,
{
    if a == 0 {
        assert(1 * scalar::ten_to(b) == scalar::ten_to(b));
    } else {
        let c = (a - 1) as nat;
        ten_to_adds(c, b);
        let x = scalar::ten_to(c);
        let y = scalar::ten_to(b);
        assert((10 * x) * y == 10 * (x * y)) by (nonlinear_arith);
        assert((a + b - 1) as nat == c + b);
    }
}

proof fn ten_to_grows(a: nat, b: nat)
    requires
        a <= b,
    ensures
        0 < scalar::ten_to(a) <= scalar::ten_to(b),
{
    ten_to_adds(a, (b - a) as nat);
    ten_to_adds((b - a) as nat, 0);
    let x = scalar::ten_to(a);
    let y = scalar::ten_to((b - a) as nat);
    assert(x <= x * y) by (nonlinear_arith)
        requires
            x > 0,
            y > 0,
    ;
}

proof fn denominator_positive(e: int)
    ensures
        denominator(e) > 0,
{
    if e < 0 {
        ten_to_adds((-e) as nat, 0);
    }
}

/// The two patterns `b` and `b + 1` add up to an odd multiple of half their distance.
pub proof fn neighbours(b: nat)
    requires
        b < 0x7F80_0000,
    ensures
        ({
            let x = Scalar { bits: b as u32 };
            let step = if x.exponent() == 0 {
                0
            } else {
                (x.exponent() - 1) as nat
            };
            size_at(b) + size_at(b + 1) == (2 * x.significand() + 1) * pow2(step)
        }),
        size_at(b) < size_at(b + 1),
{
    let x = Scalar { bits: b as u32 };
    let y = Scalar { bits: (b + 1) as u32 };
    scalar::size_follows_magnitude(x, y);
    vstd::arithmetic::power2::lemma2_to64();
    if x.exponent() == 0 {
        assert(x.size() == b);
        if b + 1 < 0x80_0000 {
            assert(y.size() == b + 1);
        } else {
            assert(y.exponent() == 1);
            assert(y.size() == 0x80_0000 * pow2(0));
        }
        assert((2 * x.significand() + 1) * pow2(0) == 2 * b + 1) by (nonlinear_arith)
            requires
                pow2(0) == 1,
                x.significand() == b,
        ;
    } else {
        let e = (x.exponent() - 1) as nat;
        let p = pow2(e);
        let m = x.significand();
        if y.exponent() == x.exponent() {
            assert(y.significand() == m + 1);
        } else {
            assert(y.exponent() == x.exponent() + 1);
            assert(y.significand() == 0x80_0000);
            assert(m == 0xFF_FFFF);
            lemma_pow2_unfold(x.exponent());
            assert(0x80_0000 * (2 * p) == (m + 1) * p) by (nonlinear_arith)
                requires
                    m == 0xFF_FFFF,
            ;
        }
        assert(m * p + (m + 1) * p == (2 * m + 1) * p) by (nonlinear_arith);
    }
}

/// A number that passes a pattern passes every lower one.
pub proof fn passes_below(num: nat, den: nat, b: nat, c: nat)
    requires
        den > 0,
        c <= b < 0x7F80_0000,
        passes(num, den, b),
    ensures
        passes(num, den, c),
    decreases b - c,
{
    if c < b {
        passes_below(num, den, b, c + 1);
        neighbours(c);
        neighbours(c + 1);
        let s = size_at(c) + size_at(c + 1);
        let t = size_at(c + 1) + size_at(c + 2);
        assert(den * s < den * t) by (nonlinear_arith)
            requires
                den > 0,
                s < t,
        ;
        assert(c + 1 + 1 == c + 2);
    }
}

/// The pattern that a number rounds to is the one below which it passes all and which it does not
/// pass.
pub proof fn rounded_is(num: nat, den: nat, from: nat, b: nat)
    requires
        den > 0,
        from <= b <= 0x7F80_0000,
        b > 0 ==> passes(num, den, (b - 1) as nat),
        b < 0x7F80_0000 ==> !passes(num, den, b),
    ensures
        rounded_from(num, den, from) == b,
    decreases b - from,
{
    if from < b {
        passes_below(num, den, (b - 1) as nat, from);
        rounded_is(num, den, from + 1, b);
    }
}

proof fn digits_bounds(d: Seq<char>)
    requires
        d.len() > 0,
        text::all_digits(d),
    ensures
        text::digits_value(d) < scalar::ten_to(d.len()),
        d[0] != '0' ==> text::digits_value(d) >= scalar::ten_to((d.len() - 1) as nat),
    decreases d.len(),
{
    let front = d.drop_last();
    assert(text::is_digit(d.last()));
    if d.len() == 1 {
        assert(text::digits_value(front) == 0);
        reveal_with_fuel(scalar::ten_to, 2);
        assert(d.last() == d[0]);
    } else {
        assert(text::all_digits(front)) by {
            assert forall|i: int| 0 <= i < front.len() implies text::is_digit(
                #[trigger] front[i],
            ) by {
                assert(front[i] == d[i]);
            }
        }
        digits_bounds(front);
        assert(front[0] == d[0]);
    }
}

proof fn large_powers()
    ensures
        scalar::ten_to(39) == 1_000_000_000_000_000_000_000_000_000_000_000_000_000,
        scalar::ten_to(46) == 10_000_000_000_000_000_000_000_000_000_000_000_000_000_000_000,
        pow2(128) == 0x1_0000_0000_0000_0000_0000_0000_0000_0000,
        pow2(150) == 0x40_0000 * 0x1_0000_0000_0000_0000_0000_0000_0000_0000,
        2 * pow2(149) == pow2(150),
        pow2(277) == pow2(128) * pow2(149),
{
    reveal_with_fuel(scalar::ten_to, 24);
    assert(scalar::ten_to(23) == 100_000_000_000_000_000_000_000);
    ten_to_adds(23, 16);
    ten_to_adds(23, 23);
    vstd::arithmetic::power2::lemma2_to64();
    lemma_pow2_adds(64, 64);
    lemma_pow2_adds(128, 22);
    lemma_pow2_adds(128, 149);
    lemma_pow2_unfold(150);
}

/// No pattern up to infinity stands for more than two to the power of 128.
proof fn size_at_most(b: nat)
    requires
        b <= 0x7F80_0000,
    ensures
        size_at(b) <= pow2(277),
{
    let top = Scalar { bits: 0x7F80_0000 };
    assert(top.size() == 0x80_0000 * pow2(254));
    vstd::arithmetic::power2::lemma2_to64();
    lemma_pow2_adds(23, 254);
    if b < 0x7F80_0000 {
        scalar::size_follows_magnitude(Scalar { bits: b as u32 }, top);
    }
}

/// A number of 40 digits or more before the point is too large for any finite pattern.
proof fn large_rounds_to_infinity(digits: Seq<char>, e: int)
    requires
        digits.len() > 0,
        text::all_digits(digits),
        digits[0] != '0',
        digits.len() - 1 + e >= 39,
    ensures
        nearest_pattern(numerator(text::digits_value(digits), e), denominator(e)) == 0x7F80_0000,
{
    let n = text::digits_value(digits);
    let num = numerator(n, e);
    let den = denominator(e);
    digits_bounds(digits);
    large_powers();
    denominator_positive(e);
    let one = pow2(149);
    lemma_pow2_pos(149);
    let top = (digits.len() - 1) as nat;
    if e >= 0 {
        ten_to_adds(top, e as nat);
        ten_to_grows(39, top + e as nat);
        let t = scalar::ten_to(e as nat);
        assert(n * t >= scalar::ten_to(top) * t) by (nonlinear_arith)
            requires
                n >= scalar::ten_to(top),
                t >= 0,
        ;
        assert(n * t >= scalar::ten_to(39));
        assert(n * t * one >= scalar::ten_to(39) * one) by (nonlinear_arith)
            requires
                n * t >= scalar::ten_to(39),
                one > 0,
        ;
        assert(num >= scalar::ten_to(39) * one);
        assert(den * (scalar::ten_to(39) * one) == scalar::ten_to(39) * one) by (nonlinear_arith)
            requires
                den == 1,
        ;
    } else {
        ten_to_adds(39, (-e) as nat);
        ten_to_grows((39 - e) as nat, top);
        assert(n >= scalar::ten_to(39) * den);
        assert(n * one >= den * (scalar::ten_to(39) * one)) by (nonlinear_arith)
            requires
                n >= scalar::ten_to(39) * den,
                one > 0,
        ;
    }
    assert(num >= den * (scalar::ten_to(39) * one));
    assert(den * (scalar::ten_to(39) * one) > den * (pow2(128) * one)) by (nonlinear_arith)
        requires
            scalar::ten_to(39) > pow2(128),
            den > 0,
            one > 0,
    ;
    let b = 0x7F7F_FFFFnat;
    size_at_most(b);
    size_at_most(b + 1);
    let s = size_at(b) + size_at(b + 1);
    assert(den * s <= 2 * (den * pow2(277))) by (nonlinear_arith)
        requires
            s <= 2 * pow2(277),
            den > 0,
    ;
    assert(passes(num, den, b));
    rounded_is(num, den, 0, 0x7F80_0000);
}

/// A number below ten to the power of minus 46 is too small for any pattern but zero.
proof fn small_rounds_to_zero(digits: Seq<char>, e: int)
    requires
        digits.len() > 0,
        text::all_digits(digits),
        digits.len() + e <= -46,
    ensures
        nearest_pattern(numerator(text::digits_value(digits), e), denominator(e)) == 0,
{
    let n = text::digits_value(digits);
    let num = numerator(n, e);
    let den = denominator(e);
    digits_bounds(digits);
    large_powers();
    denominator_positive(e);
    ten_to_adds(46, digits.len());
    ten_to_grows(46 + digits.len(), (-e) as nat);
    let t = scalar::ten_to(46);
    let u = scalar::ten_to(digits.len());
    assert(t * n < t * u) by (nonlinear_arith)
        requires
            n < u,
            t > 0,
    ;
    assert(pow2(150) * n <= t * n) by (nonlinear_arith)
        requires
            pow2(150) <= t,
            n >= 0,
    ;
    assert(2 * num == pow2(150) * n) by (nonlinear_arith)
        requires
            num == n * pow2(149),
            pow2(150) == 2 * pow2(149),
    ;
    let zero = Scalar { bits: 0 };
    let first = Scalar { bits: 1 };
    assert(zero.size() == 0);
    assert(first.size() == 1);
    assert(den * (size_at(0) + size_at(1)) == den) by (nonlinear_arith)
        requires
            size_at(0) == 0,
            size_at(1) == 1,
    ;
    assert(!passes(num, den, 0));
}

/// Multiplies `n` by two to the power of `k`.
pub fn multiply_by_two_to(n: &mut Natural, k: u32)
    ensures
        final(n)@ == old(n)@ * pow2(k as nat),
{
    let mut i: u32 = 0;
    proof {
        vstd::arithmetic::power2::lemma2_to64();
        assert(n@ * 1 == n@);
    }
    while k - i >= 31
        invariant
            i <= k,
            n@ == old(n)@ * pow2(i as nat),
        decreases k - i,
    {
        n.multiply_add(0x8000_0000, 0);
        proof {
            vstd::arithmetic::power2::lemma2_to64();
            vstd::arithmetic::power2::lemma_pow2_adds(i as nat, 31);
            let x = old(n)@;
            let p = pow2(i as nat);
            assert(x * p * 0x8000_0000 == x * (p * 0x8000_0000)) by (nonlinear_arith);
        }
        i = i + 31;
    }
    while i < k
        invariant
            i <= k,
            n@ == old(n)@ * pow2(i as nat),
        decreases k - i,
    {
        n.multiply_add(2, 0);
        proof {
            lemma_pow2_unfold((i + 1) as nat);
            let x = old(n)@;
            let p = pow2(i as nat);
            assert(x * p * 2 == x * (2 * p)) by (nonlinear_arith);
        }
        i = i + 1;
    }
}

fn multiply_by_ten_to(n: &mut Natural, k: u128)
    ensures
        final(n)@ == old(n)@ * scalar::ten_to(k as nat),
{
    let mut i: u128 = 0;
    proof {
        assert(n@ * 1 == n@);
    }
    while i < k
        invariant
            i <= k,
            n@ == old(n)@ * scalar::ten_to(i as nat),
        decreases k - i,
    {
        n.multiply_add(10, 0);
        proof {
            let x = old(n)@;
            let p = scalar::ten_to(i as nat);
            assert(x * p * 10 == x * (10 * p)) by (nonlinear_arith);
            assert(((i + 1) - 1) as nat == i);
        }
        i = i + 1;
    }
}

fn read_digits(digits: &[char]) -> (r: Natural)
    requires
        text::all_digits(digits@),
    ensures
        r@ == text::digits_value(digits@),
{
    let mut n = Natural::new(0);
    let mut i: usize = 0;
    while i < digits.len()
        invariant
            i <= digits@.len(),
            text::all_digits(digits@),
            n@ == text::digits_value(digits@.take(i as int)),
        decreases digits@.len() - i,
    {
        assert(text::is_digit(digits@[i as int]));
        assert(digits@.take(i + 1).drop_last() =~= digits@.take(i as int));
        n.multiply_add(10, digits[i] as u32 - 48);
        i = i + 1;
    }
    assert(digits@.take(i as int) =~= digits@);
    n
}

/// Whether half of `double` over `den` is nearer to the pattern above `b` than to `b`.
fn does_pass(double: &Natural, den: &Natural, b: u32) -> (r: bool)
    requires
        b < 0x7F80_0000,
        double@ % 2 == 0,
    ensures
        r == passes(double@ / 2, den@, b as nat),
{
    let exponent: u32 = b / 0x80_0000;
    let fraction: u32 = b % 0x80_0000;
    let (step, significand): (u32, u32) = if exponent == 0 {
        (0, fraction)
    } else {
        (exponent - 1, 0x80_0000 + fraction)
    };
    let mut middle = den.copy();
    middle.multiply_add(2 * significand + 1, 0);
    multiply_by_two_to(&mut middle, step);
    proof {
        neighbours(b as nat);
        let x = Scalar { bits: b };
        assert(x.significand() == significand);
        let m = (2 * significand + 1) as nat;
        let p = pow2(step as nat);
        assert(den@ * m * p == den@ * (m * p)) by (nonlinear_arith);
        assert(m * p == size_at(b as nat) + size_at(b as nat + 1));
    }
    match double.compare(&middle) {
        Order::Above => true,
        Order::Equal => b % 2 == 1,
        Order::Below => false,
    }
}

/// The pattern nearest to half of `double` over `den`.
pub fn nearest_ratio(double: &Natural, den: &Natural) -> (r: u32)
    requires
        double@ % 2 == 0,
        den@ > 0,
    ensures
        r == nearest_pattern(double@ / 2, den@),
        r <= 0x7F80_0000,
{
    let ghost num = double@ / 2;
    let mut lo: u32 = 0;
    let mut hi: u32 = 0x7F80_0000;
    while lo < hi
        invariant
            lo <= hi <= 0x7F80_0000,
            double@ == 2 * num,
            den@ > 0,
            lo > 0 ==> passes(num, den@, (lo - 1) as nat),
            hi < 0x7F80_0000 ==> !passes(num, den@, hi as nat),
        decreases hi - lo,
    {
        let mid: u32 = lo + (hi - lo) / 2;
        if does_pass(double, den, mid) {
            lo = mid + 1;
        } else {
            hi = mid;
        }
    }
    proof {
        rounded_is(num, den@, 0, lo as nat);
    }
    lo
}

/// The pattern nearest to half of `double` over `den`. It is found at once if it is `guess`.
pub fn nearest_ratio_to(double: &Natural, den: &Natural, guess: u32) -> (r: u32)
    requires
        double@ % 2 == 0,
        den@ > 0,
    ensures
        r == nearest_pattern(double@ / 2, den@),
        r <= 0x7F80_0000,
{
    if guess < 0x7F80_0000 && !does_pass(double, den, guess) && (guess == 0 || does_pass(
        double,
        den,
        guess - 1,
    )) {
        proof {
            rounded_is(double@ / 2, den@, 0, guess as nat);
        }
        return guess;
    }
    nearest_ratio(double, den)
}

/// The pattern nearest to the number that `digits` stand for, times ten to the power of `e`.
fn nearest(digits: &[char], e: i128) -> (r: u32)
    requires
        text::all_digits(digits@),
        -200_000_000_000_000_000_000 <= e <= 200_000_000_000_000_000_000,
    ensures
        r == nearest_pattern(
            numerator(text::digits_value(digits@), e as int),
            denominator(e as int),
        ),
        r <= 0x7F80_0000,
{
    let mut z: usize = 0;
    while z < digits.len() && digits[z] == '0'
        invariant
            z <= digits@.len(),
            text::digits_value(digits@.take(z as int)) == 0,
        decreases digits@.len() - z,
    {
        assert(digits@.take(z + 1).drop_last() =~= digits@.take(z as int));
        z = z + 1;
    }
    let tail = slice_subrange(digits, z, digits.len());
    proof {
        leading_zeros_count_nothing(digits@, z as nat);
        assert(tail@ =~= digits@.skip(z as int));
        assert forall|i: int| 0 <= i < tail@.len() implies text::is_digit(#[trigger] tail@[i]) by {
            assert(tail@[i] == digits@[i + z]);
        }
    }
    let ghost n = text::digits_value(digits@);
    let ghost num = numerator(n, e as int);
    let ghost den = denominator(e as int);
    proof {
        denominator_positive(e as int);
    }
    let count: i128 = tail.len() as i128;
    if count == 0 {
        proof {
            assert(n == 0);
            zero_rounds_to_zero(e as int);
        }
        return 0;
    }
    if count - 1 + e >= 39 {
        proof {
            large_rounds_to_infinity(tail@, e as int);
        }
        return 0x7F80_0000;
    }
    if count + e <= -46 {
        proof {
            small_rounds_to_zero(tail@, e as int);
        }
        return 0;
    }
    let mut double = read_digits(tail);
    let mut below = Natural::new(1);
    if e >= 0 {
        multiply_by_ten_to(&mut double, e as u128);
    } else {
        multiply_by_ten_to(&mut below, (-e) as u128);
        assert(1 * den == den);
    }
    multiply_by_two_to(&mut double, 150);
    proof {
        large_powers();
        let one = pow2(149);
        let t = if e >= 0 {
            n * scalar::ten_to(e as nat)
        } else {
            n
        };
        assert(t * pow2(150) == 2 * (t * one)) by (nonlinear_arith)
            requires
                pow2(150) == 2 * one,
        ;
    }
    assert(double@ == 2 * num);
    nearest_ratio(&double, &below)
}

proof fn leading_zeros_count_nothing(d: Seq<char>, z: nat)
    requires
        z <= d.len(),
        text::digits_value(d.take(z as int)) == 0,
    ensures
        text::digits_value(d) == text::digits_value(d.skip(z as int)),
    decreases d.len(),
{
    if z == d.len() {
        assert(d.take(z as int) =~= d);
    } else {
        let front = d.drop_last();
        assert(front.take(z as int) =~= d.take(z as int));
        leading_zeros_count_nothing(front, z);
        assert(d.skip(z as int).drop_last() =~= front.skip(z as int));
    }
}

proof fn leading_digits_are_digits(s: Seq<char>)
    ensures
        leading_digits(s) <= s.len(),
        text::all_digits(s.take(leading_digits(s) as int)),
    decreases s.len(),
{
    let n = leading_digits(s);
    if n > 0 {
        leading_digits_are_digits(s.drop_first());
        assert forall|i: int| 0 <= i < n implies text::is_digit(#[trigger] s.take(n as int)[i]) by {
            if i > 0 {
                let t = s.drop_first();
                assert(t.take(leading_digits(t) as int)[i - 1] == s.take(n as int)[i]);
            }
        }
    }
}

fn count_digits(s: &[char]) -> (r: usize)
    ensures
        r == leading_digits(s@),
        r <= s@.len(),
        text::all_digits(s@.take(r as int)),
{
    let mut i: usize = 0;
    assert(s@.skip(0) =~= s@);
    while i < s.len() && '0' <= s[i] && s[i] <= '9'
        invariant
            i <= s@.len(),
            leading_digits(s@) == i + leading_digits(s@.skip(i as int)),
        decreases s@.len() - i,
    {
        assert(s@.skip(i as int).drop_first() =~= s@.skip(i + 1));
        i = i + 1;
    }
    proof {
        leading_digits_are_digits(s@);
    }
    i
}

/// The largest exponent that is told apart from larger ones. No text is as long as this number.
pub const EXPONENT_CAP: u128 = 100_000_000_000_000_000_000;

proof fn digits_value_of_front(d: Seq<char>, i: int)
    requires
        0 <= i <= d.len(),
        text::all_digits(d),
    ensures
        text::digits_value(d.take(i)) <= text::digits_value(d),
    decreases d.len() - i,
{
    if i < d.len() {
        digits_value_of_front(d, i + 1);
        assert(d.take(i + 1).drop_last() =~= d.take(i));
    } else {
        assert(d.take(i) =~= d);
    }
}

/// The number that `digits` stand for, or the cap if that is smaller.
fn read_capped(digits: &[char]) -> (r: u128)
    requires
        text::all_digits(digits@),
    ensures
        r <= EXPONENT_CAP,
        r < EXPONENT_CAP ==> r == text::digits_value(digits@),
        r == EXPONENT_CAP ==> text::digits_value(digits@) >= EXPONENT_CAP,
{
    let mut value: u128 = 0;
    let mut i: usize = 0;
    while i < digits.len()
        invariant
            i <= digits@.len(),
            text::all_digits(digits@),
            value < EXPONENT_CAP,
            value == text::digits_value(digits@.take(i as int)),
        decreases digits@.len() - i,
    {
        assert(text::is_digit(digits@[i as int]));
        assert(digits@.take(i + 1).drop_last() =~= digits@.take(i as int));
        let next: u128 = value * 10 + (digits[i] as u128 - 48);
        if next >= EXPONENT_CAP {
            proof {
                digits_value_of_front(digits@, i + 1);
            }
            return EXPONENT_CAP;
        }
        value = next;
        i = i + 1;
    }
    assert(digits@.take(i as int) =~= digits@);
    value
}

/// Whether `capped` is `e`, or both are beyond the cap on the same side.
pub open spec fn caps(e: int, capped: int) -> bool {
    ||| capped == e && -EXPONENT_CAP < e < EXPONENT_CAP
    ||| capped == EXPONENT_CAP && e >= EXPONENT_CAP
    ||| capped == -EXPONENT_CAP && e <= -EXPONENT_CAP
}

fn read_exponent(s: &[char]) -> (r: Option<i128>)
    ensures
        match r {
            Some(capped) => exponent_of(s@) is Some && caps(exponent_of(s@)->0, capped as int),
            None => exponent_of(s@) is None,
        },
{
    if s.len() == 0 {
        return Some(0);
    }
    if s[0] != 'e' && s[0] != 'E' {
        return None;
    }
    let after = slice_subrange(s, 1, s.len());
    assert(after@ =~= s@.drop_first());
    let signed = after.len() > 0 && (after[0] == '-' || after[0] == '+');
    let minus = after.len() > 0 && after[0] == '-';
    let digits = if signed {
        slice_subrange(after, 1, after.len())
    } else {
        after
    };
    assert(digits@ =~= without_sign(s@.drop_first()));
    let n: usize = count_digits(digits);
    if digits.len() == 0 {
        return None;
    }
    if n < digits.len() {
        proof {
            first_that_is_no_digit(digits@);
        }
        return None;
    }
    assert(digits@.take(n as int) =~= digits@);
    let value: u128 = read_capped(digits);
    if minus {
        Some(-(value as i128))
    } else {
        Some(value as i128)
    }
}

proof fn first_that_is_no_digit(s: Seq<char>)
    requires
        leading_digits(s) < s.len(),
    ensures
        !text::is_digit(s[leading_digits(s) as int]),
    decreases s.len(),
{
    if text::is_digit(s[0]) {
        first_that_is_no_digit(s.drop_first());
    }
}

/// An exponent beyond the cap gives the same pattern as the cap.
proof fn cap_is_enough(digits: Seq<char>, e: int, places: nat, capped: int)
    requires
        text::all_digits(digits),
        0 < digits.len() <= u64::MAX,
        places <= digits.len(),
        caps(e, capped),
    ensures
        nearest_pattern(numerator(text::digits_value(digits), e - places), denominator(e - places))
            == nearest_pattern(
            numerator(text::digits_value(digits), capped - places),
            denominator(capped - places),
        ),
{
    if e != capped {
        let x = e - places;
        let y = capped - places;
        if text::digits_value(digits) == 0 {
            zero_rounds_to_zero(x);
            zero_rounds_to_zero(y);
        } else if e > 0 {
            let z = zeros(digits);
            zeros_are_few(digits);
            leading_zeros_count_nothing(digits, z);
            let tail = digits.skip(z as int);
            tail_digits(digits, z);
            large_rounds_to_infinity(tail, x);
            large_rounds_to_infinity(tail, y);
        } else {
            small_rounds_to_zero(digits, x);
            small_rounds_to_zero(digits, y);
        }
    }
}

/// How many zeros `d` begins with.
spec fn zeros(d: Seq<char>) -> nat
    decreases d.len(),
{
    if d.len() > 0 && d[0] == '0' {
        1 + zeros(d.drop_first())
    } else {
        0
    }
}

proof fn zeros_are_few(d: Seq<char>)
    requires
        text::digits_value(d) != 0,
    ensures
        zeros(d) < d.len(),
        text::digits_value(d.take(zeros(d) as int)) == 0,
        d[zeros(d) as int] != '0',
    decreases d.len(),
{
    if d.len() > 0 && d[0] == '0' {
        let t = d.drop_first();
        assert(text::digits_value(d.take(1)) == 0) by {
            reveal_with_fuel(text::digits_value, 2);
            assert(d.take(1).drop_last() =~= Seq::empty());
        }
        leading_zeros_count_nothing(d, 1);
        assert(d.skip(1) =~= t);
        zeros_are_few(t);
        let z = zeros(d);
        let front = d.take(z as int);
        assert(front.take(1) =~= d.take(1));
        leading_zeros_count_nothing(front, 1);
        assert(front.skip(1) =~= t.take((z - 1) as int));
    } else {
        assert(d.take(0) =~= Seq::empty());
        if d.len() == 0 {
            assert(d =~= Seq::empty());
        }
    }
}

proof fn tail_digits(d: Seq<char>, z: nat)
    requires
        text::all_digits(d),
        z <= d.len(),
    ensures
        text::all_digits(d.skip(z as int)),
{
    assert forall|i: int| 0 <= i < d.skip(z as int).len() implies text::is_digit(
        #[trigger] d.skip(z as int)[i],
    ) by {
        assert(d.skip(z as int)[i] == d[i + z]);
    }
}

proof fn zero_rounds_to_zero(e: int)
    ensures
        nearest_pattern(numerator(0, e), denominator(e)) == 0,
{
    denominator_positive(e);
    let den = denominator(e);
    let one = pow2(149);
    let t = scalar::ten_to(e as nat);
    assert(0 * t * one == 0) by (nonlinear_arith);
    assert(0 * one == 0) by (nonlinear_arith);
    let first = Scalar { bits: 1 };
    assert(first.size() == 1);
    assert(den * (size_at(0) + size_at(1)) >= den * 1) by (nonlinear_arith)
        requires
            size_at(0) + size_at(1) >= 1,
            den > 0,
    ;
    assert(!passes(numerator(0, e), den, 0));
}

/// The pattern of a numeral without a sign.
fn read_numeral(s: &[char]) -> (r: Option<u32>)
    ensures
        match r {
            Some(b) => {
                &&& numeral_of(s@) matches Some((digits, e))
                &&& b == nearest_pattern(numerator(text::digits_value(digits), e), denominator(e))
                &&& b <= 0x7F80_0000
            },
            None => numeral_of(s@) is None,
        },
{
    let n: usize = count_digits(s);
    let rest = slice_subrange(s, n, s.len());
    assert(rest@ =~= s@.skip(n as int));
    let mut digits: Vec<char> = Vec::new();
    push_all(&mut digits, slice_subrange(s, 0, n));
    assert(s@.subrange(0, n as int) =~= s@.take(n as int));
    assert(digits@ =~= s@.take(n as int));
    let mut places: usize = 0;
    let mut tail = rest;
    if rest.len() > 0 && rest[0] == '.' {
        let after = slice_subrange(rest, 1, rest.len());
        assert(after@ =~= rest@.drop_first());
        let m: usize = count_digits(after);
        push_all(&mut digits, slice_subrange(after, 0, m));
        assert(after@.subrange(0, m as int) =~= after@.take(m as int));
        places = m;
        tail = slice_subrange(after, m, after.len());
        assert(tail@ =~= after@.skip(m as int));
        proof {
            let a = s@.take(n as int);
            let b = after@.take(m as int);
            assert(digits@ =~= a + b);
            assert forall|i: int| 0 <= i < (a + b).len() implies text::is_digit(
                #[trigger] (a + b)[i],
            ) by {
                if i < a.len() {
                    assert((a + b)[i] == a[i]);
                } else {
                    assert((a + b)[i] == b[i - a.len()]);
                }
            }
        }
    }
    if digits.len() == 0 {
        return None;
    }
    match read_exponent(tail) {
        None => None,
        Some(capped) => {
            let b: u32 = nearest(digits.as_slice(), capped - places as i128);
            proof {
                cap_is_enough(
                    digits@,
                    exponent_of(tail@)->0,
                    places as nat,
                    capped as int,
                );
            }
            Some(b)
        },
    }
}

fn push_all(out: &mut Vec<char>, more: &[char])
    ensures
        final(out)@ == old(out)@ + more@,
{
    let mut i: usize = 0;
    assert(out@ =~= old(out)@ + more@.take(0));
    while i < more.len()
        invariant
            i <= more@.len(),
            out@ == old(out)@ + more@.take(i as int),
        decreases more@.len() - i,
    {
        out.push(more[i]);
        assert(out@ =~= old(out)@ + more@.take(i + 1));
        i = i + 1;
    }
    assert(more@.take(i as int) =~= more@);
}

/// The number that `s` stands for, if it stands for one.
pub fn parse_number(s: &str) -> (r: Option<Scalar>)
    ensures
        r == number_value(s@),
{
    let all = chars_of(s);
    let signed_text = all.len() > 0 && (all[0] == '-' || all[0] == '+');
    let minus = all.len() > 0 && all[0] == '-';
    let body = if signed_text {
        slice_subrange(all.as_slice(), 1, all.len())
    } else {
        all.as_slice()
    };
    assert(body@ =~= without_sign(s@));
    let sign: u32 = if minus {
        0x8000_0000
    } else {
        0
    };
    match read_numeral(body) {
        Some(b) => Some(Scalar { bits: b + sign }),
        None => {
            let word = lowered(body);
            if is_word(word.as_slice(), "inf") || is_word(word.as_slice(), "infinity") {
                Some(Scalar { bits: 0x7F80_0000 + sign })
            } else if is_word(word.as_slice(), "nan") {
                Some(Scalar { bits: 0x7FC0_0000 + sign })
            } else {
                None
            }
        },
    }
}

/// How far the pattern `b` is from `num / den`, times `den`.
pub open spec fn distance(num: nat, den: nat, b: nat) -> int {
    let d = den * size_at(b) - num;
    if d < 0 {
        -d
    } else {
        d
    }
}

/// No pattern is nearer to a number than the one that it rounds to.
pub proof fn nearest_pattern_is_nearest(num: nat, den: nat, c: nat)
    requires
        den > 0,
        c <= 0x7F80_0000,
    ensures
        nearest_pattern(num, den) <= 0x7F80_0000,
        distance(num, den, nearest_pattern(num, den)) <= distance(num, den, c),
{
    rounded_stops(num, den, 0);
    let b = nearest_pattern(num, den);
    if c < b {
        sizes_in_order(c, (b - 1) as nat);
        neighbours((b - 1) as nat);
        let x = size_at(c);
        let y = size_at((b - 1) as nat);
        let z = size_at(b);
        assert(den * x <= den * y) by (nonlinear_arith)
            requires
                x <= y,
        ;
        assert(den * (y + z) == den * y + den * z) by (nonlinear_arith);
        assert(den * y <= den * z) by (nonlinear_arith)
            requires
                y <= z,
        ;
        assert(((b - 1) as nat) + 1 == b);
    } else if b < c {
        sizes_in_order(b + 1, c);
        neighbours(b);
        let x = size_at(b);
        let y = size_at(b + 1);
        let z = size_at(c);
        assert(den * y <= den * z) by (nonlinear_arith)
            requires
                y <= z,
        ;
        assert(den * (x + y) == den * x + den * y) by (nonlinear_arith);
        assert(den * x <= den * y) by (nonlinear_arith)
            requires
                x <= y,
        ;
    }
}

/// Larger patterns stand for larger numbers.
pub proof fn sizes_in_order(a: nat, b: nat)
    requires
        a <= b <= 0x7F80_0000,
    ensures
        size_at(a) <= size_at(b),
{
    if a < b {
        scalar::size_follows_magnitude(Scalar { bits: a as u32 }, Scalar { bits: b as u32 });
    }
}

/// A number does not pass the pattern that it rounds to, and passes the one below.
pub proof fn rounded_stops(num: nat, den: nat, from: nat)
    requires
        from <= 0x7F80_0000,
    ensures
        ({
            let b = rounded_from(num, den, from);
            &&& from <= b <= 0x7F80_0000
            &&& b > from ==> passes(num, den, (b - 1) as nat)
            &&& b < 0x7F80_0000 ==> !passes(num, den, b)
        }),
    decreases 0x7F80_0000 - from,
{
    if from < 0x7F80_0000 && passes(num, den, from) {
        rounded_stops(num, den, from + 1);
    }
}

/// The decimal numeral of a number consists of digits and stands for that number.
pub proof fn decimal_stands_for(n: nat)
    ensures
        text::decimal(n).len() > 0,
        text::all_digits(text::decimal(n)),
        text::digits_value(text::decimal(n)) == n,
    decreases n,
{
    let d = text::decimal(n);
    if n < 10 {
        reveal_with_fuel(text::digits_value, 2);
        assert(d.drop_last() =~= Seq::empty());
    } else {
        let front = text::decimal(n / 10);
        decimal_stands_for(n / 10);
        assert(d.drop_last() =~= front);
        assert forall|i: int| 0 <= i < d.len() implies text::is_digit(#[trigger] d[i]) by {
            if i < front.len() {
                assert(d[i] == front[i]);
            }
        }
    }
}

proof fn all_are_leading(a: Seq<char>, rest: Seq<char>)
    requires
        text::all_digits(a),
        rest.len() == 0 || !text::is_digit(rest[0]),
    ensures
        leading_digits(a + rest) == a.len(),
    decreases a.len(),
{
    let s = a + rest;
    if a.len() == 0 {
        assert(s =~= rest);
    } else {
        assert(s[0] == a[0]);
        assert(s.drop_first() =~= a.drop_first() + rest);
        assert forall|i: int| 0 <= i < a.drop_first().len() implies text::is_digit(
            #[trigger] a.drop_first()[i],
        ) by {
            assert(a.drop_first()[i] == a[i + 1]);
        }
        all_are_leading(a.drop_first(), rest);
    }
}

/// A run of digits is a numeral.
pub proof fn digits_are_a_numeral(d: Seq<char>)
    requires
        d.len() > 0,
        text::all_digits(d),
    ensures
        without_sign(d) == d,
        !has_minus(d),
        numeral_of(d) == Some((d, 0int)),
{
    assert(text::is_digit(d[0]));
    all_are_leading(d, Seq::empty());
    assert(d + Seq::<char>::empty() =~= d);
    assert(d.take(d.len() as int) =~= d);
}

/// Digits around a point are a numeral.
pub proof fn digits_and_point_are_a_numeral(a: Seq<char>, b: Seq<char>)
    requires
        a.len() > 0,
        text::all_digits(a),
        text::all_digits(b),
    ensures
        ({
            let s = a + seq!['.'] + b;
            &&& without_sign(s) == s
            &&& !has_minus(s)
            &&& numeral_of(s) == Some((a + b, -(b.len() as int)))
        }),
{
    let s = a + seq!['.'] + b;
    let rest = seq!['.'] + b;
    assert(text::is_digit(a[0]));
    assert(s =~= a + rest);
    assert(rest[0] == '.');
    all_are_leading(a, rest);
    assert(s.skip(a.len() as int) =~= rest);
    assert(s.take(a.len() as int) =~= a);
    assert(rest.drop_first() =~= b);
    all_are_leading(b, Seq::empty());
    assert(b + Seq::<char>::empty() =~= b);
    assert(b.take(b.len() as int) =~= b);
}

/// A number that a pattern stands for rounds to that pattern.
pub proof fn patterns_round_to_themselves(num: nat, den: nat, b: nat)
    requires
        den > 0,
        b < 0x7F80_0000,
        num == den * size_at(b),
    ensures
        nearest_pattern(num, den) == b,
{
    neighbours(b);
    let x = size_at(b);
    let y = size_at(b + 1);
    assert(2 * (den * x) < den * (x + y)) by (nonlinear_arith)
        requires
            x < y,
            den > 0,
    ;
    if b > 0 {
        let c = (b - 1) as nat;
        neighbours(c);
        let w = size_at(c);
        assert(c + 1 == b);
        assert(2 * (den * x) > den * (w + x)) by (nonlinear_arith)
            requires
                w < x,
                den > 0,
        ;
    }
    rounded_is(num, den, 0, b);
}

/// The pattern that stands for `n * 2^k`.
pub proof fn exact_pattern(n: nat, k: nat) -> (b: nat)
    requires
        0 < n < 0x100_0000,
        23 <= k <= 253,
    ensures
        0 < b < 0x7F80_0000,
        size_at(b) == n * pow2(k),
{
    vstd::arithmetic::power2::lemma2_to64();
    assert(n * pow2(23) >= 0x80_0000) by (nonlinear_arith)
        requires
            n >= 1,
            pow2(23) == 0x80_0000,
    ;
    normal_pattern(n, k, 23)
}

proof fn normal_pattern(m: nat, k: nat, room: nat) -> (b: nat)
    requires
        0 < m < 0x100_0000,
        room <= k <= 253,
        room <= 23,
        m * pow2(room) >= 0x80_0000,
    ensures
        0 < b < 0x7F80_0000,
        size_at(b) == m * pow2(k),
    decreases room,
{
    if m >= 0x80_0000 {
        let b = ((k + 1) * 0x80_0000 + (m - 0x80_0000)) as nat;
        let x = Scalar { bits: b as u32 };
        assert(x.exponent() == k + 1);
        assert(x.significand() == m);
        b
    } else {
        if room == 0 {
            vstd::arithmetic::power2::lemma2_to64();
            assert(m * pow2(0) == m) by (nonlinear_arith)
                requires
                    pow2(0) == 1,
            ;
            assert(false);
        }
        lemma_pow2_unfold(room);
        lemma_pow2_unfold(k);
        let p = pow2((room - 1) as nat);
        let q = pow2((k - 1) as nat);
        assert(m * (2 * p) == (2 * m) * p) by (nonlinear_arith);
        assert(m * (2 * q) == (2 * m) * q) by (nonlinear_arith);
        normal_pattern(2 * m, (k - 1) as nat, (room - 1) as nat)
    }
}

/// The numeral of a whole number below `2^24` stands for exactly that number, and the number is
/// found again by rounding to an integer.
pub proof fn integers_read_exactly(n: nat)
    requires
        n < 0x100_0000,
    ensures
        number_value(
            text::decimal(n),
        ) matches Some(x) && x.units() == n * pow2(149) && x.to_integer()
            == n && !x.nan(),
{
    let d = text::decimal(n);
    decimal_stands_for(n);
    digits_are_a_numeral(d);
    lemma_pow2_pos(149);
    let one = pow2(149);
    let num = numerator(n, 0);
    assert(scalar::ten_to(0) == 1);
    assert(num == n * one) by (nonlinear_arith)
        requires
            num == n * 1 * one,
    ;
    if n == 0 {
        zero_rounds_to_zero(0);
        let zero = Scalar { bits: 0 };
        assert(zero.size() == 0);
        assert(0 * one == 0) by (nonlinear_arith);
        vstd::arithmetic::div_mod::lemma_basic_div(one as int, (2 * one) as int);
    } else {
        let b = exact_pattern(n, 149);
        assert(1 * size_at(b) == size_at(b));
        patterns_round_to_themselves(num, 1, b);
        let x = Scalar { bits: b as u32 };
        assert(2 * x.size() + one == one * (2 * n + 1)) by (nonlinear_arith)
            requires
                x.size() == n * one,
        ;
        assert(2 * one == one * 2) by (nonlinear_arith);
        vstd::arithmetic::div_mod::lemma_div_multiples_vanish_quotient(
            one as int,
            (2 * n + 1) as int,
            2,
        );
    }
}

/// The numeral of a whole number from `2^24` on stands for a number that rounds to an integer from
/// `2^24` on.
pub proof fn large_integers_stay_large(n: nat)
    requires
        n >= 0x100_0000,
    ensures
        number_value(text::decimal(n)) matches Some(x) && x.to_integer() >= 0x100_0000,
{
    let d = text::decimal(n);
    decimal_stands_for(n);
    digits_are_a_numeral(d);
    lemma_pow2_pos(149);
    let one = pow2(149);
    let num = numerator(n, 0);
    assert(scalar::ten_to(0) == 1);
    assert(num == n * one) by (nonlinear_arith)
        requires
            num == n * 1 * one,
    ;
    vstd::arithmetic::power2::lemma2_to64();
    lemma_pow2_unfold(150);
    let t = exact_pattern(0x80_0000, 150);
    let c = (t - 1) as nat;
    neighbours(c);
    assert(c + 1 == t);
    assert(0x80_0000 * (2 * one) == 0x100_0000 * one) by (nonlinear_arith);
    assert(n * one >= 0x100_0000 * one) by (nonlinear_arith)
        requires
            n >= 0x100_0000,
            one > 0,
    ;
    let s = size_at(c) + size_at(t);
    assert(1 * s == s);
    assert(passes(num, 1, c));
    rounded_stops(num, 1, 0);
    let b = nearest_pattern(num, 1);
    if b < t {
        passes_below(num, 1, c, b);
    }
    sizes_in_order(t, b);
    let x = Scalar { bits: b as u32 };
    assert(x.size() >= 0x100_0000 * one);
    let q = (2 * x.size() + one) / (2 * one);
    assert(q >= 0x100_0000) by {
        vstd::arithmetic::div_mod::lemma_div_is_ordered(
            (0x100_0000 * (2 * one)) as int,
            (2 * x.size() + one) as int,
            (2 * one) as int,
        );
        vstd::arithmetic::div_mod::lemma_div_by_multiple(0x100_0000, (2 * one) as int);
        assert(0x100_0000 * (2 * one) <= 2 * x.size() + one) by (nonlinear_arith)
            requires
                x.size() >= 0x100_0000 * one,
                one > 0,
        ;
    }
}

/// The number nearest to `n` hundredths.
pub open spec fn hundredths(n: int) -> Scalar {
    let size = if n < 0 {
        (-n) as nat
    } else {
        n as nat
    };
    signed(n < 0, nearest_pattern(numerator(size, -2), denominator(-2)))
}

/// The number nearest to `n` hundredths.
pub fn from_hundredths(n: i32) -> (r: Scalar)
    ensures
        r == hundredths(n as int),
{
    let size: u128 = if n < 0 {
        (-(n as i64)) as u128
    } else {
        n as u128
    };
    let digits = numeral(size);
    proof {
        decimal_stands_for(size as nat);
    }
    let b: u32 = nearest(digits.as_slice(), -2);
    if n < 0 {
        Scalar { bits: b + 0x8000_0000 }
    } else {
        Scalar { bits: b }
    }
}

/// The number nearest to the integer `n`.
pub open spec fn whole(n: nat) -> Scalar {
    signed(false, nearest_pattern(numerator(n, 0), denominator(0)))
}

/// The number nearest to the integer `n`.
pub fn from_whole(n: u32) -> (r: Scalar)
    ensures
        r == whole(n as nat),
{
    let digits = numeral(n as u128);
    proof {
        decimal_stands_for(n as nat);
    }
    Scalar { bits: nearest(digits.as_slice(), 0) }
}

} // verus!
