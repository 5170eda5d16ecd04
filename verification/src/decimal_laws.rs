//! What holds of numbers that are written with a few decimals and read again.

use vstd::arithmetic::power2::lemma2_to64;
use vstd::arithmetic::power2::lemma_pow2_adds;
use vstd::arithmetic::power2::lemma_pow2_pos;
use vstd::arithmetic::power2::pow2;
use vstd::prelude::*;

use crate::apo_laws;
use crate::eq::MAX_GAIN;
use crate::eq::MAX_Q;
use crate::eq::MIN_GAIN;
use crate::eq::MIN_Q;
use crate::number;
use crate::scalar::Scalar;
use crate::scalar;

verus! {

/// How far the pattern `b` is from the next one.
pub open spec fn step_at(b: nat) -> nat {
    let x = Scalar { bits: b as u32 };
    if x.exponent() == 0 {
        1
    } else {
        pow2((x.exponent() - 1) as nat)
    }
}

proof fn step_to_next(b: nat)
    requires
        b < 0x7F80_0000,
    ensures
        number::size_at(b + 1) == number::size_at(b) + step_at(b),
{
    number::neighbours(b);
    lemma2_to64();
    let x = Scalar { bits: b as u32 };
    let m = x.significand();
    let t = step_at(b);
    assert(t == pow2(
        if x.exponent() == 0 {
            0
        } else {
            (x.exponent() - 1) as nat
        },
    ));
    assert(x.size() == m * t) by (nonlinear_arith)
        requires
            x.exponent() == 0 ==> x.size() == m && t == 1,
            x.exponent() != 0 ==> x.size() == m * t,
    ;
    assert((2 * m + 1) * t == m * t + m * t + t) by (nonlinear_arith);
}

proof fn steps_grow(b: nat)
    requires
        0 < b < 0x7F80_0000,
    ensures
        step_at((b - 1) as nat) <= step_at(b),
{
    let x = Scalar { bits: (b - 1) as u32 };
    let y = Scalar { bits: b as u32 };
    lemma2_to64();
    if y.exponent() > 0 {
        lemma_pow2_pos((y.exponent() - 1) as nat);
        if x.exponent() > 0 && x.exponent() < y.exponent() {
            vstd::arithmetic::power2::lemma_pow2_strictly_increases(
                (x.exponent() - 1) as nat,
                (y.exponent() - 1) as nat,
            );
        }
    }
}

/// A number is at most half a step away from the pattern that it rounds to.
pub proof fn rounding_is_near(num: nat, den: nat)
    requires
        den > 0,
        number::nearest_pattern(num, den) < 0x7F80_0000,
    ensures
        ({
            let b = number::nearest_pattern(num, den);
            let d = den * step_at(b);
            let s = den * number::size_at(b);
            2 * num <= 2 * s + d && 2 * s <= 2 * num + d
        }),
{
    let b = number::nearest_pattern(num, den);
    number::rounded_stops(num, den, 0);
    step_to_next(b);
    let x = number::size_at(b);
    let t = step_at(b);
    assert(den * (x + (x + t)) == 2 * (den * x) + den * t) by (nonlinear_arith);
    if b > 0 {
        let c = (b - 1) as nat;
        step_to_next(c);
        steps_grow(b);
        let w = number::size_at(c);
        let u = step_at(c);
        assert(c + 1 == b);
        assert(den * (w + x) >= 2 * (den * x) - den * t) by (nonlinear_arith)
            requires
                x == w + u,
                u <= t,
                den > 0,
        ;
    } else {
        assert(x == 0);
        assert(den * x == 0) by (nonlinear_arith)
            requires
                x == 0,
        ;
    }
}

proof fn small_powers(places: nat)
    requires
        places <= 9,
    ensures
        0 < scalar::ten_to(places) <= 1_000_000_000,
{
    reveal_with_fuel(scalar::ten_to, 10);
}

/// A number below two to the power of 23 does not round to infinity.
proof fn small_numbers_stay_finite(k: nat, den: nat)
    requires
        k < 0x80_0000,
        den > 0,
    ensures
        number::nearest_pattern(k * pow2(149), den) < 0x7F80_0000,
{
    let num = k * pow2(149);
    let c = number::exact_pattern(1, 172);
    number::rounded_stops(num, den, 0);
    let b = number::nearest_pattern(num, den);
    lemma2_to64();
    lemma_pow2_adds(23, 149);
    lemma_pow2_pos(149);
    assert(num < pow2(172)) by (nonlinear_arith)
        requires
            num == k * pow2(149),
            k < 0x80_0000,
            pow2(172) == 0x80_0000 * pow2(149),
            pow2(149) > 0,
    ;
    if b > c {
        number::sizes_in_order(c, (b - 1) as nat);
        number::sizes_in_order(c, b);
        let w = number::size_at((b - 1) as nat);
        let x = number::size_at(b);
        assert((b - 1) as nat + 1 == b);
        assert(den * (w + x) >= 2 * pow2(172)) by (nonlinear_arith)
            requires
                w >= pow2(172),
                x >= pow2(172),
                den > 0,
        ;
    }
}

/// The step of a pattern that a small number with few decimals rounds to.
proof fn small_step(k: nat, places: nat)
    requires
        k < 0x80_0000,
        places <= 9,
    ensures
        scalar::ten_to(places) * step_at(
            number::nearest_pattern(k * pow2(149), scalar::ten_to(places)),
        ) < pow2(149),
{
    let den = scalar::ten_to(places);
    let num = k * pow2(149);
    small_powers(places);
    small_numbers_stay_finite(k, den);
    rounding_is_near(num, den);
    let b = number::nearest_pattern(num, den);
    let x = Scalar { bits: b as u32 };
    let t = step_at(b);
    let d = den * t;
    lemma2_to64();
    lemma_pow2_adds(32, 117);
    lemma_pow2_pos(117);
    lemma_pow2_pos(149);
    if x.exponent() == 0 {
        assert(d == den) by (nonlinear_arith)
            requires
                t == 1,
                d == den * t,
        ;
        assert(pow2(149) >= pow2(32)) by (nonlinear_arith)
            requires
                pow2(149) == pow2(32) * pow2(117),
                pow2(117) > 0,
        ;
    } else {
        let m = x.significand();
        assert(m >= 0x80_0000);
        assert(den * (m * t) >= 0x80_0000 * d) by (nonlinear_arith)
            requires
                m >= 0x80_0000,
                d == den * t,
        ;
        assert(0xFF_FFFF * d <= 2 * num);
        assert(2 * num <= 0xFF_FFFE * pow2(149)) by (nonlinear_arith)
            requires
                num == k * pow2(149),
                k < 0x80_0000,
        ;
        assert(d < pow2(149)) by (nonlinear_arith)
            requires
                0xFF_FFFF * d <= 0xFF_FFFE * pow2(149),
                pow2(149) > 0,
        ;
    }
}

/// What is less than half away from an integer rounds to it.
proof fn near_an_integer(n: nat, d: nat, k: nat)
    requires
        d > 0,
        2 * n < 2 * (k * d) + d,
        2 * (k * d) < 2 * n + d,
    ensures
        scalar::nearest_even(n, d) == k,
{
    let q = n / d;
    let r = n % d;
    vstd::arithmetic::div_mod::lemma_fundamental_div_mod(n as int, d as int);
    assert(n == d * q + r);
    assert(r < d);
    if n >= k * d {
        assert(q == k) by (nonlinear_arith)
            requires
                n == d * q + r,
                r < d,
                n >= k * d,
                2 * n < 2 * (k * d) + d,
                d > 0,
        ;
        assert(d * q == k * d) by (nonlinear_arith)
            requires
                q == k,
        ;
    } else {
        assert(q + 1 == k) by (nonlinear_arith)
            requires
                n == d * q + r,
                r < d,
                n < k * d,
                2 * (k * d) < 2 * n + d,
                d > 0,
        ;
        assert(k * d == d * q + d) by (nonlinear_arith)
            requires
                k == q + 1,
        ;
    }
}

/// The number that stands for `k` divided by ten to the power of `places`.
pub open spec fn decimal_number(negative: bool, k: nat, places: nat) -> Scalar {
    number::signed(
        negative,
        number::nearest_pattern(
            number::numerator(k, -places),
            number::denominator(-places),
        ),
    )
}

/// A number of up to six digits or so, of which `places` stand after the point, comes back
/// unchanged from being written with as many and read again.
pub proof fn decimals_come_back(negative: bool, k: nat, places: nat)
    requires
        k < 0x80_0000,
        0 < places <= 9,
    ensures
        apo_laws::reread(decimal_number(negative, k, places), places) == decimal_number(
            negative,
            k,
            places,
        ),
        decimal_number(negative, k, places).scaled(places) == k,
{
    let den = scalar::ten_to(places);
    let num = k * pow2(149);
    let b = number::nearest_pattern(num, den);
    let x = decimal_number(negative, k, places);
    small_powers(places);
    small_numbers_stay_finite(k, den);
    small_step(k, places);
    rounding_is_near(num, den);
    lemma_pow2_pos(149);
    assert(x.magnitude() == b);
    assert(x.size() == number::size_at(b));
    assert(x.size() * den == den * number::size_at(b)) by (nonlinear_arith)
        requires
            x.size() == number::size_at(b),
    ;
    near_an_integer(x.size() * den, pow2(149), k);
    assert(!x.nan());
    assert(!x.infinite());
    assert(x.negative() == negative);
}

proof fn large_decimals_are_large(k: nat, places: nat)
    requires
        k >= 0x80_0000,
        places <= 2,
    ensures
        number::size_at(
            number::nearest_pattern(k * pow2(149), scalar::ten_to(places)),
        ) >= pow2(164),
{
    let den = scalar::ten_to(places);
    let num = k * pow2(149);
    reveal_with_fuel(scalar::ten_to, 3);
    assert(0 < den <= 100);
    let c = number::exact_pattern(1, 164);
    let b = number::nearest_pattern(num, den);
    number::rounded_stops(num, den, 0);
    lemma2_to64();
    lemma_pow2_adds(23, 149);
    lemma_pow2_adds(8, 164);
    lemma_pow2_pos(149);
    lemma_pow2_pos(164);
    assert(num >= pow2(172)) by (nonlinear_arith)
        requires
            num == k * pow2(149),
            k >= 0x80_0000,
            pow2(172) == 0x80_0000 * pow2(149),
    ;
    if b < c {
        number::sizes_in_order(b, c);
        number::sizes_in_order(b + 1, c);
        let x = number::size_at(b);
        let y = number::size_at(b + 1);
        assert(den * (x + y) <= 200 * pow2(164)) by (nonlinear_arith)
            requires
                x <= pow2(164),
                y <= pow2(164),
                den <= 100,
        ;
        assert(2 * num > 200 * pow2(164));
    } else {
        number::sizes_in_order(c, b);
    }
}

/// Whether an end of a range comes back unchanged from being written with `places` decimals.
pub open spec fn is_end(x: Scalar, places: nat) -> bool {
    &&& !x.nan()
    &&& x.size() < pow2(164)
    &&& apo_laws::reread(x, places) == x
}

proof fn decimal_in_range(negative: bool, k: nat, places: nat, low: Scalar, high: Scalar)
    requires
        0 < places <= 2,
        is_end(low, places),
        is_end(high, places),
        decimal_number(negative, k, places).clamped(low, high) == decimal_number(
            negative,
            k,
            places,
        ),
    ensures
        apo_laws::reread(decimal_number(negative, k, places), places) == decimal_number(
            negative,
            k,
            places,
        ),
{
    let r = decimal_number(negative, k, places);
    if k < 0x80_0000 {
        decimals_come_back(negative, k, places);
    } else {
        let b = number::nearest_pattern(k * pow2(149), scalar::ten_to(places));
        number::rounded_stops(k * pow2(149), scalar::ten_to(places), 0);
        large_decimals_are_large(k, places);
        assert(r == number::signed(negative, b));
        assert(r.magnitude() == b);
        assert(r.size() == number::size_at(b));
        assert(r.negative() == negative);
        assert(!r.nan());
        if negative {
            assert(r.units() < low.units());
            assert(r == low);
        } else {
            assert(high.units() < r.units());
            assert(r == low || r == high);
        }
    }
}

/// A number that was written, read and brought into a range stays as it is when that is done once
/// more.
pub proof fn reading_settles(x: Scalar, places: nat, low: Scalar, high: Scalar)
    requires
        0 < places <= 2,
        is_end(low, places),
        is_end(high, places),
        low.units() <= high.units(),
    ensures
        ({
            let y = apo_laws::reread(x, places).clamped(low, high);
            apo_laws::reread(y, places) == y && y.clamped(low, high) == y
        }),
{
    let r = apo_laws::reread(x, places);
    let y = r.clamped(low, high);
    assert(y == low || y == high || y == r);
    if y == low || y == high {
    } else if x.nan() {
        assert(r.nan());
    } else if x.infinite() {
        assert(r.infinite());
        assert(r.negative() == x.negative());
    } else {
        assert(r == decimal_number(x.negative(), x.scaled(places), places));
        decimal_in_range(x.negative(), x.scaled(places), places, low, high);
    }
}

proof fn exact_end(b: nat, n: nat, places: nat, negative: bool)
    requires
        b < 0x7F80_0000,
        0 < n < 0x8000,
        0 < places <= 2,
        number::size_at(b) == n * pow2(149),
    ensures
        is_end(number::signed(negative, b), places),
{
    let x = number::signed(negative, b);
    let den = scalar::ten_to(places);
    let k = n * den;
    reveal_with_fuel(scalar::ten_to, 3);
    lemma2_to64();
    lemma_pow2_pos(149);
    lemma_pow2_adds(15, 149);
    assert(x.magnitude() == b);
    assert(x.size() == n * pow2(149));
    assert(n * pow2(149) < pow2(164)) by (nonlinear_arith)
        requires
            n < 0x8000,
            pow2(164) == 0x8000 * pow2(149),
            pow2(149) > 0,
    ;
    assert(x.size() * den == k * pow2(149)) by (nonlinear_arith)
        requires
            x.size() == n * pow2(149),
            k == n * den,
    ;
    near_an_integer(x.size() * den, pow2(149), k);
    assert(k * pow2(149) == den * number::size_at(b)) by (nonlinear_arith)
        requires
            number::size_at(b) == n * pow2(149),
            k == n * den,
    ;
    number::patterns_round_to_themselves(k * pow2(149), den, b);
}

/// The ends of the ranges of gain and Q come back unchanged.
pub proof fn ends_come_back()
    ensures
        is_end(Scalar { bits: MIN_GAIN }, 1),
        is_end(Scalar { bits: MAX_GAIN }, 1),
        is_end(Scalar { bits: MIN_Q }, 2),
        is_end(Scalar { bits: MAX_Q }, 2),
{
    lemma2_to64();
    lemma_pow2_adds(20, 129);
    let twelve = Scalar { bits: MAX_GAIN };
    assert(twelve.exponent() == 130);
    assert(twelve.significand() == 0xC0_0000);
    assert(0xC0_0000 * pow2(129) == 12 * (0x10_0000 * pow2(129)));
    exact_end(0x4140_0000, 12, 1, false);
    exact_end(0x4140_0000, 12, 1, true);
    assert(number::signed(true, 0x4140_0000) == (Scalar { bits: MIN_GAIN }));
    let ten = Scalar { bits: MAX_Q };
    assert(ten.exponent() == 130);
    assert(ten.significand() == 0xA0_0000);
    exact_end(0x4120_0000, 10, 2, false);
    tenth_comes_back();
}

proof fn tenth_comes_back()
    ensures
        is_end(Scalar { bits: MIN_Q }, 2),
{
    let b: nat = 0x3DCC_CCCD;
    let x = Scalar { bits: MIN_Q };
    let p = pow2(122);
    lemma2_to64();
    lemma_pow2_pos(122);
    lemma_pow2_adds(27, 122);
    lemma_pow2_adds(42, 122);
    lemma_pow2_adds(10, 32);
    reveal_with_fuel(scalar::ten_to, 3);
    assert(x.exponent() == 123);
    assert(x.significand() == 0xCC_CCCD);
    assert(x.size() == 0xCC_CCCD * p);
    assert(pow2(149) == 0x800_0000 * p);
    assert(pow2(164) == 0x400_0000_0000 * p);
    near_an_integer(x.size() * 100, pow2(149), 10);
    number::neighbours(b);
    let y = Scalar { bits: 0x3DCC_CCCC };
    assert(y.exponent() == 123);
    assert(y.significand() == 0xCC_CCCC);
    number::neighbours((b - 1) as nat);
    number::rounded_is(10 * pow2(149), 100, 0, b);
}

} // verus!
