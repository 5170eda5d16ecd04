//! Numbers rounded to whole numbers of tenths.

use vstd::arithmetic::power2::lemma2_to64;
use vstd::arithmetic::power2::lemma_pow2_adds;
use vstd::arithmetic::power2::lemma_pow2_pos;
use vstd::arithmetic::power2::pow2;
use vstd::prelude::*;

use crate::arithmetic::INFINITY;
use crate::arithmetic;
use crate::decimal_laws;
use crate::number;
use crate::scalar::Scalar;
use crate::scalar;

verus! {

/// The bit pattern of 10.
pub const TEN: u32 = 0x4120_0000;

/// A number rounded to a whole number of tenths.
pub open spec fn in_tenths(x: Scalar) -> Scalar {
    let ten = Scalar { bits: TEN };
    arithmetic::quotient(arithmetic::nearest_integer(arithmetic::product(x, ten)), ten)
}

impl Scalar {
    /// The number rounded to a whole number of tenths.
    pub fn to_tenths(self) -> (r: Scalar)
        ensures
            r == in_tenths(self),
    {
        let ten = Scalar { bits: TEN };
        self.times(ten).round().over(ten)
    }
}

/// What a number rounds to does not depend on how the fraction is written.
pub proof fn rounding_cancels(num: nat, den: nat, c: nat)
    requires
        den > 0,
        c > 0,
    ensures
        number::nearest_pattern(num * c, den * c) == number::nearest_pattern(num, den),
{
    let b = number::nearest_pattern(num, den);
    number::rounded_stops(num, den, 0);
    passing_cancels(num, den, c, b);
    if b > 0 {
        passing_cancels(num, den, c, (b - 1) as nat);
    }
    assert(den * c > 0) by (nonlinear_arith)
        requires
            den > 0,
            c > 0,
    ;
    number::rounded_is(num * c, den * c, 0, b);
}

proof fn passing_cancels(num: nat, den: nat, c: nat, b: nat)
    requires
        c > 0,
    ensures
        number::passes(num * c, den * c, b) == number::passes(num, den, b),
{
    let s = number::size_at(b) + number::size_at(b + 1);
    let x = 2 * num;
    let y = den * s;
    assert(2 * (num * c) == x * c) by (nonlinear_arith)
        requires
            x == 2 * num,
    ;
    assert((den * c) * s == y * c) by (nonlinear_arith)
        requires
            y == den * s,
    ;
    if x > y {
        assert(x * c > y * c) by (nonlinear_arith)
            requires
                x > y,
                c > 0,
        ;
    } else if x < y {
        assert(x * c < y * c) by (nonlinear_arith)
            requires
                x < y,
                c > 0,
        ;
    }
}

/// A number that is not above what a pattern stands for does not round to a higher one.
pub proof fn rounds_no_higher(num: nat, den: nat, c: nat)
    requires
        den > 0,
        c <= 0x7F80_0000,
        num <= den * number::size_at(c),
    ensures
        number::nearest_pattern(num, den) <= c,
{
    let b = number::nearest_pattern(num, den);
    number::rounded_stops(num, den, 0);
    if b > c {
        let a = (b - 1) as nat;
        number::neighbours(a);
        number::sizes_in_order(c, a);
        let s = number::size_at(a) + number::size_at(a + 1);
        let t = number::size_at(c);
        assert(den * s > 2 * (den * t)) by (nonlinear_arith)
            requires
                s > 2 * t,
                den > 0,
        ;
        assert(!number::passes(num, den, a));
    }
}

/// A number that is not below what a pattern stands for does not round to a lower one.
pub proof fn rounds_no_lower(num: nat, den: nat, c: nat)
    requires
        den > 0,
        c <= 0x7F80_0000,
        num >= den * number::size_at(c),
    ensures
        number::nearest_pattern(num, den) >= c,
{
    let b = number::nearest_pattern(num, den);
    number::rounded_stops(num, den, 0);
    if b < c {
        number::neighbours(b);
        number::sizes_in_order(b + 1, c);
        let s = number::size_at(b) + number::size_at(b + 1);
        let t = number::size_at(c);
        assert(den * s < 2 * (den * t)) by (nonlinear_arith)
            requires
                s < 2 * t,
                den > 0,
        ;
        assert(number::passes(num, den, b));
    }
}

proof fn ten_is_ten()
    ensures
        number::size_at(TEN as nat) == 10 * pow2(149),
        (Scalar { bits: TEN }).size() == 10 * pow2(149),
        !(Scalar { bits: TEN }).nan(),
        !(Scalar { bits: TEN }).infinite(),
        !(Scalar { bits: TEN }).negative(),
{
    let ten = Scalar { bits: TEN };
    lemma2_to64();
    lemma_pow2_adds(20, 129);
    assert(ten.exponent() == 130);
    assert(ten.significand() == 0xA0_0000);
}

/// A number of at most `most` in size, rounded to tenths, is one of the numbers of tenths up to
/// that.
pub proof fn tenths_are_decimals(x: Scalar, most: nat) -> (n: nat)
    requires
        !x.nan(),
        0 < most < 0x1_0000,
        x.size() <= most * pow2(149),
    ensures
        n <= 10 * most,
        in_tenths(x) == decimal_laws::decimal_number(x.negative(), n, 1),
        n == (2 * arithmetic::product(x, Scalar { bits: TEN }).size() + pow2(149)) / (2 * pow2(
            149,
        )),
{
    let ten = Scalar { bits: TEN };
    let one = pow2(149);
    lemma_pow2_pos(149);
    lemma2_to64();
    lemma_pow2_adds(16, 149);
    ten_is_ten();
    // No number so small is infinite.
    let end = Scalar { bits: INFINITY };
    assert(end.exponent() == 255);
    assert(end.size() == 0x80_0000 * pow2(254));
    lemma_pow2_adds(105, 149);
    lemma_pow2_adds(32, 73);
    lemma_pow2_pos(73);
    assert(end.size() > most * one) by (nonlinear_arith)
        requires
            end.size() == 0x80_0000 * (pow2(105) * one),
            pow2(105) == 0x1_0000_0000 * pow2(73),
            pow2(73) > 0,
            one > 0,
            most < 0x1_0000,
    ;
    if x.infinite() {
        assert(x.exponent() == 255);
        assert(x.significand() == 0x80_0000);
        assert(x.size() == end.size());
    }
    // The product.
    let num = x.size() * 10;
    assert(x.size() * ten.size() == num * one) by (nonlinear_arith)
        requires
            ten.size() == 10 * one,
            num == x.size() * 10,
    ;
    assert(1 * one == one);
    rounding_cancels(num, 1, one);
    let b = number::nearest_pattern(num, 1);
    let top = number::exact_pattern(10 * most, 149);
    assert(num <= 10 * most * one) by (nonlinear_arith)
        requires
            num == x.size() * 10,
            x.size() <= most * one,
    ;
    assert(1 * number::size_at(top) == number::size_at(top));
    rounds_no_higher(num, 1, top);
    number::sizes_in_order(b, top);
    let p = arithmetic::product(x, ten);
    assert(p == number::signed(x.negative(), b));
    assert(p.magnitude() == b);
    assert(p.size() == number::size_at(b));
    // The integer.
    let n = (2 * p.size() + one) / (2 * one);
    assert(n <= 10 * most) by (nonlinear_arith)
        requires
            n == (2 * p.size() + one) / (2 * one),
            p.size() <= 10 * most * one,
            one > 0,
    ;
    assert(p.size() < 0x80_0000 * one) by (nonlinear_arith)
        requires
            p.size() <= 10 * most * one,
            most < 0x1_0000,
            one > 0,
    ;
    let q = arithmetic::nearest_integer(p);
    assert(q == arithmetic::rounded(x.negative(), n * one, 1));
    let c = if n == 0 {
        let zero = Scalar { bits: 0 };
        assert(zero.size() == 0);
        assert(n * one == 0) by (nonlinear_arith)
            requires
                n == 0,
        ;
        0
    } else {
        number::exact_pattern(n, 149)
    };
    assert(number::size_at(c) == n * one);
    assert(1 * number::size_at(c) == number::size_at(c));
    number::patterns_round_to_themselves(n * one, 1, c);
    assert(q.magnitude() == c);
    assert(q.size() == n * one);
    // The quotient.
    assert(q.size() * one == (n * one) * one);
    rounding_cancels(n * one, 10, one);
    assert(scalar::ten_to(1) == 10) by {
        reveal_with_fuel(scalar::ten_to, 2);
    }
    n
}

/// A number of tenths up to ten times `most` is not above `most`.
pub proof fn tenths_stay_small(negative: bool, n: nat, most: nat)
    requires
        0 < most < 0x1_0000,
        n <= 10 * most,
    ensures
        decimal_laws::decimal_number(negative, n, 1).size() <= most * pow2(149),
        !decimal_laws::decimal_number(negative, n, 1).nan(),
        decimal_laws::decimal_number(negative, n, 1).negative() == negative,
{
    let one = pow2(149);
    let top = number::exact_pattern(most, 149);
    assert(n * one <= 10 * (most * one)) by (nonlinear_arith)
        requires
            n <= 10 * most,
            one >= 0,
    ;
    assert(scalar::ten_to(1) == 10) by {
        reveal_with_fuel(scalar::ten_to, 2);
    }
    rounds_no_higher(n * one, 10, top);
    let b = number::nearest_pattern(n * one, 10);
    number::sizes_in_order(b, top);
    let x = decimal_laws::decimal_number(negative, n, 1);
    assert(x.magnitude() == b);
    assert(x.size() == number::size_at(b));
}

} // verus!
