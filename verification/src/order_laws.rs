//! What arithmetic and rounding do to the order of numbers.

use vstd::arithmetic::power2::lemma_pow2_pos;
use vstd::arithmetic::power2::pow2;
use vstd::prelude::*;

use crate::arithmetic::INFINITY;
use crate::arithmetic;
use crate::number;
use crate::scalar::Scalar;
use crate::scalar;
use crate::tenths;

verus! {

/// Whether a pattern stands for a number other than the infinities.
pub open spec fn finite(x: Scalar) -> bool {
    !x.nan() && !x.infinite()
}

/// What a number of `t` units is rounded to, in units.
pub open spec fn rounded_units(t: int) -> int {
    if t < 0 {
        -(number::size_at(number::nearest_pattern((-t) as nat, 1)) as int)
    } else {
        number::size_at(number::nearest_pattern(t as nat, 1)) as int
    }
}

/// A fraction does not round to a higher pattern than a larger one.
pub proof fn rounding_keeps_order(num: nat, den: nat, num2: nat, den2: nat)
    requires
        den > 0,
        den2 > 0,
        num * den2 <= num2 * den,
    ensures
        number::nearest_pattern(num, den) <= number::nearest_pattern(num2, den2) <= INFINITY,
        number::size_at(number::nearest_pattern(num, den)) <= number::size_at(
            number::nearest_pattern(num2, den2),
        ),
{
    let a = number::nearest_pattern(num, den);
    let b = number::nearest_pattern(num2, den2);
    number::rounded_stops(num, den, 0);
    number::rounded_stops(num2, den2, 0);
    if a > b {
        let c = (a - 1) as nat;
        let s = number::size_at(c) + number::size_at(c + 1);
        let (x, y) = (2 * num, 2 * num2);
        assert(x * den2 <= y * den) by (nonlinear_arith)
            requires
                x == 2 * num,
                y == 2 * num2,
                num * den2 <= num2 * den,
        ;
        if x > den * s {
            assert(y > den2 * s) by (nonlinear_arith)
                requires
                    x > den * s,
                    x * den2 <= y * den,
                    den > 0,
                    den2 > 0,
            ;
        } else {
            assert(y >= den2 * s) by (nonlinear_arith)
                requires
                    x == den * s,
                    x * den2 <= y * den,
                    den > 0,
                    den2 > 0,
            ;
        }
        assert(number::passes(num2, den2, c));
        number::passes_below(num2, den2, c, b);
    }
    number::sizes_in_order(a, b);
}

/// What a pattern with a sign stands for.
pub proof fn signed_units(negative: bool, b: nat)
    requires
        b <= INFINITY,
    ensures
        !number::signed(negative, b).nan(),
        number::signed(negative, b).size() == number::size_at(b),
        number::signed(negative, b).infinite() <==> b == INFINITY,
        number::signed(negative, b).units() == (if negative {
            -(number::size_at(b) as int)
        } else {
            number::size_at(b) as int
        }),
{
    let x = number::signed(negative, b);
    let y = Scalar { bits: b as u32 };
    assert(x.magnitude() == b);
    assert(y.magnitude() == b);
    assert(x.size() == y.size());
}

/// Nothing is nothing, of either sign, and only that.
pub proof fn nothing_is_zero(x: Scalar)
    ensures
        x.size() == 0 <==> x.magnitude() == 0,
        number::size_at(0) == 0,
        (Scalar { bits: 0 }).units() == 0,
{
    let zero = Scalar { bits: 0 };
    assert(zero.size() == 0);
    if x.magnitude() > 0 {
        scalar::size_follows_magnitude(zero, x);
    } else {
        assert(x.size() == 0);
    }
}

/// No number is further from zero than the infinities.
pub proof fn infinity_is_furthest(x: Scalar)
    requires
        !x.nan(),
    ensures
        x.size() <= number::size_at(INFINITY as nat),
        x.infinite() <==> x.size() == number::size_at(INFINITY as nat),
        x.size() == number::size_at(x.magnitude()),
{
    let end = Scalar { bits: INFINITY };
    let y = Scalar { bits: x.magnitude() as u32 };
    assert(y.magnitude() == x.magnitude());
    assert(y.size() == x.size());
    if x.magnitude() < INFINITY {
        scalar::size_follows_magnitude(x, end);
    }
}

/// A number no further from zero than a finite one is finite.
pub proof fn below_infinity(x: Scalar, y: Scalar)
    requires
        !x.nan(),
        finite(y),
        x.size() <= y.size(),
    ensures
        finite(x),
{
    infinity_is_furthest(x);
    infinity_is_furthest(y);
}

/// A larger number of units does not round to a smaller one, and nothing rounds beyond infinity.
pub proof fn rounded_units_in_order(t: int, u: int)
    requires
        t <= u,
    ensures
        rounded_units(t) <= rounded_units(u),
        -(number::size_at(INFINITY as nat) as int) <= rounded_units(t) <= number::size_at(
            INFINITY as nat,
        ),
{
    let a = (if t < 0 { -t } else { t }) as nat;
    let b = (if u < 0 { -u } else { u }) as nat;
    number::rounded_stops(a, 1, 0);
    number::rounded_stops(b, 1, 0);
    number::sizes_in_order(number::nearest_pattern(a, 1), INFINITY as nat);
    if t >= 0 {
        rounding_keeps_order(a, 1, b, 1);
    } else if u < 0 {
        rounding_keeps_order(b, 1, a, 1);
    }
}

/// A finite number stays what it is when it is rounded.
pub proof fn numbers_round_to_themselves(x: Scalar)
    requires
        finite(x),
    ensures
        rounded_units(x.units()) == x.units(),
{
    infinity_is_furthest(x);
    nothing_is_zero(x);
    assert(1 * x.size() == x.size());
    number::patterns_round_to_themselves(x.size(), 1, x.magnitude());
}

/// A sum of finite numbers is a number: the sum of their units, rounded.
pub proof fn sum_of_units(x: Scalar, y: Scalar)
    requires
        finite(x),
        finite(y),
    ensures
        !arithmetic::sum(x, y).nan(),
        arithmetic::sum(x, y).units() == rounded_units(x.units() + y.units()),
{
    let t = x.units() + y.units();
    let a = (if t < 0 { -t } else { t }) as nat;
    number::rounded_stops(a, 1, 0);
    let zero = Scalar { bits: 0 };
    nothing_is_zero(zero);
    if t == 0 {
        signed_units(x.negative() && y.negative(), 0);
        numbers_round_to_themselves(zero);
    } else {
        signed_units(t < 0, number::nearest_pattern(a, 1));
    }
}

/// Larger numbers do not have a smaller sum.
pub proof fn sums_in_order(x: Scalar, y: Scalar, u: Scalar, v: Scalar)
    requires
        !x.nan(),
        !u.nan(),
        finite(y),
        finite(v),
        x.units() <= u.units(),
        y.units() <= v.units(),
    ensures
        !arithmetic::sum(x, y).nan(),
        !arithmetic::sum(u, v).nan(),
        arithmetic::sum(x, y).units() <= arithmetic::sum(u, v).units(),
{
    infinity_is_furthest(x);
    infinity_is_furthest(u);
    if finite(x) {
        sum_of_units(x, y);
        rounded_units_in_order(x.units() + y.units(), x.units() + y.units());
    }
    if finite(u) {
        sum_of_units(u, v);
        rounded_units_in_order(u.units() + v.units(), u.units() + v.units());
    }
    if finite(x) && finite(u) {
        rounded_units_in_order(x.units() + y.units(), u.units() + v.units());
    }
}

/// A sum is not beyond a number that the exact sum is not beyond.
pub proof fn sums_stop(x: Scalar, y: Scalar, c: Scalar)
    requires
        finite(x),
        finite(y),
        finite(c),
    ensures
        !arithmetic::sum(x, y).nan(),
        x.units() + y.units() <= c.units() ==> arithmetic::sum(x, y).units() <= c.units(),
        x.units() + y.units() >= c.units() ==> arithmetic::sum(x, y).units() >= c.units(),
{
    let t = x.units() + y.units();
    sum_of_units(x, y);
    numbers_round_to_themselves(c);
    if t <= c.units() {
        rounded_units_in_order(t, c.units());
    }
    if t >= c.units() {
        rounded_units_in_order(c.units(), t);
    }
}

/// The other sign makes what is left of zero what is right of it.
pub proof fn negated_units(x: Scalar)
    ensures
        arithmetic::negated(x).units() == -x.units(),
        arithmetic::negated(x).size() == x.size(),
        arithmetic::negated(x).nan() == x.nan(),
        arithmetic::negated(x).infinite() == x.infinite(),
{
    let y = arithmetic::negated(x);
    assert(y.magnitude() == x.magnitude());
    assert(y.size() == x.size());
}

/// A larger number less a smaller one is not a smaller difference.
pub proof fn differences_in_order(x: Scalar, y: Scalar, u: Scalar, v: Scalar)
    requires
        !x.nan(),
        !u.nan(),
        finite(y),
        finite(v),
        x.units() <= u.units(),
        y.units() >= v.units(),
    ensures
        !arithmetic::difference(x, y).nan(),
        !arithmetic::difference(u, v).nan(),
        arithmetic::difference(x, y).units() <= arithmetic::difference(u, v).units(),
{
    negated_units(y);
    negated_units(v);
    sums_in_order(x, arithmetic::negated(y), u, arithmetic::negated(v));
}

/// A difference is not beyond a number that the exact difference is not beyond.
pub proof fn differences_stop(x: Scalar, y: Scalar, c: Scalar)
    requires
        finite(x),
        finite(y),
        finite(c),
    ensures
        !arithmetic::difference(x, y).nan(),
        x.units() - y.units() <= c.units() ==> arithmetic::difference(x, y).units() <= c.units(),
        x.units() - y.units() >= c.units() ==> arithmetic::difference(x, y).units() >= c.units(),
{
    negated_units(y);
    sums_stop(x, arithmetic::negated(y), c);
}

/// A product of numbers that are not below zero is one, and is as large as its factors ask for.
pub proof fn product_of_units(x: Scalar, y: Scalar)
    requires
        finite(x),
        finite(y),
        x.units() >= 0,
        y.units() >= 0,
    ensures
        !arithmetic::product(x, y).nan(),
        arithmetic::product(x, y).units() == number::size_at(
            number::nearest_pattern(x.size() * y.size(), pow2(149)),
        ),
        x.size() == x.units(),
        y.size() == y.units(),
{
    let one = pow2(149);
    lemma_pow2_pos(149);
    let num = x.size() * y.size();
    number::rounded_stops(num, one, 0);
    let negative = x.negative() != y.negative();
    signed_units(negative, number::nearest_pattern(num, one));
    if negative {
        assert(num == 0) by (nonlinear_arith)
            requires
                num == x.size() * y.size(),
                x.size() == 0 || y.size() == 0,
        ;
        nothing_is_zero(x);
        assert(one * 0 == 0) by (nonlinear_arith);
        number::patterns_round_to_themselves(0, one, 0);
    }
}

/// Larger factors, none below zero, do not have a smaller product.
pub proof fn products_in_order(x: Scalar, y: Scalar, u: Scalar, v: Scalar)
    requires
        finite(x),
        finite(y),
        finite(u),
        finite(v),
        0 <= x.units() <= u.units(),
        0 <= y.units() <= v.units(),
    ensures
        !arithmetic::product(x, y).nan(),
        !arithmetic::product(u, v).nan(),
        0 <= arithmetic::product(x, y).units() <= arithmetic::product(u, v).units(),
{
    let one = pow2(149);
    lemma_pow2_pos(149);
    product_of_units(x, y);
    product_of_units(u, v);
    let (a, b) = (x.size() * y.size(), u.size() * v.size());
    assert(a <= b) by (nonlinear_arith)
        requires
            a == x.size() * y.size(),
            b == u.size() * v.size(),
            0 <= x.size() <= u.size(),
            0 <= y.size() <= v.size(),
    ;
    assert(a * one <= b * one) by (nonlinear_arith)
        requires
            a <= b,
    ;
    rounding_keeps_order(a, one, b, one);
}

/// A product, of factors not below zero, is not beyond a number that the exact product is not
/// beyond.
pub proof fn products_stop(x: Scalar, y: Scalar, c: Scalar)
    requires
        finite(x),
        finite(y),
        finite(c),
        x.units() >= 0,
        y.units() >= 0,
        c.units() >= 0,
    ensures
        !arithmetic::product(x, y).nan(),
        arithmetic::product(x, y).units() >= 0,
        x.units() * y.units() <= pow2(149) * c.units() ==> arithmetic::product(x, y).units()
            <= c.units(),
        x.units() * y.units() >= pow2(149) * c.units() ==> arithmetic::product(x, y).units()
            >= c.units(),
{
    let one = pow2(149);
    lemma_pow2_pos(149);
    product_of_units(x, y);
    infinity_is_furthest(c);
    nothing_is_zero(c);
    let num = x.size() * y.size();
    number::rounded_stops(num, one, 0);
    if num <= one * c.size() {
        tenths::rounds_no_higher(num, one, c.magnitude());
        number::sizes_in_order(number::nearest_pattern(num, one), c.magnitude());
    }
    if num >= one * c.size() {
        tenths::rounds_no_lower(num, one, c.magnitude());
        number::sizes_in_order(c.magnitude(), number::nearest_pattern(num, one));
    }
}

/// A quotient by a finite number above zero has the sign of the dividend, and is as large as they
/// ask for.
pub proof fn quotient_of_units(x: Scalar, y: Scalar)
    requires
        finite(x),
        finite(y),
        y.units() > 0,
    ensures
        !arithmetic::quotient(x, y).nan(),
        y.size() > 0,
        ({
            let b = number::nearest_pattern(x.size() * pow2(149), y.size());
            arithmetic::quotient(x, y).units() == (if x.units() < 0 {
                -(number::size_at(b) as int)
            } else {
                number::size_at(b) as int
            })
        }),
{
    let one = pow2(149);
    let num = x.size() * one;
    number::rounded_stops(num, y.size(), 0);
    signed_units(x.negative(), number::nearest_pattern(num, y.size()));
    if x.negative() && x.size() == 0 {
        assert(num == 0) by (nonlinear_arith)
            requires
                num == x.size() * one,
                x.size() == 0,
        ;
        nothing_is_zero(x);
        assert(y.size() * 0 == 0) by (nonlinear_arith);
        number::patterns_round_to_themselves(0, y.size(), 0);
    }
}

/// Larger numbers do not have smaller quotients by the same finite number above zero.
pub proof fn quotients_in_order(x: Scalar, u: Scalar, y: Scalar)
    requires
        !x.nan(),
        !u.nan(),
        finite(y),
        y.units() > 0,
        x.units() <= u.units(),
    ensures
        !arithmetic::quotient(x, y).nan(),
        !arithmetic::quotient(u, y).nan(),
        arithmetic::quotient(x, y).units() <= arithmetic::quotient(u, y).units(),
{
    let one = pow2(149);
    let d = y.size();
    infinity_is_furthest(x);
    infinity_is_furthest(u);
    quotient_reaches_no_further(x, y);
    quotient_reaches_no_further(u, y);
    if finite(x) && finite(u) {
        quotient_of_units(x, y);
        quotient_of_units(u, y);
        let (a, b) = (x.size() * one, u.size() * one);
        if x.units() >= 0 {
            assert(a * d <= b * d) by (nonlinear_arith)
                requires
                    a == x.size() * one,
                    b == u.size() * one,
                    x.size() <= u.size(),
            ;
            rounding_keeps_order(a, d, b, d);
        } else if u.units() < 0 {
            assert(b * d <= a * d) by (nonlinear_arith)
                requires
                    a == x.size() * one,
                    b == u.size() * one,
                    u.size() <= x.size(),
            ;
            rounding_keeps_order(b, d, a, d);
        }
    }
}

proof fn quotient_reaches_no_further(x: Scalar, y: Scalar)
    requires
        !x.nan(),
        finite(y),
        y.units() > 0,
    ensures
        !arithmetic::quotient(x, y).nan(),
        ({
            let end = number::size_at(INFINITY as nat) as int;
            let q = arithmetic::quotient(x, y);
            &&& -end <= q.units() <= end
            &&& x.infinite() ==> q.units() == x.units()
        }),
{
    let one = pow2(149);
    infinity_is_furthest(x);
    signed_units(x.negative(), INFINITY as nat);
    if finite(x) {
        quotient_of_units(x, y);
        number::rounded_stops(x.size() * one, y.size(), 0);
        number::sizes_in_order(
            number::nearest_pattern(x.size() * one, y.size()),
            INFINITY as nat,
        );
    }
}

/// Bringing numbers into a range keeps their order.
pub proof fn clamps_in_order(x: Scalar, u: Scalar, low: Scalar, high: Scalar)
    requires
        !x.nan(),
        !u.nan(),
        !low.nan(),
        !high.nan(),
        low.units() <= high.units(),
        x.units() <= u.units(),
    ensures
        !x.clamped(low, high).nan(),
        !u.clamped(low, high).nan(),
        low.units() <= x.clamped(low, high).units() <= u.clamped(low, high).units()
            <= high.units(),
{
}

} // verus!
