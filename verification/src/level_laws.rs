//! How near the levels of a spectrum come to what they are to be.

use vstd::arithmetic::power2::lemma2_to64;
use vstd::arithmetic::power2::lemma_pow2_adds;
use vstd::arithmetic::power2::lemma_pow2_pos;
use vstd::arithmetic::power2::lemma_pow2_strictly_increases;
use vstd::arithmetic::power2::pow2;
use vstd::prelude::*;

use crate::arithmetic;
use crate::decimal_laws;
use crate::eq_drawer::MIN_DB;
use crate::number;
use crate::order_laws;
use crate::scalar::Scalar;
use crate::spectrum_frame;
use crate::tenths;

verus! {

/// Whether a level is a number from -120 to 120 dB.
pub open spec fn is_level(x: Scalar) -> bool {
    order_laws::finite(x) && -120 * pow2(149) <= x.units() <= 120 * pow2(149)
}

/// Whether `a` and `b`, in units, are at most a thousandth apart.
pub open spec fn within_a_thousandth(a: int, b: int) -> bool {
    1000 * (a - b) <= pow2(149) && 1000 * (b - a) <= pow2(149)
}

proof fn powers()
    ensures
        pow2(149) > 0,
        pow2(149) == 0x2_0000 * pow2(132),
        pow2(156) == 128 * pow2(149),
        pow2(133) == 2 * pow2(132),
        pow2(132) == 16 * pow2(128),
        pow2(128) == 32 * pow2(123),
        pow2(128) == 8 * pow2(125),
        pow2(128) == 4 * pow2(126),
{
    lemma2_to64();
    lemma_pow2_pos(149);
    lemma_pow2_adds(17, 132);
    lemma_pow2_adds(7, 149);
    lemma_pow2_adds(1, 132);
    lemma_pow2_adds(4, 128);
    lemma_pow2_adds(5, 123);
    lemma_pow2_adds(3, 125);
    lemma_pow2_adds(2, 126);
}

/// A number up to 128 is at most half of the step from there on away from what it rounds to.
proof fn rounds_near(num: nat, den: nat)
    requires
        den > 0,
        num <= den * pow2(156),
    ensures
        ({
            let s = number::size_at(number::nearest_pattern(num, den));
            &&& number::nearest_pattern(num, den) <= 0x4300_0000
            &&& num <= den * s + den * pow2(132)
            &&& den * s <= num + den * pow2(132)
        }),
{
    let top = Scalar { bits: 0x4300_0000 };
    let b = number::nearest_pattern(num, den);
    powers();
    lemma2_to64();
    lemma_pow2_adds(23, 133);
    assert(top.exponent() == 134 && top.significand() == 0x80_0000);
    assert(number::size_at(0x4300_0000) == pow2(156));
    tenths::rounds_no_higher(num, den, 0x4300_0000);
    decimal_laws::rounding_is_near(num, den);
    let x = Scalar { bits: b as u32 };
    let e = x.exponent();
    assert(e <= 134);
    lemma_pow2_pos(133);
    if 0 < e < 134 {
        lemma_pow2_strictly_increases((e - 1) as nat, 133);
    }
    let t = decimal_laws::step_at(b);
    assert(t <= pow2(133));
    assert(den * t <= 2 * (den * pow2(132))) by (nonlinear_arith)
        requires
            t <= 2 * pow2(132),
            den > 0,
    ;
}

/// A sum that is from -128 to 128 is near to what the numbers add up to.
proof fn sum_is_near(x: Scalar, y: Scalar)
    requires
        order_laws::finite(x),
        order_laws::finite(y),
        -(128 * pow2(149)) <= x.units() + y.units() <= 128 * pow2(149),
    ensures
        order_laws::finite(arithmetic::sum(x, y)),
        -pow2(132) <= arithmetic::sum(x, y).units() - (x.units() + y.units()) <= pow2(132),
{
    let t = x.units() + y.units();
    let a = (if t < 0 {
        -t
    } else {
        t
    }) as nat;
    powers();
    assert(1 * pow2(156) == pow2(156) && 1 * pow2(132) == pow2(132));
    rounds_near(a, 1);
    let s = number::size_at(number::nearest_pattern(a, 1));
    assert(1 * s == s);
    order_laws::nothing_is_zero(x);
    if t == 0 {
        order_laws::signed_units(x.negative() && y.negative(), 0);
    } else {
        order_laws::signed_units(t < 0, number::nearest_pattern(a, 1));
    }
}

/// A product that is from -128 to 128, with a number that is not below zero, is near to what it is
/// to be.
proof fn product_is_near(c: Scalar, x: Scalar)
    requires
        order_laws::finite(c),
        order_laws::finite(x),
        !c.negative(),
        c.size() * x.size() <= pow2(149) * pow2(156),
    ensures
        ({
            let p = arithmetic::product(c, x).units() * pow2(149);
            let one = pow2(149);
            &&& order_laws::finite(arithmetic::product(c, x))
            &&& p <= c.units() * x.units() + one * pow2(132)
            &&& c.units() * x.units() <= p + one * pow2(132)
        }),
{
    let one = pow2(149);
    powers();
    let num = c.size() * x.size();
    rounds_near(num, one);
    let b = number::nearest_pattern(num, one);
    order_laws::signed_units(x.negative(), b);
    let s = number::size_at(b);
    let u = arithmetic::product(c, x).units();
    if x.negative() {
        assert(u * one == -(one * s)) by (nonlinear_arith)
            requires
                u == -(s as int),
        ;
        assert(c.units() * x.units() == -(num as int)) by (nonlinear_arith)
            requires
                c.units() == c.size(),
                x.units() == -(x.size() as int),
                num == c.size() * x.size(),
        ;
    } else {
        assert(u * one == one * s) by (nonlinear_arith)
            requires
                u == s,
        ;
    }
}

/// A part of a level, where `d` of those parts are `k` but for a small rest.
proof fn part_is_near(c: Scalar, x: Scalar, d: int, k: int)
    requires
        order_laws::finite(c),
        !c.negative(),
        c.units() <= pow2(149),
        is_level(x),
        0 < d,
        0 <= d * c.units() - k * pow2(149) <= pow2(128),
    ensures
        ({
            let p = arithmetic::product(c, x).units();
            let near = d * pow2(132) + 8 * pow2(132);
            order_laws::finite(arithmetic::product(c, x)) && -near <= d * p - k * x.units() <= near
        }),
{
    let one = pow2(149);
    let h = pow2(132);
    powers();
    let (u, v) = (c.units(), x.units());
    assert(c.size() * x.size() <= one * pow2(156)) by (nonlinear_arith)
        requires
            c.size() <= one,
            x.size() <= 120 * one,
            pow2(156) == 128 * one,
    ;
    product_is_near(c, x);
    let p = arithmetic::product(c, x).units();
    let e = d * u - k * one;
    let g = 8 * h;
    assert(-(one * g) <= e * v <= one * g) by (nonlinear_arith)
        requires
            0 <= e <= pow2(128),
            -(128 * one) <= v <= 128 * one,
            g == 128 * pow2(128),
    ;
    let w = p * one - u * v;
    let f = d * p - k * v;
    assert(one * f == d * w + e * v) by (nonlinear_arith)
        requires
            w == p * one - u * v,
            f == d * p - k * v,
            e == d * u - k * one,
    ;
    assert(-(one * (d * h)) <= d * w <= one * (d * h)) by (nonlinear_arith)
        requires
            -(one * h) <= w <= one * h,
            0 < d,
    ;
    assert(-(d * h + g) <= f <= d * h + g) by (nonlinear_arith)
        requires
            -(one * (d * h)) - one * g <= one * f <= one * (d * h) + one * g,
            one > 0,
    ;
}

/// A level that rises is shown, to a thousandth of a dB, where seventeen twentieths of the way to
/// it are gone.
pub proof fn levels_rise_most_of_the_way(shown: Scalar, level: Scalar, decay: Scalar)
    requires
        is_level(shown),
        is_level(level),
        shown.units() < level.units(),
    ensures
        ({
            let r = spectrum_frame::settled_level(shown, level, decay);
            &&& order_laws::finite(r)
            &&& within_a_thousandth(
                20 * r.units(),
                20 * shown.units() + 17 * (level.units() - shown.units()),
            )
        }),
{
    let new = Scalar { bits: spectrum_frame::NEW_PART };
    let old = Scalar { bits: spectrum_frame::OLD_PART };
    powers();
    lemma2_to64();
    lemma_pow2_adds(24, 125);
    lemma_pow2_adds(26, 123);
    assert(new.exponent() == 126 && new.significand() == 0xD9_999A);
    assert(old.exponent() == 124 && old.significand() == 0x99_999A);
    part_is_near(new, level, 20, 17);
    part_is_near(old, shown, 20, 3);
    sum_is_near(arithmetic::product(new, level), arithmetic::product(old, shown));
}

/// Whether `r` is, to a thousandth of a dB, three fifths of `own` and a fifth each of its
/// neighbours.
pub open spec fn is_smooth(r: Scalar, before: Scalar, own: Scalar, after: Scalar) -> bool {
    order_laws::finite(r) && within_a_thousandth(
        5 * r.units(),
        before.units() + 3 * own.units() + after.units(),
    )
}

/// Every level between two others is shown smoothed: three fifths of it count, and a fifth of each
/// neighbour.
pub proof fn levels_are_smoothed(
    shown: Seq<Scalar>,
    logs: Seq<Scalar>,
    samples: nat,
    rate: Scalar,
    i: int,
)
    requires
        rate.nan() || rate.units() > 0,
        1 <= i < shown.len() - 1,
        ({
            let decay = spectrum_frame::decay_in(samples, rate);
            forall|k: int|
                i - 1 <= k <= i + 1 ==> is_level(
                    spectrum_frame::settled_level(
                        #[trigger] shown[k],
                        spectrum_frame::level_from(logs[k]),
                        decay,
                    ),
                )
        }),
    ensures
        ({
            let decay = spectrum_frame::decay_in(samples, rate);
            let at = |k: int|
                spectrum_frame::settled_level(
                    shown[k],
                    spectrum_frame::level_from(logs[k]),
                    decay,
                );
            is_smooth(
                spectrum_frame::next_frame(shown, logs, samples, rate)[i],
                at(i - 1),
                at(i),
                at(i + 1),
            )
        }),
{
    let decay = spectrum_frame::decay_in(samples, rate);
    let levels = spectrum_frame::settled_levels(shown, logs, decay);
    assert(is_level(levels[i - 1]) && shown[i - 1] == shown[i - 1]);
    assert(is_level(levels[i]) && shown[i] == shown[i]);
    assert(is_level(levels[i + 1]) && shown[i + 1] == shown[i + 1]);
    smoothing_is_near(levels[i - 1], levels[i], levels[i + 1]);
}

proof fn smoothing_is_near(before: Scalar, own: Scalar, after: Scalar)
    requires
        is_level(before),
        is_level(own),
        is_level(after),
    ensures
        ({
            let side = Scalar { bits: spectrum_frame::NEIGHBOUR_PART };
            let middle = Scalar { bits: spectrum_frame::OWN_PART };
            is_smooth(
                arithmetic::sum(
                    arithmetic::sum(
                        arithmetic::product(side, before),
                        arithmetic::product(middle, own),
                    ),
                    arithmetic::product(side, after),
                ),
                before,
                own,
                after,
            )
        }),
{
    let side = Scalar { bits: spectrum_frame::NEIGHBOUR_PART };
    let middle = Scalar { bits: spectrum_frame::OWN_PART };
    powers();
    lemma2_to64();
    lemma_pow2_adds(24, 125);
    lemma_pow2_adds(26, 123);
    assert(side.exponent() == 124 && side.significand() == 0xCC_CCCD);
    assert(middle.exponent() == 126 && middle.significand() == 0x99_999A);
    part_is_near(side, before, 5, 1);
    part_is_near(middle, own, 5, 3);
    part_is_near(side, after, 5, 1);
    let first = arithmetic::product(side, before);
    let second = arithmetic::product(middle, own);
    sum_is_near(first, second);
    sum_is_near(arithmetic::sum(first, second), arithmetic::product(side, after));
}

/// A magnitude from a millionth to one has, to a thousandth of a dB, a level of twenty dB for each
/// decade.
pub proof fn decades_are_twenty_levels(log: Scalar)
    requires
        order_laws::finite(log),
        -6 * pow2(149) <= log.units() <= 0,
    ensures
        within_a_thousandth(spectrum_frame::level_from(log).units(), 20 * log.units()),
        !spectrum_frame::level_from(log).nan(),
{
    let decade = Scalar { bits: spectrum_frame::DB_PER_DECADE };
    let one = pow2(149);
    let h = pow2(132);
    powers();
    lemma2_to64();
    lemma_pow2_adds(19, 130);
    assert(decade.exponent() == 131 && decade.significand() == 0xA0_0000);
    assert(0xA0_0000 * pow2(130) == 20 * (0x8_0000 * pow2(130)));
    let v = log.units();
    assert(decade.size() * log.size() <= one * pow2(156)) by (nonlinear_arith)
        requires
            decade.size() == 20 * one,
            log.size() <= 6 * one,
            pow2(156) == 128 * one,
    ;
    product_is_near(decade, log);
    let p = arithmetic::product(decade, log).units();
    let f = p - 20 * v;
    assert(-h <= f <= h) by (nonlinear_arith)
        requires
            p * one <= (20 * one) * v + one * h,
            (20 * one) * v <= p * one + one * h,
            f == p - 20 * v,
            one > 0,
    ;
    spectrum_frame::least_is_lowest();
    let lowest = Scalar { bits: MIN_DB };
    lemma_pow2_adds(17, 132);
    assert(lowest.exponent() == 133 && lowest.significand() == 0xF0_0000);
    assert(0xF0_0000 * pow2(132) == 120 * (0x2_0000 * pow2(132)));
    order_laws::nothing_is_zero(Scalar { bits: 0 });
}

} // verus!
