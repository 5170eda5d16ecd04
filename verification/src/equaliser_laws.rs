//! What holds of the numbers that the mouse sets on the equaliser.

use vstd::arithmetic::power2::lemma2_to64;
use vstd::arithmetic::power2::lemma_pow2_adds;
use vstd::arithmetic::power2::lemma_pow2_pos;
use vstd::arithmetic::power2::lemma_pow2_strictly_increases;
use vstd::arithmetic::power2::pow2;
use vstd::prelude::*;

use crate::apo;
use crate::arithmetic;
use crate::decimal_laws;
use crate::eq::MAX_GAIN;
use crate::eq::MAX_Q;
use crate::eq::MIN_GAIN;
use crate::eq::MIN_Q;
use crate::eq_drawer::ScrollDelta;
use crate::mic_equaliser::PIXELS_PER_LINE;
use crate::mic_equaliser::VALUE_PER_LINE;
use crate::mic_equaliser;
use crate::number;
use crate::scalar::Scalar;
use crate::scalar;
use crate::tenths::TEN;
use crate::tenths;

verus! {

/// A band is dragged to a gain that is a whole number of tenths and in range, wherever the cursor
/// is.
pub proof fn dragged_gains_are_tenths(gain: Scalar) -> (n: nat)
    requires
        !gain.nan(),
    ensures
        n <= 120,
        mic_equaliser::dragged_gain(gain) == decimal_laws::decimal_number(
            apo::clamped_gain(gain).negative(),
            n,
            1,
        ),
        !mic_equaliser::dragged_gain(gain).below(Scalar { bits: MIN_GAIN }),
        !(Scalar { bits: MAX_GAIN }).below(mic_equaliser::dragged_gain(gain)),
{
    let g = apo::clamped_gain(gain);
    let low = Scalar { bits: MIN_GAIN };
    let high = Scalar { bits: MAX_GAIN };
    lemma2_to64();
    lemma_pow2_adds(20, 129);
    assert(high.exponent() == 130);
    assert(high.significand() == 0xC0_0000);
    assert(0xC0_0000 * pow2(129) == 12 * (0x10_0000 * pow2(129)));
    assert(high.size() == 12 * pow2(149));
    assert(low.exponent() == 130);
    assert(low.significand() == 0xC0_0000);
    assert(low.size() == 12 * pow2(149));
    assert(g.size() <= 12 * pow2(149));
    let n = tenths::tenths_are_decimals(g, 12);
    tenths::tenths_stay_small(g.negative(), n, 12);
    n
}

/// The ends of the range of Q: the number nearest to 0.1, and 10.
pub proof fn ends_of_q()
    ensures
        (Scalar { bits: MIN_Q }).units() == 0xCC_CCCD * pow2(122),
        (Scalar { bits: MAX_Q }).units() == 10 * pow2(149),
        (Scalar { bits: MAX_Q }).size() == 10 * pow2(149),
        number::size_at(0x3DCC_CCCC) == 0xCC_CCCC * pow2(122),
        number::size_at(0x3DCC_CCCD) == 0xCC_CCCD * pow2(122),
        pow2(149) == 0x800_0000 * pow2(122),
        pow2(122) > 0,
        pow2(149) > 0,
{
    let low = Scalar { bits: MIN_Q };
    let high = Scalar { bits: MAX_Q };
    let under = Scalar { bits: 0x3DCC_CCCC };
    lemma2_to64();
    lemma_pow2_pos(149);
    lemma_pow2_pos(122);
    lemma_pow2_adds(20, 129);
    lemma_pow2_adds(27, 122);
    assert(high.exponent() == 130);
    assert(high.significand() == 0xA0_0000);
    assert(0xA0_0000 * pow2(129) == 10 * (0x10_0000 * pow2(129)));
    assert(low.exponent() == 123);
    assert(low.significand() == 0xCC_CCCD);
    assert(under.exponent() == 123);
    assert(under.significand() == 0xCC_CCCC);
}

/// No number of tenths but none is below the least Q.
proof fn tenths_reach_the_least_q(n: nat)
    requires
        n >= 1,
        !decimal_laws::decimal_number(false, n, 1).nan(),
    ensures
        decimal_laws::decimal_number(false, n, 1).size() >= 0xCC_CCCD * pow2(122),
{
    let one = pow2(149);
    let p = pow2(122);
    ends_of_q();
    reveal_with_fuel(scalar::ten_to, 2);
    let c = number::nearest_pattern(n * one, 10);
    number::rounded_stops(n * one, 10, 0);
    assert(n * one >= 10 * number::size_at(0x3DCC_CCCC)) by (nonlinear_arith)
        requires
            n >= 1,
            one == 0x800_0000 * p,
            number::size_at(0x3DCC_CCCC) == 0xCC_CCCC * p,
    ;
    tenths::rounds_no_lower(n * one, 10, 0x3DCC_CCCC);
    assert(2 * (n * one) > 10 * (number::size_at(0x3DCC_CCCC) + number::size_at(0x3DCC_CCCD)))
        by (nonlinear_arith)
        requires
            n >= 1,
            p > 0,
            one == 0x800_0000 * p,
            number::size_at(0x3DCC_CCCC) == 0xCC_CCCC * p,
            number::size_at(0x3DCC_CCCD) == 0xCC_CCCD * p,
    ;
    assert(number::passes(n * one, 10, 0x3DCC_CCCC));
    assert(c >= 0x3DCC_CCCD);
    number::sizes_in_order(0x3DCC_CCCD, c);
    let r = decimal_laws::decimal_number(false, n, 1);
    assert(r.magnitude() == c);
    assert(r.size() == number::size_at(c));
}

/// Ten times a number that is not below the least Q rounds to one at least.
proof fn ten_least_qs_are_one(x: Scalar)
    requires
        !x.nan(),
        !x.negative(),
        0xCC_CCCD * pow2(122) <= x.size() <= 10 * pow2(149),
    ensures
        arithmetic::product(x, Scalar { bits: TEN }).size() >= pow2(149),
{
    let ten = Scalar { bits: TEN };
    let one = pow2(149);
    let p = pow2(122);
    ends_of_q();
    let top = number::exact_pattern(1, 149);
    let num = x.size() * ten.size();
    assert(ten.size() == 10 * one);
    assert(num >= one * number::size_at(top)) by (nonlinear_arith)
        requires
            num == x.size() * ten.size(),
            x.size() >= 0xCC_CCCD * p,
            ten.size() == 10 * one,
            one == 0x800_0000 * p,
            number::size_at(top) == 1 * one,
            one > 0,
    ;
    tenths::rounds_no_lower(num, one, top);
    let b = number::nearest_pattern(num, one);
    number::rounded_stops(num, one, 0);
    number::sizes_in_order(top, b);
    assert(!x.infinite()) by {
        if x.infinite() {
            assert(x.exponent() == 255);
            assert(x.significand() == 0x80_0000);
            lemma_pow2_strictly_increases(149, 254);
        }
    }
    let y = arithmetic::product(x, ten);
    assert(y == number::signed(false, b));
    assert(y.magnitude() == b);
    assert(y.size() == number::size_at(b));
}

/// The wheel sets a Q that is a whole number of tenths and in range.
pub proof fn scrolled_qs_are_tenths(q: Scalar, delta: ScrollDelta) -> (n: nat)
    requires
        !arithmetic::sum(q, mic_equaliser::turned(delta)).nan(),
    ensures
        1 <= n <= 100,
        mic_equaliser::scrolled_q(q, delta) == decimal_laws::decimal_number(false, n, 1),
        !mic_equaliser::scrolled_q(q, delta).below(Scalar { bits: MIN_Q }),
        !(Scalar { bits: MAX_Q }).below(mic_equaliser::scrolled_q(q, delta)),
{
    let raw = arithmetic::sum(q, mic_equaliser::turned(delta));
    q_is_in_range(raw);
    tenths_of_a_q(apo::clamped_q(raw))
}

proof fn q_is_in_range(raw: Scalar)
    requires
        !raw.nan(),
    ensures
        !apo::clamped_q(raw).nan(),
        !apo::clamped_q(raw).negative(),
        0xCC_CCCD * pow2(122) <= apo::clamped_q(raw).size() <= 10 * pow2(149),
{
    ends_of_q();
    let x = apo::clamped_q(raw);
    assert(x.units() >= (Scalar { bits: MIN_Q }).units());
    assert(x.units() <= (Scalar { bits: MAX_Q }).units());
}

proof fn tenths_of_a_q(x: Scalar) -> (n: nat)
    requires
        !x.nan(),
        !x.negative(),
        0xCC_CCCD * pow2(122) <= x.size() <= 10 * pow2(149),
    ensures
        1 <= n <= 100,
        tenths::in_tenths(x) == decimal_laws::decimal_number(false, n, 1),
        !tenths::in_tenths(x).below(Scalar { bits: MIN_Q }),
        !(Scalar { bits: MAX_Q }).below(tenths::in_tenths(x)),
{
    let n = tenths::tenths_are_decimals(x, 10);
    let one = pow2(149);
    let y = arithmetic::product(x, Scalar { bits: TEN });
    ends_of_q();
    ten_least_qs_are_one(x);
    assert(n >= 1) by (nonlinear_arith)
        requires
            n == (2 * y.size() + one) / (2 * one),
            y.size() >= one,
            one > 0,
    ;
    tenths::tenths_stay_small(false, n, 10);
    tenths_reach_the_least_q(n);
    n
}

/// Whether `n` tenths are as near to a size as tenths can be, but for what is lost in rounding.
pub open spec fn is_nearest_tenth(n: nat, size: nat) -> bool {
    -501 * (pow2(149) as int) <= 1000 * (10 * size - n * pow2(149)) <= 501 * (pow2(149) as int)
}

proof fn steps_are_tiny(b: nat)
    requires
        b < 0x7F80_0000,
    ensures
        decimal_laws::step_at(b) == 1 || 0x80_0000 * decimal_laws::step_at(b)
            <= number::size_at(b),
{
    let x = Scalar { bits: b as u32 };
    let t = decimal_laws::step_at(b);
    if x.exponent() > 0 {
        lemma_pow2_pos((x.exponent() - 1) as nat);
        let m = x.significand();
        assert(m * t >= 0x80_0000 * t) by (nonlinear_arith)
            requires
                m >= 0x80_0000,
                t >= 0,
        ;
    }
}

/// A number that is rounded to tenths becomes the nearest number of tenths.
pub proof fn tenths_are_nearest(x: Scalar, most: nat) -> (n: nat)
    requires
        !x.nan(),
        0 < most <= 1000,
        x.size() <= most * pow2(149),
    ensures
        n <= 10 * most,
        tenths::in_tenths(x) == decimal_laws::decimal_number(x.negative(), n, 1),
        is_nearest_tenth(n, x.size()),
{
    let n = tenths::tenths_are_decimals(x, most);
    let ten = Scalar { bits: TEN };
    let one = pow2(149);
    ends_of_q();
    let y = arithmetic::product(x, ten);
    let num = x.size() * ten.size();
    let top = number::exact_pattern(10 * most, 149);
    assert(num <= one * number::size_at(top)) by (nonlinear_arith)
        requires
            num == x.size() * ten.size(),
            ten.size() == 10 * one,
            x.size() <= most * one,
            number::size_at(top) == (10 * most) * one,
            one > 0,
    ;
    tenths::rounds_no_higher(num, one, top);
    let b = number::nearest_pattern(num, one);
    number::sizes_in_order(b, top);
    decimal_laws::rounding_is_near(num, one);
    let t = decimal_laws::step_at(b);
    let s = number::size_at(b);
    steps_are_tiny(b);
    assert(!x.infinite()) by {
        if x.infinite() {
            crate::order_laws::infinity_is_furthest(x);
            number::sizes_in_order((top + 1) as nat, 0x7F80_0000);
            number::neighbours(top);
            assert(10 * most * one >= most * one) by (nonlinear_arith)
                requires
                    one > 0,
                    most > 0,
            ;
        }
    }
    assert(y.magnitude() == b);
    assert(y.size() == s);
    assert(s <= 10000 * one) by (nonlinear_arith)
        requires
            s <= (10 * most) * one,
            most <= 1000,
            one > 0,
    ;
    assert(num == one * (10 * x.size())) by (nonlinear_arith)
        requires
            num == x.size() * ten.size(),
            ten.size() == 10 * one,
    ;
    let w = 10 * x.size();
    assert(2 * w <= 2 * s + t && 2 * s <= 2 * w + t) by (nonlinear_arith)
        requires
            2 * (one * w) <= 2 * (one * s) + one * t,
            2 * (one * s) <= 2 * (one * w) + one * t,
            one > 0,
    ;
    vstd::arithmetic::div_mod::lemma_fundamental_div_mod((2 * s + one) as int, (2 * one) as int);
    let rest = (2 * s + one) % (2 * one);
    assert(2 * s + one == 2 * (n * one) + rest) by (nonlinear_arith)
        requires
            2 * s + one == (2 * one) * n + rest,
    ;
    vstd::arithmetic::div_mod::lemma_mod_bound((2 * s + one) as int, (2 * one) as int);
    n
}

/// A band is dragged to the tenth of a decibel that is nearest to the gain at the cursor, or the
/// nearest in range.
pub proof fn drags_follow_the_gain(gain: Scalar) -> (n: nat)
    requires
        !gain.nan(),
    ensures
        mic_equaliser::dragged_gain(gain) == decimal_laws::decimal_number(
            apo::clamped_gain(gain).negative(),
            n,
            1,
        ),
        gain.size() <= 12 * pow2(149) ==> is_nearest_tenth(n, gain.size()) && apo::clamped_gain(
            gain,
        ).negative() == gain.negative(),
        gain.size() > 12 * pow2(149) ==> is_nearest_tenth(n, 12 * pow2(149)) && apo::clamped_gain(
            gain,
        ).negative() == gain.negative(),
{
    let g = apo::clamped_gain(gain);
    let low = Scalar { bits: MIN_GAIN };
    let high = Scalar { bits: MAX_GAIN };
    lemma2_to64();
    lemma_pow2_pos(149);
    lemma_pow2_adds(20, 129);
    assert(high.exponent() == 130);
    assert(high.significand() == 0xC0_0000);
    assert(0xC0_0000 * pow2(129) == 12 * (0x10_0000 * pow2(129)));
    assert(high.size() == 12 * pow2(149));
    assert(low.exponent() == 130);
    assert(low.significand() == 0xC0_0000);
    assert(low.size() == 12 * pow2(149));
    tenths_are_nearest(g, 12)
}

/// The wheel adds a fifth for every line that it is turned up and a twentieth of that for every
/// pixel, and takes as much away when it is turned down: the Q becomes the nearest tenth of that,
/// or the nearest in range. How far it is turned sideways does not matter.
pub proof fn wheel_adds_fifths(q: Scalar, x: Scalar, y: Scalar) -> (r: (nat, nat))
    requires
        !arithmetic::sum(q, arithmetic::product(y, number::hundredths(20))).nan(),
        !arithmetic::sum(
            q,
            arithmetic::quotient(
                arithmetic::product(y, number::hundredths(20)),
                number::whole(20),
            ),
        ).nan(),
    ensures
        ({
            let lines = arithmetic::sum(q, arithmetic::product(y, number::hundredths(20)));
            let pixels = arithmetic::sum(
                q,
                arithmetic::quotient(
                    arithmetic::product(y, number::hundredths(20)),
                    number::whole(20),
                ),
            );
            &&& mic_equaliser::scrolled_q(q, ScrollDelta::Lines { x, y })
                == decimal_laws::decimal_number(false, r.0, 1)
            &&& is_nearest_tenth(r.0, apo::clamped_q(lines).size())
            &&& mic_equaliser::scrolled_q(q, ScrollDelta::Pixels { x, y })
                == decimal_laws::decimal_number(false, r.1, 1)
            &&& is_nearest_tenth(r.1, apo::clamped_q(pixels).size())
        }),
{
    fifth_and_twenty();
    let lines = arithmetic::sum(q, arithmetic::product(y, number::hundredths(20)));
    let pixels = arithmetic::sum(
        q,
        arithmetic::quotient(arithmetic::product(y, number::hundredths(20)), number::whole(20)),
    );
    q_is_in_range(lines);
    q_is_in_range(pixels);
    (tenths_are_nearest(apo::clamped_q(lines), 10), tenths_are_nearest(apo::clamped_q(pixels), 10))
}

proof fn fifth_and_twenty()
    ensures
        number::hundredths(20) == (Scalar { bits: VALUE_PER_LINE }),
        number::whole(20) == (Scalar { bits: PIXELS_PER_LINE }),
{
    let fifth = Scalar { bits: VALUE_PER_LINE };
    let twenty = Scalar { bits: PIXELS_PER_LINE };
    let one = pow2(149);
    let p = pow2(123);
    lemma2_to64();
    lemma_pow2_pos(149);
    lemma_pow2_pos(123);
    lemma_pow2_adds(26, 123);
    lemma_pow2_adds(19, 130);
    reveal_with_fuel(scalar::ten_to, 3);
    assert(twenty.exponent() == 131);
    assert(twenty.significand() == 0xA0_0000);
    assert(0xA0_0000 * pow2(130) == 20 * (0x8_0000 * pow2(130)));
    assert(number::numerator(20, 0) == 20 * one) by (nonlinear_arith)
        requires
            number::numerator(20, 0) == 20 * 1 * one,
    ;
    assert(number::size_at(PIXELS_PER_LINE as nat) == 20 * one);
    assert(1 * twenty.size() == twenty.size());
    number::patterns_round_to_themselves(20 * one, 1, PIXELS_PER_LINE as nat);
    let under = Scalar { bits: 0x3E4C_CCCC };
    let over = Scalar { bits: 0x3E4C_CCCE };
    assert(fifth.exponent() == 124 && fifth.significand() == 0xCC_CCCD);
    assert(under.exponent() == 124 && under.significand() == 0xCC_CCCC);
    assert(over.exponent() == 124 && over.significand() == 0xCC_CCCE);
    assert(number::size_at(0x3E4C_CCCD) == 0xCC_CCCD * p);
    assert(number::size_at(0x3E4C_CCCC) == 0xCC_CCCC * p);
    assert(number::size_at(0x3E4C_CCCE) == 0xCC_CCCE * p);
    let num = number::numerator(20, -2);
    assert(num == 20 * (0x400_0000 * p));
    assert(number::denominator(-2) == 100);
    assert(number::passes(num, 100, 0x3E4C_CCCC));
    assert(!number::passes(num, 100, 0x3E4C_CCCD));
    number::rounded_is(num, 100, 0, 0x3E4C_CCCD);
}

} // verus!
