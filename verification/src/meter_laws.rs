//! What holds of the meter whatever is read.

use vstd::arithmetic::power2::lemma2_to64;
use vstd::arithmetic::power2::lemma_pow2_adds;
use vstd::arithmetic::power2::lemma_pow2_pos;
use vstd::arithmetic::power2::pow2;
use vstd::prelude::*;

use crate::arithmetic;
use crate::meter::ATTACK_TAU;
use crate::meter::LARGEST_FALL;
use crate::meter::LEAST_LEFT;
use crate::meter::LEAST_SPAN;
use crate::meter::LONGEST_STEP;
use crate::meter::MeterBallistics;
use crate::meter::MicMeter;
use crate::meter::ONE;
use crate::meter::RELEASE_RATE;
use crate::meter;
use crate::number;
use crate::order_laws;
use crate::scalar::Scalar;
use crate::scalar;
use crate::spectrum_frame::FOUR;
use crate::tenths;

verus! {

/// Whether `left` is a part of a way.
pub open spec fn is_part(left: Scalar) -> bool {
    !left.nan() && 0 <= left.units() <= (Scalar { bits: ONE }).units()
}

proof fn sizes_of_constants()
    ensures
        (Scalar { bits: ONE }).units() == 0x100_0000 * pow2(125),
        (Scalar { bits: ONE }).units() == pow2(149),
        (Scalar { bits: LEAST_LEFT }).units() == 2 * pow2(125),
        (Scalar { bits: 0x3F7F_FFFE }).units() == 0xFF_FFFE * pow2(125),
        (Scalar { bits: 0 }).units() == 0,
        pow2(125) > 0,
        pow2(149) == 0x100_0000 * pow2(125),
{
    let one = Scalar { bits: ONE };
    let least = Scalar { bits: LEAST_LEFT };
    let under = Scalar { bits: 0x3F7F_FFFE };
    lemma2_to64();
    lemma_pow2_pos(125);
    lemma_pow2_adds(24, 125);
    lemma_pow2_adds(1, 125);
    lemma_pow2_adds(22, 103);
    order_laws::nothing_is_zero(one);
    assert(one.exponent() == 127);
    assert(one.significand() == 0x80_0000);
    assert(one.size() == 0x80_0000 * pow2(126));
    assert(least.exponent() == 104);
    assert(least.significand() == 0x80_0000);
    assert(least.size() == 0x80_0000 * pow2(103));
    assert(pow2(125) == 0x40_0000 * pow2(103));
    assert(under.exponent() == 126);
    assert(under.significand() == 0xFF_FFFE);
}

/// What is left of a way is a part of it, and no more than all but the least if that much is left.
proof fn rest_is_a_part(left: Scalar)
    requires
        is_part(left),
    ensures
        is_part(arithmetic::difference(Scalar { bits: ONE }, left)),
        order_laws::finite(arithmetic::difference(Scalar { bits: ONE }, left)),
        left.units() >= (Scalar { bits: LEAST_LEFT }).units() ==> arithmetic::difference(
            Scalar { bits: ONE },
            left,
        ).units() <= 0xFF_FFFE * pow2(125),
{
    let one = Scalar { bits: ONE };
    let zero = Scalar { bits: 0 };
    let under = Scalar { bits: 0x3F7F_FFFE };
    sizes_of_constants();
    order_laws::below_infinity(left, one);
    order_laws::differences_stop(one, left, one);
    order_laws::differences_stop(one, left, zero);
    order_laws::differences_stop(one, left, under);
    order_laws::below_infinity(arithmetic::difference(one, left), one);
}

/// A difference that is rounded up, taken but for a little, is not more than the exact one.
proof fn rounded_way_stops(way: nat, a: Scalar, part: Scalar)
    requires
        way > 0,
        !a.nan() && !a.infinite(),
        !a.negative(),
        a.units() == order_laws::rounded_units(way as int),
        order_laws::finite(part),
        0 <= part.units() <= 0xFF_FFFE * pow2(125),
    ensures
        !arithmetic::product(a, part).nan(),
        0 <= arithmetic::product(a, part).units() <= way,
{
    let b = number::nearest_pattern(way, 1);
    let p = pow2(125);
    sizes_of_constants();
    number::rounded_stops(way, 1, 0);
    order_laws::infinity_is_furthest(a);
    if a.units() <= way {
        let (x, y) = (a.units(), part.units());
        assert(x * y <= pow2(149) * x) by (nonlinear_arith)
            requires
                x >= 0,
                0 <= y <= pow2(149),
        ;
        order_laws::products_stop(a, part, a);
    } else {
        order_laws::nothing_is_zero(a);
        assert(b > 0);
        let c = (b - 1) as nat;
        number::neighbours(c);
        let low = Scalar { bits: c as u32 };
        let s = low.significand();
        let under = number::size_at(c);
        assert(1 * (under + number::size_at(b)) == under + number::size_at(b));
        assert(under < way);
        lemma2_to64();
        if low.exponent() == 0 {
            assert(under == s);
            assert((2 * s + 1) * pow2(0) == 2 * s + 1);
        } else {
            let q = pow2((low.exponent() - 1) as nat);
            let above = number::size_at(b);
            assert(under == s * q);
            assert(above == (s + 1) * q) by (nonlinear_arith)
                requires
                    under + above == (2 * s + 1) * q,
                    under == s * q,
            ;
            let y = part.units();
            assert(above * y <= pow2(149) * under) by {
                assert(above * 0xFF_FFFE <= 0x100_0000 * under) by (nonlinear_arith)
                    requires
                        above == (s + 1) * q,
                        under == s * q,
                        s >= 0x80_0000,
                        q >= 0,
                ;
                assert(above * y <= (above * 0xFF_FFFE) * p) by (nonlinear_arith)
                    requires
                        0 <= y <= 0xFF_FFFE * p,
                        above >= 0,
                ;
                assert((above * 0xFF_FFFE) * p <= (0x100_0000 * under) * p) by (nonlinear_arith)
                    requires
                        above * 0xFF_FFFE <= 0x100_0000 * under,
                        p >= 0,
                ;
                assert((0x100_0000 * under) * p == (0x100_0000 * p) * under) by (nonlinear_arith);
            }
            assert(low.magnitude() == c);
            order_laws::products_stop(a, part, low);
        }
    }
}

/// The level rises towards the reading. It does not come out above what the way to it comes to, and
/// not above the reading itself unless next to nothing of the way is left.
proof fn rising_level(db: Scalar, target: Scalar, dt: Scalar, left: Scalar)
    requires
        order_laws::finite(target),
        db.below(target),
        is_part(left),
        !arithmetic::difference(target, db).infinite(),
    ensures
        ({
            let r = meter::level_after(db, target, dt, left);
            &&& !r.nan()
            &&& db.units() <= r.units()
            &&& r.units() <= arithmetic::sum(db, arithmetic::difference(target, db)).units()
            &&& left.units() >= (Scalar { bits: LEAST_LEFT }).units() ==> r.units()
                <= target.units()
        }),
{
    let a = arithmetic::difference(target, db);
    let part = arithmetic::difference(Scalar { bits: ONE }, left);
    let zero = Scalar { bits: 0 };
    order_laws::infinity_is_furthest(db);
    order_laws::negated_units(db);
    assert(order_laws::finite(db));
    sizes_of_constants();
    rest_is_a_part(left);
    order_laws::sum_of_units(target, arithmetic::negated(db));
    order_laws::differences_stop(target, db, zero);
    let way = target.units() - db.units();
    assert(a.units() == order_laws::rounded_units(way));
    a_is_above_zero(way as nat, a);
    let moved = arithmetic::product(a, part);
    let (x, y) = (a.units(), part.units());
    assert(x * y <= pow2(149) * x) by (nonlinear_arith)
        requires
            x >= 0,
            0 <= y <= pow2(149),
    ;
    order_laws::products_stop(a, part, a);
    order_laws::below_infinity(moved, a);
    order_laws::sums_stop(db, moved, db);
    order_laws::sums_in_order(db, moved, db, a);
    if left.units() >= (Scalar { bits: LEAST_LEFT }).units() {
        rounded_way_stops(way as nat, a, part);
        order_laws::sums_stop(db, moved, target);
    }
}

proof fn a_is_above_zero(way: nat, a: Scalar)
    requires
        way > 0,
        !a.nan(),
        a.units() == order_laws::rounded_units(way as int),
    ensures
        a.units() > 0,
        !a.negative(),
{
    let least = Scalar { bits: 1 };
    assert(least.size() == 1);
    assert(1 * number::size_at(1) == 1);
    tenths::rounds_no_lower(way, 1, 1);
    let b = number::nearest_pattern(way, 1);
    number::rounded_stops(way, 1, 0);
    number::sizes_in_order(1, b);
}

/// The time that counts is neither below zero nor above the longest.
proof fn step_time_is_short(elapsed: Scalar)
    requires
        !elapsed.below(Scalar { bits: 0 }),
    ensures
        order_laws::finite(meter::step_time(elapsed)),
        0 <= meter::step_time(elapsed).units() <= (Scalar { bits: LONGEST_STEP }).units(),
{
    let longest = Scalar { bits: LONGEST_STEP };
    let dt = meter::step_time(elapsed);
    order_laws::nothing_is_zero(dt);
    scalar::positive_patterns_in_order(Scalar { bits: 0 }, longest);
    order_laws::below_infinity(dt, longest);
}

/// The longest time makes the largest fall.
proof fn longest_time_falls_most()
    ensures
        arithmetic::product(Scalar { bits: RELEASE_RATE }, Scalar { bits: LONGEST_STEP }).units()
            == (Scalar { bits: LARGEST_FALL }).units(),
{
    let rate = Scalar { bits: RELEASE_RATE };
    let time = Scalar { bits: LONGEST_STEP };
    let fall = Scalar { bits: LARGEST_FALL };
    let over = Scalar { bits: 0x4110_0001 };
    let under = Scalar { bits: 0x410F_FFFF };
    lemma2_to64();
    lemma_pow2_adds(132, 122);
    lemma_pow2_adds(105, 149);
    lemma_pow2_adds(24, 105);
    lemma_pow2_pos(105);
    lemma_pow2_pos(149);
    assert(rate.exponent() == 133);
    assert(rate.significand() == 0xB4_0000);
    assert(time.exponent() == 123);
    assert(time.significand() == 0xCC_CCCD);
    assert(fall.exponent() == 130);
    assert(fall.significand() == 0x90_0000);
    assert(over.exponent() == 130);
    assert(over.significand() == 0x90_0001);
    assert(under.exponent() == 130);
    assert(under.significand() == 0x8F_FFFF);
    let one = pow2(149);
    let p = pow2(105);
    let num = rate.size() * time.size();
    assert(num == one * ((0xB4_0000 * 0xCC_CCCD) * p)) by (nonlinear_arith)
        requires
            num == rate.size() * time.size(),
            rate.size() == 0xB4_0000 * pow2(132),
            time.size() == 0xCC_CCCD * pow2(122),
            pow2(132) * pow2(122) == p * one,
    ;
    let (x, y, z) = (number::size_at(0x410F_FFFF), number::size_at(0x4110_0000), number::size_at(
        0x4110_0001,
    ));
    assert(x == 0x8F_FFFF * (0x100_0000 * p));
    assert(y == 0x90_0000 * (0x100_0000 * p));
    assert(z == 0x90_0001 * (0x100_0000 * p));
    assert(2 * num < one * (y + z)) by (nonlinear_arith)
        requires
            num == one * ((0xB4_0000 * 0xCC_CCCD) * p),
            y == 0x90_0000 * (0x100_0000 * p),
            z == 0x90_0001 * (0x100_0000 * p),
            one > 0,
            p > 0,
    ;
    assert(2 * num > one * (x + y)) by (nonlinear_arith)
        requires
            num == one * ((0xB4_0000 * 0xCC_CCCD) * p),
            x == 0x8F_FFFF * (0x100_0000 * p),
            y == 0x90_0000 * (0x100_0000 * p),
            one > 0,
            p > 0,
    ;
    number::rounded_is(num, one, 0, 0x4110_0000);
    order_laws::signed_units(false, 0x4110_0000);
}

/// What falls in the time that counts is neither below zero nor more than the largest fall.
proof fn falls_are_small(elapsed: Scalar)
    requires
        !elapsed.below(Scalar { bits: 0 }),
    ensures
        ({
            let fall = arithmetic::product(
                Scalar { bits: RELEASE_RATE },
                meter::step_time(elapsed),
            );
            &&& order_laws::finite(fall)
            &&& 0 <= fall.units() <= (Scalar { bits: LARGEST_FALL }).units()
        }),
{
    let rate = Scalar { bits: RELEASE_RATE };
    let dt = meter::step_time(elapsed);
    let longest = Scalar { bits: LONGEST_STEP };
    step_time_is_short(elapsed);
    longest_time_falls_most();
    scalar::positive_patterns_in_order(Scalar { bits: 0 }, rate);
    order_laws::nothing_is_zero(rate);
    order_laws::products_in_order(rate, dt, rate, longest);
    let fall = arithmetic::product(rate, dt);
    scalar::positive_patterns_in_order(Scalar { bits: 0 }, Scalar { bits: LARGEST_FALL });
    order_laws::below_infinity(fall, Scalar { bits: LARGEST_FALL });
}

/// What has fallen is not above where it was, and not further down than by the largest fall.
proof fn fallen(db: Scalar, fall: Scalar)
    requires
        !db.nan(),
        order_laws::finite(fall),
        0 <= fall.units() <= (Scalar { bits: LARGEST_FALL }).units(),
    ensures
        !arithmetic::difference(db, fall).nan(),
        arithmetic::difference(db, fall).units() <= db.units(),
        arithmetic::difference(db, Scalar { bits: LARGEST_FALL }).units()
            <= arithmetic::difference(db, fall).units(),
{
    order_laws::differences_in_order(db, Scalar { bits: LARGEST_FALL }, db, fall);
    order_laws::negated_units(fall);
    if db.infinite() {
        assert(arithmetic::difference(db, fall) == db);
    } else {
        order_laws::differences_stop(db, fall, db);
    }
}

/// Whether a reading can follow on another: it is finite and not before it, `left` is a part of the
/// way, and the way up to it is finite.
pub open spec fn can_follow(
    m: MeterBallistics,
    target: Scalar,
    elapsed: Scalar,
    left: Scalar,
) -> bool {
    &&& !m.db.nan()
    &&& order_laws::finite(target)
    &&& !elapsed.below(Scalar { bits: 0 })
    &&& is_part(left)
    &&& m.db.below(target) ==> !arithmetic::difference(target, m.db).infinite()
}

/// After a reading the level lies between where it was and the reading, and it has fallen by no
/// more than nine dB, as far as the difference can be written. A level that rises comes out above
/// the reading only where next to nothing of the way was left, and then by no more than the way up
/// to it is rounded.
pub proof fn level_stays_between(
    m: MeterBallistics,
    target: Scalar,
    elapsed: Scalar,
    left: Scalar,
)
    requires
        can_follow(m, target, elapsed, left),
    ensures
        ({
            let r = meter::advanced(m, target, elapsed, left).db;
            &&& !r.nan()
            &&& m.db.below(target) ==> {
                &&& m.db.units() <= r.units()
                &&& r.units() <= arithmetic::sum(
                    m.db,
                    arithmetic::difference(target, m.db),
                ).units()
                &&& left.units() >= (Scalar { bits: LEAST_LEFT }).units() ==> r.units()
                    <= target.units()
            }
            &&& !m.db.below(target) ==> target.units() <= r.units() <= m.db.units()
            &&& r.units() >= arithmetic::difference(
                m.db,
                Scalar { bits: LARGEST_FALL },
            ).units()
        }),
{
    let dt = meter::step_time(elapsed);
    let fall = arithmetic::product(Scalar { bits: RELEASE_RATE }, dt);
    falls_are_small(elapsed);
    fallen(m.db, fall);
    if m.db.below(target) {
        rising_level(m.db, target, dt, left);
    }
}

/// The peak stays at or above the reading and the level, and is not above both where it was and the
/// reading.
pub proof fn peak_stays_on_top(
    m: MeterBallistics,
    target: Scalar,
    elapsed: Scalar,
    left: Scalar,
)
    requires
        can_follow(m, target, elapsed, left),
        !m.peak_db.nan(),
        m.db.units() <= m.peak_db.units(),
    ensures
        ({
            let next = meter::advanced(m, target, elapsed, left);
            &&& !next.peak_db.nan()
            &&& next.peak_db.units() >= target.units()
            &&& next.peak_db.units() <= m.peak_db.units() || next.peak_db.units()
                == target.units()
            &&& !m.db.below(target) || left.units() >= (Scalar { bits: LEAST_LEFT }).units()
                ==> next.peak_db.units() >= next.db.units()
        }),
{
    let dt = meter::step_time(elapsed);
    let fall = arithmetic::product(Scalar { bits: RELEASE_RATE }, dt);
    falls_are_small(elapsed);
    fallen(m.db, fall);
    fallen(m.peak_db, fall);
    order_laws::differences_in_order(m.db, fall, m.peak_db, fall);
    level_stays_between(m, target, elapsed, left);
}

/// The exponent of the part of its way that a rising level does not go is from minus four to zero,
/// so that the least part is never reached.
pub proof fn exponents_are_small(elapsed: Scalar)
    requires
        !elapsed.below(Scalar { bits: 0 }),
    ensures
        ({
            let e = arithmetic::quotient(
                arithmetic::negated(meter::step_time(elapsed)),
                Scalar { bits: ATTACK_TAU },
            );
            &&& !e.nan()
            &&& -(Scalar { bits: FOUR }).units() <= e.units() <= 0
        }),
{
    let dt = meter::step_time(elapsed);
    let longest = Scalar { bits: LONGEST_STEP };
    let tau = Scalar { bits: ATTACK_TAU };
    let four = Scalar { bits: FOUR };
    let x = arithmetic::negated(dt);
    step_time_is_short(elapsed);
    order_laws::negated_units(dt);
    scalar::positive_patterns_in_order(Scalar { bits: 0 }, tau);
    order_laws::nothing_is_zero(tau);
    order_laws::quotient_of_units(x, tau);
    lemma2_to64();
    lemma_pow2_adds(122, 149);
    lemma_pow2_adds(120, 128);
    lemma_pow2_adds(23, 248);
    lemma_pow2_pos(248);
    assert(longest.exponent() == 123);
    assert(longest.significand() == 0xCC_CCCD);
    assert(tau.exponent() == 121);
    assert(tau.significand() == 0xF5_C28F);
    assert(four.exponent() == 129);
    assert(four.significand() == 0x80_0000);
    let one = pow2(149);
    let num = x.size() * one;
    let c = FOUR as nat;
    assert(number::size_at(c) == 0x80_0000 * pow2(128));
    assert(num <= longest.size() * one) by (nonlinear_arith)
        requires
            num == x.size() * one,
            x.size() <= longest.size(),
    ;
    assert(longest.size() * one == 0xCC_CCCD * pow2(271)) by (nonlinear_arith)
        requires
            longest.size() == 0xCC_CCCD * pow2(122),
            pow2(122) * one == pow2(271),
    ;
    assert(tau.size() * number::size_at(c) == 0xF5_C28F * pow2(271)) by (nonlinear_arith)
        requires
            tau.size() == 0xF5_C28F * pow2(120),
            number::size_at(c) == 0x80_0000 * pow2(128),
            pow2(120) * pow2(128) == pow2(248),
            pow2(271) == 0x80_0000 * pow2(248),
    ;
    tenths::rounds_no_higher(num, tau.size(), c);
    number::sizes_in_order(number::nearest_pattern(num, tau.size()), c);
    if x.units() == 0 {
        nothing_over(x, tau);
    }
}

/// Whether the meter has a lowest and a highest level, and a way between them that can be written.
pub open spec fn has_span(m: MicMeter) -> bool {
    &&& order_laws::finite(m.min_db)
    &&& order_laws::finite(m.max_db)
    &&& m.min_db.units() < m.max_db.units()
    &&& !arithmetic::difference(m.max_db, m.min_db).infinite()
}

/// What the way from the lowest level is divided by.
spec fn span(m: MicMeter) -> Scalar {
    arithmetic::larger(
        arithmetic::absolute(arithmetic::difference(m.max_db, m.min_db)),
        Scalar { bits: LEAST_SPAN },
    )
}

proof fn span_is_positive(m: MicMeter)
    requires
        has_span(m),
    ensures
        order_laws::finite(span(m)),
        span(m).units() > 0,
        arithmetic::difference(m.max_db, m.min_db).units() > 0,
        !arithmetic::difference(m.max_db, m.min_db).nan(),
        !arithmetic::difference(m.max_db, m.min_db).below(Scalar { bits: LEAST_SPAN })
            ==> span(m).units() == arithmetic::difference(m.max_db, m.min_db).units(),
{
    let d = arithmetic::difference(m.max_db, m.min_db);
    let least = Scalar { bits: LEAST_SPAN };
    let size = arithmetic::absolute(d);
    scalar::positive_patterns_in_order(Scalar { bits: 0 }, least);
    order_laws::nothing_is_zero(least);
    order_laws::negated_units(m.min_db);
    order_laws::sum_of_units(m.max_db, arithmetic::negated(m.min_db));
    a_is_above_zero((m.max_db.units() - m.min_db.units()) as nat, d);
    assert(size.magnitude() == d.magnitude());
    assert(size.size() == d.size());
}

/// The part that a level covers is between nothing and all, unless it is no number; of a level that
/// is a number it is one.
pub proof fn fraction_is_a_part(m: MicMeter, db: Scalar)
    ensures
        m.fraction(db).nan() || 0 <= m.fraction(db).units() <= (Scalar { bits: ONE }).units(),
        has_span(m) && !db.nan() ==> !m.fraction(db).nan(),
{
    scalar::positive_patterns_in_order(Scalar { bits: 0 }, Scalar { bits: ONE });
    order_laws::nothing_is_zero(Scalar { bits: 0 });
    if has_span(m) && !db.nan() {
        fraction_grows(m, db, db);
    }
}

/// A higher level does not cover less.
pub proof fn fraction_grows(m: MicMeter, db: Scalar, higher: Scalar)
    requires
        has_span(m),
        !db.nan(),
        !higher.nan(),
        db.units() <= higher.units(),
    ensures
        !m.fraction(db).nan(),
        !m.fraction(higher).nan(),
        m.fraction(db).units() <= m.fraction(higher).units(),
{
    span_is_positive(m);
    sizes_of_constants();
    let d = arithmetic::difference(db, m.min_db);
    let e = arithmetic::difference(higher, m.min_db);
    order_laws::differences_in_order(db, m.min_db, higher, m.min_db);
    order_laws::quotients_in_order(d, e, span(m));
    order_laws::clamps_in_order(
        arithmetic::quotient(d, span(m)),
        arithmetic::quotient(e, span(m)),
        Scalar { bits: 0 },
        Scalar { bits: ONE },
    );
}

/// The lowest level and what is below it covers nothing. The highest level and what is above it
/// covers all, if the way between them is not below the least that counts.
pub proof fn fraction_has_ends(m: MicMeter, db: Scalar)
    requires
        has_span(m),
        !db.nan(),
    ensures
        db.units() <= m.min_db.units() ==> m.fraction(db).equals(Scalar { bits: 0 }),
        db.units() >= m.max_db.units() && !arithmetic::difference(m.max_db, m.min_db).below(
            Scalar { bits: LEAST_SPAN },
        ) ==> m.fraction(db).equals(Scalar { bits: ONE }),
{
    let zero = Scalar { bits: 0 };
    span_is_positive(m);
    sizes_of_constants();
    fraction_is_a_part(m, db);
    if db.units() <= m.min_db.units() {
        order_laws::differences_stop(m.min_db, m.min_db, zero);
        let d = arithmetic::difference(m.min_db, m.min_db);
        nothing_over(d, span(m));
        fraction_grows(m, db, m.min_db);
    }
    if db.units() >= m.max_db.units() {
        fraction_grows(m, m.max_db, db);
        let d = arithmetic::difference(m.max_db, m.min_db);
        if !d.below(Scalar { bits: LEAST_SPAN }) {
            all_over(d, span(m));
        }
    }
}

proof fn nothing_over(x: Scalar, y: Scalar)
    requires
        !x.nan(),
        x.units() == 0,
        order_laws::finite(y),
        y.units() > 0,
    ensures
        !arithmetic::quotient(x, y).nan(),
        arithmetic::quotient(x, y).units() == 0,
{
    order_laws::nothing_is_zero(x);
    order_laws::quotient_of_units(x, y);
    let num = x.size() * pow2(149);
    assert(num == 0) by (nonlinear_arith)
        requires
            num == x.size() * pow2(149),
            x.size() == 0,
    ;
    assert(y.size() * 0 == 0) by (nonlinear_arith);
    number::patterns_round_to_themselves(0, y.size(), 0);
}

proof fn all_over(x: Scalar, y: Scalar)
    requires
        order_laws::finite(x),
        order_laws::finite(y),
        x.units() == y.units(),
        y.units() > 0,
    ensures
        !arithmetic::quotient(x, y).nan(),
        arithmetic::quotient(x, y).units() == (Scalar { bits: ONE }).units(),
{
    sizes_of_constants();
    order_laws::quotient_of_units(x, y);
    assert(number::size_at(ONE as nat) == pow2(149));
    number::patterns_round_to_themselves(x.size() * pow2(149), y.size(), ONE as nat);
}

} // verus!
