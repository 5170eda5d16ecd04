//! What holds of the curve whatever is heard.

use vstd::arithmetic::power2::lemma2_to64;
use vstd::arithmetic::power2::lemma_pow2_adds;
use vstd::arithmetic::power2::lemma_pow2_pos;
use vstd::arithmetic::power2::pow2;
use vstd::prelude::*;

use crate::arithmetic;
use crate::ballistics::ACTIVE_SPAN;
use crate::ballistics::CurveFrequency;
use crate::ballistics::FrequencyLogs;
use crate::ballistics::HIGH_CUTOFF;
use crate::ballistics::HIGH_REACH;
use crate::ballistics::LEAST_ACTIVITY;
use crate::ballistics::LOW_CUTOFF;
use crate::ballistics::QUIET_LEVEL;
use crate::ballistics;
use crate::eq::MAX_GAIN;
use crate::eq::MIN_GAIN;
use crate::eq_drawer::MIN_DB;
use crate::eq_drawer;
use crate::meter::ONE;
use crate::meter_laws;
use crate::number;
use crate::order_laws;
use crate::scalar::Scalar;
use crate::scalar;
use crate::spectrum_frame::FOUR;

verus! {

/// Whether the logarithms are finite, not below zero, and in the order of their frequencies.
pub open spec fn logs_in_order(logs: FrequencyLogs) -> bool {
    &&& !logs.lowest.nan() && !logs.low_cutoff.nan() && !logs.high_cutoff.nan()
    &&& order_laws::finite(logs.highest)
    &&& 0 <= logs.lowest.units() < logs.low_cutoff.units() <= logs.high_cutoff.units()
        < logs.highest.units()
}

/// Whether the logarithm of a frequency is finite and not below zero.
pub open spec fn on_curve(at: CurveFrequency) -> bool {
    order_laws::finite(at.log) && at.log.units() >= 0
}

/// Whether a gain is in the range of gains.
pub open spec fn in_range(gain: Scalar) -> bool {
    !gain.nan() && (Scalar { bits: MIN_GAIN }).units() <= gain.units() <= (Scalar {
        bits: MAX_GAIN,
    }).units()
}

/// The gain that is four dB higher, or the highest.
pub open spec fn highest_lift(gain: Scalar) -> Scalar {
    arithmetic::sum(gain, Scalar { bits: FOUR }).clamped(
        Scalar { bits: MIN_GAIN },
        Scalar { bits: MAX_GAIN },
    )
}

proof fn one_is_one()
    ensures
        (Scalar { bits: ONE }).units() == pow2(149),
        (Scalar { bits: 0 }).units() == 0,
        (Scalar { bits: 1 }).units() == 1,
        (Scalar { bits: MIN_GAIN }).units() < 0 < (Scalar { bits: MAX_GAIN }).units(),
        0 < (Scalar { bits: HIGH_REACH }).units() <= (Scalar { bits: FOUR }).units(),
{
    let one = Scalar { bits: ONE };
    let least = Scalar { bits: 1 };
    lemma2_to64();
    lemma_pow2_adds(23, 126);
    order_laws::nothing_is_zero(one);
    assert(one.exponent() == 127);
    assert(one.significand() == 0x80_0000);
    assert(least.size() == 1);
    order_laws::nothing_is_zero(Scalar { bits: MIN_GAIN });
    scalar::positive_patterns_in_order(Scalar { bits: 0 }, Scalar { bits: MAX_GAIN });
    scalar::positive_patterns_in_order(Scalar { bits: 0 }, Scalar { bits: HIGH_REACH });
    scalar::positive_patterns_in_order(Scalar { bits: HIGH_REACH }, Scalar { bits: FOUR });
}

/// A number brought between nothing and all is a part, and a larger one not a smaller part.
proof fn clamped_is_a_part(x: Scalar, u: Scalar)
    requires
        !x.nan(),
        !u.nan(),
        x.units() <= u.units(),
    ensures
        ({
            let (a, b) = (
                x.clamped(Scalar { bits: 0 }, Scalar { bits: ONE }),
                u.clamped(Scalar { bits: 0 }, Scalar { bits: ONE }),
            );
            &&& meter_laws::is_part(a)
            &&& meter_laws::is_part(b)
            &&& order_laws::finite(a)
            &&& order_laws::finite(b)
            &&& a.units() <= b.units()
        }),
{
    let zero = Scalar { bits: 0 };
    let one = Scalar { bits: ONE };
    one_is_one();
    order_laws::clamps_in_order(x, u, zero, one);
    order_laws::below_infinity(x.clamped(zero, one), one);
    order_laws::below_infinity(u.clamped(zero, one), one);
}

/// How active a level is.
spec fn activity_of(level: Scalar) -> Scalar {
    arithmetic::quotient(
        arithmetic::difference(level, Scalar { bits: QUIET_LEVEL }),
        Scalar { bits: ACTIVE_SPAN },
    ).clamped(Scalar { bits: 0 }, Scalar { bits: ONE })
}

proof fn louder_is_more_active(level: Scalar, louder: Scalar)
    requires
        order_laws::finite(level),
        order_laws::finite(louder),
        level.units() <= louder.units(),
    ensures
        meter_laws::is_part(activity_of(level)),
        meter_laws::is_part(activity_of(louder)),
        order_laws::finite(activity_of(level)),
        order_laws::finite(activity_of(louder)),
        activity_of(level).units() <= activity_of(louder).units(),
{
    let quiet = Scalar { bits: QUIET_LEVEL };
    let span = Scalar { bits: ACTIVE_SPAN };
    order_laws::nothing_is_zero(span);
    scalar::positive_patterns_in_order(Scalar { bits: 0 }, span);
    order_laws::differences_in_order(level, quiet, louder, quiet);
    let (x, u) = (arithmetic::difference(level, quiet), arithmetic::difference(louder, quiet));
    order_laws::quotients_in_order(x, u, span);
    clamped_is_a_part(arithmetic::quotient(x, span), arithmetic::quotient(u, span));
}

/// A louder bin does not make the loudest level lower.
proof fn loudest_in_order(bins: Seq<Scalar>, j: int, louder: Scalar, from: int, upto: int)
    requires
        0 <= j < bins.len(),
        order_laws::finite(bins[j]),
        order_laws::finite(louder),
        bins[j].units() <= louder.units(),
        0 <= from,
        upto <= bins.len(),
    ensures
        ({
            let floor = Scalar { bits: MIN_DB };
            let a = eq_drawer::loudest(bins, from, upto, floor);
            let b = eq_drawer::loudest(bins.update(j, louder), from, upto, floor);
            &&& order_laws::finite(a)
            &&& order_laws::finite(b)
            &&& a.units() <= b.units()
        }),
    decreases upto - from,
{
    let floor = Scalar { bits: MIN_DB };
    let more = bins.update(j, louder);
    ballistics::loudest_is_finite(bins, from, upto, floor);
    ballistics::loudest_is_finite(more, from, upto, floor);
    if from < upto {
        loudest_in_order(bins, j, louder, from, upto - 1);
        if upto - 1 != j {
            assert(more[upto - 1] == bins[upto - 1]);
        }
    }
}

/// More sound is not less active.
proof fn activities_in_order(
    bins: Seq<Scalar>,
    j: int,
    louder: Scalar,
    from: Scalar,
    to: Scalar,
    logs: FrequencyLogs,
)
    requires
        0 <= j < bins.len(),
        order_laws::finite(bins[j]),
        order_laws::finite(louder),
        bins[j].units() <= louder.units(),
    ensures
        ({
            let a = ballistics::activity(bins, from, to, logs);
            let b = ballistics::activity(bins.update(j, louder), from, to, logs);
            &&& meter_laws::is_part(a)
            &&& meter_laws::is_part(b)
            &&& order_laws::finite(a)
            &&& order_laws::finite(b)
            &&& a.units() <= b.units()
        }),
{
    let floor = Scalar { bits: MIN_DB };
    let more = bins.update(j, louder);
    let a = ballistics::level_place(from, bins.len(), logs);
    let b = ballistics::level_place(to, bins.len(), logs) + 1;
    loudest_in_order(bins, j, louder, a, b);
    louder_is_more_active(
        eq_drawer::loudest(bins, a, b, floor),
        eq_drawer::loudest(more, a, b, floor),
    );
}

proof fn activity_is_a_part(bins: Seq<Scalar>, from: Scalar, to: Scalar, logs: FrequencyLogs)
    ensures
        meter_laws::is_part(ballistics::activity(bins, from, to, logs)),
        order_laws::finite(ballistics::activity(bins, from, to, logs)),
{
    let floor = Scalar { bits: MIN_DB };
    let a = ballistics::level_place(from, bins.len(), logs);
    let b = ballistics::level_place(to, bins.len(), logs) + 1;
    let level = eq_drawer::loudest(bins, a, b, floor);
    ballistics::loudest_is_finite(bins, a, b, floor);
    louder_is_more_active(level, level);
}

/// The way between two logarithms is finite and above zero.
proof fn way_between(low: Scalar, high: Scalar)
    requires
        !low.nan(),
        order_laws::finite(high),
        0 <= low.units() < high.units(),
    ensures
        order_laws::finite(low),
        order_laws::finite(arithmetic::difference(high, low)),
        arithmetic::difference(high, low).units() > 0,
{
    one_is_one();
    order_laws::below_infinity(low, high);
    order_laws::differences_stop(high, low, high);
    order_laws::differences_stop(high, low, Scalar { bits: 1 });
    order_laws::below_infinity(arithmetic::difference(high, low), high);
}

proof fn parts_are_parts(at: CurveFrequency, logs: FrequencyLogs)
    requires
        logs_in_order(logs),
        on_curve(at),
    ensures
        meter_laws::is_part(ballistics::low_part(at, logs)),
        meter_laws::is_part(ballistics::high_part(at, logs)),
        order_laws::finite(ballistics::low_part(at, logs)),
        order_laws::finite(ballistics::high_part(at, logs)),
{
    let one = Scalar { bits: ONE };
    order_laws::below_infinity(logs.low_cutoff, logs.highest);
    order_laws::below_infinity(logs.high_cutoff, logs.highest);
    way_between(logs.lowest, logs.low_cutoff);
    way_between(logs.high_cutoff, logs.highest);
    order_laws::differences_in_order(at.log, logs.lowest, at.log, logs.lowest);
    order_laws::differences_in_order(at.log, logs.high_cutoff, at.log, logs.high_cutoff);
    let d = arithmetic::difference(at.log, logs.lowest);
    let e = arithmetic::difference(at.log, logs.high_cutoff);
    order_laws::quotients_in_order(d, d, arithmetic::difference(logs.low_cutoff, logs.lowest));
    order_laws::quotients_in_order(e, e, arithmetic::difference(logs.highest, logs.high_cutoff));
    let q = arithmetic::quotient(d, arithmetic::difference(logs.low_cutoff, logs.lowest));
    order_laws::negated_units(q);
    if order_laws::finite(q) {
        order_laws::differences_in_order(one, q, one, q);
    } else {
        assert(arithmetic::difference(one, q) == arithmetic::negated(q));
    }
    let rest = arithmetic::difference(one, q);
    clamped_is_a_part(rest, rest);
    let h = arithmetic::quotient(e, arithmetic::difference(logs.highest, logs.high_cutoff));
    clamped_is_a_part(h, h);
}

/// How far a part of the reach lifts.
spec fn lift(active: Scalar, reach: Scalar, part: Scalar) -> Scalar {
    arithmetic::product(arithmetic::product(active, reach), part)
}

proof fn lifts_in_order(a: Scalar, b: Scalar, reach: Scalar, part: Scalar)
    requires
        meter_laws::is_part(a),
        meter_laws::is_part(b),
        meter_laws::is_part(part),
        order_laws::finite(a),
        order_laws::finite(b),
        order_laws::finite(part),
        a.units() <= b.units(),
        reach == (Scalar { bits: FOUR }) || reach == (Scalar { bits: HIGH_REACH }),
    ensures
        order_laws::finite(lift(a, reach, part)),
        order_laws::finite(lift(b, reach, part)),
        0 <= lift(a, reach, part).units() <= lift(b, reach, part).units() <= (Scalar {
            bits: FOUR,
        }).units(),
{
    let four = Scalar { bits: FOUR };
    let one = pow2(149);
    one_is_one();
    order_laws::products_in_order(a, reach, b, reach);
    let (x, y) = (arithmetic::product(a, reach), arithmetic::product(b, reach));
    let (u, v, w) = (b.units(), reach.units(), part.units());
    assert(u * v <= one * v) by (nonlinear_arith)
        requires
            0 <= u <= one,
            v >= 0,
    ;
    order_laws::products_stop(b, reach, reach);
    order_laws::below_infinity(x, four);
    order_laws::below_infinity(y, four);
    order_laws::products_in_order(x, part, y, part);
    let z = y.units();
    assert(z * w <= one * z) by (nonlinear_arith)
        requires
            z >= 0,
            0 <= w <= one,
    ;
    order_laws::products_stop(y, part, y);
    order_laws::below_infinity(lift(a, reach, part), four);
    order_laws::below_infinity(lift(b, reach, part), four);
}

/// More activity does not move the curve less. It is not moved down, nor up by more than four dB.
proof fn movements_in_order(
    at: CurveFrequency,
    low: Scalar,
    high: Scalar,
    low2: Scalar,
    high2: Scalar,
    logs: FrequencyLogs,
)
    requires
        logs_in_order(logs),
        on_curve(at),
        meter_laws::is_part(low) && order_laws::finite(low),
        meter_laws::is_part(high) && order_laws::finite(high),
        meter_laws::is_part(low2) && order_laws::finite(low2),
        meter_laws::is_part(high2) && order_laws::finite(high2),
        low.units() <= low2.units(),
        high.units() <= high2.units(),
    ensures
        ({
            let a = ballistics::movement(at, low, high, logs);
            let b = ballistics::movement(at, low2, high2, logs);
            &&& order_laws::finite(a)
            &&& order_laws::finite(b)
            &&& 0 <= a.units() <= b.units() <= (Scalar { bits: FOUR }).units()
        }),
{
    let zero = Scalar { bits: 0 };
    let four = Scalar { bits: FOUR };
    let reach = Scalar { bits: HIGH_REACH };
    one_is_one();
    parts_are_parts(at, logs);
    scalar::positive_patterns_in_order(Scalar { bits: LOW_CUTOFF }, Scalar { bits: HIGH_CUTOFF });
    if at.frequency.below(Scalar { bits: LOW_CUTOFF }) {
        lifts_in_order(low, low2, four, ballistics::low_part(at, logs));
        added_to_nothing(
            lift(low, four, ballistics::low_part(at, logs)),
            lift(low2, four, ballistics::low_part(at, logs)),
        );
    }
    if (Scalar { bits: HIGH_CUTOFF }).below(at.frequency) {
        lifts_in_order(high, high2, reach, ballistics::high_part(at, logs));
        added_to_nothing(
            lift(high, reach, ballistics::high_part(at, logs)),
            lift(high2, reach, ballistics::high_part(at, logs)),
        );
    }
}

proof fn added_to_nothing(x: Scalar, y: Scalar)
    requires
        order_laws::finite(x),
        order_laws::finite(y),
        0 <= x.units() <= y.units() <= (Scalar { bits: FOUR }).units(),
    ensures
        order_laws::finite(arithmetic::sum(Scalar { bits: 0 }, x)),
        order_laws::finite(arithmetic::sum(Scalar { bits: 0 }, y)),
        0 <= arithmetic::sum(Scalar { bits: 0 }, x).units() <= arithmetic::sum(
            Scalar { bits: 0 },
            y,
        ).units() <= (Scalar { bits: FOUR }).units(),
{
    let zero = Scalar { bits: 0 };
    one_is_one();
    order_laws::sums_stop(zero, x, x);
    order_laws::sums_stop(zero, y, y);
    order_laws::below_infinity(arithmetic::sum(zero, x), x);
    order_laws::below_infinity(arithmetic::sum(zero, y), y);
}

proof fn gain_is_finite(gain: Scalar)
    requires
        in_range(gain),
    ensures
        order_laws::finite(gain),
{
    let low = Scalar { bits: MIN_GAIN };
    let high = Scalar { bits: MAX_GAIN };
    one_is_one();
    if gain.units() < 0 {
        order_laws::below_infinity(gain, low);
    } else {
        order_laws::below_infinity(gain, high);
    }
}

/// A gain in range that is moved by a number from zero to four dB.
proof fn gain_is_moved(gain: Scalar, more: Scalar, much: Scalar)
    requires
        in_range(gain),
        order_laws::finite(more),
        order_laws::finite(much),
        0 <= more.units() <= much.units() <= (Scalar { bits: FOUR }).units(),
    ensures
        ({
            let low = Scalar { bits: MIN_GAIN };
            let high = Scalar { bits: MAX_GAIN };
            let a = arithmetic::sum(gain, more).clamped(low, high);
            let b = arithmetic::sum(gain, much).clamped(low, high);
            &&& !a.nan()
            &&& !b.nan()
            &&& gain.units() <= a.units() <= b.units() <= highest_lift(gain).units()
            &&& more.units() == 0 ==> a.units() == gain.units()
            &&& !highest_lift(gain).nan()
        }),
{
    let low = Scalar { bits: MIN_GAIN };
    let high = Scalar { bits: MAX_GAIN };
    let four = Scalar { bits: FOUR };
    one_is_one();
    gain_is_finite(gain);
    order_laws::sums_stop(gain, more, gain);
    order_laws::sums_in_order(gain, more, gain, much);
    order_laws::sums_in_order(gain, much, gain, four);
    let (x, y) = (arithmetic::sum(gain, more), arithmetic::sum(gain, much));
    order_laws::clamps_in_order(x, y, low, high);
    order_laws::clamps_in_order(y, arithmetic::sum(gain, four), low, high);
}

/// Sound lowers no gain that is in range, and lifts none by more than four dB or above the highest;
/// between the cutoffs, and where there is no sound, each stays the number that it was.
pub proof fn curve_is_lifted(
    gains: Seq<Scalar>,
    curve: Seq<CurveFrequency>,
    bins: Seq<Scalar>,
    logs: FrequencyLogs,
    i: int,
)
    requires
        curve.len() == gains.len(),
        0 <= i < gains.len(),
        in_range(gains[i]),
        on_curve(curve[i]),
        logs_in_order(logs),
    ensures
        ({
            let r = ballistics::moved_gains(gains, curve, bins, logs);
            &&& r.len() == gains.len()
            &&& !r[i].nan()
            &&& gains[i].units() <= r[i].units() <= highest_lift(gains[i]).units()
            &&& !curve[i].frequency.below(Scalar { bits: LOW_CUTOFF }) && !(Scalar {
                bits: HIGH_CUTOFF,
            }).below(curve[i].frequency) || bins.len() == 0 ==> r[i].equals(gains[i])
        }),
{
    let zero = Scalar { bits: 0 };
    let low = ballistics::low_activity(bins, logs);
    let high = ballistics::high_activity(bins, logs);
    one_is_one();
    activity_is_a_part(bins, logs.lowest, logs.low_end, logs);
    activity_is_a_part(bins, logs.high_start, logs.high_end, logs);
    movements_in_order(curve[i], low, high, low, high, logs);
    let more = ballistics::movement(curve[i], low, high, logs);
    gain_is_moved(gains[i], more, more);
    gain_is_moved(gains[i], zero, more);
}

/// A bin that gets louder lowers the curve nowhere.
pub proof fn more_sound_lowers_nothing(
    gains: Seq<Scalar>,
    curve: Seq<CurveFrequency>,
    bins: Seq<Scalar>,
    logs: FrequencyLogs,
    j: int,
    louder: Scalar,
    i: int,
)
    requires
        curve.len() == gains.len(),
        0 <= i < gains.len(),
        in_range(gains[i]),
        on_curve(curve[i]),
        logs_in_order(logs),
        0 <= j < bins.len(),
        order_laws::finite(bins[j]),
        order_laws::finite(louder),
        bins[j].units() <= louder.units(),
    ensures
        ballistics::moved_gains(gains, curve, bins, logs)[i].units() <= ballistics::moved_gains(
            gains,
            curve,
            bins.update(j, louder),
            logs,
        )[i].units(),
{
    let more = bins.update(j, louder);
    let (low, high) = (
        ballistics::low_activity(bins, logs),
        ballistics::high_activity(bins, logs),
    );
    let (low2, high2) = (
        ballistics::low_activity(more, logs),
        ballistics::high_activity(more, logs),
    );
    activities_in_order(bins, j, louder, logs.lowest, logs.low_end, logs);
    activities_in_order(bins, j, louder, logs.high_start, logs.high_end, logs);
    curve_is_lifted(gains, curve, more, logs, i);
    movements_in_order(curve[i], low, high, low2, high2, logs);
    gain_is_moved(
        gains[i],
        ballistics::movement(curve[i], low, high, logs),
        ballistics::movement(curve[i], low2, high2, logs),
    );
    if ballistics::is_quiet(more, logs) {
        let least = Scalar { bits: LEAST_ACTIVITY };
        assert(arithmetic::at_least(least, low));
        assert(arithmetic::at_least(least, high));
    }
}

/// Whether the ways from the lowest frequency to the lower cutoff and from the upper one to the
/// highest are at least one, by their logarithms.
pub open spec fn logs_apart(logs: FrequencyLogs) -> bool {
    &&& arithmetic::difference(logs.low_cutoff, logs.lowest).units() >= pow2(149)
    &&& arithmetic::difference(logs.highest, logs.high_cutoff).units() >= pow2(149)
}

/// A number over one that is not below one is no further from zero.
proof fn quotient_is_no_larger(x: Scalar, y: Scalar)
    requires
        order_laws::finite(x),
        order_laws::finite(y),
        y.units() >= pow2(149),
    ensures
        order_laws::finite(arithmetic::quotient(x, y)),
{
    let one = pow2(149);
    lemma_pow2_pos(149);
    order_laws::quotient_of_units(x, y);
    let num = x.size() * one;
    assert(num * 1 <= x.size() * y.size()) by (nonlinear_arith)
        requires
            num == x.size() * one,
            y.size() >= one,
            x.size() >= 0,
    ;
    order_laws::rounding_keeps_order(num, y.size(), x.size(), 1);
    order_laws::infinity_is_furthest(x);
    assert(1 * x.size() == x.size());
    number::patterns_round_to_themselves(x.size(), 1, x.magnitude());
    let q = arithmetic::quotient(x, y);
    order_laws::infinity_is_furthest(q);
    order_laws::below_infinity(q, x);
}

/// Low sound moves the curve the less the higher the frequency is, most at the lowest; and high
/// sound the more the higher it is.
pub proof fn ends_are_moved_most(at: CurveFrequency, higher: CurveFrequency, logs: FrequencyLogs)
    requires
        logs_in_order(logs),
        logs_apart(logs),
        on_curve(at),
        on_curve(higher),
        at.log.units() <= higher.log.units(),
    ensures
        ballistics::low_part(higher, logs).units() <= ballistics::low_part(at, logs).units(),
        ballistics::high_part(at, logs).units() <= ballistics::high_part(higher, logs).units(),
        at.log.units() == logs.lowest.units() ==> ballistics::low_part(at, logs).units() == pow2(
            149,
        ),
        at.log.units() <= logs.high_cutoff.units() ==> ballistics::high_part(at, logs).units() == 0,
        higher.log == logs.highest ==> ballistics::high_part(higher, logs).units() == pow2(149),
{
    let one = Scalar { bits: ONE };
    let zero = Scalar { bits: 0 };
    one_is_one();
    lemma_pow2_pos(149);
    order_laws::nothing_is_zero(zero);
    order_laws::below_infinity(logs.low_cutoff, logs.highest);
    order_laws::below_infinity(logs.high_cutoff, logs.highest);
    way_between(logs.lowest, logs.low_cutoff);
    way_between(logs.high_cutoff, logs.highest);
    let v = arithmetic::difference(logs.low_cutoff, logs.lowest);
    let w = arithmetic::difference(logs.highest, logs.high_cutoff);
    let (a, b) = (
        arithmetic::difference(at.log, logs.lowest),
        arithmetic::difference(higher.log, logs.lowest),
    );
    let (c, d) = (
        arithmetic::difference(at.log, logs.high_cutoff),
        arithmetic::difference(higher.log, logs.high_cutoff),
    );
    no_further_than(at.log, logs.lowest);
    no_further_than(higher.log, logs.lowest);
    no_further_than(at.log, logs.high_cutoff);
    no_further_than(higher.log, logs.high_cutoff);
    order_laws::differences_in_order(at.log, logs.lowest, higher.log, logs.lowest);
    order_laws::differences_in_order(at.log, logs.high_cutoff, higher.log, logs.high_cutoff);
    order_laws::quotients_in_order(a, b, v);
    order_laws::quotients_in_order(c, d, w);
    quotient_is_no_larger(a, v);
    quotient_is_no_larger(b, v);
    let (p, q) = (arithmetic::quotient(a, v), arithmetic::quotient(b, v));
    order_laws::differences_in_order(one, q, one, p);
    order_laws::clamps_in_order(
        arithmetic::difference(one, q),
        arithmetic::difference(one, p),
        zero,
        one,
    );
    order_laws::clamps_in_order(
        arithmetic::quotient(c, w),
        arithmetic::quotient(d, w),
        zero,
        one,
    );
    if at.log.units() == logs.lowest.units() {
        order_laws::differences_stop(at.log, logs.lowest, zero);
        order_laws::quotients_in_order(a, zero, v);
        order_laws::quotients_in_order(zero, a, v);
        nothing_over_is_nothing(v);
        order_laws::differences_stop(one, p, one);
    }
    if at.log.units() <= logs.high_cutoff.units() {
        order_laws::differences_stop(at.log, logs.high_cutoff, zero);
        order_laws::quotients_in_order(c, zero, w);
        nothing_over_is_nothing(w);
    }
    if higher.log == logs.highest {
        all_over_is_one(w);
    }
}

/// The difference of numbers that are finite and not below zero is finite.
proof fn no_further_than(x: Scalar, y: Scalar)
    requires
        order_laws::finite(x),
        order_laws::finite(y),
        x.units() >= 0,
        y.units() >= 0,
    ensures
        order_laws::finite(arithmetic::difference(x, y)),
{
    let r = arithmetic::difference(x, y);
    order_laws::negated_units(y);
    order_laws::differences_stop(x, y, x);
    order_laws::differences_stop(x, y, arithmetic::negated(y));
    order_laws::infinity_is_furthest(r);
    if r.units() >= 0 {
        order_laws::below_infinity(r, x);
    } else {
        order_laws::below_infinity(r, y);
    }
}

proof fn nothing_over_is_nothing(y: Scalar)
    requires
        order_laws::finite(y),
        y.units() > 0,
    ensures
        arithmetic::quotient(Scalar { bits: 0 }, y).units() == 0,
{
    let zero = Scalar { bits: 0 };
    let one = pow2(149);
    order_laws::nothing_is_zero(zero);
    order_laws::quotient_of_units(zero, y);
    assert(zero.size() * one == 0 && y.size() * number::size_at(0) == 0) by (nonlinear_arith)
        requires
            zero.size() == 0,
            number::size_at(0) == 0,
    ;
    number::patterns_round_to_themselves(0, y.size(), 0);
}

proof fn all_over_is_one(y: Scalar)
    requires
        order_laws::finite(y),
        y.units() > 0,
    ensures
        arithmetic::quotient(y, y).units() == pow2(149),
{
    let one = pow2(149);
    lemma_pow2_pos(149);
    order_laws::quotient_of_units(y, y);
    let b = number::exact_pattern(1, 149);
    assert(y.size() * one == y.size() * number::size_at(b));
    number::patterns_round_to_themselves(y.size() * one, y.size(), b);
}

/// What the quiet level and the way to full activity are, in decibels.
proof fn quiet_and_span()
    ensures
        order_laws::finite(Scalar { bits: QUIET_LEVEL }),
        order_laws::finite(Scalar { bits: ACTIVE_SPAN }),
        (Scalar { bits: QUIET_LEVEL }).units() == -70 * pow2(149),
        (Scalar { bits: ACTIVE_SPAN }).units() == 40 * pow2(149),
{
    let quiet = Scalar { bits: QUIET_LEVEL };
    let span = Scalar { bits: ACTIVE_SPAN };
    lemma2_to64();
    lemma_pow2_adds(17, 132);
    lemma_pow2_adds(18, 131);
    assert(quiet.exponent() == 133 && quiet.significand() == 0x8C_0000);
    assert(0x8C_0000 * pow2(132) == 70 * (0x2_0000 * pow2(132)));
    assert(span.exponent() == 132 && span.significand() == 0xA0_0000);
    assert(0xA0_0000 * pow2(131) == 40 * (0x4_0000 * pow2(131)));
}

proof fn loud_is_fully_active(level: Scalar)
    requires
        order_laws::finite(level),
        level.units() >= -30 * pow2(149),
    ensures
        activity_of(level).units() == pow2(149),
{
    let quiet = Scalar { bits: QUIET_LEVEL };
    let span = Scalar { bits: ACTIVE_SPAN };
    let one = Scalar { bits: ONE };
    let zero = Scalar { bits: 0 };
    quiet_and_span();
    one_is_one();
    lemma_pow2_pos(149);
    order_laws::nothing_is_zero(zero);
    order_laws::differences_stop(level, quiet, span);
    let more = arithmetic::difference(level, quiet);
    order_laws::quotients_in_order(span, more, span);
    all_over_is_one(span);
    order_laws::clamps_in_order(one, arithmetic::quotient(more, span), zero, one);
}

/// Sound that is loud anywhere between two frequencies, at -30 dB or above, is fully active there.
pub proof fn loud_sound_is_fully_active(
    bins: Seq<Scalar>,
    from: Scalar,
    to: Scalar,
    logs: FrequencyLogs,
    k: int,
)
    requires
        ballistics::level_place(from, bins.len(), logs) <= k <= ballistics::level_place(
            to,
            bins.len(),
            logs,
        ),
        order_laws::finite(bins[k]),
        bins[k].units() >= -30 * pow2(149),
    ensures
        ballistics::activity(bins, from, to, logs).units() == pow2(149),
{
    let floor = Scalar { bits: MIN_DB };
    let a = ballistics::level_place(from, bins.len(), logs);
    let b = ballistics::level_place(to, bins.len(), logs) + 1;
    eq_drawer::loudest_is_loudest(bins, a, b, floor, k);
    ballistics::loudest_is_finite(bins, a, b, floor);
    loud_is_fully_active(eq_drawer::loudest(bins, a, b, floor));
}

proof fn full_lift(activity: Scalar, reach: Scalar, part: Scalar)
    requires
        meter_laws::is_part(activity) && order_laws::finite(activity),
        meter_laws::is_part(part) && order_laws::finite(part),
        activity.units() == pow2(149),
        part.units() == pow2(149),
        reach == (Scalar { bits: FOUR }) || reach == (Scalar { bits: HIGH_REACH }),
    ensures
        arithmetic::sum(Scalar { bits: 0 }, lift(activity, reach, part)).units() == reach.units(),
{
    let zero = Scalar { bits: 0 };
    one_is_one();
    lifts_in_order(activity, activity, reach, part);
    let once = arithmetic::product(activity, reach);
    assert(activity.units() * reach.units() == pow2(149) * reach.units());
    order_laws::products_stop(activity, reach, reach);
    order_laws::infinity_is_furthest(once);
    order_laws::below_infinity(once, reach);
    assert(once.units() * part.units() == pow2(149) * reach.units()) by (nonlinear_arith)
        requires
            once.units() == reach.units(),
            part.units() == pow2(149),
    ;
    order_laws::products_stop(once, part, reach);
    let x = lift(activity, reach, part);
    order_laws::sums_stop(zero, x, x);
}

/// Low sound that is fully active lifts the lowest frequency by four dB, and high sound that is the
/// highest by its reach.
pub proof fn full_sound_lifts_the_ends(
    gain: Scalar,
    at: CurveFrequency,
    bins: Seq<Scalar>,
    logs: FrequencyLogs,
)
    requires
        in_range(gain),
        logs_in_order(logs),
        logs_apart(logs),
        on_curve(at),
    ensures
        at.frequency.below(Scalar { bits: LOW_CUTOFF }) && at.log.units() == logs.lowest.units()
            && ballistics::low_activity(bins, logs).units() == pow2(149) ==> ballistics::moved_gain(
            gain,
            at,
            bins,
            logs,
        ).units() == highest_lift(gain).units(),
        (Scalar { bits: HIGH_CUTOFF }).below(at.frequency) && at.log == logs.highest
            && ballistics::high_activity(bins, logs).units() == pow2(149)
            ==> ballistics::moved_gain(gain, at, bins, logs).units() == arithmetic::sum(
            gain,
            Scalar { bits: HIGH_REACH },
        ).clamped(Scalar { bits: MIN_GAIN }, Scalar { bits: MAX_GAIN }).units(),
{
    let four = Scalar { bits: FOUR };
    let reach = Scalar { bits: HIGH_REACH };
    let low = ballistics::low_activity(bins, logs);
    let high = ballistics::high_activity(bins, logs);
    let more = ballistics::movement(at, low, high, logs);
    one_is_one();
    gain_is_finite(gain);
    activity_is_a_part(bins, logs.lowest, logs.low_end, logs);
    activity_is_a_part(bins, logs.high_start, logs.high_end, logs);
    parts_are_parts(at, logs);
    ends_are_moved_most(at, at, logs);
    movements_in_order(at, low, high, low, high, logs);
    scalar::positive_patterns_in_order(Scalar { bits: LOW_CUTOFF }, Scalar { bits: HIGH_CUTOFF });
    if at.frequency.below(Scalar { bits: LOW_CUTOFF }) && at.log.units() == logs.lowest.units()
        && low.units() == pow2(149) {
        full_lift(low, four, ballistics::low_part(at, logs));
        same_amount_moves_the_same(gain, more, four);
    }
    if (Scalar { bits: HIGH_CUTOFF }).below(at.frequency) && at.log == logs.highest && high.units()
        == pow2(149) {
        full_lift(high, reach, ballistics::high_part(at, logs));
        same_amount_moves_the_same(gain, more, reach);
    }
}

proof fn same_amount_moves_the_same(gain: Scalar, x: Scalar, y: Scalar)
    requires
        in_range(gain),
        order_laws::finite(x),
        order_laws::finite(y),
        x.units() == y.units(),
        0 <= x.units() <= (Scalar { bits: FOUR }).units(),
    ensures
        ({
            let low = Scalar { bits: MIN_GAIN };
            let high = Scalar { bits: MAX_GAIN };
            arithmetic::sum(gain, x).clamped(low, high).units() == arithmetic::sum(gain, y).clamped(
                low,
                high,
            ).units()
        }),
{
    gain_is_moved(gain, x, y);
    gain_is_moved(gain, y, x);
}

} // verus!
