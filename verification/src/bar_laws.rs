//! What holds of the meter as it is drawn, and of its peak.

use vstd::arithmetic::power2::lemma_pow2_pos;
use vstd::arithmetic::power2::pow2;
use vstd::prelude::*;

use crate::arithmetic;
use crate::meter::GOOD_ZONE;
use crate::meter::LONGEST_STEP;
use crate::meter::MeterBallistics;
use crate::meter::MeterPart;
use crate::meter::MicMeter;
use crate::meter::ONE;
use crate::meter::PEAK_HOLD_TIME;
use crate::meter::PEAK_RELEASE_RATE;
use crate::meter::PEAK_ZONE;
use crate::meter::RELEASE_RATE;
use crate::meter;
use crate::meter_laws;
use crate::order_laws;
use crate::scalar::Scalar;

verus! {

/// A reading that reaches the peak is the peak, and stays it for a fifth of a second; one that does
/// not lets that time run down, and when it is over the peak falls, by its rate in the time that
/// has passed, but not below the reading.
pub proof fn peak_stays_and_falls(m: MeterBallistics, target: Scalar, elapsed: Scalar, left: Scalar)
    requires
        !target.nan(),
        !m.peak_db.nan(),
        !m.peak_hold_timer.nan(),
        !elapsed.nan(),
    ensures
        ({
            let r = meter::advanced(m, target, elapsed, left);
            let longest = Scalar { bits: LONGEST_STEP };
            let dt = if longest.units() < elapsed.units() {
                longest
            } else {
                elapsed
            };
            &&& target.units() >= m.peak_db.units() ==> r.peak_db == target && r.peak_hold_timer
                == (Scalar { bits: PEAK_HOLD_TIME })
            &&& target.units() < m.peak_db.units() && m.peak_hold_timer.units() > 0 ==> r.peak_db
                == m.peak_db && r.peak_hold_timer == arithmetic::difference(m.peak_hold_timer, dt)
            &&& target.units() < m.peak_db.units() && m.peak_hold_timer.units() <= 0 ==> {
                let fallen = arithmetic::difference(
                    m.peak_db,
                    arithmetic::product(Scalar { bits: PEAK_RELEASE_RATE }, dt),
                );
                &&& r.peak_hold_timer == m.peak_hold_timer
                &&& !fallen.nan() && fallen.units() >= target.units() ==> r.peak_db == fallen
                &&& fallen.nan() || fallen.units() < target.units() ==> r.peak_db == target
            }
        }),
{
    order_laws::nothing_is_zero(Scalar { bits: 0 });
}

/// A higher level stands higher: no further below the top than a lower one.
pub proof fn higher_levels_stand_higher(
    m: MicMeter,
    db: Scalar,
    higher: Scalar,
    top: Scalar,
    height: Scalar,
)
    requires
        meter_laws::has_span(m),
        !db.nan(),
        !higher.nan(),
        db.units() <= higher.units(),
        order_laws::finite(top),
        order_laws::finite(height),
        height.units() >= 0,
    ensures
        m.y_of(higher, top, height).units() <= m.y_of(db, top, height).units(),
        top.units() <= m.y_of(higher, top, height).units(),
{
    let unit = Scalar { bits: ONE };
    let none = Scalar { bits: 0 };
    let one = pow2(149);
    lemma_pow2_pos(149);
    order_laws::nothing_is_zero(none);
    meter_laws::fraction_is_a_part(m, db);
    meter_laws::fraction_is_a_part(m, higher);
    meter_laws::fraction_grows(m, db, higher);
    let (f, g) = (m.fraction(db), m.fraction(higher));
    unit_is_one();
    order_laws::infinity_is_furthest(f);
    order_laws::infinity_is_furthest(g);
    order_laws::below_infinity(f, unit);
    order_laws::below_infinity(g, unit);
    order_laws::differences_in_order(unit, g, unit, f);
    order_laws::differences_stop(unit, g, none);
    order_laws::differences_stop(unit, f, unit);
    order_laws::differences_stop(unit, g, unit);
    let (a, b) = (arithmetic::difference(unit, f), arithmetic::difference(unit, g));
    order_laws::infinity_is_furthest(a);
    order_laws::infinity_is_furthest(b);
    order_laws::below_infinity(a, unit);
    order_laws::below_infinity(b, unit);
    order_laws::products_in_order(height, b, height, a);
    let (p, q) = (arithmetic::product(height, a), arithmetic::product(height, b));
    assert(height.units() * a.units() <= one * height.units()) by (nonlinear_arith)
        requires
            0 <= a.units() <= one,
            height.units() >= 0,
    ;
    order_laws::products_stop(height, a, height);
    order_laws::infinity_is_furthest(p);
    order_laws::infinity_is_furthest(q);
    order_laws::below_infinity(p, height);
    order_laws::below_infinity(q, height);
    order_laws::sums_in_order(top, q, top, p);
    order_laws::sums_stop(top, q, top);
}

proof fn unit_is_one()
    ensures
        (Scalar { bits: ONE }).units() == pow2(149),
        order_laws::finite(Scalar { bits: ONE }),
{
    let unit = Scalar { bits: ONE };
    vstd::arithmetic::power2::lemma2_to64();
    vstd::arithmetic::power2::lemma_pow2_adds(23, 126);
    assert(unit.exponent() == 127);
    assert(unit.significand() == 0x80_0000);
}

/// The meter is drawn from the back to the front: the track over its whole height, the zone that is
/// too high from the top on, the zone that is good, what the level fills, and the line at the peak
/// if the peak is above the lowest level.
pub proof fn bars_are_drawn_in_order(m: MicMeter, height: Scalar)
    ensures
        ({
            let bars = m.bars(height);
            let shows_peak = !m.min_db.nan() && !m.peak_db.nan() && m.min_db.units()
                < m.peak_db.units();
            &&& bars.len() == (if shows_peak {
                5int
            } else {
                4
            })
            &&& bars[0].part == MeterPart::Track && bars[0].y.units() == 0 && bars[0].height
                == height
            &&& bars[1].part == MeterPart::Peak && bars[1].y.units() == 0
            &&& bars[2].part == MeterPart::Good
            &&& bars[3].part == MeterPart::Level
            &&& shows_peak ==> bars[4].part == MeterPart::PeakLine
        }),
{
    order_laws::nothing_is_zero(Scalar { bits: 0 });
}

/// What the level fills reaches from where the level stands to the bottom of the meter.
pub proof fn level_is_filled_from_the_bottom(m: MicMeter, height: Scalar)
    requires
        !height.nan(),
        !m.y_of(m.db, Scalar { bits: 0 }, height).nan(),
        m.y_of(m.db, Scalar { bits: 0 }, height).units() <= height.units(),
    ensures
        ({
            let y = m.y_of(m.db, Scalar { bits: 0 }, height);
            m.bars(height)[3].y == y && m.bars(height)[3].height == arithmetic::difference(
                height,
                y,
            )
        }),
{
}

/// The line at the peak stands where the peak is, two points above, but not above the meter.
pub proof fn peak_line_stands_at_the_peak(m: MicMeter, height: Scalar)
    requires
        order_laws::finite(m.y_of(m.peak_db, Scalar { bits: 0 }, height)),
    ensures
        ({
            let y = m.y_of(m.peak_db, Scalar { bits: 0 }, height);
            let two = Scalar { bits: 0x4000_0000 };
            let line = m.peak_line(height);
            &&& line.height == two
            &&& line.y.units() >= 0
            &&& y.units() >= two.units() ==> line.y.units() == arithmetic::difference(
                y,
                two,
            ).units()
            &&& y.units() <= two.units() ==> line.y.units() == 0
        }),
{
    let y = m.y_of(m.peak_db, Scalar { bits: 0 }, height);
    let two = Scalar { bits: 0x4000_0000 };
    let none = Scalar { bits: 0 };
    order_laws::nothing_is_zero(none);
    order_laws::differences_stop(y, two, none);
}

/// A level below the reading rises: all the way where no part of it is left, and not at all where
/// all of it is. One that is not below falls by its rate in the time that has passed, but not below
/// the reading.
pub proof fn level_rises_and_falls(
    m: MeterBallistics,
    target: Scalar,
    elapsed: Scalar,
    left: Scalar,
)
    requires
        order_laws::finite(target),
        order_laws::finite(m.db),
        !elapsed.nan(),
        order_laws::finite(arithmetic::difference(target, m.db)),
    ensures
        ({
            let r = meter::advanced(m, target, elapsed, left);
            let longest = Scalar { bits: LONGEST_STEP };
            let dt = if longest.units() < elapsed.units() {
                longest
            } else {
                elapsed
            };
            let fallen = arithmetic::difference(
                m.db,
                arithmetic::product(Scalar { bits: RELEASE_RATE }, dt),
            );
            &&& m.db.units() < target.units() && !left.nan() && left.units() == 0 ==> r.db.units()
                == arithmetic::sum(m.db, arithmetic::difference(target, m.db)).units()
            &&& m.db.units() < target.units() && !left.nan() && left.units() == pow2(149)
                ==> r.db.units() == m.db.units()
            &&& m.db.units() >= target.units() && !fallen.nan() && fallen.units()
                >= target.units() ==> r.db == fallen
            &&& m.db.units() >= target.units() && (fallen.nan() || fallen.units()
                < target.units()) ==> r.db == target
        }),
{
    let unit = Scalar { bits: ONE };
    let none = Scalar { bits: 0 };
    let one = pow2(149);
    lemma_pow2_pos(149);
    unit_is_one();
    order_laws::nothing_is_zero(none);
    if m.db.units() < target.units() && !left.nan() && (left.units() == 0 || left.units() == one) {
        order_laws::infinity_is_furthest(left);
        order_laws::below_infinity(left, unit);
        let way = arithmetic::difference(target, m.db);
        order_laws::differences_stop(target, m.db, none);
        let part = arithmetic::difference(unit, left);
        order_laws::differences_stop(unit, left, unit);
        order_laws::differences_stop(unit, left, none);
        order_laws::infinity_is_furthest(part);
        order_laws::below_infinity(part, unit);
        let rise = arithmetic::product(way, part);
        if left.units() == 0 {
            assert(way.units() * part.units() == one * way.units()) by (nonlinear_arith)
                requires
                    part.units() == one,
            ;
            order_laws::products_stop(way, part, way);
            order_laws::infinity_is_furthest(rise);
            order_laws::below_infinity(rise, way);
            order_laws::sums_in_order(m.db, rise, m.db, way);
            order_laws::sums_in_order(m.db, way, m.db, rise);
        } else {
            assert(way.units() * part.units() == 0 && one * none.units() == 0) by (nonlinear_arith)
                requires
                    part.units() == 0,
                    none.units() == 0,
            ;
            order_laws::products_stop(way, part, none);
            order_laws::nothing_is_zero(rise);
            order_laws::sums_stop(m.db, rise, m.db);
        }
    }
}

/// The less of the way is left, the higher a rising level comes.
pub proof fn less_left_is_higher(
    m: MeterBallistics,
    target: Scalar,
    elapsed: Scalar,
    left: Scalar,
    less: Scalar,
)
    requires
        order_laws::finite(target),
        order_laws::finite(m.db),
        m.db.units() < target.units(),
        order_laws::finite(arithmetic::difference(target, m.db)),
        order_laws::finite(left),
        order_laws::finite(less),
        0 <= less.units() <= left.units() <= pow2(149),
    ensures
        meter::advanced(m, target, elapsed, left).db.units() <= meter::advanced(
            m,
            target,
            elapsed,
            less,
        ).db.units(),
{
    let unit = Scalar { bits: ONE };
    let none = Scalar { bits: 0 };
    let one = pow2(149);
    lemma_pow2_pos(149);
    unit_is_one();
    order_laws::nothing_is_zero(none);
    let way = arithmetic::difference(target, m.db);
    order_laws::differences_stop(target, m.db, none);
    let (a, b) = (arithmetic::difference(unit, left), arithmetic::difference(unit, less));
    order_laws::differences_in_order(unit, left, unit, less);
    order_laws::differences_stop(unit, left, none);
    order_laws::differences_stop(unit, less, unit);
    order_laws::infinity_is_furthest(a);
    order_laws::infinity_is_furthest(b);
    order_laws::below_infinity(a, unit);
    order_laws::below_infinity(b, unit);
    order_laws::products_in_order(way, a, way, b);
    let (x, y) = (arithmetic::product(way, a), arithmetic::product(way, b));
    assert(way.units() * b.units() <= one * way.units()) by (nonlinear_arith)
        requires
            0 <= b.units() <= one,
            way.units() >= 0,
    ;
    order_laws::products_stop(way, b, way);
    order_laws::infinity_is_furthest(x);
    order_laws::infinity_is_furthest(y);
    order_laws::below_infinity(x, way);
    order_laws::below_infinity(y, way);
    order_laws::sums_in_order(m.db, x, m.db, y);
}

/// The zone that is too high reaches down to the line above the level that parts it from the good
/// one; the good zone begins below that line, and is as high as the way from the line to the level
/// where it ends.
pub proof fn zones_meet_at_the_line(m: MicMeter, height: Scalar)
    ensures
        ({
            let none = Scalar { bits: 0 };
            let two = Scalar { bits: 0x4000_0000 };
            let bars = m.bars(height);
            let line = arithmetic::difference(
                m.y_of(Scalar { bits: PEAK_ZONE }, none, height),
                two,
            );
            &&& bars[1].height == line
            &&& bars[2].y == arithmetic::sum(line, two)
            &&& bars[2].height == arithmetic::difference(
                m.y_of(Scalar { bits: GOOD_ZONE }, none, height),
                line,
            )
        }),
{
}

/// A level that covers all of the meter stands at the top of its track, and one that covers none of
/// it at the bottom.
pub proof fn track_has_two_ends(m: MicMeter, db: Scalar, top: Scalar, height: Scalar)
    requires
        meter_laws::has_span(m),
        !db.nan(),
        order_laws::finite(top),
        order_laws::finite(height),
        height.units() >= 0,
    ensures
        m.fraction(db).units() == pow2(149) ==> m.y_of(db, top, height).units() == top.units(),
        m.fraction(db).units() == 0 ==> m.y_of(db, top, height).units() == arithmetic::sum(
            top,
            height,
        ).units(),
{
    let unit = Scalar { bits: ONE };
    let none = Scalar { bits: 0 };
    let one = pow2(149);
    lemma_pow2_pos(149);
    order_laws::nothing_is_zero(none);
    unit_is_one();
    meter_laws::fraction_is_a_part(m, db);
    let f = m.fraction(db);
    order_laws::infinity_is_furthest(f);
    order_laws::below_infinity(f, unit);
    order_laws::differences_stop(unit, f, none);
    order_laws::differences_stop(unit, f, unit);
    let rest = arithmetic::difference(unit, f);
    order_laws::infinity_is_furthest(rest);
    order_laws::below_infinity(rest, unit);
    let p = arithmetic::product(height, rest);
    if f.units() == one {
        assert(height.units() * rest.units() == 0 && one * none.units() == 0) by (nonlinear_arith)
            requires
                rest.units() == 0,
                none.units() == 0,
        ;
        order_laws::products_stop(height, rest, none);
        order_laws::nothing_is_zero(p);
        order_laws::sums_stop(top, p, top);
    }
    if f.units() == 0 {
        assert(height.units() * rest.units() == one * height.units()) by (nonlinear_arith)
            requires
                rest.units() == one,
        ;
        order_laws::products_stop(height, rest, height);
        order_laws::infinity_is_furthest(p);
        order_laws::below_infinity(p, height);
        order_laws::sums_in_order(top, p, top, height);
        order_laws::sums_in_order(top, height, top, p);
    }
}

} // verus!
