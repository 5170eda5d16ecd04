//! What holds of the curves of the equaliser's picture, whatever points they go through.

use vstd::arithmetic::power2::lemma2_to64;
use vstd::arithmetic::power2::lemma_pow2_adds;
use vstd::arithmetic::power2::lemma_pow2_pos;
use vstd::arithmetic::power2::pow2;
use vstd::prelude::*;

use crate::arithmetic;
use crate::curves::PathStep;
use crate::curves::SIX;
use crate::curves;
use crate::decimal_laws;
use crate::eq_drawer::Point;
use crate::meter::ONE;
use crate::number;
use crate::order_laws;
use crate::picture_laws;
use crate::scalar::Scalar;
use crate::scalar;
use crate::spectrum_laws;

verus! {

/// The step that leads from the point at the place `i` to the next one.
pub open spec fn step_from(
    points: Seq<Point>,
    tension: Scalar,
    y_min: Scalar,
    y_max: Scalar,
    i: int,
) -> PathStep {
    curves::stroke_path(points, tension, y_min, y_max)[i + 1]
}

/// A sixth of the way between two points, the more of it the less the tension is.
pub open spec fn sixth_of_way(from: Point, to: Point, tension: Scalar) -> Point {
    let bend = arithmetic::product(number::whole(6), tension);
    Point {
        x: arithmetic::quotient(arithmetic::difference(to.x, from.x), bend),
        y: arithmetic::quotient(arithmetic::difference(to.y, from.y), bend),
    }
}

/// A point further on than another by as much as `way` says, no lower and no higher than is asked.
pub open spec fn ahead(p: Point, way: Point, y_min: Scalar, y_max: Scalar) -> Point {
    Point {
        x: arithmetic::sum(p.x, way.x),
        y: arithmetic::sum(p.y, way.y).clamped(y_min, y_max),
    }
}

/// A point further back than another by as much as `way` says, no lower and no higher than is
/// asked.
pub open spec fn back(p: Point, way: Point, y_min: Scalar, y_max: Scalar) -> Point {
    Point {
        x: arithmetic::difference(p.x, way.x),
        y: arithmetic::difference(p.y, way.y).clamped(y_min, y_max),
    }
}

proof fn six_is_six()
    ensures
        number::whole(6) == (Scalar { bits: SIX }),
        (Scalar { bits: SIX }).units() == 6 * pow2(149),
        order_laws::finite(Scalar { bits: SIX }),
        pow2(149) > 0,
{
    let six = Scalar { bits: SIX };
    let one = pow2(149);
    lemma2_to64();
    lemma_pow2_pos(149);
    lemma_pow2_adds(21, 128);
    assert(six.exponent() == 129);
    assert(six.significand() == 0xC0_0000);
    assert(0xC0_0000 * pow2(128) == 6 * (0x20_0000 * pow2(128)));
    assert(six.size() == 6 * one);
    assert(scalar::ten_to(0) == 1);
    assert(number::numerator(6, 0) == 6 * one) by (nonlinear_arith)
        requires
            number::numerator(6, 0) == 6 * 1 * one,
    ;
    assert(number::size_at(SIX as nat) == six.size());
    assert(1 * six.size() == six.size());
    number::patterns_round_to_themselves(6 * one, 1, SIX as nat);
}

/// A curve leaves each of its inner points in the direction in which it comes to it: what bends it
/// before the point lies as far back as what bends it after lies ahead, a sixth of the way from the
/// point before to the point after. At its ends, the end itself stands for the point that is
/// missing.
pub proof fn curve_is_smooth(
    points: Seq<Point>,
    tension: Scalar,
    y_min: Scalar,
    y_max: Scalar,
    j: int,
)
    requires
        points.len() > 2,
        0 <= j < points.len(),
    ensures
        ({
            let before = if j > 0 {
                points[j - 1]
            } else {
                points[j]
            };
            let after = if j + 1 < points.len() {
                points[j + 1]
            } else {
                points[j]
            };
            let way = sixth_of_way(before, after, tension);
            &&& j > 0 ==> match step_from(points, tension, y_min, y_max, j - 1) {
                PathStep::CurveTo { control_b, to, .. } => to == points[j] && control_b == back(
                    points[j],
                    way,
                    y_min,
                    y_max,
                ),
                _ => false,
            }
            &&& j + 1 < points.len() ==> match step_from(points, tension, y_min, y_max, j) {
                PathStep::CurveTo { control_a, .. } => control_a == ahead(
                    points[j],
                    way,
                    y_min,
                    y_max,
                ),
                _ => false,
            }
        }),
{
    six_is_six();
}

/// A step of a curve depends on no points but its two ends and the one before and the one after
/// them: curves that have these in common have the step in common.
pub proof fn steps_are_local(
    points: Seq<Point>,
    others: Seq<Point>,
    tension: Scalar,
    y_min: Scalar,
    y_max: Scalar,
    i: int,
)
    requires
        points.len() > 2,
        others.len() == points.len(),
        0 <= i < points.len() - 1,
        forall|k: int|
            0 <= k < points.len() && i - 1 <= k <= i + 2 ==> #[trigger] points[k] == others[k],
    ensures
        step_from(points, tension, y_min, y_max, i) == step_from(
            others,
            tension,
            y_min,
            y_max,
            i,
        ),
{
    assert(points[i] == others[i] && points[i + 1] == others[i + 1]);
    if i > 0 {
        assert(points[i - 1] == others[i - 1]);
    }
    if i + 2 < points.len() {
        assert(points[i + 2] == others[i + 2]);
    }
}

/// A curve goes on as before when its first point is taken away, from the second step on that is
/// left; and it comes to the same point as before when its last point is, up to the second step
/// before the end.
pub proof fn steps_are_the_same_everywhere(
    points: Seq<Point>,
    tension: Scalar,
    y_min: Scalar,
    y_max: Scalar,
    i: int,
)
    requires
        points.len() > 3,
    ensures
        1 <= i < points.len() - 2 ==> step_from(
            points.drop_first(),
            tension,
            y_min,
            y_max,
            i,
        ) == step_from(points, tension, y_min, y_max, i + 1),
        0 <= i < points.len() - 3 ==> step_from(
            points.drop_last(),
            tension,
            y_min,
            y_max,
            i,
        ) == step_from(points, tension, y_min, y_max, i),
{
    let rest = points.drop_first();
    let front = points.drop_last();
    if 1 <= i < points.len() - 2 {
        assert(rest[i - 1] == points[i] && rest[i] == points[i + 1]);
        assert(rest[i + 1] == points[i + 2]);
        if i + 2 < rest.len() {
            assert(rest[i + 2] == points[i + 3]);
        }
    }
    if 0 <= i < points.len() - 3 {
        assert(front[i] == points[i] && front[i + 1] == points[i + 1]);
        assert(front[i + 2] == points[i + 2]);
        if i > 0 {
            assert(front[i - 1] == points[i - 1]);
        }
    }
}

/// The line of a curve and its area have the same steps through the points; the area begins and
/// ends at the height of the baseline, below its first and its last point, and is closed.
pub proof fn area_is_below_the_line(
    points: Seq<Point>,
    baseline_y: Scalar,
    tension: Scalar,
    y_min: Scalar,
    y_max: Scalar,
    i: int,
)
    requires
        points.len() > 0,
    ensures
        ({
            let line = curves::stroke_path(points, tension, y_min, y_max);
            let area = curves::fill_path(points, baseline_y, tension, y_min, y_max);
            &&& line.len() == points.len()
            &&& line[0] == PathStep::MoveTo(points[0])
            &&& area.len() == points.len() + 3
            &&& area[0] == PathStep::MoveTo(Point { x: points[0].x, y: baseline_y })
            &&& area[1] == PathStep::LineTo(points[0])
            &&& 0 < i < points.len() ==> area[i + 1] == line[i]
            &&& area[points.len() as int + 1] == PathStep::LineTo(
                Point { x: points[points.len() - 1].x, y: baseline_y },
            )
            &&& area[points.len() as int + 2] == PathStep::Close
            &&& points.len() == 2 ==> line[1] == PathStep::LineTo(points[1])
        }),
        curves::stroke_path(Seq::empty(), tension, y_min, y_max).len() == 0,
{
}

proof fn bend_is_six_at_least(tension: Scalar)
    requires
        order_laws::finite(tension),
        tension.units() >= pow2(149),
        order_laws::finite(arithmetic::product(number::whole(6), tension)),
    ensures
        arithmetic::product(number::whole(6), tension).units() >= 6 * pow2(149),
        arithmetic::product(number::whole(6), tension).size() >= 6 * pow2(149),
        pow2(149) > 0,
{
    let six = Scalar { bits: SIX };
    let one = pow2(149) as int;
    six_is_six();
    let t = tension.units();
    assert(six.units() * t >= one * six.units()) by (nonlinear_arith)
        requires
            six.units() == 6 * one,
            t >= one,
            one > 0,
    ;
    order_laws::products_stop(six, tension, six);
}

/// A curve through points at one height stays at that height: what bends it is no higher and no
/// lower.
pub proof fn flat_curves_stay_flat(
    points: Seq<Point>,
    tension: Scalar,
    y_min: Scalar,
    y_max: Scalar,
    y: Scalar,
    i: int,
)
    requires
        points.len() > 2,
        0 <= i < points.len() - 1,
        order_laws::finite(y),
        forall|k: int| 0 <= k < points.len() ==> (#[trigger] points[k]).y == y,
        !y_min.nan(),
        !y_max.nan(),
        y_min.units() <= y.units() <= y_max.units(),
        order_laws::finite(tension),
        tension.units() >= pow2(149),
        order_laws::finite(arithmetic::product(number::whole(6), tension)),
    ensures
        step_from(points, tension, y_min, y_max, i) matches PathStep::CurveTo {
            control_a,
            control_b,
            to,
        } && control_a.y.units() == y.units() && control_b.y.units() == y.units() && to.y == y,
{
    let bend = arithmetic::product(number::whole(6), tension);
    bend_is_six_at_least(tension);
    six_is_six();
    let zero = arithmetic::difference(y, y);
    let none = Scalar { bits: 0 };
    order_laws::nothing_is_zero(none);
    order_laws::differences_stop(y, y, none);
    order_laws::infinity_is_furthest(zero);
    assert(zero.size() == 0);
    assert(order_laws::finite(zero)) by {
        order_laws::nothing_is_zero(zero);
    }
    let h = arithmetic::quotient(zero, bend);
    order_laws::quotient_of_units(zero, bend);
    number::rounded_stops(0, bend.size(), 0);
    assert(0 * pow2(149) == 0);
    let b = number::nearest_pattern(0, bend.size());
    if b > 0 {
        let c = (b - 1) as nat;
        number::neighbours(c);
        assert(bend.size() * (number::size_at(c) + number::size_at(c + 1)) > 0) by (nonlinear_arith)
            requires
                bend.size() > 0,
                number::size_at(c) < number::size_at(c + 1),
        ;
    }
    assert(h.units() == 0);
    order_laws::nothing_is_zero(h);
    order_laws::sums_stop(y, h, y);
    order_laws::differences_stop(y, h, y);
    assert(points[i].y == y && points[i + 1].y == y);
    if i > 0 {
        assert(points[i - 1].y == y);
    }
    if i + 2 < points.len() {
        assert(points[i + 2].y == y);
    }
}

/// A step is no larger than the number that it leads on from, and a third of it at most from three
/// steps on.
proof fn steps_are_small(b: nat)
    requires
        0 < b < 0x7F80_0000,
    ensures
        decimal_laws::step_at(b) <= number::size_at(b),
        b >= 3 ==> 3 * decimal_laws::step_at(b) <= number::size_at(b),
        b < 3 ==> number::size_at(b) == b && decimal_laws::step_at(b) == 1,
{
    let x = Scalar { bits: b as u32 };
    let t = decimal_laws::step_at(b);
    if x.exponent() > 0 {
        lemma_pow2_pos((x.exponent() - 1) as nat);
        let m = x.significand();
        assert(m * t >= 3 * t) by (nonlinear_arith)
            requires
                m >= 0x80_0000,
                t >= 0,
        ;
    }
}

/// Rounding makes nothing more than twice as large, and an integer no larger than by half.
proof fn rounding_adds_little(num: nat, den: nat)
    requires
        den > 0,
        number::nearest_pattern(num, den) < 0x7F80_0000,
    ensures
        den * number::size_at(number::nearest_pattern(num, den)) <= 2 * num,
        den == 1 ==> 2 * number::size_at(number::nearest_pattern(num, den)) <= 3 * num,
{
    let b = number::nearest_pattern(num, den);
    let s = number::size_at(b);
    let t = decimal_laws::step_at(b);
    decimal_laws::rounding_is_near(num, den);
    order_laws::nothing_is_zero(Scalar { bits: 0 });
    if b > 0 {
        steps_are_small(b);
        assert(den * t <= den * s) by (nonlinear_arith)
            requires
                t <= s,
        ;
        if den == 1 {
            assert(den * t == t && den * s == s) by (nonlinear_arith)
                requires
                    den == 1,
            ;
        }
    } else {
        assert(den * s == 0) by (nonlinear_arith)
            requires
                s == 0,
        ;
    }
}

/// What is a sixth of the way from one point to the second after it is no longer than the step
/// between them, if the next step is no longer than that.
proof fn sixth_is_short(a: Scalar, c: Scalar, tension: Scalar, step: int)
    requires
        order_laws::finite(a),
        order_laws::finite(c),
        0 <= c.units() - a.units() <= 2 * step,
        order_laws::finite(arithmetic::difference(c, a)),
        order_laws::finite(tension),
        tension.units() >= pow2(149),
        order_laws::finite(arithmetic::product(number::whole(6), tension)),
    ensures
        ({
            let bend = arithmetic::product(number::whole(6), tension);
            let h = arithmetic::quotient(arithmetic::difference(c, a), bend);
            order_laws::finite(h) && 0 <= h.units() <= step
        }),
{
    let bend = arithmetic::product(number::whole(6), tension);
    let chord = arithmetic::difference(c, a);
    let h = arithmetic::quotient(chord, bend);
    let one = pow2(149);
    bend_is_six_at_least(tension);
    let way = (c.units() - a.units()) as nat;
    order_laws::negated_units(a);
    order_laws::sum_of_units(c, arithmetic::negated(a));
    let p = number::nearest_pattern(way, 1);
    number::rounded_stops(way, 1, 0);
    assert(chord.units() == number::size_at(p));
    order_laws::infinity_is_furthest(chord);
    assert(chord.size() == number::size_at(p));
    assert(p < 0x7F80_0000) by {
        if p == 0x7F80_0000 {
            assert(chord.size() == number::size_at(0x7F80_0000));
        }
    }
    rounding_adds_little(way, 1);
    assert(chord.size() <= 3 * step);
    order_laws::quotient_of_units(chord, bend);
    let num = chord.size() * one;
    let den = bend.size();
    let q = number::nearest_pattern(num, den);
    number::rounded_stops(num, den, 0);
    assert(num * 1 <= chord.size() * den) by (nonlinear_arith)
        requires
            num == chord.size() * one,
            den >= 6 * one,
            one > 0,
            chord.size() >= 0,
    ;
    order_laws::rounding_keeps_order(num, den, chord.size(), 1);
    order_laws::numbers_round_to_themselves(chord);
    number::patterns_round_to_themselves(chord.size(), 1, chord.magnitude());
    order_laws::infinity_is_furthest(chord);
    assert(q <= chord.magnitude());
    rounding_adds_little(num, den);
    let s = number::size_at(q);
    assert(s <= step) by (nonlinear_arith)
        requires
            den * s <= 2 * num,
            num == chord.size() * one,
            chord.size() <= 3 * step,
            den >= 6 * one,
            one > 0,
            s >= 0,
    ;
    assert(h.units() == s);
    order_laws::below_infinity(h, chord);
}

/// What bends a step lies between its two ends, where the points go from left to right and the
/// steps beside it are no longer than it is; so it is on every curve of even steps.
pub proof fn bends_lie_between_the_ends(
    points: Seq<Point>,
    tension: Scalar,
    y_min: Scalar,
    y_max: Scalar,
    i: int,
)
    requires
        points.len() > 2,
        0 <= i < points.len() - 1,
        forall|k: int|
            0 <= k < points.len() ==> order_laws::finite((#[trigger] points[k]).x),
        forall|k: int, l: int|
            0 <= k < points.len() && 0 <= l < points.len() ==> order_laws::finite(
                arithmetic::difference((#[trigger] points[k]).x, (#[trigger] points[l]).x),
            ),
        points[i].x.units() <= points[i + 1].x.units(),
        i > 0 ==> 0 <= points[i].x.units() - points[i - 1].x.units() <= points[i + 1].x.units()
            - points[i].x.units(),
        i + 2 < points.len() ==> 0 <= points[i + 2].x.units() - points[i + 1].x.units()
            <= points[i + 1].x.units() - points[i].x.units(),
        order_laws::finite(tension),
        tension.units() >= pow2(149),
        order_laws::finite(arithmetic::product(number::whole(6), tension)),
    ensures
        step_from(points, tension, y_min, y_max, i) matches PathStep::CurveTo {
            control_a,
            control_b,
            ..
        } && points[i].x.units() <= control_a.x.units() <= points[i + 1].x.units()
            && points[i].x.units() <= control_b.x.units() <= points[i + 1].x.units(),
{
    let p1 = points[i].x;
    let p2 = points[i + 1].x;
    let p0 = if i > 0 {
        points[i - 1].x
    } else {
        p1
    };
    let p3 = if i + 2 < points.len() {
        points[i + 2].x
    } else {
        p2
    };
    let step = p2.units() - p1.units();
    six_is_six();
    let bend = arithmetic::product(number::whole(6), tension);
    sixth_is_short(p0, p2, tension, step);
    sixth_is_short(p1, p3, tension, step);
    let a = arithmetic::quotient(arithmetic::difference(p2, p0), bend);
    let b = arithmetic::quotient(arithmetic::difference(p3, p1), bend);
    order_laws::sums_stop(p1, a, p1);
    order_laws::sums_stop(p1, a, p2);
    order_laws::differences_stop(p2, b, p1);
    order_laws::differences_stop(p2, b, p2);
}

/// A smoothed height depends on no points but those in the window around it; its place does not
/// change, and neither do heights beyond the cutoff.
pub proof fn smoothing_is_local(
    points: Seq<Point>,
    others: Seq<Point>,
    cutoff_x: Scalar,
    window: int,
    i: int,
)
    requires
        points.len() == others.len(),
        0 <= i < points.len(),
        window >= 0,
        forall|k: int|
            0 <= k < points.len() && i - window <= k <= i + window ==> #[trigger] points[k]
                == others[k],
    ensures
        curves::smooth_point(points, cutoff_x, window, i) == curves::smooth_point(
            others,
            cutoff_x,
            window,
            i,
        ),
{
    let from = curves::window_start(i, window);
    let upto = curves::window_end(i, window, points.len() as int) + 1;
    assert(points[i] == others[i]);
    weighing_is_local(points, others, i, window, from, upto);
}

proof fn weighing_is_local(
    points: Seq<Point>,
    others: Seq<Point>,
    i: int,
    window: int,
    from: int,
    upto: int,
)
    requires
        points.len() == others.len(),
        0 <= from,
        i - window <= from,
        upto <= points.len(),
        upto <= i + window + 1,
        forall|k: int|
            0 <= k < points.len() && i - window <= k <= i + window ==> #[trigger] points[k]
                == others[k],
    ensures
        curves::weighed(points, i, from, upto) == curves::weighed(others, i, from, upto),
    decreases upto - from,
{
    if upto > from {
        assert(points[upto - 1] == others[upto - 1]);
        weighing_is_local(points, others, i, window, from, upto - 1);
    }
}

/// One is a number, and a count below two to the power of 24 more than one is that count and one.
proof fn one_and_a_count(d: nat)
    requires
        d < 0xFF_FFFF,
    ensures
        ({
            let x = arithmetic::sum(Scalar { bits: ONE }, number::whole(d));
            order_laws::finite(x) && x.units() == (d + 1) * pow2(149)
        }),
        (Scalar { bits: ONE }).units() == pow2(149),
{
    let unit = Scalar { bits: ONE };
    let one = pow2(149);
    let next = (d + 1) as nat;
    lemma2_to64();
    lemma_pow2_pos(149);
    lemma_pow2_adds(23, 126);
    assert(unit.exponent() == 127 && unit.significand() == 0x80_0000);
    picture_laws::small_counts_are_exact(d);
    picture_laws::small_counts_are_exact(next);
    assert(one + d * one == next * one) by (nonlinear_arith)
        requires
            next == d + 1,
    ;
    let x = arithmetic::sum(unit, number::whole(d));
    order_laws::sums_stop(unit, number::whole(d), number::whole(next));
    order_laws::infinity_is_furthest(x);
    order_laws::below_infinity(x, number::whole(next));
}

/// A point that is smoothed counts fully, and one that is `d` places away, to a millionth, for one
/// part in `d` and one; one that is further away does not count for more.
pub proof fn nearer_points_count_more(d: nat, e: nat)
    requires
        d <= e < 0xFF_FFFF,
    ensures
        curves::nearness(0).units() == pow2(149),
        curves::nearness(e).units() <= curves::nearness(d).units(),
        1_000_000 * ((d + 1) * curves::nearness(d).units() - pow2(149)) <= pow2(149),
        1_000_000 * (pow2(149) - (d + 1) * curves::nearness(d).units()) <= pow2(149),
{
    let unit = Scalar { bits: ONE };
    let one = pow2(149);
    one_and_a_count(0);
    one_and_a_count(d);
    one_and_a_count(e);
    lemma_pow2_pos(149);
    let x = arithmetic::sum(unit, number::whole(d));
    let y = arithmetic::sum(unit, number::whole(e));
    let z = arithmetic::sum(unit, number::whole(0));
    let (n, m) = ((d + 1) as nat, (e + 1) as nat);
    let num = unit.size() * one;
    assert(0 < n * one <= m * one && 0 < one * 1) by (nonlinear_arith)
        requires
            0 < n <= m,
            one > 0,
    ;
    order_laws::quotient_of_units(unit, x);
    order_laws::quotient_of_units(unit, y);
    order_laws::quotient_of_units(unit, z);
    assert(num * x.size() <= num * y.size()) by (nonlinear_arith)
        requires
            x.size() <= y.size(),
    ;
    order_laws::rounding_keeps_order(num, y.size(), num, x.size());
    let b = number::exact_pattern(1, 149);
    assert(1 * one == one);
    assert(z.size() * number::size_at(b) == num) by (nonlinear_arith)
        requires
            z.size() == one,
            number::size_at(b) == one,
            num == one * one,
    ;
    number::patterns_round_to_themselves(num, z.size(), b);
    let w = x.size();
    let least = number::size_at(0x80_0000);
    let most = number::size_at(0x7F00_0000);
    nearness_has_a_place();
    assert(w * least <= num && num <= w * most) by (nonlinear_arith)
        requires
            num == one * one,
            w == n * one,
            1 <= n <= 0x100_0000,
            0x100_0000 * least <= one,
            one <= most,
            one > 0,
    ;
    spectrum_laws::rounding_is_relatively_near(num, w);
    let q = number::size_at(number::nearest_pattern(num, w));
    let c = n * q;
    assert(w * q == one * c) by (nonlinear_arith)
        requires
            w == n * one,
            c == n * q,
    ;
    assert(0x100_0000 * (c - one) <= c && 0x100_0000 * (one - c) <= c) by (nonlinear_arith)
        requires
            0x100_0000 * (one * c - one * one) <= one * c,
            0x100_0000 * (one * one - one * c) <= one * c,
            one > 0,
    ;
}

proof fn nearness_has_a_place()
    ensures
        0x100_0000 * number::size_at(0x80_0000) <= pow2(149),
        pow2(149) <= number::size_at(0x7F00_0000),
{
    let least = Scalar { bits: 0x80_0000 };
    let unit = Scalar { bits: ONE };
    lemma2_to64();
    lemma_pow2_adds(23, 126);
    lemma_pow2_adds(24, 23);
    lemma_pow2_adds(47, 102);
    lemma_pow2_pos(102);
    assert(0x8000_0000_0000 * 1 <= 0x8000_0000_0000 * pow2(102));
    assert(least.exponent() == 1 && least.significand() == 0x80_0000);
    assert(unit.exponent() == 127 && unit.significand() == 0x80_0000);
    number::sizes_in_order(ONE as nat, 0x7F00_0000);
    assert(number::size_at(ONE as nat) == pow2(149));
}

/// Whether `after` counts one point more than `before`: its height by one part in one and its
/// distance, and that part among the weights.
pub open spec fn counts_more(
    before: (Scalar, Scalar),
    after: (Scalar, Scalar),
    y: Scalar,
    distance: nat,
) -> bool {
    let unit = Scalar { bits: ONE };
    let part = arithmetic::quotient(unit, arithmetic::sum(unit, number::whole(distance)));
    &&& after.0 == arithmetic::sum(before.0, arithmetic::product(y, part))
    &&& after.1 == arithmetic::sum(before.1, part)
}

/// A smoothed height is the mean of all heights that are at most `window` places away, as far as
/// there are that many on either side: each of them counts once, by how near it is.
pub proof fn every_point_in_the_window_counts(
    points: Seq<Point>,
    cutoff_x: Scalar,
    window: int,
    i: int,
    first: int,
    last: int,
    j: int,
)
    requires
        0 <= first <= i <= last < points.len(),
        0 <= window,
        first == i - window || (first == 0 && i < window),
        last == i + window || (last == points.len() - 1 && points.len() - 1 < i + window),
        first <= j <= last,
    ensures
        ({
            let upto = |k: int| curves::weighed(points, i, first, k);
            let r = curves::smooth_point(points, cutoff_x, window, i);
            &&& upto(first) == (Scalar { bits: 0 }, Scalar { bits: 0 })
            &&& j <= i ==> counts_more(upto(j), upto(j + 1), points[j].y, (i - j) as nat)
            &&& j > i ==> counts_more(upto(j), upto(j + 1), points[j].y, (j - i) as nat)
            &&& !cutoff_x.below(points[i].x) && !upto(last + 1).1.nan() && upto(last + 1).1.units()
                > 0 ==> r.y == arithmetic::quotient(upto(last + 1).0, upto(last + 1).1)
        }),
{
    assert(curves::window_start(i, window) == first);
    assert(curves::window_end(i, window, points.len() as int) == last);
    let zero = Scalar { bits: 0 };
    assert(zero.units() == 0);
}

} // verus!
