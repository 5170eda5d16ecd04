//! What holds of the equaliser's picture: what it passes on, what it draws, and where.

use vstd::arithmetic::power2::lemma_pow2_pos;
use vstd::arithmetic::power2::pow2;
use vstd::prelude::*;

use crate::arithmetic;
use crate::ballistics::CurveFrequency;
use crate::ballistics::Filter;
use crate::ballistics::FrequencyLogs;
use crate::ballistics;
use crate::counts;
use crate::curves::PathStep;
use crate::curves;
use crate::eq::EQBand;
use crate::eq::EQBandType;
use crate::eq::EqualiserBandConfig;
use crate::eq;
use crate::eq_drawer::Colour;
use crate::eq_drawer::DrawModel;
use crate::eq_drawer::EQMouseEvent;
use crate::eq_drawer::EqVisualizerMode;
use crate::eq_drawer::Layer;
use crate::eq_drawer::Point;
use crate::eq_drawer::PointerEvent;
use crate::eq_drawer::Rect;
use crate::eq_drawer::ScrollDelta;
use crate::eq_drawer;
use crate::number;
use crate::order_laws;
use crate::scalar::Scalar;
use crate::scalar;

verus! {

/// The picture passes on what the mouse does, with the place of the cursor seen from the picture's
/// own corner: presses and turns of the wheel only while the cursor is over it, and then nothing
/// else gets them; movements only while they are asked for; and releases always. Anything else, and
/// all but releases without a cursor, is not passed on.
pub proof fn mouse_is_passed_on(
    s: DrawModel,
    bounds: Rect,
    over: bool,
    p: Point,
    delta: ScrollDelta,
    cursor: Option<Point>,
)
    ensures
        ({
            let here = Point {
                x: arithmetic::difference(p.x, bounds.x),
                y: arithmetic::difference(p.y, bounds.y),
            };
            let at = |e: PointerEvent| eq_drawer::pointer_event(s, e, bounds, over, Some(p));
            let without = |e: PointerEvent| eq_drawer::pointer_event(s, e, bounds, over, None);
            &&& at(PointerEvent::LeftPressed) == (if over {
                Some((EQMouseEvent::Pressed(here), true))
            } else {
                None
            })
            &&& at(PointerEvent::CursorMoved) == (if s.track_motion {
                Some((EQMouseEvent::Moved(here), false))
            } else {
                None
            })
            &&& at(PointerEvent::WheelScrolled(delta)) == (if over {
                Some((EQMouseEvent::Scrolled(here, delta), true))
            } else {
                None
            })
            &&& without(PointerEvent::LeftPressed) is None
            &&& without(PointerEvent::CursorMoved) is None
            &&& without(PointerEvent::WheelScrolled(delta)) is None
            &&& eq_drawer::pointer_event(s, PointerEvent::LeftReleased, bounds, over, cursor)
                == Some((EQMouseEvent::Released, false))
            &&& eq_drawer::pointer_event(s, PointerEvent::Other, bounds, over, cursor) is None
        }),
{
}

/// The bands before a place that are enabled are listed each once and in order, and no others.
proof fn enabled_bands_are_listed(bands: Seq<EqualiserBandConfig>, upto: int)
    requires
        0 <= upto <= 9,
    ensures
        ({
            let r = eq_drawer::enabled_before(bands, upto);
            &&& forall|k: int|
                0 <= k < r.len() ==> bands[(#[trigger] r[k]).place()].enabled && r[k].place() < upto
            &&& forall|k: int, l: int|
                0 <= k < l < r.len() ==> (#[trigger] r[k]).place() < (#[trigger] r[l]).place()
            &&& forall|b: EQBand|
                b.place() < upto && bands[b.place()].enabled ==> #[trigger] r.contains(b)
        }),
    decreases upto,
{
    if upto > 0 {
        enabled_bands_are_listed(bands, upto - 1);
        let before = eq_drawer::enabled_before(bands, upto - 1);
        let r = eq_drawer::enabled_before(bands, upto);
        eq::bands_have_places(EQBand::Band1, upto - 1);
        assert forall|b: EQBand|
            b.place() < upto && bands[b.place()].enabled implies #[trigger] r.contains(b) by {
            if b.place() < upto - 1 {
                assert(before.contains(b));
                let k = choose|k: int| 0 <= k < before.len() && before[k] == b;
                assert(r[k] == b);
            } else {
                eq::bands_have_places(b, 0);
                assert(r[r.len() - 1] == b);
            }
        }
    }
}

/// What is drawn begins with the grid and ends with the points. Between them are the areas of the
/// bands that are enabled, and of no others, each once and in order; then the spectrum if there is
/// one; and the curve, drawn in the way that is set.
pub proof fn layers_show_what_there_is(s: DrawModel, band: EQBand, k: int, l: int)
    ensures
        ({
            let all = eq_drawer::layers(s);
            let n = all.len() as int;
            &&& all[0] == Layer::Grid
            &&& all[n - 1] == Layer::Points
            &&& all[n - 2] == Layer::Curve(s.visualizer_mode)
            &&& s.spectrum_bins.len() > 0 <==> all[n - 3] == Layer::Spectrum
            &&& s.bands[band.place()].enabled ==> all.contains(Layer::Band(band))
            &&& 0 <= k < n ==> match all[k] {
                Layer::Grid => k == 0,
                Layer::Band(b) => s.bands[b.place()].enabled,
                Layer::Spectrum => k == n - 3 && s.spectrum_bins.len() > 0,
                Layer::Curve(mode) => k == n - 2 && mode == s.visualizer_mode,
                Layer::Points => k == n - 1,
            }
            &&& 0 <= k < l < n ==> ((all[k], all[l]) matches (Layer::Band(a), Layer::Band(b))
                ==> a.place() < b.place())
        }),
{
    enabled_bands_are_listed(s.bands, 9);
    let r = eq_drawer::enabled_before(s.bands, 9);
    let all = eq_drawer::layers(s);
    let areas = r.map_values(|b: EQBand| Layer::Band(b));
    eq::bands_have_places(band, 0);
    assert forall|i: int| 0 <= i < r.len() implies #[trigger] all[i + 1] == Layer::Band(r[i]) by {
        assert(all[i + 1] == areas[i]);
    }
    if s.bands[band.place()].enabled {
        assert(r.contains(band));
        let i = choose|i: int| 0 <= i < r.len() && r[i] == band;
        assert(all[i + 1] == Layer::Band(band));
    }
    if 1 <= k <= r.len() {
        assert(all[(k - 1) + 1] == Layer::Band(r[k - 1]));
    }
    if 1 <= l <= r.len() {
        assert(all[(l - 1) + 1] == Layer::Band(r[l - 1]));
    }
    if 0 < r.len() {
        assert(all[(r.len() - 1) + 1] == Layer::Band(r[r.len() - 1]));
    }
}

/// The bands that add up to the curve, and that have a point, are those that are enabled, each once
/// and in order.
pub proof fn enabled_bands_have_points(
    bands: Seq<EqualiserBandConfig>,
    band: EQBand,
    k: int,
    l: int,
)
    ensures
        ({
            let r = eq_drawer::enabled_before(bands, 9);
            &&& r.contains(band) <==> bands[band.place()].enabled
            &&& 0 <= k < l < r.len() ==> r[k].place() < r[l].place()
        }),
{
    enabled_bands_are_listed(bands, 9);
    eq::bands_have_places(band, 0);
}

/// Every band that is enabled has a point, which has the ring around it just if the band is worked
/// on.
pub proof fn point_of_the_active_band_is_selected(s: DrawModel, band: EQBand, k: int)
    ensures
        ({
            let points = eq_drawer::points_of(s);
            &&& points.len() == eq_drawer::enabled_before(s.bands, 9).len()
            &&& 0 <= k < points.len() ==> points[k].band == eq_drawer::enabled_before(
                s.bands,
                9,
            )[k]
            &&& 0 <= k < points.len() && points[k].band == band ==> points[k].selected == (s.active
                == Some(band))
        }),
{
}

/// Another way of drawing the curve, another border or another spectrum is what is drawn next, and
/// what depends on it is drawn again: the curve; the grid; or the spectrum, and the curve where it
/// is moved by it. Everything else stays as it was drawn, and so does the picture where the way of
/// drawing is the same.
pub proof fn changes_are_drawn(
    s: DrawModel,
    mode: EqVisualizerMode,
    colour: Option<Colour>,
    bins: Seq<Scalar>,
)
    ensures
        ({
            let t = eq_drawer::with_mode(s, mode);
            &&& t.visualizer_mode == mode
            &&& s.visualizer_mode != mode ==> !t.curve_drawn
            &&& s.visualizer_mode == mode ==> t == s
            &&& t == (DrawModel { visualizer_mode: mode, curve_drawn: t.curve_drawn, ..s })
        }),
        ({
            let t = eq_drawer::with_border(s, colour);
            &&& s.border_colour is Some != colour is Some ==> t.border_colour == colour
                && !t.grid_drawn
            &&& s.border_colour is None && colour is None ==> t == s
            &&& t == s || t == (DrawModel { border_colour: colour, grid_drawn: false, ..s })
            &&& (s.border_colour, colour) matches (Some(a), Some(b)) ==> {
                let same = a.r.equals(b.r) && a.g.equals(b.g) && a.b.equals(b.b) && a.a.equals(b.a);
                (same ==> t == s) && (!same ==> t.border_colour == colour && !t.grid_drawn)
            }
        }),
        ({
            let t = eq_drawer::with_bins(s, bins);
            &&& t.spectrum_bins == bins
            &&& !t.spectrum_drawn
            &&& s.visualizer_mode == EqVisualizerMode::BeacnBallistics ==> !t.curve_drawn
            &&& s.visualizer_mode == EqVisualizerMode::Static ==> t.curve_drawn == s.curve_drawn
            &&& t == (DrawModel {
                spectrum_bins: bins,
                spectrum_drawn: false,
                curve_drawn: t.curve_drawn,
                ..s
            })
        }),
{
}

/// Four colours take turns: bands that are four places apart have the same, and those that are
/// fewer apart do not.
pub proof fn colours_take_turns(i: int, d: int)
    requires
        0 <= i,
        0 < d < 4,
    ensures
        eq_drawer::band_colour(i) == eq_drawer::band_colour(i + 4),
        eq_drawer::band_colour(i) != eq_drawer::band_colour(i + d),
{
}

/// Setting all bands sets each of them, and leaves nothing that was drawn of any of them.
pub proof fn set_bands_are_drawn_again(s: DrawModel, bands: Seq<EqualiserBandConfig>, i: int)
    requires
        0 <= i < 9,
    ensures
        ({
            let t = eq_drawer::with_bands(s, bands);
            &&& t.bands == bands
            &&& !t.bands_drawn[i] && !t.responses_known[i] && !t.curve_drawn
            &&& t.grid_drawn == s.grid_drawn && t.spectrum_drawn == s.spectrum_drawn
            &&& t.active == s.active && t.visualizer_mode == s.visualizer_mode
            &&& t.spectrum_bins == s.spectrum_bins
        }),
{
}

/// A picture that is placed where it is keeps all that was drawn; elsewhere the frequency responses
/// no longer hold, and everything else does.
pub proof fn moved_picture_forgets_responses(s: DrawModel, bounds: Rect, i: int)
    requires
        0 <= i < 9,
    ensures
        ({
            let t = eq_drawer::placed(s, bounds);
            let same = s.bounds.x.equals(bounds.x) && s.bounds.y.equals(bounds.y)
                && s.bounds.width.equals(bounds.width) && s.bounds.height.equals(bounds.height);
            &&& same ==> t == s
            &&& !same ==> t.bounds == bounds && !t.responses_known[i]
            &&& t.bands == s.bands && t.bands_drawn == s.bands_drawn && t.grid_drawn == s.grid_drawn
                && t.curve_drawn == s.curve_drawn && t.spectrum_bins == s.spectrum_bins
        }),
{
}

/// The filter of a band has its shape, its frequency and its Q, and its gain where the shape has
/// one.
pub proof fn filters_follow_their_bands(band: EqualiserBandConfig)
    requires
        band.band_type != EQBandType::NotSet,
    ensures
        ({
            let f = number::whole(band.frequency as nat);
            match ballistics::filter_of(band) {
                Filter::LowShelf { frequency, gain, q } => band.band_type == EQBandType::LowShelf
                    && frequency == f && gain == band.gain && q == band.q,
                Filter::HighShelf { frequency, gain, q } => band.band_type == EQBandType::HighShelf
                    && frequency == f && gain == band.gain && q == band.q,
                Filter::Bell { frequency, gain, q } => band.band_type == EQBandType::BellBand
                    && frequency == f && gain == band.gain && q == band.q,
                Filter::Notch { frequency, q } => band.band_type == EQBandType::NotchFilter
                    && frequency == f && q == band.q,
                Filter::HighPass { frequency, q } => band.band_type == EQBandType::HighPassFilter
                    && frequency == f && q == band.q,
                Filter::LowPass { frequency, q } => band.band_type == EQBandType::LowPassFilter
                    && frequency == f && q == band.q,
            }
        }),
{
}

/// Numbers below two to the power of 24 stand for themselves.
pub proof fn small_counts_are_exact(n: nat)
    requires
        n < 0x100_0000,
    ensures
        number::whole(n).units() == n * pow2(149),
        order_laws::finite(number::whole(n)),
{
    let one = pow2(149);
    lemma_pow2_pos(149);
    assert(scalar::ten_to(0) == 1);
    assert(number::numerator(n, 0) == n * one) by (nonlinear_arith)
        requires
            number::numerator(n, 0) == n * 1 * one,
    ;
    if n == 0 {
        order_laws::nothing_is_zero(Scalar { bits: 0 });
        assert(0 * one == 0) by (nonlinear_arith);
        assert(1 * number::size_at(0) == number::size_at(0));
        number::patterns_round_to_themselves(0, 1, 0);
        order_laws::signed_units(false, 0);
    } else {
        let b = number::exact_pattern(n, 149);
        assert(1 * number::size_at(b) == number::size_at(b));
        number::patterns_round_to_themselves(n * one, 1, b);
        order_laws::signed_units(false, b);
    }
}

/// Whether a plot is a place on the screen: its numbers are finite, and it has a width.
pub open spec fn is_place(plot: Rect) -> bool {
    &&& order_laws::finite(plot.x)
    &&& order_laws::finite(plot.width)
    &&& plot.width.units() >= 0
}

/// The part of the way grows from place to place, from nothing to all of it.
pub proof fn parts_grow(i: int, j: int, steps: nat)
    requires
        0 <= i <= j <= steps,
        0 < steps < 0x100_0000,
    ensures
        0 <= curves::part_of_way(i, steps).units() <= curves::part_of_way(j, steps).units()
            <= pow2(149),
        order_laws::finite(curves::part_of_way(i, steps)),
        order_laws::finite(curves::part_of_way(j, steps)),
        i == 0 ==> curves::part_of_way(i, steps).units() == 0,
        j == steps ==> curves::part_of_way(j, steps).units() == pow2(149),
{
    let one = pow2(149);
    lemma_pow2_pos(149);
    small_counts_are_exact(0);
    small_counts_are_exact(i as nat);
    small_counts_are_exact(j as nat);
    small_counts_are_exact(steps);
    let (a, b, c) = (number::whole(i as nat), number::whole(j as nat), number::whole(steps));
    let zero = number::whole(0);
    assert(0 * one == 0) by (nonlinear_arith);
    assert(0 <= i * one <= j * one && j * one <= steps * one && steps * one > 0) by (
    nonlinear_arith)
        requires
            0 <= i <= j <= steps,
            0 < steps,
            one > 0,
    ;
    order_laws::quotients_in_order(zero, a, c);
    order_laws::quotients_in_order(a, b, c);
    order_laws::quotients_in_order(b, c, c);
    all_of_it(c);
    none_of_it(zero, c);
    let unit = arithmetic::quotient(c, c);
    order_laws::infinity_is_furthest(curves::part_of_way(i, steps));
    order_laws::infinity_is_furthest(curves::part_of_way(j, steps));
    order_laws::below_infinity(curves::part_of_way(i, steps), unit);
    order_laws::below_infinity(curves::part_of_way(j, steps), unit);
}

proof fn all_of_it(c: Scalar)
    requires
        order_laws::finite(c),
        c.units() > 0,
    ensures
        arithmetic::quotient(c, c).units() == pow2(149),
        order_laws::finite(arithmetic::quotient(c, c)),
{
    let one = pow2(149);
    lemma_pow2_pos(149);
    order_laws::quotient_of_units(c, c);
    let b = number::exact_pattern(1, 149);
    assert(c.size() * one == c.size() * number::size_at(b));
    number::patterns_round_to_themselves(c.size() * one, c.size(), b);
    order_laws::signed_units(c.negative() != c.negative(), b);
}

proof fn none_of_it(zero: Scalar, c: Scalar)
    requires
        order_laws::finite(zero),
        zero.units() == 0,
        order_laws::finite(c),
        c.units() > 0,
    ensures
        arithmetic::quotient(zero, c).units() == 0,
{
    let one = pow2(149);
    order_laws::quotient_of_units(zero, c);
    order_laws::nothing_is_zero(zero);
    assert(zero.size() * one == 0) by (nonlinear_arith)
        requires
            zero.size() == 0,
    ;
    assert(c.size() * number::size_at(0) == 0) by (nonlinear_arith)
        requires
            number::size_at(0) == 0,
    ;
    number::patterns_round_to_themselves(0, c.size(), 0);
}

/// The places of a curve go from left to right over the plot: the first is at its left edge, and no
/// place is left of the one before or beyond the right edge.
pub proof fn places_go_from_left_to_right(i: int, j: int, steps: nat, plot: Rect)
    requires
        0 <= i <= j <= steps,
        0 < steps < 0x100_0000,
        is_place(plot),
    ensures
        plot.x.units() <= curves::x_at(i, steps, plot).units(),
        curves::x_at(i, steps, plot).units() <= curves::x_at(j, steps, plot).units(),
        curves::x_at(j, steps, plot).units() <= arithmetic::sum(plot.x, plot.width).units(),
        i == 0 ==> curves::x_at(i, steps, plot).units() == plot.x.units(),
        j == steps ==> curves::x_at(j, steps, plot).units() == arithmetic::sum(
            plot.x,
            plot.width,
        ).units(),
{
    let one = pow2(149);
    lemma_pow2_pos(149);
    parts_grow(i, j, steps);
    let (p, q) = (curves::part_of_way(i, steps), curves::part_of_way(j, steps));
    let w = plot.width;
    let (a, b) = (arithmetic::product(p, w), arithmetic::product(q, w));
    let none = Scalar { bits: 0 };
    order_laws::nothing_is_zero(none);
    order_laws::products_in_order(p, w, q, w);
    assert(p.units() * w.units() <= one * w.units() && q.units() * w.units() <= one * w.units())
        by (
    nonlinear_arith)
        requires
            0 <= p.units() <= q.units() <= one,
            w.units() >= 0,
    ;
    order_laws::products_stop(p, w, w);
    order_laws::products_stop(q, w, w);
    order_laws::infinity_is_furthest(a);
    order_laws::infinity_is_furthest(b);
    order_laws::below_infinity(a, w);
    order_laws::below_infinity(b, w);
    order_laws::sums_in_order(plot.x, a, plot.x, b);
    order_laws::sums_in_order(plot.x, b, plot.x, w);
    order_laws::sums_stop(plot.x, a, plot.x);
    if i == 0 {
        assert(p.units() * w.units() == 0) by (nonlinear_arith)
            requires
                p.units() == 0,
        ;
        order_laws::products_stop(p, w, none);
        assert(one * none.units() == 0) by (nonlinear_arith)
            requires
                none.units() == 0,
        ;
    }
    if j == steps {
        order_laws::sums_in_order(plot.x, w, plot.x, b);
    }
}

/// The points of a curve stand at their places, at their heights, and no further up or down than
/// the plot.
pub proof fn points_stay_on_the_plot(i: int, len: nat, y: Scalar, plot: Rect)
    requires
        curves::has_height(plot),
        !y.nan(),
    ensures
        ({
            let p = curves::curve_point(i, len, y, plot);
            let bottom = arithmetic::sum(plot.y, plot.height);
            &&& p.x == curves::x_at(i, (len - 1) as nat, plot)
            &&& plot.y.units() <= p.y.units() <= bottom.units()
            &&& plot.y.units() <= y.units() <= bottom.units() ==> p.y == y
        }),
{
}

/// A louder level is shown no lower, and levels from the lowest to zero are told apart no further
/// than from the lowest gain to the highest.
pub proof fn louder_levels_are_shown_higher(level: Scalar, louder: Scalar)
    requires
        !level.nan(),
        !louder.nan(),
        level.units() <= louder.units(),
    ensures
        curves::shown_at(level).units() <= curves::shown_at(louder).units(),
{
    let low = Scalar { bits: eq_drawer::MIN_DB };
    let zero = Scalar { bits: 0 };
    order_laws::nothing_is_zero(zero);
    crate::spectrum_frame::least_is_lowest();
    order_laws::clamps_in_order(level, louder, low, zero);
    let (a, b) = (level.clamped(low, zero), louder.clamped(low, zero));
    order_laws::infinity_is_furthest(a);
    order_laws::infinity_is_furthest(b);
    order_laws::below_infinity(a, low);
    order_laws::below_infinity(b, low);
    order_laws::differences_in_order(a, low, b, low);
    order_laws::differences_in_order(low, low, a, low);
    order_laws::differences_in_order(b, low, zero, low);
    let span = arithmetic::difference(zero, low);
    order_laws::differences_stop(low, low, zero);
    order_laws::negated_units(low);
    order_laws::sum_of_units(zero, arithmetic::negated(low));
    order_laws::numbers_round_to_themselves(arithmetic::negated(low));
    assert(low.magnitude() == 0x42F0_0000);
    order_laws::nothing_is_zero(low);
    assert(span.units() == low.size());
    order_laws::infinity_is_furthest(span);
    order_laws::below_infinity(span, low);
    let (c, d) = (arithmetic::difference(a, low), arithmetic::difference(b, low));
    order_laws::below_infinity(c, span);
    order_laws::below_infinity(d, span);
    order_laws::quotients_in_order(c, d, span);
    order_laws::quotients_in_order(d, span, span);
    all_of_it(span);
    order_laws::quotient_of_units(c, span);
    let (p, q) = (arithmetic::quotient(c, span), arithmetic::quotient(d, span));
    let unit = arithmetic::quotient(span, span);
    order_laws::infinity_is_furthest(p);
    order_laws::infinity_is_furthest(q);
    order_laws::below_infinity(p, unit);
    order_laws::below_infinity(q, unit);
    let least = Scalar { bits: eq::MIN_GAIN };
    let most = Scalar { bits: eq::MAX_GAIN };
    let reach = arithmetic::difference(most, least);
    crate::apo::range_bounds();
    order_laws::differences_stop(most, least, zero);
    reach_is_finite();
    order_laws::products_in_order(p, reach, q, reach);
    let (x, y) = (arithmetic::product(p, reach), arithmetic::product(q, reach));
    let one = pow2(149);
    lemma_pow2_pos(149);
    assert(q.units() * reach.units() <= one * reach.units()) by (nonlinear_arith)
        requires
            0 <= q.units() <= one,
            reach.units() >= 0,
    ;
    order_laws::products_stop(q, reach, reach);
    order_laws::infinity_is_furthest(x);
    order_laws::infinity_is_furthest(y);
    order_laws::below_infinity(x, reach);
    order_laws::below_infinity(y, reach);
    order_laws::sums_in_order(least, x, least, y);
}

proof fn reach_is_finite()
    ensures
        order_laws::finite(
            arithmetic::difference(Scalar { bits: eq::MAX_GAIN }, Scalar { bits: eq::MIN_GAIN }),
        ),
        arithmetic::difference(
            Scalar { bits: eq::MAX_GAIN },
            Scalar { bits: eq::MIN_GAIN },
        ).units() >= 0,
{
    let least = Scalar { bits: eq::MIN_GAIN };
    let most = Scalar { bits: eq::MAX_GAIN };
    let wide = Scalar { bits: 0x41C0_0000 };
    let zero = Scalar { bits: 0 };
    order_laws::nothing_is_zero(zero);
    crate::apo::range_bounds();
    vstd::arithmetic::power2::lemma2_to64();
    vstd::arithmetic::power2::lemma_pow2_adds(20, 129);
    vstd::arithmetic::power2::lemma_pow2_adds(1, 129);
    assert(most.exponent() == 130 && most.significand() == 0xC0_0000);
    assert(least.exponent() == 130 && least.significand() == 0xC0_0000);
    assert(wide.exponent() == 131 && wide.significand() == 0xC0_0000);
    assert(0xC0_0000 * pow2(130) == 2 * (0xC0_0000 * pow2(129)));
    order_laws::differences_stop(most, least, wide);
    order_laws::differences_stop(most, least, zero);
    let r = arithmetic::difference(most, least);
    order_laws::infinity_is_furthest(r);
    order_laws::below_infinity(r, wide);
}

/// The line of the spectrum goes through all its points, in order, and there is none with fewer
/// than two.
pub proof fn spectrum_line_meets_points(points: Seq<Point>, i: int)
    ensures
        points.len() < 2 ==> curves::straight_path(points).len() == 0,
        points.len() >= 2 ==> curves::straight_path(points).len() == points.len()
            && curves::straight_path(points)[0] == PathStep::MoveTo(points[0]),
        points.len() >= 2 && 0 < i < points.len() ==> curves::straight_path(points)[i]
            == PathStep::LineTo(points[i]),
{
}

/// The levels of a spectrum that are finite are shown, each at its own place and height, and no
/// others.
pub proof fn finite_levels_are_shown(bins: Seq<Scalar>, plot: Rect, upto: int, i: int)
    requires
        0 <= i < upto <= bins.len(),
    ensures
        ({
            let shown = curves::spectrum_points(bins, plot, upto);
            let this = (
                curves::x_at(i, (bins.len() - 1) as nat, plot),
                curves::shown_at(bins[i]),
            );
            !bins[i].nan() && !bins[i].infinite() ==> shown.contains(this)
        }),
        curves::spectrum_points(bins, plot, upto).len() <= upto,
    decreases upto,
{
    let shown = curves::spectrum_points(bins, plot, upto);
    let before = curves::spectrum_points(bins, plot, upto - 1);
    let this = (curves::x_at(i, (bins.len() - 1) as nat, plot), curves::shown_at(bins[i]));
    if i < upto - 1 {
        finite_levels_are_shown(bins, plot, upto - 1, i);
        if before.contains(this) {
            let k = choose|k: int| 0 <= k < before.len() && before[k] == this;
            assert(shown[k] == this);
        }
    } else {
        if upto - 1 > 0 {
            finite_levels_are_shown(bins, plot, upto - 1, 0);
        } else {
            assert(before.len() == 0);
        }
        if !bins[i].nan() && !bins[i].infinite() {
            assert(shown[before.len() as int] == this);
        }
    }
}

/// The responses of bands add up place by place: one more band adds its own response, and a single
/// one is the curve.
pub proof fn responses_add_up(responses: Seq<Vec<Scalar>>, more: Vec<Scalar>, i: int)
    requires
        0 <= i < more@.len(),
    ensures
        responses.len() > 0 && i < responses[0]@.len() ==> ballistics::summed_response(
            responses.push(more),
        )[i] == arithmetic::sum(ballistics::summed_response(responses)[i], more@[i]),
        ballistics::summed_response(seq![more]).len() == more@.len(),
        ballistics::summed_response(seq![more])[i] == arithmetic::sum(
            Scalar { bits: 0 },
            more@[i],
        ),
        responses.len() > 0 ==> ballistics::summed_response(responses.push(more)).len()
            == responses[0]@.len(),
{
    let all = responses.push(more);
    let n = responses.len() as int;
    assert(all[n] == more);
    sums_are_local(responses, all, n, i);
    if responses.len() > 0 {
        assert(all[0] == responses[0]);
    }
    let one = seq![more];
    assert(one[0] == more);
    assert(ballistics::summed_at(one, 0, i) == (Scalar { bits: 0 }));
    assert(ballistics::summed_at(one, 1, i) == arithmetic::sum(Scalar { bits: 0 }, more@[i]));
}

proof fn sums_are_local(a: Seq<Vec<Scalar>>, b: Seq<Vec<Scalar>>, k: int, i: int)
    requires
        k <= a.len(),
        a.len() <= b.len(),
        forall|j: int| 0 <= j < a.len() ==> #[trigger] a[j] == b[j],
    ensures
        ballistics::summed_at(a, k, i) == ballistics::summed_at(b, k, i),
    decreases k,
{
    if k > 0 {
        assert(a[k - 1] == b[k - 1]);
        sums_are_local(a, b, k - 1, i);
    }
}

proof fn loudest_is_local(bins: Seq<Scalar>, others: Seq<Scalar>, from: int, upto: int, f: Scalar)
    requires
        forall|k: int| from <= k < upto ==> #[trigger] bins[k] == others[k],
    ensures
        eq_drawer::loudest(bins, from, upto, f) == eq_drawer::loudest(others, from, upto, f),
    decreases upto - from,
{
    if upto > from {
        assert(bins[upto - 1] == others[upto - 1]);
        loudest_is_local(bins, others, from, upto - 1, f);
    }
}

/// Up to the upper cutoff the curve is moved by low sound alone, and from the lower cutoff on by
/// high sound alone: spectra that have the levels there in common move it alike.
pub proof fn sound_moves_its_own_end(
    gain: Scalar,
    at: CurveFrequency,
    bins: Seq<Scalar>,
    others: Seq<Scalar>,
    logs: FrequencyLogs,
)
    requires
        bins.len() == others.len(),
    ensures
        !(Scalar { bits: ballistics::HIGH_CUTOFF }).below(at.frequency) && (forall|k: int|
            ballistics::level_place(logs.lowest, bins.len(), logs) <= k <= ballistics::level_place(
                logs.low_end,
                bins.len(),
                logs,
            ) ==> #[trigger] bins[k] == others[k]) ==> ballistics::moved_gain(gain, at, bins, logs)
            == ballistics::moved_gain(gain, at, others, logs),
        !at.frequency.below(Scalar { bits: ballistics::LOW_CUTOFF }) && (forall|k: int|
            ballistics::level_place(logs.high_start, bins.len(), logs) <= k
                <= ballistics::level_place(logs.high_end, bins.len(), logs) ==> #[trigger] bins[k]
                == others[k]) ==> ballistics::moved_gain(gain, at, bins, logs)
            == ballistics::moved_gain(gain, at, others, logs),
{
    let n = bins.len();
    let floor = Scalar { bits: eq_drawer::MIN_DB };
    let (a, b) = (
        ballistics::level_place(logs.lowest, n, logs),
        ballistics::level_place(logs.low_end, n, logs),
    );
    let (c, d) = (
        ballistics::level_place(logs.high_start, n, logs),
        ballistics::level_place(logs.high_end, n, logs),
    );
    if forall|k: int| a <= k <= b ==> #[trigger] bins[k] == others[k] {
        loudest_is_local(bins, others, a, b + 1, floor);
    }
    if forall|k: int| c <= k <= d ==> #[trigger] bins[k] == others[k] {
        loudest_is_local(bins, others, c, d + 1, floor);
    }
}

/// Whether the ends of the picture, by their logarithms, are in order and what lies between them is
/// a number.
pub open spec fn ends_in_order(low: Scalar, high: Scalar) -> bool {
    &&& order_laws::finite(low)
    &&& order_laws::finite(high)
    &&& low.units() <= high.units()
    &&& order_laws::finite(arithmetic::difference(high, low))
}

/// What lies a part of the way from one number to another grows with the part, and begins at the
/// first number.
pub proof fn ways_grow(low: Scalar, high: Scalar, p: Scalar, q: Scalar)
    requires
        ends_in_order(low, high),
        order_laws::finite(p),
        order_laws::finite(q),
        0 <= p.units() <= q.units() <= pow2(149),
    ensures
        ({
            let way = arithmetic::difference(high, low);
            let a = arithmetic::sum(low, arithmetic::product(p, way));
            let b = arithmetic::sum(low, arithmetic::product(q, way));
            &&& !a.nan() && !b.nan()
            &&& low.units() <= a.units() <= b.units() <= arithmetic::sum(low, way).units()
            &&& p.units() == 0 ==> a.units() == low.units()
            &&& q.units() == pow2(149) ==> b.units() == arithmetic::sum(low, way).units()
        }),
{
    let way = arithmetic::difference(high, low);
    let none = Scalar { bits: 0 };
    let one = pow2(149);
    lemma_pow2_pos(149);
    order_laws::nothing_is_zero(none);
    order_laws::differences_stop(high, low, none);
    let (x, y) = (arithmetic::product(p, way), arithmetic::product(q, way));
    order_laws::products_in_order(p, way, q, way);
    assert(p.units() * way.units() <= one * way.units() && q.units() * way.units() <= one
        * way.units()) by (nonlinear_arith)
        requires
            0 <= p.units() <= q.units() <= one,
            way.units() >= 0,
    ;
    order_laws::products_stop(p, way, way);
    order_laws::products_stop(q, way, way);
    order_laws::infinity_is_furthest(x);
    order_laws::infinity_is_furthest(y);
    order_laws::below_infinity(x, way);
    order_laws::below_infinity(y, way);
    order_laws::sums_in_order(low, x, low, y);
    order_laws::sums_in_order(low, y, low, way);
    order_laws::sums_stop(low, x, low);
    if p.units() == 0 {
        assert(p.units() * way.units() == 0 && one * none.units() == 0) by (nonlinear_arith)
            requires
                p.units() == 0,
                none.units() == 0,
        ;
        order_laws::products_stop(p, way, none);
    }
    if q.units() == one {
        order_laws::sums_in_order(low, way, low, y);
    }
}

/// The frequencies of a curve go from the lowest to the highest: the first is the lowest, and none
/// is below the one before.
pub proof fn curve_frequencies_grow(i: int, j: int, len: nat, logs: FrequencyLogs)
    requires
        0 <= i <= j < len,
        2 <= len <= 0x100_0000,
        ends_in_order(logs.lowest, logs.highest),
    ensures
        logs.lowest.units() <= ballistics::curve_log(i, len, logs).units(),
        ballistics::curve_log(i, len, logs).units() <= ballistics::curve_log(j, len, logs).units(),
        i == 0 ==> ballistics::curve_log(i, len, logs).units() == logs.lowest.units(),
{
    parts_grow(i, j, (len - 1) as nat);
    ways_grow(
        logs.lowest,
        logs.highest,
        curves::part_of_way(i, (len - 1) as nat),
        curves::part_of_way(j, (len - 1) as nat),
    );
}

/// The lowest frequency has the first place among the levels, and the highest the last.
pub proof fn ends_have_the_end_places(n: nat, logs: FrequencyLogs)
    requires
        2 <= n <= 0x80_0000,
        ends_in_order(logs.lowest, logs.highest),
        arithmetic::difference(logs.highest, logs.lowest).units() > 0,
    ensures
        ballistics::level_place(logs.lowest, n, logs) == 0,
        ballistics::level_place(logs.highest, n, logs) == n - 1,
{
    let one = pow2(149);
    lemma_pow2_pos(149);
    let way = arithmetic::difference(logs.highest, logs.lowest);
    let none = Scalar { bits: 0 };
    order_laws::nothing_is_zero(none);
    let k = (n - 1) as nat;
    small_counts_are_exact(k);
    let w = number::whole(k);
    // The lowest.
    let zero = arithmetic::difference(logs.lowest, logs.lowest);
    order_laws::differences_stop(logs.lowest, logs.lowest, none);
    order_laws::nothing_is_zero(zero);
    none_of_it(zero, way);
    let p = arithmetic::quotient(zero, way);
    order_laws::quotient_of_units(zero, way);
    order_laws::nothing_is_zero(p);
    assert(p.units() * w.units() == 0 && one * none.units() == 0) by (nonlinear_arith)
        requires
            p.units() == 0,
            none.units() == 0,
    ;
    assert(k * one >= 0) by (nonlinear_arith)
        requires
            k >= 0,
            one > 0,
    ;
    order_laws::products_stop(p, w, none);
    let x = arithmetic::product(p, w);
    order_laws::nothing_is_zero(x);
    integers_are_counted(x, 0);
    // The highest.
    all_of_it(way);
    let q = arithmetic::quotient(way, way);
    assert(q.units() * w.units() == one * w.units());
    order_laws::products_stop(q, w, w);
    let y = arithmetic::product(q, w);
    integers_are_counted(y, k);
}

/// Whether `k` is one of the integers that are nearest to `x` units.
pub open spec fn is_nearest_integer(k: int, x: int) -> bool {
    2 * (k * pow2(149) - x) <= pow2(149) && 2 * (x - k * pow2(149)) <= pow2(149)
}

proof fn nearest_is_counted(x: Scalar)
    requires
        !x.nan(),
        0 <= x.units() <= 0x7F_FFFF * pow2(149),
    ensures
        is_nearest_integer(
            counts::count_below(arithmetic::nearest_integer(x)) as int,
            x.units(),
        ),
{
    let one = pow2(149);
    lemma_pow2_pos(149);
    let k = (2 * x.size() + one) / (2 * one);
    assert(2 * (k * one - x.size()) <= one && 2 * (x.size() - k * one) <= one && k <= 0x7F_FFFF)
        by (nonlinear_arith)
        requires
            k == (2 * x.size() + one) / (2 * one),
            x.size() <= 0x7F_FFFF * one,
            one > 0,
    ;
    let b = if k == 0 {
        order_laws::nothing_is_zero(Scalar { bits: 0 });
        assert(0 * one == 0) by (nonlinear_arith);
        0
    } else {
        number::exact_pattern(k, 149)
    };
    assert(1 * number::size_at(b) == number::size_at(b));
    number::patterns_round_to_themselves(k * one, 1, b);
    let y = arithmetic::nearest_integer(x);
    assert(y == number::signed(x.negative(), b));
    order_laws::signed_units(x.negative(), b);
    if k == 0 {
        assert(y.size() == 0);
        assert(0nat / one == 0) by (nonlinear_arith)
            requires
                one > 0,
        ;
    } else {
        assert(k * one >= one) by (nonlinear_arith)
            requires
                k >= 1,
                one > 0,
        ;
        assert(!x.negative());
        assert((k * one) / one == k) by (nonlinear_arith)
            requires
                one > 0,
        ;
    }
}

/// A number that is an integer is its own nearest integer, and is counted as that.
proof fn integers_are_counted(x: Scalar, k: nat)
    requires
        !x.nan(),
        x.units() == k * pow2(149),
        k <= 0x7F_FFFF,
    ensures
        counts::count_below(arithmetic::nearest_integer(x)) == k,
{
    let one = pow2(149);
    lemma_pow2_pos(149);
    assert(0 <= k * one <= 0x7F_FFFF * one) by (nonlinear_arith)
        requires
            0 <= k <= 0x7F_FFFF,
            one > 0,
    ;
    nearest_is_counted(x);
    let c = counts::count_below(arithmetic::nearest_integer(x)) as int;
    assert(c == k) by (nonlinear_arith)
        requires
            2 * (c * one - k * one) <= one,
            2 * (k * one - c * one) <= one,
            one > 0,
    ;
}

/// The level of a frequency is the nearest to where the frequency is on its way from the lowest to
/// the highest.
pub proof fn levels_are_found_where_they_are(log: Scalar, n: nat, logs: FrequencyLogs)
    requires
        1 <= n <= 0x80_0000,
        ({
            let v = way_in_levels(log, n, logs);
            !v.nan() && 0 <= v.units() <= (n - 1) * pow2(149)
        }),
    ensures
        is_nearest_integer(
            ballistics::level_place(log, n, logs),
            way_in_levels(log, n, logs).units(),
        ),
{
    let one = pow2(149);
    lemma_pow2_pos(149);
    let v = way_in_levels(log, n, logs);
    assert((n - 1) * one <= 0x7F_FFFF * one) by (nonlinear_arith)
        requires
            n - 1 <= 0x7F_FFFF,
            one > 0,
    ;
    nearest_is_counted(v);
    let c = counts::count_below(arithmetic::nearest_integer(v)) as int;
    assert(c < n) by (nonlinear_arith)
        requires
            2 * (c * one - v.units()) <= one,
            v.units() <= (n - 1) * one,
            one > 0,
    ;
}

/// How many of the ways between `n` levels a frequency is above the lowest, by its logarithm.
pub open spec fn way_in_levels(log: Scalar, n: nat, logs: FrequencyLogs) -> Scalar {
    arithmetic::product(
        arithmetic::quotient(
            arithmetic::difference(log, logs.lowest),
            arithmetic::difference(logs.highest, logs.lowest),
        ),
        number::whole((n - 1) as nat),
    )
}

} // verus!
