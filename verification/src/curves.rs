//! The lines of the equaliser's picture: the grid, the spectrum, and the curves of the bands.

use vstd::prelude::*;

use crate::arithmetic;
use crate::counts::from_count;
use crate::eq::MAX_GAIN;
use crate::eq::MIN_GAIN;
use crate::eq_drawer::EQDrawView;
use crate::eq_drawer::MIN_DB;
use crate::eq_drawer::Point;
use crate::eq_drawer::Rect;
use crate::meter::ONE;
use crate::number;
use crate::scalar::Scalar;
use crate::spectrum_frame::FOUR;
use crate::spectrum_frame;

verus! {

/// The bit pattern of 2, the width of the border of the plot.
pub const EQ_PLOT_BORDER_WIDTH: u32 = 0x4000_0000;

/// The bit pattern of 1, half the width of the border.
pub const HALF_BORDER: u32 = 0x3F80_0000;

/// The bit pattern of 4, the width of the border at both sides together.
pub const TWICE_BORDER: u32 = 0x4080_0000;

/// The bit pattern of 1, how tightly a curve follows its points.
pub const CURVE_TENSION: u32 = 0x3F80_0000;

/// The bit pattern of 6.
pub const SIX: u32 = 0x40C0_0000;

/// The bit pattern of 5, how far below the top the numbers of the frequencies stand.
pub const LABEL_DROP: u32 = 0x40A0_0000;

/// How many points on each side a point of a curve is smoothed with.
pub const SMOOTHING: usize = 8;

/// The part of the way at which the place `i` of `steps` is.
pub open spec fn part_of_way(i: int, steps: nat) -> Scalar {
    arithmetic::quotient(number::whole(i as nat), number::whole(steps))
}

/// Where the place `i` of `steps` is on the plot.
pub open spec fn x_at(i: int, steps: nat, plot: Rect) -> Scalar {
    arithmetic::sum(plot.x, arithmetic::product(part_of_way(i, steps), plot.width))
}

/// Where the places of a curve of `steps` steps are on the plot.
pub fn curve_places(steps: usize, plot: Rect) -> (r: Vec<Scalar>)
    requires
        steps < usize::MAX,
    ensures
        r@ == Seq::new(steps as nat + 1, |i: int| x_at(i, steps as nat, plot)),
{
    let count = from_count(steps);
    let mut r: Vec<Scalar> = Vec::new();
    let mut i: usize = 0;
    while i <= steps
        invariant
            i <= steps + 1,
            steps < usize::MAX,
            count == number::whole(steps as nat),
            r@ == Seq::new(i as nat, |i: int| x_at(i, steps as nat, plot)),
        decreases steps + 1 - i,
    {
        r.push(plot.x.plus(from_count(i).over(count).times(plot.width)));
        assert(r@ =~= Seq::new(i as nat + 1, |i: int| x_at(i, steps as nat, plot)));
        i = i + 1;
    }
    r
}

/// Whether the plot has a top that is not below its bottom.
pub open spec fn has_height(plot: Rect) -> bool {
    arithmetic::at_least(arithmetic::sum(plot.y, plot.height), plot.y)
}

/// The point of a curve at the place `i` of `len`, at the height `y`, or the nearest of the plot.
pub open spec fn curve_point(i: int, len: nat, y: Scalar, plot: Rect) -> Point {
    Point {
        x: x_at(i, (len - 1) as nat, plot),
        y: y.clamped(plot.y, arithmetic::sum(plot.y, plot.height)),
    }
}

/// The points of a curve, from their heights.
pub fn curve_points(heights: &[Scalar], plot: Rect) -> (r: Vec<Point>)
    requires
        heights@.len() > 0,
        has_height(plot),
    ensures
        r@ == Seq::new(
            heights@.len(),
            |i: int| curve_point(i, heights@.len(), heights@[i], plot),
        ),
{
    let n: usize = heights.len();
    let places = curve_places(n - 1, plot);
    let bottom = plot.y.plus(plot.height);
    let mut r: Vec<Point> = Vec::new();
    let mut i: usize = 0;
    while i < n
        invariant
            i <= n,
            n == heights@.len(),
            n > 0,
            has_height(plot),
            bottom == arithmetic::sum(plot.y, plot.height),
            places@ == Seq::new(n as nat, |i: int| x_at(i, (n - 1) as nat, plot)),
            r@ == Seq::new(
                i as nat,
                |i: int| curve_point(i, heights@.len(), heights@[i], plot),
            ),
        decreases n - i,
    {
        r.push(Point { x: places[i], y: heights[i].clamp(plot.y, bottom) });
        assert(r@ =~= Seq::new(
            i as nat + 1,
            |i: int| curve_point(i, heights@.len(), heights@[i], plot),
        ));
        i = i + 1;
    }
    r
}

/// The weight of a point that is `distance` places away.
pub open spec fn nearness(distance: nat) -> Scalar {
    arithmetic::quotient(
        Scalar { bits: ONE },
        arithmetic::sum(Scalar { bits: ONE }, number::whole(distance)),
    )
}

/// How many places two places are apart.
pub open spec fn apart(i: int, j: int) -> nat {
    if i < j {
        (j - i) as nat
    } else {
        (i - j) as nat
    }
}

/// The weighted heights of the points from `from` up to and without `upto`, seen from the place
/// `i`, added up, and the weights.
pub open spec fn weighed(points: Seq<Point>, i: int, from: int, upto: int) -> (Scalar, Scalar)
    decreases upto - from,
{
    if upto <= from {
        (Scalar { bits: 0 }, Scalar { bits: 0 })
    } else {
        let before = weighed(points, i, from, upto - 1);
        let weight = nearness(apart(i, upto - 1));
        (
            arithmetic::sum(before.0, arithmetic::product(points[upto - 1].y, weight)),
            arithmetic::sum(before.1, weight),
        )
    }
}

/// The first place that the place `i` is smoothed with.
pub open spec fn window_start(i: int, window: int) -> int {
    if i < window {
        0
    } else {
        i - window
    }
}

/// The last place that the place `i` of `len` is smoothed with.
pub open spec fn window_end(i: int, window: int, len: int) -> int {
    if i + window < len {
        i + window
    } else {
        len - 1
    }
}

/// The point at the place `i`, its height smoothed unless it lies beyond `cutoff_x`.
pub open spec fn smooth_point(points: Seq<Point>, cutoff_x: Scalar, window: int, i: int) -> Point {
    let p = points[i];
    if cutoff_x.below(p.x) {
        p
    } else {
        let (total, weights) = weighed(
            points,
            i,
            window_start(i, window),
            window_end(i, window, points.len() as int) + 1,
        );
        if (Scalar { bits: 0 }).below(weights) {
            Point { x: p.x, y: arithmetic::quotient(total, weights) }
        } else {
            p
        }
    }
}

/// The weights of points up to `window` places away.
fn nearnesses(window: usize) -> (r: Vec<Scalar>)
    requires
        window < usize::MAX,
    ensures
        r@ == Seq::new(window as nat + 1, |d: int| nearness(d as nat)),
{
    let one = Scalar { bits: ONE };
    let mut r: Vec<Scalar> = Vec::new();
    let mut d: usize = 0;
    while d <= window
        invariant
            d <= window + 1,
            window < usize::MAX,
            one == (Scalar { bits: ONE }),
            r@ == Seq::new(d as nat, |d: int| nearness(d as nat)),
        decreases window + 1 - d,
    {
        r.push(one.over(one.plus(from_count(d))));
        assert(r@ =~= Seq::new(d as nat + 1, |d: int| nearness(d as nat)));
        d = d + 1;
    }
    r
}

/// The points, their heights smoothed with those of `window` points on each side, near ones more
/// than far ones. Points beyond `cutoff_x` stay as they are.
pub fn adaptive_smooth_points(points: &[Point], cutoff_x: Scalar, window: usize) -> (r: Vec<Point>)
    requires
        points@.len() + window < usize::MAX,
    ensures
        r@ == Seq::new(
            points@.len(),
            |i: int| smooth_point(points@, cutoff_x, window as int, i),
        ),
{
    let weights = nearnesses(window);
    let n: usize = points.len();
    let mut r: Vec<Point> = Vec::new();
    let mut i: usize = 0;
    while i < n
        invariant
            i <= n,
            n == points@.len(),
            points@.len() + window < usize::MAX,
            weights@ == Seq::new(window as nat + 1, |d: int| nearness(d as nat)),
            r@ == Seq::new(
                i as nat,
                |i: int| smooth_point(points@, cutoff_x, window as int, i),
            ),
        decreases n - i,
    {
        let p = points[i];
        if cutoff_x.is_below(p.x) {
            r.push(p);
        } else {
            let start: usize = if i < window {
                0
            } else {
                i - window
            };
            let end: usize = if i + window < n {
                i + window
            } else {
                n - 1
            };
            let mut total = Scalar { bits: 0 };
            let mut weight = Scalar { bits: 0 };
            let mut j: usize = start;
            while j <= end
                invariant
                    i < n,
                    n == points@.len(),
                    start <= j <= end + 1,
                    start == window_start(i as int, window as int),
                    end == window_end(i as int, window as int, n as int),
                    points@.len() + window < usize::MAX,
                    weights@ == Seq::new(window as nat + 1, |d: int| nearness(d as nat)),
                    (total, weight) == weighed(points@, i as int, start as int, j as int),
                decreases end + 1 - j,
            {
                let d: usize = if i < j {
                    j - i
                } else {
                    i - j
                };
                total = total.plus(points[j].y.times(weights[d]));
                weight = weight.plus(weights[d]);
                j = j + 1;
            }
            if (Scalar { bits: 0 }).is_below(weight) {
                r.push(Point { x: p.x, y: total.over(weight) });
            } else {
                r.push(p);
            }
        }
        assert(r@ =~= Seq::new(
            i as nat + 1,
            |i: int| smooth_point(points@, cutoff_x, window as int, i),
        ));
        i = i + 1;
    }
    r
}

/// A step of drawing a path.
#[derive(Clone, Copy, Debug, PartialEq, Eq, Structural)]
pub enum PathStep {
    /// To a point without a line.
    MoveTo(Point),
    /// To a point in a straight line.
    LineTo(Point),
    /// To a point in a curve that two other points bend.
    CurveTo { control_a: Point, control_b: Point, to: Point },
    /// Back to where it began.
    Close,
}

/// The step from the point at the place `i` to the next, in a curve that goes smoothly through all
/// of them and stays between `y_min` and `y_max`.
pub open spec fn curve_step(
    points: Seq<Point>,
    i: int,
    tension: Scalar,
    y_min: Scalar,
    y_max: Scalar,
) -> PathStep {
    let p0 = if i == 0 {
        points[i]
    } else {
        points[i - 1]
    };
    let p1 = points[i];
    let p2 = points[i + 1];
    let p3 = if i + 2 < points.len() {
        points[i + 2]
    } else {
        points[i + 1]
    };
    let bend = arithmetic::product(Scalar { bits: SIX }, tension);
    PathStep::CurveTo {
        control_a: Point {
            x: arithmetic::sum(
                p1.x,
                arithmetic::quotient(arithmetic::difference(p2.x, p0.x), bend),
            ),
            y: arithmetic::sum(
                p1.y,
                arithmetic::quotient(arithmetic::difference(p2.y, p0.y), bend),
            ).clamped(y_min, y_max),
        },
        control_b: Point {
            x: arithmetic::difference(
                p2.x,
                arithmetic::quotient(arithmetic::difference(p3.x, p1.x), bend),
            ),
            y: arithmetic::difference(
                p2.y,
                arithmetic::quotient(arithmetic::difference(p3.y, p1.y), bend),
            ).clamped(y_min, y_max),
        },
        to: p2,
    }
}

/// The steps of a curve through the points, from the first of them on.
pub open spec fn curve_steps(
    points: Seq<Point>,
    tension: Scalar,
    y_min: Scalar,
    y_max: Scalar,
) -> Seq<PathStep> {
    if points.len() < 2 {
        seq![]
    } else if points.len() == 2 {
        seq![PathStep::LineTo(points[1])]
    } else {
        Seq::new(
            (points.len() - 1) as nat,
            |i: int| curve_step(points, i, tension, y_min, y_max),
        )
    }
}

/// Goes on with the steps of a curve through the points, from the first of them on.
fn catmull_rom_continue(
    path: &mut Vec<PathStep>,
    points: &[Point],
    tension: Scalar,
    y_min: Scalar,
    y_max: Scalar,
)
    requires
        points@.len() > 2 ==> arithmetic::at_least(y_max, y_min),
    ensures
        final(path)@ == old(path)@ + curve_steps(points@, tension, y_min, y_max),
{
    let ghost before = path@;
    let n: usize = points.len();
    if n < 2 {
        assert(path@ =~= before + curve_steps(points@, tension, y_min, y_max));
        return ;
    }
    if n == 2 {
        path.push(PathStep::LineTo(points[1]));
        assert(path@ =~= before + curve_steps(points@, tension, y_min, y_max));
        return ;
    }
    let bend = (Scalar { bits: SIX }).times(tension);
    let ghost all = curve_steps(points@, tension, y_min, y_max);
    let mut i: usize = 0;
    assert(path@ =~= before + all.take(0));
    while i < n - 1
        invariant
            i <= n - 1,
            n == points@.len(),
            n > 2,
            arithmetic::at_least(y_max, y_min),
            bend == arithmetic::product(Scalar { bits: SIX }, tension),
            all == curve_steps(points@, tension, y_min, y_max),
            path@ == before + all.take(i as int),
        decreases n - 1 - i,
    {
        let p0 = if i == 0 {
            points[i]
        } else {
            points[i - 1]
        };
        let p1 = points[i];
        let p2 = points[i + 1];
        let p3 = if i + 2 < n {
            points[i + 2]
        } else {
            points[i + 1]
        };
        let control_a = Point {
            x: p1.x.plus(p2.x.minus(p0.x).over(bend)),
            y: p1.y.plus(p2.y.minus(p0.y).over(bend)).clamp(y_min, y_max),
        };
        let control_b = Point {
            x: p2.x.minus(p3.x.minus(p1.x).over(bend)),
            y: p2.y.minus(p3.y.minus(p1.y).over(bend)).clamp(y_min, y_max),
        };
        path.push(PathStep::CurveTo { control_a, control_b, to: p2 });
        assert(path@ =~= before + all.take(i + 1));
        i = i + 1;
    }
    assert(all.take(i as int) =~= all);
}

/// The line of a curve through the points.
pub open spec fn stroke_path(
    points: Seq<Point>,
    tension: Scalar,
    y_min: Scalar,
    y_max: Scalar,
) -> Seq<PathStep> {
    if points.len() == 0 {
        seq![]
    } else {
        seq![PathStep::MoveTo(points[0])] + curve_steps(points, tension, y_min, y_max)
    }
}

/// The line of a curve through the points.
pub fn build_catmull_rom_stroke_path(
    points: &[Point],
    tension: Scalar,
    y_min: Scalar,
    y_max: Scalar,
) -> (r: Vec<PathStep>)
    requires
        points@.len() > 2 ==> arithmetic::at_least(y_max, y_min),
    ensures
        r@ == stroke_path(points@, tension, y_min, y_max),
{
    let mut r: Vec<PathStep> = Vec::new();
    if points.len() > 0 {
        r.push(PathStep::MoveTo(points[0]));
    }
    catmull_rom_continue(&mut r, points, tension, y_min, y_max);
    assert(r@ =~= stroke_path(points@, tension, y_min, y_max));
    r
}

/// The area between a curve through the points and the height `baseline_y`.
pub open spec fn fill_path(
    points: Seq<Point>,
    baseline_y: Scalar,
    tension: Scalar,
    y_min: Scalar,
    y_max: Scalar,
) -> Seq<PathStep> {
    if points.len() == 0 {
        seq![PathStep::Close]
    } else {
        seq![
            PathStep::MoveTo(Point { x: points[0].x, y: baseline_y }),
            PathStep::LineTo(points[0]),
        ] + curve_steps(points, tension, y_min, y_max) + seq![
            PathStep::LineTo(Point { x: points.last().x, y: baseline_y }),
            PathStep::Close,
        ]
    }
}

/// The area between a curve through the points and the height `baseline_y`.
pub fn build_catmull_rom_fill_path(
    points: &[Point],
    baseline_y: Scalar,
    tension: Scalar,
    y_min: Scalar,
    y_max: Scalar,
) -> (r: Vec<PathStep>)
    requires
        points@.len() > 2 ==> arithmetic::at_least(y_max, y_min),
    ensures
        r@ == fill_path(points@, baseline_y, tension, y_min, y_max),
{
    let mut r: Vec<PathStep> = Vec::new();
    let n: usize = points.len();
    if n > 0 {
        r.push(PathStep::MoveTo(Point { x: points[0].x, y: baseline_y }));
        r.push(PathStep::LineTo(points[0]));
    }
    catmull_rom_continue(&mut r, points, tension, y_min, y_max);
    if n > 0 {
        r.push(PathStep::LineTo(Point { x: points[n - 1].x, y: baseline_y }));
    }
    r.push(PathStep::Close);
    assert(r@ =~= fill_path(points@, baseline_y, tension, y_min, y_max));
    r
}

/// The line of the whole curve on the plot, from its heights. Left of `cutoff_x` it is smoothed.
pub fn draw_eq_curve(heights: &[Scalar], plot: Rect, cutoff_x: Scalar) -> (r: Vec<PathStep>)
    requires
        0 < heights@.len() < usize::MAX - SMOOTHING,
        has_height(plot),
    ensures
        r@ == stroke_path(
            smooth_curve(heights@, plot, cutoff_x),
            Scalar { bits: CURVE_TENSION },
            plot.y,
            arithmetic::sum(plot.y, plot.height),
        ),
{
    let points = curve_points(heights, plot);
    let points = adaptive_smooth_points(points.as_slice(), cutoff_x, SMOOTHING);
    assert(points@ =~= smooth_curve(heights@, plot, cutoff_x));
    let bottom = plot.y.plus(plot.height);
    build_catmull_rom_stroke_path(
        points.as_slice(),
        Scalar { bits: CURVE_TENSION },
        plot.y,
        bottom,
    )
}

/// The area of one band on the plot, between its curve and the height of no gain.
pub fn draw_eq_individual(
    heights: &[Scalar],
    zero_db_y: Scalar,
    plot: Rect,
    cutoff_x: Scalar,
) -> (r: Vec<PathStep>)
    requires
        0 < heights@.len() < usize::MAX - SMOOTHING,
        has_height(plot),
    ensures
        r@ == fill_path(
            smooth_curve(heights@, plot, cutoff_x),
            zero_db_y,
            Scalar { bits: CURVE_TENSION },
            plot.y,
            arithmetic::sum(plot.y, plot.height),
        ),
{
    let points = curve_points(heights, plot);
    let points = adaptive_smooth_points(points.as_slice(), cutoff_x, SMOOTHING);
    assert(points@ =~= smooth_curve(heights@, plot, cutoff_x));
    let bottom = plot.y.plus(plot.height);
    build_catmull_rom_fill_path(
        points.as_slice(),
        zero_db_y,
        Scalar { bits: CURVE_TENSION },
        plot.y,
        bottom,
    )
}

/// The points that a curve is drawn through, from their heights.
pub open spec fn smooth_curve(heights: Seq<Scalar>, plot: Rect, cutoff_x: Scalar) -> Seq<Point> {
    let points = Seq::new(
        heights.len(),
        |i: int| curve_point(i, heights.len(), heights[i], plot),
    );
    Seq::new(heights.len(), |i: int| smooth_point(points, cutoff_x, SMOOTHING as int, i))
}

/// The part of the plot that curves are drawn on: all but the border at both sides.
pub fn inside_border(plot: Rect) -> (r: Rect)
    ensures
        r == (Rect {
            x: arithmetic::sum(plot.x, Scalar { bits: EQ_PLOT_BORDER_WIDTH }),
            width: arithmetic::difference(plot.width, Scalar { bits: TWICE_BORDER }),
            ..plot
        }),
{
    Rect {
        x: plot.x.plus(Scalar { bits: EQ_PLOT_BORDER_WIDTH }),
        width: plot.width.minus(Scalar { bits: TWICE_BORDER }),
        ..plot
    }
}

/// The middle of the border of the plot.
pub fn border_rect(plot: Rect) -> (r: Rect)
    ensures
        r == (Rect {
            x: arithmetic::sum(plot.x, Scalar { bits: HALF_BORDER }),
            y: arithmetic::sum(plot.y, Scalar { bits: HALF_BORDER }),
            width: arithmetic::difference(plot.width, Scalar { bits: EQ_PLOT_BORDER_WIDTH }),
            height: arithmetic::difference(plot.height, Scalar { bits: EQ_PLOT_BORDER_WIDTH }),
        }),
{
    Rect {
        x: plot.x.plus(Scalar { bits: HALF_BORDER }),
        y: plot.y.plus(Scalar { bits: HALF_BORDER }),
        width: plot.width.minus(Scalar { bits: EQ_PLOT_BORDER_WIDTH }),
        height: plot.height.minus(Scalar { bits: EQ_PLOT_BORDER_WIDTH }),
    }
}

/// The line of the grid at `x`, from the top of the plot to the bottom, inside the border.
pub fn tick_line(x: Scalar, plot: Rect) -> (r: (Point, Point))
    ensures
        r.0 == (Point { x, y: arithmetic::sum(plot.y, Scalar { bits: EQ_PLOT_BORDER_WIDTH }) }),
        r.1 == (Point {
            x,
            y: arithmetic::difference(
                arithmetic::sum(plot.y, plot.height),
                Scalar { bits: EQ_PLOT_BORDER_WIDTH },
            ),
        }),
{
    let border = Scalar { bits: EQ_PLOT_BORDER_WIDTH };
    (Point { x, y: plot.y.plus(border) }, Point { x, y: plot.y.plus(plot.height).minus(border) })
}

/// Where the number of the frequency at `x` stands.
pub fn frequency_label(x: Scalar, rect: Rect) -> (r: Point)
    ensures
        r == (Point { x, y: arithmetic::sum(rect.y, Scalar { bits: LABEL_DROP }) }),
{
    Point { x, y: rect.y.plus(Scalar { bits: LABEL_DROP }) }
}

/// Where the number of the gain at `y` ends.
pub fn gain_label(y: Scalar, plot: Rect) -> (r: Point)
    ensures
        r == (Point { x: arithmetic::difference(plot.x, Scalar { bits: FOUR }), y }),
{
    Point { x: plot.x.minus(Scalar { bits: FOUR }), y }
}

/// The gain at whose height a level of the spectrum is shown: the lowest level at that of the
/// lowest gain, and no level above zero.
pub open spec fn shown_at(level: Scalar) -> Scalar {
    let low = Scalar { bits: MIN_DB };
    let zero = Scalar { bits: 0 };
    let part = arithmetic::quotient(
        arithmetic::difference(level.clamped(low, zero), low),
        arithmetic::difference(zero, low),
    );
    let least = Scalar { bits: MIN_GAIN };
    arithmetic::sum(
        least,
        arithmetic::product(part, arithmetic::difference(Scalar { bits: MAX_GAIN }, least)),
    )
}

/// Where on the plot the levels before the place `upto` are shown, each with the gain at whose
/// height that is. One that is no finite number is left out.
pub open spec fn spectrum_points(bins: Seq<Scalar>, plot: Rect, upto: int) -> Seq<(Scalar, Scalar)>
    decreases upto,
{
    if upto <= 0 {
        seq![]
    } else {
        let before = spectrum_points(bins, plot, upto - 1);
        let level = bins[upto - 1];
        if level.nan() || level.infinite() {
            before
        } else {
            before.push((x_at(upto - 1, (bins.len() - 1) as nat, plot), shown_at(level)))
        }
    }
}

/// The gain at whose height a level of the spectrum is shown.
fn show_at(level: Scalar) -> (r: Scalar)
    ensures
        r == shown_at(level),
{
    let low = Scalar { bits: MIN_DB };
    let zero = Scalar { bits: 0 };
    proof {
        spectrum_frame::least_is_lowest();
    }
    let part = level.clamp(low, zero).minus(low).over(zero.minus(low));
    let least = Scalar { bits: MIN_GAIN };
    least.plus(part.times((Scalar { bits: MAX_GAIN }).minus(least)))
}

impl EQDrawView {
    /// Where on the plot the levels of the spectrum are shown, each with the gain at whose height
    /// that is. One that is no finite number is left out.
    pub fn spectrum_places(&self, plot: Rect) -> (r: Vec<(Scalar, Scalar)>)
        ensures
            r@ == spectrum_points(
                self@.spectrum_bins,
                plot,
                self@.spectrum_bins.len() as int,
            ),
    {
        let n: usize = self.spectrum_bins.len();
        let mut r: Vec<(Scalar, Scalar)> = Vec::new();
        if n == 0 {
            return r;
        }
        let steps = from_count(n - 1);
        let mut i: usize = 0;
        assert(r@ =~= spectrum_points(self@.spectrum_bins, plot, 0));
        while i < n
            invariant
                i <= n,
                n == self@.spectrum_bins.len(),
                n > 0,
                steps == number::whole((n - 1) as nat),
                r@ == spectrum_points(self@.spectrum_bins, plot, i as int),
            decreases n - i,
        {
            let level = self.spectrum_bins[i];
            if level.is_finite() {
                let x = plot.x.plus(from_count(i).over(steps).times(plot.width));
                r.push((x, show_at(level)));
            }
            i = i + 1;
        }
        r
    }
}

/// The plot on which the heights of the spectrum are found: without half the border at the bottom.
pub fn spectrum_plot(plot: Rect) -> (r: Rect)
    ensures
        r == (Rect {
            height: arithmetic::difference(plot.height, Scalar { bits: HALF_BORDER }),
            ..plot
        }),
{
    Rect { height: plot.height.minus(Scalar { bits: HALF_BORDER }), ..plot }
}

/// The line through the points, or none if there are not two of them.
pub open spec fn straight_path(points: Seq<Point>) -> Seq<PathStep> {
    if points.len() < 2 {
        seq![]
    } else {
        Seq::new(
            points.len(),
            |i: int|
                if i == 0 {
                    PathStep::MoveTo(points[i])
                } else {
                    PathStep::LineTo(points[i])
                },
        )
    }
}

/// The line of the spectrum through its points, or none if there are not two of them.
pub fn draw_spectrum(points: &[Point]) -> (r: Vec<PathStep>)
    ensures
        r@ == straight_path(points@),
{
    let mut r: Vec<PathStep> = Vec::new();
    let n: usize = points.len();
    if n < 2 {
        assert(r@ =~= straight_path(points@));
        return r;
    }
    r.push(PathStep::MoveTo(points[0]));
    let mut i: usize = 1;
    assert(r@ =~= straight_path(points@).take(1));
    while i < n
        invariant
            1 <= i <= n,
            n == points@.len(),
            n >= 2,
            r@ == straight_path(points@).take(i as int),
        decreases n - i,
    {
        r.push(PathStep::LineTo(points[i]));
        assert(r@ =~= straight_path(points@).take(i + 1));
        i = i + 1;
    }
    assert(r@ =~= straight_path(points@));
    r
}

/// A curve goes through each of its points, and what bends it stays between the heights that it
/// may have, or is no number.
pub proof fn curve_meets_points(
    points: Seq<Point>,
    tension: Scalar,
    y_min: Scalar,
    y_max: Scalar,
    i: int,
)
    requires
        points.len() > 2,
        arithmetic::at_least(y_max, y_min),
        0 <= i < points.len() - 1,
    ensures
        stroke_path(points, tension, y_min, y_max).len() == points.len(),
        stroke_path(points, tension, y_min, y_max)[0] == PathStep::MoveTo(points[0]),
        match stroke_path(points, tension, y_min, y_max)[i + 1] {
            PathStep::CurveTo { control_a, control_b, to } => {
                &&& to == points[i + 1]
                &&& !control_a.y.below(y_min) && !y_max.below(control_a.y)
                &&& !control_b.y.below(y_min) && !y_max.below(control_b.y)
            },
            _ => false,
        },
{
}

/// Smoothing leaves the number of points and their places, and the heights of those beyond the
/// cutoff.
pub proof fn smoothing_keeps_places(points: Seq<Point>, cutoff_x: Scalar, window: int, i: int)
    ensures
        smooth_point(points, cutoff_x, window, i).x == points[i].x,
        cutoff_x.below(points[i].x) ==> smooth_point(points, cutoff_x, window, i) == points[i],
{
}

} // verus!
