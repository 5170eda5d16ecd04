//! The picture of the equaliser: what it shows, and what of it has to be drawn again.

use vstd::prelude::*;

use crate::arithmetic;
use crate::eq::Bands;
use crate::eq::EQBand;
use crate::eq::EQBandType;
use crate::eq::EqualiserBandConfig;
use crate::eq;
use crate::scalar::Scalar;

verus! {

/// The number of steps that a curve is computed in.
pub const EQ_CURVE_RESOLUTION: usize = 512;

/// How many colours there are for bands.
pub const COLOUR_COUNT: usize = 4;

/// The bit pattern of -120, the lowest level of a spectrum in dB.
pub const MIN_DB: u32 = 0xC2F0_0000;

/// A point of the picture.
#[derive(Clone, Copy, Debug, PartialEq, Eq, Structural)]
pub struct Point {
    pub x: Scalar,
    pub y: Scalar,
}

/// A rectangle of the window.
#[derive(Clone, Copy, Debug, PartialEq, Eq, Structural)]
pub struct Rect {
    pub x: Scalar,
    pub y: Scalar,
    pub width: Scalar,
    pub height: Scalar,
}

impl Rect {
    /// Whether two rectangles have the same numbers.
    pub open spec fn equals(self, other: Rect) -> bool {
        self.x.equals(other.x) && self.y.equals(other.y) && self.width.equals(other.width)
            && self.height.equals(other.height)
    }

    /// Whether two rectangles have the same numbers.
    pub fn is_equal(self, other: Rect) -> (r: bool)
        ensures
            r == self.equals(other),
    {
        self.x.is_equal(other.x) && self.y.is_equal(other.y) && self.width.is_equal(other.width)
            && self.height.is_equal(other.height)
    }
}

/// A colour, each part between zero and one.
#[derive(Clone, Copy, Debug, PartialEq, Eq, Structural)]
pub struct Colour {
    pub r: Scalar,
    pub g: Scalar,
    pub b: Scalar,
    pub a: Scalar,
}

impl Colour {
    /// Whether two colours have the same numbers.
    pub open spec fn equals(self, other: Colour) -> bool {
        self.r.equals(other.r) && self.g.equals(other.g) && self.b.equals(other.b)
            && self.a.equals(other.a)
    }

    /// Whether two colours have the same numbers.
    pub fn is_equal(self, other: Colour) -> (r: bool)
        ensures
            r == self.equals(other),
    {
        self.r.is_equal(other.r) && self.g.is_equal(other.g) && self.b.is_equal(other.b)
            && self.a.is_equal(other.a)
    }
}

/// Whether there are two colours with the same numbers, or none twice.
pub open spec fn same_colour(a: Option<Colour>, b: Option<Colour>) -> bool {
    match (a, b) {
        (Some(x), Some(y)) => x.equals(y),
        (None, None) => true,
        _ => false,
    }
}

/// The red, green and blue of the band at the place `index`. The colours repeat.
pub open spec fn band_colour(index: int) -> (u8, u8, u8) {
    if index % 4 == 0 {
        (239, 54, 60)
    } else if index % 4 == 1 {
        (31, 187, 185)
    } else if index % 4 == 2 {
        (254, 201, 37)
    } else {
        (255, 15, 110)
    }
}

/// The red, green and blue of the point of the band at the place `index`.
pub fn eq_point_colour(index: usize) -> (r: (u8, u8, u8))
    ensures
        r == band_colour(index as int),
{
    let k: usize = index % COLOUR_COUNT;
    if k == 0 {
        (239, 54, 60)
    } else if k == 1 {
        (31, 187, 185)
    } else if k == 2 {
        (254, 201, 37)
    } else {
        (255, 15, 110)
    }
}

/// The red, green, blue and opacity, each of 255, of the area of the band at the place `index`.
pub fn eq_transparent_colour(index: usize) -> (r: (u8, u8, u8, u8))
    ensures
        (r.0, r.1, r.2) == band_colour(index as int),
        r.3 == 128,
{
    let (red, green, blue): (u8, u8, u8) = eq_point_colour(index);
    (red, green, blue, 128)
}

/// How the curve of the equaliser is drawn.
#[derive(Clone, Copy, Debug, PartialEq, Eq, Structural)]
pub enum EqVisualizerMode {
    /// As the bands are set.
    Static,
    /// Moved by the spectrum.
    BeacnBallistics,
}

impl Default for EqVisualizerMode {
    fn default() -> (r: EqVisualizerMode)
        ensures
            r == EqVisualizerMode::BeacnBallistics,
    {
        EqVisualizerMode::BeacnBallistics
    }
}

/// The way of drawing that comes after another.
pub open spec fn next_mode(mode: EqVisualizerMode) -> EqVisualizerMode {
    match mode {
        EqVisualizerMode::Static => EqVisualizerMode::BeacnBallistics,
        EqVisualizerMode::BeacnBallistics => EqVisualizerMode::Static,
    }
}

/// How far the wheel was turned.
#[derive(Clone, Copy, Debug, PartialEq, Eq, Structural)]
pub enum ScrollDelta {
    Lines { x: Scalar, y: Scalar },
    Pixels { x: Scalar, y: Scalar },
}

/// What the mouse does on the picture.
#[derive(Clone, Copy, Debug, PartialEq, Eq, Structural)]
pub enum EQMouseEvent {
    /// The left button was pressed here.
    Pressed(Point),
    /// The cursor was moved to here.
    Moved(Point),
    /// The left button was released.
    Released,
    /// The wheel was turned here.
    Scrolled(Point, ScrollDelta),
}

/// What the mouse does anywhere.
#[derive(Clone, Copy, Debug, PartialEq, Eq, Structural)]
pub enum PointerEvent {
    LeftPressed,
    CursorMoved,
    LeftReleased,
    WheelScrolled(ScrollDelta),
    Other,
}

/// What there is to the picture.
pub struct DrawModel {
    pub bands: Seq<EqualiserBandConfig>,
    pub active: Option<EQBand>,
    pub border_colour: Option<Colour>,
    pub track_motion: bool,
    pub bounds: Rect,
    pub bands_drawn: Seq<bool>,
    pub grid_drawn: bool,
    pub curve_drawn: bool,
    pub spectrum_drawn: bool,
    pub responses_known: Seq<bool>,
    pub visualizer_mode: EqVisualizerMode,
    pub spectrum_bins: Seq<Scalar>,
}

/// The picture of the equaliser.
#[derive(Debug)]
pub struct EQDrawView {
    pub bands: Bands,
    /// The band that has a ring around its point.
    pub active: Option<EQBand>,
    pub border_colour: Option<Colour>,
    /// Whether the movement of the mouse is passed on.
    pub track_motion: bool,
    /// Where the picture is in the window.
    pub bounds: Rect,
    /// Of each band, whether what was drawn of it still holds.
    pub bands_drawn: [bool; 9],
    /// Whether what was drawn of the grid still holds.
    pub grid_drawn: bool,
    /// Whether what was drawn of the curve still holds.
    pub curve_drawn: bool,
    /// Whether what was drawn of the spectrum still holds.
    pub spectrum_drawn: bool,
    /// Of each band, whether its frequency response is known.
    pub responses_known: [bool; 9],
    pub visualizer_mode: EqVisualizerMode,
    /// The levels of the spectrum, in dB.
    pub spectrum_bins: Vec<Scalar>,
}

impl View for EQDrawView {
    type V = DrawModel;

    open spec fn view(&self) -> DrawModel {
        DrawModel {
            bands: self.bands@,
            active: self.active,
            border_colour: self.border_colour,
            track_motion: self.track_motion,
            bounds: self.bounds,
            bands_drawn: self.bands_drawn@,
            grid_drawn: self.grid_drawn,
            curve_drawn: self.curve_drawn,
            spectrum_drawn: self.spectrum_drawn,
            responses_known: self.responses_known@,
            visualizer_mode: self.visualizer_mode,
            spectrum_bins: self.spectrum_bins@,
        }
    }
}

/// Nothing of any band.
pub open spec fn none_of_nine() -> Seq<bool> {
    Seq::new(9, |i: int| false)
}

/// The picture when nothing that was drawn of the bands holds any more.
pub open spec fn without_bands(s: DrawModel) -> DrawModel {
    DrawModel {
        bands_drawn: none_of_nine(),
        curve_drawn: false,
        responses_known: none_of_nine(),
        ..s
    }
}

/// The picture when nothing that was drawn of `band` holds any more.
pub open spec fn without_band(s: DrawModel, band: EQBand) -> DrawModel {
    DrawModel {
        bands_drawn: s.bands_drawn.update(band.place(), false),
        curve_drawn: false,
        responses_known: s.responses_known.update(band.place(), false),
        ..s
    }
}

/// The picture with `band` set to `config`.
pub open spec fn with_band(
    s: DrawModel,
    band: EQBand,
    config: EqualiserBandConfig,
) -> DrawModel {
    without_band(DrawModel { bands: s.bands.update(band.place(), config), ..s }, band)
}

/// The picture with all bands set.
pub open spec fn with_bands(s: DrawModel, bands: Seq<EqualiserBandConfig>) -> DrawModel {
    without_bands(DrawModel { bands, ..s })
}

/// The picture without a spectrum.
pub open spec fn without_spectrum(s: DrawModel) -> DrawModel {
    DrawModel { spectrum_bins: seq![], spectrum_drawn: false, ..s }
}

/// The picture drawn in another way.
pub open spec fn with_mode(s: DrawModel, mode: EqVisualizerMode) -> DrawModel {
    if s.visualizer_mode == mode {
        s
    } else {
        DrawModel { visualizer_mode: mode, curve_drawn: false, ..s }
    }
}

/// The picture with another colour of the grid's border.
pub open spec fn with_border(s: DrawModel, colour: Option<Colour>) -> DrawModel {
    if same_colour(s.border_colour, colour) {
        s
    } else {
        DrawModel { border_colour: colour, grid_drawn: false, ..s }
    }
}

/// The picture with a spectrum.
pub open spec fn with_bins(s: DrawModel, bins: Seq<Scalar>) -> DrawModel {
    DrawModel {
        spectrum_bins: bins,
        spectrum_drawn: false,
        curve_drawn: s.curve_drawn && s.visualizer_mode == EqVisualizerMode::Static,
        ..s
    }
}

/// A rectangle of no size.
pub open spec fn no_rect() -> Rect {
    Rect {
        x: Scalar { bits: 0 },
        y: Scalar { bits: 0 },
        width: Scalar { bits: 0 },
        height: Scalar { bits: 0 },
    }
}

/// A picture of `bands` of which nothing has been drawn.
pub open spec fn fresh(bands: Seq<EqualiserBandConfig>) -> DrawModel {
    DrawModel {
        bands,
        active: None,
        border_colour: None,
        track_motion: false,
        bounds: no_rect(),
        bands_drawn: none_of_nine(),
        grid_drawn: false,
        curve_drawn: false,
        spectrum_drawn: false,
        responses_known: none_of_nine(),
        visualizer_mode: EqVisualizerMode::BeacnBallistics,
        spectrum_bins: seq![],
    }
}

impl EQDrawView {
    /// A picture of `bands` of which nothing has been drawn.
    pub fn new(bands: Bands) -> (r: EQDrawView)
        ensures
            r@ == fresh(bands@),
    {
        let zero = Scalar { bits: 0 };
        let r = EQDrawView {
            bands,
            active: None,
            border_colour: None,
            track_motion: false,
            bounds: Rect { x: zero, y: zero, width: zero, height: zero },
            bands_drawn: [false; 9],
            grid_drawn: false,
            curve_drawn: false,
            spectrum_drawn: false,
            responses_known: [false; 9],
            visualizer_mode: EqVisualizerMode::BeacnBallistics,
            spectrum_bins: Vec::new(),
        };
        assert(r@.bands_drawn =~= none_of_nine());
        assert(r@.responses_known =~= none_of_nine());
        assert(r@.spectrum_bins =~= seq![]);
        r
    }

    /// Where the picture is in the window.
    pub fn bounds(&self) -> (r: Rect)
        ensures
            r == self@.bounds,
    {
        self.bounds
    }

    /// The rectangle of the picture as the picture itself sees it: at the origin.
    pub fn local_rect(&self) -> (r: Rect)
        ensures
            r == (Rect {
                x: Scalar { bits: 0 },
                y: Scalar { bits: 0 },
                width: self@.bounds.width,
                height: self@.bounds.height,
            }),
    {
        let zero = Scalar { bits: 0 };
        Rect { x: zero, y: zero, width: self.bounds.width, height: self.bounds.height }
    }

    /// What the bands are set to.
    pub fn bands(&self) -> (r: &Bands)
        ensures
            r@ == self@.bands,
    {
        &self.bands
    }

    /// Sets all bands.
    pub fn set_bands(&mut self, bands: Bands)
        ensures
            final(self)@ == with_bands(old(self)@, bands@),
    {
        self.bands = bands;
        self.invalidate_all();
    }

    /// Sets one band.
    pub fn set_band(&mut self, band: EQBand, config: EqualiserBandConfig)
        ensures
            final(self)@ == with_band(old(self)@, band, config),
    {
        self.bands.set(band, config);
        self.invalidate_band(band);
    }

    /// Puts the ring around the point of a band, or of none.
    pub fn set_active(&mut self, active: Option<EQBand>)
        ensures
            final(self)@ == (DrawModel { active, ..old(self)@ }),
    {
        self.active = active;
    }

    /// Sets the colour of the grid's border.
    pub fn set_border_colour(&mut self, colour: Option<Colour>)
        ensures
            final(self)@ == with_border(old(self)@, colour),
    {
        let same = match (self.border_colour, colour) {
            (Some(x), Some(y)) => x.is_equal(y),
            (None, None) => true,
            _ => false,
        };
        if !same {
            self.border_colour = colour;
            self.grid_drawn = false;
        }
    }

    /// How the curve is drawn.
    pub fn visualizer_mode(&self) -> (r: EqVisualizerMode)
        ensures
            r == self@.visualizer_mode,
    {
        self.visualizer_mode
    }

    /// Sets how the curve is drawn.
    pub fn set_visualizer_mode(&mut self, mode: EqVisualizerMode)
        ensures
            final(self)@ == with_mode(old(self)@, mode),
    {
        if self.visualizer_mode != mode {
            self.visualizer_mode = mode;
            self.curve_drawn = false;
        }
    }

    /// Goes on to the next way of drawing the curve.
    pub fn cycle_visualizer_mode(&mut self) -> (r: EqVisualizerMode)
        ensures
            r == next_mode(old(self)@.visualizer_mode),
            final(self)@ == with_mode(old(self)@, r),
    {
        let next = match self.visualizer_mode {
            EqVisualizerMode::Static => EqVisualizerMode::BeacnBallistics,
            EqVisualizerMode::BeacnBallistics => EqVisualizerMode::Static,
        };
        self.set_visualizer_mode(next);
        next
    }

    /// Sets the spectrum.
    pub fn set_spectrum(&mut self, data: Vec<Scalar>)
        ensures
            final(self)@ == with_bins(old(self)@, data@),
    {
        self.spectrum_bins = data;
        self.spectrum_drawn = false;
        if self.visualizer_mode != EqVisualizerMode::Static {
            self.curve_drawn = false;
        }
    }

    /// Takes the spectrum away.
    pub fn clear_spectrum(&mut self)
        ensures
            final(self)@ == without_spectrum(old(self)@),
    {
        self.spectrum_bins = Vec::new();
        self.spectrum_drawn = false;
        assert(self@.spectrum_bins =~= seq![]);
    }

    /// Sets whether the movement of the mouse is passed on.
    pub fn set_track_motion(&mut self, track: bool)
        ensures
            final(self)@ == (DrawModel { track_motion: track, ..old(self)@ }),
    {
        self.track_motion = track;
    }

    /// Forgets everything that was drawn, and the spectrum.
    pub fn clear(&mut self)
        ensures
            final(self)@ == without_bands(
                without_spectrum(DrawModel { grid_drawn: false, ..old(self)@ }),
            ),
    {
        self.grid_drawn = false;
        self.clear_spectrum();
        self.invalidate_all();
    }

    /// Forgets what was drawn of the bands.
    pub fn invalidate_all(&mut self)
        ensures
            final(self)@ == without_bands(old(self)@),
    {
        self.bands_drawn = [false; 9];
        self.curve_drawn = false;
        self.responses_known = [false; 9];
        assert(self@.bands_drawn =~= none_of_nine());
        assert(self@.responses_known =~= none_of_nine());
    }

    /// Forgets what was drawn of one band.
    pub fn invalidate_band(&mut self, band: EQBand)
        ensures
            final(self)@ == without_band(old(self)@, band),
    {
        let i: usize = band.index();
        self.responses_known[i] = false;
        self.bands_drawn[i] = false;
        self.curve_drawn = false;
        assert(self@.bands_drawn =~= old(self)@.bands_drawn.update(band.place(), false));
        assert(self@.responses_known =~= old(self)@.responses_known.update(band.place(), false));
    }
}

impl Default for EQDrawView {
    fn default() -> (r: EQDrawView)
        ensures
            r@ == fresh(Bands::unset()),
    {
        EQDrawView::new(Bands::default())
    }
}

/// A place in the window, seen from the picture at `bounds`.
pub open spec fn seen_from(p: Point, bounds: Rect) -> Point {
    Point { x: arithmetic::difference(p.x, bounds.x), y: arithmetic::difference(p.y, bounds.y) }
}

/// What an event of the mouse is on the picture at `bounds`, and whether nothing else gets it.
/// `over` says whether the cursor is over the picture, and `cursor` where it is in the window.
pub open spec fn pointer_event(
    s: DrawModel,
    event: PointerEvent,
    bounds: Rect,
    over: bool,
    cursor: Option<Point>,
) -> Option<(EQMouseEvent, bool)> {
    let position = match cursor {
        Some(p) => Some(seen_from(p, bounds)),
        None => None,
    };
    match (event, position) {
        (PointerEvent::LeftPressed, Some(p)) => if over {
            Some((EQMouseEvent::Pressed(p), true))
        } else {
            None
        },
        (PointerEvent::CursorMoved, Some(p)) => if s.track_motion {
            Some((EQMouseEvent::Moved(p), false))
        } else {
            None
        },
        (PointerEvent::LeftReleased, _) => Some((EQMouseEvent::Released, false)),
        (PointerEvent::WheelScrolled(delta), Some(p)) => if over {
            Some((EQMouseEvent::Scrolled(p, delta), true))
        } else {
            None
        },
        _ => None,
    }
}

/// What is drawn, from the back to the front.
#[derive(Clone, Copy, Debug, PartialEq, Eq, Structural)]
pub enum Layer {
    Grid,
    /// The area of a band.
    Band(EQBand),
    Spectrum,
    /// The curve of all bands together, as it is or moved by the spectrum.
    Curve(EqVisualizerMode),
    Points,
}

/// The bands before the place `upto` that are enabled, in order.
pub open spec fn enabled_before(bands: Seq<EqualiserBandConfig>, upto: int) -> Seq<EQBand>
    decreases upto,
{
    if upto <= 0 {
        seq![]
    } else if bands[upto - 1].enabled {
        enabled_before(bands, upto - 1).push(EQBand::at(upto - 1))
    } else {
        enabled_before(bands, upto - 1)
    }
}

/// What is drawn, from the back to the front.
pub open spec fn layers(s: DrawModel) -> Seq<Layer> {
    seq![Layer::Grid] + enabled_before(s.bands, 9).map_values(|b: EQBand| Layer::Band(b)) + (
    if s.spectrum_bins.len() > 0 {
        seq![Layer::Spectrum]
    } else {
        seq![]
    }) + seq![Layer::Curve(s.visualizer_mode), Layer::Points]
}

/// The picture when it is placed at `bounds`. The frequency responses do not hold elsewhere.
pub open spec fn placed(s: DrawModel, bounds: Rect) -> DrawModel {
    if s.bounds.equals(bounds) {
        s
    } else {
        DrawModel { bounds, responses_known: none_of_nine(), ..s }
    }
}

/// For each band, whether `known` says so or it is enabled.
pub open spec fn or_enabled(known: Seq<bool>, bands: Seq<EqualiserBandConfig>) -> Seq<bool> {
    Seq::new(9, |i: int| known[i] || bands[i].enabled)
}

/// The picture after it has been drawn.
pub open spec fn drawn(s: DrawModel) -> DrawModel {
    DrawModel {
        grid_drawn: true,
        bands_drawn: or_enabled(s.bands_drawn, s.bands),
        spectrum_drawn: s.spectrum_drawn || s.spectrum_bins.len() > 0,
        curve_drawn: true,
        responses_known: or_enabled(s.responses_known, s.bands),
        ..s
    }
}

/// Whether every band that is enabled has a shape.
pub open spec fn shapes_known(s: DrawModel) -> bool {
    forall|i: int|
        0 <= i < 9 && (#[trigger] s.bands[i]).enabled ==> s.bands[i].band_type
            != EQBandType::NotSet
}

/// The point of a band.
#[derive(Clone, Copy, Debug, PartialEq, Eq, Structural)]
pub struct BandPoint {
    pub band: EQBand,
    /// Whether there is a ring around it.
    pub selected: bool,
}

/// The points of the bands that are enabled, in order.
pub open spec fn points_of(s: DrawModel) -> Seq<BandPoint> {
    enabled_before(s.bands, 9).map_values(
        |band: EQBand| BandPoint { band, selected: s.active == Some(band) },
    )
}

impl EQDrawView {
    /// What an event of the mouse is on the picture at `bounds`, and whether nothing else gets it.
    /// `over` says whether the cursor is over the picture, and `cursor` where it is in the window.
    pub fn update(
        &self,
        event: PointerEvent,
        bounds: Rect,
        over: bool,
        cursor: Option<Point>,
    ) -> (r: Option<(EQMouseEvent, bool)>)
        ensures
            r == pointer_event(self@, event, bounds, over, cursor),
    {
        let position = match cursor {
            Some(p) => Some(Point { x: p.x.minus(bounds.x), y: p.y.minus(bounds.y) }),
            None => None,
        };
        match event {
            PointerEvent::LeftPressed => {
                if !over {
                    return None;
                }
                match position {
                    Some(p) => Some((EQMouseEvent::Pressed(p), true)),
                    None => None,
                }
            },
            PointerEvent::CursorMoved => {
                if !self.track_motion {
                    return None;
                }
                match position {
                    Some(p) => Some((EQMouseEvent::Moved(p), false)),
                    None => None,
                }
            },
            PointerEvent::LeftReleased => Some((EQMouseEvent::Released, false)),
            PointerEvent::WheelScrolled(delta) => {
                if !over {
                    return None;
                }
                match position {
                    Some(p) => Some((EQMouseEvent::Scrolled(p, delta), true)),
                    None => None,
                }
            },
            PointerEvent::Other => None,
        }
    }

    /// The bands whose frequency responses add up to the curve, in order.
    pub fn summed_bands(&self) -> (r: Vec<EQBand>)
        ensures
            r@ == enabled_before(self@.bands, 9),
    {
        let mut r: Vec<EQBand> = Vec::new();
        let mut i: usize = 0;
        assert(r@ =~= enabled_before(self@.bands, 0));
        while i < 9
            invariant
                i <= 9,
                r@ == enabled_before(self@.bands, i as int),
            decreases 9 - i,
        {
            if self.bands.slots[i].enabled {
                r.push(EQBand::from_index(i));
            }
            i = i + 1;
        }
        r
    }

    /// Places the picture at `bounds`.
    pub fn place(&mut self, bounds: Rect)
        ensures
            final(self)@ == placed(old(self)@, bounds),
    {
        if !self.bounds.is_equal(bounds) {
            self.bounds = bounds;
            self.responses_known = [false; 9];
            assert(self@.responses_known =~= none_of_nine());
        }
    }

    /// Places the picture at `bounds`, and says what is drawn, from the back to the front. What
    /// was drawn before and still holds need not be drawn again.
    pub fn draw(&mut self, bounds: Rect) -> (r: Vec<Layer>)
        requires
            shapes_known(old(self)@),
        ensures
            r@ == layers(old(self)@),
            final(self)@ == drawn(placed(old(self)@, bounds)),
    {
        let ghost before = self@;
        self.place(bounds);
        let ghost at = self@;
        let enabled = self.summed_bands();
        let ghost all = enabled_before(before.bands, 9);
        let mut r: Vec<Layer> = Vec::new();
        r.push(Layer::Grid);
        let mut k: usize = 0;
        assert(r@ =~= seq![Layer::Grid] + all.take(0).map_values(|b: EQBand| Layer::Band(b)));
        while k < enabled.len()
            invariant
                k <= enabled@.len(),
                enabled@ == all,
                r@ == seq![Layer::Grid] + all.take(k as int).map_values(
                    |b: EQBand| Layer::Band(b),
                ),
            decreases enabled@.len() - k,
        {
            r.push(Layer::Band(enabled[k]));
            assert(r@ =~= seq![Layer::Grid] + all.take(k + 1).map_values(
                |b: EQBand| Layer::Band(b),
            ));
            k = k + 1;
        }
        assert(all.take(k as int) =~= all);
        if self.spectrum_bins.len() > 0 {
            r.push(Layer::Spectrum);
            self.spectrum_drawn = true;
        }
        r.push(Layer::Curve(self.visualizer_mode));
        r.push(Layer::Points);
        assert(r@ =~= layers(before));
        self.grid_drawn = true;
        self.curve_drawn = true;
        let mut i: usize = 0;
        while i < 9
            invariant
                i <= 9,
                at == placed(before, bounds),
                self@ == (DrawModel {
                    grid_drawn: true,
                    curve_drawn: true,
                    spectrum_drawn: at.spectrum_drawn || at.spectrum_bins.len() > 0,
                    bands_drawn: self@.bands_drawn,
                    responses_known: self@.responses_known,
                    ..at
                }),
                forall|j: int|
                    0 <= j < i ==> #[trigger] self@.bands_drawn[j] == (at.bands_drawn[j]
                        || at.bands[j].enabled),
                forall|j: int| i <= j < 9 ==> #[trigger] self@.bands_drawn[j] == at.bands_drawn[j],
                forall|j: int|
                    0 <= j < i ==> #[trigger] self@.responses_known[j] == (at.responses_known[j]
                        || at.bands[j].enabled),
                forall|j: int|
                    i <= j < 9 ==> #[trigger] self@.responses_known[j] == at.responses_known[j],
            decreases 9 - i,
        {
            if self.bands.slots[i].enabled {
                self.bands_drawn[i] = true;
                self.responses_known[i] = true;
            }
            i = i + 1;
        }
        assert(self@.bands_drawn =~= or_enabled(at.bands_drawn, at.bands));
        assert(self@.responses_known =~= or_enabled(at.responses_known, at.bands));
        r
    }

    /// The points of the bands that are enabled, in order.
    pub fn band_points(&self) -> (r: Vec<BandPoint>)
        ensures
            r@ == points_of(self@),
    {
        let enabled = self.summed_bands();
        let mut r: Vec<BandPoint> = Vec::new();
        let mut k: usize = 0;
        while k < enabled.len()
            invariant
                k <= enabled@.len(),
                r@ == enabled@.take(k as int).map_values(
                    |band: EQBand| BandPoint { band, selected: self@.active == Some(band) },
                ),
            decreases enabled@.len() - k,
        {
            let band = enabled[k];
            let selected = match self.active {
                Some(active) => active == band,
                None => false,
            };
            r.push(BandPoint { band, selected });
            assert(r@ =~= enabled@.take(k + 1).map_values(
                |band: EQBand| BandPoint { band, selected: self@.active == Some(band) },
            ));
            k = k + 1;
        }
        assert(enabled@.take(k as int) =~= enabled@);
        r
    }
}

/// Nothing that was drawn of a band outlives a change of it: neither its area nor its frequency
/// response nor the curve. Of the other bands, the grid and the spectrum everything does.
pub proof fn changed_band_is_drawn_again(
    s: DrawModel,
    band: EQBand,
    config: EqualiserBandConfig,
    other: EQBand,
)
    requires
        s.bands.len() == 9,
        s.bands_drawn.len() == 9,
        s.responses_known.len() == 9,
        other != band,
    ensures
        ({
            let t = with_band(s, band, config);
            &&& t.bands[band.place()] == config
            &&& !t.bands_drawn[band.place()]
            &&& !t.responses_known[band.place()]
            &&& !t.curve_drawn
            &&& t.bands[other.place()] == s.bands[other.place()]
            &&& t.bands_drawn[other.place()] == s.bands_drawn[other.place()]
            &&& t.responses_known[other.place()] == s.responses_known[other.place()]
            &&& t.grid_drawn == s.grid_drawn
            &&& t.spectrum_drawn == s.spectrum_drawn
        }),
{
    eq::bands_have_places(band, 0);
    eq::bands_have_places(other, 0);
}

/// The ways of drawing the curve come round again.
pub proof fn modes_come_round(mode: EqVisualizerMode)
    ensures
        next_mode(mode) != mode,
        next_mode(next_mode(mode)) == mode,
{
}

/// A picture that has been drawn has nothing left to draw until something changes.
pub proof fn drawn_picture_holds(s: DrawModel, i: int)
    requires
        0 <= i < 9,
        s.bands[i].enabled,
    ensures
        drawn(s).grid_drawn,
        drawn(s).curve_drawn,
        drawn(s).bands_drawn[i],
        drawn(s).responses_known[i],
        s.spectrum_bins.len() > 0 ==> drawn(s).spectrum_drawn,
        drawn(drawn(s)) == drawn(s),
{
    let t = drawn(s);
    assert(drawn(t).bands_drawn =~= t.bands_drawn);
    assert(drawn(t).responses_known =~= t.responses_known);
}

/// The frequencies that the grid marks, in Hz.
pub fn frequency_ticks() -> (r: [u32; 10])
    ensures
        r@ == seq![30u32, 50, 100, 250, 500, 1000, 2000, 5000, 10000, 16000],
{
    let r: [u32; 10] = [30, 50, 100, 250, 500, 1000, 2000, 5000, 10000, 16000];
    assert(r@ =~= seq![30u32, 50, 100, 250, 500, 1000, 2000, 5000, 10000, 16000]);
    r
}

/// The gains that the grid marks, in dB: from the lowest to the highest in steps of three.
pub fn gain_ticks() -> (r: Vec<i32>)
    ensures
        r@ == Seq::new(9, |i: int| (3 * i - 12) as i32),
{
    let mut r: Vec<i32> = Vec::new();
    let mut db: i32 = -12;
    while db <= 12
        invariant
            -12 <= db <= 15,
            (db + 12) % 3 == 0,
            r@ == Seq::new(((db + 12) / 3) as nat, |i: int| (3 * i - 12) as i32),
        decreases 15 - db,
    {
        r.push(db);
        assert(r@ =~= Seq::new(((db + 3 + 12) / 3) as nat, |i: int| (3 * i - 12) as i32));
        db = db + 3;
    }
    r
}

/// The loudest level of the bins from `from` up to and without `upto`, at least `floor`. A bin
/// that holds no finite number counts for nothing.
pub open spec fn loudest(bins: Seq<Scalar>, from: int, upto: int, floor: Scalar) -> Scalar
    decreases upto - from,
{
    if upto <= from {
        floor
    } else {
        let before = loudest(bins, from, upto - 1, floor);
        let level = bins[upto - 1];
        if !level.nan() && !level.infinite() && before.below(level) {
            level
        } else {
            before
        }
    }
}

/// The loudest level of the bins from `from` to `to`, at least the lowest level of a spectrum.
pub fn loudest_bin(bins: &[Scalar], from: usize, to: usize) -> (r: Scalar)
    requires
        from <= to < bins@.len(),
    ensures
        r == loudest(bins@, from as int, to + 1, Scalar { bits: MIN_DB }),
{
    let mut max = Scalar { bits: MIN_DB };
    let mut i: usize = from;
    while i <= to
        invariant
            from <= i <= to + 1,
            to < bins@.len(),
            max == loudest(bins@, from as int, i as int, Scalar { bits: MIN_DB }),
        decreases to + 1 - i,
    {
        let level = bins[i];
        if level.is_finite() && max.is_below(level) {
            max = level;
        }
        i = i + 1;
    }
    max
}

/// The loudest level is one of the levels or the floor, and no finite level is above it.
pub proof fn loudest_is_loudest(bins: Seq<Scalar>, from: int, upto: int, floor: Scalar, i: int)
    requires
        from <= i < upto,
        !floor.nan(),
    ensures
        !loudest(bins, from, upto, floor).below(floor),
        !bins[i].infinite() ==> !loudest(bins, from, upto, floor).below(bins[i]),
        loudest(bins, from, upto, floor) == floor || exists|k: int|
            from <= k < upto && #[trigger] bins[k] == loudest(bins, from, upto, floor),
        !loudest(bins, from, upto, floor).nan(),
    decreases upto - from,
{
    if upto - 1 > from {
        let j = if i < upto - 1 {
            i
        } else {
            from
        };
        loudest_is_loudest(bins, from, upto - 1, floor, j);
    } else {
        assert(loudest(bins, from, upto - 1, floor) == floor);
    }
    let before = loudest(bins, from, upto - 1, floor);
    if loudest(bins, from, upto, floor) == before && before != floor {
        let k = choose|k: int| from <= k < upto - 1 && #[trigger] bins[k] == before;
        assert(bins[k] == loudest(bins, from, upto, floor));
    } else if loudest(bins, from, upto, floor) != before {
        assert(bins[upto - 1] == loudest(bins, from, upto, floor));
    }
}

} // verus!
