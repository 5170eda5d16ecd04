//! The equaliser of a microphone: what its picture, its controls and the device do to each other.
//!
//! What happens is taken in rounds. A round says which settings the device is to be sent and what
//! follows; the next round starts from what the device has made of them.

use vstd::prelude::*;

use crate::apo::clamp_gain;
use crate::apo::clamp_q;
use crate::apo;
use crate::arithmetic;
use crate::eq::BAND_COUNT;
use crate::eq::Bands;
use crate::eq::EQBand;
use crate::eq::EQBandType;
use crate::eq::EQMode;
use crate::eq::EqualiserBandConfig;
use crate::eq;
use crate::eq_drawer::DrawModel;
use crate::eq_drawer::EQDrawView;
use crate::eq_drawer::EqVisualizerMode;
use crate::eq_drawer::ScrollDelta;
use crate::eq_drawer;
use crate::ipc::clamp_frequency;
use crate::ipc;
use crate::messages::EQMicrophone;
use crate::messages::Message;
use crate::number::from_hundredths;
use crate::number::from_whole;
use crate::number;
use crate::scalar::Scalar;
use crate::tenths;

verus! {

/// How long the mouse has to be held before a band is dragged, in nanoseconds.
pub const DRAG_DELAY: u64 = 80_000_000;

/// The bit pattern of 0.2, what a line of the wheel adds to the Q.
pub const VALUE_PER_LINE: u32 = 0x3E4C_CCCD;

/// The bit pattern of 20, how many pixels of the wheel count for a line.
pub const PIXELS_PER_LINE: u32 = 0x41A0_0000;

/// What an audio device has its equaliser set to.
#[derive(Clone, Copy, Debug)]
pub struct EqState {
    pub mode: EQMode,
    /// What the bands are set to in the simple mode.
    pub simple: Bands,
    /// What the bands are set to in the advanced mode.
    pub advanced: Bands,
}

impl EqState {
    /// What the bands are set to in a mode.
    pub open spec fn bands_in(self, mode: EQMode) -> Seq<EqualiserBandConfig> {
        match mode {
            EQMode::Simple => self.simple@,
            EQMode::Advanced => self.advanced@,
        }
    }

    /// What the bands are set to in a mode.
    pub fn bands(&self, mode: EQMode) -> (r: Bands)
        ensures
            r@ == self.bands_in(mode),
    {
        match mode {
            EQMode::Simple => self.simple,
            EQMode::Advanced => self.advanced,
        }
    }
}

/// What the mouse does to the bands. The times are in nanoseconds since any moment.
#[derive(Clone, Copy, Debug, PartialEq, Eq, Structural)]
pub enum BandEvent {
    /// The button was pressed, on the point of a band that the device has or beside them.
    Pressed { hit: Option<EQBand>, now: u64 },
    /// The cursor was moved to where this frequency and this gain are.
    Moved { frequency: Scalar, gain: Scalar, now: u64 },
    /// The button was released.
    Released,
    /// The wheel was turned, on the point of a band of the picture or beside them.
    Scrolled { hit: Option<EQBand>, delta: ScrollDelta },
}

/// What happens to the equaliser.
#[derive(Clone, Copy, Debug, PartialEq, Eq, Structural)]
pub enum MicEqualiserEvent {
    Equaliser(BandEvent),
    SetAdvanced(bool),
    SetFrequency(u32),
    SetType(EQBandType),
    SetGain(Scalar),
    SetQ(Scalar),
    LoadDefault,
    AddBand,
    RemoveBand,
    CycleVisualizerMode,
    ToggleGuide(bool),
}

/// What follows once the device has been sent the settings of a round.
#[derive(Clone, Copy, Debug, PartialEq, Eq, Structural)]
pub enum Next {
    Done,
    /// The picture shows what the band is set to in the device's mode.
    ShowCurrent(EQBand),
    /// The picture shows what the band is set to in this mode.
    Show(EQMode, EQBand),
    /// The same, and the ring is around the point of the band that is worked on.
    ShowActive(EQMode, EQBand),
    /// The mode was changed to this one.
    ModeChanged(EQMode),
    /// The default was loaded in this mode.
    DefaultLoaded(EQMode),
    /// The band was switched on in this mode.
    BandAdded(EQMode, EQBand),
    /// The band was switched off in this mode.
    BandRemoved(EQMode, EQBand),
    /// The band is being dragged to this gain.
    DragGain(EQBand, Scalar),
}

/// The equaliser of a microphone.
#[derive(Debug)]
pub struct MicEqualiser {
    pub eq_mode: EQMode,
    pub view: EQDrawView,
    /// The band that is worked on.
    pub active_band: Option<EQBand>,
    /// The band that may be dragged.
    pub active_band_drag: Option<EQBand>,
    /// When the button was pressed on a band, in nanoseconds.
    pub pressed_at: Option<u64>,
    pub show_guide: bool,
}

/// What there is to the equaliser.
pub struct EqModel {
    pub eq_mode: EQMode,
    pub view: DrawModel,
    pub active_band: Option<EQBand>,
    pub active_band_drag: Option<EQBand>,
    pub pressed_at: Option<u64>,
    pub show_guide: bool,
}

impl View for MicEqualiser {
    type V = EqModel;

    open spec fn view(&self) -> EqModel {
        EqModel {
            eq_mode: self.eq_mode,
            view: self.view@,
            active_band: self.active_band,
            active_band_drag: self.active_band_drag,
            pressed_at: self.pressed_at,
            show_guide: self.show_guide,
        }
    }
}

/// An equaliser without a device.
pub open spec fn deviceless() -> EqModel {
    EqModel {
        eq_mode: EQMode::Simple,
        view: eq_drawer::fresh(Bands::unset()),
        active_band: None,
        active_band_drag: None,
        pressed_at: None,
        show_guide: true,
    }
}

/// A round: the equaliser after it, the settings for the device, and what follows.
pub type Round = (EqModel, Seq<Message>, Next);

/// A round in which nothing is sent.
pub open spec fn quiet(s: EqModel) -> Round {
    (s, seq![], Next::Done)
}

/// A setting of the equaliser.
pub open spec fn eq_message(m: EQMicrophone) -> Message {
    Message::EQMicrophone(m)
}

/// What the default of a mode sends to the device, in order.
pub open spec fn default_messages(mode: EQMode) -> Seq<Message> {
    let b1 = EQBand::Band1;
    let b2 = EQBand::Band2;
    let b3 = EQBand::Band3;
    let gain = number::hundredths(0);
    let q = number::hundredths(70);
    seq![
        eq_message(EQMicrophone::Enabled(mode, b1, true)),
        eq_message(EQMicrophone::Enabled(mode, b2, true)),
        eq_message(EQMicrophone::Enabled(mode, b3, true)),
        eq_message(EQMicrophone::Type(mode, b1, EQBandType::HighPassFilter)),
        eq_message(EQMicrophone::Type(mode, b2, EQBandType::BellBand)),
        eq_message(EQMicrophone::Type(mode, b3, EQBandType::HighShelf)),
        eq_message(EQMicrophone::Frequency(mode, b1, number::hundredths(3600))),
        eq_message(EQMicrophone::Frequency(mode, b2, number::hundredths(50000))),
        eq_message(EQMicrophone::Frequency(mode, b3, number::hundredths(200000))),
        eq_message(EQMicrophone::Gain(mode, b1, gain)),
        eq_message(EQMicrophone::Gain(mode, b2, gain)),
        eq_message(EQMicrophone::Gain(mode, b3, gain)),
        eq_message(EQMicrophone::Q(mode, b1, q)),
        eq_message(EQMicrophone::Q(mode, b2, q)),
        eq_message(EQMicrophone::Q(mode, b3, q)),
    ]
}

/// How much a turn of the wheel adds to the Q.
pub open spec fn turned(delta: ScrollDelta) -> Scalar {
    let per_line = Scalar { bits: VALUE_PER_LINE };
    match delta {
        ScrollDelta::Lines { x, y } => arithmetic::product(y, per_line),
        ScrollDelta::Pixels { x, y } => arithmetic::quotient(
            arithmetic::product(y, per_line),
            Scalar { bits: PIXELS_PER_LINE },
        ),
    }
}

/// The Q that a turn of the wheel makes of `q`: in its range, and a whole number of tenths.
pub open spec fn scrolled_q(q: Scalar, delta: ScrollDelta) -> Scalar {
    tenths::in_tenths(apo::clamped_q(arithmetic::sum(q, turned(delta))))
}

/// The gain that a band is dragged to: in its range, and a whole number of tenths.
pub open spec fn dragged_gain(gain: Scalar) -> Scalar {
    tenths::in_tenths(apo::clamped_gain(gain))
}

fn scroll_q(q: Scalar, delta: ScrollDelta) -> (r: Scalar)
    ensures
        r == scrolled_q(q, delta),
{
    let per_line = Scalar { bits: VALUE_PER_LINE };
    let more = match delta {
        ScrollDelta::Lines { x: _, y } => y.times(per_line),
        ScrollDelta::Pixels { x: _, y } => y.times(per_line).over(
            Scalar { bits: PIXELS_PER_LINE },
        ),
    };
    clamp_q(q.plus(more)).to_tenths()
}

/// Whether the button has been held for long enough to drag.
pub open spec fn held(s: EqModel, now: u64) -> bool {
    s.pressed_at matches Some(pressed_at) && now - pressed_at >= DRAG_DELAY
}

/// The round in which a band that may be dragged is moved. In the simple mode its frequency stays.
pub open spec fn drag_round(s: EqModel, frequency: Scalar, gain: Scalar) -> Round {
    match s.active_band_drag {
        Some(band) => (
            s,
            if s.eq_mode != EQMode::Simple {
                seq![
                    eq_message(
                        EQMicrophone::Frequency(
                            s.eq_mode,
                            band,
                            ipc::frequency_in_range(frequency),
                        ),
                    ),
                ]
            } else {
                seq![]
            },
            Next::DragGain(band, dragged_gain(gain)),
        ),
        None => quiet(s),
    }
}

/// The round that the mouse starts.
pub open spec fn band_round(s: EqModel, event: BandEvent) -> Round {
    match event {
        BandEvent::Pressed { hit: Some(band), now } => quiet(
            EqModel {
                pressed_at: Some(now),
                active_band: Some(band),
                active_band_drag: Some(band),
                view: DrawModel { track_motion: true, active: Some(band), ..s.view },
                ..s
            },
        ),
        BandEvent::Pressed { hit: None, now } => quiet(s),
        BandEvent::Moved { frequency, gain, now } => if s.active_band_drag is Some && held(s, now) {
            drag_round(s, frequency, gain)
        } else {
            quiet(s)
        },
        BandEvent::Released => quiet(
            EqModel {
                pressed_at: None,
                active_band_drag: None,
                view: DrawModel { track_motion: false, ..s.view },
                ..s
            },
        ),
        BandEvent::Scrolled { hit: Some(band), delta } => (
            EqModel { active_band: Some(band), ..s },
            seq![
                eq_message(
                    EQMicrophone::Q(
                        s.eq_mode,
                        band,
                        scrolled_q(s.view.bands[band.place()].q, delta),
                    ),
                ),
            ],
            Next::ShowActive(s.eq_mode, band),
        ),
        BandEvent::Scrolled { hit: None, delta } => quiet(s),
    }
}

/// The round in which the device is sent a setting of the band that is worked on.
pub open spec fn setting_round(s: EqModel, m: EQMicrophone, next: Next) -> Round {
    match s.active_band {
        Some(_) => (s, seq![eq_message(m)], next),
        None => quiet(s),
    }
}

/// The round in which a band that is not enabled is switched on. One without a shape becomes a
/// bell first.
pub open spec fn add_round(s: EqModel, state: EqState) -> Round {
    let mode = state.mode;
    match eq::first_band(state.bands_in(mode), false, 0) {
        Some(band) => {
            let switch = eq_message(EQMicrophone::Enabled(mode, band, true));
            let shape = eq_message(EQMicrophone::Type(mode, band, EQBandType::BellBand));
            (
                s,
                if state.bands_in(mode)[band.place()].band_type == EQBandType::NotSet {
                    seq![shape, switch]
                } else {
                    seq![switch]
                },
                Next::BandAdded(mode, band),
            )
        },
        None => quiet(s),
    }
}

/// The round that an event starts, when the device has its equaliser set to `state`.
pub open spec fn first_round(s: EqModel, event: MicEqualiserEvent, state: EqState) -> Round {
    let band = s.active_band->0;
    match event {
        MicEqualiserEvent::Equaliser(e) => band_round(s, e),
        MicEqualiserEvent::SetAdvanced(enabled) => {
            let mode = if enabled {
                EQMode::Advanced
            } else {
                EQMode::Simple
            };
            (s, seq![eq_message(EQMicrophone::Mode(mode))], Next::ModeChanged(mode))
        },
        MicEqualiserEvent::SetFrequency(frequency) => setting_round(
            s,
            EQMicrophone::Frequency(state.mode, band, number::whole(frequency as nat)),
            Next::ShowCurrent(band),
        ),
        MicEqualiserEvent::SetType(band_type) => setting_round(
            s,
            EQMicrophone::Type(state.mode, band, band_type),
            Next::Show(state.mode, band),
        ),
        MicEqualiserEvent::SetGain(gain) => setting_round(
            s,
            EQMicrophone::Gain(state.mode, band, gain),
            Next::ShowCurrent(band),
        ),
        MicEqualiserEvent::SetQ(q) => setting_round(
            s,
            EQMicrophone::Q(state.mode, band, q),
            Next::ShowCurrent(band),
        ),
        MicEqualiserEvent::LoadDefault => (
            s,
            default_messages(state.mode),
            Next::DefaultLoaded(state.mode),
        ),
        MicEqualiserEvent::AddBand => add_round(s, state),
        MicEqualiserEvent::RemoveBand => setting_round(
            s,
            EQMicrophone::Enabled(state.mode, band, false),
            Next::BandRemoved(state.mode, band),
        ),
        MicEqualiserEvent::CycleVisualizerMode => quiet(
            EqModel {
                view: eq_drawer::with_mode(
                    s.view,
                    eq_drawer::next_mode(s.view.visualizer_mode),
                ),
                ..s
            },
        ),
        MicEqualiserEvent::ToggleGuide(enabled) => quiet(EqModel { show_guide: enabled, ..s }),
    }
}

/// The equaliser with its picture showing what a band is set to in a mode.
pub open spec fn showing(s: EqModel, state: EqState, mode: EQMode, band: EQBand) -> EqModel {
    EqModel {
        view: eq_drawer::with_band(s.view, band, state.bands_in(mode)[band.place()]),
        ..s
    }
}

/// The equaliser with a band to be worked on that has the ring around its point.
pub open spec fn working_on(s: EqModel, active: Option<EQBand>) -> EqModel {
    EqModel { active_band: active, view: DrawModel { active, ..s.view }, ..s }
}

/// The equaliser after the mode has changed. A band that is worked on and not enabled in the new
/// mode makes way for the first that is.
pub open spec fn mode_changed(s: EqModel, state: EqState, mode: EQMode) -> EqModel {
    let bands = state.bands_in(mode);
    EqModel {
        eq_mode: mode,
        view: eq_drawer::with_bands(eq_drawer::without_bands(s.view), bands),
        active_band: match s.active_band {
            Some(band) => if bands[band.place()].enabled {
                Some(band)
            } else {
                eq::first_band(bands, true, 0)
            },
            None => None,
        },
        ..s
    }
}

/// The equaliser after a band has been switched off. The last band that is enabled is worked on
/// next, if there is one.
pub open spec fn band_removed(s: EqModel, state: EqState, mode: EQMode, band: EQBand) -> EqModel {
    let t = match eq::last_enabled(state.bands_in(mode), BAND_COUNT as int) {
        Some(other) => working_on(s, Some(other)),
        None => EqModel { active_band: None, ..s },
    };
    showing(t, state, mode, band)
}

/// The round that follows on a round, when the device has its equaliser set to `state`.
/// `has_gain` says of a band that is being dragged whether its shape has a gain.
pub open spec fn next_round(s: EqModel, next: Next, state: EqState, has_gain: bool) -> Round {
    match next {
        Next::Done => quiet(s),
        Next::ShowCurrent(band) => quiet(showing(s, state, state.mode, band)),
        Next::Show(mode, band) => quiet(showing(s, state, mode, band)),
        Next::ShowActive(mode, band) => quiet(
            working_on(showing(s, state, mode, band), s.active_band),
        ),
        Next::ModeChanged(mode) => quiet(mode_changed(s, state, mode)),
        Next::DefaultLoaded(mode) => quiet(
            working_on(
                EqModel {
                    view: eq_drawer::with_bands(
                        eq_drawer::without_bands(s.view),
                        state.bands_in(mode),
                    ),
                    ..s
                },
                Some(EQBand::Band1),
            ),
        ),
        Next::BandAdded(mode, band) => quiet(
            working_on(showing(s, state, mode, band), Some(band)),
        ),
        Next::BandRemoved(mode, band) => quiet(band_removed(s, state, mode, band)),
        Next::DragGain(band, gain) => (
            s,
            if has_gain {
                seq![eq_message(EQMicrophone::Gain(s.eq_mode, band, gain))]
            } else {
                seq![]
            },
            Next::ShowCurrent(band),
        ),
    }
}

/// The equaliser that shows what a device has its equaliser set to.
pub open spec fn loaded(s: EqModel, state: EqState) -> EqModel {
    let bands = state.bands_in(state.mode);
    let t = if s.active_band is None && eq::first_band(bands, true, 0) is Some {
        working_on(s, eq::first_band(bands, true, 0))
    } else {
        s
    };
    EqModel { eq_mode: state.mode, view: eq_drawer::with_bands(t.view, bands), ..t }
}

fn one(m: EQMicrophone) -> (r: Vec<Message>)
    ensures
        r@ == seq![eq_message(m)],
{
    let r = vec![Message::EQMicrophone(m)];
    assert(r@ =~= seq![eq_message(m)]);
    r
}

fn none() -> (r: Vec<Message>)
    ensures
        r@ == Seq::<Message>::empty(),
{
    Vec::new()
}

fn load_default_state(mode: EQMode) -> (r: Vec<Message>)
    ensures
        r@ == default_messages(mode),
{
    let b1 = EQBand::Band1;
    let b2 = EQBand::Band2;
    let b3 = EQBand::Band3;
    let gain = from_hundredths(0);
    let q = from_hundredths(70);
    let low = from_hundredths(3600);
    let middle = from_hundredths(50000);
    let high = from_hundredths(200000);
    let r = vec![
        Message::EQMicrophone(EQMicrophone::Enabled(mode, b1, true)),
        Message::EQMicrophone(EQMicrophone::Enabled(mode, b2, true)),
        Message::EQMicrophone(EQMicrophone::Enabled(mode, b3, true)),
        Message::EQMicrophone(EQMicrophone::Type(mode, b1, EQBandType::HighPassFilter)),
        Message::EQMicrophone(EQMicrophone::Type(mode, b2, EQBandType::BellBand)),
        Message::EQMicrophone(EQMicrophone::Type(mode, b3, EQBandType::HighShelf)),
        Message::EQMicrophone(EQMicrophone::Frequency(mode, b1, low)),
        Message::EQMicrophone(EQMicrophone::Frequency(mode, b2, middle)),
        Message::EQMicrophone(EQMicrophone::Frequency(mode, b3, high)),
        Message::EQMicrophone(EQMicrophone::Gain(mode, b1, gain)),
        Message::EQMicrophone(EQMicrophone::Gain(mode, b2, gain)),
        Message::EQMicrophone(EQMicrophone::Gain(mode, b3, gain)),
        Message::EQMicrophone(EQMicrophone::Q(mode, b1, q)),
        Message::EQMicrophone(EQMicrophone::Q(mode, b2, q)),
        Message::EQMicrophone(EQMicrophone::Q(mode, b3, q)),
    ];
    assert(r@ =~= default_messages(mode));
    r
}

impl MicEqualiser {
    /// An equaliser without a device.
    pub fn new() -> (r: MicEqualiser)
        ensures
            r@ == deviceless(),
    {
        MicEqualiser {
            eq_mode: EQMode::Simple,
            view: EQDrawView::new(Bands::default()),
            active_band: None,
            active_band_drag: None,
            pressed_at: None,
            show_guide: true,
        }
    }

    /// Forgets what was drawn, and goes back to the simple mode.
    pub fn clear(&mut self)
        ensures
            final(self)@ == (EqModel {
                eq_mode: EQMode::Simple,
                view: eq_drawer::without_bands(
                    eq_drawer::without_spectrum(
                        DrawModel { grid_drawn: false, ..old(self)@.view },
                    ),
                ),
                ..old(self)@
            }),
    {
        self.eq_mode = EQMode::Simple;
        self.view.clear();
    }

    fn handle_drag_event(&mut self, frequency: Scalar, gain: Scalar) -> (r: (Vec<Message>, Next))
        ensures
            (final(self)@, r.0@, r.1) == drag_round(old(self)@, frequency, gain),
    {
        match self.active_band_drag {
            Some(band) => {
                let next = Next::DragGain(band, clamp_gain(gain).to_tenths());
                if self.eq_mode != EQMode::Simple {
                    let f = clamp_frequency(frequency);
                    (one(EQMicrophone::Frequency(self.eq_mode, band, f)), next)
                } else {
                    (none(), next)
                }
            },
            None => (none(), Next::Done),
        }
    }

    fn handle_band_event(&mut self, event: BandEvent) -> (r: (Vec<Message>, Next))
        ensures
            (final(self)@, r.0@, r.1) == band_round(old(self)@, event),
    {
        match event {
            BandEvent::Pressed { hit, now } => {
                if let Some(band) = hit {
                    self.pressed_at = Some(now);
                    self.active_band = Some(band);
                    self.active_band_drag = Some(band);
                    self.view.set_track_motion(true);
                    self.view.set_active(self.active_band);
                }
                (none(), Next::Done)
            },
            BandEvent::Moved { frequency, gain, now } => {
                if self.active_band_drag.is_some() {
                    if let Some(pressed_at) = self.pressed_at {
                        if now >= pressed_at && now - pressed_at >= DRAG_DELAY {
                            return self.handle_drag_event(frequency, gain);
                        }
                    }
                }
                (none(), Next::Done)
            },
            BandEvent::Released => {
                self.pressed_at = None;
                self.active_band_drag = None;
                self.view.set_track_motion(false);
                (none(), Next::Done)
            },
            BandEvent::Scrolled { hit, delta } => {
                if let Some(band) = hit {
                    self.active_band = Some(band);
                    let q = scroll_q(self.view.bands().get(band).q, delta);
                    (
                        one(EQMicrophone::Q(self.eq_mode, band, q)),
                        Next::ShowActive(self.eq_mode, band),
                    )
                } else {
                    (none(), Next::Done)
                }
            },
        }
    }

    /// Starts the round of an event: what the device is to be sent, and what follows.
    pub fn update(&mut self, event: MicEqualiserEvent, state: &EqState) -> (r: (
        Vec<Message>,
        Next,
    ))
        ensures
            (final(self)@, r.0@, r.1) == first_round(old(self)@, event, *state),
    {
        match event {
            MicEqualiserEvent::Equaliser(e) => self.handle_band_event(e),
            MicEqualiserEvent::SetAdvanced(enabled) => {
                let mode = if enabled {
                    EQMode::Advanced
                } else {
                    EQMode::Simple
                };
                (one(EQMicrophone::Mode(mode)), Next::ModeChanged(mode))
            },
            MicEqualiserEvent::SetFrequency(frequency) => match self.active_band {
                Some(band) => (
                    one(EQMicrophone::Frequency(state.mode, band, from_whole(frequency))),
                    Next::ShowCurrent(band),
                ),
                None => (none(), Next::Done),
            },
            MicEqualiserEvent::SetType(band_type) => match self.active_band {
                Some(band) => (
                    one(EQMicrophone::Type(state.mode, band, band_type)),
                    Next::Show(state.mode, band),
                ),
                None => (none(), Next::Done),
            },
            MicEqualiserEvent::SetGain(gain) => match self.active_band {
                Some(band) => (
                    one(EQMicrophone::Gain(state.mode, band, gain)),
                    Next::ShowCurrent(band),
                ),
                None => (none(), Next::Done),
            },
            MicEqualiserEvent::SetQ(q) => match self.active_band {
                Some(band) => (
                    one(EQMicrophone::Q(state.mode, band, q)),
                    Next::ShowCurrent(band),
                ),
                None => (none(), Next::Done),
            },
            MicEqualiserEvent::LoadDefault => (
                load_default_state(state.mode),
                Next::DefaultLoaded(state.mode),
            ),
            MicEqualiserEvent::AddBand => {
                let mode = state.mode;
                let bands = state.bands(mode);
                match bands.first(false) {
                    Some(band) => {
                        let mut messages: Vec<Message> = Vec::new();
                        if bands.get(band).band_type == EQBandType::NotSet {
                            messages.push(
                                Message::EQMicrophone(
                                    EQMicrophone::Type(mode, band, EQBandType::BellBand),
                                ),
                            );
                        }
                        messages.push(
                            Message::EQMicrophone(EQMicrophone::Enabled(mode, band, true)),
                        );
                        assert(messages@ =~= add_round(self@, *state).1);
                        (messages, Next::BandAdded(mode, band))
                    },
                    None => (none(), Next::Done),
                }
            },
            MicEqualiserEvent::RemoveBand => match self.active_band {
                Some(band) => (
                    one(EQMicrophone::Enabled(state.mode, band, false)),
                    Next::BandRemoved(state.mode, band),
                ),
                None => (none(), Next::Done),
            },
            MicEqualiserEvent::CycleVisualizerMode => {
                let _ = self.view.cycle_visualizer_mode();
                (none(), Next::Done)
            },
            MicEqualiserEvent::ToggleGuide(enabled) => {
                self.show_guide = enabled;
                (none(), Next::Done)
            },
        }
    }

    fn show(&mut self, state: &EqState, mode: EQMode, band: EQBand)
        ensures
            final(self)@ == showing(old(self)@, *state, mode, band),
    {
        self.view.set_band(band, state.bands(mode).get(band));
    }

    fn work_on(&mut self, active: Option<EQBand>)
        ensures
            final(self)@ == working_on(old(self)@, active),
    {
        self.active_band = active;
        self.view.set_active(active);
    }

    fn change_mode(&mut self, state: &EqState, mode: EQMode)
        ensures
            final(self)@ == mode_changed(old(self)@, *state, mode),
    {
        let bands = state.bands(mode);
        self.eq_mode = mode;
        self.view.invalidate_all();
        self.view.set_bands(bands);
        if let Some(band) = self.active_band {
            if !bands.get(band).enabled {
                self.active_band = bands.first(true);
            }
        }
    }

    fn remove_band(&mut self, state: &EqState, mode: EQMode, band: EQBand)
        ensures
            final(self)@ == band_removed(old(self)@, *state, mode, band),
    {
        self.active_band = None;
        if let Some(other) = state.bands(mode).last() {
            self.work_on(Some(other));
        }
        self.show(state, mode, band);
    }

    /// Goes on with a round, once the device has been sent its settings.
    pub fn resume(&mut self, next: Next, state: &EqState, has_gain: bool) -> (r: (
        Vec<Message>,
        Next,
    ))
        ensures
            (final(self)@, r.0@, r.1) == next_round(old(self)@, next, *state, has_gain),
    {
        match next {
            Next::Done => {},
            Next::ShowCurrent(band) => {
                self.show(state, state.mode, band);
            },
            Next::Show(mode, band) => {
                self.show(state, mode, band);
            },
            Next::ShowActive(mode, band) => {
                self.show(state, mode, band);
                let active = self.active_band;
                self.work_on(active);
            },
            Next::ModeChanged(mode) => {
                self.change_mode(state, mode);
            },
            Next::DefaultLoaded(mode) => {
                self.view.invalidate_all();
                self.view.set_bands(state.bands(mode));
                self.work_on(Some(EQBand::Band1));
            },
            Next::BandAdded(mode, band) => {
                self.show(state, mode, band);
                self.work_on(Some(band));
            },
            Next::BandRemoved(mode, band) => {
                self.remove_band(state, mode, band);
            },
            Next::DragGain(band, gain) => {
                if has_gain {
                    return (
                        one(EQMicrophone::Gain(self.eq_mode, band, gain)),
                        Next::ShowCurrent(band),
                    );
                }
                return (none(), Next::ShowCurrent(band));
            },
        }
        (none(), Next::Done)
    }

    /// Shows what a device has its equaliser set to.
    pub fn load_device(&mut self, state: &EqState)
        ensures
            final(self)@ == loaded(old(self)@, *state),
    {
        let bands = state.bands(state.mode);
        if self.active_band.is_none() {
            if let Some(band) = bands.first(true) {
                self.active_band = Some(band);
                self.view.set_active(self.active_band);
            }
        }
        self.view.set_bands(bands);
        self.eq_mode = state.mode;
    }

    /// Sets the spectrum.
    pub fn set_spectrum_data(&mut self, data: Vec<Scalar>)
        ensures
            final(self)@ == (EqModel {
                view: DrawModel {
                    spectrum_bins: data@,
                    spectrum_drawn: false,
                    curve_drawn: old(self)@.view.curve_drawn && old(self)@.view.visualizer_mode
                        == EqVisualizerMode::Static,
                    ..old(self)@.view
                },
                ..old(self)@
            }),
    {
        self.view.set_spectrum(data);
    }

    /// Takes the spectrum away.
    pub fn clear_spectrum_data(&mut self)
        ensures
            final(self)@ == (EqModel {
                view: eq_drawer::without_spectrum(old(self)@.view),
                ..old(self)@
            }),
    {
        self.view.clear_spectrum();
    }
}

/// Where a button stands in a row of buttons.
#[derive(Clone, Copy, Debug, PartialEq, Eq, Structural)]
pub enum Edge {
    First,
    Middle,
    Last,
}

/// A control of the equaliser.
#[derive(Clone, Copy, Debug, PartialEq, Eq, Structural)]
pub enum Control {
    /// Whether the advanced mode is on.
    Advanced(bool),
    /// Whether the guide is shown.
    Guide(bool),
    /// How the curve is drawn.
    Visual(EqVisualizerMode),
    /// A button for a shape, and whether the band has it.
    Shape { band_type: EQBandType, selected: bool, edge: Edge },
    /// The frequency, in Hz.
    Frequency(u32),
    /// The gain, in dB, and whether it can be changed.
    Gain { value: Scalar, enabled: bool },
    Q(Scalar),
    /// Whether a band can be added.
    AddBand(bool),
    /// Whether a band can be removed.
    RemoveBand(bool),
    LoadDefault,
    /// A line between controls.
    Rule,
}

impl EQBandType {
    /// The picture on the button for the shape.
    pub open spec fn picture(self) -> Seq<char> {
        match self {
            EQBandType::LowPassFilter => "eq_low_pass"@,
            EQBandType::HighPassFilter => "eq_high_pass"@,
            EQBandType::NotchFilter => "eq_notch"@,
            EQBandType::BellBand => "eq_bell"@,
            EQBandType::LowShelf => "eq_low_shelf"@,
            EQBandType::HighShelf => "eq_high_shelf"@,
            EQBandType::NotSet => ""@,
        }
    }

    /// The picture on the button for the shape.
    pub fn icon(self) -> (r: &'static str)
        ensures
            r@ == self.picture(),
    {
        match self {
            EQBandType::LowPassFilter => "eq_low_pass",
            EQBandType::HighPassFilter => "eq_high_pass",
            EQBandType::NotchFilter => "eq_notch",
            EQBandType::BellBand => "eq_bell",
            EQBandType::LowShelf => "eq_low_shelf",
            EQBandType::HighShelf => "eq_high_shelf",
            EQBandType::NotSet => "",
        }
    }
}

impl EqVisualizerMode {
    /// What the button for the way of drawing says.
    pub open spec fn text(self) -> Seq<char> {
        match self {
            EqVisualizerMode::Static => "Visual: Static"@,
            EqVisualizerMode::BeacnBallistics => "Visual: BEACN"@,
        }
    }

    /// What the button for the way of drawing says.
    pub fn label(self) -> (r: &'static str)
        ensures
            r@ == self.text(),
    {
        match self {
            EqVisualizerMode::Static => "Visual: Static",
            EqVisualizerMode::BeacnBallistics => "Visual: BEACN",
        }
    }
}

/// The shapes that there are buttons for, in order.
pub open spec fn button_shapes() -> Seq<EQBandType> {
    seq![
        EQBandType::LowPassFilter,
        EQBandType::HighPassFilter,
        EQBandType::NotchFilter,
        EQBandType::BellBand,
        EQBandType::LowShelf,
        EQBandType::HighShelf,
    ]
}

/// The button for the shape at the place `i`, for a band that has the shape `current`.
pub open spec fn shape_button(current: EQBandType, i: int) -> Control {
    let band_type = button_shapes()[i];
    Control::Shape {
        band_type,
        selected: current == band_type,
        edge: if i == 0 {
            Edge::First
        } else if i == 5 {
            Edge::Last
        } else {
            Edge::Middle
        },
    }
}

/// The gain of a band as it is shown: nothing if its shape has none.
pub open spec fn shown_gain(config: EqualiserBandConfig, has_gain: bool) -> Control {
    Control::Gain {
        value: if has_gain {
            config.gain
        } else {
            Scalar { bits: 0 }
        },
        enabled: has_gain,
    }
}

/// The controls for the band that is worked on.
pub open spec fn band_controls(
    config: EqualiserBandConfig,
    advanced: bool,
    has_gain: bool,
) -> Seq<Control> {
    let rule = seq![Control::Rule];
    let shapes = if advanced {
        Seq::new(6, |i: int| shape_button(config.band_type, i)) + rule + seq![
            Control::Frequency(config.frequency),
        ] + rule
    } else {
        seq![]
    };
    let q = if advanced {
        seq![Control::Q(config.q)] + rule
    } else {
        seq![]
    };
    shapes + seq![shown_gain(config, has_gain)] + rule + q
}

/// Whether a band of the picture is enabled or not, as `enabled` asks.
pub open spec fn has_band(bands: Seq<EqualiserBandConfig>, enabled: bool) -> bool {
    eq::first_band(bands, enabled, 0) is Some
}

/// The controls of the equaliser, in order. In the simple mode only the gain of the band that is
/// worked on can be changed; where no band is worked on, the default can be loaded.
pub open spec fn controls(s: EqModel, state: EqState, has_gain: bool) -> Seq<Control> {
    let advanced = state.mode == EQMode::Advanced;
    let rule = seq![Control::Rule];
    let always = seq![Control::Advanced(advanced)] + rule + seq![Control::Guide(s.show_guide)]
        + rule + seq![Control::Visual(s.view.visualizer_mode)] + rule;
    let band = match s.active_band {
        Some(b) => band_controls(state.bands_in(state.mode)[b.place()], advanced, has_gain),
        None => seq![],
    };
    let add = if advanced {
        seq![Control::AddBand(has_band(s.view.bands, false))]
    } else {
        seq![]
    };
    let remove = if advanced && s.active_band is Some {
        seq![Control::RemoveBand(has_band(s.view.bands, true))]
    } else {
        seq![]
    };
    let default = if s.active_band is None {
        seq![Control::LoadDefault]
    } else {
        seq![]
    };
    always + band + add + remove + default
}

fn push_shapes(out: &mut Vec<Control>, current: EQBandType)
    ensures
        final(out)@ == old(out)@ + Seq::new(6, |i: int| shape_button(current, i)),
{
    let ghost start = out@;
    let shapes = [
        EQBandType::LowPassFilter,
        EQBandType::HighPassFilter,
        EQBandType::NotchFilter,
        EQBandType::BellBand,
        EQBandType::LowShelf,
        EQBandType::HighShelf,
    ];
    assert(shapes@ =~= button_shapes());
    let mut i: usize = 0;
    while i < 6
        invariant
            i <= 6,
            shapes@ == button_shapes(),
            out@ == start + Seq::new(i as nat, |i: int| shape_button(current, i)),
        decreases 6 - i,
    {
        let band_type = shapes[i];
        let edge = if i == 0 {
            Edge::First
        } else if i == 5 {
            Edge::Last
        } else {
            Edge::Middle
        };
        out.push(Control::Shape { band_type, selected: current == band_type, edge });
        assert(out@ =~= start + Seq::new(i as nat + 1, |i: int| shape_button(current, i)));
        i = i + 1;
    }
}

fn push_band_controls(
    out: &mut Vec<Control>,
    config: &EqualiserBandConfig,
    advanced: bool,
    has_gain: bool,
)
    ensures
        final(out)@ == old(out)@ + band_controls(*config, advanced, has_gain),
{
    let ghost start = out@;
    if advanced {
        push_shapes(out, config.band_type);
        out.push(Control::Rule);
        out.push(Control::Frequency(config.frequency));
        out.push(Control::Rule);
    }
    let value = if has_gain {
        config.gain
    } else {
        Scalar { bits: 0 }
    };
    out.push(Control::Gain { value, enabled: has_gain });
    out.push(Control::Rule);
    if advanced {
        out.push(Control::Q(config.q));
        out.push(Control::Rule);
    }
    assert(out@ =~= start + band_controls(*config, advanced, has_gain));
}

impl MicEqualiser {
    /// The controls of the equaliser, in order. `has_gain` says of the band that is worked on
    /// whether its shape has a gain.
    pub fn eq_controls(&self, state: &EqState, has_gain: bool) -> (r: Vec<Control>)
        ensures
            r@ == controls(self@, *state, has_gain),
    {
        let advanced = state.mode == EQMode::Advanced;
        let mut out: Vec<Control> = Vec::new();
        out.push(Control::Advanced(advanced));
        out.push(Control::Rule);
        out.push(Control::Guide(self.show_guide));
        out.push(Control::Rule);
        out.push(Control::Visual(self.view.visualizer_mode()));
        out.push(Control::Rule);
        if let Some(band) = self.active_band {
            let config = state.bands(state.mode).get(band);
            push_band_controls(&mut out, &config, advanced, has_gain);
        }
        let bands = self.view.bands();
        if advanced {
            out.push(Control::AddBand(bands.first(false).is_some()));
            if self.active_band.is_some() {
                out.push(Control::RemoveBand(bands.first(true).is_some()));
            }
        }
        if self.active_band.is_none() {
            out.push(Control::LoadDefault);
        }
        assert(out@ =~= controls(self@, *state, has_gain));
        out
    }
}

/// A round that follows is the last, or the one after it is.
pub proof fn rounds_end(
    s: EqModel,
    next: Next,
    state: EqState,
    has_gain: bool,
    later: EqState,
    later_gain: bool,
)
    ensures
        ({
            let second = next_round(s, next, state, has_gain);
            next_round(second.0, second.2, later, later_gain).2 == Next::Done
        }),
{
}

/// Nothing is dragged until the button has been held for long enough on the point of a band, and
/// nothing once it has been released.
pub proof fn drags_are_held(
    s: EqModel,
    band: EQBand,
    pressed: u64,
    frequency: Scalar,
    gain: Scalar,
    now: u64,
)
    ensures
        ({
            let t = band_round(s, BandEvent::Pressed { hit: Some(band), now: pressed }).0;
            let moved = band_round(t, BandEvent::Moved { frequency, gain, now });
            &&& now - pressed < DRAG_DELAY ==> moved == quiet(t)
            &&& now - pressed >= DRAG_DELAY ==> moved == drag_round(t, frequency, gain)
                && t.active_band_drag == Some(band)
        }),
        ({
            let t = band_round(s, BandEvent::Released).0;
            band_round(t, BandEvent::Moved { frequency, gain, now }) == quiet(t)
        }),
{
}

/// In the simple mode dragging sends no frequency.
pub proof fn simple_drags_keep_frequency(s: EqModel, frequency: Scalar, gain: Scalar)
    requires
        s.eq_mode == EQMode::Simple,
    ensures
        drag_round(s, frequency, gain).1.len() == 0,
{
}

/// After a band has been removed, the band that is worked on is enabled, and there is none only
/// where no band is enabled; so it is after the mode has changed, if one was worked on before.
pub proof fn worked_on_is_enabled(s: EqModel, state: EqState, mode: EQMode, band: EQBand)
    ensures
        match band_removed(s, state, mode, band).active_band {
            Some(b) => state.bands_in(mode)[b.place()].enabled,
            None => forall|i: int|
                0 <= i < BAND_COUNT ==> !(#[trigger] state.bands_in(mode)[i]).enabled,
        },
        s.active_band is Some ==> match mode_changed(s, state, mode).active_band {
            Some(b) => state.bands_in(mode)[b.place()].enabled,
            None => forall|i: int|
                0 <= i < BAND_COUNT ==> !(#[trigger] state.bands_in(mode)[i]).enabled,
        },
{
    eq::last_enabled_is_last(state.bands_in(mode), BAND_COUNT as int);
    eq::first_band_is_first(state.bands_in(mode), true, 0);
}

/// A band that is added was not enabled, and no band before it was; all that is sent is about it.
pub proof fn first_free_band_is_added(s: EqModel, state: EqState)
    ensures
        match add_round(s, state).2 {
            Next::BandAdded(mode, band) => {
                &&& mode == state.mode
                &&& !state.bands_in(mode)[band.place()].enabled
                &&& forall|i: int|
                    0 <= i < band.place() ==> (#[trigger] state.bands_in(mode)[i]).enabled
                &&& add_round(s, state).1.last() == eq_message(
                    EQMicrophone::Enabled(mode, band, true),
                )
            },
            _ => forall|i: int|
                0 <= i < BAND_COUNT ==> (#[trigger] state.bands_in(state.mode)[i]).enabled,
        },
{
    eq::first_band_is_first(state.bands_in(state.mode), false, 0);
}

} // verus!
