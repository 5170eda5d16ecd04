//! What holds of the equaliser of a microphone whatever is done to it: what the device is sent, and
//! what the picture shows of the device.

use vstd::arithmetic::power2::lemma2_to64;
use vstd::arithmetic::power2::lemma_pow2_adds;
use vstd::arithmetic::power2::lemma_pow2_pos;
use vstd::arithmetic::power2::pow2;
use vstd::prelude::*;

use crate::eq::EQBand;
use crate::eq::EQBandType;
use crate::eq::EQMode;
use crate::eq::EqualiserBandConfig;
use crate::eq;
use crate::eq_drawer::ScrollDelta;
use crate::ipc::HIGHEST_FREQUENCY;
use crate::ipc::LOWEST_FREQUENCY;
use crate::ipc;
use crate::messages::EQMicrophone;
use crate::messages::Message;
use crate::mic_equaliser::BandEvent;
use crate::mic_equaliser::Control;
use crate::mic_equaliser::EqModel;
use crate::mic_equaliser::EqState;
use crate::mic_equaliser::MicEqualiserEvent;
use crate::mic_equaliser::Next;
use crate::mic_equaliser;
use crate::number;
use crate::scalar::Scalar;

verus! {

/// One of the two sets of bands that a device keeps.
pub open spec fn kept(state: EqState, mode: EQMode) -> Seq<EqualiserBandConfig> {
    if mode == EQMode::Simple {
        state.simple.slots@
    } else {
        state.advanced.slots@
    }
}

/// Whether a band is the first of those that are enabled.
pub open spec fn leads(bands: Seq<EqualiserBandConfig>, band: EQBand) -> bool {
    &&& bands[band.place()].enabled
    &&& forall|i: int| 0 <= i < band.place() ==> !(#[trigger] bands[i]).enabled
}

/// Whether no band is enabled.
pub open spec fn all_off(bands: Seq<EqualiserBandConfig>) -> bool {
    forall|i: int| 0 <= i < 9 ==> !(#[trigger] bands[i]).enabled
}

/// Whether a setting is one of a band in a mode.
pub open spec fn concerns(m: Message, mode: EQMode, band: EQBand) -> bool {
    match m {
        Message::EQMicrophone(EQMicrophone::Type(x, b, _)) => x == mode && b == band,
        Message::EQMicrophone(EQMicrophone::Frequency(x, b, _)) => x == mode && b == band,
        Message::EQMicrophone(EQMicrophone::Gain(x, b, _)) => x == mode && b == band,
        Message::EQMicrophone(EQMicrophone::Q(x, b, _)) => x == mode && b == band,
        Message::EQMicrophone(EQMicrophone::Enabled(x, b, _)) => x == mode && b == band,
        _ => false,
    }
}

/// Whether the picture shows a band as a set of bands has it, and every other band as before, and
/// nothing that was drawn of that band holds.
pub open spec fn shows_band(
    t: EqModel,
    s: EqModel,
    band: EQBand,
    bands: Seq<EqualiserBandConfig>,
) -> bool {
    &&& t.view.bands.len() == s.view.bands.len()
    &&& t.view.bands[band.place()] == bands[band.place()]
    &&& forall|i: int|
        0 <= i < 9 && i != band.place() ==> #[trigger] t.view.bands[i] == s.view.bands[i]
    &&& !t.view.bands_drawn[band.place()]
    &&& !t.view.responses_known[band.place()]
    &&& !t.view.curve_drawn
}

/// Whether the picture shows all bands as a set of bands has them, and nothing that was drawn of
/// the bands holds.
pub open spec fn shows_all(t: EqModel, bands: Seq<EqualiserBandConfig>) -> bool {
    &&& t.view.bands.len() == 9
    &&& forall|i: int| 0 <= i < 9 ==> #[trigger] t.view.bands[i] == bands[i]
    &&& forall|i: int| 0 <= i < 9 ==> !(#[trigger] t.view.bands_drawn[i])
    &&& forall|i: int| 0 <= i < 9 ==> !(#[trigger] t.view.responses_known[i])
    &&& !t.view.curve_drawn
}

/// Whether the picture has as many bands as the device.
pub open spec fn whole_picture(s: EqModel) -> bool {
    s.view.bands.len() == 9 && s.view.bands_drawn.len() == 9 && s.view.responses_known.len() == 9
}

/// The equaliser of a device that is loaded is the one that is heard: the picture shows every band
/// as the device has it in the mode that the device is in, and the equaliser is in that mode. A
/// band that was worked on still is; where none was, it is the first that is enabled in that mode,
/// with the ring around its point, or none if none is. Nothing else changes.
pub proof fn heard_bands_are_shown(s: EqModel, state: EqState)
    ensures
        ({
            let t = mic_equaliser::loaded(s, state);
            &&& state.mode == EQMode::Simple ==> shows_all(t, state.simple.slots@)
            &&& state.mode == EQMode::Advanced ==> shows_all(t, state.advanced.slots@)
            &&& t.eq_mode == state.mode
            &&& s.active_band is Some ==> t.active_band == s.active_band && t.view.active
                == s.view.active
            &&& s.active_band is None ==> match t.active_band {
                Some(band) => leads(kept(state, state.mode), band) && t.view.active == Some(band),
                None => all_off(kept(state, state.mode)) && t.view.active == s.view.active,
            }
            &&& t.active_band_drag == s.active_band_drag
            &&& t.pressed_at == s.pressed_at
            &&& t.show_guide == s.show_guide
            &&& t.view.grid_drawn == s.view.grid_drawn
            &&& t.view.spectrum_bins == s.view.spectrum_bins
            &&& t.view.spectrum_drawn == s.view.spectrum_drawn
            &&& t.view.visualizer_mode == s.view.visualizer_mode
            &&& t.view.track_motion == s.view.track_motion
            &&& t.view.bounds == s.view.bounds
        }),
{
    eq::first_band_is_first(kept(state, state.mode), true, 0);
}

proof fn ends_of_frequencies()
    ensures
        (Scalar { bits: LOWEST_FREQUENCY }).units() == 20 * pow2(149),
        (Scalar { bits: HIGHEST_FREQUENCY }).units() == 20000 * pow2(149),
        !(Scalar { bits: LOWEST_FREQUENCY }).nan(),
        !(Scalar { bits: HIGHEST_FREQUENCY }).nan(),
        pow2(149) > 0,
{
    let low = Scalar { bits: LOWEST_FREQUENCY };
    let high = Scalar { bits: HIGHEST_FREQUENCY };
    lemma2_to64();
    lemma_pow2_pos(149);
    lemma_pow2_adds(19, 130);
    lemma_pow2_adds(9, 140);
    assert(low.exponent() == 131);
    assert(low.significand() == 0xA0_0000);
    assert(0xA0_0000 * pow2(130) == 20 * (0x8_0000 * pow2(130)));
    assert(high.exponent() == 141);
    assert(high.significand() == 0x9C_4000);
    assert(0x9C_4000 * pow2(140) == 20000 * (0x200 * pow2(140)));
}

/// A frequency from 20 to 20000 Hz stays what it is; a lower one becomes 20 and a higher one 20000.
pub proof fn frequencies_in_range_stay(f: Scalar)
    requires
        !f.nan(),
    ensures
        20 * pow2(149) <= f.units() <= 20000 * pow2(149) ==> ipc::frequency_in_range(f) == f,
        f.units() < 20 * pow2(149) ==> ipc::frequency_in_range(f).units() == 20 * pow2(149),
        f.units() > 20000 * pow2(149) ==> ipc::frequency_in_range(f).units() == 20000 * pow2(149),
        !ipc::frequency_in_range(f).nan(),
{
    ends_of_frequencies();
}

/// A band that is dragged in the advanced mode goes to the frequency that the cursor is at, or the
/// nearest from 20 to 20000 Hz: that is the one setting that is sent, and it is sent for the band
/// that the button was pressed on. In the simple mode none is sent. The gain that the cursor is at
/// follows.
pub proof fn drags_send_the_frequency(
    s: EqModel,
    band: EQBand,
    pressed: u64,
    frequency: Scalar,
    gain: Scalar,
    now: u64,
    state: EqState,
)
    requires
        !frequency.nan(),
        now - pressed >= 80_000_000,
    ensures
        ({
            let press = BandEvent::Pressed { hit: Some(band), now: pressed };
            let move_to = BandEvent::Moved { frequency, gain, now };
            let t = mic_equaliser::first_round(s, MicEqualiserEvent::Equaliser(press), state).0;
            let (u, sent, next) = mic_equaliser::first_round(
                t,
                MicEqualiserEvent::Equaliser(move_to),
                state,
            );
            &&& u == t
            &&& s.eq_mode == EQMode::Simple ==> sent.len() == 0
            &&& s.eq_mode == EQMode::Advanced ==> {
                &&& sent.len() == 1
                &&& sent[0] matches Message::EQMicrophone(EQMicrophone::Frequency(mode, b, f))
                &&& mode == EQMode::Advanced
                &&& b == band
                &&& 20 * pow2(149) <= frequency.units() <= 20000 * pow2(149) ==> f == frequency
                &&& frequency.units() < 20 * pow2(149) ==> f.units() == 20 * pow2(149)
                &&& frequency.units() > 20000 * pow2(149) ==> f.units() == 20000 * pow2(149)
            }
            &&& next matches Next::DragGain(b, g) && b == band && g == mic_equaliser::dragged_gain(
                gain,
            )
        }),
{
    ends_of_frequencies();
}

/// Once a drag has sent the frequency, the gain follows for the same band if its shape has one, and
/// nothing else; then the picture shows that band as the device has it by then.
pub proof fn drags_send_the_gain(
    s: EqModel,
    band: EQBand,
    gain: Scalar,
    state: EqState,
    has_gain: bool,
    later: EqState,
    later_gain: bool,
)
    requires
        whole_picture(s),
    ensures
        ({
            let (t, sent, next) = mic_equaliser::next_round(
                s,
                Next::DragGain(band, gain),
                state,
                has_gain,
            );
            let (u, more, end) = mic_equaliser::next_round(t, next, later, later_gain);
            &&& t == s
            &&& !has_gain ==> sent.len() == 0
            &&& has_gain ==> sent.len() == 1 && sent[0] == Message::EQMicrophone(
                EQMicrophone::Gain(s.eq_mode, band, gain),
            )
            &&& more.len() == 0
            &&& end == Next::Done
            &&& shows_band(u, s, band, kept(later, later.mode))
            &&& u.active_band == s.active_band
        }),
{
    eq::bands_have_places(band, 0);
}

/// Pressing the button on a band starts to work on it, and on no other; pressing it beside the
/// bands does nothing.
pub proof fn pressing_picks_the_band(s: EqModel, band: EQBand, now: u64, state: EqState)
    ensures
        ({
            let press = BandEvent::Pressed { hit: Some(band), now };
            let (t, sent, next) = mic_equaliser::first_round(
                s,
                MicEqualiserEvent::Equaliser(press),
                state,
            );
            &&& sent.len() == 0 && next == Next::Done
            &&& t.active_band == Some(band)
            &&& t.active_band_drag == Some(band)
            &&& t.view.active == Some(band)
            &&& t.view.track_motion
            &&& t.pressed_at == Some(now)
            &&& t.view.bands == s.view.bands
            &&& t.eq_mode == s.eq_mode
        }),
        ({
            let beside = MicEqualiserEvent::Equaliser(BandEvent::Pressed { hit: None, now });
            mic_equaliser::first_round(s, beside, state) == (s, Seq::<Message>::empty(), Next::Done)
        }),
{
}

/// Releasing the button ends a drag and leaves the band that is worked on.
pub proof fn releasing_ends_the_drag(s: EqModel, state: EqState)
    ensures
        ({
            let (t, sent, next) = mic_equaliser::first_round(
                s,
                MicEqualiserEvent::Equaliser(BandEvent::Released),
                state,
            );
            &&& sent.len() == 0 && next == Next::Done
            &&& t.active_band == s.active_band
            &&& t.active_band_drag is None
            &&& t.pressed_at is None
            &&& !t.view.track_motion
            &&& t.view.active == s.view.active
            &&& t.view.bands == s.view.bands
            &&& t.eq_mode == s.eq_mode
        }),
{
}

/// The wheel changes the Q of the band that it is turned on, from what the picture shows of that
/// band, in the mode of the picture, and of no other; that band is worked on then. Beside the bands
/// it does nothing.
pub proof fn wheel_turns_the_band(
    s: EqModel,
    band: EQBand,
    delta: ScrollDelta,
    state: EqState,
    later: EqState,
    has_gain: bool,
)
    requires
        whole_picture(s),
    ensures
        ({
            let turn = BandEvent::Scrolled { hit: Some(band), delta };
            let (t, sent, next) = mic_equaliser::first_round(
                s,
                MicEqualiserEvent::Equaliser(turn),
                state,
            );
            let (u, more, end) = mic_equaliser::next_round(t, next, later, has_gain);
            &&& sent.len() == 1
            &&& sent[0] matches Message::EQMicrophone(EQMicrophone::Q(mode, b, q))
            &&& mode == s.eq_mode && b == band
            &&& q == mic_equaliser::scrolled_q(s.view.bands[band.place()].q, delta)
            &&& t.active_band == Some(band)
            &&& t.view == s.view
            &&& more.len() == 0 && end == Next::Done
            &&& shows_band(u, s, band, kept(later, s.eq_mode))
            &&& u.active_band == Some(band)
            &&& u.view.active == Some(band)
        }),
        ({
            let beside = MicEqualiserEvent::Equaliser(BandEvent::Scrolled { hit: None, delta });
            mic_equaliser::first_round(s, beside, state) == (s, Seq::<Message>::empty(), Next::Done)
        }),
{
    eq::bands_have_places(band, 0);
}

/// A control sets what it is for, of the band that is worked on and in the mode that the device is
/// in, to the value that it was given, and nothing else; then the picture shows that band as the
/// device has it in that mode. Without a band that is worked on, nothing happens.
pub proof fn controls_set_the_band(
    s: EqModel,
    event: MicEqualiserEvent,
    state: EqState,
    later: EqState,
    has_gain: bool,
)
    requires
        event is SetFrequency || event is SetType || event is SetGain || event is SetQ,
        later.mode == state.mode,
        whole_picture(s),
    ensures
        ({
            let (t, sent, next) = mic_equaliser::first_round(s, event, state);
            let (u, more, end) = mic_equaliser::next_round(t, next, later, has_gain);
            &&& t == s
            &&& s.active_band is None ==> sent.len() == 0 && next == Next::Done
            &&& s.active_band matches Some(band) ==> {
                &&& sent.len() == 1
                &&& concerns(sent[0], state.mode, band)
                &&& match (event, sent[0]) {
                    (
                        MicEqualiserEvent::SetFrequency(hz),
                        Message::EQMicrophone(EQMicrophone::Frequency(_, _, f)),
                    ) => f == number::whole(hz as nat),
                    (
                        MicEqualiserEvent::SetType(shape),
                        Message::EQMicrophone(EQMicrophone::Type(_, _, x)),
                    ) => x == shape,
                    (
                        MicEqualiserEvent::SetGain(gain),
                        Message::EQMicrophone(EQMicrophone::Gain(_, _, x)),
                    ) => x == gain,
                    (
                        MicEqualiserEvent::SetQ(q),
                        Message::EQMicrophone(EQMicrophone::Q(_, _, x)),
                    ) => x == q,
                    _ => false,
                }
                &&& more.len() == 0 && end == Next::Done
                &&& shows_band(u, s, band, kept(later, state.mode))
                &&& u.active_band == Some(band)
            }
        }),
{
    if let Some(band) = s.active_band {
        eq::bands_have_places(band, 0);
    }
}

/// Asking for a mode sends that mode and nothing else; then the picture shows every band as the
/// device has it in that mode. A band that is worked on and not enabled there makes way for the
/// first that is.
pub proof fn asked_mode_is_shown(s: EqModel, on: bool, state: EqState, later: EqState, g: bool)
    ensures
        ({
            let mode = if on {
                EQMode::Advanced
            } else {
                EQMode::Simple
            };
            let (t, sent, next) = mic_equaliser::first_round(
                s,
                MicEqualiserEvent::SetAdvanced(on),
                state,
            );
            let (u, more, end) = mic_equaliser::next_round(t, next, later, g);
            let bands = if on {
                later.advanced.slots@
            } else {
                later.simple.slots@
            };
            &&& t == s
            &&& sent.len() == 1 && sent[0] == Message::EQMicrophone(EQMicrophone::Mode(mode))
            &&& more.len() == 0 && end == Next::Done
            &&& u.eq_mode == mode
            &&& shows_all(u, bands)
            &&& match (s.active_band, u.active_band) {
                (Some(band), Some(b)) => if bands[band.place()].enabled {
                    b == band
                } else {
                    leads(bands, b)
                },
                (Some(_), None) => all_off(bands),
                (None, b) => b is None,
            }
        }),
{
    let bands = if on {
        later.advanced.slots@
    } else {
        later.simple.slots@
    };
    eq::first_band_is_first(bands, true, 0);
    if let Some(band) = s.active_band {
        eq::bands_have_places(band, 0);
    }
}

/// The default sets the first three bands in the mode that the device is in, and no other: a high
/// pass at 36 Hz, a bell at 500 Hz and a high shelf at 2000 Hz, each switched on, without gain and
/// with a Q of 0.7. Then the picture shows all bands, and the first is worked on.
pub proof fn default_sets_three_bands(
    s: EqModel,
    state: EqState,
    later: EqState,
    g: bool,
    band: EQBand,
    k: int,
)
    ensures
        ({
            let (t, sent, next) = mic_equaliser::first_round(
                s,
                MicEqualiserEvent::LoadDefault,
                state,
            );
            let (u, more, end) = mic_equaliser::next_round(t, next, later, g);
            let set = |m: EQMicrophone| sent.contains(Message::EQMicrophone(m));
            let mode = state.mode;
            &&& t == s
            &&& 0 <= k < sent.len() ==> concerns(sent[k], mode, EQBand::Band1) || concerns(
                sent[k],
                mode,
                EQBand::Band2,
            ) || concerns(sent[k], mode, EQBand::Band3)
            &&& sent.len() == 15
            &&& band == EQBand::Band1 || band == EQBand::Band2 || band == EQBand::Band3 ==> {
                &&& set(EQMicrophone::Enabled(mode, band, true))
                &&& set(EQMicrophone::Gain(mode, band, number::hundredths(0)))
                &&& set(EQMicrophone::Q(mode, band, number::hundredths(70)))
            }
            &&& set(EQMicrophone::Type(mode, EQBand::Band1, EQBandType::HighPassFilter))
            &&& set(EQMicrophone::Type(mode, EQBand::Band2, EQBandType::BellBand))
            &&& set(EQMicrophone::Type(mode, EQBand::Band3, EQBandType::HighShelf))
            &&& set(EQMicrophone::Frequency(mode, EQBand::Band1, number::hundredths(3600)))
            &&& set(EQMicrophone::Frequency(mode, EQBand::Band2, number::hundredths(50000)))
            &&& set(EQMicrophone::Frequency(mode, EQBand::Band3, number::hundredths(200000)))
            &&& more.len() == 0 && end == Next::Done
            &&& shows_all(u, kept(later, mode))
            &&& u.active_band == Some(EQBand::Band1)
            &&& u.view.active == Some(EQBand::Band1)
            &&& u.eq_mode == s.eq_mode
        }),
{
    let sent = mic_equaliser::first_round(s, MicEqualiserEvent::LoadDefault, state).1;
    assert forall|i: int| 0 <= i < 15 implies sent.contains(#[trigger] sent[i]) by {}
    assert(sent.contains(sent[0]) && sent.contains(sent[1]) && sent.contains(sent[2]));
    assert(sent.contains(sent[3]) && sent.contains(sent[4]) && sent.contains(sent[5]));
    assert(sent.contains(sent[6]) && sent.contains(sent[7]) && sent.contains(sent[8]));
    assert(sent.contains(sent[9]) && sent.contains(sent[10]) && sent.contains(sent[11]));
    assert(sent.contains(sent[12]) && sent.contains(sent[13]) && sent.contains(sent[14]));
}

/// Adding switches on the first band that is not enabled in the mode that the device is in, and
/// makes it a bell before that only if it has no shape; where all are enabled, nothing is sent.
/// Then the picture shows the band, and it is worked on.
pub proof fn added_band_is_worked_on(s: EqModel, state: EqState, later: EqState, g: bool)
    requires
        whole_picture(s),
    ensures
        ({
            let (t, sent, next) = mic_equaliser::first_round(s, MicEqualiserEvent::AddBand, state);
            let bands = kept(state, state.mode);
            &&& t == s
            &&& match next {
                Next::BandAdded(mode, band) => {
                    let (u, more, end) = mic_equaliser::next_round(t, next, later, g);
                    let on = Message::EQMicrophone(EQMicrophone::Enabled(mode, band, true));
                    &&& mode == state.mode
                    &&& !bands[band.place()].enabled
                    &&& forall|i: int| 0 <= i < band.place() ==> (#[trigger] bands[i]).enabled
                    &&& bands[band.place()].band_type != EQBandType::NotSet ==> sent.len() == 1
                        && sent[0] == on
                    &&& bands[band.place()].band_type == EQBandType::NotSet ==> sent.len() == 2
                        && sent[1] == on && sent[0] == Message::EQMicrophone(
                        EQMicrophone::Type(mode, band, EQBandType::BellBand),
                    )
                    &&& more.len() == 0 && end == Next::Done
                    &&& shows_band(u, s, band, kept(later, mode))
                    &&& u.active_band == Some(band)
                    &&& u.view.active == Some(band)
                },
                Next::Done => sent.len() == 0 && forall|i: int|
                    0 <= i < 9 ==> (#[trigger] bands[i]).enabled,
                _ => false,
            }
        }),
{
    let bands = kept(state, state.mode);
    eq::first_band_is_first(bands, false, 0);
    if let Some(band) = eq::first_band(bands, false, 0) {
        eq::bands_have_places(band, 0);
    }
}

/// Removing switches off the band that is worked on in the mode that the device is in, and sends
/// nothing else. Then the picture shows that band as the device has it, and the last band that is
/// still enabled there is worked on, or none if none is.
pub proof fn removed_band_makes_way(s: EqModel, state: EqState, later: EqState, g: bool)
    requires
        whole_picture(s),
    ensures
        ({
            let (t, sent, next) = mic_equaliser::first_round(
                s,
                MicEqualiserEvent::RemoveBand,
                state,
            );
            let (u, more, end) = mic_equaliser::next_round(t, next, later, g);
            let bands = kept(later, state.mode);
            &&& t == s
            &&& s.active_band is None ==> sent.len() == 0 && next == Next::Done
            &&& s.active_band matches Some(band) ==> {
                &&& sent.len() == 1
                &&& sent[0] == Message::EQMicrophone(
                    EQMicrophone::Enabled(state.mode, band, false),
                )
                &&& more.len() == 0 && end == Next::Done
                &&& shows_band(u, s, band, bands)
                &&& match u.active_band {
                    Some(b) => {
                        &&& bands[b.place()].enabled
                        &&& forall|i: int|
                            b.place() < i < 9 ==> !(#[trigger] bands[i]).enabled
                        &&& u.view.active == Some(b)
                    },
                    None => all_off(bands),
                }
            }
        }),
{
    eq::last_enabled_is_last(kept(later, state.mode), 9);
    if let Some(band) = s.active_band {
        eq::bands_have_places(band, 0);
    }
}

/// The way of drawing changes to the other one, and the curve is drawn again; the guide is shown as
/// it was asked for. Nothing is sent for either, and nothing else changes.
pub proof fn switches_send_nothing(s: EqModel, on: bool, state: EqState)
    ensures
        ({
            let (t, sent, next) = mic_equaliser::first_round(
                s,
                MicEqualiserEvent::CycleVisualizerMode,
                state,
            );
            &&& sent.len() == 0 && next == Next::Done
            &&& t.view.visualizer_mode != s.view.visualizer_mode
            &&& !t.view.curve_drawn
            &&& t == (EqModel {
                view: crate::eq_drawer::DrawModel {
                    visualizer_mode: t.view.visualizer_mode,
                    curve_drawn: false,
                    ..s.view
                },
                ..s
            })
        }),
        mic_equaliser::first_round(s, MicEqualiserEvent::ToggleGuide(on), state) == (
            EqModel { show_guide: on, ..s },
            Seq::<Message>::empty(),
            Next::Done,
        ),
{
}

/// What a control of a band says, when the band is set to `config`.
pub open spec fn says_of(
    c: Control,
    config: EqualiserBandConfig,
    advanced: bool,
    has_gain: bool,
) -> bool {
    match c {
        Control::Shape { band_type, selected, .. } => advanced && (selected <==> band_type
            == config.band_type) && band_type != EQBandType::NotSet,
        Control::Frequency(f) => advanced && f == config.frequency,
        Control::Q(q) => advanced && q == config.q,
        Control::Gain { value, enabled } => enabled == has_gain && (has_gain ==> value
            == config.gain) && (!has_gain ==> value.units() == 0),
        Control::Rule => true,
        _ => false,
    }
}

proof fn band_controls_say(config: EqualiserBandConfig, advanced: bool, has_gain: bool, k: int)
    ensures
        ({
            let c = mic_equaliser::band_controls(config, advanced, has_gain);
            &&& c.len() == (if advanced {
                13int
            } else {
                2
            })
            &&& 0 <= k < c.len() ==> says_of(c[k], config, advanced, has_gain)
            &&& advanced ==> c[7] is Frequency && c[9] is Gain && c[11] is Q
            &&& !advanced ==> c[0] is Gain
            &&& advanced ==> forall|i: int|
                0 <= i < 6 ==> #[trigger] c[i] == mic_equaliser::shape_button(config.band_type, i)
        }),
{
    let zero = Scalar { bits: 0 };
    assert(zero.units() == 0);
}

/// The controls are those of the equaliser as it is: whether the device is in the advanced mode,
/// whether the guide is shown and how the curve is drawn. There are controls for a band just if one
/// is worked on, and they say what the device has that band set to in the mode that it is in: its
/// gain, and in the advanced mode also its shape, frequency and Q. A band can be added in the
/// advanced mode if the picture has one that is not enabled, and the one that is worked on removed
/// if it has one that is. The default can be loaded just if no band is worked on.
pub proof fn controls_say_what_is_set(s: EqModel, state: EqState, has_gain: bool, k: int)
    ensures
        ({
            let c = mic_equaliser::controls(s, state, has_gain);
            let advanced = state.mode == EQMode::Advanced;
            0 <= k < c.len() ==> match c[k] {
                Control::Advanced(on) => on == advanced,
                Control::Guide(on) => on == s.show_guide,
                Control::Visual(mode) => mode == s.view.visualizer_mode,
                Control::AddBand(can) => advanced && (can <==> exists|i: int|
                    0 <= i < 9 && !(#[trigger] s.view.bands[i]).enabled),
                Control::RemoveBand(can) => advanced && s.active_band is Some && (can
                    <==> exists|i: int| 0 <= i < 9 && (#[trigger] s.view.bands[i]).enabled),
                Control::LoadDefault => s.active_band is None,
                Control::Rule => true,
                other => s.active_band matches Some(b) && says_of(
                    other,
                    kept(state, state.mode)[b.place()],
                    advanced,
                    has_gain,
                ),
            }
        }),
{
    let c = mic_equaliser::controls(s, state, has_gain);
    let advanced = state.mode == EQMode::Advanced;
    eq::first_band_is_first(s.view.bands, false, 0);
    eq::first_band_is_first(s.view.bands, true, 0);
    if let Some(b) = eq::first_band(s.view.bands, false, 0) {
        eq::bands_have_places(b, 0);
        assert(!s.view.bands[b.place()].enabled);
    }
    if let Some(b) = eq::first_band(s.view.bands, true, 0) {
        eq::bands_have_places(b, 0);
        assert(s.view.bands[b.place()].enabled);
    }
    if let Some(b) = s.active_band {
        let config = kept(state, state.mode)[b.place()];
        let these = mic_equaliser::band_controls(config, advanced, has_gain);
        band_controls_say(config, advanced, has_gain, k - 6);
        if 6 <= k < 6 + these.len() {
            assert(c[k] == these[k - 6]);
        }
    }
}

/// Every control that there is to be is there: that of the gain for the band that is worked on, and
/// in the advanced mode those of its frequency and Q and a button for each shape; that for adding a
/// band in the advanced mode, and that for the default where no band is worked on.
pub proof fn controls_are_complete(s: EqModel, state: EqState, has_gain: bool, shape: EQBandType)
    ensures
        ({
            let c = mic_equaliser::controls(s, state, has_gain);
            let advanced = state.mode == EQMode::Advanced;
            let n = c.len() as int;
            &&& c[0] is Advanced && c[2] is Guide && c[4] is Visual
            &&& s.active_band is Some ==> exists|i: int| 0 <= i < n && (#[trigger] c[i]) is Gain
            &&& s.active_band is Some && advanced ==> {
                &&& exists|i: int| 0 <= i < n && (#[trigger] c[i]) is Frequency
                &&& exists|i: int| 0 <= i < n && (#[trigger] c[i]) is Q
                &&& exists|i: int| 0 <= i < n && (#[trigger] c[i]) is RemoveBand
                &&& shape != EQBandType::NotSet ==> exists|i: int|
                    0 <= i < n && ((#[trigger] c[i]) matches Control::Shape { band_type, .. }
                        && band_type == shape)
            }
            &&& advanced ==> exists|i: int| 0 <= i < n && (#[trigger] c[i]) is AddBand
            &&& s.active_band is None ==> c[n - 1] is LoadDefault
        }),
{
    let c = mic_equaliser::controls(s, state, has_gain);
    let advanced = state.mode == EQMode::Advanced;
    if let Some(b) = s.active_band {
        let config = kept(state, state.mode)[b.place()];
        let these = mic_equaliser::band_controls(config, advanced, has_gain);
        band_controls_say(config, advanced, has_gain, 0);
        assert forall|i: int| 0 <= i < these.len() implies #[trigger] c[6 + i] == these[i] by {}
        if advanced {
            assert(c[6 + 7int] is Frequency);
            assert(c[6 + 9int] is Gain);
            assert(c[6 + 11int] is Q);
            assert(c[19] is AddBand);
            assert(c[20] is RemoveBand);
            let at: int = match shape {
                EQBandType::LowPassFilter => 0,
                EQBandType::HighPassFilter => 1,
                EQBandType::NotchFilter => 2,
                EQBandType::BellBand => 3,
                EQBandType::LowShelf => 4,
                _ => 5,
            };
            assert(c[6 + at] == these[at]);
            assert(these[at] == mic_equaliser::shape_button(config.band_type, at));
        } else {
            assert(c[6 + 0int] is Gain);
        }
    } else if advanced {
        assert(c[6] is AddBand);
    }
}

} // verus!
