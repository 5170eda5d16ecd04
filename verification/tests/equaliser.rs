use beacn_utility::eq::{Bands, EQBand, EQBandType, EQMode, EqualiserBandConfig};
use beacn_utility::eq_drawer::{
    eq_point_colour, eq_transparent_colour, frequency_ticks, gain_ticks, loudest_bin, BandPoint,
    Colour, EQDrawView, EQMouseEvent, EqVisualizerMode, Layer, Point, PointerEvent, Rect,
    ScrollDelta,
};
use beacn_utility::messages::{EQMicrophone, Message};
use beacn_utility::mic_equaliser::{
    BandEvent, Control, Edge, EqState, MicEqualiser, MicEqualiserEvent, Next,
};
use beacn_utility::scalar::Scalar;

fn s(x: f32) -> Scalar {
    Scalar { bits: x.to_bits() }
}

fn config(enabled: bool, band_type: EQBandType) -> EqualiserBandConfig {
    EqualiserBandConfig {
        enabled,
        band_type,
        frequency: 500,
        gain: s(1.5),
        q: s(0.9),
    }
}

fn bands(enabled: &[EQBand]) -> Bands {
    let mut b = Bands::default();
    for &band in enabled {
        b.set(band, config(true, EQBandType::BellBand));
    }
    b
}

fn state(mode: EQMode, simple: &[EQBand], advanced: &[EQBand]) -> EqState {
    EqState {
        mode,
        simple: bands(simple),
        advanced: bands(advanced),
    }
}

fn eq(m: EQMicrophone) -> Message {
    Message::EQMicrophone(m)
}

fn rect(x: f32) -> Rect {
    Rect { x: s(x), y: s(0.0), width: s(300.0), height: s(100.0) }
}

const B1: EQBand = EQBand::Band1;
const B2: EQBand = EQBand::Band2;
const B3: EQBand = EQBand::Band3;
const A: EQMode = EQMode::Advanced;

#[test]
fn colours_repeat() {
    assert_eq!(eq_point_colour(0), (239, 54, 60));
    assert_eq!(eq_point_colour(5), (31, 187, 185));
    assert_eq!(eq_point_colour(2), (254, 201, 37));
    assert_eq!(eq_transparent_colour(7), (255, 15, 110, 128));
}

#[test]
fn ticks_are_these() {
    assert_eq!(
        frequency_ticks(),
        [30, 50, 100, 250, 500, 1000, 2000, 5000, 10000, 16000]
    );
    assert_eq!(gain_ticks(), vec![-12, -9, -6, -3, 0, 3, 6, 9, 12]);
}

#[test]
fn bands_are_found_from_either_end() {
    let b = bands(&[B2, EQBand::Band8]);
    assert_eq!(b.first(true), Some(B2));
    assert_eq!(b.first(false), Some(B1));
    assert_eq!(b.last(), Some(EQBand::Band8));
    assert_eq!(bands(&[]).last(), None);
    assert_eq!(bands(&[]).first(true), None);
    assert_eq!(b.get(B2), config(true, EQBandType::BellBand));
    assert_eq!(b.get(B1).band_type, EQBandType::NotSet);
}

#[test]
fn change_of_a_band_leaves_the_others_drawn() {
    let mut v = EQDrawView::new(bands(&[B1, B2]));
    assert_eq!(
        v.draw(rect(0.0)),
        vec![
            Layer::Grid,
            Layer::Band(B1),
            Layer::Band(B2),
            Layer::Curve(EqVisualizerMode::BeacnBallistics),
            Layer::Points
        ]
    );
    assert!(v.grid_drawn && v.curve_drawn);
    assert_eq!(&v.bands_drawn[..3], &[true, true, false]);
    v.set_band(B2, config(true, EQBandType::LowShelf));
    assert_eq!(&v.bands_drawn[..3], &[true, false, false]);
    assert_eq!(&v.responses_known[..3], &[true, false, false]);
    assert!(v.grid_drawn && !v.curve_drawn);
    v.draw(rect(0.0));
    assert_eq!(&v.bands_drawn[..3], &[true, true, false]);
    v.draw(rect(5.0));
    assert_eq!(v.bounds(), rect(5.0));
    assert_eq!(v.local_rect(), rect(0.0));
    v.invalidate_all();
    assert_eq!(v.bands_drawn, [false; 9]);
    assert!(v.grid_drawn);
    v.clear();
    assert!(!v.grid_drawn);
}

#[test]
fn moving_the_picture_forgets_responses() {
    let mut v = EQDrawView::new(bands(&[B1]));
    v.place(rect(1.0));
    v.responses_known = [true; 9];
    v.place(rect(1.0));
    assert_eq!(v.responses_known, [true; 9]);
    v.place(rect(2.0));
    assert_eq!(v.responses_known, [false; 9]);
}

#[test]
fn spectrum_moves_the_curve_unless_static() {
    let mut v = EQDrawView::default();
    v.draw(rect(0.0));
    v.set_spectrum(vec![s(-50.0)]);
    assert!(!v.curve_drawn && !v.spectrum_drawn);
    assert!(v.draw(rect(0.0)).contains(&Layer::Spectrum));
    assert!(v.spectrum_drawn);
    assert_eq!(v.cycle_visualizer_mode(), EqVisualizerMode::Static);
    assert!(!v.curve_drawn);
    v.draw(rect(0.0));
    v.set_spectrum(vec![s(-40.0)]);
    assert!(v.curve_drawn && !v.spectrum_drawn);
    v.set_visualizer_mode(EqVisualizerMode::Static);
    assert!(v.curve_drawn);
    assert_eq!(v.cycle_visualizer_mode(), EqVisualizerMode::BeacnBallistics);
    v.clear_spectrum();
    assert!(!v.draw(rect(0.0)).contains(&Layer::Spectrum));
}

#[test]
fn new_border_is_drawn() {
    let grey = Colour { r: s(0.5), g: s(0.5), b: s(0.5), a: s(1.0) };
    let mut v = EQDrawView::default();
    v.draw(rect(0.0));
    v.set_border_colour(None);
    assert!(v.grid_drawn);
    v.set_border_colour(Some(grey));
    assert!(!v.grid_drawn);
    v.draw(rect(0.0));
    v.set_border_colour(Some(grey));
    assert!(v.grid_drawn);
}

#[test]
fn points_are_of_enabled_bands() {
    let mut v = EQDrawView::new(bands(&[B1, B3]));
    v.set_active(Some(B3));
    assert_eq!(v.summed_bands(), vec![B1, B3]);
    assert_eq!(
        v.band_points(),
        vec![
            BandPoint { band: B1, selected: false },
            BandPoint { band: B3, selected: true }
        ]
    );
}

#[test]
fn mouse_is_passed_on() {
    let mut v = EQDrawView::default();
    let at = Some(Point { x: s(11.5), y: s(42.0) });
    let b = Rect { x: s(10.0), y: s(40.0), width: s(300.0), height: s(100.0) };
    let p = Point { x: s(1.5), y: s(2.0) };
    let delta = ScrollDelta::Lines { x: s(0.0), y: s(1.0) };
    assert_eq!(
        v.update(PointerEvent::LeftPressed, b, true, at),
        Some((EQMouseEvent::Pressed(p), true))
    );
    assert_eq!(v.update(PointerEvent::LeftPressed, b, false, at), None);
    assert_eq!(v.update(PointerEvent::LeftPressed, b, true, None), None);
    assert_eq!(v.update(PointerEvent::CursorMoved, b, true, at), None);
    v.set_track_motion(true);
    assert_eq!(
        v.update(PointerEvent::CursorMoved, b, false, at),
        Some((EQMouseEvent::Moved(p), false))
    );
    assert_eq!(
        v.update(PointerEvent::LeftReleased, b, false, None),
        Some((EQMouseEvent::Released, false))
    );
    assert_eq!(
        v.update(PointerEvent::WheelScrolled(delta), b, true, at),
        Some((EQMouseEvent::Scrolled(p, delta), true))
    );
    assert_eq!(v.update(PointerEvent::WheelScrolled(delta), b, false, at), None);
    assert_eq!(v.update(PointerEvent::Other, b, true, at), None);
}

#[test]
fn loudest_bin_is_finite_and_above_the_floor() {
    let bins = [s(-130.0), s(-50.0), s(f32::NAN), s(-20.0), s(f32::INFINITY), s(-30.0)];
    assert_eq!(loudest_bin(&bins, 0, 0), s(-120.0));
    assert_eq!(loudest_bin(&bins, 0, 2), s(-50.0));
    assert_eq!(loudest_bin(&bins, 0, 5), s(-20.0));
    assert_eq!(loudest_bin(&bins, 4, 5), s(-30.0));
}

#[test]
fn device_is_loaded() {
    let mut e = MicEqualiser::new();
    e.load_device(&state(A, &[B1], &[B2, B3]));
    assert_eq!(e.active_band, Some(B2));
    assert_eq!(e.view.active, Some(B2));
    assert_eq!(e.eq_mode, A);
    assert!(e.view.bands().get(B3).enabled);
    e.load_device(&state(EQMode::Simple, &[B1], &[]));
    assert_eq!(e.active_band, Some(B2));
    e.clear();
    assert_eq!(e.eq_mode, EQMode::Simple);
    let mut e = MicEqualiser::new();
    e.load_device(&state(A, &[B1], &[]));
    assert_eq!(e.active_band, None);
}

#[test]
fn band_is_dragged_once_held() {
    let mut e = MicEqualiser::new();
    let st = state(A, &[], &[B1]);
    e.load_device(&st);
    let moved = |now: u64| {
        MicEqualiserEvent::Equaliser(BandEvent::Moved {
            frequency: s(25000.0),
            gain: s(3.5),
            now,
        })
    };
    let pressed = BandEvent::Pressed { hit: Some(B1), now: 1000 };
    assert_eq!(
        e.update(MicEqualiserEvent::Equaliser(pressed), &st),
        (vec![], Next::Done)
    );
    assert!(e.view.track_motion);
    assert_eq!(e.update(moved(80_000_999), &st), (vec![], Next::Done));
    assert_eq!(e.update(moved(0), &st), (vec![], Next::Done));
    let (sent, next) = e.update(moved(80_001_000), &st);
    assert_eq!(sent, vec![eq(EQMicrophone::Frequency(A, B1, s(20000.0)))]);
    assert_eq!(next, Next::DragGain(B1, s(3.5)));
    assert_eq!(e.resume(next, &st, false), (vec![], Next::ShowCurrent(B1)));
    let (sent, next) = e.resume(next, &st, true);
    assert_eq!(sent, vec![eq(EQMicrophone::Gain(A, B1, s(3.5)))]);
    assert_eq!(e.resume(next, &st, true), (vec![], Next::Done));
    e.update(MicEqualiserEvent::Equaliser(BandEvent::Released), &st);
    assert!(!e.view.track_motion);
    assert_eq!(e.update(moved(99_000_000_000), &st), (vec![], Next::Done));
    let beside = BandEvent::Pressed { hit: None, now: 0 };
    e.update(MicEqualiserEvent::Equaliser(beside), &st);
    assert_eq!(e.active_band_drag, None);
}

#[test]
fn simple_mode_keeps_the_frequency() {
    let mut e = MicEqualiser::new();
    let st = state(EQMode::Simple, &[B1], &[]);
    e.load_device(&st);
    let pressed = BandEvent::Pressed { hit: Some(B1), now: 0 };
    e.update(MicEqualiserEvent::Equaliser(pressed), &st);
    let moved = BandEvent::Moved { frequency: s(100.0), gain: s(1.0), now: 80_000_000 };
    assert_eq!(
        e.update(MicEqualiserEvent::Equaliser(moved), &st),
        (vec![], Next::DragGain(B1, s(1.0)))
    );
}

#[test]
fn dragged_gain_is_rounded() {
    let mut e = MicEqualiser::new();
    let st = state(EQMode::Simple, &[B1], &[]);
    e.load_device(&st);
    let pressed = BandEvent::Pressed { hit: Some(B1), now: 0 };
    e.update(MicEqualiserEvent::Equaliser(pressed), &st);
    for (gain, rounded) in [(1.26f32, 1.3f32), (-0.04, -0.0), (99.0, 12.0), (-50.0, -12.0)] {
        let moved = BandEvent::Moved { frequency: s(1.0), gain: s(gain), now: 80_000_000 };
        let (_, next) = e.update(MicEqualiserEvent::Equaliser(moved), &st);
        assert_eq!(next, Next::DragGain(B1, s(rounded)));
    }
}

#[test]
fn wheel_sets_the_q() {
    let mut e = MicEqualiser::new();
    let st = state(A, &[], &[B1, B2]);
    e.load_device(&st);
    let turned = |delta: ScrollDelta| BandEvent::Scrolled { hit: Some(B2), delta };
    for lines in [0.0f32, 1.0, -1.0, 2.5, -30.0, 99.0, 0.26] {
        let by_lines = ScrollDelta::Lines { x: s(5.0), y: s(lines) };
        let by_pixels = ScrollDelta::Pixels { x: s(5.0), y: s(lines) };
        let q = ((0.9f32 + lines * 0.2).clamp(0.1, 10.0) * 10.0).round() / 10.0;
        let fine = ((0.9f32 + lines * 0.2 / 20.0).clamp(0.1, 10.0) * 10.0).round() / 10.0;
        let mut other = MicEqualiser::new();
        other.load_device(&st);
        assert_eq!(
            other.update(MicEqualiserEvent::Equaliser(turned(by_lines)), &st).0,
            vec![eq(EQMicrophone::Q(A, B2, s(q)))]
        );
        assert_eq!(
            other.update(MicEqualiserEvent::Equaliser(turned(by_pixels)), &st).0,
            vec![eq(EQMicrophone::Q(A, B2, s(fine)))]
        );
    }
    let two_lines = ScrollDelta::Lines { x: s(0.0), y: s(2.0) };
    let (sent, next) = e.update(MicEqualiserEvent::Equaliser(turned(two_lines)), &st);
    assert_eq!(sent, vec![eq(EQMicrophone::Q(A, B2, s(1.3)))]);
    assert_eq!(next, Next::ShowActive(A, B2));
    let mut later = st;
    let mut changed = config(true, EQBandType::BellBand);
    changed.q = s(1.3);
    later.advanced.set(B2, changed);
    assert_eq!(e.resume(next, &later, false), (vec![], Next::Done));
    assert_eq!(e.view.bands().get(B2), changed);
    assert_eq!(e.view.active, Some(B2));
    let beside = BandEvent::Scrolled { hit: None, delta: two_lines };
    assert_eq!(
        e.update(MicEqualiserEvent::Equaliser(beside), &st),
        (vec![], Next::Done)
    );
}

#[test]
fn controls_set_the_band_that_is_worked_on() {
    let mut e = MicEqualiser::new();
    let st = state(A, &[], &[B2]);
    assert_eq!(e.update(MicEqualiserEvent::SetQ(s(1.0)), &st), (vec![], Next::Done));
    e.load_device(&st);
    assert_eq!(
        e.update(MicEqualiserEvent::SetFrequency(6080), &st),
        (
            vec![eq(EQMicrophone::Frequency(A, B2, s(6080.0)))],
            Next::ShowCurrent(B2)
        )
    );
    assert_eq!(
        e.update(MicEqualiserEvent::SetType(EQBandType::NotchFilter), &st),
        (
            vec![eq(EQMicrophone::Type(A, B2, EQBandType::NotchFilter))],
            Next::Show(A, B2)
        )
    );
    assert_eq!(
        e.update(MicEqualiserEvent::SetGain(s(-1.0)), &st).0,
        vec![eq(EQMicrophone::Gain(A, B2, s(-1.0)))]
    );
    assert_eq!(
        e.update(MicEqualiserEvent::SetQ(s(1.0)), &st).0,
        vec![eq(EQMicrophone::Q(A, B2, s(1.0)))]
    );
    e.update(MicEqualiserEvent::ToggleGuide(false), &st);
    assert!(!e.show_guide);
    e.update(MicEqualiserEvent::CycleVisualizerMode, &st);
    assert_eq!(e.view.visualizer_mode(), EqVisualizerMode::Static);
}

#[test]
fn mode_change_finds_a_band() {
    let mut e = MicEqualiser::new();
    let st = state(A, &[B1, B3], &[B2]);
    e.load_device(&st);
    let (sent, next) = e.update(MicEqualiserEvent::SetAdvanced(false), &st);
    assert_eq!(sent, vec![eq(EQMicrophone::Mode(EQMode::Simple))]);
    e.resume(next, &st, false);
    assert_eq!(e.active_band, Some(B1));
    assert_eq!(e.eq_mode, EQMode::Simple);
    assert!(e.view.bands().get(B3).enabled);
    let (_, next) = e.update(MicEqualiserEvent::SetAdvanced(true), &st);
    assert_eq!(next, Next::ModeChanged(A));
    e.resume(next, &state(A, &[], &[]), false);
    assert_eq!(e.active_band, None);
}

#[test]
fn bands_are_added_and_removed() {
    let mut e = MicEqualiser::new();
    let st = state(A, &[], &[B1]);
    e.load_device(&st);
    let (sent, next) = e.update(MicEqualiserEvent::AddBand, &st);
    assert_eq!(
        sent,
        vec![
            eq(EQMicrophone::Type(A, B2, EQBandType::BellBand)),
            eq(EQMicrophone::Enabled(A, B2, true))
        ]
    );
    let st = state(A, &[], &[B1, B2]);
    e.resume(next, &st, false);
    assert_eq!(e.active_band, Some(B2));
    assert!(e.view.bands().get(B2).enabled);
    let (sent, next) = e.update(MicEqualiserEvent::RemoveBand, &st);
    assert_eq!(sent, vec![eq(EQMicrophone::Enabled(A, B2, false))]);
    e.resume(next, &state(A, &[], &[B1, B3]), false);
    assert_eq!(e.active_band, Some(B3));
    let (_, next) = e.update(MicEqualiserEvent::RemoveBand, &st);
    e.resume(next, &state(A, &[], &[]), false);
    assert_eq!(e.active_band, None);
    assert_eq!(e.view.active, Some(B3));
    assert_eq!(e.update(MicEqualiserEvent::RemoveBand, &st), (vec![], Next::Done));

    let mut shaped = state(A, &[], &[]);
    shaped.advanced.set(B1, config(false, EQBandType::LowShelf));
    assert_eq!(
        e.update(MicEqualiserEvent::AddBand, &shaped).0,
        vec![eq(EQMicrophone::Enabled(A, B1, true))]
    );
    let all: Vec<EQBand> = (0..9).map(EQBand::from_index).collect();
    let full = state(A, &[], &all);
    assert_eq!(e.update(MicEqualiserEvent::AddBand, &full), (vec![], Next::Done));
}

#[test]
fn default_is_loaded() {
    let mut e = MicEqualiser::new();
    let st = state(A, &[], &[]);
    let (sent, next) = e.update(MicEqualiserEvent::LoadDefault, &st);
    assert_eq!(sent.len(), 15);
    assert_eq!(sent[0], eq(EQMicrophone::Enabled(A, B1, true)));
    assert_eq!(sent[3], eq(EQMicrophone::Type(A, B1, EQBandType::HighPassFilter)));
    assert_eq!(sent[6], eq(EQMicrophone::Frequency(A, B1, s(36.0))));
    assert_eq!(sent[7], eq(EQMicrophone::Frequency(A, B2, s(500.0))));
    assert_eq!(sent[8], eq(EQMicrophone::Frequency(A, B3, s(2000.0))));
    assert_eq!(sent[9], eq(EQMicrophone::Gain(A, B1, s(0.0))));
    assert_eq!(sent[14], eq(EQMicrophone::Q(A, B3, s(0.7))));
    e.resume(next, &state(A, &[], &[B1, B2, B3]), false);
    assert_eq!(e.active_band, Some(B1));
    assert_eq!(e.view.active, Some(B1));
    assert!(e.view.bands().get(B3).enabled);
}

#[test]
fn controls_follow_the_mode() {
    let mut e = MicEqualiser::new();
    let empty = state(A, &[], &[]);
    let rule = Control::Rule;
    let visual = Control::Visual(EqVisualizerMode::BeacnBallistics);
    assert_eq!(
        e.eq_controls(&empty, false),
        vec![
            Control::Advanced(true),
            rule,
            Control::Guide(true),
            rule,
            visual,
            rule,
            Control::AddBand(true),
            Control::LoadDefault
        ]
    );
    let simple = state(EQMode::Simple, &[B1], &[B1]);
    e.load_device(&simple);
    assert_eq!(
        e.eq_controls(&simple, true),
        vec![
            Control::Advanced(false),
            rule,
            Control::Guide(true),
            rule,
            visual,
            rule,
            Control::Gain { value: s(1.5), enabled: true },
            rule
        ]
    );
    let advanced = state(A, &[B1], &[B1]);
    let all = e.eq_controls(&advanced, false);
    assert_eq!(all.len(), 6 + 6 + 1 + 2 + 2 + 2 + 2);
    assert_eq!(
        all[6],
        Control::Shape {
            band_type: EQBandType::LowPassFilter,
            selected: false,
            edge: Edge::First
        }
    );
    assert_eq!(
        all[9],
        Control::Shape { band_type: EQBandType::BellBand, selected: true, edge: Edge::Middle }
    );
    assert_eq!(
        all[11],
        Control::Shape { band_type: EQBandType::HighShelf, selected: false, edge: Edge::Last }
    );
    assert_eq!(all[13], Control::Frequency(500));
    assert_eq!(all[15], Control::Gain { value: s(0.0), enabled: false });
    assert_eq!(all[17], Control::Q(s(0.9)));
    assert_eq!(all[19], Control::AddBand(true));
    assert_eq!(all[20], Control::RemoveBand(true));
    assert_eq!(EQBandType::NotchFilter.icon(), "eq_notch");
    assert_eq!(EqVisualizerMode::Static.label(), "Visual: Static");
    assert_eq!(EqVisualizerMode::default().label(), "Visual: BEACN");
}

#[test]
fn spectrum_is_handed_to_the_picture() {
    let mut e = MicEqualiser::new();
    e.set_spectrum_data(vec![s(-1.0)]);
    assert_eq!(e.view.spectrum_bins, vec![s(-1.0)]);
    e.clear_spectrum_data();
    assert!(e.view.spectrum_bins.is_empty());
}
