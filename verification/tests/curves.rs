use beacn_utility::ballistics::{
    curve_logs, freq_to_bin, get_coefficient, CurveFrequency, Filter, FrequencyLogs, ACTIVE_SPAN,
    HIGH_CUTOFF, HIGH_REACH, LEAST_ACTIVITY, LOW_CUTOFF, QUIET_LEVEL,
};
use beacn_utility::curves::{
    adaptive_smooth_points, border_rect, build_catmull_rom_fill_path,
    build_catmull_rom_stroke_path, curve_places, curve_points, draw_eq_curve, draw_eq_individual,
    draw_spectrum, frequency_label, gain_label, inside_border, spectrum_plot, tick_line, PathStep,
    CURVE_TENSION, EQ_PLOT_BORDER_WIDTH, HALF_BORDER, LABEL_DROP, SIX, TWICE_BORDER,
};
use beacn_utility::eq::{Bands, EQBand, EQBandType, EqualiserBandConfig};
use beacn_utility::eq_drawer::{EQDrawView, Point, Rect};
use beacn_utility::scalar::Scalar;

fn s(x: f32) -> Scalar {
    Scalar { bits: x.to_bits() }
}

fn f(x: Scalar) -> f32 {
    f32::from_bits(x.bits)
}

fn all(v: &[f32]) -> Vec<Scalar> {
    v.iter().map(|&x| s(x)).collect()
}

fn point(x: f32, y: f32) -> Point {
    Point { x: s(x), y: s(y) }
}

fn plot() -> Rect {
    Rect { x: s(30.0), y: s(12.5), width: s(611.0), height: s(201.25) }
}

fn config(band_type: EQBandType) -> EqualiserBandConfig {
    EqualiserBandConfig { enabled: true, band_type, frequency: 6080, gain: s(-3.0), q: s(2.5) }
}

fn logs() -> FrequencyLogs {
    FrequencyLogs {
        lowest: s(20.0f32.ln()),
        low_end: s(200.0f32.ln()),
        low_cutoff: s(240.0f32.ln()),
        high_cutoff: s(3000.0f32.ln()),
        high_start: s(3500.0f32.ln()),
        high_end: s(14000.0f32.ln()),
        highest: s(20000.0f32.ln()),
    }
}

fn frequencies(len: usize) -> Vec<CurveFrequency> {
    curve_logs(len, &logs())
        .iter()
        .map(|&l| {
            let frequency = f(l).exp();
            CurveFrequency { frequency: s(frequency), log: s(frequency.ln()) }
        })
        .collect()
}

fn moved(view: &EQDrawView, gains: &[f32]) -> Vec<f32> {
    view.compute_beacn_ballistics(&all(gains), &frequencies(gains.len()), &logs())
        .iter()
        .map(|&g| f(g))
        .collect()
}

/// The same movement in the arithmetic of the machine.
fn machine_moved(bins: &[f32], gains: &[f32]) -> Vec<f32> {
    let n = bins.len();
    let (log_min, log_max) = (20.0f32.ln(), 20000.0f32.ln());
    let place = |x: f32| {
        let t = (x.ln() - log_min) / (log_max - log_min);
        ((t * (n - 1) as f32).round() as usize).min(n - 1)
    };
    let loudest = |from: f32, to: f32| {
        bins[place(from)..=place(to)]
            .iter()
            .fold(-120.0f32, |m, &db| if db.is_finite() && db > m { db } else { m })
    };
    let active = |db: f32| ((db - (-70.0)) / 40.0).clamp(0.0, 1.0);
    let (low, high) = (active(loudest(20.0, 200.0)), active(loudest(3500.0, 14000.0)));
    if low <= 0.001 && high <= 0.001 {
        return gains.to_vec();
    }
    let (low_cut, high_cut) = (240.0f32.ln(), 3000.0f32.ln());
    gains
        .iter()
        .enumerate()
        .map(|(i, &g)| {
            let t = i as f32 / (gains.len() - 1) as f32;
            let freq = (log_min + t * (log_max - log_min)).exp();
            let mut delta = 0.0f32;
            if freq < 240.0 {
                let w = (1.0 - (freq.ln() - log_min) / (low_cut - log_min)).clamp(0.0, 1.0);
                delta += low * 4.0 * w;
            }
            if freq > 3000.0 {
                let w = ((freq.ln() - high_cut) / (log_max - high_cut)).clamp(0.0, 1.0);
                delta += high * 3.5 * w;
            }
            (g + delta).clamp(-12.0, 12.0)
        })
        .collect()
}

#[test]
fn curve_constants_are_these_numbers() {
    assert_eq!(EQ_PLOT_BORDER_WIDTH, 2.0f32.to_bits());
    assert_eq!(HALF_BORDER, 1.0f32.to_bits());
    assert_eq!(TWICE_BORDER, 4.0f32.to_bits());
    assert_eq!(CURVE_TENSION, 1.0f32.to_bits());
    assert_eq!(SIX, 6.0f32.to_bits());
    assert_eq!(LABEL_DROP, 5.0f32.to_bits());
    assert_eq!(QUIET_LEVEL, (-70.0f32).to_bits());
    assert_eq!(ACTIVE_SPAN, 40.0f32.to_bits());
    assert_eq!(LEAST_ACTIVITY, 0.001f32.to_bits());
    assert_eq!(LOW_CUTOFF, 240.0f32.to_bits());
    assert_eq!(HIGH_CUTOFF, 3000.0f32.to_bits());
    assert_eq!(HIGH_REACH, 3.5f32.to_bits());
}

#[test]
fn test_beacn_ballistics_modulates_low_and_high_extremes_only() {
    let mut view = EQDrawView::default();
    let steps = 128;
    let static_gains = vec![0.0_f32; steps + 1];

    view.set_spectrum(all(&[-120.0; 128]));
    let modulated_quiet = moved(&view, &static_gains);
    assert_eq!(modulated_quiet, static_gains);

    let mut bass_spectrum = vec![-120.0; 128];
    for b in &mut bass_spectrum[0..20] {
        *b = -20.0;
    }
    view.set_spectrum(all(&bass_spectrum));
    let modulated_bass = moved(&view, &static_gains);

    assert!(modulated_bass[0] > 1.0);
    let mid_idx = steps / 2;
    assert_eq!(modulated_bass[mid_idx], 0.0);
    assert_eq!(modulated_bass[steps], 0.0);

    let mut sibilance_spectrum = vec![-120.0; 128];
    for b in &mut sibilance_spectrum[100..128] {
        *b = -20.0;
    }
    view.set_spectrum(all(&sibilance_spectrum));
    let modulated_sibilance = moved(&view, &static_gains);

    assert_eq!(modulated_sibilance[0], 0.0);
    assert_eq!(modulated_sibilance[mid_idx], 0.0);
    assert!(modulated_sibilance[steps] > 1.0);
}

#[test]
fn movement_is_that_of_the_machine() {
    let mut view = EQDrawView::default();
    let gains: Vec<f32> = (0..129).map(|i| (i as f32 * 0.37).sin() * 13.0).collect();
    assert_eq!(moved(&view, &gains), gains);
    let mut seed: u32 = 99;
    for _ in 0..5 {
        let mut bins: Vec<f32> = (0..128)
            .map(|_| {
                seed = seed.wrapping_mul(1664525).wrapping_add(1013904223);
                (seed >> 16) as f32 / 600.0 - 120.0
            })
            .collect();
        bins[3] = f32::NAN;
        bins[100] = f32::INFINITY;
        view.set_spectrum(all(&bins));
        assert_eq!(moved(&view, &gains), machine_moved(&bins, &gains));
    }
    assert_eq!(moved(&view, &[]), Vec::<f32>::new());
}

#[test]
fn frequencies_have_places() {
    assert_eq!(freq_to_bin(logs().lowest, 128, &logs()), 0);
    assert_eq!(freq_to_bin(logs().low_end, 128, &logs()), 42);
    assert_eq!(freq_to_bin(logs().highest, 128, &logs()), 127);
    assert_eq!(freq_to_bin(s(99.0), 128, &logs()), 127);
    assert_eq!(freq_to_bin(s(0.0), 128, &logs()), 0);
    assert_eq!(freq_to_bin(logs().high_end, 1, &logs()), 0);
}

#[test]
fn responses_are_added_up() {
    let mut bands = Bands::default();
    assert_eq!(
        EQDrawView::new(bands).get_summed_frequency_response(&[]),
        vec![s(0.0); 513]
    );
    bands.set(EQBand::Band1, config(EQBandType::BellBand));
    bands.set(EQBand::Band2, config(EQBandType::LowShelf));
    bands.set(EQBand::Band4, config(EQBandType::HighShelf));
    let view = EQDrawView::new(bands);
    let responses = [all(&[0.1, 0.2, 0.3]), all(&[1.0e7, 2.0, 3.0]), all(&[-1.0e7, 1.0])];
    assert_eq!(
        view.get_summed_frequency_response(&responses),
        all(&[0.0 + 0.1 + 1.0e7 - 1.0e7, 0.0 + 0.2 + 2.0 + 1.0, 0.0 + 0.3 + 3.0])
    );
}

#[test]
fn filters_follow_the_shape() {
    let (frequency, gain, q) = (s(6080.0), s(-3.0), s(2.5));
    let of = |t: EQBandType| get_coefficient(&config(t));
    assert_eq!(of(EQBandType::LowShelf), Filter::LowShelf { frequency, gain, q });
    assert_eq!(of(EQBandType::HighShelf), Filter::HighShelf { frequency, gain, q });
    assert_eq!(of(EQBandType::BellBand), Filter::Bell { frequency, gain, q });
    assert_eq!(of(EQBandType::NotchFilter), Filter::Notch { frequency, q });
    assert_eq!(of(EQBandType::HighPassFilter), Filter::HighPass { frequency, q });
    assert_eq!(of(EQBandType::LowPassFilter), Filter::LowPass { frequency, q });
}

#[test]
fn points_of_a_curve_stay_on_the_plot() {
    let heights = [-5.0f32, 20.0, 100.5, 400.0];
    let points = curve_points(&all(&heights), plot());
    for i in 0..4usize {
        let x = 30.0f32 + (i as f32 / 3.0) * 611.0;
        assert_eq!(points[i], point(x, heights[i].clamp(12.5, 12.5 + 201.25)));
    }
    let places = curve_places(512, plot());
    assert_eq!(places.len(), 513);
    assert_eq!(places[100], s(30.0f32 + (100.0f32 / 512.0) * 611.0));
}

#[test]
fn heights_are_smoothed_up_to_the_cutoff() {
    let raw: Vec<(f32, f32)> = (0..30).map(|i| (i as f32, (i * i % 17) as f32)).collect();
    let points: Vec<Point> = raw.iter().map(|&(x, y)| point(x, y)).collect();
    let smooth = adaptive_smooth_points(&points, s(20.0), 8);
    assert_eq!(smooth.len(), 30);
    for i in 0..30usize {
        if i > 20 {
            assert_eq!(smooth[i], points[i]);
            continue;
        }
        let (mut sum, mut weights) = (0.0f32, 0.0f32);
        for j in i.saturating_sub(8)..=(i + 8).min(29) {
            let weight = 1.0 / (1.0 + i.abs_diff(j) as f32);
            sum += raw[j].1 * weight;
            weights += weight;
        }
        assert_eq!(smooth[i], point(raw[i].0, sum / weights));
    }
    assert!(adaptive_smooth_points(&[], s(20.0), 8).is_empty());
}

#[test]
fn paths_go_through_their_points() {
    let p = [point(0.0, 1.0), point(1.0, 4.0), point(3.0, 0.0), point(4.0, 2.0)];
    let (one, low, high) = (s(1.0), s(0.0), s(4.0));
    let path = build_catmull_rom_stroke_path(&p, one, low, high);
    assert_eq!(path.len(), 4);
    assert_eq!(path[0], PathStep::MoveTo(p[0]));
    assert_eq!(
        path[1],
        PathStep::CurveTo {
            control_a: point(0.0 + (1.0 - 0.0) / 6.0, 1.0 + (4.0 - 1.0) / 6.0),
            control_b: point(1.0 - (3.0 - 0.0) / 6.0, 4.0),
            to: p[1]
        }
    );
    assert_eq!(
        path[3],
        PathStep::CurveTo {
            control_a: point(3.0 + (4.0 - 1.0) / 6.0, 0.0),
            control_b: point(4.0 - (4.0 - 3.0) / 6.0, 2.0 - (2.0 - 0.0) / 6.0),
            to: p[3]
        }
    );
    assert_eq!(
        build_catmull_rom_stroke_path(&p[..2], one, low, high),
        vec![PathStep::MoveTo(p[0]), PathStep::LineTo(p[1])]
    );
    assert!(build_catmull_rom_stroke_path(&[], one, low, high).is_empty());
    let area = build_catmull_rom_fill_path(&p, s(2.0), one, low, high);
    assert_eq!(area[..2], [PathStep::MoveTo(point(0.0, 2.0)), PathStep::LineTo(p[0])]);
    assert_eq!(area[2..5], path[1..]);
    assert_eq!(area[5..], [PathStep::LineTo(point(4.0, 2.0)), PathStep::Close]);
    assert_eq!(build_catmull_rom_fill_path(&[], s(2.0), one, low, high), vec![PathStep::Close]);
}

#[test]
fn curves_are_drawn_through_smooth_points() {
    let heights: Vec<Scalar> = (0..20).map(|i| s(20.0 + (i * 7 % 11) as f32)).collect();
    let points = adaptive_smooth_points(&curve_points(&heights, plot()), s(200.0), 8);
    let bottom = s(12.5 + 201.25);
    assert_eq!(
        draw_eq_curve(&heights, plot(), s(200.0)),
        build_catmull_rom_stroke_path(&points, s(1.0), s(12.5), bottom)
    );
    assert_eq!(
        draw_eq_individual(&heights, s(113.0), plot(), s(200.0)),
        build_catmull_rom_fill_path(&points, s(113.0), s(1.0), s(12.5), bottom)
    );
}

#[test]
fn spectrum_is_a_line_of_finite_levels() {
    let mut view = EQDrawView::default();
    assert!(view.spectrum_places(plot()).is_empty());
    let bins = [-130.0f32, -60.0, f32::NAN, 3.0, f32::NEG_INFINITY, -33.3];
    view.set_spectrum(all(&bins));
    let expected: Vec<(Scalar, Scalar)> = [0usize, 1, 3, 5]
        .iter()
        .map(|&i| {
            let t = (bins[i].clamp(-120.0, 0.0) - -120.0) / (0.0 - -120.0);
            let x = 30.0f32 + (i as f32 / 5.0) * 611.0;
            (s(x), s(-12.0 + t * (12.0 - -12.0)))
        })
        .collect();
    assert_eq!(view.spectrum_places(plot()), expected);
    assert_eq!(spectrum_plot(plot()), Rect { height: s(200.25), ..plot() });
    let p = [point(1.0, 2.0), point(3.0, 4.0), point(5.0, 6.0)];
    assert_eq!(
        draw_spectrum(&p),
        vec![PathStep::MoveTo(p[0]), PathStep::LineTo(p[1]), PathStep::LineTo(p[2])]
    );
    assert!(draw_spectrum(&p[..1]).is_empty());
}

#[test]
fn grid_stands_inside_the_border() {
    assert_eq!(inside_border(plot()), Rect { x: s(32.0), width: s(607.0), ..plot() });
    assert_eq!(
        border_rect(plot()),
        Rect { x: s(31.0), y: s(13.5), width: s(609.0), height: s(199.25) }
    );
    assert_eq!(tick_line(s(77.0), plot()), (point(77.0, 14.5), point(77.0, 211.75)));
    assert_eq!(frequency_label(s(77.0), plot()), point(77.0, 17.5));
    assert_eq!(gain_label(s(77.0), plot()), point(26.0, 77.0));
}

#[test]
fn sound_only_lifts_the_curve() {
    let gains: Vec<f32> = (0..65).map(|i| -12.0 + 24.0 * (i * 37 % 65) as f32 / 64.0).collect();
    let mut bins = vec![-120.0f32; 128];
    let mut view = EQDrawView::default();
    view.set_spectrum(all(&bins));
    let mut before = moved(&view, &gains);
    assert_eq!(before, gains);
    for (j, level) in [(3, -75.0f32), (7, -60.0), (7, -40.0), (110, -65.0), (111, -20.0), (64, 0.0)]
    {
        bins[j] = level;
        view.set_spectrum(all(&bins));
        let after = moved(&view, &gains);
        assert_eq!(after.len(), gains.len());
        for i in 0..gains.len() {
            assert!(after[i] >= before[i]);
            assert!(gains[i] <= after[i] && after[i] <= (gains[i] + 4.0).min(12.0));
        }
        before = after;
    }
}
