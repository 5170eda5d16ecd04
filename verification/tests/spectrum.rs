use beacn_utility::eq_drawer::MIN_DB;
use beacn_utility::scalar::Scalar;
use beacn_utility::spectrum::{
    analyser_inner, spectrum_size, start_spectrum_analyser, window_angles,
    DynamicSpectrumAnalyzer, StreamPlan, FULL_TURN, HALF, SPECTRUM_POINTS, SPECTRUM_TIME,
};
use beacn_utility::spectrum_frame::{
    edge_logs, point_logs, DB_PER_DECADE, DECAY_RATE, FOUR, LEAST_MAGNITUDE, LEAST_TIME,
    NEIGHBOUR_PART, NEW_PART, OLD_PART, OWN_PART,
};
use rustfft::num_complex::Complex;
use rustfft::FftPlanner;
use std::f32::consts::PI;

fn s(x: f32) -> Scalar {
    Scalar { bits: x.to_bits() }
}

fn f(x: Scalar) -> f32 {
    f32::from_bits(x.bits)
}

fn all(v: &[f32]) -> Vec<Scalar> {
    v.iter().map(|&x| s(x)).collect()
}

fn analyser(sample_rate: f32) -> DynamicSpectrumAnalyzer {
    let size = spectrum_size(s(sample_rate));
    let cosines: Vec<Scalar> = window_angles(size).iter().map(|&a| s(f(a).cos())).collect();
    DynamicSpectrumAnalyzer::new(s(sample_rate), &cosines)
}

fn transform(samples: &[Scalar]) -> Vec<f32> {
    let mut buffer: Vec<Complex<f32>> =
        samples.iter().map(|&x| Complex::new(f(x), 0.0)).collect();
    FftPlanner::new().plan_fft_forward(buffer.len()).process(&mut buffer);
    buffer.iter().map(|c| c.norm()).collect()
}

fn frame(a: &DynamicSpectrumAnalyzer, output: &mut Vec<Scalar>, count: usize) {
    let (low, high) = (s(20.0f32.ln()), s(20000.0f32.ln()));
    let norms = all(&transform(&a.weighted_samples()));
    let logs: Vec<Scalar> = point_logs(output.len(), low, high)
        .iter()
        .map(|&l| s(f(l).exp().ln()))
        .collect();
    let edges: Vec<(Scalar, Scalar)> = edge_logs(&logs, low, high)
        .iter()
        .map(|&(x, y)| (s(f(x).exp()), s(f(y).exp())))
        .collect();
    let levels: Vec<Scalar> =
        a.magnitudes(&norms, &edges).iter().map(|&m| s(f(m).log10())).collect();
    a.render_spectrum_frame(output, &levels, count);
}

/// The same frame in the arithmetic of the machine.
fn machine_frame(samples: &[f32], rate: f32, output: &mut [f32], count: usize) {
    let size = samples.len();
    let weighted: Vec<Scalar> = (0..size)
        .map(|i| {
            let w = 0.5 * (1.0 - ((2.0 * PI * i as f32) / (size as f32 - 1.0)).cos());
            s(samples[i] * w)
        })
        .collect();
    let norms = transform(&weighted);
    let n = output.len();
    let (log_min, log_max) = (20.0f32.ln(), 20000.0f32.ln());
    let scale = 4.0 / size as f32;
    let last = size / 2 - 1;
    let decay = 28.0f32 * (count as f32 / rate).max(0.001);
    for (i, item) in output.iter_mut().enumerate() {
        let t = i as f32 / ((n - 1).max(1)) as f32;
        let target = (log_min + t * (log_max - log_min)).exp();
        let step = (log_max - log_min) / n as f32;
        let low_f = ((target.ln() - step * 0.5).exp() * size as f32) / rate;
        let high_f = ((target.ln() + step * 0.5).exp() * size as f32) / rate;
        let low = (low_f.floor() as usize).clamp(0, last);
        let high = (high_f.ceil() as usize).clamp(0, last);
        let mut peak = 0.0f32;
        for norm in norms.iter().take(high + 1).skip(low) {
            if norm * scale > peak {
                peak = norm * scale;
            }
        }
        if peak == 0.0 {
            let next = (low + 1).min(last);
            let m = norms[low] * scale;
            peak = m + (low_f - low as f32) * (norms[next] * scale - m);
        }
        let db = (20.0 * (peak + 1e-6).log10()).clamp(-120.0, 0.0);
        if db > *item {
            *item = (0.85 * db) + (0.15 * *item);
        } else {
            *item = (*item - decay).max(db);
        }
    }
    let before = output.to_vec();
    for i in 1..n - 1 {
        output[i] = 0.20 * before[i - 1] + 0.60 * before[i] + 0.20 * before[i + 1];
    }
}

#[test]
fn analyser_constants_are_these_numbers() {
    assert_eq!(SPECTRUM_TIME, 0.085f32.to_bits());
    assert_eq!(FULL_TURN, (2.0 * PI).to_bits());
    assert_eq!(HALF, 0.5f32.to_bits());
    assert_eq!(FOUR, 4.0f32.to_bits());
    assert_eq!(DB_PER_DECADE, 20.0f32.to_bits());
    assert_eq!(LEAST_MAGNITUDE, 1e-6f32.to_bits());
    assert_eq!(NEW_PART, 0.85f32.to_bits());
    assert_eq!(OLD_PART, 0.15f32.to_bits());
    assert_eq!(DECAY_RATE, 28.0f32.to_bits());
    assert_eq!(LEAST_TIME, 0.001f32.to_bits());
    assert_eq!(NEIGHBOUR_PART, 0.2f32.to_bits());
    assert_eq!(OWN_PART, 0.6f32.to_bits());
    assert_eq!(MIN_DB, (-120.0f32).to_bits());
}

#[test]
fn size_follows_the_rate() {
    assert_eq!(spectrum_size(s(48000.0)), 4096);
    assert_eq!(spectrum_size(s(44100.0)), 4096);
    assert_eq!(spectrum_size(s(96000.0)), 8192);
    assert_eq!(spectrum_size(s(8000.0)), 1024);
    assert_eq!(spectrum_size(s(0.0)), 1024);
    assert_eq!(spectrum_size(s(-1.0)), 1024);
    assert_eq!(spectrum_size(s(f32::NAN)), 1024);
}

#[test]
fn samples_in_the_middle_weigh_most() {
    let a = analyser(8000.0);
    assert_eq!(a.window.len(), 1024);
    for i in 0..1024usize {
        let w = 0.5 * (1.0 - ((2.0 * PI * i as f32) / (1024.0 - 1.0)).cos());
        assert_eq!(a.window[i], s(w));
    }
    assert_eq!(a.window[0], s(0.0));
    assert!(f(a.window[511]) > 0.99);
}

#[test]
fn analyser_keeps_the_samples_heard_last() {
    let mut a = analyser(48000.0);
    assert_eq!(a.history.len(), 4096);
    let block = |from: u32, count: u32| -> Vec<Scalar> {
        (from..from + count).map(|i| s(i as f32)).collect()
    };
    a.push_incoming_samples(&block(1, 100));
    a.push_incoming_samples(&[]);
    assert_eq!(a.history[3995], s(0.0));
    assert_eq!(&a.history[3996..], &block(1, 100)[..]);
    let mut b = analyser(48000.0);
    b.push_incoming_samples(&block(1, 300));
    a.push_incoming_samples(&block(101, 200));
    assert_eq!(a.history, b.history);
    a.push_incoming_samples(&block(1, 5000));
    assert_eq!(a.history, block(905, 4096));
    assert_eq!(a.window, b.window);
}

#[test]
fn analyser_has_a_spectrum_for_each_port() {
    let data = start_spectrum_analyser(2);
    assert_eq!(data.len(), 2);
    assert_eq!(data[1], vec![s(-120.0); 128]);
    assert_eq!(
        analyser_inner(&[40, 41]),
        vec![
            StreamPlan { channel_id: 40, place: 0 },
            StreamPlan { channel_id: 41, place: 1 }
        ]
    );
}

#[test]
fn frames_are_those_of_the_machine() {
    let rate = 48000.0f32;
    let mut a = analyser(rate);
    let mut output = vec![s(-120.0); SPECTRUM_POINTS];
    let mut machine = vec![-120.0f32; SPECTRUM_POINTS];
    let mut seed: u32 = 7;
    let mut history = vec![0.0f32; 4096];
    for round in 0..6 {
        let block: Vec<f32> = (0..700)
            .map(|i| {
                seed = seed.wrapping_mul(1664525).wrapping_add(1013904223);
                if round == 4 {
                    0.0
                } else {
                    (seed >> 16) as f32 / 65536.0 - 0.5 + (i as f32 * 0.1).sin()
                }
            })
            .collect();
        history.drain(..700);
        history.extend(&block);
        a.push_incoming_samples(&all(&block));
        assert_eq!(a.history, all(&history));
        frame(&a, &mut output, block.len());
        machine_frame(&history, rate, &mut machine, block.len());
        assert_eq!(output, all(&machine));
    }
}

#[test]
fn bins_without_sound_lie_between_others() {
    let a = analyser(8000.0);
    let mut norms = vec![s(0.0); 1024];
    norms[5] = s(512.0);
    let edges = [(s(10.0), s(12.0)), (s(35.0), s(35.1)), (s(1.0e9), s(1.0e9)), (s(-5.0), s(-5.0))];
    let found = a.magnitudes(&norms, &edges);
    assert_eq!(found[0], s(0.0 + 1e-6));
    assert_eq!(found[1], s(2.0 + 1e-6));
    assert_eq!(found[2], s(0.0 + 1e-6));
    let mut norms = vec![s(f32::NAN); 1024];
    norms[511] = s(1024.0);
    assert_eq!(a.magnitudes(&norms, &[(s(1.0e9), s(1.0e9))])[0], s(4.0 + 1e-6));
    assert!(f(a.magnitudes(&norms, &[(s(0.5), s(0.5))])[0]).is_nan());
}

#[test]
fn nothing_is_shown_without_a_rate() {
    let a = DynamicSpectrumAnalyzer::new(s(0.0), &vec![s(1.0); 1024]);
    let mut output = vec![s(-7.0); 3];
    a.render_spectrum_frame(&mut output, &[s(0.0); 3], 100);
    assert_eq!(output, vec![s(-7.0); 3]);
    let mut none: Vec<Scalar> = vec![];
    analyser(8000.0).render_spectrum_frame(&mut none, &[], 100);
    assert!(none.is_empty());
    let mut one = vec![s(-7.0)];
    analyser(8000.0).render_spectrum_frame(&mut one, &[s(-1.0)], 0);
    assert_eq!(one, vec![s((-7.0f32 - 28.0 * 0.001).max(-20.0))]);
}

#[test]
fn test_spectrum_analyzer_sine_wave() {
    let sample_rate = 48000.0;
    let mut analyzer = analyser(sample_rate);
    let mut output_db = vec![s(-120.0); SPECTRUM_POINTS];

    let freq = 1000.0;
    let amplitude = 0.316_f32;
    let chunk_size = 256;
    let total_samples = 4096;

    for chunk_start in (0..total_samples).step_by(chunk_size) {
        let samples: Vec<f32> = (chunk_start..chunk_start + chunk_size)
            .map(|n| amplitude * (2.0 * PI * freq * (n as f32) / sample_rate).sin())
            .collect();
        analyzer.push_incoming_samples(&all(&samples));
        frame(&analyzer, &mut output_db, samples.len());
    }

    let mut max_db = -120.0;
    let mut peak_bin = 0;
    for (i, &level) in output_db.iter().enumerate() {
        let db = f(level);
        if db > max_db {
            max_db = db;
            peak_bin = i;
        }
    }

    assert!(max_db > -18.0, "Expected peak > -18 dBFS, got {max_db}");
    let log_min = 20.0f32.ln();
    let log_max = 20000.0f32.ln();
    let peak_freq = (log_min + (peak_bin as f32 / 127.0) * (log_max - log_min)).exp();
    assert!(
        (peak_freq - 1000.0).abs() < 150.0,
        "Expected peak near 1000 Hz, got {peak_freq} Hz at bin {peak_bin}"
    );
}

#[test]
fn test_spectrum_analyzer_decay() {
    let sample_rate = 48000.0;
    let mut analyzer = analyser(sample_rate);
    let mut output_db = vec![s(-120.0); SPECTRUM_POINTS];

    let samples = vec![0.5_f32; 1024];
    analyzer.push_incoming_samples(&all(&samples));
    frame(&analyzer, &mut output_db, samples.len());
    let peak_before = f(output_db[50]);

    let silence = vec![0.0_f32; 4800];
    analyzer.push_incoming_samples(&all(&silence));
    frame(&analyzer, &mut output_db, silence.len());
    let peak_after = f(output_db[50]);

    assert!(peak_after < peak_before, "Signal should decay after silence");
    let decay = peak_before - peak_after;
    assert!(
        decay > 1.0 && decay < 5.0,
        "Expected ~2.8 dB decay over 0.1s, got {decay} dB"
    );
}
