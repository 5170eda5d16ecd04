use beacn_utility::counts::from_count;
use beacn_utility::meter::{
    attack_exponent, MeterBallistics, MeterBar, MeterPart, MicMeter, ATTACK_TAU, GOOD_ZONE,
    LARGEST_FALL, LEAST_LEFT, LEAST_SPAN, LONGEST_STEP, METER_FLOOR, ONE, PEAK_HOLD_TIME,
    PEAK_LINE_HEIGHT, PEAK_RELEASE_RATE, PEAK_ZONE, RELEASE_RATE,
};
use beacn_utility::scalar::Scalar;

fn s(x: f32) -> Scalar {
    Scalar { bits: x.to_bits() }
}

fn f(x: Scalar) -> f32 {
    f32::from_bits(x.bits)
}

fn samples() -> Vec<f32> {
    let mut all = vec![
        0.0,
        -0.0,
        1.0,
        -1.0,
        0.1,
        0.2,
        10.0,
        20.0,
        0.5,
        1.5,
        2.5,
        -2.5,
        0.49999997,
        8388607.5,
        8388608.0,
        16777215.0,
        16777216.0,
        f32::MAX,
        f32::MIN,
        f32::MIN_POSITIVE,
        f32::EPSILON,
        f32::INFINITY,
        f32::NEG_INFINITY,
        f32::NAN,
        f32::from_bits(1),
        f32::from_bits(3),
        f32::from_bits(0x007F_FFFF),
        f32::from_bits(0x0080_0001),
    ];
    let mut bits: u32 = 2024;
    for _ in 0..60 {
        bits = bits.wrapping_mul(1664525).wrapping_add(1013904223);
        all.push(f32::from_bits(bits));
        all.push((bits as i32) as f32 / 1.0e7);
        all.push((bits % 1000) as f32 / 10.0);
    }
    all
}

fn same(x: Scalar, y: f32) -> bool {
    if y.is_nan() {
        f(x).is_nan()
    } else {
        x.bits == y.to_bits()
    }
}

#[test]
fn sums_products_and_quotients_are_those_of_the_machine() {
    let all = samples();
    for &x in &all {
        for &y in &all {
            assert!(same(s(x).plus(s(y)), x + y), "{x} + {y}");
            assert!(same(s(x).times(s(y)), x * y), "{x} * {y}");
            assert!(same(s(x).over(s(y)), x / y), "{x} / {y}");
        }
    }
}

#[test]
fn integers_are_those_of_the_machine() {
    for x in samples() {
        assert!(same(s(x).round(), x.round()), "{x}");
        assert_eq!(s(x).is_infinite(), x.is_infinite());
    }
}

#[test]
fn differences_and_extremes_are_those_of_the_machine() {
    let all = samples();
    for &x in &all {
        assert_eq!(s(x).negate(), s(-x));
        assert_eq!(s(x).unsigned(), s(x.abs()));
        for &y in &all {
            assert!(same(s(x).minus(s(y)), x - y), "{x} - {y}");
            assert_eq!(s(x).is_at_least(s(y)), x >= y, "{x} >= {y}");
            if x != y {
                assert!(same(s(x).or_larger(s(y)), x.max(y)), "{x} max {y}");
                assert!(same(s(x).or_smaller(s(y)), x.min(y)), "{x} min {y}");
            }
        }
    }
}

#[test]
fn counts_are_those_of_the_machine() {
    for x in samples() {
        assert_eq!(s(x).to_count(), x as usize, "{x}");
        assert_eq!(s(x).to_count(), x.floor() as usize, "{x}");
        assert_eq!(s(x).to_count_above(), x.ceil() as usize, "{x}");
        assert!(same(s(x).to_tenths(), (x * 10.0).round() / 10.0), "{x}");
    }
    for n in [0usize, 1, 2, 127, 4096, 16777217, 16777219, 1 << 40, usize::MAX - 1, usize::MAX] {
        assert_eq!(from_count(n), s(n as f32), "{n}");
    }
}

#[test]
fn meter_constants_are_these_numbers() {
    assert_eq!(METER_FLOOR, (-70.0f32).to_bits());
    assert_eq!(ATTACK_TAU, 0.03f32.to_bits());
    assert_eq!(RELEASE_RATE, 90.0f32.to_bits());
    assert_eq!(PEAK_HOLD_TIME, 0.2f32.to_bits());
    assert_eq!(PEAK_RELEASE_RATE, 90.0f32.to_bits());
    assert_eq!(LONGEST_STEP, 0.1f32.to_bits());
    assert_eq!(ONE, 1.0f32.to_bits());
    assert_eq!(LEAST_SPAN, f32::EPSILON.to_bits());
    assert_eq!(PEAK_ZONE, (-5.0f32).to_bits());
    assert_eq!(GOOD_ZONE, (-15.0f32).to_bits());
    assert_eq!(PEAK_LINE_HEIGHT, 2.0f32.to_bits());
    assert_eq!(LARGEST_FALL, 9.0f32.to_bits());
    assert_eq!(LEAST_LEFT, f32::EPSILON.to_bits());
}

#[test]
fn meter_rises_and_falls_like_this() {
    let mut m = MeterBallistics::new(s(-70.0));
    let (mut db, mut peak, mut timer): (f32, f32, f32) = (-70.0, -70.0, 0.0);
    let readings = [-10.0f32, -12.0, -40.0, -40.0, -40.0, -5.0, -60.0, -60.0, -60.0, -60.0, -70.0];
    for (i, &target) in readings.iter().enumerate() {
        let elapsed: f32 = 0.022 + 0.011 * i as f32;
        let exponent = f(attack_exponent(s(elapsed)));
        m.advance(s(target), s(elapsed), s(exponent.exp()));
        let dt = elapsed.min(0.1);
        let alpha: f32 = 1.0 - (-dt / 0.03).exp();
        if target > db {
            db += (target - db) * alpha;
        } else {
            db = (db - 90.0 * dt).max(target);
        }
        if target >= peak {
            peak = target;
            timer = 0.2;
        } else if timer > 0.0 {
            timer -= dt;
        } else {
            peak = (peak - 90.0 * dt).max(target);
        }
        assert_eq!(m.db, s(db));
        assert_eq!(m.peak_db, s(peak));
        assert_eq!(m.peak_hold_timer, s(timer));
        assert!(peak >= target);
    }
}

fn meter(db: f32, peak_db: f32) -> MicMeter {
    MicMeter { db: s(db), peak_db: s(peak_db), min_db: s(-70.0), max_db: s(0.0) }
}

#[test]
fn meter_shows_parts_of_its_height() {
    for db in [-100.0f32, -70.0, -69.9, -35.0, -15.0, -5.0, 0.0, 3.0] {
        let part: f32 = ((db + 70.0) / 70.0).clamp(0.0, 1.0);
        let m = meter(-70.0, -70.0);
        assert_eq!(m.magnitude_fraction(s(db)), s(part));
        assert_eq!(m.y_for_db(s(db), s(4.0), s(200.0)), s(4.0 + 200.0 * (1.0 - part)));
        assert_eq!(m.label_y(s(db), s(200.0)), s((0.0 - db) / 70.0 * 200.0));
    }
    let flat = MicMeter { db: s(0.0), peak_db: s(0.0), min_db: s(0.0), max_db: s(0.0) };
    assert_eq!(flat.magnitude_fraction(s(1.0)), s(1.0));
}

#[test]
fn meter_is_drawn_from_these_bars() {
    let y = |db: f32| 0.0f32 + 150.0 * (1.0 - ((db + 70.0) / 70.0).clamp(0.0, 1.0));
    let peak = y(-5.0) - 2.0;
    let bar = |part, y: f32, height: f32| MeterBar { part, y: s(y), height: s(height) };
    let mut bars = vec![
        bar(MeterPart::Track, 0.0, 150.0),
        bar(MeterPart::Peak, 0.0, peak),
        bar(MeterPart::Good, peak + 2.0, y(-15.0) - peak),
        bar(MeterPart::Level, y(-33.0), 150.0 - y(-33.0)),
    ];
    assert_eq!(meter(-33.0, -70.0).draw(s(150.0)), bars);
    bars.push(bar(MeterPart::PeakLine, y(-20.0) - 2.0, 2.0));
    assert_eq!(meter(-33.0, -20.0).draw(s(150.0)), bars);
    assert_eq!(meter(-33.0, 0.0).draw(s(150.0))[4], bar(MeterPart::PeakLine, 0.0, 2.0));
}

#[test]
fn meter_does_not_overshoot() {
    let levels = [-70.0f32, -69.99, -35.3, -12.0, -0.1, 0.0, 4.5e-6, 6.0];
    for &db in &levels {
        for &target in &levels {
            for elapsed in [0.0f32, 0.001, 0.022, 0.1, 5.0] {
                let exponent = f(attack_exponent(s(elapsed)));
                assert!((-4.0..=0.0).contains(&exponent));
                let mut m = MeterBallistics { db: s(db), peak_db: s(6.0), peak_hold_timer: s(0.0) };
                m.advance(s(target), s(elapsed), s(exponent.exp()));
                assert!(db.min(target) <= f(m.db) && f(m.db) <= db.max(target));
                assert!(f(m.db) >= db - 9.0);
                assert!(f(m.peak_db) >= f(m.db).max(target) && f(m.peak_db) <= 6.0);
            }
        }
    }
}

#[test]
fn more_of_the_meter_is_covered_by_more() {
    let m = meter(-70.0, -70.0);
    let mut before = 0.0f32;
    for i in -800..100 {
        let part = f(m.magnitude_fraction(s(i as f32 / 10.0)));
        assert!(before <= part && part <= 1.0);
        before = part;
    }
    assert_eq!(m.magnitude_fraction(s(f32::NEG_INFINITY)), s(0.0));
    assert_eq!(m.magnitude_fraction(s(-35.0)), s(0.5));
    assert_eq!(m.magnitude_fraction(s(f32::INFINITY)), s(1.0));
}
