use beacn_utility::apo::{clamp_gain, clamp_q, DEFAULT_Q};
use beacn_utility::eq::{MAX_GAIN, MAX_Q, MIN_GAIN, MIN_Q};
use beacn_utility::eq_drawer::MIN_DB;
use beacn_utility::ipc::{HIGHEST_FREQUENCY, LOWEST_FREQUENCY};
use beacn_utility::number::{from_hundredths, from_whole, parse_number};
use beacn_utility::presets::MAX_BASS;
use beacn_utility::scalar::Scalar;

fn s(x: f32) -> Scalar {
    Scalar { bits: x.to_bits() }
}

fn samples() -> Vec<f32> {
    let mut all = vec![
        0.0,
        -0.0,
        0.05,
        0.25,
        0.35,
        0.5,
        1.5,
        2.5,
        -2.5,
        0.7,
        1.2,
        6500.0,
        19999.5,
        4294967040.0,
        4294967296.0,
        f32::MAX,
        f32::MIN,
        f32::MIN_POSITIVE,
        f32::INFINITY,
        f32::NEG_INFINITY,
        f32::NAN,
        f32::from_bits(1),
        f32::from_bits(0x007F_FFFF),
        8388607.5,
        8388608.0,
        16777216.0,
        0.049999997,
        999999.96,
    ];
    let mut bits: u32 = 12345;
    for _ in 0..400 {
        bits = bits.wrapping_mul(1664525).wrapping_add(1013904223);
        all.push(f32::from_bits(bits));
        all.push((bits as i32) as f32 / 1.0e6);
    }
    all
}

#[test]
fn constants_are_these_numbers() {
    assert_eq!(MIN_GAIN, (-12.0f32).to_bits());
    assert_eq!(MAX_GAIN, 12.0f32.to_bits());
    assert_eq!(MIN_Q, 0.1f32.to_bits());
    assert_eq!(MAX_Q, 10.0f32.to_bits());
    assert_eq!(DEFAULT_Q, 0.7f32.to_bits());
    assert_eq!(MAX_BASS, 10.0f32.to_bits());
    assert_eq!(LOWEST_FREQUENCY, 20.0f32.to_bits());
    assert_eq!(HIGHEST_FREQUENCY, 20000.0f32.to_bits());
    assert_eq!(MIN_DB, (-120.0f32).to_bits());
}

#[test]
fn numbers_are_written_as_std_writes_them() {
    for x in samples() {
        assert_eq!(s(x).to_fixed(1, false), format!("{:.1}", x));
        assert_eq!(s(x).to_fixed(2, false), format!("{:.2}", x));
        assert_eq!(s(x).to_fixed(1, true), format!("{:+.1}", x));
        assert_eq!(s(x).to_fixed(0, false), format!("{:.0}", x));
    }
    assert_eq!(s(5.0).to_fixed(0, false), "5");
    assert_eq!(s(1.5).to_fixed(0, true), "+2");
    assert_eq!(s(2.5).to_fixed(0, false), "2");
    assert_eq!(s(2.25).to_fixed(1, false), "2.2");
    assert_eq!(s(-0.04).to_fixed(1, true), "-0.0");
}

#[test]
fn numbers_are_compared_as_std_compares_them() {
    let all = samples();
    for &x in all.iter().take(60) {
        assert_eq!(s(x).is_nan(), x.is_nan());
        assert_eq!(s(x).is_finite(), x.is_finite());
        assert_eq!(s(x).is_zero(), x == 0.0);
        for &y in all.iter().take(60) {
            assert_eq!(s(x).is_below(s(y)), x < y);
            assert_eq!(s(x).is_equal(s(y)), x == y);
        }
    }
}

#[test]
fn numbers_are_clamped_as_std_clamps_them() {
    for x in samples() {
        assert_eq!(clamp_gain(s(x)).bits, x.clamp(-12.0, 12.0).to_bits());
        assert_eq!(clamp_q(s(x)).bits, x.clamp(0.1, 10.0).to_bits());
    }
}

#[test]
fn numbers_are_rounded_as_std_rounds_them() {
    for x in samples() {
        assert_eq!(s(x).round_to_integer(), x.round() as u32);
    }
    assert_eq!(s(0.5).round_to_integer(), 1);
    assert_eq!(s(2.5).round_to_integer(), 3);
    assert_eq!(s(-7.0).round_to_integer(), 0);
}

#[test]
fn numbers_are_read_as_std_reads_them() {
    let texts = [
        "", "+", "-", ".", "+.", "e5", "1e", "1e+", "1.e2", ".5", "5.", "-.5e-3", "0", "-0", "+0",
        "00012.500", "1_000", " 1", "1 ", "1,5", "0x10", "inf", "+INF", "-Infinity", "infinit",
        "nan", "-NaN", "nanx", "1e38", "3.4028235e38", "3.4028236e38", "1e39", "-1e400", "1e-45",
        "7e-46", "7.1e-46", "1e-50", "16777217", "16777219", "33554435", "0.1", "2.35", "1e10",
        "123456789012345678901234567890", "0.000000000000000000000000000000000000011754943508222875",
        "1.17549435e-38", "9007199254740993", "8388608.5", "8388609.5", "1e99999999999999999999",
        "1e-99999999999999999999", "0e99999999999999999999", "0.3000000119209289550781250",
        "0.30000001192092895507812501", "１", "1é",
    ];
    for t in texts {
        let expected: Option<u32> = t.parse::<f32>().ok().map(f32::to_bits);
        assert_eq!(parse_number(t).map(|x| x.bits), expected, "{t:?}");
    }
    for x in samples() {
        if x.is_finite() {
            for t in [format!("{x}"), format!("{x:e}"), format!("{x:.3}")] {
                let expected: u32 = t.parse::<f32>().unwrap().to_bits();
                assert_eq!(parse_number(&t).unwrap().bits, expected, "{t}");
            }
        }
    }
}

#[test]
fn written_numbers_come_back() {
    for k in -120i32..=120 {
        let x: f32 = k as f32 / 10.0;
        let back = parse_number(&s(x).to_fixed(1, false)).unwrap();
        assert_eq!(back.bits, x.to_bits());
    }
}

#[test]
fn integers_and_hundredths_are_nearest() {
    for n in [0u32, 1, 20, 6080, 16777217, 4294967295] {
        assert_eq!(from_whole(n).bits, (n as f32).to_bits());
    }
    for (n, x) in [(0, 0.0f32), (70, 0.7), (-250, -2.5), (220, 2.2), (
        1000000,
        10000.0,
    ), (-1, -0.01)]
    {
        assert_eq!(from_hundredths(n).bits, x.to_bits());
    }
}
