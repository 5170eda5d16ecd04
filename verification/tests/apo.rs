use beacn_utility::apo::{export_apo_eq, import_apo_eq, meaning, Word};
use beacn_utility::eq::{EQBand, EQBandType, EqualiserBandConfig};
use beacn_utility::scalar::Scalar;

fn s(x: f32) -> Scalar {
    Scalar { bits: x.to_bits() }
}

fn f(x: Scalar) -> f32 {
    f32::from_bits(x.bits)
}

fn band(band_type: EQBandType, frequency: u32, gain: f32, q: f32) -> EqualiserBandConfig {
    EqualiserBandConfig {
        enabled: true,
        band_type,
        frequency,
        gain: s(gain),
        q: s(q),
    }
}

#[test]
fn test_apo_export_and_import_roundtrip() {
    let bands = vec![
        (
            EQBand::Band1,
            EqualiserBandConfig {
                enabled: true,
                band_type: EQBandType::HighPassFilter,
                frequency: 60,
                gain: s(0.0),
                q: s(0.7),
            },
        ),
        (
            EQBand::Band2,
            EqualiserBandConfig {
                enabled: true,
                band_type: EQBandType::BellBand,
                frequency: 250,
                gain: s(2.5),
                q: s(1.2),
            },
        ),
        (
            EQBand::Band3,
            EqualiserBandConfig {
                enabled: true,
                band_type: EQBandType::HighShelf,
                frequency: 6500,
                gain: s(3.0),
                q: s(0.7),
            },
        ),
    ];

    let exported = export_apo_eq(&bands, "Test Mic");
    assert!(exported.contains("ON HP Fc 60 Hz"));
    assert!(exported.contains("ON PK Fc 250 Hz Gain 2.5 dB Q 1.20"));
    assert!(exported.contains("ON HSC Fc 6500 Hz Gain 3.0 dB Q 0.70"));

    let imported = import_apo_eq(&exported);
    assert_eq!(imported.len(), 3);
    assert_eq!(imported[0].band_type, EQBandType::HighPassFilter);
    assert_eq!(imported[0].frequency, 60);

    assert_eq!(imported[1].band_type, EQBandType::BellBand);
    assert_eq!(imported[1].frequency, 250);
    assert!((f(imported[1].gain) - 2.5).abs() < 1e-4);
    assert!((f(imported[1].q) - 1.2).abs() < 1e-4);

    assert_eq!(imported[2].band_type, EQBandType::HighShelf);
    assert_eq!(imported[2].frequency, 6500);
    assert!((f(imported[2].gain) - 3.0).abs() < 1e-4);
    assert!((f(imported[2].q) - 0.7).abs() < 1e-4);
}

#[test]
fn whole_export_is_this_text() {
    let mut off = band(EQBandType::BellBand, 100, 1.0, 1.0);
    off.enabled = false;
    let bands = [
        (EQBand::Band1, off),
        (EQBand::Band2, band(EQBandType::NotSet, 100, 1.0, 1.0)),
        (EQBand::Band3, band(EQBandType::LowPassFilter, 12000, 1.0, 1.0)),
        (EQBand::Band4, band(EQBandType::NotchFilter, 50, 1.0, 9.999)),
        (EQBand::Band5, band(EQBandType::LowShelf, 80, -2.55, 0.125)),
    ];
    assert_eq!(
        export_apo_eq(&bands, "T"),
        "# Equalizer APO / REW Parametric EQ Configuration (T)\n\
         # Exported from BEACN Utility\n\n\
         Filter 1: ON LP Fc 12000 Hz\n\
         Filter 2: ON NO Fc 50 Hz Q 10.00\n\
         Filter 3: ON LSC Fc 80 Hz Gain -2.5 dB Q 0.12\n"
    );
    assert_eq!(import_apo_eq(&export_apo_eq(&[], "")).len(), 0);
}

#[test]
fn every_shape_word_is_read() {
    let words = [
        ("PK", EQBandType::BellBand),
        ("Peak", EQBandType::BellBand),
        ("bell", EQBandType::BellBand),
        ("HP", EQBandType::HighPassFilter),
        ("HighPass", EQBandType::HighPassFilter),
        ("hpq", EQBandType::HighPassFilter),
        ("LP", EQBandType::LowPassFilter),
        ("lowpass", EQBandType::LowPassFilter),
        ("LPQ", EQBandType::LowPassFilter),
        ("LSC", EQBandType::LowShelf),
        ("LowShelf", EQBandType::LowShelf),
        ("hsc", EQBandType::HighShelf),
        ("HIGHSHELF", EQBandType::HighShelf),
        ("no", EQBandType::NotchFilter),
        ("Notch", EQBandType::NotchFilter),
    ];
    for (word, shape) in words {
        let read = import_apo_eq(&format!("Filter 1: {word} Fc 100"));
        assert_eq!(read, vec![band(shape, 100, 0.0, 0.7)]);
    }
}

#[test]
fn letters_beyond_ascii_are_made_large_too() {
    let read = import_apo_eq("Filter 1: ON h\u{131}ghpa\u{17f}\u{17f} Fc 100 Hz");
    assert_eq!(read, vec![band(EQBandType::HighPassFilter, 100, 0.0, 0.7)]);
}

#[test]
fn lines_that_describe_no_band_are_passed_over() {
    assert!(import_apo_eq("").is_empty());
    assert!(import_apo_eq("# Filter 1: ON PK Fc 100 Hz").is_empty());
    assert!(import_apo_eq("   # PK Fc 100 Hz").is_empty());
    assert!(import_apo_eq("PK Fc 100").is_empty());
    assert!(import_apo_eq("Filter 1: ON PK Hz").is_empty());
    assert!(import_apo_eq("Filter 1: ON Fc 100 Hz").is_empty());
    assert!(import_apo_eq("Filter 1: ON PK Fc abc").is_empty());
    assert!(import_apo_eq("Filter 1: ON PK Fc").is_empty());
    assert_eq!(import_apo_eq("\r\n\tx PK FC 100\r\nPreamp: -6 dB x\n").len(), 1);
}

#[test]
fn joined_texts_give_both_lists() {
    let texts = [
        "",
        "\n",
        "\r",
        "x PK Fc 100",
        "x HP Fc 50\r",
        "# none\nx LP Fc 9000 Hz Q 2\n\nx NO Fc 60\r\n",
    ];
    for a in texts {
        for b in texts {
            let mut both = import_apo_eq(a);
            both.extend(import_apo_eq(b));
            assert_eq!(import_apo_eq(&format!("{a}\n{b}")), both);
        }
    }
}

#[test]
fn numbers_of_a_line_are_brought_into_range() {
    let read = import_apo_eq("x PK Fc 5Hz Gain +99dB Q 0.01");
    assert_eq!(read, vec![band(EQBandType::BellBand, 20, 12.0, 0.1)]);
    let read = import_apo_eq("x PK Fc 1e9 Gain -inf Q 11");
    assert_eq!(read, vec![band(EQBandType::BellBand, 20000, -12.0, 10.0)]);
    let read = import_apo_eq("x PK Fc 99.5 Gain oops Q oops");
    assert_eq!(read, vec![band(EQBandType::BellBand, 100, 0.0, 0.7)]);
    let read = import_apo_eq("x PK Fc nan Gain NaN Q 1");
    assert_eq!(read[0].frequency, 20);
    assert!(f(read[0].gain).is_nan());
}

#[test]
fn last_word_of_a_kind_counts() {
    let read = import_apo_eq("Filter OFF PK Fc 100 HP Fc 200 Fc x");
    let mut expected = band(EQBandType::HighPassFilter, 200, 0.0, 0.7);
    expected.enabled = false;
    assert_eq!(read, vec![expected]);
    let read = import_apo_eq("Fc ON PK Fc 100 OFF ON");
    assert_eq!(read, vec![band(EQBandType::BellBand, 100, 0.0, 0.7)]);
}

#[test]
fn bands_that_were_read_come_back_unchanged() {
    let mut bands = Vec::new();
    for i in 0..9usize {
        let gain: f32 = -13.0 + 3.217 * i as f32;
        let q: f32 = 0.037 * (i as f32 + 1.0) * (i as f32 + 1.0);
        bands.push((
            EQBand::from_index(i),
            band(EQBandType::HighShelf, 15 + 2500 * i as u32, gain, q),
        ));
    }
    let once = import_apo_eq(&export_apo_eq(&bands, "one"));
    assert_eq!(once.len(), 9);
    let again: Vec<(EQBand, EqualiserBandConfig)> =
        once.iter().map(|&c| (EQBand::Band1, c)).collect();
    assert_eq!(import_apo_eq(&export_apo_eq(&again, "two")), once);
    for c in &once {
        assert!((20..=20000).contains(&c.frequency));
        assert!((-12.0..=12.0).contains(&f(c.gain)));
        assert!((0.1..=10.0).contains(&f(c.q)));
    }
}

#[test]
fn words_are_told_apart_in_large_letters() {
    assert_eq!(meaning("OFF"), Word::Off);
    assert_eq!(meaning("ON"), Word::On);
    assert_eq!(meaning("BELL"), Word::Shape(EQBandType::BellBand));
    assert_eq!(meaning("HPQ"), Word::Shape(EQBandType::HighPassFilter));
    assert_eq!(meaning("LP"), Word::Shape(EQBandType::LowPassFilter));
    assert_eq!(meaning("LSC"), Word::Shape(EQBandType::LowShelf));
    assert_eq!(meaning("HIGHSHELF"), Word::Shape(EQBandType::HighShelf));
    assert_eq!(meaning("NOTCH"), Word::Shape(EQBandType::NotchFilter));
    assert_eq!(meaning("FC"), Word::Frequency);
    assert_eq!(meaning("GAIN"), Word::Gain);
    assert_eq!(meaning("Q"), Word::Q);
    assert_eq!(meaning("fc"), Word::Other);
    assert_eq!(meaning(""), Word::Other);
}
