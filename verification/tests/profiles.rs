use beacn_utility::eq::{EQBand, EQBandType, EQMode, EqualiserBandConfig};
use beacn_utility::messages::{
    BassEnhancement, Compressor, CompressorMode, DeEsser, EQMicrophone, Expander, ExpanderMode,
    Message, Suppressor,
};
use beacn_utility::presets::FactoryProfile;
use beacn_utility::profile::{
    sanitize_filename, AudioProfile, DeleteError, ProfileManager, ACTIVE_FILE, MIC_EQ_FILE,
    PROFILE_FILE,
};
use beacn_utility::scalar::Scalar;
use beacn_utility::sorting::{is_text_le, sort_texts};

fn s(x: f32) -> Scalar {
    Scalar { bits: x.to_bits() }
}

fn strings(names: &[&str]) -> Vec<String> {
    names.iter().map(|n| n.to_string()).collect()
}

#[test]
fn test_sanitize_filename() {
    assert_eq!(sanitize_filename("Valid_Name-123"), "Valid_Name-123");
    assert_eq!(
        sanitize_filename("Invalid/Name:Test*?"),
        "Invalid_Name_Test__"
    );
    assert_eq!(sanitize_filename("Name with spaces"), "Name with spaces");
}

#[test]
fn every_forbidden_character_is_replaced() {
    assert_eq!(sanitize_filename("/\\:*?\"<>|"), "_________");
    assert_eq!(sanitize_filename(""), "");
    assert_eq!(sanitize_filename("Größe\n../x"), "Größe\n.._x");
    let once = sanitize_filename("a/b|c");
    assert_eq!(sanitize_filename(&once), once);
}

#[test]
fn test_profile_manager_basic() {
    let mut found = Vec::new();
    for profile in ProfileManager::ensure_default_profiles(&[false; 4]) {
        let files = ProfileManager::save_profile(&profile.name);
        assert_eq!(files.directory[0], "profiles");
        found.push(files.directory[1].clone());
    }
    let profiles = ProfileManager::list_profiles(found);
    assert!(!profiles.is_empty());
    assert!(profiles.contains(&"Default".to_string()));

    let content = ProfileManager::set_active_profile_name("Broadcast");
    assert_eq!(
        ProfileManager::get_active_profile_name(Some(&content)),
        "Broadcast"
    );
}

#[test]
fn default_profile_is_empty() {
    let profile = AudioProfile::default();
    assert_eq!(profile.schema_version, 1);
    assert_eq!(profile.name, "Default");
    assert!(profile.settings.is_empty());
}

#[test]
fn only_missing_factory_profiles_are_written() {
    let names = |present: &[bool; 4]| -> Vec<String> {
        ProfileManager::ensure_default_profiles(present)
            .into_iter()
            .map(|p| p.name)
            .collect()
    };
    assert_eq!(
        names(&[false; 4]),
        strings(&[
            "Broadcast",
            "Gaming & Discord",
            "Warm Voiceover",
            "High Clarity"
        ])
    );
    assert_eq!(
        names(&[true, false, true, false]),
        strings(&["Gaming & Discord", "High Clarity"])
    );
    assert!(names(&[true; 4]).is_empty());
}

#[test]
fn broadcast_sends_these_settings() {
    let profile = &ProfileManager::ensure_default_profiles(&[false, true, true, true])[0];
    assert_eq!(profile.schema_version, 1);
    let a = EQMode::Advanced;
    let eq = |m: EQMicrophone| Message::EQMicrophone(m);
    let mut expected = vec![eq(EQMicrophone::Mode(a))];
    let bands = [
        (EQBand::Band1, EQBandType::HighPassFilter, 80.0, 0.0, 0.7),
        (EQBand::Band2, EQBandType::BellBand, 250.0, -2.5, 1.2),
        (EQBand::Band3, EQBandType::BellBand, 3500.0, 3.0, 1.0),
        (EQBand::Band4, EQBandType::HighShelf, 10000.0, 2.0, 0.7),
    ];
    for (band, shape, frequency, gain, q) in bands {
        expected.push(eq(EQMicrophone::Type(a, band, shape)));
        expected.push(eq(EQMicrophone::Frequency(a, band, s(frequency))));
        expected.push(eq(EQMicrophone::Gain(a, band, s(gain))));
        expected.push(eq(EQMicrophone::Q(a, band, s(q))));
        expected.push(eq(EQMicrophone::Enabled(a, band, true)));
    }
    for band in [
        EQBand::Band5,
        EQBand::Band6,
        EQBand::Band7,
        EQBand::Band8,
        EQBand::Band9,
    ] {
        expected.push(eq(EQMicrophone::Enabled(a, band, false)));
    }
    let c = CompressorMode::Advanced;
    expected.push(Message::Compressor(Compressor::Mode(c)));
    expected.push(Message::Compressor(Compressor::Enabled(c, true)));
    expected.push(Message::Compressor(Compressor::Threshold(c, s(-20.0))));
    expected.push(Message::Compressor(Compressor::Ratio(c, s(3.5))));
    expected.push(Message::Compressor(Compressor::Attack(c, s(8.0))));
    expected.push(Message::Compressor(Compressor::Release(c, s(80.0))));
    expected.push(Message::Compressor(Compressor::MakeupGain(c, s(2.5))));
    let e = ExpanderMode::Advanced;
    expected.push(Message::Expander(Expander::Mode(e)));
    expected.push(Message::Expander(Expander::Enabled(e, true)));
    expected.push(Message::Expander(Expander::Threshold(e, -38)));
    expected.push(Message::Expander(Expander::Ratio(e, s(2.5))));
    expected.push(Message::Expander(Expander::Attack(e, s(8.0))));
    expected.push(Message::Expander(Expander::Release(e, s(80.0))));
    expected.push(Message::Suppressor(Suppressor::Enabled(true)));
    expected.push(Message::Suppressor(Suppressor::Amount(s(40.0))));
    expected.push(Message::BassEnhancement(BassEnhancement::Enabled(true)));
    expected.push(Message::BassEnhancement(BassEnhancement::Amount(s(4.0))));
    expected.push(Message::DeEsser(DeEsser::Enabled(true)));
    expected.push(Message::DeEsser(DeEsser::Amount(s(35.0))));
    assert_eq!(profile.settings, expected);
}

#[test]
fn factory_definitions_hold_these_numbers() {
    let gaming = FactoryProfile::GamingAndDiscord.definition();
    assert_eq!(gaming.bands[1].gain, s(-3.0));
    assert_eq!(gaming.bands[1].q, s(1.5));
    assert_eq!(gaming.compressor_threshold, s(-22.0));
    assert_eq!(gaming.expander_threshold, -34);
    assert_eq!(gaming.suppressor_amount, s(55.0));
    assert!(!gaming.bass_enabled);
    assert_eq!(gaming.bass_amount, s(0.0));
    let warm = FactoryProfile::WarmVoiceover.definition();
    assert_eq!(warm.bands[3].frequency, s(4500.0));
    assert_eq!(warm.bands[3].q, s(0.9));
    assert_eq!(warm.compressor_ratio, s(2.2));
    assert_eq!(warm.expander_threshold, -42);
    let clear = FactoryProfile::HighClarity.definition();
    assert_eq!(clear.bands[2].gain, s(-4.0));
    assert_eq!(clear.compressor_ratio, s(2.8));
    assert_eq!(clear.deesser_amount, s(50.0));
}

#[test]
fn every_factory_profile_switches_every_band() {
    for profile in ProfileManager::ensure_default_profiles(&[false; 4]) {
        for i in 0..9 {
            let band = EQBand::from_index(i);
            let on = Message::EQMicrophone(EQMicrophone::Enabled(EQMode::Advanced, band, true));
            let off = Message::EQMicrophone(EQMicrophone::Enabled(EQMode::Advanced, band, false));
            assert_eq!(profile.settings.contains(&on), i < 4);
            assert_eq!(profile.settings.contains(&off), i >= 4);
        }
    }
}

#[test]
fn listing_is_sorted_and_has_the_default() {
    assert_eq!(ProfileManager::list_profiles(vec![]), strings(&["Default"]));
    assert_eq!(
        ProfileManager::list_profiles(strings(&["b", "a", "Z"])),
        strings(&["Default", "Z", "a", "b"])
    );
    assert_eq!(
        ProfileManager::list_profiles(strings(&["x", "dEFAULT"])),
        strings(&["dEFAULT", "x"])
    );
}

#[test]
fn texts_sort_as_std_sorts_them() {
    let names = strings(&["", "b", "ab", "a", "ä", "😀", "\u{ffff}", "B", "ab", "a b"]);
    let mut expected = names.clone();
    expected.sort();
    assert_eq!(sort_texts(names.clone()), expected);
    for a in &names {
        for b in &names {
            assert_eq!(is_text_le(a, b), a <= b);
        }
    }
}

#[test]
fn active_name_is_trimmed_or_the_default() {
    let get = ProfileManager::get_active_profile_name;
    assert_eq!(get(Some("  Warm Voiceover \n")), "Warm Voiceover");
    assert_eq!(get(Some(" \t\r\n")), "Default");
    assert_eq!(get(Some("")), "Default");
    assert_eq!(get(None), "Default");
    let kept = ProfileManager::set_active_profile_name(" a/b ");
    assert_eq!(kept, " a_b ");
    assert_eq!(get(Some(&kept)), "a_b");
}

#[test]
fn default_profile_cannot_be_deleted() {
    for name in ["Default", "default", "DEFAULT"] {
        let e = ProfileManager::delete_profile(name).unwrap_err();
        assert_eq!(e, DeleteError::IsDefault);
        assert_eq!(e.message(), "Cannot delete the Default profile");
    }
    assert_eq!(
        ProfileManager::delete_profile("a:b").unwrap(),
        strings(&["profiles", "a_b"])
    );
    assert!(ProfileManager::delete_profile(" Default").is_ok());
}

#[test]
fn saving_with_bands_writes_their_text() {
    let band = EqualiserBandConfig {
        enabled: true,
        band_type: EQBandType::NotchFilter,
        frequency: 50,
        gain: s(0.0),
        q: s(5.0),
    };
    let files = ProfileManager::save_profile_with_apo("x?", Some(&[(EQBand::Band1, band)]));
    assert_eq!(files.directory, strings(&["profiles", "x_"]));
    assert_eq!(
        files.mic_eq.unwrap(),
        "# Equalizer APO / REW Parametric EQ Configuration (Microphone)\n\
         # Exported from BEACN Utility\n\nFilter 1: ON NO Fc 50 Hz Q 5.00\n"
    );
    assert!(ProfileManager::save_profile("x").mic_eq.is_none());
    assert_eq!(ProfileManager::get_profiles_dir(), strings(&["profiles"]));
}

#[test]
fn profile_is_read_where_it_is() {
    assert_eq!(ProfileManager::load_profile("a/b", false), None);
    assert_eq!(
        ProfileManager::load_profile("a/b", true),
        Some(vec!["profiles".to_string(), "a_b".to_string(), "profile.json".to_string()])
    );
    assert_eq!(PROFILE_FILE, "profile.json");
    assert_eq!(MIC_EQ_FILE, "mic_eq.txt");
    assert_eq!(ACTIVE_FILE, "active_profile.txt");
}

#[test]
fn a_deleted_profile_is_gone() {
    let found = strings(&["Broadcast", "My_Mic"]);
    let gone = ProfileManager::delete_profile("My/Mic").unwrap();
    assert_eq!(gone, strings(&["profiles", "My_Mic"]));
    let left: Vec<String> = found.into_iter().filter(|n| *n != gone[1]).collect();
    let there = left.contains(&gone[1]);
    assert_eq!(ProfileManager::list_profiles(left), strings(&["Broadcast", "Default"]));
    assert!(ProfileManager::load_profile("My/Mic", there).is_none());
}
