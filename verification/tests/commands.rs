use beacn_utility::args::{listing, Args, LevelFilter, ManagerMessages, Offline, WindowMessage};
use beacn_utility::eq::{EQBand, EQBandType};
use beacn_utility::ipc::{
    bind_listener, handle_active_instance, handle_ipc, list_reply, parse_eq_band,
    parse_eq_band_args, parse_eq_shape, remove_stale_file_socket, BindStep, Response,
};
use beacn_utility::scalar::Scalar;

fn s(x: f32) -> Scalar {
    Scalar { bits: x.to_bits() }
}

fn strings(names: &[&str]) -> Vec<String> {
    names.iter().map(|n| n.to_string()).collect()
}

fn args() -> Args {
    Args {
        log_level: LevelFilter::Debug,
        background: false,
        profile: None,
        list_profiles: false,
        reload: false,
        set_gain: None,
        set_eq_band: None,
    }
}

fn reply_to(line: &str) -> (String, String) {
    match handle_ipc(line) {
        Response::Reply { message, reply } => (
            match message {
                Some(m) => format!("{m:?}"),
                None => "nothing".to_string(),
            },
            reply,
        ),
        Response::ListProfiles => ("list".to_string(), String::new()),
    }
}

#[test]
fn test_eq_parser_helpers() {
    assert_eq!(parse_eq_band("1").unwrap(), EQBand::Band1);
    assert_eq!(parse_eq_band("Band5").unwrap(), EQBand::Band5);
    assert_eq!(parse_eq_band("9").unwrap(), EQBand::Band9);
    assert!(parse_eq_band("10").is_err());

    assert_eq!(parse_eq_shape("bell").unwrap(), EQBandType::BellBand);
    assert_eq!(parse_eq_shape("hp").unwrap(), EQBandType::HighPassFilter);
    assert_eq!(parse_eq_shape("notch").unwrap(), EQBandType::NotchFilter);
    assert_eq!(parse_eq_shape("hs").unwrap(), EQBandType::HighShelf);
    assert_eq!(parse_eq_shape("ls").unwrap(), EQBandType::LowShelf);
    assert!(parse_eq_shape("unknown").is_err());

    let (band, shape, freq, gain, q) =
        parse_eq_band_args("5", "notch", "6080", "-3.0", "2.5").unwrap();
    assert_eq!(band, EQBand::Band5);
    assert_eq!(shape, EQBandType::NotchFilter);
    assert_eq!(freq, s(6080.0));
    assert_eq!(gain, s(-3.0));
    assert_eq!(q, s(2.5));
}

#[test]
fn every_band_has_two_names() {
    for i in 0..9usize {
        let band = EQBand::from_index(i);
        assert_eq!(parse_eq_band(&format!(" {} ", i + 1)), Ok(band));
        assert_eq!(parse_eq_band(&format!("bAnD{}\n", i + 1)), Ok(band));
        assert_eq!(band.index(), i);
    }
    assert_eq!(
        parse_eq_band(" 0"),
        Err("Invalid EQ band ' 0'. Expected 1-9 or Band1-Band9".to_string())
    );
}

#[test]
fn every_shape_has_these_names() {
    let names = [
        (EQBandType::BellBand, vec!["bell", "pk", "peak", "bellband"]),
        (
            EQBandType::HighPassFilter,
            vec!["hp", "highpass", "hpf", "highpassfilter"],
        ),
        (
            EQBandType::LowPassFilter,
            vec!["lp", "lowpass", "lpf", "lowpassfilter"],
        ),
        (EQBandType::LowShelf, vec!["ls", "lowshelf", "lsc"]),
        (EQBandType::HighShelf, vec!["hs", "highshelf", "hsc"]),
        (EQBandType::NotchFilter, vec!["notch", "no", "notchfilter"]),
    ];
    for (shape, words) in names {
        for word in words {
            assert_eq!(parse_eq_shape(word), Ok(shape));
            assert_eq!(parse_eq_shape(&word.to_uppercase()), Ok(shape));
        }
    }
    assert_eq!(
        parse_eq_shape("x"),
        Err("Invalid filter shape 'x'. Expected bell, hp, lp, ls, hs, or notch".to_string())
    );
}

#[test]
fn first_word_that_stands_for_nothing_is_named() {
    let errors = [
        (("0", "x", "x", "x", "x"), "Invalid EQ band '0'. Expected 1-9 or Band1-Band9"),
        (
            ("1", "x", "x", "x", "x"),
            "Invalid filter shape 'x'. Expected bell, hp, lp, ls, hs, or notch",
        ),
        (("1", "hp", "y", "x", "x"), "Invalid frequency 'y'"),
        (("1", "hp", "1", " z", "x"), "Invalid gain ' z'"),
        (("1", "hp", "1", "1", ""), "Invalid Q factor ''"),
    ];
    for ((a, b, c, d, e), text) in errors {
        assert_eq!(parse_eq_band_args(a, b, c, d, e), Err(text.to_string()));
    }
    assert_eq!(
        parse_eq_band_args("1", "hp", " 1 ", "99", "0"),
        Ok((EQBand::Band1, EQBandType::HighPassFilter, s(20.0), s(12.0), s(0.1)))
    );
    assert_eq!(
        parse_eq_band_args("1", "hp", "inf", "-99", "1e3"),
        Ok((EQBand::Band1, EQBandType::HighPassFilter, s(20000.0), s(-12.0), s(10.0)))
    );
}

#[test]
fn requests_are_answered() {
    let cases = [
        ("TRIGGER\n", "OpenWindow", "OK: Window opened\n"),
        (" RELOAD \r\n", "ReloadProfile", "OK: Profile reloaded\n"),
        (
            "PROFILE: Warm Voiceover \n",
            "SwitchProfile(\"Warm Voiceover\")",
            "OK: Switched profile to 'Warm Voiceover'\n",
        ),
        ("PROFILE:", "SwitchProfile(\"\")", "OK: Switched profile to ''\n"),
        ("SET_GAIN: 24\n", "SetGain(24)", "OK: Set mic gain to 24 dB\n"),
        ("SET_GAIN:+07", "SetGain(7)", "OK: Set mic gain to 7 dB\n"),
        ("SET_GAIN:256", "nothing", "ERR: Invalid gain value\n"),
        ("SET_GAIN:-1", "nothing", "ERR: Invalid gain value\n"),
        (
            "SET_EQ_BAND:1:hp:80",
            "nothing",
            "ERR: Expected SET_EQ_BAND:<band>:<shape>:<freq>:<gain>:<q>\n",
        ),
        (
            "SET_EQ_BAND:1:hp:x:1:1",
            "nothing",
            "ERR: Invalid frequency 'x'\n",
        ),
        ("trigger", "nothing", "ERR: Unknown command\n"),
        ("", "nothing", "ERR: Unknown command\n"),
        ("LIST_PROFILES\n", "list", ""),
    ];
    for (line, message, reply) in cases {
        assert_eq!(reply_to(line), (message.to_string(), reply.to_string()), "{line:?}");
    }
}

#[test]
fn setting_a_band_is_answered_with_its_numbers() {
    match handle_ipc("SET_EQ_BAND: 5 : Notch:6080.04:3: 2.5\n") {
        Response::Reply {
            message:
                Some(WindowMessage::SetEqBand {
                    band,
                    band_type,
                    frequency,
                    gain,
                    q,
                }),
            reply,
        } => {
            assert_eq!(band, EQBand::Band5);
            assert_eq!(band_type, EQBandType::NotchFilter);
            assert_eq!(frequency, s(6080.04));
            assert_eq!(gain, s(3.0));
            assert_eq!(q, s(2.5));
            assert_eq!(
                reply,
                "OK: Set EQ Band Band5 to NotchFilter 6080.0Hz +3.0dB Q2.50\n"
            );
        }
        other => panic!("{other:?}"),
    }
}

#[test]
fn profiles_are_listed_to_another_instance() {
    assert_eq!(
        list_reply(&strings(&["A", "B", "C"]), "B"),
        "  A\n* B [active]\n  C\n"
    );
    assert_eq!(list_reply(&[], "B"), "");
}

#[test]
fn profiles_are_listed_on_the_command_line() {
    assert_eq!(
        listing(&strings(&["A", "B"]), "A"),
        strings(&["Available Profiles (2):", "  * A [active]", "    B"])
    );
}

#[test]
fn command_line_becomes_a_command() {
    assert_eq!(handle_active_instance(&args()), "TRIGGER\n");
    let a = Args { set_eq_band: Some(strings(&["1", "hp"])), ..args() };
    assert_eq!(handle_active_instance(&a), "TRIGGER\n");
    let a = Args { set_eq_band: Some(strings(&["1", "hp", "80", "0", "0.7"])), ..args() };
    assert_eq!(handle_active_instance(&a), "SET_EQ_BAND:1:hp:80:0:0.7\n");
    let a = Args { set_gain: Some(24), ..a };
    assert_eq!(handle_active_instance(&a), "SET_GAIN:24\n");
    let a = Args { reload: true, ..a };
    assert_eq!(handle_active_instance(&a), "RELOAD\n");
    let a = Args { profile: Some("x".to_string()), ..a };
    assert_eq!(handle_active_instance(&a), "PROFILE:x\n");
}

#[test]
fn commands_are_taken_for_what_they_mean() {
    let send = |a: Args| reply_to(&handle_active_instance(&a)).0;
    assert_eq!(send(args()), "OpenWindow");
    assert_eq!(send(Args { reload: true, ..args() }), "ReloadProfile");
    for gain in 0..=255u8 {
        assert_eq!(send(Args { set_gain: Some(gain), ..args() }), format!("SetGain({gain})"));
    }
    assert_eq!(
        send(Args { profile: Some(" a:b ".to_string()), ..args() }),
        "SwitchProfile(\"a:b\")"
    );
    let words = strings(&["2", "ls", " 100", "1:2", "1"]);
    assert_eq!(send(Args { set_eq_band: Some(words), ..args() }), "nothing");
    let words = strings(&["2", "ls", " 100", "1", "1 "]);
    assert!(send(Args { set_eq_band: Some(words), ..args() }).starts_with("SetEqBand"));
}

#[test]
fn without_an_instance_the_command_line_decides() {
    match (Args { profile: Some("P".to_string()), reload: true, ..args() }).offline() {
        Offline::SetProfile(name) => assert_eq!(name, "P"),
        other => panic!("{other:?}"),
    }
    let said = (Args { profile: Some("P".to_string()), ..args() }).offline().message();
    assert_eq!(said.unwrap(), "Set active profile to 'P' (offline mode)");
    let said = (Args { set_gain: Some(1), ..args() }).offline();
    assert!(matches!(said, Offline::NoInstance));
    assert_eq!(
        said.message().unwrap(),
        "No active beacn-utility instance running to receive command."
    );
    assert!(matches!(
        (Args { set_eq_band: Some(vec![]), ..args() }).offline(),
        Offline::NoInstance
    ));
    assert!(matches!(args().offline(), Offline::Run));
    assert!(args().offline().message().is_none());
}

#[test]
fn window_opens_unless_in_the_background() {
    assert!(matches!(args().first_message(), Some(WindowMessage::OpenWindow)));
    assert!((Args { background: true, ..args() }).first_message().is_none());
    assert_eq!(ManagerMessages::Quit, ManagerMessages::Quit);
}

#[test]
fn a_socket_left_behind_is_removed_once() {
    assert_eq!(bind_listener(false, true, false), BindStep::Listen);
    assert_eq!(bind_listener(false, false, true), BindStep::RemoveAndRetry);
    assert_eq!(bind_listener(true, true, false), BindStep::Listen);
    assert_eq!(bind_listener(true, false, true), BindStep::Fail);
    assert_eq!(bind_listener(false, false, false), BindStep::Fail);
    assert!(remove_stale_file_socket(false, true));
    assert!(!remove_stale_file_socket(false, false));
    assert!(!remove_stale_file_socket(true, true));
}
