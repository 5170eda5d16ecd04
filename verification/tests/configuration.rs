use beacn_utility::config::{
    loopback_panel, meter_marks, ConfigAction, ConfigMessage, Configuration, LoopbackHandlerState,
    LoopbackPanel, Recording, SnapshotSlot, Tint,
};
use beacn_utility::devices::DeviceType;
use beacn_utility::eq::{Bands, EQBand, EQBandType, EQMode, EqualiserBandConfig};
use beacn_utility::messages::{Headphones, Message};
use beacn_utility::meter::MicMeter;
use beacn_utility::mic_equaliser::EqState;
use beacn_utility::ports::{
    bus_address, find_ports, FoundPorts, Node, PipeWireNodeType, PipeWirePortType, Port,
};
use beacn_utility::scalar::Scalar;

fn s(x: f32) -> Scalar {
    Scalar { bits: x.to_bits() }
}

fn state() -> EqState {
    let mut advanced = Bands::default();
    advanced.set(
        EQBand::Band4,
        EqualiserBandConfig {
            enabled: true,
            band_type: EQBandType::BellBand,
            frequency: 100,
            gain: s(0.0),
            q: s(1.0),
        },
    );
    EqState {
        mode: EQMode::Advanced,
        simple: Bands::default(),
        advanced,
    }
}

fn page() -> Configuration {
    Configuration::new(vec!["Default".to_string()])
}

fn said(actions: &[ConfigAction]) -> String {
    format!("{actions:?}")
}

const NO_PORTS: FoundPorts = FoundPorts {
    spectrum: None,
    dry_mix: None,
    loopback: None,
};
const ALL_PORTS: FoundPorts = FoundPorts {
    spectrum: Some(7),
    dry_mix: Some(8),
    loopback: Some(9),
};

fn port(id: u32, name: &str, port_type: PipeWirePortType) -> Port {
    Port {
        id,
        name: name.to_string(),
        port_type,
    }
}

fn channels(count: u32) -> Vec<(String, u32)> {
    (0..count).map(|i| (format!("AUX{i}"), 100 + i)).collect()
}

#[test]
fn page_starts_what_it_can_and_stops_it() {
    let mut p = page();
    assert_eq!(
        said(&p.on_open(&state(), ALL_PORTS)),
        "[StartLoopback(8, 9), StartSpectrum(7, 48000), OpenTab(0)]"
    );
    assert!(p.spectrum_running && p.spectrum_data && p.loopback);
    assert_eq!(p.equaliser.active_band, Some(EQBand::Band4));
    assert_eq!(said(&p.on_open(&state(), ALL_PORTS)), "[OpenTab(0)]");
    assert_eq!(
        said(&p.on_close()),
        "[StopSpectrum, StopLoopback, ClearLoopback, \
         Send(Headphones(MicFromLoopback(false))), CloseTab(0)]"
    );
    assert!(!p.spectrum_running && !p.spectrum_data && !p.loopback);
    assert_eq!(p.equaliser.eq_mode, EQMode::Simple);
    assert_eq!(said(&p.on_close()), "[CloseTab(0)]");
    let half = FoundPorts { loopback: None, ..ALL_PORTS };
    assert_eq!(said(&p.on_open(&state(), half)), "[StartSpectrum(7, 48000), OpenTab(0)]");
    assert_eq!(said(&p.drop_handlers()), "[StopSpectrum]");
    assert_eq!(p.icon(), "mic");
}

#[test]
fn page_moves_on() {
    let mut p = page();
    assert_eq!(said(&p.tick(true)), "[TabMeters(0), AdvanceMeter, TabTick(0)]");
    assert_eq!(said(&p.tick(false)), "[TabTick(0)]");
    p.on_tick(false, Some(vec![s(-3.0)]));
    assert!(p.equaliser.view.spectrum_bins.is_empty());
    p.on_open(&state(), ALL_PORTS);
    p.on_tick(false, Some(vec![s(-3.0)]));
    assert_eq!(p.equaliser.view.spectrum_bins, vec![s(-3.0)]);
    p.on_tick(false, None);
    assert_eq!(p.equaliser.view.spectrum_bins, vec![s(-3.0)]);
    p.on_tick(true, None);
    assert!(p.equaliser.view.spectrum_bins.is_empty());
    assert!(!p.spectrum_running && p.loopback);
    p.on_open(&state(), ALL_PORTS);
    p.spectrum_data = false;
    p.on_tick(false, Some(vec![s(-3.0)]));
    assert!(!p.spectrum_running);
}

#[test]
fn tabs_open_and_close() {
    let mut p = page();
    assert_eq!(said(&p.update(ConfigMessage::SelectTab(3))), "[CloseTab(0), OpenTab(3)]");
    let tabs = p.bottom_view();
    assert_eq!(tabs.len(), 5);
    for (i, tab) in tabs.iter().enumerate() {
        assert_eq!((tab.index, tab.active), (i, i == 3));
    }
    assert_eq!(said(&p.update(ConfigMessage::Child)), "[UpdateTab(3)]");
    let gain = Message::Headphones(Headphones::MicOutputGain(s(2.0)));
    let sent = p.update(ConfigMessage::OutputGainChanged(s(2.0)));
    assert_eq!(said(&sent), said(&[ConfigAction::Send(gain)]));
    let sent = p.update(ConfigMessage::ChildState(gain));
    assert_eq!(said(&sent), said(&[ConfigAction::Send(gain)]));
}

#[test]
fn loopback_is_recorded_and_played() {
    let mut p = page();
    let stopped = LoopbackHandlerState::Stopped;
    assert_eq!(said(&p.update(ConfigMessage::HandleRecording(stopped))), "[]");
    assert_eq!(said(&p.update(ConfigMessage::HandlePlayback(stopped))), "[]");
    p.on_open(&state(), ALL_PORTS);
    assert_eq!(said(&p.update(ConfigMessage::HandleRecording(stopped))), "[Record]");
    assert_eq!(
        said(&p.update(ConfigMessage::HandleRecording(LoopbackHandlerState::Recording))),
        "[StopLoopback]"
    );
    assert_eq!(
        said(&p.update(ConfigMessage::HandlePlayback(stopped))),
        "[Send(Headphones(MicFromLoopback(true))), Play]"
    );
    assert_eq!(
        said(&p.update(ConfigMessage::HandlePlayback(LoopbackHandlerState::Playing))),
        "[StopLoopback, Send(Headphones(MicFromLoopback(false)))]"
    );
}

#[test]
fn profiles_are_created_with_a_name() {
    let mut p = page();
    assert!(p.profile_toolbar("Default", None, false, false).input.is_none());
    p.update(ConfigMessage::ToggleNewProfile);
    assert_eq!(said(&p.update(ConfigMessage::CreateProfile)), "[]");
    p.update(ConfigMessage::NewProfileNameChanged("  ".to_string()));
    assert_eq!(said(&p.update(ConfigMessage::CreateProfile)), "[]");
    p.update(ConfigMessage::NewProfileNameChanged(" My Mic ".to_string()));
    let bar = p.profile_toolbar("Default", None, false, false);
    assert_eq!(bar.input.unwrap(), " My Mic ");
    assert_eq!(
        said(&p.update(ConfigMessage::CreateProfile)),
        "[SaveProfileAs(\"My Mic\")]"
    );
    p.profile_created(vec!["My Mic".to_string()]);
    assert_eq!(p.available_profiles, vec!["My Mic"]);
    assert!(!p.show_new_profile_input);
    assert_eq!(p.new_profile_name, "");
}

#[test]
fn profiles_are_switched() {
    let mut p = page();
    assert_eq!(said(&p.update(ConfigMessage::SelectProfile)), "[SwitchProfile]");
    assert_eq!(
        said(&p.profile_switched(vec!["x".to_string()], &state())),
        "[OpenTab(0)]"
    );
    assert_eq!(p.available_profiles, vec!["x"]);
    assert_eq!(p.equaliser.eq_mode, EQMode::Advanced);
    assert_eq!(said(&p.update(ConfigMessage::OpenProfileFolder)), "[OpenProfileFolder]");
    assert_eq!(said(&p.update(ConfigMessage::ReloadApoEq)), "[ReloadApoEq]");
    p.eq_reloaded(&state());
    assert_eq!(
        said(&p.update(ConfigMessage::AuditionSnapshot(SnapshotSlot::A))),
        "[ApplySnapshot(A)]"
    );
    assert_eq!(said(&p.snapshot_applied(&state())), "[OpenTab(0)]");
    assert_eq!(
        said(&p.update(ConfigMessage::StoreSnapshot(SnapshotSlot::B))),
        "[CaptureSnapshot(B)]"
    );
    let bar = p.profile_toolbar("Broadcast", Some(SnapshotSlot::B), true, false);
    assert_eq!(bar.profiles, vec!["x"]);
    assert_eq!(bar.active_profile, "Broadcast");
    assert_eq!((bar.slot_a.label, bar.slot_a.enabled), ("A", true));
    assert_eq!((bar.slot_b.label, bar.slot_b.enabled), ("[ B ]", false));
    let bar = p.profile_toolbar("Default", Some(SnapshotSlot::A), false, true);
    assert_eq!((bar.slot_a.label, bar.slot_b.label), ("[ A ]", "B"));
}

fn panel(state: LoopbackHandlerState, position: f32, length: f32) -> LoopbackPanel {
    loopback_panel(Recording {
        state,
        position: s(position),
        length: s(length),
    })
}

#[test]
fn meter_and_recording_stand_beside_the_equaliser() {
    let mut p = page();
    let v = p.gain_view(s(-3.5), None);
    assert_eq!(v.output_gain, s(-3.5));
    assert!(v.panel.is_none());
    let quiet = MicMeter { db: s(-70.0), peak_db: s(-70.0), min_db: s(-70.0), max_db: s(0.0) };
    assert_eq!(v.meter, quiet);
    p.advance_meter(s(-10.0), s(0.02), s(0.5));
    let v = p.gain_view(s(0.0), Some(Recording {
        state: LoopbackHandlerState::Stopped,
        position: s(0.0),
        length: s(2.0),
    }));
    assert_eq!(v.panel.unwrap().output, "2.0");
    assert_eq!(v.meter, MicMeter { db: s(-40.0), peak_db: s(-10.0), ..quiet });
}

#[test]
fn loopback_buttons_follow_the_recording() {
    let v = panel(LoopbackHandlerState::Recording, 0.0, 3.14);
    assert_eq!(v.output, "3.1 / 10.0");
    assert_eq!((v.record_icon, v.record_colour, v.record_enabled), ("stop", Tint::White, true));
    assert_eq!((v.play_icon, v.play_colour, v.play_enabled), ("play", Tint::Grey, false));
    let v = panel(LoopbackHandlerState::Playing, 1.25, 3.14);
    assert_eq!(v.output, "1.2 / 3.1");
    assert_eq!((v.record_icon, v.record_colour, v.record_enabled), ("record", Tint::Grey, false));
    assert_eq!((v.play_icon, v.play_colour, v.play_enabled), ("stop", Tint::White, true));
    let v = panel(LoopbackHandlerState::Stopped, 0.0, 3.14);
    assert_eq!(v.output, "3.1");
    assert_eq!((v.play_icon, v.play_colour, v.play_enabled), ("play", Tint::White, true));
    let v = panel(LoopbackHandlerState::Stopped, 0.0, 0.0);
    assert_eq!(v.output, "-");
    assert_eq!((v.play_colour, v.play_enabled), (Tint::Grey, false));
    assert_eq!(meter_marks(), [0, -5, -10, -20, -30, -40, -50, -60, -70]);
}

#[test]
fn ports_are_found_among_nodes() {
    let source = Node {
        is_split_child: false,
        node_type: PipeWireNodeType::Source,
        channels: channels(4),
        ports: vec![],
    };
    let sink = |is_split_child: bool, id: u32| Node {
        is_split_child,
        node_type: PipeWireNodeType::Sink,
        channels: channels(3),
        ports: vec![
            port(id, "AUX2", PipeWirePortType::Input),
            port(id + 1, "AUX2", PipeWirePortType::Output),
            port(id + 2, "AUX1", PipeWirePortType::Input),
        ],
    };
    let nodes = [sink(false, 5), source, sink(true, 50)];
    assert_eq!(
        find_ports(&nodes, DeviceType::BeacnMic),
        FoundPorts {
            spectrum: Some(103),
            dry_mix: Some(102),
            loopback: Some(5)
        }
    );
    assert_eq!(find_ports(&nodes, DeviceType::BeacnStudio), NO_PORTS);
    let nodes = [sink(false, 5), sink(false, 20)];
    assert_eq!(find_ports(&nodes, DeviceType::BeacnMic).loopback, Some(20));
    assert_eq!(find_ports(&[], DeviceType::BeacnMic), NO_PORTS);
}

#[test]
fn studio_has_more_channels() {
    let nodes = [
        Node {
            is_split_child: false,
            node_type: PipeWireNodeType::Source,
            channels: channels(12),
            ports: vec![],
        },
        Node {
            is_split_child: false,
            node_type: PipeWireNodeType::Sink,
            channels: channels(11),
            ports: vec![port(1, "AUX2", PipeWirePortType::Input)],
        },
    ];
    assert_eq!(
        find_ports(&nodes, DeviceType::BeacnStudio),
        FoundPorts {
            spectrum: Some(103),
            dry_mix: Some(102),
            loopback: Some(1)
        }
    );
}

#[test]
fn bus_is_a_small_number() {
    assert_eq!(bus_address("3"), 3);
    assert_eq!(bus_address("003"), 3);
    assert_eq!(bus_address("usb1"), 0);
    assert_eq!(bus_address("300"), 0);
}
