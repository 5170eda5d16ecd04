use beacn_utility::app::{
    subscription, Action, AppMessage, BeacnUtility, Content, Flags, PageButton, Screen, TICK_RATE,
};
use beacn_utility::args::WindowMessage;
use beacn_utility::devices::{
    create_pages_audio, create_pages_controller, find_device, visible_pages, Device, DeviceKind,
    DeviceType, PageKind,
};
use beacn_utility::eq::{EQBand, EQBandType, EQMode};
use beacn_utility::messages::{EQMicrophone, Message, MicSetup};
use beacn_utility::scalar::Scalar;

fn s(x: f32) -> Scalar {
    Scalar { bits: x.to_bits() }
}

fn window() -> BeacnUtility {
    BeacnUtility::new(Flags {
        size: (s(1124.0), s(500.0)),
        stays: true,
    })
}

fn audio(hash: &str, device_type: DeviceType, visible: [bool; 6]) -> Device {
    Device::new(
        hash.to_string(),
        DeviceKind::Audio,
        device_type,
        visible.to_vec(),
        EQMode::Advanced,
    )
}

fn control(hash: &str, visible: [bool; 2]) -> Device {
    Device::new(
        hash.to_string(),
        DeviceKind::Control,
        DeviceType::BeacnMix,
        visible.to_vec(),
        EQMode::Simple,
    )
}

fn arrive(w: &mut BeacnUtility, d: Device) -> Vec<Action> {
    w.update(AppMessage::DeviceArrived(d))
}

fn select(w: &mut BeacnUtility, hash: &str, page_id: usize) -> Vec<Action> {
    let device_id = hash.to_string();
    let mut actions = w.update(AppMessage::SelectDeviceAndPage {
        device_id: device_id.clone(),
        page_id,
    });
    if actions.last() == Some(&Action::ShowPage) {
        actions.pop();
        actions.extend(w.update(AppMessage::ShowPage { device_id, page_id }));
    }
    actions
}

const ALL: [bool; 6] = [true, true, true, true, true, false];

#[test]
fn window_starts_empty() {
    let w = window();
    assert_eq!(w.title(), "Beacn Utility");
    assert!(matches!(w.screen(), Screen::NoDevices));
    assert_eq!(w.shown(), None);
    assert!(!w.window_open);
    assert_eq!(TICK_RATE, 22);
}

#[test]
fn devices_have_these_pages() {
    assert_eq!(
        create_pages_audio(),
        vec![
            PageKind::Configuration,
            PageKind::Lighting,
            PageKind::HeadphoneEqualiser,
            PageKind::StudioLink,
            PageKind::About,
            PageKind::Error
        ]
    );
    assert_eq!(create_pages_controller(), vec![PageKind::About, PageKind::Error]);
    let d = audio("a", DeviceType::BeacnMic, [false, true, false, false, true, false]);
    assert_eq!(visible_pages(&d), vec![1, 4]);
    assert_eq!(d.first_page(), Some(1));
    assert_eq!(d.location(), "a");
    assert_eq!(d.definition(), DeviceType::BeacnMic);
    assert_eq!(audio("a", DeviceType::BeacnMic, [false; 6]).first_page(), None);
}

#[test]
fn first_device_with_a_page_is_shown() {
    let mut w = window();
    assert_eq!(arrive(&mut w, control("c", [false, false])), vec![]);
    assert_eq!(w.shown(), None);
    let visible = [false, true, true, false, false, false];
    assert_eq!(
        arrive(&mut w, audio("a", DeviceType::BeacnMic, visible)),
        vec![Action::OpenPage(1, 1)]
    );
    assert_eq!(w.shown(), Some((1, 1)));
    assert_eq!(arrive(&mut w, audio("b", DeviceType::BeacnMic, ALL)), vec![]);
    assert_eq!(w.shown(), Some((1, 1)));
}

#[test]
fn device_that_comes_again_takes_its_place() {
    let mut w = window();
    arrive(&mut w, audio("a", DeviceType::BeacnMic, ALL));
    arrive(&mut w, audio("b", DeviceType::BeacnMic, ALL));
    arrive(&mut w, audio("a", DeviceType::BeacnStudio, ALL));
    assert_eq!(w.devices.len(), 2);
    assert_eq!(w.devices[0].definition(), DeviceType::BeacnStudio);
    assert_eq!(find_device(&w.devices, "b"), Some(1));
    assert_eq!(find_device(&w.devices, "c"), None);
}

#[test]
fn shown_device_stays_known_when_another_kind_takes_its_place() {
    let mut w = window();
    arrive(&mut w, audio("a", DeviceType::BeacnMic, ALL));
    select(&mut w, "a", 4);
    assert_eq!(arrive(&mut w, control("a", [true, true])), vec![]);
    assert_eq!(w.active_device.as_deref(), Some("a"));
    assert_eq!(find_device(&w.devices, "a"), Some(0));
    assert_eq!(w.active_page, Some(4));
    assert!(!w.mixer_active && !w.settings_active);
    assert_eq!(w.update(AppMessage::DeviceRemoved("a".to_string())), vec![]);
    assert_eq!((w.active_device.is_none(), w.active_page), (true, None));
}

#[test]
fn another_device_is_shown_when_one_goes() {
    let mut w = window();
    arrive(&mut w, audio("a", DeviceType::BeacnMic, ALL));
    arrive(&mut w, control("b", [false, false]));
    arrive(&mut w, control("c", [false, true]));
    assert_eq!(w.update(AppMessage::DeviceRemoved("x".to_string())), vec![]);
    assert_eq!(w.update(AppMessage::DeviceRemoved("b".to_string())), vec![]);
    assert_eq!(w.shown(), Some((0, 0)));
    assert_eq!(
        w.update(AppMessage::DeviceRemoved("a".to_string())),
        vec![Action::OpenPage(0, 1)]
    );
    assert_eq!(w.shown(), Some((0, 1)));
    assert_eq!(w.update(AppMessage::DeviceRemoved("c".to_string())), vec![]);
    assert_eq!((w.active_device.is_none(), w.active_page), (true, None));
}

#[test]
fn selecting_closes_one_page_and_opens_another() {
    let mut w = window();
    arrive(&mut w, audio("a", DeviceType::BeacnMic, ALL));
    w.update(AppMessage::ActivateSettings);
    assert!(w.settings_active);
    assert_eq!(w.shown(), None);
    assert_eq!(select(&mut w, "a", 2), vec![Action::OpenPage(0, 2)]);
    assert!(!w.settings_active);
    assert_eq!(
        select(&mut w, "a", 3),
        vec![Action::ClosePage(0, 2), Action::OpenPage(0, 3)]
    );
    assert_eq!(select(&mut w, "a", 3), vec![]);
    assert_eq!(select(&mut w, "a", 5), vec![Action::ClosePage(0, 3)]);
    assert_eq!(w.shown(), Some((0, 3)));
    assert_eq!(select(&mut w, "x", 0), vec![Action::ClosePage(0, 3)]);
}

#[test]
fn closing_a_page_can_rule_another_out() {
    let mut w = window();
    arrive(&mut w, audio("a", DeviceType::BeacnMic, ALL));
    let asked = AppMessage::SelectDeviceAndPage {
        device_id: "a".to_string(),
        page_id: 2,
    };
    assert_eq!(w.update(asked), vec![Action::ClosePage(0, 0), Action::ShowPage]);
    w.observe(0, vec![true, true, false, true, true, false], EQMode::Simple);
    let show = AppMessage::ShowPage {
        device_id: "a".to_string(),
        page_id: 2,
    };
    assert_eq!(w.update(show), vec![]);
    assert_eq!(w.shown(), Some((0, 0)));
}

#[test]
fn mixer_and_settings_take_turns() {
    let mut w = window();
    arrive(&mut w, audio("a", DeviceType::BeacnMic, ALL));
    w.update(AppMessage::ActivatePipeweaver { launched: true });
    assert_eq!(w.shown(), Some((0, 0)));
    w.update(AppMessage::ActivatePipeweaver { launched: false });
    assert!(w.mixer_active && !w.settings_active);
    assert_eq!(w.active_page, Some(0));
    w.update(AppMessage::ActivateSettings);
    assert!(!w.mixer_active && w.settings_active);
    assert_eq!(w.update(AppMessage::Settings), vec![]);
    assert_eq!(w.update(AppMessage::Pipeweaver), vec![Action::UpdatePipeweaver]);
    w.update(AppMessage::WindowOpen);
    assert_eq!(w.update(AppMessage::Settings), vec![Action::UpdateSettings]);
}

#[test]
fn page_that_cannot_be_shown_makes_way() {
    let mut w = window();
    assert_eq!(w.update(AppMessage::Page), vec![]);
    assert_eq!(w.update(AppMessage::Tick), vec![]);
    arrive(&mut w, audio("a", DeviceType::BeacnMic, ALL));
    assert_eq!(w.update(AppMessage::Page), vec![Action::UpdatePage(0, 0)]);
    assert_eq!(w.update(AppMessage::PageUpdated), vec![]);
    assert_eq!(w.update(AppMessage::Tick), vec![Action::TickPage(0, 0)]);
    w.observe(0, vec![false, false, false, false, false, true], EQMode::Simple);
    assert_eq!(
        w.update(AppMessage::PageUpdated),
        vec![Action::ClosePage(0, 0), Action::OpenPage(0, 5)]
    );
    w.observe(0, vec![false; 6], EQMode::Simple);
    assert_eq!(w.update(AppMessage::PageUpdated), vec![]);
    assert_eq!(w.shown(), Some((0, 5)));
}

#[test]
fn profiles_go_to_audio_devices() {
    let mut w = window();
    arrive(&mut w, audio("a", DeviceType::BeacnMic, [false; 6]));
    arrive(&mut w, control("c", [false, true]));
    assert_eq!(w.shown(), Some((1, 1)));
    assert_eq!(
        w.update(AppMessage::SwitchProfile("x".to_string())),
        vec![
            Action::SwitchProfile(0),
            Action::OpenPage(0, 1),
            Action::OpenPage(1, 1)
        ]
    );
    assert_eq!(
        w.update(AppMessage::ReloadProfile),
        vec![
            Action::ReloadProfile(0),
            Action::OpenPage(0, 1),
            Action::OpenPage(1, 1)
        ]
    );
}

#[test]
fn gain_goes_to_devices_with_a_microphone() {
    let mut w = window();
    arrive(&mut w, audio("a", DeviceType::BeacnMic, [false; 6]));
    arrive(&mut w, audio("b", DeviceType::BeacnStudio, [false; 6]));
    arrive(&mut w, audio("c", DeviceType::BeacnMix, [false; 6]));
    arrive(&mut w, control("d", [true, false]));
    assert_eq!(
        w.update(AppMessage::SetGain(24)),
        vec![
            Action::SendAndSave(0, Message::MicSetup(MicSetup::MicGain(24))),
            Action::OpenPage(0, 0),
            Action::SendAndSave(1, Message::MicSetup(MicSetup::StudioMicGain(24))),
            Action::OpenPage(1, 0),
            Action::OpenPage(3, 0),
        ]
    );
}

#[test]
fn band_goes_to_audio_devices_in_their_mode() {
    let mut w = window();
    arrive(&mut w, audio("a", DeviceType::BeacnMic, [false; 6]));
    arrive(&mut w, control("d", [false, false]));
    let band = EQBand::Band3;
    let sent = w.update(AppMessage::SetEqBand {
        band,
        band_type: EQBandType::BellBand,
        frequency: s(100.0),
        gain: s(1.0),
        q: s(2.0),
    });
    let m = EQMode::Advanced;
    assert_eq!(
        sent,
        vec![
            Action::Send(
                0,
                Message::EQMicrophone(EQMicrophone::Type(m, band, EQBandType::BellBand)),
            ),
            Action::Send(0, Message::EQMicrophone(EQMicrophone::Frequency(m, band, s(100.0)))),
            Action::Send(0, Message::EQMicrophone(EQMicrophone::Gain(m, band, s(1.0)))),
            Action::Send(0, Message::EQMicrophone(EQMicrophone::Q(m, band, s(2.0)))),
            Action::Send(0, Message::EQMicrophone(EQMicrophone::Enabled(m, band, true))),
            Action::Save(0),
        ]
    );
}

#[test]
fn window_opens_and_closes() {
    let mut w = window();
    arrive(&mut w, audio("a", DeviceType::BeacnMic, ALL));
    assert_eq!(w.update(AppMessage::Quit), vec![Action::Exit]);
    assert_eq!(
        w.update(AppMessage::WindowOpen),
        vec![Action::OpenPage(0, 0), Action::OpenWindow]
    );
    assert_eq!(w.update(AppMessage::WindowOpen), vec![]);
    assert_eq!(w.update(AppMessage::WindowOpened), vec![]);
    assert_eq!(
        w.update(AppMessage::Quit),
        vec![Action::ClosePage(0, 0), Action::Exit]
    );
    assert_eq!(
        w.update(AppMessage::WindowCloseRequested),
        vec![Action::ClosePage(0, 0), Action::CloseWindow]
    );
    assert!(!w.window_open);
    w.stays = false;
    assert_eq!(
        w.update(AppMessage::WindowCloseRequested),
        vec![Action::ClosePage(0, 0), Action::Exit]
    );
    w.update(AppMessage::WindowResized(s(1.0), s(2.0)));
    assert_eq!(w.size, (s(1.0), s(2.0)));
}

#[test]
fn sidebar_is_ordered_by_model() {
    let mut w = window();
    arrive(&mut w, control("m", [true, false]));
    arrive(&mut w, audio("s", DeviceType::BeacnStudio, [false; 6]));
    arrive(&mut w, audio("a", DeviceType::BeacnMic, [true, false, true, false, false, false]));
    select(&mut w, "a", 2);
    match w.screen() {
        Screen::Devices {
            mixer_active,
            settings_active,
            groups,
            content,
        } => {
            assert!(!mixer_active && !settings_active);
            let labels: Vec<(usize, &str)> =
                groups.iter().map(|g| (g.device, g.label.as_str())).collect();
            assert_eq!(labels, vec![(2, "Mic"), (1, "Studio"), (0, "Mix")]);
            assert_eq!(
                groups[0].buttons,
                vec![
                    PageButton { page: 0, selected: false },
                    PageButton { page: 2, selected: true }
                ]
            );
            assert!(groups[1].buttons.is_empty());
            assert_eq!(content, Content::Page(2, 2));
        }
        other => panic!("{other:?}"),
    }
    assert_eq!(DeviceType::BeacnMixCreate.name(), "Mix Create");
}

#[test]
fn content_follows_the_window() {
    let content = |w: &BeacnUtility| match w.screen() {
        Screen::Devices { content, .. } => content,
        Screen::NoDevices => panic!("no devices"),
    };
    let mut w = window();
    arrive(&mut w, control("c", [false, false]));
    assert_eq!(content(&w), Content::NoPage);
    assert_eq!(content(&w).message(), Some("No page active"));
    arrive(&mut w, audio("a", DeviceType::BeacnMic, ALL));
    assert_eq!(content(&w), Content::Page(1, 0));
    assert_eq!(content(&w).message(), None);
    w.update(AppMessage::ActivateSettings);
    assert_eq!(content(&w), Content::Settings);
    w.update(AppMessage::ActivatePipeweaver { launched: false });
    assert_eq!(content(&w), Content::Pipeweaver);
    assert_eq!(Content::SelectDevice.message(), Some("Select a device"));
}

#[test]
fn messages_to_the_window_happen_to_it() {
    assert!(matches!(subscription(WindowMessage::OpenWindow), AppMessage::WindowOpen));
    assert!(matches!(subscription(WindowMessage::Quit), AppMessage::Quit));
    assert!(matches!(subscription(WindowMessage::ReloadProfile), AppMessage::ReloadProfile));
    assert!(matches!(subscription(WindowMessage::SetGain(3)), AppMessage::SetGain(3)));
    match subscription(WindowMessage::SwitchProfile("x".to_string())) {
        AppMessage::SwitchProfile(name) => assert_eq!(name, "x"),
        other => panic!("{other:?}"),
    }
    let m = WindowMessage::SetEqBand {
        band: EQBand::Band2,
        band_type: EQBandType::LowShelf,
        frequency: s(50.0),
        gain: s(-1.0),
        q: s(0.5),
    };
    match subscription(m) {
        AppMessage::SetEqBand { band, band_type, frequency, gain, q } => {
            assert_eq!(band, EQBand::Band2);
            assert_eq!(band_type, EQBandType::LowShelf);
            assert_eq!((frequency, gain, q), (s(50.0), s(-1.0), s(0.5)));
        }
        other => panic!("{other:?}"),
    }
}
