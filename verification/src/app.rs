//! The window: which device and page it shows, and what follows from what happens.

use vstd::prelude::*;

use crate::args::WindowMessage;
use crate::devices::Device;
use crate::devices::DeviceKind;
use crate::devices::DeviceModel;
use crate::devices::DeviceType;
use crate::devices::find_device;
use crate::devices::visible_pages;
use crate::devices;
use crate::eq::EQBand;
use crate::eq::EQBandType;
use crate::eq::EQMode;
use crate::messages::EQMicrophone;
use crate::messages::Message;
use crate::messages::MicSetup;
use crate::paths::APP_TITLE;
use crate::scalar::Scalar;
use crate::text::same_text;

verus! {

/// How often the page that is shown is told to move on, in milliseconds.
pub const TICK_RATE: u64 = 1000 / 45;

/// What the window is made with.
#[derive(Clone, Copy, Debug)]
pub struct Flags {
    /// The width and height of the window.
    pub size: (Scalar, Scalar),
    /// Whether the program goes on when the window is closed, as it does on Linux.
    pub stays: bool,
}

/// What happens to the window.
#[derive(Debug)]
pub enum AppMessage {
    DeviceArrived(Device),
    /// The device with this hash is gone.
    DeviceRemoved(String),
    /// The mixer is asked for. Its own window may have been launched instead.
    ActivatePipeweaver { launched: bool },
    /// Something for the page of the mixer.
    Pipeweaver,
    ActivateSettings,
    /// Something for the page of the settings.
    Settings,
    SelectDeviceAndPage { device_id: String, page_id: usize },
    /// The page that was shown has made way for this one.
    ShowPage { device_id: String, page_id: usize },
    /// Something for the page that is shown.
    Page,
    /// The page that is shown has taken what there was for it.
    PageUpdated,
    Tick,
    SwitchProfile(String),
    ReloadProfile,
    SetGain(u8),
    SetEqBand { band: EQBand, band_type: EQBandType, frequency: Scalar, gain: Scalar, q: Scalar },
    Quit,
    WindowOpen,
    WindowOpened,
    WindowCloseRequested,
    /// The window has this width and height.
    WindowResized(Scalar, Scalar),
}

/// What is to be done. A device and a page are given by their places.
#[derive(Clone, Copy, Debug, PartialEq, Eq, Structural)]
pub enum Action {
    OpenPage(usize, usize),
    ClosePage(usize, usize),
    /// The page that the message names is to be shown, if it can be by now.
    ShowPage,
    UpdatePage(usize, usize),
    TickPage(usize, usize),
    /// The device takes on the profile that the message names.
    SwitchProfile(usize),
    /// The device takes on its profile again.
    ReloadProfile(usize),
    /// The device is sent a setting.
    Send(usize, Message),
    /// The device is sent a setting, and its profile is saved if it takes it.
    SendAndSave(usize, Message),
    /// The profile of the device is saved.
    Save(usize),
    UpdateSettings,
    UpdatePipeweaver,
    OpenWindow,
    CloseWindow,
    Exit,
}

/// The window.
#[derive(Debug)]
pub struct BeacnUtility {
    /// The devices that are there.
    pub devices: Vec<Device>,
    /// The hash of the device that is shown.
    pub active_device: Option<String>,
    /// The place of the page that is shown.
    pub active_page: Option<usize>,
    /// Whether the mixer is shown in place of a device.
    pub mixer_active: bool,
    /// Whether the settings are shown in place of a device.
    pub settings_active: bool,
    pub window_open: bool,
    /// The width and height of the window.
    pub size: (Scalar, Scalar),
    /// Whether the program goes on when the window is closed.
    pub stays: bool,
}

/// What there is to the window.
pub struct AppModel {
    pub devices: Seq<DeviceModel>,
    pub active_device: Option<Seq<char>>,
    pub active_page: Option<usize>,
    pub mixer_active: bool,
    pub settings_active: bool,
    pub window_open: bool,
    pub size: (Scalar, Scalar),
    pub stays: bool,
}

impl View for BeacnUtility {
    type V = AppModel;

    open spec fn view(&self) -> AppModel {
        AppModel {
            devices: devices::models(self.devices@),
            active_device: match self.active_device {
                Some(hash) => Some(hash@),
                None => None,
            },
            active_page: self.active_page,
            mixer_active: self.mixer_active,
            settings_active: self.settings_active,
            window_open: self.window_open,
            size: self.size,
            stays: self.stays,
        }
    }
}

/// The places of the device and the page that are shown.
pub open spec fn current(s: AppModel) -> Option<(usize, usize)> {
    match (s.active_device, s.active_page) {
        (Some(hash), Some(page)) => match devices::place_of(s.devices, hash, 0) {
            Some(device) => Some((device, page)),
            None => None,
        },
        _ => None,
    }
}

/// How many pages the device at the place `i` has.
pub open spec fn page_count(s: AppModel, i: int) -> nat {
    devices::pages_of(s.devices[i].kind).len()
}

/// Whether the page that is shown is one of its device.
pub open spec fn settled(s: AppModel) -> bool {
    current(s) matches Some((device, page)) ==> page < page_count(s, device as int)
}

/// Whether the setting of the gain passes a device over.
pub open spec fn has_no_gain(d: DeviceModel) -> bool {
    d.kind == DeviceKind::Audio && d.device_type != DeviceType::BeacnMic && d.device_type
        != DeviceType::BeacnStudio
}

/// Whether every device, but for those that are passed over, has a page at the place that is
/// shown.
pub open spec fn page_everywhere(s: AppModel, but_gainless: bool) -> bool {
    s.active_page matches Some(page) ==> forall|i: int|
        0 <= i < s.devices.len() && !(but_gainless && has_no_gain(#[trigger] s.devices[i]))
            ==> page < devices::pages_of(s.devices[i].kind).len()
}

/// Whether the pages that a message reaches for are there.
pub open spec fn accepts(s: AppModel, m: AppMessage) -> bool {
    match m {
        AppMessage::DeviceArrived(d) => d.wf(),
        AppMessage::SelectDeviceAndPage { device_id, page_id } => {
            ||| s.active_device == Some(device_id@) && s.active_page == Some(page_id)
            ||| settled(s)
        },
        AppMessage::ShowPage { device_id, page_id } => devices::place_of(
            s.devices,
            device_id@,
            0,
        ) matches Some(i) ==> page_id < page_count(s, i as int),
        AppMessage::Page | AppMessage::PageUpdated | AppMessage::Tick => settled(s),
        AppMessage::SwitchProfile(_) | AppMessage::ReloadProfile => page_everywhere(s, false),
        AppMessage::SetGain(_) => page_everywhere(s, true),
        AppMessage::SetEqBand { .. } => page_everywhere(s, false),
        AppMessage::Quit => s.window_open ==> settled(s),
        AppMessage::WindowOpen => s.window_open || settled(s),
        AppMessage::WindowCloseRequested => settled(s),
        _ => true,
    }
}

/// The first device from `from` on that has a page that can be shown, and that page.
pub open spec fn first_open(devices: Seq<DeviceModel>, from: int) -> Option<(usize, usize)>
    decreases devices.len() - from,
{
    if from < 0 || from >= devices.len() {
        None
    } else {
        match devices::first_shown(devices[from].visible, 0) {
            Some(page) => Some((from as usize, page)),
            None => first_open(devices, from + 1),
        }
    }
}

/// What sets a band of a device and switches it on.
pub open spec fn band_messages(
    mode: EQMode,
    band: EQBand,
    band_type: EQBandType,
    frequency: Scalar,
    gain: Scalar,
    q: Scalar,
) -> Seq<Message> {
    seq![
        Message::EQMicrophone(EQMicrophone::Type(mode, band, band_type)),
        Message::EQMicrophone(EQMicrophone::Frequency(mode, band, frequency)),
        Message::EQMicrophone(EQMicrophone::Gain(mode, band, gain)),
        Message::EQMicrophone(EQMicrophone::Q(mode, band, q)),
        Message::EQMicrophone(EQMicrophone::Enabled(mode, band, true)),
    ]
}

/// The page that is shown opens again on the device at the place `i`.
pub open spec fn reopened(active_page: Option<usize>, i: usize) -> Seq<Action> {
    match active_page {
        Some(page) => seq![Action::OpenPage(i, page)],
        None => seq![],
    }
}

/// What a message for all devices does to the device `d` at the place `i`.
pub open spec fn device_actions(
    m: AppMessage,
    d: DeviceModel,
    i: usize,
    active_page: Option<usize>,
) -> Seq<Action> {
    let audio = d.kind == DeviceKind::Audio;
    let open = reopened(active_page, i);
    match m {
        AppMessage::SwitchProfile(_) => if audio {
            seq![Action::SwitchProfile(i)] + open
        } else {
            open
        },
        AppMessage::ReloadProfile => if audio {
            seq![Action::ReloadProfile(i)] + open
        } else {
            open
        },
        AppMessage::SetGain(gain) => if !audio {
            open
        } else if d.device_type == DeviceType::BeacnMic {
            seq![
                Action::SendAndSave(i, Message::MicSetup(MicSetup::MicGain(gain as u32))),
            ] + open
        } else if d.device_type == DeviceType::BeacnStudio {
            seq![
                Action::SendAndSave(i, Message::MicSetup(MicSetup::StudioMicGain(gain as u32))),
            ] + open
        } else {
            seq![]
        },
        AppMessage::SetEqBand { band, band_type, frequency, gain, q } => if audio {
            band_messages(d.eq_mode, band, band_type, frequency, gain, q).map_values(
                |msg: Message| Action::Send(i, msg),
            ) + seq![Action::Save(i)] + open
        } else {
            open
        },
        _ => seq![],
    }
}

/// What a message for all devices does to the devices before the place `upto`.
pub open spec fn all_device_actions(s: AppModel, m: AppMessage, upto: int) -> Seq<Action>
    decreases upto,
{
    if upto <= 0 {
        seq![]
    } else {
        all_device_actions(s, m, upto - 1) + device_actions(
            m,
            s.devices[upto - 1],
            (upto - 1) as usize,
            s.active_page,
        )
    }
}

/// Closes the page that is shown.
pub open spec fn closing(s: AppModel) -> Seq<Action> {
    match current(s) {
        Some((device, page)) => seq![Action::ClosePage(device, page)],
        None => seq![],
    }
}

/// Opens the page that is shown.
pub open spec fn opening(s: AppModel) -> Seq<Action> {
    match current(s) {
        Some((device, page)) => seq![Action::OpenPage(device, page)],
        None => seq![],
    }
}

/// The window after a device has arrived, and what is to be done. The device is shown if none is.
pub open spec fn arrived(s: AppModel, d: DeviceModel) -> (AppModel, Seq<Action>) {
    let t = AppModel { devices: devices::with_device(s.devices, d), ..s };
    if s.active_device is None {
        match devices::first_shown(d.visible, 0) {
            Some(page) => (
                AppModel { active_device: Some(d.hash), active_page: Some(page), ..t },
                seq![Action::OpenPage(devices::place_of(t.devices, d.hash, 0)->0, page)],
            ),
            None => (t, seq![]),
        }
    } else {
        (t, seq![])
    }
}

/// The window after a device has gone, and what is to be done. If it was the one that is shown,
/// another one is shown in its place.
pub open spec fn removed(s: AppModel, hash: Seq<char>) -> (AppModel, Seq<Action>) {
    let t = AppModel { devices: devices::without_device(s.devices, hash), ..s };
    if s.active_device == Some(hash) {
        match first_open(t.devices, 0) {
            Some((device, page)) => (
                AppModel {
                    active_device: Some(t.devices[device as int].hash),
                    active_page: Some(page),
                    ..t
                },
                seq![Action::OpenPage(device, page)],
            ),
            None => (AppModel { active_device: None, active_page: None, ..t }, seq![]),
        }
    } else {
        (t, seq![])
    }
}

/// The window after a page has been asked for, and what is to be done. The page that is shown
/// closes, whether or not the new one can be shown.
pub open spec fn selected(s: AppModel, hash: Seq<char>, page: usize) -> (AppModel, Seq<Action>) {
    let t = AppModel { mixer_active: false, settings_active: false, ..s };
    if s.active_device == Some(hash) && s.active_page == Some(page) {
        (t, seq![])
    } else {
        (t, closing(s) + seq![Action::ShowPage])
    }
}

/// The window after the page that was shown has made way for another, and what is to be done.
pub open spec fn turned_to(s: AppModel, hash: Seq<char>, page: usize) -> (AppModel, Seq<Action>) {
    match devices::place_of(s.devices, hash, 0) {
        Some(i) => if s.devices[i as int].visible[page as int] {
            (
                AppModel { active_device: Some(hash), active_page: Some(page), ..s },
                seq![Action::OpenPage(i, page)],
            )
        } else {
            (s, seq![])
        },
        None => (s, seq![]),
    }
}

/// The window after the page that is shown has taken something, and what is to be done. A page
/// that can no longer be shown makes way for the first that can.
pub open spec fn page_updated(s: AppModel) -> (AppModel, Seq<Action>) {
    match current(s) {
        Some((device, page)) => {
            let visible = s.devices[device as int].visible;
            if visible[page as int] {
                (s, seq![])
            } else {
                match devices::first_shown(visible, 0) {
                    Some(other) => (
                        AppModel { active_page: Some(other), ..s },
                        seq![Action::ClosePage(device, page), Action::OpenPage(device, other)],
                    ),
                    None => (s, seq![]),
                }
            }
        },
        None => (s, seq![]),
    }
}

/// The window after a message, and what is to be done.
pub open spec fn step(s: AppModel, m: AppMessage) -> (AppModel, Seq<Action>) {
    match m {
        AppMessage::DeviceArrived(d) => arrived(s, d@),
        AppMessage::DeviceRemoved(hash) => removed(s, hash@),
        AppMessage::ActivatePipeweaver { launched } => if launched {
            (s, seq![])
        } else {
            (
                AppModel {
                    mixer_active: true,
                    settings_active: false,
                    active_device: None,
                    ..s
                },
                seq![],
            )
        },
        AppMessage::ActivateSettings => (
            AppModel { mixer_active: false, settings_active: true, active_device: None, ..s },
            seq![],
        ),
        AppMessage::Settings => if s.window_open {
            (s, seq![Action::UpdateSettings])
        } else {
            (s, seq![])
        },
        AppMessage::Pipeweaver => (s, seq![Action::UpdatePipeweaver]),
        AppMessage::SelectDeviceAndPage { device_id, page_id } => selected(s, device_id@, page_id),
        AppMessage::ShowPage { device_id, page_id } => turned_to(s, device_id@, page_id),
        AppMessage::Page => match current(s) {
            Some((device, page)) => (s, seq![Action::UpdatePage(device, page)]),
            None => (s, seq![]),
        },
        AppMessage::PageUpdated => page_updated(s),
        AppMessage::Tick => match current(s) {
            Some((device, page)) => (s, seq![Action::TickPage(device, page)]),
            None => (s, seq![]),
        },
        AppMessage::SwitchProfile(_) => (s, all_device_actions(s, m, s.devices.len() as int)),
        AppMessage::ReloadProfile => (s, all_device_actions(s, m, s.devices.len() as int)),
        AppMessage::SetGain(_) => (s, all_device_actions(s, m, s.devices.len() as int)),
        AppMessage::SetEqBand { .. } => (s, all_device_actions(s, m, s.devices.len() as int)),
        AppMessage::Quit => if s.window_open {
            (s, closing(s) + seq![Action::Exit])
        } else {
            (s, seq![Action::Exit])
        },
        AppMessage::WindowOpen => if s.window_open {
            (s, seq![])
        } else {
            (AppModel { window_open: true, ..s }, opening(s) + seq![Action::OpenWindow])
        },
        AppMessage::WindowOpened => (s, seq![]),
        AppMessage::WindowCloseRequested => (
            AppModel { window_open: false, ..s },
            closing(s) + seq![
                if s.stays {
                    Action::CloseWindow
                } else {
                    Action::Exit
                },
            ],
        ),
        AppMessage::WindowResized(width, height) => (
            AppModel { size: (width, height), ..s },
            seq![],
        ),
    }
}

impl BeacnUtility {
    /// Whether every device is well formed and no two have the same hash.
    pub open spec fn wf(self) -> bool {
        &&& forall|i: int| 0 <= i < self.devices@.len() ==> (#[trigger] self.devices@[i]).wf()
        &&& devices::distinct(devices::models(self.devices@))
    }

    /// A window without devices, not open yet.
    pub fn new(flags: Flags) -> (r: BeacnUtility)
        ensures
            r.wf(),
            r@ == (AppModel {
                devices: seq![],
                active_device: None,
                active_page: None,
                mixer_active: false,
                settings_active: false,
                window_open: false,
                size: flags.size,
                stays: flags.stays,
            }),
    {
        let r = BeacnUtility {
            devices: Vec::new(),
            active_device: None,
            active_page: None,
            mixer_active: false,
            settings_active: false,
            window_open: false,
            size: flags.size,
            stays: flags.stays,
        };
        assert(r@.devices =~= seq![]);
        r
    }

    /// The title of the window.
    pub fn title(&self) -> (r: String)
        ensures
            r@ == APP_TITLE@,
    {
        APP_TITLE.to_owned()
    }

    /// Notes which pages of the device at the place `device` can be shown, and the set of bands
    /// that its equaliser uses.
    pub fn observe(&mut self, device: usize, visible: Vec<bool>, eq_mode: EQMode)
        requires
            old(self).wf(),
            device < old(self)@.devices.len(),
            visible@.len() == page_count(old(self)@, device as int),
        ensures
            final(self).wf(),
            final(self)@ == (AppModel {
                devices: old(self)@.devices.update(
                    device as int,
                    DeviceModel {
                        visible: visible@,
                        eq_mode,
                        ..old(self)@.devices[device as int]
                    },
                ),
                ..old(self)@
            }),
    {
        let ghost before = self@.devices;
        let ghost all = self.devices@;
        assert(before[device as int] == all[device as int]@);
        self.devices[device].visible = visible;
        self.devices[device].eq_mode = eq_mode;
        proof {
            let after = self@.devices;
            let changed = DeviceModel { visible: visible@, eq_mode, ..before[device as int] };
            assert forall|i: int| 0 <= i < after.len() implies after[i] == before.update(
                device as int,
                changed,
            )[i] by {
                if i != device {
                    assert(self.devices@[i] == all[i]);
                }
            }
            assert(after =~= before.update(device as int, changed));
        }
    }

    /// The places of the device and the page that are shown.
    pub fn shown(&self) -> (r: Option<(usize, usize)>)
        ensures
            r == current(self@),
            r matches Some((device, _)) ==> device < self@.devices.len(),
    {
        match (&self.active_device, self.active_page) {
            (Some(hash), Some(page)) => match find_device(self.devices.as_slice(), hash.as_str()) {
                Some(device) => Some((device, page)),
                None => None,
            },
            _ => None,
        }
    }
}

impl BeacnUtility {
    fn device_arrived(&mut self, d: Device) -> (r: Vec<Action>)
        requires
            old(self).wf(),
            d.wf(),
        ensures
            final(self).wf(),
            (final(self)@, r@) == arrived(old(self)@, d@),
    {
        let ghost before = self@;
        let ghost m = d@;
        let mut actions: Vec<Action> = Vec::new();
        let first = d.first_page();
        let hash = d.hash.clone();
        let count: usize = self.devices.len();
        let place: usize = match find_device(self.devices.as_slice(), hash.as_str()) {
            Some(i) => {
                self.devices[i] = d;
                i
            },
            None => {
                self.devices.push(d);
                assert(self.devices.len() == count + 1);
                count
            },
        };
        proof {
            assert(self@.devices =~= devices::with_device(before.devices, m));
            devices::devices_arrive(before.devices, m);
            assert(devices::place_of(self@.devices, m.hash, 0) == Some(place));
        }
        if self.active_device.is_none() {
            if let Some(page) = first {
                self.active_device = Some(hash);
                self.active_page = Some(page);
                actions.push(Action::OpenPage(place, page));
                assert(actions@ =~= seq![Action::OpenPage(place, page)]);
            }
        }
        actions
    }

    fn device_removed(&mut self, hash: &str) -> (r: Vec<Action>)
        requires
            old(self).wf(),
        ensures
            final(self).wf(),
            (final(self)@, r@) == removed(old(self)@, hash@),
    {
        let ghost before = self@;
        let ghost all = self.devices@;
        let mut actions: Vec<Action> = Vec::new();
        let count: usize = self.devices.len();
        if let Some(i) = find_device(self.devices.as_slice(), hash) {
            self.devices.remove(i);
            assert(self.devices@ =~= all.remove(i as int));
            assert(self@.devices =~= before.devices.remove(i as int));
        }
        proof {
            assert(self@.devices == devices::without_device(before.devices, hash@));
            assert(before.devices.len() == count);
            devices::devices_leave(before.devices, hash@);
        }
        let was_active = match &self.active_device {
            Some(active) => same_text(active.as_str(), hash),
            None => false,
        };
        if was_active {
            self.active_device = None;
            self.active_page = None;
            let ghost left = self@.devices;
            let mut i: usize = 0;
            while i < self.devices.len()
                invariant
                    i <= self.devices@.len(),
                    before == old(self)@,
                    left == self@.devices,
                    first_open(left, 0) == first_open(left, i as int),
                    self.wf(),
                    self@ == (AppModel {
                        devices: left,
                        active_device: None,
                        active_page: None,
                        ..before
                    }),
                    before.active_device == Some(hash@),
                    left == devices::without_device(before.devices, hash@),
                    actions@ == Seq::<Action>::empty(),
                decreases self.devices@.len() - i,
            {
                assert(left[i as int] == self.devices@[i as int]@);
                if let Some(page) = self.devices[i].first_page() {
                    self.active_device = Some(self.devices[i].hash.clone());
                    self.active_page = Some(page);
                    actions.push(Action::OpenPage(i, page));
                    assert(actions@ =~= seq![Action::OpenPage(i, page)]);
                    return actions;
                }
                i = i + 1;
            }
        }
        actions
    }

    fn push_closing(&self, actions: &mut Vec<Action>)
        ensures
            final(actions)@ == old(actions)@ + closing(self@),
    {
        if let Some((device, page)) = self.shown() {
            actions.push(Action::ClosePage(device, page));
        }
        assert(actions@ =~= old(actions)@ + closing(self@));
    }

    fn page_selected(&mut self, device_id: &str, page_id: usize) -> (r: Vec<Action>)
        requires
            old(self).wf(),
        ensures
            final(self).wf(),
            (final(self)@, r@) == selected(old(self)@, device_id@, page_id),
    {
        let ghost before = self@;
        let mut actions: Vec<Action> = Vec::new();
        self.mixer_active = false;
        self.settings_active = false;
        let is_active_device = match &self.active_device {
            Some(active) => same_text(active.as_str(), device_id),
            None => false,
        };
        let is_active_page = match self.active_page {
            Some(active) => active == page_id,
            None => false,
        };
        if is_active_device && is_active_page {
            return actions;
        }
        self.push_closing(&mut actions);
        assert(current(self@) == current(before));
        assert(actions@ =~= closing(before));
        actions.push(Action::ShowPage);
        assert(actions@ =~= closing(before) + seq![Action::ShowPage]);
        actions
    }

    fn page_turned_to(&mut self, device_id: String, page_id: usize) -> (r: Vec<Action>)
        requires
            old(self).wf(),
            devices::place_of(old(self)@.devices, device_id@, 0) matches Some(i)
                ==> page_id < page_count(old(self)@, i as int),
        ensures
            final(self).wf(),
            (final(self)@, r@) == turned_to(old(self)@, device_id@, page_id),
    {
        let ghost before = self@;
        let mut actions: Vec<Action> = Vec::new();
        if let Some(i) = find_device(self.devices.as_slice(), device_id.as_str()) {
            assert(before.devices[i as int] == self.devices@[i as int]@);
            assert(self.devices@[i as int].wf());
            if self.devices[i].visible[page_id] {
                self.active_device = Some(device_id);
                self.active_page = Some(page_id);
                actions.push(Action::OpenPage(i, page_id));
                assert(actions@ =~= seq![Action::OpenPage(i, page_id)]);
            }
        }
        actions
    }

    fn page_was_updated(&mut self) -> (r: Vec<Action>)
        requires
            old(self).wf(),
            settled(old(self)@),
        ensures
            final(self).wf(),
            (final(self)@, r@) == page_updated(old(self)@),
    {
        let mut actions: Vec<Action> = Vec::new();
        if let Some((device, page)) = self.shown() {
            assert(self@.devices[device as int] == self.devices@[device as int]@);
            assert(self.devices@[device as int].wf());
            if !self.devices[device].visible[page] {
                if let Some(other) = self.devices[device].first_page() {
                    self.active_page = Some(other);
                    actions.push(Action::ClosePage(device, page));
                    actions.push(Action::OpenPage(device, other));
                    assert(actions@ =~= seq![
                        Action::ClosePage(device, page),
                        Action::OpenPage(device, other),
                    ]);
                }
            }
        }
        actions
    }

    fn for_all_devices(&self, m: &AppMessage) -> (r: Vec<Action>)
        ensures
            r@ == all_device_actions(self@, *m, self@.devices.len() as int),
    {
        let mut actions: Vec<Action> = Vec::new();
        let mut i: usize = 0;
        assert(actions@ =~= all_device_actions(self@, *m, 0));
        while i < self.devices.len()
            invariant
                i <= self.devices@.len(),
                actions@ == all_device_actions(self@, *m, i as int),
            decreases self.devices@.len() - i,
        {
            assert(self@.devices[i as int] == self.devices@[i as int]@);
            push_device_actions(&mut actions, m, &self.devices[i], i, self.active_page);
            i = i + 1;
        }
        actions
    }

    /// Takes a message, and says what is to be done.
    pub fn update(&mut self, message: AppMessage) -> (r: Vec<Action>)
        requires
            old(self).wf(),
            accepts(old(self)@, message),
        ensures
            final(self).wf(),
            final(self)@ == step(old(self)@, message).0,
            r@ == step(old(self)@, message).1,
    {
        let mut actions: Vec<Action> = Vec::new();
        assert(actions@ =~= seq![]);
        match message {
            AppMessage::DeviceArrived(d) => {
                return self.device_arrived(d);
            },
            AppMessage::DeviceRemoved(hash) => {
                return self.device_removed(hash.as_str());
            },
            AppMessage::ActivatePipeweaver { launched } => {
                if !launched {
                    self.mixer_active = true;
                    self.settings_active = false;
                    self.active_device = None;
                }
            },
            AppMessage::ActivateSettings => {
                self.mixer_active = false;
                self.settings_active = true;
                self.active_device = None;
            },
            AppMessage::Settings => {
                if self.window_open {
                    actions.push(Action::UpdateSettings);
                    assert(actions@ =~= seq![Action::UpdateSettings]);
                }
            },
            AppMessage::Pipeweaver => {
                actions.push(Action::UpdatePipeweaver);
                assert(actions@ =~= seq![Action::UpdatePipeweaver]);
            },
            AppMessage::SelectDeviceAndPage { device_id, page_id } => {
                return self.page_selected(device_id.as_str(), page_id);
            },
            AppMessage::ShowPage { device_id, page_id } => {
                return self.page_turned_to(device_id, page_id);
            },
            AppMessage::Page => {
                if let Some((device, page)) = self.shown() {
                    actions.push(Action::UpdatePage(device, page));
                    assert(actions@ =~= seq![Action::UpdatePage(device, page)]);
                }
            },
            AppMessage::PageUpdated => {
                return self.page_was_updated();
            },
            AppMessage::Tick => {
                if let Some((device, page)) = self.shown() {
                    actions.push(Action::TickPage(device, page));
                    assert(actions@ =~= seq![Action::TickPage(device, page)]);
                }
            },
            AppMessage::SwitchProfile(_) => {
                return self.for_all_devices(&message);
            },
            AppMessage::ReloadProfile => {
                return self.for_all_devices(&message);
            },
            AppMessage::SetGain(_) => {
                return self.for_all_devices(&message);
            },
            AppMessage::SetEqBand { .. } => {
                return self.for_all_devices(&message);
            },
            AppMessage::Quit => {
                if self.window_open {
                    self.push_closing(&mut actions);
                    assert(actions@ =~= closing(self@));
                }
                actions.push(Action::Exit);
                assert(actions@ =~= step(self@, AppMessage::Quit).1);
            },
            AppMessage::WindowOpen => {
                if !self.window_open {
                    if let Some((device, page)) = self.shown() {
                        actions.push(Action::OpenPage(device, page));
                    }
                    assert(actions@ =~= opening(self@));
                    actions.push(Action::OpenWindow);
                    assert(actions@ =~= opening(self@) + seq![Action::OpenWindow]);
                    self.window_open = true;
                }
            },
            AppMessage::WindowOpened => {},
            AppMessage::WindowCloseRequested => {
                self.push_closing(&mut actions);
                assert(actions@ =~= closing(self@));
                let last = if self.stays {
                    Action::CloseWindow
                } else {
                    Action::Exit
                };
                actions.push(last);
                assert(actions@ =~= closing(self@) + seq![last]);
                self.window_open = false;
            },
            AppMessage::WindowResized(width, height) => {
                self.size = (width, height);
            },
        }
        actions
    }
}

fn push_device_actions(
    actions: &mut Vec<Action>,
    m: &AppMessage,
    d: &Device,
    i: usize,
    active_page: Option<usize>,
)
    ensures
        final(actions)@ == old(actions)@ + device_actions(*m, d@, i, active_page),
{
    let ghost start = actions@;
    let audio = match d.kind {
        DeviceKind::Audio => true,
        DeviceKind::Control => false,
    };
    match m {
        AppMessage::SwitchProfile(_) => {
            if audio {
                actions.push(Action::SwitchProfile(i));
            }
        },
        AppMessage::ReloadProfile => {
            if audio {
                actions.push(Action::ReloadProfile(i));
            }
        },
        AppMessage::SetGain(gain) => {
            if audio {
                let message = match d.device_type {
                    DeviceType::BeacnMic => Message::MicSetup(MicSetup::MicGain(*gain as u32)),
                    DeviceType::BeacnStudio => Message::MicSetup(
                        MicSetup::StudioMicGain(*gain as u32),
                    ),
                    _ => {
                        assert(actions@ =~= start + device_actions(*m, d@, i, active_page));
                        return ;
                    },
                };
                actions.push(Action::SendAndSave(i, message));
            }
        },
        AppMessage::SetEqBand { band, band_type, frequency, gain, q } => {
            if audio {
                let mode = d.eq_mode;
                actions.push(
                    Action::Send(
                        i,
                        Message::EQMicrophone(EQMicrophone::Type(mode, *band, *band_type)),
                    ),
                );
                actions.push(
                    Action::Send(
                        i,
                        Message::EQMicrophone(EQMicrophone::Frequency(mode, *band, *frequency)),
                    ),
                );
                actions.push(
                    Action::Send(i, Message::EQMicrophone(EQMicrophone::Gain(mode, *band, *gain))),
                );
                actions.push(
                    Action::Send(i, Message::EQMicrophone(EQMicrophone::Q(mode, *band, *q))),
                );
                actions.push(
                    Action::Send(
                        i,
                        Message::EQMicrophone(EQMicrophone::Enabled(mode, *band, true)),
                    ),
                );
                proof {
                    let sent = band_messages(mode, *band, *band_type, *frequency, *gain, *q);
                    assert(actions@ =~= start + sent.map_values(
                        |msg: Message| Action::Send(i, msg),
                    ));
                }
                actions.push(Action::Save(i));
            }
        },
        _ => {
            assert(actions@ =~= start + device_actions(*m, d@, i, active_page));
            return ;
        },
    }
    if let Some(page) = active_page {
        actions.push(Action::OpenPage(i, page));
    }
    assert(actions@ =~= start + device_actions(*m, d@, i, active_page));
}

/// What a message to the window makes happen to it.
pub open spec fn happening(m: WindowMessage) -> AppMessage {
    match m {
        WindowMessage::OpenWindow => AppMessage::WindowOpen,
        WindowMessage::Quit => AppMessage::Quit,
        WindowMessage::SwitchProfile(name) => AppMessage::SwitchProfile(name),
        WindowMessage::ReloadProfile => AppMessage::ReloadProfile,
        WindowMessage::SetGain(gain) => AppMessage::SetGain(gain),
        WindowMessage::SetEqBand { band, band_type, frequency, gain, q } => {
            AppMessage::SetEqBand { band, band_type, frequency, gain, q }
        },
    }
}

/// What a message to the window makes happen to it.
pub fn subscription(m: WindowMessage) -> (r: AppMessage)
    ensures
        r == happening(m),
{
    match m {
        WindowMessage::OpenWindow => AppMessage::WindowOpen,
        WindowMessage::Quit => AppMessage::Quit,
        WindowMessage::SwitchProfile(name) => AppMessage::SwitchProfile(name),
        WindowMessage::ReloadProfile => AppMessage::ReloadProfile,
        WindowMessage::SetGain(gain) => AppMessage::SetGain(gain),
        WindowMessage::SetEqBand { band, band_type, frequency, gain, q } => {
            AppMessage::SetEqBand { band, band_type, frequency, gain, q }
        },
    }
}

/// A button of the sidebar. It can be pressed if its page is not the one that is selected.
#[derive(Clone, Copy, Debug, PartialEq, Eq, Structural)]
pub struct PageButton {
    pub page: usize,
    pub selected: bool,
}

/// A device in the sidebar.
#[derive(Debug)]
pub struct DeviceGroup {
    /// The place of the device.
    pub device: usize,
    /// What stands above the buttons.
    pub label: String,
    pub buttons: Vec<PageButton>,
}

/// What there is to a device in the sidebar.
pub struct GroupModel {
    pub device: usize,
    pub label: Seq<char>,
    pub buttons: Seq<PageButton>,
}

impl View for DeviceGroup {
    type V = GroupModel;

    open spec fn view(&self) -> GroupModel {
        GroupModel { device: self.device, label: self.label@, buttons: self.buttons@ }
    }
}

/// What there is to each of `groups`.
pub open spec fn group_models(groups: Seq<DeviceGroup>) -> Seq<GroupModel> {
    groups.map_values(|g: DeviceGroup| g@)
}

/// What stands beside the sidebar.
#[derive(Clone, Copy, Debug, PartialEq, Eq, Structural)]
pub enum Content {
    Pipeweaver,
    Settings,
    /// The page of a device, both by their places.
    Page(usize, usize),
    SelectDevice,
    NoPage,
}

impl Content {
    /// What is written where there is no page.
    pub open spec fn text(self) -> Option<Seq<char>> {
        match self {
            Content::SelectDevice => Some("Select a device"@),
            Content::NoPage => Some("No page active"@),
            _ => None,
        }
    }

    /// What is written where there is no page.
    pub fn message(self) -> (r: Option<&'static str>)
        ensures
            match r {
                Some(t) => self.text() == Some(t@),
                None => self.text() is None,
            },
    {
        match self {
            Content::SelectDevice => Some("Select a device"),
            Content::NoPage => Some("No page active"),
            _ => None,
        }
    }
}

/// What the window shows.
#[derive(Debug)]
pub enum Screen {
    /// That there are no devices.
    NoDevices,
    /// The sidebar with the devices, and what stands beside it.
    Devices {
        mixer_active: bool,
        settings_active: bool,
        groups: Vec<DeviceGroup>,
        content: Content,
    },
}

/// The places before `upto` of the devices of the model at the place `rank`, in order.
pub open spec fn ranked(devices: Seq<DeviceModel>, rank: int, upto: int) -> Seq<usize>
    decreases upto,
{
    if upto <= 0 {
        seq![]
    } else if devices[upto - 1].device_type.rank() == rank {
        ranked(devices, rank, upto - 1).push((upto - 1) as usize)
    } else {
        ranked(devices, rank, upto - 1)
    }
}

/// The places of the devices in the order of the sidebar: by model, and those of one model in the
/// order of their places.
pub open spec fn sidebar_order(devices: Seq<DeviceModel>, upto_rank: int) -> Seq<usize>
    decreases upto_rank,
{
    if upto_rank <= 0 {
        seq![]
    } else {
        sidebar_order(devices, upto_rank - 1) + ranked(
            devices,
            upto_rank - 1,
            devices.len() as int,
        )
    }
}

/// The group of the device at the place `i`.
pub open spec fn group_of(s: AppModel, i: usize) -> GroupModel {
    let d = s.devices[i as int];
    let active = s.active_device == Some(d.hash);
    GroupModel {
        device: i,
        label: d.device_type.label(),
        buttons: devices::shown_before(d.visible, d.visible.len() as int).map_values(
            |page: usize|
                PageButton { page, selected: active && s.active_page == Some(page) },
        ),
    }
}

/// What stands beside the sidebar.
pub open spec fn content_of(s: AppModel) -> Content {
    if s.mixer_active {
        Content::Pipeweaver
    } else if s.settings_active {
        Content::Settings
    } else if s.active_device is None || s.active_page is None {
        Content::NoPage
    } else {
        match current(s) {
            Some((device, page)) => Content::Page(device, page),
            None => Content::SelectDevice,
        }
    }
}

impl BeacnUtility {
    fn group(&self, i: usize) -> (r: DeviceGroup)
        requires
            i < self@.devices.len(),
        ensures
            r@ == group_of(self@, i),
    {
        let d = &self.devices[i];
        assert(self@.devices[i as int] == d@);
        let active = match &self.active_device {
            Some(hash) => same_text(hash.as_str(), d.hash.as_str()),
            None => false,
        };
        let pages = visible_pages(d);
        let mut buttons: Vec<PageButton> = Vec::new();
        let mut k: usize = 0;
        while k < pages.len()
            invariant
                k <= pages@.len(),
                active == (self@.active_device == Some(d@.hash)),
                buttons@ == pages@.take(k as int).map_values(
                    |page: usize|
                        PageButton {
                            page,
                            selected: active && self@.active_page == Some(page),
                        },
                ),
            decreases pages@.len() - k,
        {
            let page: usize = pages[k];
            let shown = match self.active_page {
                Some(active_page) => active_page == page,
                None => false,
            };
            buttons.push(PageButton { page, selected: active && shown });
            assert(buttons@ =~= pages@.take(k + 1).map_values(
                |page: usize|
                    PageButton { page, selected: active && self@.active_page == Some(page) },
            ));
            k = k + 1;
        }
        assert(pages@.take(k as int) =~= pages@);
        let r = DeviceGroup { device: i, label: d.device_type.name().to_owned(), buttons };
        assert(r@.buttons =~= group_of(self@, i).buttons);
        r
    }

    fn push_ranked(&self, groups: &mut Vec<DeviceGroup>, rank: usize)
        ensures
            group_models(final(groups)@) == group_models(old(groups)@) + ranked(
                self@.devices,
                rank as int,
                self@.devices.len() as int,
            ).map_values(|i: usize| group_of(self@, i)),
    {
        let ghost start = group_models(groups@);
        let ghost all = self@.devices;
        let mut i: usize = 0;
        assert(group_models(groups@) =~= start + ranked(all, rank as int, 0).map_values(
            |i: usize| group_of(self@, i),
        ));
        while i < self.devices.len()
            invariant
                i <= self.devices@.len(),
                all == self@.devices,
                group_models(groups@) == start + ranked(all, rank as int, i as int).map_values(
                    |i: usize| group_of(self@, i),
                ),
            decreases self.devices@.len() - i,
        {
            assert(all[i as int] == self.devices@[i as int]@);
            if self.devices[i].device_type.sidebar_rank() == rank {
                let ghost before = group_models(groups@);
                let g = self.group(i);
                groups.push(g);
                assert(group_models(groups@) =~= before.push(group_of(self@, i)));
                assert(group_models(groups@) =~= start + ranked(
                    all,
                    rank as int,
                    i + 1,
                ).map_values(|i: usize| group_of(self@, i)));
            }
            i = i + 1;
        }
    }

    /// What the window shows.
    pub fn screen(&self) -> (r: Screen)
        ensures
            match r {
                Screen::NoDevices => self@.devices.len() == 0,
                Screen::Devices { mixer_active, settings_active, groups, content } => {
                    &&& self@.devices.len() > 0
                    &&& mixer_active == self@.mixer_active
                    &&& settings_active == self@.settings_active
                    &&& group_models(groups@) == sidebar_order(self@.devices, 4).map_values(
                        |i: usize| group_of(self@, i),
                    )
                    &&& content == content_of(self@)
                },
            },
    {
        if self.devices.len() == 0 {
            return Screen::NoDevices;
        }
        let ghost f = |i: usize| group_of(self@, i);
        let mut groups: Vec<DeviceGroup> = Vec::new();
        let mut rank: usize = 0;
        assert(group_models(groups@) =~= sidebar_order(self@.devices, 0).map_values(f));
        while rank < 4
            invariant
                rank <= 4,
                f == (|i: usize| group_of(self@, i)),
                group_models(groups@) == sidebar_order(self@.devices, rank as int).map_values(f),
            decreases 4 - rank,
        {
            let ghost before = sidebar_order(self@.devices, rank as int);
            let ghost these = ranked(self@.devices, rank as int, self@.devices.len() as int);
            self.push_ranked(&mut groups, rank);
            assert((before + these).map_values(f) =~= before.map_values(f) + these.map_values(f));
            rank = rank + 1;
        }
        let content = if self.mixer_active {
            Content::Pipeweaver
        } else if self.settings_active {
            Content::Settings
        } else if self.active_device.is_none() || self.active_page.is_none() {
            Content::NoPage
        } else {
            match self.shown() {
                Some((device, page)) => Content::Page(device, page),
                None => Content::SelectDevice,
            }
        };
        Screen::Devices {
            mixer_active: self.mixer_active,
            settings_active: self.settings_active,
            groups,
            content,
        }
    }
}

} // verus!
