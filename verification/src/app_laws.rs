//! What holds of the window whatever happens to it.

use vstd::prelude::*;

use crate::app::Action;
use crate::app::AppMessage;
use crate::app::AppModel;
use crate::app::Content;
use crate::app;
use crate::devices::DeviceKind;
use crate::devices::DeviceModel;
use crate::devices::DeviceType;
use crate::devices;
use crate::eq::EQBand;
use crate::eq::EQBandType;
use crate::messages::EQMicrophone;
use crate::messages::Message;
use crate::messages::MicSetup;
use crate::scalar::Scalar;

verus! {

/// Whether the device that is shown is there and a page is chosen, and the mixer and the
/// settings are not both shown.
pub open spec fn consistent(s: AppModel) -> bool {
    &&& s.active_device matches Some(hash) ==> devices::place_of(s.devices, hash, 0) is Some
        && s.active_page is Some
    &&& !(s.mixer_active && s.settings_active)
}

/// Whether a device that takes the place of the one that is shown has the page that is shown.
pub open spec fn keeps_page(s: AppModel, m: AppMessage) -> bool {
    m matches AppMessage::DeviceArrived(d) ==> (s.active_device == Some(d@.hash) ==> (
    s.active_page matches Some(page) ==> page < devices::pages_of(d@.kind).len()))
}

/// What holds of the devices of a window: their hashes are distinct, and it is known of each of
/// their pages if it can be shown.
pub open spec fn valid(s: AppModel) -> bool {
    &&& devices::distinct(s.devices)
    &&& s.devices.len() <= usize::MAX
    &&& forall|i: int|
        0 <= i < s.devices.len() ==> (#[trigger] s.devices[i]).visible.len() == devices::pages_of(
            s.devices[i].kind,
        ).len()
}

proof fn other_devices_stay(
    devices: Seq<DeviceModel>,
    d: DeviceModel,
    hash: Seq<char>,
)
    requires
        devices::distinct(devices),
        devices::with_device(devices, d).len() <= usize::MAX,
        hash != d.hash,
    ensures
        match devices::place_of(devices, hash, 0) {
            Some(i) => {
                &&& devices::place_of(devices::with_device(devices, d), hash, 0) == Some(i)
                &&& devices::with_device(devices, d)[i as int] == devices[i as int]
                &&& i < devices.len()
            },
            None => devices::place_of(devices::with_device(devices, d), hash, 0) is None,
        },
{
    let more = devices::with_device(devices, d);
    devices::place_is_found(devices, d.hash, 0);
    devices::place_is_found(devices, hash, 0);
    devices::place_is_found(more, hash, 0);
    devices::devices_arrive(devices, d);
    if let Some(i) = devices::place_of(devices, hash, 0) {
        assert(more[i as int] == devices[i as int]);
        if let Some(j) = devices::place_of(more, hash, 0) {
            if j < i {
                assert(more[j as int].hash == more[i as int].hash);
            }
        }
    }
}

proof fn remaining_devices_stay(devices: Seq<DeviceModel>, gone: Seq<char>, hash: Seq<char>)
    requires
        devices::distinct(devices),
        devices.len() <= usize::MAX,
        hash != gone,
    ensures
        match devices::place_of(devices, hash, 0) {
            Some(i) => {
                let left = devices::without_device(devices, gone);
                &&& devices::place_of(left, hash, 0) matches Some(j)
                &&& j < left.len()
                &&& left[j as int] == devices[i as int]
            },
            None => true,
        },
{
    let left = devices::without_device(devices, gone);
    devices::place_is_found(devices, gone, 0);
    devices::place_is_found(devices, hash, 0);
    devices::place_is_found(left, hash, 0);
    devices::devices_leave(devices, gone);
    if let Some(i) = devices::place_of(devices, hash, 0) {
        let k: int = match devices::place_of(devices, gone, 0) {
            Some(g) => if g < i {
                i - 1
            } else {
                i as int
            },
            None => i as int,
        };
        assert(left[k] == devices[i as int]);
        if let Some(j) = devices::place_of(left, hash, 0) {
            if j < k {
                assert(left[j as int].hash == left[k].hash);
            }
        }
    }
}

proof fn first_open_is_open(devices: Seq<DeviceModel>, from: int)
    requires
        0 <= from,
        devices.len() <= usize::MAX,
        forall|i: int|
            0 <= i < devices.len() ==> (#[trigger] devices[i]).visible.len() <= usize::MAX,
    ensures
        match app::first_open(devices, from) {
            Some((device, page)) => {
                &&& from <= device < devices.len()
                &&& page < devices[device as int].visible.len()
                &&& devices[device as int].visible[page as int]
            },
            None => forall|i: int|
                from <= i < devices.len() ==> devices::first_shown(
                    (#[trigger] devices[i]).visible,
                    0,
                ) is None,
        },
    decreases devices.len() - from,
{
    if from < devices.len() {
        devices::first_of_shown(devices[from].visible, 0);
        if devices::first_shown(devices[from].visible, 0) is None {
            first_open_is_open(devices, from + 1);
        }
    }
}

proof fn arrival_stays_consistent(s: AppModel, e: DeviceModel)
    requires
        valid(s),
        consistent(s),
        e.visible.len() == devices::pages_of(e.kind).len(),
        app::arrived(s, e).0.devices.len() <= usize::MAX,
    ensures
        valid(app::arrived(s, e).0),
        consistent(app::arrived(s, e).0),
        app::settled(s) && (s.active_device == Some(e.hash) ==> (s.active_page matches Some(page)
            ==> page < devices::pages_of(e.kind).len())) ==> app::settled(app::arrived(s, e).0),
{
    let t = app::arrived(s, e).0;
    devices::devices_arrive(s.devices, e);
    devices::place_is_found(s.devices, e.hash, 0);
    devices::place_is_found(t.devices, e.hash, 0);
    devices::first_of_shown(e.visible, 0);
    if let Some(hash) = s.active_device {
        if hash != e.hash {
            other_devices_stay(s.devices, e, hash);
        }
    }
}

proof fn removal_stays_consistent(s: AppModel, gone: Seq<char>)
    requires
        valid(s),
        consistent(s),
    ensures
        valid(app::removed(s, gone).0),
        consistent(app::removed(s, gone).0),
        app::settled(s) ==> app::settled(app::removed(s, gone).0),
{
    let t = app::removed(s, gone).0;
    devices::devices_leave(s.devices, gone);
    devices::place_is_found(s.devices, gone, 0);
    assert forall|i: int| 0 <= i < t.devices.len() implies (#[trigger] t.devices[i]).visible.len()
        == devices::pages_of(t.devices[i].kind).len() by {
        if let Some(g) = devices::place_of(s.devices, gone, 0) {
            if i < g {
                assert(t.devices[i] == s.devices[i]);
            } else {
                assert(t.devices[i] == s.devices[i + 1]);
            }
        }
    }
    first_open_is_open(t.devices, 0);
    if let Some(hash) = s.active_device {
        if hash != gone {
            remaining_devices_stay(s.devices, gone, hash);
        } else if let Some((device, page)) = app::first_open(t.devices, 0) {
            devices::place_is_found(t.devices, t.devices[device as int].hash, 0);
        }
    }
}

proof fn taking_stays_consistent(s: AppModel)
    requires
        valid(s),
        consistent(s),
        app::settled(s),
    ensures
        valid(app::page_updated(s).0),
        consistent(app::page_updated(s).0),
        app::settled(app::page_updated(s).0),
{
    if let Some((device, page)) = app::current(s) {
        devices::place_is_found(s.devices, s.active_device->0, 0);
        devices::first_of_shown(s.devices[device as int].visible, 0);
    }
}

/// Whatever happens to the window, the device that is shown is there and a page is chosen,
/// and the mixer and the settings are not both shown.
pub proof fn window_stays_consistent(s: AppModel, m: AppMessage)
    requires
        valid(s),
        consistent(s),
        app::accepts(s, m),
        app::step(s, m).0.devices.len() <= usize::MAX,
    ensures
        valid(app::step(s, m).0),
        consistent(app::step(s, m).0),
{
    match m {
        AppMessage::DeviceArrived(d) => {
            arrival_stays_consistent(s, d@);
        },
        AppMessage::DeviceRemoved(gone) => {
            removal_stays_consistent(s, gone@);
        },
        AppMessage::PageUpdated => {
            taking_stays_consistent(s);
        },
        _ => {},
    }
}

/// The device that is shown has the page that is shown, and keeps having it whatever happens to
/// the window, as long as a device that takes its place has that page too.
pub proof fn shown_page_stays_there(s: AppModel, m: AppMessage)
    requires
        valid(s),
        consistent(s),
        app::settled(s),
        app::accepts(s, m),
        keeps_page(s, m),
        app::step(s, m).0.devices.len() <= usize::MAX,
    ensures
        app::settled(app::step(s, m).0),
{
    match m {
        AppMessage::DeviceArrived(d) => {
            arrival_stays_consistent(s, d@);
        },
        AppMessage::DeviceRemoved(gone) => {
            removal_stays_consistent(s, gone@);
        },
        AppMessage::PageUpdated => {
            taking_stays_consistent(s);
        },
        _ => {},
    }
}

/// A window starts consistent, and no page is shown that is not there.
pub proof fn window_starts_consistent(s: AppModel)
    requires
        s.devices.len() == 0,
        s.active_device is None,
        !s.mixer_active,
        !s.settings_active,
    ensures
        valid(s),
        consistent(s),
        app::settled(s),
{
}

/// After the page that is shown has taken something, it is one that can be shown, if any page of
/// its device can be.
pub proof fn shown_page_can_be_shown(s: AppModel)
    requires
        valid(s),
        consistent(s),
        app::settled(s),
        s.active_device is Some,
    ensures
        ({
            let t = app::page_updated(s).0;
            &&& app::current(t) matches Some((device, page))
            &&& page < t.devices[device as int].visible.len()
            &&& t.devices[device as int].visible[page as int] || forall|i: int|
                0 <= i < t.devices[device as int].visible.len()
                    ==> !(#[trigger] t.devices[device as int].visible[i])
        }),
{
    if let Some((device, page)) = app::current(s) {
        devices::place_is_found(s.devices, s.active_device->0, 0);
        devices::first_of_shown(s.devices[device as int].visible, 0);
    }
}

/// A page that can be shown is the one that is shown after it has been asked for and the page that
/// was shown has made way for it, in place of the mixer and the settings; asking for it again does
/// nothing.
pub proof fn selected_page_is_shown(s: AppModel, hash: Seq<char>, page: usize)
    requires
        valid(s),
        devices::place_of(s.devices, hash, 0) matches Some(i)
            && page < s.devices[i as int].visible.len() && s.devices[i as int].visible[page as int],
    ensures
        ({
            let t = app::selected(s, hash, page).0;
            let u = app::turned_to(t, hash, page).0;
            &&& app::content_of(u) == Content::Page(devices::place_of(s.devices, hash, 0)->0, page)
            &&& app::selected(u, hash, page) == (u, Seq::<Action>::empty())
            &&& app::selected(s, hash, page).1.len() == 0 ==> t == u
        }),
{
}

/// The window is opened only while it is not open, and is open afterwards; closing it lets it be
/// opened again.
pub proof fn one_window_at_a_time(s: AppModel)
    ensures
        app::step(s, AppMessage::WindowOpen).1.contains(Action::OpenWindow) <==> !s.window_open,
        app::step(s, AppMessage::WindowOpen).0.window_open,
        !app::step(s, AppMessage::WindowCloseRequested).0.window_open,
{
    let actions = app::opening(s) + seq![Action::OpenWindow];
    assert(actions.last() == Action::OpenWindow);
    assert(actions.contains(Action::OpenWindow));
}

/// What is sent to a device for a message to all devices.
pub open spec fn sends(a: Action, i: usize) -> bool {
    match a {
        Action::SwitchProfile(j) => i == j,
        Action::ReloadProfile(j) => i == j,
        Action::Send(j, _) => i == j,
        Action::SendAndSave(j, _) => i == j,
        Action::Save(j) => i == j,
        _ => false,
    }
}

/// A message to all devices sends nothing to a controller.
pub proof fn controllers_are_left_alone(s: AppModel, m: AppMessage, upto: int, i: usize, k: int)
    requires
        0 <= upto <= s.devices.len() <= usize::MAX,
        i < s.devices.len(),
        s.devices[i as int].kind == DeviceKind::Control,
        0 <= k < app::all_device_actions(s, m, upto).len(),
    ensures
        !sends(app::all_device_actions(s, m, upto)[k], i),
    decreases upto,
{
    if upto > 0 {
        let before = app::all_device_actions(s, m, upto - 1);
        let these = app::device_actions(
            m,
            s.devices[upto - 1],
            (upto - 1) as usize,
            s.active_page,
        );
        if k < before.len() {
            controllers_are_left_alone(s, m, upto - 1, i, k);
        } else {
            assert(app::all_device_actions(s, m, upto)[k] == these[k - before.len()]);
        }
    }
}

/// What a message for all devices does is done device by device: what is done to one of them
/// stands together, from some place on.
proof fn devices_take_turns(s: AppModel, m: AppMessage, upto: int, i: usize) -> (at: int)
    requires
        0 <= i < upto <= s.devices.len() <= usize::MAX,
    ensures
        ({
            let all = app::all_device_actions(s, m, upto);
            let these = app::device_actions(m, s.devices[i as int], i, s.active_page);
            &&& 0 <= at
            &&& at + these.len() <= all.len()
            &&& forall|k: int| 0 <= k < these.len() ==> #[trigger] all[at + k] == these[k]
        }),
    decreases upto,
{
    let before = app::all_device_actions(s, m, upto - 1);
    if i == upto - 1 {
        before.len() as int
    } else {
        let at = devices_take_turns(s, m, upto - 1, i);
        let all = app::all_device_actions(s, m, upto);
        let these = app::device_actions(m, s.devices[i as int], i, s.active_page);
        assert forall|k: int| 0 <= k < these.len() implies #[trigger] all[at + k] == these[k] by {
            assert(all[at + k] == before[at + k]);
        }
        at
    }
}

/// Nothing is done for a message to all devices but what it does to one of them.
proof fn actions_are_of_devices(s: AppModel, m: AppMessage, upto: int, k: int) -> (r: (usize, int))
    requires
        0 <= upto <= s.devices.len() <= usize::MAX,
        0 <= k < app::all_device_actions(s, m, upto).len(),
    ensures
        ({
            let these = app::device_actions(m, s.devices[r.0 as int], r.0, s.active_page);
            &&& 0 <= r.0 < upto
            &&& 0 <= r.1 < these.len()
            &&& app::all_device_actions(s, m, upto)[k] == these[r.1]
        }),
    decreases upto,
{
    let before = app::all_device_actions(s, m, upto - 1);
    if k < before.len() {
        actions_are_of_devices(s, m, upto - 1, k)
    } else {
        ((upto - 1) as usize, k - before.len())
    }
}

/// Setting a band sends to audio devices only, and to each of them in the mode that its equaliser
/// is in: whatever is sent is a setting of that band in that mode, with the value that was asked
/// for. Besides that only profiles of audio devices are saved, and the page that is shown opens
/// again.
pub proof fn bands_are_set_in_the_mode_heard(
    s: AppModel,
    band: EQBand,
    band_type: EQBandType,
    frequency: Scalar,
    gain: Scalar,
    q: Scalar,
    k: int,
)
    requires
        s.devices.len() <= usize::MAX,
        0 <= k < app::step(
            s,
            AppMessage::SetEqBand { band, band_type, frequency, gain, q },
        ).1.len(),
    ensures
        match app::step(s, AppMessage::SetEqBand { band, band_type, frequency, gain, q }).1[k] {
            Action::Send(i, Message::EQMicrophone(m)) => {
                &&& i < s.devices.len()
                &&& s.devices[i as int].kind == DeviceKind::Audio
                &&& match m {
                    EQMicrophone::Mode(_) => false,
                    EQMicrophone::Type(mode, b, x) => mode == s.devices[i as int].eq_mode && b
                        == band && x == band_type,
                    EQMicrophone::Frequency(mode, b, x) => mode == s.devices[i as int].eq_mode && b
                        == band && x == frequency,
                    EQMicrophone::Gain(mode, b, x) => mode == s.devices[i as int].eq_mode && b
                        == band && x == gain,
                    EQMicrophone::Q(mode, b, x) => mode == s.devices[i as int].eq_mode && b == band
                        && x == q,
                    EQMicrophone::Enabled(mode, b, x) => mode == s.devices[i as int].eq_mode && b
                        == band && x,
                }
            },
            Action::Save(i) => i < s.devices.len() && s.devices[i as int].kind
                == DeviceKind::Audio,
            Action::OpenPage(i, page) => i < s.devices.len() && s.active_page == Some(page),
            _ => false,
        },
        app::step(s, AppMessage::SetEqBand { band, band_type, frequency, gain, q }).0 == s,
{
    let m = AppMessage::SetEqBand { band, band_type, frequency, gain, q };
    let (i, j) = actions_are_of_devices(s, m, s.devices.len() as int, k);
}

/// Setting a band sets all there is to it on every audio device: its shape, frequency, gain and Q,
/// and that it is on, in the mode that the device's equaliser is in; after that the profile of the
/// device is saved, and the page that is shown opens again on it.
pub proof fn bands_are_set_on_every_device(
    s: AppModel,
    band: EQBand,
    band_type: EQBandType,
    frequency: Scalar,
    gain: Scalar,
    q: Scalar,
    i: usize,
) -> (at: int)
    requires
        i < s.devices.len() <= usize::MAX,
        s.devices[i as int].kind == DeviceKind::Audio,
    ensures
        ({
            let all = app::step(s, AppMessage::SetEqBand { band, band_type, frequency, gain, q }).1;
            let mode = s.devices[i as int].eq_mode;
            let sent = |k: int, m: EQMicrophone|
                all[at + k] == Action::Send(i, Message::EQMicrophone(m));
            &&& 0 <= at && at + 6 <= all.len()
            &&& sent(0, EQMicrophone::Type(mode, band, band_type))
            &&& sent(1, EQMicrophone::Frequency(mode, band, frequency))
            &&& sent(2, EQMicrophone::Gain(mode, band, gain))
            &&& sent(3, EQMicrophone::Q(mode, band, q))
            &&& sent(4, EQMicrophone::Enabled(mode, band, true))
            &&& all[at + 5] == Action::Save(i)
            &&& s.active_page matches Some(page) ==> at + 7 <= all.len() && all[at + 6]
                == Action::OpenPage(i, page)
        }),
{
    let m = AppMessage::SetEqBand { band, band_type, frequency, gain, q };
    let at = devices_take_turns(s, m, s.devices.len() as int, i);
    let these = app::device_actions(m, s.devices[i as int], i, s.active_page);
    assert(these.len() >= 6);
    assert(these[0] == app::all_device_actions(s, m, s.devices.len() as int)[at + 0]);
    assert(these[1] == app::all_device_actions(s, m, s.devices.len() as int)[at + 1]);
    assert(these[2] == app::all_device_actions(s, m, s.devices.len() as int)[at + 2]);
    assert(these[3] == app::all_device_actions(s, m, s.devices.len() as int)[at + 3]);
    assert(these[4] == app::all_device_actions(s, m, s.devices.len() as int)[at + 4]);
    assert(these[5] == app::all_device_actions(s, m, s.devices.len() as int)[at + 5]);
    if s.active_page is Some {
        assert(these.len() == 7);
        assert(these[6] == app::all_device_actions(s, m, s.devices.len() as int)[at + 6]);
    }
    at
}

/// Setting the gain sends that gain, and only that, to each microphone and each studio as the
/// setting that it has for it, and saves its profile; no other device is sent anything.
pub proof fn gain_is_set_on_microphones(s: AppModel, gain: u8, k: int, i: usize) -> (at: int)
    requires
        i < s.devices.len() <= usize::MAX,
    ensures
        ({
            let all = app::step(s, AppMessage::SetGain(gain)).1;
            let d = s.devices[i as int];
            let audio = d.kind == DeviceKind::Audio;
            &&& app::step(s, AppMessage::SetGain(gain)).0 == s
            &&& 0 <= k < all.len() ==> match all[k] {
                Action::SendAndSave(j, Message::MicSetup(MicSetup::MicGain(x))) => {
                    &&& j < s.devices.len()
                    &&& s.devices[j as int].kind == DeviceKind::Audio
                    &&& s.devices[j as int].device_type == DeviceType::BeacnMic
                    &&& x == gain
                },
                Action::SendAndSave(j, Message::MicSetup(MicSetup::StudioMicGain(x))) => {
                    &&& j < s.devices.len()
                    &&& s.devices[j as int].kind == DeviceKind::Audio
                    &&& s.devices[j as int].device_type == DeviceType::BeacnStudio
                    &&& x == gain
                },
                Action::OpenPage(j, page) => j < s.devices.len() && s.active_page == Some(page),
                _ => false,
            }
            &&& audio && d.device_type == DeviceType::BeacnMic ==> 0 <= at < all.len() && all[at]
                == Action::SendAndSave(i, Message::MicSetup(MicSetup::MicGain(gain as u32)))
            &&& audio && d.device_type == DeviceType::BeacnStudio ==> 0 <= at < all.len()
                && all[at] == Action::SendAndSave(
                i,
                Message::MicSetup(MicSetup::StudioMicGain(gain as u32)),
            )
        }),
{
    let m = AppMessage::SetGain(gain);
    let n = s.devices.len() as int;
    if 0 <= k < app::all_device_actions(s, m, n).len() {
        let (j, l) = actions_are_of_devices(s, m, n, k);
    }
    let at = devices_take_turns(s, m, n, i);
    let these = app::device_actions(m, s.devices[i as int], i, s.active_page);
    if these.len() > 0 {
        assert(app::all_device_actions(s, m, n)[at + 0] == these[0]);
    }
    at
}

/// Switching the profile, or taking it on again, does just that on every audio device and on no
/// other, and then opens the page that is shown again on every device.
pub proof fn profile_is_taken_on_by_audio_devices(s: AppModel, m: AppMessage, k: int, i: usize) -> (
    at: int)
    requires
        i < s.devices.len() <= usize::MAX,
        m is SwitchProfile || m is ReloadProfile,
    ensures
        ({
            let all = app::step(s, m).1;
            let audio = s.devices[i as int].kind == DeviceKind::Audio;
            let now = if m is SwitchProfile {
                Action::SwitchProfile(i)
            } else {
                Action::ReloadProfile(i)
            };
            &&& app::step(s, m).0 == s
            &&& 0 <= k < all.len() ==> match all[k] {
                Action::SwitchProfile(j) => m is SwitchProfile && j < s.devices.len()
                    && s.devices[j as int].kind == DeviceKind::Audio,
                Action::ReloadProfile(j) => m is ReloadProfile && j < s.devices.len()
                    && s.devices[j as int].kind == DeviceKind::Audio,
                Action::OpenPage(j, page) => j < s.devices.len() && s.active_page == Some(page),
                _ => false,
            }
            &&& audio ==> 0 <= at < all.len() && all[at] == now
            &&& s.active_page matches Some(page) ==> {
                let next = if audio {
                    at + 1
                } else {
                    at
                };
                0 <= next < all.len() && all[next] == Action::OpenPage(i, page)
            }
        }),
{
    let n = s.devices.len() as int;
    if 0 <= k < app::all_device_actions(s, m, n).len() {
        let (j, l) = actions_are_of_devices(s, m, n, k);
    }
    let at = devices_take_turns(s, m, n, i);
    let these = app::device_actions(m, s.devices[i as int], i, s.active_page);
    if these.len() > 0 {
        assert(app::all_device_actions(s, m, n)[at + 0] == these[0]);
    }
    if these.len() > 1 {
        assert(app::all_device_actions(s, m, n)[at + 1] == these[1]);
    }
    at
}

} // verus!
