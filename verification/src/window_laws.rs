//! What each thing that happens to the window makes of it, and what is to be done then.

use vstd::prelude::*;

use crate::app::Action;
use crate::app::AppMessage;
use crate::app::AppModel;
use crate::app::Content;
use crate::app;
use crate::app_laws;
use crate::args::WindowMessage;
use crate::devices::Device;
use crate::devices::DeviceModel;
use crate::devices::DeviceType;
use crate::devices;
use crate::scalar::Scalar;

verus! {

/// Whether `page` is the first that can be shown.
pub open spec fn is_first_page(visible: Seq<bool>, page: usize) -> bool {
    &&& page < visible.len()
    &&& visible[page as int]
    &&& forall|i: int| 0 <= i < page ==> !(#[trigger] visible[i])
}

/// Whether no page can be shown.
pub open spec fn no_pages(visible: Seq<bool>) -> bool {
    forall|i: int| 0 <= i < visible.len() ==> !(#[trigger] visible[i])
}

/// Whether the window is another one but for its devices and what it shows of them.
pub open spec fn same_frame(t: AppModel, s: AppModel) -> bool {
    &&& t.mixer_active == s.mixer_active
    &&& t.settings_active == s.settings_active
    &&& t.window_open == s.window_open
    &&& t.size == s.size
    &&& t.stays == s.stays
}

/// A device that arrives is among the devices: in place of the one with its hash, if there is one,
/// and after all others if not; the others stay where they are. It is shown if no device is and it
/// has a page that can be, on the first such page, which opens.
pub proof fn arriving_device_is_shown_if_none_is(s: AppModel, d: Device, j: int)
    requires
        app_laws::valid(s),
        s.devices.len() < usize::MAX,
        d.wf(),
    ensures
        ({
            let (t, actions) = app::step(s, AppMessage::DeviceArrived(d));
            let e = d@;
            let known = exists|i: int| 0 <= i < s.devices.len() && (#[trigger] s.devices[i]).hash
                == e.hash;
            &&& same_frame(t, s)
            &&& t.devices.len() == s.devices.len() + (if known {
                0int
            } else {
                1
            })
            &&& !known ==> t.devices[s.devices.len() as int] == e
            &&& 0 <= j < s.devices.len() ==> t.devices[j] == (if s.devices[j].hash == e.hash {
                e
            } else {
                s.devices[j]
            })
            &&& s.active_device is Some ==> t.active_device == s.active_device && t.active_page
                == s.active_page && actions.len() == 0
            &&& s.active_device is None && no_pages(e.visible) ==> t.active_device is None
                && t.active_page == s.active_page && actions.len() == 0
            &&& s.active_device is None && !no_pages(e.visible) ==> {
                &&& t.active_device == Some(e.hash)
                &&& t.active_page matches Some(page)
                &&& is_first_page(e.visible, page)
                &&& actions.len() == 1
                &&& actions[0] matches Action::OpenPage(i, p)
                &&& p == page && i < t.devices.len() && t.devices[i as int] == e
            }
        }),
{
    let e = d@;
    let t = app::step(s, AppMessage::DeviceArrived(d)).0;
    devices::place_is_found(s.devices, e.hash, 0);
    devices::devices_arrive(s.devices, e);
    devices::first_of_shown(e.visible, 0);
}

/// A device that goes is no longer among the devices, and the others stay in order. If it was the
/// one that is shown, the first device that has a page that can be shown is shown instead, on its
/// first such page, which opens; where there is none, none is shown. Otherwise what is shown stays.
pub proof fn another_device_takes_over(s: AppModel, gone: String)
    requires
        app_laws::valid(s),
    ensures
        ({
            let (t, actions) = app::step(s, AppMessage::DeviceRemoved(gone));
            &&& same_frame(t, s)
            &&& forall|i: int| 0 <= i < t.devices.len() ==> (#[trigger] t.devices[i]).hash != gone@
            &&& s.active_device != Some(gone@) ==> t.active_device == s.active_device
                && t.active_page == s.active_page && actions.len() == 0
            &&& s.active_device == Some(gone@) ==> match t.active_device {
                Some(hash) => {
                    &&& actions.len() == 1
                    &&& actions[0] matches Action::OpenPage(i, page)
                    &&& i < t.devices.len()
                    &&& t.devices[i as int].hash == hash
                    &&& t.active_page == Some(page)
                    &&& is_first_page(t.devices[i as int].visible, page)
                    &&& forall|k: int| 0 <= k < i ==> no_pages((#[trigger] t.devices[k]).visible)
                },
                None => {
                    &&& t.active_page is None
                    &&& actions.len() == 0
                    &&& forall|k: int|
                        0 <= k < t.devices.len() ==> no_pages((#[trigger] t.devices[k]).visible)
                },
            }
        }),
{
    let t = app::step(s, AppMessage::DeviceRemoved(gone)).0;
    devices::devices_leave(s.devices, gone@);
    devices::place_is_found(s.devices, gone@, 0);
    assert(t.devices.len() <= s.devices.len());
    devices::place_is_found(t.devices, gone@, 0);
    assert forall|i: int| 0 <= i < t.devices.len() implies (#[trigger] t.devices[i]).visible.len()
        <= usize::MAX by {
        match devices::place_of(s.devices, gone@, 0) {
            Some(g) => {
                if i < g {
                    assert(t.devices[i] == s.devices[i]);
                } else {
                    assert(t.devices[i] == s.devices[i + 1]);
                }
            },
            None => {
                assert(t.devices[i] == s.devices[i]);
            },
        }
    }
    first_open_is_first(t.devices, 0);
}

proof fn first_open_is_first(all: Seq<DeviceModel>, from: int)
    requires
        0 <= from,
        all.len() <= usize::MAX,
        forall|i: int| 0 <= i < all.len() ==> (#[trigger] all[i]).visible.len() <= usize::MAX,
    ensures
        match app::first_open(all, from) {
            Some((i, page)) => {
                &&& from <= i < all.len()
                &&& is_first_page(all[i as int].visible, page)
                &&& forall|k: int| from <= k < i ==> no_pages((#[trigger] all[k]).visible)
            },
            None => forall|k: int| from <= k < all.len() ==> no_pages((#[trigger] all[k]).visible),
        },
    decreases all.len() - from,
{
    if from < all.len() {
        devices::first_of_shown(all[from].visible, 0);
        if devices::first_shown(all[from].visible, 0) is None {
            first_open_is_first(all, from + 1);
        }
    }
}

/// What is left of the devices when one goes are all others, in the same order.
pub proof fn others_stay_in_order(s: AppModel, gone: String, at: int, i: int)
    requires
        app_laws::valid(s),
        0 <= at < s.devices.len(),
        s.devices[at].hash == gone@,
    ensures
        ({
            let t = app::step(s, AppMessage::DeviceRemoved(gone)).0;
            &&& t.devices.len() == s.devices.len() - 1
            &&& 0 <= i < at ==> t.devices[i] == s.devices[i]
            &&& at < i < s.devices.len() ==> t.devices[i - 1] == s.devices[i]
        }),
{
    devices::place_is_found(s.devices, gone@, 0);
}

/// Asking for a page takes the mixer and the settings away. The page that is shown closes before
/// the other can be shown, unless it is the one that is asked for; which one is shown does not
/// change yet.
pub proof fn asking_for_a_page_closes_the_other(s: AppModel, hash: String, page: usize)
    ensures
        ({
            let m = AppMessage::SelectDeviceAndPage { device_id: hash, page_id: page };
            let (t, actions) = app::step(s, m);
            let same = s.active_device == Some(hash@) && s.active_page == Some(page);
            &&& t == (AppModel { mixer_active: false, settings_active: false, ..s })
            &&& same ==> actions.len() == 0
            &&& !same ==> actions.len() > 0 && actions.last() == Action::ShowPage
            &&& !same && app::current(s) is None ==> actions.len() == 1
            &&& !same ==> (app::current(s) matches Some((i, p)) ==> actions.len() == 2
                && actions[0] == Action::ClosePage(i, p))
        }),
{
}

/// A page is shown, and opens, if its device is there and it can be shown; if not, nothing changes.
pub proof fn page_is_shown_if_it_can_be(s: AppModel, hash: String, page: usize, i: int)
    requires
        app_laws::valid(s),
    ensures
        ({
            let m = AppMessage::ShowPage { device_id: hash, page_id: page };
            let (t, actions) = app::step(s, m);
            &&& 0 <= i < s.devices.len() && s.devices[i].hash == hash@ && page
                < s.devices[i].visible.len() && s.devices[i].visible[page as int] ==> t == (
            AppModel { active_device: Some(hash@), active_page: Some(page), ..s }) && actions.len()
                == 1 && actions[0] == Action::OpenPage(i as usize, page)
            &&& 0 <= i < s.devices.len() && s.devices[i].hash == hash@ && page
                < s.devices[i].visible.len() && !s.devices[i].visible[page as int] ==> t == s
                && actions.len() == 0
            &&& (forall|k: int| 0 <= k < s.devices.len() ==> (#[trigger] s.devices[k]).hash
                != hash@) ==> t == s && actions.len() == 0
        }),
{
    devices::place_is_found(s.devices, hash@, 0);
}

/// A page that is shown and can no longer be makes way for the first of its device that can: the
/// one closes and then the other opens. Where none can, or the page still can, nothing changes.
pub proof fn page_makes_way(s: AppModel, i: usize, page: usize)
    requires
        app_laws::valid(s),
        app::current(s) == Some((i, page)),
        page < s.devices[i as int].visible.len(),
    ensures
        ({
            let (t, actions) = app::step(s, AppMessage::PageUpdated);
            let visible = s.devices[i as int].visible;
            &&& visible[page as int] || no_pages(visible) ==> t == s && actions.len() == 0
            &&& !visible[page as int] && !no_pages(visible) ==> {
                &&& t.active_page matches Some(other)
                &&& is_first_page(visible, other)
                &&& t == (AppModel { active_page: Some(other), ..s })
                &&& actions.len() == 2
                &&& actions[0] == Action::ClosePage(i, page)
                &&& actions[1] == Action::OpenPage(i, other)
            }
        }),
{
    devices::place_is_found(s.devices, s.active_device->0, 0);
    devices::first_of_shown(s.devices[i as int].visible, 0);
}

/// The page that is shown, and no other, takes what there is for it and moves on; where none is
/// shown, nothing is done.
pub proof fn shown_page_takes_part(s: AppModel)
    ensures
        app::step(s, AppMessage::Page).0 == s,
        app::step(s, AppMessage::Tick).0 == s,
        app::current(s) is None ==> app::step(s, AppMessage::Page).1.len() == 0 && app::step(
            s,
            AppMessage::Tick,
        ).1.len() == 0 && app::step(s, AppMessage::PageUpdated) == (s, Seq::<Action>::empty()),
        app::current(s) matches Some((i, p)) ==> {
            &&& app::step(s, AppMessage::Page).1 == seq![Action::UpdatePage(i, p)]
            &&& app::step(s, AppMessage::Tick).1 == seq![Action::TickPage(i, p)]
        },
{
}

/// The page that is shown is that of the device with the hash that is noted, at the place that is
/// noted; there is one just if such a device is there and a place is noted.
pub proof fn shown_page_is_that_of_the_device(s: AppModel)
    requires
        app_laws::valid(s),
    ensures
        match app::current(s) {
            Some((i, p)) => {
                &&& i < s.devices.len()
                &&& s.active_device == Some(s.devices[i as int].hash)
                &&& s.active_page == Some(p)
            },
            None => s.active_page is None || forall|k: int|
                0 <= k < s.devices.len() ==> s.active_device != Some(
                    (#[trigger] s.devices[k]).hash,
                ),
        },
{
    if let Some(hash) = s.active_device {
        devices::place_is_found(s.devices, hash, 0);
    }
}

/// The mixer and the settings each take the place of a device and of each other; a mixer that was
/// launched in a window of its own changes nothing.
pub proof fn mixer_and_settings_take_the_place_of_devices(s: AppModel)
    ensures
        app::step(s, AppMessage::ActivatePipeweaver { launched: true }) == (
            s,
            Seq::<Action>::empty(),
        ),
        app::step(s, AppMessage::ActivatePipeweaver { launched: false }) == (
            AppModel { mixer_active: true, settings_active: false, active_device: None, ..s },
            Seq::<Action>::empty(),
        ),
        app::step(s, AppMessage::ActivateSettings) == (
            AppModel { mixer_active: false, settings_active: true, active_device: None, ..s },
            Seq::<Action>::empty(),
        ),
        app::step(s, AppMessage::Pipeweaver) == (s, seq![Action::UpdatePipeweaver]),
        app::step(s, AppMessage::Settings).0 == s,
        app::step(s, AppMessage::Settings).1 == (if s.window_open {
            seq![Action::UpdateSettings]
        } else {
            seq![]
        }),
{
}

/// Opening a window that is not open opens the page that is shown, and then the window; one that is
/// open stays. Closing it closes the page, and then the window, or ends the program where it does
/// not stay. Quitting ends the program, after the page has closed if the window is open.
pub proof fn window_opens_and_closes_its_page(s: AppModel)
    ensures
        s.window_open ==> app::step(s, AppMessage::WindowOpen) == (s, Seq::<Action>::empty()),
        !s.window_open ==> ({
            let (t, actions) = app::step(s, AppMessage::WindowOpen);
            &&& t == (AppModel { window_open: true, ..s })
            &&& actions.last() == Action::OpenWindow
            &&& match app::current(s) {
                Some((i, p)) => actions.len() == 2 && actions[0] == Action::OpenPage(i, p),
                None => actions.len() == 1,
            }
        }),
        ({
            let (t, actions) = app::step(s, AppMessage::WindowCloseRequested);
            &&& t == (AppModel { window_open: false, ..s })
            &&& s.stays ==> actions.last() == Action::CloseWindow
            &&& !s.stays ==> actions.last() == Action::Exit
            &&& match app::current(s) {
                Some((i, p)) => actions.len() == 2 && actions[0] == Action::ClosePage(i, p),
                None => actions.len() == 1,
            }
        }),
        ({
            let (t, actions) = app::step(s, AppMessage::Quit);
            &&& t == s
            &&& actions.last() == Action::Exit
            &&& match app::current(s) {
                Some((i, p)) => if s.window_open {
                    actions.len() == 2 && actions[0] == Action::ClosePage(i, p)
                } else {
                    actions.len() == 1
                },
                None => actions.len() == 1,
            }
        }),
        app::step(s, AppMessage::WindowOpened) == (s, Seq::<Action>::empty()),
{
}

/// The window remembers the size that it was given.
pub proof fn size_is_kept(s: AppModel, width: Scalar, height: Scalar)
    ensures
        app::step(s, AppMessage::WindowResized(width, height)) == (
            AppModel { size: (width, height), ..s },
            Seq::<Action>::empty(),
        ),
{
}

/// A message to the window makes happen what it says, with all that it says.
pub proof fn messages_happen(m: WindowMessage)
    ensures
        match (m, app::happening(m)) {
            (WindowMessage::OpenWindow, AppMessage::WindowOpen) => true,
            (WindowMessage::Quit, AppMessage::Quit) => true,
            (WindowMessage::SwitchProfile(a), AppMessage::SwitchProfile(b)) => a == b,
            (WindowMessage::ReloadProfile, AppMessage::ReloadProfile) => true,
            (WindowMessage::SetGain(a), AppMessage::SetGain(b)) => a == b,
            (
                WindowMessage::SetEqBand { band, band_type, frequency, gain, q },
                AppMessage::SetEqBand { band: b, band_type: t, frequency: f, gain: g, q: w },
            ) => b == band && t == band_type && f == frequency && g == gain && w == q,
            _ => false,
        },
{
}

/// The devices before a place that are of one model are listed by their places, each once and in
/// order, and no others.
proof fn ranked_are_of_the_model(all: Seq<DeviceModel>, rank: int, upto: int)
    requires
        upto <= all.len() <= usize::MAX,
    ensures
        ({
            let r = app::ranked(all, rank, upto);
            &&& forall|k: int|
                0 <= k < r.len() ==> (#[trigger] r[k]) < upto && all[r[k] as int].device_type.rank()
                    == rank
            &&& forall|k: int, l: int|
                0 <= k < l < r.len() ==> (#[trigger] r[k]) < (#[trigger] r[l])
            &&& forall|i: int|
                0 <= i < upto && (#[trigger] all[i]).device_type.rank() == rank ==> r.contains(
                    i as usize,
                )
        }),
    decreases upto,
{
    if upto > 0 {
        ranked_are_of_the_model(all, rank, upto - 1);
        let before = app::ranked(all, rank, upto - 1);
        let r = app::ranked(all, rank, upto);
        assert forall|i: int|
            0 <= i < upto && (#[trigger] all[i]).device_type.rank() == rank implies r.contains(
            i as usize,
        ) by {
            if i < upto - 1 {
                assert(before.contains(i as usize));
                let k = choose|k: int| 0 <= k < before.len() && before[k] == i as usize;
                assert(r[k] == i as usize);
            } else {
                assert(r.last() == i as usize);
                assert(r[r.len() - 1] == i as usize);
            }
        }
    }
}

/// Whether the device at one place comes before that at another in the sidebar.
pub open spec fn comes_before(all: Seq<DeviceModel>, i: usize, j: usize) -> bool {
    let a = all[i as int].device_type.rank();
    let b = all[j as int].device_type.rank();
    a < b || (a == b && i < j)
}

proof fn order_up_to_rank(all: Seq<DeviceModel>, upto: int)
    requires
        all.len() <= usize::MAX,
        0 <= upto,
    ensures
        ({
            let r = app::sidebar_order(all, upto);
            &&& forall|k: int|
                0 <= k < r.len() ==> (#[trigger] r[k]) < all.len() && 0
                    <= all[r[k] as int].device_type.rank() < upto
            &&& forall|k: int, l: int|
                0 <= k < l < r.len() ==> comes_before(all, #[trigger] r[k], #[trigger] r[l])
            &&& forall|i: int|
                0 <= i < all.len() && (#[trigger] all[i]).device_type.rank() < upto ==> r.contains(
                    i as usize,
                )
        }),
    decreases upto,
{
    if upto > 0 {
        order_up_to_rank(all, upto - 1);
        ranked_are_of_the_model(all, upto - 1, all.len() as int);
        let before = app::sidebar_order(all, upto - 1);
        let these = app::ranked(all, upto - 1, all.len() as int);
        let r = app::sidebar_order(all, upto);
        assert forall|k: int, l: int| 0 <= k < l < r.len() implies comes_before(
            all,
            #[trigger] r[k],
            #[trigger] r[l],
        ) by {
            if l < before.len() {
                assert(r[k] == before[k] && r[l] == before[l]);
            } else if k < before.len() {
                assert(r[k] == before[k] && r[l] == these[l - before.len()]);
            } else {
                assert(r[k] == these[k - before.len()] && r[l] == these[l - before.len()]);
            }
        }
        assert forall|k: int| 0 <= k < r.len() implies (#[trigger] r[k]) < all.len() && 0
            <= all[r[k] as int].device_type.rank() < upto by {
            if k < before.len() {
                assert(r[k] == before[k]);
            } else {
                assert(r[k] == these[k - before.len()]);
            }
        }
        assert forall|i: int|
            0 <= i < all.len() && (#[trigger] all[i]).device_type.rank() < upto implies r.contains(
            i as usize,
        ) by {
            if all[i].device_type.rank() < upto - 1 {
                assert(before.contains(i as usize));
                let k = choose|k: int| 0 <= k < before.len() && before[k] == i as usize;
                assert(r[k] == i as usize);
            } else {
                assert(these.contains(i as usize));
                let k = choose|k: int| 0 <= k < these.len() && these[k] == i as usize;
                assert(r[before.len() as int + k] == i as usize);
            }
        }
    }
}

/// Every device stands in the sidebar, and just once: microphones first, then studios, then the
/// mixers, and those of one model in the order of their places.
pub proof fn every_device_is_in_the_sidebar(s: AppModel, i: int, k: int, l: int)
    requires
        s.devices.len() <= usize::MAX,
    ensures
        ({
            let order = app::sidebar_order(s.devices, 4);
            &&& 0 <= i < s.devices.len() ==> order.contains(i as usize)
            &&& 0 <= k < order.len() ==> order[k] < s.devices.len()
            &&& 0 <= k < l < order.len() ==> comes_before(s.devices, order[k], order[l])
                && order[k] != order[l]
        }),
        DeviceType::BeacnMic.rank() < DeviceType::BeacnStudio.rank(),
        DeviceType::BeacnStudio.rank() < DeviceType::BeacnMixCreate.rank(),
        DeviceType::BeacnMixCreate.rank() < DeviceType::BeacnMix.rank(),
{
    order_up_to_rank(s.devices, 4);
    if 0 <= i < s.devices.len() {
        assert(s.devices[i].device_type.rank() < 4);
    }
}

/// A device in the sidebar has a button for each of its pages that can be shown, in order, and for
/// no other; the button of the page that is shown is the one that is selected.
pub proof fn buttons_lead_to_pages(s: AppModel, i: usize, page: usize, k: int)
    requires
        app_laws::valid(s),
        i < s.devices.len(),
    ensures
        ({
            let group = app::group_of(s, i);
            let d = s.devices[i as int];
            &&& group.device == i
            &&& 0 <= k < group.buttons.len() ==> {
                let b = group.buttons[k];
                &&& b.page < d.visible.len() && d.visible[b.page as int]
                &&& b.selected <==> s.active_device == Some(d.hash) && s.active_page == Some(b.page)
            }
            &&& forall|a: int, b: int|
                0 <= a < b < group.buttons.len() ==> (#[trigger] group.buttons[a]).page < (
                #[trigger] group.buttons[b]).page
            &&& page < d.visible.len() && d.visible[page as int] ==> exists|j: int|
                0 <= j < group.buttons.len() && (#[trigger] group.buttons[j]).page == page
        }),
{
    let d = s.devices[i as int];
    let pages = devices::shown_before(d.visible, d.visible.len() as int);
    let group = app::group_of(s, i);
    devices::shown_pages(d.visible, d.visible.len() as int, page);
    assert forall|a: int, b: int| 0 <= a < b < group.buttons.len() implies (
    #[trigger] group.buttons[a]).page < (#[trigger] group.buttons[b]).page by {
        assert(pages[a] < pages[b]);
    }
    if page < d.visible.len() && d.visible[page as int] {
        let j = choose|j: int| 0 <= j < pages.len() && pages[j] == page;
        assert(group.buttons[j].page == page);
    }
    if 0 <= k < group.buttons.len() {
        devices::shown_pages(d.visible, d.visible.len() as int, pages[k]);
        assert(pages.contains(pages[k]));
    }
}

/// Beside the sidebar stands the mixer if it is active, else the settings if they are, else the
/// page that is shown; without one, what is missing is said.
pub proof fn content_is_what_is_active(s: AppModel)
    ensures
        s.mixer_active ==> app::content_of(s) == Content::Pipeweaver,
        !s.mixer_active && s.settings_active ==> app::content_of(s) == Content::Settings,
        !s.mixer_active && !s.settings_active ==> match app::current(s) {
            Some((i, p)) => app::content_of(s) == Content::Page(i, p),
            None => app::content_of(s) == (if s.active_device is Some && s.active_page is Some {
                Content::SelectDevice
            } else {
                Content::NoPage
            }),
        },
{
}

} // verus!
