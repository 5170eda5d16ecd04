//! The devices that the window shows, and their pages.

use vstd::prelude::*;

use crate::eq::EQMode;
use crate::text::same_text;

verus! {

/// A model of device.
#[derive(Clone, Copy, Debug, PartialEq, Eq, Structural)]
pub enum DeviceType {
    BeacnMic,
    BeacnStudio,
    BeacnMixCreate,
    BeacnMix,
}

impl DeviceType {
    /// The place of the model in the sidebar. The order is this library's own choice: those that
    /// take in sound stand before the mixers.
    pub open spec fn rank(self) -> int {
        match self {
            DeviceType::BeacnMic => 0,
            DeviceType::BeacnStudio => 1,
            DeviceType::BeacnMixCreate => 2,
            DeviceType::BeacnMix => 3,
        }
    }

    /// The place of the model in the sidebar.
    pub fn sidebar_rank(self) -> (r: usize)
        ensures
            r == self.rank(),
            r < 4,
    {
        match self {
            DeviceType::BeacnMic => 0,
            DeviceType::BeacnStudio => 1,
            DeviceType::BeacnMixCreate => 2,
            DeviceType::BeacnMix => 3,
        }
    }

    /// What the sidebar calls the model.
    pub open spec fn label(self) -> Seq<char> {
        match self {
            DeviceType::BeacnMic => "Mic"@,
            DeviceType::BeacnStudio => "Studio"@,
            DeviceType::BeacnMixCreate => "Mix Create"@,
            DeviceType::BeacnMix => "Mix"@,
        }
    }

    /// What the sidebar calls the model.
    pub fn name(self) -> (r: &'static str)
        ensures
            r@ == self.label(),
    {
        match self {
            DeviceType::BeacnMic => "Mic",
            DeviceType::BeacnStudio => "Studio",
            DeviceType::BeacnMixCreate => "Mix Create",
            DeviceType::BeacnMix => "Mix",
        }
    }
}

/// What a device is for.
#[derive(Clone, Copy, Debug, PartialEq, Eq, Structural)]
pub enum DeviceKind {
    Audio,
    Control,
}

/// A page of a device.
#[derive(Clone, Copy, Debug, PartialEq, Eq, Structural)]
pub enum PageKind {
    Configuration,
    Lighting,
    HeadphoneEqualiser,
    StudioLink,
    About,
    Error,
}

/// The pages of a device, in order.
pub open spec fn pages_of(kind: DeviceKind) -> Seq<PageKind> {
    match kind {
        DeviceKind::Audio => seq![
            PageKind::Configuration,
            PageKind::Lighting,
            PageKind::HeadphoneEqualiser,
            PageKind::StudioLink,
            PageKind::About,
            PageKind::Error,
        ],
        DeviceKind::Control => seq![PageKind::About, PageKind::Error],
    }
}

/// The pages of an audio device, in order.
pub fn create_pages_audio() -> (r: Vec<PageKind>)
    ensures
        r@ == pages_of(DeviceKind::Audio),
{
    let r = vec![
        PageKind::Configuration,
        PageKind::Lighting,
        PageKind::HeadphoneEqualiser,
        PageKind::StudioLink,
        PageKind::About,
        PageKind::Error,
    ];
    assert(r@ =~= pages_of(DeviceKind::Audio));
    r
}

/// The pages of a controller, in order.
pub fn create_pages_controller() -> (r: Vec<PageKind>)
    ensures
        r@ == pages_of(DeviceKind::Control),
{
    let r = vec![PageKind::About, PageKind::Error];
    assert(r@ =~= pages_of(DeviceKind::Control));
    r
}

/// The places before `upto` at which `visible` holds, in order.
pub open spec fn shown_before(visible: Seq<bool>, upto: int) -> Seq<usize>
    decreases upto,
{
    if upto <= 0 {
        seq![]
    } else if visible[upto - 1] {
        shown_before(visible, upto - 1).push((upto - 1) as usize)
    } else {
        shown_before(visible, upto - 1)
    }
}

/// The first place from `from` on at which `visible` holds.
pub open spec fn first_shown(visible: Seq<bool>, from: int) -> Option<usize>
    decreases visible.len() - from,
{
    if from < 0 || from >= visible.len() {
        None
    } else if visible[from] {
        Some(from as usize)
    } else {
        first_shown(visible, from + 1)
    }
}

/// A device, and which of its pages can be shown.
#[derive(Debug)]
pub struct Device {
    /// What tells the device from the others.
    pub hash: String,
    pub kind: DeviceKind,
    pub device_type: DeviceType,
    pub pages: Vec<PageKind>,
    /// For each page, whether it can be shown.
    pub visible: Vec<bool>,
    /// The set of bands that the microphone's equaliser of an audio device uses.
    pub eq_mode: EQMode,
}

/// What there is to a device.
pub struct DeviceModel {
    pub hash: Seq<char>,
    pub kind: DeviceKind,
    pub device_type: DeviceType,
    pub visible: Seq<bool>,
    pub eq_mode: EQMode,
}

impl View for Device {
    type V = DeviceModel;

    open spec fn view(&self) -> DeviceModel {
        DeviceModel {
            hash: self.hash@,
            kind: self.kind,
            device_type: self.device_type,
            visible: self.visible@,
            eq_mode: self.eq_mode,
        }
    }
}

impl Device {
    /// Whether the device has the pages of its kind, and it is known of each if it can be shown.
    pub open spec fn wf(self) -> bool {
        &&& self.pages@ == pages_of(self.kind)
        &&& self.visible@.len() == self.pages@.len()
    }

    /// A device that has just arrived.
    pub fn new(
        hash: String,
        kind: DeviceKind,
        device_type: DeviceType,
        visible: Vec<bool>,
        eq_mode: EQMode,
    ) -> (r: Device)
        requires
            visible@.len() == pages_of(kind).len(),
        ensures
            r.wf(),
            r@ == (DeviceModel { hash: hash@, kind, device_type, visible: visible@, eq_mode }),
    {
        let pages = match kind {
            DeviceKind::Audio => create_pages_audio(),
            DeviceKind::Control => create_pages_controller(),
        };
        Device { hash, kind, device_type, pages, visible, eq_mode }
    }

    /// What tells the device from the others.
    pub fn location(&self) -> (r: &str)
        ensures
            r@ == self@.hash,
    {
        self.hash.as_str()
    }

    /// The model of the device.
    pub fn definition(&self) -> (r: DeviceType)
        ensures
            r == self@.device_type,
    {
        self.device_type
    }

    /// The first page that can be shown.
    pub fn first_page(&self) -> (r: Option<usize>)
        ensures
            r == first_shown(self@.visible, 0),
    {
        let mut i: usize = 0;
        while i < self.visible.len()
            invariant
                i <= self.visible@.len(),
                first_shown(self@.visible, 0) == first_shown(self@.visible, i as int),
            decreases self.visible@.len() - i,
        {
            if self.visible[i] {
                return Some(i);
            }
            i = i + 1;
        }
        None
    }
}

/// The places of the pages of `device` that can be shown, in order.
pub fn visible_pages(device: &Device) -> (r: Vec<usize>)
    ensures
        r@ == shown_before(device@.visible, device@.visible.len() as int),
{
    let mut r: Vec<usize> = Vec::new();
    let mut i: usize = 0;
    assert(r@ =~= shown_before(device@.visible, 0));
    while i < device.visible.len()
        invariant
            i <= device.visible@.len(),
            r@ == shown_before(device@.visible, i as int),
        decreases device.visible@.len() - i,
    {
        if device.visible[i] {
            r.push(i);
        }
        i = i + 1;
    }
    r
}

/// The pages that can be shown are those that are said to be, each once and in order.
pub proof fn shown_pages(visible: Seq<bool>, upto: int, page: usize)
    requires
        0 <= upto <= visible.len() <= usize::MAX,
    ensures
        shown_before(visible, upto).contains(page) <==> page < upto && visible[page as int],
        forall|i: int, j: int|
            0 <= i < j < shown_before(visible, upto).len() ==> #[trigger] shown_before(
                visible,
                upto,
            )[i] < #[trigger] shown_before(visible, upto)[j],
        forall|i: int|
            0 <= i < shown_before(visible, upto).len() ==> #[trigger] shown_before(
                visible,
                upto,
            )[i] < upto,
    decreases upto,
{
    if upto > 0 {
        shown_pages(visible, upto - 1, page);
        let before = shown_before(visible, upto - 1);
        let all = shown_before(visible, upto);
        if visible[upto - 1] {
            assert(all[before.len() as int] == upto - 1);
            if before.contains(page) {
                let i = choose|i: int| 0 <= i < before.len() && before[i] == page;
                assert(all[i] == page);
            }
        }
    }
}

/// The first page that can be shown is the first of those that can be.
pub proof fn first_of_shown(visible: Seq<bool>, from: int)
    requires
        0 <= from,
        visible.len() <= usize::MAX,
    ensures
        match first_shown(visible, from) {
            Some(page) => from <= page < visible.len() && visible[page as int] && forall|i: int|
                from <= i < page ==> !(#[trigger] visible[i]),
            None => forall|i: int| from <= i < visible.len() ==> !(#[trigger] visible[i]),
        },
    decreases visible.len() - from,
{
    if from < visible.len() && !visible[from] {
        first_of_shown(visible, from + 1);
    }
}

/// What there is to each of `devices`.
pub open spec fn models(devices: Seq<Device>) -> Seq<DeviceModel> {
    devices.map_values(|d: Device| d@)
}

/// The place of the first device from `from` on with this hash.
pub open spec fn place_of(devices: Seq<DeviceModel>, hash: Seq<char>, from: int) -> Option<usize>
    decreases devices.len() - from,
{
    if from < 0 || from >= devices.len() {
        None
    } else if devices[from].hash == hash {
        Some(from as usize)
    } else {
        place_of(devices, hash, from + 1)
    }
}

/// `devices` with `d` in place of the one with its hash, or at the end if there is none.
pub open spec fn with_device(devices: Seq<DeviceModel>, d: DeviceModel) -> Seq<DeviceModel> {
    match place_of(devices, d.hash, 0) {
        Some(i) => devices.update(i as int, d),
        None => devices.push(d),
    }
}

/// `devices` without the one with this hash.
pub open spec fn without_device(devices: Seq<DeviceModel>, hash: Seq<char>) -> Seq<DeviceModel> {
    match place_of(devices, hash, 0) {
        Some(i) => devices.remove(i as int),
        None => devices,
    }
}

/// Whether no two devices have the same hash.
pub open spec fn distinct(devices: Seq<DeviceModel>) -> bool {
    forall|i: int, j: int|
        0 <= i < j < devices.len() ==> (#[trigger] devices[i]).hash != (#[trigger] devices[j]).hash
}

/// The place of the device with this hash.
pub fn find_device(devices: &[Device], hash: &str) -> (r: Option<usize>)
    ensures
        r == place_of(models(devices@), hash@, 0),
        r is Some ==> r->0 < devices@.len(),
{
    let ghost all = models(devices@);
    let mut i: usize = 0;
    while i < devices.len()
        invariant
            i <= devices@.len(),
            all == models(devices@),
            place_of(all, hash@, 0) == place_of(all, hash@, i as int),
        decreases devices@.len() - i,
    {
        assert(all[i as int] == devices@[i as int]@);
        if same_text(devices[i].hash.as_str(), hash) {
            return Some(i);
        }
        i = i + 1;
    }
    None
}

/// The device that is found has the hash, and is the first that has it; where none is found, none
/// has it.
pub proof fn place_is_found(devices: Seq<DeviceModel>, hash: Seq<char>, from: int)
    requires
        0 <= from,
        devices.len() <= usize::MAX,
    ensures
        match place_of(devices, hash, from) {
            Some(i) => from <= i < devices.len() && devices[i as int].hash == hash && forall|j: int|
                from <= j < i ==> (#[trigger] devices[j]).hash != hash,
            None => forall|j: int| from <= j < devices.len() ==> (#[trigger] devices[j]).hash
                != hash,
        },
    decreases devices.len() - from,
{
    if from < devices.len() && devices[from].hash != hash {
        place_is_found(devices, hash, from + 1);
    }
}

/// A device that arrives keeps the hashes distinct. It is there afterwards, and the others are as
/// they were.
pub proof fn devices_arrive(devices: Seq<DeviceModel>, d: DeviceModel)
    requires
        distinct(devices),
        with_device(devices, d).len() <= usize::MAX,
    ensures
        distinct(with_device(devices, d)),
        with_device(devices, d).contains(d),
        place_of(with_device(devices, d), d.hash, 0) == (match place_of(devices, d.hash, 0) {
            Some(i) => Some(i),
            None => Some(devices.len() as usize),
        }),
        forall|e: DeviceModel|
            e.hash != d.hash ==> (#[trigger] with_device(devices, d).contains(e)
                <==> devices.contains(e)),
{
    place_is_found(devices, d.hash, 0);
    let more = with_device(devices, d);
    place_is_found(more, d.hash, 0);
    let at: int = match place_of(devices, d.hash, 0) {
        Some(i) => i as int,
        None => devices.len() as int,
    };
    assert(more[at] == d);
    assert forall|e: DeviceModel| e.hash != d.hash implies (#[trigger] more.contains(e)
        <==> devices.contains(e)) by {
        if more.contains(e) {
            let k = choose|k: int| 0 <= k < more.len() && more[k] == e;
            assert(k != at);
            assert(devices[k] == e);
        }
        if devices.contains(e) {
            let k = choose|k: int| 0 <= k < devices.len() && devices[k] == e;
            assert(more[k] == e);
        }
    }
}

/// A device that leaves keeps the hashes distinct. It is not there afterwards, and the others are
/// as they were.
pub proof fn devices_leave(devices: Seq<DeviceModel>, hash: Seq<char>)
    requires
        distinct(devices),
        devices.len() <= usize::MAX,
    ensures
        distinct(without_device(devices, hash)),
        place_of(without_device(devices, hash), hash, 0) is None,
        forall|e: DeviceModel|
            e.hash != hash ==> (#[trigger] without_device(devices, hash).contains(e)
                <==> devices.contains(e)),
{
    place_is_found(devices, hash, 0);
    let fewer = without_device(devices, hash);
    place_is_found(fewer, hash, 0);
    if let Some(i) = place_of(devices, hash, 0) {
        assert forall|j: int| 0 <= j < fewer.len() implies (#[trigger] fewer[j]).hash != hash by {
            if j < i {
                assert(fewer[j] == devices[j]);
            } else {
                assert(fewer[j] == devices[j + 1]);
            }
        }
        assert forall|e: DeviceModel| e.hash != hash implies (#[trigger] fewer.contains(e)
            <==> devices.contains(e)) by {
            if fewer.contains(e) {
                let k = choose|k: int| 0 <= k < fewer.len() && fewer[k] == e;
                if k < i {
                    assert(devices[k] == e);
                } else {
                    assert(devices[k + 1] == e);
                }
            }
            if devices.contains(e) {
                let k = choose|k: int| 0 <= k < devices.len() && devices[k] == e;
                if k < i {
                    assert(fewer[k] == e);
                } else {
                    assert(fewer[k - 1] == e);
                }
            }
        }
    }
}

} // verus!
