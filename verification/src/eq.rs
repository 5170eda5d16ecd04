//! The bands of the equaliser.

use vstd::prelude::*;

use crate::scalar::Scalar;

verus! {

/// The lowest frequency that a band may have, in Hz.
pub const MIN_FREQUENCY: u32 = 20;

/// The highest frequency that a band may have, in Hz.
pub const MAX_FREQUENCY: u32 = 20000;

/// The bit pattern of -12, the lowest gain of a band in dB.
pub const MIN_GAIN: u32 = 0xC140_0000;

/// The bit pattern of 12, the highest gain of a band in dB.
pub const MAX_GAIN: u32 = 0x4140_0000;

/// The bit pattern of 0.1, the lowest Q of a band.
pub const MIN_Q: u32 = 0x3DCC_CCCD;

/// The bit pattern of 10, the highest Q of a band.
pub const MAX_Q: u32 = 0x4120_0000;

/// The number of bands.
pub const BAND_COUNT: usize = 9;

/// A band of the equaliser.
#[derive(Clone, Copy, Debug, PartialEq, Eq, Structural)]
pub enum EQBand {
    Band1,
    Band2,
    Band3,
    Band4,
    Band5,
    Band6,
    Band7,
    Band8,
    Band9,
}

impl EQBand {
    /// The place of the band among the bands, counted from zero.
    pub open spec fn place(self) -> int {
        match self {
            EQBand::Band1 => 0,
            EQBand::Band2 => 1,
            EQBand::Band3 => 2,
            EQBand::Band4 => 3,
            EQBand::Band5 => 4,
            EQBand::Band6 => 5,
            EQBand::Band7 => 6,
            EQBand::Band8 => 7,
            EQBand::Band9 => 8,
        }
    }

    /// The band at the place `i`.
    pub open spec fn at(i: int) -> EQBand {
        if i == 0 {
            EQBand::Band1
        } else if i == 1 {
            EQBand::Band2
        } else if i == 2 {
            EQBand::Band3
        } else if i == 3 {
            EQBand::Band4
        } else if i == 4 {
            EQBand::Band5
        } else if i == 5 {
            EQBand::Band6
        } else if i == 6 {
            EQBand::Band7
        } else if i == 7 {
            EQBand::Band8
        } else {
            EQBand::Band9
        }
    }

    /// The place of the band among the bands, counted from zero.
    pub fn index(self) -> (r: usize)
        ensures
            r == self.place(),
            r < BAND_COUNT,
    {
        match self {
            EQBand::Band1 => 0,
            EQBand::Band2 => 1,
            EQBand::Band3 => 2,
            EQBand::Band4 => 3,
            EQBand::Band5 => 4,
            EQBand::Band6 => 5,
            EQBand::Band7 => 6,
            EQBand::Band8 => 7,
            EQBand::Band9 => 8,
        }
    }

    /// The band at the place `i`.
    pub fn from_index(i: usize) -> (r: EQBand)
        requires
            i < BAND_COUNT,
        ensures
            r == EQBand::at(i as int),
            r.place() == i,
    {
        if i == 0 {
            EQBand::Band1
        } else if i == 1 {
            EQBand::Band2
        } else if i == 2 {
            EQBand::Band3
        } else if i == 3 {
            EQBand::Band4
        } else if i == 4 {
            EQBand::Band5
        } else if i == 5 {
            EQBand::Band6
        } else if i == 6 {
            EQBand::Band7
        } else if i == 7 {
            EQBand::Band8
        } else {
            EQBand::Band9
        }
    }

    /// The name of the band.
    pub open spec fn label(self) -> Seq<char> {
        match self {
            EQBand::Band1 => "Band1"@,
            EQBand::Band2 => "Band2"@,
            EQBand::Band3 => "Band3"@,
            EQBand::Band4 => "Band4"@,
            EQBand::Band5 => "Band5"@,
            EQBand::Band6 => "Band6"@,
            EQBand::Band7 => "Band7"@,
            EQBand::Band8 => "Band8"@,
            EQBand::Band9 => "Band9"@,
        }
    }

    /// The name of the band.
    pub fn name(self) -> (r: &'static str)
        ensures
            r@ == self.label(),
    {
        match self {
            EQBand::Band1 => "Band1",
            EQBand::Band2 => "Band2",
            EQBand::Band3 => "Band3",
            EQBand::Band4 => "Band4",
            EQBand::Band5 => "Band5",
            EQBand::Band6 => "Band6",
            EQBand::Band7 => "Band7",
            EQBand::Band8 => "Band8",
            EQBand::Band9 => "Band9",
        }
    }
}

/// The places of the bands and the bands themselves stand for each other.
pub proof fn bands_have_places(band: EQBand, i: int)
    ensures
        0 <= band.place() < BAND_COUNT,
        EQBand::at(band.place()) == band,
        0 <= i < BAND_COUNT ==> EQBand::at(i).place() == i,
{
}

/// The shape of a band's filter.
#[derive(Clone, Copy, Debug, PartialEq, Eq, Structural)]
pub enum EQBandType {
    NotSet,
    LowPassFilter,
    HighPassFilter,
    NotchFilter,
    BellBand,
    LowShelf,
    HighShelf,
}

impl EQBandType {
    /// The name of the shape.
    pub open spec fn label(self) -> Seq<char> {
        match self {
            EQBandType::NotSet => "NotSet"@,
            EQBandType::LowPassFilter => "LowPassFilter"@,
            EQBandType::HighPassFilter => "HighPassFilter"@,
            EQBandType::NotchFilter => "NotchFilter"@,
            EQBandType::BellBand => "BellBand"@,
            EQBandType::LowShelf => "LowShelf"@,
            EQBandType::HighShelf => "HighShelf"@,
        }
    }

    /// The name of the shape.
    pub fn name(self) -> (r: &'static str)
        ensures
            r@ == self.label(),
    {
        match self {
            EQBandType::NotSet => "NotSet",
            EQBandType::LowPassFilter => "LowPassFilter",
            EQBandType::HighPassFilter => "HighPassFilter",
            EQBandType::NotchFilter => "NotchFilter",
            EQBandType::BellBand => "BellBand",
            EQBandType::LowShelf => "LowShelf",
            EQBandType::HighShelf => "HighShelf",
        }
    }
}

/// Which of its two sets of bands the equaliser uses.
#[derive(Clone, Copy, Debug, PartialEq, Eq, Structural)]
pub enum EQMode {
    Simple,
    Advanced,
}

/// What a band is set to.
#[derive(Clone, Copy, Debug, PartialEq, Eq, Structural)]
pub struct EqualiserBandConfig {
    pub enabled: bool,
    pub band_type: EQBandType,
    /// In Hz.
    pub frequency: u32,
    /// In dB.
    pub gain: Scalar,
    pub q: Scalar,
}

/// What each band is set to.
#[derive(Clone, Copy, Debug)]
pub struct Bands {
    pub slots: [EqualiserBandConfig; 9],
}

impl View for Bands {
    type V = Seq<EqualiserBandConfig>;

    open spec fn view(&self) -> Seq<EqualiserBandConfig> {
        self.slots@
    }
}

/// A band that has not been set.
pub open spec fn unset_band() -> EqualiserBandConfig {
    EqualiserBandConfig {
        enabled: false,
        band_type: EQBandType::NotSet,
        frequency: 0,
        gain: Scalar { bits: 0 },
        q: Scalar { bits: 0 },
    }
}

impl Bands {
    /// Bands of which none has been set.
    pub open spec fn unset() -> Seq<EqualiserBandConfig> {
        Seq::new(9, |i: int| unset_band())
    }
}

impl Default for Bands {
    fn default() -> (r: Bands)
        ensures
            r@ == Bands::unset(),
    {
        let band = EqualiserBandConfig {
            enabled: false,
            band_type: EQBandType::NotSet,
            frequency: 0,
            gain: Scalar { bits: 0 },
            q: Scalar { bits: 0 },
        };
        let r = Bands { slots: [band; 9] };
        assert(r@ =~= Bands::unset());
        r
    }
}

/// The first band from `from` on that is enabled or not, as `enabled` asks.
pub open spec fn first_band(bands: Seq<EqualiserBandConfig>, enabled: bool, from: int) -> Option<
    EQBand,
>
    decreases BAND_COUNT - from,
{
    if from < 0 || from >= BAND_COUNT {
        None
    } else if bands[from].enabled == enabled {
        Some(EQBand::at(from))
    } else {
        first_band(bands, enabled, from + 1)
    }
}

/// The last band before `before` that is enabled.
pub open spec fn last_enabled(bands: Seq<EqualiserBandConfig>, before: int) -> Option<EQBand>
    decreases before,
{
    if before <= 0 {
        None
    } else if bands[before - 1].enabled {
        Some(EQBand::at(before - 1))
    } else {
        last_enabled(bands, before - 1)
    }
}

impl Bands {
    /// What `band` is set to.
    pub fn get(&self, band: EQBand) -> (r: EqualiserBandConfig)
        ensures
            r == self@[band.place()],
    {
        self.slots[band.index()]
    }

    /// Sets `band` to `config` and leaves the other bands.
    pub fn set(&mut self, band: EQBand, config: EqualiserBandConfig)
        ensures
            final(self)@ == old(self)@.update(band.place(), config),
    {
        let i: usize = band.index();
        self.slots[i] = config;
    }

    /// The first band that is enabled or not, as `enabled` asks.
    pub fn first(&self, enabled: bool) -> (r: Option<EQBand>)
        ensures
            r == first_band(self@, enabled, 0),
    {
        let mut i: usize = 0;
        while i < BAND_COUNT
            invariant
                i <= BAND_COUNT,
                first_band(self@, enabled, 0) == first_band(self@, enabled, i as int),
            decreases BAND_COUNT - i,
        {
            if self.slots[i].enabled == enabled {
                return Some(EQBand::from_index(i));
            }
            i = i + 1;
        }
        None
    }

    /// The last band that is enabled.
    pub fn last(&self) -> (r: Option<EQBand>)
        ensures
            r == last_enabled(self@, BAND_COUNT as int),
    {
        let mut i: usize = BAND_COUNT;
        while i > 0
            invariant
                i <= BAND_COUNT,
                last_enabled(self@, BAND_COUNT as int) == last_enabled(self@, i as int),
            decreases i,
        {
            if self.slots[i - 1].enabled {
                return Some(EQBand::from_index(i - 1));
            }
            i = i - 1;
        }
        None
    }
}

/// The first band that is enabled, or not enabled, is one that is, and no band before it is.
pub proof fn first_band_is_first(bands: Seq<EqualiserBandConfig>, enabled: bool, from: int)
    requires
        0 <= from,
    ensures
        match first_band(bands, enabled, from) {
            Some(band) => {
                &&& from <= band.place()
                &&& bands[band.place()].enabled == enabled
                &&& forall|i: int|
                    from <= i < band.place() ==> (#[trigger] bands[i]).enabled != enabled
            },
            None => forall|i: int|
                from <= i < BAND_COUNT ==> (#[trigger] bands[i]).enabled != enabled,
        },
    decreases BAND_COUNT - from,
{
    if from < BAND_COUNT && bands[from].enabled != enabled {
        first_band_is_first(bands, enabled, from + 1);
    }
}

/// The last band that is enabled is one that is, and no band after it is.
pub proof fn last_enabled_is_last(bands: Seq<EqualiserBandConfig>, before: int)
    requires
        before <= BAND_COUNT,
    ensures
        match last_enabled(bands, before) {
            Some(band) => {
                &&& band.place() < before
                &&& bands[band.place()].enabled
                &&& forall|i: int|
                    band.place() < i < before ==> !(#[trigger] bands[i]).enabled
            },
            None => forall|i: int| 0 <= i < before ==> !(#[trigger] bands[i]).enabled,
        },
    decreases before,
{
    if before > 0 && !bands[before - 1].enabled {
        last_enabled_is_last(bands, before - 1);
    }
}

} // verus!
