//! The profiles that come with the program.

use vstd::prelude::*;

use crate::eq::BAND_COUNT;
use crate::eq::EQBand;
use crate::eq::EQBandType;
use crate::eq::EQMode;
use crate::eq;
use crate::messages::BassEnhancement;
use crate::messages::Compressor;
use crate::messages::CompressorMode;
use crate::messages::DeEsser;
use crate::messages::EQMicrophone;
use crate::messages::Expander;
use crate::messages::ExpanderMode;
use crate::messages::Message;
use crate::messages::Suppressor;
use crate::number::from_hundredths;
use crate::number;
use crate::scalar::Scalar;
use crate::scalar;

verus! {

/// The bit pattern of 10, the most that the bass is raised.
pub const MAX_BASS: u32 = 0x4120_0000;

/// A profile that comes with the program.
#[derive(Clone, Copy, Debug, PartialEq, Eq, Structural)]
pub enum FactoryProfile {
    Broadcast,
    GamingAndDiscord,
    WarmVoiceover,
    HighClarity,
}

/// A band of a factory profile.
#[derive(Clone, Copy, Debug, PartialEq, Eq, Structural)]
pub struct FactoryBand {
    pub band: EQBand,
    pub band_type: EQBandType,
    pub frequency: Scalar,
    pub gain: Scalar,
    pub q: Scalar,
}

/// What a factory profile sets.
#[derive(Clone, Copy, Debug)]
pub struct FactoryDefinition {
    pub bands: [FactoryBand; 4],
    pub compressor_enabled: bool,
    pub compressor_threshold: Scalar,
    pub compressor_ratio: Scalar,
    pub compressor_attack: Scalar,
    pub compressor_release: Scalar,
    pub compressor_makeup: Scalar,
    pub expander_enabled: bool,
    pub expander_threshold: i8,
    pub expander_ratio: Scalar,
    pub expander_attack: Scalar,
    pub expander_release: Scalar,
    pub suppressor_enabled: bool,
    pub suppressor_amount: Scalar,
    pub bass_enabled: bool,
    pub bass_amount: Scalar,
    pub deesser_enabled: bool,
    pub deesser_amount: Scalar,
}

impl FactoryProfile {
    /// The name of the profile.
    pub open spec fn label(self) -> Seq<char> {
        match self {
            FactoryProfile::Broadcast => "Broadcast"@,
            FactoryProfile::GamingAndDiscord => "Gaming & Discord"@,
            FactoryProfile::WarmVoiceover => "Warm Voiceover"@,
            FactoryProfile::HighClarity => "High Clarity"@,
        }
    }

    /// The name of the profile.
    pub fn name(self) -> (r: &'static str)
        ensures
            r@ == self.label(),
    {
        match self {
            FactoryProfile::Broadcast => "Broadcast",
            FactoryProfile::GamingAndDiscord => "Gaming & Discord",
            FactoryProfile::WarmVoiceover => "Warm Voiceover",
            FactoryProfile::HighClarity => "High Clarity",
        }
    }
}

/// A band of a factory profile, its numbers given in hundredths.
pub open spec fn band_entry(
    band: EQBand,
    band_type: EQBandType,
    frequency: int,
    gain: int,
    q: int,
) -> FactoryBand {
    FactoryBand {
        band,
        band_type,
        frequency: number::hundredths(frequency),
        gain: number::hundredths(gain),
        q: number::hundredths(q),
    }
}

fn entry(band: EQBand, band_type: EQBandType, frequency: i32, gain: i32, q: i32) -> (r: FactoryBand)
    ensures
        r == band_entry(band, band_type, frequency as int, gain as int, q as int),
{
    FactoryBand {
        band,
        band_type,
        frequency: from_hundredths(frequency),
        gain: from_hundredths(gain),
        q: from_hundredths(q),
    }
}

impl FactoryProfile {
    /// What the profile sets.
    pub open spec fn sets(self) -> FactoryDefinition {
        match self {
            FactoryProfile::Broadcast => FactoryDefinition {
                bands: [
                    band_entry(EQBand::Band1, EQBandType::HighPassFilter, 8000, 0, 70),
                    band_entry(EQBand::Band2, EQBandType::BellBand, 25000, -250, 120),
                    band_entry(EQBand::Band3, EQBandType::BellBand, 350000, 300, 100),
                    band_entry(EQBand::Band4, EQBandType::HighShelf, 1000000, 200, 70),
                ],
                compressor_enabled: true,
                compressor_threshold: number::hundredths(-2000),
                compressor_ratio: number::hundredths(350),
                compressor_attack: number::hundredths(800),
                compressor_release: number::hundredths(8000),
                compressor_makeup: number::hundredths(250),
                expander_enabled: true,
                expander_threshold: (-38) as i8,
                expander_ratio: number::hundredths(250),
                expander_attack: number::hundredths(800),
                expander_release: number::hundredths(8000),
                suppressor_enabled: true,
                suppressor_amount: number::hundredths(4000),
                bass_enabled: true,
                bass_amount: number::hundredths(400),
                deesser_enabled: true,
                deesser_amount: number::hundredths(3500),
            },
            FactoryProfile::GamingAndDiscord => FactoryDefinition {
                bands: [
                    band_entry(EQBand::Band1, EQBandType::HighPassFilter, 10000, 0, 70),
                    band_entry(EQBand::Band2, EQBandType::BellBand, 30000, -300, 150),
                    band_entry(EQBand::Band3, EQBandType::BellBand, 280000, 400, 120),
                    band_entry(EQBand::Band4, EQBandType::HighShelf, 800000, 150, 70),
                ],
                compressor_enabled: true,
                compressor_threshold: number::hundredths(-2200),
                compressor_ratio: number::hundredths(400),
                compressor_attack: number::hundredths(500),
                compressor_release: number::hundredths(6000),
                compressor_makeup: number::hundredths(300),
                expander_enabled: true,
                expander_threshold: (-34) as i8,
                expander_ratio: number::hundredths(300),
                expander_attack: number::hundredths(500),
                expander_release: number::hundredths(6000),
                suppressor_enabled: true,
                suppressor_amount: number::hundredths(5500),
                bass_enabled: false,
                bass_amount: number::hundredths(0),
                deesser_enabled: true,
                deesser_amount: number::hundredths(4000),
            },
            FactoryProfile::WarmVoiceover => FactoryDefinition {
                bands: [
                    band_entry(EQBand::Band1, EQBandType::HighPassFilter, 7000, 0, 70),
                    band_entry(EQBand::Band2, EQBandType::BellBand, 16000, 200, 100),
                    band_entry(EQBand::Band3, EQBandType::BellBand, 50000, -200, 140),
                    band_entry(EQBand::Band4, EQBandType::BellBand, 450000, 250, 90),
                ],
                compressor_enabled: true,
                compressor_threshold: number::hundredths(-1600),
                compressor_ratio: number::hundredths(220),
                compressor_attack: number::hundredths(1500),
                compressor_release: number::hundredths(12000),
                compressor_makeup: number::hundredths(150),
                expander_enabled: true,
                expander_threshold: (-42) as i8,
                expander_ratio: number::hundredths(200),
                expander_attack: number::hundredths(1000),
                expander_release: number::hundredths(10000),
                suppressor_enabled: true,
                suppressor_amount: number::hundredths(2500),
                bass_enabled: true,
                bass_amount: number::hundredths(300),
                deesser_enabled: true,
                deesser_amount: number::hundredths(3000),
            },
            FactoryProfile::HighClarity => FactoryDefinition {
                bands: [
                    band_entry(EQBand::Band1, EQBandType::HighPassFilter, 8000, 0, 70),
                    band_entry(EQBand::Band2, EQBandType::BellBand, 20000, 100, 100),
                    band_entry(EQBand::Band3, EQBandType::BellBand, 650000, -400, 250),
                    band_entry(EQBand::Band4, EQBandType::HighShelf, 1200000, 100, 70),
                ],
                compressor_enabled: true,
                compressor_threshold: number::hundredths(-1800),
                compressor_ratio: number::hundredths(280),
                compressor_attack: number::hundredths(1000),
                compressor_release: number::hundredths(9000),
                compressor_makeup: number::hundredths(200),
                expander_enabled: true,
                expander_threshold: (-38) as i8,
                expander_ratio: number::hundredths(250),
                expander_attack: number::hundredths(800),
                expander_release: number::hundredths(8000),
                suppressor_enabled: true,
                suppressor_amount: number::hundredths(4000),
                bass_enabled: false,
                bass_amount: number::hundredths(0),
                deesser_enabled: true,
                deesser_amount: number::hundredths(5000),
            },
        }
    }

    /// What the profile sets.
    pub fn definition(self) -> (r: FactoryDefinition)
        ensures
            r == self.sets(),
    {
        match self {
            FactoryProfile::Broadcast => FactoryDefinition {
                bands: [
                    entry(EQBand::Band1, EQBandType::HighPassFilter, 8000, 0, 70),
                    entry(EQBand::Band2, EQBandType::BellBand, 25000, -250, 120),
                    entry(EQBand::Band3, EQBandType::BellBand, 350000, 300, 100),
                    entry(EQBand::Band4, EQBandType::HighShelf, 1000000, 200, 70),
                ],
                compressor_enabled: true,
                compressor_threshold: from_hundredths(-2000),
                compressor_ratio: from_hundredths(350),
                compressor_attack: from_hundredths(800),
                compressor_release: from_hundredths(8000),
                compressor_makeup: from_hundredths(250),
                expander_enabled: true,
                expander_threshold: -38,
                expander_ratio: from_hundredths(250),
                expander_attack: from_hundredths(800),
                expander_release: from_hundredths(8000),
                suppressor_enabled: true,
                suppressor_amount: from_hundredths(4000),
                bass_enabled: true,
                bass_amount: from_hundredths(400),
                deesser_enabled: true,
                deesser_amount: from_hundredths(3500),
            },
            FactoryProfile::GamingAndDiscord => FactoryDefinition {
                bands: [
                    entry(EQBand::Band1, EQBandType::HighPassFilter, 10000, 0, 70),
                    entry(EQBand::Band2, EQBandType::BellBand, 30000, -300, 150),
                    entry(EQBand::Band3, EQBandType::BellBand, 280000, 400, 120),
                    entry(EQBand::Band4, EQBandType::HighShelf, 800000, 150, 70),
                ],
                compressor_enabled: true,
                compressor_threshold: from_hundredths(-2200),
                compressor_ratio: from_hundredths(400),
                compressor_attack: from_hundredths(500),
                compressor_release: from_hundredths(6000),
                compressor_makeup: from_hundredths(300),
                expander_enabled: true,
                expander_threshold: -34,
                expander_ratio: from_hundredths(300),
                expander_attack: from_hundredths(500),
                expander_release: from_hundredths(6000),
                suppressor_enabled: true,
                suppressor_amount: from_hundredths(5500),
                bass_enabled: false,
                bass_amount: from_hundredths(0),
                deesser_enabled: true,
                deesser_amount: from_hundredths(4000),
            },
            FactoryProfile::WarmVoiceover => FactoryDefinition {
                bands: [
                    entry(EQBand::Band1, EQBandType::HighPassFilter, 7000, 0, 70),
                    entry(EQBand::Band2, EQBandType::BellBand, 16000, 200, 100),
                    entry(EQBand::Band3, EQBandType::BellBand, 50000, -200, 140),
                    entry(EQBand::Band4, EQBandType::BellBand, 450000, 250, 90),
                ],
                compressor_enabled: true,
                compressor_threshold: from_hundredths(-1600),
                compressor_ratio: from_hundredths(220),
                compressor_attack: from_hundredths(1500),
                compressor_release: from_hundredths(12000),
                compressor_makeup: from_hundredths(150),
                expander_enabled: true,
                expander_threshold: -42,
                expander_ratio: from_hundredths(200),
                expander_attack: from_hundredths(1000),
                expander_release: from_hundredths(10000),
                suppressor_enabled: true,
                suppressor_amount: from_hundredths(2500),
                bass_enabled: true,
                bass_amount: from_hundredths(300),
                deesser_enabled: true,
                deesser_amount: from_hundredths(3000),
            },
            FactoryProfile::HighClarity => FactoryDefinition {
                bands: [
                    entry(EQBand::Band1, EQBandType::HighPassFilter, 8000, 0, 70),
                    entry(EQBand::Band2, EQBandType::BellBand, 20000, 100, 100),
                    entry(EQBand::Band3, EQBandType::BellBand, 650000, -400, 250),
                    entry(EQBand::Band4, EQBandType::HighShelf, 1200000, 100, 70),
                ],
                compressor_enabled: true,
                compressor_threshold: from_hundredths(-1800),
                compressor_ratio: from_hundredths(280),
                compressor_attack: from_hundredths(1000),
                compressor_release: from_hundredths(9000),
                compressor_makeup: from_hundredths(200),
                expander_enabled: true,
                expander_threshold: -38,
                expander_ratio: from_hundredths(250),
                expander_attack: from_hundredths(800),
                expander_release: from_hundredths(8000),
                suppressor_enabled: true,
                suppressor_amount: from_hundredths(4000),
                bass_enabled: false,
                bass_amount: from_hundredths(0),
                deesser_enabled: true,
                deesser_amount: from_hundredths(5000),
            },
        }
    }
}

/// What sets a band of the equaliser and switches it on.
pub open spec fn band_settings(b: FactoryBand) -> Seq<Message> {
    seq![
        Message::EQMicrophone(EQMicrophone::Type(EQMode::Advanced, b.band, b.band_type)),
        Message::EQMicrophone(EQMicrophone::Frequency(EQMode::Advanced, b.band, b.frequency)),
        Message::EQMicrophone(EQMicrophone::Gain(EQMode::Advanced, b.band, b.gain)),
        Message::EQMicrophone(EQMicrophone::Q(EQMode::Advanced, b.band, b.q)),
        Message::EQMicrophone(EQMicrophone::Enabled(EQMode::Advanced, b.band, true)),
    ]
}

/// What sets each of `bands` and switches it on, in order.
pub open spec fn bands_settings(bands: Seq<FactoryBand>) -> Seq<Message>
    decreases bands.len(),
{
    if bands.len() == 0 {
        seq![]
    } else {
        bands_settings(bands.drop_last()) + band_settings(bands.last())
    }
}

/// Whether one of `bands` is `band`.
pub open spec fn lists_band(bands: Seq<FactoryBand>, band: EQBand) -> bool {
    exists|i: int| 0 <= i < bands.len() && (#[trigger] bands[i]).band == band
}

/// What switches off the bands of the equaliser before the place `upto` that `bands` does not
/// list, in order.
pub open spec fn disabled_settings(bands: Seq<FactoryBand>, upto: int) -> Seq<Message>
    decreases upto,
{
    if upto <= 0 {
        seq![]
    } else {
        let before = disabled_settings(bands, upto - 1);
        let band = EQBand::at(upto - 1);
        if lists_band(bands, band) {
            before
        } else {
            before.push(
                Message::EQMicrophone(EQMicrophone::Enabled(EQMode::Advanced, band, false)),
            )
        }
    }
}

/// What sets the compressor.
pub open spec fn compressor_settings(d: FactoryDefinition) -> Seq<Message> {
    let mode = CompressorMode::Advanced;
    seq![
        Message::Compressor(Compressor::Mode(mode)),
        Message::Compressor(Compressor::Enabled(mode, d.compressor_enabled)),
        Message::Compressor(Compressor::Threshold(mode, d.compressor_threshold)),
        Message::Compressor(Compressor::Ratio(mode, d.compressor_ratio)),
        Message::Compressor(Compressor::Attack(mode, d.compressor_attack)),
        Message::Compressor(Compressor::Release(mode, d.compressor_release)),
        Message::Compressor(Compressor::MakeupGain(mode, d.compressor_makeup)),
    ]
}

/// What sets the expander.
pub open spec fn expander_settings(d: FactoryDefinition) -> Seq<Message> {
    let mode = ExpanderMode::Advanced;
    seq![
        Message::Expander(Expander::Mode(mode)),
        Message::Expander(Expander::Enabled(mode, d.expander_enabled)),
        Message::Expander(Expander::Threshold(mode, d.expander_threshold)),
        Message::Expander(Expander::Ratio(mode, d.expander_ratio)),
        Message::Expander(Expander::Attack(mode, d.expander_attack)),
        Message::Expander(Expander::Release(mode, d.expander_release)),
    ]
}

/// What sets the suppressor, the bass enhancement and the de-esser. The bass stays between
/// nothing and ten.
pub open spec fn effect_settings(d: FactoryDefinition) -> Seq<Message> {
    seq![
        Message::Suppressor(Suppressor::Enabled(d.suppressor_enabled)),
        Message::Suppressor(Suppressor::Amount(d.suppressor_amount)),
        Message::BassEnhancement(BassEnhancement::Enabled(d.bass_enabled)),
        Message::BassEnhancement(
            BassEnhancement::Amount(
                d.bass_amount.clamped(Scalar { bits: 0 }, Scalar { bits: MAX_BASS }),
            ),
        ),
        Message::DeEsser(DeEsser::Enabled(d.deesser_enabled)),
        Message::DeEsser(DeEsser::Amount(d.deesser_amount)),
    ]
}

/// What a factory profile sends to a device, in order.
pub open spec fn factory_settings(d: FactoryDefinition) -> Seq<Message> {
    seq![Message::EQMicrophone(EQMicrophone::Mode(EQMode::Advanced))] + bands_settings(d.bands@)
        + disabled_settings(d.bands@, BAND_COUNT as int) + compressor_settings(d)
        + expander_settings(d) + effect_settings(d)
}

fn push_bands(out: &mut Vec<Message>, bands: &[FactoryBand])
    ensures
        final(out)@ == old(out)@ + bands_settings(bands@),
{
    let ghost start = out@;
    let mut i: usize = 0;
    assert(start + bands_settings(bands@.take(0)) =~= start);
    while i < bands.len()
        invariant
            i <= bands@.len(),
            out@ == start + bands_settings(bands@.take(i as int)),
        decreases bands@.len() - i,
    {
        let ghost before = out@;
        let b = bands[i];
        out.push(
            Message::EQMicrophone(EQMicrophone::Type(EQMode::Advanced, b.band, b.band_type)),
        );
        out.push(
            Message::EQMicrophone(EQMicrophone::Frequency(EQMode::Advanced, b.band, b.frequency)),
        );
        out.push(Message::EQMicrophone(EQMicrophone::Gain(EQMode::Advanced, b.band, b.gain)));
        out.push(Message::EQMicrophone(EQMicrophone::Q(EQMode::Advanced, b.band, b.q)));
        out.push(Message::EQMicrophone(EQMicrophone::Enabled(EQMode::Advanced, b.band, true)));
        proof {
            assert(out@ =~= before + band_settings(b));
            assert(bands@.take(i + 1).drop_last() =~= bands@.take(i as int));
            assert(out@ =~= start + bands_settings(bands@.take(i + 1)));
        }
        i = i + 1;
    }
    assert(bands@.take(i as int) =~= bands@);
}

fn is_listed(bands: &[FactoryBand], band: EQBand) -> (r: bool)
    ensures
        r == lists_band(bands@, band),
{
    let mut i: usize = 0;
    while i < bands.len()
        invariant
            i <= bands@.len(),
            forall|j: int| 0 <= j < i ==> (#[trigger] bands@[j]).band != band,
        decreases bands@.len() - i,
    {
        if bands[i].band == band {
            return true;
        }
        i = i + 1;
    }
    false
}

fn push_disabled(out: &mut Vec<Message>, bands: &[FactoryBand])
    ensures
        final(out)@ == old(out)@ + disabled_settings(bands@, BAND_COUNT as int),
{
    let ghost start = out@;
    let mut i: usize = 0;
    assert(start + disabled_settings(bands@, 0) =~= start);
    while i < BAND_COUNT
        invariant
            i <= BAND_COUNT,
            out@ == start + disabled_settings(bands@, i as int),
        decreases BAND_COUNT - i,
    {
        let band = EQBand::from_index(i);
        if !is_listed(bands, band) {
            let ghost before = out@;
            out.push(
                Message::EQMicrophone(EQMicrophone::Enabled(EQMode::Advanced, band, false)),
            );
            assert(out@ =~= start + disabled_settings(bands@, i + 1));
        }
        i = i + 1;
    }
}

fn push_compressor(out: &mut Vec<Message>, d: &FactoryDefinition)
    ensures
        final(out)@ == old(out)@ + compressor_settings(*d),
{
    let mode = CompressorMode::Advanced;
    out.push(Message::Compressor(Compressor::Mode(mode)));
    out.push(Message::Compressor(Compressor::Enabled(mode, d.compressor_enabled)));
    out.push(Message::Compressor(Compressor::Threshold(mode, d.compressor_threshold)));
    out.push(Message::Compressor(Compressor::Ratio(mode, d.compressor_ratio)));
    out.push(Message::Compressor(Compressor::Attack(mode, d.compressor_attack)));
    out.push(Message::Compressor(Compressor::Release(mode, d.compressor_release)));
    out.push(Message::Compressor(Compressor::MakeupGain(mode, d.compressor_makeup)));
    assert(out@ =~= old(out)@ + compressor_settings(*d));
}

fn push_expander(out: &mut Vec<Message>, d: &FactoryDefinition)
    ensures
        final(out)@ == old(out)@ + expander_settings(*d),
{
    let mode = ExpanderMode::Advanced;
    out.push(Message::Expander(Expander::Mode(mode)));
    out.push(Message::Expander(Expander::Enabled(mode, d.expander_enabled)));
    out.push(Message::Expander(Expander::Threshold(mode, d.expander_threshold)));
    out.push(Message::Expander(Expander::Ratio(mode, d.expander_ratio)));
    out.push(Message::Expander(Expander::Attack(mode, d.expander_attack)));
    out.push(Message::Expander(Expander::Release(mode, d.expander_release)));
    assert(out@ =~= old(out)@ + expander_settings(*d));
}

fn push_effects(out: &mut Vec<Message>, d: &FactoryDefinition)
    ensures
        final(out)@ == old(out)@ + effect_settings(*d),
{
    proof {
        scalar::positive_patterns_in_order(Scalar { bits: 0 }, Scalar { bits: MAX_BASS });
    }
    let bass = d.bass_amount.clamp(Scalar { bits: 0 }, Scalar { bits: MAX_BASS });
    out.push(Message::Suppressor(Suppressor::Enabled(d.suppressor_enabled)));
    out.push(Message::Suppressor(Suppressor::Amount(d.suppressor_amount)));
    out.push(Message::BassEnhancement(BassEnhancement::Enabled(d.bass_enabled)));
    out.push(Message::BassEnhancement(BassEnhancement::Amount(bass)));
    out.push(Message::DeEsser(DeEsser::Enabled(d.deesser_enabled)));
    out.push(Message::DeEsser(DeEsser::Amount(d.deesser_amount)));
    assert(out@ =~= old(out)@ + effect_settings(*d));
}

impl FactoryDefinition {
    /// What the profile sends to a device, in order.
    pub fn settings(&self) -> (r: Vec<Message>)
        ensures
            r@ == factory_settings(*self),
    {
        let mut out: Vec<Message> = Vec::new();
        out.push(Message::EQMicrophone(EQMicrophone::Mode(EQMode::Advanced)));
        assert(out@ =~= seq![Message::EQMicrophone(EQMicrophone::Mode(EQMode::Advanced))]);
        push_bands(&mut out, self.bands.as_slice());
        push_disabled(&mut out, self.bands.as_slice());
        push_compressor(&mut out, self);
        push_expander(&mut out, self);
        push_effects(&mut out, self);
        out
    }
}

/// What switches a band of the equaliser on or off.
pub open spec fn switch(band: EQBand, on: bool) -> Message {
    Message::EQMicrophone(EQMicrophone::Enabled(EQMode::Advanced, band, on))
}

proof fn contains_either(a: Seq<Message>, b: Seq<Message>, m: Message)
    ensures
        (a + b).contains(m) <==> a.contains(m) || b.contains(m),
{
    if a.contains(m) {
        let i = choose|i: int| 0 <= i < a.len() && a[i] == m;
        assert((a + b)[i] == m);
    }
    if b.contains(m) {
        let i = choose|i: int| 0 <= i < b.len() && b[i] == m;
        assert((a + b)[a.len() + i] == m);
    }
}

proof fn listed_bands_are_switched_on(bands: Seq<FactoryBand>, band: EQBand, on: bool)
    ensures
        bands_settings(bands).contains(switch(band, on)) <==> on && lists_band(bands, band),
    decreases bands.len(),
{
    if bands.len() > 0 {
        let init = bands.drop_last();
        let last = bands.last();
        listed_bands_are_switched_on(init, band, on);
        contains_either(bands_settings(init), band_settings(last), switch(band, on));
        assert(band_settings(last)[4] == switch(last.band, true));
        assert(band_settings(last).contains(switch(band, on)) <==> on && last.band == band);
        if lists_band(bands, band) {
            let i = choose|i: int| 0 <= i < bands.len() && (#[trigger] bands[i]).band == band;
            if i < init.len() {
                assert(init[i].band == band);
            }
        }
        if lists_band(init, band) {
            let i = choose|i: int| 0 <= i < init.len() && (#[trigger] init[i]).band == band;
            assert(bands[i].band == band);
        }
        if last.band == band {
            assert(bands[bands.len() - 1].band == band);
        }
    }
}

proof fn other_bands_are_switched_off(
    bands: Seq<FactoryBand>,
    upto: int,
    band: EQBand,
    on: bool,
)
    requires
        upto <= BAND_COUNT,
    ensures
        disabled_settings(bands, upto).contains(switch(band, on)) <==> !on && band.place() < upto
            && !lists_band(bands, band),
    decreases upto,
{
    if upto > 0 {
        other_bands_are_switched_off(bands, upto - 1, band, on);
        eq::bands_have_places(band, upto - 1);
        let before = disabled_settings(bands, upto - 1);
        let this = switch(EQBand::at(upto - 1), false);
        if !lists_band(bands, EQBand::at(upto - 1)) {
            assert(before.push(this) =~= before + seq![this]);
            contains_either(before, seq![this], switch(band, on));
            assert(seq![this][0] == this);
        }
    }
}

/// A factory profile switches every band of the equaliser: on the bands that it lists, off the
/// others.
pub proof fn every_band_is_switched(d: FactoryDefinition, band: EQBand, on: bool)
    ensures
        factory_settings(d).contains(switch(band, on)) <==> on == lists_band(d.bands@, band),
{
    let m = switch(band, on);
    let mode = seq![Message::EQMicrophone(EQMicrophone::Mode(EQMode::Advanced))];
    let listed = bands_settings(d.bands@);
    let others = disabled_settings(d.bands@, BAND_COUNT as int);
    contains_either(mode, listed, m);
    contains_either(mode + listed, others, m);
    contains_either(mode + listed + others, compressor_settings(d), m);
    contains_either(mode + listed + others + compressor_settings(d), expander_settings(d), m);
    contains_either(
        mode + listed + others + compressor_settings(d) + expander_settings(d),
        effect_settings(d),
        m,
    );
    listed_bands_are_switched_on(d.bands@, band, on);
    other_bands_are_switched_off(d.bands@, BAND_COUNT as int, band, on);
}

} // verus!
