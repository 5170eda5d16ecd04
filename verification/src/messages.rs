//! What is sent to a device to change its settings.

use vstd::prelude::*;

use crate::eq::EQBand;
use crate::eq::EQBandType;
use crate::eq::EQMode;
use crate::scalar::Scalar;

verus! {

/// A setting of the microphone's equaliser.
#[derive(Clone, Copy, Debug, PartialEq, Eq, Structural)]
pub enum EQMicrophone {
    Mode(EQMode),
    Type(EQMode, EQBand, EQBandType),
    Frequency(EQMode, EQBand, Scalar),
    Gain(EQMode, EQBand, Scalar),
    Q(EQMode, EQBand, Scalar),
    Enabled(EQMode, EQBand, bool),
}

/// How much of the compressor is set by hand.
#[derive(Clone, Copy, Debug, PartialEq, Eq, Structural)]
pub enum CompressorMode {
    Simple,
    Advanced,
}

/// A setting of the compressor.
#[derive(Clone, Copy, Debug, PartialEq, Eq, Structural)]
pub enum Compressor {
    Mode(CompressorMode),
    Enabled(CompressorMode, bool),
    Threshold(CompressorMode, Scalar),
    Ratio(CompressorMode, Scalar),
    Attack(CompressorMode, Scalar),
    Release(CompressorMode, Scalar),
    MakeupGain(CompressorMode, Scalar),
}

/// How much of the expander is set by hand.
#[derive(Clone, Copy, Debug, PartialEq, Eq, Structural)]
pub enum ExpanderMode {
    Simple,
    Advanced,
}

/// A setting of the expander.
#[derive(Clone, Copy, Debug, PartialEq, Eq, Structural)]
pub enum Expander {
    Mode(ExpanderMode),
    Enabled(ExpanderMode, bool),
    Threshold(ExpanderMode, i8),
    Ratio(ExpanderMode, Scalar),
    Attack(ExpanderMode, Scalar),
    Release(ExpanderMode, Scalar),
}

/// A setting of the noise suppressor.
#[derive(Clone, Copy, Debug, PartialEq, Eq, Structural)]
pub enum Suppressor {
    Enabled(bool),
    Amount(Scalar),
}

/// A setting of the bass enhancement.
#[derive(Clone, Copy, Debug, PartialEq, Eq, Structural)]
pub enum BassEnhancement {
    Enabled(bool),
    Amount(Scalar),
}

/// A setting of the de-esser.
#[derive(Clone, Copy, Debug, PartialEq, Eq, Structural)]
pub enum DeEsser {
    Enabled(bool),
    Amount(Scalar),
}

/// A setting of the microphone's input.
#[derive(Clone, Copy, Debug, PartialEq, Eq, Structural)]
pub enum MicSetup {
    MicGain(u32),
    StudioMicGain(u32),
}

/// A setting of the headphones.
#[derive(Clone, Copy, Debug, PartialEq, Eq, Structural)]
pub enum Headphones {
    MicFromLoopback(bool),
    MicOutputGain(Scalar),
}

/// A setting of an audio device.
#[derive(Clone, Copy, Debug, PartialEq, Eq, Structural)]
pub enum Message {
    EQMicrophone(EQMicrophone),
    Compressor(Compressor),
    Expander(Expander),
    Suppressor(Suppressor),
    BassEnhancement(BassEnhancement),
    DeEsser(DeEsser),
    MicSetup(MicSetup),
    Headphones(Headphones),
}

} // verus!
