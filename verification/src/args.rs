//! What the program is asked for on the command line, and by a message.

use vstd::prelude::*;
use vstd::string::StringExecFns;

use crate::eq::EQBand;
use crate::eq::EQBandType;
use crate::scalar::Scalar;
use crate::text::numeral;
use crate::text::same_text;
use crate::text::string_of;
use crate::text;

verus! {

/// How much is logged.
#[derive(Clone, Copy, Debug, PartialEq, Eq, Structural)]
pub enum LevelFilter {
    Off,
    Error,
    Warn,
    Info,
    Debug,
    Trace,
}

/// What was given on the command line.
#[derive(Debug)]
pub struct Args {
    pub log_level: LevelFilter,
    /// Start without opening the window.
    pub background: bool,
    /// Switch to this profile.
    pub profile: Option<String>,
    /// List the profiles and exit.
    pub list_profiles: bool,
    /// Read the profile in use from disk again.
    pub reload: bool,
    /// Set the gain of the microphone, in dB.
    pub set_gain: Option<u8>,
    /// Set a band of the equaliser: band, shape, frequency, gain and Q.
    pub set_eq_band: Option<Vec<String>>,
}

/// What the threads beside the window are told.
#[derive(Clone, Copy, Debug, PartialEq, Eq, Structural)]
pub enum ManagerMessages {
    Quit,
}

/// What the window is told.
#[derive(Debug)]
pub enum WindowMessage {
    OpenWindow,
    Quit,
    SwitchProfile(String),
    ReloadProfile,
    SetGain(u8),
    SetEqBand { band: EQBand, band_type: EQBandType, frequency: Scalar, gain: Scalar, q: Scalar },
}

/// What a message to the window says.
pub enum WindowRequest {
    OpenWindow,
    Quit,
    SwitchProfile(Seq<char>),
    ReloadProfile,
    SetGain(u8),
    SetEqBand { band: EQBand, band_type: EQBandType, frequency: Scalar, gain: Scalar, q: Scalar },
}

impl View for WindowMessage {
    type V = WindowRequest;

    open spec fn view(&self) -> WindowRequest {
        match *self {
            WindowMessage::OpenWindow => WindowRequest::OpenWindow,
            WindowMessage::Quit => WindowRequest::Quit,
            WindowMessage::SwitchProfile(name) => WindowRequest::SwitchProfile(name@),
            WindowMessage::ReloadProfile => WindowRequest::ReloadProfile,
            WindowMessage::SetGain(gain) => WindowRequest::SetGain(gain),
            WindowMessage::SetEqBand { band, band_type, frequency, gain, q } => {
                WindowRequest::SetEqBand { band, band_type, frequency, gain, q }
            },
        }
    }
}

/// The line of a profile in the list that the command line prints.
pub open spec fn listed_line(name: Seq<char>, active: Seq<char>) -> Seq<char> {
    if name == active {
        "  * "@ + name + " [active]"@
    } else {
        "    "@ + name
    }
}

/// The lines of the list that the command line prints.
pub open spec fn listing_lines(names: Seq<Seq<char>>, active: Seq<char>) -> Seq<Seq<char>> {
    seq!["Available Profiles ("@ + text::decimal(names.len()) + "):"@] + names.map_values(
        |name: Seq<char>| listed_line(name, active),
    )
}

/// The lines of the list of profiles that the command line prints.
pub fn listing(names: &[String], active: &str) -> (r: Vec<String>)
    ensures
        text::views(r@) == listing_lines(text::views(names@), active@),
{
    let ghost all = text::views(names@);
    let mut r: Vec<String> = Vec::new();
    let mut first = String::new();
    first.append("Available Profiles (");
    let count = numeral(names.len() as u128);
    first.append(string_of(count.as_slice()).as_str());
    first.append("):");
    let ghost top = "Available Profiles ("@ + text::decimal(all.len()) + "):"@;
    assert(first@ =~= top);
    r.push(first);
    let mut i: usize = 0;
    assert(text::views(r@) =~= seq![top] + all.take(0).map_values(
        |name: Seq<char>| listed_line(name, active@),
    ));
    while i < names.len()
        invariant
            i <= names@.len(),
            all == text::views(names@),
            text::views(r@) == seq![top] + all.take(i as int).map_values(
                |name: Seq<char>| listed_line(name, active@),
            ),
        decreases names@.len() - i,
    {
        let mut line = String::new();
        if same_text(names[i].as_str(), active) {
            line.append("  * ");
            line.append(names[i].as_str());
            line.append(" [active]");
        } else {
            line.append("    ");
            line.append(names[i].as_str());
        }
        let ghost before = text::views(r@);
        let ghost this = listed_line(all[i as int], active@);
        assert(line@ =~= this);
        r.push(line);
        proof {
            assert(text::views(r@) =~= before.push(this));
            assert(text::views(r@) =~= seq![top] + all.take(i + 1).map_values(
                |name: Seq<char>| listed_line(name, active@),
            ));
        }
        i = i + 1;
    }
    assert(all.take(i as int) =~= all);
    r
}

/// What is done when no other instance is running.
#[derive(Debug)]
pub enum Offline {
    /// The profile in use is set to this one, and the program ends.
    SetProfile(String),
    /// There is no instance to tell: the program ends.
    NoInstance,
    /// The program goes on.
    Run,
}

impl Offline {
    /// What the user is told, if anything.
    pub open spec fn text(self) -> Option<Seq<char>> {
        match self {
            Offline::SetProfile(name) => Some(
                "Set active profile to '"@ + name@ + "' (offline mode)"@,
            ),
            Offline::NoInstance => Some(
                "No active beacn-utility instance running to receive command."@,
            ),
            Offline::Run => None,
        }
    }

    /// What the user is told, if anything.
    pub fn message(&self) -> (r: Option<String>)
        ensures
            match r {
                Some(t) => self.text() == Some(t@),
                None => self.text() is None,
            },
    {
        match self {
            Offline::SetProfile(name) => {
                let mut t = String::new();
                t.append("Set active profile to '");
                t.append(name.as_str());
                t.append("' (offline mode)");
                assert(t@ =~= "Set active profile to '"@ + name@ + "' (offline mode)"@);
                Some(t)
            },
            Offline::NoInstance => Some(
                "No active beacn-utility instance running to receive command.".to_owned(),
            ),
            Offline::Run => None,
        }
    }
}

impl Args {
    /// What is done when no other instance is running.
    pub fn offline(&self) -> (r: Offline)
        ensures
            match r {
                Offline::SetProfile(name) => self.profile is Some && name@ == self.profile->0@,
                Offline::NoInstance => self.profile is None && (self.reload
                    || self.set_gain is Some || self.set_eq_band is Some),
                Offline::Run => self.profile is None && !self.reload && self.set_gain is None
                    && self.set_eq_band is None,
            },
    {
        if let Some(name) = &self.profile {
            return Offline::SetProfile(name.clone());
        }
        if self.reload || self.set_gain.is_some() || self.set_eq_band.is_some() {
            return Offline::NoInstance;
        }
        Offline::Run
    }

    /// What the window is told at the start, if anything.
    pub fn first_message(&self) -> (r: Option<WindowMessage>)
        ensures
            r == (if self.background {
                None::<WindowMessage>
            } else {
                Some(WindowMessage::OpenWindow)
            }),
    {
        if self.background {
            None
        } else {
            Some(WindowMessage::OpenWindow)
        }
    }
}

} // verus!
