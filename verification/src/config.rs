//! The page that configures an audio device.

use vstd::prelude::*;
use vstd::string::StringExecFns;

use crate::eq::EQMode;
use crate::eq_drawer::DrawModel;
use crate::eq_drawer::EqVisualizerMode;
use crate::eq_drawer;
use crate::messages::Headphones;
use crate::messages::Message;
use crate::meter::METER_FLOOR;
use crate::meter::MeterBallistics;
use crate::meter::MicMeter;
use crate::meter;
use crate::mic_equaliser::EqModel;
use crate::mic_equaliser::EqState;
use crate::mic_equaliser::MicEqualiser;
use crate::mic_equaliser;
use crate::ports::FoundPorts;
use crate::scalar::Scalar;
use crate::text::chars_of;
use crate::text::string_of;
use crate::text::trimmed;
use crate::text;

verus! {

/// How many tabs the page has: microphone, suppressor, expander, compressor and headphones.
pub const TAB_COUNT: usize = 5;

/// How many samples a second the spectrum is made of.
pub const SPECTRUM_RATE: u32 = 48000;

/// A place where settings are kept to be heard one after the other.
#[derive(Clone, Copy, Debug, PartialEq, Eq, Structural)]
pub enum SnapshotSlot {
    A,
    B,
}

/// What the recording for the loopback does.
#[derive(Clone, Copy, Debug, PartialEq, Eq, Structural)]
pub enum LoopbackHandlerState {
    Recording,
    Playing,
    Stopped,
}

/// What happens to the page.
#[derive(Debug)]
pub enum ConfigMessage {
    SelectTab(usize),
    OutputGainChanged(Scalar),
    /// A setting for the device, from a tab.
    ChildState(Message),
    /// Something else from a tab.
    Child,
    /// The button for recording was pressed; the recording does this.
    HandleRecording(LoopbackHandlerState),
    /// The button for playback was pressed; the recording does this.
    HandlePlayback(LoopbackHandlerState),
    /// A profile was chosen.
    SelectProfile,
    ToggleNewProfile,
    NewProfileNameChanged(String),
    CreateProfile,
    OpenProfileFolder,
    ReloadApoEq,
    AuditionSnapshot(SnapshotSlot),
    StoreSnapshot(SnapshotSlot),
}

/// What is to be done.
#[derive(Debug)]
pub enum ConfigAction {
    OpenTab(usize),
    CloseTab(usize),
    /// The tab takes what came from it.
    UpdateTab(usize),
    /// The tab takes the levels of the device.
    TabMeters(usize),
    /// The tab moves on.
    TabTick(usize),
    /// The meter takes the level of the microphone. `advance_meter` follows.
    AdvanceMeter,
    /// The device is sent a setting.
    Send(Message),
    /// A recording for the loopback is made ready, from the first port to the second.
    StartLoopback(u32, u32),
    StopLoopback,
    ClearLoopback,
    Record,
    Play,
    /// The spectrum of a port is followed, at this rate.
    StartSpectrum(u32, u32),
    StopSpectrum,
    /// The device takes on the profile that was chosen. `profile_switched` follows.
    SwitchProfile,
    /// The settings of the device are saved under this name. `profile_created` follows.
    SaveProfileAs(String),
    OpenProfileFolder,
    /// The bands are read from their file. `eq_reloaded` follows.
    ReloadApoEq,
    /// The device takes on what the slot keeps. `snapshot_applied` follows.
    ApplySnapshot(SnapshotSlot),
    CaptureSnapshot(SnapshotSlot),
}

/// What an action says.
pub enum ActionModel {
    OpenTab(usize),
    CloseTab(usize),
    UpdateTab(usize),
    TabMeters(usize),
    TabTick(usize),
    AdvanceMeter,
    Send(Message),
    StartLoopback(u32, u32),
    StopLoopback,
    ClearLoopback,
    Record,
    Play,
    StartSpectrum(u32, u32),
    StopSpectrum,
    SwitchProfile,
    SaveProfileAs(Seq<char>),
    OpenProfileFolder,
    ReloadApoEq,
    ApplySnapshot(SnapshotSlot),
    CaptureSnapshot(SnapshotSlot),
}

impl View for ConfigAction {
    type V = ActionModel;

    open spec fn view(&self) -> ActionModel {
        match *self {
            ConfigAction::OpenTab(tab) => ActionModel::OpenTab(tab),
            ConfigAction::CloseTab(tab) => ActionModel::CloseTab(tab),
            ConfigAction::UpdateTab(tab) => ActionModel::UpdateTab(tab),
            ConfigAction::TabMeters(tab) => ActionModel::TabMeters(tab),
            ConfigAction::TabTick(tab) => ActionModel::TabTick(tab),
            ConfigAction::AdvanceMeter => ActionModel::AdvanceMeter,
            ConfigAction::Send(m) => ActionModel::Send(m),
            ConfigAction::StartLoopback(from, to) => ActionModel::StartLoopback(from, to),
            ConfigAction::StopLoopback => ActionModel::StopLoopback,
            ConfigAction::ClearLoopback => ActionModel::ClearLoopback,
            ConfigAction::Record => ActionModel::Record,
            ConfigAction::Play => ActionModel::Play,
            ConfigAction::StartSpectrum(port, rate) => ActionModel::StartSpectrum(port, rate),
            ConfigAction::StopSpectrum => ActionModel::StopSpectrum,
            ConfigAction::SwitchProfile => ActionModel::SwitchProfile,
            ConfigAction::SaveProfileAs(name) => ActionModel::SaveProfileAs(name@),
            ConfigAction::OpenProfileFolder => ActionModel::OpenProfileFolder,
            ConfigAction::ReloadApoEq => ActionModel::ReloadApoEq,
            ConfigAction::ApplySnapshot(slot) => ActionModel::ApplySnapshot(slot),
            ConfigAction::CaptureSnapshot(slot) => ActionModel::CaptureSnapshot(slot),
        }
    }
}

/// What each of `actions` says.
pub open spec fn action_models(actions: Seq<ConfigAction>) -> Seq<ActionModel> {
    actions.map_values(|a: ConfigAction| a@)
}

/// The page that configures an audio device.
#[derive(Debug)]
pub struct Configuration {
    pub equaliser: MicEqualiser,
    /// Whether the spectrum is followed.
    pub spectrum_running: bool,
    /// Whether the spectrum can be read.
    pub spectrum_data: bool,
    /// Whether there is a recording for the loopback.
    pub loopback: bool,
    pub meter_ballistics: MeterBallistics,
    pub selected_tab: usize,
    pub available_profiles: Vec<String>,
    pub show_new_profile_input: bool,
    pub new_profile_name: String,
}

/// What there is to the page.
pub struct ConfigModel {
    pub equaliser: EqModel,
    pub spectrum_running: bool,
    pub spectrum_data: bool,
    pub loopback: bool,
    pub meter_ballistics: MeterBallistics,
    pub selected_tab: usize,
    pub available_profiles: Seq<Seq<char>>,
    pub show_new_profile_input: bool,
    pub new_profile_name: Seq<char>,
}

impl View for Configuration {
    type V = ConfigModel;

    open spec fn view(&self) -> ConfigModel {
        ConfigModel {
            equaliser: self.equaliser@,
            spectrum_running: self.spectrum_running,
            spectrum_data: self.spectrum_data,
            loopback: self.loopback,
            meter_ballistics: self.meter_ballistics,
            selected_tab: self.selected_tab,
            available_profiles: text::views(self.available_profiles@),
            show_new_profile_input: self.show_new_profile_input,
            new_profile_name: self.new_profile_name@,
        }
    }
}

/// The page after it has been opened on a device with its equaliser set to `state` and these
/// ports, and what is to be done. What is running already is not started again.
pub open spec fn opened(s: ConfigModel, state: EqState, ports: FoundPorts) -> (
    ConfigModel,
    Seq<ActionModel>,
) {
    let starts_loopback = ports.dry_mix is Some && ports.loopback is Some && !s.loopback;
    let starts_spectrum = ports.spectrum is Some && !s.spectrum_running;
    let loopback = if starts_loopback {
        seq![ActionModel::StartLoopback(ports.dry_mix->0, ports.loopback->0)]
    } else {
        seq![]
    };
    let spectrum = if starts_spectrum {
        seq![ActionModel::StartSpectrum(ports.spectrum->0, SPECTRUM_RATE)]
    } else {
        seq![]
    };
    (
        ConfigModel {
            equaliser: mic_equaliser::loaded(s.equaliser, state),
            loopback: s.loopback || starts_loopback,
            spectrum_running: s.spectrum_running || starts_spectrum,
            spectrum_data: s.spectrum_data || starts_spectrum,
            ..s
        },
        loopback + spectrum + seq![ActionModel::OpenTab(s.selected_tab)],
    )
}

/// Stops hearing the recording in place of the microphone, or starts it.
pub open spec fn hear_loopback(on: bool) -> ActionModel {
    ActionModel::Send(Message::Headphones(Headphones::MicFromLoopback(on)))
}

/// The equaliser when nothing of it is shown.
pub open spec fn cleared(e: EqModel) -> EqModel {
    EqModel {
        eq_mode: EQMode::Simple,
        view: eq_drawer::without_bands(
            eq_drawer::without_spectrum(DrawModel { grid_drawn: false, ..e.view }),
        ),
        ..e
    }
}

/// The page after it has been closed, and what is to be done. Whatever was started is stopped, and
/// the microphone is heard again.
pub open spec fn closed_page(s: ConfigModel) -> (ConfigModel, Seq<ActionModel>) {
    let spectrum = if s.spectrum_running {
        seq![ActionModel::StopSpectrum]
    } else {
        seq![]
    };
    let loopback = if s.loopback {
        seq![ActionModel::StopLoopback, ActionModel::ClearLoopback, hear_loopback(false)]
    } else {
        seq![]
    };
    (
        ConfigModel {
            equaliser: cleared(s.equaliser),
            spectrum_running: false,
            spectrum_data: false,
            loopback: false,
            ..s
        },
        spectrum + loopback + seq![ActionModel::CloseTab(s.selected_tab)],
    )
}

/// The equaliser with this spectrum.
pub open spec fn with_spectrum(e: EqModel, bins: Seq<Scalar>) -> EqModel {
    EqModel {
        view: DrawModel {
            spectrum_bins: bins,
            spectrum_drawn: false,
            curve_drawn: e.view.curve_drawn && e.view.visualizer_mode == EqVisualizerMode::Static,
            ..e.view
        },
        ..e
    }
}

/// The page after it has moved on. A spectrum that has stopped, or that cannot be read, is taken
/// away; one that is being written just now is left as it was.
pub open spec fn ticked(s: ConfigModel, stopped: bool, bins: Option<Seq<Scalar>>) -> ConfigModel {
    if !s.spectrum_running {
        s
    } else if stopped || !s.spectrum_data {
        ConfigModel {
            spectrum_running: false,
            spectrum_data: false,
            equaliser: EqModel {
                view: eq_drawer::without_spectrum(s.equaliser.view),
                ..s.equaliser
            },
            ..s
        }
    } else {
        match bins {
            Some(b) => ConfigModel { equaliser: with_spectrum(s.equaliser, b), ..s },
            None => s,
        }
    }
}

/// What is to be done when the page moves on. `meters` says whether the device has told its
/// levels.
pub open spec fn tick_actions(s: ConfigModel, meters: bool) -> Seq<ActionModel> {
    (if meters {
        seq![ActionModel::TabMeters(s.selected_tab), ActionModel::AdvanceMeter]
    } else {
        seq![]
    }) + seq![ActionModel::TabTick(s.selected_tab)]
}

/// The page after something has happened to it, and what is to be done.
pub open spec fn config_step(s: ConfigModel, m: ConfigMessage) -> (
    ConfigModel,
    Seq<ActionModel>,
) {
    match m {
        ConfigMessage::SelectTab(tab) => (
            ConfigModel { selected_tab: tab, ..s },
            seq![ActionModel::CloseTab(s.selected_tab), ActionModel::OpenTab(tab)],
        ),
        ConfigMessage::OutputGainChanged(gain) => (
            s,
            seq![ActionModel::Send(Message::Headphones(Headphones::MicOutputGain(gain)))],
        ),
        ConfigMessage::ChildState(message) => (s, seq![ActionModel::Send(message)]),
        ConfigMessage::Child => (s, seq![ActionModel::UpdateTab(s.selected_tab)]),
        ConfigMessage::HandleRecording(state) => (
            s,
            if !s.loopback {
                seq![]
            } else if state != LoopbackHandlerState::Stopped {
                seq![ActionModel::StopLoopback]
            } else {
                seq![ActionModel::Record]
            },
        ),
        ConfigMessage::HandlePlayback(state) => (
            s,
            if !s.loopback {
                seq![]
            } else if state != LoopbackHandlerState::Stopped {
                seq![ActionModel::StopLoopback, hear_loopback(false)]
            } else {
                seq![hear_loopback(true), ActionModel::Play]
            },
        ),
        ConfigMessage::SelectProfile => (s, seq![ActionModel::SwitchProfile]),
        ConfigMessage::ToggleNewProfile => (
            ConfigModel {
                show_new_profile_input: !s.show_new_profile_input,
                new_profile_name: seq![],
                ..s
            },
            seq![],
        ),
        ConfigMessage::NewProfileNameChanged(name) => (
            ConfigModel { new_profile_name: name@, ..s },
            seq![],
        ),
        ConfigMessage::CreateProfile => (
            s,
            if text::trim(s.new_profile_name).len() > 0 {
                seq![ActionModel::SaveProfileAs(text::trim(s.new_profile_name))]
            } else {
                seq![]
            },
        ),
        ConfigMessage::OpenProfileFolder => (s, seq![ActionModel::OpenProfileFolder]),
        ConfigMessage::ReloadApoEq => (s, seq![ActionModel::ReloadApoEq]),
        ConfigMessage::AuditionSnapshot(slot) => (s, seq![ActionModel::ApplySnapshot(slot)]),
        ConfigMessage::StoreSnapshot(slot) => (s, seq![ActionModel::CaptureSnapshot(slot)]),
    }
}

/// The page once the device has its equaliser set to `state`: the picture shows that.
pub open spec fn reloaded(s: ConfigModel, state: EqState) -> ConfigModel {
    ConfigModel { equaliser: mic_equaliser::loaded(s.equaliser, state), ..s }
}

/// The page once the device has taken on another profile, when there are these profiles.
pub open spec fn switched(s: ConfigModel, profiles: Seq<Seq<char>>, state: EqState) -> ConfigModel {
    ConfigModel { available_profiles: profiles, ..reloaded(s, state) }
}

/// The page once the settings have been saved under a new name, when there are these profiles.
pub open spec fn created(s: ConfigModel, profiles: Seq<Seq<char>>) -> ConfigModel {
    ConfigModel {
        available_profiles: profiles,
        show_new_profile_input: false,
        new_profile_name: seq![],
        ..s
    }
}

/// The page once the device has gone away, and what is to be done.
pub open spec fn dropped(s: ConfigModel) -> (ConfigModel, Seq<ActionModel>) {
    (
        ConfigModel { spectrum_running: false, loopback: false, ..s },
        (if s.spectrum_running {
            seq![ActionModel::StopSpectrum]
        } else {
            seq![]
        }) + (if s.loopback {
            seq![ActionModel::StopLoopback]
        } else {
            seq![]
        }),
    )
}

/// The meter beside the equaliser.
pub open spec fn shown_meter(s: ConfigModel) -> MicMeter {
    MicMeter {
        db: s.meter_ballistics.db,
        peak_db: s.meter_ballistics.peak_db,
        min_db: Scalar { bits: METER_FLOOR },
        max_db: Scalar { bits: 0 },
    }
}

fn push(actions: &mut Vec<ConfigAction>, a: ConfigAction)
    ensures
        action_models(final(actions)@) == action_models(old(actions)@).push(a@),
{
    let ghost before = action_models(actions@);
    let ghost model = a@;
    actions.push(a);
    assert(action_models(actions@) =~= before.push(model));
}

impl Configuration {
    /// Whether the tab that is selected is one of the tabs.
    pub open spec fn wf(self) -> bool {
        self.selected_tab < TAB_COUNT
    }

    /// A page that has not been opened, when there are these profiles.
    pub fn new(available_profiles: Vec<String>) -> (r: Configuration)
        ensures
            r.wf(),
            r@ == (ConfigModel {
                equaliser: mic_equaliser::deviceless(),
                spectrum_running: false,
                spectrum_data: false,
                loopback: false,
                meter_ballistics: MeterBallistics {
                    db: Scalar { bits: METER_FLOOR },
                    peak_db: Scalar { bits: METER_FLOOR },
                    peak_hold_timer: Scalar { bits: 0 },
                },
                selected_tab: 0,
                available_profiles: text::views(available_profiles@),
                show_new_profile_input: false,
                new_profile_name: seq![],
            }),
    {
        let r = Configuration {
            equaliser: MicEqualiser::new(),
            spectrum_running: false,
            spectrum_data: false,
            loopback: false,
            meter_ballistics: MeterBallistics::new(Scalar { bits: METER_FLOOR }),
            selected_tab: 0,
            available_profiles,
            show_new_profile_input: false,
            new_profile_name: String::new(),
        };
        assert(r@.new_profile_name =~= seq![]);
        r
    }

    /// The picture on the button for the page.
    pub fn icon(&self) -> (r: &'static str)
        ensures
            r@ == "mic"@,
    {
        "mic"
    }

    /// Opens the page on a device with its equaliser set to `state` and these ports.
    pub fn on_open(&mut self, state: &EqState, ports: FoundPorts) -> (r: Vec<ConfigAction>)
        requires
            old(self).wf(),
        ensures
            final(self).wf(),
            (final(self)@, action_models(r@)) == opened(old(self)@, *state, ports),
    {
        let mut actions: Vec<ConfigAction> = Vec::new();
        assert(action_models(actions@) =~= seq![]);
        self.equaliser.load_device(state);
        if let Some(dry_mix) = ports.dry_mix {
            if let Some(loopback) = ports.loopback {
                if !self.loopback {
                    push(&mut actions, ConfigAction::StartLoopback(dry_mix, loopback));
                    self.loopback = true;
                }
            }
        }
        if let Some(port) = ports.spectrum {
            if !self.spectrum_running {
                push(&mut actions, ConfigAction::StartSpectrum(port, SPECTRUM_RATE));
                self.spectrum_running = true;
                self.spectrum_data = true;
            }
        }
        push(&mut actions, ConfigAction::OpenTab(self.selected_tab));
        assert(action_models(actions@) =~= opened(old(self)@, *state, ports).1);
        actions
    }

    /// Closes the page.
    pub fn on_close(&mut self) -> (r: Vec<ConfigAction>)
        requires
            old(self).wf(),
        ensures
            final(self).wf(),
            (final(self)@, action_models(r@)) == closed_page(old(self)@),
    {
        let mut actions: Vec<ConfigAction> = Vec::new();
        assert(action_models(actions@) =~= seq![]);
        if self.spectrum_running {
            push(&mut actions, ConfigAction::StopSpectrum);
            self.spectrum_running = false;
        }
        self.spectrum_data = false;
        if self.loopback {
            push(&mut actions, ConfigAction::StopLoopback);
            push(&mut actions, ConfigAction::ClearLoopback);
            push(
                &mut actions,
                ConfigAction::Send(Message::Headphones(Headphones::MicFromLoopback(false))),
            );
            self.loopback = false;
        }
        self.equaliser.clear();
        push(&mut actions, ConfigAction::CloseTab(self.selected_tab));
        assert(action_models(actions@) =~= closed_page(old(self)@).1);
        actions
    }

    /// What is to be done first when the page moves on. `meters` says whether the device has told
    /// its levels.
    pub fn tick(&self, meters: bool) -> (r: Vec<ConfigAction>)
        requires
            self.wf(),
        ensures
            action_models(r@) == tick_actions(self@, meters),
    {
        let mut actions: Vec<ConfigAction> = Vec::new();
        assert(action_models(actions@) =~= seq![]);
        if meters {
            push(&mut actions, ConfigAction::TabMeters(self.selected_tab));
            push(&mut actions, ConfigAction::AdvanceMeter);
        }
        push(&mut actions, ConfigAction::TabTick(self.selected_tab));
        assert(action_models(actions@) =~= tick_actions(self@, meters));
        actions
    }

    /// Takes the level of the microphone, which the device tells `elapsed` seconds after it has
    /// last told one. `left` is the part of the way that a rising level does not go in that time.
    pub fn advance_meter(&mut self, level: Scalar, elapsed: Scalar, left: Scalar)
        requires
            old(self).wf(),
        ensures
            final(self).wf(),
            final(self)@ == (ConfigModel {
                meter_ballistics: meter::advanced(
                    old(self)@.meter_ballistics,
                    level,
                    elapsed,
                    left,
                ),
                ..old(self)@
            }),
    {
        self.meter_ballistics.advance(level, elapsed, left);
    }

    /// Moves the page on. `stopped` says whether the spectrum has stopped, and `bins` what it is,
    /// if it is not being written just now.
    pub fn on_tick(&mut self, stopped: bool, bins: Option<Vec<Scalar>>)
        requires
            old(self).wf(),
        ensures
            final(self).wf(),
            final(self)@ == ticked(
                old(self)@,
                stopped,
                match bins {
                    Some(b) => Some(b@),
                    None => None,
                },
            ),
    {
        if !self.spectrum_running {
            return ;
        }
        if stopped || !self.spectrum_data {
            self.spectrum_running = false;
            self.spectrum_data = false;
            self.equaliser.clear_spectrum_data();
            return ;
        }
        if let Some(b) = bins {
            self.equaliser.set_spectrum_data(b);
        }
    }

    /// Takes what happens to the page, and says what is to be done.
    pub fn update(&mut self, message: ConfigMessage) -> (r: Vec<ConfigAction>)
        requires
            old(self).wf(),
            message matches ConfigMessage::SelectTab(tab) ==> tab < TAB_COUNT,
        ensures
            final(self).wf(),
            final(self)@ == config_step(old(self)@, message).0,
            action_models(r@) == config_step(old(self)@, message).1,
    {
        let mut actions: Vec<ConfigAction> = Vec::new();
        assert(action_models(actions@) =~= seq![]);
        let ghost before = self@;
        match message {
            ConfigMessage::SelectTab(tab) => {
                push(&mut actions, ConfigAction::CloseTab(self.selected_tab));
                self.selected_tab = tab;
                push(&mut actions, ConfigAction::OpenTab(tab));
            },
            ConfigMessage::OutputGainChanged(gain) => {
                push(
                    &mut actions,
                    ConfigAction::Send(Message::Headphones(Headphones::MicOutputGain(gain))),
                );
            },
            ConfigMessage::ChildState(m) => {
                push(&mut actions, ConfigAction::Send(m));
            },
            ConfigMessage::Child => {
                push(&mut actions, ConfigAction::UpdateTab(self.selected_tab));
            },
            ConfigMessage::HandleRecording(state) => {
                if self.loopback {
                    if state != LoopbackHandlerState::Stopped {
                        push(&mut actions, ConfigAction::StopLoopback);
                    } else {
                        push(&mut actions, ConfigAction::Record);
                    }
                }
            },
            ConfigMessage::HandlePlayback(state) => {
                if self.loopback {
                    if state != LoopbackHandlerState::Stopped {
                        push(&mut actions, ConfigAction::StopLoopback);
                        push(
                            &mut actions,
                            ConfigAction::Send(
                                Message::Headphones(Headphones::MicFromLoopback(false)),
                            ),
                        );
                    } else {
                        push(
                            &mut actions,
                            ConfigAction::Send(
                                Message::Headphones(Headphones::MicFromLoopback(true)),
                            ),
                        );
                        push(&mut actions, ConfigAction::Play);
                    }
                }
            },
            ConfigMessage::SelectProfile => {
                push(&mut actions, ConfigAction::SwitchProfile);
            },
            ConfigMessage::ToggleNewProfile => {
                self.show_new_profile_input = !self.show_new_profile_input;
                self.new_profile_name = String::new();
            },
            ConfigMessage::NewProfileNameChanged(name) => {
                self.new_profile_name = name;
            },
            ConfigMessage::CreateProfile => {
                let chars = chars_of(self.new_profile_name.as_str());
                let name = trimmed(chars.as_slice());
                if name.len() > 0 {
                    push(&mut actions, ConfigAction::SaveProfileAs(string_of(name)));
                }
            },
            ConfigMessage::OpenProfileFolder => {
                push(&mut actions, ConfigAction::OpenProfileFolder);
            },
            ConfigMessage::ReloadApoEq => {
                push(&mut actions, ConfigAction::ReloadApoEq);
            },
            ConfigMessage::AuditionSnapshot(slot) => {
                push(&mut actions, ConfigAction::ApplySnapshot(slot));
            },
            ConfigMessage::StoreSnapshot(slot) => {
                push(&mut actions, ConfigAction::CaptureSnapshot(slot));
            },
        }
        assert(action_models(actions@) =~= config_step(before, message).1);
        actions
    }

    /// Goes on once the device has taken on the profile that was chosen, when there are these
    /// profiles and its equaliser is set to `state`.
    pub fn profile_switched(&mut self, profiles: Vec<String>, state: &EqState) -> (r: Vec<
        ConfigAction,
    >)
        requires
            old(self).wf(),
        ensures
            final(self).wf(),
            final(self)@ == switched(old(self)@, text::views(profiles@), *state),
            action_models(r@) == seq![ActionModel::OpenTab(old(self)@.selected_tab)],
    {
        let mut actions: Vec<ConfigAction> = Vec::new();
        assert(action_models(actions@) =~= seq![]);
        self.available_profiles = profiles;
        self.equaliser.load_device(state);
        push(&mut actions, ConfigAction::OpenTab(self.selected_tab));
        assert(action_models(actions@) =~= seq![ActionModel::OpenTab(old(self)@.selected_tab)]);
        actions
    }

    /// Goes on once the settings have been saved under a new name, when there are these profiles.
    pub fn profile_created(&mut self, profiles: Vec<String>)
        requires
            old(self).wf(),
        ensures
            final(self).wf(),
            final(self)@ == created(old(self)@, text::views(profiles@)),
    {
        self.available_profiles = profiles;
        self.show_new_profile_input = false;
        self.new_profile_name = String::new();
        assert(self@.new_profile_name =~= seq![]);
    }

    /// Goes on once the bands have been read from their file, when the device has its equaliser
    /// set to `state`.
    pub fn eq_reloaded(&mut self, state: &EqState)
        requires
            old(self).wf(),
        ensures
            final(self).wf(),
            final(self)@ == reloaded(old(self)@, *state),
    {
        self.equaliser.load_device(state);
    }

    /// Goes on once the device has taken on what a slot keeps, when it has its equaliser set to
    /// `state`.
    pub fn snapshot_applied(&mut self, state: &EqState) -> (r: Vec<ConfigAction>)
        requires
            old(self).wf(),
        ensures
            final(self).wf(),
            final(self)@ == reloaded(old(self)@, *state),
            action_models(r@) == seq![ActionModel::OpenTab(old(self)@.selected_tab)],
    {
        let mut actions: Vec<ConfigAction> = Vec::new();
        assert(action_models(actions@) =~= seq![]);
        self.equaliser.load_device(state);
        push(&mut actions, ConfigAction::OpenTab(self.selected_tab));
        assert(action_models(actions@) =~= seq![ActionModel::OpenTab(old(self)@.selected_tab)]);
        actions
    }

    /// What is to be done when the device goes away.
    pub fn drop_handlers(&mut self) -> (r: Vec<ConfigAction>)
        requires
            old(self).wf(),
        ensures
            final(self).wf(),
            (final(self)@, action_models(r@)) == dropped(old(self)@),
    {
        let mut actions: Vec<ConfigAction> = Vec::new();
        assert(action_models(actions@) =~= seq![]);
        if self.spectrum_running {
            push(&mut actions, ConfigAction::StopSpectrum);
            self.spectrum_running = false;
        }
        if self.loopback {
            push(&mut actions, ConfigAction::StopLoopback);
            self.loopback = false;
        }
        assert(action_models(actions@) =~= dropped(old(self)@).1);
        actions
    }
}

/// Whether an icon is bright or dim.
#[derive(Clone, Copy, Debug, PartialEq, Eq, Structural)]
pub enum Tint {
    White,
    Grey,
}

/// The buttons of the recording for the loopback, and what stands beside them.
#[derive(Debug)]
pub struct LoopbackPanel {
    pub output: String,
    pub record_icon: &'static str,
    pub record_colour: Tint,
    pub record_enabled: bool,
    pub play_icon: &'static str,
    pub play_colour: Tint,
    pub play_enabled: bool,
}

/// What the recording for the loopback does, where it is and how long it is, both in seconds.
#[derive(Clone, Copy, Debug, PartialEq, Eq, Structural)]
pub struct Recording {
    pub state: LoopbackHandlerState,
    pub position: Scalar,
    pub length: Scalar,
}

/// How far the recording is, in seconds: of the ten at most while it is made, of its length while
/// it is played, and its length otherwise, if there is one.
pub open spec fn loopback_text(
    state: LoopbackHandlerState,
    position: Scalar,
    length: Scalar,
) -> Seq<char> {
    match state {
        LoopbackHandlerState::Recording => length.fixed(1, false) + " / 10.0"@,
        LoopbackHandlerState::Playing => position.fixed(1, false) + " / "@ + length.fixed(
            1,
            false,
        ),
        LoopbackHandlerState::Stopped => if length.equals(Scalar { bits: 0 }) {
            "-"@
        } else {
            length.fixed(1, false)
        },
    }
}

/// Whether there is something to be played, or it is being played.
pub open spec fn can_play(state: LoopbackHandlerState, length: Scalar) -> bool {
    match state {
        LoopbackHandlerState::Recording => false,
        LoopbackHandlerState::Playing => true,
        LoopbackHandlerState::Stopped => !length.equals(Scalar { bits: 0 }),
    }
}

impl LoopbackPanel {
    /// Whether this is what there is to press and to read for a recording.
    pub open spec fn shows(self, recording: Recording) -> bool {
        let Recording { state, position, length } = recording;
        &&& self.output@ == loopback_text(state, position, length)
        &&& self.record_icon@ == (if state == LoopbackHandlerState::Recording {
            "stop"@
        } else {
            "record"@
        })
        &&& self.record_enabled == (state != LoopbackHandlerState::Playing)
        &&& self.record_colour == (if self.record_enabled {
            Tint::White
        } else {
            Tint::Grey
        })
        &&& self.play_icon@ == (if state == LoopbackHandlerState::Playing {
            "stop"@
        } else {
            "play"@
        })
        &&& self.play_enabled == can_play(state, length)
        &&& self.play_colour == (if self.play_enabled {
            Tint::White
        } else {
            Tint::Grey
        })
    }
}

/// The buttons of a recording, and what stands beside them.
pub fn loopback_panel(recording: Recording) -> (r: LoopbackPanel)
    ensures
        r.shows(recording),
{
    let Recording { state, position, length } = recording;
    let empty = length.is_equal(Scalar { bits: 0 });
    let output = match state {
        LoopbackHandlerState::Recording => {
            let mut t = length.to_fixed(1, false);
            t.append(" / 10.0");
            t
        },
        LoopbackHandlerState::Playing => {
            let mut t = position.to_fixed(1, false);
            t.append(" / ");
            t.append(length.to_fixed(1, false).as_str());
            t
        },
        LoopbackHandlerState::Stopped => {
            if empty {
                "-".to_owned()
            } else {
                length.to_fixed(1, false)
            }
        },
    };
    match state {
        LoopbackHandlerState::Recording => LoopbackPanel {
            output,
            record_icon: "stop",
            record_colour: Tint::White,
            record_enabled: true,
            play_icon: "play",
            play_colour: Tint::Grey,
            play_enabled: false,
        },
        LoopbackHandlerState::Playing => LoopbackPanel {
            output,
            record_icon: "record",
            record_colour: Tint::Grey,
            record_enabled: false,
            play_icon: "stop",
            play_colour: Tint::White,
            play_enabled: true,
        },
        LoopbackHandlerState::Stopped => LoopbackPanel {
            output,
            record_icon: "record",
            record_colour: Tint::White,
            record_enabled: true,
            play_icon: "play",
            play_colour: if empty {
                Tint::Grey
            } else {
                Tint::White
            },
            play_enabled: !empty,
        },
    }
}

/// The levels that the meter marks, in dB.
pub fn meter_marks() -> (r: [i32; 9])
    ensures
        r@.len() == 9,
        r@[0] == 0,
        r@[1] == -5,
        forall|i: int| 2 <= i < 9 ==> #[trigger] r@[i] == -10 * (i - 1),
{
    [0, -5, -10, -20, -30, -40, -50, -60, -70]
}

/// What stands beside the equaliser.
#[derive(Debug)]
pub struct GainView {
    pub meter: MicMeter,
    /// The output gain of the microphone, in dB.
    pub output_gain: Scalar,
    /// The buttons of the recording for the loopback, if there is one.
    pub panel: Option<LoopbackPanel>,
}

/// The button of a slot.
#[derive(Clone, Copy, Debug)]
pub struct SnapshotButton {
    pub label: &'static str,
    /// Whether the slot keeps something that can be heard.
    pub enabled: bool,
}

/// What stands above the equaliser.
#[derive(Debug)]
pub struct ProfileToolbar {
    /// The profiles that can be chosen.
    pub profiles: Vec<String>,
    /// The profile in use.
    pub active_profile: String,
    /// What has been typed of the name of a new profile, if one is asked for.
    pub input: Option<String>,
    pub slot_a: SnapshotButton,
    pub slot_b: SnapshotButton,
}

/// The text on the button of a slot: in brackets while it is the one that is heard.
pub open spec fn slot_label(slot: SnapshotSlot, active: Option<SnapshotSlot>) -> Seq<char> {
    match slot {
        SnapshotSlot::A => if active == Some(slot) {
            "[ A ]"@
        } else {
            "A"@
        },
        SnapshotSlot::B => if active == Some(slot) {
            "[ B ]"@
        } else {
            "B"@
        },
    }
}

fn slot_button(slot: SnapshotSlot, active: Option<SnapshotSlot>, kept: bool) -> (r: SnapshotButton)
    ensures
        r.label@ == slot_label(slot, active),
        r.enabled == kept,
{
    let is_active = match active {
        Some(s) => s == slot,
        None => false,
    };
    let label = match slot {
        SnapshotSlot::A => if is_active {
            "[ A ]"
        } else {
            "A"
        },
        SnapshotSlot::B => if is_active {
            "[ B ]"
        } else {
            "B"
        },
    };
    SnapshotButton { label, enabled: kept }
}

fn copies_of(texts: &[String]) -> (r: Vec<String>)
    ensures
        text::views(r@) == text::views(texts@),
{
    let ghost all = text::views(texts@);
    let mut r: Vec<String> = Vec::new();
    let mut i: usize = 0;
    assert(text::views(r@) =~= all.take(0));
    while i < texts.len()
        invariant
            i <= texts@.len(),
            all == text::views(texts@),
            text::views(r@) == all.take(i as int),
        decreases texts@.len() - i,
    {
        let ghost before = text::views(r@);
        let copy = texts[i].clone();
        let ghost this = copy@;
        r.push(copy);
        assert(text::views(r@) =~= before.push(this));
        assert(text::views(r@) =~= all.take(i + 1));
        i = i + 1;
    }
    assert(all.take(i as int) =~= all);
    r
}

/// A tab of the page. It can be selected if it is not the one that is.
#[derive(Clone, Copy, Debug, PartialEq, Eq, Structural)]
pub struct Tab {
    pub index: usize,
    pub active: bool,
}

impl Configuration {
    /// What stands above the equaliser, by the profile in use, the slot that is heard, and which
    /// slots keep something.
    pub fn profile_toolbar(
        &self,
        active_profile: &str,
        active: Option<SnapshotSlot>,
        keeps_a: bool,
        keeps_b: bool,
    ) -> (r: ProfileToolbar)
        ensures
            text::views(r.profiles@) == self@.available_profiles,
            r.active_profile@ == active_profile@,
            match r.input {
                Some(name) => self@.show_new_profile_input && name@ == self@.new_profile_name,
                None => !self@.show_new_profile_input,
            },
            r.slot_a.label@ == slot_label(SnapshotSlot::A, active),
            r.slot_a.enabled == keeps_a,
            r.slot_b.label@ == slot_label(SnapshotSlot::B, active),
            r.slot_b.enabled == keeps_b,
    {
        let input = if self.show_new_profile_input {
            Some(self.new_profile_name.clone())
        } else {
            None
        };
        ProfileToolbar {
            profiles: copies_of(self.available_profiles.as_slice()),
            active_profile: active_profile.to_owned(),
            input,
            slot_a: slot_button(SnapshotSlot::A, active, keeps_a),
            slot_b: slot_button(SnapshotSlot::B, active, keeps_b),
        }
    }

    /// What stands beside the equaliser, when the device has this output gain and the recording for
    /// the loopback is this.
    pub fn gain_view(&self, output_gain: Scalar, recording: Option<Recording>) -> (r: GainView)
        ensures
            r.output_gain == output_gain,
            r.meter == shown_meter(self@),
            match recording {
                Some(recording) => r.panel is Some && r.panel->0.shows(recording),
                None => r.panel is None,
            },
    {
        let meter = MicMeter {
            db: self.meter_ballistics.db,
            peak_db: self.meter_ballistics.peak_db,
            min_db: Scalar { bits: METER_FLOOR },
            max_db: Scalar { bits: 0 },
        };
        let panel = match recording {
            Some(recording) => Some(loopback_panel(recording)),
            None => None,
        };
        GainView { meter, output_gain, panel }
    }

    /// The tabs below the equaliser, in order.
    pub fn bottom_view(&self) -> (r: Vec<Tab>)
        ensures
            r@ == Seq::new(
                TAB_COUNT as nat,
                |i: int| Tab { index: i as usize, active: i == self@.selected_tab },
            ),
    {
        let mut r: Vec<Tab> = Vec::new();
        let mut i: usize = 0;
        while i < TAB_COUNT
            invariant
                i <= TAB_COUNT,
                r@ == Seq::new(
                    i as nat,
                    |i: int| Tab { index: i as usize, active: i == self@.selected_tab },
                ),
            decreases TAB_COUNT - i,
        {
            r.push(Tab { index: i, active: i == self.selected_tab });
            assert(r@ =~= Seq::new(
                i as nat + 1,
                |i: int| Tab { index: i as usize, active: i == self@.selected_tab },
            ));
            i = i + 1;
        }
        r
    }
}

/// Closing the page stops all that opening it has started: nothing runs afterwards, and where
/// there was a recording the microphone is heard again.
pub proof fn closing_stops_everything(s: ConfigModel, state: EqState, ports: FoundPorts)
    ensures
        ({
            let open = opened(s, state, ports).0;
            let (shut, actions) = closed_page(open);
            &&& !shut.spectrum_running && !shut.spectrum_data && !shut.loopback
            &&& open.spectrum_running ==> actions.contains(ActionModel::StopSpectrum)
            &&& open.loopback ==> actions.contains(ActionModel::StopLoopback) && actions.contains(
                hear_loopback(false),
            )
        }),
{
    let open = opened(s, state, ports).0;
    let actions = closed_page(open).1;
    if open.spectrum_running {
        assert(actions[0] == ActionModel::StopSpectrum);
    }
    if open.loopback {
        let at: int = if open.spectrum_running {
            1
        } else {
            0
        };
        assert(actions[at] == ActionModel::StopLoopback);
        assert(actions[at + 2] == hear_loopback(false));
    }
}

/// Opening the page again starts nothing twice.
pub proof fn opening_again_starts_nothing(s: ConfigModel, state: EqState, ports: FoundPorts)
    ensures
        opened(opened(s, state, ports).0, state, ports).1 == seq![
            ActionModel::OpenTab(s.selected_tab),
        ],
{
    let open = opened(s, state, ports).0;
    assert(opened(open, state, ports).1 =~= seq![ActionModel::OpenTab(s.selected_tab)]);
}

/// A recording is played or made by one press of its button and stopped by the next.
pub proof fn buttons_start_and_stop(s: ConfigModel)
    requires
        s.loopback,
    ensures
        config_step(s, ConfigMessage::HandleRecording(LoopbackHandlerState::Stopped)).1 == seq![
            ActionModel::Record,
        ],
        config_step(s, ConfigMessage::HandleRecording(LoopbackHandlerState::Recording)).1 == seq![
            ActionModel::StopLoopback,
        ],
        config_step(s, ConfigMessage::HandlePlayback(LoopbackHandlerState::Stopped)).1.last()
            == ActionModel::Play,
        config_step(s, ConfigMessage::HandlePlayback(LoopbackHandlerState::Playing)).1 == seq![
            ActionModel::StopLoopback,
            hear_loopback(false),
        ],
{
}

/// A profile without a name is not created.
pub proof fn nameless_profiles_are_not_created(s: ConfigModel)
    requires
        text::trim(s.new_profile_name).len() == 0,
    ensures
        config_step(s, ConfigMessage::CreateProfile) == (s, Seq::<ActionModel>::empty()),
{
}

} // verus!
