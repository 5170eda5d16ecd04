//! What holds of the page that configures an audio device, whatever happens to it.

use vstd::arithmetic::power2::lemma2_to64;
use vstd::arithmetic::power2::lemma_pow2_adds;
use vstd::arithmetic::power2::pow2;
use vstd::prelude::*;

use crate::config::ActionModel;
use crate::config::ConfigMessage;
use crate::config::ConfigModel;
use crate::config::LoopbackHandlerState;
use crate::config::SnapshotSlot;
use crate::config;
use crate::eq::EQMode;
use crate::messages::Headphones;
use crate::messages::Message;
use crate::mic_equaliser::EqState;
use crate::page_laws;
use crate::ports::FoundPorts;
use crate::scalar::Scalar;
use crate::text;

verus! {

/// Whether a page is another one but for its equaliser.
pub open spec fn differs_in_equaliser(t: ConfigModel, s: ConfigModel) -> bool {
    &&& t.spectrum_running == s.spectrum_running
    &&& t.spectrum_data == s.spectrum_data
    &&& t.loopback == s.loopback
    &&& t.meter_ballistics == s.meter_ballistics
    &&& t.selected_tab == s.selected_tab
    &&& t.available_profiles == s.available_profiles
    &&& t.show_new_profile_input == s.show_new_profile_input
    &&& t.new_profile_name == s.new_profile_name
}

/// Whether the picture of a page shows the bands that a device is heard with.
pub open spec fn shows_device(t: ConfigModel, state: EqState) -> bool {
    &&& t.equaliser.eq_mode == state.mode
    &&& state.mode == EQMode::Simple ==> page_laws::shows_all(t.equaliser, state.simple.slots@)
    &&& state.mode == EQMode::Advanced ==> page_laws::shows_all(t.equaliser, state.advanced.slots@)
}

/// The picture shows the bands that the device is heard with after the page was opened, another
/// profile was taken on, the bands were read from their file or what a slot keeps was taken on.
pub proof fn picture_follows_the_device(
    s: ConfigModel,
    state: EqState,
    ports: FoundPorts,
    profiles: Seq<Seq<char>>,
)
    ensures
        shows_device(config::opened(s, state, ports).0, state),
        shows_device(config::reloaded(s, state), state),
        shows_device(config::switched(s, profiles, state), state),
        differs_in_equaliser(config::reloaded(s, state), s),
        config::switched(s, profiles, state).available_profiles == profiles,
        differs_in_equaliser(
            ConfigModel {
                available_profiles: s.available_profiles,
                ..config::switched(s, profiles, state)
            },
            s,
        ),
{
    page_laws::heard_bands_are_shown(s.equaliser, state);
}

/// Opening the page starts a recording from the dry mix to the loopback where both ports are there
/// and none is running, and follows the port of the spectrum at 48000 samples a second where it is
/// there and none is followed; then it opens the tab that is selected. Nothing else is done, and
/// what is running goes on.
pub proof fn opening_starts_what_can_run(s: ConfigModel, state: EqState, ports: FoundPorts, k: int)
    ensures
        ({
            let (t, actions) = config::opened(s, state, ports);
            &&& 0 <= k < actions.len() ==> match actions[k] {
                ActionModel::StartLoopback(from, to) => !s.loopback && ports.dry_mix == Some(from)
                    && ports.loopback == Some(to),
                ActionModel::StartSpectrum(port, rate) => !s.spectrum_running && ports.spectrum
                    == Some(port) && rate == 48000,
                ActionModel::OpenTab(tab) => tab == s.selected_tab && k == actions.len() - 1,
                _ => false,
            }
            &&& actions.len() > 0 && actions.last() == ActionModel::OpenTab(s.selected_tab)
            &&& (ports.dry_mix, ports.loopback) matches (Some(from), Some(to)) ==> t.loopback && (
            s.loopback || actions.contains(ActionModel::StartLoopback(from, to)))
            &&& ports.spectrum matches Some(port) ==> t.spectrum_running && (s.spectrum_running
                || t.spectrum_data && actions.contains(ActionModel::StartSpectrum(port, 48000)))
            &&& t.loopback ==> s.loopback || ports.dry_mix is Some && ports.loopback is Some
            &&& t.spectrum_running ==> s.spectrum_running || ports.spectrum is Some
            &&& s.loopback ==> t.loopback
            &&& s.spectrum_running ==> t.spectrum_running && t.spectrum_data == s.spectrum_data
            &&& t.selected_tab == s.selected_tab
            &&& t.available_profiles == s.available_profiles
            &&& t.meter_ballistics == s.meter_ballistics
        }),
{
    let actions = config::opened(s, state, ports).1;
    if actions.len() > 1 {
        assert(actions.contains(actions[0]));
    }
    if actions.len() > 2 {
        assert(actions.contains(actions[1]));
    }
}

/// Closing the page stops what runs, each once and in this order: the spectrum; then the recording,
/// which is also forgotten, and the microphone is heard again; then the tab closes. Nothing is
/// stopped that does not run, and the picture keeps neither spectrum nor grid.
pub proof fn closing_stops_what_runs(s: ConfigModel)
    ensures
        ({
            let (t, actions) = config::closed_page(s);
            let quiet = ActionModel::Send(Message::Headphones(Headphones::MicFromLoopback(false)));
            let at: int = if s.spectrum_running {
                1
            } else {
                0
            };
            &&& s.spectrum_running ==> actions[0] == ActionModel::StopSpectrum
            &&& s.loopback ==> actions[at] == ActionModel::StopLoopback && actions[at + 1]
                == ActionModel::ClearLoopback && actions[at + 2] == quiet && actions.len() == at + 4
            &&& !s.loopback ==> actions.len() == at + 1
            &&& actions.last() == ActionModel::CloseTab(s.selected_tab)
            &&& !t.spectrum_running && !t.spectrum_data && !t.loopback
            &&& t.equaliser.view.spectrum_bins.len() == 0
            &&& !t.equaliser.view.grid_drawn && !t.equaliser.view.spectrum_drawn
                && !t.equaliser.view.curve_drawn
            &&& t.equaliser.eq_mode == EQMode::Simple
            &&& t.equaliser.active_band == s.equaliser.active_band
            &&& t.equaliser.view.bands == s.equaliser.view.bands
            &&& t.selected_tab == s.selected_tab
            &&& t.available_profiles == s.available_profiles
        }),
{
}

/// When the device goes away, what runs is stopped and nothing else is done.
pub proof fn going_away_stops_what_runs(s: ConfigModel)
    ensures
        ({
            let (t, actions) = config::dropped(s);
            &&& !t.spectrum_running && !t.loopback
            &&& s.spectrum_running && s.loopback ==> actions.len() == 2 && actions[0]
                == ActionModel::StopSpectrum && actions[1] == ActionModel::StopLoopback
            &&& s.spectrum_running && !s.loopback ==> actions.len() == 1 && actions[0]
                == ActionModel::StopSpectrum
            &&& !s.spectrum_running && s.loopback ==> actions.len() == 1 && actions[0]
                == ActionModel::StopLoopback
            &&& !s.spectrum_running && !s.loopback ==> actions.len() == 0
            &&& t.equaliser == s.equaliser
            &&& t.selected_tab == s.selected_tab
        }),
{
}

/// The picture shows the spectrum that was last read. One that has stopped, or that cannot be read,
/// is taken away and no longer followed; one that is being written leaves the picture as it was,
/// and so does a page that follows none.
pub proof fn spectrum_is_followed(s: ConfigModel, stopped: bool, bins: Option<Seq<Scalar>>)
    ensures
        ({
            let t = config::ticked(s, stopped, bins);
            let v = t.equaliser.view;
            let w = s.equaliser.view;
            &&& !s.spectrum_running ==> t == s
            &&& s.spectrum_running && (stopped || !s.spectrum_data) ==> !t.spectrum_running
                && !t.spectrum_data && v.spectrum_bins.len() == 0 && !v.spectrum_drawn
                && v.curve_drawn == w.curve_drawn
            &&& s.spectrum_running && !stopped && s.spectrum_data ==> t.spectrum_running
                && t.spectrum_data && match bins {
                Some(b) => v.spectrum_bins == b && !v.spectrum_drawn,
                None => t == s,
            }
            &&& v.bands == w.bands && v.active == w.active && v.grid_drawn == w.grid_drawn
                && v.bands_drawn == w.bands_drawn && v.visualizer_mode == w.visualizer_mode
            &&& t.equaliser.active_band == s.equaliser.active_band
            &&& t.loopback == s.loopback
            &&& t.selected_tab == s.selected_tab
        }),
{
}

/// Selecting a tab closes the one that was selected and opens that one; whatever comes from a tab
/// goes to the one that is selected, and so do the levels of the device when there are any.
pub proof fn tabs_take_turns(s: ConfigModel, tab: usize, meters: bool)
    ensures
        ({
            let (t, actions) = config::config_step(s, ConfigMessage::SelectTab(tab));
            &&& t == (ConfigModel { selected_tab: tab, ..s })
            &&& actions.len() == 2
            &&& actions[0] == ActionModel::CloseTab(s.selected_tab)
            &&& actions[1] == ActionModel::OpenTab(tab)
        }),
        ({
            let (t, actions) = config::config_step(s, ConfigMessage::Child);
            t == s && actions.len() == 1 && actions[0] == ActionModel::UpdateTab(s.selected_tab)
        }),
        ({
            let actions = config::tick_actions(s, meters);
            &&& actions.last() == ActionModel::TabTick(s.selected_tab)
            &&& !meters ==> actions.len() == 1
            &&& meters ==> actions.len() == 3 && actions[0] == ActionModel::TabMeters(
                s.selected_tab,
            ) && actions[1] == ActionModel::AdvanceMeter
        }),
{
}

/// What a tab or the output gain asks for is what the device is sent, and nothing else.
pub proof fn settings_are_passed_on(s: ConfigModel, gain: Scalar, m: Message)
    ensures
        ({
            let (t, actions) = config::config_step(s, ConfigMessage::OutputGainChanged(gain));
            t == s && actions.len() == 1 && actions[0] == ActionModel::Send(
                Message::Headphones(Headphones::MicOutputGain(gain)),
            )
        }),
        ({
            let (t, actions) = config::config_step(s, ConfigMessage::ChildState(m));
            t == s && actions.len() == 1 && actions[0] == ActionModel::Send(m)
        }),
{
}

/// The button for recording starts a recording that is stopped and stops any other. The button for
/// playback plays one that is stopped, after the device was told to hear it in place of the
/// microphone, and stops any other, after which the microphone is heard. Without a recording
/// neither does anything.
pub proof fn recording_is_heard_while_it_plays(s: ConfigModel, state: LoopbackHandlerState)
    ensures
        ({
            let (t, actions) = config::config_step(s, ConfigMessage::HandleRecording(state));
            &&& t == s
            &&& !s.loopback ==> actions.len() == 0
            &&& s.loopback && state == LoopbackHandlerState::Stopped ==> actions.len() == 1
                && actions[0] == ActionModel::Record
            &&& s.loopback && state != LoopbackHandlerState::Stopped ==> actions.len() == 1
                && actions[0] == ActionModel::StopLoopback
        }),
        ({
            let (t, actions) = config::config_step(s, ConfigMessage::HandlePlayback(state));
            let hears = |on: bool|
                ActionModel::Send(Message::Headphones(Headphones::MicFromLoopback(on)));
            &&& t == s
            &&& !s.loopback ==> actions.len() == 0
            &&& s.loopback && state == LoopbackHandlerState::Stopped ==> actions.len() == 2
                && actions[0] == hears(true) && actions[1] == ActionModel::Play
            &&& s.loopback && state != LoopbackHandlerState::Stopped ==> actions.len() == 2
                && actions[0] == ActionModel::StopLoopback && actions[1] == hears(false)
        }),
{
}

/// A new profile is saved under the name that was typed, without white space around it, and only if
/// anything is left of it. The input for the name opens empty and closes again, and is closed and
/// empty once the profile is there.
pub proof fn new_profiles_are_named(
    s: ConfigModel,
    name: String,
    profiles: Seq<Seq<char>>,
)
    ensures
        ({
            let (t, none) = config::config_step(s, ConfigMessage::NewProfileNameChanged(name));
            let (u, actions) = config::config_step(t, ConfigMessage::CreateProfile);
            &&& none.len() == 0
            &&& t == (ConfigModel { new_profile_name: name@, ..s })
            &&& u == t
            &&& text::trim(name@).len() == 0 ==> actions.len() == 0
            &&& text::trim(name@).len() > 0 ==> actions.len() == 1 && actions[0]
                == ActionModel::SaveProfileAs(text::trim(name@))
        }),
        ({
            let (t, none) = config::config_step(s, ConfigMessage::ToggleNewProfile);
            &&& none.len() == 0
            &&& t.show_new_profile_input == !s.show_new_profile_input
            &&& t.new_profile_name.len() == 0
            &&& t == (ConfigModel {
                show_new_profile_input: t.show_new_profile_input,
                new_profile_name: t.new_profile_name,
                ..s
            })
        }),
        ({
            let t = config::created(s, profiles);
            &&& !t.show_new_profile_input
            &&& t.new_profile_name.len() == 0
            &&& t.available_profiles == profiles
            &&& t.equaliser == s.equaliser
            &&& t.selected_tab == s.selected_tab
            &&& t.loopback == s.loopback && t.spectrum_running == s.spectrum_running
        }),
{
}

/// Each button asks for what it is for: the slot that is to be heard is the one that is taken on,
/// and the slot that is to keep something is the one that takes it.
pub proof fn buttons_do_what_they_say(s: ConfigModel, slot: SnapshotSlot)
    ensures
        ({
            let one = |m: ConfigMessage, a: ActionModel|
                config::config_step(s, m).0 == s && config::config_step(s, m).1.len() == 1
                    && config::config_step(s, m).1[0] == a;
            &&& one(ConfigMessage::AuditionSnapshot(slot), ActionModel::ApplySnapshot(slot))
            &&& one(ConfigMessage::StoreSnapshot(slot), ActionModel::CaptureSnapshot(slot))
            &&& one(ConfigMessage::SelectProfile, ActionModel::SwitchProfile)
            &&& one(ConfigMessage::OpenProfileFolder, ActionModel::OpenProfileFolder)
            &&& one(ConfigMessage::ReloadApoEq, ActionModel::ReloadApoEq)
        }),
{
}

/// A recording that is made can be stopped and not played; one that is played can be stopped and
/// not made anew; one that is stopped can be made anew, and played if there is anything in it. How
/// far it is stands beside the buttons: of ten seconds while it is made, of its length while it is
/// played, and its length alone otherwise, or a dash if it has none.
pub proof fn recordings_are_shown(
    panel: config::LoopbackPanel,
    position: Scalar,
    length: Scalar,
    state: LoopbackHandlerState,
)
    requires
        panel.shows(config::Recording { state, position, length }),
    ensures
        panel.record_enabled <==> state != LoopbackHandlerState::Playing,
        panel.play_enabled <==> state == LoopbackHandlerState::Playing || (state
            == LoopbackHandlerState::Stopped && (length.nan() || length.units() != 0)),
        panel.record_icon@ == "stop"@ || panel.record_icon@ == "record"@,
        panel.record_icon@ == "stop"@ <==> state == LoopbackHandlerState::Recording,
        panel.play_icon@ == "stop"@ || panel.play_icon@ == "play"@,
        panel.play_icon@ == "stop"@ <==> state == LoopbackHandlerState::Playing,
        panel.record_colour == config::Tint::White <==> panel.record_enabled,
        panel.play_colour == config::Tint::White <==> panel.play_enabled,
        state == LoopbackHandlerState::Recording ==> panel.output@ == length.fixed(1, false)
            + " / 10.0"@,
        state == LoopbackHandlerState::Playing ==> panel.output@ == position.fixed(1, false)
            + " / "@ + length.fixed(1, false),
        state == LoopbackHandlerState::Stopped && panel.play_enabled ==> panel.output@
            == length.fixed(1, false),
        state == LoopbackHandlerState::Stopped && !panel.play_enabled ==> panel.output@ == "-"@,
{
    reveal_strlit("stop");
    reveal_strlit("record");
    reveal_strlit("play");
    let (a, b, c) = ("stop"@, "record"@, "play"@);
    assert(a.len() == 4 && b.len() == 6 && c.len() == 4);
    assert(a[0] == 's' && c[0] == 'p');
    let zero = Scalar { bits: 0 };
    assert(zero.units() == 0);
}

/// The slot that is heard has its name in brackets, and no other has.
pub proof fn heard_slot_is_marked(slot: SnapshotSlot, active: Option<SnapshotSlot>)
    ensures
        active == Some(slot) <==> config::slot_label(slot, active)[0] == '[',
        slot == SnapshotSlot::A ==> config::slot_label(slot, active).contains('A'),
        slot == SnapshotSlot::B ==> config::slot_label(slot, active).contains('B'),
{
    reveal_strlit("[ A ]");
    reveal_strlit("[ B ]");
    reveal_strlit("A");
    reveal_strlit("B");
    let l = config::slot_label(slot, active);
    assert(l.contains(l[0]));
    if active == Some(slot) {
        assert(l.contains(l[2]));
    }
}

/// The meter shows the level and the peak of the microphone, between -70 and 0 dB.
pub proof fn meter_shows_the_level(s: ConfigModel)
    ensures
        config::shown_meter(s).db == s.meter_ballistics.db,
        config::shown_meter(s).peak_db == s.meter_ballistics.peak_db,
        config::shown_meter(s).min_db.units() == -70 * pow2(149),
        config::shown_meter(s).max_db.units() == 0,
{
    let zero = Scalar { bits: 0 };
    assert(zero.units() == 0);
    let floor = config::shown_meter(s).min_db;
    lemma2_to64();
    lemma_pow2_adds(17, 132);
    assert(floor.exponent() == 133);
    assert(floor.significand() == 0x8C_0000);
    assert(0x8C_0000 * pow2(132) == 70 * (0x2_0000 * pow2(132)));
}

} // verus!
