//! The commands that an instance takes from another one, line by line.

use vstd::prelude::*;
use vstd::string::StringExecFns;

use crate::apo::clamp_gain;
use crate::apo::clamp_q;
use crate::apo;
use crate::args::Args;
use crate::args::WindowMessage;
use crate::args::WindowRequest;
use crate::eq::EQBand;
use crate::eq::EQBandType;
use crate::number::parse_number;
use crate::number;
use crate::scalar::Scalar;
use crate::scalar;
use crate::text::chars_of;
use crate::text::is_word;
use crate::text::lowered;
use crate::text::numeral;
use crate::text::read_small_number;
use crate::text::same_text;
use crate::text::split_fields;
use crate::text::string_of;
use crate::text::strip_head;
use crate::text::trimmed;
use crate::text;

verus! {

/// The bit pattern of 20, the lowest frequency of a band in Hz.
pub const LOWEST_FREQUENCY: u32 = 0x41A0_0000;

/// The bit pattern of 20000, the highest frequency of a band in Hz.
pub const HIGHEST_FREQUENCY: u32 = 0x469C_4000;

/// The band that `clean` names.
pub open spec fn band_named(clean: Seq<char>) -> Option<EQBand> {
    if clean == "1"@ || clean == "band1"@ {
        Some(EQBand::Band1)
    } else if clean == "2"@ || clean == "band2"@ {
        Some(EQBand::Band2)
    } else if clean == "3"@ || clean == "band3"@ {
        Some(EQBand::Band3)
    } else if clean == "4"@ || clean == "band4"@ {
        Some(EQBand::Band4)
    } else if clean == "5"@ || clean == "band5"@ {
        Some(EQBand::Band5)
    } else if clean == "6"@ || clean == "band6"@ {
        Some(EQBand::Band6)
    } else if clean == "7"@ || clean == "band7"@ {
        Some(EQBand::Band7)
    } else if clean == "8"@ || clean == "band8"@ {
        Some(EQBand::Band8)
    } else if clean == "9"@ || clean == "band9"@ {
        Some(EQBand::Band9)
    } else {
        None
    }
}

/// The shape that `clean` names.
pub open spec fn shape_named(clean: Seq<char>) -> Option<EQBandType> {
    if clean == "bell"@ || clean == "pk"@ || clean == "peak"@ || clean == "bellband"@ {
        Some(EQBandType::BellBand)
    } else if clean == "hp"@ || clean == "highpass"@ || clean == "hpf"@ || clean
        == "highpassfilter"@ {
        Some(EQBandType::HighPassFilter)
    } else if clean == "lp"@ || clean == "lowpass"@ || clean == "lpf"@ || clean
        == "lowpassfilter"@ {
        Some(EQBandType::LowPassFilter)
    } else if clean == "ls"@ || clean == "lowshelf"@ || clean == "lsc"@ {
        Some(EQBandType::LowShelf)
    } else if clean == "hs"@ || clean == "highshelf"@ || clean == "hsc"@ {
        Some(EQBandType::HighShelf)
    } else if clean == "notch"@ || clean == "no"@ || clean == "notchfilter"@ {
        Some(EQBandType::NotchFilter)
    } else {
        None
    }
}

/// A word as it is looked up: without white space around it and in small letters.
pub open spec fn clean(s: Seq<char>) -> Seq<char> {
    text::ascii_lowercase(text::trim(s))
}

/// What is said of a band that is none.
pub open spec fn band_error(s: Seq<char>) -> Seq<char> {
    "Invalid EQ band '"@ + s + "'. Expected 1-9 or Band1-Band9"@
}

/// What is said of a shape that is none.
pub open spec fn shape_error(s: Seq<char>) -> Seq<char> {
    "Invalid filter shape '"@ + s + "'. Expected bell, hp, lp, ls, hs, or notch"@
}

/// What `r` holds, with the text of an error.
pub open spec fn outcome<T>(r: Result<T, String>) -> Result<T, Seq<char>> {
    match r {
        Ok(v) => Ok(v),
        Err(e) => Err(e@),
    }
}

/// Three texts put together.
fn joined(a: &str, b: &str, c: &str) -> (r: String)
    ensures
        r@ == a@ + b@ + c@,
{
    let mut r = String::new();
    r.append(a);
    r.append(b);
    r.append(c);
    assert(r@ =~= a@ + b@ + c@);
    r
}

fn cleaned(s: &str) -> (r: Vec<char>)
    ensures
        r@ == clean(s@),
{
    lowered(trimmed(chars_of(s).as_slice()))
}

/// The band that `s` names: its number, or `band` and its number, in letters of either case.
pub fn parse_eq_band(s: &str) -> (r: Result<EQBand, String>)
    ensures
        outcome(r) == (match band_named(clean(s@)) {
            Some(band) => Ok::<EQBand, Seq<char>>(band),
            None => Err(band_error(s@)),
        }),
{
    let word = cleaned(s);
    let w = word.as_slice();
    if is_word(w, "1") || is_word(w, "band1") {
        Ok(EQBand::Band1)
    } else if is_word(w, "2") || is_word(w, "band2") {
        Ok(EQBand::Band2)
    } else if is_word(w, "3") || is_word(w, "band3") {
        Ok(EQBand::Band3)
    } else if is_word(w, "4") || is_word(w, "band4") {
        Ok(EQBand::Band4)
    } else if is_word(w, "5") || is_word(w, "band5") {
        Ok(EQBand::Band5)
    } else if is_word(w, "6") || is_word(w, "band6") {
        Ok(EQBand::Band6)
    } else if is_word(w, "7") || is_word(w, "band7") {
        Ok(EQBand::Band7)
    } else if is_word(w, "8") || is_word(w, "band8") {
        Ok(EQBand::Band8)
    } else if is_word(w, "9") || is_word(w, "band9") {
        Ok(EQBand::Band9)
    } else {
        Err(joined("Invalid EQ band '", s, "'. Expected 1-9 or Band1-Band9"))
    }
}

/// The shape that `s` names, in letters of either case.
pub fn parse_eq_shape(s: &str) -> (r: Result<EQBandType, String>)
    ensures
        outcome(r) == (match shape_named(clean(s@)) {
            Some(shape) => Ok::<EQBandType, Seq<char>>(shape),
            None => Err(shape_error(s@)),
        }),
{
    let word = cleaned(s);
    let w = word.as_slice();
    if is_word(w, "bell") || is_word(w, "pk") || is_word(w, "peak") || is_word(w, "bellband") {
        Ok(EQBandType::BellBand)
    } else if is_word(w, "hp") || is_word(w, "highpass") || is_word(w, "hpf") || is_word(
        w,
        "highpassfilter",
    ) {
        Ok(EQBandType::HighPassFilter)
    } else if is_word(w, "lp") || is_word(w, "lowpass") || is_word(w, "lpf") || is_word(
        w,
        "lowpassfilter",
    ) {
        Ok(EQBandType::LowPassFilter)
    } else if is_word(w, "ls") || is_word(w, "lowshelf") || is_word(w, "lsc") {
        Ok(EQBandType::LowShelf)
    } else if is_word(w, "hs") || is_word(w, "highshelf") || is_word(w, "hsc") {
        Ok(EQBandType::HighShelf)
    } else if is_word(w, "notch") || is_word(w, "no") || is_word(w, "notchfilter") {
        Ok(EQBandType::NotchFilter)
    } else {
        Err(
            joined(
                "Invalid filter shape '",
                s,
                "'. Expected bell, hp, lp, ls, hs, or notch",
            ),
        )
    }
}

/// `f` brought into the range of frequencies.
pub open spec fn frequency_in_range(f: Scalar) -> Scalar {
    f.clamped(Scalar { bits: LOWEST_FREQUENCY }, Scalar { bits: HIGHEST_FREQUENCY })
}

/// The setting of a band that five words ask for, or what is said of the first of them that does
/// not stand for anything.
pub open spec fn band_setting(
    band: Seq<char>,
    shape: Seq<char>,
    frequency: Seq<char>,
    gain: Seq<char>,
    q: Seq<char>,
) -> Result<(EQBand, EQBandType, Scalar, Scalar, Scalar), Seq<char>> {
    match band_named(clean(band)) {
        None => Err(band_error(band)),
        Some(b) => match shape_named(clean(shape)) {
            None => Err(shape_error(shape)),
            Some(t) => match number::number_value(text::trim(frequency)) {
                None => Err("Invalid frequency '"@ + frequency + "'"@),
                Some(f) => match number::number_value(text::trim(gain)) {
                    None => Err("Invalid gain '"@ + gain + "'"@),
                    Some(g) => match number::number_value(text::trim(q)) {
                        None => Err("Invalid Q factor '"@ + q + "'"@),
                        Some(w) => Ok(
                            (
                                b,
                                t,
                                frequency_in_range(f),
                                apo::clamped_gain(g),
                                apo::clamped_q(w),
                            ),
                        ),
                    },
                },
            },
        },
    }
}

fn number_around(s: &str) -> (r: Option<Scalar>)
    ensures
        r == number::number_value(text::trim(s@)),
{
    let chars = chars_of(s);
    let inner = trimmed(chars.as_slice());
    parse_number(string_of(inner).as_str())
}

/// The ends of the range of frequencies are numbers, and in order.
proof fn frequency_bounds()
    ensures
        !(Scalar { bits: LOWEST_FREQUENCY }).nan(),
        !(Scalar { bits: HIGHEST_FREQUENCY }).nan(),
        (Scalar { bits: LOWEST_FREQUENCY }).units() < (Scalar { bits: HIGHEST_FREQUENCY }).units(),
{
    scalar::positive_patterns_in_order(
        Scalar { bits: LOWEST_FREQUENCY },
        Scalar { bits: HIGHEST_FREQUENCY },
    );
}

/// `f` brought into the range of frequencies.
pub fn clamp_frequency(f: Scalar) -> (r: Scalar)
    ensures
        r == frequency_in_range(f),
{
    proof {
        frequency_bounds();
    }
    f.clamp(Scalar { bits: LOWEST_FREQUENCY }, Scalar { bits: HIGHEST_FREQUENCY })
}

/// The setting of a band that five words ask for, each number brought into its range.
pub fn parse_eq_band_args(
    band_str: &str,
    shape_str: &str,
    freq_str: &str,
    gain_str: &str,
    q_str: &str,
) -> (r: Result<(EQBand, EQBandType, Scalar, Scalar, Scalar), String>)
    ensures
        outcome(r) == band_setting(band_str@, shape_str@, freq_str@, gain_str@, q_str@),
{
    let band = match parse_eq_band(band_str) {
        Ok(band) => band,
        Err(e) => return Err(e),
    };
    let band_type = match parse_eq_shape(shape_str) {
        Ok(band_type) => band_type,
        Err(e) => return Err(e),
    };
    let frequency = match number_around(freq_str) {
        Some(f) => clamp_frequency(f),
        None => return Err(joined("Invalid frequency '", freq_str, "'")),
    };
    let gain = match number_around(gain_str) {
        Some(g) => clamp_gain(g),
        None => return Err(joined("Invalid gain '", gain_str, "'")),
    };
    let q = match number_around(q_str) {
        Some(w) => clamp_q(w),
        None => return Err(joined("Invalid Q factor '", q_str, "'")),
    };
    Ok((band, band_type, frequency, gain, q))
}

/// What a line asks of a running instance.
pub enum Request {
    Trigger,
    /// The profile to switch to.
    Profile(Seq<char>),
    Reload,
    /// The gain to set.
    Gain(Seq<char>),
    /// The band to set: band, shape, frequency, gain and Q, with colons between them.
    EqBand(Seq<char>),
    ListProfiles,
    Unknown,
}

/// What a line asks of a running instance. White space around the line does not matter.
pub open spec fn request_of(line: Seq<char>) -> Request {
    let t = text::trim(line);
    if t == "TRIGGER"@ {
        Request::Trigger
    } else if let Some(name) = text::after_prefix(t, "PROFILE:"@) {
        Request::Profile(text::trim(name))
    } else if t == "RELOAD"@ {
        Request::Reload
    } else if let Some(gain) = text::after_prefix(t, "SET_GAIN:"@) {
        Request::Gain(text::trim(gain))
    } else if let Some(words) = text::after_prefix(t, "SET_EQ_BAND:"@) {
        Request::EqBand(words)
    } else if t == "LIST_PROFILES"@ {
        Request::ListProfiles
    } else {
        Request::Unknown
    }
}

/// What a running instance does on a request, seen from outside.
pub enum Answer {
    /// The window is told the first, if it is told anything, and the other instance the second.
    Reply(Option<WindowRequest>, Seq<char>),
    /// The other instance is told the profiles.
    ListProfiles,
}

/// What the other instance is told when a band was set.
pub open spec fn band_reply(
    band: EQBand,
    band_type: EQBandType,
    frequency: Scalar,
    gain: Scalar,
    q: Scalar,
) -> Seq<char> {
    "OK: Set EQ Band "@ + band.label() + " to "@ + band_type.label() + " "@ + frequency.fixed(
        1,
        false,
    ) + "Hz "@ + gain.fixed(1, true) + "dB Q"@ + q.fixed(2, false) + "\n"@
}

/// The answer to a request to set a band.
pub open spec fn band_answer(words: Seq<char>) -> Answer {
    let parts = text::fields(words, ':');
    if parts.len() == 5 {
        match band_setting(parts[0], parts[1], parts[2], parts[3], parts[4]) {
            Ok((band, band_type, frequency, gain, q)) => Answer::Reply(
                Some(WindowRequest::SetEqBand { band, band_type, frequency, gain, q }),
                band_reply(band, band_type, frequency, gain, q),
            ),
            Err(e) => Answer::Reply(None, "ERR: "@ + e + "\n"@),
        }
    } else {
        Answer::Reply(None, "ERR: Expected SET_EQ_BAND:<band>:<shape>:<freq>:<gain>:<q>\n"@)
    }
}

/// The answer to a request.
pub open spec fn answer_to(request: Request) -> Answer {
    match request {
        Request::Trigger => Answer::Reply(
            Some(WindowRequest::OpenWindow),
            "OK: Window opened\n"@,
        ),
        Request::Profile(name) => Answer::Reply(
            Some(WindowRequest::SwitchProfile(name)),
            "OK: Switched profile to '"@ + name + "'\n"@,
        ),
        Request::Reload => Answer::Reply(
            Some(WindowRequest::ReloadProfile),
            "OK: Profile reloaded\n"@,
        ),
        Request::Gain(word) => match text::small_number(word) {
            Some(gain) => Answer::Reply(
                Some(WindowRequest::SetGain(gain)),
                "OK: Set mic gain to "@ + text::decimal(gain as nat) + " dB\n"@,
            ),
            None => Answer::Reply(None, "ERR: Invalid gain value\n"@),
        },
        Request::EqBand(words) => band_answer(words),
        Request::ListProfiles => Answer::ListProfiles,
        Request::Unknown => Answer::Reply(None, "ERR: Unknown command\n"@),
    }
}

/// What a running instance does on a request.
#[derive(Debug)]
pub enum Response {
    /// The window is told `message`, if there is one, and the other instance `reply`.
    Reply { message: Option<WindowMessage>, reply: String },
    /// The other instance is told the profiles.
    ListProfiles,
}

impl View for Response {
    type V = Answer;

    open spec fn view(&self) -> Answer {
        match *self {
            Response::Reply { message, reply } => Answer::Reply(
                match message {
                    Some(m) => Some(m@),
                    None => None,
                },
                reply@,
            ),
            Response::ListProfiles => Answer::ListProfiles,
        }
    }
}

fn plain_reply(message: Option<WindowMessage>, reply: &str) -> (r: Response)
    ensures
        r@ == Answer::Reply(
            match message {
                Some(m) => Some(m@),
                None => None,
            },
            reply@,
        ),
{
    Response::Reply { message, reply: reply.to_owned() }
}

fn set_band(words: &[char]) -> (r: Response)
    ensures
        r@ == band_answer(words@),
{
    let parts = split_fields(words, ':');
    let ghost all = text::fields(words@, ':');
    assert(all.len() == parts@.len());
    if parts.len() != 5 {
        return plain_reply(
            None,
            "ERR: Expected SET_EQ_BAND:<band>:<shape>:<freq>:<gain>:<q>\n",
        );
    }
    assert(all[0] == parts@[0]@ && all[1] == parts@[1]@ && all[2] == parts@[2]@ && all[3]
        == parts@[3]@ && all[4] == parts@[4]@);
    match parse_eq_band_args(
        parts[0].as_str(),
        parts[1].as_str(),
        parts[2].as_str(),
        parts[3].as_str(),
        parts[4].as_str(),
    ) {
        Ok((band, band_type, frequency, gain, q)) => {
            let mut reply = String::new();
            reply.append("OK: Set EQ Band ");
            reply.append(band.name());
            reply.append(" to ");
            reply.append(band_type.name());
            reply.append(" ");
            reply.append(frequency.to_fixed(1, false).as_str());
            reply.append("Hz ");
            reply.append(gain.to_fixed(1, true).as_str());
            reply.append("dB Q");
            reply.append(q.to_fixed(2, false).as_str());
            reply.append("\n");
            assert(reply@ =~= band_reply(band, band_type, frequency, gain, q));
            Response::Reply {
                message: Some(
                    WindowMessage::SetEqBand { band, band_type, frequency, gain, q },
                ),
                reply,
            }
        },
        Err(e) => plain_reply(None, joined("ERR: ", e.as_str(), "\n").as_str()),
    }
}

/// What a running instance does on the line that another one sent.
pub fn handle_ipc(line: &str) -> (r: Response)
    ensures
        r@ == answer_to(request_of(line@)),
{
    let chars = chars_of(line);
    let t = trimmed(chars.as_slice());
    if is_word(t, "TRIGGER") {
        plain_reply(Some(WindowMessage::OpenWindow), "OK: Window opened\n")
    } else if let Some(rest) = strip_head(t, "PROFILE:") {
        let name = string_of(trimmed(rest));
        let reply = joined("OK: Switched profile to '", name.as_str(), "'\n");
        Response::Reply { message: Some(WindowMessage::SwitchProfile(name)), reply }
    } else if is_word(t, "RELOAD") {
        plain_reply(Some(WindowMessage::ReloadProfile), "OK: Profile reloaded\n")
    } else if let Some(rest) = strip_head(t, "SET_GAIN:") {
        match read_small_number(trimmed(rest)) {
            Some(gain) => {
                let digits = numeral(gain as u128);
                let reply = joined(
                    "OK: Set mic gain to ",
                    string_of(digits.as_slice()).as_str(),
                    " dB\n",
                );
                Response::Reply { message: Some(WindowMessage::SetGain(gain)), reply }
            },
            None => plain_reply(None, "ERR: Invalid gain value\n"),
        }
    } else if let Some(rest) = strip_head(t, "SET_EQ_BAND:") {
        set_band(rest)
    } else if is_word(t, "LIST_PROFILES") {
        Response::ListProfiles
    } else {
        plain_reply(None, "ERR: Unknown command\n")
    }
}

/// The line of a profile in the list that another instance is told.
pub open spec fn reply_line(name: Seq<char>, active: Seq<char>) -> Seq<char> {
    if name == active {
        "* "@ + name + " [active]\n"@
    } else {
        "  "@ + name + "\n"@
    }
}

/// The list of profiles that another instance is told.
pub open spec fn reply_lines(names: Seq<Seq<char>>, active: Seq<char>) -> Seq<char>
    decreases names.len(),
{
    if names.len() == 0 {
        seq![]
    } else {
        reply_lines(names.drop_last(), active) + reply_line(names.last(), active)
    }
}

/// The list of profiles that another instance is told.
pub fn list_reply(names: &[String], active: &str) -> (r: String)
    ensures
        r@ == reply_lines(text::views(names@), active@),
{
    let ghost all = text::views(names@);
    let mut r = String::new();
    let mut i: usize = 0;
    assert(r@ =~= reply_lines(all.take(0), active@));
    while i < names.len()
        invariant
            i <= names@.len(),
            all == text::views(names@),
            r@ == reply_lines(all.take(i as int), active@),
        decreases names@.len() - i,
    {
        let ghost before = r@;
        if same_text(names[i].as_str(), active) {
            r.append("* ");
            r.append(names[i].as_str());
            r.append(" [active]\n");
        } else {
            r.append("  ");
            r.append(names[i].as_str());
            r.append("\n");
        }
        proof {
            assert(all[i as int] == names@[i as int]@);
            assert(r@ =~= before + reply_line(all[i as int], active@));
            assert(all.take(i + 1).drop_last() =~= all.take(i as int));
        }
        i = i + 1;
    }
    assert(all.take(i as int) =~= all);
    r
}

/// Five words with colons between them.
pub open spec fn joined_words(words: Seq<Seq<char>>) -> Seq<char> {
    words[0] + seq![':'] + words[1] + seq![':'] + words[2] + seq![':'] + words[3] + seq![':']
        + words[4]
}

/// The command that the command line makes for a running instance.
pub open spec fn command_of(args: Args) -> Seq<char> {
    if let Some(name) = args.profile {
        "PROFILE:"@ + name@
    } else if args.reload {
        "RELOAD"@
    } else if let Some(gain) = args.set_gain {
        "SET_GAIN:"@ + text::decimal(gain as nat)
    } else if let Some(words) = args.set_eq_band {
        if words@.len() == 5 {
            "SET_EQ_BAND:"@ + joined_words(text::views(words@))
        } else {
            "TRIGGER"@
        }
    } else {
        "TRIGGER"@
    }
}

/// The line that the command line sends to a running instance.
pub fn handle_active_instance(args: &Args) -> (r: String)
    ensures
        r@ == command_of(*args).push('\n'),
{
    let mut out = String::new();
    if let Some(name) = &args.profile {
        out.append("PROFILE:");
        out.append(name.as_str());
    } else if args.reload {
        out.append("RELOAD");
    } else if let Some(gain) = args.set_gain {
        out.append("SET_GAIN:");
        let digits = numeral(gain as u128);
        out.append(string_of(digits.as_slice()).as_str());
    } else if let Some(words) = &args.set_eq_band {
        if words.len() == 5 {
            out.append("SET_EQ_BAND:");
            out.append(words[0].as_str());
            out.push(':');
            out.append(words[1].as_str());
            out.push(':');
            out.append(words[2].as_str());
            out.push(':');
            out.append(words[3].as_str());
            out.push(':');
            out.append(words[4].as_str());
            proof {
                let all = text::views(words@);
                assert(all[0] == words@[0]@ && all[1] == words@[1]@ && all[2] == words@[2]@
                    && all[3] == words@[3]@ && all[4] == words@[4]@);
                assert(out@ =~= "SET_EQ_BAND:"@ + joined_words(all));
            }
        } else {
            out.append("TRIGGER");
        }
    } else {
        out.append("TRIGGER");
    }
    assert(out@ =~= command_of(*args));
    out.push('\n');
    out
}

/// What follows on an attempt to listen on the socket.
#[derive(Clone, Copy, Debug, PartialEq, Eq, Structural)]
pub enum BindStep {
    Listen,
    /// The socket was left behind: it is removed, and listening is tried once more.
    RemoveAndRetry,
    Fail,
}

/// What follows on an attempt to listen on the socket. `again` says whether it was the second,
/// `bound` whether it was met with success, and `in_use` whether the socket was taken.
pub open spec fn bind_step(again: bool, bound: bool, in_use: bool) -> BindStep {
    if bound {
        BindStep::Listen
    } else if !again && in_use {
        BindStep::RemoveAndRetry
    } else {
        BindStep::Fail
    }
}

/// What follows on an attempt to listen on the socket. `again` says whether it was the second,
/// `bound` whether it was met with success, and `in_use` whether the socket was taken.
pub fn bind_listener(again: bool, bound: bool, in_use: bool) -> (r: BindStep)
    ensures
        r == bind_step(again, bound, in_use),
{
    if bound {
        BindStep::Listen
    } else if in_use && !again {
        BindStep::RemoveAndRetry
    } else {
        BindStep::Fail
    }
}

/// Whether a socket that was left behind is to be removed. A namespaced one is no file, so that
/// there is nothing to remove; nor is there where no file `exists`.
pub fn remove_stale_file_socket(namespaced: bool, exists: bool) -> (r: bool)
    ensures
        r == (!namespaced && exists),
{
    !namespaced && exists
}

} // verus!
