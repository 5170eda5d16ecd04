//! What the words of a command stand for.

use vstd::arithmetic::power2::pow2;
use vstd::prelude::*;

use crate::args::WindowRequest;
use crate::args;
use crate::eq::EQBand;
use crate::eq::EQBandType;
use crate::import_laws;
use crate::ipc::Answer;
use crate::ipc::Request;
use crate::ipc;
use crate::number;
use crate::page_laws;
use crate::scalar::Scalar;
use crate::text;

verus! {

/// The word `band`.
spec fn band_word() -> Seq<char> {
    seq!['b', 'a', 'n', 'd']
}

proof fn band_letters()
    ensures
        "1"@ == seq!['1'],
        "2"@ == seq!['2'],
        "3"@ == seq!['3'],
        "4"@ == seq!['4'],
        "5"@ == seq!['5'],
        "6"@ == seq!['6'],
        "7"@ == seq!['7'],
        "8"@ == seq!['8'],
        "9"@ == seq!['9'],
        "band1"@ == band_word().push('1'),
        "band2"@ == band_word().push('2'),
        "band3"@ == band_word().push('3'),
        "band4"@ == band_word().push('4'),
        "band5"@ == band_word().push('5'),
        "band6"@ == band_word().push('6'),
        "band7"@ == band_word().push('7'),
        "band8"@ == band_word().push('8'),
        "band9"@ == band_word().push('9'),
        "band"@ == band_word(),
{
    reveal_strlit("1");
    assert("1"@ =~= seq!['1']);
    reveal_strlit("2");
    assert("2"@ =~= seq!['2']);
    reveal_strlit("3");
    assert("3"@ =~= seq!['3']);
    reveal_strlit("4");
    assert("4"@ =~= seq!['4']);
    reveal_strlit("5");
    assert("5"@ =~= seq!['5']);
    reveal_strlit("6");
    assert("6"@ =~= seq!['6']);
    reveal_strlit("7");
    assert("7"@ =~= seq!['7']);
    reveal_strlit("8");
    assert("8"@ =~= seq!['8']);
    reveal_strlit("9");
    assert("9"@ =~= seq!['9']);
    reveal_strlit("band1");
    assert("band1"@ =~= band_word().push('1'));
    reveal_strlit("band2");
    assert("band2"@ =~= band_word().push('2'));
    reveal_strlit("band3");
    assert("band3"@ =~= band_word().push('3'));
    reveal_strlit("band4");
    assert("band4"@ =~= band_word().push('4'));
    reveal_strlit("band5");
    assert("band5"@ =~= band_word().push('5'));
    reveal_strlit("band6");
    assert("band6"@ =~= band_word().push('6'));
    reveal_strlit("band7");
    assert("band7"@ =~= band_word().push('7'));
    reveal_strlit("band8");
    assert("band8"@ =~= band_word().push('8'));
    reveal_strlit("band9");
    assert("band9"@ =~= band_word().push('9'));
    reveal_strlit("band");
    assert("band"@ =~= band_word());
}

/// The digit by which a band is called: its place, counted from one.
pub open spec fn band_digit(band: EQBand) -> char {
    match band {
        EQBand::Band1 => '1',
        EQBand::Band2 => '2',
        EQBand::Band3 => '3',
        EQBand::Band4 => '4',
        EQBand::Band5 => '5',
        EQBand::Band6 => '6',
        EQBand::Band7 => '7',
        EQBand::Band8 => '8',
        EQBand::Band9 => '9',
    }
}

/// A word names a band just if it is the digit of the band, or `band` and that digit.
pub proof fn bands_are_called_by_number(w: Seq<char>, band: EQBand)
    ensures
        ipc::band_named(w) == Some(band) <==> w == seq![band_digit(band)] || w == "band"@.push(
            band_digit(band),
        ),
{
    band_letters();
    let short = seq![band_digit(band)];
    let long = band_word().push(band_digit(band));
    assert(short.len() == 1 && short[0] == band_digit(band));
    assert(long.len() == 5 && long.last() == band_digit(band));
    assert(forall|c: char| #[trigger] seq![c].len() == 1 && seq![c][0] == c);
    assert(forall|c: char|
        (#[trigger] band_word().push(c)).len() == 5 && band_word().push(c).last() == c);
}

/// Whether a word in small letters is one of those for a shape.
pub open spec fn is_word_for(w: Seq<char>, shape: EQBandType) -> bool {
    match shape {
        EQBandType::BellBand => w == "bell"@ || w == "pk"@ || w == "peak"@ || w == "bellband"@,
        EQBandType::HighPassFilter => w == "hp"@ || w == "highpass"@ || w == "hpf"@ || w
            == "highpassfilter"@,
        EQBandType::LowPassFilter => w == "lp"@ || w == "lowpass"@ || w == "lpf"@ || w
            == "lowpassfilter"@,
        EQBandType::LowShelf => w == "ls"@ || w == "lowshelf"@ || w == "lsc"@,
        EQBandType::HighShelf => w == "hs"@ || w == "highshelf"@ || w == "hsc"@,
        EQBandType::NotchFilter => w == "notch"@ || w == "no"@ || w == "notchfilter"@,
        EQBandType::NotSet => false,
    }
}

/// A word names a shape just if it is one of those for it; no word is one for two shapes.
pub proof fn shapes_have_their_words(w: Seq<char>, shape: EQBandType)
    ensures
        ipc::shape_named(w) == Some(shape) <==> is_word_for(w, shape),
{
    reveal_strlit("bell");
    reveal_strlit("pk");
    reveal_strlit("peak");
    reveal_strlit("bellband");
    reveal_strlit("hp");
    reveal_strlit("highpass");
    reveal_strlit("hpf");
    reveal_strlit("highpassfilter");
    reveal_strlit("lp");
    reveal_strlit("lowpass");
    reveal_strlit("lpf");
    reveal_strlit("lowpassfilter");
    reveal_strlit("ls");
    reveal_strlit("lowshelf");
    reveal_strlit("lsc");
    reveal_strlit("hs");
    reveal_strlit("highshelf");
    reveal_strlit("hsc");
    reveal_strlit("notch");
    reveal_strlit("no");
    reveal_strlit("notchfilter");
    assert("bell"@.len() == 4 && "bell"@[0] == 'b');
    assert("pk"@.len() == 2 && "pk"@[0] == 'p');
    assert("peak"@.len() == 4 && "peak"@[0] == 'p');
    assert("bellband"@.len() == 8 && "bellband"@[0] == 'b');
    assert("hp"@.len() == 2 && "hp"@[0] == 'h' && "hp"@[1] == 'p');
    assert("highpass"@.len() == 8 && "highpass"@[0] == 'h');
    assert("hpf"@.len() == 3 && "hpf"@[0] == 'h' && "hpf"@[1] == 'p');
    assert("highpassfilter"@.len() == 14 && "highpassfilter"@[0] == 'h');
    assert("lp"@.len() == 2 && "lp"@[0] == 'l' && "lp"@[1] == 'p');
    assert("lowpass"@.len() == 7 && "lowpass"@[0] == 'l');
    assert("lpf"@.len() == 3 && "lpf"@[0] == 'l' && "lpf"@[1] == 'p');
    assert("lowpassfilter"@.len() == 13 && "lowpassfilter"@[0] == 'l');
    assert("ls"@.len() == 2 && "ls"@[0] == 'l' && "ls"@[1] == 's');
    assert("lowshelf"@.len() == 8 && "lowshelf"@[0] == 'l');
    assert("lsc"@.len() == 3 && "lsc"@[0] == 'l' && "lsc"@[1] == 's');
    assert("hs"@.len() == 2 && "hs"@[0] == 'h' && "hs"@[1] == 's');
    assert("highshelf"@.len() == 9 && "highshelf"@[0] == 'h');
    assert("hsc"@.len() == 3 && "hsc"@[0] == 'h' && "hsc"@[1] == 's');
    assert("notch"@.len() == 5 && "notch"@[0] == 'n');
    assert("no"@.len() == 2 && "no"@[0] == 'n');
    assert("notchfilter"@.len() == 11 && "notchfilter"@[0] == 'n');
}

/// Whether `f` is `v`, or the end of the range from 20 to 20000 that `v` lies beyond.
pub open spec fn is_hertz_of(f: Scalar, v: Scalar) -> bool {
    let one = pow2(149) as int;
    &&& 20 * one <= v.units() <= 20000 * one ==> f == v
    &&& v.units() < 20 * one ==> f.units() == 20 * one
    &&& v.units() > 20000 * one ==> f.units() == 20000 * one
}

/// Five words ask for a band just if the first names one, the second names a shape and the others
/// are numbers, white space around each aside; then they ask for that band and shape, and for these
/// numbers, each brought into its range: the third for the frequency, the fourth for the gain and
/// the fifth for the Q.
pub proof fn bands_are_set_as_asked(
    band: Seq<char>,
    shape: Seq<char>,
    frequency: Seq<char>,
    gain: Seq<char>,
    q: Seq<char>,
)
    ensures
        ({
            let b = ipc::band_named(text::ascii_lowercase(text::trim(band)));
            let t = ipc::shape_named(text::ascii_lowercase(text::trim(shape)));
            let f = number::number_value(text::trim(frequency));
            let g = number::number_value(text::trim(gain));
            let w = number::number_value(text::trim(q));
            let r = ipc::band_setting(band, shape, frequency, gain, q);
            &&& r is Ok <==> b is Some && t is Some && f is Some && g is Some && w is Some
            &&& r matches Ok((x, y, hz, db, v)) ==> {
                &&& b == Some(x)
                &&& t == Some(y)
                &&& !f->0.nan() ==> is_hertz_of(hz, f->0)
                &&& !g->0.nan() ==> import_laws::is_gain_of(db, g->0)
                &&& !w->0.nan() ==> import_laws::is_q_of(v, w->0)
            }
        }),
{
    let f = number::number_value(text::trim(frequency));
    let g = number::number_value(text::trim(gain));
    let w = number::number_value(text::trim(q));
    if let Some(x) = f {
        if !x.nan() {
            page_laws::frequencies_in_range_stay(x);
        }
    }
    if let Some(x) = g {
        if !x.nan() {
            import_laws::numbers_in_range_stay(x);
        }
    }
    if let Some(x) = w {
        if !x.nan() {
            import_laws::numbers_in_range_stay(x);
        }
    }
}

/// Where words ask for no band, the first of them that stands for nothing is named as it was
/// written, with what it was to be.
pub proof fn first_bad_word_is_named(
    band: Seq<char>,
    shape: Seq<char>,
    frequency: Seq<char>,
    gain: Seq<char>,
    q: Seq<char>,
)
    ensures
        ({
            let b = ipc::band_named(text::ascii_lowercase(text::trim(band)));
            let t = ipc::shape_named(text::ascii_lowercase(text::trim(shape)));
            let f = number::number_value(text::trim(frequency));
            let g = number::number_value(text::trim(gain));
            let w = number::number_value(text::trim(q));
            let r = ipc::band_setting(band, shape, frequency, gain, q);
            r matches Err(e) ==> {
                ||| b is None && e == "Invalid EQ band '"@ + band
                    + "'. Expected 1-9 or Band1-Band9"@
                ||| b is Some && t is None && e == "Invalid filter shape '"@ + shape
                    + "'. Expected bell, hp, lp, ls, hs, or notch"@
                ||| b is Some && t is Some && f is None && e == "Invalid frequency '"@ + frequency
                    + "'"@
                ||| b is Some && t is Some && f is Some && g is None && e == "Invalid gain '"@
                    + gain + "'"@
                ||| b is Some && t is Some && f is Some && g is Some && w is None && e
                    == "Invalid Q factor '"@ + q + "'"@
            }
        }),
{
}

/// A request to set a band tells the window just what its five words ask for, and what the other
/// instance is told names the band and the shape and ends with the Q; with any other number of
/// words, or words that ask for nothing, the window is told nothing.
pub proof fn band_requests_are_answered(words: Seq<char>)
    ensures
        ({
            let parts = text::fields(words, ':');
            let asked = ipc::band_setting(parts[0], parts[1], parts[2], parts[3], parts[4]);
            match ipc::answer_to(Request::EqBand(words)) {
                Answer::Reply(
                    Some(WindowRequest::SetEqBand { band, band_type, frequency, gain, q }),
                    reply,
                ) => {
                    &&& parts.len() == 5
                    &&& asked == Ok::<_, Seq<char>>((band, band_type, frequency, gain, q))
                    &&& reply == "OK: Set EQ Band "@ + band.label() + " to "@ + band_type.label()
                        + " "@ + frequency.fixed(1, false) + "Hz "@ + gain.fixed(1, true) + "dB Q"@
                        + q.fixed(2, false) + "\n"@
                },
                Answer::Reply(None, _) => parts.len() != 5 || asked is Err,
                _ => false,
            }
        }),
{
}

/// Each request tells the window what it is for, with what it names, and no other request does; a
/// gain is told just if it is a number.
pub proof fn requests_tell_the_window(request: Request)
    ensures
        match (request, ipc::answer_to(request)) {
            (Request::Trigger, Answer::Reply(Some(WindowRequest::OpenWindow), _)) => true,
            (Request::Profile(name), Answer::Reply(Some(WindowRequest::SwitchProfile(n)), reply)) =>
            n == name && reply == "OK: Switched profile to '"@ + name + "'\n"@,
            (Request::Reload, Answer::Reply(Some(WindowRequest::ReloadProfile), _)) => true,
            (Request::Gain(word), Answer::Reply(Some(WindowRequest::SetGain(gain)), reply)) =>
            text::small_number(word) == Some(gain) && reply == "OK: Set mic gain to "@
                + text::decimal(gain as nat) + " dB\n"@,
            (Request::Gain(word), Answer::Reply(None, _)) => text::small_number(word) is None,
            (Request::EqBand(_), Answer::Reply(Some(WindowRequest::SetEqBand { .. }), _)) => true,
            (Request::EqBand(_), Answer::Reply(None, _)) => true,
            (Request::ListProfiles, Answer::ListProfiles) => true,
            (Request::Unknown, Answer::Reply(None, _)) => true,
            _ => false,
        },
{
}

/// A line asks for what its first word says: the words that take nothing stand alone, and those
/// that take something are followed by it, white space around the line and around a name or a gain
/// aside. Any other line asks for nothing.
pub proof fn lines_ask_for_what_they_say(line: Seq<char>)
    ensures
        ({
            let t = text::trim(line);
            match ipc::request_of(line) {
                Request::Trigger => t == "TRIGGER"@,
                Request::Reload => t == "RELOAD"@,
                Request::ListProfiles => t == "LIST_PROFILES"@,
                Request::Profile(name) => text::starts_with(t, "PROFILE:"@) && name == text::trim(
                    t.skip("PROFILE:"@.len() as int),
                ),
                Request::Gain(word) => text::starts_with(t, "SET_GAIN:"@) && word == text::trim(
                    t.skip("SET_GAIN:"@.len() as int),
                ),
                Request::EqBand(words) => text::starts_with(t, "SET_EQ_BAND:"@) && words == t.skip(
                    "SET_EQ_BAND:"@.len() as int,
                ),
                Request::Unknown => {
                    &&& t != "TRIGGER"@ && t != "RELOAD"@ && t != "LIST_PROFILES"@
                    &&& !text::starts_with(t, "PROFILE:"@)
                    &&& !text::starts_with(t, "SET_GAIN:"@)
                    &&& !text::starts_with(t, "SET_EQ_BAND:"@)
                },
            }
        }),
{
}

/// The list that another instance is told has a line for each profile, in order; the one in use is
/// the one with a star and a mark.
pub proof fn every_profile_is_told(names: Seq<Seq<char>>, more: Seq<Seq<char>>, active: Seq<char>)
    ensures
        ipc::reply_lines(names + more, active) == ipc::reply_lines(names, active)
            + ipc::reply_lines(more, active),
        names.len() == 1 && names[0] == active ==> ipc::reply_lines(names, active) == "* "@
            + names[0] + " [active]\n"@,
        names.len() == 1 && names[0] != active ==> ipc::reply_lines(names, active) == "  "@
            + names[0] + "\n"@,
        names.len() == 0 ==> ipc::reply_lines(names, active).len() == 0,
    decreases more.len(),
{
    if names.len() == 1 {
        assert(names.drop_last() =~= Seq::empty());
        assert(ipc::reply_lines(names.drop_last(), active) =~= Seq::empty());
        assert(ipc::reply_lines(names, active) =~= ipc::reply_line(names[0], active));
    }
    if more.len() == 0 {
        assert(names + more =~= names);
        assert(ipc::reply_lines(names, active) + ipc::reply_lines(more, active)
            =~= ipc::reply_lines(names, active));
    } else {
        let all = names + more;
        every_profile_is_told(names, more.drop_last(), active);
        assert(all.drop_last() =~= names + more.drop_last());
        assert(all.last() == more.last());
        assert(ipc::reply_lines(all, active) =~= ipc::reply_lines(names, active)
            + ipc::reply_lines(more, active));
    }
}

/// The list that the command line prints says how many profiles there are and has a line for each,
/// in order; the one in use is the one with a star and a mark.
pub proof fn every_profile_is_listed(names: Seq<Seq<char>>, active: Seq<char>, i: int)
    requires
        0 <= i < names.len(),
    ensures
        ({
            let lines = args::listing_lines(names, active);
            &&& lines.len() == names.len() + 1
            &&& lines[0] == "Available Profiles ("@ + text::decimal(names.len()) + "):"@
            &&& names[i] == active ==> lines[i + 1] == "  * "@ + names[i] + " [active]"@
            &&& names[i] != active ==> lines[i + 1] == "    "@ + names[i]
        }),
{
}

/// The name of a band is `Band` and its digit.
pub proof fn bands_are_named_by_number(band: EQBand)
    ensures
        band.label() == "Band"@.push(band_digit(band)),
{
    reveal_strlit("Band");
    reveal_strlit("Band1");
    reveal_strlit("Band2");
    reveal_strlit("Band3");
    reveal_strlit("Band4");
    reveal_strlit("Band5");
    reveal_strlit("Band6");
    reveal_strlit("Band7");
    reveal_strlit("Band8");
    reveal_strlit("Band9");
    assert(band.label() =~= "Band"@.push(band_digit(band)));
}

} // verus!
