//! What holds of a command that one instance sends and another one takes.

use vstd::prelude::*;

use crate::args::Args;
use crate::args::WindowRequest;
use crate::ipc::Answer;
use crate::ipc::BindStep;
use crate::ipc::Request;
use crate::ipc;
use crate::number;
use crate::text;
use crate::text_laws;

verus! {

/// What the window of a running instance is to be told for the command line of another one.
pub open spec fn intended(args: Args) -> Option<WindowRequest> {
    if let Some(name) = args.profile {
        Some(WindowRequest::SwitchProfile(text::trim(name@)))
    } else if args.reload {
        Some(WindowRequest::ReloadProfile)
    } else if let Some(gain) = args.set_gain {
        Some(WindowRequest::SetGain(gain))
    } else if let Some(words) = args.set_eq_band {
        if words@.len() == 5 {
            match ipc::band_setting(
                words@[0]@,
                words@[1]@,
                words@[2]@,
                words@[3]@,
                words@[4]@,
            ) {
                Ok((band, band_type, frequency, gain, q)) => Some(
                    WindowRequest::SetEqBand { band, band_type, frequency, gain, q },
                ),
                Err(_) => None,
            }
        } else {
            Some(WindowRequest::OpenWindow)
        }
    } else {
        Some(WindowRequest::OpenWindow)
    }
}

/// What the window is told by an answer.
pub open spec fn told(answer: Answer) -> Option<WindowRequest> {
    match answer {
        Answer::Reply(message, _) => message,
        Answer::ListProfiles => None,
    }
}

/// Whether `s` holds no `c`.
pub open spec fn lacks(s: Seq<char>, c: char) -> bool {
    forall|i: int| 0 <= i < s.len() ==> #[trigger] s[i] != c
}

/// Whether no argument of the command line that is sent on as it is holds `c`.
pub open spec fn arguments_lack(args: Args, c: char) -> bool {
    &&& args.profile matches Some(name) ==> lacks(name@, c)
    &&& args.set_eq_band matches Some(words) ==> forall|i: int|
        0 <= i < words@.len() ==> lacks(#[trigger] words@[i]@, c)
}

proof fn trimmed_command(head: Seq<char>, rest: Seq<char>)
    requires
        head.len() > 0,
        !text::white_space(head[0]),
        !text::white_space(head.last()),
    ensures
        text::trim((head + rest).push('\n')) == head + text::trim_end(rest),
        text::after_prefix(head + text::trim_end(rest), head) == Some(text::trim_end(rest)),
{
    let all = (head + rest).push('\n');
    assert(all =~= head + rest.push('\n'));
    assert(all[0] == head[0]);
    text_laws::trim_end_stops(head, rest.push('\n'));
    assert(rest.push('\n').drop_last() =~= rest);
    let t = head + text::trim_end(rest);
    assert(t.take(head.len() as int) =~= head);
    assert(t.skip(head.len() as int) =~= text::trim_end(rest));
}

proof fn plain_command(word: Seq<char>)
    requires
        word.len() > 0,
        !text::white_space(word[0]),
        !text::white_space(word.last()),
    ensures
        text::trim(word.push('\n')) == word,
{
    text_laws::tight_text_stays(word);
    text_laws::trim_past_white_space(word, '\n');
}

proof fn other_prefix(t: Seq<char>, head: Seq<char>, i: int)
    requires
        0 <= i < head.len(),
        i < t.len() ==> t[i] != head[i],
    ensures
        text::after_prefix(t, head) is None,
{
    if text::starts_with(t, head) {
        assert(t.take(head.len() as int)[i] == head[i]);
    }
}

proof fn profile_is_understood(name: Seq<char>)
    ensures
        ipc::request_of(("PROFILE:"@ + name).push('\n')) == Request::Profile(text::trim(name)),
{
    reveal_strlit("PROFILE:");
    reveal_strlit("TRIGGER");
    trimmed_command("PROFILE:"@, name);
    text_laws::trim_after_trim_end(name);
    let t = "PROFILE:"@ + text::trim_end(name);
    assert(t[0] == 'P');
    assert("TRIGGER"@[0] == 'T');
}

proof fn reload_is_understood()
    ensures
        ipc::request_of("RELOAD"@.push('\n')) == Request::Reload,
{
    reveal_strlit("PROFILE:");
    reveal_strlit("TRIGGER");
    reveal_strlit("RELOAD");
    plain_command("RELOAD"@);
    assert("RELOAD"@[0] != "TRIGGER"@[0]);
    other_prefix("RELOAD"@, "PROFILE:"@, 0);
}

proof fn trigger_is_understood()
    ensures
        ipc::request_of("TRIGGER"@.push('\n')) == Request::Trigger,
{
    reveal_strlit("TRIGGER");
    plain_command("TRIGGER"@);
}

proof fn gain_is_understood(gain: u8)
    ensures
        ipc::request_of(("SET_GAIN:"@ + text::decimal(gain as nat)).push('\n')) == Request::Gain(
            text::decimal(gain as nat),
        ),
        text::small_number(text::decimal(gain as nat)) == Some(gain),
{
    reveal_strlit("PROFILE:");
    reveal_strlit("TRIGGER");
    reveal_strlit("RELOAD");
    reveal_strlit("SET_GAIN:");
    let d = text::decimal(gain as nat);
    number::decimal_stands_for(gain as nat);
    assert(text::is_digit(d[0]));
    assert(text::is_digit(d[d.len() - 1]));
    text_laws::tight_text_stays(d);
    trimmed_command("SET_GAIN:"@, d);
    assert(text::trim_end(d) == d);
    let t = "SET_GAIN:"@ + d;
    assert(t[0] == 'S');
    assert("TRIGGER"@[0] == 'T');
    assert("RELOAD"@[0] == 'R');
    other_prefix(t, "PROFILE:"@, 0);
}

proof fn band_is_understood(rest: Seq<char>)
    ensures
        ipc::request_of(("SET_EQ_BAND:"@ + rest).push('\n')) == Request::EqBand(
            text::trim_end(rest),
        ),
{
    reveal_strlit("PROFILE:");
    reveal_strlit("TRIGGER");
    reveal_strlit("RELOAD");
    reveal_strlit("SET_GAIN:");
    reveal_strlit("SET_EQ_BAND:");
    trimmed_command("SET_EQ_BAND:"@, rest);
    let t = "SET_EQ_BAND:"@ + text::trim_end(rest);
    assert(t[0] == 'S');
    assert(t[4] == 'E');
    assert("TRIGGER"@[0] == 'T');
    assert("RELOAD"@[0] == 'R');
    other_prefix(t, "PROFILE:"@, 0);
    other_prefix(t, "SET_GAIN:"@, 4);
}

proof fn trim_end_shortens(s: Seq<char>)
    ensures
        text::trim_end(s).len() <= s.len(),
        text::trim_end(s) == s.take(text::trim_end(s).len() as int),
    decreases s.len(),
{
    if s.len() > 0 && text::white_space(s.last()) {
        trim_end_shortens(s.drop_last());
        let n = text::trim_end(s.drop_last()).len() as int;
        assert(s.drop_last().take(n) =~= s.take(n));
    } else {
        assert(s.take(s.len() as int) =~= s);
    }
}

proof fn words_come_apart(w: Seq<Seq<char>>)
    requires
        w.len() == 5,
        forall|i: int| 0 <= i < 5 ==> lacks(#[trigger] w[i], ':'),
    ensures
        text::fields(text::trim_end(ipc::joined_words(w)), ':') == seq![
            w[0],
            w[1],
            w[2],
            w[3],
            text::trim_end(w[4]),
        ],
{
    let c = seq![':'];
    let empty = Seq::<char>::empty();
    let last = text::trim_end(w[4]);
    let head = w[0] + c + w[1] + c + w[2] + c + w[3] + c;
    assert(ipc::joined_words(w) =~= head + w[4]);
    assert(head.last() == ':');
    text_laws::trim_end_stops(head, w[4]);
    trim_end_shortens(w[4]);
    assert(lacks(w[4], ':'));
    assert forall|i: int| 0 <= i < last.len() implies #[trigger] last[i] != ':' by {
        assert(last[i] == w[4][i]);
    }
    let r3 = w[3] + c + last;
    let r2 = w[2] + c + r3;
    let r1 = w[1] + c + r2;
    assert(head + last =~= w[0] + c + r1);
    assert(lacks(w[0], ':') && lacks(w[1], ':') && lacks(w[2], ':') && lacks(w[3], ':'));
    text_laws::field_before_mark(empty, w[0], r1, ':');
    text_laws::field_before_mark(empty, w[1], r2, ':');
    text_laws::field_before_mark(empty, w[2], r3, ':');
    text_laws::field_before_mark(empty, w[3], last, ':');
    text_laws::field_without_mark(empty, last, ':');
    assert(empty + w[0] =~= w[0]);
    assert(empty + w[1] =~= w[1]);
    assert(empty + w[2] =~= w[2]);
    assert(empty + w[3] =~= w[3]);
    assert(empty + last =~= last);
}

/// How many `mark`s `s` holds.
pub open spec fn marks(s: Seq<char>, mark: char) -> nat
    decreases s.len(),
{
    if s.len() == 0 {
        0
    } else {
        marks(s.drop_first(), mark) + (if s[0] == mark {
            1nat
        } else {
            0
        })
    }
}

proof fn marks_add(a: Seq<char>, b: Seq<char>, mark: char)
    ensures
        marks(a + b, mark) == marks(a, mark) + marks(b, mark),
    decreases a.len(),
{
    if a.len() == 0 {
        assert(a + b =~= b);
    } else {
        assert((a + b).drop_first() =~= a.drop_first() + b);
        marks_add(a.drop_first(), b, mark);
    }
}

proof fn marks_are_held(s: Seq<char>, mark: char, i: int)
    requires
        0 <= i < s.len(),
        s[i] == mark,
    ensures
        marks(s, mark) > 0,
    decreases s.len(),
{
    if s[0] != mark {
        assert(s.drop_first()[i - 1] == mark);
        marks_are_held(s.drop_first(), mark, i - 1);
    }
}

proof fn fields_are_counted(piece: Seq<char>, s: Seq<char>, mark: char)
    ensures
        text::fields_after(piece, s, mark).len() == marks(s, mark) + 1,
    decreases s.len(),
{
    if s.len() > 0 {
        if s[0] == mark {
            fields_are_counted(seq![], s.drop_first(), mark);
        } else {
            fields_are_counted(piece.push(s[0]), s.drop_first(), mark);
        }
    }
}

proof fn trim_end_keeps_marks(s: Seq<char>, mark: char)
    requires
        !text::white_space(mark),
    ensures
        marks(text::trim_end(s), mark) == marks(s, mark),
    decreases s.len(),
{
    if s.len() > 0 && text::white_space(s.last()) {
        trim_end_keeps_marks(s.drop_last(), mark);
        let end = seq![s.last()];
        marks_add(s.drop_last(), end, mark);
        assert(s.drop_last() + end =~= s);
        assert(end.drop_first() =~= Seq::empty());
        assert(marks(end.drop_first(), mark) == 0);
    }
}

proof fn leading_digits_stop(s: Seq<char>, i: int)
    requires
        0 <= i < s.len(),
        s[i] == ':',
    ensures
        number::leading_digits(s) <= i,
    decreases s.len(),
{
    if text::is_digit(s[0]) {
        assert(s.drop_first()[i - 1] == ':');
        leading_digits_stop(s.drop_first(), i - 1);
    }
}

proof fn colons_end_no_number(s: Seq<char>, i: int)
    requires
        0 <= i < s.len(),
        s[i] == ':',
    ensures
        number::exponent_of(s) is None,
{
    if s[0] == 'e' || s[0] == 'E' {
        let t = s.drop_first();
        let digits = number::without_sign(t);
        assert(t[i - 1] == ':');
        if t[0] == '-' || t[0] == '+' {
            assert(digits[i - 2] == ':');
            assert(!text::is_digit(digits[i - 2]));
        } else {
            assert(!text::is_digit(digits[i - 1]));
        }
    }
}

/// A text with a colon in it stands for no number.
proof fn colons_are_in_no_number(s: Seq<char>, i: int)
    requires
        0 <= i < s.len(),
        s[i] == ':',
    ensures
        number::number_value(s) is None,
{
    reveal_strlit("inf");
    reveal_strlit("infinity");
    reveal_strlit("nan");
    let body = number::without_sign(s);
    let j: int = if s[0] == '-' || s[0] == '+' {
        i - 1
    } else {
        i
    };
    assert(body[j] == ':');
    leading_digits_stop(body, j);
    let n = number::leading_digits(body) as int;
    let rest = body.skip(n);
    assert(rest[j - n] == ':');
    if rest[0] == '.' {
        let after = rest.drop_first();
        assert(after[j - n - 1] == ':');
        leading_digits_stop(after, j - n - 1);
        let m = number::leading_digits(after) as int;
        assert(after.skip(m)[j - n - 1 - m] == ':');
        colons_end_no_number(after.skip(m), j - n - 1 - m);
    } else {
        colons_end_no_number(rest, j - n);
    }
    assert(number::numeral_of(body) is None);
    let word = text::ascii_lowercase(body);
    assert(word[j] == ':');
    assert(lacks("inf"@, ':'));
    assert(lacks("infinity"@, ':'));
    assert(lacks("nan"@, ':'));
}

proof fn trim_keeps_colons(s: Seq<char>, i: int) -> (k: int)
    requires
        0 <= i < s.len(),
        s[i] == ':',
    ensures
        0 <= k < text::trim(s).len(),
        text::trim(s)[k] == ':',
    decreases s.len(),
{
    if text::white_space(s[0]) {
        assert(s.drop_first()[i - 1] == ':');
        trim_keeps_colons(s.drop_first(), i - 1)
    } else {
        trim_end_keeps_marks(s, ':');
        marks_are_held(s, ':', i);
        held_marks_are_found(text::trim_end(s), ':')
    }
}

proof fn held_marks_are_found(s: Seq<char>, mark: char) -> (k: int)
    requires
        marks(s, mark) > 0,
    ensures
        0 <= k < s.len(),
        s[k] == mark,
    decreases s.len(),
{
    if s[0] == mark {
        0
    } else {
        let k = held_marks_are_found(s.drop_first(), mark);
        assert(s.drop_first()[k] == s[k + 1]);
        k + 1
    }
}

proof fn colons_are_in_no_name(s: Seq<char>, i: int)
    requires
        0 <= i < s.len(),
        s[i] == ':',
    ensures
        ipc::band_named(ipc::clean(s)) is None,
        ipc::shape_named(ipc::clean(s)) is None,
{
    let k = trim_keeps_colons(s, i);
    let c = ipc::clean(s);
    assert(c[k] == ':');
    no_band_has_a_colon(c, k);
    no_shape_has_a_colon(c, k);
}

proof fn no_band_has_a_colon(c: Seq<char>, k: int)
    requires
        0 <= k < c.len(),
        c[k] == ':',
    ensures
        ipc::band_named(c) is None,
{
    reveal_strlit("1");
    reveal_strlit("2");
    reveal_strlit("3");
    reveal_strlit("4");
    reveal_strlit("5");
    reveal_strlit("6");
    reveal_strlit("7");
    reveal_strlit("8");
    reveal_strlit("9");
    reveal_strlit("band1");
    reveal_strlit("band2");
    reveal_strlit("band3");
    reveal_strlit("band4");
    reveal_strlit("band5");
    reveal_strlit("band6");
    reveal_strlit("band7");
    reveal_strlit("band8");
    reveal_strlit("band9");
}

proof fn no_shape_has_a_colon(c: Seq<char>, k: int)
    requires
        0 <= k < c.len(),
        c[k] == ':',
    ensures
        ipc::shape_named(c) is None,
{
    reveal_strlit("bell");
    reveal_strlit("pk");
    reveal_strlit("peak");
    reveal_strlit("bellband");
    reveal_strlit("hp");
    reveal_strlit("highpass");
    reveal_strlit("hpf");
    reveal_strlit("highpassfilter");
    reveal_strlit("lp");
    reveal_strlit("lowpass");
    reveal_strlit("lpf");
    reveal_strlit("lowpassfilter");
    reveal_strlit("ls");
    reveal_strlit("lowshelf");
    reveal_strlit("lsc");
    reveal_strlit("hs");
    reveal_strlit("highshelf");
    reveal_strlit("hsc");
    reveal_strlit("notch");
    reveal_strlit("no");
    reveal_strlit("notchfilter");
}

/// Words of which one holds a colon ask for no band, neither as they are nor with colons between
/// them.
proof fn colons_ask_for_no_band(w: Seq<Seq<char>>, i: int, k: int)
    requires
        w.len() == 5,
        0 <= i < 5,
        0 <= k < w[i].len(),
        w[i][k] == ':',
    ensures
        ipc::band_setting(w[0], w[1], w[2], w[3], w[4]) is Err,
        text::fields(text::trim_end(ipc::joined_words(w)), ':').len() > 5,
{
    if i < 2 {
        colons_are_in_no_name(w[i], k);
    } else {
        let j = trim_keeps_colons(w[i], k);
        colons_are_in_no_number(text::trim(w[i]), j);
    }
    let c = seq![':'];
    assert(c.drop_first() =~= Seq::empty());
    assert(marks(c.drop_first(), ':') == 0);
    assert(marks(c, ':') == 1);
    let a1 = w[0] + c;
    let a2 = a1 + w[1];
    let a3 = a2 + c;
    let a4 = a3 + w[2];
    let a5 = a4 + c;
    let a6 = a5 + w[3];
    let a7 = a6 + c;
    marks_add(w[0], c, ':');
    marks_add(a1, w[1], ':');
    marks_add(a2, c, ':');
    marks_add(a3, w[2], ':');
    marks_add(a4, c, ':');
    marks_add(a5, w[3], ':');
    marks_add(a6, c, ':');
    marks_add(a7, w[4], ':');
    marks_are_held(w[i], ':', k);
    let all = ipc::joined_words(w);
    assert(all == a7 + w[4]);
    trim_end_keeps_marks(all, ':');
    fields_are_counted(seq![], text::trim_end(all), ':');
}

/// A running instance takes the command that another one sends for what its command line asks:
/// the window is told just that, or nothing where the words for a band stand for none.
pub proof fn commands_are_understood(args: Args)
    ensures
        told(ipc::answer_to(ipc::request_of(ipc::command_of(args).push('\n')))) == intended(args),
{
    trigger_is_understood();
    reload_is_understood();
    if let Some(name) = args.profile {
        profile_is_understood(name@);
    } else if args.reload {
    } else if let Some(gain) = args.set_gain {
        gain_is_understood(gain);
    } else if let Some(words) = args.set_eq_band {
        if words@.len() == 5 {
            let w = text::views(words@);
            band_is_understood(ipc::joined_words(w));
            assert(w[0] == words@[0]@ && w[1] == words@[1]@ && w[2] == words@[2]@ && w[3]
                == words@[3]@ && w[4] == words@[4]@);
            if forall|i: int| 0 <= i < 5 ==> lacks(#[trigger] w[i], ':') {
                words_come_apart(w);
                text_laws::trim_after_trim_end(w[4]);
            } else {
                let i = choose|i: int| 0 <= i < 5 && !lacks(#[trigger] w[i], ':');
                let k = choose|k: int| 0 <= k < w[i].len() && #[trigger] w[i][k] == ':';
                colons_ask_for_no_band(w, i, k);
            }
        }
    }
}

/// A command is one line if the arguments of the command line hold no line feed.
pub proof fn commands_are_one_line(args: Args)
    requires
        arguments_lack(args, '\n'),
    ensures
        lacks(ipc::command_of(args), '\n'),
{
    reveal_strlit("PROFILE:");
    reveal_strlit("TRIGGER");
    reveal_strlit("RELOAD");
    reveal_strlit("SET_GAIN:");
    reveal_strlit("SET_EQ_BAND:");
    if let Some(name) = args.profile {
        assert(lacks(name@, '\n'));
    } else if args.reload {
    } else if let Some(gain) = args.set_gain {
        number::decimal_stands_for(gain as nat);
        let d = text::decimal(gain as nat);
        assert forall|i: int| 0 <= i < d.len() implies #[trigger] d[i] != '\n' by {
            assert(text::is_digit(d[i]));
        }
    } else if let Some(words) = args.set_eq_band {
        if words@.len() == 5 {
            let w = text::views(words@);
            assert(w[0] == words@[0]@ && w[1] == words@[1]@ && w[2] == words@[2]@ && w[3]
                == words@[3]@ && w[4] == words@[4]@);
            assert(lacks(words@[0]@, '\n') && lacks(words@[1]@, '\n') && lacks(words@[2]@, '\n')
                && lacks(words@[3]@, '\n') && lacks(words@[4]@, '\n'));
        }
    }
}

/// Every reply is a line. It says `OK` where the window is told something, and `ERR` where not.
pub proof fn replies_say_what_happens(request: Request)
    ensures
        match ipc::answer_to(request) {
            Answer::Reply(message, reply) => {
                &&& reply.last() == '\n'
                &&& message is Some <==> text::starts_with(reply, "OK: "@)
                &&& message is None <==> text::starts_with(reply, "ERR: "@)
            },
            Answer::ListProfiles => request is ListProfiles,
        },
{
    reveal_strlit("OK: ");
    reveal_strlit("ERR: ");
    reveal_strlit("\n");
    match request {
        Request::Trigger => {
            reveal_strlit("OK: Window opened\n");
            starts_ok("OK: Window opened\n"@);
        },
        Request::Profile(name) => {
            reveal_strlit("OK: Switched profile to '");
            reveal_strlit("'\n");
            starts_ok("OK: Switched profile to '"@ + name + "'\n"@);
        },
        Request::Reload => {
            reveal_strlit("OK: Profile reloaded\n");
            starts_ok("OK: Profile reloaded\n"@);
        },
        Request::Gain(word) => {
            reveal_strlit("OK: Set mic gain to ");
            reveal_strlit(" dB\n");
            reveal_strlit("ERR: Invalid gain value\n");
            match text::small_number(word) {
                Some(gain) => starts_ok(
                    "OK: Set mic gain to "@ + text::decimal(gain as nat) + " dB\n"@,
                ),
                None => starts_err("ERR: Invalid gain value\n"@),
            }
        },
        Request::EqBand(words) => {
            reveal_strlit("OK: Set EQ Band ");
            reveal_strlit("ERR: Expected SET_EQ_BAND:<band>:<shape>:<freq>:<gain>:<q>\n");
            let parts = text::fields(words, ':');
            if parts.len() == 5 {
                match ipc::band_setting(parts[0], parts[1], parts[2], parts[3], parts[4]) {
                    Ok((band, band_type, frequency, gain, q)) => {
                        let t = ipc::band_reply(band, band_type, frequency, gain, q);
                        assert(t[0] == 'O' && t[1] == 'K' && t[2] == ':' && t[3] == ' ');
                        starts_ok(t);
                    },
                    Err(e) => starts_err("ERR: "@ + e + "\n"@),
                }
            } else {
                starts_err("ERR: Expected SET_EQ_BAND:<band>:<shape>:<freq>:<gain>:<q>\n"@);
            }
        },
        Request::ListProfiles => {},
        Request::Unknown => {
            reveal_strlit("ERR: Unknown command\n");
            starts_err("ERR: Unknown command\n"@);
        },
    }
}

proof fn starts_ok(t: Seq<char>)
    requires
        t.len() >= 4,
        t[0] == 'O',
        t[1] == 'K',
        t[2] == ':',
        t[3] == ' ',
    ensures
        text::starts_with(t, "OK: "@),
        !text::starts_with(t, "ERR: "@),
{
    reveal_strlit("OK: ");
    reveal_strlit("ERR: ");
    assert(t.take(4) =~= "OK: "@);
    if text::starts_with(t, "ERR: "@) {
        assert(t.take(5)[0] == "ERR: "@[0]);
    }
}

proof fn starts_err(t: Seq<char>)
    requires
        t.len() >= 5,
        t[0] == 'E',
        t[1] == 'R',
        t[2] == 'R',
        t[3] == ':',
        t[4] == ' ',
    ensures
        text::starts_with(t, "ERR: "@),
        !text::starts_with(t, "OK: "@),
{
    reveal_strlit("OK: ");
    reveal_strlit("ERR: ");
    assert(t.take(5) =~= "ERR: "@);
    if text::starts_with(t, "OK: "@) {
        assert(t.take(4)[0] == "OK: "@[0]);
    }
}

/// A socket that was left behind does not keep an instance from listening, and listening is tried
/// no more than twice. An instance listens just if it could bind its socket.
pub proof fn binding_recovers(again: bool, bound: bool, in_use: bool)
    ensures
        ipc::bind_step(false, false, true) == BindStep::RemoveAndRetry,
        ipc::bind_step(true, true, in_use) == BindStep::Listen,
        ipc::bind_step(true, bound, in_use) != BindStep::RemoveAndRetry,
        ipc::bind_step(again, bound, in_use) == BindStep::Listen <==> bound,
        ipc::bind_step(again, bound, in_use) == BindStep::RemoveAndRetry <==> !bound && in_use
            && !again,
{
}

} // verus!
