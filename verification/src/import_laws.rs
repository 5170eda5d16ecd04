//! What each word of a filter's line does to the band that is read.

use vstd::arithmetic::power2::lemma2_to64;
use vstd::arithmetic::power2::lemma_pow2_adds;
use vstd::arithmetic::power2::lemma_pow2_pos;
use vstd::arithmetic::power2::pow2;
use vstd::prelude::*;

use crate::apo::DEFAULT_Q;
use crate::apo::Draft;
use crate::apo::Word;
use crate::apo;
use crate::apo_laws;
use crate::eq::EQBandType;
use crate::eq::EqualiserBandConfig;
use crate::eq::MAX_GAIN;
use crate::eq::MIN_GAIN;
use crate::equaliser_laws;
use crate::number;
use crate::scalar::Scalar;
use crate::text;
use crate::text_laws;

verus! {

/// Whether a word asks for a number after it.
pub open spec fn asks_for_a_number(w: Seq<char>) -> bool {
    let t = text::uppercase(w);
    t == "FC"@ || t == "GAIN"@ || t == "Q"@
}

/// Whether words can stand in a line that is read: none of them is empty or holds white space, the
/// first does not begin a comment, and there are at least four.
pub open spec fn is_line(ws: Seq<Seq<char>>) -> bool {
    ws.len() >= 4 && text_laws::all_solid(ws) && ws[0][0] != '#'
}

/// The band that a line of these words describes.
pub open spec fn read(ws: Seq<Seq<char>>) -> Option<EqualiserBandConfig> {
    apo::band_of_line(text_laws::spaced(ws))
}

/// The shape that a word in large letters names.
pub open spec fn names_shape(t: Seq<char>, shape: EQBandType) -> bool {
    match shape {
        EQBandType::BellBand => t == "PK"@ || t == "PEAK"@ || t == "BELL"@,
        EQBandType::HighPassFilter => t == "HP"@ || t == "HIGHPASS"@ || t == "HPQ"@,
        EQBandType::LowPassFilter => t == "LP"@ || t == "LOWPASS"@ || t == "LPQ"@,
        EQBandType::LowShelf => t == "LSC"@ || t == "LOWSHELF"@,
        EQBandType::HighShelf => t == "HSC"@ || t == "HIGHSHELF"@,
        EQBandType::NotchFilter => t == "NO"@ || t == "NOTCH"@,
        EQBandType::NotSet => false,
    }
}

/// Whether `q` is `v`, or the end of the range from 0.1 to 10 that `v` lies beyond.
pub open spec fn is_q_of(q: Scalar, v: Scalar) -> bool {
    let least = 0xCC_CCCD * pow2(122);
    let most = 10 * pow2(149);
    &&& least <= v.units() <= most ==> q == v
    &&& v.units() < least ==> q.units() == least
    &&& v.units() > most ==> q.units() == most
}

/// Whether `gain` is `v`, or the end of the range from -12 to 12 that `v` lies beyond.
pub open spec fn is_gain_of(gain: Scalar, v: Scalar) -> bool {
    let most = 12 * pow2(149);
    &&& -most <= v.units() <= most ==> gain == v
    &&& v.units() < -most ==> gain.units() == -most
    &&& v.units() > most ==> gain.units() == most
}

/// Whether `frequency` is the integer nearest to `v`, or the end of the range from 20 to 20000
/// that it lies beyond.
pub open spec fn is_frequency_of(frequency: u32, v: Scalar) -> bool {
    let one = pow2(149) as int;
    &&& 20 <= frequency <= 20000
    &&& 20 * one <= v.units() <= 20000 * one ==> -one <= 2 * (v.units() - frequency * one) <= one
    &&& v.units() < 20 * one ==> frequency == 20
    &&& v.units() > 20000 * one ==> frequency == 20000
}

proof fn ends_of_gains()
    ensures
        (Scalar { bits: MIN_GAIN }).units() == -12 * pow2(149),
        (Scalar { bits: MAX_GAIN }).units() == 12 * pow2(149),
        pow2(149) > 0,
{
    let low = Scalar { bits: MIN_GAIN };
    let high = Scalar { bits: MAX_GAIN };
    lemma2_to64();
    lemma_pow2_pos(149);
    lemma_pow2_adds(20, 129);
    assert(high.exponent() == 130);
    assert(high.significand() == 0xC0_0000);
    assert(0xC0_0000 * pow2(129) == 12 * (0x10_0000 * pow2(129)));
    assert(low.exponent() == 130);
    assert(low.significand() == 0xC0_0000);
}

/// A Q from 0.1 to 10 stays what it is, and any other becomes the nearest of these; so does a gain
/// from -12 to 12.
pub proof fn numbers_in_range_stay(v: Scalar)
    requires
        !v.nan(),
    ensures
        is_q_of(apo::clamped_q(v), v),
        is_gain_of(apo::clamped_gain(v), v),
{
    equaliser_laws::ends_of_q();
    ends_of_gains();
    apo::range_bounds();
}

proof fn frequency_is_nearest(v: Scalar)
    requires
        !v.nan(),
    ensures
        is_frequency_of(apo::clamped_frequency(v.to_integer()), v),
{
    let one = pow2(149);
    lemma_pow2_pos(149);
    let n = (2 * v.size() + one) / (2 * one);
    if !v.negative() {
        let x = 2 * v.size() + one;
        vstd::arithmetic::div_mod::lemma_fundamental_div_mod(x as int, (2 * one) as int);
        let rest = x % (2 * one);
        assert(x == 2 * (n * one) + rest) by (nonlinear_arith)
            requires
                x == (2 * one) * n + rest,
        ;
        if n > 20000 {
            assert(n * one >= 20001 * one) by (nonlinear_arith)
                requires
                    n >= 20001,
                    one > 0,
            ;
        } else if n < 20 {
            assert(n * one <= 19 * one) by (nonlinear_arith)
                requires
                    n <= 19,
                    one > 0,
            ;
        }
        if v.units() < 20 * one {
            assert(n <= 20) by (nonlinear_arith)
                requires
                    2 * (n * one) <= 2 * v.size() + one,
                    v.size() < 20 * one,
                    one > 0,
            ;
        }
        if v.units() > 20000 * one {
            assert(n >= 20000) by (nonlinear_arith)
                requires
                    2 * v.size() + one < 2 * (n * one) + 2 * one,
                    v.size() > 20000 * one,
                    one > 0,
            ;
        }
    }
}

/// The words that name a shape are these and no others, each for one shape; the same holds of the
/// words that switch a filter on and off and of those that ask for a number.
pub proof fn words_say_one_thing(t: Seq<char>, shape: EQBandType)
    ensures
        apo::word_meaning(t) == Word::Shape(shape) <==> names_shape(t, shape),
        apo::word_meaning(t) == Word::On <==> t == "ON"@,
        apo::word_meaning(t) == Word::Off <==> t == "OFF"@,
        apo::word_meaning(t) == Word::Frequency <==> t == "FC"@,
        apo::word_meaning(t) == Word::Gain <==> t == "GAIN"@,
        apo::word_meaning(t) == Word::Q <==> t == "Q"@,
{
    apo_laws::keyword_letters();
    let (a, b, c, d, e) = ("OFF"@, "ON"@, "PK"@, "PEAK"@, "BELL"@);
    let (f, g, h, i, j) = ("HP"@, "HIGHPASS"@, "HPQ"@, "LP"@, "LOWPASS"@);
    let (k, l, m, n, o) = ("LPQ"@, "LSC"@, "LOWSHELF"@, "HSC"@, "HIGHSHELF"@);
    let (p, q, r, s, u) = ("NO"@, "NOTCH"@, "FC"@, "GAIN"@, "Q"@);
    assert(a.len() == 3 && b.len() == 2 && c.len() == 2 && d.len() == 4 && e.len() == 4);
    assert(f.len() == 2 && g.len() == 8 && h.len() == 3 && i.len() == 2 && j.len() == 7);
    assert(k.len() == 3 && l.len() == 3 && m.len() == 8 && n.len() == 3 && o.len() == 9);
    assert(p.len() == 2 && q.len() == 5 && r.len() == 2 && s.len() == 4 && u.len() == 1);
    assert(a[0] == 'O' && h[0] == 'H' && h[1] == 'P' && k[0] == 'L' && k[1] == 'P');
    assert(l[0] == 'L' && l[1] == 'S' && n[0] == 'H' && n[1] == 'S');
    assert(b[0] == 'O' && c[0] == 'P' && f[0] == 'H' && i[0] == 'L' && p[0] == 'N' && r[0] == 'F');
    assert(d[0] == 'P' && e[0] == 'B' && s[0] == 'G' && g[0] == 'H' && m[0] == 'L');
}

/// What words say does not depend on words after them, unless the last of them asks for a number.
proof fn words_in_turn(d: Draft, ws: Seq<Seq<char>>, more: Seq<Seq<char>>, i: int)
    requires
        ws.len() > 0,
        0 <= i <= ws.len(),
        !asks_for_a_number(ws.last()),
    ensures
        apo::draft_after(d, ws + more, i) == apo::draft_after(
            apo::draft_after(d, ws, i),
            ws + more,
            ws.len() as int,
        ),
    decreases ws.len() - i,
{
    let all = ws + more;
    if i < ws.len() {
        assert(all[i] == ws[i]);
        words_say_one_thing(text::uppercase(ws[i]), EQBandType::BellBand);
        if i + 1 < ws.len() {
            assert(all[i + 1] == ws[i + 1]);
        } else {
            assert(ws[i] == ws.last());
        }
        match apo::word_meaning(text::uppercase(ws[i])) {
            Word::Off => words_in_turn(Draft { enabled: false, ..d }, ws, more, i + 1),
            Word::On => words_in_turn(Draft { enabled: true, ..d }, ws, more, i + 1),
            Word::Shape(shape) => words_in_turn(
                Draft { band_type: Some(shape), ..d },
                ws,
                more,
                i + 1,
            ),
            Word::Frequency => {
                match number::number_value(text::without_all(ws[i + 1], "Hz"@)) {
                    Some(f) => words_in_turn(
                        Draft { frequency: Some(f.to_integer()), ..d },
                        ws,
                        more,
                        i + 2,
                    ),
                    None => words_in_turn(d, ws, more, i + 2),
                }
            },
            Word::Gain => {
                match number::number_value(text::without_all(ws[i + 1], "dB"@)) {
                    Some(g) => words_in_turn(Draft { gain: g, ..d }, ws, more, i + 2),
                    None => words_in_turn(d, ws, more, i + 2),
                }
            },
            Word::Q => {
                match number::number_value(ws[i + 1]) {
                    Some(q) => words_in_turn(Draft { q: q, ..d }, ws, more, i + 2),
                    None => words_in_turn(d, ws, more, i + 2),
                }
            },
            Word::Other => words_in_turn(d, ws, more, i + 1),
        }
    }
}

proof fn line_is_its_words(ws: Seq<Seq<char>>)
    requires
        is_line(ws),
    ensures
        read(ws) == apo::drafted(apo::draft_after(apo::blank_draft(), ws, 0)),
{
    text_laws::words_of_spaced(ws);
    text_laws::spaced_is_tight(ws);
    text_laws::tight_text_stays(text_laws::spaced(ws));
}

proof fn longer_line(ws: Seq<Seq<char>>, more: Seq<Seq<char>>)
    requires
        is_line(ws),
        text_laws::all_solid(more),
        !asks_for_a_number(ws.last()),
    ensures
        is_line(ws + more),
        read(ws) == apo::drafted(apo::draft_after(apo::blank_draft(), ws, 0)),
        read(ws + more) == apo::drafted(
            apo::draft_after(
                apo::draft_after(apo::blank_draft(), ws, 0),
                ws + more,
                ws.len() as int,
            ),
        ),
{
    let all = ws + more;
    assert forall|i: int| 0 <= i < all.len() implies text_laws::is_solid(#[trigger] all[i]) by {
        if i < ws.len() {
            assert(all[i] == ws[i]);
        } else {
            assert(all[i] == more[i - ws.len()]);
        }
    }
    line_is_its_words(ws);
    line_is_its_words(all);
    words_in_turn(apo::blank_draft(), ws, more, 0);
}

/// What the last two words of a line say, the first of which asks for a number.
proof fn last_number_says(d: Draft, all: Seq<Seq<char>>, n: int)
    requires
        0 <= n,
        n + 2 == all.len(),
    ensures
        text::uppercase(all[n]) == "Q"@ ==> apo::draft_after(d, all, n) == (
        match number::number_value(all[n + 1]) {
            Some(x) => Draft { q: x, ..d },
            None => d,
        }),
        text::uppercase(all[n]) == "GAIN"@ ==> apo::draft_after(d, all, n) == (
        match number::number_value(text::without_all(all[n + 1], "dB"@)) {
            Some(x) => Draft { gain: x, ..d },
            None => d,
        }),
        text::uppercase(all[n]) == "FC"@ ==> apo::draft_after(d, all, n) == (
        match number::number_value(text::without_all(all[n + 1], "Hz"@)) {
            Some(x) => Draft { frequency: Some(x.to_integer()), ..d },
            None => d,
        }),
{
    words_say_one_thing(text::uppercase(all[n]), EQBandType::BellBand);
    assert(apo::draft_after(d, all, n + 2) == d);
    let g = number::number_value(text::without_all(all[n + 1], "dB"@));
    let f = number::number_value(text::without_all(all[n + 1], "Hz"@));
    let q = number::number_value(all[n + 1]);
    if let Some(x) = q {
        let e = Draft { q: x, ..d };
        assert(apo::draft_after(e, all, n + 2) == e);
    }
    if let Some(x) = g {
        let e = Draft { gain: x, ..d };
        assert(apo::draft_after(e, all, n + 2) == e);
    }
    if let Some(x) = f {
        let e = Draft { frequency: Some(x.to_integer()), ..d };
        assert(apo::draft_after(e, all, n + 2) == e);
    }
}

/// A Q at the end of a line sets the Q of the band that the line describes, whatever its shape is,
/// to the number after it, brought into the range from 0.1 to 10; everything else stays. A word
/// that is no number changes nothing.
pub proof fn last_q_counts(ws: Seq<Seq<char>>, q: Seq<char>, v: Seq<char>)
    requires
        is_line(ws),
        !asks_for_a_number(ws.last()),
        text::uppercase(q) == "Q"@,
        text_laws::is_solid(q),
        text_laws::is_solid(v),
    ensures
        read(ws) is Some <==> read(ws + seq![q, v]) is Some,
        (read(ws), read(ws + seq![q, v])) matches (Some(b), Some(c)) ==> {
            &&& c == (EqualiserBandConfig { q: c.q, ..b })
            &&& match number::number_value(v) {
                Some(x) => !x.nan() ==> is_q_of(c.q, x),
                None => c.q == b.q,
            }
        },
{
    let more = seq![q, v];
    assert forall|i: int| 0 <= i < more.len() implies text_laws::is_solid(#[trigger] more[i]) by {}
    longer_line(ws, more);
    let all = ws + more;
    let d = apo::draft_after(apo::blank_draft(), ws, 0);
    assert(all[ws.len() as int] == q);
    assert(all[ws.len() as int + 1] == v);
    last_number_says(d, all, ws.len() as int);
    if let Some(x) = number::number_value(v) {
        if !x.nan() {
            numbers_in_range_stay(x);
        }
    }
}

/// A gain at the end of a line sets the gain of the band that the line describes, whatever its
/// shape is, to the number after it, without `dB` and brought into the range from -12 to 12;
/// everything else stays. A word that is no number changes nothing.
pub proof fn last_gain_counts(ws: Seq<Seq<char>>, gain: Seq<char>, v: Seq<char>)
    requires
        is_line(ws),
        !asks_for_a_number(ws.last()),
        text::uppercase(gain) == "GAIN"@,
        text_laws::is_solid(gain),
        text_laws::is_solid(v),
    ensures
        read(ws) is Some <==> read(ws + seq![gain, v]) is Some,
        (read(ws), read(ws + seq![gain, v])) matches (Some(b), Some(c)) ==> {
            &&& c == (EqualiserBandConfig { gain: c.gain, ..b })
            &&& match number::number_value(text::without_all(v, "dB"@)) {
                Some(x) => !x.nan() ==> is_gain_of(c.gain, x),
                None => c.gain == b.gain,
            }
        },
{
    let more = seq![gain, v];
    assert forall|i: int| 0 <= i < more.len() implies text_laws::is_solid(#[trigger] more[i]) by {}
    longer_line(ws, more);
    let all = ws + more;
    let d = apo::draft_after(apo::blank_draft(), ws, 0);
    assert(all[ws.len() as int] == gain);
    assert(all[ws.len() as int + 1] == v);
    last_number_says(d, all, ws.len() as int);
    if let Some(x) = number::number_value(text::without_all(v, "dB"@)) {
        if !x.nan() {
            numbers_in_range_stay(x);
        }
    }
}

/// A frequency at the end of a line sets the frequency of the band that the line describes to the
/// integer nearest to the number after it, without `Hz` and brought into the range from 20 to
/// 20000; everything else stays. A word that is no number changes nothing.
pub proof fn last_frequency_counts(ws: Seq<Seq<char>>, fc: Seq<char>, v: Seq<char>)
    requires
        is_line(ws),
        !asks_for_a_number(ws.last()),
        text::uppercase(fc) == "FC"@,
        text_laws::is_solid(fc),
        text_laws::is_solid(v),
    ensures
        read(ws) is Some ==> read(ws + seq![fc, v]) is Some,
        (read(ws), read(ws + seq![fc, v])) matches (Some(b), Some(c)) ==> {
            &&& c == (EqualiserBandConfig { frequency: c.frequency, ..b })
            &&& match number::number_value(text::without_all(v, "Hz"@)) {
                Some(x) => !x.nan() ==> is_frequency_of(c.frequency, x),
                None => c.frequency == b.frequency,
            }
        },
{
    let more = seq![fc, v];
    assert forall|i: int| 0 <= i < more.len() implies text_laws::is_solid(#[trigger] more[i]) by {}
    longer_line(ws, more);
    let all = ws + more;
    let d = apo::draft_after(apo::blank_draft(), ws, 0);
    assert(all[ws.len() as int] == fc);
    assert(all[ws.len() as int + 1] == v);
    last_number_says(d, all, ws.len() as int);
    if let Some(x) = number::number_value(text::without_all(v, "Hz"@)) {
        if !x.nan() {
            frequency_is_nearest(x);
        }
    }
}

/// A shape at the end of a line is the one that the band has, and ON or OFF there says whether it
/// is enabled; everything else stays.
pub proof fn last_word_counts(ws: Seq<Seq<char>>, w: Seq<char>, shape: EQBandType)
    requires
        is_line(ws),
        !asks_for_a_number(ws.last()),
        text_laws::is_solid(w),
    ensures
        read(ws) matches Some(b) ==> {
            let longer = read(ws + seq![w]);
            let t = text::uppercase(w);
            &&& names_shape(t, shape) ==> longer == Some(
                EqualiserBandConfig { band_type: shape, ..b },
            )
            &&& t == "ON"@ ==> longer == Some(EqualiserBandConfig { enabled: true, ..b })
            &&& t == "OFF"@ ==> longer == Some(EqualiserBandConfig { enabled: false, ..b })
        },
{
    let more = seq![w];
    assert forall|i: int| 0 <= i < more.len() implies text_laws::is_solid(#[trigger] more[i]) by {}
    longer_line(ws, more);
    words_say_one_thing(text::uppercase(w), shape);
    let all = ws + more;
    let d = apo::draft_after(apo::blank_draft(), ws, 0);
    assert(all[ws.len() as int] == w);
    let e = match apo::word_meaning(text::uppercase(w)) {
        Word::Off => Draft { enabled: false, ..d },
        Word::On => Draft { enabled: true, ..d },
        Word::Shape(x) => Draft { band_type: Some(x), ..d },
        _ => d,
    };
    assert(apo::draft_after(e, all, all.len() as int) == e);
    apo_laws::keyword_letters();
}

/// What a line says of gain and Q when it names neither is in range.
proof fn nothing_said_is_in_range()
    ensures
        apo::clamped_q(Scalar { bits: DEFAULT_Q }) == (Scalar { bits: DEFAULT_Q }),
        apo::clamped_gain(Scalar { bits: 0 }).units() == 0,
{
    let zero = Scalar { bits: 0 };
    assert(zero.units() == 0);
    ends_of_gains();
    let q = Scalar { bits: DEFAULT_Q };
    apo::range_bounds();
    crate::scalar::positive_patterns_in_order(Scalar { bits: crate::eq::MIN_Q }, q);
    crate::scalar::positive_patterns_in_order(q, Scalar { bits: crate::eq::MAX_Q });
}

proof fn seven_words_say(ws: Seq<Seq<char>>, shape: EQBandType, v: Scalar)
    requires
        ws.len() == 7,
        apo::word_meaning(text::uppercase(ws[0])) == Word::Other,
        apo::word_meaning(text::uppercase(ws[1])) == Word::Other,
        apo::word_meaning(text::uppercase(ws[6])) == Word::Other,
        text::uppercase(ws[2]) == "ON"@,
        names_shape(text::uppercase(ws[3]), shape),
        text::uppercase(ws[4]) == "FC"@,
        number::number_value(text::without_all(ws[5], "Hz"@)) == Some(v),
    ensures
        apo::draft_after(apo::blank_draft(), ws, 0) == (Draft {
            band_type: Some(shape),
            frequency: Some(v.to_integer()),
            gain: Scalar { bits: 0 },
            q: Scalar { bits: DEFAULT_Q },
            enabled: true,
        }),
{
    words_say_one_thing(text::uppercase(ws[2]), shape);
    words_say_one_thing(text::uppercase(ws[3]), shape);
    words_say_one_thing(text::uppercase(ws[4]), shape);
    let d0 = apo::blank_draft();
    let d4 = Draft { band_type: Some(shape), ..d0 };
    let d6 = Draft { frequency: Some(v.to_integer()), ..d4 };
    assert(Draft { enabled: true, ..d0 } == d0);
    assert(apo::draft_after(d0, ws, 0) == apo::draft_after(d0, ws, 1));
    assert(apo::draft_after(d0, ws, 1) == apo::draft_after(d0, ws, 2));
    assert(apo::draft_after(d0, ws, 2) == apo::draft_after(d0, ws, 3));
    assert(apo::draft_after(d0, ws, 3) == apo::draft_after(d4, ws, 4));
    assert(apo::draft_after(d4, ws, 4) == apo::draft_after(d6, ws, 6));
    assert(apo::draft_after(d6, ws, 6) == apo::draft_after(d6, ws, 7));
    assert(apo::draft_after(d6, ws, 7) == d6);
}

/// A line that names a shape and a frequency and says nothing more describes a band of that shape
/// and frequency that is enabled, without gain and with a Q of 0.7, whatever the other words are,
/// as long as they say nothing.
pub proof fn shape_and_frequency_make_a_band(
    filter: Seq<char>,
    label: Seq<char>,
    on: Seq<char>,
    shape_word: Seq<char>,
    fc: Seq<char>,
    f: Seq<char>,
    hz: Seq<char>,
    shape: EQBandType,
    v: Scalar,
)
    requires
        is_line(seq![filter, label, on, shape_word, fc, f, hz]),
        apo::word_meaning(text::uppercase(filter)) == Word::Other,
        apo::word_meaning(text::uppercase(label)) == Word::Other,
        apo::word_meaning(text::uppercase(hz)) == Word::Other,
        text::uppercase(on) == "ON"@,
        names_shape(text::uppercase(shape_word), shape),
        text::uppercase(fc) == "FC"@,
        number::number_value(text::without_all(f, "Hz"@)) == Some(v),
        !v.nan(),
    ensures
        read(seq![filter, label, on, shape_word, fc, f, hz]) matches Some(b) && b.enabled
            && b.band_type == shape && is_frequency_of(b.frequency, v) && b.gain.units() == 0
            && b.q == (Scalar { bits: DEFAULT_Q }),
{
    let ws = seq![filter, label, on, shape_word, fc, f, hz];
    line_is_its_words(ws);
    seven_words_say(ws, shape, v);
    frequency_is_nearest(v);
    nothing_said_is_in_range();
}

/// A line that names a shape, a frequency and a Q describes a band with all three, whatever the
/// shape is: a high or low pass keeps its Q as any other does.
pub proof fn every_shape_keeps_its_q(
    filter: Seq<char>,
    label: Seq<char>,
    on: Seq<char>,
    shape_word: Seq<char>,
    fc: Seq<char>,
    f: Seq<char>,
    hz: Seq<char>,
    q: Seq<char>,
    v: Seq<char>,
    shape: EQBandType,
    x: Scalar,
    y: Scalar,
)
    requires
        is_line(seq![filter, label, on, shape_word, fc, f, hz]),
        apo::word_meaning(text::uppercase(filter)) == Word::Other,
        apo::word_meaning(text::uppercase(label)) == Word::Other,
        apo::word_meaning(text::uppercase(hz)) == Word::Other,
        text::uppercase(on) == "ON"@,
        names_shape(text::uppercase(shape_word), shape),
        text::uppercase(fc) == "FC"@,
        text::uppercase(q) == "Q"@,
        text_laws::is_solid(q),
        text_laws::is_solid(v),
        number::number_value(text::without_all(f, "Hz"@)) == Some(x),
        number::number_value(v) == Some(y),
        !x.nan(),
        !y.nan(),
    ensures
        read(seq![filter, label, on, shape_word, fc, f, hz, q, v]) matches Some(b) && b.enabled
            && b.band_type == shape && is_frequency_of(b.frequency, x) && b.gain.units() == 0
            && is_q_of(b.q, y),
{
    let ws = seq![filter, label, on, shape_word, fc, f, hz];
    shape_and_frequency_make_a_band(filter, label, on, shape_word, fc, f, hz, shape, x);
    words_say_one_thing(text::uppercase(hz), shape);
    assert(ws.last() == hz);
    last_q_counts(ws, q, v);
    assert(ws + seq![q, v] =~= seq![filter, label, on, shape_word, fc, f, hz, q, v]);
}

/// Words of which none names a shape leave a draft without one, and so it is with the frequency.
proof fn words_without(d: Draft, ws: Seq<Seq<char>>, i: int)
    ensures
        (forall|k: int|
            0 <= k < ws.len() ==> !(apo::word_meaning(
                text::uppercase(#[trigger] ws[k]),
            ) is Shape)) ==> apo::draft_after(d, ws, i).band_type == d.band_type,
        (forall|k: int|
            0 <= k < ws.len() ==> apo::word_meaning(text::uppercase(#[trigger] ws[k]))
                != Word::Frequency) ==> apo::draft_after(d, ws, i).frequency == d.frequency,
    decreases ws.len() - i,
{
    if 0 <= i < ws.len() {
        match apo::word_meaning(text::uppercase(ws[i])) {
            Word::Off => words_without(Draft { enabled: false, ..d }, ws, i + 1),
            Word::On => words_without(Draft { enabled: true, ..d }, ws, i + 1),
            Word::Shape(shape) => words_without(Draft { band_type: Some(shape), ..d }, ws, i + 1),
            Word::Frequency => if i + 1 < ws.len() {
                match number::number_value(text::without_all(ws[i + 1], "Hz"@)) {
                    Some(f) => words_without(
                        Draft { frequency: Some(f.to_integer()), ..d },
                        ws,
                        i + 2,
                    ),
                    None => words_without(d, ws, i + 2),
                }
            },
            Word::Gain => if i + 1 < ws.len() {
                match number::number_value(text::without_all(ws[i + 1], "dB"@)) {
                    Some(g) => words_without(Draft { gain: g, ..d }, ws, i + 2),
                    None => words_without(d, ws, i + 2),
                }
            },
            Word::Q => if i + 1 < ws.len() {
                match number::number_value(ws[i + 1]) {
                    Some(q) => words_without(Draft { q: q, ..d }, ws, i + 2),
                    None => words_without(d, ws, i + 2),
                }
            },
            Word::Other => words_without(d, ws, i + 1),
        }
    }
}

/// A line describes no band if it is a comment, has fewer than four words, or holds no word that
/// names a shape or none that asks for a frequency.
pub proof fn other_lines_describe_nothing(ws: Seq<Seq<char>>)
    requires
        text_laws::all_solid(ws),
    ensures
        ws.len() < 4 ==> read(ws) is None,
        ws.len() > 0 && ws[0][0] == '#' ==> read(ws) is None,
        (forall|k: int, shape: EQBandType|
            #![trigger ws[k], names_shape(text::uppercase(ws[k]), shape)]
            0 <= k < ws.len() ==> !names_shape(text::uppercase(ws[k]), shape)) ==> read(
            ws,
        ) is None,
        (forall|k: int| 0 <= k < ws.len() ==> text::uppercase(#[trigger] ws[k]) != "FC"@) ==> read(
            ws,
        ) is None,
{
    if ws.len() > 0 {
        text_laws::words_of_spaced(ws);
        text_laws::spaced_is_tight(ws);
        text_laws::tight_text_stays(text_laws::spaced(ws));
        if is_line(ws) {
            line_is_its_words(ws);
            words_without(apo::blank_draft(), ws, 0);
            assert forall|k: int| 0 <= k < ws.len() implies (apo::word_meaning(
                text::uppercase(#[trigger] ws[k]),
            ) == Word::Frequency <==> text::uppercase(ws[k]) == "FC"@) by {
                words_say_one_thing(text::uppercase(ws[k]), EQBandType::BellBand);
            }
            assert forall|k: int|
                0 <= k < ws.len() && (apo::word_meaning(
                    text::uppercase(#[trigger] ws[k]),
                ) is Shape) implies exists|shape: EQBandType|
                #[trigger] names_shape(text::uppercase(ws[k]), shape) by {
                let shape = apo::word_meaning(text::uppercase(ws[k]))->Shape_0;
                words_say_one_thing(text::uppercase(ws[k]), shape);
                assert(names_shape(text::uppercase(ws[k]), shape));
            }
        }
    }
}

proof fn lines_without_feed(line: Seq<char>, s: Seq<char>)
    requires
        forall|i: int| 0 <= i < s.len() ==> #[trigger] s[i] != '\n',
    ensures
        text::lines_after(line, s) == (if line.len() + s.len() == 0 {
            Seq::<Seq<char>>::empty()
        } else {
            seq![line + s]
        }),
    decreases s.len(),
{
    if s.len() > 0 {
        let rest = s.drop_first();
        assert forall|i: int| 0 <= i < rest.len() implies #[trigger] rest[i] != '\n' by {
            assert(rest[i] == s[i + 1]);
        }
        lines_without_feed(line.push(s[0]), rest);
        assert(line.push(s[0]) + rest =~= line + s);
    } else {
        assert(line + s =~= line);
    }
}

/// A text of one line holds the band that the line describes, and nothing if it describes none.
pub proof fn one_line_is_one_band(line: Seq<char>)
    requires
        forall|i: int| 0 <= i < line.len() ==> #[trigger] line[i] != '\n',
    ensures
        apo::bands_of_lines(text::lines(line)) == (match apo::band_of_line(line) {
            Some(band) => seq![band],
            None => Seq::empty(),
        }),
{
    let empty = Seq::<char>::empty();
    lines_without_feed(empty, line);
    assert(empty + line =~= line);
    let one = seq![line];
    assert(one.drop_last() =~= Seq::empty());
    assert(apo::bands_of_lines(one.drop_last()) =~= Seq::empty());
    assert(one.last() == line);
    if line.len() == 0 {
        assert(text::trim(line).len() == 0);
    } else {
        assert(apo::bands_of_lines(one) =~= (match apo::band_of_line(line) {
            Some(band) => seq![band],
            None => Seq::empty(),
        }));
    }
}

/// Of a band that is written out and read again, the shape, the frequency and what its shape is
/// written with come back: gain and Q of a bell and of the shelves, and the Q of a notch, each as
/// the number nearest to what one or two digits after the point say.
pub proof fn written_numbers_come_back(config: EqualiserBandConfig)
    requires
        config.enabled,
        config.band_type != EQBandType::NotSet,
    ensures
        ({
            let back = apo_laws::reread_band(config);
            let g = apo_laws::reread(config.gain, 1);
            let q = apo_laws::reread(config.q, 2);
            &&& back.enabled
            &&& back.band_type == config.band_type
            &&& 20 <= config.frequency <= 20000 ==> back.frequency == config.frequency
            &&& config.band_type == EQBandType::BellBand || config.band_type == EQBandType::LowShelf
                || config.band_type == EQBandType::HighShelf ==> (!g.nan() ==> is_gain_of(
                back.gain,
                g,
            )) && (!q.nan() ==> is_q_of(back.q, q))
            &&& config.band_type == EQBandType::NotchFilter ==> !q.nan() ==> is_q_of(back.q, q)
        }),
{
    let g = apo_laws::reread(config.gain, 1);
    let q = apo_laws::reread(config.q, 2);
    if !g.nan() {
        numbers_in_range_stay(g);
    }
    if !q.nan() {
        numbers_in_range_stay(q);
    }
}

/// How many of the bands are written out.
pub open spec fn written_count(configs: Seq<EqualiserBandConfig>) -> nat
    decreases configs.len(),
{
    if configs.len() == 0 {
        0
    } else {
        written_count(configs.drop_last()) + (if configs.last().enabled && configs.last().band_type
            != EQBandType::NotSet {
            1nat
        } else {
            0
        })
    }
}

/// The filters are numbered on, one by one: after some bands, the next that is written gets the
/// number after as many as were written of these. A band that is not enabled, or has no shape, is
/// not written and gets no number.
pub proof fn filters_are_numbered_on(
    number: nat,
    configs: Seq<EqualiserBandConfig>,
    more: Seq<EqualiserBandConfig>,
)
    ensures
        apo::filter_lines(number, configs + more) == apo::filter_lines(number, configs)
            + apo::filter_lines(number + written_count(configs), more),
        configs.len() == 1 && configs[0].enabled && configs[0].band_type != EQBandType::NotSet
            ==> apo::filter_lines(number, configs) == apo::filter_line(number, configs[0]).push(
            '\n',
        ),
        configs.len() == 1 && !(configs[0].enabled && configs[0].band_type != EQBandType::NotSet)
            ==> apo::filter_lines(number, configs).len() == 0,
    decreases configs.len(),
{
    let all = configs + more;
    if configs.len() == 0 {
        assert(all =~= more);
        assert(apo::filter_lines(number, configs) + apo::filter_lines(number, more)
            =~= apo::filter_lines(number, more));
    } else {
        let rest = configs.drop_first();
        assert(all[0] == configs[0]);
        assert(all.drop_first() =~= rest + more);
        count_from_the_front(configs);
        if apo::is_exported(configs[0]) {
            filters_are_numbered_on(number + 1, rest, more);
            assert(apo::filter_lines(number, all) =~= apo::filter_lines(number, configs)
                + apo::filter_lines(number + written_count(configs), more));
        } else {
            filters_are_numbered_on(number, rest, more);
        }
        if configs.len() == 1 {
            assert(apo::filter_lines(number + 1, rest) =~= Seq::empty());
            assert(apo::filter_line(number, configs[0]) + seq!['\n'] + apo::filter_lines(
                number + 1,
                rest,
            ) =~= apo::filter_line(number, configs[0]).push('\n'));
        }
    }
}

proof fn count_from_the_front(configs: Seq<EqualiserBandConfig>)
    requires
        configs.len() > 0,
    ensures
        written_count(configs) == written_count(configs.drop_first()) + (if apo::is_exported(
            configs[0],
        ) {
            1nat
        } else {
            0
        }),
    decreases configs.len(),
{
    if configs.len() > 1 {
        count_from_the_front(configs.drop_last());
        assert(configs.drop_last().drop_first() =~= configs.drop_first().drop_last());
        assert(configs.drop_first().last() == configs.last());
        assert(configs.drop_last()[0] == configs[0]);
    } else {
        assert(configs.drop_first() =~= Seq::empty());
        assert(configs.drop_last() =~= Seq::empty());
        assert(written_count(configs.drop_first()) == 0);
        assert(written_count(configs.drop_last()) == 0);
    }
}

/// What is written begins with two lines of comments and an empty one, and the filters follow, the
/// first with the number one.
pub proof fn filters_follow_the_header(
    bands: Seq<(crate::eq::EQBand, EqualiserBandConfig)>,
    title: Seq<char>,
)
    ensures
        apo::exported(bands, title) == "# Equalizer APO / REW Parametric EQ Configuration ("@
            + title + ")\n# Exported from BEACN Utility\n\n"@ + apo::filter_lines(
            1,
            Seq::new(bands.len(), |i: int| bands[i].1),
        ),
{
    assert(apo::configs_of(bands) =~= Seq::new(bands.len(), |i: int| bands[i].1));
}

/// A number is written with the digits that are nearest to it: no number with as many digits after
/// the point is nearer.
pub proof fn written_digits_are_nearest(x: Scalar, places: nat)
    ensures
        ({
            let n = x.scaled(places);
            let exact = x.size() * crate::scalar::ten_to(places);
            -(pow2(149) as int) <= 2 * (exact - n * pow2(149)) <= pow2(149)
        }),
{
    let one = pow2(149);
    lemma_pow2_pos(149);
    let exact = x.size() * crate::scalar::ten_to(places);
    vstd::arithmetic::div_mod::lemma_fundamental_div_mod(exact as int, one as int);
    vstd::arithmetic::div_mod::lemma_mod_bound(exact as int, one as int);
    let q = exact / one;
    let r = exact % one;
    assert(exact == q * one + r) by (nonlinear_arith)
        requires
            exact == one * q + r,
    ;
    assert((q + 1) * one == q * one + one) by (nonlinear_arith);
}

} // verus!
