//! The text format of Equalizer APO and Room EQ Wizard for the bands of an equaliser.

use vstd::prelude::*;
use vstd::string::StringExecFns;

use crate::eq::EQBand;
use crate::eq::EQBandType;
use crate::eq::EqualiserBandConfig;
use crate::eq::MAX_FREQUENCY;
use crate::eq::MAX_GAIN;
use crate::eq::MAX_Q;
use crate::eq::MIN_FREQUENCY;
use crate::eq::MIN_GAIN;
use crate::eq::MIN_Q;
use crate::number::parse_number;
use crate::number;
use crate::scalar::Scalar;
use crate::text::chars_of;
use crate::text::numeral;
use crate::text::remove_all;
use crate::text::same_text;
use crate::text::split_lines;
use crate::text::split_words;
use crate::text::string_of;
use crate::text::to_upper;
use crate::text::trimmed;
use crate::text;

verus! {

/// The bit pattern of 0.7, the Q of a filter that names none.
pub const DEFAULT_Q: u32 = 0x3F33_3333;

/// The abbreviation that the format has for a shape.
pub open spec fn shape_word(shape: EQBandType) -> Seq<char> {
    match shape {
        EQBandType::HighPassFilter => "HP"@,
        EQBandType::LowPassFilter => "LP"@,
        EQBandType::BellBand => "PK"@,
        EQBandType::LowShelf => "LSC"@,
        EQBandType::HighShelf => "HSC"@,
        EQBandType::NotchFilter => "NO"@,
        EQBandType::NotSet => ""@,
    }
}

/// Whether a band is written out: it is enabled and has a shape.
pub open spec fn is_exported(config: EqualiserBandConfig) -> bool {
    config.enabled && config.band_type != EQBandType::NotSet
}

/// Whether a filter of this shape is written with its gain.
pub open spec fn writes_gain(shape: EQBandType) -> bool {
    shape == EQBandType::BellBand || shape == EQBandType::LowShelf || shape == EQBandType::HighShelf
}

/// Whether a filter of this shape is written with its Q.
pub open spec fn writes_q(shape: EQBandType) -> bool {
    writes_gain(shape) || shape == EQBandType::NotchFilter
}

/// The gain of a band as it is written.
pub open spec fn gain_text(config: EqualiserBandConfig) -> Seq<char> {
    if writes_gain(config.band_type) {
        " Gain "@ + config.gain.fixed(1, false) + " dB"@
    } else {
        seq![]
    }
}

/// The Q of a band as it is written.
pub open spec fn q_text(config: EqualiserBandConfig) -> Seq<char> {
    if writes_q(config.band_type) {
        " Q "@ + config.q.fixed(2, false)
    } else {
        seq![]
    }
}

/// The line of a band, the `number`th one that is written, without the line feed.
pub open spec fn filter_line(number: nat, config: EqualiserBandConfig) -> Seq<char> {
    let shape = shape_word(config.band_type);
    let frequency = text::decimal(config.frequency as nat);
    "Filter "@ + text::decimal(number) + ": ON "@ + shape + " Fc "@ + frequency + " Hz"@
        + gain_text(config) + q_text(config)
}

/// The lines of `configs`, of which the first that is written gets the number `number`.
pub open spec fn filter_lines(number: nat, configs: Seq<EqualiserBandConfig>) -> Seq<char>
    decreases configs.len(),
{
    if configs.len() == 0 {
        seq![]
    } else if is_exported(configs[0]) {
        filter_line(number, configs[0]) + seq!['\n'] + filter_lines(
            number + 1,
            configs.drop_first(),
        )
    } else {
        filter_lines(number, configs.drop_first())
    }
}

/// What stands above the filters.
pub open spec fn header(title: Seq<char>) -> Seq<char> {
    "# Equalizer APO / REW Parametric EQ Configuration ("@ + title
        + ")\n# Exported from BEACN Utility\n\n"@
}

/// What each of `bands` is set to.
pub open spec fn configs_of(bands: Seq<(EQBand, EqualiserBandConfig)>) -> Seq<
    EqualiserBandConfig,
> {
    bands.map_values(|b: (EQBand, EqualiserBandConfig)| b.1)
}

/// The whole text for `bands`.
pub open spec fn exported(bands: Seq<(EQBand, EqualiserBandConfig)>, title: Seq<char>) -> Seq<
    char,
> {
    header(title) + filter_lines(1, configs_of(bands))
}

fn abbreviation(shape: EQBandType) -> (r: &'static str)
    ensures
        r@ == shape_word(shape),
{
    match shape {
        EQBandType::HighPassFilter => "HP",
        EQBandType::LowPassFilter => "LP",
        EQBandType::BellBand => "PK",
        EQBandType::LowShelf => "LSC",
        EQBandType::HighShelf => "HSC",
        EQBandType::NotchFilter => "NO",
        EQBandType::NotSet => "",
    }
}

fn push_number(out: &mut String, n: u128)
    ensures
        final(out)@ == old(out)@ + text::decimal(n as nat),
{
    let digits = numeral(n);
    out.append(string_of(digits.as_slice()).as_str());
}

fn push_filter(out: &mut String, number: u128, config: &EqualiserBandConfig)
    ensures
        final(out)@ == old(out)@ + filter_line(number as nat, *config),
{
    let ghost start = out@;
    out.append("Filter ");
    push_number(out, number);
    out.append(": ON ");
    out.append(abbreviation(config.band_type));
    out.append(" Fc ");
    push_number(out, config.frequency as u128);
    out.append(" Hz");
    let ghost upto = out@;
    match config.band_type {
        EQBandType::BellBand | EQBandType::LowShelf | EQBandType::HighShelf => {
            out.append(" Gain ");
            out.append(config.gain.to_fixed(1, false).as_str());
            out.append(" dB");
            assert(out@ =~= upto + gain_text(*config));
            out.append(" Q ");
            out.append(config.q.to_fixed(2, false).as_str());
        },
        EQBandType::NotchFilter => {
            assert(out@ =~= upto + gain_text(*config));
            out.append(" Q ");
            out.append(config.q.to_fixed(2, false).as_str());
        },
        _ => {
            assert(out@ =~= upto + gain_text(*config) + q_text(*config));
        },
    }
    assert(out@ =~= upto + gain_text(*config) + q_text(*config));
    assert(out@ =~= start + filter_line(number as nat, *config));
}

/// Writes the bands that are enabled and have a shape, one line each, below a header that names
/// `title`.
pub fn export_apo_eq(bands: &[(EQBand, EqualiserBandConfig)], title: &str) -> (r: String)
    ensures
        r@ == exported(bands@, title@),
{
    let mut out = String::new();
    out.append("# Equalizer APO / REW Parametric EQ Configuration (");
    out.append(title);
    out.append(")\n# Exported from BEACN Utility\n\n");
    assert(out@ =~= header(title@));
    let ghost configs = configs_of(bands@);
    let mut filter_num: u128 = 1;
    let mut i: usize = 0;
    assert(configs.skip(0) =~= configs);
    while i < bands.len()
        invariant
            i <= bands@.len(),
            configs == configs_of(bands@),
            1 <= filter_num <= i + 1,
            out@ + filter_lines(filter_num as nat, configs.skip(i as int)) == exported(
                bands@,
                title@,
            ),
        decreases bands@.len() - i,
    {
        let config = bands[i].1;
        let ghost before = out@;
        let ghost rest = configs.skip(i + 1);
        assert(configs.skip(i as int).drop_first() =~= rest);
        assert(configs.skip(i as int)[0] == config);
        if config.enabled && config.band_type != EQBandType::NotSet {
            push_filter(&mut out, filter_num, &config);
            out.push('\n');
            assert(before + (filter_line(filter_num as nat, config) + seq!['\n'] + filter_lines(
                filter_num as nat + 1,
                rest,
            )) =~= out@ + filter_lines(filter_num as nat + 1, rest));
            filter_num = filter_num + 1;
        }
        i = i + 1;
    }
    assert(configs.skip(i as int).len() == 0);
    assert(out@ + Seq::<char>::empty() =~= out@);
    out
}

/// What a word of a filter's line says.
#[derive(Clone, Copy, Debug, PartialEq, Eq, Structural)]
pub enum Word {
    Off,
    On,
    Shape(EQBandType),
    /// The next word is the frequency.
    Frequency,
    /// The next word is the gain.
    Gain,
    /// The next word is the Q.
    Q,
    Other,
}

/// What a word in large letters says.
pub open spec fn word_meaning(t: Seq<char>) -> Word {
    if t == "OFF"@ {
        Word::Off
    } else if t == "ON"@ {
        Word::On
    } else if t == "PK"@ || t == "PEAK"@ || t == "BELL"@ {
        Word::Shape(EQBandType::BellBand)
    } else if t == "HP"@ || t == "HIGHPASS"@ || t == "HPQ"@ {
        Word::Shape(EQBandType::HighPassFilter)
    } else if t == "LP"@ || t == "LOWPASS"@ || t == "LPQ"@ {
        Word::Shape(EQBandType::LowPassFilter)
    } else if t == "LSC"@ || t == "LOWSHELF"@ {
        Word::Shape(EQBandType::LowShelf)
    } else if t == "HSC"@ || t == "HIGHSHELF"@ {
        Word::Shape(EQBandType::HighShelf)
    } else if t == "NO"@ || t == "NOTCH"@ {
        Word::Shape(EQBandType::NotchFilter)
    } else if t == "FC"@ {
        Word::Frequency
    } else if t == "GAIN"@ {
        Word::Gain
    } else if t == "Q"@ {
        Word::Q
    } else {
        Word::Other
    }
}

/// What a word in large letters says.
pub fn meaning(t: &str) -> (r: Word)
    ensures
        r == word_meaning(t@),
{
    if same_text(t, "OFF") {
        Word::Off
    } else if same_text(t, "ON") {
        Word::On
    } else if same_text(t, "PK") || same_text(t, "PEAK") || same_text(t, "BELL") {
        Word::Shape(EQBandType::BellBand)
    } else if same_text(t, "HP") || same_text(t, "HIGHPASS") || same_text(t, "HPQ") {
        Word::Shape(EQBandType::HighPassFilter)
    } else if same_text(t, "LP") || same_text(t, "LOWPASS") || same_text(t, "LPQ") {
        Word::Shape(EQBandType::LowPassFilter)
    } else if same_text(t, "LSC") || same_text(t, "LOWSHELF") {
        Word::Shape(EQBandType::LowShelf)
    } else if same_text(t, "HSC") || same_text(t, "HIGHSHELF") {
        Word::Shape(EQBandType::HighShelf)
    } else if same_text(t, "NO") || same_text(t, "NOTCH") {
        Word::Shape(EQBandType::NotchFilter)
    } else if same_text(t, "FC") {
        Word::Frequency
    } else if same_text(t, "GAIN") {
        Word::Gain
    } else if same_text(t, "Q") {
        Word::Q
    } else {
        Word::Other
    }
}

/// What the words of a line have said of its filter so far.
#[derive(Clone, Copy, Debug, PartialEq, Eq, Structural)]
pub struct Draft {
    pub band_type: Option<EQBandType>,
    pub frequency: Option<u32>,
    pub gain: Scalar,
    pub q: Scalar,
    pub enabled: bool,
}

/// What holds of a filter before any word.
pub open spec fn blank_draft() -> Draft {
    Draft {
        band_type: None,
        frequency: None,
        gain: Scalar { bits: 0 },
        q: Scalar { bits: DEFAULT_Q },
        enabled: true,
    }
}

/// What the words from the place `i` on make of `draft`. A word that asks for a number takes the
/// next word for it, whether or not that stands for a number; as the last word of a line it says
/// nothing.
pub open spec fn draft_after(draft: Draft, line: Seq<Seq<char>>, i: int) -> Draft
    decreases line.len() - i,
{
    if i < 0 || i >= line.len() {
        draft
    } else {
        match word_meaning(text::uppercase(line[i])) {
            Word::Off => draft_after(Draft { enabled: false, ..draft }, line, i + 1),
            Word::On => draft_after(Draft { enabled: true, ..draft }, line, i + 1),
            Word::Shape(shape) => draft_after(
                Draft { band_type: Some(shape), ..draft },
                line,
                i + 1,
            ),
            Word::Frequency => if i + 1 < line.len() {
                match number::number_value(text::without_all(line[i + 1], "Hz"@)) {
                    Some(f) => draft_after(
                        Draft { frequency: Some(f.to_integer()), ..draft },
                        line,
                        i + 2,
                    ),
                    None => draft_after(draft, line, i + 2),
                }
            } else {
                draft
            },
            Word::Gain => if i + 1 < line.len() {
                match number::number_value(text::without_all(line[i + 1], "dB"@)) {
                    Some(g) => draft_after(Draft { gain: g, ..draft }, line, i + 2),
                    None => draft_after(draft, line, i + 2),
                }
            } else {
                draft
            },
            Word::Q => if i + 1 < line.len() {
                match number::number_value(line[i + 1]) {
                    Some(q) => draft_after(Draft { q: q, ..draft }, line, i + 2),
                    None => draft_after(draft, line, i + 2),
                }
            } else {
                draft
            },
            Word::Other => draft_after(draft, line, i + 1),
        }
    }
}

/// `f` brought into the range of frequencies.
pub open spec fn clamped_frequency(f: u32) -> u32 {
    if f < MIN_FREQUENCY {
        MIN_FREQUENCY
    } else if f > MAX_FREQUENCY {
        MAX_FREQUENCY
    } else {
        f
    }
}

/// `gain` brought into the range of gains.
pub open spec fn clamped_gain(gain: Scalar) -> Scalar {
    gain.clamped(Scalar { bits: MIN_GAIN }, Scalar { bits: MAX_GAIN })
}

/// `q` brought into the range of Q.
pub open spec fn clamped_q(q: Scalar) -> Scalar {
    q.clamped(Scalar { bits: MIN_Q }, Scalar { bits: MAX_Q })
}

/// The band that a draft describes: there is one if shape and frequency are known.
pub open spec fn drafted(draft: Draft) -> Option<EqualiserBandConfig> {
    match (draft.band_type, draft.frequency) {
        (Some(band_type), Some(frequency)) => Some(
            EqualiserBandConfig {
                enabled: draft.enabled,
                band_type,
                frequency: clamped_frequency(frequency),
                gain: clamped_gain(draft.gain),
                q: clamped_q(draft.q),
            },
        ),
        _ => None,
    }
}

/// The band that a line describes. Comments and lines of fewer than four words describe none.
pub open spec fn band_of_line(line: Seq<char>) -> Option<EqualiserBandConfig> {
    let content = text::trim(line);
    if content.len() == 0 || content[0] == '#' || text::words(content).len() < 4 {
        None
    } else {
        drafted(draft_after(blank_draft(), text::words(content), 0))
    }
}

/// The bands that the lines describe, in order.
pub open spec fn bands_of_lines(all: Seq<Seq<char>>) -> Seq<EqualiserBandConfig>
    decreases all.len(),
{
    if all.len() == 0 {
        seq![]
    } else {
        let before = bands_of_lines(all.drop_last());
        match band_of_line(all.last()) {
            Some(band) => before.push(band),
            None => before,
        }
    }
}

/// `gain` brought into the range of gains.
pub fn clamp_gain(gain: Scalar) -> (r: Scalar)
    ensures
        r == clamped_gain(gain),
{
    proof {
        range_bounds();
    }
    gain.clamp(Scalar { bits: MIN_GAIN }, Scalar { bits: MAX_GAIN })
}

/// `q` brought into the range of Q.
pub fn clamp_q(q: Scalar) -> (r: Scalar)
    ensures
        r == clamped_q(q),
{
    proof {
        range_bounds();
    }
    q.clamp(Scalar { bits: MIN_Q }, Scalar { bits: MAX_Q })
}

/// The ends of the ranges are numbers, and in order.
pub proof fn range_bounds()
    ensures
        !(Scalar { bits: MIN_GAIN }).nan(),
        !(Scalar { bits: MAX_GAIN }).nan(),
        (Scalar { bits: MIN_GAIN }).units() < (Scalar { bits: MAX_GAIN }).units(),
        !(Scalar { bits: MIN_Q }).nan(),
        !(Scalar { bits: MAX_Q }).nan(),
        (Scalar { bits: MIN_Q }).units() < (Scalar { bits: MAX_Q }).units(),
{
    crate::scalar::positive_patterns_in_order(
        Scalar { bits: MIN_Q },
        Scalar { bits: MAX_Q },
    );
    crate::scalar::positive_patterns_in_order(Scalar { bits: 0 }, Scalar { bits: MAX_GAIN });
}

fn read_line(line: &[char]) -> (r: Option<EqualiserBandConfig>)
    ensures
        r == band_of_line(line@),
{
    let content = trimmed(line);
    if content.len() == 0 || content[0] == '#' {
        return None;
    }
    let tokens = split_words(content);
    let ghost all = text::words(text::trim(line@));
    assert(text::views(tokens@).len() == tokens@.len());
    if tokens.len() < 4 {
        return None;
    }
    let mut draft = Draft {
        band_type: None,
        frequency: None,
        gain: Scalar { bits: 0 },
        q: Scalar { bits: DEFAULT_Q },
        enabled: true,
    };
    let mut i: usize = 0;
    while i < tokens.len()
        invariant
            i <= tokens@.len(),
            text::views(tokens@) == all,
            draft_after(blank_draft(), all, 0) == draft_after(draft, all, i as int),
        decreases tokens@.len() - i,
    {
        assert(all[i as int] == tokens@[i as int]@);
        let t = to_upper(tokens[i].as_str());
        match meaning(t.as_str()) {
            Word::Off => {
                draft.enabled = false;
            },
            Word::On => {
                draft.enabled = true;
            },
            Word::Shape(shape) => {
                draft.band_type = Some(shape);
            },
            Word::Frequency => {
                if i + 1 < tokens.len() {
                    assert(all[i + 1] == tokens@[i + 1]@);
                    proof {
                        reveal_strlit("Hz");
                    }
                    let digits = remove_all(chars_of(tokens[i + 1].as_str()).as_slice(), "Hz");
                    if let Some(f) = parse_number(digits.as_str()) {
                        draft.frequency = Some(f.round_to_integer());
                    }
                    i = i + 1;
                }
            },
            Word::Gain => {
                if i + 1 < tokens.len() {
                    assert(all[i + 1] == tokens@[i + 1]@);
                    proof {
                        reveal_strlit("dB");
                    }
                    let digits = remove_all(chars_of(tokens[i + 1].as_str()).as_slice(), "dB");
                    if let Some(g) = parse_number(digits.as_str()) {
                        draft.gain = g;
                    }
                    i = i + 1;
                }
            },
            Word::Q => {
                if i + 1 < tokens.len() {
                    assert(all[i + 1] == tokens@[i + 1]@);
                    if let Some(q) = parse_number(tokens[i + 1].as_str()) {
                        draft.q = q;
                    }
                    i = i + 1;
                }
            },
            Word::Other => {},
        }
        i = i + 1;
    }
    match (draft.band_type, draft.frequency) {
        (Some(band_type), Some(f)) => {
            let frequency: u32 = if f < MIN_FREQUENCY {
                MIN_FREQUENCY
            } else if f > MAX_FREQUENCY {
                MAX_FREQUENCY
            } else {
                f
            };
            Some(
                EqualiserBandConfig {
                    enabled: draft.enabled,
                    band_type,
                    frequency,
                    gain: clamp_gain(draft.gain),
                    q: clamp_q(draft.q),
                },
            )
        },
        _ => None,
    }
}

/// Reads the bands that `text` describes.
pub fn import_apo_eq(text: &str) -> (r: Vec<EqualiserBandConfig>)
    ensures
        r@ == bands_of_lines(text::lines(text@)),
{
    let all = split_lines(chars_of(text).as_slice());
    let ghost every = text::lines(text@);
    let mut results: Vec<EqualiserBandConfig> = Vec::new();
    let mut i: usize = 0;
    assert(every.take(0) =~= seq![]);
    while i < all.len()
        invariant
            i <= all@.len(),
            text::char_views(all@) == every,
            results@ == bands_of_lines(every.take(i as int)),
        decreases all@.len() - i,
    {
        assert(every[i as int] == all@[i as int]@);
        assert(every.take(i + 1).drop_last() =~= every.take(i as int));
        assert(every.take(i + 1).last() == every[i as int]);
        if let Some(band) = read_line(all[i].as_slice()) {
            results.push(band);
        }
        i = i + 1;
    }
    assert(every.take(i as int) =~= every);
    results
}

} // verus!
