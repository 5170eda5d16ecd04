//! What holds of writing bands out and reading them again.

use vstd::prelude::*;

use crate::apo::DEFAULT_Q;
use crate::apo::Draft;
use crate::apo::Word;
use crate::apo;
use crate::decimal_laws;
use crate::eq::EQBand;
use crate::eq::EQBandType;
use crate::eq::EqualiserBandConfig;
use crate::eq::MAX_FREQUENCY;
use crate::eq::MAX_GAIN;
use crate::eq::MAX_Q;
use crate::eq::MIN_FREQUENCY;
use crate::eq::MIN_GAIN;
use crate::eq::MIN_Q;
use crate::number;
use crate::scalar::Scalar;
use crate::scalar;
use crate::text;
use crate::text_laws;

verus! {

proof fn digits_value_of_sum(a: Seq<char>, b: Seq<char>)
    ensures
        text::digits_value(a + b) == text::digits_value(a) * scalar::ten_to(b.len())
            + text::digits_value(b),
    decreases b.len(),
{
    if b.len() == 0 {
        assert(a + b =~= a);
        assert(text::digits_value(a) * 1 == text::digits_value(a));
    } else {
        let s = a + b;
        assert(s.drop_last() =~= a + b.drop_last());
        assert(s.last() == b.last());
        digits_value_of_sum(a, b.drop_last());
        let x = text::digits_value(a);
        let y = scalar::ten_to((b.len() - 1) as nat);
        assert((x * y) * 10 == x * (10 * y)) by (nonlinear_arith);
    }
}

proof fn last_digits_stand_for(n: nat, places: nat)
    requires
        n < scalar::ten_to(places),
    ensures
        scalar::last_digits(n, places).len() == places,
        text::all_digits(scalar::last_digits(n, places)),
        text::digits_value(scalar::last_digits(n, places)) == n,
    decreases places,
{
    let d = scalar::last_digits(n, places);
    if places > 0 {
        let front = scalar::last_digits(n / 10, (places - 1) as nat);
        last_digits_stand_for(n / 10, (places - 1) as nat);
        assert(d.drop_last() =~= front);
        assert forall|i: int| 0 <= i < d.len() implies text::is_digit(#[trigger] d[i]) by {
            if i < front.len() {
                assert(d[i] == front[i]);
            }
        }
    }
}

proof fn ten_to_positive(places: nat)
    ensures
        scalar::ten_to(places) > 0,
    decreases places,
{
    if places > 0 {
        ten_to_positive((places - 1) as nat);
    }
}

/// The number that is read in the numeral of `x` with `places` digits after the point: the one
/// nearest to what the numeral says.
pub open spec fn reread(x: Scalar, places: nat) -> Scalar {
    if x.nan() {
        Scalar { bits: 0x7FC0_0000 }
    } else if x.infinite() {
        number::signed(x.negative(), 0x7F80_0000)
    } else {
        number::signed(
            x.negative(),
            number::nearest_pattern(
                number::numerator(x.scaled(places), -places),
                number::denominator(-places),
            ),
        )
    }
}

/// A numeral with a sign stands for what it stands for without, with the sign.
proof fn minus_is_a_sign(s: Seq<char>)
    ensures
        number::without_sign(seq!['-'] + s) == s,
        number::has_minus(seq!['-'] + s),
{
    assert((seq!['-'] + s).drop_first() =~= s);
}

/// Every number that is written out is read again, as the number nearest to what is written.
pub proof fn written_numbers_are_read(x: Scalar, places: nat)
    ensures
        number::number_value(x.fixed(places, false)) == Some(reread(x, places)),
{
    reveal_strlit("inf");
    reveal_strlit("infinity");
    reveal_strlit("nan");
    if x.nan() {
        let s = x.fixed(places, false);
        assert(s.skip(0) =~= s);
        assert(s.take(0) =~= Seq::empty());
        assert(number::leading_digits(s) == 0);
        assert(number::numeral_of(s) is None);
        assert(text::ascii_lowercase(s) =~= "nan"@);
        assert(text::ascii_lowercase(s).len() == 3);
        assert(text::ascii_lowercase(s)[0] == 'n');
    } else {
        let t = x.size_numeral(places);
        minus_is_a_sign(t);
        if x.infinite() {
            assert(t.skip(0) =~= t);
            assert(t.take(0) =~= Seq::empty());
            assert(number::leading_digits(t) == 0);
            assert(number::numeral_of(t) is None);
            assert(text::ascii_lowercase(t) =~= "inf"@);
        } else {
            let q = x.scaled(places);
            let p = scalar::ten_to(places);
            ten_to_positive(places);
            let a = text::decimal(q / p);
            let b = scalar::last_digits(q % p, places);
            number::decimal_stands_for(q / p);
            last_digits_stand_for(q % p, places);
            if places == 0 {
                number::digits_are_a_numeral(a);
            } else {
                number::digits_and_point_are_a_numeral(a, b);
            }
            digits_value_of_sum(a, b);
            vstd::arithmetic::div_mod::lemma_fundamental_div_mod(q as int, p as int);
            assert((q / p) * p == p * (q / p)) by (nonlinear_arith);
        }
    }
}

/// What is read of a band that was written out.
pub open spec fn reread_band(config: EqualiserBandConfig) -> EqualiserBandConfig {
    EqualiserBandConfig {
        enabled: true,
        band_type: config.band_type,
        frequency: apo::clamped_frequency(config.frequency),
        gain: if apo::writes_gain(config.band_type) {
            apo::clamped_gain(reread(config.gain, 1))
        } else {
            apo::clamped_gain(Scalar { bits: 0 })
        },
        q: if apo::writes_q(config.band_type) {
            apo::clamped_q(reread(config.q, 2))
        } else {
            apo::clamped_q(Scalar { bits: DEFAULT_Q })
        },
    }
}

/// What is read of the bands that were written out, in order.
pub open spec fn reread_bands(configs: Seq<EqualiserBandConfig>) -> Seq<EqualiserBandConfig>
    decreases configs.len(),
{
    if configs.len() == 0 {
        seq![]
    } else if apo::is_exported(configs[0]) {
        seq![reread_band(configs[0])] + reread_bands(configs.drop_first())
    } else {
        reread_bands(configs.drop_first())
    }
}

/// The words that follow the frequency in a filter's line.
spec fn last_words(config: EqualiserBandConfig) -> Seq<Seq<char>> {
    if apo::writes_gain(config.band_type) {
        seq!["Gain"@, config.gain.fixed(1, false), "dB"@, "Q"@, config.q.fixed(2, false)]
    } else if apo::writes_q(config.band_type) {
        seq!["Q"@, config.q.fixed(2, false)]
    } else {
        seq![]
    }
}

/// The words of a filter's line.
spec fn filter_words(number: nat, config: EqualiserBandConfig) -> Seq<Seq<char>> {
    seq![
        "Filter"@,
        text::decimal(number) + seq![':'],
        "ON"@,
        apo::shape_word(config.band_type),
        "Fc"@,
        text::decimal(config.frequency as nat),
        "Hz"@,
    ] + last_words(config)
}

/// Whether `s` holds only what numerals are made of.
spec fn is_numeral_text(s: Seq<char>) -> bool {
    s.len() > 0 && forall|i: int|
        0 <= i < s.len() ==> text::is_digit(
            #[trigger] s[i],
        ) || s[i] == '.' || s[i] == '-' || s[i] == 'i'
            || s[i] == 'n' || s[i] == 'f' || s[i] == 'N' || s[i] == 'a'
}

proof fn fixed_is_numeral_text(x: Scalar, places: nat)
    ensures
        is_numeral_text(x.fixed(places, false)),
{
    let s = x.fixed(places, false);
    if !x.nan() && !x.infinite() {
        let q = x.scaled(places);
        let p = scalar::ten_to(places);
        ten_to_positive(places);
        let a = text::decimal(q / p);
        let b = scalar::last_digits(q % p, places);
        number::decimal_stands_for(q / p);
        last_digits_stand_for(q % p, places);
        let t = x.size_numeral(places);
        if places == 0 {
            assert(q / p == q) by (nonlinear_arith)
                requires
                    p == 1,
            ;
        }
        assert forall|i: int| 0 <= i < t.len() implies text::is_digit(
            #[trigger] t[i],
        ) || t[i] == '.' by {
            if i < a.len() {
                assert(t[i] == a[i]);
            } else if i > a.len() {
                assert(t[i] == b[i - a.len() - 1]);
            }
        }
        if x.negative() {
            assert(s =~= seq!['-'] + t);
            assert forall|i: int| 0 < i < s.len() implies s[i] == #[trigger] t[i - 1] by {}
            assert forall|i: int| 0 <= i < s.len() implies text::is_digit(
                #[trigger] s[i],
            ) || s[i] == '.'
                || s[i] == '-' by {
                if i > 0 {
                    assert(s[i] == t[i - 1]);
                }
            }
        }
    }
}

proof fn decimal_is_numeral_text(n: nat)
    ensures
        is_numeral_text(text::decimal(n)),
{
    number::decimal_stands_for(n);
}

proof fn numeral_text_is_solid(s: Seq<char>)
    requires
        is_numeral_text(s),
    ensures
        text_laws::is_solid(s),
        text::without_all(s, "Hz"@) == s,
        text::without_all(s, "dB"@) == s,
{
    reveal_strlit("Hz");
    reveal_strlit("dB");
    text_laws::nothing_to_remove(s, "Hz"@);
    text_laws::nothing_to_remove(s, "dB"@);
}

proof fn filter_words_are_solid(number: nat, config: EqualiserBandConfig)
    requires
        config.band_type != EQBandType::NotSet,
    ensures
        text_laws::all_solid(filter_words(number, config)),
{
    reveal_strlit("Filter");
    reveal_strlit("ON");
    reveal_strlit("HP");
    reveal_strlit("LP");
    reveal_strlit("PK");
    reveal_strlit("LSC");
    reveal_strlit("HSC");
    reveal_strlit("NO");
    reveal_strlit("Fc");
    reveal_strlit("Hz");
    reveal_strlit("Gain");
    reveal_strlit("dB");
    reveal_strlit("Q");
    decimal_is_numeral_text(number);
    decimal_is_numeral_text(config.frequency as nat);
    fixed_is_numeral_text(config.gain, 1);
    fixed_is_numeral_text(config.q, 2);
    numeral_text_is_solid(text::decimal(number));
    numeral_text_is_solid(text::decimal(config.frequency as nat));
    numeral_text_is_solid(config.gain.fixed(1, false));
    numeral_text_is_solid(config.q.fixed(2, false));
    let w = text::decimal(number) + seq![':'];
    assert(text_laws::is_solid(w)) by {
        assert forall|i: int| 0 <= i < w.len() implies !text::white_space(#[trigger] w[i]) by {
            if i < text::decimal(number).len() {
                assert(w[i] == text::decimal(number)[i]);
            }
        }
    }
    assert(text_laws::is_solid("Filter"@));
    assert(text_laws::is_solid("ON"@));
    assert(text_laws::is_solid(apo::shape_word(config.band_type)));
    assert(text_laws::is_solid("Fc"@));
    assert(text_laws::is_solid("Hz"@));
    assert(text_laws::is_solid("Gain"@));
    assert(text_laws::is_solid("dB"@));
    assert(text_laws::is_solid("Q"@));
}

proof fn spaced_unfolds(w: Seq<char>, rest: Seq<Seq<char>>)
    requires
        rest.len() > 0,
    ensures
        text_laws::spaced(seq![w] + rest) == w + seq![' '] + text_laws::spaced(rest),
{
    let all = seq![w] + rest;
    assert(all.drop_first() =~= rest);
}

proof fn regroup(p: Seq<char>, q: Seq<char>, r: Seq<char>)
    ensures
        p + q + r == p + (q + r),
{
    assert(p + q + r =~= p + (q + r));
}

/// The pieces of a filter's line, joined at the spaces.
proof fn pieces_join(
    n: Seq<char>,
    shape: Seq<char>,
    f: Seq<char>,
    after: Seq<char>,
)
    ensures
        "Filter "@ + n + ": ON "@ + shape + " Fc "@ + f + " Hz"@ + after == "Filter"@ + seq![' ']
            + (
        n + seq![':'] + seq![' '] + ("ON"@ + seq![' '] + (shape + seq![' '] + ("Fc"@ + seq![' '] + (
        f + seq![' '] + ("Hz"@ + after)))))),
{
    let sp = seq![' '];
    let colon = seq![':'];
    let (filter, on, fc, hz) = ("Filter"@, "ON"@, "Fc"@, "Hz"@);
    assert("Filter "@ =~= filter + sp && ": ON "@ =~= colon + sp + (on + sp) && " Fc "@ =~= sp + (fc
        + sp) && " Hz"@ =~= sp + hz) by {
        reveal_strlit("Filter ");
        reveal_strlit("Filter");
        reveal_strlit(": ON ");
        reveal_strlit("ON");
        reveal_strlit(" Fc ");
        reveal_strlit("Fc");
        reveal_strlit(" Hz");
        reveal_strlit("Hz");
    }
    let t6 = f + sp + (hz + after);
    let t5 = fc + sp + t6;
    let t4 = shape + sp + t5;
    let t3 = on + sp + t4;
    let t2 = n + colon + sp + t3;
    let a6 = "Filter "@ + n + ": ON "@ + shape + " Fc "@;
    regroup(a6 + f, " Hz"@, after);
    regroup(sp, hz, after);
    regroup(a6, f, sp + (hz + after));
    regroup(f, sp, hz + after);
    assert(a6 + f + " Hz"@ + after == a6 + t6);
    let a4 = "Filter "@ + n + ": ON "@ + shape;
    regroup(a4, " Fc "@, t6);
    regroup(sp, fc + sp, t6);
    assert(a6 + t6 == a4 + (sp + t5));
    let a3 = "Filter "@ + n + ": ON "@;
    regroup(a3, shape, sp + t5);
    regroup(shape, sp, t5);
    assert(a4 + (sp + t5) == a3 + t4);
    let a2 = "Filter "@ + n;
    regroup(a2, ": ON "@, t4);
    regroup(colon + sp, on + sp, t4);
    assert(a3 + t4 == a2 + (colon + sp + t3));
    regroup("Filter "@, n, colon + sp + t3);
    regroup(n, colon + sp, t3);
    regroup(n, colon, sp);
    assert(a2 + (colon + sp + t3) == "Filter "@ + t2);
}

/// The words from the frequency's unit on, joined at the spaces.
proof fn last_words_join(config: EqualiserBandConfig)
    ensures
        text_laws::spaced(seq!["Hz"@] + last_words(config)) == "Hz"@ + (
            apo::gain_text(config) + apo::q_text(config)
        ),
{
    let g = config.gain.fixed(1, false);
    let q = config.q.fixed(2, false);
    let sp = seq![' '];
    let words = last_words(config);
    let after = apo::gain_text(config) + apo::q_text(config);
    assert(
        " Gain "@ =~= sp + "Gain"@ + sp && " dB"@ =~= sp + "dB"@ && " Q "@ =~= sp + "Q"@ + sp
    ) by {
        reveal_strlit(" Gain ");
        reveal_strlit("Gain");
        reveal_strlit(" dB");
        reveal_strlit("dB");
        reveal_strlit(" Q ");
        reveal_strlit("Q");
    }
    if apo::writes_q(config.band_type) {
        let q_words = seq!["Q"@, q];
        assert(q_words =~= seq!["Q"@] + seq![q]);
        spaced_unfolds("Q"@, seq![q]);
        let q_joined = "Q"@ + sp + q;
        assert(text_laws::spaced(q_words) == q_joined);
        assert(apo::q_text(config) =~= sp + q_joined);
        if apo::writes_gain(config.band_type) {
            let third = seq!["dB"@] + q_words;
            let second = seq![g] + third;
            assert(words =~= seq!["Gain"@] + second);
            spaced_unfolds("Gain"@, second);
            spaced_unfolds(g, third);
            spaced_unfolds("dB"@, q_words);
            spaced_unfolds("Hz"@, words);
            let joined = "Gain"@ + sp + (g + sp + ("dB"@ + sp + q_joined));
            assert(apo::gain_text(config) == sp + "Gain"@ + sp + g + (sp + "dB"@));
            assert(sp + joined =~= after);
            regroup("Hz"@, sp, joined);
        } else {
            assert(words =~= q_words);
            spaced_unfolds("Hz"@, words);
            assert(after =~= sp + q_joined);
            regroup("Hz"@, sp, q_joined);
        }
    } else {
        assert(words =~= seq![]);
        assert(seq!["Hz"@] + words =~= seq!["Hz"@]);
        assert("Hz"@ + after =~= "Hz"@);
    }
}

/// A filter's line is its words with a space between each two.
proof fn filter_line_is_spaced(number: nat, config: EqualiserBandConfig)
    ensures
        apo::filter_line(number, config) == text_laws::spaced(filter_words(number, config)),
{
    let n = text::decimal(number);
    let f = text::decimal(config.frequency as nat);
    let shape = apo::shape_word(config.band_type);
    let after = apo::gain_text(config) + apo::q_text(config);
    let w6 = seq!["Hz"@] + last_words(config);
    let w5 = seq![f] + w6;
    let w4 = seq!["Fc"@] + w5;
    let w3 = seq![shape] + w4;
    let w2 = seq!["ON"@] + w3;
    let w1 = seq![n + seq![':']] + w2;
    last_words_join(config);
    spaced_unfolds(f, w6);
    spaced_unfolds("Fc"@, w5);
    spaced_unfolds(shape, w4);
    spaced_unfolds("ON"@, w3);
    spaced_unfolds(n + seq![':'], w2);
    spaced_unfolds("Filter"@, w1);
    assert(filter_words(number, config) =~= seq!["Filter"@] + w1);
    pieces_join(n, shape, f, after);
    regroup(
        "Filter "@ + n + ": ON "@ + shape + " Fc "@ + f + " Hz"@,
        apo::gain_text(config),
        apo::q_text(config),
    );
}

/// The letters of the words that say something.
pub proof fn keyword_letters()
    ensures
        "OFF"@ == seq!['O', 'F', 'F'],
        "ON"@ == seq!['O', 'N'],
        "PK"@ == seq!['P', 'K'],
        "PEAK"@ == seq!['P', 'E', 'A', 'K'],
        "BELL"@ == seq!['B', 'E', 'L', 'L'],
        "HP"@ == seq!['H', 'P'],
        "HIGHPASS"@ == seq!['H', 'I', 'G', 'H', 'P', 'A', 'S', 'S'],
        "HPQ"@ == seq!['H', 'P', 'Q'],
        "LP"@ == seq!['L', 'P'],
        "LOWPASS"@ == seq!['L', 'O', 'W', 'P', 'A', 'S', 'S'],
        "LPQ"@ == seq!['L', 'P', 'Q'],
        "LSC"@ == seq!['L', 'S', 'C'],
        "LOWSHELF"@ == seq!['L', 'O', 'W', 'S', 'H', 'E', 'L', 'F'],
        "HSC"@ == seq!['H', 'S', 'C'],
        "HIGHSHELF"@ == seq!['H', 'I', 'G', 'H', 'S', 'H', 'E', 'L', 'F'],
        "NO"@ == seq!['N', 'O'],
        "NOTCH"@ == seq!['N', 'O', 'T', 'C', 'H'],
        "FC"@ == seq!['F', 'C'],
        "GAIN"@ == seq!['G', 'A', 'I', 'N'],
        "Q"@ == seq!['Q'],
{
    reveal_strlit("OFF");
    assert("OFF"@ =~= seq!['O', 'F', 'F']);
    reveal_strlit("ON");
    assert("ON"@ =~= seq!['O', 'N']);
    reveal_strlit("PK");
    assert("PK"@ =~= seq!['P', 'K']);
    reveal_strlit("PEAK");
    assert("PEAK"@ =~= seq!['P', 'E', 'A', 'K']);
    reveal_strlit("BELL");
    assert("BELL"@ =~= seq!['B', 'E', 'L', 'L']);
    reveal_strlit("HP");
    assert("HP"@ =~= seq!['H', 'P']);
    reveal_strlit("HIGHPASS");
    assert("HIGHPASS"@ =~= seq!['H', 'I', 'G', 'H', 'P', 'A', 'S', 'S']);
    reveal_strlit("HPQ");
    assert("HPQ"@ =~= seq!['H', 'P', 'Q']);
    reveal_strlit("LP");
    assert("LP"@ =~= seq!['L', 'P']);
    reveal_strlit("LOWPASS");
    assert("LOWPASS"@ =~= seq!['L', 'O', 'W', 'P', 'A', 'S', 'S']);
    reveal_strlit("LPQ");
    assert("LPQ"@ =~= seq!['L', 'P', 'Q']);
    reveal_strlit("LSC");
    assert("LSC"@ =~= seq!['L', 'S', 'C']);
    reveal_strlit("LOWSHELF");
    assert("LOWSHELF"@ =~= seq!['L', 'O', 'W', 'S', 'H', 'E', 'L', 'F']);
    reveal_strlit("HSC");
    assert("HSC"@ =~= seq!['H', 'S', 'C']);
    reveal_strlit("HIGHSHELF");
    assert("HIGHSHELF"@ =~= seq!['H', 'I', 'G', 'H', 'S', 'H', 'E', 'L', 'F']);
    reveal_strlit("NO");
    assert("NO"@ =~= seq!['N', 'O']);
    reveal_strlit("NOTCH");
    assert("NOTCH"@ =~= seq!['N', 'O', 'T', 'C', 'H']);
    reveal_strlit("FC");
    assert("FC"@ =~= seq!['F', 'C']);
    reveal_strlit("GAIN");
    assert("GAIN"@ =~= seq!['G', 'A', 'I', 'N']);
    reveal_strlit("Q");
    assert("Q"@ =~= seq!['Q']);
}

proof fn meanings_of_fixed_words()
    ensures
        apo::word_meaning(text::uppercase("Filter"@)) == Word::Other,
        apo::word_meaning(text::uppercase("ON"@)) == Word::On,
        apo::word_meaning(text::uppercase("Fc"@)) == Word::Frequency,
        apo::word_meaning(text::uppercase("Hz"@)) == Word::Other,
        apo::word_meaning(text::uppercase("Gain"@)) == Word::Gain,
        apo::word_meaning(text::uppercase("dB"@)) == Word::Other,
        apo::word_meaning(text::uppercase("Q"@)) == Word::Q,
{
    keyword_letters();
    reveal_strlit("Filter");
    reveal_strlit("Fc");
    reveal_strlit("Hz");
    reveal_strlit("Gain");
    reveal_strlit("dB");
    let filter = text::uppercase("Filter"@);
    assert(filter[0] == 'F' && filter[1] == 'I' && filter.len() == 6);
    assert(text::uppercase("ON"@) =~= "ON"@);
    assert(text::uppercase("Fc"@) =~= "FC"@);
    let hz = text::uppercase("Hz"@);
    assert(hz[0] == 'H' && hz[1] == 'Z' && hz.len() == 2);
    assert(text::uppercase("Gain"@) =~= "GAIN"@);
    let db = text::uppercase("dB"@);
    assert(db[0] == 'D' && db.len() == 2);
    assert(text::uppercase("Q"@) =~= "Q"@);
}

proof fn meaning_of_shape_word(shape: EQBandType)
    requires
        shape != EQBandType::NotSet,
    ensures
        apo::word_meaning(text::uppercase(apo::shape_word(shape))) == Word::Shape(shape),
{
    keyword_letters();
    let w = apo::shape_word(shape);
    assert(text::uppercase(w) =~= w);
}

/// A word that begins with a digit says nothing.
proof fn meaning_of_number(w: Seq<char>)
    requires
        text::all_ascii(w),
        w.len() > 0,
        text::is_digit(w[0]),
    ensures
        apo::word_meaning(text::uppercase(w)) == Word::Other,
{
    keyword_letters();
    assert(text::uppercase(w)[0] == w[0]);
}

proof fn step_over(d: Draft, ws: Seq<Seq<char>>, i: int)
    requires
        0 <= i < ws.len(),
        apo::word_meaning(text::uppercase(ws[i])) == Word::Other,
    ensures
        apo::draft_after(d, ws, i) == apo::draft_after(d, ws, i + 1),
{
}

/// What the words up to the frequency's unit say.
proof fn first_words_say(
    ws: Seq<Seq<char>>,
    label: Seq<char>,
    shape: EQBandType,
    f: Seq<char>,
    x: Scalar,
)
    requires
        ws.len() >= 7,
        ws[0] == "Filter"@,
        ws[1] == label,
        ws[2] == "ON"@,
        ws[3] == apo::shape_word(shape),
        ws[4] == "Fc"@,
        ws[5] == f,
        ws[6] == "Hz"@,
        shape != EQBandType::NotSet,
        apo::word_meaning(text::uppercase(label)) == Word::Other,
        number::number_value(text::without_all(f, "Hz"@)) == Some(x),
    ensures
        apo::draft_after(apo::blank_draft(), ws, 0) == apo::draft_after(
            Draft {
                band_type: Some(shape),
                frequency: Some(x.to_integer()),
                ..apo::blank_draft()
            },
            ws,
            7,
        ),
{
    meanings_of_fixed_words();
    meaning_of_shape_word(shape);
    let d0 = apo::blank_draft();
    let d4 = Draft { band_type: Some(shape), ..d0 };
    let d6 = Draft { frequency: Some(x.to_integer()), ..d4 };
    step_over(d0, ws, 0);
    step_over(d0, ws, 1);
    assert(Draft { enabled: true, ..d0 } == d0);
    assert(apo::draft_after(d0, ws, 2) == apo::draft_after(d0, ws, 3));
    assert(apo::draft_after(d0, ws, 3) == apo::draft_after(d4, ws, 4));
    assert(apo::draft_after(d4, ws, 4) == apo::draft_after(d6, ws, 6));
    step_over(d6, ws, 6);
}

/// What the words after the frequency's unit say.
proof fn last_words_say(d: Draft, ws: Seq<Seq<char>>, config: EqualiserBandConfig)
    requires
        ws.len() == 7 + last_words(config).len(),
        forall|i: int| 0 <= i < last_words(config).len() ==> ws[7 + i] == #[trigger] last_words(
            config,
        )[i],
    ensures
        apo::draft_after(d, ws, 7) == (Draft {
            gain: if apo::writes_gain(config.band_type) {
                reread(config.gain, 1)
            } else {
                d.gain
            },
            q: if apo::writes_q(config.band_type) {
                reread(config.q, 2)
            } else {
                d.q
            },
            ..d
        }),
{
    let g = config.gain.fixed(1, false);
    let q = config.q.fixed(2, false);
    meanings_of_fixed_words();
    written_numbers_are_read(config.gain, 1);
    written_numbers_are_read(config.q, 2);
    fixed_is_numeral_text(config.gain, 1);
    numeral_text_is_solid(g);
    let last = last_words(config);
    if apo::writes_gain(config.band_type) {
        let d9 = Draft { gain: reread(config.gain, 1), ..d };
        let d12 = Draft { q: reread(config.q, 2), ..d9 };
        assert(last.len() == 5);
        assert(ws[7] == last[0] && last[0] == "Gain"@);
        assert(ws[8] == last[1] && last[1] == g);
        assert(ws[9] == last[2] && last[2] == "dB"@);
        assert(ws[10] == last[3] && last[3] == "Q"@);
        assert(ws[11] == last[4] && last[4] == q);
        assert(apo::draft_after(d, ws, 7) == apo::draft_after(d9, ws, 9));
        step_over(d9, ws, 9);
        assert(apo::draft_after(d9, ws, 10) == apo::draft_after(d12, ws, 12));
        assert(apo::draft_after(d12, ws, 12) == d12);
    } else if apo::writes_q(config.band_type) {
        let d9 = Draft { q: reread(config.q, 2), ..d };
        assert(last.len() == 2);
        assert(ws[7] == last[0] && last[0] == "Q"@);
        assert(ws[8] == last[1] && last[1] == q);
        assert(apo::draft_after(d, ws, 7) == apo::draft_after(d9, ws, 9));
        assert(apo::draft_after(d9, ws, 9) == d9);
    } else {
        assert(apo::draft_after(d, ws, 7) == d);
    }
}

/// The words of a filter's line say what the filter was.
proof fn filter_words_say(number: nat, config: EqualiserBandConfig)
    requires
        apo::is_exported(config),
    ensures
        apo::drafted(apo::draft_after(apo::blank_draft(), filter_words(number, config), 0)) == Some(
            reread_band(config),
        ),
{
    let ws = filter_words(number, config);
    let n = text::decimal(number);
    number::decimal_stands_for(number);
    let label = n + seq![':'];
    assert(text::is_digit(n[0]));
    assert(label[0] == n[0]);
    assert forall|i: int| 0 <= i < label.len() implies (#[trigger] label[i] as u32) < 128 by {
        if i < n.len() {
            assert(text::is_digit(n[i]));
            assert(label[i] == n[i]);
        }
    }
    meaning_of_number(label);
    let f = text::decimal(config.frequency as nat);
    decimal_is_numeral_text(config.frequency as nat);
    numeral_text_is_solid(f);
    let x = number::number_value(f)->0;
    if config.frequency < 0x100_0000 {
        number::integers_read_exactly(config.frequency as nat);
    } else {
        number::large_integers_stay_large(config.frequency as nat);
    }
    assert(apo::clamped_frequency(x.to_integer()) == apo::clamped_frequency(config.frequency));
    first_words_say(ws, label, config.band_type, f, x);
    assert forall|i: int| 0 <= i < last_words(config).len() implies ws[7 + i]
        == #[trigger] last_words(config)[i] by {}
    last_words_say(
        Draft {
            band_type: Some(config.band_type),
            frequency: Some(x.to_integer()),
            ..apo::blank_draft()
        },
        ws,
        config,
    );
}

/// A filter's line is read as the filter that it was written for.
proof fn filter_line_is_read(number: nat, config: EqualiserBandConfig)
    requires
        apo::is_exported(config),
    ensures
        apo::band_of_line(apo::filter_line(number, config)) == Some(reread_band(config)),
        forall|i: int|
            0 <= i < apo::filter_line(number, config).len() ==> #[trigger] apo::filter_line(
                number,
                config,
            )[i] != '\n',
        text::without_return(apo::filter_line(number, config)) == apo::filter_line(number, config),
{
    let ws = filter_words(number, config);
    let line = apo::filter_line(number, config);
    filter_words_are_solid(number, config);
    filter_line_is_spaced(number, config);
    text_laws::words_of_spaced(ws);
    text_laws::spaced_is_tight(ws);
    text_laws::tight_text_stays(line);
    filter_words_say(number, config);
    reveal_strlit("Filter");
    assert(ws[0] == "Filter"@);
    assert(line[0] == 'F');
}

proof fn bands_of_sum(a: Seq<Seq<char>>, b: Seq<Seq<char>>)
    ensures
        apo::bands_of_lines(a + b) == apo::bands_of_lines(a) + apo::bands_of_lines(b),
    decreases b.len(),
{
    if b.len() == 0 {
        assert(a + b =~= a);
        assert(apo::bands_of_lines(a) + apo::bands_of_lines(b) =~= apo::bands_of_lines(a));
    } else {
        let s = a + b;
        assert(s.drop_last() =~= a + b.drop_last());
        assert(s.last() == b.last());
        bands_of_sum(a, b.drop_last());
        assert(apo::bands_of_lines(s) =~= apo::bands_of_lines(a) + apo::bands_of_lines(b));
    }
}

proof fn bands_of_one(line: Seq<char>)
    ensures
        apo::bands_of_lines(seq![line]) == (match apo::band_of_line(line) {
            Some(band) => seq![band],
            None => seq![],
        }),
{
    let s = seq![line];
    assert(s.drop_last() =~= Seq::empty());
    assert(apo::bands_of_lines(s.drop_last()) =~= Seq::empty());
    assert(s.last() == line);
    assert(apo::bands_of_lines(s) =~= (match apo::band_of_line(line) {
        Some(band) => seq![band],
        None => seq![],
    }));
}

proof fn filter_lines_are_read(number: nat, configs: Seq<EqualiserBandConfig>)
    ensures
        apo::bands_of_lines(
            text::lines(apo::filter_lines(number, configs)),
        ) == reread_bands(configs),
    decreases configs.len(),
{
    let empty = Seq::<char>::empty();
    if configs.len() == 0 {
        assert(text::lines(apo::filter_lines(number, configs)) =~= Seq::empty());
        assert(
            apo::bands_of_lines(
                text::lines(apo::filter_lines(number, configs)),
            ) =~= reread_bands(configs)
        );
    } else {
        let rest = configs.drop_first();
        if apo::is_exported(configs[0]) {
            let line = apo::filter_line(number, configs[0]);
            let after = apo::filter_lines(number + 1, rest);
            filter_line_is_read(number, configs[0]);
            text_laws::line_before_feed(empty, line, after);
            assert(empty + line =~= line);
            filter_lines_are_read(number + 1, rest);
            bands_of_one(line);
            bands_of_sum(seq![line], text::lines(after));
        } else {
            filter_lines_are_read(number, rest);
        }
    }
}

/// A carriage return at the end of a line makes no difference to the band that it describes.
proof fn return_is_passed_over(line: Seq<char>)
    ensures
        apo::band_of_line(text::without_return(line)) == apo::band_of_line(line),
{
    if line.len() > 0 && line.last() == '\r' {
        text_laws::trim_past_white_space(line.drop_last(), '\r');
        assert(line.drop_last().push('\r') =~= line);
    }
}

/// Of two texts with a line feed between them, all bands are read; `line` is the line that goes on
/// where the first text begins.
proof fn bands_of_joined_lines(line: Seq<char>, a: Seq<char>, b: Seq<char>)
    ensures
        apo::bands_of_lines(text::lines_after(line, a + seq!['\n'] + b)) == apo::bands_of_lines(
            text::lines_after(line, a),
        ) + apo::bands_of_lines(text::lines(b)),
    decreases a.len(),
{
    let all = a + seq!['\n'] + b;
    let empty = Seq::<char>::empty();
    if a.len() == 0 {
        assert(all[0] == '\n');
        assert(all.drop_first() =~= b);
        return_is_passed_over(line);
        bands_of_one(text::without_return(line));
        bands_of_one(line);
        bands_of_sum(seq![text::without_return(line)], text::lines(b));
        if line.len() == 0 {
            assert(text::trim(line).len() == 0);
            assert(apo::bands_of_lines(text::lines_after(line, a)) =~= Seq::empty());
        }
    } else {
        let rest = a.drop_first();
        assert(all[0] == a[0]);
        assert(all.drop_first() =~= rest + seq!['\n'] + b);
        if a[0] == '\n' {
            let first = seq![text::without_return(line)];
            bands_of_joined_lines(empty, rest, b);
            bands_of_sum(first, text::lines(rest + seq!['\n'] + b));
            bands_of_sum(first, text::lines(rest));
            assert(apo::bands_of_lines(text::lines_after(line, all)) =~= apo::bands_of_lines(
                text::lines_after(line, a),
            ) + apo::bands_of_lines(text::lines(b)));
        } else {
            bands_of_joined_lines(line.push(a[0]), rest, b);
        }
    }
}

/// Two texts with a line feed between them hold the bands of the first and after them those of the
/// second.
pub proof fn joined_texts_hold_both_lists(a: Seq<char>, b: Seq<char>)
    ensures
        apo::bands_of_lines(text::lines(a + seq!['\n'] + b)) == apo::bands_of_lines(text::lines(a))
            + apo::bands_of_lines(text::lines(b)),
{
    bands_of_joined_lines(seq![], a, b);
}

/// Bands that are written out and read again come back in order, without those that are not
/// enabled or have no shape: the shape and the frequency as they were, brought into range; the
/// gain and the Q as the numbers nearest to what was written of them, brought into range. Nothing
/// of the header is taken for a band, whatever the title is, as long as it is one line.
pub proof fn exported_bands_come_back(
    bands: Seq<(EQBand, EqualiserBandConfig)>,
    title: Seq<char>,
)
    requires
        forall|i: int| 0 <= i < title.len() ==> #[trigger] title[i] != '\n',
    ensures
        apo::bands_of_lines(text::lines(apo::exported(bands, title))) == reread_bands(
            apo::configs_of(bands),
        ),
{
    let a = "# Equalizer APO / REW Parametric EQ Configuration ("@;
    let b = ")\n# Exported from BEACN Utility\n\n"@;
    reveal_strlit("# Equalizer APO / REW Parametric EQ Configuration (");
    reveal_strlit(")\n# Exported from BEACN Utility\n\n");
    let first = a + title + seq![')'];
    let second = b.subrange(2, 31);
    let empty = Seq::<char>::empty();
    let filters = apo::filter_lines(1, apo::configs_of(bands));
    let all = apo::exported(bands, title);
    assert(b.len() == 33);
    assert(b =~= seq![')'] + seq!['\n'] + second + seq!['\n'] + seq!['\n']);
    let from_third = empty + seq!['\n'] + filters;
    let from_second = second + seq!['\n'] + from_third;
    assert(all =~= first + seq!['\n'] + from_second);
    assert forall|i: int| 0 <= i < first.len() implies #[trigger] first[i] != '\n' by {
        if i < a.len() {
            assert(first[i] == a[i]);
        } else if i < a.len() + title.len() {
            assert(first[i] == title[i - a.len()]);
        }
    }
    assert forall|i: int| 0 <= i < second.len() implies #[trigger] second[i] != '\n' by {
        assert(second[i] == b[i + 2]);
    }
    text_laws::line_before_feed(empty, first, from_second);
    text_laws::line_before_feed(empty, second, from_third);
    text_laws::line_before_feed(empty, empty, filters);
    assert(empty + first =~= first);
    assert(empty + second =~= second);
    assert(empty + empty =~= empty);
    assert(text::without_return(first) =~= first);
    assert(second.last() == b[30]);
    assert(text::without_return(second) =~= second);
    assert(text::without_return(empty) =~= empty);
    let rest = text::lines(filters);
    assert(text::lines(all) == seq![first] + (seq![second] + (seq![empty] + rest)));
    assert(first[0] == a[0]);
    text_laws::trim_keeps_first(first);
    assert(second[0] == b[2]);
    text_laws::trim_keeps_first(second);
    bands_of_one(first);
    bands_of_one(second);
    bands_of_one(empty);
    bands_of_sum(seq![empty], rest);
    bands_of_sum(seq![second], seq![empty] + rest);
    bands_of_sum(seq![first], seq![second] + (seq![empty] + rest));
    filter_lines_are_read(1, apo::configs_of(bands));
    assert(apo::bands_of_lines(text::lines(all)) =~= apo::bands_of_lines(rest));
}

/// A band that was written and read stays as it is when that is done once more.
pub proof fn read_band_settles(config: EqualiserBandConfig)
    ensures
        reread_band(reread_band(config)) == reread_band(config),
{
    let min_gain = Scalar { bits: MIN_GAIN };
    let max_gain = Scalar { bits: MAX_GAIN };
    let min_q = Scalar { bits: MIN_Q };
    let max_q = Scalar { bits: MAX_Q };
    apo::range_bounds();
    decimal_laws::ends_come_back();
    decimal_laws::reading_settles(config.gain, 1, min_gain, max_gain);
    decimal_laws::reading_settles(config.q, 2, min_q, max_q);
}

proof fn read_bands_settle(configs: Seq<EqualiserBandConfig>)
    ensures
        reread_bands(reread_bands(configs)) == reread_bands(configs),
    decreases configs.len(),
{
    if configs.len() > 0 {
        let rest = configs.drop_first();
        read_bands_settle(rest);
        if apo::is_exported(configs[0]) {
            let first = reread_band(configs[0]);
            let again = reread_bands(configs);
            read_band_settle_first(configs[0]);
            assert(again[0] == first);
            assert(again.drop_first() =~= reread_bands(rest));
        }
    }
}

proof fn read_band_settle_first(config: EqualiserBandConfig)
    requires
        apo::is_exported(config),
    ensures
        apo::is_exported(reread_band(config)),
        reread_band(reread_band(config)) == reread_band(config),
{
    read_band_settles(config);
}

/// Bands that have been written and read once come back unchanged from being written and read
/// again.
pub proof fn read_bands_come_back_unchanged(
    bands: Seq<(EQBand, EqualiserBandConfig)>,
    title: Seq<char>,
    again: Seq<(EQBand, EqualiserBandConfig)>,
    other_title: Seq<char>,
)
    requires
        forall|i: int| 0 <= i < title.len() ==> #[trigger] title[i] != '\n',
        forall|i: int| 0 <= i < other_title.len() ==> #[trigger] other_title[i] != '\n',
        apo::configs_of(again) == apo::bands_of_lines(text::lines(apo::exported(bands, title))),
    ensures
        apo::bands_of_lines(text::lines(apo::exported(again, other_title))) == apo::configs_of(
            again,
        ),
{
    exported_bands_come_back(bands, title);
    exported_bands_come_back(again, other_title);
    read_bands_settle(apo::configs_of(bands));
}

/// Whether the numbers of a band are in their ranges. Gain and Q may also be no number at all, as
/// they are where a line says so.
pub open spec fn in_range(config: EqualiserBandConfig) -> bool {
    &&& config.band_type != EQBandType::NotSet
    &&& MIN_FREQUENCY <= config.frequency <= MAX_FREQUENCY
    &&& config.gain.nan() || (Scalar { bits: MIN_GAIN }).units() <= config.gain.units() <= (
    Scalar { bits: MAX_GAIN }).units()
    &&& config.q.nan() || (Scalar { bits: MIN_Q }).units() <= config.q.units() <= (Scalar {
        bits: MAX_Q,
    }).units()
}

proof fn shapes_are_set(draft: Draft, line: Seq<Seq<char>>, i: int)
    requires
        draft.band_type != Some(EQBandType::NotSet),
    ensures
        apo::draft_after(draft, line, i).band_type != Some(EQBandType::NotSet),
    decreases line.len() - i,
{
    if 0 <= i < line.len() {
        match apo::word_meaning(text::uppercase(line[i])) {
            Word::Off => shapes_are_set(Draft { enabled: false, ..draft }, line, i + 1),
            Word::On => shapes_are_set(Draft { enabled: true, ..draft }, line, i + 1),
            Word::Shape(shape) => shapes_are_set(
                Draft { band_type: Some(shape), ..draft },
                line,
                i + 1,
            ),
            Word::Frequency => if i + 1 < line.len() {
                match number::number_value(text::without_all(line[i + 1], "Hz"@)) {
                    Some(f) => shapes_are_set(
                        Draft { frequency: Some(f.to_integer()), ..draft },
                        line,
                        i + 2,
                    ),
                    None => shapes_are_set(draft, line, i + 2),
                }
            },
            Word::Gain => if i + 1 < line.len() {
                match number::number_value(text::without_all(line[i + 1], "dB"@)) {
                    Some(g) => shapes_are_set(Draft { gain: g, ..draft }, line, i + 2),
                    None => shapes_are_set(draft, line, i + 2),
                }
            },
            Word::Q => if i + 1 < line.len() {
                match number::number_value(line[i + 1]) {
                    Some(q) => shapes_are_set(Draft { q: q, ..draft }, line, i + 2),
                    None => shapes_are_set(draft, line, i + 2),
                }
            },
            Word::Other => shapes_are_set(draft, line, i + 1),
        }
    }
}

/// Every band that is read, from any text, has a shape and is in range.
pub proof fn read_bands_are_in_range(all: Seq<Seq<char>>, i: int)
    requires
        0 <= i < apo::bands_of_lines(all).len(),
    ensures
        in_range(apo::bands_of_lines(all)[i]),
    decreases all.len(),
{
    let before = apo::bands_of_lines(all.drop_last());
    if i < before.len() {
        read_bands_are_in_range(all.drop_last(), i);
        assert(apo::bands_of_lines(all)[i] == before[i]);
    } else {
        let words = text::words(text::trim(all.last()));
        apo::range_bounds();
        shapes_are_set(apo::blank_draft(), words, 0);
    }
}

} // verus!
