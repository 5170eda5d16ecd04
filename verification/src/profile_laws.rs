//! What holds of profiles: what comes with the program, where a profile is kept, and which is used.

use vstd::arithmetic::power2::lemma_pow2_pos;
use vstd::arithmetic::power2::pow2;
use vstd::prelude::*;

use crate::apo;
use crate::apo_laws;
use crate::eq::EQBand;
use crate::eq::EQBandType;
use crate::eq::EQMode;
use crate::eq::EqualiserBandConfig;
use crate::messages::BassEnhancement;
use crate::messages::Compressor;
use crate::messages::CompressorMode;
use crate::messages::DeEsser;
use crate::messages::EQMicrophone;
use crate::messages::Expander;
use crate::messages::ExpanderMode;
use crate::messages::Message;
use crate::messages::Suppressor;
use crate::number;
use crate::order_laws;
use crate::presets::FactoryBand;
use crate::presets::FactoryDefinition;
use crate::presets::FactoryProfile;
use crate::presets;
use crate::profile;
use crate::scalar::Scalar;
use crate::scalar;
use crate::text;

verus! {

/// Whether a character is one of those that may not stand in the name of a file.
pub open spec fn is_reserved(c: char) -> bool {
    c == '/' || c == '\\' || c == ':' || c == '*' || c == '?' || c == '"' || c == '<' || c == '>'
        || c == '|'
}

/// The name of a file has an underscore in place of each character that may not stand there, and
/// every other character as it was.
pub proof fn reserved_characters_are_replaced(name: Seq<char>, i: int)
    requires
        0 <= i < name.len(),
    ensures
        profile::sanitized(name).len() == name.len(),
        is_reserved(name[i]) ==> profile::sanitized(name)[i] == '_',
        !is_reserved(name[i]) ==> profile::sanitized(name)[i] == name[i],
{
}

/// A profile is kept below the directory of all profiles, in one that has its name; it is read from
/// there just if it is there, and all of it goes when it is deleted. Only the default, in letters
/// of either case, cannot be deleted.
pub proof fn profiles_are_kept_by_name(name: Seq<char>, exists: bool)
    ensures
        profile::profile_path(name).len() == 2,
        profile::profile_path(name)[0] == "profiles"@,
        profile::profile_path(name)[1] == profile::sanitized(name),
        !exists ==> profile::loaded_from(name, exists) is None,
        exists ==> profile::loaded_from(name, exists) == Some(
            seq!["profiles"@, profile::sanitized(name), "profile.json"@],
        ),
        profile::deleted_at(name) is None <==> text::ascii_lowercase(name)
            == text::ascii_lowercase("Default"@),
        profile::deleted_at(name) is Some ==> profile::deleted_at(name) == Some(
            seq!["profiles"@, profile::sanitized(name)],
        ),
{
    assert(profile::profile_path(name).push(profile::PROFILE_FILE@) =~= seq![
        "profiles"@,
        profile::sanitized(name),
        "profile.json"@,
    ]);
}

/// The profile in use is the one that its file names, white space around the name aside; without a
/// file, or with an empty one, it is the default.
pub proof fn profile_in_use_is_the_one_named(content: Option<Seq<char>>)
    ensures
        match content {
            Some(c) => {
                &&& text::trim(c).len() > 0 ==> profile::active_name(content) == text::trim(c)
                &&& text::trim(c).len() == 0 ==> profile::active_name(content) == "Default"@
            },
            None => profile::active_name(content) == "Default"@,
        },
{
}

/// The names that are listed are those of the directories, and the default besides just if none of
/// them is it.
pub proof fn found_profiles_are_listed(names: Seq<Seq<char>>, n: Seq<char>)
    ensures
        names.contains(n) ==> profile::with_default(names).contains(n),
        profile::with_default(names).contains(n) ==> names.contains(n) || (n == "Default"@
            && forall|i: int|
            0 <= i < names.len() ==> text::ascii_lowercase(#[trigger] names[i])
                != text::ascii_lowercase("Default"@)),
{
    let all = profile::with_default(names);
    if names.contains(n) {
        let i = choose|i: int| 0 <= i < names.len() && names[i] == n;
        assert(all[i] == n);
    }
    if all.contains(n) && !names.contains(n) {
        let i = choose|i: int| 0 <= i < all.len() && all[i] == n;
        if i < names.len() {
            assert(names[i] == n);
        }
        assert forall|k: int| 0 <= k < names.len() implies text::ascii_lowercase(
            #[trigger] names[k],
        ) != text::ascii_lowercase("Default"@) by {
            assert(!profile::names_default(names[k]));
        }
    }
}

/// The profiles that come with the program are written where they are not there yet, and only
/// there: the first place stands for the broadcast profile, the second for gaming, the third for
/// the voiceover and the fourth for clarity.
pub proof fn missing_profiles_are_written(present: Seq<bool>, p: FactoryProfile)
    requires
        present.len() == 4,
    ensures
        profile::missing_profiles(present, 4).contains(p) <==> match p {
            FactoryProfile::Broadcast => !present[0],
            FactoryProfile::GamingAndDiscord => !present[1],
            FactoryProfile::WarmVoiceover => !present[2],
            FactoryProfile::HighClarity => !present[3],
        },
{
    let m0 = profile::missing_profiles(present, 0);
    let m1 = profile::missing_profiles(present, 1);
    let m2 = profile::missing_profiles(present, 2);
    let m3 = profile::missing_profiles(present, 3);
    let m4 = profile::missing_profiles(present, 4);
    let (a, b, c, d) = (
        FactoryProfile::Broadcast,
        FactoryProfile::GamingAndDiscord,
        FactoryProfile::WarmVoiceover,
        FactoryProfile::HighClarity,
    );
    assert(!m0.contains(p));
    pushed_or_held(m0, a, p);
    pushed_or_held(m1, b, p);
    pushed_or_held(m2, c, p);
    pushed_or_held(m3, d, p);
}

proof fn pushed_or_held(s: Seq<FactoryProfile>, x: FactoryProfile, p: FactoryProfile)
    ensures
        s.push(x).contains(p) <==> s.contains(p) || x == p,
{
    let t = s.push(x);
    if s.contains(p) {
        let i = choose|i: int| 0 <= i < s.len() && s[i] == p;
        assert(t[i] == p);
    }
    if x == p {
        assert(t[s.len() as int] == p);
    }
    if t.contains(p) {
        let i = choose|i: int| 0 <= i < t.len() && t[i] == p;
        if i < s.len() {
            assert(s[i] == p);
        }
    }
}

proof fn held_in_sum(a: Seq<Message>, b: Seq<Message>, m: Message)
    ensures
        a.contains(m) ==> (a + b).contains(m),
        b.contains(m) ==> (a + b).contains(m),
{
    if a.contains(m) {
        let i = choose|i: int| 0 <= i < a.len() && a[i] == m;
        assert((a + b)[i] == m);
    }
    if b.contains(m) {
        let i = choose|i: int| 0 <= i < b.len() && b[i] == m;
        assert((a + b)[a.len() + i] == m);
    }
}

proof fn listed_band_is_set(bands: Seq<FactoryBand>, i: int, m: Message)
    requires
        0 <= i < bands.len(),
        presets::band_settings(bands[i]).contains(m),
    ensures
        presets::bands_settings(bands).contains(m),
    decreases bands.len(),
{
    let init = bands.drop_last();
    held_in_sum(presets::bands_settings(init), presets::band_settings(bands.last()), m);
    if i < bands.len() - 1 {
        assert(init[i] == bands[i]);
        listed_band_is_set(init, i, m);
    }
}

/// What a part of a factory profile sets, the whole sets.
proof fn parts_are_sent(d: FactoryDefinition, m: Message)
    ensures
        m == Message::EQMicrophone(EQMicrophone::Mode(EQMode::Advanced))
            || presets::bands_settings(d.bands@).contains(m) || presets::compressor_settings(
            d,
        ).contains(m) || presets::expander_settings(d).contains(m) || presets::effect_settings(
            d,
        ).contains(m) ==> presets::factory_settings(d).contains(m),
{
    let mode = seq![Message::EQMicrophone(EQMicrophone::Mode(EQMode::Advanced))];
    assert(mode[0] == Message::EQMicrophone(EQMicrophone::Mode(EQMode::Advanced)));
    assert(mode.contains(mode[0]));
    let listed = presets::bands_settings(d.bands@);
    let others = presets::disabled_settings(d.bands@, crate::eq::BAND_COUNT as int);
    let c = presets::compressor_settings(d);
    let e = presets::expander_settings(d);
    let f = presets::effect_settings(d);
    held_in_sum(mode, listed, m);
    held_in_sum(mode + listed, others, m);
    held_in_sum(mode + listed + others, c, m);
    held_in_sum(mode + listed + others + c, e, m);
    held_in_sum(mode + listed + others + c + e, f, m);
}

/// A factory profile sets every band that it lists, in the advanced mode, to what it says of it:
/// shape, frequency, gain and Q, and that it is on; and the equaliser is in that mode.
pub proof fn factory_bands_are_set(d: FactoryDefinition, i: int)
    requires
        0 <= i < d.bands@.len(),
    ensures
        ({
            let b = d.bands@[i];
            let sent = |m: EQMicrophone|
                presets::factory_settings(d).contains(Message::EQMicrophone(m));
            &&& sent(EQMicrophone::Mode(EQMode::Advanced))
            &&& sent(EQMicrophone::Type(EQMode::Advanced, b.band, b.band_type))
            &&& sent(EQMicrophone::Frequency(EQMode::Advanced, b.band, b.frequency))
            &&& sent(EQMicrophone::Gain(EQMode::Advanced, b.band, b.gain))
            &&& sent(EQMicrophone::Q(EQMode::Advanced, b.band, b.q))
            &&& sent(EQMicrophone::Enabled(EQMode::Advanced, b.band, true))
        }),
{
    let b = d.bands@[i];
    let s = presets::band_settings(b);
    parts_are_sent(d, Message::EQMicrophone(EQMicrophone::Mode(EQMode::Advanced)));
    assert forall|k: int| 0 <= k < s.len() implies presets::factory_settings(d).contains(
        #[trigger] s[k],
    ) by {
        assert(s.contains(s[k]));
        listed_band_is_set(d.bands@, i, s[k]);
        parts_are_sent(d, s[k]);
    }
    assert(s[0] == Message::EQMicrophone(
        EQMicrophone::Type(EQMode::Advanced, b.band, b.band_type),
    ));
    assert(s[1] == Message::EQMicrophone(
        EQMicrophone::Frequency(EQMode::Advanced, b.band, b.frequency),
    ));
    assert(s[2] == Message::EQMicrophone(EQMicrophone::Gain(EQMode::Advanced, b.band, b.gain)));
    assert(s[3] == Message::EQMicrophone(EQMicrophone::Q(EQMode::Advanced, b.band, b.q)));
    assert(s[4] == Message::EQMicrophone(EQMicrophone::Enabled(EQMode::Advanced, b.band, true)));
}

/// A factory profile sets the compressor and the expander, in their advanced modes, and the effects
/// to what it says of them; the bass no lower than nothing and no higher than ten.
pub proof fn factory_effects_are_set(d: FactoryDefinition)
    ensures
        ({
            let sent = |m: Message| presets::factory_settings(d).contains(m);
            let c = |x: Compressor| sent(Message::Compressor(x));
            let e = |x: Expander| sent(Message::Expander(x));
            let cm = CompressorMode::Advanced;
            let em = ExpanderMode::Advanced;
            &&& c(Compressor::Mode(cm))
            &&& c(Compressor::Enabled(cm, d.compressor_enabled))
            &&& c(Compressor::Threshold(cm, d.compressor_threshold))
            &&& c(Compressor::Ratio(cm, d.compressor_ratio))
            &&& c(Compressor::Attack(cm, d.compressor_attack))
            &&& c(Compressor::Release(cm, d.compressor_release))
            &&& c(Compressor::MakeupGain(cm, d.compressor_makeup))
            &&& e(Expander::Mode(em))
            &&& e(Expander::Enabled(em, d.expander_enabled))
            &&& e(Expander::Threshold(em, d.expander_threshold))
            &&& e(Expander::Ratio(em, d.expander_ratio))
            &&& e(Expander::Attack(em, d.expander_attack))
            &&& e(Expander::Release(em, d.expander_release))
            &&& sent(Message::Suppressor(Suppressor::Enabled(d.suppressor_enabled)))
            &&& sent(Message::Suppressor(Suppressor::Amount(d.suppressor_amount)))
            &&& sent(Message::BassEnhancement(BassEnhancement::Enabled(d.bass_enabled)))
            &&& sent(
                Message::BassEnhancement(
                    BassEnhancement::Amount(
                        d.bass_amount.clamped(
                            Scalar { bits: 0 },
                            Scalar { bits: presets::MAX_BASS },
                        ),
                    ),
                ),
            )
            &&& sent(Message::DeEsser(DeEsser::Enabled(d.deesser_enabled)))
            &&& sent(Message::DeEsser(DeEsser::Amount(d.deesser_amount)))
        }),
{
    let a = presets::compressor_settings(d);
    let b = presets::expander_settings(d);
    let c = presets::effect_settings(d);
    let all = presets::factory_settings(d);
    assert forall|k: int| 0 <= k < a.len() implies all.contains(#[trigger] a[k]) by {
        assert(a.contains(a[k]));
        parts_are_sent(d, a[k]);
    }
    assert forall|k: int| 0 <= k < b.len() implies all.contains(#[trigger] b[k]) by {
        assert(b.contains(b[k]));
        parts_are_sent(d, b[k]);
    }
    assert forall|k: int| 0 <= k < c.len() implies all.contains(#[trigger] c[k]) by {
        assert(c.contains(c[k]));
        parts_are_sent(d, c[k]);
    }
    assert(all.contains(a[0]) && all.contains(a[1]) && all.contains(a[2]) && all.contains(a[3]));
    assert(all.contains(a[4]) && all.contains(a[5]) && all.contains(a[6]));
    assert(all.contains(b[0]) && all.contains(b[1]) && all.contains(b[2]) && all.contains(b[3]));
    assert(all.contains(b[4]) && all.contains(b[5]));
    assert(all.contains(c[0]) && all.contains(c[1]) && all.contains(c[2]) && all.contains(c[3]));
    assert(all.contains(c[4]) && all.contains(c[5]));
}

/// No two bands of a factory profile are the same one, so that none of its settings undoes another.
pub proof fn factory_bands_differ(p: FactoryProfile, i: int, j: int)
    requires
        0 <= i < j < p.sets().bands@.len(),
    ensures
        p.sets().bands@[i].band != p.sets().bands@[j].band,
{
}

/// The bands that are saved with a profile are those that are read from its file: each that is
/// enabled and has a shape, in order.
pub proof fn saved_bands_come_back(bands: Seq<(EQBand, EqualiserBandConfig)>)
    ensures
        apo::bands_of_lines(text::lines(profile::saved_bands(bands))) == apo_laws::reread_bands(
            apo::configs_of(bands),
        ),
{
    reveal_strlit("Microphone");
    apo_laws::exported_bands_come_back(bands, "Microphone"@);
}

/// Whole numbers that are told in hundredths stand for themselves.
proof fn whole_hundredths_are_exact(k: nat)
    requires
        0 < k < 0x100_0000,
    ensures
        number::hundredths(100 * k as int).units() == k * pow2(149),
{
    let one = pow2(149);
    let num = number::numerator(100 * k, -2);
    let den = number::denominator(-2);
    assert(scalar::ten_to(2) == 100) by {
        assert(scalar::ten_to(0) == 1);
        assert(scalar::ten_to(1) == 10);
    }
    let b = number::exact_pattern(k, 149);
    assert(num == den * number::size_at(b)) by (nonlinear_arith)
        requires
            num == 100 * k * one,
            den == 100,
            number::size_at(b) == k * one,
    ;
    number::patterns_round_to_themselves(num, den, b);
    order_laws::signed_units(false, b);
}

/// Every factory profile sets the first four bands, from low to high frequencies: the first takes
/// away what is below it, and none of the others does. All of them switch the compressor, the
/// expander, the suppressor and the de-esser on, and the bass enhancement just if there is any.
pub proof fn factory_profiles_are_alike(p: FactoryProfile, i: int, j: int)
    requires
        0 <= i < j < p.sets().bands@.len(),
    ensures
        ({
            let d = p.sets();
            &&& d.bands@.len() == 4
            &&& d.bands@[i].band.place() == i && d.bands@[j].band.place() == j
            &&& d.bands@[i].frequency.units() < d.bands@[j].frequency.units()
            &&& d.bands@[i].band_type == EQBandType::HighPassFilter <==> i == 0
            &&& d.bands@[j].band_type != EQBandType::HighPassFilter
            &&& d.compressor_enabled && d.expander_enabled && d.suppressor_enabled
                && d.deesser_enabled
            &&& d.bass_enabled <==> d.bass_amount.units() > 0
        }),
{
    lemma_pow2_pos(149);
    whole_hundredths_are_exact(70);
    whole_hundredths_are_exact(80);
    whole_hundredths_are_exact(100);
    whole_hundredths_are_exact(160);
    whole_hundredths_are_exact(200);
    whole_hundredths_are_exact(250);
    whole_hundredths_are_exact(300);
    whole_hundredths_are_exact(500);
    whole_hundredths_are_exact(2800);
    whole_hundredths_are_exact(3500);
    whole_hundredths_are_exact(4500);
    whole_hundredths_are_exact(6500);
    whole_hundredths_are_exact(8000);
    whole_hundredths_are_exact(10000);
    whole_hundredths_are_exact(12000);
    whole_hundredths_are_exact(3);
    whole_hundredths_are_exact(4);
    order_laws::nothing_is_zero(Scalar { bits: 0 });
    let den = number::denominator(-2);
    assert(scalar::ten_to(2) > 0) by {
        assert(scalar::ten_to(0) == 1);
        assert(scalar::ten_to(1) == 10);
    }
    assert(0 * pow2(149) == 0 && den * number::size_at(0) == 0) by (nonlinear_arith)
        requires
            number::size_at(0) == 0,
    ;
    number::patterns_round_to_themselves(0, den, 0);
    order_laws::signed_units(false, 0);
    assert(number::hundredths(0).units() == 0);
}

} // verus!
