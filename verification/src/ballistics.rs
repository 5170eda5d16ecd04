//! The curve of all bands together, and how the spectrum moves it.

use vstd::arithmetic::power2::pow2;
use vstd::prelude::*;

use crate::arithmetic;
use crate::counts::from_count;
use crate::counts;
use crate::curves;
use crate::eq::EQBandType;
use crate::eq::EqualiserBandConfig;
use crate::eq::MAX_GAIN;
use crate::eq::MIN_GAIN;
use crate::eq_drawer::EQDrawView;
use crate::eq_drawer::EQ_CURVE_RESOLUTION;
use crate::eq_drawer::MIN_DB;
use crate::eq_drawer::loudest_bin;
use crate::eq_drawer;
use crate::meter::ONE;
use crate::number::from_whole;
use crate::number;
use crate::scalar::Scalar;
use crate::scalar;
use crate::spectrum_frame::FOUR;

verus! {

/// The bit pattern of -70, the level in dB up to which a spectrum moves nothing.
pub const QUIET_LEVEL: u32 = 0xC28C_0000;

/// The bit pattern of 40, over how many dB the movement grows.
pub const ACTIVE_SPAN: u32 = 0x4220_0000;

/// The bit pattern of 0.001, the activity up to which nothing is moved.
pub const LEAST_ACTIVITY: u32 = 0x3A83_126F;

/// The bit pattern of 240, the frequency in Hz below which low sound moves the curve.
pub const LOW_CUTOFF: u32 = 0x4370_0000;

/// The bit pattern of 3000, the frequency in Hz above which high sound moves the curve.
pub const HIGH_CUTOFF: u32 = 0x453B_8000;

/// The bit pattern of 3.5, how far in dB high sound moves the curve at most.
pub const HIGH_REACH: u32 = 0x4060_0000;

/// The natural logarithms of the frequencies that matter to the movement.
#[derive(Clone, Copy, Debug, PartialEq, Eq, Structural)]
pub struct FrequencyLogs {
    /// Of 20 Hz, the lowest frequency of the picture.
    pub lowest: Scalar,
    /// Of 200 Hz, where low sound ends.
    pub low_end: Scalar,
    /// Of 240 Hz, below which low sound moves the curve.
    pub low_cutoff: Scalar,
    /// Of 3000 Hz, above which high sound moves the curve.
    pub high_cutoff: Scalar,
    /// Of 3500 Hz, where high sound begins.
    pub high_start: Scalar,
    /// Of 14000 Hz, where high sound ends.
    pub high_end: Scalar,
    /// Of 20000 Hz, the highest frequency of the picture.
    pub highest: Scalar,
}

/// A frequency of the curve.
#[derive(Clone, Copy, Debug, PartialEq, Eq, Structural)]
pub struct CurveFrequency {
    /// In Hz.
    pub frequency: Scalar,
    /// The natural logarithm of it.
    pub log: Scalar,
}

/// The first `k` responses at the place `i`, added up. A response that is too short counts for
/// nothing.
pub open spec fn summed_at(responses: Seq<Vec<Scalar>>, k: int, i: int) -> Scalar
    decreases k,
{
    if k <= 0 {
        Scalar { bits: 0 }
    } else if i < responses[k - 1]@.len() {
        arithmetic::sum(summed_at(responses, k - 1, i), responses[k - 1]@[i])
    } else {
        summed_at(responses, k - 1, i)
    }
}

/// The responses of all bands together: as many gains as the first of them has, or a flat curve if
/// there is none.
pub open spec fn summed_response(responses: Seq<Vec<Scalar>>) -> Seq<Scalar> {
    if responses.len() == 0 {
        Seq::new(EQ_CURVE_RESOLUTION as nat + 1, |i: int| Scalar { bits: 0 })
    } else {
        Seq::new(
            responses[0]@.len(),
            |i: int| summed_at(responses, responses.len() as int, i),
        )
    }
}

/// The logarithm of the frequency at the place `i` of a curve of `len` gains.
pub open spec fn curve_log(i: int, len: nat, logs: FrequencyLogs) -> Scalar {
    arithmetic::sum(
        logs.lowest,
        arithmetic::product(
            curves::part_of_way(i, (len - 1) as nat),
            arithmetic::difference(logs.highest, logs.lowest),
        ),
    )
}

/// The logarithms of the frequencies of a curve of `len` gains.
pub fn curve_logs(len: usize, logs: &FrequencyLogs) -> (r: Vec<Scalar>)
    ensures
        r@ == Seq::new(len as nat, |i: int| curve_log(i, len as nat, *logs)),
{
    let mut r: Vec<Scalar> = Vec::new();
    if len == 0 {
        assert(r@ =~= Seq::new(0, |i: int| curve_log(i, len as nat, *logs)));
        return r;
    }
    let steps = from_count(len - 1);
    let span = logs.highest.minus(logs.lowest);
    let mut i: usize = 0;
    while i < len
        invariant
            i <= len,
            len > 0,
            steps == number::whole((len - 1) as nat),
            span == arithmetic::difference(logs.highest, logs.lowest),
            r@ == Seq::new(i as nat, |i: int| curve_log(i, len as nat, *logs)),
        decreases len - i,
    {
        r.push(logs.lowest.plus(from_count(i).over(steps).times(span)));
        assert(r@ =~= Seq::new(i as nat + 1, |i: int| curve_log(i, len as nat, *logs)));
        i = i + 1;
    }
    r
}

/// The place among `n` levels of the frequency with this logarithm.
pub open spec fn level_place(log: Scalar, n: nat, logs: FrequencyLogs) -> int {
    let part = arithmetic::quotient(
        arithmetic::difference(log, logs.lowest),
        arithmetic::difference(logs.highest, logs.lowest),
    );
    let place = counts::count_below(
        arithmetic::nearest_integer(arithmetic::product(part, number::whole((n - 1) as nat))),
    );
    if place < n {
        place as int
    } else {
        n - 1
    }
}

/// The place among `n` levels of the frequency with this logarithm.
pub fn freq_to_bin(log: Scalar, n: usize, logs: &FrequencyLogs) -> (r: usize)
    requires
        n > 0,
    ensures
        r == level_place(log, n as nat, *logs),
        r < n,
{
    let part = log.minus(logs.lowest).over(logs.highest.minus(logs.lowest));
    let place: usize = part.times(from_count(n - 1)).round().to_count();
    if place < n {
        place
    } else {
        n - 1
    }
}

/// How active the sound between two frequencies is, from not at all to fully.
pub open spec fn activity(
    bins: Seq<Scalar>,
    from: Scalar,
    to: Scalar,
    logs: FrequencyLogs,
) -> Scalar {
    let level = eq_drawer::loudest(
        bins,
        level_place(from, bins.len(), logs),
        level_place(to, bins.len(), logs) + 1,
        Scalar { bits: MIN_DB },
    );
    arithmetic::quotient(
        arithmetic::difference(level, Scalar { bits: QUIET_LEVEL }),
        Scalar { bits: ACTIVE_SPAN },
    ).clamped(Scalar { bits: 0 }, Scalar { bits: ONE })
}

/// How active the low sound is.
pub open spec fn low_activity(bins: Seq<Scalar>, logs: FrequencyLogs) -> Scalar {
    activity(bins, logs.lowest, logs.low_end, logs)
}

/// How active the high sound is.
pub open spec fn high_activity(bins: Seq<Scalar>, logs: FrequencyLogs) -> Scalar {
    activity(bins, logs.high_start, logs.high_end, logs)
}

/// How far low sound moves the curve at a frequency: most at the lowest, and not at all from the
/// cutoff on.
pub open spec fn low_part(at: CurveFrequency, logs: FrequencyLogs) -> Scalar {
    arithmetic::difference(
        Scalar { bits: ONE },
        arithmetic::quotient(
            arithmetic::difference(at.log, logs.lowest),
            arithmetic::difference(logs.low_cutoff, logs.lowest),
        ),
    ).clamped(Scalar { bits: 0 }, Scalar { bits: ONE })
}

/// How far high sound moves the curve at a frequency: most at the highest, and not at all up to the
/// cutoff.
pub open spec fn high_part(at: CurveFrequency, logs: FrequencyLogs) -> Scalar {
    arithmetic::quotient(
        arithmetic::difference(at.log, logs.high_cutoff),
        arithmetic::difference(logs.highest, logs.high_cutoff),
    ).clamped(Scalar { bits: 0 }, Scalar { bits: ONE })
}

/// By how many dB the curve is moved at a frequency.
pub open spec fn movement(
    at: CurveFrequency,
    low: Scalar,
    high: Scalar,
    logs: FrequencyLogs,
) -> Scalar {
    let zero = Scalar { bits: 0 };
    let first = if at.frequency.below(Scalar { bits: LOW_CUTOFF }) {
        arithmetic::sum(
            zero,
            arithmetic::product(
                arithmetic::product(low, Scalar { bits: FOUR }),
                low_part(at, logs),
            ),
        )
    } else {
        zero
    };
    if (Scalar { bits: HIGH_CUTOFF }).below(at.frequency) {
        arithmetic::sum(
            first,
            arithmetic::product(
                arithmetic::product(high, Scalar { bits: HIGH_REACH }),
                high_part(at, logs),
            ),
        )
    } else {
        first
    }
}

/// Whether a spectrum moves nothing.
pub open spec fn is_quiet(bins: Seq<Scalar>, logs: FrequencyLogs) -> bool {
    arithmetic::at_least(
        Scalar { bits: LEAST_ACTIVITY },
        low_activity(bins, logs),
    ) && arithmetic::at_least(
        Scalar { bits: LEAST_ACTIVITY },
        high_activity(bins, logs),
    )
}

/// A gain of the curve, moved by the spectrum and brought into the range of gains.
pub open spec fn moved_gain(
    gain: Scalar,
    at: CurveFrequency,
    bins: Seq<Scalar>,
    logs: FrequencyLogs,
) -> Scalar {
    arithmetic::sum(
        gain,
        movement(at, low_activity(bins, logs), high_activity(bins, logs), logs),
    ).clamped(Scalar { bits: MIN_GAIN }, Scalar { bits: MAX_GAIN })
}

/// The gains of the curve, moved by the spectrum, if there is one that is not quiet.
pub open spec fn moved_gains(
    gains: Seq<Scalar>,
    curve: Seq<CurveFrequency>,
    bins: Seq<Scalar>,
    logs: FrequencyLogs,
) -> Seq<Scalar> {
    if gains.len() == 0 || bins.len() == 0 || is_quiet(bins, logs) {
        gains
    } else {
        Seq::new(gains.len(), |i: int| moved_gain(gains[i], curve[i], bins, logs))
    }
}

fn copy_of(v: &[Scalar]) -> (r: Vec<Scalar>)
    ensures
        r@ == v@,
{
    let mut r: Vec<Scalar> = Vec::new();
    let mut i: usize = 0;
    while i < v.len()
        invariant
            i <= v@.len(),
            r@ == v@.take(i as int),
        decreases v@.len() - i,
    {
        r.push(v[i]);
        assert(r@ =~= v@.take(i + 1));
        i = i + 1;
    }
    assert(r@ =~= v@);
    r
}

proof fn nothing_and_all()
    ensures
        (Scalar { bits: 0 }).units() <= (Scalar { bits: ONE }).units(),
        (Scalar { bits: 0 }).units() == 0,
{
    scalar::positive_patterns_in_order(Scalar { bits: 0 }, Scalar { bits: ONE });
    let zero = Scalar { bits: 0 };
    assert(zero.size() == 0);
}

proof fn gains_in_order()
    ensures
        (Scalar { bits: MIN_GAIN }).units() <= (Scalar { bits: MAX_GAIN }).units(),
{
}

fn find_movement(at: CurveFrequency, low: Scalar, high: Scalar, logs: &FrequencyLogs) -> (r: Scalar)
    ensures
        r == movement(at, low, high, *logs),
{
    let zero = Scalar { bits: 0 };
    let one = Scalar { bits: ONE };
    proof {
        nothing_and_all();
    }
    let mut r = zero;
    if at.frequency.is_below(Scalar { bits: LOW_CUTOFF }) {
        let way = at.log.minus(logs.lowest).over(logs.low_cutoff.minus(logs.lowest));
        let part = one.minus(way).clamp(zero, one);
        r = r.plus(low.times(Scalar { bits: FOUR }).times(part));
    }
    if (Scalar { bits: HIGH_CUTOFF }).is_below(at.frequency) {
        let way = at.log.minus(logs.high_cutoff).over(logs.highest.minus(logs.high_cutoff));
        let part = way.clamp(zero, one);
        r = r.plus(high.times(Scalar { bits: HIGH_REACH }).times(part));
    }
    r
}

impl EQDrawView {
    /// The responses of the bands that are enabled, added up.
    pub fn get_summed_frequency_response(&self, responses: &[Vec<Scalar>]) -> (r: Vec<Scalar>)
        requires
            responses@.len() == eq_drawer::enabled_before(self@.bands, 9).len(),
        ensures
            r@ == summed_response(responses@),
    {
        let zero = Scalar { bits: 0 };
        let n: usize = responses.len();
        let len: usize = if n == 0 {
            EQ_CURVE_RESOLUTION + 1
        } else {
            responses[0].len()
        };
        let mut r: Vec<Scalar> = Vec::new();
        let mut i: usize = 0;
        while i < len
            invariant
                i <= len,
                n == responses@.len(),
                zero == (Scalar { bits: 0 }),
                len == (if n == 0 {
                    EQ_CURVE_RESOLUTION as nat + 1
                } else {
                    responses@[0]@.len()
                }),
                r@ == summed_response(responses@).take(i as int),
            decreases len - i,
        {
            let mut total = zero;
            let mut k: usize = 0;
            while k < n
                invariant
                    k <= n,
                    n == responses@.len(),
                    total == summed_at(responses@, k as int, i as int),
                decreases n - k,
            {
                if i < responses[k].len() {
                    total = total.plus(responses[k][i]);
                }
                k = k + 1;
            }
            r.push(total);
            assert(r@ =~= summed_response(responses@).take(i + 1));
            i = i + 1;
        }
        assert(r@ =~= summed_response(responses@));
        r
    }

    /// How active the sound between two frequencies is, from not at all to fully.
    fn activity_between(&self, from: Scalar, to: Scalar, logs: &FrequencyLogs) -> (r: Scalar)
        requires
            self@.spectrum_bins.len() > 0,
        ensures
            r == activity(self@.spectrum_bins, from, to, *logs),
    {
        let n: usize = self.spectrum_bins.len();
        let start: usize = freq_to_bin(from, n, logs);
        let end: usize = freq_to_bin(to, n, logs);
        let level = if start <= end {
            loudest_bin(self.spectrum_bins.as_slice(), start, end)
        } else {
            Scalar { bits: MIN_DB }
        };
        proof {
            nothing_and_all();
        }
        level.minus(Scalar { bits: QUIET_LEVEL }).over(Scalar { bits: ACTIVE_SPAN }).clamp(
            Scalar { bits: 0 },
            Scalar { bits: ONE },
        )
    }

    /// The gains of the curve, moved by the spectrum: low sound lifts it at low frequencies, and
    /// high sound at high ones.
    pub fn compute_beacn_ballistics(
        &self,
        gains: &[Scalar],
        curve: &[CurveFrequency],
        logs: &FrequencyLogs,
    ) -> (r: Vec<Scalar>)
        requires
            curve@.len() == gains@.len(),
        ensures
            r@ == moved_gains(gains@, curve@, self@.spectrum_bins, *logs),
    {
        if gains.len() == 0 || self.spectrum_bins.len() == 0 {
            return copy_of(gains);
        }
        let low = self.activity_between(logs.lowest, logs.low_end, logs);
        let high = self.activity_between(logs.high_start, logs.high_end, logs);
        let least = Scalar { bits: LEAST_ACTIVITY };
        if least.is_at_least(low) && least.is_at_least(high) {
            return copy_of(gains);
        }
        let ghost all = moved_gains(gains@, curve@, self@.spectrum_bins, *logs);
        let mut r: Vec<Scalar> = Vec::new();
        let mut i: usize = 0;
        while i < gains.len()
            invariant
                i <= gains@.len(),
                curve@.len() == gains@.len(),
                low == low_activity(self@.spectrum_bins, *logs),
                high == high_activity(self@.spectrum_bins, *logs),
                all == Seq::new(
                    gains@.len(),
                    |i: int| moved_gain(gains@[i], curve@[i], self@.spectrum_bins, *logs),
                ),
                r@ == all.take(i as int),
            decreases gains@.len() - i,
        {
            let more = find_movement(curve[i], low, high, logs);
            proof {
                gains_in_order();
            }
            r.push(
                gains[i].plus(more).clamp(Scalar { bits: MIN_GAIN }, Scalar { bits: MAX_GAIN }),
            );
            assert(r@ =~= all.take(i + 1));
            i = i + 1;
        }
        assert(r@ =~= all);
        r
    }
}

proof fn low_levels_are_inactive(level: Scalar)
    requires
        !level.nan(),
        !level.infinite(),
        level.units() <= (Scalar { bits: QUIET_LEVEL }).units(),
    ensures
        ({
            let a = arithmetic::quotient(
                arithmetic::difference(level, Scalar { bits: QUIET_LEVEL }),
                Scalar { bits: ACTIVE_SPAN },
            ).clamped(Scalar { bits: 0 }, Scalar { bits: ONE });
            arithmetic::at_least(Scalar { bits: LEAST_ACTIVITY }, a)
        }),
{
    let quiet = Scalar { bits: QUIET_LEVEL };
    let span = Scalar { bits: ACTIVE_SPAN };
    nothing_and_all();
    scalar::positive_patterns_in_order(Scalar { bits: 0 }, Scalar { bits: LEAST_ACTIVITY });
    assert(arithmetic::negated(quiet).size() == quiet.size());
    let d = arithmetic::difference(level, quiet);
    let units = level.units() + arithmetic::negated(quiet).units();
    assert(units <= 0);
    if units < 0 {
        number::rounded_stops((-units) as nat, 1, 0);
        let b = number::nearest_pattern((-units) as nat, 1);
        assert(d == number::signed(true, b));
        assert(d.magnitude() == b);
    } else {
        assert(d == number::signed(level.negative() && arithmetic::negated(quiet).negative(), 0));
        assert(d.magnitude() == 0);
    }
    assert(!d.nan());
    assert(d.units() <= 0);
    assert(span.exponent() == 132);
    scalar::positive_patterns_in_order(Scalar { bits: 0 }, span);
    assert(span.units() > 0) by {
        scalar::size_follows_magnitude(Scalar { bits: 0 }, span);
    }
    let q = arithmetic::quotient(d, span);
    if !d.infinite() {
        let b = number::nearest_pattern(d.size() * pow2(149), span.size());
        number::rounded_stops(d.size() * pow2(149), span.size(), 0);
        assert(q == number::signed(d.negative(), b));
        assert(q.magnitude() == b);
        if !d.negative() {
            assert(d.size() == 0);
            assert(0 * pow2(149) == 0);
            let zero = Scalar { bits: 0 };
            assert(zero.size() == 0);
            assert(span.size() * 0 == 0) by (nonlinear_arith);
            number::patterns_round_to_themselves(0, span.size(), 0);
        }
    }
    assert(!q.nan());
    assert(q.units() <= 0);
}

proof fn low_levels_stay_low(bins: Seq<Scalar>, a: int, b: int)
    requires
        0 <= a < bins.len(),
        b <= bins.len(),
        forall|i: int|
            0 <= i < bins.len() ==> !(Scalar { bits: QUIET_LEVEL }).below(#[trigger] bins[i]),
    ensures
        ({
            let level = eq_drawer::loudest(bins, a, b, Scalar { bits: MIN_DB });
            &&& !level.nan()
            &&& !level.infinite()
            &&& level.units() <= (Scalar { bits: QUIET_LEVEL }).units()
        }),
{
    let floor = Scalar { bits: MIN_DB };
    let quiet = Scalar { bits: QUIET_LEVEL };
    let level = eq_drawer::loudest(bins, a, b, floor);
    scalar::size_follows_magnitude(quiet, floor);
    loudest_is_finite(bins, a, b, floor);
    if a < b {
        eq_drawer::loudest_is_loudest(bins, a, b, floor, a);
        if level != floor {
            let k = choose|k: int| a <= k < b && #[trigger] bins[k] == level;
            assert(!quiet.below(bins[k]));
        }
    }
}

proof fn places_are_valid(log: Scalar, n: nat, logs: FrequencyLogs)
    requires
        n > 0,
    ensures
        0 <= level_place(log, n, logs) < n,
{
}

proof fn low_spectrum_is_inactive(bins: Seq<Scalar>, from: Scalar, to: Scalar, logs: FrequencyLogs)
    requires
        bins.len() > 0,
        forall|i: int|
            0 <= i < bins.len() ==> !(Scalar { bits: QUIET_LEVEL }).below(#[trigger] bins[i]),
    ensures
        arithmetic::at_least(Scalar { bits: LEAST_ACTIVITY }, activity(bins, from, to, logs)),
{
    let a = level_place(from, bins.len(), logs);
    let b = level_place(to, bins.len(), logs) + 1;
    places_are_valid(from, bins.len(), logs);
    places_are_valid(to, bins.len(), logs);
    low_levels_stay_low(bins, a, b);
    low_levels_are_inactive(eq_drawer::loudest(bins, a, b, Scalar { bits: MIN_DB }));
}

/// The loudest level is finite if the floor is.
pub proof fn loudest_is_finite(bins: Seq<Scalar>, from: int, upto: int, floor: Scalar)
    requires
        !floor.nan(),
        !floor.infinite(),
    ensures
        !eq_drawer::loudest(bins, from, upto, floor).nan(),
        !eq_drawer::loudest(bins, from, upto, floor).infinite(),
    decreases upto - from,
{
    if from < upto {
        loudest_is_finite(bins, from, upto - 1, floor);
    }
}

/// A spectrum with no level above the quiet one moves nothing.
pub proof fn quiet_moves_nothing(
    gains: Seq<Scalar>,
    curve: Seq<CurveFrequency>,
    bins: Seq<Scalar>,
    logs: FrequencyLogs,
)
    requires
        forall|i: int|
            0 <= i < bins.len() ==> !(Scalar { bits: QUIET_LEVEL }).below(#[trigger] bins[i]),
    ensures
        moved_gains(gains, curve, bins, logs) == gains,
{
    if bins.len() > 0 {
        low_spectrum_is_inactive(bins, logs.lowest, logs.low_end, logs);
        low_spectrum_is_inactive(bins, logs.high_start, logs.high_end, logs);
    }
}

/// Between the cutoffs the curve is not moved, whatever is heard.
pub proof fn middle_stays(
    at: CurveFrequency,
    low: Scalar,
    high: Scalar,
    logs: FrequencyLogs,
)
    requires
        !at.frequency.below(Scalar { bits: LOW_CUTOFF }),
        !(Scalar { bits: HIGH_CUTOFF }).below(at.frequency),
    ensures
        movement(at, low, high, logs) == (Scalar { bits: 0 }),
{
}

/// A gain that was moved is in the range of gains, or no number.
pub proof fn moved_gains_are_in_range(
    gain: Scalar,
    at: CurveFrequency,
    bins: Seq<Scalar>,
    logs: FrequencyLogs,
)
    ensures
        !moved_gain(gain, at, bins, logs).below(Scalar { bits: MIN_GAIN }),
        !(Scalar { bits: MAX_GAIN }).below(moved_gain(gain, at, bins, logs)),
{
    gains_in_order();
}

/// A filter, and what it is made of.
#[derive(Clone, Copy, Debug, PartialEq, Eq, Structural)]
pub enum Filter {
    LowShelf { frequency: Scalar, gain: Scalar, q: Scalar },
    HighShelf { frequency: Scalar, gain: Scalar, q: Scalar },
    Bell { frequency: Scalar, gain: Scalar, q: Scalar },
    Notch { frequency: Scalar, q: Scalar },
    HighPass { frequency: Scalar, q: Scalar },
    LowPass { frequency: Scalar, q: Scalar },
}

/// The filter of a band that has a shape.
pub open spec fn filter_of(band: EqualiserBandConfig) -> Filter {
    let frequency = number::whole(band.frequency as nat);
    let gain = band.gain;
    let q = band.q;
    match band.band_type {
        EQBandType::LowShelf => Filter::LowShelf { frequency, gain, q },
        EQBandType::HighShelf => Filter::HighShelf { frequency, gain, q },
        EQBandType::BellBand => Filter::Bell { frequency, gain, q },
        EQBandType::NotchFilter => Filter::Notch { frequency, q },
        EQBandType::HighPassFilter => Filter::HighPass { frequency, q },
        _ => Filter::LowPass { frequency, q },
    }
}

/// The filter of a band that has a shape.
pub fn get_coefficient(band: &EqualiserBandConfig) -> (r: Filter)
    requires
        band.band_type != EQBandType::NotSet,
    ensures
        r == filter_of(*band),
{
    let frequency = from_whole(band.frequency);
    let gain = band.gain;
    let q = band.q;
    match band.band_type {
        EQBandType::LowShelf => Filter::LowShelf { frequency, gain, q },
        EQBandType::HighShelf => Filter::HighShelf { frequency, gain, q },
        EQBandType::BellBand => Filter::Bell { frequency, gain, q },
        EQBandType::NotchFilter => Filter::Notch { frequency, q },
        EQBandType::HighPassFilter => Filter::HighPass { frequency, q },
        _ => Filter::LowPass { frequency, q },
    }
}

} // verus!
