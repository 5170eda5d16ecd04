//! The levels of a spectrum, from the bins of a transform to what is shown.

use vstd::prelude::*;

use crate::arithmetic;
use crate::counts::from_count;
use crate::counts;
use crate::eq_drawer::MIN_DB;
use crate::number;
use crate::scalar::Scalar;
use crate::spectrum::DynamicSpectrumAnalyzer;
use crate::spectrum::HALF;

verus! {

/// The bit pattern of 4.
pub const FOUR: u32 = 0x4080_0000;

/// The bit pattern of 20, by how many dB the level of ten times the magnitude is higher.
pub const DB_PER_DECADE: u32 = 0x41A0_0000;

/// The bit pattern of one millionth, what is added to a magnitude before its level is taken.
pub const LEAST_MAGNITUDE: u32 = 0x3586_37BD;

/// The bit pattern of 0.85, the part of a rising level that is new.
pub const NEW_PART: u32 = 0x3F59_999A;

/// The bit pattern of 0.15, the part of a rising level that is old.
pub const OLD_PART: u32 = 0x3E19_999A;

/// The bit pattern of 28, how fast a level falls, in dB a second.
pub const DECAY_RATE: u32 = 0x41E0_0000;

/// The bit pattern of 0.001, the least time between two frames, in seconds.
pub const LEAST_TIME: u32 = 0x3A83_126F;

/// The bit pattern of 0.2, the part of each neighbour in a smoothed level.
pub const NEIGHBOUR_PART: u32 = 0x3E4C_CCCD;

/// The bit pattern of 0.6, the part of a level itself in a smoothed level.
pub const OWN_PART: u32 = 0x3F19_999A;

/// The logarithm of the frequency at the place `i` of `n`, which are spread evenly from `log_min`
/// to `log_max`.
pub open spec fn log_at(i: int, n: nat, log_min: Scalar, log_max: Scalar) -> Scalar {
    let steps = if n >= 2 {
        (n - 1) as nat
    } else {
        1
    };
    arithmetic::sum(
        log_min,
        arithmetic::product(
            arithmetic::quotient(number::whole(i as nat), number::whole(steps)),
            arithmetic::difference(log_max, log_min),
        ),
    )
}

/// The logarithms of the frequencies of `n` levels, spread evenly from `log_min` to `log_max`.
pub fn point_logs(n: usize, log_min: Scalar, log_max: Scalar) -> (r: Vec<Scalar>)
    ensures
        r@ == Seq::new(n as nat, |i: int| log_at(i, n as nat, log_min, log_max)),
{
    let steps = from_count(
        if n >= 2 {
            n - 1
        } else {
            1
        },
    );
    let span = log_max.minus(log_min);
    let mut r: Vec<Scalar> = Vec::new();
    let mut i: usize = 0;
    while i < n
        invariant
            i <= n,
            span == arithmetic::difference(log_max, log_min),
            steps == number::whole(
                if n >= 2 {
                    (n - 1) as nat
                } else {
                    1
                },
            ),
            r@ == Seq::new(i as nat, |i: int| log_at(i, n as nat, log_min, log_max)),
        decreases n - i,
    {
        r.push(log_min.plus(from_count(i).over(steps).times(span)));
        assert(r@ =~= Seq::new(i as nat + 1, |i: int| log_at(i, n as nat, log_min, log_max)));
        i = i + 1;
    }
    r
}

/// What a level is taken from: the frequencies from the first to the second. These are their
/// logarithms, half the distance between two of `n` levels below and above `log`.
pub open spec fn edges_of(log: Scalar, n: nat, log_min: Scalar, log_max: Scalar) -> (
    Scalar,
    Scalar,
) {
    let half = arithmetic::product(
        arithmetic::quotient(arithmetic::difference(log_max, log_min), number::whole(n)),
        Scalar { bits: HALF },
    );
    (arithmetic::difference(log, half), arithmetic::sum(log, half))
}

/// The logarithms of the frequencies between which each level is taken, from those of the levels.
pub fn edge_logs(logs: &[Scalar], log_min: Scalar, log_max: Scalar) -> (r: Vec<(Scalar, Scalar)>)
    ensures
        r@ == Seq::new(
            logs@.len(),
            |i: int| edges_of(logs@[i], logs@.len(), log_min, log_max),
        ),
{
    let n: usize = logs.len();
    let half = log_max.minus(log_min).over(from_count(n)).times(Scalar { bits: HALF });
    let mut r: Vec<(Scalar, Scalar)> = Vec::new();
    let mut i: usize = 0;
    while i < n
        invariant
            i <= n,
            n == logs@.len(),
            half == arithmetic::product(
                arithmetic::quotient(
                    arithmetic::difference(log_max, log_min),
                    number::whole(n as nat),
                ),
                Scalar { bits: HALF },
            ),
            r@ == Seq::new(
                i as nat,
                |i: int| edges_of(logs@[i], logs@.len(), log_min, log_max),
            ),
        decreases n - i,
    {
        r.push((logs[i].minus(half), logs[i].plus(half)));
        assert(r@ =~= Seq::new(
            i as nat + 1,
            |i: int| edges_of(logs@[i], logs@.len(), log_min, log_max),
        ));
        i = i + 1;
    }
    r
}

/// Where among the bins of a transform of `size` samples a frequency is.
pub open spec fn bin_position(frequency: Scalar, size: nat, sample_rate: Scalar) -> Scalar {
    arithmetic::quotient(arithmetic::product(frequency, number::whole(size)), sample_rate)
}

/// The bin `n`, or the last that means something.
pub open spec fn valid_bin(n: usize, size: nat) -> int {
    if n < size / 2 {
        n as int
    } else {
        size / 2 - 1
    }
}

/// The largest magnitude of the bins from `from` up to and without `upto`.
pub open spec fn peak(norms: Seq<Scalar>, from: int, upto: int, scale: Scalar) -> Scalar
    decreases upto - from,
{
    if upto <= from {
        Scalar { bits: 0 }
    } else {
        let before = peak(norms, from, upto - 1, scale);
        let m = arithmetic::product(norms[upto - 1], scale);
        if before.below(m) {
            m
        } else {
            before
        }
    }
}

/// The magnitude of the frequencies between two edges: the largest of their bins, or, where these
/// hold nothing, what lies between two of them.
pub open spec fn magnitude_between(
    norms: Seq<Scalar>,
    edges: (Scalar, Scalar),
    size: nat,
    sample_rate: Scalar,
) -> Scalar {
    let scale = arithmetic::quotient(Scalar { bits: FOUR }, number::whole(size));
    let position = bin_position(edges.0, size, sample_rate);
    let low = valid_bin(counts::count_below(position), size);
    let high = valid_bin(counts::count_above(bin_position(edges.1, size, sample_rate)), size);
    let largest = peak(norms, low, high + 1, scale);
    if largest.equals(Scalar { bits: 0 }) {
        let next = valid_bin((low + 1) as usize, size);
        let m = arithmetic::product(norms[low], scale);
        let more = arithmetic::difference(arithmetic::product(norms[next], scale), m);
        arithmetic::sum(
            m,
            arithmetic::product(arithmetic::difference(position, number::whole(low as nat)), more),
        )
    } else {
        largest
    }
}

/// The largest magnitude of the bins from `low` to `high`.
fn largest_magnitude(norms: &[Scalar], low: usize, high: usize, scale: Scalar) -> (r: Scalar)
    requires
        high < norms@.len(),
    ensures
        r == peak(norms@, low as int, high + 1, scale),
{
    let mut r = Scalar { bits: 0 };
    if low > high {
        return r;
    }
    let mut i: usize = low;
    while i <= high
        invariant
            low <= i <= high + 1,
            high < norms@.len(),
            r == peak(norms@, low as int, i as int, scale),
        decreases high + 1 - i,
    {
        let m = norms[i].times(scale);
        if r.is_below(m) {
            r = m;
        }
        i = i + 1;
    }
    r
}

fn clamp_bin(n: usize, size: usize) -> (r: usize)
    requires
        size >= 2,
    ensures
        r == valid_bin(n, size as nat),
        r < size / 2,
{
    if n < size / 2 {
        n
    } else {
        size / 2 - 1
    }
}

/// The level of a magnitude, from the logarithm of it and of what was added.
pub open spec fn level_from(log: Scalar) -> Scalar {
    arithmetic::product(Scalar { bits: DB_PER_DECADE }, log).clamped(
        Scalar { bits: MIN_DB },
        Scalar { bits: 0 },
    )
}

/// The level that is shown after `shown`, when the level is `level` now. It rises most of the way
/// at once, and falls by at most `decay`.
pub open spec fn settled_level(shown: Scalar, level: Scalar, decay: Scalar) -> Scalar {
    if shown.below(level) {
        arithmetic::sum(
            arithmetic::product(Scalar { bits: NEW_PART }, level),
            arithmetic::product(Scalar { bits: OLD_PART }, shown),
        )
    } else {
        arithmetic::larger(arithmetic::difference(shown, decay), level)
    }
}

/// By how much a level falls while this many samples are heard.
pub open spec fn decay_in(samples: nat, sample_rate: Scalar) -> Scalar {
    arithmetic::product(
        Scalar { bits: DECAY_RATE },
        arithmetic::larger(
            arithmetic::quotient(number::whole(samples), sample_rate),
            Scalar { bits: LEAST_TIME },
        ),
    )
}

/// The level at the place `i`, smoothed with its neighbours. Those at the ends stay.
pub open spec fn smoothed(levels: Seq<Scalar>, i: int) -> Scalar {
    if 1 <= i < levels.len() - 1 {
        arithmetic::sum(
            arithmetic::sum(
                arithmetic::product(Scalar { bits: NEIGHBOUR_PART }, levels[i - 1]),
                arithmetic::product(Scalar { bits: OWN_PART }, levels[i]),
            ),
            arithmetic::product(Scalar { bits: NEIGHBOUR_PART }, levels[i + 1]),
        )
    } else {
        levels[i]
    }
}

/// The levels that are shown after `shown`, from the logarithms of the magnitudes.
pub open spec fn settled_levels(shown: Seq<Scalar>, logs: Seq<Scalar>, decay: Scalar) -> Seq<
    Scalar,
> {
    Seq::new(shown.len(), |i: int| settled_level(shown[i], level_from(logs[i]), decay))
}

/// Whether there is nothing that a second of sound could be: the sample rate is not above zero.
pub open spec fn no_rate(sample_rate: Scalar) -> bool {
    !sample_rate.nan() && sample_rate.units() <= 0
}

/// The spectrum that is shown after `shown`.
pub open spec fn next_frame(
    shown: Seq<Scalar>,
    logs: Seq<Scalar>,
    samples: nat,
    sample_rate: Scalar,
) -> Seq<Scalar> {
    if no_rate(sample_rate) {
        shown
    } else {
        let levels = settled_levels(shown, logs, decay_in(samples, sample_rate));
        Seq::new(shown.len(), |i: int| smoothed(levels, i))
    }
}

impl DynamicSpectrumAnalyzer {
    /// The samples heard last, each with its weight: what the transform is made of.
    pub fn weighted_samples(&self) -> (r: Vec<Scalar>)
        requires
            self.wf(),
        ensures
            r@ == Seq::new(
                self.history@.len(),
                |i: int| arithmetic::product(self.history@[i], self.window@[i]),
            ),
    {
        let mut r: Vec<Scalar> = Vec::new();
        let mut i: usize = 0;
        while i < self.history.len()
            invariant
                self.wf(),
                i <= self.history@.len(),
                r@ == Seq::new(
                    i as nat,
                    |i: int| arithmetic::product(self.history@[i], self.window@[i]),
                ),
            decreases self.history@.len() - i,
        {
            r.push(self.history[i].times(self.window[i]));
            assert(r@ =~= Seq::new(
                i as nat + 1,
                |i: int| arithmetic::product(self.history@[i], self.window@[i]),
            ));
            i = i + 1;
        }
        r
    }

    /// The magnitudes between each two of `edges`, with the least of all added, from the sizes of
    /// the bins of the transform.
    pub fn magnitudes(&self, norms: &[Scalar], edges: &[(Scalar, Scalar)]) -> (r: Vec<Scalar>)
        requires
            self.wf(),
            norms@.len() == self.history@.len(),
        ensures
            r@ == Seq::new(
                edges@.len(),
                |i: int|
                    arithmetic::sum(
                        magnitude_between(
                            norms@,
                            edges@[i],
                            norms@.len(),
                            self.sample_rate,
                        ),
                        Scalar { bits: LEAST_MAGNITUDE },
                    ),
            ),
    {
        let mut r: Vec<Scalar> = Vec::new();
        let mut i: usize = 0;
        while i < edges.len()
            invariant
                self.wf(),
                norms@.len() == self.history@.len(),
                i <= edges@.len(),
                r@ == Seq::new(
                    i as nat,
                    |i: int|
                        arithmetic::sum(
                            magnitude_between(
                                norms@,
                                edges@[i],
                                norms@.len(),
                                self.sample_rate,
                            ),
                            Scalar { bits: LEAST_MAGNITUDE },
                        ),
                ),
            decreases edges@.len() - i,
        {
            let m = find_magnitude(norms, edges[i], self.sample_rate);
            r.push(m.plus(Scalar { bits: LEAST_MAGNITUDE }));
            assert(r@ =~= Seq::new(
                i as nat + 1,
                |i: int|
                    arithmetic::sum(
                        magnitude_between(
                            norms@,
                            edges@[i],
                            norms@.len(),
                            self.sample_rate,
                        ),
                        Scalar { bits: LEAST_MAGNITUDE },
                    ),
            ));
            i = i + 1;
        }
        r
    }

    /// Goes on to the next spectrum that is shown, from the logarithms of the magnitudes, when
    /// this many samples were heard since the last.
    pub fn render_spectrum_frame(
        &self,
        output_db: &mut Vec<Scalar>,
        logs: &[Scalar],
        sample_count: usize,
    )
        requires
            logs@.len() == old(output_db)@.len(),
        ensures
            final(output_db)@ == next_frame(
                old(output_db)@,
                logs@,
                sample_count as nat,
                self.sample_rate,
            ),
    {
        let ghost shown = output_db@;
        let rate = self.sample_rate;
        if (Scalar { bits: 0 }).is_at_least(rate) {
            proof {
                let zero = Scalar { bits: 0 };
                assert(zero.size() == 0);
            }
            return ;
        }
        proof {
            let zero = Scalar { bits: 0 };
            assert(zero.size() == 0);
            least_is_lowest();
        }
        let time = from_count(sample_count).over(rate).or_larger(Scalar { bits: LEAST_TIME });
        let decay = (Scalar { bits: DECAY_RATE }).times(time);
        let ghost levels = settled_levels(shown, logs@, decay);
        let n: usize = output_db.len();
        let mut before: Vec<Scalar> = Vec::new();
        let mut i: usize = 0;
        while i < n
            invariant
                i <= n,
                n == shown.len() == logs@.len(),
                output_db@ == shown,
                levels == settled_levels(shown, logs@, decay),
                (Scalar { bits: MIN_DB }).units() <= (Scalar { bits: 0 }).units(),
                before@ == levels.take(i as int),
            decreases n - i,
        {
            let level = (Scalar { bits: DB_PER_DECADE }).times(logs[i]).clamp(
                Scalar { bits: MIN_DB },
                Scalar { bits: 0 },
            );
            let now = output_db[i];
            if now.is_below(level) {
                let new_part = (Scalar { bits: NEW_PART }).times(level);
                before.push(new_part.plus((Scalar { bits: OLD_PART }).times(now)));
            } else {
                before.push(now.minus(decay).or_larger(level));
            }
            assert(before@ =~= levels.take(i + 1));
            i = i + 1;
        }
        assert(before@ =~= levels);
        let mut k: usize = 0;
        while k < n
            invariant
                k <= n,
                n == levels.len() == shown.len(),
                before@ == levels,
                output_db@.len() == n,
                forall|j: int| 0 <= j < k ==> #[trigger] output_db@[j] == smoothed(levels, j),
            decreases n - k,
        {
            if 1 <= k && k < n - 1 {
                let left = (Scalar { bits: NEIGHBOUR_PART }).times(before[k - 1]);
                let own = (Scalar { bits: OWN_PART }).times(before[k]);
                let right = (Scalar { bits: NEIGHBOUR_PART }).times(before[k + 1]);
                output_db[k] = left.plus(own).plus(right);
            } else {
                output_db[k] = before[k];
            }
            k = k + 1;
        }
        assert(output_db@ =~= next_frame(shown, logs@, sample_count as nat, rate));
    }
}

fn find_magnitude(norms: &[Scalar], edges: (Scalar, Scalar), sample_rate: Scalar) -> (r: Scalar)
    requires
        norms@.len() >= 2,
    ensures
        r == magnitude_between(norms@, edges, norms@.len(), sample_rate),
{
    let size: usize = norms.len();
    let count = from_count(size);
    let scale = (Scalar { bits: FOUR }).over(count);
    let position = edges.0.times(count).over(sample_rate);
    let low: usize = clamp_bin(position.to_count(), size);
    let high: usize = clamp_bin(edges.1.times(count).over(sample_rate).to_count_above(), size);
    let largest = largest_magnitude(norms, low, high, scale);
    if largest.is_equal(Scalar { bits: 0 }) {
        let next: usize = clamp_bin(low + 1, size);
        let m = norms[low].times(scale);
        let more = norms[next].times(scale).minus(m);
        m.plus(position.minus(from_count(low)).times(more))
    } else {
        largest
    }
}

/// The lowest level is not above zero.
pub proof fn least_is_lowest()
    ensures
        (Scalar { bits: MIN_DB }).units() <= (Scalar { bits: 0 }).units(),
{
    let zero = Scalar { bits: 0 };
    assert(zero.size() == 0);
}

/// The largest magnitude covers that of every bin it is taken from.
pub proof fn peak_covers_bins(norms: Seq<Scalar>, from: int, upto: int, scale: Scalar, k: int)
    requires
        from <= k < upto,
    ensures
        !peak(norms, from, upto, scale).below(arithmetic::product(norms[k], scale)),
        !peak(norms, from, upto, scale).nan(),
        peak(norms, from, upto, scale).units() >= 0,
    decreases upto - from,
{
    let zero = Scalar { bits: 0 };
    assert(zero.size() == 0);
    if from < upto - 1 {
        let j = if k < upto - 1 {
            k
        } else {
            from
        };
        peak_covers_bins(norms, from, upto - 1, scale, j);
    } else {
        assert(peak(norms, from, upto - 1, scale) == zero);
    }
}

/// A level that does not rise falls no further than the level that there is now, and by no more
/// than the decay.
pub proof fn levels_fall_slowly(shown: Scalar, level: Scalar, decay: Scalar)
    requires
        !level.nan(),
        !shown.below(level),
    ensures
        !settled_level(shown, level, decay).below(level),
        !settled_level(shown, level, decay).below(arithmetic::difference(shown, decay)),
        settled_level(shown, level, decay) == level || settled_level(shown, level, decay)
            == arithmetic::difference(shown, decay),
{
}

/// The levels that a magnitude has are from the lowest to zero.
pub proof fn levels_are_in_range(log: Scalar)
    requires
        !arithmetic::product(Scalar { bits: DB_PER_DECADE }, log).nan(),
    ensures
        (Scalar { bits: MIN_DB }).units() <= level_from(log).units() <= 0,
        !level_from(log).nan(),
{
    least_is_lowest();
    let zero = Scalar { bits: 0 };
    assert(zero.size() == 0);
}

} // verus!
