//! What holds of the spectrum: what it is made of, and how it moves.

use vstd::arithmetic::power2::lemma2_to64;
use vstd::arithmetic::power2::lemma_pow2_adds;
use vstd::arithmetic::power2::lemma_pow2_pos;
use vstd::arithmetic::power2::pow2;
use vstd::prelude::*;

use crate::arithmetic;
use crate::counts;
use crate::curves;
use crate::decimal_laws;
use crate::meter::ONE;
use crate::number;
use crate::order_laws;
use crate::picture_laws;
use crate::scalar::Scalar;
use crate::spectrum;
use crate::spectrum_frame;
use crate::tenths;

verus! {

/// The samples that are kept are the last that were heard, in the order in which they were: those
/// of a block stand at the end, and what was kept before makes room for them.
pub proof fn last_samples_are_kept(history: Seq<Scalar>, block: Seq<Scalar>, i: int)
    requires
        0 <= i < history.len(),
    ensures
        ({
            let n = history.len() as int;
            let k = block.len() as int;
            let kept = spectrum::heard(history, block);
            &&& kept.len() == n
            &&& i + k < n ==> kept[i] == history[i + k]
            &&& i + k >= n ==> kept[i] == block[i + k - n]
        }),
{
}

/// A level of the next frame depends on no levels and no magnitudes but its own and those beside
/// it.
pub proof fn levels_are_local(
    shown: Seq<Scalar>,
    other: Seq<Scalar>,
    logs: Seq<Scalar>,
    other_logs: Seq<Scalar>,
    samples: nat,
    rate: Scalar,
    i: int,
)
    requires
        shown.len() == other.len(),
        shown.len() == logs.len(),
        logs.len() == other_logs.len(),
        0 <= i < shown.len(),
        forall|k: int|
            0 <= k < shown.len() && i - 1 <= k <= i + 1 ==> #[trigger] shown[k] == other[k],
        forall|k: int|
            0 <= k < logs.len() && i - 1 <= k <= i + 1 ==> #[trigger] logs[k] == other_logs[k],
    ensures
        spectrum_frame::next_frame(shown, logs, samples, rate)[i] == spectrum_frame::next_frame(
            other,
            other_logs,
            samples,
            rate,
        )[i],
{
    assert(shown[i] == other[i] && logs[i] == other_logs[i]);
    if i > 0 {
        assert(shown[i - 1] == other[i - 1] && logs[i - 1] == other_logs[i - 1]);
    }
    if i + 1 < shown.len() {
        assert(shown[i + 1] == other[i + 1] && logs[i + 1] == other_logs[i + 1]);
    }
}

/// Every level that has two neighbours moves alike: taking the first level away, or the last,
/// changes none but those that lose a neighbour by it.
pub proof fn levels_move_alike(
    shown: Seq<Scalar>,
    logs: Seq<Scalar>,
    samples: nat,
    rate: Scalar,
    i: int,
)
    requires
        shown.len() == logs.len(),
        shown.len() >= 2,
    ensures
        1 <= i < shown.len() - 1 ==> spectrum_frame::next_frame(
            shown.drop_first(),
            logs.drop_first(),
            samples,
            rate,
        )[i] == spectrum_frame::next_frame(shown, logs, samples, rate)[i + 1],
        0 <= i < shown.len() - 2 ==> spectrum_frame::next_frame(
            shown.drop_last(),
            logs.drop_last(),
            samples,
            rate,
        )[i] == spectrum_frame::next_frame(shown, logs, samples, rate)[i],
{
    let (a, b) = (shown.drop_first(), logs.drop_first());
    let (c, d) = (shown.drop_last(), logs.drop_last());
    if 1 <= i < shown.len() - 1 {
        assert(a[i] == shown[i + 1] && b[i] == logs[i + 1]);
        assert(a[i - 1] == shown[i] && b[i - 1] == logs[i]);
        if i + 1 < a.len() {
            assert(a[i + 1] == shown[i + 2] && b[i + 1] == logs[i + 2]);
        }
    }
    if 0 <= i < shown.len() - 2 {
        assert(c[i] == shown[i] && d[i] == logs[i]);
        assert(c[i + 1] == shown[i + 1] && d[i + 1] == logs[i + 1]);
        if i > 0 {
            assert(c[i - 1] == shown[i - 1] && d[i - 1] == logs[i - 1]);
        }
    }
}

/// A frame has as many levels as the one before. Without a sample rate it is the one before.
pub proof fn frames_have_the_same_levels(
    shown: Seq<Scalar>,
    logs: Seq<Scalar>,
    samples: nat,
    rate: Scalar,
)
    ensures
        spectrum_frame::next_frame(shown, logs, samples, rate).len() == shown.len(),
        !rate.nan() && rate.units() <= 0 ==> spectrum_frame::next_frame(
            shown,
            logs,
            samples,
            rate,
        ) == shown,
{
}

/// The first and the last level are not smoothed: each rises or falls on its own.
pub proof fn levels_at_the_ends_stand_alone(
    shown: Seq<Scalar>,
    logs: Seq<Scalar>,
    samples: nat,
    rate: Scalar,
)
    requires
        shown.len() == logs.len(),
        shown.len() > 0,
        rate.nan() || rate.units() > 0,
    ensures
        ({
            let frame = spectrum_frame::next_frame(shown, logs, samples, rate);
            let decay = spectrum_frame::decay_in(samples, rate);
            let n = shown.len() - 1;
            &&& frame[0] == spectrum_frame::settled_level(
                shown[0],
                spectrum_frame::level_from(logs[0]),
                decay,
            )
            &&& frame[n] == spectrum_frame::settled_level(
                shown[n],
                spectrum_frame::level_from(logs[n]),
                decay,
            )
        }),
{
}

/// Whether the ends of a range of frequencies, by their logarithms, are in order and what lies
/// between them is a number.
pub open spec fn range_in_order(log_min: Scalar, log_max: Scalar) -> bool {
    &&& order_laws::finite(log_min)
    &&& order_laws::finite(log_max)
    &&& log_min.units() <= log_max.units()
    &&& order_laws::finite(arithmetic::difference(log_max, log_min))
}

proof fn span_is_no_less_than_nothing(log_min: Scalar, log_max: Scalar)
    requires
        range_in_order(log_min, log_max),
    ensures
        arithmetic::difference(log_max, log_min).units() >= 0,
{
    let none = Scalar { bits: 0 };
    order_laws::nothing_is_zero(none);
    order_laws::differences_stop(log_max, log_min, none);
}

/// The edges between which a level is taken lie on both sides of it, the lower one below.
pub proof fn edges_are_around(log: Scalar, n: nat, log_min: Scalar, log_max: Scalar)
    requires
        range_in_order(log_min, log_max),
        order_laws::finite(log),
        order_laws::finite(number::whole(n)),
        number::whole(n).units() > 0,
        order_laws::finite(
            arithmetic::quotient(arithmetic::difference(log_max, log_min), number::whole(n)),
        ),
        order_laws::finite(
            arithmetic::product(
                arithmetic::quotient(arithmetic::difference(log_max, log_min), number::whole(n)),
                Scalar { bits: spectrum::HALF },
            ),
        ),
    ensures
        spectrum_frame::edges_of(log, n, log_min, log_max).0.units() <= log.units(),
        log.units() <= spectrum_frame::edges_of(log, n, log_min, log_max).1.units(),
{
    let span = arithmetic::difference(log_max, log_min);
    let step = arithmetic::quotient(span, number::whole(n));
    let half = Scalar { bits: spectrum::HALF };
    let h = arithmetic::product(step, half);
    let none = Scalar { bits: 0 };
    span_is_no_less_than_nothing(log_min, log_max);
    order_laws::nothing_is_zero(none);
    order_laws::quotient_of_units(span, number::whole(n));
    assert(half.units() >= 0);
    assert(order_laws::finite(half));
    order_laws::products_stop(step, half, none);
    order_laws::differences_stop(log, h, log);
    order_laws::sums_stop(log, h, log);
}

/// The magnitude of a range of frequencies is not below that of any of its bins: those from the one
/// at its lower edge, rounded down, to the one at its upper edge, rounded up, as far as they mean
/// something.
pub proof fn magnitudes_cover_their_bins(
    norms: Seq<Scalar>,
    edges: (Scalar, Scalar),
    size: nat,
    rate: Scalar,
    k: int,
)
    requires
        size >= 2,
        norms.len() == size,
        0 <= k < size / 2,
        counts::count_below(
            arithmetic::quotient(
                arithmetic::product(edges.0, number::whole(size)),
                rate,
            ),
        ) <= k <= counts::count_above(
            arithmetic::quotient(arithmetic::product(edges.1, number::whole(size)), rate),
        ),
        (Scalar { bits: 0 }).below(
            arithmetic::product(
                norms[k],
                arithmetic::quotient(Scalar { bits: spectrum_frame::FOUR }, number::whole(size)),
            ),
        ),
    ensures
        !spectrum_frame::magnitude_between(norms, edges, size, rate).below(
            arithmetic::product(
                norms[k],
                arithmetic::quotient(Scalar { bits: spectrum_frame::FOUR }, number::whole(size)),
            ),
        ),
{
    let scale = arithmetic::quotient(Scalar { bits: spectrum_frame::FOUR }, number::whole(size));
    let position = spectrum_frame::bin_position(edges.0, size, rate);
    let low = spectrum_frame::valid_bin(counts::count_below(position), size);
    let high = spectrum_frame::valid_bin(
        counts::count_above(spectrum_frame::bin_position(edges.1, size, rate)),
        size,
    );
    assert(low <= k <= high);
    spectrum_frame::peak_covers_bins(norms, low, high + 1, scale, k);
}

/// The magnitude of a range of frequencies depends on no bins but its own and, where these hold
/// nothing, the one after the first of them.
pub proof fn magnitudes_are_local(
    norms: Seq<Scalar>,
    others: Seq<Scalar>,
    edges: (Scalar, Scalar),
    size: nat,
    rate: Scalar,
)
    requires
        size >= 2,
        size <= usize::MAX,
        norms.len() == others.len(),
        norms.len() == size,
        ({
            let low = counts::count_below(
                arithmetic::quotient(arithmetic::product(edges.0, number::whole(size)), rate),
            );
            let high = counts::count_above(
                arithmetic::quotient(arithmetic::product(edges.1, number::whole(size)), rate),
            );
            forall|k: int|
                0 <= k < norms.len() && (low <= k || size / 2 - 1 <= k) && (k <= high || k <= low
                    + 1) ==> #[trigger] norms[k] == others[k]
        }),
    ensures
        spectrum_frame::magnitude_between(norms, edges, size, rate)
            == spectrum_frame::magnitude_between(others, edges, size, rate),
{
    let scale = arithmetic::quotient(Scalar { bits: spectrum_frame::FOUR }, number::whole(size));
    let position = spectrum_frame::bin_position(edges.0, size, rate);
    let low = spectrum_frame::valid_bin(counts::count_below(position), size);
    let high = spectrum_frame::valid_bin(
        counts::count_above(spectrum_frame::bin_position(edges.1, size, rate)),
        size,
    );
    let next = spectrum_frame::valid_bin((low + 1) as usize, size);
    assert(norms[low] == others[low]);
    assert(norms[next] == others[next]);
    peaks_are_local(norms, others, low, high + 1, scale);
}

proof fn peaks_are_local(
    norms: Seq<Scalar>,
    others: Seq<Scalar>,
    from: int,
    upto: int,
    scale: Scalar,
)
    requires
        norms.len() == others.len(),
        0 <= from,
        upto <= norms.len(),
        forall|k: int| from <= k < upto ==> #[trigger] norms[k] == others[k],
    ensures
        spectrum_frame::peak(norms, from, upto, scale) == spectrum_frame::peak(
            others,
            from,
            upto,
            scale,
        ),
    decreases upto - from,
{
    if upto > from {
        peaks_are_local(norms, others, from, upto - 1, scale);
        assert(norms[upto - 1] == others[upto - 1]);
    }
}

/// The largest magnitude is that of one of the bins, or nothing.
pub proof fn largest_magnitude_is_one_of_them(
    norms: Seq<Scalar>,
    from: int,
    upto: int,
    scale: Scalar,
)
    ensures
        spectrum_frame::peak(norms, from, upto, scale) == (Scalar { bits: 0 }) || exists|k: int|
            from <= k < upto && arithmetic::product(#[trigger] norms[k], scale)
                == spectrum_frame::peak(norms, from, upto, scale),
    decreases upto - from,
{
    if upto > from {
        largest_magnitude_is_one_of_them(norms, from, upto - 1, scale);
        let before = spectrum_frame::peak(norms, from, upto - 1, scale);
        let m = arithmetic::product(norms[upto - 1], scale);
        if before.below(m) {
            assert(arithmetic::product(norms[upto - 1], scale) == spectrum_frame::peak(
                norms,
                from,
                upto,
                scale,
            ));
        } else if before != (Scalar { bits: 0 }) {
            let k = choose|k: int|
                from <= k < upto - 1 && arithmetic::product(#[trigger] norms[k], scale) == before;
            assert(arithmetic::product(norms[k], scale) == before);
        }
    }
}

/// A level falls by no less when more time has passed, and never by less than in a thousandth of a
/// second.
pub proof fn longer_frames_fall_further(samples: nat, more: nat, rate: Scalar)
    requires
        order_laws::finite(rate),
        rate.units() > 0,
        order_laws::finite(number::whole(samples)),
        order_laws::finite(number::whole(more)),
        0 <= number::whole(samples).units() <= number::whole(more).units(),
        order_laws::finite(arithmetic::quotient(number::whole(samples), rate)),
        order_laws::finite(arithmetic::quotient(number::whole(more), rate)),
    ensures
        0 <= spectrum_frame::decay_in(samples, rate).units() <= spectrum_frame::decay_in(
            more,
            rate,
        ).units(),
        spectrum_frame::decay_in(samples, rate).units() >= arithmetic::product(
            Scalar { bits: spectrum_frame::DECAY_RATE },
            Scalar { bits: spectrum_frame::LEAST_TIME },
        ).units(),
{
    let least = Scalar { bits: spectrum_frame::LEAST_TIME };
    let fall = Scalar { bits: spectrum_frame::DECAY_RATE };
    let a = arithmetic::quotient(number::whole(samples), rate);
    let b = arithmetic::quotient(number::whole(more), rate);
    order_laws::quotients_in_order(number::whole(samples), number::whole(more), rate);
    order_laws::quotient_of_units(number::whole(samples), rate);
    let x = arithmetic::larger(a, least);
    let y = arithmetic::larger(b, least);
    assert(least.units() >= 0 && fall.units() >= 0);
    assert(order_laws::finite(least) && order_laws::finite(fall));
    order_laws::products_in_order(fall, x, fall, y);
    order_laws::products_in_order(fall, least, fall, x);
}

/// The frequencies of the levels go from the lowest to the highest: the first is the lowest, and
/// none is below the one before.
pub proof fn level_frequencies_grow(i: int, j: int, n: nat, log_min: Scalar, log_max: Scalar)
    requires
        0 <= i <= j < n,
        2 <= n <= 0x100_0000,
        range_in_order(log_min, log_max),
    ensures
        log_min.units() <= spectrum_frame::log_at(i, n, log_min, log_max).units(),
        spectrum_frame::log_at(i, n, log_min, log_max).units() <= spectrum_frame::log_at(
            j,
            n,
            log_min,
            log_max,
        ).units(),
        i == 0 ==> spectrum_frame::log_at(i, n, log_min, log_max).units() == log_min.units(),
{
    let steps = (n - 1) as nat;
    picture_laws::parts_grow(i, j, steps);
    picture_laws::ways_grow(
        log_min,
        log_max,
        curves::part_of_way(i, steps),
        curves::part_of_way(j, steps),
    );
}

/// The weight of a sample is the larger the smaller the cosine of its angle is, and nothing where
/// that is one.
pub proof fn weights_fall_with_the_cosine(cosine: Scalar, larger: Scalar)
    requires
        order_laws::finite(cosine),
        order_laws::finite(larger),
        cosine.units() <= larger.units() <= pow2(149),
        order_laws::finite(arithmetic::difference(Scalar { bits: ONE }, cosine)),
    ensures
        0 <= spectrum::weight_from(larger).units() <= spectrum::weight_from(cosine).units(),
        larger.units() == pow2(149) ==> spectrum::weight_from(larger).units() == 0,
{
    let unit = Scalar { bits: ONE };
    let half = Scalar { bits: spectrum::HALF };
    let none = Scalar { bits: 0 };
    let one = pow2(149);
    lemma_pow2_pos(149);
    lemma2_to64();
    lemma_pow2_adds(23, 126);
    assert(unit.exponent() == 127 && unit.significand() == 0x80_0000);
    order_laws::nothing_is_zero(none);
    assert(half.units() >= 0 && order_laws::finite(half));
    order_laws::differences_in_order(unit, larger, unit, cosine);
    order_laws::differences_stop(unit, larger, none);
    let (a, b) = (arithmetic::difference(unit, larger), arithmetic::difference(unit, cosine));
    order_laws::infinity_is_furthest(a);
    order_laws::infinity_is_furthest(b);
    order_laws::below_infinity(a, b);
    order_laws::products_in_order(half, a, half, b);
    if larger.units() == one {
        assert(a.units() == 0);
        assert(half.units() * a.units() == 0 && one * none.units() == 0) by (nonlinear_arith)
            requires
                a.units() == 0,
                none.units() == 0,
        ;
        order_laws::products_stop(half, a, none);
    }
}

/// All of a sample counts where the cosine of its angle is minus one.
pub proof fn weight_is_whole_in_the_middle(cosine: Scalar)
    requires
        order_laws::finite(cosine),
        cosine.units() == -(pow2(149) as int),
    ensures
        spectrum::weight_from(cosine).units() == pow2(149),
{
    let unit = Scalar { bits: ONE };
    let half = Scalar { bits: spectrum::HALF };
    let two = Scalar { bits: 0x4000_0000 };
    let one = pow2(149);
    lemma_pow2_pos(149);
    lemma2_to64();
    lemma_pow2_adds(23, 126);
    lemma_pow2_adds(23, 127);
    lemma_pow2_adds(23, 125);
    lemma_pow2_adds(1, 149);
    lemma_pow2_adds(1, 148);
    assert(unit.exponent() == 127 && unit.significand() == 0x80_0000);
    assert(two.exponent() == 128 && two.significand() == 0x80_0000);
    assert(half.exponent() == 126 && half.significand() == 0x80_0000);
    assert(two.units() == 2 * one && 2 * half.units() == one && unit.units() == one);
    order_laws::differences_stop(unit, cosine, two);
    let rest = arithmetic::difference(unit, cosine);
    order_laws::infinity_is_furthest(rest);
    order_laws::below_infinity(rest, two);
    assert(half.units() * rest.units() == one * unit.units()) by (nonlinear_arith)
        requires
            2 * half.units() == one,
            rest.units() == 2 * one,
            unit.units() == one,
    ;
    order_laws::products_stop(half, rest, unit);
}

/// The samples that a spectrum is computed from last long enough, and half as many would not, or
/// would be too few.
pub proof fn samples_last_long_enough(rate: Scalar)
    ensures
        ({
            let n = spectrum::samples_for(rate);
            let long = counts::count_below(
                arithmetic::product(rate, Scalar { bits: spectrum::SPECTRUM_TIME }),
            );
            &&& n >= long && n >= spectrum::MIN_FFT_SIZE
            &&& n / 2 < long || n / 2 < spectrum::MIN_FFT_SIZE
            &&& exists|k: nat| n == #[trigger] pow2(k)
        }),
{
    spectrum::size_is_least_power(
        counts::count_below(
            arithmetic::product(rate, Scalar { bits: spectrum::SPECTRUM_TIME }),
        ) as nat,
    );
}

/// A number that is rounded to a pattern with a full significand changes by no more than half of
/// its last place.
pub proof fn rounding_is_relatively_near(num: nat, den: nat)
    requires
        den > 0,
        den * number::size_at(0x80_0000) <= num,
        num <= den * number::size_at(0x7F00_0000),
    ensures
        ({
            let b = number::nearest_pattern(num, den);
            let s = (den * number::size_at(b)) as int;
            &&& b <= 0x7F00_0000
            &&& 0x100_0000 * (s - num) <= s
            &&& 0x100_0000 * (num - s) <= s
        }),
{
    let b = number::nearest_pattern(num, den);
    tenths::rounds_no_lower(num, den, 0x80_0000);
    tenths::rounds_no_higher(num, den, 0x7F00_0000);
    decimal_laws::rounding_is_near(num, den);
    let x = Scalar { bits: b as u32 };
    let t = decimal_laws::step_at(b);
    let g = x.significand();
    assert(x.exponent() > 0);
    assert(number::size_at(b) == g * t);
    assert(0x80_0000 * (den * t) <= den * (g * t)) by (nonlinear_arith)
        requires
            g >= 0x80_0000,
    ;
}

/// What the sizes of a few patterns are, and that of the full turn.
proof fn turn_is_between()
    ensures
        ({
            let turn = Scalar { bits: spectrum::FULL_TURN };
            let far = Scalar { bits: 0x4D00_0000 };
            &&& order_laws::finite(turn)
            &&& order_laws::finite(far)
            &&& pow2(149) > 0
            &&& 6 * pow2(149) <= turn.units() <= 7 * pow2(149)
            &&& far.units() == 0x800_0000 * pow2(149)
            &&& number::size_at(0x80_0000) == 0x80_0000
            &&& number::size_at(0x80_0000) <= pow2(149)
            &&& far.units() <= number::size_at(0x7F00_0000)
            &&& (Scalar { bits: ONE }).units() == pow2(149)
        }),
{
    let turn = Scalar { bits: spectrum::FULL_TURN };
    let far = Scalar { bits: 0x4D00_0000 };
    let least = Scalar { bits: 0x80_0000 };
    let unit = Scalar { bits: ONE };
    lemma_pow2_pos(149);
    lemma2_to64();
    lemma_pow2_adds(21, 128);
    lemma_pow2_adds(23, 126);
    lemma_pow2_adds(23, 153);
    lemma_pow2_adds(27, 149);
    assert(turn.exponent() == 129 && turn.significand() == 0xC9_0FDB);
    assert(far.exponent() == 154 && far.significand() == 0x80_0000);
    assert(least.exponent() == 1 && least.significand() == 0x80_0000);
    assert(unit.exponent() == 127 && unit.significand() == 0x80_0000);
    lemma_pow2_pos(126);
    number::sizes_in_order(0x4D00_0000, 0x7F00_0000);
}

/// Multiples of the full turn are finite and grow.
proof fn turns_grow(a: nat, b: nat)
    requires
        a <= b < 0x100_0000,
    ensures
        ({
            let turn = Scalar { bits: spectrum::FULL_TURN };
            let x = arithmetic::product(turn, number::whole(a));
            let y = arithmetic::product(turn, number::whole(b));
            &&& order_laws::finite(x)
            &&& order_laws::finite(y)
            &&& 0 <= x.units() <= y.units()
        }),
{
    let turn = Scalar { bits: spectrum::FULL_TURN };
    let far = Scalar { bits: 0x4D00_0000 };
    let one = pow2(149);
    turn_is_between();
    picture_laws::small_counts_are_exact(a);
    picture_laws::small_counts_are_exact(b);
    let (u, v) = (number::whole(a), number::whole(b));
    assert(0 <= a * one <= b * one <= 0x100_0000 * one) by (nonlinear_arith)
        requires
            a <= b <= 0x100_0000,
            one > 0,
    ;
    order_laws::products_in_order(turn, u, turn, v);
    assert(turn.units() * v.units() <= one * far.units()) by (nonlinear_arith)
        requires
            0 <= turn.units() <= 7 * one,
            0 <= v.units() <= 0x100_0000 * one,
            far.units() == 0x800_0000 * one,
    ;
    order_laws::products_stop(turn, v, far);
    let (x, y) = (arithmetic::product(turn, u), arithmetic::product(turn, v));
    order_laws::infinity_is_furthest(x);
    order_laws::infinity_is_furthest(y);
    order_laws::below_infinity(x, far);
    order_laws::below_infinity(y, far);
}

/// The full turn times a count and over the same count is, to a millionth, the full turn.
proof fn turn_comes_back(count: Scalar, last: Scalar)
    requires
        order_laws::finite(count),
        order_laws::finite(last),
        count.units() == last.units(),
        pow2(149) <= count.units() <= 0x100_0000 * pow2(149),
    ensures
        ({
            let turn = Scalar { bits: spectrum::FULL_TURN };
            let q = arithmetic::quotient(arithmetic::product(turn, count), last).units();
            let t = turn.units();
            1_000_000 * (q - t) <= t && 1_000_000 * (t - q) <= t
        }),
{
    let turn = Scalar { bits: spectrum::FULL_TURN };
    let one = pow2(149);
    let n = count.size();
    let t = turn.size();
    let p = arithmetic::product(turn, count);
    turn_is_between();
    let least = number::size_at(0x80_0000);
    let most = number::size_at(0x7F00_0000);
    let b = t * n;
    assert(one * least <= b && b <= one * most) by (nonlinear_arith)
        requires
            b == t * n,
            6 * one <= t <= 7 * one,
            one <= n <= 0x100_0000 * one,
            least <= one,
            0x800_0000 * one <= most,
            one > 0,
    ;
    rounding_is_relatively_near(b, one);
    order_laws::signed_units(false, number::nearest_pattern(b, one));
    assert(p.size() == number::size_at(number::nearest_pattern(b, one)));
    let a = p.size() * one;
    assert(a == one * p.size()) by (nonlinear_arith)
        requires
            a == p.size() * one,
    ;
    assert(n * least <= a && a <= n * most) by (nonlinear_arith)
        requires
            b == t * n,
            b <= 2 * a,
            a <= 2 * b,
            6 * one <= t <= 7 * one,
            least <= one,
            0x800_0000 * one <= most,
            one > 0,
    ;
    rounding_is_relatively_near(a, n);
    order_laws::quotient_of_units(p, last);
    let q = number::size_at(number::nearest_pattern(a, n));
    let c = n * q;
    assert(1_000_000 * (c - b) <= b && 1_000_000 * (b - c) <= b);
    let d = q - t;
    assert(c - b == n * d) by (nonlinear_arith)
        requires
            c == n * q,
            b == t * n,
            d == q - t,
    ;
    assert(1_000_000 * d <= t && -1_000_000 * d <= t) by (nonlinear_arith)
        requires
            1_000_000 * (n * d) <= t * n,
            -1_000_000 * (n * d) <= t * n,
            n > 0,
    ;
}

/// The angles of the samples start at zero and grow, and that of the last is, to a millionth of it,
/// the full turn.
pub proof fn angles_go_round_once(i: int, j: int, size: nat)
    requires
        0 <= i <= j < size,
        2 <= size < 0x100_0000,
    ensures
        spectrum::angle_at(0, size).units() == 0,
        spectrum::angle_at(i, size).units() <= spectrum::angle_at(j, size).units(),
        ({
            let last = spectrum::angle_at(size - 1, size).units();
            let turn = (Scalar { bits: spectrum::FULL_TURN }).units();
            1_000_000 * (last - turn) <= turn && 1_000_000 * (turn - last) <= turn
        }),
{
    let turn = Scalar { bits: spectrum::FULL_TURN };
    let unit = Scalar { bits: ONE };
    let none = Scalar { bits: 0 };
    let one = pow2(149);
    let m = (size - 1) as nat;
    turn_is_between();
    order_laws::nothing_is_zero(none);
    picture_laws::small_counts_are_exact(m);
    picture_laws::small_counts_are_exact(size);
    assert(size * one - one == m * one && one <= m * one <= 0x100_0000 * one) by (nonlinear_arith)
        requires
            m == size - 1,
            1 <= m <= 0x100_0000,
            one > 0,
    ;
    let last = arithmetic::difference(number::whole(size), unit);
    order_laws::differences_stop(number::whole(size), unit, number::whole(m));
    order_laws::infinity_is_furthest(last);
    order_laws::below_infinity(last, number::whole(m));
    turns_grow(0, i as nat);
    turns_grow(i as nat, j as nat);
    let (x, y) = (
        arithmetic::product(turn, number::whole(i as nat)),
        arithmetic::product(turn, number::whole(j as nat)),
    );
    order_laws::quotients_in_order(x, y, last);
    picture_laws::small_counts_are_exact(0);
    let start = arithmetic::product(turn, number::whole(0));
    assert(turn.units() * number::whole(0).units() <= one * none.units()) by (nonlinear_arith)
        requires
            number::whole(0).units() == 0 * one,
            none.units() == 0,
    ;
    order_laws::products_stop(turn, number::whole(0), none);
    order_laws::quotient_of_units(start, last);
    assert(start.size() * one == 0 && last.size() * number::size_at(0) == 0) by (nonlinear_arith)
        requires
            start.size() == 0,
            number::size_at(0) == 0,
    ;
    number::patterns_round_to_themselves(0, last.size(), 0);
    turn_comes_back(number::whole(m), last);
}

} // verus!
