//! What a spectrum is computed from: the samples heard last, and the places of the result.

use vstd::arithmetic::power2::lemma2_to64;
use vstd::arithmetic::power2::lemma_pow2_pos;
use vstd::arithmetic::power2::lemma_pow2_unfold;
use vstd::arithmetic::power2::pow2;
use vstd::prelude::*;

use crate::arithmetic;
use crate::counts::from_count;
use crate::counts;
use crate::eq_drawer::MIN_DB;
use crate::meter::ONE;
use crate::number;
use crate::scalar::Scalar;

verus! {

/// How many levels a spectrum has.
pub const SPECTRUM_POINTS: usize = 128;

/// The fewest samples that a spectrum is computed from.
pub const MIN_FFT_SIZE: usize = 1024;

/// The first of `p`, twice `p`, four times `p` and so on that is at least `n`.
pub open spec fn doubled(p: nat, n: nat) -> nat
    decreases (if p < n { n - p } else { 0 }),
{
    if p >= n || p == 0 {
        p
    } else {
        doubled(2 * p, n)
    }
}

/// How many samples a spectrum is computed from, if it is to be at least `target` of them: a power
/// of two, and not too few.
pub open spec fn fft_size(target: nat) -> nat {
    if doubled(1, target) < MIN_FFT_SIZE {
        MIN_FFT_SIZE as nat
    } else {
        doubled(1, target)
    }
}

/// The samples heard last, when `block` was heard after `history`.
pub open spec fn heard(history: Seq<Scalar>, block: Seq<Scalar>) -> Seq<Scalar> {
    (history + block).skip(block.len() as int)
}

/// The bit pattern of 0.085, how many seconds of sound a spectrum is computed from at least.
pub const SPECTRUM_TIME: u32 = 0x3DAE_147B;

/// The bit pattern of a full turn.
pub const FULL_TURN: u32 = 0x40C9_0FDB;

/// The bit pattern of one half.
pub const HALF: u32 = 0x3F00_0000;

/// How many samples a spectrum of sound with this sample rate is computed from.
pub open spec fn samples_for(sample_rate: Scalar) -> nat {
    fft_size(
        counts::count_below(
            arithmetic::product(sample_rate, Scalar { bits: SPECTRUM_TIME }),
        ) as nat,
    )
}

/// How many samples a spectrum of sound with this sample rate is computed from.
pub fn spectrum_size(sample_rate: Scalar) -> (r: usize)
    requires
        samples_for(sample_rate) <= usize::MAX,
    ensures
        r == samples_for(sample_rate),
{
    let target: usize = sample_rate.times(Scalar { bits: SPECTRUM_TIME }).to_count();
    let mut p: usize = 1;
    while p < target
        invariant
            p >= 1,
            doubled(1, target as nat) == doubled(p as nat, target as nat),
            doubled(1, target as nat) <= usize::MAX,
        decreases (if p < target { target - p } else { 0 }),
    {
        proof {
            doubled_grows(2 * p as nat, target as nat);
        }
        p = 2 * p;
    }
    if p < MIN_FFT_SIZE {
        MIN_FFT_SIZE
    } else {
        p
    }
}

/// The angle whose cosine the weight of the sample at the place `i` of `size` is made of.
pub open spec fn angle_at(i: int, size: nat) -> Scalar {
    arithmetic::quotient(
        arithmetic::product(Scalar { bits: FULL_TURN }, number::whole(i as nat)),
        arithmetic::difference(number::whole(size), Scalar { bits: ONE }),
    )
}

/// The angles whose cosines the weights of `size` samples are made of.
pub fn window_angles(size: usize) -> (r: Vec<Scalar>)
    ensures
        r@ == Seq::new(size as nat, |i: int| angle_at(i, size as nat)),
{
    let last = from_count(size).minus(Scalar { bits: ONE });
    let mut r: Vec<Scalar> = Vec::new();
    let mut i: usize = 0;
    while i < size
        invariant
            i <= size,
            last == arithmetic::difference(number::whole(size as nat), Scalar { bits: ONE }),
            r@ == Seq::new(i as nat, |i: int| angle_at(i, size as nat)),
        decreases size - i,
    {
        r.push((Scalar { bits: FULL_TURN }).times(from_count(i)).over(last));
        assert(r@ =~= Seq::new(i as nat + 1, |i: int| angle_at(i, size as nat)));
        i = i + 1;
    }
    r
}

/// The weight of a sample, from the cosine of its angle: none at both ends, and most in the middle.
pub open spec fn weight_from(cosine: Scalar) -> Scalar {
    arithmetic::product(Scalar { bits: HALF }, arithmetic::difference(Scalar { bits: ONE }, cosine))
}

/// The samples that a spectrum is computed from.
#[derive(Debug)]
pub struct DynamicSpectrumAnalyzer {
    /// The samples heard last, the latest at the end.
    pub history: Vec<Scalar>,
    /// The weight of each sample.
    pub window: Vec<Scalar>,
    /// How many samples a second there are.
    pub sample_rate: Scalar,
}

impl DynamicSpectrumAnalyzer {
    /// Whether every sample has a weight, and there are enough of them.
    pub open spec fn wf(&self) -> bool {
        self.history@.len() == self.window@.len() >= MIN_FFT_SIZE
    }

    /// Silence, and the weights that come from the cosines of the angles.
    pub fn new(sample_rate: Scalar, cosines: &[Scalar]) -> (r: DynamicSpectrumAnalyzer)
        requires
            cosines@.len() == samples_for(sample_rate),
        ensures
            r.wf(),
            r.sample_rate == sample_rate,
            r.history@ == Seq::new(samples_for(sample_rate), |i: int| Scalar { bits: 0 }),
            r.window@ == Seq::new(
                samples_for(sample_rate),
                |i: int| weight_from(cosines@[i]),
            ),
    {
        let mut history: Vec<Scalar> = Vec::new();
        let mut window: Vec<Scalar> = Vec::new();
        let mut i: usize = 0;
        while i < cosines.len()
            invariant
                i <= cosines@.len(),
                history@ == Seq::new(i as nat, |i: int| Scalar { bits: 0 }),
                window@ == Seq::new(i as nat, |i: int| weight_from(cosines@[i])),
            decreases cosines@.len() - i,
        {
            let rest = (Scalar { bits: ONE }).minus(cosines[i]);
            history.push(Scalar { bits: 0 });
            window.push((Scalar { bits: HALF }).times(rest));
            assert(history@ =~= Seq::new(i as nat + 1, |i: int| Scalar { bits: 0 }));
            assert(window@ =~= Seq::new(i as nat + 1, |i: int| weight_from(cosines@[i])));
            i = i + 1;
        }
        DynamicSpectrumAnalyzer { history, window, sample_rate }
    }

    /// Hears `new_block`: as many of the samples heard first are forgotten as it has.
    pub fn push_incoming_samples(&mut self, new_block: &[Scalar])
        ensures
            final(self).history@ == heard(old(self).history@, new_block@),
            final(self).window == old(self).window,
            final(self).sample_rate == old(self).sample_rate,
    {
        let ghost before = self.history@;
        let size: usize = self.history.len();
        let incoming: usize = new_block.len();
        if incoming == 0 {
            assert(heard(before, new_block@) =~= before);
            return ;
        }
        if incoming >= size {
            let mut i: usize = 0;
            while i < size
                invariant
                    i <= size <= incoming,
                    incoming == new_block@.len(),
                    self.history@.len() == size,
                    self.window == old(self).window,
                    self.sample_rate == old(self).sample_rate,
                    forall|j: int|
                        0 <= j < i ==> #[trigger] self.history@[j] == new_block@[incoming - size
                            + j],
                decreases size - i,
            {
                self.history[i] = new_block[incoming - size + i];
                i = i + 1;
            }
            assert(self.history@ =~= heard(before, new_block@));
            return ;
        }
        let keep: usize = size - incoming;
        let mut i: usize = 0;
        while i < keep
            invariant
                i <= keep,
                keep == size - incoming,
                0 < incoming < size,
                before.len() == size,
                self.history@.len() == size,
                self.window == old(self).window,
                self.sample_rate == old(self).sample_rate,
                forall|j: int| 0 <= j < i ==> #[trigger] self.history@[j] == before[j + incoming],
                forall|j: int| i <= j < size ==> #[trigger] self.history@[j] == before[j],
            decreases keep - i,
        {
            self.history[i] = self.history[i + incoming];
            i = i + 1;
        }
        let mut k: usize = 0;
        while k < incoming
            invariant
                k <= incoming,
                keep == size - incoming,
                0 < incoming < size,
                incoming == new_block@.len(),
                before.len() == size,
                self.history@.len() == size,
                self.window == old(self).window,
                self.sample_rate == old(self).sample_rate,
                forall|j: int|
                    0 <= j < keep ==> #[trigger] self.history@[j] == before[j + incoming],
                forall|j: int|
                    keep <= j < keep + k ==> #[trigger] self.history@[j] == new_block@[j - keep],
            decreases incoming - k,
        {
            self.history[keep + k] = new_block[k];
            k = k + 1;
        }
        assert(self.history@ =~= heard(before, new_block@));
    }
}

proof fn doubled_grows(p: nat, n: nat)
    requires
        p > 0,
    ensures
        doubled(p, n) >= p,
    decreases (if p < n { n - p } else { 0 }),
{
    if p < n {
        doubled_grows(2 * p, n);
    }
}

/// The size of a spectrum is a power of two that is neither below the target nor below the fewest
/// samples, and half of it would be below one of them.
pub proof fn size_is_least_power(target: nat)
    ensures
        fft_size(target) >= target,
        fft_size(target) >= MIN_FFT_SIZE,
        exists|k: nat| fft_size(target) == #[trigger] pow2(k),
        fft_size(target) / 2 < target || fft_size(target) / 2 < MIN_FFT_SIZE,
{
    lemma2_to64();
    doubled_is_power(1, 0, target);
    assert(pow2(10) == MIN_FFT_SIZE);
}

proof fn doubled_is_power(p: nat, k: nat, n: nat)
    requires
        p == pow2(k),
    ensures
        doubled(p, n) >= n,
        doubled(p, n) == p || doubled(p, n) / 2 < n,
        exists|j: nat| doubled(p, n) == #[trigger] pow2(j),
    decreases (if p < n { n - p } else { 0 }),
{
    lemma_pow2_pos(k);
    if p < n {
        lemma_pow2_unfold(k + 1);
        doubled_is_power(2 * p, k + 1, n);
    } else {
        assert(doubled(p, n) == pow2(k));
    }
}

/// Two blocks heard one after the other are heard like one.
pub proof fn blocks_are_heard_in_a_row(
    history: Seq<Scalar>,
    first: Seq<Scalar>,
    second: Seq<Scalar>,
)
    ensures
        heard(heard(history, first), second) == heard(history, first + second),
        heard(history, first).len() == history.len(),
{
    assert(heard(heard(history, first), second) =~= heard(history, first + second));
}

/// After as many samples as it keeps, nothing is left of what was heard before.
pub proof fn old_samples_are_forgotten(
    history: Seq<Scalar>,
    other: Seq<Scalar>,
    block: Seq<Scalar>,
)
    requires
        history.len() == other.len() <= block.len(),
    ensures
        heard(history, block) == heard(other, block),
        heard(history, block) == block.skip(block.len() - history.len()),
{
    assert(heard(history, block) =~= block.skip(block.len() - history.len()));
    assert(heard(other, block) =~= block.skip(block.len() - other.len()));
}

/// The spectra before anything has been heard: for each of `ports` ports, all levels the lowest.
pub fn start_spectrum_analyser(ports: usize) -> (r: Vec<Vec<Scalar>>)
    ensures
        r@.len() == ports,
        forall|i: int|
            0 <= i < ports ==> #[trigger] r@[i]@ == Seq::new(
                SPECTRUM_POINTS as nat,
                |k: int| Scalar { bits: MIN_DB },
            ),
{
    let mut r: Vec<Vec<Scalar>> = Vec::new();
    let mut i: usize = 0;
    while i < ports
        invariant
            i <= ports,
            r@.len() == i,
            forall|j: int|
                0 <= j < i ==> #[trigger] r@[j]@ == Seq::new(
                    SPECTRUM_POINTS as nat,
                    |k: int| Scalar { bits: MIN_DB },
                ),
        decreases ports - i,
    {
        r.push(lowest_levels());
        i = i + 1;
    }
    r
}

fn lowest_levels() -> (r: Vec<Scalar>)
    ensures
        r@ == Seq::new(SPECTRUM_POINTS as nat, |k: int| Scalar { bits: MIN_DB }),
{
    let mut r: Vec<Scalar> = Vec::new();
    let mut i: usize = 0;
    while i < SPECTRUM_POINTS
        invariant
            i <= SPECTRUM_POINTS,
            r@ == Seq::new(i as nat, |k: int| Scalar { bits: MIN_DB }),
        decreases SPECTRUM_POINTS - i,
    {
        r.push(Scalar { bits: MIN_DB });
        assert(r@ =~= Seq::new(i as nat + 1, |k: int| Scalar { bits: MIN_DB }));
        i = i + 1;
    }
    r
}

/// A stream of samples, and the place of the spectrum that is made of them.
#[derive(Clone, Copy, Debug, PartialEq, Eq, Structural)]
pub struct StreamPlan {
    pub channel_id: u32,
    pub place: usize,
}

/// The streams for `ports`: one each, in order.
pub fn analyser_inner(ports: &[u32]) -> (r: Vec<StreamPlan>)
    ensures
        r@ == Seq::new(
            ports@.len(),
            |i: int| StreamPlan { channel_id: ports@[i], place: i as usize },
        ),
{
    let mut r: Vec<StreamPlan> = Vec::new();
    let mut i: usize = 0;
    while i < ports.len()
        invariant
            i <= ports@.len(),
            r@ == Seq::new(
                i as nat,
                |i: int| StreamPlan { channel_id: ports@[i], place: i as usize },
            ),
        decreases ports@.len() - i,
    {
        r.push(StreamPlan { channel_id: ports[i], place: i });
        assert(r@ =~= Seq::new(
            i as nat + 1,
            |i: int| StreamPlan { channel_id: ports@[i], place: i as usize },
        ));
        i = i + 1;
    }
    r
}

} // verus!
