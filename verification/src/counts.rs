//! Counts as numbers, and numbers as counts.

use vstd::arithmetic::power2::lemma2_to64;
use vstd::arithmetic::power2::lemma_pow2_adds;
use vstd::arithmetic::power2::lemma_pow2_pos;
use vstd::arithmetic::power2::lemma_pow2_strictly_increases;
use vstd::arithmetic::power2::pow2;
use vstd::prelude::*;

use crate::arithmetic::guess_pattern;
use crate::arithmetic::step_and_significand;
use crate::arithmetic;
use crate::natural::Natural;
use crate::number::multiply_by_two_to;
use crate::number::nearest_ratio_to;
use crate::number;
use crate::scalar::Scalar;
use crate::scalar::power_of_two;
use crate::scalar;

verus! {

/// The number nearest to the count `n`.
pub fn from_count(n: usize) -> (r: Scalar)
    ensures
        r == number::whole(n as nat),
{
    let wide: u64 = n as u64;
    let high: u32 = (wide / 0x1_0000_0000) as u32;
    let low: u32 = (wide % 0x1_0000_0000) as u32;
    let mut double = Natural::new(high);
    multiply_by_two_to(&mut double, 32);
    double.multiply_add(1, low);
    assert(double@ == n) by {
        lemma2_to64();
        assert((high * pow2(32)) * 1 + low == n);
    }
    multiply_by_two_to(&mut double, 150);
    let den = Natural::new(1);
    proof {
        lemma2_to64();
        lemma_pow2_adds(149, 1);
        let one = pow2(149);
        assert(n * (one * 2) == 2 * (n * one)) by (nonlinear_arith);
        arithmetic::half_of_double((n * one) as nat);
        assert(scalar::ten_to(0) == 1);
        assert(n * 1 * one == n * one) by (nonlinear_arith);
    }
    Scalar { bits: nearest_ratio_to(&double, &den, guess_pattern(wide, 149)) }
}

/// The largest count that is not above a number, at most the largest of all; none for a number
/// below zero and for a pattern that stands for no number.
pub open spec fn count_below(x: Scalar) -> usize {
    let n = x.size() / pow2(149);
    if x.nan() || x.negative() {
        0
    } else if n > usize::MAX {
        usize::MAX
    } else {
        n as usize
    }
}

/// The least count that is not below a number, at most the largest of all; none for a number below
/// zero and for a pattern that stands for no number.
pub open spec fn count_above(x: Scalar) -> usize {
    let n = if x.size() % pow2(149) == 0 {
        x.size() / pow2(149)
    } else {
        x.size() / pow2(149) + 1
    };
    if x.nan() || x.negative() {
        0
    } else if n > usize::MAX {
        usize::MAX
    } else {
        n as usize
    }
}

proof fn cancel_in_division(m: nat, h: nat, p: nat)
    requires
        h > 0,
        p > 0,
    ensures
        h * p > 0,
        (m * p) / (h * p) == m / h,
        (m * p) % (h * p) == 0 <==> m % h == 0,
{
    let q = m / h;
    let r = m % h;
    vstd::arithmetic::div_mod::lemma_fundamental_div_mod(m as int, h as int);
    assert(h * p > 0) by (nonlinear_arith)
        requires
            h > 0,
            p > 0,
    ;
    assert(m * p == q * (h * p) + r * p) by (nonlinear_arith)
        requires
            m == h * q + r,
    ;
    assert(0 <= r * p < h * p) by (nonlinear_arith)
        requires
            0 <= r < h,
            p > 0,
    ;
    vstd::arithmetic::div_mod::lemma_fundamental_div_mod_converse(
        (m * p) as int,
        (h * p) as int,
        q as int,
        (r * p) as int,
    );
    assert(r * p == 0 <==> r == 0) by (nonlinear_arith)
        requires
            p > 0,
    ;
}

/// The whole part of a size, and whether nothing is left; nothing if it is too large.
fn whole_part(x: Scalar) -> (r: Option<(u64, bool)>)
    ensures
        match r {
            Some((n, exact)) => n == x.size() / pow2(149) && exact == (x.size() % pow2(149) == 0),
            None => x.size() / pow2(149) > u64::MAX,
        },
{
    let (s, m): (u32, u32) = step_and_significand(x);
    let ghost one = pow2(149);
    proof {
        lemma2_to64();
        lemma_pow2_pos(149);
    }
    if s < 149 {
        let k: u32 = 149 - s;
        let ghost p = pow2(s as nat);
        let ghost h = pow2(k as nat);
        proof {
            lemma_pow2_adds(k as nat, s as nat);
            lemma_pow2_pos(s as nat);
            lemma_pow2_pos(k as nat);
            cancel_in_division(m as nat, h, p);
            if k >= 24 {
                if k > 24 {
                    lemma_pow2_strictly_increases(24, k as nat);
                }
                vstd::arithmetic::div_mod::lemma_basic_div(m as int, h as int);
                vstd::arithmetic::div_mod::lemma_small_mod(m as nat, h);
            }
        }
        if k >= 24 {
            Some((0, m == 0))
        } else {
            let f: u128 = power_of_two(k);
            let n: u128 = m as u128 / f;
            assert(n <= m) by (nonlinear_arith)
                requires
                    n == m as int / f as int,
                    f >= 1,
                    m >= 0,
            ;
            Some((n as u64, m as u128 % f == 0))
        }
    } else {
        let k: u32 = s - 149;
        let ghost f = pow2(k as nat);
        proof {
            lemma_pow2_adds(k as nat, 149);
            lemma_pow2_pos(k as nat);
            assert(m * (f * one) == (m * f) * one) by (nonlinear_arith);
            vstd::arithmetic::div_mod::lemma_fundamental_div_mod_converse(
                x.size() as int,
                one as int,
                (m * f) as int,
                0,
            );
            lemma_pow2_adds(9, 32);
            if k >= 41 {
                if k > 41 {
                    lemma_pow2_strictly_increases(41, k as nat);
                }
                assert(m * f >= 0x80_0000 * 0x200_0000_0000) by (nonlinear_arith)
                    requires
                        m >= 0x80_0000,
                        f >= 0x200_0000_0000,
                ;
            } else {
                lemma_pow2_adds(8, 32);
                if k < 40 {
                    lemma_pow2_strictly_increases(k as nat, 40);
                }
                assert(m * f < 0x100_0000 * 0x100_0000_0000) by (nonlinear_arith)
                    requires
                        m < 0x100_0000,
                        0 < f <= 0x100_0000_0000,
                ;
            }
        }
        if k >= 41 {
            None
        } else {
            let f: u128 = power_of_two(k);
            Some((m as u64 * f as u64, true))
        }
    }
}

impl Scalar {
    /// The largest count that is not above the number, at most the largest of all; none for a
    /// number below zero and for a pattern that stands for no number.
    pub fn to_count(self) -> (r: usize)
        ensures
            r == count_below(self),
    {
        if self.is_nan() || self.bits >= 0x8000_0000 {
            return 0;
        }
        match whole_part(self) {
            Some((n, _)) => {
                if n > usize::MAX as u64 {
                    usize::MAX
                } else {
                    n as usize
                }
            },
            None => usize::MAX,
        }
    }

    /// The least count that is not below the number, at most the largest of all; none for a number
    /// below zero and for a pattern that stands for no number.
    pub fn to_count_above(self) -> (r: usize)
        ensures
            r == count_above(self),
    {
        if self.is_nan() || self.bits >= 0x8000_0000 {
            return 0;
        }
        match whole_part(self) {
            Some((n, exact)) => {
                if n >= usize::MAX as u64 {
                    usize::MAX
                } else if exact {
                    n as usize
                } else {
                    n as usize + 1
                }
            },
            None => usize::MAX,
        }
    }
}

} // verus!
