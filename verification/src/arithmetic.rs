//! Sums, products and quotients of numbers, each rounded to the nearest.

use vstd::arithmetic::power2::lemma2_to64;
use vstd::arithmetic::power2::lemma_pow2_adds;
use vstd::arithmetic::power2::lemma_pow2_pos;
use vstd::arithmetic::power2::pow2;
use vstd::prelude::*;

use crate::natural::Natural;
use crate::natural::Order;
use crate::number::from_whole;
use crate::number::multiply_by_two_to;
use crate::number::nearest_ratio_to;
use crate::number;
use crate::scalar::Scalar;
use crate::scalar;

verus! {

/// The bit pattern of infinity.
pub const INFINITY: u32 = 0x7F80_0000;

/// The pattern that stands for no number, where a result is none.
pub const NO_NUMBER: u32 = 0x7FC0_0000;

/// What a result is that is no number.
pub open spec fn no_number() -> Scalar {
    Scalar { bits: NO_NUMBER }
}

/// Infinity with a sign.
pub open spec fn infinity(negative: bool) -> Scalar {
    number::signed(negative, INFINITY as nat)
}

/// The number nearest to `num / den`, in units, with a sign.
pub open spec fn rounded(negative: bool, num: nat, den: nat) -> Scalar {
    number::signed(negative, number::nearest_pattern(num, den))
}

/// The product of two numbers. Nothing times infinity is no number.
pub open spec fn product(x: Scalar, y: Scalar) -> Scalar {
    let negative = x.negative() != y.negative();
    if x.nan() || y.nan() {
        no_number()
    } else if x.infinite() || y.infinite() {
        if x.units() == 0 || y.units() == 0 {
            no_number()
        } else {
            infinity(negative)
        }
    } else {
        rounded(negative, x.size() * y.size(), pow2(149))
    }
}

/// The quotient of two numbers. Nothing over nothing, and infinity over infinity, is no number.
pub open spec fn quotient(x: Scalar, y: Scalar) -> Scalar {
    let negative = x.negative() != y.negative();
    if x.nan() || y.nan() || (x.infinite() && y.infinite()) {
        no_number()
    } else if x.infinite() {
        infinity(negative)
    } else if y.infinite() {
        number::signed(negative, 0)
    } else if y.units() == 0 {
        if x.units() == 0 {
            no_number()
        } else {
            infinity(negative)
        }
    } else {
        rounded(negative, x.size() * pow2(149), y.size())
    }
}

/// The sum of two numbers. Infinities of different signs have none. Where nothing is left, the sign
/// is minus only if both had it.
pub open spec fn sum(x: Scalar, y: Scalar) -> Scalar {
    let units = x.units() + y.units();
    if x.nan() || y.nan() || (x.infinite() && y.infinite() && x.negative() != y.negative()) {
        no_number()
    } else if x.infinite() {
        x
    } else if y.infinite() {
        y
    } else if units == 0 {
        number::signed(x.negative() && y.negative(), 0)
    } else if units < 0 {
        rounded(true, (-units) as nat, 1)
    } else {
        rounded(false, units as nat, 1)
    }
}

/// The size from which on every number is an integer, two to the power of 23, in units.
pub open spec fn integers_from() -> nat {
    0x80_0000 * pow2(149)
}

/// The nearest integer, halves away from zero.
pub open spec fn nearest_integer(x: Scalar) -> Scalar {
    if x.nan() || x.size() >= integers_from() {
        x
    } else {
        let n = (2 * x.size() + pow2(149)) / (2 * pow2(149));
        rounded(x.negative(), n * pow2(149), 1)
    }
}

/// The number with the other sign.
pub open spec fn negated(x: Scalar) -> Scalar {
    if x.negative() {
        Scalar { bits: (x.bits - 0x8000_0000) as u32 }
    } else {
        Scalar { bits: (x.bits + 0x8000_0000) as u32 }
    }
}

/// The difference of two numbers.
pub open spec fn difference(x: Scalar, y: Scalar) -> Scalar {
    sum(x, negated(y))
}

/// The larger of two numbers, or the one that is a number.
pub open spec fn larger(x: Scalar, y: Scalar) -> Scalar {
    if x.nan() || x.below(y) {
        y
    } else {
        x
    }
}

/// The smaller of two numbers, or the one that is a number.
pub open spec fn smaller(x: Scalar, y: Scalar) -> Scalar {
    if x.nan() || y.below(x) {
        y
    } else {
        x
    }
}

/// The number without its sign.
pub open spec fn absolute(x: Scalar) -> Scalar {
    Scalar { bits: (x.bits % 0x8000_0000) as u32 }
}

/// Whether `x` is a number that is not below the number `y`.
pub open spec fn at_least(x: Scalar, y: Scalar) -> bool {
    !x.nan() && !y.nan() && x.units() >= y.units()
}

/// The step and the significand of a number: the one counts how often two is taken to get from the
/// other to the size.
pub(crate) fn step_and_significand(x: Scalar) -> (r: (u32, u32))
    ensures
        x.size() == r.1 * pow2(r.0 as nat),
        r.0 == (if x.exponent() == 0 {
            0
        } else {
            x.exponent() - 1
        }),
        r.0 < 255,
        r.1 < 0x100_0000,
        r.0 > 0 ==> r.1 >= 0x80_0000,
{
    let exponent: u32 = x.bits % 0x8000_0000 / 0x80_0000;
    let fraction: u32 = x.bits % 0x80_0000;
    proof {
        lemma2_to64();
        assert(x.magnitude() % 0x80_0000 == fraction);
        assert(fraction * 1 == fraction);
    }
    if exponent == 0 {
        (0, fraction)
    } else {
        (exponent - 1, 0x80_0000 + fraction)
    }
}

fn with_sign(negative: bool, b: u32) -> (r: Scalar)
    requires
        b <= NO_NUMBER,
    ensures
        r == number::signed(negative, b as nat),
{
    if negative {
        Scalar { bits: b + 0x8000_0000 }
    } else {
        Scalar { bits: b }
    }
}

/// The pattern nearest to `p` times two to the power of `shift`, in units.
pub open spec fn nearest_shifted(p: nat, shift: int) -> nat {
    if shift >= 0 {
        number::nearest_pattern(p * pow2(shift as nat), 1)
    } else {
        number::nearest_pattern(p, pow2((-shift) as nat))
    }
}

/// Whether `m` and `f` parts of `e` are nearer to `m + 1` than to `m`, or as near to both and `m`
/// is odd.
spec fn goes_up(m: nat, f: nat, e: nat) -> bool {
    2 * f > e || (2 * f == e && m % 2 == 1)
}

/// What stands `m` and `f` parts of `e` steps of two to the power of `k` above zero rounds to one
/// of the patterns of `m` and `m + 1` such steps, or is too large for any.
proof fn rounds_to_step(num: nat, den: nat, m: nat, k: nat, f: nat, e: nat)
    requires
        den > 0,
        f < e,
        m < 0x100_0000,
        k == 0 || m >= 0x80_0000,
        num * e == den * ((m * e + f) * pow2(k)),
    ensures
        k > 253 ==> number::nearest_pattern(num, den) == INFINITY,
        k <= 253 ==> number::nearest_pattern(num, den) == k * 0x80_0000 + m + (if goes_up(m, f, e) {
            1int
        } else {
            0
        }),
{
    let p = pow2(k);
    lemma_pow2_pos(k);
    let top = INFINITY as nat;
    if k > 253 {
        let infinite = Scalar { bits: INFINITY };
        let size = number::size_at(top);
        assert(infinite.exponent() == 255);
        assert(size == 0x80_0000 * pow2(254));
        if k > 254 {
            vstd::arithmetic::power2::lemma_pow2_strictly_increases(254, k);
        }
        let least = number::size_at((top - 1) as nat);
        number::neighbours((top - 1) as nat);
        middle_is_compared(num, den, m, p, f, e);
        let q = pow2(254);
        let reached = m * p;
        assert(reached >= size) by (nonlinear_arith)
            requires
                reached == m * p,
                m >= 0x80_0000,
                p >= q,
                size == 0x80_0000 * q,
        ;
        assert(2 * (den * reached) > den * (least + size)) by (nonlinear_arith)
            requires
                reached >= size,
                least < size,
                den > 0,
        ;
        number::rounded_is(num, den, 0, top);
    } else {
        let b = (k * 0x80_0000 + m) as nat;
        step_size(m, k);
        number::neighbours(b);
        let low = number::size_at(b);
        let high = number::size_at(b + 1);
        assert(low + high == (2 * m + 1) * p);
        middle_is_compared(num, den, m, p, f, e);
        assert(b % 2 == m % 2);
        assert(number::passes(num, den, b) == goes_up(m, f, e));
        assert(high == (m + 1) * p) by (nonlinear_arith)
            requires
                low + high == (2 * m + 1) * p,
                low == m * p,
        ;
        if goes_up(m, f, e) {
            if b + 1 < INFINITY {
                number::neighbours(b + 1);
                let next = number::size_at(b + 2);
                assert(b + 1 + 1 == b + 2);
                assert(2 * (den * high) < den * (high + next)) by (nonlinear_arith)
                    requires
                        high < next,
                        den > 0,
                ;
                assert(!number::passes(num, den, b + 1));
            }
            assert((b + 1 - 1) as nat == b);
            number::rounded_is(num, den, 0, b + 1);
        } else {
            if b > 0 {
                let c = (b - 1) as nat;
                number::neighbours(c);
                let before = number::size_at(c);
                assert(c + 1 == b);
                assert(2 * (den * low) > den * (before + low)) by (nonlinear_arith)
                    requires
                        before < low,
                        den > 0,
                ;
                assert(number::passes(num, den, c));
            }
            number::rounded_is(num, den, 0, b);
        }
    }
}

/// The pattern of `m` steps of two to the power of `k`.
proof fn step_size(m: nat, k: nat)
    requires
        m < 0x100_0000,
        k == 0 || m >= 0x80_0000,
        k <= 253,
    ensures
        ({
            let x = Scalar { bits: (k * 0x80_0000 + m) as u32 };
            &&& x.significand() == m
            &&& x.size() == m * pow2(k)
            &&& k == (if x.exponent() == 0 {
                0
            } else {
                x.exponent() - 1
            })
        }),
{
    let x = Scalar { bits: (k * 0x80_0000 + m) as u32 };
    lemma2_to64();
    if m >= 0x80_0000 {
        assert(x.exponent() == k + 1);
    } else {
        assert(x.exponent() == 0);
        assert(m * 1 == m);
    }
}

/// What stands `m` and `f` parts of `e` steps of `p` above zero, against the middle between `m` and
/// `m + 1` steps and against both.
proof fn middle_is_compared(num: nat, den: nat, m: nat, p: nat, f: nat, e: nat)
    requires
        den > 0,
        f < e,
        p > 0,
        num * e == den * ((m * e + f) * p),
    ensures
        2 * num > den * ((2 * m + 1) * p) <==> 2 * f > e,
        2 * num == den * ((2 * m + 1) * p) <==> 2 * f == e,
        num >= den * (m * p),
        num < den * ((m + 1) * p),
{
    let w = den * p;
    assert(w > 0) by (nonlinear_arith)
        requires
            w == den * p,
            den > 0,
            p > 0,
    ;
    assert(num * e == w * (m * e + f)) by (nonlinear_arith)
        requires
            num * e == den * ((m * e + f) * p),
            w == den * p,
    ;
    let middle = den * ((2 * m + 1) * p);
    assert(middle == w * (2 * m + 1)) by (nonlinear_arith)
        requires
            middle == den * ((2 * m + 1) * p),
            w == den * p,
    ;
    let off: int = 2 * num - middle;
    assert(off * e == w * (2 * f - e)) by (nonlinear_arith)
        requires
            num * e == w * (m * e + f),
            middle == w * (2 * m + 1),
            off == 2 * num - middle,
    ;
    same_sign(off, e, w, 2 * f - e);
    let above: int = num - den * (m * p);
    assert(above * e == w * f) by (nonlinear_arith)
        requires
            num * e == w * (m * e + f),
            w == den * p,
            above == num - den * (m * p),
    ;
    same_sign(above, e, w, f as int);
    let under: int = num - den * ((m + 1) * p);
    assert(under * e == w * (f - e)) by (nonlinear_arith)
        requires
            num * e == w * (m * e + f),
            w == den * p,
            under == num - den * ((m + 1) * p),
    ;
    same_sign(under, e, w, f - e);
}

proof fn same_sign(a: int, e: nat, w: nat, c: int)
    by (nonlinear_arith)
    requires
        a * e == w * c,
        e > 0,
        w > 0,
    ensures
        a > 0 <==> c > 0,
        a == 0 <==> c == 0,
{
}

/// A number of which `d` bits were dropped, in terms of the others and of the steps that they
/// count.
proof fn shifted_value(p: nat, shift: int, d: nat, m: nat, f: nat)
    requires
        p == m * pow2(d) + f,
        shift + d >= 0,
    ensures
        ({
            let (num, den) = if shift >= 0 {
                (p * pow2(shift as nat), 1)
            } else {
                (p, pow2((-shift) as nat))
            };
            num * pow2(d) == den * ((m * pow2(d) + f) * pow2((shift + d) as nat))
        }),
{
    let e = pow2(d);
    let q = pow2((shift + d) as nat);
    if shift >= 0 {
        let a = pow2(shift as nat);
        lemma_pow2_adds(shift as nat, d);
        assert(p * a * e == 1 * (p * q)) by (nonlinear_arith)
            requires
                q == a * e,
        ;
    } else {
        let den = pow2((-shift) as nat);
        lemma_pow2_adds((-shift) as nat, (shift + d) as nat);
        assert(p * e == den * (p * q)) by (nonlinear_arith)
            requires
                e == den * q,
        ;
    }
}

/// What is below half of the least number rounds to nothing.
proof fn tiny_rounds_to_nothing(num: nat, den: nat)
    requires
        2 * num < den,
    ensures
        number::nearest_pattern(num, den) == 0,
{
    let zero = Scalar { bits: 0 };
    let one = Scalar { bits: 1 };
    assert(zero.size() == 0);
    assert(one.size() == 1);
    assert(den * (number::size_at(0) + number::size_at(1)) == den) by (nonlinear_arith)
        requires
            number::size_at(0) == 0,
            number::size_at(1) == 1,
    ;
    number::rounded_is(num, den, 0, 0);
}

/// What is left of a number of which `d` bits were dropped, when another bit is dropped.
proof fn bit_is_dropped(m: nat, d: nat, f: nat, last: bool, rest: bool)
    requires
        dropped_bits(d, f, last, rest),
    ensures
        ({
            let more = (m % 2) * pow2(d) + f;
            &&& m * pow2(d) + f == (m / 2) * pow2(d + 1) + more
            &&& dropped_bits(d + 1, more, m % 2 == 1, rest || last)
        }),
{
    let e = pow2(d);
    lemma_pow2_pos(d);
    vstd::arithmetic::power2::lemma_pow2_unfold(d + 1);
    assert(pow2(d + 1) == 2 * e);
    let bit = m % 2;
    let half = m / 2;
    assert(m * e + f == half * (2 * e) + (bit * e + f)) by (nonlinear_arith)
        requires
            m == 2 * half + bit,
    ;
    assert(bit == 0 || bit == 1);
    assert(0 * e == 0 && 1 * e == e);
}

/// Whether `f` is what `d` bits that were dropped stand for, of which the last is `last` and one
/// of the others is set if `rest` says so.
spec fn dropped_bits(d: nat, f: nat, last: bool, rest: bool) -> bool {
    if d == 0 {
        f == 0 && !last && !rest
    } else {
        let half = pow2((d - 1) as nat);
        &&& pow2(d) == 2 * half
        &&& last == (f >= half)
        &&& f < 2 * half
        &&& rest == (if last {
            f > half
        } else {
            f > 0
        })
    }
}

/// The pattern nearest to `p` times two to the power of `shift`, in units.
pub(crate) fn guess_pattern(p: u64, shift: i32) -> (r: u32)
    requires
        -1000 <= shift <= 1000,
    ensures
        r == nearest_shifted(p as nat, shift as int),
{
    let mut m: u64 = p;
    let mut dropped: i32 = 0;
    let mut last: bool = false;
    let mut rest: bool = false;
    let ghost mut f: nat = 0;
    proof {
        lemma2_to64();
        assert(m * 1 + 0 == p);
    }
    while dropped < 64 && m > 0 && (m >= 0x100_0000 || shift + dropped < 0)
        invariant
            0 <= dropped <= 64,
            -1000 <= shift <= 1000,
            p == m * pow2(dropped as nat) + f,
            dropped_bits(dropped as nat, f, last, rest),
            dropped > 0 ==> m >= 0x80_0000 || shift + dropped <= 0,
        decreases 64 - dropped,
    {
        proof {
            bit_is_dropped(m as nat, dropped as nat, f, last, rest);
            f = (m as nat % 2) * pow2(dropped as nat) + f;
        }
        rest = rest || last;
        last = m % 2 == 1;
        m = m / 2;
        dropped = dropped + 1;
    }
    let ghost kept = m as nat;
    let ghost steps = shift + dropped;
    let ghost d = dropped as nat;
    proof {
        lemma2_to64();
        lemma_pow2_pos(d);
        if d == 64 {
            assert(kept == 0) by (nonlinear_arith)
                requires
                    kept * pow2(64) <= 0xFFFF_FFFF_FFFF_FFFF,
                    pow2(64) == 0x1_0000_0000_0000_0000,
            ;
        }
        assert(m < 0x100_0000);
    }
    let mut step: i32 = shift + dropped;
    while m > 0 && m < 0x80_0000 && step > 0
        invariant
            step <= 1064,
            m < 0x100_0000,
            m == 0 <==> kept == 0,
            steps >= 0 ==> 0 <= step && m * pow2(step as nat) == kept * pow2(steps as nat),
            d > 0 ==> kept >= 0x80_0000 || steps <= 0,
            d > 0 || kept == 0 || steps < 0 ==> m == kept && step == steps,
        decreases step,
    {
        proof {
            vstd::arithmetic::power2::lemma_pow2_unfold(step as nat);
            let a = pow2((step - 1) as nat);
            assert(m * (2 * a) == (2 * m) * a) by (nonlinear_arith);
        }
        m = m * 2;
        step = step - 1;
    }
    proof {
        nearest_of_kept(p as nat, shift as int, d, kept, f, m as nat, step as int, last, rest);
    }
    if last && m < 0x100_0000 && (rest || m % 2 == 1) {
        m = m + 1;
    }
    if m == 0 || step < 0 {
        0
    } else if step > 253 || m > 0x100_0000 {
        INFINITY
    } else {
        step as u32 * 0x80_0000 + m as u32
    }
}

/// What a number rounds to of which `d` bits were dropped, so that `kept` was left, which is as
/// much as `m` steps of two to the power of `step`.
proof fn nearest_of_kept(
    p: nat,
    shift: int,
    d: nat,
    kept: nat,
    f: nat,
    m: nat,
    step: int,
    last: bool,
    rest: bool,
)
    requires
        p == kept * pow2(d) + f,
        dropped_bits(d, f, last, rest),
        m < 0x100_0000,
        m == 0 <==> kept == 0,
        d > 0 || kept == 0 || shift + d < 0 ==> m == kept && step == shift + d,
        kept > 0 ==> shift + d >= 0,
        shift + d >= 0 ==> 0 <= step && m * pow2(step as nat) == kept * pow2((shift + d) as nat),
        d > 0 ==> kept >= 0x80_0000 || shift + d <= 0,
        m == 0 || m >= 0x80_0000 || step <= 0,
    ensures
        ({
            let up = last && (rest || m % 2 == 1);
            let n = nearest_shifted(p, shift);
            &&& step < 0 || (m == 0 && !up) ==> n == 0
            &&& step > 253 && m > 0 ==> n == INFINITY
            &&& 0 <= step <= 253 && (m > 0 || up) ==> n == step * 0x80_0000 + m + (if up {
                1int
            } else {
                0
            })
            &&& m == 0 && up ==> step <= 0
        }),
{
    let e = pow2(d);
    lemma2_to64();
    lemma_pow2_pos(d);
    let (num, den) = if shift >= 0 {
        (p * pow2(shift as nat), 1)
    } else {
        (p, pow2((-shift) as nat))
    };
    if shift < 0 {
        lemma_pow2_pos((-shift) as nat);
    }
    assert(0 * e == 0);
    assert(f < e);
    assert(goes_up(m, f, e) == (last && (rest || m % 2 == 1)));
    if p == 0 {
        assert(kept == 0) by (nonlinear_arith)
            requires
                kept * e + f == 0,
                e > 0,
        ;
        assert(num == 0) by (nonlinear_arith)
            requires
                num == 0 * pow2(shift as nat) || num == 0,
        ;
        zero_rounds(den);
    } else if shift + d < 0 {
        lemma_pow2_adds((-shift - d) as nat, d);
        let b = pow2((-shift - d) as nat);
        vstd::arithmetic::power2::lemma_pow2_unfold((-shift - d) as nat);
        lemma_pow2_pos((-shift - d - 1) as nat);
        assert(2 * p < den) by (nonlinear_arith)
            requires
                p < e,
                den == b * e,
                b >= 2,
        ;
        tiny_rounds_to_nothing(num, den);
    } else {
        shifted_value(p, shift, d, kept, f);
        let k = step as nat;
        if d == 0 {
            let q = pow2((shift + d) as nat);
            assert(e == 1 && f == 0);
            assert((m * e + f) * pow2(k) == (kept * e + f) * q) by {
                assert(m * 1 + 0 == m && kept * 1 + 0 == kept);
            }
        }
        if m > 0 || k == 0 {
            rounds_to_step(num, den, m, k, f, e);
        }
    }
}

/// Half of a double.
pub proof fn half_of_double(n: nat)
    ensures
        (2 * n) % 2 == 0,
        (2 * n) / 2 == n,
{
}

impl Scalar {
    /// Whether the pattern stands for one of the two infinities.
    pub fn is_infinite(self) -> (r: bool)
        ensures
            r == self.infinite(),
    {
        self.bits % 0x8000_0000 == INFINITY
    }

    /// The product with `other`, rounded to the nearest number.
    pub fn times(self, other: Scalar) -> (r: Scalar)
        ensures
            r == product(self, other),
    {
        let negative = (self.bits >= 0x8000_0000) != (other.bits >= 0x8000_0000);
        if self.is_nan() || other.is_nan() {
            return Scalar { bits: NO_NUMBER };
        }
        if self.is_infinite() || other.is_infinite() {
            if self.is_zero() || other.is_zero() {
                return Scalar { bits: NO_NUMBER };
            }
            return with_sign(negative, INFINITY);
        }
        let (s, m): (u32, u32) = step_and_significand(self);
        let (t, n): (u32, u32) = step_and_significand(other);
        let mut double = Natural::new(m);
        double.multiply_add(n, 0);
        multiply_by_two_to(&mut double, s + t + 1);
        let mut den = Natural::new(1);
        multiply_by_two_to(&mut den, 149);
        proof {
            lemma2_to64();
            lemma_pow2_adds(s as nat, t as nat);
            lemma_pow2_adds((s + t) as nat, 1);
            lemma_pow2_pos(149);
            let a = pow2(s as nat);
            let b = pow2(t as nat);
            assert(m * n * (a * b * 2) == 2 * ((m * a) * (n * b))) by (nonlinear_arith);
            assert(double@ == 2 * (self.size() * other.size()));
            assert(1 * pow2(149) == pow2(149));
            half_of_double(self.size() * other.size());
        }
        assert(m * n < 0x100_0000 * 0x100_0000) by (nonlinear_arith)
            requires
                m < 0x100_0000,
                n < 0x100_0000,
        ;
        let guess: u32 = guess_pattern((m as u64) * (n as u64), s as i32 + t as i32 - 149);
        with_sign(negative, nearest_ratio_to(&double, &den, guess))
    }

    /// The quotient by `other`, rounded to the nearest number.
    pub fn over(self, other: Scalar) -> (r: Scalar)
        ensures
            r == quotient(self, other),
    {
        let negative = (self.bits >= 0x8000_0000) != (other.bits >= 0x8000_0000);
        if self.is_nan() || other.is_nan() || (self.is_infinite() && other.is_infinite()) {
            return Scalar { bits: NO_NUMBER };
        }
        if self.is_infinite() {
            return with_sign(negative, INFINITY);
        }
        if other.is_infinite() {
            return with_sign(negative, 0);
        }
        if other.is_zero() {
            if self.is_zero() {
                return Scalar { bits: NO_NUMBER };
            }
            return with_sign(negative, INFINITY);
        }
        let (s, m): (u32, u32) = step_and_significand(self);
        let (t, n): (u32, u32) = step_and_significand(other);
        let mut double = Natural::new(m);
        multiply_by_two_to(&mut double, s + 150);
        let mut den = Natural::new(n);
        multiply_by_two_to(&mut den, t);
        proof {
            lemma2_to64();
            lemma_pow2_adds(s as nat, 150);
            lemma_pow2_adds(149, 1);
            let a = pow2(s as nat);
            let one = pow2(149);
            assert(m * (a * (one * 2)) == 2 * ((m * a) * one)) by (nonlinear_arith);
            assert(double@ == 2 * (self.size() * one));
            half_of_double(self.size() * one);
        }
        let guess: u32 = if n == 0 {
            0
        } else {
            let wide: u64 = (m as u64) * 0x100_0000_0000;
            let q: u64 = wide / (n as u64);
            let sticky: u64 = if wide % (n as u64) == 0 {
                q
            } else {
                q / 2 * 2 + 1
            };
            guess_pattern(sticky, s as i32 - t as i32 + 109)
        };
        with_sign(negative, nearest_ratio_to(&double, &den, guess))
    }

    /// The sum with `other`, rounded to the nearest number.
    pub fn plus(self, other: Scalar) -> (r: Scalar)
        ensures
            r == sum(self, other),
    {
        let p = self.bits >= 0x8000_0000;
        let q = other.bits >= 0x8000_0000;
        if self.is_nan() || other.is_nan() || (self.is_infinite() && other.is_infinite() && p
            != q) {
            return Scalar { bits: NO_NUMBER };
        }
        if self.is_infinite() {
            return self;
        }
        if other.is_infinite() {
            return other;
        }
        let magnitude: u32 = self.bits % 0x8000_0000;
        let other_magnitude: u32 = other.bits % 0x8000_0000;
        if magnitude >= other_magnitude {
            sum_of_ordered(self, other)
        } else {
            let r = sum_of_ordered(other, self);
            assert(sum(other, self) == sum(self, other));
            r
        }
    }

    /// The difference from `other`, rounded to the nearest number.
    pub fn minus(self, other: Scalar) -> (r: Scalar)
        ensures
            r == difference(self, other),
    {
        self.plus(other.negate())
    }

    /// The number or `other`, whichever is larger, or the one that is a number.
    pub fn or_larger(self, other: Scalar) -> (r: Scalar)
        ensures
            r == larger(self, other),
    {
        if self.is_nan() || self.is_below(other) {
            other
        } else {
            self
        }
    }

    /// The number or `other`, whichever is smaller, or the one that is a number.
    pub fn or_smaller(self, other: Scalar) -> (r: Scalar)
        ensures
            r == smaller(self, other),
    {
        if self.is_nan() || other.is_below(self) {
            other
        } else {
            self
        }
    }

    /// The number with the other sign.
    pub fn negate(self) -> (r: Scalar)
        ensures
            r == negated(self),
    {
        if self.bits >= 0x8000_0000 {
            Scalar { bits: self.bits - 0x8000_0000 }
        } else {
            Scalar { bits: self.bits + 0x8000_0000 }
        }
    }

    /// The number without its sign.
    pub fn unsigned(self) -> (r: Scalar)
        ensures
            r == absolute(self),
    {
        Scalar { bits: self.bits % 0x8000_0000 }
    }

    /// Whether the number is `other` or above.
    pub fn is_at_least(self, other: Scalar) -> (r: bool)
        ensures
            r == at_least(self, other),
    {
        other.is_below(self) || other.is_equal(self)
    }

    /// The nearest integer, halves away from zero.
    pub fn round(self) -> (r: Scalar)
        ensures
            r == nearest_integer(self),
    {
        let negative = self.bits >= 0x8000_0000;
        let magnitude = Scalar { bits: self.bits % 0x8000_0000 };
        assert(magnitude.size() == self.size());
        proof {
            integer_sizes(self);
        }
        if self.is_nan() || magnitude.bits >= 0x4B00_0000 {
            return self;
        }
        let n: u32 = magnitude.round_to_integer();
        proof {
            let one = pow2(149);
            lemma_pow2_pos(149);
            let k = (2 * self.size() + one) / (2 * one);
            assert(k <= 0x80_0000) by (nonlinear_arith)
                requires
                    self.size() < 0x80_0000 * one,
                    k == (2 * self.size() + one) / (2 * one),
                    one > 0,
            ;
            assert(n == k);
            number_of_integer(n as nat);
        }
        let w = from_whole(n);
        with_sign(negative, w.bits)
    }
}

proof fn integer_sizes(x: Scalar)
    ensures
        !x.nan() ==> (x.magnitude() >= 0x4B00_0000 <==> x.size() >= integers_from()),
{
    let e = Scalar { bits: 0x4B00_0000 };
    let m = Scalar { bits: (x.bits % 0x8000_0000) as u32 };
    assert(e.exponent() == 150);
    assert(e.significand() == 0x80_0000);
    assert(e.size() == integers_from());
    assert(m.size() == x.size());
    if x.magnitude() < 0x4B00_0000 {
        scalar::size_follows_magnitude(x, e);
    } else if x.magnitude() > 0x4B00_0000 && !x.nan() {
        scalar::size_follows_magnitude(e, x);
    }
}

proof fn number_of_integer(n: nat)
    ensures
        number::whole(n).bits == number::nearest_pattern(n * pow2(149), 1),
        number::whole(n).bits <= INFINITY,
{
    number::rounded_stops(n * pow2(149), 1, 0);
    assert(scalar::ten_to(0) == 1);
    assert(n * 1 * pow2(149) == n * pow2(149)) by (nonlinear_arith);
}

/// `m` times two to the power of `apart`, and `n` more or less, but not below zero. Where they are
/// far apart, `n` is left out.
spec fn near_sum(m: nat, n: nat, apart: nat, more: bool) -> nat {
    let high = m * pow2(apart);
    if apart > 39 {
        high
    } else if more {
        high + n
    } else if high >= n {
        (high - n) as nat
    } else {
        0
    }
}

/// Where to look first for `m` times two to the power of `apart`, and `n` more or less, times two
/// to the power of `t`: at the pattern nearest to it, but that `n` is left out where they are far
/// apart.
fn guess_sum(m: u32, n: u32, apart: u32, t: u32, more: bool) -> (r: u32)
    requires
        m < 0x100_0000,
        n < 0x100_0000,
        apart < 255,
        t < 255,
    ensures
        r == number::nearest_pattern(
            near_sum(m as nat, n as nat, apart as nat, more) * pow2(t as nat),
            1,
        ),
{
    let mut high: u64 = m as u64;
    let mut i: u32 = 0;
    proof {
        lemma2_to64();
        assert(m * 1 == m);
    }
    while i < apart && i < 39
        invariant
            i <= 39,
            i <= apart,
            m < 0x100_0000,
            high == m * pow2(i as nat),
        decreases apart - i,
    {
        proof {
            vstd::arithmetic::power2::lemma_pow2_unfold((i + 1) as nat);
            small_multiple(m as nat, i as nat);
            let a = pow2(i as nat);
            assert(m * (2 * a) == 2 * (m * a)) by (nonlinear_arith);
        }
        high = high * 2;
        i = i + 1;
    }
    proof {
        small_multiple(m as nat, i as nat);
    }
    let low: u64 = if i == apart {
        n as u64
    } else {
        0
    };
    let total: u64 = if more {
        high + low
    } else if high >= low {
        high - low
    } else {
        0
    };
    proof {
        let left = (apart - i) as nat;
        lemma_pow2_adds(t as nat, left);
        if left > 0 {
            lemma_pow2_adds(i as nat, left);
            let (a, b, c) = (pow2(i as nat), pow2(left), pow2(t as nat));
            assert((m * a) * (c * b) == (m * (a * b)) * c) by (nonlinear_arith);
        } else {
            lemma2_to64();
        }
    }
    guess_pattern(total, t as i32 + (apart - i) as i32)
}

proof fn small_multiple(m: nat, i: nat)
    requires
        m < 0x100_0000,
        i <= 39,
    ensures
        m * pow2(i) < 0x8000_0000_0000_0000,
{
    small_power_of_two(i);
    let a = pow2(i);
    lemma_pow2_pos(i);
    assert(m * a < 0x100_0000 * 0x80_0000_0000) by (nonlinear_arith)
        requires
            m < 0x100_0000,
            0 < a <= 0x80_0000_0000,
    ;
}

proof fn small_power_of_two(i: nat)
    requires
        i <= 39,
    ensures
        pow2(i) <= 0x80_0000_0000,
{
    lemma2_to64();
    lemma_pow2_adds(7, 32);
    if i < 39 {
        vstd::arithmetic::power2::lemma_pow2_strictly_increases(i, 39);
    }
}

/// The sum of two finite numbers of which the first is not the smaller.
fn sum_of_ordered(x: Scalar, y: Scalar) -> (r: Scalar)
    requires
        !x.nan() && !x.infinite(),
        !y.nan() && !y.infinite(),
        x.magnitude() >= y.magnitude(),
    ensures
        r == sum(x, y),
{
    let p = x.bits >= 0x8000_0000;
    let q = y.bits >= 0x8000_0000;
    proof {
        sizes_keep_order(x, y);
    }
    let (s, m): (u32, u32) = step_and_significand(x);
    let (t, n): (u32, u32) = step_and_significand(y);
    assert(s >= t) by {
        let a = x.exponent();
        let b = y.exponent();
        assert(a >= b);
    }
    let mut total = Natural::new(m);
    multiply_by_two_to(&mut total, s - t);
    let ghost a = pow2(t as nat);
    let ghost high = m * pow2((s - t) as nat);
    proof {
        lemma_pow2_adds((s - t) as nat, t as nat);
        lemma_pow2_pos(t as nat);
        let c = pow2((s - t) as nat);
        assert(m * (c * a) == high * a) by (nonlinear_arith)
            requires
                high == m * c,
        ;
        assert(x.size() == high * a);
        assert(y.size() == n * a);
        assert(n <= high) by (nonlinear_arith)
            requires
                n * a <= high * a,
                a > 0,
        ;
    }
    if p == q {
        total.multiply_add(1, n);
        proof {
            assert(high * 1 + n == high + n);
            assert((high + n) * a == high * a + n * a) by (nonlinear_arith);
        }
    } else {
        total.subtract(n);
        proof {
            assert((high - n) * a == high * a - n * a) by (nonlinear_arith);
        }
    }
    let ghost left = total@;
    multiply_by_two_to(&mut total, t + 1);
    proof {
        lemma2_to64();
        lemma_pow2_adds(t as nat, 1);
        assert(left * (a * 2) == 2 * (left * a)) by (nonlinear_arith);
        half_of_double(left * a);
        assert(p == q ==> left * a == x.size() + y.size());
        assert(p != q ==> left * a == x.size() - y.size());
    }
    let den = Natural::new(1);
    let guess: u32 = guess_sum(m, n, s - t, t, p == q);
    let b: u32 = nearest_ratio_to(&total, &den, guess);
    proof {
        let units = x.units() + y.units();
        if units == 0 {
            zero_rounds(1);
        }
    }
    let zero = Natural::new(0);
    let nothing = match total.compare(&zero) {
        Order::Equal => true,
        _ => false,
    };
    if nothing {
        return with_sign(p && q, 0);
    }
    with_sign(p, b)
}

proof fn zero_rounds(den: nat)
    requires
        den > 0,
    ensures
        number::nearest_pattern(0, den) == 0,
{
    let zero = Scalar { bits: 0 };
    assert(zero.size() == 0);
    assert(den * 0 == 0) by (nonlinear_arith);
    number::patterns_round_to_themselves(0, den, 0);
}

proof fn sizes_keep_order(x: Scalar, y: Scalar)
    requires
        !x.nan(),
        !y.nan(),
        x.magnitude() >= y.magnitude(),
    ensures
        x.size() >= y.size(),
{
    if x.magnitude() > y.magnitude() {
        scalar::size_follows_magnitude(y, x);
    } else {
        assert(x.size() == y.size());
    }
}

} // verus!
