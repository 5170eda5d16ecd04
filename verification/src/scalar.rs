//! Single precision numbers, held by their bit patterns.
//!
//! Every finite single precision number is a whole multiple of two to the power of minus 149, the
//! smallest one above zero. The contracts speak of that multiple, an integer, so that order,
//! rounding and decimal numerals are statements about integers.

use vstd::arithmetic::div_mod::lemma_fundamental_div_mod_converse;
use vstd::arithmetic::power2::pow2;
use vstd::arithmetic::power2::lemma_pow2_pos;
use vstd::arithmetic::power2::lemma_pow2_adds;
use vstd::arithmetic::power2::lemma_pow2_strictly_increases;
use vstd::arithmetic::power2::lemma_pow2_unfold;
use vstd::prelude::*;
use vstd::string::StringExecFns;

use crate::text::numeral;
use crate::text::string_of;
use crate::text;

verus! {

/// A single precision number in the format of IEEE 754, by its bit pattern.
#[derive(Clone, Copy, Debug, PartialEq, Eq, Structural)]
pub struct Scalar {
    pub bits: u32,
}

impl Scalar {
    /// Whether the sign bit is set.
    pub open spec fn negative(self) -> bool {
        self.bits >= 0x8000_0000
    }

    /// The bit pattern without the sign bit.
    pub open spec fn magnitude(self) -> nat {
        (self.bits % 0x8000_0000) as nat
    }

    /// The biased exponent.
    pub open spec fn exponent(self) -> nat {
        self.magnitude() / 0x80_0000
    }

    /// The significand as an integer of at most 24 bits.
    pub open spec fn significand(self) -> nat {
        let fraction = self.magnitude() % 0x80_0000;
        if self.exponent() == 0 {
            fraction
        } else {
            0x80_0000 + fraction
        }
    }

    /// Whether the pattern stands for no number.
    pub open spec fn nan(self) -> bool {
        self.magnitude() > 0x7F80_0000
    }

    /// Whether the pattern stands for one of the two infinities.
    pub open spec fn infinite(self) -> bool {
        self.magnitude() == 0x7F80_0000
    }

    /// The absolute value in units of two to the power of minus 149. The infinities stand one step
    /// above the largest finite number.
    pub open spec fn size(self) -> nat {
        if self.exponent() == 0 {
            self.significand()
        } else {
            self.significand() * pow2((self.exponent() - 1) as nat)
        }
    }

    /// The value in units of two to the power of minus 149.
    pub open spec fn units(self) -> int {
        if self.negative() {
            -(self.size() as int)
        } else {
            self.size() as int
        }
    }

    /// The order of numbers: a pattern that stands for no number is neither below nor above
    /// anything, and the two zeros are equal.
    pub open spec fn below(self, other: Scalar) -> bool {
        !self.nan() && !other.nan() && self.units() < other.units()
    }

    /// Whether two patterns stand for the same number: one that stands for none does not, and the
    /// two zeros are equal.
    pub open spec fn equals(self, other: Scalar) -> bool {
        !self.nan() && !other.nan() && self.units() == other.units()
    }

    /// The nearest number between `low` and `high`; a pattern that stands for no number stays.
    pub open spec fn clamped(self, low: Scalar, high: Scalar) -> Scalar {
        if self.below(low) {
            low
        } else if high.below(self) {
            high
        } else {
            self
        }
    }
}

proof fn size_by_exponent(x: Scalar)
    ensures
        x.exponent() <= 255,
        x.exponent() == 0 ==> x.size() < 0x80_0000,
        x.exponent() > 0 ==> 0x80_0000 * pow2((x.exponent() - 1) as nat) <= x.size() < 0x80_0000
            * pow2(x.exponent()),
{
    if x.exponent() > 0 {
        let e = (x.exponent() - 1) as nat;
        let m = x.significand();
        lemma_pow2_unfold(x.exponent());
        lemma_pow2_pos(e);
        assert(0x80_0000 <= m < 0x100_0000);
        assert(0x80_0000 * pow2(e) <= m * pow2(e) < 0x100_0000 * pow2(e)) by (nonlinear_arith)
            requires
                0x80_0000 <= m < 0x100_0000,
                pow2(e) > 0,
        ;
    }
}

/// Patterns of the same sign are ordered as the numbers that they stand for.
pub proof fn size_follows_magnitude(a: Scalar, b: Scalar)
    requires
        a.magnitude() < b.magnitude(),
    ensures
        a.size() < b.size(),
{
    size_by_exponent(a);
    size_by_exponent(b);
    let ea = a.exponent();
    let eb = b.exponent();
    assert(ea <= eb);
    if ea == eb {
        assert(a.significand() < b.significand());
        if ea > 0 {
            lemma_pow2_pos((ea - 1) as nat);
            let ma = a.significand();
            let mb = b.significand();
            let p = pow2((ea - 1) as nat);
            assert(ma * p < mb * p) by (nonlinear_arith)
                requires
                    ma < mb,
                    p > 0,
            ;
        }
    } else {
        let p = pow2((eb - 1) as nat);
        lemma_pow2_pos((eb - 1) as nat);
        if ea == 0 {
            assert(0x80_0000 <= 0x80_0000 * p) by (nonlinear_arith)
                requires
                    p > 0,
            ;
        } else {
            if ea < eb - 1 {
                lemma_pow2_strictly_increases(ea, (eb - 1) as nat);
            }
            let q = pow2(ea);
            assert(0x80_0000 * q <= 0x80_0000 * p) by (nonlinear_arith)
                requires
                    q <= p,
            ;
        }
    }
}

/// Patterns without the sign bit are ordered as the numbers that they stand for.
pub proof fn positive_patterns_in_order(a: Scalar, b: Scalar)
    requires
        a.bits < b.bits < 0x8000_0000,
    ensures
        0 <= a.units() < b.units(),
{
    size_follows_magnitude(a, b);
}

impl Scalar {
    /// Whether the pattern stands for no number.
    pub fn is_nan(self) -> (r: bool)
        ensures
            r == self.nan(),
    {
        self.bits % 0x8000_0000 > 0x7F80_0000
    }

    /// Whether the number is zero, of either sign.
    pub fn is_zero(self) -> (r: bool)
        ensures
            r == (self.units() == 0),
    {
        proof {
            let zero = Scalar { bits: 0 };
            assert(zero.size() == 0);
            if self.magnitude() != 0 {
                size_follows_magnitude(zero, self);
            } else {
                assert(self.size() == 0);
            }
        }
        self.bits % 0x8000_0000 == 0
    }

    /// Whether the number is below `other`.
    pub fn is_below(self, other: Scalar) -> (r: bool)
        ensures
            r == self.below(other),
    {
        let a: u32 = self.bits % 0x8000_0000;
        let b: u32 = other.bits % 0x8000_0000;
        proof {
            let zero = Scalar { bits: 0 };
            assert(zero.size() == 0);
            if a < b {
                size_follows_magnitude(self, other);
            } else if b < a {
                size_follows_magnitude(other, self);
            } else {
                assert(self.size() == other.size());
            }
            if a != 0 {
                size_follows_magnitude(zero, self);
            } else {
                assert(self.size() == 0);
            }
            if b != 0 {
                size_follows_magnitude(zero, other);
            } else {
                assert(other.size() == 0);
            }
        }
        if self.is_nan() || other.is_nan() {
            false
        } else if self.bits >= 0x8000_0000 {
            if other.bits >= 0x8000_0000 {
                b < a
            } else {
                a != 0 || b != 0
            }
        } else if other.bits >= 0x8000_0000 {
            false
        } else {
            a < b
        }
    }

    /// Whether the number is the same as `other`.
    pub fn is_equal(self, other: Scalar) -> (r: bool)
        ensures
            r == self.equals(other),
    {
        !self.is_nan() && !other.is_nan() && !self.is_below(other) && !other.is_below(self)
    }

    /// Whether the pattern stands for a number other than the infinities.
    pub fn is_finite(self) -> (r: bool)
        ensures
            r == !(self.nan() || self.infinite()),
    {
        self.bits % 0x8000_0000 < 0x7F80_0000
    }

    /// The nearest number between `low` and `high`.
    pub fn clamp(self, low: Scalar, high: Scalar) -> (r: Scalar)
        requires
            !low.nan(),
            !high.nan(),
            low.units() <= high.units(),
        ensures
            r == self.clamped(low, high),
    {
        if self.is_below(low) {
            low
        } else if high.is_below(self) {
            high
        } else {
            self
        }
    }
}

/// Ten to the power of `places`.
pub open spec fn ten_to(places: nat) -> nat
    decreases places,
{
    if places == 0 {
        1
    } else {
        10 * ten_to((places - 1) as nat)
    }
}

/// The last `places` decimal digits of `n`.
pub open spec fn last_digits(n: nat, places: nat) -> Seq<char>
    decreases places,
{
    if places == 0 {
        seq![]
    } else {
        last_digits(n / 10, (places - 1) as nat).push(text::digit(n % 10))
    }
}

/// The decimal numeral of `n` divided by ten to the power of `places`; no point is written where
/// no digit follows it.
pub open spec fn point_numeral(n: nat, places: nat) -> Seq<char> {
    if places == 0 {
        text::decimal(n)
    } else {
        text::decimal(n / ten_to(places)) + seq!['.'] + last_digits(n % ten_to(places), places)
    }
}

/// `n / d` rounded to the nearest integer, and to the even one of two that are equally near.
pub open spec fn nearest_even(n: nat, d: nat) -> nat {
    let q = n / d;
    let r = n % d;
    if 2 * r > d || (2 * r == d && q % 2 == 1) {
        q + 1
    } else {
        q
    }
}

impl Scalar {
    /// The number rounded to the nearest integer, halves away from zero, and brought into the
    /// range of `u32`; a pattern that stands for no number becomes zero.
    pub open spec fn to_integer(self) -> u32 {
        if self.nan() || self.negative() {
            0
        } else {
            let n = (2 * self.size() + pow2(149)) / (2 * pow2(149));
            if n > u32::MAX {
                u32::MAX
            } else {
                n as u32
            }
        }
    }

    /// The absolute value times ten to the power of `places`, rounded to the nearest integer, and
    /// to the even one of two that are equally near.
    pub open spec fn scaled(self, places: nat) -> nat {
        nearest_even(self.size() * ten_to(places), pow2(149))
    }

    /// The absolute value as a numeral with `places` digits after the point.
    pub open spec fn size_numeral(self, places: nat) -> Seq<char> {
        if self.infinite() {
            seq!['i', 'n', 'f']
        } else {
            point_numeral(self.scaled(places), places)
        }
    }

    /// The number as a numeral with `places` digits after the point. The sign is written before a
    /// negative number, and before any number if `plus` is set.
    pub open spec fn fixed(self, places: nat, plus: bool) -> Seq<char> {
        if self.nan() {
            seq!['N', 'a', 'N']
        } else if self.negative() {
            seq!['-'] + self.size_numeral(places)
        } else if plus {
            seq!['+'] + self.size_numeral(places)
        } else {
            self.size_numeral(places)
        }
    }
}

pub(crate) fn power_of_two(k: u32) -> (r: u128)
    requires
        k < 128,
    ensures
        r == pow2(k as nat),
{
    proof {
        vstd::arithmetic::power2::lemma2_to64();
    }
    let mut r: u128 = 1;
    let mut i: u32 = 0;
    while i < k
        invariant
            i <= k < 128,
            r == pow2(i as nat),
        decreases k - i,
    {
        proof {
            vstd::arithmetic::power2::lemma2_to64();
            lemma_pow2_unfold((i + 1) as nat);
            if i + 1 < 127 {
                lemma_pow2_strictly_increases((i + 1) as nat, 127);
            }
            lemma_pow2_adds(64, 64);
            lemma_pow2_unfold(128);
        }
        r = r * 2;
        i = i + 1;
    }
    r
}

fn power_of_ten(places: u8) -> (r: u64)
    requires
        places <= 9,
    ensures
        r == ten_to(places as nat),
        1 <= r <= 1_000_000_000,
{
    proof {
        reveal_with_fuel(ten_to, 10);
    }
    let mut r: u64 = 1;
    let mut i: u8 = 0;
    while i < places
        invariant
            i <= places <= 9,
            r == ten_to(i as nat),
            r <= 1_000_000_000,
        decreases places - i,
    {
        proof {
            reveal_with_fuel(ten_to, 10);
        }
        r = r * 10;
        i = i + 1;
    }
    r
}

/// A common factor may be struck from a quotient that is rounded.
proof fn nearest_even_of_multiples(n: nat, d: nat, p: nat)
    requires
        d > 0,
        p > 0,
    ensures
        p * d > 0,
        nearest_even(p * n, p * d) == nearest_even(n, d),
{
    let q = n / d;
    let r = n % d;
    assert(n == d * q + r) by {
        vstd::arithmetic::div_mod::lemma_fundamental_div_mod(n as int, d as int);
    }
    assert(p * n == (p * d) * q + p * r) by (nonlinear_arith)
        requires
            n == d * q + r,
    ;
    assert(0 <= p * r < p * d) by (nonlinear_arith)
        requires
            0 <= r < d,
            p > 0,
    ;
    assert((p * d) * q == q * (p * d)) by (nonlinear_arith);
    lemma_fundamental_div_mod_converse((p * n) as int, (p * d) as int, q as int, (p * r) as int);
    assert(2 * (p * r) > p * d <==> 2 * r > d) by (nonlinear_arith)
        requires
            p > 0,
    ;
    assert(2 * (p * r) == p * d <==> 2 * r == d) by (nonlinear_arith)
        requires
            p > 0,
    ;
}

impl Scalar {
    fn parts(self) -> (r: (u32, u32))
        ensures
            r.0 == self.exponent(),
            r.1 == self.significand(),
            r.0 <= 255,
            r.1 < 0x100_0000,
            r.0 == 0 ==> r.1 < 0x80_0000,
            r.0 > 0 ==> r.1 >= 0x80_0000,
    {
        let magnitude: u32 = self.bits % 0x8000_0000;
        let exponent: u32 = magnitude / 0x80_0000;
        let fraction: u32 = magnitude % 0x80_0000;
        if exponent == 0 {
            (exponent, fraction)
        } else {
            (exponent, 0x80_0000 + fraction)
        }
    }

    /// The number rounded to the nearest integer, halves away from zero, and brought into the
    /// range of `u32`; a pattern that stands for no number becomes zero.
    pub fn round_to_integer(self) -> (r: u32)
        ensures
            r == self.to_integer(),
    {
        if self.is_nan() || self.bits >= 0x8000_0000 {
            return 0;
        }
        let (e, m): (u32, u32) = self.parts();
        if e < 125 {
            proof {
                size_by_exponent(self);
                vstd::arithmetic::power2::lemma2_to64();
                lemma_pow2_unfold(149);
                lemma_pow2_adds(23, 125);
                if e > 0 {
                    lemma_pow2_strictly_increases(e as nat, 125);
                    assert(self.size() < 0x80_0000 * pow2(125));
                } else {
                    lemma_pow2_pos(125);
                    assert(self.size() < 0x80_0000 * pow2(125)) by (nonlinear_arith)
                        requires
                            self.size() < 0x80_0000,
                            pow2(125) > 0,
                    ;
                }
                assert(2 * self.size() + pow2(149) < 2 * pow2(149));
                vstd::arithmetic::div_mod::lemma_basic_div(
                    (2 * self.size() + pow2(149)) as int,
                    (2 * pow2(149)) as int,
                );
            }
            0
        } else if e < 150 {
            let k: u32 = 150 - e;
            let h: u128 = power_of_two(k);
            proof {
                vstd::arithmetic::power2::lemma2_to64();
                lemma_pow2_pos(k as nat);
                if k < 25 {
                    lemma_pow2_strictly_increases(k as nat, 25);
                }
            }
            let r: u128 = (2 * (m as u128) + h) / (2 * h);
            proof {
                let p = pow2((e - 1) as nat);
                lemma_pow2_pos((e - 1) as nat);
                lemma_pow2_adds((e - 1) as nat, k as nat);
                assert(pow2(149) == p * h);
                assert(2 * self.size() + pow2(149) == p * (2 * m + h)) by (nonlinear_arith)
                    requires
                        self.size() == m * p,
                        pow2(149) == p * h,
                ;
                assert(2 * pow2(149) == p * (2 * h)) by (nonlinear_arith)
                    requires
                        pow2(149) == p * h,
                ;
                lemma_cancel((2 * m + h) as nat, (2 * h) as nat, p);
                assert(r <= (2 * m + h)) by (nonlinear_arith)
                    requires
                        r == (2 * m + h) as int / (2 * h) as int,
                        h > 0,
                ;
            }
            r as u32
        } else {
            let j: u32 = e - 150;
            proof {
                vstd::arithmetic::power2::lemma2_to64();
                lemma_pow2_pos(149);
                lemma_pow2_pos(j as nat);
                lemma_pow2_adds(149, j as nat);
                let one = pow2(149);
                let f = pow2(j as nat);
                assert(self.size() == m * (one * f));
                assert(2 * self.size() + one == one * (2 * (m * f) + 1)) by (nonlinear_arith)
                    requires
                        self.size() == m * (one * f),
                ;
                assert(2 * one == one * 2) by (nonlinear_arith);
                assert(m * f >= 0) by (nonlinear_arith)
                    requires
                        m >= 0,
                        f >= 0,
                ;
                lemma_cancel((2 * (m * f) + 1) as nat, 2, one);
                assert((2 * self.size() + pow2(149)) / (2 * pow2(149)) == m * f);
                if j >= 9 {
                    if j > 9 {
                        lemma_pow2_strictly_increases(9, j as nat);
                    }
                    assert(m * f >= 0x80_0000 * 512) by (nonlinear_arith)
                        requires
                            m >= 0x80_0000,
                            f >= 512,
                    ;
                }
            }
            if j >= 9 {
                u32::MAX
            } else {
                let f: u128 = power_of_two(j);
                proof {
                    if j < 9 {
                        lemma_pow2_strictly_increases(j as nat, 9);
                    }
                    assert(m * f <= 0x100_0000 * 512) by (nonlinear_arith)
                        requires
                            m <= 0x100_0000,
                            f <= 512,
                    ;
                }
                let v: u128 = (m as u128) * f;
                if v > 0xFFFF_FFFF {
                    u32::MAX
                } else {
                    v as u32
                }
            }
        }
    }
}

proof fn lemma_cancel(n: nat, d: nat, p: nat)
    requires
        d > 0,
        p > 0,
    ensures
        p * d > 0,
        (p * n) / (p * d) == n / d,
{
    assert(p * d > 0) by (nonlinear_arith)
        requires
            p > 0,
            d > 0,
    ;
    vstd::arithmetic::div_mod::lemma_div_multiples_vanish_quotient(p as int, n as int, d as int);
}

/// The last `places` decimal digits of `n`.
fn push_last_digits(out: &mut String, n: u64, places: u8)
    ensures
        final(out)@ == old(out)@ + last_digits(n as nat, places as nat),
    decreases places,
{
    if places == 0 {
        assert(out@ =~= old(out)@ + last_digits(n as nat, 0));
    } else {
        push_last_digits(out, n / 10, places - 1);
        let d: char = ((n % 10) as u8 + 48) as char;
        out.push(d);
        assert(out@ =~= old(out)@ + last_digits(n as nat, places as nat));
    }
}

impl Scalar {
    /// The digits of the absolute value before the point, and the number that the `places` digits
    /// after it stand for.
    fn decimal_parts(self, places: u8) -> (r: (u128, u64))
        requires
            places <= 9,
            self.magnitude() < 0x7F80_0000,
        ensures
            r.0 * ten_to(places as nat) + r.1 == self.scaled(places as nat),
            r.1 < ten_to(places as nat),
    {
        let (e, m): (u32, u32) = self.parts();
        let s: u64 = power_of_ten(places);
        let ghost one = pow2(149);
        proof {
            lemma_pow2_pos(149);
        }
        if e < 150 {
            let step: u32 = if e == 0 {
                1
            } else {
                e
            };
            let k: u32 = 150 - step;
            let ghost p = pow2((step - 1) as nat);
            let ghost h = pow2(k as nat);
            assert(m * s < 0x100_0000 * 1_000_000_001) by (nonlinear_arith)
                requires
                    m < 0x100_0000,
                    s <= 1_000_000_000,
                    m >= 0,
                    s >= 0,
            ;
            let a: u128 = (m as u128) * (s as u128);
            proof {
                vstd::arithmetic::power2::lemma2_to64();
                lemma_pow2_pos((step - 1) as nat);
                lemma_pow2_pos(k as nat);
                lemma_pow2_adds((step - 1) as nat, k as nat);
                assert(self.size() == m * p) by {
                    if e == 0 {
                        assert(p == 1);
                        assert(m * p == m) by (nonlinear_arith)
                            requires
                                p == 1,
                        ;
                    }
                }
                assert(self.size() * s == p * a) by (nonlinear_arith)
                    requires
                        self.size() == m * p,
                        a == m * s,
                ;
                nearest_even_of_multiples(a as nat, h, p);
                assert(self.scaled(places as nat) == nearest_even(a as nat, h));
            }
            if k >= 64 {
                proof {
                    if k > 64 {
                        lemma_pow2_strictly_increases(64, k as nat);
                    }
                    vstd::arithmetic::div_mod::lemma_basic_div(a as int, h as int);
                    vstd::arithmetic::div_mod::lemma_small_mod(a as nat, h);
                    assert(nearest_even(a as nat, h) == 0);
                }
                (0, 0)
            } else {
                let half: u128 = power_of_two(k);
                proof {
                    lemma_pow2_strictly_increases(k as nat, 64);
                }
                let q: u128 = a / half;
                let r: u128 = a % half;
                assert(q <= a) by (nonlinear_arith)
                    requires
                        q == a as int / half as int,
                        half > 0,
                ;
                let n: u128 = if 2 * r > half || (2 * r == half && q % 2 == 1) {
                    q + 1
                } else {
                    q
                };
                assert(n == nearest_even(a as nat, h));
                let whole: u128 = n / (s as u128);
                let rest: u64 = (n % (s as u128)) as u64;
                proof {
                    vstd::arithmetic::div_mod::lemma_fundamental_div_mod(n as int, s as int);
                    assert(whole * s == s * whole) by (nonlinear_arith);
                }
                (whole, rest)
            }
        } else {
            let j: u32 = e - 150;
            let f: u128 = power_of_two(j);
            proof {
                vstd::arithmetic::power2::lemma2_to64();
                lemma_pow2_pos(j as nat);
                lemma_pow2_adds(149, j as nat);
                lemma_pow2_adds(40, 64);
                lemma_pow2_adds(64, 64);
                lemma_pow2_adds(24, 104);
                if j < 104 {
                    lemma_pow2_strictly_increases(j as nat, 104);
                }
                assert(m * f <= 0xFF_FFFF * pow2(104)) by (nonlinear_arith)
                    requires
                        0 <= m <= 0xFF_FFFF,
                        0 <= f <= pow2(104),
                ;
                assert(self.size() == m * (one * f));
                let v = (m * f) as nat;
                assert(self.size() * s == one * (v * s)) by (nonlinear_arith)
                    requires
                        self.size() == m * (one * f),
                        v == m * f,
                ;
                assert(one * 1 == one) by (nonlinear_arith);
                nearest_even_of_multiples((v * s) as nat, 1, one);
                assert(nearest_even((v * s) as nat, 1) == v * s);
            }
            ((m as u128) * f, 0)
        }
    }

    /// The number as a numeral with `places` digits after the point. The sign is written before a
    /// negative number, and before any number if `plus` is set.
    pub fn to_fixed(self, places: u8, plus: bool) -> (r: String)
        requires
            places <= 9,
        ensures
            r@ == self.fixed(places as nat, plus),
    {
        let mut r = String::new();
        if self.is_nan() {
            r.push('N');
            r.push('a');
            r.push('N');
            assert(r@ =~= seq!['N', 'a', 'N']);
            return r;
        }
        if self.bits >= 0x8000_0000 {
            r.push('-');
        } else if plus {
            r.push('+');
        }
        let ghost sign = r@;
        if self.bits % 0x8000_0000 == 0x7F80_0000 {
            r.push('i');
            r.push('n');
            r.push('f');
            assert(r@ =~= sign + seq!['i', 'n', 'f']);
        } else {
            let (whole, rest): (u128, u64) = self.decimal_parts(places);
            proof {
                let t = ten_to(places as nat);
                let n = self.scaled(places as nat);
                lemma_fundamental_div_mod_converse(n as int, t as int, whole as int, rest as int);
            }
            let digits = numeral(whole);
            r.append(string_of(digits.as_slice()).as_str());
            if places > 0 {
                r.push('.');
                push_last_digits(&mut r, rest, places);
            } else {
                assert(whole * 1 + rest == self.scaled(0));
            }
            assert(r@ =~= sign + self.size_numeral(places as nat));
        }
        assert(sign.len() == 0 ==> sign + self.size_numeral(places as nat)
            =~= self.size_numeral(places as nat));
        assert(self.negative() ==> sign =~= seq!['-']);
        assert(!self.negative() && plus ==> sign =~= seq!['+']);
        r
    }
}

} // verus!
