//! Natural numbers of any size.

use vstd::prelude::*;

verus! {

/// Two to the power of `32 * n`, what a limb at the place `n` counts for.
pub open spec fn weight(n: nat) -> nat
    decreases n,
{
    if n == 0 {
        1
    } else {
        0x1_0000_0000 * weight((n - 1) as nat)
    }
}

/// The limb at the place `i`, which is zero above the highest limb.
pub open spec fn limb(limbs: Seq<u32>, i: int) -> nat {
    if 0 <= i < limbs.len() {
        limbs[i] as nat
    } else {
        0
    }
}

/// What the limbs below the place `n` stand for.
pub open spec fn low(limbs: Seq<u32>, n: nat) -> nat
    decreases n,
{
    if n == 0 {
        0
    } else {
        low(limbs, (n - 1) as nat) + limb(limbs, n - 1) * weight((n - 1) as nat)
    }
}

/// How two numbers compare.
#[derive(Clone, Copy, Debug, PartialEq, Eq, Structural)]
pub enum Order {
    Below,
    Equal,
    Above,
}

/// A natural number, held in limbs of 32 bits of which the lowest comes first.
#[derive(Debug)]
pub struct Natural {
    pub limbs: Vec<u32>,
}

impl View for Natural {
    type V = nat;

    open spec fn view(&self) -> nat {
        low(self.limbs@, self.limbs@.len())
    }
}

proof fn low_is_small(limbs: Seq<u32>, n: nat)
    ensures
        low(limbs, n) < weight(n),
    decreases n,
{
    if n > 0 {
        let m = (n - 1) as nat;
        low_is_small(limbs, m);
        let l = limb(limbs, n - 1);
        let w = weight(m);
        assert(l * w + w <= 0x1_0000_0000 * w) by (nonlinear_arith)
            requires
                l + 1 <= 0x1_0000_0000,
        ;
    }
}

proof fn low_beyond(limbs: Seq<u32>, n: nat)
    requires
        n >= limbs.len(),
    ensures
        low(limbs, n) == low(limbs, limbs.len()),
    decreases n,
{
    if n > limbs.len() {
        low_beyond(limbs, (n - 1) as nat);
        let w = weight((n - 1) as nat);
        assert(0 * w == 0) by (nonlinear_arith);
    }
}

proof fn low_agrees(a: Seq<u32>, b: Seq<u32>, n: nat)
    requires
        forall|i: int| 0 <= i < n ==> limb(a, i) == limb(b, i),
    ensures
        low(a, n) == low(b, n),
    decreases n,
{
    if n > 0 {
        low_agrees(a, b, (n - 1) as nat);
    }
}

impl Natural {
    /// The number `n`.
    pub fn new(n: u32) -> (r: Natural)
        ensures
            r@ == n,
    {
        let mut limbs: Vec<u32> = Vec::new();
        limbs.push(n);
        proof {
            reveal_with_fuel(low, 2);
            reveal_with_fuel(weight, 2);
        }
        Natural { limbs }
    }

    /// A copy of the number.
    pub fn copy(&self) -> (r: Natural)
        ensures
            r@ == self@,
    {
        let mut limbs: Vec<u32> = Vec::new();
        let mut i: usize = 0;
        while i < self.limbs.len()
            invariant
                i <= self.limbs@.len(),
                limbs@ == self.limbs@.take(i as int),
            decreases self.limbs@.len() - i,
        {
            limbs.push(self.limbs[i]);
            assert(self.limbs@.take(i + 1) =~= self.limbs@.take(i as int).push(
                self.limbs@[i as int],
            ));
            i = i + 1;
        }
        assert(limbs@ =~= self.limbs@);
        Natural { limbs }
    }

    /// Multiplies the number by `factor` and adds `addend`.
    pub fn multiply_add(&mut self, factor: u32, addend: u32)
        ensures
            final(self)@ == old(self)@ * factor + addend,
    {
        let ghost start = self.limbs@;
        let count: usize = self.limbs.len();
        let mut carry: u64 = addend as u64;
        let mut i: usize = 0;
        proof {
            assert(carry * weight(0) == addend) by (nonlinear_arith)
                requires
                    weight(0) == 1,
                    carry == addend,
            ;
            assert(low(start, 0) * factor == 0) by (nonlinear_arith)
                requires
                    low(start, 0) == 0,
            ;
        }
        while i < count
            invariant
                i <= count,
                count == start.len(),
                self.limbs@.len() == count,
                carry <= 0xFFFF_FFFF,
                forall|j: int| i <= j < count ==> self.limbs@[j] == start[j],
                low(self.limbs@, i as nat) + carry * weight(i as nat) == low(start, i as nat)
                    * factor + addend,
            decreases count - i,
        {
            let ghost before = self.limbs@;
            let x: u32 = self.limbs[i];
            assert(x * factor <= 0xFFFF_FFFF * 0xFFFF_FFFF) by (nonlinear_arith)
                requires
                    0 <= x <= 0xFFFF_FFFF,
                    0 <= factor <= 0xFFFF_FFFF,
            ;
            let t: u64 = (x as u64) * (factor as u64) + carry;
            let digit: u32 = (t % 0x1_0000_0000) as u32;
            let next: u64 = t / 0x1_0000_0000;
            self.limbs[i] = digit;
            proof {
                let w = weight(i as nat);
                low_agrees(before, self.limbs@, i as nat);
                assert(low(self.limbs@, (i + 1) as nat) == low(before, i as nat) + digit * w);
                assert(low(start, (i + 1) as nat) == low(start, i as nat) + x * w);
                assert(weight((i + 1) as nat) == 0x1_0000_0000 * w);
                assert(digit * w + next * (0x1_0000_0000 * w) == (x * factor + carry) * w)
                    by (nonlinear_arith)
                    requires
                        digit + next * 0x1_0000_0000 == x * factor + carry,
                ;
                assert((x * factor + carry) * w == x * w * factor + carry * w)
                    by (nonlinear_arith);
                let l = low(start, i as nat);
                assert((l + x * w) * factor == l * factor + x * w * factor) by (nonlinear_arith);
            }
            carry = next;
            i = i + 1;
        }
        if carry > 0 {
            let ghost before = self.limbs@;
            self.limbs.push(carry as u32);
            proof {
                low_agrees(before, self.limbs@, count as nat);
            }
        } else {
            proof {
                let w = weight(count as nat);
                assert(0 * w == 0) by (nonlinear_arith);
            }
        }
    }

    /// Takes `n` away from the number.
    pub fn subtract(&mut self, n: u32)
        requires
            n <= old(self)@,
        ensures
            final(self)@ == old(self)@ - n,
    {
        let ghost start = self.limbs@;
        let count: usize = self.limbs.len();
        let mut borrow: u32 = n;
        let mut i: usize = 0;
        proof {
            assert(borrow * weight(0) == n) by (nonlinear_arith)
                requires
                    weight(0) == 1,
                    borrow == n,
            ;
        }
        while i < count
            invariant
                i <= count,
                count == start.len(),
                self.limbs@.len() == count,
                forall|j: int| i <= j < count ==> self.limbs@[j] == start[j],
                low(self.limbs@, i as nat) + n == low(start, i as nat) + borrow * weight(i as nat),
            decreases count - i,
        {
            let ghost before = self.limbs@;
            let x: u32 = self.limbs[i];
            let (digit, next): (u32, u32) = if x >= borrow {
                (x - borrow, 0)
            } else {
                ((0x1_0000_0000 + x as u64 - borrow as u64) as u32, 1)
            };
            self.limbs[i] = digit;
            proof {
                let w = weight(i as nat);
                low_agrees(before, self.limbs@, i as nat);
                assert(low(self.limbs@, (i + 1) as nat) == low(before, i as nat) + digit * w);
                assert(low(start, (i + 1) as nat) == low(start, i as nat) + x * w);
                assert(weight((i + 1) as nat) == 0x1_0000_0000 * w);
                assert(digit * w + borrow * w == x * w + next * (0x1_0000_0000 * w))
                    by (nonlinear_arith)
                    requires
                        digit + borrow == x + next * 0x1_0000_0000,
                ;
            }
            borrow = next;
            i = i + 1;
        }
        proof {
            let w = weight(count as nat);
            low_is_small(self.limbs@, count as nat);
            if borrow > 0 {
                assert(borrow * w >= w) by (nonlinear_arith)
                    requires
                        borrow >= 1,
                        w >= 0,
                ;
            } else {
                assert(0 * w == 0) by (nonlinear_arith);
            }
        }
    }

    /// How the number compares with `other`.
    pub fn compare(&self, other: &Natural) -> (r: Order)
        ensures
            r == (if self@ < other@ {
                Order::Below
            } else if self@ == other@ {
                Order::Equal
            } else {
                Order::Above
            }),
    {
        let ghost a = self.limbs@;
        let ghost b = other.limbs@;
        let mut n: usize = if self.limbs.len() > other.limbs.len() {
            self.limbs.len()
        } else {
            other.limbs.len()
        };
        proof {
            low_beyond(a, n as nat);
            low_beyond(b, n as nat);
        }
        while n > 0
            invariant
                a == self.limbs@,
                b == other.limbs@,
                self@ - other@ == low(a, n as nat) - low(b, n as nat),
            decreases n,
        {
            let x: u32 = if n - 1 < self.limbs.len() {
                self.limbs[n - 1]
            } else {
                0
            };
            let y: u32 = if n - 1 < other.limbs.len() {
                other.limbs[n - 1]
            } else {
                0
            };
            proof {
                let m = (n - 1) as nat;
                let w = weight(m);
                assert(x == limb(a, n - 1));
                assert(y == limb(b, n - 1));
                low_is_small(a, m);
                low_is_small(b, m);
                if x < y {
                    assert(x * w + w <= y * w) by (nonlinear_arith)
                        requires
                            x + 1 <= y,
                            w >= 0,
                    ;
                } else if y < x {
                    assert(y * w + w <= x * w) by (nonlinear_arith)
                        requires
                            y + 1 <= x,
                            w >= 0,
                    ;
                }
            }
            if x < y {
                return Order::Below;
            }
            if y < x {
                return Order::Above;
            }
            n = n - 1;
        }
        Order::Equal
    }
}

} // verus!
