//! Natural numbers of any size, as far as exact decimal arithmetic needs them.

use vstd::arithmetic::power2::{lemma_pow2_unfold, pow2};
use vstd::prelude::*;

verus! {

/// The weight of the limb at index `n`: two to the power of `32 * n`.
pub open spec fn weight(n: nat) -> nat
    decreases n,
{
    if n == 0 {
        1
    } else {
        0x1_0000_0000 * weight((n - 1) as nat)
    }
}

/// The limb at index `i`, zero behind the end.
pub open spec fn limb(limbs: Seq<u32>, i: int) -> nat {
    if i < limbs.len() {
        limbs[i] as nat
    } else {
        0
    }
}

/// The number that the lowest `n` limbs stand for.
pub open spec fn low(limbs: Seq<u32>, n: nat) -> nat
    decreases n,
{
    if n == 0 {
        0
    } else {
        low(limbs, (n - 1) as nat) + limb(limbs, n - 1) * weight((n - 1) as nat)
    }
}

/// A natural number, held in limbs of 32 bits, least significant first.
#[derive(Debug)]
pub struct Natural {
    limbs: Vec<u32>,
}

impl View for Natural {
    type V = nat;

    closed spec fn view(&self) -> nat {
        low(self.limbs@, self.limbs@.len())
    }
}

proof fn lemma_low_below_weight(limbs: Seq<u32>, n: nat)
    ensures
        low(limbs, n) < weight(n),
        0 < weight(n),
    decreases n,
{
    if n > 0 {
        let m = (n - 1) as nat;
        lemma_low_below_weight(limbs, m);
        assert(limb(limbs, n - 1) * weight(m) + weight(m) <= 0x1_0000_0000 * weight(m))
            by (nonlinear_arith)
            requires
                limb(limbs, n - 1) + 1 <= 0x1_0000_0000,
        ;
    }
}

/// Limbs behind the end add nothing.
proof fn lemma_low_beyond(limbs: Seq<u32>, n: nat)
    requires
        n >= limbs.len(),
    ensures
        low(limbs, n) == low(limbs, limbs.len()),
    decreases n,
{
    if n > limbs.len() {
        lemma_low_beyond(limbs, (n - 1) as nat);
        assert(limb(limbs, n - 1) * weight((n - 1) as nat) == 0) by (nonlinear_arith)
            requires
                limb(limbs, n - 1) == 0,
        ;
    }
}

/// The lowest limbs alone decide on the number that they stand for.
proof fn lemma_low_same(a: Seq<u32>, b: Seq<u32>, n: nat)
    requires
        forall|i: int| 0 <= i < n ==> limb(a, i) == limb(b, i),
    ensures
        low(a, n) == low(b, n),
    decreases n,
{
    if n > 0 {
        lemma_low_same(a, b, (n - 1) as nat);
        assert(limb(a, n - 1) == limb(b, n - 1));
    }
}

/// The limbs from index `n` on either add nothing, or at least the weight of index `n`.
proof fn lemma_low_steps(limbs: Seq<u32>, n: nat, m: nat)
    requires
        n <= m,
    ensures
        low(limbs, m) == low(limbs, n) || low(limbs, m) >= low(limbs, n) + weight(n),
        weight(n) <= weight(m),
    decreases m,
{
    if n < m {
        let k = (m - 1) as nat;
        lemma_low_steps(limbs, n, k);
        let d = limb(limbs, m - 1);
        if d == 0 {
            assert(d * weight(k) == 0) by (nonlinear_arith)
                requires
                    d == 0,
            ;
        } else {
            assert(d * weight(k) >= weight(k)) by (nonlinear_arith)
                requires
                    d >= 1,
            ;
        }
    }
}

impl Natural {
    /// The number `n`.
    pub fn from_u64(n: u64) -> (res: Natural)
        ensures
            res@ == n,
    {
        let lo: u32 = (n % 0x1_0000_0000) as u32;
        let hi: u32 = (n / 0x1_0000_0000) as u32;
        let mut limbs: Vec<u32> = Vec::new();
        limbs.push(lo);
        limbs.push(hi);
        proof {
            reveal_with_fuel(low, 3);
            reveal_with_fuel(weight, 2);
            assert(lo * weight(0) + hi * weight(1) == n) by (nonlinear_arith)
                requires
                    weight(0) == 1,
                    weight(1) == 0x1_0000_0000,
                    lo + 0x1_0000_0000 * hi == n,
            ;
        }
        Natural { limbs }
    }

    /// The same number again.
    pub fn copy(&self) -> (res: Natural)
        ensures
            res@ == self@,
    {
        let mut limbs: Vec<u32> = Vec::new();
        for i in 0..self.limbs.len()
            invariant
                limbs@ == self.limbs@.take(i as int),
        {
            limbs.push(self.limbs[i]);
            assert(self.limbs@.take(i + 1) == self.limbs@.take(i as int).push(
                self.limbs@[i as int],
            ));
        }
        assert(self.limbs@.take(self.limbs@.len() as int) == self.limbs@);
        Natural { limbs }
    }

    /// Multiplies the number by `factor` and adds `addend`.
    pub fn multiply_add(&mut self, factor: u32, addend: u32)
        ensures
            final(self)@ == old(self)@ * factor + addend,
    {
        let ghost before = self.limbs@;
        let count: usize = self.limbs.len();
        let mut carry: u32 = addend;
        assert(carry * weight(0) == carry && low(before, 0) * factor == 0) by (nonlinear_arith)
            requires
                weight(0) == 1,
                low(before, 0) == 0,
        ;
        for i in 0..count
            invariant
                count == before.len(),
                self.limbs@.len() == count,
                forall|j: int| i <= j < count ==> self.limbs@[j] == before[j],
                low(self.limbs@, i as nat) + carry * weight(i as nat) == low(before, i as nat)
                    * factor + addend,
        {
            let digit: u32 = self.limbs[i];
            proof {
                assert(digit * factor + carry <= 0xffff_ffff_ffff_ffff) by (nonlinear_arith)
                    requires
                        digit <= 0xffff_ffff,
                        factor <= 0xffff_ffff,
                        carry <= 0xffff_ffff,
                ;
            }
            let sum: u64 = digit as u64 * factor as u64 + carry as u64;
            let lo: u32 = (sum % 0x1_0000_0000) as u32;
            let hi: u32 = (sum / 0x1_0000_0000) as u32;
            let ghost limbs = self.limbs@;
            self.limbs.set(i, lo);
            proof {
                let w = weight(i as nat);
                lemma_low_same(limbs, self.limbs@, i as nat);
                assert(low(self.limbs@, (i + 1) as nat) == low(self.limbs@, i as nat) + lo * w);
                assert(low(before, (i + 1) as nat) == low(before, i as nat) + digit * w);
                assert(lo * w + hi * (0x1_0000_0000 * w) == digit * w * factor + carry * w)
                    by (nonlinear_arith)
                    requires
                        lo + 0x1_0000_0000 * hi == digit * factor + carry,
                ;
                assert((low(before, i as nat) + digit * w) * factor == low(before, i as nat)
                    * factor + digit * w * factor) by (nonlinear_arith);
            }
            carry = hi;
        }
        if carry != 0 {
            let ghost limbs = self.limbs@;
            self.limbs.push(carry);
            proof {
                lemma_low_same(limbs, self.limbs@, count as nat);
            }
        }
    }

    /// Doubles the number.
    pub fn double(&mut self)
        ensures
            final(self)@ == 2 * old(self)@,
    {
        self.multiply_add(2, 0);
    }

    /// Multiplies the number by two to the power of `n`.
    pub fn shift(&mut self, n: u32)
        ensures
            final(self)@ == old(self)@ * pow2(n as nat),
    {
        proof {
            vstd::arithmetic::power2::lemma2_to64();
        }
        let ghost before = self@;
        for i in 0..n
            invariant
                self@ == before * pow2(i as nat),
        {
            proof {
                lemma_pow2_unfold((i + 1) as nat);
                assert(2 * (before * pow2(i as nat)) == before * (2 * pow2(i as nat)))
                    by (nonlinear_arith);
            }
            self.double();
        }
    }

    /// Whether the number is below another.
    pub fn less(&self, other: &Natural) -> (res: bool)
        ensures
            res == (self@ < other@),
    {
        let mut n: usize = if self.limbs.len() < other.limbs.len() {
            other.limbs.len()
        } else {
            self.limbs.len()
        };
        let ghost (a, b) = (self.limbs@, other.limbs@);
        proof {
            lemma_low_beyond(a, n as nat);
            lemma_low_beyond(b, n as nat);
        }
        while n > 0
            invariant
                a == self.limbs@,
                b == other.limbs@,
                self@ - low(a, n as nat) == other@ - low(b, n as nat),
            decreases n,
        {
            n -= 1;
            let x: u32 = if n < self.limbs.len() {
                self.limbs[n]
            } else {
                0
            };
            let y: u32 = if n < other.limbs.len() {
                other.limbs[n]
            } else {
                0
            };
            proof {
                let w = weight(n as nat);
                lemma_low_below_weight(a, n as nat);
                lemma_low_below_weight(b, n as nat);
                if x < y {
                    assert(x * w + w <= y * w) by (nonlinear_arith)
                        requires
                            x + 1 <= y,
                    ;
                }
                if y < x {
                    assert(y * w + w <= x * w) by (nonlinear_arith)
                        requires
                            y + 1 <= x,
                    ;
                }
            }
            if x < y {
                return true;
            }
            if x > y {
                return false;
            }
        }
        false
    }

    /// Adds another number to the number.
    pub fn increase(&mut self, other: &Natural)
        ensures
            final(self)@ == old(self)@ + other@,
    {
        let ghost before = self.limbs@;
        let ghost b = other.limbs@;
        while self.limbs.len() < other.limbs.len()
            invariant
                b == other.limbs@,
                low(self.limbs@, self.limbs@.len()) == low(before, before.len()),
            decreases b.len() - self.limbs@.len(),
        {
            let ghost limbs = self.limbs@;
            self.limbs.push(0);
            proof {
                lemma_low_same(limbs, self.limbs@, limbs.len());
                assert(0 * weight(limbs.len()) == 0) by (nonlinear_arith);
            }
        }
        let ghost padded = self.limbs@;
        let count: usize = self.limbs.len();
        let mut carry: u32 = 0;
        assert(0 * weight(0) == 0) by (nonlinear_arith);
        for i in 0..count
            invariant
                count == padded.len(),
                self.limbs@.len() == count,
                b == other.limbs@,
                carry <= 1,
                forall|j: int| i <= j < count ==> self.limbs@[j] == padded[j],
                low(self.limbs@, i as nat) + carry * weight(i as nat) == low(padded, i as nat)
                    + low(b, i as nat),
        {
            let x: u32 = self.limbs[i];
            let y: u32 = if i < other.limbs.len() {
                other.limbs[i]
            } else {
                0
            };
            let sum: u64 = x as u64 + y as u64 + carry as u64;
            let lo: u32 = (sum % 0x1_0000_0000) as u32;
            let hi: u32 = (sum / 0x1_0000_0000) as u32;
            let ghost limbs = self.limbs@;
            self.limbs.set(i, lo);
            proof {
                let w = weight(i as nat);
                lemma_low_same(limbs, self.limbs@, i as nat);
                assert(lo * w + hi * (0x1_0000_0000 * w) == x * w + y * w + carry * w)
                    by (nonlinear_arith)
                    requires
                        lo + 0x1_0000_0000 * hi == x + y + carry,
                ;
            }
            carry = hi;
        }
        proof {
            lemma_low_beyond(b, count as nat);
        }
        if carry != 0 {
            let ghost limbs = self.limbs@;
            self.limbs.push(carry);
            proof {
                lemma_low_same(limbs, self.limbs@, count as nat);
            }
        }
    }

    /// Takes a number that is not greater away from the number.
    pub fn subtract(&mut self, other: &Natural)
        requires
            other@ <= old(self)@,
        ensures
            final(self)@ == old(self)@ - other@,
    {
        let ghost before = self.limbs@;
        let ghost b = other.limbs@;
        let count: usize = self.limbs.len();
        let mut borrow: u32 = 0;
        for i in 0..count
            invariant
                count == before.len(),
                self.limbs@.len() == count,
                b == other.limbs@,
                borrow <= 1,
                forall|j: int| i <= j < count ==> self.limbs@[j] == before[j],
                low(self.limbs@, i as nat) - borrow * weight(i as nat) == low(before, i as nat)
                    - low(b, i as nat),
        {
            let x: u32 = self.limbs[i];
            let y: u32 = if i < other.limbs.len() {
                other.limbs[i]
            } else {
                0
            };
            let take: u64 = y as u64 + borrow as u64;
            let ghost limbs = self.limbs@;
            let ghost borrowed = borrow;
            let lo: u32;
            if x as u64 >= take {
                lo = (x as u64 - take) as u32;
                borrow = 0;
            } else {
                lo = (x as u64 + 0x1_0000_0000 - take) as u32;
                borrow = 1;
            }
            self.limbs.set(i, lo);
            proof {
                let w = weight(i as nat);
                lemma_low_same(limbs, self.limbs@, i as nat);
                assert(lo * w - borrow * (0x1_0000_0000 * w) == x * w - y * w - borrowed * w)
                    by (nonlinear_arith)
                    requires
                        lo - 0x1_0000_0000 * borrow == x - y - borrowed,
                ;
            }
        }
        proof {
            let n = count as nat;
            let w = weight(n);
            lemma_low_below_weight(self.limbs@, n);
            lemma_low_below_weight(before, n);
            lemma_low_below_weight(b, n);
            if b.len() > n {
                lemma_low_steps(b, n, b.len());
            } else {
                lemma_low_beyond(b, n);
            }
            assert(borrow * w == 0 || borrow * w == w) by (nonlinear_arith)
                requires
                    borrow <= 1,
            ;
        }
    }
}

} // verus!
