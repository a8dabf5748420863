//! Natural numbers of any size, held as base 2^32 limbs.

use vstd::arithmetic::power2::{lemma_pow2_adds, lemma_pow2_pos, pow2};
use vstd::prelude::*;

verus! {

/// The limb at position `j`, or zero past the end of `limbs`.
pub open spec fn limb_at(limbs: Seq<u32>, j: int) -> nat {
    if 0 <= j < limbs.len() {
        limbs[j] as nat
    } else {
        0
    }
}

/// The number that the `n` least significant limbs stand for.
pub open spec fn low_value(limbs: Seq<u32>, n: nat) -> nat
    decreases n,
{
    if n == 0 {
        0
    } else {
        low_value(limbs, (n - 1) as nat) + limb_at(limbs, n - 1) * pow2((32 * (n - 1)) as nat)
    }
}

/// A natural number; the least significant limb comes first.
pub struct BigNat {
    limbs: Vec<u32>,
}

impl View for BigNat {
    type V = nat;

    closed spec fn view(&self) -> nat {
        low_value(self.limbs@, self.limbs@.len())
    }
}

proof fn lemma_weight_step(i: nat)
    ensures
        pow2((32 * (i + 1)) as nat) == 0x1_0000_0000 * pow2((32 * i) as nat),
        pow2((32 * i) as nat) > 0,
{
    lemma_pow2_adds(32, (32 * i) as nat);
    lemma_pow2_pos((32 * i) as nat);
    vstd::arithmetic::power2::lemma2_to64();
}

proof fn lemma_low_value_bound(limbs: Seq<u32>, n: nat)
    ensures
        low_value(limbs, n) < pow2((32 * n) as nat),
    decreases n,
{
    if n == 0 {
        lemma_pow2_pos(0);
    } else {
        let m = (n - 1) as nat;
        lemma_low_value_bound(limbs, m);
        lemma_weight_step(m);
        let p = pow2((32 * m) as nat) as int;
        let l = limb_at(limbs, m as int) as int;
        assert(l * p <= 0xffff_ffff * p) by (nonlinear_arith)
            requires
                l <= 0xffff_ffff,
                p > 0,
        ;
    }
}

proof fn lemma_low_value_prefix(a: Seq<u32>, b: Seq<u32>, n: nat)
    requires
        forall|j: int| 0 <= j < n ==> limb_at(a, j) == limb_at(b, j),
    ensures
        low_value(a, n) == low_value(b, n),
    decreases n,
{
    if n > 0 {
        lemma_low_value_prefix(a, b, (n - 1) as nat);
    }
}

proof fn lemma_low_value_beyond(limbs: Seq<u32>, n: nat)
    requires
        n >= limbs.len(),
    ensures
        low_value(limbs, n) == low_value(limbs, limbs.len()),
    decreases n,
{
    if n > limbs.len() {
        lemma_low_value_beyond(limbs, (n - 1) as nat);
        assert(0 * pow2((32 * (n - 1)) as nat) == 0);
    }
}

proof fn lemma_low_value_push(limbs: Seq<u32>, x: u32)
    ensures
        low_value(limbs.push(x), limbs.len() + 1) == low_value(limbs, limbs.len()) + x * pow2(
            (32 * limbs.len()) as nat,
        ),
{
    lemma_low_value_prefix(limbs, limbs.push(x), limbs.len());
}

impl BigNat {
    /// The number `v`.
    pub fn from_u64(v: u64) -> (r: BigNat)
        ensures
            r@ == v,
    {
        let low: u32 = (v % 0x1_0000_0000) as u32;
        let high: u32 = (v / 0x1_0000_0000) as u32;
        let mut limbs: Vec<u32> = Vec::new();
        limbs.push(low);
        limbs.push(high);
        proof {
            reveal_with_fuel(low_value, 3);
            lemma_weight_step(0);
            vstd::arithmetic::power2::lemma2_to64();
        }
        BigNat { limbs }
    }

    fn limb(&self, i: usize) -> (r: u32)
        ensures
            r == limb_at(self.limbs@, i as int),
    {
        if i < self.limbs.len() {
            self.limbs[i]
        } else {
            0
        }
    }

    /// Multiplies by `factor`, then adds `term`.
    pub fn mul_add(&mut self, factor: u32, term: u32)
        ensures
            final(self)@ == old(self)@ * factor + term,
    {
        let n: usize = self.limbs.len();
        let mut out: Vec<u32> = Vec::new();
        let mut carry: u64 = term as u64;
        let mut i: usize = 0;
        proof {
            vstd::arithmetic::power2::lemma2_to64();
            assert(term * pow2(0) == term) by (nonlinear_arith)
                requires
                    pow2(0) == 1,
            ;
            assert(0 * factor == 0);
        }
        while i < n
            invariant
                i <= n,
                n == self.limbs@.len(),
                out@.len() == i,
                carry <= 0xffff_ffff,
                low_value(out@, i as nat) + carry * pow2((32 * i) as nat) == low_value(
                    self.limbs@,
                    i as nat,
                ) * factor + term,
            decreases n - i,
        {
            let x: u32 = self.limbs[i];
            assert(x * factor + carry <= 0xffff_ffff_ffff_ffff) by (nonlinear_arith)
                requires
                    0 <= x <= 0xffff_ffff,
                    0 <= factor <= 0xffff_ffff,
                    0 <= carry <= 0xffff_ffff,
            ;
            assert(0 <= x * factor <= 0xffff_ffff_ffff_ffff) by (nonlinear_arith)
                requires
                    0 <= x <= 0xffff_ffff,
                    0 <= factor <= 0xffff_ffff,
            ;
            let t: u64 = x as u64 * factor as u64 + carry;
            let low: u32 = (t % 0x1_0000_0000) as u32;
            let ghost before = out@;
            out.push(low);
            proof {
                let p = pow2((32 * i) as nat) as int;
                let c = carry as int;
                let d = (t / 0x1_0000_0000) as int;
                lemma_low_value_push(before, low);
                lemma_weight_step(i as nat);
                let v = low_value(self.limbs@, i as nat) as int;
                assert(low * p + d * (0x1_0000_0000 * p) == x * p * factor + c * p)
                    by (nonlinear_arith)
                    requires
                        low + d * 0x1_0000_0000 == x * factor + c,
                ;
                assert((v + x * p) * factor == v * factor + x * p * factor) by (nonlinear_arith);
            }
            carry = t / 0x1_0000_0000;
            i = i + 1;
        }
        if carry != 0 {
            proof {
                lemma_low_value_push(out@, carry as u32);
            }
            out.push(carry as u32);
        }
        self.limbs = out;
    }

    /// Multiplies by `2^n`.
    pub fn shift_left(&mut self, n: u32)
        ensures
            final(self)@ == old(self)@ * pow2(n as nat),
    {
        let mut left: u32 = n;
        let ghost start = self@;
        proof {
            vstd::arithmetic::power2::lemma2_to64();
            assert(self@ * 1 == self@);
        }
        while left > 0
            invariant
                left <= n,
                self@ == start * pow2((n - left) as nat),
            decreases left,
        {
            let ghost before = self@;
            let ghost done = (n - left) as nat;
            if left >= 16 {
                self.mul_add(0x1_0000, 0);
                proof {
                    vstd::arithmetic::power2::lemma2_to64();
                    lemma_pow2_adds(done, 16);
                    vstd::arithmetic::mul::lemma_mul_is_associative(
                        start as int,
                        pow2(done) as int,
                        0x1_0000,
                    );
                }
                left = left - 16;
            } else {
                self.mul_add(2, 0);
                proof {
                    vstd::arithmetic::power2::lemma2_to64();
                    lemma_pow2_adds(done, 1);
                    vstd::arithmetic::mul::lemma_mul_is_associative(
                        start as int,
                        pow2(done) as int,
                        2,
                    );
                }
                left = left - 1;
            }
        }
    }

    /// Whether this number is at least `other`.
    pub fn at_least(&self, other: &BigNat) -> (r: bool)
        ensures
            r == (self@ >= other@),
    {
        let n: usize = if self.limbs.len() >= other.limbs.len() {
            self.limbs.len()
        } else {
            other.limbs.len()
        };
        let mut i: usize = n;
        proof {
            lemma_low_value_beyond(self.limbs@, n as nat);
            lemma_low_value_beyond(other.limbs@, n as nat);
        }
        while i > 0
            invariant
                i <= n,
                self@ - low_value(self.limbs@, i as nat) == other@ - low_value(
                    other.limbs@,
                    i as nat,
                ),
            decreases i,
        {
            let x: u32 = self.limb(i - 1);
            let y: u32 = other.limb(i - 1);
            if x != y {
                proof {
                    let m = (i - 1) as nat;
                    let p = pow2((32 * m) as nat) as int;
                    lemma_low_value_bound(self.limbs@, m);
                    lemma_low_value_bound(other.limbs@, m);
                    if x > y {
                        assert(x * p >= y * p + p) by (nonlinear_arith)
                            requires
                                x >= y + 1,
                                p >= 0,
                        ;
                    } else {
                        assert(y * p >= x * p + p) by (nonlinear_arith)
                            requires
                                y >= x + 1,
                                p >= 0,
                        ;
                    }
                }
                return x > y;
            }
            i = i - 1;
        }
        true
    }

    /// Adds `other`.
    pub fn add(&mut self, other: &BigNat)
        ensures
            final(self)@ == old(self)@ + other@,
    {
        let n: usize = if self.limbs.len() >= other.limbs.len() {
            self.limbs.len()
        } else {
            other.limbs.len()
        };
        let mut out: Vec<u32> = Vec::new();
        let mut carry: u64 = 0;
        let mut i: usize = 0;
        while i < n
            invariant
                i <= n,
                out@.len() == i,
                carry <= 1,
                low_value(out@, i as nat) + carry * pow2((32 * i) as nat) == low_value(
                    self.limbs@,
                    i as nat,
                ) + low_value(other.limbs@, i as nat),
            decreases n - i,
        {
            let x: u64 = self.limb(i) as u64;
            let y: u64 = other.limb(i) as u64;
            let t: u64 = x + y + carry;
            let low: u32 = (t % 0x1_0000_0000) as u32;
            let ghost before = out@;
            out.push(low);
            proof {
                let p = pow2((32 * i) as nat) as int;
                let c = carry as int;
                let d = (t / 0x1_0000_0000) as int;
                lemma_low_value_push(before, low);
                lemma_weight_step(i as nat);
                assert(low * p + d * (0x1_0000_0000 * p) == x * p + y * p + c * p)
                    by (nonlinear_arith)
                    requires
                        low + d * 0x1_0000_0000 == x + y + c,
                ;
            }
            carry = t / 0x1_0000_0000;
            i = i + 1;
        }
        proof {
            lemma_low_value_beyond(self.limbs@, n as nat);
            lemma_low_value_beyond(other.limbs@, n as nat);
            lemma_low_value_push(out@, carry as u32);
        }
        out.push(carry as u32);
        self.limbs = out;
    }

    /// Subtracts `other`.
    pub fn subtract(&mut self, other: &BigNat)
        requires
            old(self)@ >= other@,
        ensures
            final(self)@ == old(self)@ - other@,
    {
        let n: usize = if self.limbs.len() >= other.limbs.len() {
            self.limbs.len()
        } else {
            other.limbs.len()
        };
        let mut out: Vec<u32> = Vec::new();
        let mut borrow: u64 = 0;
        let mut i: usize = 0;
        proof {
            vstd::arithmetic::power2::lemma2_to64();
        }
        while i < n
            invariant
                i <= n,
                out@.len() == i,
                borrow <= 1,
                low_value(out@, i as nat) + low_value(other.limbs@, i as nat) == low_value(
                    self.limbs@,
                    i as nat,
                ) + borrow * pow2((32 * i) as nat),
            decreases n - i,
        {
            let x: u64 = self.limb(i) as u64;
            let y: u64 = other.limb(i) as u64;
            let t: u64 = 0x1_0000_0000 + x - y - borrow;
            let low: u32 = (t % 0x1_0000_0000) as u32;
            let next: u64 = if t >= 0x1_0000_0000 {
                0
            } else {
                1
            };
            let ghost before = out@;
            out.push(low);
            proof {
                let p = pow2((32 * i) as nat) as int;
                let b = borrow as int;
                let d = next as int;
                lemma_low_value_push(before, low);
                lemma_weight_step(i as nat);
                assert(low * p + y * p + b * p == x * p + d * (0x1_0000_0000 * p))
                    by (nonlinear_arith)
                    requires
                        low + y + b == x + d * 0x1_0000_0000,
                ;
            }
            borrow = next;
            i = i + 1;
        }
        proof {
            lemma_low_value_beyond(self.limbs@, n as nat);
            lemma_low_value_beyond(other.limbs@, n as nat);
            lemma_low_value_bound(out@, n as nat);
            let p = pow2((32 * n) as nat) as int;
            assert(borrow == 0) by {
                if borrow == 1 {
                    assert(1 * p == p);
                }
            }
            assert(0 * p == 0);
        }
        self.limbs = out;
    }
}

} // verus!
