//! IEEE 754 binary64 numbers as bit patterns, with the arithmetic that the
//! pricing rules use. Every operation rounds its exact result to the nearest
//! number, ties to even.

use crate::bignat::BigNat;
use crate::rounding::{
    lemma_pow2_53, magnitude_units, nearest_magnitude, overflows, round_ratio, HIDDEN_BIT,
    INFINITY_BITS,
};
use vstd::arithmetic::power2::{
    lemma2_to64, lemma_pow2_adds, lemma_pow2_pos, lemma_pow2_strictly_increases, lemma_pow2_unfold,
    pow2,
};
use vstd::prelude::*;

verus! {

/// The lowest bit pattern with the sign set.
pub const SIGN_BIT: u64 = 0x8000_0000_0000_0000;

/// A bit pattern that is not a number.
pub const NAN_BITS: u64 = 0x7ff8_0000_0000_0000;

/// What a binary64 bit pattern stands for. A finite number counts units of
/// `2^-1074`; zero keeps its sign.
pub enum Real {
    Nan,
    Infinite { negative: bool },
    Finite { negative: bool, units: nat },
}

/// A binary64 number, as the bits of its standard encoding.
#[derive(Clone, Copy, Debug)]
pub struct Binary64 {
    pub bits: u64,
}

/// One, in units of `2^-1074`.
pub open spec fn one_unit() -> nat {
    pow2(1074)
}

pub open spec fn real_of_bits(bits: u64) -> Real {
    let negative = bits >= SIGN_BIT;
    let mag = bits % SIGN_BIT;
    if mag > INFINITY_BITS {
        Real::Nan
    } else if mag == INFINITY_BITS {
        Real::Infinite { negative }
    } else {
        Real::Finite { negative, units: magnitude_units(mag as nat) }
    }
}

impl View for Binary64 {
    type V = Real;

    open spec fn view(&self) -> Real {
        real_of_bits(self.bits)
    }
}

/// The binary64 number nearest to the magnitude `num / den` units, with the
/// given sign; infinite if that magnitude is too large.
pub open spec fn rounded(negative: bool, num: nat, den: nat) -> Real {
    let units = round_ratio(num, den);
    if overflows(units) {
        Real::Infinite { negative }
    } else {
        Real::Finite { negative, units }
    }
}

/// What an optional number stands for.
pub open spec fn optional_real(x: Option<Binary64>) -> Option<Real> {
    match x {
        Some(v) => Some(v@),
        None => None,
    }
}

/// The binary64 number nearest to the integer `n`.
pub open spec fn real_of_int(n: int) -> Real {
    if n < 0 {
        rounded(true, (-n) as nat * one_unit(), 1)
    } else {
        rounded(false, n as nat * one_unit(), 1)
    }
}

/// The binary64 number nearest to the fraction `num / den`.
pub open spec fn real_of_ratio(num: nat, den: nat) -> Real {
    rounded(false, num * one_unit(), den)
}

impl Real {
    /// The signed number of units of a finite number.
    pub open spec fn signed(self) -> int {
        match self {
            Real::Finite { negative, units } => if negative {
                -(units as int)
            } else {
                units as int
            },
            _ => 0,
        }
    }

    pub open spec fn negated(self) -> Real {
        match self {
            Real::Nan => Real::Nan,
            Real::Infinite { negative } => Real::Infinite { negative: !negative },
            Real::Finite { negative, units } => Real::Finite { negative: !negative, units },
        }
    }

    pub open spec fn plus(self, other: Real) -> Real {
        match (self, other) {
            (Real::Nan, _) => Real::Nan,
            (_, Real::Nan) => Real::Nan,
            (Real::Infinite { negative: a }, Real::Infinite { negative: b }) => if a == b {
                self
            } else {
                Real::Nan
            },
            (Real::Infinite { .. }, _) => self,
            (_, Real::Infinite { .. }) => other,
            (Real::Finite { negative: a, .. }, Real::Finite { negative: b, .. }) => {
                let sum = self.signed() + other.signed();
                if sum == 0 {
                    Real::Finite { negative: a && b, units: 0 }
                } else if sum < 0 {
                    rounded(true, (-sum) as nat, 1)
                } else {
                    rounded(false, sum as nat, 1)
                }
            },
        }
    }

    pub open spec fn minus(self, other: Real) -> Real {
        self.plus(other.negated())
    }

    pub open spec fn times(self, other: Real) -> Real {
        match (self, other) {
            (Real::Nan, _) => Real::Nan,
            (_, Real::Nan) => Real::Nan,
            (Real::Infinite { negative: a }, Real::Infinite { negative: b }) => Real::Infinite {
                negative: a != b,
            },
            (
                Real::Infinite { negative: a },
                Real::Finite { negative: b, units },
            ) => if units == 0 {
                Real::Nan
            } else {
                Real::Infinite { negative: a != b }
            },
            (
                Real::Finite { negative: a, units },
                Real::Infinite { negative: b },
            ) => if units == 0 {
                Real::Nan
            } else {
                Real::Infinite { negative: a != b }
            },
            (
                Real::Finite { negative: a, units: x },
                Real::Finite { negative: b, units: y },
            ) => rounded(a != b, x * y, one_unit()),
        }
    }

    pub open spec fn over(self, other: Real) -> Real {
        match (self, other) {
            (Real::Nan, _) => Real::Nan,
            (_, Real::Nan) => Real::Nan,
            (Real::Infinite { .. }, Real::Infinite { .. }) => Real::Nan,
            (
                Real::Infinite { negative: a },
                Real::Finite { negative: b, .. },
            ) => Real::Infinite { negative: a != b },
            (Real::Finite { negative: a, .. }, Real::Infinite { negative: b }) => Real::Finite {
                negative: a != b,
                units: 0,
            },
            (
                Real::Finite { negative: a, units: x },
                Real::Finite { negative: b, units: y },
            ) => if y == 0 {
                if x == 0 {
                    Real::Nan
                } else {
                    Real::Infinite { negative: a != b }
                }
            } else {
                rounded(a != b, x * one_unit(), y)
            },
        }
    }

    /// The order of numbers; nothing is less than `Nan` or the other way round.
    pub open spec fn less(self, other: Real) -> bool {
        match (self, other) {
            (Real::Nan, _) => false,
            (_, Real::Nan) => false,
            (Real::Infinite { negative: a }, Real::Infinite { negative: b }) => a && !b,
            (Real::Infinite { negative }, _) => negative,
            (_, Real::Infinite { negative }) => !negative,
            _ => self.signed() < other.signed(),
        }
    }

    pub open spec fn at_most(self, other: Real) -> bool {
        self !is Nan && other !is Nan && !other.less(self)
    }

    pub open spec fn positive(self) -> bool {
        (Real::Finite { negative: false, units: 0 }).less(self)
    }

    /// The integer part, toward zero, kept within `u64`.
    pub open spec fn as_u64(self) -> u64 {
        match self {
            Real::Nan => 0,
            Real::Infinite { negative } => if negative {
                0
            } else {
                u64::MAX
            },
            Real::Finite { negative, units } => if negative {
                0
            } else if units / one_unit() > u64::MAX {
                u64::MAX
            } else {
                (units / one_unit()) as u64
            },
        }
    }

    /// The integer part, toward zero, kept within `i64`.
    pub open spec fn as_i64(self) -> i64 {
        match self {
            Real::Nan => 0,
            Real::Infinite { negative } => if negative {
                i64::MIN
            } else {
                i64::MAX
            },
            Real::Finite { negative, units } => {
                let whole = units / one_unit();
                if negative {
                    if whole > i64::MAX {
                        i64::MIN
                    } else {
                        (-(whole as int)) as i64
                    }
                } else if whole > i64::MAX {
                    i64::MAX
                } else {
                    whole as i64
                }
            },
        }
    }
}

/// Larger magnitude bits stand for larger magnitudes.
proof fn lemma_magnitude_order(a: nat, b: nat)
    requires
        a < b,
    ensures
        magnitude_units(a) < magnitude_units(b),
{
    lemma_pow2_53();
    lemma2_to64();
    let h = HIDDEN_BIT as nat;
    if b >= h {
        let eb = (b / h - 1) as nat;
        let fb = b % h;
        lemma_pow2_pos(eb);
        let pb = pow2(eb) as int;
        assert((h + fb) * pb >= h * pb) by (nonlinear_arith)
            requires
                fb >= 0,
                pb > 0,
        ;
        if a < h {
            assert(h * pb >= h) by (nonlinear_arith)
                requires
                    pb >= 1,
                    h > 0,
            ;
        } else {
            let ea = (a / h - 1) as nat;
            let fa = a % h;
            lemma_pow2_pos(ea);
            let pa = pow2(ea) as int;
            assert(a / h <= b / h);
            if ea == eb {
                assert(fa < fb);
                assert((h + fa) * pa < (h + fb) * pa) by (nonlinear_arith)
                    requires
                        fa < fb,
                        pa > 0,
                ;
            } else {
                assert((h + fa) * pa < (2 * h) * pa) by (nonlinear_arith)
                    requires
                        fa < h,
                        pa > 0,
                ;
                lemma_pow2_unfold((ea + 1) as nat);
                if ea + 1 < eb {
                    lemma_pow2_strictly_increases((ea + 1) as nat, eb);
                }
                assert((2 * h) * pa <= h * pb) by (nonlinear_arith)
                    requires
                        2 * pa <= pb,
                        h > 0,
                ;
            }
        }
    }
}

/// Only zero has zero magnitude bits.
proof fn lemma_magnitude_zero(a: nat)
    ensures
        magnitude_units(a) == 0 <==> a == 0,
{
    if a > 0 {
        lemma_magnitude_order(0, a);
    }
}

impl Binary64 {
    /// Rounds a signed magnitude of `num / den` units.
    pub fn round(negative: bool, num: BigNat, den: BigNat) -> (r: Binary64)
        requires
            den@ > 0,
        ensures
            r@ == rounded(negative, num@, den@),
    {
        let mag: u64 = nearest_magnitude(num, den);
        if negative {
            Binary64 { bits: SIGN_BIT + mag }
        } else {
            Binary64 { bits: mag }
        }
    }

    pub fn is_nan(self) -> (r: bool)
        ensures
            r == (self@ is Nan),
    {
        self.bits % SIGN_BIT > INFINITY_BITS
    }

    fn is_infinite(self) -> (r: bool)
        ensures
            r == (self@ is Infinite),
    {
        self.bits % SIGN_BIT == INFINITY_BITS
    }

    fn is_negative(self) -> (r: bool)
        ensures
            self@ matches Real::Infinite { negative } ==> r == negative,
            self@ matches Real::Finite { negative, .. } ==> r == negative,
    {
        self.bits >= SIGN_BIT
    }

    fn is_zero(self) -> (r: bool)
        ensures
            r == (self@ matches Real::Finite { units, .. } && units == 0),
    {
        proof {
            lemma_magnitude_zero((self.bits % SIGN_BIT) as nat);
        }
        self.bits % SIGN_BIT == 0
    }

    /// The significand and spacing exponent of a finite number.
    fn parts(self) -> (r: (u64, u32))
        requires
            self@ is Finite,
        ensures
            self@->units == r.0 * pow2(r.1 as nat),
            r.0 < 0x20_0000_0000_0000,
            r.1 <= 2045,
            r.1 > 0 ==> r.0 >= HIDDEN_BIT,
    {
        let mag: u64 = self.bits % SIGN_BIT;
        if mag < HIDDEN_BIT {
            proof {
                lemma2_to64();
                assert(mag * pow2(0) == mag) by (nonlinear_arith)
                    requires
                        pow2(0) == 1,
                ;
            }
            (mag, 0)
        } else {
            (HIDDEN_BIT + mag % HIDDEN_BIT, (mag / HIDDEN_BIT - 1) as u32)
        }
    }

    /// The magnitude of a finite number, in units.
    fn units(self) -> (r: BigNat)
        requires
            self@ is Finite,
        ensures
            r@ == self@->units,
    {
        let (m, k): (u64, u32) = self.parts();
        let mut r: BigNat = BigNat::from_u64(m);
        r.shift_left(k);
        r
    }

    /// A value that is not a number.
    pub fn nan() -> (r: Binary64)
        ensures
            r@ is Nan,
    {
        Binary64 { bits: NAN_BITS }
    }

    /// An infinite value.
    pub fn infinite(negative: bool) -> (r: Binary64)
        ensures
            r@ == (Real::Infinite { negative }),
    {
        if negative {
            Binary64 { bits: SIGN_BIT + INFINITY_BITS }
        } else {
            Binary64 { bits: INFINITY_BITS }
        }
    }

    /// Zero, with the given sign.
    pub fn zero(negative: bool) -> (r: Binary64)
        ensures
            r@ == (Real::Finite { negative, units: 0 }),
    {
        if negative {
            Binary64 { bits: SIGN_BIT }
        } else {
            Binary64 { bits: 0 }
        }
    }

    pub fn negate(self) -> (r: Binary64)
        ensures
            r@ == self@.negated(),
    {
        if self.bits >= SIGN_BIT {
            Binary64 { bits: self.bits - SIGN_BIT }
        } else {
            Binary64 { bits: self.bits + SIGN_BIT }
        }
    }

    pub fn plus(self, other: Binary64) -> (r: Binary64)
        ensures
            r@ == self@.plus(other@),
    {
        if self.is_nan() || other.is_nan() {
            return Binary64::nan();
        }
        if self.is_infinite() {
            if other.is_infinite() && self.is_negative() != other.is_negative() {
                return Binary64::nan();
            }
            return self;
        }
        if other.is_infinite() {
            return other;
        }
        let a: bool = self.is_negative();
        let b: bool = other.is_negative();
        let mut x: BigNat = self.units();
        let mut y: BigNat = other.units();
        let one: BigNat = BigNat::from_u64(1);
        if a == b {
            if self.is_zero() && other.is_zero() {
                return Binary64::zero(a);
            }
            x.add(&y);
            Binary64::round(a, x, one)
        } else if x.at_least(&y) {
            if y.at_least(&x) {
                return Binary64::zero(false);
            }
            x.subtract(&y);
            Binary64::round(a, x, one)
        } else {
            y.subtract(&x);
            Binary64::round(b, y, one)
        }
    }

    pub fn minus(self, other: Binary64) -> (r: Binary64)
        ensures
            r@ == self@.minus(other@),
    {
        self.plus(other.negate())
    }

    pub fn times(self, other: Binary64) -> (r: Binary64)
        ensures
            r@ == self@.times(other@),
    {
        if self.is_nan() || other.is_nan() {
            return Binary64::nan();
        }
        let negative: bool = self.is_negative() != other.is_negative();
        if self.is_infinite() || other.is_infinite() {
            if self.is_zero() || other.is_zero() {
                return Binary64::nan();
            }
            return Binary64::infinite(negative);
        }
        let (m, j): (u64, u32) = self.parts();
        let (n, k): (u64, u32) = other.parts();
        let mut num: BigNat = BigNat::from_u64(m);
        let low: u32 = (n % 0x800_0000) as u32;
        let high: u32 = (n / 0x800_0000) as u32;
        num.mul_add(high, 0);
        num.mul_add(0x800_0000, 0);
        let mut cross: BigNat = BigNat::from_u64(m);
        cross.mul_add(low, 0);
        num.add(&cross);
        num.shift_left(j + k);
        let mut den: BigNat = BigNat::from_u64(1);
        den.shift_left(1074);
        proof {
            lemma_pow2_pos(1074);
            lemma_pow2_adds(j as nat, k as nat);
            let p = pow2(j as nat) as int;
            let q = pow2(k as nat) as int;
            assert(m * high * 0x800_0000 + m * low == m * n) by (nonlinear_arith)
                requires
                    n == high * 0x800_0000 + low,
            ;
            assert((m * n) * (p * q) == (m * p) * (n * q)) by (nonlinear_arith);
        }
        Binary64::round(negative, num, den)
    }

    pub fn over(self, other: Binary64) -> (r: Binary64)
        ensures
            r@ == self@.over(other@),
    {
        if self.is_nan() || other.is_nan() {
            return Binary64::nan();
        }
        let negative: bool = self.is_negative() != other.is_negative();
        if self.is_infinite() {
            if other.is_infinite() {
                return Binary64::nan();
            }
            return Binary64::infinite(negative);
        }
        if other.is_infinite() {
            return Binary64::zero(negative);
        }
        if other.is_zero() {
            if self.is_zero() {
                return Binary64::nan();
            }
            return Binary64::infinite(negative);
        }
        let mut num: BigNat = self.units();
        num.shift_left(1074);
        let den: BigNat = other.units();
        Binary64::round(negative, num, den)
    }

    pub fn less(self, other: Binary64) -> (r: bool)
        ensures
            r == self@.less(other@),
    {
        if self.is_nan() || other.is_nan() {
            return false;
        }
        let x: u64 = self.bits % SIGN_BIT;
        let y: u64 = other.bits % SIGN_BIT;
        proof {
            lemma_magnitude_zero(x as nat);
            lemma_magnitude_zero(y as nat);
            if x < y {
                lemma_magnitude_order(x as nat, y as nat);
            }
            if y < x {
                lemma_magnitude_order(y as nat, x as nat);
            }
        }
        if self.is_negative() {
            if other.is_negative() {
                y < x
            } else {
                x != 0 || y != 0
            }
        } else {
            !other.is_negative() && x < y
        }
    }

    pub fn at_most(self, other: Binary64) -> (r: bool)
        ensures
            r == self@.at_most(other@),
    {
        !self.is_nan() && !other.is_nan() && !other.less(self)
    }

    /// Whether the number is above zero.
    pub fn positive(self) -> (r: bool)
        ensures
            r == self@.positive(),
    {
        Binary64::zero(false).less(self)
    }

    /// The integer part of a finite magnitude, kept within `u64`.
    fn whole(self) -> (r: u64)
        requires
            self@ is Finite,
        ensures
            self@->units / one_unit() > u64::MAX ==> r == u64::MAX,
            self@->units / one_unit() <= u64::MAX ==> r == self@->units / one_unit(),
    {
        let (m, k): (u64, u32) = self.parts();
        let ghost u = self@->units;
        proof {
            lemma_pow2_53();
            lemma_pow2_pos(1074);
            lemma_pow2_pos(k as nat);
        }
        if k >= 1074 {
            let s: u32 = k - 1074;
            proof {
                lemma_pow2_adds(s as nat, 1074);
                lemma_pow2_pos(s as nat);
                let p = pow2(s as nat) as int;
                let c = pow2(1074) as int;
                assert(m * (p * c) == (m * p) * c) by (nonlinear_arith);
                vstd::arithmetic::div_mod::lemma_div_by_multiple(m * p, c);
            }
            if s >= 12 {
                proof {
                    lemma2_to64();
                    let p = pow2(s as nat) as int;
                    if s > 12 {
                        lemma_pow2_strictly_increases(12, s as nat);
                    }
                    assert(m * p >= HIDDEN_BIT * 0x1000) by (nonlinear_arith)
                        requires
                            m >= HIDDEN_BIT,
                            p >= 0x1000,
                    ;
                }
                u64::MAX
            } else {
                proof {
                    lemma2_to64();
                    let p = pow2(s as nat) as int;
                    if s < 11 {
                        lemma_pow2_strictly_increases(s as nat, 11);
                    }
                    assert(m * p <= 0x1f_ffff_ffff_ffff * 0x800) by (nonlinear_arith)
                        requires
                            m <= 0x1f_ffff_ffff_ffff,
                            0 <= p <= 0x800,
                    ;
                    vstd::bits::lemma_u64_shl_is_mul(m, s as u64);
                }
                m << (s as u64)
            }
        } else {
            let s: u32 = 1074 - k;
            proof {
                lemma_pow2_adds(s as nat, k as nat);
                lemma_pow2_pos(s as nat);
                let p = pow2(k as nat) as int;
                let c = pow2(s as nat) as int;
                assert(p * m == m * p) by (nonlinear_arith);
                assert(p * c == c * p) by (nonlinear_arith);
                vstd::arithmetic::div_mod::lemma_div_multiples_vanish_quotient(p, m as int, c);
            }
            if s >= 64 {
                proof {
                    lemma2_to64();
                    if s > 64 {
                        lemma_pow2_strictly_increases(64, s as nat);
                    }
                    vstd::arithmetic::div_mod::lemma_small_mod(m as nat, pow2(s as nat));
                    vstd::arithmetic::div_mod::lemma_basic_div(m as int, pow2(s as nat) as int);
                }
                0
            } else {
                proof {
                    vstd::bits::lemma_u64_shr_is_div(m, s as u64);
                }
                m >> (s as u64)
            }
        }
    }

    /// The integer part, toward zero, kept within `u64`; zero for `Nan`.
    pub fn to_u64(self) -> (r: u64)
        ensures
            r == self@.as_u64(),
    {
        if self.is_nan() || self.is_negative() {
            0
        } else if self.is_infinite() {
            u64::MAX
        } else {
            self.whole()
        }
    }

    /// The integer part, toward zero, kept within `i64`; zero for `Nan`.
    pub fn to_i64(self) -> (r: i64)
        ensures
            r == self@.as_i64(),
    {
        if self.is_nan() {
            return 0;
        }
        let negative: bool = self.is_negative();
        let whole: u64 = if self.is_infinite() {
            u64::MAX
        } else {
            self.whole()
        };
        if negative {
            if whole > 0x7fff_ffff_ffff_ffff {
                i64::MIN
            } else {
                -(whole as i64)
            }
        } else if whole > 0x7fff_ffff_ffff_ffff {
            i64::MAX
        } else {
            whole as i64
        }
    }

    /// The number nearest to the fraction `num / den`.
    pub fn from_ratio(num: u64, den: u64) -> (r: Binary64)
        requires
            den > 0,
        ensures
            r@ == real_of_ratio(num as nat, den as nat),
    {
        let mut n: BigNat = BigNat::from_u64(num);
        n.shift_left(1074);
        Binary64::round(false, n, BigNat::from_u64(den))
    }

    /// The number nearest to `n`.
    pub fn from_u64(n: u64) -> (r: Binary64)
        ensures
            r@ == real_of_int(n as int),
    {
        Binary64::from_ratio(n, 1)
    }

    /// The number nearest to `n`.
    pub fn from_i128(n: i128) -> (r: Binary64)
        ensures
            r@ == real_of_int(n as int),
    {
        let negative: bool = n < 0;
        let mag: u128 = if negative {
            (-(n + 1)) as u128 + 1
        } else {
            n as u128
        };
        let mut num: BigNat = BigNat::from_u64((mag / 0x1_0000_0000_0000_0000) as u64);
        num.shift_left(64);
        num.add(&BigNat::from_u64((mag % 0x1_0000_0000_0000_0000) as u64));
        num.shift_left(1074);
        proof {
            lemma2_to64();
        }
        Binary64::round(negative, num, BigNat::from_u64(1))
    }
}

} // verus!
