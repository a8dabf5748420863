//! Rounding of exact fractions to the IEEE 754 binary64 format.
//!
//! Magnitudes are counted in units of `2^-1074`, the smallest positive
//! binary64 number, so that every finite binary64 magnitude is a natural
//! number of units.

use crate::bignat::BigNat;
use vstd::arithmetic::div_mod::{lemma_fundamental_div_mod, lemma_fundamental_div_mod_converse};
use vstd::arithmetic::mul::lemma_mul_strictly_positive;
use vstd::arithmetic::power2::{
    lemma2_to64, lemma2_to64_rest, lemma_pow2_adds, lemma_pow2_pos, lemma_pow2_strictly_increases,
    lemma_pow2_unfold, pow2,
};
use vstd::prelude::*;

verus! {

/// The significand of a normal number is at least this.
pub const HIDDEN_BIT: u64 = 0x10_0000_0000_0000;

/// The magnitude bits of infinity.
pub const INFINITY_BITS: u64 = 0x7ff0_0000_0000_0000;

/// The exponent of the spacing between binary64 numbers near `q` units: the
/// least `k` for which `q` is below `2^(53 + k)`.
pub open spec fn quantum(q: nat) -> nat
    decreases q,
{
    if q < 0x20_0000_0000_0000 {
        0
    } else {
        1 + quantum(q / 2)
    }
}

/// The integer nearest to `num / den`, the even one of two equally near.
pub open spec fn nearest_even(num: nat, den: nat) -> nat {
    let q = num / den;
    let r = num % den;
    if 2 * r < den {
        q
    } else if 2 * r > den {
        q + 1
    } else if q % 2 == 0 {
        q
    } else {
        q + 1
    }
}

/// `num / den` units, rounded to the spacing of binary64 numbers there.
pub open spec fn round_ratio(num: nat, den: nat) -> nat {
    let k = quantum(num / den);
    nearest_even(num, den * pow2(k)) * pow2(k)
}

/// The units that the magnitude bits of a finite binary64 number stand for.
pub open spec fn magnitude_units(mag: nat) -> nat {
    if mag < HIDDEN_BIT {
        mag
    } else {
        (HIDDEN_BIT + mag % (HIDDEN_BIT as nat)) as nat * pow2((mag / (HIDDEN_BIT as nat) - 1) as nat)
    }
}

/// Whether `units` is too large for a finite binary64 number.
pub open spec fn overflows(units: nat) -> bool {
    units >= pow2(2098)
}

pub proof fn lemma_quantum(q: nat, k: nat)
    requires
        q < pow2(53 + k),
        k > 0 ==> q >= pow2((52 + k) as nat),
    ensures
        quantum(q) == k,
    decreases k,
{
    lemma2_to64_rest();
    if k > 0 {
        lemma_pow2_unfold(53 + k);
        lemma_pow2_unfold((52 + k) as nat);
        if k > 1 {
            lemma_pow2_strictly_increases(53, (52 + k) as nat);
        }
        lemma_quantum(q / 2, (k - 1) as nat);
    }
}

/// The spacing exponent is the one that `quantum` describes.
pub proof fn lemma_quantum_bounds(q: nat)
    ensures
        q < pow2(53 + quantum(q)),
        quantum(q) > 0 ==> q >= pow2(52 + quantum(q)),
    decreases q,
{
    lemma2_to64_rest();
    if q >= 0x20_0000_0000_0000 {
        lemma_quantum_bounds(q / 2);
        lemma_pow2_unfold(53 + quantum(q));
        lemma_pow2_unfold(52 + quantum(q));
    }
}

pub proof fn lemma_pow2_53()
    ensures
        pow2(52) == HIDDEN_BIT,
        pow2(53) == 0x20_0000_0000_0000,
{
    lemma2_to64_rest();
}

/// Dividing by `d` compares to `m` as the dividend compares to `m * d`.
pub proof fn lemma_quotient_order(n: nat, d: nat, m: nat)
    requires
        d > 0,
    ensures
        n / d < m <==> n < m * d,
{
    lemma_fundamental_div_mod(n as int, d as int);
    let q = (n / d) as int;
    let e = d as int;
    let w = m as int;
    if q < w {
        assert((q + 1) * e <= w * e) by (nonlinear_arith)
            requires
                q + 1 <= w,
                e > 0,
        ;
        assert((q + 1) * e == e * q + e) by (nonlinear_arith);
    } else {
        assert(q * e >= w * e) by (nonlinear_arith)
            requires
                q >= w,
                e > 0,
        ;
        assert(q * e == e * q) by (nonlinear_arith);
    }
}

/// A magnitude of `m * 2^k` units has the bits `k * 2^52 + m`.
proof fn lemma_pack(m: nat, k: nat)
    requires
        m <= 0x20_0000_0000_0000,
        k > 0 ==> m >= HIDDEN_BIT,
    ensures
        magnitude_units(k * (HIDDEN_BIT as nat) + m) == m * pow2(k),
{
    lemma_pow2_53();
    lemma2_to64();
    let h = HIDDEN_BIT as int;
    let mag = (k * (HIDDEN_BIT as nat) + m) as int;
    if m < HIDDEN_BIT {
        assert(m * pow2(0) == m) by (nonlinear_arith)
            requires
                pow2(0) == 1,
        ;
    } else if m < 0x20_0000_0000_0000 {
        assert(mag == (k + 1) * h + (m - h)) by (nonlinear_arith)
            requires
                mag == k * h + m,
        ;
        lemma_fundamental_div_mod_converse(mag, h, (k + 1) as int, m - h);
    } else {
        assert(mag == (k + 2) * h + 0) by (nonlinear_arith)
            requires
                mag == k * h + m,
                m == 2 * h,
        ;
        lemma_fundamental_div_mod_converse(mag, h, (k + 2) as int, 0);
        lemma_pow2_unfold((k + 1) as nat);
        let p = pow2(k) as int;
        assert(h * (2 * p) == (2 * h) * p) by (nonlinear_arith);
    }
}

/// The rounded magnitude is `m * 2^k` for a significand `m` of 53 bits.
pub proof fn lemma_round_ratio_shape(num: nat, den: nat)
    requires
        den > 0,
    ensures
        ({
            let k = quantum(num / den);
            let m = nearest_even(num, den * pow2(k));
            &&& m <= 0x20_0000_0000_0000
            &&& k > 0 ==> m >= HIDDEN_BIT
            &&& round_ratio(num, den) == m * pow2(k)
        }),
{
    let q = num / den;
    let k = quantum(q);
    lemma_quantum_bounds(q);
    lemma_pow2_53();
    lemma_pow2_pos(k);
    lemma_mul_strictly_positive(den as int, pow2(k) as int);
    let dk = den * pow2(k);
    lemma_quotient_order(num, den, pow2(53 + k));
    lemma_pow2_adds(53, k);
    lemma_quotient_order(num, dk, pow2(53));
    let d = den as int;
    let p = pow2(k) as int;
    let a = pow2(53) as int;
    assert(a * (d * p) == (a * p) * d) by (nonlinear_arith);
    if k > 0 {
        lemma_quotient_order(num, den, pow2(52 + k));
        lemma_pow2_adds(52, k);
        lemma_quotient_order(num, dk, pow2(52));
        let b = pow2(52) as int;
        assert(b * (d * p) == (b * p) * d) by (nonlinear_arith);
    }
}

/// A ratio of `2^2099` units or more rounds beyond the finite numbers.
pub proof fn lemma_large_ratio(n: nat, d: nat)
    requires
        d > 0,
        n >= d * pow2(2099),
    ensures
        overflows(round_ratio(n, d)),
{
    lemma_round_ratio_shape(n, d);
    let q = n / d;
    lemma_quotient_order(n, d, pow2(2099));
    assert(d * pow2(2099) == pow2(2099) * d) by (nonlinear_arith);
    lemma_quantum_bounds(q);
    let j = quantum(q);
    if j < 2046 {
        lemma_pow2_strictly_increases((53 + j) as nat, 2099);
    }
    lemma_pow2_53();
    lemma_pow2_adds(52, j);
    lemma_pow2_pos(j);
    let m = nearest_even(n, d * pow2(j)) as int;
    let p = pow2(j) as int;
    assert(m * p >= HIDDEN_BIT * p) by (nonlinear_arith)
        requires
            m >= HIDDEN_BIT,
            p > 0,
    ;
    if j > 2046 {
        lemma_pow2_strictly_increases(2098, 52 + j);
    }
}

/// A ratio below half a unit rounds to zero.
pub proof fn lemma_small_ratio(n: nat, d: nat)
    requires
        2 * n < d,
    ensures
        round_ratio(n, d) == 0,
{
    vstd::arithmetic::div_mod::lemma_basic_div(n as int, d as int);
    lemma2_to64();
    assert(d * pow2(0) == d) by (nonlinear_arith)
        requires
            pow2(0) == 1,
    ;
    vstd::arithmetic::div_mod::lemma_small_mod(n, d);
    assert(0 * pow2(0) == 0);
}

/// Writes `m * 2^k` units as magnitude bits, infinity when they overflow.
fn pack(m: u64, k: u32) -> (mag: u64)
    requires
        m <= 0x20_0000_0000_0000,
        k > 0 ==> m >= HIDDEN_BIT,
        k <= 2046,
    ensures
        mag <= INFINITY_BITS,
        overflows(m as nat * pow2(k as nat)) <==> mag == INFINITY_BITS,
        mag < INFINITY_BITS ==> magnitude_units(mag as nat) == m as nat * pow2(k as nat),
{
    let mag: u64 = k as u64 * HIDDEN_BIT + m;
    proof {
        lemma_pack(m as nat, k as nat);
        lemma_pow2_53();
        lemma_pow2_pos(k as nat);
        let p = pow2(k as nat) as int;
        let w = m as int;
        if mag >= INFINITY_BITS {
            if k == 2046 {
                lemma_pow2_adds(52, 2046);
                assert(w * p >= HIDDEN_BIT * p) by (nonlinear_arith)
                    requires
                        w >= HIDDEN_BIT,
                        p > 0,
                ;
            } else {
                assert(k == 2045 && m == 0x20_0000_0000_0000);
                lemma_pow2_adds(53, 2045);
            }
        } else {
            if m == 0x20_0000_0000_0000 {
                assert(k < 2045);
                lemma_pow2_adds(53, k as nat);
                lemma_pow2_strictly_increases((53 + k) as nat, 2098);
            } else {
                assert(k <= 2045);
                lemma_pow2_adds(53, k as nat);
                assert(w * p < 0x20_0000_0000_0000 * p) by (nonlinear_arith)
                    requires
                        w < 0x20_0000_0000_0000,
                        p > 0,
                ;
                if k < 2045 {
                    lemma_pow2_strictly_increases((53 + k) as nat, 2098);
                }
            }
        }
    }
    if mag >= INFINITY_BITS {
        INFINITY_BITS
    } else {
        mag
    }
}

/// The binary64 magnitude nearest to `num / den` units.
pub fn nearest_magnitude(num: BigNat, den: BigNat) -> (mag: u64)
    requires
        den@ > 0,
    ensures
        mag <= INFINITY_BITS,
        overflows(round_ratio(num@, den@)) <==> mag == INFINITY_BITS,
        mag < INFINITY_BITS ==> magnitude_units(mag as nat) == round_ratio(num@, den@),
{
    let ghost n = num@;
    let ghost d = den@;
    let mut limit: BigNat = den;
    limit.shift_left(53);
    let mut k: u32 = 0;
    while k < 2046 && num.at_least(&limit)
        invariant
            k <= 2046,
            num@ == n,
            limit@ == d * pow2((53 + k) as nat),
            k > 0 ==> n >= d * pow2((52 + k) as nat),
        decreases 2046 - k,
    {
        limit.mul_add(2, 0);
        proof {
            lemma_pow2_unfold((54 + k) as nat);
            let p = pow2((53 + k) as nat) as int;
            let e = d as int;
            assert(e * p * 2 == e * (2 * p)) by (nonlinear_arith);
        }
        k = k + 1;
    }
    if num.at_least(&limit) {
        proof {
            lemma_large_ratio(n, d);
        }
        return INFINITY_BITS;
    }
    let ghost dk = d * pow2(k as nat);
    let mut m: u64 = 0;
    let mut rest: BigNat = num;
    let mut i: u32 = 0;
    proof {
        lemma2_to64();
        assert(n * pow2(0) == n) by (nonlinear_arith)
            requires
                pow2(0) == 1,
        ;
        assert(0 * limit@ == 0);
    }
    while i < 53
        invariant
            i <= 53,
            rest@ < limit@,
            m < pow2(i as nat),
            n * pow2(i as nat) == m * limit@ + rest@,
        decreases 53 - i,
    {
        let ghost before = rest@ as int;
        let ghost w = m as int;
        let ghost l = limit@ as int;
        proof {
            lemma_pow2_unfold((i + 1) as nat);
            lemma_pow2_53();
            if i < 52 {
                lemma_pow2_strictly_increases((i + 1) as nat, 53);
            }
            let p = pow2(i as nat) as int;
            assert(n * (2 * p) == 2 * w * l + 2 * before) by (nonlinear_arith)
                requires
                    n * p == w * l + before,
            ;
        }
        rest.mul_add(2, 0);
        m = 2 * m;
        if rest.at_least(&limit) {
            rest.subtract(&limit);
            m = m + 1;
            proof {
                assert((2 * w + 1) * l == 2 * w * l + l) by (nonlinear_arith);
            }
        }
        i = i + 1;
    }
    let ghost rho: int = n - m * dk;
    proof {
        lemma_pow2_53();
        let c = pow2(53) as int;
        lemma_pow2_adds(53, k as nat);
        let p = pow2(k as nat) as int;
        let e = d as int;
        let w = m as int;
        assert(limit@ == dk * c) by (nonlinear_arith)
            requires
                limit@ == e * (c * p),
                dk == e * p,
        ;
        let z = dk as int;
        let r = rest@ as int;
        assert(r == rho * c) by (nonlinear_arith)
            requires
                n * c == w * (z * c) + r,
                rho == n - w * z,
        ;
        assert(0 <= rho < z) by (nonlinear_arith)
            requires
                r == rho * c,
                0 <= r < z * c,
                c > 0,
        ;
        lemma_fundamental_div_mod_converse(n as int, z, w, rho);
        lemma_quotient_order(n, d, pow2((53 + k) as nat));
        assert(d * pow2((53 + k) as nat) == pow2((53 + k) as nat) * d) by (nonlinear_arith);
        if k > 0 {
            lemma_quotient_order(n, d, pow2((52 + k) as nat));
            assert(d * pow2((52 + k) as nat) == pow2((52 + k) as nat) * d) by (nonlinear_arith);
        }
        lemma_quantum(n / d, k as nat);
        lemma_round_ratio_shape(n, d);
        assert(2 * rho < z <==> 2 * r < z * c) by (nonlinear_arith)
            requires
                r == rho * c,
                c > 0,
        ;
        assert(2 * rho > z <==> 2 * r > z * c) by (nonlinear_arith)
            requires
                r == rho * c,
                c > 0,
        ;
    }
    rest.mul_add(2, 0);
    let at_least_half: bool = rest.at_least(&limit);
    let at_most_half: bool = limit.at_least(&rest);
    if at_least_half && (!at_most_half || m % 2 == 1) {
        m = m + 1;
    }
    pack(m, k)
}

} // verus!
