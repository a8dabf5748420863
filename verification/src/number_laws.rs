//! What binary64 arithmetic guarantees: each result is the number nearest to the
//! exact one.

use crate::binary64::{one_unit, real_of_bits, real_of_int, real_of_ratio, rounded, Real};
use crate::order::{
    has_form, is_magnitude, law_rounding_exact, law_rounding_monotone, law_rounding_nearest,
    law_rounding_representable,
};
use crate::rounding::{lemma_pow2_53, lemma_quantum, overflows, round_ratio, HIDDEN_BIT};
use vstd::arithmetic::power2::{lemma_pow2_adds, lemma_pow2_pos, pow2};
use vstd::prelude::*;

verus! {

/// The size of a number.
pub open spec fn size(n: int) -> nat {
    if n < 0 {
        (-n) as nat
    } else {
        n as nat
    }
}

/// A rounded fraction with a sign is as near to it as any number, of either
/// sign, that binary64 can hold.
proof fn lemma_signed_nearest(negative: bool, num: nat, den: nat, other: int)
    requires
        den > 0,
        is_magnitude(size(other)),
        rounded(negative, num, den) is Finite,
    ensures
        ({
            let exact = if negative {
                -(num as int)
            } else {
                num as int
            };
            size(rounded(negative, num, den).signed() * den - exact) <= size(other * den - exact)
        }),
{
    let r = round_ratio(num, den) as int;
    let o = size(other) as int;
    let d = den as int;
    law_rounding_nearest(num, den, size(other));
    assert(has_form(0, 0, 0)) by {
        assert(0 * pow2(0) == 0);
    }
    law_rounding_nearest(num, den, 0);
    assert(0 * den == 0);
    assert((-r) * d == -(r * d)) by (nonlinear_arith);
    assert((-o) * d == -(o * d)) by (nonlinear_arith);
    assert(o * d >= 0) by (nonlinear_arith)
        requires
            o >= 0,
            d > 0,
    ;
}

/// A finite sum is as near to the exact sum as any number that binary64 can
/// hold.
pub proof fn law_sum_nearest(a: Real, b: Real, other: int)
    requires
        a is Finite,
        b is Finite,
        a.plus(b) is Finite,
        is_magnitude(size(other)),
    ensures
        size(a.plus(b).signed() - (a.signed() + b.signed())) <= size(
            other - (a.signed() + b.signed()),
        ),
{
    let sum = a.signed() + b.signed();
    if sum != 0 {
        lemma_signed_nearest(sum < 0, size(sum), 1, other);
    }
}

/// A finite product is as near to the exact product as any number that binary64
/// can hold.
pub proof fn law_product_nearest(a: Real, b: Real, other: int)
    requires
        a is Finite,
        b is Finite,
        a.times(b) is Finite,
        is_magnitude(size(other)),
    ensures
        size(a.times(b).signed() * one_unit() - a.signed() * b.signed()) <= size(
            other * one_unit() - a.signed() * b.signed(),
        ),
{
    lemma_pow2_pos(1074);
    let (x, y) = (a->units as int, b->units as int);
    let negative = a->Finite_negative != b->Finite_negative;
    assert((-x) * y == -(x * y) && x * (-y) == -(x * y) && (-x) * (-y) == x * y)
        by (nonlinear_arith);
    lemma_signed_nearest(negative, a->units * b->units, one_unit(), other);
}

/// A finite quotient of finite numbers is as near to the exact quotient as any
/// number that binary64 can hold.
pub proof fn law_quotient_nearest(a: Real, b: Real, other: int)
    requires
        a is Finite,
        b is Finite,
        b.signed() != 0,
        a.over(b) is Finite,
        is_magnitude(size(other)),
    ensures
        size(a.over(b).signed() * b.signed() - a.signed() * one_unit()) <= size(
            other * b.signed() - a.signed() * one_unit(),
        ),
{
    let (x, y, u) = (a->units as int, b->units as int, one_unit() as int);
    let (na, nb) = (a->Finite_negative, b->Finite_negative);
    lemma_signed_nearest(na != nb, a->units * one_unit(), b->units, other);
    let r = a.over(b).signed();
    assert((-x) * u == -(x * u)) by (nonlinear_arith);
    assert(r * (-y) == -(r * y) && other * (-y) == -(other * y)) by (nonlinear_arith);
}

/// An integer is held as the nearest number, and so is a fraction.
pub proof fn law_constants_nearest(n: int, num: nat, den: nat, other: int)
    requires
        den > 0,
        is_magnitude(size(other)),
    ensures
        real_of_int(n) is Finite ==> size(real_of_int(n).signed() - n * one_unit()) <= size(
            other - n * one_unit(),
        ),
        real_of_ratio(num, den) is Finite ==> size(
            real_of_ratio(num, den).signed() * den - num * one_unit(),
        ) <= size(other * den - num * one_unit()),
{
    let u = one_unit() as int;
    if real_of_int(n) is Finite {
        assert((-n) * u == -(n * u)) by (nonlinear_arith);
        lemma_signed_nearest(n < 0, size(n) * one_unit(), 1, other);
    }
    if real_of_ratio(num, den) is Finite {
        lemma_signed_nearest(false, num * one_unit(), den, other);
    }
}

/// The results of finite numbers are numbers that binary64 can hold, or infinite
/// where those do not reach.
pub proof fn law_results_representable(a: Real, b: Real)
    requires
        a is Finite,
        b is Finite,
    ensures
        a.times(b) matches Real::Finite { units, .. } ==> is_magnitude(units) && !overflows(units),
        a.over(b) matches Real::Finite { units, .. } ==> is_magnitude(units) && !overflows(units),
        a.plus(b) matches Real::Finite { units, .. } ==> is_magnitude(units) && !overflows(units),
{
    lemma_pow2_pos(1074);
    lemma_pow2_pos(2098);
    assert(has_form(0, 0, 0)) by {
        assert(0 * pow2(0) == 0);
    }
    law_rounding_representable(a->units * b->units, one_unit());
    if b->units > 0 {
        law_rounding_representable(a->units * one_unit(), b->units);
    }
    law_rounding_representable(size(a.signed() + b.signed()), 1);
}

/// Results of finite numbers are rounded from the exact ones, but for an exact
/// sum of zero, which is negative only where both numbers are.
pub proof fn law_results_rounded(a: Real, b: Real)
    requires
        a is Finite,
        b is Finite,
    ensures
        ({
            let negative = a->Finite_negative != b->Finite_negative;
            let sum = a.signed() + b.signed();
            &&& a.times(b) == rounded(negative, a->units * b->units, one_unit())
            &&& b->units > 0 ==> a.over(b) == rounded(negative, a->units * one_unit(), b->units)
            &&& sum != 0 ==> a.plus(b) == rounded(sum < 0, size(sum), 1)
            &&& sum == 0 ==> a.plus(b) == (Real::Finite {
                negative: a->Finite_negative && b->Finite_negative,
                units: 0,
            })
        }),
{
}

/// A fraction that a number within range bounds is rounded to no more than that
/// number; one that reaches `2^1024` is infinite. The sign is kept.
pub proof fn law_range(negative: bool, num: nat, den: nat, bound: nat)
    requires
        den > 0,
        is_magnitude(bound),
        bound < pow2(2098),
    ensures
        num <= bound * den ==> rounded(negative, num, den) is Finite && rounded(
            negative,
            num,
            den,
        )->units <= bound && rounded(negative, num, den)->Finite_negative == negative,
        num >= pow2(2098) * den ==> rounded(negative, num, den) == (Real::Infinite { negative }),
{
    if num <= bound * den {
        assert(num * 1 == num);
        law_rounding_monotone(num, den, bound, 1);
        assert(bound * 1 == bound);
        law_rounding_exact(bound, 1);
    }
    if num >= pow2(2098) * den {
        lemma_pow2_53();
        lemma_pow2_adds(52, 2046);
        assert(has_form(pow2(2098), HIDDEN_BIT as nat, 2046));
        assert(pow2(2098) * 1 == pow2(2098) && num * 1 == num);
        law_rounding_monotone(pow2(2098), 1, num, den);
        law_rounding_exact(pow2(2098), 1);
    }
}

/// A fraction half way between two numbers is rounded to the one whose multiple
/// of their distance is even.
pub proof fn law_ties_to_even(num: nat, den: nat, low: nat, k: nat)
    requires
        den > 0,
        2 * num == (2 * low + 1) * (den * pow2(k)),
        low < 0x20_0000_0000_0000,
        k > 0 ==> low >= HIDDEN_BIT,
    ensures
        round_ratio(num, den) == (if low % 2 == 0 {
            low
        } else {
            low + 1
        }) * pow2(k),
{
    let e = (den * pow2(k)) as int;
    lemma_pow2_pos(k);
    lemma_pow2_53();
    assert(e > 0) by (nonlinear_arith)
        requires
            e == den * pow2(k),
            den > 0,
            pow2(k) > 0,
    ;
    let r = num - low * e;
    assert(2 * r == e && num == low * e + r) by (nonlinear_arith)
        requires
            2 * num == (2 * low + 1) * e,
            r == num - low * e,
    ;
    vstd::arithmetic::div_mod::lemma_fundamental_div_mod_converse(num as int, e, low as int, r);
    let q = num / den;
    let p = pow2(k) as int;
    let (l, d) = (low as int, den as int);
    assert(l * p <= q < (l + 1) * p) by {
        vstd::arithmetic::div_mod::lemma_fundamental_div_mod(num as int, d);
        vstd::arithmetic::div_mod::lemma_mod_bound(num as int, d);
        let (m, w) = (q as int, num % den);
        assert(l * p <= m) by (nonlinear_arith)
            requires
                num == d * m + w,
                0 <= w < d,
                num == l * e + r,
                r >= 0,
                e == d * p,
        ;
        assert(m < (l + 1) * p) by (nonlinear_arith)
            requires
                num == d * m + w,
                0 <= w,
                num == l * e + r,
                r < e,
                e == d * p,
                d > 0,
        ;
    }
    lemma_pow2_adds(53, k);
    assert((l + 1) * p <= 0x20_0000_0000_0000 * p) by (nonlinear_arith)
        requires
            l + 1 <= 0x20_0000_0000_0000,
            p > 0,
    ;
    if k > 0 {
        lemma_pow2_adds(52, k);
        assert(l * p >= HIDDEN_BIT * p) by (nonlinear_arith)
            requires
                l >= HIDDEN_BIT,
                p > 0,
        ;
    }
    lemma_quantum(q, k);
}

/// The sign of a product or a quotient is negative exactly where one of the two
/// signs is.
pub proof fn law_signs(a: Real, b: Real)
    requires
        a is Finite,
        b is Finite,
    ensures
        a.times(b) matches Real::Finite { negative, .. } ==> negative == (a->Finite_negative
            != b->Finite_negative),
        a.times(b) matches Real::Infinite { negative } ==> negative == (a->Finite_negative
            != b->Finite_negative),
        a.over(b) matches Real::Finite { negative, .. } ==> negative == (a->Finite_negative
            != b->Finite_negative),
        a.over(b) matches Real::Infinite { negative } ==> negative == (a->Finite_negative
            != b->Finite_negative),
        a.times(b) !is Nan,
        a.plus(b) !is Nan,
        a.over(b) is Nan <==> a->units == 0 && b->units == 0,
        b->units == 0 && a->units > 0 ==> a.over(b) is Infinite,
        a.negated() == (Real::Finite { negative: !a->Finite_negative, units: a->units }),
        a.minus(b) == a.plus(b.negated()),
{
}

/// Sums and products do not depend on the order of their two numbers.
pub proof fn law_commutative(a: Real, b: Real)
    ensures
        a.plus(b) == b.plus(a),
        a.times(b) == b.times(a),
{
    if a is Finite && b is Finite {
        let (x, y) = (a->units as int, b->units as int);
        assert(x * y == y * x) by (nonlinear_arith);
    }
}

/// What is not a number stays so, and infinite numbers absorb finite ones.
pub proof fn law_special_numbers(a: Real, negative: bool, other: bool)
    ensures
        ({
            let inf = Real::Infinite { negative };
            let inf2 = Real::Infinite { negative: other };
            &&& a.plus(Real::Nan) is Nan && Real::Nan.plus(a) is Nan
            &&& a.times(Real::Nan) is Nan && Real::Nan.times(a) is Nan
            &&& a.over(Real::Nan) is Nan && Real::Nan.over(a) is Nan
            &&& inf.plus(inf2) == if negative == other {
                inf
            } else {
                Real::Nan
            }
            &&& inf.times(inf2) == (Real::Infinite { negative: negative != other })
            &&& inf.over(inf2) is Nan
            &&& a is Finite ==> {
                &&& inf.plus(a) == inf && a.plus(inf) == inf
                &&& a->units == 0 ==> inf.times(a) is Nan
                &&& a->units > 0 ==> inf.times(a) == (Real::Infinite {
                    negative: negative != a->Finite_negative,
                })
                &&& inf.over(a) == (Real::Infinite { negative: negative != a->Finite_negative })
                &&& a.over(inf) == (Real::Finite {
                    negative: negative != a->Finite_negative,
                    units: 0,
                })
            }
        }),
{
}

/// Numbers are ordered by their exact values; what is not a number is in no
/// order.
pub proof fn law_order(a: Real, b: Real)
    ensures
        a is Finite && b is Finite ==> (a.less(b) <==> a.signed() < b.signed()),
        a is Finite && b is Finite ==> (a.at_most(b) <==> a.signed() <= b.signed()),
        a is Finite ==> (a.positive() <==> a.signed() > 0),
        a is Nan || b is Nan ==> !a.less(b) && !a.at_most(b),
        a is Nan ==> !a.positive(),
        b == (Real::Infinite { negative: false }) && a !is Nan ==> a.at_most(b) && (a.less(b)
            <==> a != b),
        a == (Real::Infinite { negative: true }) && b !is Nan ==> a.at_most(b) && (a.less(b)
            <==> a != b),
        a is Finite ==> a.signed() == if a->Finite_negative {
            -(a->units as int)
        } else {
            a->units as int
        },
{
}

/// The integer part of a number, toward zero, as far as the integers reach.
pub proof fn law_integer_parts(a: Real)
    ensures
        a is Nan ==> a.as_u64() == 0 && a.as_i64() == 0,
        a == (Real::Infinite { negative: false }) ==> a.as_u64() == u64::MAX && a.as_i64()
            == i64::MAX,
        a == (Real::Infinite { negative: true }) ==> a.as_u64() == 0 && a.as_i64() == i64::MIN,
        a is Finite && a.signed() <= 0 ==> a.as_u64() == 0,
        a is Finite && a.signed() > 0 && a.as_u64() < u64::MAX ==> a.as_u64() * one_unit()
            <= a.signed() < (a.as_u64() + 1) * one_unit(),
        a is Finite && a.as_u64() == u64::MAX ==> u64::MAX * one_unit() <= a.signed(),
        a is Finite && a.signed() >= 0 && a.as_i64() < i64::MAX ==> a.as_i64() * one_unit()
            <= a.signed() < (a.as_i64() + 1) * one_unit(),
        a is Finite && a.as_i64() == i64::MAX ==> i64::MAX * one_unit() <= a.signed(),
        a is Finite && a.signed() < 0 && a.as_i64() > i64::MIN ==> (a.as_i64() - 1) * one_unit()
            < a.signed() <= a.as_i64() * one_unit(),
        a is Finite && a.as_i64() == i64::MIN ==> a.signed() <= i64::MIN * one_unit(),
{
    lemma_pow2_pos(1074);
    if a is Finite {
        let n = a->units as int;
        let u = one_unit() as int;
        let q = n / u;
        vstd::arithmetic::div_mod::lemma_fundamental_div_mod(n, u);
        vstd::arithmetic::div_mod::lemma_mod_bound(n, u);
        assert(u * q == q * u) by (nonlinear_arith);
        assert((q + 1) * u == q * u + u) by (nonlinear_arith);
        assert((-q) * u == -(q * u)) by (nonlinear_arith);
        assert((-q - 1) * u == -(q * u) - u) by (nonlinear_arith);
        assert(q >= 0) by (nonlinear_arith)
            requires
                n == u * q + n % u,
                n >= 0,
                u > 0,
                n % u < u,
        ;
        if q >= u64::MAX {
            assert(u64::MAX * u <= q * u) by (nonlinear_arith)
                requires
                    q >= u64::MAX,
                    u > 0,
            ;
        }
        if q >= i64::MAX {
            assert(i64::MAX * u <= q * u) by (nonlinear_arith)
                requires
                    q >= i64::MAX,
                    u > 0,
            ;
        }
        if q > i64::MAX {
            assert(0x8000_0000_0000_0000 * u <= q * u) by (nonlinear_arith)
                requires
                    q >= 0x8000_0000_0000_0000,
                    u > 0,
            ;
            assert((-0x8000_0000_0000_0000) * u == -(0x8000_0000_0000_0000 * u))
                by (nonlinear_arith);
        }
        assert(0 * u == 0);
        if n == 0 {
            assert(q == 0) by {
                vstd::arithmetic::div_mod::lemma_basic_div(0, u);
            }
        }
    }
}

/// The bits of a number: a sign, an exponent of eleven bits and a fraction of
/// fifty-two. The highest exponent is for what is infinite or not a number, the
/// lowest for numbers without a leading one.
pub proof fn law_encoding(negative: bool, e: u64, f: u64)
    requires
        e < 2048,
        f < 0x10_0000_0000_0000,
    ensures
        ({
            let bits = (if negative {
                0x8000_0000_0000_0000
            } else {
                0int
            }) + e * 0x10_0000_0000_0000 + f;
            let x = real_of_bits(bits as u64);
            &&& e == 0 ==> x == (Real::Finite { negative, units: f as nat })
            &&& 0 < e < 2047 ==> x == (Real::Finite {
                negative,
                units: ((0x10_0000_0000_0000 + f) * pow2((e - 1) as nat)) as nat,
            })
            &&& e == 2047 && f == 0 ==> x == (Real::Infinite { negative })
            &&& e == 2047 && f > 0 ==> x is Nan
        }),
{
    let mag = (e * 0x10_0000_0000_0000 + f) as int;
    let h = HIDDEN_BIT as int;
    assert(mag / h == e && mag % h == f) by {
        vstd::arithmetic::div_mod::lemma_fundamental_div_mod_converse(mag, h, e as int, f as int);
    }
}

} // verus!
