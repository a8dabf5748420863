//! How rounding and arithmetic keep the order of numbers.

use crate::binary64::{one_unit, rounded, Real};
use crate::rounding::{
    lemma_pow2_53, lemma_quantum, lemma_quantum_bounds, lemma_quotient_order,
    lemma_round_ratio_shape, lemma_small_ratio, nearest_even, quantum, round_ratio, HIDDEN_BIT,
};
use vstd::arithmetic::div_mod::{
    lemma_fundamental_div_mod, lemma_fundamental_div_mod_converse, lemma_mod_bound,
};
use vstd::arithmetic::mul::lemma_mul_strictly_positive;
use vstd::arithmetic::power2::{
    lemma_pow2_adds, lemma_pow2_pos, lemma_pow2_strictly_increases, pow2,
};
use vstd::prelude::*;

verus! {

/// Whether a magnitude of `units` is that of a finite binary64 number.
pub open spec fn is_magnitude(units: nat) -> bool {
    exists|m: nat, k: nat| #[trigger] has_form(units, m, k)
}

/// Whether `units` is `m * 2^k` with a significand `m` of at most 53 bits, all
/// of them used unless `k` is zero.
pub open spec fn has_form(units: nat, m: nat, k: nat) -> bool {
    &&& units == m * pow2(k)
    &&& m < 0x20_0000_0000_0000
    &&& k > 0 ==> m >= HIDDEN_BIT
}

proof fn lemma_nearest_even_monotone(n1: nat, d1: nat, n2: nat, d2: nat)
    requires
        d1 > 0,
        d2 > 0,
        n1 * d2 <= n2 * d1,
    ensures
        nearest_even(n1, d1) <= nearest_even(n2, d2),
        n1 / d1 <= n2 / d2,
{
    lemma_fundamental_div_mod(n1 as int, d1 as int);
    lemma_fundamental_div_mod(n2 as int, d2 as int);
    lemma_mod_bound(n1 as int, d1 as int);
    lemma_mod_bound(n2 as int, d2 as int);
    let (a, b) = (d1 as int, d2 as int);
    let (q1, r1) = ((n1 / d1) as int, (n1 % d1) as int);
    let (q2, r2) = ((n2 / d2) as int, (n2 % d2) as int);
    // The inequality in terms of quotients and remainders.
    assert(q1 * (a * b) + r1 * b <= q2 * (a * b) + r2 * a) by (nonlinear_arith)
        requires
            (a * q1 + r1) * b <= (b * q2 + r2) * a,
    ;
    assert(a * b > 0) by (nonlinear_arith)
        requires
            a > 0,
            b > 0,
    ;
    assert(r2 * a < a * b) by (nonlinear_arith)
        requires
            r2 < b,
            a > 0,
    ;
    assert(r1 * b >= 0) by (nonlinear_arith)
        requires
            r1 >= 0,
            b > 0,
    ;
    if q1 > q2 {
        assert(q1 * (a * b) >= q2 * (a * b) + a * b) by (nonlinear_arith)
            requires
                q1 >= q2 + 1,
                a * b > 0,
        ;
    } else if q1 == q2 {
        assert(r1 * b <= r2 * a);
        if 2 * r1 >= a {
            assert(2 * r2 >= b) by (nonlinear_arith)
                requires
                    2 * r1 >= a,
                    r1 * b <= r2 * a,
                    a > 0,
                    b > 0,
            ;
        }
        if 2 * r1 > a {
            assert(2 * r2 > b) by (nonlinear_arith)
                requires
                    2 * r1 > a,
                    r1 * b <= r2 * a,
                    a > 0,
                    b > 0,
            ;
        }
    }
}

/// Rounding keeps the order of fractions.
pub proof fn law_rounding_monotone(n1: nat, d1: nat, n2: nat, d2: nat)
    requires
        d1 > 0,
        d2 > 0,
        n1 * d2 <= n2 * d1,
    ensures
        round_ratio(n1, d1) <= round_ratio(n2, d2),
{
    lemma_nearest_even_monotone(n1, d1, n2, d2);
    let (q1, q2) = (n1 / d1, n2 / d2);
    let (k1, k2) = (quantum(q1), quantum(q2));
    lemma_quantum_bounds(q1);
    lemma_quantum_bounds(q2);
    lemma_round_ratio_shape(n1, d1);
    lemma_round_ratio_shape(n2, d2);
    lemma_pow2_53();
    lemma_pow2_pos(k1);
    lemma_pow2_pos(k2);
    let (p1, p2) = (pow2(k1) as int, pow2(k2) as int);
    let m1 = nearest_even(n1, d1 * pow2(k1)) as int;
    let m2 = nearest_even(n2, d2 * pow2(k2)) as int;
    if k1 > k2 {
        if k1 > k2 + 1 {
            lemma_pow2_strictly_increases(53 + k2, 52 + k1);
        }
        assert(false);
    } else if k1 == k2 {
        let (a, b) = (d1 as int, d2 as int);
        assert(n1 * (b * p1) <= n2 * (a * p1)) by (nonlinear_arith)
            requires
                n1 * b <= n2 * a,
                p1 > 0,
        ;
        lemma_mul_strictly_positive(a, p1);
        lemma_mul_strictly_positive(b, p1);
        lemma_nearest_even_monotone(n1, d1 * pow2(k1), n2, d2 * pow2(k2));
        assert(m1 * p1 <= m2 * p1) by (nonlinear_arith)
            requires
                m1 <= m2,
                p1 > 0,
        ;
    } else {
        lemma_pow2_adds(53, k1);
        lemma_pow2_adds(52, k2);
        if k1 + 1 < k2 {
            lemma_pow2_strictly_increases(53 + k1, 52 + k2);
        }
        assert(m1 * p1 <= 0x20_0000_0000_0000 * p1) by (nonlinear_arith)
            requires
                m1 <= 0x20_0000_0000_0000,
                p1 > 0,
        ;
        assert(m2 * p2 >= HIDDEN_BIT * p2) by (nonlinear_arith)
            requires
                m2 >= HIDDEN_BIT,
                p2 > 0,
        ;
    }
}

/// Rounding leaves a number as it is that binary64 can hold.
pub proof fn law_rounding_exact(units: nat, den: nat)
    requires
        den > 0,
        is_magnitude(units),
    ensures
        round_ratio(units * den, den) == units,
{
    let (m, k) = choose|m: nat, k: nat| #[trigger] has_form(units, m, k);
    let p = pow2(k) as int;
    let d = den as int;
    let u = units as int;
    let w = m as int;
    lemma_pow2_53();
    lemma_pow2_pos(k);
    vstd::arithmetic::div_mod::lemma_div_by_multiple(u, d);
    lemma_pow2_adds(53, k);
    assert(w * p < pow2(53) * p) by (nonlinear_arith)
        requires
            w < pow2(53),
            p > 0,
    ;
    if k > 0 {
        lemma_pow2_adds(52, k);
        assert(w * p >= pow2(52) * p) by (nonlinear_arith)
            requires
                w >= pow2(52),
                p > 0,
        ;
    }
    lemma_quantum(units, k);
    assert(u * d == w * (d * p) + 0) by (nonlinear_arith)
        requires
            u == w * p,
    ;
    lemma_mul_strictly_positive(d, p);
    lemma_fundamental_div_mod_converse(u * d, d * p, w, 0);
}

/// A rounded magnitude that does not overflow is one that binary64 can hold.
pub proof fn law_rounding_representable(num: nat, den: nat)
    requires
        den > 0,
    ensures
        is_magnitude(round_ratio(num, den)),
{
    lemma_round_ratio_shape(num, den);
    let k = quantum(num / den);
    let m = nearest_even(num, den * pow2(k));
    if m < 0x20_0000_0000_0000 {
        assert(has_form(round_ratio(num, den), m, k));
    } else {
        vstd::arithmetic::power2::lemma_pow2_unfold((k + 1) as nat);
        let p = pow2(k) as int;
        assert(0x20_0000_0000_0000 * p == HIDDEN_BIT * (2 * p)) by (nonlinear_arith);
        assert(has_form(round_ratio(num, den), HIDDEN_BIT as nat, k + 1));
    }
}

/// The distance from the fraction `num / den` to `units`, times `den`.
pub open spec fn scaled_distance(num: nat, den: nat, units: nat) -> int {
    if num >= units * den {
        num - units * den
    } else {
        units * den - num
    }
}

/// No number that binary64 can hold is nearer to a fraction than the one it is
/// rounded to.
pub proof fn law_rounding_nearest(num: nat, den: nat, other: nat)
    requires
        den > 0,
        is_magnitude(other),
    ensures
        scaled_distance(num, den, round_ratio(num, den)) <= scaled_distance(num, den, other),
{
    lemma_round_ratio_shape(num, den);
    lemma_pow2_53();
    let k = quantum(num / den);
    let p = pow2(k) as int;
    lemma_pow2_pos(k);
    let e = (den * pow2(k)) as int;
    lemma_mul_strictly_positive(den as int, p);
    let q = (num / (den * pow2(k))) as int;
    let r = (num % (den * pow2(k))) as int;
    lemma_fundamental_div_mod(num as int, e);
    lemma_mod_bound(num as int, e);
    let d = den as int;
    let low = q * p;
    let high = (q + 1) * p;
    assert(low * d == e * q) by (nonlinear_arith)
        requires
            low == q * p,
            e == d * p,
    ;
    assert(high * d == e * q + e) by (nonlinear_arith)
        requires
            high == (q + 1) * p,
            e == d * p,
    ;
    // The neighbours on the grid around the fraction are `low` and `high`; any
    // representable number lies on neither side between them.
    let (m, j) = choose|m: nat, j: nat| #[trigger] has_form(other, m, j);
    let o = other as int;
    assert(o <= low || o >= high) by {
        lemma_pow2_pos(j);
        if j >= k {
            lemma_pow2_adds((j - k) as nat, k);
            let t = pow2((j - k) as nat) as int;
            let w = m as int;
            assert(o == (w * t) * p) by (nonlinear_arith)
                requires
                    o == w * (t * p),
            ;
            let c = w * t;
            if c <= q {
                assert(c * p <= q * p) by (nonlinear_arith)
                    requires
                        c <= q,
                        p > 0,
                ;
            } else {
                assert(c * p >= (q + 1) * p) by (nonlinear_arith)
                    requires
                        c >= q + 1,
                        p > 0,
                ;
            }
        } else {
            // A finer grid lies wholly below this binade.
            lemma_quantum_bounds(num / den);
            lemma_pow2_adds(53, j);
            lemma_pow2_adds(52, k);
            if 53 + j < 52 + k {
                lemma_pow2_strictly_increases(53 + j, 52 + k);
            }
            let w = m as int;
            let s = pow2(j) as int;
            assert(w * s <= pow2(53) * s) by (nonlinear_arith)
                requires
                    w <= pow2(53),
                    s > 0,
            ;
            lemma_quotient_order(num, den, pow2(52 + k));
            lemma_quotient_order(num, den * pow2(k), pow2(52));
            let b = pow2(52) as int;
            assert(b * (d * p) == (b * p) * d) by (nonlinear_arith);
            assert(q * p >= b * p) by (nonlinear_arith)
                requires
                    q >= b,
                    p > 0,
            ;
        }
    }
    let x = num as int;
    if o <= low {
        assert(o * d <= low * d) by (nonlinear_arith)
            requires
                o <= low,
                d > 0,
        ;
    } else {
        assert(o * d >= high * d) by (nonlinear_arith)
            requires
                o >= high,
                d > 0,
        ;
    }
}

/// A magnitude with its sign.
pub open spec fn with_sign(negative: bool, n: int) -> int {
    if negative {
        -n
    } else {
        n
    }
}

/// Rounding keeps the order of signed fractions.
pub proof fn lemma_rounded_order(
    neg1: bool,
    n1: nat,
    d1: nat,
    neg2: bool,
    n2: nat,
    d2: nat,
)
    requires
        d1 > 0,
        d2 > 0,
        with_sign(neg1, (n1 * d2) as int) <= with_sign(neg2, (n2 * d1) as int),
    ensures
        rounded(neg1, n1, d1).at_most(rounded(neg2, n2, d2)),
{
    assert(n1 * d2 >= 0 && n2 * d1 >= 0) by (nonlinear_arith)
        requires
            n1 >= 0,
            n2 >= 0,
            d1 > 0,
            d2 > 0,
    ;
    if neg1 && neg2 {
        law_rounding_monotone(n2, d2, n1, d1);
    } else if !neg1 && !neg2 {
        law_rounding_monotone(n1, d1, n2, d2);
    } else if !neg1 && neg2 {
        assert(n1 == 0 && n2 == 0) by (nonlinear_arith)
            requires
                n1 * d2 == 0,
                n2 * d1 == 0,
                d1 > 0,
                d2 > 0,
        ;
        lemma_small_ratio(0, d1);
        lemma_small_ratio(0, d2);
        lemma_pow2_pos(2098);
    }
}

/// A sum of finite numbers, as one rounding.
proof fn lemma_plus_rounds(a: Real, b: Real)
    requires
        a is Finite,
        b is Finite,
    ensures
        ({
            let sum = a.signed() + b.signed();
            &&& sum != 0 ==> a.plus(b) == rounded(
                sum < 0,
                if sum < 0 {
                    (-sum) as nat
                } else {
                    sum as nat
                },
                1,
            )
            &&& sum == 0 ==> a.plus(b) is Finite && a.plus(b).signed() == 0
        }),
{
}

/// Adding the same number keeps the order.
pub proof fn law_plus_monotone(a: Real, b: Real, c: Real)
    requires
        a.at_most(b),
        c is Finite,
    ensures
        a.plus(c).at_most(b.plus(c)),
{
    if a is Finite && b is Finite {
        let x = a.signed() + c.signed();
        let y = b.signed() + c.signed();
        lemma_plus_rounds(a, c);
        lemma_plus_rounds(b, c);
        lemma_small_ratio(0, 1);
        lemma_pow2_pos(2098);
        let n = if x < 0 {
            (-x) as nat
        } else {
            x as nat
        };
        let m = if y < 0 {
            (-y) as nat
        } else {
            y as nat
        };
        assert(n * 1 == n && m * 1 == m);
        lemma_rounded_order(x < 0, n, 1, y < 0, m, 1);
    }
}

/// Negation reverses the order.
pub proof fn law_negated_order(a: Real, b: Real)
    requires
        a.at_most(b),
    ensures
        b.negated().at_most(a.negated()),
{
}

/// Multiplying by the same positive number keeps the order of numbers, of
/// positive ones only if the factor is infinite.
pub proof fn law_times_monotone(a: Real, b: Real, c: Real)
    requires
        a.at_most(b),
        c.positive(),
        c is Finite || a.positive(),
    ensures
        a.times(c).at_most(b.times(c)),
{
    lemma_pow2_pos(1074);
    if a is Finite && b is Finite && c is Finite {
        let u = c->units as int;
        let (x, y) = (a->units as int, b->units as int);
        let (na, nb) = (a->Finite_negative, b->Finite_negative);
        let one = one_unit() as int;
        let (s, t) = (a.signed(), b.signed());
        assert(s * u * one <= t * u * one) by (nonlinear_arith)
            requires
                s <= t,
                u > 0,
                one > 0,
        ;
        assert(with_sign(na, x * u * one) == s * u * one) by (nonlinear_arith)
            requires
                s == with_sign(na, x),
        ;
        assert(with_sign(nb, y * u * one) == t * u * one) by (nonlinear_arith)
            requires
                t == with_sign(nb, y),
        ;
        lemma_rounded_order(
            na,
            (a->units * c->units) as nat,
            one_unit(),
            nb,
            (b->units * c->units) as nat,
            one_unit(),
        );
    }
}

/// Dividing by the same number, positive or zero, keeps the order, where it
/// gives numbers.
pub proof fn law_over_monotone(a: Real, b: Real, c: Real)
    requires
        a.at_most(b),
        c.positive() || c == (Real::Finite { negative: false, units: 0 }),
        a.over(c) !is Nan,
        b.over(c) !is Nan,
    ensures
        a.over(c).at_most(b.over(c)),
{
    lemma_pow2_pos(1074);
    if a is Finite && b is Finite && c is Finite && c.positive() {
        let u = c->units as int;
        let (x, y) = (a->units as int, b->units as int);
        let (na, nb) = (a->Finite_negative, b->Finite_negative);
        let one = one_unit() as int;
        let (s, t) = (a.signed(), b.signed());
        assert(s * one * u <= t * one * u) by (nonlinear_arith)
            requires
                s <= t,
                u > 0,
                one > 0,
        ;
        assert(with_sign(na, x * one * u) == s * one * u) by (nonlinear_arith)
            requires
                s == with_sign(na, x),
        ;
        assert(with_sign(nb, y * one * u) == t * one * u) by (nonlinear_arith)
            requires
                t == with_sign(nb, y),
        ;
        lemma_rounded_order(
            na,
            (a->units * one_unit()) as nat,
            c->units,
            nb,
            (b->units * one_unit()) as nat,
            c->units,
        );
    }
}

/// Taking the integer part keeps the order.
pub proof fn law_as_u64_monotone(a: Real, b: Real)
    requires
        a.at_most(b),
    ensures
        a.as_u64() <= b.as_u64(),
{
    lemma_pow2_pos(1074);
    if a is Finite && b is Finite && !a->Finite_negative && !b->Finite_negative {
        vstd::arithmetic::div_mod::lemma_div_is_ordered(
            a->units as int,
            b->units as int,
            one_unit() as int,
        );
    } else if a is Finite && b is Finite && !a->Finite_negative && b->Finite_negative {
        assert(a->units == 0);
        assert(0nat / one_unit() == 0) by {
            vstd::arithmetic::div_mod::lemma_basic_div(0, one_unit() as int);
        }
    }
}

} // verus!
