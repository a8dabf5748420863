//! What holds of the prices that a pool shows and of the least output that a
//! swap demands.

use crate::binary64::{one_unit, real_of_int, real_of_ratio, rounded, Binary64, Real};
use crate::decimal::{
    digits_value, exponent, fraction_digits, lemma_ten_to_order, mantissa, real_of_text, ten_to,
    u64_of_text, unsigned_part, whole_digits,
};
use crate::laws::{
    holdings, law_integers_exact, law_purchase_as_configured, law_sale_sells_the_balance, own_sides,
};
use crate::order::{
    has_form, is_magnitude, law_as_u64_monotone, law_negated_order, law_over_monotone,
    law_plus_monotone, law_rounding_exact, law_rounding_monotone, law_rounding_representable,
    law_times_monotone, lemma_rounded_order,
};
use crate::price::{kept_share, least_output, price_of};
use crate::process::{resumed, swap_outcome, PendingView, PoolSwap, StepView, Trader};
use crate::rounding::{
    lemma_pow2_53, lemma_quantum_bounds, lemma_quotient_order, lemma_round_ratio_shape,
    lemma_small_ratio, magnitude_units, nearest_even, overflows, quantum, round_ratio, HIDDEN_BIT,
};
use crate::session::{zero, SessionView};
use vstd::arithmetic::div_mod::{lemma_fundamental_div_mod, lemma_mod_bound};
use vstd::arithmetic::power2::{
    lemma2_to64, lemma_pow2_adds, lemma_pow2_pos, lemma_pow2_strictly_increases, lemma_pow2_unfold,
    pow2,
};
use vstd::prelude::*;

verus! {

/// Powers of two are held exactly.
pub proof fn lemma_pow2_magnitude(e: nat)
    requires
        52 < e < 2098,
    ensures
        is_magnitude(pow2(e)),
        !overflows(pow2(e)),
{
    lemma_pow2_53();
    lemma_pow2_adds(52, (e - 52) as nat);
    assert(has_form(pow2(e), HIDDEN_BIT as nat, (e - 52) as nat));
    lemma_pow2_strictly_increases(e, 2098);
}

/// Amounts of lamports are finite and not negative; an amount of one or more
/// is at least one after rounding.
proof fn lemma_amount(n: u64)
    ensures
        real_of_int(n as int) is Finite,
        !real_of_int(n as int)->Finite_negative,
        real_of_int(n as int)->units <= pow2(1138),
        n > 0 ==> real_of_int(n as int)->units >= one_unit(),
        n == 0 ==> real_of_int(n as int)->units == 0,
{
    let c = one_unit();
    lemma_pow2_magnitude(1138);
    lemma_pow2_magnitude(1074);
    lemma_pow2_adds(64, 1074);
    lemma2_to64();
    lemma_pow2_pos(1074);
    let x = n as nat * c;
    assert(x <= pow2(1138)) by (nonlinear_arith)
        requires
            x == n as nat * c,
            n <= 0xffff_ffff_ffff_ffff,
            pow2(1138) == 0x1_0000_0000_0000_0000 * c,
            c > 0,
    ;
    assert(x * 1 == x && pow2(1138) * 1 == pow2(1138) && c * 1 == c);
    law_rounding_monotone(x, 1, pow2(1138), 1);
    law_rounding_exact(pow2(1138), 1);
    if n > 0 {
        assert(x >= c) by (nonlinear_arith)
            requires
                x == n as nat * c,
                n >= 1,
                c > 0,
        ;
        law_rounding_monotone(c, 1, x, 1);
        law_rounding_exact(c, 1);
    } else {
        assert(0 * c == 0);
        lemma_small_ratio(0, 1);
    }
}

/// A positive product has factors of one sign.
proof fn lemma_positive_product(a: Real, b: Real)
    requires
        a.times(b).positive(),
    ensures
        (a.positive() && b.positive()) || (a.less(zero()) && b.less(zero())),
{
    lemma_pow2_pos(1074);
    lemma_pow2_pos(2098);
    if a is Finite && b is Finite {
        let (x, y) = (a->units as int, b->units as int);
        if x == 0 || y == 0 {
            assert(x * y == 0) by (nonlinear_arith)
                requires
                    x == 0 || y == 0,
            ;
            lemma_small_ratio(0, one_unit());
        }
    }
}

/// A quotient of one or more by a positive number has a finite divisor and a
/// positive dividend.
proof fn lemma_positive_quotient(a: Real, b: Real)
    requires
        b.positive(),
        a.over(b).as_u64() > 0,
    ensures
        a.positive(),
        b is Finite,
{
    lemma_pow2_pos(1074);
    lemma_pow2_pos(2098);
    assert(0nat / one_unit() == 0) by {
        vstd::arithmetic::div_mod::lemma_basic_div(0, one_unit() as int);
    }
    if a is Finite && b is Finite {
        if a->units == 0 {
            assert(0 * one_unit() == 0);
            lemma_small_ratio(0, b->units);
        }
    }
}

proof fn lemma_plus_commutes(a: Real, b: Real)
    ensures
        a.plus(b) == b.plus(a),
{
}

proof fn lemma_times_commutes(a: Real, b: Real)
    ensures
        a.times(b) == b.times(a),
{
    if a is Finite && b is Finite {
        let (x, y) = (a->units, b->units);
        assert(x * y == y * x) by (nonlinear_arith);
    }
}

/// The pool fee leaves between a half and all of the output.
proof fn lemma_fee_share()
    ensures
        real_of_ratio(997, 1000) is Finite,
        real_of_ratio(997, 1000).positive(),
        is_magnitude(real_of_ratio(997, 1000)->units),
        !overflows(real_of_ratio(997, 1000)->units),
        1024 * real_of_ratio(997, 1000)->units <= 1023 * one_unit(),
{
    let u = one_unit();
    lemma_pow2_pos(1074);
    lemma_pow2_magnitude(1073);
    lemma_pow2_unfold(1074);
    law_rounding_representable(997 * u, 1000);
    // Not below a half.
    let half = pow2(1073);
    assert(half * 1000 <= (997 * u) * 1);
    law_rounding_monotone(half, 1, 997 * u, 1000);
    law_rounding_exact(half, 1);
    assert(half * 1 == half);
    // Not above 1023 / 1024.
    lemma_pow2_adds(10, 1064);
    lemma2_to64();
    let top = 1023 * pow2(1064);
    lemma_pow2_adds(43, 1021);
    vstd::arithmetic::power2::lemma2_to64_rest();
    let q = pow2(1021);
    assert(top == (1023 * 0x800_0000_0000) as nat * q) by (nonlinear_arith)
        requires
            top == 1023 * (0x800_0000_0000 * q),
    ;
    assert(has_form(top, (1023 * 0x800_0000_0000) as nat, 1021));
    assert((997 * u) * 1 <= top * 1000);
    law_rounding_monotone(997 * u, 1000, top, 1);
    law_rounding_exact(top, 1);
    assert(top * 1 == top);
    lemma_pow2_strictly_increases(1074, 2098);
}

/// Where a least output above zero comes from.
proof fn lemma_positive_output(amount: u64, input: Real, output: Real, slippage: Real)
    requires
        least_output(amount, input, output, slippage) matches Some(m) && m > 0,
        !output.less(zero()),
    ensures
        kept_share(slippage).positive(),
        real_of_int(amount as int).positive(),
        real_of_int(amount as int) is Finite,
        output.positive(),
        input.plus(real_of_int(amount as int)) is Finite,
        input.plus(real_of_int(amount as int)).positive(),
        kept_share(slippage).times(real_of_int(amount as int)).positive(),
{
    let paid = real_of_int(amount as int);
    let total = input.plus(paid);
    let kept = kept_share(slippage);
    lemma_amount(amount);
    lemma_positive_quotient(kept.times(paid).times(output), total);
    lemma_positive_product(kept.times(paid), output);
    lemma_positive_product(kept, paid);
}

/// A share that is kept shrinks as the tolerated slippage grows.
proof fn lemma_kept_share_order(s1: Real, s2: Real)
    requires
        s1.at_most(s2),
    ensures
        kept_share(s2).at_most(kept_share(s1)),
{
    let one = real_of_int(1);
    let fee = real_of_ratio(997, 1000);
    law_integers_exact(1);
    law_negated_order(s1, s2);
    law_plus_monotone(s2.negated(), s1.negated(), one);
    lemma_plus_commutes(one, s1.negated());
    lemma_plus_commutes(one, s2.negated());
    lemma_fee_share();
    law_times_monotone(one.minus(s2), one.minus(s1), fee);
    lemma_times_commutes(fee, one.minus(s1));
    lemma_times_commutes(fee, one.minus(s2));
}

/// Tolerating more slippage never demands a larger output.
pub proof fn law_more_slippage_demands_less(
    amount: u64,
    input: Real,
    output: Real,
    s1: Real,
    s2: Real,
)
    requires
        s1.at_most(s2),
        !output.less(zero()),
    ensures
        match (
            least_output(amount, input, output, s1),
            least_output(amount, input, output, s2),
        ) {
            (Some(m1), Some(m2)) => m2 <= m1,
            (None, None) => true,
            _ => false,
        },
{
    if least_output(amount, input, output, s2) matches Some(m2) && m2 > 0 {
        let paid = real_of_int(amount as int);
        let total = input.plus(paid);
        let (k1, k2) = (kept_share(s1), kept_share(s2));
        lemma_positive_output(amount, input, output, s2);
        lemma_kept_share_order(s1, s2);
        law_times_monotone(k2, k1, paid);
        law_times_monotone(k2.times(paid), k1.times(paid), output);
        law_over_monotone(k2.times(paid).times(output), k1.times(paid).times(output), total);
        law_as_u64_monotone(
            k2.times(paid).times(output).over(total),
            k1.times(paid).times(output).over(total),
        );
    }
}

/// A slippage of one hundred percent accepts any output.
pub proof fn law_full_slippage_accepts_anything(amount: u64, input: Real, output: Real)
    requires
        !output.less(zero()),
    ensures
        least_output(amount, input, output, real_of_int(1)) matches Some(m) ==> m == 0,
{
    if least_output(amount, input, output, real_of_int(1)) matches Some(m) && m > 0 {
        let one = real_of_int(1);
        lemma_positive_output(amount, input, output, one);
        law_integers_exact(1);
        lemma_fee_share();
        assert(one.minus(one) == zero());
        lemma_positive_product(real_of_ratio(997, 1000), zero());
    }
}

/// A rounded magnitude exceeds the exact one by at most one part in `2^53`, and
/// half a unit.
proof fn lemma_rounding_excess(n: nat, d: nat)
    requires
        d > 0,
    ensures
        0x40_0000_0000_0000 * (round_ratio(n, d) * d) <= 0x40_0000_0000_0002 * n
            + 0x20_0000_0000_0000 * d,
{
    lemma_round_ratio_shape(n, d);
    lemma_pow2_53();
    let q = n / d;
    let k = quantum(q);
    lemma_quantum_bounds(q);
    lemma_pow2_pos(k);
    let p = pow2(k) as int;
    let e = d * pow2(k);
    vstd::arithmetic::mul::lemma_mul_strictly_positive(d as int, p);
    lemma_fundamental_div_mod(n as int, e as int);
    lemma_mod_bound(n as int, e as int);
    let m = nearest_even(n, e) as int;
    let (w, r) = ((n / e) as int, (n % e) as int);
    let f = d as int;
    let g = e as int;
    // Rounding moves by at most half a step.
    assert(2 * (m * g) <= 2 * n + g) by {
        if m == w {
            assert(m * g == g * w) by (nonlinear_arith)
                requires
                    m == w,
            ;
        } else {
            assert(m * g == g * w + g) by (nonlinear_arith)
                requires
                    m == w + 1,
            ;
        }
    }
    assert(m * g == (m * p) * f) by (nonlinear_arith)
        requires
            g == f * p,
    ;
    assert(round_ratio(n, d) * d == m * g);
    if k == 0 {
        lemma2_to64();
        assert(g == f) by (nonlinear_arith)
            requires
                g == f * p,
                p == 1,
        ;
    } else {
        // The step is at most `n / 2^52` here.
        lemma_pow2_adds(52, k);
        lemma_quotient_order(n, d, pow2(52 + k));
        let h = pow2(52) as int;
        assert((h * p) * f == h * g) by (nonlinear_arith)
            requires
                g == f * p,
        ;
    }
}

/// Whether binary64 can hold a number.
pub open spec fn representable(x: Real) -> bool {
    x matches Real::Finite { units, .. } ==> is_magnitude(units) && !overflows(units)
}

/// A number that is read from text is one that binary64 can hold.
pub proof fn law_read_numbers_representable(text: Seq<char>)
    ensures
        real_of_text(text) matches Some(x) ==> representable(x),
{
    let body = unsigned_part(text);
    let m = mantissa(body);
    let digits = digits_value(whole_digits(m) + fraction_digits(m));
    let e = exponent(body)->0 - fraction_digits(m).len();
    if e >= 0 {
        law_rounding_representable(digits * ten_to(e as nat) * one_unit(), 1);
    } else {
        lemma_ten_to_order(0, (-e) as nat);
        law_rounding_representable(digits * one_unit(), ten_to((-e) as nat));
    }
}

/// Every bit pattern stands for a number that binary64 can hold.
pub proof fn law_bits_representable(x: Binary64)
    ensures
        representable(x@),
{
    let mag = (x.bits % 0x8000_0000_0000_0000) as nat;
    if x@ is Finite {
        lemma_pow2_53();
        lemma2_to64();
        let h = HIDDEN_BIT as nat;
        if mag < h {
            assert(mag * pow2(0) == mag) by (nonlinear_arith)
                requires
                    pow2(0) == 1,
            ;
            assert(has_form(mag, mag, 0));
            lemma_pow2_strictly_increases(52, 2098);
        } else {
            let k = (mag / h - 1) as nat;
            let m = h + mag % h;
            assert(has_form(magnitude_units(mag), m, k));
            assert(k <= 2045);
            lemma_pow2_adds(53, k);
            if k < 2045 {
                lemma_pow2_strictly_increases(53 + k, 2098);
            }
            lemma_pow2_pos(k);
            let p = pow2(k) as int;
            assert(m * p < 0x20_0000_0000_0000 * p) by (nonlinear_arith)
                requires
                    m < 0x20_0000_0000_0000,
                    p > 0,
            ;
        }
    }
}

/// The arithmetic of the bound: the three roundings together add less than the
/// pool fee takes away.
proof fn lemma_fee_outweighs_rounding(
    u: int,
    kept: int,
    paid: int,
    x: int,
    out: int,
    z: int,
    total: int,
    y: int,
)
    requires
        u >= 0x1_0000_0000_0000_0000,
        paid >= u,
        total >= paid,
        y >= u,
        0 <= kept,
        1024 * kept <= 1023 * u,
        0 <= out,
        0 <= x,
        0 <= z,
        0x40_0000_0000_0000 * (x * u) <= 0x40_0000_0000_0002 * (kept * paid)
            + 0x20_0000_0000_0000 * u,
        0x40_0000_0000_0000 * (z * u) <= 0x40_0000_0000_0002 * (x * out)
            + 0x20_0000_0000_0000 * u,
        0x40_0000_0000_0000 * (y * total) <= 0x40_0000_0000_0002 * (z * u)
            + 0x20_0000_0000_0000 * total,
    ensures
        z * u <= out * total,
{
    // The amount put in, less the fee.
    assert(1024 * (kept * paid) <= 1023 * (u * paid)) by (nonlinear_arith)
        requires
            1024 * kept <= 1023 * u,
            paid >= 0,
    ;
    assert(0x1_0000_0000_0000_0000 * x <= 0xffc0_0000_0000_07fe * paid + 0x8000_0000_0000_0000)
        by (nonlinear_arith)
        requires
            0x1_0000_0000_0000_0000 * (x * u) <= 0xffc0_0000_0000_07fe * (u * paid) + 0x8000_0000_0000_0000 * u,
            u > 0,
    ;
    assert(2048 * x <= 2047 * paid);
    // The product is far above the smallest numbers.
    assert(y * total >= u * total) by (nonlinear_arith)
        requires
            y >= u,
            total >= 0,
    ;
    assert(total <= u * total) by (nonlinear_arith)
        requires
            u >= 1,
            total >= 0,
    ;
    assert(0x20_0000_0000_0000 * (u * total) <= 0x40_0000_0000_0002 * (z * u));
    assert(0x20_0000_0000_0000 * total <= 0x40_0000_0000_0002 * z) by (nonlinear_arith)
        requires
            0x20_0000_0000_0000 * (u * total) <= 0x40_0000_0000_0002 * (z * u),
            u > 0,
    ;
    assert(z >= 0x10_0000);
    assert(2048 * (x * out) <= 2047 * (paid * out)) by (nonlinear_arith)
        requires
            2048 * x <= 2047 * paid,
            out >= 0,
    ;
    if z * u > paid * out {
        assert(0x3f_ffff_ffff_f002 * (z * u) <= 0x1_0000_0000_0000_0000 * u);
        assert(0x3f_ffff_ffff_f002 * z <= 0x1_0000_0000_0000_0000) by (nonlinear_arith)
            requires
                0x3f_ffff_ffff_f002 * (z * u) <= 0x1_0000_0000_0000_0000 * u,
                u > 0,
        ;
        assert(false);
    }
    assert(paid * out <= out * total) by (nonlinear_arith)
        requires
            paid <= total,
            out >= 0,
    ;
}

/// The least output for an amount put into one reserve never exceeds the other
/// reserve.
#[verifier::rlimit(50)]
pub proof fn law_output_within_reserve(amount: u64, input: Real, output: Real, slippage: Real)
    requires
        representable(output),
        !input.less(zero()),
        !output.less(zero()),
        !slippage.less(zero()),
    ensures
        least_output(amount, input, output, slippage) matches Some(m) ==> m <= output.as_u64(),
{
    if least_output(amount, input, output, slippage) matches Some(m) && m > 0
        && output is Finite {
        let u = one_unit();
        let paid = real_of_int(amount as int);
        let total = input.plus(paid);
        let fee = real_of_ratio(997, 1000);
        let kept = kept_share(slippage);
        let x = kept.times(paid);
        let z = x.times(output);
        let y = z.over(total);
        lemma_amount(amount);
        lemma_positive_output(amount, input, output, slippage);
        lemma_pow2_pos(1074);
        lemma_pow2_strictly_increases(64, 1074);
        lemma2_to64();
        let (pu, ou, tu) = (paid->units, output->units, total->units);
        // The kept share is at most that of the pool fee.
        assert(kept.at_most(fee)) by {
            assert(slippage !is Nan) by {
                if slippage is Nan {
                    assert(kept is Nan);
                }
            }
            lemma_kept_share_order(zero(), slippage);
            law_integers_exact(1);
            lemma_fee_share();
            let one = real_of_int(1);
            assert(1 * u == u);
            lemma_pow2_magnitude(1074);
            law_rounding_exact(u, 1);
            assert(u * 1 == u);
            assert(one.minus(zero()) == one);
            law_rounding_exact(fee->units, u);
            assert(fee.times(one) == fee);
        }
        lemma_fee_share();
        let ku = kept->units;
        // The total is at least what is paid.
        assert(tu >= pu) by {
            assert(input is Finite);
            let sum = (input->units + pu) as nat;
            assert(input.signed() >= 0);
            assert(total == rounded(false, sum, 1) || sum == 0);
            law_integers_exact(1);
            law_rounding_representable(amount as nat * u, 1);
            assert(pu * 1 <= sum * 1);
            law_rounding_monotone(pu, 1, sum, 1);
            law_rounding_exact(pu, 1);
            assert(pu * 1 == pu);
        }
        // The product with what is paid is finite.
        let xn = ku * pu;
        assert(xn * 1 <= pu * u) by (nonlinear_arith)
            requires
                xn == ku * pu,
                1024 * ku <= 1023 * u,
        ;
        law_rounding_representable(amount as nat * u, 1);
        law_rounding_monotone(xn, u, pu, 1);
        law_rounding_exact(pu, 1);
        assert(pu * 1 == pu);
        lemma_pow2_strictly_increases(1138, 2098);
        assert(x is Finite);
        let xu = x->units;
        let zn = xu * ou;
        if overflows(round_ratio(zn, u)) {
            // Then the pool holds more than any amount.
            lemma_large_pool(zn, u, xu, ou);
            assert(output.as_u64() == u64::MAX);
        } else {
            let zu = z->units;
            let yn = zu * u;
            lemma_rounding_excess(xn, u);
            lemma_rounding_excess(zn, u);
            lemma_rounding_excess(yn, tu);
            let yu = round_ratio(yn, tu);
            assert(yu >= u) by {
                if yu < u {
                    lemma_pow2_strictly_increases(1074, 2098);
                    vstd::arithmetic::div_mod::lemma_basic_div(yu as int, u as int);
                }
            }
            lemma_fee_outweighs_rounding(
                u as int,
                ku as int,
                pu as int,
                xu as int,
                ou as int,
                zu as int,
                tu as int,
                yu as int,
            );
            law_rounding_monotone(yn, tu, ou, 1);
            law_rounding_exact(ou, 1);
            assert(ou * 1 == ou);
            assert(y.at_most(output));
            law_as_u64_monotone(y, output);
        }
    }
}

/// The bot's prepared purchase never demands more than the pool holds of what
/// it buys.
pub proof fn law_purchase_within_pool(s: SessionView, trader: Trader, swap: PoolSwap)
    requires
        !s.is_bought,
        swap_outcome(s, trader, swap).0 is Prepared,
        !holdings(swap).0.less(zero()),
        !holdings(swap).1.less(zero()),
        !trader.settings.entry_slippage@.less(zero()),
    ensures
        ({
            let plan = swap_outcome(s, trader, swap).1.plan;
            plan is Some && plan->0.minimum_amount_out <= own_sides(
                false,
                trader,
                swap,
            ).1.as_u64()
        }),
{
    law_purchase_as_configured(s, trader, swap);
    law_read_numbers_representable(swap.coin->0.amount@);
    law_read_numbers_representable(swap.pc->0.amount@);
    let (input, output) = own_sides(false, trader, swap);
    law_output_within_reserve(
        trader.settings.buy_sol_amount,
        input,
        output,
        trader.settings.entry_slippage@,
    );
}

/// The bot's prepared sale never demands more than the pool holds of what it is
/// paid in.
pub proof fn law_sale_within_pool(
    s: SessionView,
    trader: Trader,
    swap: PoolSwap,
    pending: PendingView,
    reply: Seq<char>,
)
    requires
        swap_outcome(s, trader, swap).0 == StepView::NeedsBalance(pending),
        resumed(s, trader, pending, Some(reply)).0 is Prepared,
        !holdings(swap).0.less(zero()),
        !holdings(swap).1.less(zero()),
        trader.settings.exit_slippage matches Some(v) ==> !v@.less(zero()),
    ensures
        ({
            let plan = resumed(s, trader, pending, Some(reply)).1.plan;
            plan is Some && plan->0.minimum_amount_out <= own_sides(
                true,
                trader,
                swap,
            ).1.as_u64()
        }),
{
    law_sale_sells_the_balance(s, trader, swap, reply);
    law_read_numbers_representable(swap.coin->0.amount@);
    law_read_numbers_representable(swap.pc->0.amount@);
    let (input, output) = own_sides(true, trader, swap);
    law_output_within_reserve(
        u64_of_text(reply)->0,
        input,
        output,
        trader.settings.exit_slippage->0@,
    );
}

/// A product beyond the finite numbers comes from a pool beyond any amount.
proof fn lemma_large_pool(zn: nat, u: nat, x: nat, out: nat)
    requires
        u == one_unit(),
        zn == x * out,
        x <= pow2(1138),
        overflows(round_ratio(zn, u)),
    ensures
        out / u > u64::MAX,
{
    lemma_pow2_pos(1074);
    lemma_pow2_magnitude(2097);
    lemma_pow2_strictly_increases(2097, 2098);
    let top = pow2(2097);
    if zn < top * u {
        assert(zn * 1 <= top * u);
        law_rounding_monotone(zn, u, top, 1);
        law_rounding_exact(top, 1);
        assert(top * 1 == top);
        assert(false);
    }
    lemma_pow2_adds(1138, 959);
    let (a, b) = (pow2(1138) as int, pow2(959) as int);
    lemma_pow2_pos(1138);
    lemma_pow2_pos(959);
    assert(out >= b * u) by (nonlinear_arith)
        requires
            x * out >= (a * b) * u,
            0 <= x <= a,
            a > 0,
            out >= 0,
            b > 0,
            u > 0,
    ;
    lemma_pow2_strictly_increases(64, 959);
    lemma2_to64();
    lemma_quotient_order(out, u, b as nat);
}

/// A quotient of positive numbers is a number that is not negative, if it is a
/// number.
proof fn lemma_quotient_sign(a: Real, b: Real)
    requires
        a.positive(),
        b.positive(),
        a.over(b) !is Nan,
    ensures
        a.over(b).positive() || a.over(b) == zero(),
{
}

/// More SOL against the same tokens is no lower price, where both are numbers.
pub proof fn law_price_grows_with_sol(
    sol1: Real,
    sol2: Real,
    token: Real,
    sol_scale: Real,
    token_scale: Real,
)
    requires
        sol1.at_most(sol2),
        sol_scale.positive(),
        token_scale.positive(),
        price_of(sol1, token, sol_scale, token_scale) !is Nan,
        price_of(sol2, token, sol_scale, token_scale) !is Nan,
    ensures
        price_of(sol1, token, sol_scale, token_scale).at_most(
            price_of(sol2, token, sol_scale, token_scale),
        ),
{
    if token.positive() {
        law_over_monotone(sol1, sol2, sol_scale);
        lemma_quotient_sign(token, token_scale);
        law_over_monotone(sol1.over(sol_scale), sol2.over(sol_scale), token.over(token_scale));
    }
}

/// More tokens against the same SOL is no higher price, where both are numbers.
pub proof fn law_price_falls_with_tokens(
    sol: Real,
    token1: Real,
    token2: Real,
    sol_scale: Real,
    token_scale: Real,
)
    requires
        token1.at_most(token2),
        token1.positive(),
        zero().at_most(sol),
        sol_scale.positive(),
        token_scale.positive(),
        price_of(sol, token1, sol_scale, token_scale) !is Nan,
        price_of(sol, token2, sol_scale, token_scale) !is Nan,
    ensures
        price_of(sol, token2, sol_scale, token_scale).at_most(
            price_of(sol, token1, sol_scale, token_scale),
        ),
{
    let (a, c1, c2) = (
        sol.over(sol_scale),
        token1.over(token_scale),
        token2.over(token_scale),
    );
    lemma_pow2_pos(1074);
    assert(0 * one_unit() == 0);
    law_over_monotone(token1, token2, token_scale);
    assert(zero().over(sol_scale) !is Nan);
    law_over_monotone(zero(), sol, sol_scale);
    assert(zero().over(sol_scale) == zero()) by {
        if sol_scale is Finite {
            lemma_small_ratio(0, sol_scale->units);
            lemma_pow2_pos(2098);
        }
    }
    lemma_quotient_sign(token1, token_scale);
    lemma_quotient_sign(token2, token_scale);
    if a is Finite && c1 is Finite && c2 is Finite && c1.positive() {
        let n = a->units * one_unit();
        let (d1, d2) = (c1->units, c2->units);
        assert(n * d1 <= n * d2) by (nonlinear_arith)
            requires
                d1 <= d2,
                n >= 0,
        ;
        if a->Finite_negative {
            assert(a->units == 0);
            assert(n * d1 == 0 && n * d2 == 0) by (nonlinear_arith)
                requires
                    n == 0,
            ;
        }
        lemma_rounded_order(a->Finite_negative, n, d2, a->Finite_negative, n, d1);
    } else if a is Finite && a->units == 0 && c1 is Finite && c1.positive() {
        lemma_small_ratio(0, c1->units);
        lemma_pow2_pos(2098);
    }
}

} // verus!
