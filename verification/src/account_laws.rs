//! What a run accounts for: confirmed transactions, their results, and what is
//! sent and stored.

use crate::address::{first_place, lemma_first_place, token_account, Address};
use crate::binary64::{one_unit, real_of_int, Real};
use crate::laws::law_integers_exact;
use crate::order::{law_rounding_exact, law_rounding_monotone};
use crate::process::{concluded, StepView, Trader};
use crate::quote_laws::lemma_pow2_magnitude;
use crate::rounding::{lemma_small_ratio, round_ratio};
use crate::session::{
    after_receipt, after_send, is_own, low_millis, service_of, sol_of, submission_of, trade_of,
    OrderView, ReadyClients, Receipt, SendOutcome, Service, SessionView, SubmissionView,
};
use crate::settings::SettingsView;
use vstd::arithmetic::power2::{
    lemma2_to64, lemma_pow2_adds, lemma_pow2_pos, lemma_pow2_strictly_increases, pow2,
};
use vstd::prelude::*;

verus! {

/// A transaction is the bot's own exactly where it has the signature of the last
/// one sent and touches the watched account.
pub proof fn law_own_transactions(s: SessionView, account: Address, receipt: Receipt)
    ensures
        is_own(s, account, receipt) <==> s.signature == Some(receipt.signature@) && (exists|i: int|
            0 <= i < receipt.keys@.len() && #[trigger] receipt.keys@[i] == account),
{
    let keys = receipt.keys@;
    lemma_places(keys, account);
}

/// An address has a first place in a list exactly where the list holds it.
proof fn lemma_places(keys: Seq<Address>, key: Address)
    ensures
        first_place(keys, key) is Some <==> (exists|i: int|
            0 <= i < keys.len() && #[trigger] keys[i] == key),
    decreases keys.len(),
{
    if keys.len() > 0 && keys[0] != key {
        let rest = keys.subrange(1, keys.len() as int);
        lemma_places(rest, key);
        if first_place(rest, key) is Some {
            let i = choose|i: int| 0 <= i < rest.len() && #[trigger] rest[i] == key;
            assert(keys[i + 1] == key);
        }
        if exists|i: int| 0 <= i < keys.len() && #[trigger] keys[i] == key {
            let i = choose|i: int| 0 <= i < keys.len() && #[trigger] keys[i] == key;
            assert(rest[i - 1] == key);
        }
    } else if keys.len() > 0 {
        assert(keys[0] == key);
    }
}

/// A confirmed purchase makes a position. What it took is the change of the
/// balance at the first place of the watched account, where a missing balance
/// counts as zero. Its fee is added to the fees. Nothing else changes.
pub proof fn law_purchase_receipt(
    s: SessionView,
    account: Address,
    receipt: Receipt,
    runtime_ms: Option<u128>,
    i: int,
)
    requires
        !s.is_bought,
        s.signature == Some(receipt.signature@),
        0 <= i < receipt.keys@.len(),
        receipt.keys@[i] == account,
        forall|j: int| 0 <= j < i ==> receipt.keys@[j] != account,
    ensures
        ({
            let t = after_receipt(s, account, receipt, runtime_ms);
            let pre = if i < receipt.pre_balances@.len() {
                receipt.pre_balances@[i]
            } else {
                0
            };
            let post = if i < receipt.post_balances@.len() {
                receipt.post_balances@[i]
            } else {
                0
            };
            &&& t.is_bought
            &&& t.last_input_lamports is Some && t.last_input_lamports->0 == pre - post
            &&& t.fees == s.fees.plus(real_of_int(receipt.fee as int))
            &&& t == SessionView {
                is_bought: true,
                last_input_lamports: t.last_input_lamports,
                fees: t.fees,
                ..s
            }
        }),
{
    lemma_first_place(receipt.keys@, account, i);
}

/// A confirmed sale ends the position. What it brought is the change of the
/// balance, the profit is that less what the purchase took, in SOL, and the
/// return is the profit in percent of the SOL that the purchase took, whatever
/// its sign; zero where the purchase took none. Its fee is added to the fees, and
/// the run time is noted where it is known. Nothing else changes.
pub proof fn law_sale_receipt(
    s: SessionView,
    account: Address,
    receipt: Receipt,
    runtime_ms: Option<u128>,
    i: int,
)
    requires
        s.valid(),
        s.is_bought,
        s.signature == Some(receipt.signature@),
        0 <= i < receipt.keys@.len(),
        receipt.keys@[i] == account,
        forall|j: int| 0 <= j < i ==> receipt.keys@[j] != account,
    ensures
        ({
            let t = after_receipt(s, account, receipt, runtime_ms);
            let pre = if i < receipt.pre_balances@.len() {
                receipt.pre_balances@[i]
            } else {
                0
            };
            let post = if i < receipt.post_balances@.len() {
                receipt.post_balances@[i]
            } else {
                0
            };
            let spent = if s.last_input_lamports is Some {
                s.last_input_lamports->0 as int
            } else {
                0
            };
            let profit = real_of_int(post - pre - spent).over(real_of_int(1_000_000_000));
            let put_in = real_of_int(spent).over(real_of_int(1_000_000_000));
            &&& !t.is_bought
            &&& t.last_output_lamports is Some && t.last_output_lamports->0 == post - pre
            &&& t.last_profit_sol == Some(profit)
            &&& t.last_roi_pct == Some(
                if spent > 0 {
                    profit.over(put_in).times(real_of_int(100))
                } else {
                    Real::Finite { negative: false, units: 0 }
                },
            )
            &&& t.fees == s.fees.plus(real_of_int(receipt.fee as int))
            &&& t.last_runtime_ms == if runtime_ms is Some {
                runtime_ms
            } else {
                s.last_runtime_ms
            }
            &&& t == SessionView {
                is_bought: false,
                last_output_lamports: t.last_output_lamports,
                last_profit_sol: t.last_profit_sol,
                last_roi_pct: t.last_roi_pct,
                fees: t.fees,
                last_runtime_ms: t.last_runtime_ms,
                ..s
            }
        }),
{
    lemma_first_place(receipt.keys@, account, i);
    if s.last_input_lamports is Some {
        law_sol_sign(s.last_input_lamports->0 as int);
    } else {
        law_sol_sign(0);
    }
}

/// The sign of a confirmed sale's profit is that of what it brought less what
/// the purchase took, and the return on a purchase that took something has the
/// same sign: a loss is a negative return.
pub proof fn law_return_follows_profit(
    s: SessionView,
    account: Address,
    receipt: Receipt,
    runtime_ms: Option<u128>,
    i: int,
)
    requires
        s.valid(),
        s.is_bought,
        s.last_input_lamports is Some,
        s.last_input_lamports->0 > 0,
        s.signature == Some(receipt.signature@),
        0 <= i < receipt.keys@.len(),
        receipt.keys@[i] == account,
        forall|j: int| 0 <= j < i ==> receipt.keys@[j] != account,
        i < receipt.pre_balances@.len(),
        i < receipt.post_balances@.len(),
    ensures
        ({
            let t = after_receipt(s, account, receipt, runtime_ms);
            let gain = receipt.post_balances@[i] - receipt.pre_balances@[i]
                - s.last_input_lamports->0;
            let none = Real::Finite { negative: false, units: 0 };
            &&& t.last_profit_sol is Some && t.last_roi_pct is Some
            &&& gain > 0 <==> none.less(t.last_profit_sol->0)
            &&& gain < 0 <==> t.last_profit_sol->0.less(none)
            &&& gain > 0 <==> none.less(t.last_roi_pct->0)
            &&& gain < 0 <==> t.last_roi_pct->0.less(none)
        }),
{
    law_sale_receipt(s, account, receipt, runtime_ms, i);
    let gain = receipt.post_balances@[i] - receipt.pre_balances@[i] - s.last_input_lamports->0;
    law_sol_sign(gain);
    law_return_sign(gain, s.last_input_lamports->0 as int);
}

/// A transaction that does not touch the watched account changes nothing.
pub proof fn law_untouched_account(
    s: SessionView,
    account: Address,
    receipt: Receipt,
    runtime_ms: Option<u128>,
)
    requires
        forall|j: int| 0 <= j < receipt.keys@.len() ==> receipt.keys@[j] != account,
    ensures
        after_receipt(s, account, receipt, runtime_ms) == s,
{
    lemma_first_place(receipt.keys@, account, receipt.keys@.len() as int);
}

/// The lamports of any change of balances, less any other, as SOL.
proof fn lemma_sol_units(n: int)
    requires
        1 <= n <= 0x4_0000_0000_0000_0000,
    ensures
        sol_of(n) == (Real::Finite { negative: false, units: sol_of(n)->units }),
        sol_of(-n) == (Real::Finite { negative: true, units: sol_of(n)->units }),
        pow2(1044) <= sol_of(n)->units <= pow2(1140),
{
    lemma2_to64();
    let u = one_unit();
    lemma_pow2_pos(1074);
    lemma_pow2_magnitude(1044);
    lemma_pow2_magnitude(1074);
    lemma_pow2_magnitude(1140);
    lemma_pow2_adds(2, 64);
    lemma_pow2_adds(66, 1074);
    lemma_pow2_adds(1044, 30);
    let x = n as nat * u;
    assert(u <= x <= pow2(1140)) by (nonlinear_arith)
        requires
            x == n as nat * u,
            1 <= n <= 0x4_0000_0000_0000_0000,
            pow2(1140) == 0x4_0000_0000_0000_0000 * u,
            u > 0,
    ;
    assert(x * 1 == x && u * 1 == u && pow2(1140) * 1 == pow2(1140) && pow2(1044) * 1 == pow2(1044));
    law_rounding_monotone(u, 1, x, 1);
    law_rounding_monotone(x, 1, pow2(1140), 1);
    law_rounding_exact(u, 1);
    law_rounding_exact(pow2(1140), 1);
    let a = round_ratio(x, 1);
    lemma_pow2_strictly_increases(1140, 2098);
    law_integers_exact(1_000_000_000);
    let g = 1_000_000_000 * u;
    assert(g > 0);
    let num = a * u;
    assert(pow2(1044) * g <= num * 1) by (nonlinear_arith)
        requires
            num == a * u,
            a >= u,
            u == pow2(1044) * 0x4000_0000,
            g == 1_000_000_000 * u,
            pow2(1044) >= 0,
    ;
    law_rounding_monotone(pow2(1044), 1, num, g);
    law_rounding_exact(pow2(1044), 1);
    assert(num * 1 <= pow2(1140) * g) by (nonlinear_arith)
        requires
            num == a * u,
            a <= pow2(1140),
            g == 1_000_000_000 * u,
            u > 0,
    ;
    law_rounding_monotone(num, g, pow2(1140), 1);
}

/// Lamports have the sign of their SOL.
pub proof fn law_sol_sign(n: int)
    requires
        -0x4_0000_0000_0000_0000 <= n <= 0x4_0000_0000_0000_0000,
    ensures
        n > 0 <==> sol_of(n).positive(),
        n < 0 <==> sol_of(n).less(Real::Finite { negative: false, units: 0 }),
        sol_of(n) == real_of_int(n).over(real_of_int(1_000_000_000)),
        sol_of(n) is Finite,
{
    lemma_pow2_pos(1044);
    if n > 0 {
        lemma_sol_units(n);
    } else if n < 0 {
        lemma_sol_units(-n);
    } else {
        law_integers_exact(0);
        law_integers_exact(1_000_000_000);
        lemma_pow2_pos(1074);
        lemma_pow2_pos(2098);
        assert(0 * one_unit() == 0);
        lemma_small_ratio(0, 1_000_000_000 * one_unit());
    }
}

/// A return in percent has the sign of the gain.
pub proof fn law_return_sign(gain: int, spent: int)
    requires
        -0x4_0000_0000_0000_0000 <= gain <= 0x4_0000_0000_0000_0000,
        1 <= spent <= 0x4_0000_0000_0000_0000,
    ensures
        gain > 0 <==> sol_of(gain).over(sol_of(spent)).times(real_of_int(100)).positive(),
        gain < 0 <==> sol_of(gain).over(sol_of(spent)).times(real_of_int(100)).less(
            Real::Finite { negative: false, units: 0 },
        ),
{
    lemma_sol_units(spent);
    law_integers_exact(100);
    let u = one_unit();
    lemma_pow2_pos(1044);
    lemma_pow2_pos(1074);
    lemma_pow2_pos(2098);
    let b = sol_of(spent)->units;
    let h = 100 * u;
    if gain == 0 {
        law_sol_sign(0);
        assert(sol_of(0)->units == 0);
        assert(0 * u == 0 && 0 * h == 0);
        lemma_small_ratio(0, b);
        lemma_small_ratio(0, u);
    } else {
        let k = if gain > 0 {
            gain
        } else {
            -gain
        };
        lemma_sol_units(k);
        let a = sol_of(k)->units;
        lemma_pow2_magnitude(978);
        lemma_pow2_magnitude(1170);
        lemma_pow2_adds(1044, 1074);
        lemma_pow2_adds(978, 1140);
        lemma_pow2_adds(1140, 1074);
        lemma_pow2_adds(1170, 1044);
        lemma_pow2_pos(978);
        lemma_pow2_pos(1170);
        lemma_pow2_pos(1140);
        let num = a * u;
        assert(pow2(978) * b <= num * 1) by (nonlinear_arith)
            requires
                num == a * u,
                a >= pow2(1044),
                b <= pow2(1140),
                pow2(978) * pow2(1140) == pow2(1044) * u,
                u > 0,
                pow2(978) > 0,
        ;
        assert(num * 1 <= pow2(1170) * b) by (nonlinear_arith)
            requires
                num == a * u,
                a <= pow2(1140),
                b >= pow2(1044),
                pow2(1170) * pow2(1044) == pow2(1140) * u,
                u > 0,
                pow2(1170) > 0,
        ;
        law_rounding_monotone(pow2(978), 1, num, b);
        law_rounding_monotone(num, b, pow2(1170), 1);
        assert(pow2(978) * 1 == pow2(978) && pow2(1170) * 1 == pow2(1170));
        law_rounding_exact(pow2(978), 1);
        law_rounding_exact(pow2(1170), 1);
        let v = round_ratio(num, b);
        lemma_pow2_strictly_increases(1170, 2098);
        let w = v * h;
        assert(pow2(978) * u <= w * 1) by (nonlinear_arith)
            requires
                w == v * h,
                v >= pow2(978),
                h == 100 * u,
                u > 0,
                pow2(978) > 0,
        ;
        law_rounding_monotone(pow2(978), 1, w, u);
    }
}

/// The end of a transaction: where the handling of its swap did not go on,
/// nothing is confirmed; else it is looked at by the wallet's wrapped SOL
/// account, if that can be derived.
pub proof fn law_conclusion(
    s: SessionView,
    trader: Trader,
    step: StepView,
    receipt: Receipt,
    runtime_ms: Option<u128>,
)
    ensures
        !(step is Ignored || step is Prepared) ==> concluded(s, trader, step, receipt, runtime_ms)
            == (Some(false), s),
        step is Ignored || step is Prepared ==> match token_account(trader.wallet, trader.wsol) {
            None => concluded(s, trader, step, receipt, runtime_ms) == (None::<bool>, s),
            Some(account) => concluded(s, trader, step, receipt, runtime_ms) == (
                Some(is_own(s, account, receipt)),
                after_receipt(s, account, receipt, runtime_ms),
            ),
        },
{
}

/// A transaction that a service took leaves the signature of the answer, empty
/// where the answer has none; one that was not taken leaves everything.
pub proof fn law_send_rule(s: SessionView, outcome: SendOutcome)
    ensures
        outcome is Failed ==> after_send(s, outcome) == s,
        outcome matches SendOutcome::Sent(Some(text)) ==> after_send(s, outcome) == (SessionView {
            signature: Some(text@),
            ..s
        }),
        outcome matches SendOutcome::Sent(None) ==> after_send(s, outcome) == (SessionView {
            signature: Some(Seq::empty()),
            ..s
        }),
{
}

/// Each service by its names, and no other name.
pub proof fn law_service_names(name: Seq<char>)
    ensures
        service_of(name) == Some(Service::Nozomi) <==> name == "NOZOMI"@,
        service_of(name) == Some(Service::ZeroSlot) <==> name == "ZSLOT"@ || name == "ZERO_SLOT"@,
        service_of(name) == Some(Service::Jito) <==> name == "JITO"@,
        service_of(name) is None <==> name != "NOZOMI"@ && name != "ZSLOT"@ && name
            != "ZERO_SLOT"@ && name != "JITO"@,
{
    reveal_strlit("NOZOMI");
    reveal_strlit("ZSLOT");
    reveal_strlit("ZERO_SLOT");
    reveal_strlit("JITO");
    assert("NOZOMI"@[0] != "ZSLOT"@[0]);
    assert("NOZOMI"@[0] != "ZERO_SLOT"@[0]);
    assert("NOZOMI"@[0] != "JITO"@[0]);
    assert("JITO"@[0] != "ZSLOT"@[0]);
    assert("JITO"@[0] != "ZERO_SLOT"@[0]);
}

/// A submission needs a plan, then a service, then its client. What is sent is
/// the plan, paid by the wallet, with the configured fees, whatever else the
/// state holds.
pub proof fn law_submission_rule(
    s: SessionView,
    settings: SettingsView,
    wallet: Address,
    clients: ReadyClients,
)
    ensures
        ({
            let r = submission_of(s, settings, wallet, clients);
            let service = service_of(settings.confirm_service);
            let ready = (service == Some(Service::Nozomi) && clients.nozomi) || (service == Some(
                Service::ZeroSlot,
            ) && clients.zero_slot) || (service == Some(Service::Jito) && clients.jito);
            &&& r is NothingPrepared <==> s.plan is None
            &&& r is UnknownService <==> s.plan is Some && service is None
            &&& r is ClientNotReady <==> s.plan is Some && service is Some && !ready
            &&& r is Send <==> s.plan is Some && ready
            &&& r matches SubmissionView::ClientNotReady(named) ==> service == Some(named)
            &&& r matches SubmissionView::Send(named, order) ==> service == Some(named) && order
                == (OrderView {
                payer: wallet,
                plan: s.plan->0,
                cu: settings.cu,
                priority_fee_micro_lamport: settings.priority_fee_micro_lamport,
                tip_addr_idx: 1,
                tip_sol_amount: settings.third_party_fee,
            })
        }),
{
}

/// The low bits of a duration: the duration itself where it fits, and equal to
/// it modulo `2^64` always.
pub proof fn law_run_time(ms: u128)
    ensures
        ms <= i64::MAX ==> low_millis(ms) == ms,
        i64::MIN <= low_millis(ms) <= i64::MAX,
        (ms - low_millis(ms)) % 0x1_0000_0000_0000_0000 == 0,
{
}

/// A stored trade has the results of the run, zero where there are none, the
/// fees in whole lamports and in SOL, and the run time.
pub proof fn law_stored_trade(s: SessionView, ts: Seq<char>)
    ensures
        ({
            let r = trade_of(s, ts);
            let none = Real::Finite { negative: false, units: 0 };
            &&& r.ts == ts
            &&& s.last_profit_sol matches Some(v) ==> r.profit_sol == v
            &&& s.last_profit_sol is None ==> r.profit_sol == none
            &&& s.last_roi_pct matches Some(v) ==> r.roi_pct == v
            &&& s.last_roi_pct is None ==> r.roi_pct == none
            &&& r.fees_lamports == s.fees.as_i64()
            &&& r.fees_sol == s.fees.over(real_of_int(1_000_000_000))
            &&& s.last_runtime_ms matches Some(ms) ==> (ms - r.program_runtime_ms)
                % 0x1_0000_0000_0000_0000 == 0
            &&& s.last_runtime_ms is None ==> r.program_runtime_ms == 0
        }),
{
    if let Some(ms) = s.last_runtime_ms {
        law_run_time(ms);
    }
}

} // verus!
