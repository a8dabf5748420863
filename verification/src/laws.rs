//! What holds of the bot as a whole.

use crate::address::{first_place, parties_of, token_account, Address, SwapParties};
use crate::binary64::{one_unit, real_of_int, Real};
use crate::decimal::{all_digits, digits_value, is_digit, real_of_text, u64_of_text};
use crate::order::{
    has_form, is_magnitude, law_over_monotone, law_plus_monotone, law_rounding_exact,
    law_times_monotone,
};
use crate::price::{change_percent, least_output};
use crate::process::{
    direction_of, rerouted, reserves_between, resumed, route_of, swap_outcome, Direction,
    PendingView, PoolSwap, Route, StepView, Trader,
};
use crate::rounding::{lemma_pow2_53, lemma_small_ratio, HIDDEN_BIT};
use crate::session::{
    after_receipt, after_send, after_tick, after_turn, balance_at, is_own, left_waiting,
    position_kind, position_percent, roi_of, service_of, sol_of, submission_of, tick_outcome,
    turn_outcome, zero, OrderView, ReadyClients, Receipt, SendOutcome, SessionView, SubmissionView,
    TickKind,
};
use crate::settings::{settings_of, slippage_fraction, RawSettings, SettingError, SettingsView};
use crate::text_laws::law_point_text;
use vstd::arithmetic::power2::{
    lemma2_to64, lemma_pow2_adds, lemma_pow2_pos, lemma_pow2_strictly_increases, lemma_pow2_unfold,
    pow2,
};
use vstd::prelude::*;

verus! {

/// A positive integer of at most 53 bits, shifted up until all 53 are used.
proof fn lemma_int_form(n: nat, j: nat) -> (r: nat)
    requires
        0 < n < 0x20_0000_0000_0000,
        j <= 52,
        n * pow2(j) < 0x20_0000_0000_0000,
    ensures
        j <= r <= 52,
        HIDDEN_BIT <= n * pow2(r) < 0x20_0000_0000_0000,
    decreases 53 - j,
{
    if n * pow2(j) >= HIDDEN_BIT {
        j
    } else {
        lemma_pow2_53();
        lemma_pow2_unfold((j + 1) as nat);
        let p = pow2(j) as int;
        assert(n * (2 * p) == 2 * (n * p)) by (nonlinear_arith);
        if j == 52 {
            assert(n * pow2(52) >= pow2(52)) by (nonlinear_arith)
                requires
                    n >= 1,
                    pow2(52) > 0,
            ;
            assert(false);
        }
        lemma_int_form(n, (j + 1) as nat)
    }
}

/// Integers of at most 53 bits are held exactly.
pub proof fn law_integers_exact(n: nat)
    requires
        n < 0x20_0000_0000_0000,
    ensures
        real_of_int(n as int) == (Real::Finite { negative: false, units: n * one_unit() }),
        is_magnitude(n * one_unit()),
{
    lemma2_to64();
    lemma_pow2_53();
    let c = one_unit() as int;
    lemma_pow2_pos(1074);
    if n == 0 {
        assert(0 * c == 0);
        assert(has_form(0, 0, 0)) by {
            assert(0 * pow2(0) == 0);
        }
    } else {
        assert(n * pow2(0) == n) by (nonlinear_arith)
            requires
                pow2(0) == 1,
        ;
        let j = lemma_int_form(n, 0);
        let k = (1074 - j) as nat;
        lemma_pow2_adds(j, k);
        let (a, b) = (pow2(j) as int, pow2(k) as int);
        assert(n * (a * b) == (n * a) * b) by (nonlinear_arith);
        assert(has_form(n * one_unit(), (n * pow2(j)) as nat, k));
    }
    law_rounding_exact(n * one_unit(), 1);
    assert(n * one_unit() * 1 == n * one_unit());
    lemma_pow2_adds(53, 1074);
    lemma_pow2_strictly_increases(1127, 2098);
    assert(n * c <= pow2(53) * c) by (nonlinear_arith)
        requires
            n <= pow2(53),
            c > 0,
    ;
}

/// One hundred and one, as binary64 numbers, are positive and finite.
proof fn lemma_constants()
    ensures
        real_of_int(100) is Finite,
        real_of_int(100).positive(),
        real_of_int(1) == (Real::Finite { negative: false, units: one_unit() }),
        one_unit() > 0,
{
    law_integers_exact(100);
    law_integers_exact(1);
    lemma_pow2_pos(1074);
    assert(100 * one_unit() > 0);
    assert(1 * one_unit() == one_unit());
}

/// A higher new price is a higher change.
pub proof fn law_change_monotone(old_price: Real, a: Real, b: Real)
    requires
        old_price is Finite,
        old_price.positive(),
        a.at_most(b),
    ensures
        change_percent(old_price, a).at_most(change_percent(old_price, b)),
{
    lemma_constants();
    law_plus_monotone(a, b, old_price.negated());
    law_over_monotone(a.minus(old_price), b.minus(old_price), old_price);
    law_times_monotone(
        a.minus(old_price).over(old_price),
        b.minus(old_price).over(old_price),
        real_of_int(100),
    );
}

/// An unchanged price is a change of zero.
pub proof fn law_no_change(price: Real)
    requires
        price is Finite,
        price.positive(),
    ensures
        change_percent(price, price) == zero(),
{
    lemma_constants();
    lemma_pow2_pos(2098);
    assert(price.minus(price) == zero());
    assert(0 * one_unit() == 0);
    lemma_small_ratio(0, price->units);
    assert(zero().over(price) == zero());
    assert(0 * real_of_int(100)->units == 0);
    lemma_small_ratio(0, one_unit());
}

/// A price that did not drop triggers no purchase.
pub proof fn law_no_purchase_without_a_drop(s: SessionView, settings: SettingsView, now: i64)
    requires
        s.pool_price matches Some(p) ==> s.latest_pool_price matches Some(q) ==> !q.less(p),
        settings.entry_percent.positive(),
    ensures
        tick_outcome(s, settings, now).0 != TickKind::Buy,
{
    let p = s.pool_price->0;
    let q = s.latest_pool_price->0;
    if s.pool_price is Some && s.latest_pool_price is Some && p is Finite && p.positive()
        && q !is Nan {
        law_change_monotone(p, p, q);
        law_no_change(p);
    }
}

/// A drop that triggers a purchase also does when it is deeper.
pub proof fn law_deeper_drop_also_buys(
    s: SessionView,
    settings: SettingsView,
    now: i64,
    lower: Real,
)
    requires
        tick_outcome(s, settings, now).0 == TickKind::Buy,
        lower.at_most(s.latest_pool_price->0),
    ensures
        tick_outcome(SessionView { latest_pool_price: Some(lower), ..s }, settings, now).0
            == TickKind::Buy,
{
    let p = s.pool_price->0;
    if p is Finite {
        law_change_monotone(p, lower, s.latest_pool_price->0);
    }
}

/// A second tick at the same price triggers no purchase.
pub proof fn law_second_tick_buys_nothing(
    s: SessionView,
    settings: SettingsView,
    now: i64,
    later: i64,
)
    requires
        settings.entry_percent.positive(),
    ensures
        tick_outcome(after_tick(s, settings, now), settings, later).0 != TickKind::Buy,
{
    law_no_purchase_without_a_drop(after_tick(s, settings, now), settings, later);
}

/// A tick that submits, and only that, has something carried out from then on.
pub proof fn law_submission_is_noted(s: SessionView, settings: SettingsView, now: i64)
    ensures
        after_tick(s, settings, now).busy <==> s.busy || tick_outcome(
            s,
            settings,
            now,
        ).0.moves_of().submit,
{
}

/// While a purchase or a sale is being carried out, a tick neither submits nor
/// records nor ends the run.
pub proof fn law_no_moves_while_busy(s: SessionView, settings: SettingsView, now: i64)
    requires
        s.busy,
    ensures
        !tick_outcome(s, settings, now).0.moves_of().submit,
        !tick_outcome(s, settings, now).0.moves_of().record,
        !tick_outcome(s, settings, now).0.moves_of().exit,
{
}

/// A tick that has to wait is decided when its turn comes: a drop buys, at the
/// price of the tick, and a position is judged by that price.
pub proof fn law_waiting_tick_gets_its_turn(
    s: SessionView,
    settings: SettingsView,
    now: i64,
    later: i64,
)
    requires
        s.waiting.len() == 0,
        tick_outcome(s, settings, now).0 == TickKind::Waits,
    ensures
        ({
            let queued = after_tick(s, settings, now);
            let done = after_turn(queued, later);
            let price = s.latest_pool_price->0;
            let percent = position_percent(s.bought_price, price);
            &&& !s.is_bought ==> turn_outcome(queued, settings, later) == Some(
                (TickKind::Buy, zero()),
            ) && done.bought_price == Some(price) && done.bought_at == Some(later)
            &&& s.is_bought ==> turn_outcome(queued, settings, later) == Some(
                (position_kind(settings, s.bought_at, percent, later), percent),
            )
            &&& done.busy
            &&& done.waiting == s.waiting
            &&& turn_outcome(done, settings, later) is None
            &&& !after_turn(done, later).busy
        }),
{
    assert(s.waiting.push(left_waiting(s)).drop_first() =~= s.waiting);
}

/// Waiting decisions are taken first come first: a tick that has to wait does
/// not change whose turn it is.
pub proof fn law_turns_in_order(s: SessionView, settings: SettingsView, now: i64, later: i64)
    requires
        s.waiting.len() > 0,
        tick_outcome(s, settings, now).0 == TickKind::Waits,
    ensures
        turn_outcome(after_tick(s, settings, now), settings, later) == turn_outcome(
            s,
            settings,
            later,
        ),
        after_turn(after_tick(s, settings, now), later).waiting == after_turn(s, later).waiting.push(
            left_waiting(s),
        ),
{
    assert(s.waiting.push(left_waiting(s)).drop_first() =~= s.waiting.drop_first().push(
        left_waiting(s),
    ));
}

/// Handing a transaction to a service changes nothing but the signature, and
/// that only where the service took it, so that the next submission is the same
/// as this one.
pub proof fn law_send_writes_only_the_signature(
    s: SessionView,
    outcome: SendOutcome,
    settings: SettingsView,
    wallet: Address,
    clients: ReadyClients,
)
    ensures
        after_send(s, outcome) == (SessionView {
            signature: after_send(s, outcome).signature,
            ..s
        }),
        outcome is Failed ==> after_send(s, outcome) == s,
        outcome is Sent ==> after_send(s, outcome).signature is Some,
        outcome matches SendOutcome::Sent(Some(text)) ==> after_send(s, outcome).signature == Some(
            text@,
        ),
        submission_of(after_send(s, outcome), settings, wallet, clients) == submission_of(
            s,
            settings,
            wallet,
            clients,
        ),
{
}

/// Every service is handed the same order: the prepared swap, paid by the
/// wallet, with the configured fees.
pub proof fn law_same_order_for_every_service(
    s: SessionView,
    settings: SettingsView,
    name: Seq<char>,
    wallet: Address,
    clients: ReadyClients,
)
    requires
        s.plan is Some,
        service_of(name) is Some,
        clients.has(service_of(name)->0),
    ensures
        submission_of(
            s,
            SettingsView { confirm_service: name, ..settings },
            wallet,
            clients,
        ) == SubmissionView::Send(
            service_of(name)->0,
            OrderView {
                payer: wallet,
                plan: s.plan->0,
                cu: settings.cu,
                priority_fee_micro_lamport: settings.priority_fee_micro_lamport,
                tip_addr_idx: 1,
                tip_sol_amount: settings.third_party_fee,
            },
        ),
{
}

/// A profit is taken only above the purchase price, a loss only below it.
pub proof fn law_exits_follow_the_price(
    settings: SettingsView,
    bought_at: Option<i64>,
    bought_price: Real,
    new: Real,
    now: i64,
)
    requires
        settings.take_profit.positive(),
        settings.stop_loss.positive(),
    ensures
        ({
            let percent = position_percent(Some(bought_price), new);
            let kind = position_kind(settings, bought_at, percent, now);
            &&& kind == TickKind::TakeProfit ==> bought_price.less(new)
            &&& kind == TickKind::StopLoss ==> new.less(bought_price)
        }),
{
    let p = bought_price;
    if p.positive() && p is Finite && new !is Nan {
        law_no_change(p);
        if new.at_most(p) {
            law_change_monotone(p, new, p);
        }
        if p.at_most(new) {
            law_change_monotone(p, p, new);
        }
    }
}

/// A price that takes the profit also does when it is higher.
pub proof fn law_higher_price_takes_profit(
    settings: SettingsView,
    bought_at: Option<i64>,
    bought_price: Real,
    new: Real,
    higher: Real,
    now: i64,
)
    requires
        position_kind(
            settings,
            bought_at,
            position_percent(Some(bought_price), new),
            now,
        ) == TickKind::TakeProfit,
        new.at_most(higher),
    ensures
        position_kind(
            settings,
            bought_at,
            position_percent(Some(bought_price), higher),
            now,
        ) == TickKind::TakeProfit,
{
    if bought_price.positive() {
        if bought_price is Finite {
            law_change_monotone(bought_price, new, higher);
        }
    }
}

/// A price that stops the loss also does when it is lower.
pub proof fn law_lower_price_stops_loss(
    settings: SettingsView,
    bought_at: Option<i64>,
    bought_price: Real,
    new: Real,
    lower: Real,
    now: i64,
)
    requires
        position_kind(
            settings,
            bought_at,
            position_percent(Some(bought_price), new),
            now,
        ) == TickKind::StopLoss,
        lower.at_most(new),
    ensures
        position_kind(
            settings,
            bought_at,
            position_percent(Some(bought_price), lower),
            now,
        ) == TickKind::StopLoss,
{
    if bought_price.positive() {
        if bought_price is Finite {
            law_change_monotone(bought_price, lower, new);
        }
    }
}

/// A position within its price band is given up exactly when it was held for
/// longer than the configured number of seconds.
pub proof fn law_auto_exit(
    settings: SettingsView,
    bought_at: i64,
    percent: Real,
    now: i64,
)
    requires
        settings.auto_exit * 1000 <= i64::MAX,
        i64::MIN <= now - bought_at <= i64::MAX,
        !settings.take_profit.at_most(percent),
        !percent.at_most(settings.stop_loss.negated()),
    ensures
        position_kind(settings, Some(bought_at), percent, now) == TickKind::AutoExit
            <==> now - bought_at > settings.auto_exit * 1000,
{
}

/// The sale of a position goes the way of its purchase, back.
pub proof fn law_sale_reverses_purchase(trader: Trader, direction: Direction)
    ensures
        match (route_of(false, trader, direction), route_of(true, trader, direction)) {
            (Some(purchase), Some(sale)) => purchase.source == sale.destination
                && purchase.destination == sale.source,
            (None, None) => true,
            _ => false,
        },
{
}

/// In a pool of wrapped SOL and a token, a purchase pays from the wrapped SOL
/// account into the token account, whichever way the observed swap went.
pub proof fn law_purchase_pays_wrapped_sol(trader: Trader, direction: Direction, token: Address)
    requires
        token != trader.wsol,
        (direction.coin_mint == trader.wsol && direction.pc_mint == token) || (direction.coin_mint
            == token && direction.pc_mint == trader.wsol),
    ensures
        route_of(false, trader, direction) == match (
            token_account(trader.wallet, trader.wsol),
            token_account(trader.wallet, token),
        ) {
            (Some(sol_account), Some(coin_account)) => Some(
                Route { source: sol_account, destination: coin_account },
            ),
            _ => None,
        },
{
}

/// The bot's swap keeps the pool of the observed one and replaces its user.
pub proof fn law_plan_keeps_the_pool(accounts: Seq<Address>, wallet: Address, route: Route)
    requires
        parties_of(accounts) is Some,
    ensures
        rerouted(accounts, wallet, route).len() == accounts.len(),
        forall|i: int|
            0 <= i < accounts.len() - 3 ==> rerouted(accounts, wallet, route)[i] == accounts[i],
        parties_of(rerouted(accounts, wallet, route)) == Some(
            SwapParties {
                source: route.source,
                destination: route.destination,
                owner: wallet,
                ..parties_of(accounts)->0
            },
        ),
{
}

/// What the pool holds of the coin and of the pc after a swap.
pub open spec fn holdings(swap: PoolSwap) -> (Real, Real) {
    (real_of_text(swap.coin->0.amount@)->0, real_of_text(swap.pc->0.amount@)->0)
}

/// The direction of a swap in the watched pool.
pub open spec fn observed_direction(swap: PoolSwap) -> Direction {
    direction_of(parties_of(swap.accounts@)->0, swap.coin->0.mint@, swap.pc->0.mint@)->0
}

/// The reserves that the bot's own swap pays into and out of.
pub open spec fn own_sides(is_bought: bool, trader: Trader, swap: PoolSwap) -> (Real, Real) {
    let direction = observed_direction(swap);
    let (coin, pc) = holdings(swap);
    let (input, output) = if direction.coin_is_input {
        (coin, pc)
    } else {
        (pc, coin)
    };
    reserves_between(is_bought, direction.input_mint() == trader.wsol, input, output)
}

/// In a pool of wrapped SOL and a token, a purchase pays into the SOL side and
/// out of the token side, and a sale the other way, whichever way the observed
/// swap went.
pub proof fn law_own_sides(trader: Trader, swap: PoolSwap)
    ensures
        ({
            let direction = observed_direction(swap);
            let (coin, pc) = holdings(swap);
            &&& direction.coin_mint == trader.wsol && direction.pc_mint != trader.wsol ==> own_sides(
                false,
                trader,
                swap,
            ) == (coin, pc) && own_sides(true, trader, swap) == (pc, coin)
            &&& direction.pc_mint == trader.wsol && direction.coin_mint != trader.wsol ==> own_sides(
                false,
                trader,
                swap,
            ) == (pc, coin) && own_sides(true, trader, swap) == (coin, pc)
        }),
{
}

/// A swap that is prepared for a purchase spends the configured amount of SOL,
/// demands what the entry slippage leaves of the output of its own direction,
/// and is the wallet's own.
pub proof fn law_purchase_as_configured(s: SessionView, trader: Trader, swap: PoolSwap)
    requires
        !s.is_bought,
        swap_outcome(s, trader, swap).0 is Prepared,
    ensures
        ({
            let plan = swap_outcome(s, trader, swap).1.plan;
            let (input, output) = own_sides(false, trader, swap);
            &&& plan is Some
            &&& plan->0.amount_in == trader.settings.buy_sol_amount
            &&& Some(plan->0.minimum_amount_out) == least_output(
                trader.settings.buy_sol_amount,
                input,
                output,
                trader.settings.entry_slippage@,
            )
            &&& parties_of(plan->0.accounts) matches Some(own) && own.owner == trader.wallet
        }),
{
}

/// A balance is asked for exactly where a position is to be sold; the reply is
/// the amount of the sale, which demands what the exit slippage leaves of the
/// output of its own direction.
pub proof fn law_sale_sells_the_balance(
    s: SessionView,
    trader: Trader,
    swap: PoolSwap,
    reply: Seq<char>,
)
    ensures
        swap_outcome(s, trader, swap).0 is NeedsBalance ==> s.is_bought,
        swap_outcome(s, trader, swap).0 is Prepared ==> !s.is_bought,
        swap_outcome(s, trader, swap).0 matches StepView::NeedsBalance(pending) ==> ({
            let (step, t) = resumed(s, trader, pending, Some(reply));
            let (input, output) = own_sides(true, trader, swap);
            step is Prepared ==> {
                &&& t.plan is Some
                &&& trader.settings.exit_slippage is Some
                &&& Some(t.plan->0.amount_in) == u64_of_text(reply)
                &&& Some(t.plan->0.minimum_amount_out) == least_output(
                    t.plan->0.amount_in,
                    input,
                    output,
                    trader.settings.exit_slippage->0@,
                )
                &&& parties_of(t.plan->0.accounts) matches Some(own) && own.owner == trader.wallet
            }
        }),
{
}

/// A swap that could not be prepared leaves the one prepared before it.
pub proof fn law_failed_steps_keep_the_plan(
    s: SessionView,
    trader: Trader,
    swap: PoolSwap,
    pending: PendingView,
    reply: Option<Seq<char>>,
)
    ensures
        swap_outcome(s, trader, swap).0 !is Prepared ==> swap_outcome(s, trader, swap).1.plan
            == s.plan,
        resumed(s, trader, pending, reply).0 !is Prepared ==> resumed(
            s,
            trader,
            pending,
            reply,
        ).1 == s,
        swap_outcome(s, trader, swap).0 is Ignored ==> swap_outcome(s, trader, swap).1 == s,
{
}

/// Whether two states agree on the position, its costs and its results.
pub open spec fn same_position(s: SessionView, t: SessionView) -> bool {
    &&& s.is_bought == t.is_bought
    &&& s.signature == t.signature
    &&& s.fees == t.fees
    &&& s.last_input_lamports == t.last_input_lamports
    &&& s.last_output_lamports == t.last_output_lamports
    &&& s.last_profit_sol == t.last_profit_sol
    &&& s.last_roi_pct == t.last_roi_pct
    &&& s.last_runtime_ms == t.last_runtime_ms
}

/// Ticks, observed swaps and balance replies leave the position as it is.
pub proof fn law_only_receipts_move_the_position(
    s: SessionView,
    trader: Trader,
    now: i64,
    swap: PoolSwap,
    pending: PendingView,
    reply: Option<Seq<char>>,
)
    ensures
        same_position(s, after_tick(s, trader.settings@, now)),
        same_position(s, swap_outcome(s, trader, swap).1),
        same_position(s, resumed(s, trader, pending, reply).1),
{
}

/// A transaction that the bot did not send changes nothing.
pub proof fn law_foreign_receipts_change_nothing(
    s: SessionView,
    account: Address,
    receipt: Receipt,
    runtime_ms: Option<u128>,
)
    requires
        s.signature != Some(receipt.signature@),
    ensures
        after_receipt(s, account, receipt, runtime_ms) == s,
{
}

/// The lamports that a transaction took from an account.
pub open spec fn taken(account: Address, receipt: Receipt) -> int {
    let place = first_place(receipt.keys@, account)->0;
    balance_at(receipt.pre_balances@, place) - balance_at(receipt.post_balances@, place)
}

/// A confirmed purchase and a confirmed sale leave no position; the profit is
/// what the sale brought less what the purchase took, the return is measured by
/// what the purchase took, and both fees are paid.
pub proof fn law_trade_result(
    s: SessionView,
    account: Address,
    purchase: Receipt,
    sale: Receipt,
    runtime_ms: Option<u128>,
)
    requires
        !s.is_bought,
        is_own(s, account, purchase),
        first_place(sale.keys@, account) is Some,
    ensures
        ({
            let held = after_receipt(s, account, purchase, runtime_ms);
            let sent = SessionView { signature: Some(sale.signature@), ..held };
            let done = after_receipt(sent, account, sale, runtime_ms);
            &&& held.is_bought
            &&& !done.is_bought
            &&& done.last_profit_sol == Some(
                sol_of(-taken(account, sale) - taken(account, purchase)),
            )
            &&& done.last_roi_pct == Some(
                roi_of(done.last_profit_sol->0, sol_of(taken(account, purchase))),
            )
            &&& done.fees == s.fees.plus(real_of_int(purchase.fee as int)).plus(
                real_of_int(sale.fee as int),
            )
        }),
{
}

/// Without variables but the amount to buy for, swaps go through Nozomi, pay no
/// fees of their own, tolerate any slippage, and wait for a change of one
/// hundred percent, a position for at most a minute.
pub proof fn law_default_settings(raw: RawSettings, sol_scale: Real)
    requires
        raw.confirm_service is None,
        raw.cu is None,
        raw.priority_fee_micro_lamport is None,
        raw.third_party_fee is None,
        raw.slippage is None,
        raw.entry_slippage is None,
        raw.exit_slippage is None,
        raw.entry_percent is None,
        raw.take_profit is None,
        raw.stop_loss is None,
        raw.auto_exit is None,
    ensures
        settings_of(raw, sol_scale) == match raw.buy_sol_amount {
            None => Err(SettingError::MissingBuySolAmount),
            Some(text) => match real_of_text(text@) {
                None => Err(SettingError::InvalidBuySolAmount),
                Some(sol) => Ok(
                    SettingsView {
                        confirm_service: "NOZOMI"@,
                        cu: 0,
                        priority_fee_micro_lamport: 0,
                        third_party_fee: zero(),
                        buy_sol_amount: sol.times(sol_scale).as_u64(),
                        entry_slippage: real_of_int(1),
                        exit_slippage: Some(real_of_int(1)),
                        entry_percent: real_of_int(100),
                        take_profit: real_of_int(100),
                        stop_loss: real_of_int(100),
                        auto_exit: 60,
                    },
                ),
            },
        },
{
    lemma_constants();
    law_integers_exact(100);
    law_integers_exact(1);
    let u = one_unit();
    let h = 100 * u;
    law_rounding_exact(u, h);
    assert(h * u == u * h) by (nonlinear_arith);
    lemma_pow2_strictly_increases(1074, 2098);
    assert(real_of_int(100).over(real_of_int(100)) == real_of_int(1));
}

/// A slippage of its own counts before the shared one, which counts for both
/// directions otherwise.
pub proof fn law_own_slippage_first(own: Option<Seq<char>>, shared: Option<Seq<char>>)
    ensures
        own is Some ==> slippage_fraction(own, shared) == slippage_fraction(own, None),
        own is None ==> slippage_fraction(own, shared) == slippage_fraction(shared, None),
{
}

/// An amount written in digits alone is read as the number nearest to it.
pub proof fn law_digits_read_as_integers(text: Seq<char>)
    requires
        text.len() > 0,
        all_digits(text),
    ensures
        real_of_text(text) == Some(real_of_int(digits_value(text) as int)),
{
    assert forall|i: int| 0 <= i < text.len() implies '0' <= #[trigger] text[i] && text[i]
        <= '9' by {
        assert(is_digit(text[i]));
    }
    law_point_text(text, Seq::empty());
}

} // verus!
