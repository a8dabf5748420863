//! When the bot buys and when it gives a position up, in terms of the prices
//! and times alone.

use crate::binary64::{real_of_int, Real};
use crate::price::change_percent;
use crate::session::{
    after_tick, after_turn, position_percent, tick_outcome, turn_outcome, SessionView, TickKind,
    WaitingView,
};
use crate::settings::SettingsView;
use vstd::prelude::*;

verus! {

/// Without a position, a tick sees the change since the last tick, in percent of
/// the earlier price. It calls for a purchase exactly where nothing is carried
/// out and the drop reaches the configured percentage, whatever else the state
/// holds.
pub proof fn law_entry_rule(s: SessionView, settings: SettingsView, now: i64, p: Real, q: Real)
    requires
        !s.is_bought,
        s.pool_price == Some(p),
        s.latest_pool_price == Some(q),
        p.positive(),
    ensures
        ({
            let (kind, percent) = tick_outcome(s, settings, now);
            let change = q.minus(p).over(p).times(real_of_int(100));
            let dropped = change.at_most(settings.entry_percent.negated());
            &&& percent == change
            &&& kind == TickKind::Buy <==> dropped && !s.busy
            &&& kind == TickKind::Waits <==> dropped && s.busy
            &&& kind == TickKind::Watch <==> !dropped
        }),
{
}

/// A tick has nothing to compare exactly where one of the two prices is missing
/// or the earlier one is not positive.
pub proof fn law_idle_rule(s: SessionView, settings: SettingsView, now: i64)
    ensures
        tick_outcome(s, settings, now).0 == TickKind::Idle <==> s.pool_price is None
            || s.latest_pool_price is None || !s.pool_price->0.positive(),
        tick_outcome(s, settings, now).0 == TickKind::Idle ==> tick_outcome(s, settings, now).1
            == (Real::Finite { negative: false, units: 0 }),
{
}

/// With a position and nothing carried out, a tick judges the change since the
/// purchase, in percent of the purchase price: a profit is taken where the
/// change reaches the configured gain, a loss is stopped where it reaches the
/// configured loss, and a position that is held for too long is given up.
/// Times are counted in milliseconds modulo `2^64`, and a limit that is no `i64`
/// counts as one second.
pub proof fn law_position_rule(
    s: SessionView,
    settings: SettingsView,
    now: i64,
    old_price: Real,
    p: Real,
    q: Real,
)
    requires
        s.is_bought,
        !s.busy,
        s.pool_price == Some(old_price),
        s.latest_pool_price == Some(q),
        s.bought_price == Some(p),
        old_price.positive(),
        p.positive(),
    ensures
        ({
            let (kind, percent) = tick_outcome(s, settings, now);
            let change = q.minus(p).over(p).times(real_of_int(100));
            let lapse = if s.bought_at is None {
                0
            } else if now - s.bought_at->0 > i64::MAX {
                now - s.bought_at->0 - 0x1_0000_0000_0000_0000
            } else if now - s.bought_at->0 < i64::MIN {
                now - s.bought_at->0 + 0x1_0000_0000_0000_0000
            } else {
                now - s.bought_at->0
            };
            let ms = (settings.auto_exit * 1000) % 0x1_0000_0000_0000_0000;
            let late = s.bought_at is Some && lapse > (if ms <= i64::MAX {
                ms
            } else {
                1000
            });
            let gained = settings.take_profit.at_most(change);
            let lost = change.at_most(settings.stop_loss.negated());
            &&& percent == change
            &&& kind == TickKind::TakeProfit <==> gained
            &&& kind == TickKind::StopLoss <==> lost && !gained
            &&& kind == TickKind::AutoExit <==> late && !gained && !lost
            &&& kind == TickKind::Hold <==> !late && !gained && !lost
        }),
{
}

/// A position without a positive purchase price counts as unchanged.
pub proof fn law_unpriced_position_rule(
    s: SessionView,
    settings: SettingsView,
    now: i64,
    old_price: Real,
)
    requires
        s.is_bought,
        !s.busy,
        s.pool_price == Some(old_price),
        s.latest_pool_price is Some,
        old_price.positive(),
        s.bought_price matches Some(p) ==> !p.positive(),
    ensures
        ({
            let (kind, percent) = tick_outcome(s, settings, now);
            let change = Real::Finite { negative: false, units: 0 };
            let lapse = if s.bought_at is None {
                0
            } else if now - s.bought_at->0 > i64::MAX {
                now - s.bought_at->0 - 0x1_0000_0000_0000_0000
            } else if now - s.bought_at->0 < i64::MIN {
                now - s.bought_at->0 + 0x1_0000_0000_0000_0000
            } else {
                now - s.bought_at->0
            };
            let ms = (settings.auto_exit * 1000) % 0x1_0000_0000_0000_0000;
            let late = s.bought_at is Some && lapse > (if ms <= i64::MAX {
                ms
            } else {
                1000
            });
            let gained = settings.take_profit.at_most(change);
            let lost = change.at_most(settings.stop_loss.negated());
            &&& percent == change
            &&& kind == TickKind::TakeProfit <==> gained
            &&& kind == TickKind::StopLoss <==> lost && !gained
            &&& kind == TickKind::AutoExit <==> late && !gained && !lost
            &&& kind == TickKind::Hold <==> !late && !gained && !lost
        }),
{
}

/// With a position and something carried out, a tick only waits.
pub proof fn law_busy_position_rule(s: SessionView, settings: SettingsView, now: i64)
    requires
        s.is_bought,
        s.busy,
    ensures
        tick_outcome(s, settings, now).0 == TickKind::Idle || tick_outcome(s, settings, now).0
            == TickKind::Waits,
        tick_outcome(s, settings, now).1 == (Real::Finite { negative: false, units: 0 }),
{
}

/// Two states that agree on the prices, the position and its purchase, and on
/// whether something is carried out, call for the same at the same time.
pub proof fn law_tick_depends_on_prices_and_position(
    s: SessionView,
    t: SessionView,
    settings: SettingsView,
    now: i64,
)
    requires
        s.pool_price == t.pool_price,
        s.latest_pool_price == t.latest_pool_price,
        s.is_bought == t.is_bought,
        s.busy == t.busy,
        s.bought_price == t.bought_price,
        s.bought_at == t.bought_at,
    ensures
        tick_outcome(s, settings, now) == tick_outcome(t, settings, now),
{
}

/// Two settings that agree on the entry, the two exits and the time to hold call
/// for the same.
pub proof fn law_tick_depends_on_thresholds(
    s: SessionView,
    a: SettingsView,
    b: SettingsView,
    now: i64,
)
    requires
        a.entry_percent == b.entry_percent,
        a.take_profit == b.take_profit,
        a.stop_loss == b.stop_loss,
        a.auto_exit == b.auto_exit,
    ensures
        tick_outcome(s, a, now) == tick_outcome(s, b, now),
        after_tick(s, a, now) == after_tick(s, b, now),
        turn_outcome(s, a, now) == turn_outcome(s, b, now),
{
}

/// A tick always makes the latest price the one to compare with. A purchase, and
/// nothing else, notes its price and time; a purchase or a sale, and nothing
/// else, has something carried out; what waits queues up behind what waited
/// before. Nothing else changes.
pub proof fn law_tick_effects(s: SessionView, settings: SettingsView, now: i64)
    ensures
        ({
            let kind = tick_outcome(s, settings, now).0;
            let t = after_tick(s, settings, now);
            &&& t.pool_price == s.latest_pool_price
            &&& t.bought_price == if kind == TickKind::Buy {
                s.latest_pool_price
            } else {
                s.bought_price
            }
            &&& t.bought_at == if kind == TickKind::Buy {
                Some(now)
            } else {
                s.bought_at
            }
            &&& t.busy <==> s.busy || kind == TickKind::Buy || kind == TickKind::TakeProfit || kind
                == TickKind::StopLoss
            &&& kind != TickKind::Waits ==> t.waiting == s.waiting
            &&& kind == TickKind::Waits && s.is_bought ==> t.waiting == s.waiting.push(
                WaitingView::Position(s.latest_pool_price->0),
            )
            &&& kind == TickKind::Waits && !s.is_bought ==> t.waiting == s.waiting.push(
                WaitingView::Purchase(s.latest_pool_price->0),
            )
            &&& t.latest_pool_price == s.latest_pool_price
            &&& t.plan == s.plan
            &&& t.is_bought == s.is_bought
            &&& t.signature == s.signature
            &&& t.last_input_lamports == s.last_input_lamports
            &&& t.last_output_lamports == s.last_output_lamports
            &&& t.last_profit_sol == s.last_profit_sol
            &&& t.last_roi_pct == s.last_roi_pct
            &&& t.fees == s.fees
            &&& t.last_runtime_ms == s.last_runtime_ms
        }),
{
}

/// Where nothing waits, the end of what was carried out leaves nothing carried
/// out and changes nothing else.
pub proof fn law_last_turn(s: SessionView, settings: SettingsView, now: i64)
    requires
        s.waiting.len() == 0,
    ensures
        turn_outcome(s, settings, now) is None,
        !after_turn(s, now).busy,
        after_turn(s, now) == (SessionView { busy: after_turn(s, now).busy, ..s }),
{
}

/// A purchase that waited is made at its turn, whatever became of the position:
/// its price is that of the tick that called for it, its time that of the turn.
pub proof fn law_purchase_turn(s: SessionView, settings: SettingsView, now: i64, q: Real)
    requires
        s.waiting.len() > 0,
        s.waiting[0] == WaitingView::Purchase(q),
    ensures
        turn_outcome(s, settings, now) == Some(
            (TickKind::Buy, (Real::Finite { negative: false, units: 0 })),
        ),
        after_turn(s, now) == (SessionView {
            busy: true,
            waiting: s.waiting.subrange(1, s.waiting.len() as int),
            bought_price: Some(q),
            bought_at: Some(now),
            ..s
        }),
{
    assert(s.waiting.drop_first() =~= s.waiting.subrange(1, s.waiting.len() as int));
}

/// A position that waited is judged at its turn as at a tick, by the price of
/// the tick that saw it, and the purchase and the time of the turn.
pub proof fn law_position_turn(s: SessionView, settings: SettingsView, now: i64, p: Real, q: Real)
    requires
        s.waiting.len() > 0,
        s.waiting[0] == WaitingView::Position(q),
        s.bought_price == Some(p),
        p.positive(),
    ensures
        turn_outcome(s, settings, now) is Some,
        ({
            let (kind, percent) = turn_outcome(s, settings, now)->0;
            let change = q.minus(p).over(p).times(real_of_int(100));
            let lapse = if s.bought_at is None {
                0
            } else if now - s.bought_at->0 > i64::MAX {
                now - s.bought_at->0 - 0x1_0000_0000_0000_0000
            } else if now - s.bought_at->0 < i64::MIN {
                now - s.bought_at->0 + 0x1_0000_0000_0000_0000
            } else {
                now - s.bought_at->0
            };
            let ms = (settings.auto_exit * 1000) % 0x1_0000_0000_0000_0000;
            let late = s.bought_at is Some && lapse > (if ms <= i64::MAX {
                ms
            } else {
                1000
            });
            let gained = settings.take_profit.at_most(change);
            let lost = change.at_most(settings.stop_loss.negated());
            &&& percent == change
            &&& kind == TickKind::TakeProfit <==> gained
            &&& kind == TickKind::StopLoss <==> lost && !gained
            &&& kind == TickKind::AutoExit <==> late && !gained && !lost
            &&& kind == TickKind::Hold <==> !late && !gained && !lost
        }),
        after_turn(s, now) == (SessionView {
            busy: true,
            waiting: s.waiting.subrange(1, s.waiting.len() as int),
            ..s
        }),
{
    assert(s.waiting.drop_first() =~= s.waiting.subrange(1, s.waiting.len() as int));
}

/// A position that waited without a positive purchase price counts as unchanged.
pub proof fn law_unpriced_position_turn(s: SessionView, settings: SettingsView, now: i64)
    requires
        s.waiting.len() > 0,
        s.waiting[0] is Position,
        s.bought_price matches Some(p) ==> !p.positive(),
    ensures
        turn_outcome(s, settings, now) is Some,
        ({
            let (kind, percent) = turn_outcome(s, settings, now)->0;
            let change = Real::Finite { negative: false, units: 0 };
            let lapse = if s.bought_at is None {
                0
            } else if now - s.bought_at->0 > i64::MAX {
                now - s.bought_at->0 - 0x1_0000_0000_0000_0000
            } else if now - s.bought_at->0 < i64::MIN {
                now - s.bought_at->0 + 0x1_0000_0000_0000_0000
            } else {
                now - s.bought_at->0
            };
            let ms = (settings.auto_exit * 1000) % 0x1_0000_0000_0000_0000;
            let late = s.bought_at is Some && lapse > (if ms <= i64::MAX {
                ms
            } else {
                1000
            });
            let gained = settings.take_profit.at_most(change);
            let lost = change.at_most(settings.stop_loss.negated());
            &&& percent == change
            &&& kind == TickKind::TakeProfit <==> gained
            &&& kind == TickKind::StopLoss <==> lost && !gained
            &&& kind == TickKind::AutoExit <==> late && !gained && !lost
            &&& kind == TickKind::Hold <==> !late && !gained && !lost
        }),
        after_turn(s, now) == (SessionView {
            busy: true,
            waiting: s.waiting.subrange(1, s.waiting.len() as int),
            ..s
        }),
{
    assert(s.waiting.drop_first() =~= s.waiting.subrange(1, s.waiting.len() as int));
}

/// Purchases and sales are submitted; sales are recorded; sales, and positions
/// that are given up, end the run.
pub proof fn law_moves(kind: TickKind)
    ensures
        kind.moves_of().submit <==> kind is Buy || kind is TakeProfit || kind is StopLoss,
        kind.moves_of().record <==> kind is TakeProfit || kind is StopLoss,
        kind.moves_of().exit <==> kind is TakeProfit || kind is StopLoss || kind is AutoExit,
{
}

/// A run starts without prices, position, plan, costs or results.
pub proof fn law_start()
    ensures
        ({
            let s = SessionView::initial();
            &&& s.pool_price is None
            &&& s.latest_pool_price is None
            &&& s.plan is None
            &&& !s.is_bought
            &&& !s.busy
            &&& s.waiting.len() == 0
            &&& s.bought_price is None
            &&& s.bought_at is None
            &&& s.signature is None
            &&& s.last_input_lamports is None
            &&& s.last_output_lamports is None
            &&& s.last_profit_sol is None
            &&& s.last_roi_pct is None
            &&& s.fees == (Real::Finite { negative: false, units: 0 })
            &&& s.last_runtime_ms is None
        }),
{
}

/// A price change is the difference in percent of the earlier price, for any two
/// prices, and so is that of a position with a positive purchase price.
pub proof fn law_change_of_prices(p: Real, q: Real)
    ensures
        change_percent(p, q) == q.minus(p).over(p).times(real_of_int(100)),
        p.positive() ==> position_percent(Some(p), q) == q.minus(p).over(p).times(real_of_int(100)),
{
}

} // verus!
