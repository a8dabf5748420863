//! Whole runs of the bot: what holds of a whole transaction, and after any
//! events in any order.

use crate::address::parties_of;
use crate::decimal::{real_of_text, u64_of_text};
use crate::laws::{law_no_moves_while_busy, law_submission_is_noted};
use crate::process::{
    concluded, direction_of, resumed, swap_outcome, PendingView, PoolSwap, StepView, Trader,
};
use crate::session::{
    after_send, after_tick, after_turn, tick_outcome, Receipt, SendOutcome, SessionView,
};
use crate::swap_laws::{law_reply_rule, law_settle_rule, law_swap_steps};
use vstd::prelude::*;

verus! {

/// The step taken on a transaction's swap, if it has one, with the balance query
/// answered by `reply` where one is asked.
pub open spec fn observed(
    s: SessionView,
    trader: Trader,
    swap: Option<PoolSwap>,
    reply: Option<Seq<char>>,
) -> (StepView, SessionView) {
    match swap {
        None => (StepView::Ignored, s),
        Some(w) => match swap_outcome(s, trader, w) {
            (StepView::NeedsBalance(pending), t) => resumed(t, trader, pending, reply),
            (step, t) => (step, t),
        },
    }
}

/// The state after a whole transaction of the pool.
pub open spec fn after_transaction(
    s: SessionView,
    trader: Trader,
    swap: Option<PoolSwap>,
    reply: Option<Seq<char>>,
    receipt: Receipt,
    runtime_ms: Option<u128>,
) -> SessionView {
    let (step, t) = observed(s, trader, swap, reply);
    concluded(t, trader, step, receipt, runtime_ms).1
}

/// A transaction whose handling stops changes nothing but the price, even where
/// it is the bot's own.
pub proof fn law_stopped_transaction_changes_only_the_price(
    s: SessionView,
    trader: Trader,
    swap: Option<PoolSwap>,
    reply: Option<Seq<char>>,
    receipt: Receipt,
    runtime_ms: Option<u128>,
)
    requires
        !observed(s, trader, swap, reply).0.goes_on(),
    ensures
        ({
            let t = after_transaction(s, trader, swap, reply, receipt, runtime_ms);
            t == SessionView { latest_pool_price: t.latest_pool_price, ..s }
        }),
{
}

/// A swap that shows the pool with an amount that is not a number changes
/// nothing, even where the transaction is the bot's own.
pub proof fn law_unusable_amounts_change_nothing(
    s: SessionView,
    trader: Trader,
    swap: PoolSwap,
    reply: Option<Seq<char>>,
    receipt: Receipt,
    runtime_ms: Option<u128>,
)
    requires
        parties_of(swap.accounts@) is Some,
        swap.coin is Some && swap.pc is Some && swap.pre_coin is Some && swap.pre_pc is Some,
        direction_of(
            parties_of(swap.accounts@)->0,
            swap.coin->0.mint@,
            swap.pc->0.mint@,
        ) is Some,
        real_of_text(swap.coin->0.amount@) is None || real_of_text(swap.pc->0.amount@) is None
            || real_of_text(swap.pre_coin->0.amount@) is None || real_of_text(
            swap.pre_pc->0.amount@,
        ) is None,
    ensures
        observed(s, trader, Some(swap), reply).0 is Stopped,
        after_transaction(s, trader, Some(swap), reply, receipt, runtime_ms) == s,
{
}

/// A balance query that fails, or is not answered by an unsigned integer, leaves
/// everything but the price as it was, even where the transaction is the bot's
/// own.
pub proof fn law_failed_query_changes_only_the_price(
    s: SessionView,
    trader: Trader,
    swap: PoolSwap,
    reply: Option<Seq<char>>,
    receipt: Receipt,
    runtime_ms: Option<u128>,
)
    requires
        swap_outcome(s, trader, swap).0 is NeedsBalance,
        reply matches Some(text) ==> u64_of_text(text) is None,
    ensures
        observed(s, trader, Some(swap), reply).0 is Stopped,
        after_transaction(s, trader, Some(swap), reply, receipt, runtime_ms) == (SessionView {
            latest_pool_price: swap_outcome(s, trader, swap).1.latest_pool_price,
            ..s
        }),
{
}

/// Something that happens to the bot.
pub enum Event {
    /// A tick at a time in milliseconds.
    Tick(i64),
    /// What was carried out is done without ending the run, at a time.
    Turn(i64),
    /// A swap in the watched pool.
    Swap(PoolSwap),
    /// A reply to a balance query.
    Reply(PendingView, Option<Seq<char>>),
    /// The end of a transaction of the pool, after the step taken on its swap.
    Concluded(StepView, Receipt, Option<u128>),
    /// A transaction of the bot was handed to a service.
    Handed(SendOutcome),
}

/// The state after an event.
pub open spec fn after_event(s: SessionView, trader: Trader, event: Event) -> SessionView {
    match event {
        Event::Tick(now) => after_tick(s, trader.settings@, now),
        Event::Turn(now) => after_turn(s, now),
        Event::Swap(swap) => swap_outcome(s, trader, swap).1,
        Event::Reply(pending, reply) => resumed(s, trader, pending, reply).1,
        Event::Concluded(step, receipt, runtime_ms) => concluded(
            s,
            trader,
            step,
            receipt,
            runtime_ms,
        ).1,
        Event::Handed(outcome) => after_send(s, outcome),
    }
}

/// The state after a sequence of events.
pub open spec fn after_events(s: SessionView, trader: Trader, events: Seq<Event>) -> SessionView
    decreases events.len(),
{
    if events.len() == 0 {
        s
    } else {
        after_event(after_events(s, trader, events.drop_last()), trader, events.last())
    }
}

/// An event keeps a state valid, and lets nothing wait while nothing is carried
/// out.
#[verifier::spinoff_prover]
pub proof fn law_events_keep_validity(s: SessionView, trader: Trader, event: Event)
    ensures
        s.valid() ==> after_event(s, trader, event).valid(),
        s.orderly() ==> after_event(s, trader, event).orderly(),
{
    match event {
        Event::Swap(swap) => {
            law_swap_steps(s, trader, swap);
        },
        Event::Reply(pending, reply) => {
            law_reply_rule(s, trader, pending, reply);
            if let Some(text) = reply {
                if let Some(amount) = u64_of_text(text) {
                    law_settle_rule(s, trader, pending, amount);
                }
            }
        },
        _ => {},
    }
}

/// Every state of a run is valid, and nothing waits while nothing is carried
/// out.
pub proof fn law_runs_stay_valid(trader: Trader, events: Seq<Event>)
    ensures
        after_events(SessionView::initial(), trader, events).valid(),
        after_events(SessionView::initial(), trader, events).orderly(),
    decreases events.len(),
{
    if events.len() > 0 {
        let before = events.drop_last();
        law_runs_stay_valid(trader, before);
        law_events_keep_validity(
            after_events(SessionView::initial(), trader, before),
            trader,
            events.last(),
        );
    }
}

/// No event but a turn changes that something is being carried out.
pub proof fn law_event_keeps_busy(s: SessionView, trader: Trader, event: Event)
    requires
        s.busy,
        event !is Turn,
    ensures
        after_event(s, trader, event).busy,
{
    match event {
        Event::Tick(now) => {
            law_submission_is_noted(s, trader.settings@, now);
        },
        Event::Swap(swap) => {
            law_swap_steps(s, trader, swap);
        },
        _ => {},
    }
}

/// What is being carried out stays so until it is done.
pub proof fn law_stays_busy(s: SessionView, trader: Trader, events: Seq<Event>)
    requires
        s.busy,
        forall|i: int| 0 <= i < events.len() ==> events[i] !is Turn,
    ensures
        after_events(s, trader, events).busy,
    decreases events.len(),
{
    if events.len() > 0 {
        let before = events.drop_last();
        law_stays_busy(s, trader, before);
        assert(events.last() !is Turn);
        law_event_keeps_busy(after_events(s, trader, before), trader, events.last());
    }
}

/// From the tick that calls for a purchase or a sale until that is done, no tick
/// submits anything or ends the run, whatever happens in between.
pub proof fn law_one_submission_at_a_time(
    s: SessionView,
    trader: Trader,
    now: i64,
    events: Seq<Event>,
    later: i64,
)
    requires
        tick_outcome(s, trader.settings@, now).0.moves_of().submit,
        forall|i: int| 0 <= i < events.len() ==> events[i] !is Turn,
    ensures
        ({
            let t = after_events(after_tick(s, trader.settings@, now), trader, events);
            let moves = tick_outcome(t, trader.settings@, later).0.moves_of();
            !moves.submit && !moves.record && !moves.exit
        }),
{
    law_submission_is_noted(s, trader.settings@, now);
    let t = after_tick(s, trader.settings@, now);
    law_stays_busy(t, trader, events);
    law_no_moves_while_busy(after_events(t, trader, events), trader.settings@, later);
}

} // verus!
