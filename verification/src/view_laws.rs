//! Every part of a value shows in what the value stands for.

use crate::binary64::{optional_real, Binary64};
use crate::process::{PendingSwap, Step, StepView};
use crate::session::{
    Order, Receipt, Session, Submission, SubmissionView, SwapPlan, TradeData, Waiting, WaitingView,
};
use crate::settings::TradeSettings;
use vstd::prelude::*;

verus! {

/// An optional number stands for the number, if there is one.
pub proof fn law_optional_number(x: Option<Binary64>)
    ensures
        x is None <==> optional_real(x) is None,
        x matches Some(v) ==> optional_real(x) == Some(v@),
{
}

/// A session stands for its fields.
pub proof fn law_session_view(s: Session)
    ensures
        s.pool_price is None <==> s@.pool_price is None,
        s.pool_price matches Some(v) ==> s@.pool_price == Some(v@),
        s.latest_pool_price is None <==> s@.latest_pool_price is None,
        s.latest_pool_price matches Some(v) ==> s@.latest_pool_price == Some(v@),
        s.plan is None <==> s@.plan is None,
        s.plan matches Some(v) ==> s@.plan == Some(v@),
        s@.is_bought == s.is_bought,
        s@.busy == s.busy,
        s@.waiting.len() == s.waiting@.len(),
        forall|i: int| 0 <= i < s.waiting@.len() ==> #[trigger] s@.waiting[i] == s.waiting@[i]@,
        s.bought_price is None <==> s@.bought_price is None,
        s.bought_price matches Some(v) ==> s@.bought_price == Some(v@),
        s@.bought_at == s.bought_at,
        s.signature is None <==> s@.signature is None,
        s.signature matches Some(v) ==> s@.signature == Some(v@),
        s@.last_input_lamports == s.last_input_lamports,
        s@.last_output_lamports == s.last_output_lamports,
        s.last_profit_sol is None <==> s@.last_profit_sol is None,
        s.last_profit_sol matches Some(v) ==> s@.last_profit_sol == Some(v@),
        s.last_roi_pct is None <==> s@.last_roi_pct is None,
        s.last_roi_pct matches Some(v) ==> s@.last_roi_pct == Some(v@),
        s@.fees == s.fees@,
        s@.last_runtime_ms == s.last_runtime_ms,
{
}

/// A waiting decision stands for its kind and price.
pub proof fn law_waiting_view(p: Binary64)
    ensures
        Waiting::Purchase(p)@ == WaitingView::Purchase(p@),
        Waiting::Position(p)@ == WaitingView::Position(p@),
{
}

/// Settings stand for their fields.
pub proof fn law_settings_view(s: TradeSettings)
    ensures
        s@.confirm_service == s.confirm_service@,
        s@.cu == s.cu,
        s@.priority_fee_micro_lamport == s.priority_fee_micro_lamport,
        s@.third_party_fee == s.third_party_fee@,
        s@.buy_sol_amount == s.buy_sol_amount,
        s@.entry_slippage == s.entry_slippage@,
        s.exit_slippage is None <==> s@.exit_slippage is None,
        s.exit_slippage matches Some(v) ==> s@.exit_slippage == Some(v@),
        s@.entry_percent == s.entry_percent@,
        s@.take_profit == s.take_profit@,
        s@.stop_loss == s.stop_loss@,
        s@.auto_exit == s.auto_exit,
{
}

/// A plan and an order stand for their fields.
pub proof fn law_order_view(p: SwapPlan, o: Order)
    ensures
        p@.accounts == p.accounts@,
        p@.input_mint == p.input_mint,
        p@.output_mint == p.output_mint,
        p@.amount_in == p.amount_in,
        p@.minimum_amount_out == p.minimum_amount_out,
        o@.payer == o.payer,
        o@.plan == o.plan@,
        o@.cu == o.cu,
        o@.priority_fee_micro_lamport == o.priority_fee_micro_lamport,
        o@.tip_addr_idx == o.tip_addr_idx,
        o@.tip_sol_amount == o.tip_sol_amount@,
{
}

/// A submission stands for its kind and what it holds.
pub proof fn law_submission_view(r: Submission)
    ensures
        r is NothingPrepared <==> r@ is NothingPrepared,
        r is UnknownService <==> r@ is UnknownService,
        r is ClientNotReady <==> r@ is ClientNotReady,
        r is Send <==> r@ is Send,
        r matches Submission::ClientNotReady(service) ==> r@ == SubmissionView::ClientNotReady(
            service,
        ),
        r matches Submission::Send(service, order) ==> r@ == SubmissionView::Send(service, order@),
{
}

/// A pending swap stands for its fields.
pub proof fn law_pending_view(p: PendingSwap)
    ensures
        p@.is_bought == p.is_bought,
        p@.accounts == p.accounts@,
        p@.route == p.route,
        p@.input_mint == p.input_mint,
        p@.output_mint == p.output_mint,
        p@.input == p.reserves.input@,
        p@.output == p.reserves.output@,
{
}

/// A step stands for its kind and what it holds.
pub proof fn law_step_view(r: Step)
    ensures
        r is Ignored <==> r@ is Ignored,
        r is InvalidAddress <==> r@ is InvalidAddress,
        r is Stopped <==> r@ is Stopped,
        r is InvalidExitSlippage <==> r@ is InvalidExitSlippage,
        r is NeedsBalance <==> r@ is NeedsBalance,
        r is Prepared <==> r@ is Prepared,
        r matches Step::NeedsBalance(p) ==> r@ == StepView::NeedsBalance(p@),
{
}

/// A receipt and a stored trade stand for their fields.
pub proof fn law_record_view(r: Receipt, t: TradeData)
    ensures
        r@.signature == r.signature@,
        r@.fee == r.fee,
        r@.keys == r.keys@,
        r@.pre_balances == r.pre_balances@,
        r@.post_balances == r.post_balances@,
        t@.ts == t.ts@,
        t@.profit_sol == t.profit_sol@,
        t@.fees_lamports == t.fees_lamports,
        t@.fees_sol == t.fees_sol@,
        t@.roi_pct == t.roi_pct@,
        t@.program_runtime_ms == t.program_runtime_ms,
{
}

} // verus!
