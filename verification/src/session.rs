//! What the bot remembers between events, and how each event changes it.

use crate::address::{
    copy_addresses, find_address, first_place, signature_string, signature_text, Address,
};
use crate::binary64::{optional_real, real_of_int, Binary64, Real};
use crate::price::{change_percent, percent_change};
use crate::settings::{SettingsView, TradeSettings};
use vstd::prelude::*;

verus! {

/// A swap that is ready to be submitted.
#[derive(Debug)]
pub struct SwapPlan {
    /// The account list of the swap instruction.
    pub accounts: Vec<Address>,
    pub input_mint: Address,
    pub output_mint: Address,
    pub amount_in: u64,
    pub minimum_amount_out: u64,
}

/// What a plan stands for.
#[verifier::ext_equal]
pub struct PlanView {
    pub accounts: Seq<Address>,
    pub input_mint: Address,
    pub output_mint: Address,
    pub amount_in: u64,
    pub minimum_amount_out: u64,
}

impl View for SwapPlan {
    type V = PlanView;

    open spec fn view(&self) -> PlanView {
        PlanView {
            accounts: self.accounts@,
            input_mint: self.input_mint,
            output_mint: self.output_mint,
            amount_in: self.amount_in,
            minimum_amount_out: self.minimum_amount_out,
        }
    }
}

impl SwapPlan {
    /// A plan that stands for the same swap.
    pub fn copy(&self) -> (r: SwapPlan)
        ensures
            r@ == self@,
    {
        SwapPlan {
            accounts: copy_addresses(&self.accounts),
            input_mint: self.input_mint,
            output_mint: self.output_mint,
            amount_in: self.amount_in,
            minimum_amount_out: self.minimum_amount_out,
        }
    }
}

/// What a tick left to be decided while another decision was carried out, with
/// the price that it saw.
#[derive(Clone, Copy, Debug)]
pub enum Waiting {
    /// The price dropped far enough: buy.
    Purchase(Binary64),
    /// A position was held: see what it calls for.
    Position(Binary64),
}

/// What a waiting decision stands for.
pub enum WaitingView {
    Purchase(Real),
    Position(Real),
}

impl View for Waiting {
    type V = WaitingView;

    open spec fn view(&self) -> WaitingView {
        match *self {
            Waiting::Purchase(p) => WaitingView::Purchase(p@),
            Waiting::Position(p) => WaitingView::Position(p@),
        }
    }
}

/// What a list of waiting decisions stands for.
pub open spec fn waiting_views(list: Seq<Waiting>) -> Seq<WaitingView> {
    Seq::new(list.len(), |i: int| list[i]@)
}

/// The state of one run of the bot. Times are in milliseconds.
#[derive(Debug)]
pub struct Session {
    /// The pool price at the last tick.
    pub pool_price: Option<Binary64>,
    /// The pool price of the last observed swap.
    pub latest_pool_price: Option<Binary64>,
    pub plan: Option<SwapPlan>,
    pub is_bought: bool,
    /// Whether a purchase or a sale was decided on and is being carried out.
    pub busy: bool,
    /// What is left to be decided once that is done, first come first.
    pub waiting: Vec<Waiting>,
    pub bought_price: Option<Binary64>,
    pub bought_at: Option<i64>,
    /// The signature of the last transaction that was sent.
    pub signature: Option<String>,
    pub last_input_lamports: Option<i128>,
    pub last_output_lamports: Option<i128>,
    pub last_profit_sol: Option<Binary64>,
    pub last_roi_pct: Option<Binary64>,
    /// The fees of all confirmed transactions, in lamports.
    pub fees: Binary64,
    pub last_runtime_ms: Option<u128>,
}

/// What a session stands for.
#[verifier::ext_equal]
pub struct SessionView {
    pub pool_price: Option<Real>,
    pub latest_pool_price: Option<Real>,
    pub plan: Option<PlanView>,
    pub is_bought: bool,
    pub busy: bool,
    pub waiting: Seq<WaitingView>,
    pub bought_price: Option<Real>,
    pub bought_at: Option<i64>,
    pub signature: Option<Seq<char>>,
    pub last_input_lamports: Option<i128>,
    pub last_output_lamports: Option<i128>,
    pub last_profit_sol: Option<Real>,
    pub last_roi_pct: Option<Real>,
    pub fees: Real,
    pub last_runtime_ms: Option<u128>,
}

impl View for Session {
    type V = SessionView;

    open spec fn view(&self) -> SessionView {
        SessionView {
            pool_price: optional_real(self.pool_price),
            latest_pool_price: optional_real(self.latest_pool_price),
            plan: match self.plan {
                Some(p) => Some(p@),
                None => None,
            },
            is_bought: self.is_bought,
            busy: self.busy,
            waiting: waiting_views(self.waiting@),
            bought_price: optional_real(self.bought_price),
            bought_at: self.bought_at,
            signature: match self.signature {
                Some(s) => Some(s@),
                None => None,
            },
            last_input_lamports: self.last_input_lamports,
            last_output_lamports: self.last_output_lamports,
            last_profit_sol: optional_real(self.last_profit_sol),
            last_roi_pct: optional_real(self.last_roi_pct),
            fees: self.fees@,
            last_runtime_ms: self.last_runtime_ms,
        }
    }
}

impl SessionView {
    /// A change of a balance never exceeds the largest balance.
    pub open spec fn valid(self) -> bool {
        self.last_input_lamports matches Some(n) ==> -u64::MAX <= n <= u64::MAX
    }

    /// Nothing waits unless something is being carried out.
    pub open spec fn orderly(self) -> bool {
        self.waiting.len() > 0 ==> self.busy
    }

    /// The state at the start of a run.
    pub open spec fn initial() -> SessionView {
        SessionView {
            pool_price: None,
            latest_pool_price: None,
            plan: None,
            is_bought: false,
            busy: false,
            waiting: Seq::empty(),
            bought_price: None,
            bought_at: None,
            signature: None,
            last_input_lamports: None,
            last_output_lamports: None,
            last_profit_sol: None,
            last_roi_pct: None,
            fees: zero(),
            last_runtime_ms: None,
        }
    }
}

pub open spec fn zero() -> Real {
    Real::Finite { negative: false, units: 0 }
}

/// What a tick calls for.
#[derive(Clone, Copy, Debug, PartialEq, Eq, Structural)]
pub enum TickKind {
    /// Nothing to compare yet.
    Idle,
    /// Waiting for the price to drop.
    Watch,
    /// The price dropped far enough: buy.
    Buy,
    /// Waiting for the price to leave its band.
    Hold,
    /// The price rose far enough: sell.
    TakeProfit,
    /// The price fell too far: sell.
    StopLoss,
    /// The position was held too long: give up without selling.
    AutoExit,
    /// A purchase or a sale is being carried out: decide when that is done.
    Waits,
}

/// What follows a tick. A trade is recorded, and the run ends, once the sale had
/// time to be confirmed; giving up ends the run at once.
#[derive(Clone, Copy, Debug, PartialEq, Eq, Structural)]
pub struct Moves {
    pub submit: bool,
    pub record: bool,
    pub exit: bool,
}

impl TickKind {
    pub open spec fn moves_of(self) -> Moves {
        Moves {
            submit: self == TickKind::Buy || self == TickKind::TakeProfit || self
                == TickKind::StopLoss,
            record: self == TickKind::TakeProfit || self == TickKind::StopLoss,
            exit: self == TickKind::TakeProfit || self == TickKind::StopLoss || self
                == TickKind::AutoExit,
        }
    }

    /// What to do about a tick.
    pub fn moves(self) -> (r: Moves)
        ensures
            r == self.moves_of(),
    {
        let sale: bool = self == TickKind::TakeProfit || self == TickKind::StopLoss;
        Moves {
            submit: sale || self == TickKind::Buy,
            record: sale,
            exit: sale || self == TickKind::AutoExit,
        }
    }
}

/// The outcome of a tick, with the price change that it saw, in percent.
#[derive(Clone, Copy, Debug)]
pub struct Tick {
    pub kind: TickKind,
    pub percent: Binary64,
}

/// The auto exit in milliseconds, modulo `2^64`; one second where that does not
/// fit an `i64`.
pub open spec fn auto_exit_millis(seconds: u64) -> int {
    let ms = (seconds * 1000) % 0x1_0000_0000_0000_0000;
    if ms <= i64::MAX {
        ms
    } else {
        1000
    }
}

/// The time from `then` to `now`, modulo `2^64`.
pub open spec fn elapsed_millis(now: i64, then: i64) -> int {
    let d = now - then;
    if d > i64::MAX {
        d - 0x1_0000_0000_0000_0000
    } else if d < i64::MIN {
        d + 0x1_0000_0000_0000_0000
    } else {
        d
    }
}

/// The price change since the purchase; zero without a positive purchase price.
pub open spec fn position_percent(bought_price: Option<Real>, new: Real) -> Real {
    match bought_price {
        Some(p) => if p.positive() {
            change_percent(p, new)
        } else {
            zero()
        },
        None => zero(),
    }
}

/// What a position calls for at a price change of `percent`.
pub open spec fn position_kind(
    settings: SettingsView,
    bought_at: Option<i64>,
    percent: Real,
    now: i64,
) -> TickKind {
    if settings.take_profit.at_most(percent) {
        TickKind::TakeProfit
    } else if percent.at_most(settings.stop_loss.negated()) {
        TickKind::StopLoss
    } else if bought_at is Some && elapsed_millis(now, bought_at->0) > auto_exit_millis(
        settings.auto_exit,
    ) {
        TickKind::AutoExit
    } else {
        TickKind::Hold
    }
}

/// The outcome of a tick at time `now`. While a purchase or a sale is being
/// carried out, a position is not looked at, and a drop buys nothing yet.
pub open spec fn tick_outcome(s: SessionView, settings: SettingsView, now: i64) -> (
    TickKind,
    Real,
) {
    match (s.pool_price, s.latest_pool_price) {
        (Some(old), Some(new)) => if !old.positive() {
            (TickKind::Idle, zero())
        } else if s.is_bought {
            if s.busy {
                (TickKind::Waits, zero())
            } else {
                let percent = position_percent(s.bought_price, new);
                (position_kind(settings, s.bought_at, percent, now), percent)
            }
        } else {
            let percent = change_percent(old, new);
            if !percent.at_most(settings.entry_percent.negated()) {
                (TickKind::Watch, percent)
            } else if s.busy {
                (TickKind::Waits, percent)
            } else {
                (TickKind::Buy, percent)
            }
        },
        _ => (TickKind::Idle, zero()),
    }
}

/// What a tick leaves to be decided later.
pub open spec fn left_waiting(s: SessionView) -> WaitingView {
    if s.is_bought {
        WaitingView::Position(s.latest_pool_price->0)
    } else {
        WaitingView::Purchase(s.latest_pool_price->0)
    }
}

/// The state after a tick: the latest price becomes the price to compare with, a
/// purchase notes its price and time, a purchase or a sale is carried out from
/// here on, and what has to wait queues up.
pub open spec fn after_tick(s: SessionView, settings: SettingsView, now: i64) -> SessionView {
    match tick_outcome(s, settings, now).0 {
        TickKind::Buy => SessionView {
            pool_price: s.latest_pool_price,
            bought_price: s.latest_pool_price,
            bought_at: Some(now),
            busy: true,
            ..s
        },
        TickKind::TakeProfit | TickKind::StopLoss => SessionView {
            pool_price: s.latest_pool_price,
            busy: true,
            ..s
        },
        TickKind::Waits => SessionView {
            pool_price: s.latest_pool_price,
            waiting: s.waiting.push(left_waiting(s)),
            ..s
        },
        _ => SessionView { pool_price: s.latest_pool_price, ..s },
    }
}

/// The outcome of the first waiting decision, taken at time `now`; `None` if
/// nothing waits.
pub open spec fn turn_outcome(s: SessionView, settings: SettingsView, now: i64) -> Option<
    (TickKind, Real),
> {
    if s.waiting.len() == 0 {
        None
    } else {
        match s.waiting[0] {
            WaitingView::Purchase(_) => Some((TickKind::Buy, zero())),
            WaitingView::Position(price) => {
                let percent = position_percent(s.bought_price, price);
                Some((position_kind(settings, s.bought_at, percent, now), percent))
            },
        }
    }
}

/// The state once what was carried out is done without ending the run: the next
/// waiting decision is taken, or there is none.
pub open spec fn after_turn(s: SessionView, now: i64) -> SessionView {
    if s.waiting.len() == 0 {
        SessionView { busy: false, ..s }
    } else {
        let rest = SessionView { busy: true, waiting: s.waiting.drop_first(), ..s };
        match s.waiting[0] {
            WaitingView::Purchase(price) => SessionView {
                bought_price: Some(price),
                bought_at: Some(now),
                ..rest
            },
            WaitingView::Position(_) => rest,
        }
    }
}

/// What a transaction of the pool tells about the bot's own account.
#[derive(Debug)]
pub struct Receipt {
    pub signature: String,
    pub fee: u64,
    pub keys: Vec<Address>,
    pub pre_balances: Vec<u64>,
    pub post_balances: Vec<u64>,
}

/// What a receipt stands for.
#[verifier::ext_equal]
pub struct ReceiptView {
    pub signature: Seq<char>,
    pub fee: u64,
    pub keys: Seq<Address>,
    pub pre_balances: Seq<u64>,
    pub post_balances: Seq<u64>,
}

impl View for Receipt {
    type V = ReceiptView;

    open spec fn view(&self) -> ReceiptView {
        ReceiptView {
            signature: self.signature@,
            fee: self.fee,
            keys: self.keys@,
            pre_balances: self.pre_balances@,
            post_balances: self.post_balances@,
        }
    }
}

/// The receipt of a transaction, by the bytes of its signature.
pub open spec fn receipt_of(
    signature: [u8; 64],
    fee: u64,
    keys: Seq<Address>,
    pre_balances: Seq<u64>,
    post_balances: Seq<u64>,
) -> ReceiptView {
    ReceiptView { signature: signature_text(signature), fee, keys, pre_balances, post_balances }
}

impl Receipt {
    /// The receipt of a transaction, by the bytes of its signature.
    pub fn new(
        signature: &[u8; 64],
        fee: u64,
        keys: Vec<Address>,
        pre_balances: Vec<u64>,
        post_balances: Vec<u64>,
    ) -> (r: Receipt)
        ensures
            r@ == receipt_of(*signature, fee, keys@, pre_balances@, post_balances@),
            r.signature@ == signature_text(*signature),
            r.fee == fee,
            r.keys == keys,
            r.pre_balances == pre_balances,
            r.post_balances == post_balances,
    {
        Receipt { signature: signature_string(signature), fee, keys, pre_balances, post_balances }
    }
}

/// The balance at a place; zero past the end.
pub open spec fn balance_at(balances: Seq<u64>, place: nat) -> u64 {
    if place < balances.len() {
        balances[place as int]
    } else {
        0
    }
}

/// Lamports as SOL.
pub open spec fn sol_of(lamports: int) -> Real {
    real_of_int(lamports).over(real_of_int(1_000_000_000))
}

/// The return on the SOL that was put in, in percent; zero if none was.
pub open spec fn roi_of(profit: Real, input_sol: Real) -> Real {
    if input_sol.positive() {
        profit.over(input_sol).times(real_of_int(100))
    } else {
        zero()
    }
}

/// The state once a purchase that took `spent` lamports is confirmed.
pub open spec fn after_purchase(s: SessionView, fee: u64, spent: int) -> SessionView {
    SessionView {
        is_bought: true,
        fees: s.fees.plus(real_of_int(fee as int)),
        last_input_lamports: Some(spent as i128),
        ..s
    }
}

/// The lamports of the last purchase; zero if there was none.
pub open spec fn lamports_spent(s: SessionView) -> int {
    match s.last_input_lamports {
        Some(n) => n as int,
        None => 0,
    }
}

/// The state once a sale that brought `received` lamports is confirmed.
pub open spec fn after_sale(
    s: SessionView,
    fee: u64,
    received: int,
    runtime_ms: Option<u128>,
) -> SessionView {
    let spent = lamports_spent(s);
    let profit = sol_of(received - spent);
    SessionView {
        is_bought: false,
        fees: s.fees.plus(real_of_int(fee as int)),
        last_output_lamports: Some(received as i128),
        last_profit_sol: Some(profit),
        last_roi_pct: Some(roi_of(profit, sol_of(spent))),
        last_runtime_ms: if runtime_ms is Some {
            runtime_ms
        } else {
            s.last_runtime_ms
        },
        ..s
    }
}

/// Whether a transaction is the one that the bot sent last, and touches the
/// account whose balance is watched.
pub open spec fn is_own(s: SessionView, account: Address, receipt: Receipt) -> bool {
    &&& first_place(receipt.keys@, account) is Some
    &&& s.signature == Some(receipt.signature@)
}

/// The state after a transaction of the pool: one of the bot's own turns a
/// purchase into a position, or a position into a result; any other leaves
/// everything as it was.
pub open spec fn after_receipt(
    s: SessionView,
    account: Address,
    receipt: Receipt,
    runtime_ms: Option<u128>,
) -> SessionView {
    if is_own(s, account, receipt) {
        let place = first_place(receipt.keys@, account)->0;
        let pre = balance_at(receipt.pre_balances@, place);
        let post = balance_at(receipt.post_balances@, place);
        if s.is_bought {
            after_sale(s, receipt.fee, post - pre, runtime_ms)
        } else {
            after_purchase(s, receipt.fee, pre - post)
        }
    } else {
        s
    }
}

/// A service that submits transactions.
#[derive(Clone, Copy, Debug, PartialEq, Eq, Structural)]
pub enum Service {
    Nozomi,
    ZeroSlot,
    Jito,
}

/// The service that a configured name selects.
pub open spec fn service_of(name: Seq<char>) -> Option<Service> {
    if name == "NOZOMI"@ {
        Some(Service::Nozomi)
    } else if name == "ZSLOT"@ || name == "ZERO_SLOT"@ {
        Some(Service::ZeroSlot)
    } else if name == "JITO"@ {
        Some(Service::Jito)
    } else {
        None
    }
}

/// Which services have a client.
#[derive(Clone, Copy, Debug)]
pub struct ReadyClients {
    pub nozomi: bool,
    pub zero_slot: bool,
    pub jito: bool,
}

impl ReadyClients {
    pub open spec fn has(self, service: Service) -> bool {
        match service {
            Service::Nozomi => self.nozomi,
            Service::ZeroSlot => self.zero_slot,
            Service::Jito => self.jito,
        }
    }
}

/// A swap to submit, with who pays for it and what it pays on top.
#[derive(Debug)]
pub struct Order {
    pub payer: Address,
    pub plan: SwapPlan,
    pub cu: u64,
    pub priority_fee_micro_lamport: u64,
    pub tip_addr_idx: u8,
    pub tip_sol_amount: Binary64,
}

/// What an order stands for.
#[verifier::ext_equal]
pub struct OrderView {
    pub payer: Address,
    pub plan: PlanView,
    pub cu: u64,
    pub priority_fee_micro_lamport: u64,
    pub tip_addr_idx: u8,
    pub tip_sol_amount: Real,
}

impl View for Order {
    type V = OrderView;

    open spec fn view(&self) -> OrderView {
        OrderView {
            payer: self.payer,
            plan: self.plan@,
            cu: self.cu,
            priority_fee_micro_lamport: self.priority_fee_micro_lamport,
            tip_addr_idx: self.tip_addr_idx,
            tip_sol_amount: self.tip_sol_amount@,
        }
    }
}

/// How to submit the prepared swap.
#[derive(Debug)]
pub enum Submission {
    /// No swap is prepared.
    NothingPrepared,
    /// The configured name selects no service.
    UnknownService,
    /// The selected service has no client.
    ClientNotReady(Service),
    /// Send the swap through the service.
    Send(Service, Order),
}

/// What a submission stands for.
pub enum SubmissionView {
    NothingPrepared,
    UnknownService,
    ClientNotReady(Service),
    Send(Service, OrderView),
}

impl View for Submission {
    type V = SubmissionView;

    open spec fn view(&self) -> SubmissionView {
        match *self {
            Submission::NothingPrepared => SubmissionView::NothingPrepared,
            Submission::UnknownService => SubmissionView::UnknownService,
            Submission::ClientNotReady(service) => SubmissionView::ClientNotReady(service),
            Submission::Send(service, order) => SubmissionView::Send(service, order@),
        }
    }
}

/// The order for a plan: the wallet pays, with the configured fees, and the tip
/// goes to the second address of the service.
pub open spec fn order_of(plan: PlanView, settings: SettingsView, wallet: Address) -> OrderView {
    OrderView {
        payer: wallet,
        plan,
        cu: settings.cu,
        priority_fee_micro_lamport: settings.priority_fee_micro_lamport,
        tip_addr_idx: 1,
        tip_sol_amount: settings.third_party_fee,
    }
}

/// How to submit the prepared swap.
pub open spec fn submission_of(
    s: SessionView,
    settings: SettingsView,
    wallet: Address,
    clients: ReadyClients,
) -> SubmissionView {
    match s.plan {
        None => SubmissionView::NothingPrepared,
        Some(plan) => match service_of(settings.confirm_service) {
            None => SubmissionView::UnknownService,
            Some(service) => if clients.has(service) {
                SubmissionView::Send(service, order_of(plan, settings, wallet))
            } else {
                SubmissionView::ClientNotReady(service)
            },
        },
    }
}

/// What became of a transaction that was handed to a service.
#[derive(Debug)]
pub enum SendOutcome {
    /// The service took it, and answered with its signature or without one.
    Sent(Option<String>),
    /// The service did not take it.
    Failed,
}

/// The state after a transaction was handed to a service: one that was taken
/// leaves its signature, empty where the service gave none.
pub open spec fn after_send(s: SessionView, outcome: SendOutcome) -> SessionView {
    match outcome {
        SendOutcome::Sent(Some(text)) => SessionView { signature: Some(text@), ..s },
        SendOutcome::Sent(None) => SessionView { signature: Some(Seq::empty()), ..s },
        SendOutcome::Failed => s,
    }
}

/// One trade, as it is stored.
#[derive(Debug)]
pub struct TradeData {
    pub ts: String,
    pub profit_sol: Binary64,
    pub fees_lamports: i64,
    pub fees_sol: Binary64,
    pub roi_pct: Binary64,
    pub program_runtime_ms: i64,
}

/// What a stored trade stands for.
#[verifier::ext_equal]
pub struct TradeView {
    pub ts: Seq<char>,
    pub profit_sol: Real,
    pub fees_lamports: i64,
    pub fees_sol: Real,
    pub roi_pct: Real,
    pub program_runtime_ms: i64,
}

impl View for TradeData {
    type V = TradeView;

    open spec fn view(&self) -> TradeView {
        TradeView {
            ts: self.ts@,
            profit_sol: self.profit_sol@,
            fees_lamports: self.fees_lamports,
            fees_sol: self.fees_sol@,
            roi_pct: self.roi_pct@,
            program_runtime_ms: self.program_runtime_ms,
        }
    }
}

/// The record of a trade: its results, zero where there are none, and its fees
/// in lamports and in SOL.
pub open spec fn trade_of(s: SessionView, ts: Seq<char>) -> TradeView {
    TradeView {
        ts,
        profit_sol: match s.last_profit_sol {
            Some(v) => v,
            None => zero(),
        },
        fees_lamports: s.fees.as_i64(),
        fees_sol: s.fees.over(real_of_int(1_000_000_000)),
        roi_pct: match s.last_roi_pct {
            Some(v) => v,
            None => zero(),
        },
        program_runtime_ms: match s.last_runtime_ms {
            Some(ms) => low_millis(ms) as i64,
            None => 0,
        },
    }
}

/// The low 64 bits of a duration, as a signed number.
pub open spec fn low_millis(ms: u128) -> int {
    let low = ms as int % 0x1_0000_0000_0000_0000;
    if low <= i64::MAX {
        low
    } else {
        low - 0x1_0000_0000_0000_0000
    }
}

fn number_or_zero(x: Option<Binary64>) -> (r: Binary64)
    ensures
        r@ == match optional_real(x) {
            Some(v) => v,
            None => zero(),
        },
{
    match x {
        Some(v) => v,
        None => Binary64::zero(false),
    }
}

fn auto_exit_ms(seconds: u64) -> (r: i64)
    ensures
        r == auto_exit_millis(seconds),
{
    let ms: u64 = seconds.wrapping_mul(1000);
    if ms <= 0x7fff_ffff_ffff_ffff {
        ms as i64
    } else {
        1000
    }
}

fn balance(balances: &Vec<u64>, place: usize) -> (r: u64)
    ensures
        r == balance_at(balances@, place as nat),
{
    if place < balances.len() {
        balances[place]
    } else {
        0
    }
}

fn lamports_to_sol(lamports: i128) -> (r: Binary64)
    ensures
        r@ == sol_of(lamports as int),
{
    Binary64::from_i128(lamports).over(Binary64::from_u64(1_000_000_000))
}

/// Selects a service by its configured name.
pub fn select_service(name: &String) -> (r: Option<Service>)
    ensures
        r == service_of(name@),
{
    if *name == "NOZOMI".to_owned() {
        Some(Service::Nozomi)
    } else if *name == "ZSLOT".to_owned() || *name == "ZERO_SLOT".to_owned() {
        Some(Service::ZeroSlot)
    } else if *name == "JITO".to_owned() {
        Some(Service::Jito)
    } else {
        None
    }
}

impl Session {
    /// The state at the start of a run.
    pub fn new() -> (r: Session)
        ensures
            r@ == SessionView::initial(),
            r@.valid(),
    {
        Session {
            pool_price: None,
            latest_pool_price: None,
            plan: None,
            is_bought: false,
            busy: false,
            waiting: Vec::new(),
            bought_price: None,
            bought_at: None,
            signature: None,
            last_input_lamports: None,
            last_output_lamports: None,
            last_profit_sol: None,
            last_roi_pct: None,
            fees: Binary64::zero(false),
            last_runtime_ms: None,
        }
    }

    /// Compares the latest price with the one before it, or with the purchase
    /// price, and decides what to do.
    pub fn tick(&mut self, settings: &TradeSettings, now: i64) -> (r: Tick)
        ensures
            (r.kind, r.percent@) == tick_outcome(old(self)@, settings@, now),
            final(self)@ == after_tick(old(self)@, settings@, now),
    {
        let before: Option<Binary64> = self.pool_price;
        let latest: Option<Binary64> = self.latest_pool_price;
        self.pool_price = latest;
        let (old_price, new_price): (Binary64, Binary64) = match (before, latest) {
            (Some(a), Some(b)) => (a, b),
            _ => {
                return Tick { kind: TickKind::Idle, percent: Binary64::zero(false) };
            },
        };
        if !old_price.positive() {
            return Tick { kind: TickKind::Idle, percent: Binary64::zero(false) };
        }
        if self.is_bought {
            if self.busy {
                self.wait(Waiting::Position(new_price));
                return Tick { kind: TickKind::Waits, percent: Binary64::zero(false) };
            }
            let tick: Tick = self.judge_position(settings, new_price, now);
            if tick.kind == TickKind::TakeProfit || tick.kind == TickKind::StopLoss {
                self.busy = true;
            }
            tick
        } else {
            let percent: Binary64 = percent_change(old_price, new_price);
            if !percent.at_most(settings.entry_percent.negate()) {
                Tick { kind: TickKind::Watch, percent }
            } else if self.busy {
                self.wait(Waiting::Purchase(new_price));
                Tick { kind: TickKind::Waits, percent }
            } else {
                self.bought_price = latest;
                self.bought_at = Some(now);
                self.busy = true;
                Tick { kind: TickKind::Buy, percent }
            }
        }
    }

    /// What a position calls for at a price.
    fn judge_position(&self, settings: &TradeSettings, price: Binary64, now: i64) -> (r: Tick)
        ensures
            r.percent@ == position_percent(self@.bought_price, price@),
            r.kind == position_kind(settings@, self@.bought_at, r.percent@, now),
    {
        let percent: Binary64 = match self.bought_price {
            Some(p) => if p.positive() {
                percent_change(p, price)
            } else {
                Binary64::zero(false)
            },
            None => Binary64::zero(false),
        };
        if settings.take_profit.at_most(percent) {
            return Tick { kind: TickKind::TakeProfit, percent };
        }
        if percent.at_most(settings.stop_loss.negate()) {
            return Tick { kind: TickKind::StopLoss, percent };
        }
        if let Some(then) = self.bought_at {
            if now.wrapping_sub(then) > auto_exit_ms(settings.auto_exit) {
                return Tick { kind: TickKind::AutoExit, percent };
            }
        }
        Tick { kind: TickKind::Hold, percent }
    }

    fn wait(&mut self, decision: Waiting)
        ensures
            final(self)@ == (SessionView {
                waiting: old(self)@.waiting.push(decision@),
                ..old(self)@
            }),
    {
        self.waiting.push(decision);
        assert(waiting_views(self.waiting@) =~= old(self)@.waiting.push(decision@));
    }

    /// Notes that what was carried out is done without ending the run, and takes
    /// the next waiting decision; `None` if nothing waits.
    pub fn next_turn(&mut self, settings: &TradeSettings, now: i64) -> (r: Option<Tick>)
        ensures
            match (r, turn_outcome(old(self)@, settings@, now)) {
                (None, None) => true,
                (Some(tick), Some(outcome)) => (tick.kind, tick.percent@) == outcome,
                _ => false,
            },
            final(self)@ == after_turn(old(self)@, now),
    {
        if self.waiting.len() == 0 {
            self.busy = false;
            return None;
        }
        let first: Waiting = self.waiting.remove(0);
        assert(waiting_views(self.waiting@) =~= old(self)@.waiting.drop_first());
        self.busy = true;
        match first {
            Waiting::Purchase(price) => {
                self.bought_price = Some(price);
                self.bought_at = Some(now);
                Some(Tick { kind: TickKind::Buy, percent: Binary64::zero(false) })
            },
            Waiting::Position(price) => Some(self.judge_position(settings, price, now)),
        }
    }

    /// Decides how to submit the prepared swap for a wallet.
    pub fn submission(
        &self,
        settings: &TradeSettings,
        wallet: &Address,
        clients: ReadyClients,
    ) -> (r: Submission)
        ensures
            r@ == submission_of(self@, settings@, *wallet, clients),
    {
        let plan: &SwapPlan = match &self.plan {
            Some(p) => p,
            None => {
                return Submission::NothingPrepared;
            },
        };
        let service: Service = match select_service(&settings.confirm_service) {
            Some(v) => v,
            None => {
                return Submission::UnknownService;
            },
        };
        let ready: bool = match service {
            Service::Nozomi => clients.nozomi,
            Service::ZeroSlot => clients.zero_slot,
            Service::Jito => clients.jito,
        };
        if !ready {
            return Submission::ClientNotReady(service);
        }
        Submission::Send(
            service,
            Order {
                payer: *wallet,
                plan: plan.copy(),
                cu: settings.cu,
                priority_fee_micro_lamport: settings.priority_fee_micro_lamport,
                tip_addr_idx: 1,
                tip_sol_amount: settings.third_party_fee,
            },
        )
    }

    /// Takes notice of what became of a transaction that was handed to a service.
    pub fn record_send(&mut self, outcome: SendOutcome)
        ensures
            final(self)@ == after_send(old(self)@, outcome),
    {
        match outcome {
            SendOutcome::Sent(signature) => self.record_sent(signature),
            SendOutcome::Failed => {},
        }
    }

    /// Notes the signature in a service's reply to a sent transaction; a reply
    /// without one counts as an empty signature.
    pub fn record_sent(&mut self, signature: Option<String>)
        ensures
            final(self)@ == after_send(old(self)@, SendOutcome::Sent(signature)),
            final(self)@ == (SessionView {
                signature: Some(
                    match signature {
                        Some(s) => s@,
                        None => Seq::empty(),
                    },
                ),
                ..old(self)@
            }),
    {
        let noted: String = match signature {
            Some(s) => s,
            None => String::new(),
        };
        self.signature = Some(noted);
    }

    /// Takes notice of a transaction of the pool, watching the balance of
    /// `account`. Tells whether it was the bot's own.
    pub fn receive(&mut self, account: &Address, receipt: &Receipt, runtime_ms: Option<u128>) -> (r:
        bool)
        requires
            old(self)@.valid(),
        ensures
            r == is_own(old(self)@, *account, *receipt),
            final(self)@ == after_receipt(old(self)@, *account, *receipt, runtime_ms),
            final(self)@.valid(),
    {
        let place: usize = match find_address(&receipt.keys, account) {
            Some(i) => i,
            None => {
                return false;
            },
        };
        let own: bool = match &self.signature {
            Some(s) => *s == receipt.signature,
            None => false,
        };
        if !own {
            return false;
        }
        let pre: i128 = balance(&receipt.pre_balances, place) as i128;
        let post: i128 = balance(&receipt.post_balances, place) as i128;
        self.fees = self.fees.plus(Binary64::from_u64(receipt.fee));
        if self.is_bought {
            let received: i128 = post - pre;
            let spent: i128 = match self.last_input_lamports {
                Some(n) => n,
                None => 0,
            };
            let profit: Binary64 = lamports_to_sol(received - spent);
            let input_sol: Binary64 = lamports_to_sol(spent);
            let roi: Binary64 = if input_sol.positive() {
                profit.over(input_sol).times(Binary64::from_u64(100))
            } else {
                Binary64::zero(false)
            };
            self.is_bought = false;
            self.last_output_lamports = Some(received);
            self.last_profit_sol = Some(profit);
            self.last_roi_pct = Some(roi);
            if runtime_ms.is_some() {
                self.last_runtime_ms = runtime_ms;
            }
        } else {
            self.is_bought = true;
            self.last_input_lamports = Some(pre - post);
        }
        true
    }

    /// The record of the trade, as of the given time stamp.
    pub fn trade_data(&self, ts: String) -> (r: TradeData)
        ensures
            r@ == trade_of(self@, ts@),
            r.ts == ts,
            r.profit_sol@ == (match self@.last_profit_sol {
                Some(v) => v,
                None => zero(),
            }),
            r.fees_lamports == self@.fees.as_i64(),
            r.fees_sol@ == self@.fees.over(real_of_int(1_000_000_000)),
            r.roi_pct@ == (match self@.last_roi_pct {
                Some(v) => v,
                None => zero(),
            }),
            r.program_runtime_ms == (match self@.last_runtime_ms {
                Some(ms) => low_millis(ms),
                None => 0,
            }),
    {
        let program_runtime_ms: i64 = match self.last_runtime_ms {
            Some(ms) => {
                let low: u64 = (ms % 0x1_0000_0000_0000_0000) as u64;
                if low <= 0x7fff_ffff_ffff_ffff {
                    low as i64
                } else {
                    -((u64::MAX - low) as i64) - 1
                }
            },
            None => 0,
        };
        TradeData {
            ts,
            profit_sol: number_or_zero(self.last_profit_sol),
            fees_lamports: self.fees.to_i64(),
            fees_sol: self.fees.over(Binary64::from_u64(1_000_000_000)),
            roi_pct: number_or_zero(self.last_roi_pct),
            program_runtime_ms,
        }
    }
}

} // verus!
