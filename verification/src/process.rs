//! What a swap in the watched pool means for the bot: a new pool price, and a
//! swap of the bot's own kept ready in the opposite or the same direction.

use crate::address::{
    address_of_text, address_text, associated_token_account, base58_text, parse_address, parties_of,
    same_address, swap_parties, token_account, Address, SwapParties,
};
use crate::binary64::{optional_real, Binary64, Real};
use crate::decimal::{parse_binary64, parse_u64, real_of_text, u64_of_text};
use crate::price::{
    can_take, least_output, minimum_output, pool_price, price_of, takes_input, PowersOfTen,
};
use crate::session::{
    after_receipt, is_own, PlanView, Receipt, Session, SessionView, SwapPlan,
};
use crate::settings::TradeSettings;
use vstd::prelude::*;

verus! {

/// An amount of base units, as text, and the mint it is of.
#[derive(Debug)]
pub struct Holding {
    pub amount: String,
    pub mint: String,
}

/// A token balance that a transaction lists.
#[derive(Debug)]
pub struct TokenBalance {
    pub mint: String,
    pub decimals: u8,
}

/// A base-in swap in the watched pool. The holdings are those of the pool's
/// two vaults after and before the swap, where the transaction lists them.
#[derive(Debug)]
pub struct PoolSwap {
    pub accounts: Vec<Address>,
    pub coin: Option<Holding>,
    pub pc: Option<Holding>,
    pub pre_coin: Option<Holding>,
    pub pre_pc: Option<Holding>,
    pub post_balances: Vec<TokenBalance>,
    pub pre_balances: Vec<TokenBalance>,
}

/// Who trades, and by which rules.
pub struct Trader {
    pub wallet: Address,
    /// The mint of wrapped SOL.
    pub wsol: Address,
    pub settings: TradeSettings,
    pub powers: PowersOfTen,
}

/// The mints of a pool, and whether a swap put the coin in or the pc.
#[derive(Clone, Copy, Debug)]
pub struct Direction {
    pub coin_mint: Address,
    pub pc_mint: Address,
    pub coin_is_input: bool,
}

/// What a pool holds of the input and the output of a swap, in base units.
#[derive(Clone, Copy, Debug)]
pub struct Reserves {
    pub input: Binary64,
    pub output: Binary64,
}

/// The token accounts that a swap of the bot pays from and into.
#[derive(Clone, Copy, Debug)]
pub struct Route {
    pub source: Address,
    pub destination: Address,
}

/// A swap of the bot that lacks only its amount. The mints are those of the
/// observed swap; the reserves are those of the bot's own.
#[derive(Debug)]
pub struct PendingSwap {
    pub is_bought: bool,
    pub accounts: Vec<Address>,
    pub route: Route,
    pub input_mint: Address,
    pub output_mint: Address,
    pub reserves: Reserves,
}

/// What a pending swap stands for.
#[verifier::ext_equal]
pub struct PendingView {
    pub is_bought: bool,
    pub accounts: Seq<Address>,
    pub route: Route,
    pub input_mint: Address,
    pub output_mint: Address,
    pub input: Real,
    pub output: Real,
}

impl View for PendingSwap {
    type V = PendingView;

    open spec fn view(&self) -> PendingView {
        PendingView {
            is_bought: self.is_bought,
            accounts: self.accounts@,
            route: self.route,
            input_mint: self.input_mint,
            output_mint: self.output_mint,
            input: self.reserves.input@,
            output: self.reserves.output@,
        }
    }
}

/// How far the handling of a swap came.
#[derive(Debug)]
pub enum Step {
    /// There is no swap, or it does not show the pool: go on with the
    /// transaction.
    Ignored,
    /// A mint is not an address, or has no token account.
    InvalidAddress,
    /// An amount is unusable: leave the rest of the transaction alone.
    Stopped,
    /// A sale could be prepared, but the exit slippage is not a number.
    InvalidExitSlippage,
    /// The balance of the route's source account decides the amount.
    NeedsBalance(PendingSwap),
    /// A swap is prepared: go on with the transaction.
    Prepared,
}

impl StepView {
    /// Whether the rest of the transaction is still to be looked at.
    pub open spec fn goes_on(self) -> bool {
        self is Ignored || self is Prepared
    }
}

impl Step {
    /// Whether the rest of the transaction is still to be looked at.
    pub fn goes_on(&self) -> (r: bool)
        ensures
            r == self@.goes_on(),
    {
        match self {
            Step::Ignored => true,
            Step::Prepared => true,
            _ => false,
        }
    }
}

/// What a step stands for.
pub enum StepView {
    Ignored,
    InvalidAddress,
    Stopped,
    InvalidExitSlippage,
    NeedsBalance(PendingView),
    Prepared,
}

impl View for Step {
    type V = StepView;

    open spec fn view(&self) -> StepView {
        match *self {
            Step::Ignored => StepView::Ignored,
            Step::InvalidAddress => StepView::InvalidAddress,
            Step::Stopped => StepView::Stopped,
            Step::InvalidExitSlippage => StepView::InvalidExitSlippage,
            Step::NeedsBalance(p) => StepView::NeedsBalance(p@),
            Step::Prepared => StepView::Prepared,
        }
    }
}

/// The decimals of the first balance of a mint.
pub open spec fn listed_decimals(balances: Seq<TokenBalance>, mint: Seq<char>) -> Option<u8>
    decreases balances.len(),
{
    if balances.len() == 0 {
        None
    } else if balances[0].mint@ == mint {
        Some(balances[0].decimals)
    } else {
        listed_decimals(balances.subrange(1, balances.len() as int), mint)
    }
}

/// The decimals of a mint: those of its first balance after the transaction,
/// else of its first balance before it, else six.
pub open spec fn decimals_of(
    post: Seq<TokenBalance>,
    pre: Seq<TokenBalance>,
    mint: Seq<char>,
) -> u8 {
    match listed_decimals(post, mint) {
        Some(d) => d,
        None => match listed_decimals(pre, mint) {
            Some(d) => d,
            None => 6,
        },
    }
}

/// Whether the user's accounts show that the coin went into the pool.
pub open spec fn pays_coin(parties: SwapParties, coin_account: Address, pc_account: Address) -> bool {
    coin_account == parties.source || pc_account == parties.destination
}

/// The direction of a swap between two mints given as text.
pub open spec fn direction_of(parties: SwapParties, coin: Seq<char>, pc: Seq<char>) -> Option<
    Direction,
> {
    match (address_of_text(coin), address_of_text(pc)) {
        (Some(c), Some(p)) => match (
            token_account(parties.owner, c),
            token_account(parties.owner, p),
        ) {
            (Some(coin_account), Some(pc_account)) => Some(
                Direction {
                    coin_mint: c,
                    pc_mint: p,
                    coin_is_input: pays_coin(parties, coin_account, pc_account),
                },
            ),
            _ => None,
        },
        _ => None,
    }
}

impl Direction {
    pub open spec fn input_mint(self) -> Address {
        if self.coin_is_input {
            self.coin_mint
        } else {
            self.pc_mint
        }
    }

    pub open spec fn output_mint(self) -> Address {
        if self.coin_is_input {
            self.pc_mint
        } else {
            self.coin_mint
        }
    }
}

/// The price that a pool shows. The side that is not the swap's input counts as
/// SOL unless the input is wrapped SOL.
pub open spec fn shown_price(
    trader: Trader,
    direction: Direction,
    input: Real,
    output: Real,
    post: Seq<TokenBalance>,
    pre: Seq<TokenBalance>,
) -> Real {
    let sol_scale = trader.powers.power(9);
    if direction.input_mint() == trader.wsol {
        let decimals = decimals_of(post, pre, base58_text(direction.output_mint()));
        price_of(input, output, sol_scale, trader.powers.power(decimals))
    } else {
        let decimals = decimals_of(post, pre, base58_text(direction.input_mint()));
        price_of(output, input, sol_scale, trader.powers.power(decimals))
    }
}

/// The accounts to pay from and into, given the bot's token accounts for the
/// two mints: a purchase pays with wrapped SOL, a sale brings it back.
pub open spec fn route_between(
    is_bought: bool,
    input_is_wsol: bool,
    input_account: Address,
    output_account: Address,
) -> Route {
    if is_bought == input_is_wsol {
        Route { source: output_account, destination: input_account }
    } else {
        Route { source: input_account, destination: output_account }
    }
}

/// The reserves that the bot pays into and out of, given those of the observed
/// swap's input and output: they follow the route.
pub open spec fn reserves_between(
    is_bought: bool,
    input_is_wsol: bool,
    input: Real,
    output: Real,
) -> (Real, Real) {
    if is_bought == input_is_wsol {
        (output, input)
    } else {
        (input, output)
    }
}

/// The route of the bot's own swap.
pub open spec fn route_of(is_bought: bool, trader: Trader, direction: Direction) -> Option<Route> {
    match (
        token_account(trader.wallet, direction.input_mint()),
        token_account(trader.wallet, direction.output_mint()),
    ) {
        (Some(input_account), Some(output_account)) => Some(
            route_between(
                is_bought,
                direction.input_mint() == trader.wsol,
                input_account,
                output_account,
            ),
        ),
        _ => None,
    }
}

/// The account list of a swap with the user's accounts replaced.
pub open spec fn rerouted(accounts: Seq<Address>, wallet: Address, route: Route) -> Seq<Address> {
    let n = accounts.len();
    accounts.update(n - 3, route.source).update(n - 2, route.destination).update(n - 1, wallet)
}

/// The tolerated slippage: that of an exit once a position is held.
pub open spec fn tolerated(trader: Trader, is_bought: bool) -> Option<Real> {
    if is_bought {
        optional_real(trader.settings.exit_slippage)
    } else {
        Some(trader.settings.entry_slippage@)
    }
}

/// The outcome of giving a pending swap its amount.
pub open spec fn settled(s: SessionView, trader: Trader, pending: PendingView, amount: u64) -> (
    StepView,
    SessionView,
) {
    if !takes_input(amount, pending.input) {
        (StepView::Stopped, s)
    } else if tolerated(trader, pending.is_bought) is None {
        (StepView::InvalidExitSlippage, s)
    } else {
        let slippage = tolerated(trader, pending.is_bought)->0;
        let minimum = least_output(amount, pending.input, pending.output, slippage)->0;
        (
            StepView::Prepared,
            SessionView {
                plan: Some(
                    PlanView {
                        accounts: pending.accounts,
                        input_mint: pending.input_mint,
                        output_mint: pending.output_mint,
                        amount_in: amount,
                        minimum_amount_out: minimum,
                    },
                ),
                ..s
            },
        )
    }
}

/// The outcome of a swap whose direction is known, with the pool's holdings
/// given as text.
pub open spec fn directed_outcome(
    s: SessionView,
    trader: Trader,
    swap: PoolSwap,
    direction: Direction,
    input: Seq<char>,
    output: Seq<char>,
    pre_input: Seq<char>,
    pre_output: Seq<char>,
) -> (StepView, SessionView) {
    if real_of_text(input) is None || real_of_text(output) is None || real_of_text(
        pre_input,
    ) is None || real_of_text(pre_output) is None {
        (StepView::Stopped, s)
    } else {
        let x = real_of_text(input)->0;
        let y = real_of_text(output)->0;
        let priced = SessionView {
            latest_pool_price: Some(
                shown_price(
                    trader,
                    direction,
                    x,
                    y,
                    swap.post_balances@,
                    swap.pre_balances@,
                ),
            ),
            ..s
        };
        match route_of(s.is_bought, trader, direction) {
            None => (StepView::InvalidAddress, priced),
            Some(route) => {
                let (own_input, own_output) = reserves_between(
                    s.is_bought,
                    direction.input_mint() == trader.wsol,
                    x,
                    y,
                );
                let pending = PendingView {
                    is_bought: s.is_bought,
                    accounts: rerouted(swap.accounts@, trader.wallet, route),
                    route,
                    input_mint: direction.input_mint(),
                    output_mint: direction.output_mint(),
                    input: own_input,
                    output: own_output,
                };
                if s.is_bought {
                    (StepView::NeedsBalance(pending), priced)
                } else {
                    settled(priced, trader, pending, trader.settings.buy_sol_amount)
                }
            },
        }
    }
}

/// The outcome of a swap in the watched pool.
pub open spec fn swap_outcome(s: SessionView, trader: Trader, swap: PoolSwap) -> (
    StepView,
    SessionView,
) {
    match (parties_of(swap.accounts@), swap.coin, swap.pc, swap.pre_coin, swap.pre_pc) {
        (Some(parties), Some(coin), Some(pc), Some(pre_coin), Some(pre_pc)) => match direction_of(
            parties,
            coin.mint@,
            pc.mint@,
        ) {
            None => (StepView::InvalidAddress, s),
            Some(direction) => if direction.coin_is_input {
                directed_outcome(
                    s,
                    trader,
                    swap,
                    direction,
                    coin.amount@,
                    pc.amount@,
                    pre_coin.amount@,
                    pre_pc.amount@,
                )
            } else {
                directed_outcome(
                    s,
                    trader,
                    swap,
                    direction,
                    pc.amount@,
                    coin.amount@,
                    pre_pc.amount@,
                    pre_coin.amount@,
                )
            },
        },
        _ => (StepView::Ignored, s),
    }
}

/// The outcome of a reply to the balance query: no reply, or one that is not an
/// unsigned integer, ends the handling.
pub open spec fn resumed(
    s: SessionView,
    trader: Trader,
    pending: PendingView,
    reply: Option<Seq<char>>,
) -> (StepView, SessionView) {
    match reply {
        None => (StepView::Stopped, s),
        Some(text) => match u64_of_text(text) {
            None => (StepView::Stopped, s),
            Some(amount) => settled(s, trader, pending, amount),
        },
    }
}

/// The outcome of a transaction of the pool, once a step was taken on its swap:
/// only where the step goes on is it looked at whether the transaction was the
/// bot's own, by the bot's wrapped SOL account. `None` if that account cannot be
/// derived.
pub open spec fn concluded(
    s: SessionView,
    trader: Trader,
    step: StepView,
    receipt: Receipt,
    runtime_ms: Option<u128>,
) -> (Option<bool>, SessionView) {
    if !step.goes_on() {
        (Some(false), s)
    } else {
        match token_account(trader.wallet, trader.wsol) {
            None => (None, s),
            Some(account) => (
                Some(is_own(s, account, receipt)),
                after_receipt(s, account, receipt, runtime_ms),
            ),
        }
    }
}

proof fn lemma_listed_decimals(balances: Seq<TokenBalance>, mint: Seq<char>, i: int)
    requires
        0 <= i <= balances.len(),
        forall|j: int| 0 <= j < i ==> balances[j].mint@ != mint,
        i < balances.len() ==> balances[i].mint@ == mint,
    ensures
        listed_decimals(balances, mint) == if i < balances.len() {
            Some(balances[i].decimals)
        } else {
            None
        },
    decreases i,
{
    if i > 0 {
        let rest = balances.subrange(1, balances.len() as int);
        assert forall|j: int| 0 <= j < i - 1 implies rest[j].mint@ != mint by {
            assert(rest[j] == balances[j + 1]);
        }
        lemma_listed_decimals(rest, mint, i - 1);
    }
}

fn find_decimals(balances: &Vec<TokenBalance>, mint: &String) -> (r: Option<u8>)
    ensures
        r == listed_decimals(balances@, mint@),
{
    let mut i: usize = 0;
    while i < balances.len()
        invariant
            i <= balances@.len(),
            forall|j: int| 0 <= j < i ==> balances@[j].mint@ != mint@,
        decreases balances@.len() - i,
    {
        if balances[i].mint == *mint {
            proof {
                lemma_listed_decimals(balances@, mint@, i as int);
            }
            return Some(balances[i].decimals);
        }
        i = i + 1;
    }
    proof {
        lemma_listed_decimals(balances@, mint@, i as int);
    }
    None
}

/// The decimals of a mint, as a transaction lists them.
pub fn token_decimals(
    post: &Vec<TokenBalance>,
    pre: &Vec<TokenBalance>,
    mint: &String,
) -> (r: u8)
    ensures
        r == decimals_of(post@, pre@, mint@),
{
    match find_decimals(post, mint) {
        Some(d) => d,
        None => match find_decimals(pre, mint) {
            Some(d) => d,
            None => 6,
        },
    }
}

/// Whether the user's accounts show that the coin went into the pool.
pub fn coin_is_input(parties: &SwapParties, coin_account: &Address, pc_account: &Address) -> (r:
    bool)
    ensures
        r == pays_coin(*parties, *coin_account, *pc_account),
{
    same_address(coin_account, &parties.source) || same_address(pc_account, &parties.destination)
}

/// Picks the accounts to pay from and into.
pub fn choose_route(
    is_bought: bool,
    input_is_wsol: bool,
    input_account: Address,
    output_account: Address,
) -> (r: Route)
    ensures
        r == route_between(is_bought, input_is_wsol, input_account, output_account),
{
    if is_bought == input_is_wsol {
        Route { source: output_account, destination: input_account }
    } else {
        Route { source: input_account, destination: output_account }
    }
}

/// Puts the reserves of the observed swap in the order of the bot's own.
pub fn own_reserves(is_bought: bool, input_is_wsol: bool, observed: Reserves) -> (r: Reserves)
    ensures
        (r.input@, r.output@) == reserves_between(
            is_bought,
            input_is_wsol,
            observed.input@,
            observed.output@,
        ),
{
    if is_bought == input_is_wsol {
        Reserves { input: observed.output, output: observed.input }
    } else {
        observed
    }
}

/// Reads the pool's holdings; those before the swap must be numbers too.
pub fn read_reserves(
    input: &String,
    output: &String,
    pre_input: &String,
    pre_output: &String,
) -> (r: Option<Reserves>)
    ensures
        r is Some <==> real_of_text(input@) is Some && real_of_text(output@) is Some
            && real_of_text(pre_input@) is Some && real_of_text(pre_output@) is Some,
        r matches Some(v) ==> Some(v.input@) == real_of_text(input@) && Some(v.output@)
            == real_of_text(output@),
{
    match (
        parse_binary64(output.as_str()),
        parse_binary64(input.as_str()),
        parse_binary64(pre_output.as_str()),
        parse_binary64(pre_input.as_str()),
    ) {
        (Some(y), Some(x), Some(_), Some(_)) => Some(Reserves { input: x, output: y }),
        _ => None,
    }
}

fn copy_rerouted(accounts: &Vec<Address>, wallet: &Address, route: &Route) -> (r: Vec<Address>)
    requires
        accounts@.len() >= 3,
    ensures
        r@ == rerouted(accounts@, *wallet, *route),
{
    let n: usize = accounts.len();
    let mut out: Vec<Address> = Vec::new();
    let mut i: usize = 0;
    while i < n
        invariant
            i <= n,
            n == accounts@.len(),
            n >= 3,
            out@.len() == i,
            forall|j: int|
                0 <= j < i ==> #[trigger] out@[j] == rerouted(accounts@, *wallet, *route)[j],
        decreases n - i,
    {
        if i == n - 3 {
            out.push(route.source);
        } else if i == n - 2 {
            out.push(route.destination);
        } else if i == n - 1 {
            out.push(*wallet);
        } else {
            out.push(accounts[i]);
        }
        i = i + 1;
    }
    assert(out@ =~= rerouted(accounts@, *wallet, *route));
    out
}

/// The handler of the watched pool's transactions.
pub struct RaydiumV4Process;

impl RaydiumV4Process {
    /// Finds the direction of a swap between two mints given as text.
    pub fn direction(parties: &SwapParties, coin: &String, pc: &String) -> (r: Option<Direction>)
        ensures
            r == direction_of(*parties, coin@, pc@),
    {
        let (coin_mint, pc_mint): (Address, Address) = match (
            parse_address(coin.as_str()),
            parse_address(pc.as_str()),
        ) {
            (Some(c), Some(p)) => (c, p),
            _ => {
                return None;
            },
        };
        match (
            associated_token_account(&parties.owner, &coin_mint),
            associated_token_account(&parties.owner, &pc_mint),
        ) {
            (Some(coin_account), Some(pc_account)) => Some(
                Direction {
                    coin_mint,
                    pc_mint,
                    coin_is_input: coin_is_input(parties, &coin_account, &pc_account),
                },
            ),
            _ => None,
        }
    }

    /// The price that the pool shows.
    pub fn price(trader: &Trader, direction: &Direction, reserves: &Reserves, swap: &PoolSwap) -> (r:
        Binary64)
        ensures
            r@ == shown_price(
                *trader,
                *direction,
                reserves.input@,
                reserves.output@,
                swap.post_balances@,
                swap.pre_balances@,
            ),
    {
        let (input_mint, output_mint): (Address, Address) = if direction.coin_is_input {
            (direction.coin_mint, direction.pc_mint)
        } else {
            (direction.pc_mint, direction.coin_mint)
        };
        let input_is_wsol: bool = same_address(&input_mint, &trader.wsol);
        let (token_mint, sol, token): (Address, Binary64, Binary64) = if input_is_wsol {
            (output_mint, reserves.input, reserves.output)
        } else {
            (input_mint, reserves.output, reserves.input)
        };
        let decimals: u8 = token_decimals(
            &swap.post_balances,
            &swap.pre_balances,
            &address_text(&token_mint),
        );
        pool_price(sol, token, trader.powers.get(9), trader.powers.get(decimals))
    }

    /// Handles a swap in the watched pool.
    pub fn process(&self, session: &mut Session, trader: &Trader, swap: &PoolSwap) -> (r: Step)
        ensures
            (r@, final(session)@) == swap_outcome(old(session)@, *trader, *swap),
    {
        let parties: SwapParties = match swap_parties(&swap.accounts) {
            Some(p) => p,
            None => {
                return Step::Ignored;
            },
        };
        let (coin, pc, pre_coin, pre_pc): (&Holding, &Holding, &Holding, &Holding) = match (
            &swap.coin,
            &swap.pc,
            &swap.pre_coin,
            &swap.pre_pc,
        ) {
            (Some(a), Some(b), Some(c), Some(d)) => (a, b, c, d),
            _ => {
                return Step::Ignored;
            },
        };
        let direction: Direction = match RaydiumV4Process::direction(&parties, &coin.mint, &pc.mint) {
            Some(d) => d,
            None => {
                return Step::InvalidAddress;
            },
        };
        let found: Option<Reserves> = if direction.coin_is_input {
            read_reserves(&coin.amount, &pc.amount, &pre_coin.amount, &pre_pc.amount)
        } else {
            read_reserves(&pc.amount, &coin.amount, &pre_pc.amount, &pre_coin.amount)
        };
        let reserves: Reserves = match found {
            Some(v) => v,
            None => {
                return Step::Stopped;
            },
        };
        session.latest_pool_price =
        Some(RaydiumV4Process::price(trader, &direction, &reserves, swap));
        let (input_mint, output_mint): (Address, Address) = if direction.coin_is_input {
            (direction.coin_mint, direction.pc_mint)
        } else {
            (direction.pc_mint, direction.coin_mint)
        };
        let input_is_wsol: bool = same_address(&input_mint, &trader.wsol);
        let route: Route = match (
            associated_token_account(&trader.wallet, &input_mint),
            associated_token_account(&trader.wallet, &output_mint),
        ) {
            (Some(input_account), Some(output_account)) => choose_route(
                session.is_bought,
                input_is_wsol,
                input_account,
                output_account,
            ),
            _ => {
                return Step::InvalidAddress;
            },
        };
        let pending: PendingSwap = PendingSwap {
            is_bought: session.is_bought,
            accounts: copy_rerouted(&swap.accounts, &trader.wallet, &route),
            route,
            input_mint,
            output_mint,
            reserves: own_reserves(session.is_bought, input_is_wsol, reserves),
        };
        if session.is_bought {
            return Step::NeedsBalance(pending);
        }
        self.settle(session, trader, pending, trader.settings.buy_sol_amount)
    }

    /// Gives a pending swap its amount.
    pub fn settle(
        &self,
        session: &mut Session,
        trader: &Trader,
        pending: PendingSwap,
        amount: u64,
    ) -> (r: Step)
        ensures
            (r@, final(session)@) == settled(old(session)@, *trader, pending@, amount),
    {
        if !can_take(amount, pending.reserves.input) {
            return Step::Stopped;
        }
        let slippage: Binary64 = if !pending.is_bought {
            trader.settings.entry_slippage
        } else {
            match trader.settings.exit_slippage {
                Some(v) => v,
                None => {
                    return Step::InvalidExitSlippage;
                },
            }
        };
        match minimum_output(amount, pending.reserves.input, pending.reserves.output, slippage) {
            Some(minimum_amount_out) => {
                session.plan =
                Some(
                    SwapPlan {
                        accounts: pending.accounts,
                        input_mint: pending.input_mint,
                        output_mint: pending.output_mint,
                        amount_in: amount,
                        minimum_amount_out,
                    },
                );
                Step::Prepared
            },
            None => Step::Stopped,
        }
    }

    /// Goes on once the balance query is answered; `None` stands for a query
    /// that failed.
    pub fn resume(
        &self,
        session: &mut Session,
        trader: &Trader,
        pending: PendingSwap,
        reply: Option<String>,
    ) -> (r: Step)
        ensures
            (r@, final(session)@) == resumed(
                old(session)@,
                *trader,
                pending@,
                match reply {
                    Some(t) => Some(t@),
                    None => None,
                },
            ),
    {
        match reply {
            None => Step::Stopped,
            Some(text) => match parse_u64(text.as_str()) {
                None => Step::Stopped,
                Some(amount) => self.settle(session, trader, pending, amount),
            },
        }
    }

    /// Takes notice of a transaction of the pool, watching the bot's wrapped SOL
    /// account. Tells whether the transaction was the bot's own; `None` if the
    /// account cannot be derived.
    pub fn confirm(
        &self,
        session: &mut Session,
        trader: &Trader,
        receipt: &Receipt,
        runtime_ms: Option<u128>,
    ) -> (r: Option<bool>)
        requires
            old(session)@.valid(),
        ensures
            match token_account(trader.wallet, trader.wsol) {
                None => r is None && final(session)@ == old(session)@,
                Some(account) => {
                    &&& r == Some(is_own(old(session)@, account, *receipt))
                    &&& final(session)@ == after_receipt(
                        old(session)@,
                        account,
                        *receipt,
                        runtime_ms,
                    )
                },
            },
            final(session)@.valid(),
    {
        match associated_token_account(&trader.wallet, &trader.wsol) {
            None => None,
            Some(account) => Some(session.receive(&account, receipt, runtime_ms)),
        }
    }

    /// Ends the handling of a transaction of the pool after the step that was
    /// taken on its swap. Tells whether the transaction was noticed as the bot's
    /// own; `None` if the bot's wrapped SOL account cannot be derived.
    pub fn conclude(
        &self,
        session: &mut Session,
        trader: &Trader,
        step: &Step,
        receipt: &Receipt,
        runtime_ms: Option<u128>,
    ) -> (r: Option<bool>)
        requires
            old(session)@.valid(),
        ensures
            (r, final(session)@) == concluded(
                old(session)@,
                *trader,
                step@,
                *receipt,
                runtime_ms,
            ),
            final(session)@.valid(),
    {
        if step.goes_on() {
            self.confirm(session, trader, receipt, runtime_ms)
        } else {
            Some(false)
        }
    }
}

} // verus!
