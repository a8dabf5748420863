//! What the bot makes of a swap in the watched pool, in terms of what the swap
//! shows: its accounts, its mints and the pool's holdings.

use crate::address::{address_of_text, base58_text, parties_of, token_account, Address, SwapParties};
use crate::binary64::{real_of_int, real_of_ratio, Real};
use crate::decimal::{real_of_text, u64_of_text};
use crate::price::{least_output, price_of, takes_input};
use crate::process::{
    decimals_of, direction_of, listed_decimals, pays_coin, reserves_between, resumed, route_between,
    settled, shown_price, swap_outcome, Direction, PendingView, PoolSwap, Route, StepView,
    TokenBalance, Trader,
};
use crate::session::SessionView;
use vstd::prelude::*;

verus! {

/// Whether a swap shows the pool: its accounts are those of a swap, and the
/// pool's holdings are listed.
pub open spec fn shows_pool(swap: PoolSwap) -> bool {
    &&& swap.accounts@.len() == 17 || swap.accounts@.len() == 18
    &&& swap.coin is Some
    &&& swap.pc is Some
    &&& swap.pre_coin is Some
    &&& swap.pre_pc is Some
}

/// Whether both mints are addresses for which the user has a token account.
pub open spec fn names_mints(swap: PoolSwap) -> bool {
    let owner = swap.accounts@.last();
    &&& address_of_text(swap.coin->0.mint@) matches Some(c) && token_account(owner, c) is Some
    &&& address_of_text(swap.pc->0.mint@) matches Some(d) && token_account(owner, d) is Some
}

/// Whether all four holdings are numbers.
pub open spec fn has_numbers(swap: PoolSwap) -> bool {
    &&& real_of_text(swap.coin->0.amount@) is Some
    &&& real_of_text(swap.pc->0.amount@) is Some
    &&& real_of_text(swap.pre_coin->0.amount@) is Some
    &&& real_of_text(swap.pre_pc->0.amount@) is Some
}

/// How far a swap is handled. It is ignored where it does not show the pool. It
/// stops at an invalid address, or at a holding that is not a number. After that
/// it shows a price. With a position the balance is asked for; without one a
/// purchase is prepared, unless what the bot would pay into does not add up to a
/// positive total. Only the price and the plan may change, the plan only where
/// one is prepared.
pub proof fn law_swap_steps(s: SessionView, trader: Trader, swap: PoolSwap)
    ensures
        ({
            let (step, t) = swap_outcome(s, trader, swap);
            let parties = parties_of(swap.accounts@)->0;
            let c = address_of_text(swap.coin->0.mint@)->0;
            let d = address_of_text(swap.pc->0.mint@)->0;
            let coin_in = token_account(parties.owner, c) == Some(parties.source) || token_account(
                parties.owner,
                d,
            ) == Some(parties.destination);
            let (input_mint, output_mint) = if coin_in {
                (c, d)
            } else {
                (d, c)
            };
            let coin = real_of_text(swap.coin->0.amount@)->0;
            let pc = real_of_text(swap.pc->0.amount@)->0;
            let (x, y) = if coin_in {
                (coin, pc)
            } else {
                (pc, coin)
            };
            let readable = shows_pool(swap) && names_mints(swap) && has_numbers(swap);
            let has_accounts = token_account(trader.wallet, c) is Some && token_account(
                trader.wallet,
                d,
            ) is Some;
            let paid_into = if input_mint == trader.wsol {
                x
            } else {
                y
            };
            let takes = paid_into.plus(
                real_of_int(trader.settings.buy_sol_amount as int),
            ).positive();
            &&& step is Ignored <==> !shows_pool(swap)
            &&& step is InvalidAddress <==> shows_pool(swap) && !names_mints(swap) || readable
                && !has_accounts
            &&& step is Stopped <==> shows_pool(swap) && names_mints(swap) && !has_numbers(swap)
                || readable && has_accounts && !s.is_bought && !takes
            &&& step is NeedsBalance <==> readable && has_accounts && s.is_bought
            &&& step is Prepared <==> readable && has_accounts && !s.is_bought && takes
            &&& !readable ==> t == s
            &&& step !is Prepared ==> t.plan == s.plan
            &&& t == SessionView { latest_pool_price: t.latest_pool_price, plan: t.plan, ..s }
        }),
{
}

/// The coin went into the pool exactly where the user paid from the token
/// account of the coin, or was paid into that of the pc.
pub proof fn law_direction_rule(parties: SwapParties, coin: Seq<char>, pc: Seq<char>)
    ensures
        direction_of(parties, coin, pc) is Some <==> (address_of_text(coin) matches Some(c)
            && token_account(parties.owner, c) is Some) && (address_of_text(pc) matches Some(d)
            && token_account(parties.owner, d) is Some),
        direction_of(parties, coin, pc) matches Some(found) ==> {
            &&& Some(found.coin_mint) == address_of_text(coin)
            &&& Some(found.pc_mint) == address_of_text(pc)
            &&& found.coin_is_input <==> token_account(parties.owner, found.coin_mint) == Some(
                parties.source,
            ) || token_account(parties.owner, found.pc_mint) == Some(parties.destination)
            &&& found.input_mint() == if found.coin_is_input {
                found.coin_mint
            } else {
                found.pc_mint
            }
            &&& found.output_mint() == if found.coin_is_input {
                found.pc_mint
            } else {
                found.coin_mint
            }
        },
{
}

/// The user's accounts decide alone whether the coin went in.
pub proof fn law_paying_accounts(parties: SwapParties, coin_account: Address, pc_account: Address)
    ensures
        pays_coin(parties, coin_account, pc_account) <==> parties.source == coin_account
            || parties.destination == pc_account,
{
}

/// The decimals of a mint are those of its first balance after the transaction,
/// at place `i`; where there is none, those of its first balance before it, at
/// place `k`; where there is none either, six.
pub proof fn law_decimals_rule(
    post: Seq<TokenBalance>,
    pre: Seq<TokenBalance>,
    mint: Seq<char>,
    i: int,
    k: int,
)
    requires
        0 <= i <= post.len(),
        forall|j: int| 0 <= j < i ==> post[j].mint@ != mint,
        i < post.len() ==> post[i].mint@ == mint,
        0 <= k <= pre.len(),
        forall|j: int| 0 <= j < k ==> pre[j].mint@ != mint,
        k < pre.len() ==> pre[k].mint@ == mint,
    ensures
        decimals_of(post, pre, mint) == if i < post.len() {
            post[i].decimals
        } else if k < pre.len() {
            pre[k].decimals
        } else {
            6
        },
{
    lemma_first_listed(post, mint, i);
    lemma_first_listed(pre, mint, k);
}

proof fn lemma_first_listed(balances: Seq<TokenBalance>, mint: Seq<char>, i: int)
    requires
        0 <= i <= balances.len(),
        forall|j: int| 0 <= j < i ==> balances[j].mint@ != mint,
        i < balances.len() ==> balances[i].mint@ == mint,
    ensures
        listed_decimals(balances, mint) == if i < balances.len() {
            Some(balances[i].decimals)
        } else {
            None
        },
    decreases i,
{
    if i > 0 {
        let rest = balances.subrange(1, balances.len() as int);
        assert forall|j: int| 0 <= j < i - 1 implies rest[j].mint@ != mint by {
            assert(rest[j] == balances[j + 1]);
        }
        lemma_first_listed(rest, mint, i - 1);
    }
}

/// The price is that of the token in SOL: the pool's SOL over its tokens, each
/// in whole coins. The SOL side is the input where that is wrapped SOL, else the
/// output.
pub proof fn law_price_rule(s: SessionView, trader: Trader, swap: PoolSwap)
    requires
        shows_pool(swap),
        names_mints(swap),
        has_numbers(swap),
    ensures
        ({
            let parties = parties_of(swap.accounts@)->0;
            let c = address_of_text(swap.coin->0.mint@)->0;
            let d = address_of_text(swap.pc->0.mint@)->0;
            let coin_in = token_account(parties.owner, c) == Some(parties.source) || token_account(
                parties.owner,
                d,
            ) == Some(parties.destination);
            let (input_mint, output_mint) = if coin_in {
                (c, d)
            } else {
                (d, c)
            };
            let coin = real_of_text(swap.coin->0.amount@)->0;
            let pc = real_of_text(swap.pc->0.amount@)->0;
            let (x, y) = if coin_in {
                (coin, pc)
            } else {
                (pc, coin)
            };
            let (sol_held, token_held, token) = if input_mint == trader.wsol {
                (x, y, output_mint)
            } else {
                (y, x, input_mint)
            };
            let decimals = decimals_of(
                swap.post_balances@,
                swap.pre_balances@,
                base58_text(token),
            );
            swap_outcome(s, trader, swap).1.latest_pool_price == Some(
                if token_held.positive() {
                    sol_held.over(trader.powers.power(9)).over(
                        token_held.over(trader.powers.power(decimals)),
                    )
                } else {
                    Real::Finite { negative: false, units: 0 }
                },
            )
        }),
{
}

/// In a pool of wrapped SOL and a token, whichever of them is the coin and
/// whichever way the observed swap went, the price is the SOL that the pool
/// holds, over the tokens that it holds, by the decimals of the token.
pub proof fn law_price_of_sol_pool(s: SessionView, trader: Trader, swap: PoolSwap, token: Address)
    requires
        shows_pool(swap),
        names_mints(swap),
        has_numbers(swap),
        token != trader.wsol,
        address_of_text(swap.coin->0.mint@) == Some(trader.wsol) && address_of_text(
            swap.pc->0.mint@,
        ) == Some(token) || address_of_text(swap.coin->0.mint@) == Some(token) && address_of_text(
            swap.pc->0.mint@,
        ) == Some(trader.wsol),
    ensures
        ({
            let coin = real_of_text(swap.coin->0.amount@)->0;
            let pc = real_of_text(swap.pc->0.amount@)->0;
            let (sol_held, token_held) = if address_of_text(swap.coin->0.mint@) == Some(
                trader.wsol,
            ) {
                (coin, pc)
            } else {
                (pc, coin)
            };
            let decimals = decimals_of(
                swap.post_balances@,
                swap.pre_balances@,
                base58_text(token),
            );
            swap_outcome(s, trader, swap).1.latest_pool_price == Some(
                if token_held.positive() {
                    sol_held.over(trader.powers.power(9)).over(
                        token_held.over(trader.powers.power(decimals)),
                    )
                } else {
                    Real::Finite { negative: false, units: 0 }
                },
            )
        }),
{
}

/// The price for any direction and any reserves, by the mint that is not wrapped
/// SOL.
pub proof fn law_shown_price_rule(
    trader: Trader,
    direction: Direction,
    x: Real,
    y: Real,
    post: Seq<TokenBalance>,
    pre: Seq<TokenBalance>,
)
    ensures
        ({
            let (input_mint, output_mint) = if direction.coin_is_input {
                (direction.coin_mint, direction.pc_mint)
            } else {
                (direction.pc_mint, direction.coin_mint)
            };
            let (sol_held, token_held, token) = if input_mint == trader.wsol {
                (x, y, output_mint)
            } else {
                (y, x, input_mint)
            };
            let decimals = decimals_of(post, pre, base58_text(token));
            shown_price(trader, direction, x, y, post, pre) == if token_held.positive() {
                sol_held.over(trader.powers.power(9)).over(
                    token_held.over(trader.powers.power(decimals)),
                )
            } else {
                Real::Finite { negative: false, units: 0 }
            }
        }),
{
}

/// The price formula, for any amounts and scales.
pub proof fn law_price_formula(sol: Real, token: Real, sol_scale: Real, token_scale: Real)
    ensures
        price_of(sol, token, sol_scale, token_scale) == if token.positive() {
            sol.over(sol_scale).over(token.over(token_scale))
        } else {
            Real::Finite { negative: false, units: 0 }
        },
{
}

/// The least output is what the constant product gives for the amount, less the
/// pool's fee of three in a thousand and the slippage, in whole units; there is
/// none where the amount and the reserve are not positive together.
pub proof fn law_least_output_formula(amount: u64, input: Real, output: Real, slippage: Real)
    ensures
        takes_input(amount, input) <==> input.plus(real_of_int(amount as int)).positive(),
        least_output(amount, input, output, slippage) == if input.plus(
            real_of_int(amount as int),
        ).positive() {
            Some(
                real_of_ratio(997, 1000).times(
                    real_of_int(1).minus(slippage),
                ).times(real_of_int(amount as int)).times(output).over(
                    input.plus(real_of_int(amount as int)),
                ).as_u64(),
            )
        } else {
            None
        },
{
}

/// A purchase that is prepared after a swap in any pool spends the configured
/// amount. It pays from the wallet's account for the observed input into that
/// for the output where the input is wrapped SOL, else the other way round; it
/// keeps all other accounts of the swap, and is the wallet's. It demands what the
/// pool gives for the amount in that direction, less the entry slippage.
pub proof fn law_purchase_rule(s: SessionView, trader: Trader, swap: PoolSwap)
    requires
        !s.is_bought,
        swap_outcome(s, trader, swap).0 is Prepared,
    ensures
        ({
            let t = swap_outcome(s, trader, swap).1;
            let n = swap.accounts@.len();
            let amount = trader.settings.buy_sol_amount;
            let slippage = trader.settings.entry_slippage@;
            let parties = parties_of(swap.accounts@)->0;
            let c = address_of_text(swap.coin->0.mint@)->0;
            let d = address_of_text(swap.pc->0.mint@)->0;
            let coin_in = token_account(parties.owner, c) == Some(parties.source) || token_account(
                parties.owner,
                d,
            ) == Some(parties.destination);
            let (input_mint, output_mint) = if coin_in {
                (c, d)
            } else {
                (d, c)
            };
            let coin = real_of_text(swap.coin->0.amount@)->0;
            let pc = real_of_text(swap.pc->0.amount@)->0;
            let (x, y) = if coin_in {
                (coin, pc)
            } else {
                (pc, coin)
            };
            let (from, to, i, o) = if input_mint == trader.wsol {
                (input_mint, output_mint, x, y)
            } else {
                (output_mint, input_mint, y, x)
            };
            &&& t.plan is Some
            &&& t.plan->0.accounts.len() == n
            &&& forall|k: int|
                0 <= k < n - 3 ==> #[trigger] t.plan->0.accounts[k] == swap.accounts@[k]
            &&& Some(t.plan->0.accounts[n - 3]) == token_account(trader.wallet, from)
            &&& Some(t.plan->0.accounts[n - 2]) == token_account(trader.wallet, to)
            &&& t.plan->0.accounts[n - 1] == trader.wallet
            &&& t.plan->0.input_mint == input_mint
            &&& t.plan->0.output_mint == output_mint
            &&& t.plan->0.amount_in == amount
            &&& t.plan->0.minimum_amount_out == real_of_ratio(997, 1000).times(
                    real_of_int(1).minus(slippage),
                ).times(real_of_int(amount as int)).times(o).over(
                    i.plus(real_of_int(amount as int)),
                ).as_u64()
        }),
{
}

/// In a pool of wrapped SOL and a token, whichever way the observed swap went, a
/// purchase pays from the wallet's wrapped SOL account into its token account,
/// in the same pool, and demands tokens for SOL.
pub proof fn law_purchase_in_sol_pool(s: SessionView, trader: Trader, swap: PoolSwap, token: Address)
    requires
        !s.is_bought,
        swap_outcome(s, trader, swap).0 is Prepared,
        token != trader.wsol,
        address_of_text(swap.coin->0.mint@) == Some(trader.wsol) && address_of_text(
            swap.pc->0.mint@,
        ) == Some(token) || address_of_text(swap.coin->0.mint@) == Some(token) && address_of_text(
            swap.pc->0.mint@,
        ) == Some(trader.wsol),
    ensures
        ({
            let t = swap_outcome(s, trader, swap).1;
            let amount = trader.settings.buy_sol_amount;
            let slippage = trader.settings.entry_slippage@;
            let coin = real_of_text(swap.coin->0.amount@)->0;
            let pc = real_of_text(swap.pc->0.amount@)->0;
            let (sol_held, token_held) = if address_of_text(swap.coin->0.mint@) == Some(
                trader.wsol,
            ) {
                (coin, pc)
            } else {
                (pc, coin)
            };
            &&& t.plan is Some
            &&& parties_of(t.plan->0.accounts) matches Some(own) && {
                &&& Some(own.source) == token_account(trader.wallet, trader.wsol)
                &&& Some(own.destination) == token_account(trader.wallet, token)
                &&& own.owner == trader.wallet
                &&& own.amm_authority == parties_of(swap.accounts@)->0.amm_authority
                &&& own.pool_coin == parties_of(swap.accounts@)->0.pool_coin
                &&& own.pool_pc == parties_of(swap.accounts@)->0.pool_pc
            }
            &&& t.plan->0.amount_in == amount
            &&& t.plan->0.minimum_amount_out == real_of_ratio(997, 1000).times(
                    real_of_int(1).minus(slippage),
                ).times(real_of_int(amount as int)).times(token_held).over(
                    sol_held.plus(real_of_int(amount as int)),
                ).as_u64()
        }),
{
}

/// A sale that waits for its balance, in any pool, goes the way back of a
/// purchase: the balance that is asked for is that of the account it pays from.
pub proof fn law_pending_sale_rule(s: SessionView, trader: Trader, swap: PoolSwap)
    requires
        swap_outcome(s, trader, swap).0 is NeedsBalance,
    ensures
        ({
            let pending = swap_outcome(s, trader, swap).0->NeedsBalance_0;
            let n = swap.accounts@.len();
            let parties = parties_of(swap.accounts@)->0;
            let c = address_of_text(swap.coin->0.mint@)->0;
            let d = address_of_text(swap.pc->0.mint@)->0;
            let coin_in = token_account(parties.owner, c) == Some(parties.source) || token_account(
                parties.owner,
                d,
            ) == Some(parties.destination);
            let (input_mint, output_mint) = if coin_in {
                (c, d)
            } else {
                (d, c)
            };
            let coin = real_of_text(swap.coin->0.amount@)->0;
            let pc = real_of_text(swap.pc->0.amount@)->0;
            let (x, y) = if coin_in {
                (coin, pc)
            } else {
                (pc, coin)
            };
            let (from, to, i, o) = if input_mint == trader.wsol {
                (output_mint, input_mint, y, x)
            } else {
                (input_mint, output_mint, x, y)
            };
            &&& pending.is_bought
            &&& Some(pending.route.source) == token_account(trader.wallet, from)
            &&& Some(pending.route.destination) == token_account(trader.wallet, to)
            &&& pending.accounts.len() == n
            &&& forall|k: int|
                0 <= k < n - 3 ==> #[trigger] pending.accounts[k] == swap.accounts@[k]
            &&& pending.accounts[n - 3] == pending.route.source
            &&& pending.accounts[n - 2] == pending.route.destination
            &&& pending.accounts[n - 1] == trader.wallet
            &&& pending.input_mint == input_mint
            &&& pending.output_mint == output_mint
            &&& pending.input == i
            &&& pending.output == o
        }),
{
}

/// In a pool of wrapped SOL and a token, whichever way the observed swap went, a
/// sale asks for the balance of the wallet's token account, pays that balance
/// from there into the wrapped SOL account, in the same pool, and demands SOL for
/// tokens. The balance may be answered in any later state.
pub proof fn law_sale_in_sol_pool(
    s: SessionView,
    later: SessionView,
    trader: Trader,
    swap: PoolSwap,
    token: Address,
    reply: Seq<char>,
)
    requires
        swap_outcome(s, trader, swap).0 is NeedsBalance,
        resumed(
            later,
            trader,
            swap_outcome(s, trader, swap).0->NeedsBalance_0,
            Some(reply),
        ).0 is Prepared,
        token != trader.wsol,
        address_of_text(swap.coin->0.mint@) == Some(trader.wsol) && address_of_text(
            swap.pc->0.mint@,
        ) == Some(token) || address_of_text(swap.coin->0.mint@) == Some(token) && address_of_text(
            swap.pc->0.mint@,
        ) == Some(trader.wsol),
    ensures
        ({
            let pending = swap_outcome(s, trader, swap).0->NeedsBalance_0;
            let plan = resumed(later, trader, pending, Some(reply)).1.plan;
            let amount = u64_of_text(reply)->0;
            let coin = real_of_text(swap.coin->0.amount@)->0;
            let pc = real_of_text(swap.pc->0.amount@)->0;
            let (sol_held, token_held) = if address_of_text(swap.coin->0.mint@) == Some(
                trader.wsol,
            ) {
                (coin, pc)
            } else {
                (pc, coin)
            };
            &&& Some(pending.route.source) == token_account(trader.wallet, token)
            &&& plan is Some
            &&& parties_of(plan->0.accounts) matches Some(own) && {
                &&& Some(own.source) == token_account(trader.wallet, token)
                &&& Some(own.destination) == token_account(trader.wallet, trader.wsol)
                &&& own.owner == trader.wallet
                &&& own.amm_authority == parties_of(swap.accounts@)->0.amm_authority
                &&& own.pool_coin == parties_of(swap.accounts@)->0.pool_coin
                &&& own.pool_pc == parties_of(swap.accounts@)->0.pool_pc
            }
            &&& u64_of_text(reply) == Some(plan->0.amount_in)
            &&& trader.settings.exit_slippage is Some
            &&& plan->0.minimum_amount_out == real_of_ratio(997, 1000).times(
                    real_of_int(1).minus(trader.settings.exit_slippage->0@),
                ).times(real_of_int(amount as int)).times(sol_held).over(
                    token_held.plus(real_of_int(amount as int)),
                ).as_u64()
        }),
{
}

/// A pending swap that is given its amount becomes the plan, with the least
/// output by the slippage of its kind. It stops where the amount and the reserve
/// are not positive together, and a sale fails without an exit slippage; then
/// nothing changes.
pub proof fn law_settle_rule(s: SessionView, trader: Trader, pending: PendingView, amount: u64)
    ensures
        ({
            let (step, t) = settled(s, trader, pending, amount);
            let takes = pending.input.plus(real_of_int(amount as int)).positive();
            let lacks = pending.is_bought && trader.settings.exit_slippage is None;
            let slippage = if pending.is_bought {
                trader.settings.exit_slippage->0@
            } else {
                trader.settings.entry_slippage@
            };
            &&& step is Stopped <==> !takes
            &&& step is InvalidExitSlippage <==> takes && lacks
            &&& step is Prepared <==> takes && !lacks
            &&& step !is Prepared ==> t == s
            &&& t == SessionView { plan: t.plan, ..s }
            &&& step is Prepared ==> {
                &&& t.plan is Some
                &&& t.plan->0.accounts == pending.accounts
                &&& t.plan->0.input_mint == pending.input_mint
                &&& t.plan->0.output_mint == pending.output_mint
                &&& t.plan->0.amount_in == amount
                &&& t.plan->0.minimum_amount_out == real_of_ratio(997, 1000).times(
                    real_of_int(1).minus(slippage),
                ).times(real_of_int(amount as int)).times(pending.output).over(
                    pending.input.plus(real_of_int(amount as int)),
                ).as_u64()
            }
        }),
{
}

/// A reply that is an unsigned integer gives a pending swap that amount; any
/// other reply, or none, stops it and changes nothing.
pub proof fn law_reply_rule(
    s: SessionView,
    trader: Trader,
    pending: PendingView,
    reply: Option<Seq<char>>,
)
    ensures
        reply is None ==> resumed(s, trader, pending, reply) == (StepView::Stopped, s),
        reply matches Some(text) ==> {
            &&& u64_of_text(text) is None ==> resumed(s, trader, pending, reply) == (
                StepView::Stopped,
                s,
            )
            &&& u64_of_text(text) matches Some(amount) ==> resumed(s, trader, pending, reply)
                == settled(s, trader, pending, amount)
        },
{
}

/// The route and the reserves of the bot's swap turn round together.
pub proof fn law_route_and_reserves_agree(
    is_bought: bool,
    input_is_wsol: bool,
    a: Address,
    b: Address,
    x: Real,
    y: Real,
)
    ensures
        ({
            let forth = is_bought != input_is_wsol;
            let route = route_between(is_bought, input_is_wsol, a, b);
            &&& forth ==> route == (Route { source: a, destination: b }) && reserves_between(
                is_bought,
                input_is_wsol,
                x,
                y,
            ) == (x, y)
            &&& !forth ==> route == (Route { source: b, destination: a }) && reserves_between(
                is_bought,
                input_is_wsol,
                x,
                y,
            ) == (y, x)
        }),
{
}

/// In a pool of wrapped SOL and a token it does not matter who swapped which way
/// before: two swaps after which the pool is the same show the same price and
/// prepare the same purchase.
pub proof fn law_observed_user_does_not_matter(
    s: SessionView,
    trader: Trader,
    swap: PoolSwap,
    other: PoolSwap,
    token: Address,
)
    requires
        !s.is_bought,
        swap_outcome(s, trader, swap).0 is Prepared,
        swap_outcome(s, trader, other).0 is Prepared,
        other.coin == swap.coin,
        other.pc == swap.pc,
        other.post_balances == swap.post_balances,
        other.pre_balances == swap.pre_balances,
        other.accounts@.len() == swap.accounts@.len(),
        forall|k: int|
            0 <= k < swap.accounts@.len() - 3 ==> #[trigger] other.accounts@[k] == swap.accounts@[k],
        token != trader.wsol,
        address_of_text(swap.coin->0.mint@) == Some(trader.wsol) && address_of_text(
            swap.pc->0.mint@,
        ) == Some(token) || address_of_text(swap.coin->0.mint@) == Some(token) && address_of_text(
            swap.pc->0.mint@,
        ) == Some(trader.wsol),
    ensures
        ({
            let t = swap_outcome(s, trader, swap).1;
            let u = swap_outcome(s, trader, other).1;
            &&& t.latest_pool_price == u.latest_pool_price
            &&& t.plan is Some && u.plan is Some
            &&& t.plan->0.accounts == u.plan->0.accounts
            &&& t.plan->0.amount_in == u.plan->0.amount_in
            &&& t.plan->0.minimum_amount_out == u.plan->0.minimum_amount_out
        }),
{
    law_purchase_rule(s, trader, swap);
    law_purchase_rule(s, trader, other);
    let a = swap_outcome(s, trader, swap).1.plan->0.accounts;
    let b = swap_outcome(s, trader, other).1.plan->0.accounts;
    assert(a =~= b);
}

/// The handling of a transaction goes on exactly where its swap was ignored or a
/// swap is prepared.
pub proof fn law_goes_on(step: StepView)
    ensures
        step.goes_on() <==> step is Ignored || step is Prepared,
{
}

} // verus!
