//! The formulas that turn pool reserves into prices and swap amounts.

use crate::binary64::{real_of_int, real_of_ratio, Binary64, Real};
use vstd::prelude::*;

verus! {

/// Ten to the power of every exponent that fits a `u8`, as the platform's
/// power function gives it.
pub struct PowersOfTen {
    values: Vec<Binary64>,
}

impl PowersOfTen {
    #[verifier::type_invariant]
    spec fn complete(self) -> bool {
        self.values@.len() == 256
    }

    /// The power for an exponent.
    pub closed spec fn power(&self, exponent: u8) -> Real {
        self.values@[exponent as int]@
    }

    /// Takes the powers in the order of their exponents, from 0 to 255.
    pub fn new(values: Vec<Binary64>) -> (r: Option<PowersOfTen>)
        ensures
            r is Some <==> values@.len() == 256,
            r matches Some(p) ==> forall|e: u8| #[trigger] p.power(e) == values@[e as int]@,
    {
        if values.len() == 256 {
            Some(PowersOfTen { values })
        } else {
            None
        }
    }

    /// Ten to the power of `exponent`.
    pub fn get(&self, exponent: u8) -> (r: Binary64)
        ensures
            r@ == self.power(exponent),
    {
        proof {
            use_type_invariant(&*self);
        }
        self.values[exponent as usize]
    }
}

/// The change from `old` to `new`, in percent of `old`.
pub open spec fn change_percent(old: Real, new: Real) -> Real {
    new.minus(old).over(old).times(real_of_int(100))
}

/// The change from `old` to `new`, in percent of `old`.
pub fn percent_change(old: Binary64, new: Binary64) -> (r: Binary64)
    ensures
        r@ == change_percent(old@, new@),
{
    new.minus(old).over(old).times(Binary64::from_u64(100))
}

/// The price of one token in SOL: the SOL in the pool per token in the pool,
/// both scaled from base units; zero for a pool that holds no tokens.
pub open spec fn price_of(sol: Real, token: Real, sol_scale: Real, token_scale: Real) -> Real {
    if token.positive() {
        sol.over(sol_scale).over(token.over(token_scale))
    } else {
        Real::Finite { negative: false, units: 0 }
    }
}

/// The price of one token in SOL.
pub fn pool_price(
    sol: Binary64,
    token: Binary64,
    sol_scale: Binary64,
    token_scale: Binary64,
) -> (r: Binary64)
    ensures
        r@ == price_of(sol@, token@, sol_scale@, token_scale@),
{
    if token.positive() {
        sol.over(sol_scale).over(token.over(token_scale))
    } else {
        Binary64::zero(false)
    }
}

/// The share of the constant product output that remains after the pool fee
/// of 0.3 percent and the tolerated slippage.
pub open spec fn kept_share(slippage: Real) -> Real {
    real_of_ratio(997, 1000).times(real_of_int(1).minus(slippage))
}

/// Whether a pool's reserve and an amount put into it add up to a positive
/// total.
pub open spec fn takes_input(amount: u64, input: Real) -> bool {
    input.plus(real_of_int(amount as int)).positive()
}

/// Whether a pool's reserve and an amount put into it add up to a positive
/// total.
pub fn can_take(amount: u64, input: Binary64) -> (r: bool)
    ensures
        r == takes_input(amount, input@),
{
    input.plus(Binary64::from_u64(amount)).positive()
}

/// The least output to accept for `amount` put into a pool, or `None` where that
/// does not add up to a positive total.
pub open spec fn least_output(amount: u64, input: Real, output: Real, slippage: Real) -> Option<
    u64,
> {
    let paid = real_of_int(amount as int);
    let total = input.plus(paid);
    if takes_input(amount, input) {
        Some(kept_share(slippage).times(paid).times(output).over(total).as_u64())
    } else {
        None
    }
}

/// The least output to accept for `amount` put into a pool.
pub fn minimum_output(
    amount: u64,
    input: Binary64,
    output: Binary64,
    slippage: Binary64,
) -> (r: Option<u64>)
    ensures
        r == least_output(amount, input@, output@, slippage@),
{
    let paid: Binary64 = Binary64::from_u64(amount);
    let total: Binary64 = input.plus(paid);
    if total.positive() {
        let fee: Binary64 = Binary64::from_ratio(997, 1000);
        let kept: Binary64 = fee.times(Binary64::from_u64(1).minus(slippage));
        Some(kept.times(paid).times(output).over(total).to_u64())
    } else {
        None
    }
}

} // verus!
