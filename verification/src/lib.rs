//! A trading bot for one Raydium AMM pool, without its input and output.
//!
//! The bot watches the swaps of a pool. It buys when the price drops by a
//! configured percentage between two ticks, and sells again when the price
//! left its band around the purchase price. This crate holds everything that
//! decides: the price formulas, the swap that is kept ready, the rules of entry
//! and exit, and the accounting of confirmed trades. Prices are IEEE 754
//! numbers, computed here on their bits, so that each formula has an exact
//! meaning.

pub mod account_laws;
pub mod address;
pub mod address_laws;
pub mod bignat;
pub mod binary64;
pub mod decimal;
pub mod decision_laws;
pub mod laws;
pub mod number_laws;
pub mod order;
pub mod price;
pub mod process;
pub mod quote_laws;
pub mod rounding;
pub mod run;
pub mod session;
pub mod setting_laws;
pub mod settings;
pub mod swap_laws;
pub mod text_laws;
pub mod view_laws;
