//! The trading parameters, read from the text of environment variables.

use crate::binary64::{optional_real, real_of_int, Binary64, Real};
use crate::decimal::{parse_binary64, parse_u64, real_of_text, u64_of_text};
use crate::price::PowersOfTen;
use vstd::prelude::*;

verus! {

/// The text of each variable, where it is set.
#[derive(Debug)]
pub struct RawSettings {
    pub confirm_service: Option<String>,
    pub cu: Option<String>,
    pub priority_fee_micro_lamport: Option<String>,
    pub third_party_fee: Option<String>,
    pub buy_sol_amount: Option<String>,
    pub slippage: Option<String>,
    pub entry_slippage: Option<String>,
    pub exit_slippage: Option<String>,
    pub entry_percent: Option<String>,
    pub take_profit: Option<String>,
    pub stop_loss: Option<String>,
    pub auto_exit: Option<String>,
}

/// The trading parameters.
///
/// Percentages are in percent, but for the two slippages, which are fractions.
/// The amount to buy for is in lamports, the auto exit in seconds. An exit
/// slippage whose text is invalid is `None`: only a sale needs it.
#[derive(Debug)]
pub struct TradeSettings {
    pub confirm_service: String,
    pub cu: u64,
    pub priority_fee_micro_lamport: u64,
    pub third_party_fee: Binary64,
    pub buy_sol_amount: u64,
    pub entry_slippage: Binary64,
    pub exit_slippage: Option<Binary64>,
    pub entry_percent: Binary64,
    pub take_profit: Binary64,
    pub stop_loss: Binary64,
    pub auto_exit: u64,
}

/// Why the parameters could not be read.
#[derive(Clone, Copy, Debug, PartialEq, Eq, Structural)]
pub enum SettingError {
    MissingBuySolAmount,
    InvalidBuySolAmount,
    InvalidEntryPercent,
    InvalidEntrySlippage,
    InvalidStopLoss,
    InvalidTakeProfit,
    InvalidAutoExit,
}

/// What the parameters stand for.
pub struct SettingsView {
    pub confirm_service: Seq<char>,
    pub cu: u64,
    pub priority_fee_micro_lamport: u64,
    pub third_party_fee: Real,
    pub buy_sol_amount: u64,
    pub entry_slippage: Real,
    pub exit_slippage: Option<Real>,
    pub entry_percent: Real,
    pub take_profit: Real,
    pub stop_loss: Real,
    pub auto_exit: u64,
}

impl View for TradeSettings {
    type V = SettingsView;

    open spec fn view(&self) -> SettingsView {
        SettingsView {
            confirm_service: self.confirm_service@,
            cu: self.cu,
            priority_fee_micro_lamport: self.priority_fee_micro_lamport,
            third_party_fee: self.third_party_fee@,
            buy_sol_amount: self.buy_sol_amount,
            entry_slippage: self.entry_slippage@,
            exit_slippage: optional_real(self.exit_slippage),
            entry_percent: self.entry_percent@,
            take_profit: self.take_profit@,
            stop_loss: self.stop_loss@,
            auto_exit: self.auto_exit,
        }
    }
}

/// The characters of an optional text.
pub open spec fn optional_text(text: Option<String>) -> Option<Seq<char>> {
    match text {
        Some(t) => Some(t@),
        None => None,
    }
}

/// An unsigned integer; zero where the text is missing or invalid.
pub open spec fn unsigned_or_zero(text: Option<Seq<char>>) -> u64 {
    match text {
        Some(t) => match u64_of_text(t) {
            Some(v) => v,
            None => 0,
        },
        None => 0,
    }
}

/// A number; zero where the text is missing or invalid.
pub open spec fn number_or_zero(text: Option<Seq<char>>) -> Real {
    match text {
        Some(t) => match real_of_text(t) {
            Some(v) => v,
            None => Real::Finite { negative: false, units: 0 },
        },
        None => Real::Finite { negative: false, units: 0 },
    }
}

/// A percentage; one hundred where the text is missing, `None` where it is
/// invalid.
pub open spec fn percent_or_hundred(text: Option<Seq<char>>) -> Option<Real> {
    match text {
        Some(t) => real_of_text(t),
        None => Some(real_of_int(100)),
    }
}

/// A slippage fraction, from a percentage of its own or else from the shared
/// one.
pub open spec fn slippage_fraction(own: Option<Seq<char>>, shared: Option<Seq<char>>) -> Option<
    Real,
> {
    match percent_or_hundred(
        if own is Some {
            own
        } else {
            shared
        },
    ) {
        Some(v) => Some(v.over(real_of_int(100))),
        None => None,
    }
}

/// A number of seconds; sixty where the text is missing, `None` where it is
/// invalid.
pub open spec fn seconds_or_sixty(text: Option<Seq<char>>) -> Option<u64> {
    match text {
        Some(t) => u64_of_text(t),
        None => Some(60),
    }
}

/// The parameters that the texts stand for, or the first fault in them.
pub open spec fn settings_of(raw: RawSettings, sol_scale: Real) -> Result<
    SettingsView,
    SettingError,
> {
    let shared = optional_text(raw.slippage);
    let amount = optional_text(raw.buy_sol_amount);
    let entry_slippage = slippage_fraction(optional_text(raw.entry_slippage), shared);
    let exit_slippage = slippage_fraction(optional_text(raw.exit_slippage), shared);
    let entry_percent = percent_or_hundred(optional_text(raw.entry_percent));
    let take_profit = percent_or_hundred(optional_text(raw.take_profit));
    let stop_loss = percent_or_hundred(optional_text(raw.stop_loss));
    let auto_exit = seconds_or_sixty(optional_text(raw.auto_exit));
    if amount is None {
        Err(SettingError::MissingBuySolAmount)
    } else if real_of_text(amount->0) is None {
        Err(SettingError::InvalidBuySolAmount)
    } else if entry_percent is None {
        Err(SettingError::InvalidEntryPercent)
    } else if entry_slippage is None {
        Err(SettingError::InvalidEntrySlippage)
    } else if stop_loss is None {
        Err(SettingError::InvalidStopLoss)
    } else if take_profit is None {
        Err(SettingError::InvalidTakeProfit)
    } else if auto_exit is None {
        Err(SettingError::InvalidAutoExit)
    } else {
        Ok(
            SettingsView {
                confirm_service: match raw.confirm_service {
                    Some(t) => t@,
                    None => "NOZOMI"@,
                },
                cu: unsigned_or_zero(optional_text(raw.cu)),
                priority_fee_micro_lamport: unsigned_or_zero(
                    optional_text(raw.priority_fee_micro_lamport),
                ),
                third_party_fee: number_or_zero(optional_text(raw.third_party_fee)),
                buy_sol_amount: real_of_text(amount->0)->0.times(sol_scale).as_u64(),
                entry_slippage: entry_slippage->0,
                exit_slippage,
                entry_percent: entry_percent->0,
                take_profit: take_profit->0,
                stop_loss: stop_loss->0,
                auto_exit: auto_exit->0,
            },
        )
    }
}

fn read_unsigned(text: &Option<String>) -> (r: u64)
    ensures
        r == unsigned_or_zero(optional_text(*text)),
{
    match text {
        Some(t) => match parse_u64(t.as_str()) {
            Some(v) => v,
            None => 0,
        },
        None => 0,
    }
}

fn read_number(text: &Option<String>) -> (r: Binary64)
    ensures
        r@ == number_or_zero(optional_text(*text)),
{
    match text {
        Some(t) => match parse_binary64(t.as_str()) {
            Some(v) => v,
            None => Binary64::zero(false),
        },
        None => Binary64::zero(false),
    }
}

fn read_percent(text: &Option<String>) -> (r: Option<Binary64>)
    ensures
        match (r, percent_or_hundred(optional_text(*text))) {
            (None, None) => true,
            (Some(x), Some(v)) => x@ == v,
            _ => false,
        },
{
    match text {
        Some(t) => parse_binary64(t.as_str()),
        None => Some(Binary64::from_u64(100)),
    }
}

fn read_slippage(own: &Option<String>, shared: &Option<String>) -> (r: Option<Binary64>)
    ensures
        match (r, slippage_fraction(optional_text(*own), optional_text(*shared))) {
            (None, None) => true,
            (Some(x), Some(v)) => x@ == v,
            _ => false,
        },
{
    let percent: Option<Binary64> = if own.is_some() {
        read_percent(own)
    } else {
        read_percent(shared)
    };
    match percent {
        Some(v) => Some(v.over(Binary64::from_u64(100))),
        None => None,
    }
}

impl TradeSettings {
    /// Reads the parameters. SOL amounts are scaled to lamports by ten to the
    /// power of nine.
    pub fn load(raw: &RawSettings, powers: &PowersOfTen) -> (r: Result<
        TradeSettings,
        SettingError,
    >)
        ensures
            match (r, settings_of(*raw, powers.power(9))) {
                (Ok(s), Ok(v)) => s@ == v,
                (Err(e), Err(f)) => e == f,
                _ => false,
            },
    {
        let amount: Binary64 = match &raw.buy_sol_amount {
            None => {
                return Err(SettingError::MissingBuySolAmount);
            },
            Some(t) => match parse_binary64(t.as_str()) {
                None => {
                    return Err(SettingError::InvalidBuySolAmount);
                },
                Some(v) => v,
            },
        };
        let entry_percent: Binary64 = match read_percent(&raw.entry_percent) {
            None => {
                return Err(SettingError::InvalidEntryPercent);
            },
            Some(v) => v,
        };
        let entry_slippage: Binary64 = match read_slippage(&raw.entry_slippage, &raw.slippage) {
            None => {
                return Err(SettingError::InvalidEntrySlippage);
            },
            Some(v) => v,
        };
        let stop_loss: Binary64 = match read_percent(&raw.stop_loss) {
            None => {
                return Err(SettingError::InvalidStopLoss);
            },
            Some(v) => v,
        };
        let take_profit: Binary64 = match read_percent(&raw.take_profit) {
            None => {
                return Err(SettingError::InvalidTakeProfit);
            },
            Some(v) => v,
        };
        let auto_exit: u64 = match &raw.auto_exit {
            None => 60,
            Some(t) => match parse_u64(t.as_str()) {
                None => {
                    return Err(SettingError::InvalidAutoExit);
                },
                Some(v) => v,
            },
        };
        let confirm_service: String = match &raw.confirm_service {
            Some(t) => t.clone(),
            None => "NOZOMI".to_owned(),
        };
        Ok(
            TradeSettings {
                confirm_service,
                cu: read_unsigned(&raw.cu),
                priority_fee_micro_lamport: read_unsigned(&raw.priority_fee_micro_lamport),
                third_party_fee: read_number(&raw.third_party_fee),
                buy_sol_amount: amount.times(powers.get(9)).to_u64(),
                entry_slippage,
                exit_slippage: read_slippage(&raw.exit_slippage, &raw.slippage),
                entry_percent,
                take_profit,
                stop_loss,
                auto_exit,
            },
        )
    }
}

} // verus!
