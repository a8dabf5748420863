//! What the environment variables mean, one by one.

use crate::binary64::{real_of_int, Real};
use crate::decimal::{real_of_text, u64_of_text};
use crate::settings::{settings_of, RawSettings, SettingError};
use vstd::prelude::*;

verus! {

/// The first fault counts, in the order of the amount to buy for, the entry
/// percentage, the entry slippage, the stop loss, the take profit and the auto
/// exit. Only the amount must be set; any of them that is set must be a number.
/// The entry slippage may be given by the shared one. Other variables have no
/// faults.
pub proof fn law_setting_faults(raw: RawSettings, sol_scale: Real)
    ensures
        ({
            let r = settings_of(raw, sol_scale);
            let entry_slippage = if raw.entry_slippage is Some {
                raw.entry_slippage
            } else {
                raw.slippage
            };
            let missing = raw.buy_sol_amount is None;
            let amount = raw.buy_sol_amount is Some && real_of_text(
                raw.buy_sol_amount->0@,
            ) is None;
            let entry = raw.entry_percent is Some && real_of_text(raw.entry_percent->0@) is None;
            let slippage = entry_slippage is Some && real_of_text(entry_slippage->0@) is None;
            let loss = raw.stop_loss is Some && real_of_text(raw.stop_loss->0@) is None;
            let profit = raw.take_profit is Some && real_of_text(raw.take_profit->0@) is None;
            let time = raw.auto_exit is Some && u64_of_text(raw.auto_exit->0@) is None;
            &&& missing ==> r is Err && r->Err_0 == SettingError::MissingBuySolAmount
            &&& amount ==> r is Err && r->Err_0 == SettingError::InvalidBuySolAmount
            &&& !missing && !amount ==> {
                &&& entry ==> r is Err && r->Err_0 == SettingError::InvalidEntryPercent
                &&& !entry && slippage ==> r is Err && r->Err_0
                    == SettingError::InvalidEntrySlippage
                &&& !entry && !slippage && loss ==> r is Err && r->Err_0
                    == SettingError::InvalidStopLoss
                &&& !entry && !slippage && !loss && profit ==> r is Err && r->Err_0
                    == SettingError::InvalidTakeProfit
                &&& !entry && !slippage && !loss && !profit && time ==> r is Err
                    && r->Err_0 == SettingError::InvalidAutoExit
                &&& r is Ok <==> !entry && !slippage && !loss && !profit && !time
            }
        }),
{
}

/// The amount to buy for is the number of the text, scaled to lamports, in whole
/// lamports.
pub proof fn law_amount_setting(raw: RawSettings, sol_scale: Real)
    ensures
        settings_of(raw, sol_scale) matches Ok(v) ==> raw.buy_sol_amount is Some
            && v.buy_sol_amount == real_of_text(raw.buy_sol_amount->0@)->0.times(
            sol_scale,
        ).as_u64(),
{
}

/// Entry, gain and loss are the percentages of their texts; one hundred where
/// they are not set.
pub proof fn law_percentage_settings(raw: RawSettings, sol_scale: Real)
    ensures
        settings_of(raw, sol_scale) matches Ok(v) ==> {
            &&& raw.entry_percent matches Some(t) ==> Some(v.entry_percent) == real_of_text(t@)
            &&& raw.entry_percent is None ==> v.entry_percent == real_of_int(100)
            &&& raw.take_profit matches Some(t) ==> Some(v.take_profit) == real_of_text(t@)
            &&& raw.take_profit is None ==> v.take_profit == real_of_int(100)
            &&& raw.stop_loss matches Some(t) ==> Some(v.stop_loss) == real_of_text(t@)
            &&& raw.stop_loss is None ==> v.stop_loss == real_of_int(100)
        },
{
}

/// A slippage is the hundredth part of its percentage, its own where it is set,
/// else the shared one, else one hundred. An exit slippage that is not a number
/// is none.
pub proof fn law_slippage_settings(raw: RawSettings, sol_scale: Real)
    ensures
        settings_of(raw, sol_scale) matches Ok(v) ==> {
            let hundred = real_of_int(100);
            &&& raw.entry_slippage matches Some(t) ==> v.entry_slippage == real_of_text(
                t@,
            )->0.over(hundred)
            &&& raw.entry_slippage is None && raw.slippage is Some ==> v.entry_slippage
                == real_of_text(raw.slippage->0@)->0.over(hundred)
            &&& raw.entry_slippage is None && raw.slippage is None ==> v.entry_slippage
                == hundred.over(hundred)
            &&& raw.exit_slippage is None && raw.slippage is None ==> v.exit_slippage == Some(
                hundred.over(hundred),
            )
            &&& raw.exit_slippage is None && raw.slippage is Some ==> v.exit_slippage
                == match real_of_text(raw.slippage->0@) {
                Some(x) => Some(x.over(hundred)),
                None => None,
            }
            &&& raw.exit_slippage matches Some(t) ==> v.exit_slippage == match real_of_text(t@) {
                Some(x) => Some(x.over(hundred)),
                None => None,
            }
        },
{
}

/// The time to hold is the number of seconds of its text, sixty where it is not
/// set. The service is the text of its name, Nozomi where it is not set.
pub proof fn law_time_and_service_settings(raw: RawSettings, sol_scale: Real)
    ensures
        settings_of(raw, sol_scale) matches Ok(v) ==> {
            &&& raw.auto_exit matches Some(t) ==> Some(v.auto_exit) == u64_of_text(t@)
            &&& raw.auto_exit is None ==> v.auto_exit == 60
            &&& raw.confirm_service matches Some(t) ==> v.confirm_service == t@
            &&& raw.confirm_service is None ==> v.confirm_service == "NOZOMI"@
        },
{
}

/// A fee is the number of its text; zero where it is not set, or not a number.
pub proof fn law_fee_settings(raw: RawSettings, sol_scale: Real)
    ensures
        settings_of(raw, sol_scale) matches Ok(v) ==> {
            &&& v.cu == if raw.cu is Some && u64_of_text(raw.cu->0@) is Some {
                u64_of_text(raw.cu->0@)->0
            } else {
                0
            }
            &&& v.priority_fee_micro_lamport == if raw.priority_fee_micro_lamport is Some
                && u64_of_text(raw.priority_fee_micro_lamport->0@) is Some {
                u64_of_text(raw.priority_fee_micro_lamport->0@)->0
            } else {
                0
            }
            &&& v.third_party_fee == if raw.third_party_fee is Some && real_of_text(
                raw.third_party_fee->0@,
            ) is Some {
                real_of_text(raw.third_party_fee->0@)->0
            } else {
                Real::Finite { negative: false, units: 0 }
            }
        },
{
}

} // verus!
