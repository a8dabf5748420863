use raydium_amm_bot::binary64::Binary64;
use raydium_amm_bot::price::{can_take, minimum_output, percent_change, pool_price, PowersOfTen};
use raydium_amm_bot::settings::{RawSettings, SettingError, TradeSettings};

fn wrap(x: f64) -> Binary64 {
    Binary64 { bits: x.to_bits() }
}

fn powers() -> PowersOfTen {
    let values: Vec<Binary64> = (0..256).map(|d| wrap(10f64.powf(d as f64))).collect();
    PowersOfTen::new(values).unwrap()
}

fn unset() -> RawSettings {
    RawSettings {
        confirm_service: None,
        cu: None,
        priority_fee_micro_lamport: None,
        third_party_fee: None,
        buy_sol_amount: None,
        slippage: None,
        entry_slippage: None,
        exit_slippage: None,
        entry_percent: None,
        take_profit: None,
        stop_loss: None,
        auto_exit: None,
    }
}

fn text(s: &str) -> Option<String> {
    Some(s.to_string())
}

fn error_of(raw: &RawSettings) -> SettingError {
    TradeSettings::load(raw, &powers()).unwrap_err()
}

#[test]
fn defaults_of_unset_variables() {
    let mut raw = unset();
    raw.buy_sol_amount = text("0.1");
    let s = TradeSettings::load(&raw, &powers()).unwrap();
    assert_eq!(s.confirm_service, "NOZOMI");
    assert_eq!(s.cu, 0);
    assert_eq!(s.priority_fee_micro_lamport, 0);
    assert_eq!(s.third_party_fee.bits, 0f64.to_bits());
    assert_eq!(s.buy_sol_amount, 100_000_000);
    assert_eq!(s.entry_slippage.bits, 1f64.to_bits());
    assert_eq!(s.exit_slippage.unwrap().bits, 1f64.to_bits());
    assert_eq!(s.entry_percent.bits, 100f64.to_bits());
    assert_eq!(s.take_profit.bits, 100f64.to_bits());
    assert_eq!(s.stop_loss.bits, 100f64.to_bits());
    assert_eq!(s.auto_exit, 60);
}

#[test]
fn configured_variables() {
    let raw = RawSettings {
        confirm_service: text("JITO"),
        cu: text("200000"),
        priority_fee_micro_lamport: text("1000"),
        third_party_fee: text("0.001"),
        buy_sol_amount: text("0.57"),
        slippage: text("10"),
        entry_slippage: text("1.0"),
        exit_slippage: text("2.5"),
        entry_percent: text("5.0"),
        take_profit: text("12"),
        stop_loss: text("7.5"),
        auto_exit: text("90"),
    };
    let s = TradeSettings::load(&raw, &powers()).unwrap();
    assert_eq!(s.confirm_service, "JITO");
    assert_eq!(s.cu, 200000);
    assert_eq!(s.priority_fee_micro_lamport, 1000);
    assert_eq!(s.third_party_fee.bits, 0.001f64.to_bits());
    assert_eq!(s.buy_sol_amount, (0.57 * 10f64.powf(9.0)) as u64);
    assert_eq!(s.entry_slippage.bits, (1.0f64 / 100.0).to_bits());
    assert_eq!(s.exit_slippage.unwrap().bits, (2.5f64 / 100.0).to_bits());
    assert_eq!(s.entry_percent.bits, 5f64.to_bits());
    assert_eq!(s.take_profit.bits, 12f64.to_bits());
    assert_eq!(s.stop_loss.bits, 7.5f64.to_bits());
    assert_eq!(s.auto_exit, 90);
}

#[test]
fn shared_slippage_counts_for_both_directions() {
    let mut raw = unset();
    raw.buy_sol_amount = text("1");
    raw.slippage = text("10");
    let s = TradeSettings::load(&raw, &powers()).unwrap();
    assert_eq!(s.entry_slippage.bits, 0.1f64.to_bits());
    assert_eq!(s.exit_slippage.unwrap().bits, 0.1f64.to_bits());
    raw.exit_slippage = text("3");
    let s = TradeSettings::load(&raw, &powers()).unwrap();
    assert_eq!(s.entry_slippage.bits, 0.1f64.to_bits());
    assert_eq!(s.exit_slippage.unwrap().bits, 0.03f64.to_bits());
}

#[test]
fn invalid_fees_count_as_zero() {
    let mut raw = unset();
    raw.buy_sol_amount = text("1");
    raw.cu = text("many");
    raw.priority_fee_micro_lamport = text("-5");
    raw.third_party_fee = text("x");
    let s = TradeSettings::load(&raw, &powers()).unwrap();
    assert_eq!(s.cu, 0);
    assert_eq!(s.priority_fee_micro_lamport, 0);
    assert_eq!(s.third_party_fee.bits, 0);
}

#[test]
fn each_fault_has_its_error() {
    let mut raw = unset();
    assert_eq!(error_of(&raw), SettingError::MissingBuySolAmount);
    raw.buy_sol_amount = text("one");
    assert_eq!(error_of(&raw), SettingError::InvalidBuySolAmount);
    raw.buy_sol_amount = text("1");
    raw.auto_exit = text("1.5");
    assert_eq!(error_of(&raw), SettingError::InvalidAutoExit);
    raw.take_profit = text("%");
    assert_eq!(error_of(&raw), SettingError::InvalidTakeProfit);
    raw.stop_loss = text("");
    assert_eq!(error_of(&raw), SettingError::InvalidStopLoss);
    raw.entry_slippage = text("1%");
    assert_eq!(error_of(&raw), SettingError::InvalidEntrySlippage);
    raw.entry_percent = text("five");
    assert_eq!(error_of(&raw), SettingError::InvalidEntryPercent);
    let mut shared = unset();
    shared.buy_sol_amount = text("1");
    shared.slippage = text("?");
    assert_eq!(error_of(&shared), SettingError::InvalidEntrySlippage);
}

#[test]
fn an_invalid_exit_slippage_is_kept_for_the_sale() {
    let mut raw = unset();
    raw.buy_sol_amount = text("1");
    raw.exit_slippage = text("1%");
    assert!(TradeSettings::load(&raw, &powers()).unwrap().exit_slippage.is_none());
    raw.exit_slippage = None;
    raw.entry_slippage = text("1");
    raw.slippage = text("?");
    assert!(TradeSettings::load(&raw, &powers()).unwrap().exit_slippage.is_none());
}

#[test]
fn negative_and_huge_amounts_are_kept_in_range() {
    let mut raw = unset();
    raw.buy_sol_amount = text("-1");
    assert_eq!(TradeSettings::load(&raw, &powers()).unwrap().buy_sol_amount, 0);
    raw.buy_sol_amount = text("1e30");
    assert_eq!(TradeSettings::load(&raw, &powers()).unwrap().buy_sol_amount, u64::MAX);
    raw.buy_sol_amount = text("nan");
    assert_eq!(TradeSettings::load(&raw, &powers()).unwrap().buy_sol_amount, 0);
}

#[test]
fn powers_must_be_complete() {
    assert!(PowersOfTen::new(vec![wrap(1.0)]).is_none());
    assert_eq!(powers().get(9).bits, 1e9f64.to_bits());
    assert_eq!(powers().get(0).bits, 1f64.to_bits());
}

#[test]
fn price_changes() {
    // The documented example of a change from 0.0012 to 0.00123456.
    let p = percent_change(wrap(0.0012), wrap(0.00123456));
    assert_eq!(p.bits, (((0.00123456f64 - 0.0012) / 0.0012) * 100.0).to_bits());
    assert!((f64::from_bits(p.bits) - 2.88).abs() < 1e-9);
    assert_eq!(percent_change(wrap(2.0), wrap(1.0)).bits, (-50f64).to_bits());
    assert_eq!(percent_change(wrap(3.7), wrap(3.7)).bits, 0f64.to_bits());
}

#[test]
fn pool_prices() {
    let p = pool_price(wrap(5e12), wrap(2.5e13), wrap(1e9), wrap(1e6));
    assert_eq!(p.bits, ((5e12f64 / 1e9) / (2.5e13f64 / 1e6)).to_bits());
    assert_eq!(pool_price(wrap(5e12), wrap(0.0), wrap(1e9), wrap(1e6)).bits, 0);
    assert_eq!(pool_price(wrap(5e12), wrap(-1.0), wrap(1e9), wrap(1e6)).bits, 0);
    assert_eq!(pool_price(wrap(5e12), wrap(f64::NAN), wrap(1e9), wrap(1e6)).bits, 0);
}

fn least(amount: u64, input: f64, output: f64, slippage: f64) -> Option<u64> {
    minimum_output(amount, wrap(input), wrap(output), wrap(slippage))
}

#[test]
fn least_outputs() {
    let (amount, input, output) = (100_000_000u64, 7_654_321_987_654.0, 98_765_432_109_876.0);
    for slippage in [0.0, 0.01, 0.1, 0.5] {
        let expected =
            0.997 * (1.0 - slippage) * (amount as f64) * output / (input + amount as f64);
        assert_eq!(least(amount, input, output, slippage), Some(expected as u64));
    }
    assert_eq!(least(amount, input, output, 1.0), Some(0));
    assert_eq!(least(amount, input, output, 2.0), Some(0));
    assert_eq!(least(0, input, output, 0.01), Some(0));
    assert_eq!(least(0, 0.0, output, 0.01), None);
    assert_eq!(least(5, -5.0, output, 0.01), None);
    assert_eq!(least(5, f64::NAN, output, 0.01), None);
    assert_eq!(least(5, f64::INFINITY, output, 0.01), Some(0));
}

#[test]
fn more_slippage_demands_less_and_never_more_than_the_pool() {
    let mut last = u64::MAX;
    for step in 0..=20 {
        let m = least(u64::MAX, 12.0, 1_000_003.0, step as f64 / 20.0).unwrap();
        assert!(m <= last);
        assert!(m <= 1_000_003);
        last = m;
    }
    assert_eq!(last, 0);
}

#[test]
fn prices_follow_the_reserves() {
    let price = |sol: f64, token: f64| {
        f64::from_bits(pool_price(wrap(sol), wrap(token), wrap(1e9), wrap(1e6)).bits)
    };
    assert!(price(1e12, 1e13) < price(2e12, 1e13));
    assert!(price(1e12, 2e13) < price(1e12, 1e13));
    assert!(price(1e12, 1e13) <= price(1e12 + 1.0, 1e13));
}

#[test]
fn pools_that_take_an_amount() {
    assert!(can_take(1, wrap(0.0)));
    assert!(!can_take(0, wrap(0.0)));
    assert!(!can_take(5, wrap(-5.0)));
    assert!(!can_take(5, wrap(f64::NAN)));
}
