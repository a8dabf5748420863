use raydium_amm_bot::address::{associated_token_account, parse_address, Address};
use raydium_amm_bot::binary64::Binary64;
use raydium_amm_bot::price::PowersOfTen;
use raydium_amm_bot::process::{
    choose_route, coin_is_input, own_reserves, read_reserves, token_decimals, Holding, PoolSwap,
    RaydiumV4Process, Reserves, Step, TokenBalance, Trader,
};
use raydium_amm_bot::address::swap_parties;
use raydium_amm_bot::session::{Receipt, Session};
use raydium_amm_bot::settings::TradeSettings;

const WSOL: &str = "So11111111111111111111111111111111111111112";
const TOKEN: &str = "EPjFWdd5AufqSSqeM2qN1xzybapC8G4wEGGkZwyTDt1v";
const USER: &str = "587GsL34W8nGsZWAjTiT6dXLJSrwiM6grWyxQHSgW1eM";

fn wrap(x: f64) -> Binary64 {
    Binary64 { bits: x.to_bits() }
}

fn value(x: Binary64) -> f64 {
    f64::from_bits(x.bits)
}

fn address(text: &str) -> Address {
    parse_address(text).unwrap()
}

fn ata(wallet: &Address, mint: &str) -> Address {
    associated_token_account(wallet, &address(mint)).unwrap()
}

fn trader() -> Trader {
    let values: Vec<Binary64> = (0..256).map(|d| wrap(10f64.powf(d as f64))).collect();
    Trader {
        wallet: [42u8; 32],
        wsol: address(WSOL),
        settings: TradeSettings {
            confirm_service: "NOZOMI".to_string(),
            cu: 0,
            priority_fee_micro_lamport: 0,
            third_party_fee: wrap(0.0),
            buy_sol_amount: 100_000_000,
            entry_slippage: wrap(0.01),
            exit_slippage: Some(wrap(0.05)),
            entry_percent: wrap(5.0),
            take_profit: wrap(10.0),
            stop_loss: wrap(8.0),
            auto_exit: 60,
        },
        powers: PowersOfTen::new(values).unwrap(),
    }
}

fn held(amount: &str, mint: &str) -> Option<Holding> {
    Some(Holding { amount: amount.to_string(), mint: mint.to_string() })
}

fn listed(mint: &str, decimals: u8) -> TokenBalance {
    TokenBalance { mint: mint.to_string(), decimals }
}

/// A pool of the token (coin) and wrapped SOL (pc), in which the user pays from
/// `source_mint` into `destination_mint`.
fn swap(source_mint: &str, destination_mint: &str) -> PoolSwap {
    let user = address(USER);
    let mut accounts: Vec<Address> = (0..18u8).map(|n| [n; 32]).collect();
    accounts[15] = ata(&user, source_mint);
    accounts[16] = ata(&user, destination_mint);
    accounts[17] = user;
    PoolSwap {
        accounts,
        coin: held("98765432109876", TOKEN),
        pc: held("7654321987654", WSOL),
        pre_coin: held("98765432100000", TOKEN),
        pre_pc: held("7654321987000", WSOL),
        post_balances: vec![listed(WSOL, 9), listed(TOKEN, 5), listed(TOKEN, 7)],
        pre_balances: vec![listed(TOKEN, 8)],
    }
}

fn expected_price(decimals: i32) -> f64 {
    (7654321987654f64 / 10f64.powf(9.0)) / (98765432109876f64 / 10f64.powf(decimals as f64))
}

fn expected_minimum(amount: u64, input: f64, output: f64, slippage: f64) -> u64 {
    (0.997 * (1.0 - slippage) * (amount as f64) * output / (input + amount as f64)) as u64
}

#[test]
fn a_purchase_is_prepared_after_a_swap_that_pays_sol() {
    let t = trader();
    let mut s = Session::new();
    let w = swap(WSOL, TOKEN);
    let step = RaydiumV4Process.process(&mut s, &t, &w);
    assert!(matches!(step, Step::Prepared));
    assert!(step.goes_on());
    assert_eq!(value(s.latest_pool_price.unwrap()), expected_price(5));
    let plan = s.plan.unwrap();
    assert_eq!(plan.input_mint, address(WSOL));
    assert_eq!(plan.output_mint, address(TOKEN));
    assert_eq!(plan.amount_in, 100_000_000);
    assert_eq!(
        plan.minimum_amount_out,
        expected_minimum(100_000_000, 7654321987654.0, 98765432109876.0, 0.01)
    );
    assert_eq!(plan.accounts.len(), 18);
    assert_eq!(plan.accounts[15], ata(&t.wallet, WSOL));
    assert_eq!(plan.accounts[16], ata(&t.wallet, TOKEN));
    assert_eq!(plan.accounts[17], t.wallet);
    for i in 0..15 {
        assert_eq!(plan.accounts[i], w.accounts[i]);
    }
}

#[test]
fn a_purchase_is_prepared_after_a_swap_that_pays_tokens() {
    let t = trader();
    let mut s = Session::new();
    let step = RaydiumV4Process.process(&mut s, &t, &swap(TOKEN, WSOL));
    assert!(matches!(step, Step::Prepared));
    assert_eq!(value(s.latest_pool_price.unwrap()), expected_price(5));
    let plan = s.plan.unwrap();
    assert_eq!(plan.input_mint, address(TOKEN));
    assert_eq!(plan.output_mint, address(WSOL));
    assert_eq!(plan.accounts[15], ata(&t.wallet, WSOL));
    assert_eq!(plan.accounts[16], ata(&t.wallet, TOKEN));
    assert_eq!(
        plan.minimum_amount_out,
        expected_minimum(100_000_000, 7654321987654.0, 98765432109876.0, 0.01)
    );
}

#[test]
fn a_purchase_demands_the_same_whichever_way_the_observed_swap_went() {
    let mut t = trader();
    t.settings.buy_sol_amount = 1_000_000_000;
    t.settings.entry_slippage = wrap(0.5);
    for mut w in [swap(WSOL, TOKEN), swap(TOKEN, WSOL)] {
        w.coin = held("2000000", TOKEN);
        w.pc = held("1000000000", WSOL);
        w.pre_coin = held("1", TOKEN);
        w.pre_pc = held("1", WSOL);
        let mut s = Session::new();
        assert!(matches!(RaydiumV4Process.process(&mut s, &t, &w), Step::Prepared));
        let plan = s.plan.unwrap();
        assert_eq!(plan.amount_in, 1_000_000_000);
        assert_eq!(plan.minimum_amount_out, 498_500);
        assert_eq!(plan.accounts[15], ata(&t.wallet, WSOL));
        assert_eq!(plan.accounts[16], ata(&t.wallet, TOKEN));
    }
}

#[test]
fn a_sale_demands_the_same_whichever_way_the_observed_swap_went() {
    let t = trader();
    for w in [swap(WSOL, TOKEN), swap(TOKEN, WSOL)] {
        let mut s = Session::new();
        s.is_bought = true;
        let pending = match RaydiumV4Process.process(&mut s, &t, &w) {
            Step::NeedsBalance(p) => p,
            _ => panic!("no balance asked for"),
        };
        assert_eq!(value(pending.reserves.input), 98765432109876.0);
        assert_eq!(value(pending.reserves.output), 7654321987654.0);
        let step = RaydiumV4Process.resume(&mut s, &t, pending, Some("5000000000".to_string()));
        assert!(matches!(step, Step::Prepared));
        let plan = s.plan.unwrap();
        assert_eq!(
            plan.minimum_amount_out,
            expected_minimum(5_000_000_000, 98765432109876.0, 7654321987654.0, 0.05)
        );
        assert!(plan.minimum_amount_out <= 7654321987654);
    }
}

#[test]
fn only_a_sale_needs_the_exit_slippage() {
    let mut t = trader();
    t.settings.exit_slippage = None;
    let mut s = Session::new();
    assert!(matches!(RaydiumV4Process.process(&mut s, &t, &swap(WSOL, TOKEN)), Step::Prepared));
    for (reply, coin) in [("5", "98765432109876"), ("0", "0"), ("x", "98765432109876")] {
        let mut s = Session::new();
        s.is_bought = true;
        let mut w = swap(TOKEN, WSOL);
        w.coin = held(coin, TOKEN);
        let pending = match RaydiumV4Process.process(&mut s, &t, &w) {
            Step::NeedsBalance(p) => p,
            _ => panic!("no balance asked for"),
        };
        let step = RaydiumV4Process.resume(&mut s, &t, pending, Some(reply.to_string()));
        assert!(!step.goes_on());
        if reply == "5" {
            assert!(matches!(step, Step::InvalidExitSlippage));
        } else {
            assert!(matches!(step, Step::Stopped));
        }
        assert!(s.plan.is_none());
    }
}

#[test]
fn reserves_follow_the_route() {
    let observed = Reserves { input: wrap(1.0), output: wrap(2.0) };
    for (bought, wsol, forward) in
        [(false, true, true), (false, false, false), (true, true, false), (true, false, true)]
    {
        let r = own_reserves(bought, wsol, observed);
        let expected = if forward { (1.0, 2.0) } else { (2.0, 1.0) };
        assert_eq!((value(r.input), value(r.output)), expected);
    }
}

#[test]
fn a_sale_waits_for_the_balance() {
    let t = trader();
    let mut s = Session::new();
    s.is_bought = true;
    let step = RaydiumV4Process.process(&mut s, &t, &swap(WSOL, TOKEN));
    assert!(!step.goes_on());
    let pending = match step {
        Step::NeedsBalance(p) => p,
        _ => panic!("no balance asked for"),
    };
    assert!(s.plan.is_none());
    assert!(s.latest_pool_price.is_some());
    assert_eq!(pending.route.source, ata(&t.wallet, TOKEN));
    assert_eq!(pending.route.destination, ata(&t.wallet, WSOL));
    let step = RaydiumV4Process.resume(&mut s, &t, pending, Some("123456".to_string()));
    assert!(matches!(step, Step::Prepared));
    let plan = s.plan.unwrap();
    assert_eq!(plan.amount_in, 123456);
    assert_eq!(
        plan.minimum_amount_out,
        expected_minimum(123456, 98765432109876.0, 7654321987654.0, 0.05)
    );
    assert_eq!(plan.accounts[15], ata(&t.wallet, TOKEN));
    assert_eq!(plan.accounts[16], ata(&t.wallet, WSOL));
}

#[test]
fn balance_queries_that_fail() {
    let t = trader();
    for reply in [None, Some("-1".to_string()), Some("12.5".to_string())] {
        let mut s = Session::new();
        s.is_bought = true;
        match RaydiumV4Process.process(&mut s, &t, &swap(TOKEN, WSOL)) {
            Step::NeedsBalance(p) => {
                let step = RaydiumV4Process.resume(&mut s, &t, p, reply);
                assert!(matches!(step, Step::Stopped));
                assert!(s.plan.is_none());
            }
            _ => panic!("no balance asked for"),
        }
    }
}

#[test]
fn swaps_that_do_not_show_the_pool() {
    let t = trader();
    let mut s = Session::new();
    let mut w = swap(WSOL, TOKEN);
    w.accounts.pop();
    w.accounts.pop();
    assert!(matches!(RaydiumV4Process.process(&mut s, &t, &w), Step::Ignored));
    let mut w = swap(WSOL, TOKEN);
    w.pre_pc = None;
    let step = RaydiumV4Process.process(&mut s, &t, &w);
    assert!(matches!(step, Step::Ignored));
    assert!(step.goes_on());
    assert!(s.latest_pool_price.is_none());
    assert!(s.plan.is_none());
}

#[test]
fn unreadable_amounts_stop_the_handling() {
    let t = trader();
    for place in 0..4 {
        let mut s = Session::new();
        let mut w = swap(WSOL, TOKEN);
        let bad = "12 tokens";
        match place {
            0 => w.coin = held(bad, TOKEN),
            1 => w.pc = held(bad, WSOL),
            2 => w.pre_coin = held(bad, TOKEN),
            _ => w.pre_pc = held(bad, WSOL),
        }
        let step = RaydiumV4Process.process(&mut s, &t, &w);
        assert!(matches!(step, Step::Stopped));
        assert!(!step.goes_on());
        assert!(s.latest_pool_price.is_none());
    }
}

#[test]
fn mints_that_are_no_addresses() {
    let t = trader();
    let mut s = Session::new();
    let mut w = swap(WSOL, TOKEN);
    w.coin = held("1", "not an address");
    assert!(matches!(RaydiumV4Process.process(&mut s, &t, &w), Step::InvalidAddress));
}

#[test]
fn an_empty_pool_has_price_zero_and_no_swap() {
    let mut t = trader();
    t.settings.buy_sol_amount = 0;
    let mut s = Session::new();
    let mut w = swap(TOKEN, WSOL);
    w.coin = held("0", TOKEN);
    w.pc = held("0", WSOL);
    let step = RaydiumV4Process.process(&mut s, &t, &w);
    assert!(matches!(step, Step::Stopped));
    assert_eq!(value(s.latest_pool_price.unwrap()), 0.0);
    assert!(s.plan.is_none());
}

#[test]
fn decimals_come_from_the_first_listed_balance() {
    let post = vec![listed("a", 1), listed("b", 2), listed("b", 3)];
    let pre = vec![listed("b", 4), listed("c", 5)];
    assert_eq!(token_decimals(&post, &pre, &"b".to_string()), 2);
    assert_eq!(token_decimals(&post, &pre, &"c".to_string()), 5);
    assert_eq!(token_decimals(&post, &pre, &"d".to_string()), 6);
    assert_eq!(token_decimals(&vec![], &pre, &"b".to_string()), 4);
}

#[test]
fn routes_of_purchases_and_sales() {
    let (x, y) = ([1u8; 32], [2u8; 32]);
    for (bought, wsol, forward) in
        [(false, true, true), (false, false, false), (true, true, false), (true, false, true)]
    {
        let r = choose_route(bought, wsol, x, y);
        if forward {
            assert_eq!((r.source, r.destination), (x, y));
        } else {
            assert_eq!((r.source, r.destination), (y, x));
        }
    }
}

#[test]
fn directions_by_either_account() {
    let w = swap(TOKEN, WSOL);
    let p = swap_parties(&w.accounts).unwrap();
    let user = address(USER);
    assert!(coin_is_input(&p, &ata(&user, TOKEN), &ata(&user, WSOL)));
    assert!(coin_is_input(&p, &ata(&user, TOKEN), &[0u8; 32]));
    assert!(coin_is_input(&p, &[0u8; 32], &ata(&user, WSOL)));
    assert!(!coin_is_input(&p, &ata(&user, WSOL), &ata(&user, TOKEN)));
    let d = RaydiumV4Process::direction(&p, &TOKEN.to_string(), &WSOL.to_string()).unwrap();
    assert!(d.coin_is_input);
    assert_eq!(d.coin_mint, address(TOKEN));
    assert_eq!(d.pc_mint, address(WSOL));
}

#[test]
fn reserves_are_numbers() {
    let text = |s: &str| s.to_string();
    let r = read_reserves(&text("12"), &text("3.5"), &text("0"), &text("1e3")).unwrap();
    assert_eq!(value(r.input), 12.0);
    assert_eq!(value(r.output), 3.5);
    assert!(read_reserves(&text("12"), &text("3.5"), &text(""), &text("1")).is_none());
}

#[test]
fn own_transactions_are_confirmed_by_the_wrapped_sol_account() {
    let t = trader();
    let mut s = Session::new();
    let own = ata(&t.wallet, WSOL);
    let mut r = Receipt {
        signature: "mine".to_string(),
        fee: 5000,
        keys: vec![t.wallet, own],
        pre_balances: vec![0, 700],
        post_balances: vec![0, 200],
    };
    assert_eq!(RaydiumV4Process.confirm(&mut s, &t, &r, None), Some(false));
    s.record_sent(Some("mine".to_string()));
    assert_eq!(RaydiumV4Process.confirm(&mut s, &t, &r, None), Some(true));
    assert!(s.is_bought);
    assert_eq!(s.last_input_lamports, Some(500));
    r.keys = vec![t.wallet];
    assert_eq!(RaydiumV4Process.confirm(&mut s, &t, &r, None), Some(false));
    assert!(s.is_bought);
}

#[test]
fn a_failed_step_keeps_the_earlier_plan() {
    let t = trader();
    let mut s = Session::new();
    assert!(matches!(RaydiumV4Process.process(&mut s, &t, &swap(WSOL, TOKEN)), Step::Prepared));
    let mut broken = swap(WSOL, TOKEN);
    broken.pc = held("many", WSOL);
    assert!(matches!(RaydiumV4Process.process(&mut s, &t, &broken), Step::Stopped));
    broken.pc = None;
    assert!(matches!(RaydiumV4Process.process(&mut s, &t, &broken), Step::Ignored));
    let plan = s.plan.unwrap();
    assert_eq!(plan.amount_in, 100_000_000);
    assert_eq!(
        plan.minimum_amount_out,
        expected_minimum(100_000_000, 7654321987654.0, 98765432109876.0, 0.01)
    );
}

#[test]
fn a_stopped_transaction_is_not_confirmed() {
    let t = trader();
    let r = Receipt {
        signature: "mine".to_string(),
        fee: 5000,
        keys: vec![ata(&t.wallet, WSOL)],
        pre_balances: vec![700],
        post_balances: vec![200],
    };
    let mut s = Session::new();
    s.record_sent(Some("mine".to_string()));
    let mut broken = swap(WSOL, TOKEN);
    broken.pc = held("many", WSOL);
    let step = RaydiumV4Process.process(&mut s, &t, &broken);
    assert_eq!(RaydiumV4Process.conclude(&mut s, &t, &step, &r, Some(1)), Some(false));
    assert!(!s.is_bought);
    assert_eq!(value(s.fees), 0.0);
    assert!(s.latest_pool_price.is_none());
    let step = RaydiumV4Process.process(&mut s, &t, &swap(WSOL, TOKEN));
    assert_eq!(RaydiumV4Process.conclude(&mut s, &t, &step, &r, Some(1)), Some(true));
    assert!(s.is_bought);
    assert_eq!(s.last_input_lamports, Some(500));
    // A balance query that failed while the position is held.
    let step = match RaydiumV4Process.process(&mut s, &t, &swap(WSOL, TOKEN)) {
        Step::NeedsBalance(p) => RaydiumV4Process.resume(&mut s, &t, p, None),
        _ => panic!("no balance asked for"),
    };
    assert_eq!(RaydiumV4Process.conclude(&mut s, &t, &step, &r, Some(1)), Some(false));
    assert!(s.is_bought);
    assert_eq!(value(s.fees), 5000.0);
    assert_eq!(RaydiumV4Process.conclude(&mut s, &t, &Step::Ignored, &r, Some(1)), Some(true));
    assert!(!s.is_bought);
    assert_eq!(s.last_runtime_ms, Some(1));
}
