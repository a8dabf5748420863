use raydium_amm_bot::address::Address;
use raydium_amm_bot::binary64::Binary64;
use raydium_amm_bot::session::{
    select_service, Moves, ReadyClients, Receipt, SendOutcome, Service, Session, Submission,
    SwapPlan, TickKind, Waiting,
};
use raydium_amm_bot::settings::TradeSettings;

fn wrap(x: f64) -> Binary64 {
    Binary64 { bits: x.to_bits() }
}

fn value(x: Binary64) -> f64 {
    f64::from_bits(x.bits)
}

fn settings() -> TradeSettings {
    TradeSettings {
        confirm_service: "NOZOMI".to_string(),
        cu: 200000,
        priority_fee_micro_lamport: 1000,
        third_party_fee: wrap(0.001),
        buy_sol_amount: 100_000_000,
        entry_slippage: wrap(0.01),
        exit_slippage: Some(wrap(0.02)),
        entry_percent: wrap(5.0),
        take_profit: wrap(10.0),
        stop_loss: wrap(8.0),
        auto_exit: 60,
    }
}

fn priced(old: f64, new: f64) -> Session {
    let mut s = Session::new();
    s.pool_price = Some(wrap(old));
    s.latest_pool_price = Some(wrap(new));
    s
}

fn holding(bought: f64, new: f64, at: Option<i64>) -> Session {
    let mut s = priced(1.0, new);
    s.is_bought = true;
    s.bought_price = Some(wrap(bought));
    s.bought_at = at;
    s
}

fn account(n: u8) -> Address {
    [n; 32]
}

fn plan() -> SwapPlan {
    SwapPlan {
        accounts: vec![account(1)],
        input_mint: account(2),
        output_mint: account(3),
        amount_in: 4,
        minimum_amount_out: 5,
    }
}

fn receipt(signature: &str, fee: u64, pre: u64, post: u64) -> Receipt {
    Receipt {
        signature: signature.to_string(),
        fee,
        keys: vec![account(9), account(7), account(8)],
        pre_balances: vec![1, pre, 2],
        post_balances: vec![3, post, 4],
    }
}

#[test]
fn a_tick_needs_two_prices() {
    let mut s = Session::new();
    assert_eq!(s.tick(&settings(), 0).kind, TickKind::Idle);
    s.latest_pool_price = Some(wrap(2.0));
    assert_eq!(s.tick(&settings(), 0).kind, TickKind::Idle);
    assert_eq!(value(s.pool_price.unwrap()), 2.0);
    assert_eq!(s.tick(&settings(), 0).kind, TickKind::Watch);
}

#[test]
fn a_price_of_zero_is_not_compared() {
    assert_eq!(priced(0.0, 1.0).tick(&settings(), 0).kind, TickKind::Idle);
    assert_eq!(priced(-1.0, -9.0).tick(&settings(), 0).kind, TickKind::Idle);
    assert_eq!(priced(f64::NAN, 1.0).tick(&settings(), 0).kind, TickKind::Idle);
}

#[test]
fn a_drop_by_the_entry_percentage_buys() {
    let mut s = priced(1.0, 0.5);
    let t = s.tick(&settings(), 1234);
    assert_eq!(t.kind, TickKind::Buy);
    assert_eq!(value(t.percent), -50.0);
    assert_eq!(value(s.bought_price.unwrap()), 0.5);
    assert_eq!(s.bought_at, Some(1234));
    assert!(!s.is_bought);
    let mut exact = priced(100.0, 95.0);
    assert_eq!(exact.tick(&settings(), 0).kind, TickKind::Buy);
    let mut small = priced(100.0, 95.1);
    let t = small.tick(&settings(), 0);
    assert_eq!(t.kind, TickKind::Watch);
    assert_eq!(value(t.percent), ((95.1f64 - 100.0) / 100.0) * 100.0);
    assert!(small.bought_price.is_none());
    assert!(small.bought_at.is_none());
}

#[test]
fn no_purchase_without_a_drop() {
    assert_eq!(priced(1.0, 1.0).tick(&settings(), 0).kind, TickKind::Watch);
    assert_eq!(priced(1.0, 7.0).tick(&settings(), 0).kind, TickKind::Watch);
    let mut s = priced(1.0, 0.5);
    assert_eq!(s.tick(&settings(), 0).kind, TickKind::Buy);
    assert_eq!(s.tick(&settings(), 400).kind, TickKind::Watch);
}

#[test]
fn a_position_takes_profit_and_stops_loss() {
    assert_eq!(holding(100.0, 110.0, Some(0)).tick(&settings(), 0).kind, TickKind::TakeProfit);
    assert_eq!(holding(100.0, 250.0, Some(0)).tick(&settings(), 0).kind, TickKind::TakeProfit);
    assert_eq!(holding(100.0, 109.9, Some(0)).tick(&settings(), 0).kind, TickKind::Hold);
    assert_eq!(holding(100.0, 92.0, Some(0)).tick(&settings(), 0).kind, TickKind::StopLoss);
    assert_eq!(holding(100.0, 3.0, Some(0)).tick(&settings(), 0).kind, TickKind::StopLoss);
    assert_eq!(holding(100.0, 92.1, Some(0)).tick(&settings(), 0).kind, TickKind::Hold);
    let t = holding(100.0, 104.0, None).tick(&settings(), i64::MAX);
    assert_eq!(t.kind, TickKind::Hold);
    assert_eq!(value(t.percent), 4.0);
}

#[test]
fn a_position_without_a_price_has_no_change() {
    let mut s = holding(0.0, 5.0, None);
    assert_eq!(value(s.tick(&settings(), 0).percent), 0.0);
    let mut s = holding(1.0, 5.0, None);
    s.bought_price = None;
    let t = s.tick(&settings(), 0);
    assert_eq!(t.kind, TickKind::Hold);
    assert_eq!(value(t.percent), 0.0);
}

#[test]
fn a_position_is_given_up_after_the_auto_exit() {
    let at = Some(1_000_000);
    assert_eq!(holding(1.0, 1.0, at).tick(&settings(), 1_060_000).kind, TickKind::Hold);
    assert_eq!(holding(1.0, 1.0, at).tick(&settings(), 1_060_001).kind, TickKind::AutoExit);
    let mut long = settings();
    long.auto_exit = u64::MAX / 1000;
    // Too long for a signed number of milliseconds: one second instead.
    assert_eq!(holding(1.0, 1.0, at).tick(&long, 1_001_000).kind, TickKind::Hold);
    assert_eq!(holding(1.0, 1.0, at).tick(&long, 1_001_001).kind, TickKind::AutoExit);
}

#[test]
fn what_follows_a_tick() {
    let none = Moves { submit: false, record: false, exit: false };
    let sale = Moves { submit: true, record: true, exit: true };
    assert_eq!(TickKind::Idle.moves(), none);
    assert_eq!(TickKind::Watch.moves(), none);
    assert_eq!(TickKind::Hold.moves(), none);
    assert_eq!(TickKind::Waits.moves(), none);
    assert_eq!(TickKind::Buy.moves(), Moves { submit: true, record: false, exit: false });
    assert_eq!(TickKind::TakeProfit.moves(), sale);
    assert_eq!(TickKind::StopLoss.moves(), sale);
    assert_eq!(TickKind::AutoExit.moves(), Moves { submit: false, record: false, exit: true });
}

#[test]
fn services_by_name() {
    assert_eq!(select_service(&"NOZOMI".to_string()), Some(Service::Nozomi));
    assert_eq!(select_service(&"ZSLOT".to_string()), Some(Service::ZeroSlot));
    assert_eq!(select_service(&"ZERO_SLOT".to_string()), Some(Service::ZeroSlot));
    assert_eq!(select_service(&"JITO".to_string()), Some(Service::Jito));
    assert_eq!(select_service(&"nozomi".to_string()), None);
    assert_eq!(select_service(&String::new()), None);
}

#[test]
fn submissions() {
    let all = ReadyClients { nozomi: true, zero_slot: true, jito: true };
    let mut s = Session::new();
    let wallet = account(6);
    assert!(matches!(s.submission(&settings(), &wallet, all), Submission::NothingPrepared));
    s.plan = Some(plan());
    match s.submission(&settings(), &wallet, all) {
        Submission::Send(service, order) => {
            assert_eq!(service, Service::Nozomi);
            assert_eq!(order.payer, wallet);
            assert_eq!(order.plan.accounts, vec![account(1)]);
            assert_eq!(order.plan.input_mint, account(2));
            assert_eq!(order.plan.output_mint, account(3));
            assert_eq!(order.plan.amount_in, 4);
            assert_eq!(order.plan.minimum_amount_out, 5);
            assert_eq!(order.cu, 200000);
            assert_eq!(order.priority_fee_micro_lamport, 1000);
            assert_eq!(order.tip_addr_idx, 1);
            assert_eq!(value(order.tip_sol_amount), 0.001);
        }
        _ => panic!("not sent"),
    }
    let only_nozomi = ReadyClients { nozomi: true, zero_slot: false, jito: false };
    let mut other = settings();
    other.confirm_service = "JITO".to_string();
    assert!(matches!(
        s.submission(&other, &wallet, only_nozomi),
        Submission::ClientNotReady(Service::Jito)
    ));
    assert!(matches!(s.submission(&other, &wallet, all), Submission::Send(Service::Jito, _)));
    other.confirm_service = "ZSLOT".to_string();
    assert!(matches!(
        s.submission(&other, &wallet, only_nozomi),
        Submission::ClientNotReady(Service::ZeroSlot)
    ));
    other.confirm_service = "MAIL".to_string();
    assert!(matches!(s.submission(&other, &wallet, all), Submission::UnknownService));
}

#[test]
fn replies_to_a_submission() {
    let mut s = Session::new();
    s.record_sent(Some("abc".to_string()));
    assert_eq!(s.signature, Some("abc".to_string()));
    s.record_sent(None);
    assert_eq!(s.signature, Some(String::new()));
}

#[test]
fn foreign_transactions_change_nothing() {
    let mut s = Session::new();
    assert!(!s.receive(&account(7), &receipt("x", 5000, 10, 20), Some(9)));
    s.record_sent(Some("mine".to_string()));
    assert!(!s.receive(&account(7), &receipt("x", 5000, 10, 20), Some(9)));
    assert!(!s.receive(&account(1), &receipt("mine", 5000, 10, 20), Some(9)));
    assert!(!s.is_bought);
    assert_eq!(value(s.fees), 0.0);
    assert!(s.last_input_lamports.is_none());
    assert!(s.last_runtime_ms.is_none());
}

#[test]
fn a_trade_from_purchase_to_sale() {
    let mut s = Session::new();
    s.record_sent(Some("in".to_string()));
    assert!(s.receive(&account(7), &receipt("in", 5000, 900_000_000, 800_000_000), Some(1)));
    assert!(s.is_bought);
    assert_eq!(s.last_input_lamports, Some(100_000_000));
    assert!(s.last_profit_sol.is_none());
    assert!(s.last_runtime_ms.is_none());
    s.record_sent(Some("out".to_string()));
    assert!(s.receive(&account(7), &receipt("out", 7000, 800_000_000, 925_000_000), Some(777)));
    assert!(!s.is_bought);
    assert_eq!(s.last_output_lamports, Some(125_000_000));
    assert_eq!(value(s.last_profit_sol.unwrap()), 0.025);
    assert_eq!(value(s.last_roi_pct.unwrap()), (0.025 / 0.1) * 100.0);
    assert_eq!(value(s.fees), 12000.0);
    assert_eq!(s.last_runtime_ms, Some(777));
    let d = s.trade_data("2024-01-01T00:00:00+00:00".to_string());
    assert_eq!(d.ts, "2024-01-01T00:00:00+00:00");
    assert_eq!(value(d.profit_sol), 0.025);
    assert_eq!(d.fees_lamports, 12000);
    assert_eq!(value(d.fees_sol), 12000.0 / 1_000_000_000.0);
    assert_eq!(value(d.roi_pct), (0.025 / 0.1) * 100.0);
    assert_eq!(d.program_runtime_ms, 777);
}

#[test]
fn a_sale_at_a_loss_without_a_purchase() {
    let mut s = Session::new();
    s.is_bought = true;
    s.record_sent(Some("out".to_string()));
    assert!(s.receive(&account(7), &receipt("out", 1, 500, 200), None));
    assert_eq!(s.last_output_lamports, Some(-300));
    assert_eq!(value(s.last_profit_sol.unwrap()), -300f64 / 1_000_000_000.0);
    assert_eq!(value(s.last_roi_pct.unwrap()), 0.0);
    assert!(s.last_runtime_ms.is_none());
}

#[test]
fn missing_balances_count_as_zero() {
    let mut s = Session::new();
    s.record_sent(Some("in".to_string()));
    let mut r = receipt("in", 1, 0, 0);
    r.pre_balances = vec![5];
    r.post_balances = vec![5, 8];
    assert!(s.receive(&account(7), &r, None));
    assert_eq!(s.last_input_lamports, Some(-8));
}

#[test]
fn trade_data_of_a_fresh_session() {
    let mut s = Session::new();
    let d = s.trade_data("t".to_string());
    assert_eq!(value(d.profit_sol), 0.0);
    assert_eq!(d.fees_lamports, 0);
    assert_eq!(value(d.roi_pct), 0.0);
    assert_eq!(d.program_runtime_ms, 0);
    s.last_runtime_ms = Some(u64::MAX as u128 + 6);
    assert_eq!(s.trade_data("t".to_string()).program_runtime_ms, 5);
    s.last_runtime_ms = Some(i64::MAX as u128 + 1);
    assert_eq!(s.trade_data("t".to_string()).program_runtime_ms, i64::MIN);
}

#[test]
fn deeper_moves_trigger_too() {
    for new in [95.0, 90.0, 40.0, 1e-300, 0.0, -3.0] {
        assert_eq!(priced(100.0, new).tick(&settings(), 0).kind, TickKind::Buy);
    }
    for new in [110.0, 111.0, 5e9, f64::INFINITY] {
        assert_eq!(holding(100.0, new, None).tick(&settings(), 0).kind, TickKind::TakeProfit);
    }
    for new in [92.0, 91.0, 0.5, 0.0] {
        assert_eq!(holding(100.0, new, None).tick(&settings(), 0).kind, TickKind::StopLoss);
    }
}

#[test]
fn a_price_that_is_no_number_triggers_nothing() {
    assert_eq!(priced(100.0, f64::NAN).tick(&settings(), 0).kind, TickKind::Watch);
    assert_eq!(holding(100.0, f64::NAN, None).tick(&settings(), 0).kind, TickKind::Hold);
}

#[test]
fn ticks_leave_the_position_alone() {
    let mut s = holding(100.0, 110.0, Some(1));
    s.record_sent(Some("sig".to_string()));
    s.fees = wrap(10.0);
    s.last_input_lamports = Some(3);
    assert_eq!(s.tick(&settings(), 5).kind, TickKind::TakeProfit);
    assert!(s.is_bought);
    assert_eq!(s.signature, Some("sig".to_string()));
    assert_eq!(value(s.fees), 10.0);
    assert_eq!(s.last_input_lamports, Some(3));
    assert!(s.last_profit_sol.is_none());
}

#[test]
fn a_clock_that_runs_backwards_keeps_the_position() {
    assert_eq!(holding(100.0, 101.0, Some(500_000)).tick(&settings(), 0).kind, TickKind::Hold);
}

#[test]
fn every_service_gets_the_same_order() {
    let all = ReadyClients { nozomi: true, zero_slot: true, jito: true };
    let mut s = Session::new();
    s.plan = Some(plan());
    for name in ["NOZOMI", "ZSLOT", "ZERO_SLOT", "JITO"] {
        let mut other = settings();
        other.confirm_service = name.to_string();
        match s.submission(&other, &account(6), all) {
            Submission::Send(_, order) => {
                assert_eq!(order.payer, account(6));
                assert_eq!(order.plan.amount_in, 4);
                assert_eq!(order.cu, 200000);
                assert_eq!(order.priority_fee_micro_lamport, 1000);
                assert_eq!(order.tip_addr_idx, 1);
                assert_eq!(value(order.tip_sol_amount), 0.001);
            }
            _ => panic!("not sent"),
        }
    }
}

#[test]
fn only_a_taken_transaction_leaves_its_signature() {
    let mut s = Session::new();
    s.plan = Some(plan());
    s.record_send(SendOutcome::Failed);
    assert!(s.signature.is_none());
    s.record_send(SendOutcome::Sent(Some("abc".to_string())));
    assert_eq!(s.signature, Some("abc".to_string()));
    s.record_send(SendOutcome::Failed);
    assert_eq!(s.signature, Some("abc".to_string()));
    s.record_send(SendOutcome::Sent(None));
    assert_eq!(s.signature, Some(String::new()));
    assert_eq!(s.plan.unwrap().amount_in, 4);
}

#[test]
fn receipts_by_the_bytes_of_the_signature() {
    let r = Receipt::new(&[0u8; 64], 5, vec![account(1)], vec![2], vec![3]);
    assert_eq!(r.signature, "1".repeat(64));
    assert_eq!(r.fee, 5);
    assert_eq!(r.keys, vec![account(1)]);
    assert_eq!(r.pre_balances, vec![2]);
    assert_eq!(r.post_balances, vec![3]);
    let other = Receipt::new(&[1u8; 64], 5, vec![], vec![], vec![]);
    assert!(other.signature.len() > 64);
    assert!(other.signature != r.signature);
}

#[test]
fn a_sale_is_submitted_once() {
    for new in [110.0, 92.0] {
        let mut s = holding(100.0, new, Some(0));
        assert!(!s.busy);
        assert!(s.tick(&settings(), 0).kind.moves().submit);
        assert!(s.busy);
        assert!(s.waiting.is_empty());
        for now in [400, 800, 90_000] {
            let t = s.tick(&settings(), now);
            assert_eq!(t.kind, TickKind::Waits);
            assert_eq!(t.kind.moves(), Moves { submit: false, record: false, exit: false });
            assert_eq!(value(t.percent), 0.0);
        }
        assert_eq!(s.waiting.len(), 3);
    }
}

#[test]
fn a_confirmed_sale_is_followed_by_no_purchase() {
    let mut s = holding(100.0, 110.0, Some(0));
    assert_eq!(s.tick(&settings(), 0).kind, TickKind::TakeProfit);
    s.record_sent(Some("out".to_string()));
    assert!(s.receive(&account(7), &receipt("out", 1, 200, 500), None));
    assert!(!s.is_bought);
    s.latest_pool_price = Some(wrap(55.0));
    let t = s.tick(&settings(), 400);
    assert_eq!(t.kind, TickKind::Waits);
    assert_eq!(value(t.percent), -50.0);
    assert_eq!(value(s.pool_price.unwrap()), 55.0);
    assert_eq!(value(s.bought_price.unwrap()), 100.0);
    assert!(matches!(s.waiting[0], Waiting::Purchase(p) if value(p) == 55.0));
    assert_eq!(s.tick(&settings(), 800).kind, TickKind::Watch);
    assert!(s.busy);
}

#[test]
fn ticks_that_waited_for_a_sale_that_broke_off() {
    let mut s = holding(100.0, 110.0, Some(0));
    assert_eq!(s.tick(&settings(), 0).kind, TickKind::TakeProfit);
    for new in [101.0, 91.0, 120.0] {
        s.latest_pool_price = Some(wrap(new));
        assert_eq!(s.tick(&settings(), 400).kind, TickKind::Waits);
    }
    let t = s.next_turn(&settings(), 900).unwrap();
    assert_eq!(t.kind, TickKind::Hold);
    assert_eq!(value(t.percent), 1.0);
    assert!(s.busy);
    let t = s.next_turn(&settings(), 900).unwrap();
    assert_eq!(t.kind, TickKind::StopLoss);
    assert_eq!(value(t.percent), -9.0);
    assert!(s.busy);
    assert_eq!(s.next_turn(&settings(), 4000).unwrap().kind, TickKind::TakeProfit);
    assert!(s.next_turn(&settings(), 8000).is_none());
    assert!(!s.busy);
    assert!(s.tick(&settings(), 8000).kind.moves().submit);
}

#[test]
fn a_position_that_waited_is_given_up_by_the_time_of_its_turn() {
    let mut s = holding(100.0, 110.0, Some(0));
    assert_eq!(s.tick(&settings(), 0).kind, TickKind::TakeProfit);
    s.latest_pool_price = Some(wrap(100.0));
    assert_eq!(s.tick(&settings(), 400).kind, TickKind::Waits);
    assert_eq!(s.next_turn(&settings(), 60_001).unwrap().kind, TickKind::AutoExit);
}

#[test]
fn drops_during_a_purchase_wait_for_it() {
    let mut s = priced(100.0, 90.0);
    assert_eq!(s.tick(&settings(), 10).kind, TickKind::Buy);
    assert!(s.busy);
    s.latest_pool_price = Some(wrap(80.0));
    assert_eq!(s.tick(&settings(), 410).kind, TickKind::Waits);
    assert_eq!(value(s.bought_price.unwrap()), 90.0);
    assert_eq!(s.bought_at, Some(10));
    assert_eq!(s.next_turn(&settings(), 500).unwrap().kind, TickKind::Buy);
    assert_eq!(value(s.bought_price.unwrap()), 80.0);
    assert_eq!(s.bought_at, Some(500));
    assert!(s.next_turn(&settings(), 600).is_none());
    assert!(!s.busy);
    s.latest_pool_price = Some(wrap(70.0));
    assert_eq!(s.tick(&settings(), 810).kind, TickKind::Buy);
}

#[test]
fn other_ticks_carry_nothing_out() {
    let mut s = priced(1.0, 1.0);
    assert_eq!(s.tick(&settings(), 0).kind, TickKind::Watch);
    assert!(!s.busy);
    let mut s = holding(1.0, 1.0, Some(0));
    assert_eq!(s.tick(&settings(), 60_000).kind, TickKind::Hold);
    assert!(!s.busy);
    assert_eq!(s.tick(&settings(), 60_001).kind, TickKind::AutoExit);
    assert!(!s.busy);
}
