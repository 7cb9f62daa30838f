use backrun::address::TxHash;
use backrun::table::Table;
use backrun::trades::{
    api_stats, api_trades, expire, record_submitted_trade, settle, submitted_trade, LossReason,
    OutcomeWatch, Receipt, TradeLog, TradeRecord, TradeStatus, MAX_ATTEMPTS,
};
use backrun::u256::U256;

fn n(x: u128) -> U256 {
    U256::from_u128(x)
}

fn hash(b: u8) -> TxHash {
    TxHash { bytes: [b; 32] }
}

fn trade(b: u8, timestamp: u64, profit: u128) -> TradeRecord {
    submitted_trade(timestamp, hash(b), hash(0xfe), n(profit), n(7), "quick", "sushi", 2)
}

fn receipt(success: bool) -> Receipt {
    Receipt { success, gas_used: 100, effective_gas_price: 30 }
}

#[test]
fn submitted_trade_is_waiting() {
    let t = trade(0xab, 5, 1000);
    assert_eq!(t.tx_hash, format!("0x{}", "ab".repeat(32)));
    assert_eq!(t.victim_tx_hash, format!("0x{}", "fe".repeat(32)));
    assert_eq!(t.timestamp, 5);
    assert_eq!(t.expected_profit_wei, "1000");
    assert_eq!(t.expected_gas_cost_wei, "7");
    assert_eq!(t.status, TradeStatus::Submitted);
    assert_eq!(t.loss_reason, None);
    assert_eq!(t.actual_gas_used, None);
    assert_eq!(t.actual_gas_cost_wei, None);
    assert_eq!(t.actual_net_profit_wei, None);
    assert_eq!(t.dex1, Some("quick".to_string()));
    assert_eq!(t.dex2, Some("sushi".to_string()));
    assert_eq!(t.builder_count, Some(2));
}

#[test]
fn recorded_trade_has_the_time_of_the_clock() {
    let mut log: TradeLog = Table::new();
    record_submitted_trade(&mut log, hash(1), hash(2), n(10), n(3), "a", "b", 1);
    let found = log.get(&hash(1)).unwrap();
    assert!(found.timestamp > 1_600_000_000);
    assert_eq!(found.expected_profit_wei, "10");
    assert_eq!(log.len(), 1);
}

#[test]
fn successful_trade_is_won() {
    let won = settle(&trade(1, 5, 10_000), &receipt(true));
    assert_eq!(won.status, TradeStatus::Won);
    assert_eq!(won.loss_reason, None);
    assert_eq!(won.actual_gas_used, Some(100));
    assert_eq!(won.actual_gas_cost_wei, Some("3000".to_string()));
    assert_eq!(won.actual_net_profit_wei, Some("7000".to_string()));
    assert_eq!(won.dex2, Some("sushi".to_string()));
    let dear = settle(&trade(1, 5, 2_999), &receipt(true));
    assert_eq!(dear.actual_net_profit_wei, Some("0".to_string()));
    let mut unreadable = trade(1, 5, 1);
    unreadable.expected_profit_wei = "?".to_string();
    let zero = settle(&unreadable, &receipt(true));
    assert_eq!(zero.actual_net_profit_wei, Some("0".to_string()));
}

#[test]
fn failed_trade_is_lost_at_the_cost_of_gas() {
    let lost = settle(&trade(1, 5, 10_000), &receipt(false));
    assert_eq!(lost.status, TradeStatus::Lost);
    assert_eq!(lost.loss_reason, Some(LossReason::Reverted));
    assert_eq!(lost.actual_gas_used, Some(100));
    assert_eq!(lost.actual_gas_cost_wei, Some("3000".to_string()));
    assert_eq!(lost.actual_net_profit_wei, Some("-3000".to_string()));
}

#[test]
fn forgotten_trade_is_lost_at_no_cost() {
    let lost = expire(&trade(1, 5, 10_000));
    assert_eq!(lost.status, TradeStatus::Lost);
    assert_eq!(lost.loss_reason, Some(LossReason::NotIncluded));
    assert_eq!(lost.actual_gas_used, Some(0));
    assert_eq!(lost.actual_gas_cost_wei, Some("0".to_string()));
    assert_eq!(lost.actual_net_profit_wei, Some("0".to_string()));
    let won = settle(&trade(1, 5, 10_000), &receipt(true));
    assert_eq!(expire(&won).status, TradeStatus::Won);
    assert_eq!(expire(&won).actual_net_profit_wei, Some("7000".to_string()));
}

#[test]
fn watch_ends_with_a_receipt() {
    let mut log: TradeLog = Table::new();
    log.insert(hash(1), trade(1, 5, 10_000));
    log.insert(hash(2), trade(2, 5, 10_000));
    let mut watch = OutcomeWatch::new();
    assert!(!watch.step(&mut log, hash(1), None));
    assert_eq!(log.get(&hash(1)).unwrap().status, TradeStatus::Submitted);
    assert!(watch.step(&mut log, hash(1), Some(receipt(true))));
    assert_eq!(watch.attempts, 2);
    assert_eq!(log.get(&hash(1)).unwrap().status, TradeStatus::Won);
    assert_eq!(log.get(&hash(2)).unwrap().status, TradeStatus::Submitted);
    let mut stray = OutcomeWatch::new();
    assert!(stray.step(&mut log, hash(3), Some(receipt(false))));
    assert_eq!(log.len(), 2);
}

#[test]
fn watch_gives_up_after_the_last_attempt() {
    let mut log: TradeLog = Table::new();
    log.insert(hash(1), trade(1, 5, 10_000));
    let mut watch = OutcomeWatch::new();
    for _ in 1..MAX_ATTEMPTS {
        assert!(!watch.step(&mut log, hash(1), None));
    }
    assert_eq!(log.get(&hash(1)).unwrap().status, TradeStatus::Submitted);
    assert!(watch.step(&mut log, hash(1), None));
    assert_eq!(watch.attempts, 20);
    assert_eq!(log.get(&hash(1)).unwrap().loss_reason, Some(LossReason::NotIncluded));
}

#[test]
fn statistics_add_up() {
    let mut log: TradeLog = Table::new();
    log.insert(hash(1), trade(1, 1, 10));
    log.insert(hash(2), settle(&trade(2, 2, 10_000), &receipt(true)));
    log.insert(hash(3), settle(&trade(3, 3, 4_000), &receipt(true)));
    log.insert(hash(4), settle(&trade(4, 4, 10_000), &receipt(false)));
    log.insert(hash(5), expire(&trade(5, 5, 10_000)));
    let mut old = expire(&trade(6, 6, 10_000));
    old.loss_reason = None;
    log.insert(hash(6), old);
    let stats = api_stats(&log);
    assert_eq!(stats.total_trades, 6);
    assert_eq!((stats.won, stats.lost, stats.pending), (2, 3, 1));
    assert_eq!((stats.lost_not_included, stats.lost_reverted), (2, 1));
    assert_eq!(stats.total_gas_spent_wei, "9000");
    assert_eq!(stats.total_net_profit_wei, "8000");
    let none = api_stats(&Table::new());
    assert_eq!((none.total_trades, none.won, none.lost, none.pending), (0, 0, 0, 0));
    assert_eq!(none.total_gas_spent_wei, "0");
}

#[test]
fn sums_stay_at_the_largest_number() {
    let most = U256 { l0: u64::MAX, l1: u64::MAX, l2: u64::MAX, l3: u64::MAX };
    let huge = submitted_trade(1, hash(1), hash(2), most, n(0), "a", "b", 1);
    let free = Receipt { success: true, gas_used: 0, effective_gas_price: 0 };
    let mut log: TradeLog = Table::new();
    log.insert(hash(1), settle(&huge, &free));
    log.insert(hash(2), settle(&huge, &free));
    assert_eq!(
        api_stats(&log).total_net_profit_wei,
        "115792089237316195423570985008687907853269984665640564039457584007913129639935"
    );
}

#[test]
fn newest_trades_come_first() {
    let mut log: TradeLog = Table::new();
    for (b, timestamp) in [(1u8, 10u64), (2, 30), (3, 20), (4, 30), (5, 5)] {
        log.insert(hash(b), trade(b, timestamp, 1));
    }
    let order: Vec<String> = api_trades(&log).iter().map(|t| t.tx_hash[2..4].to_string()).collect();
    assert_eq!(order, vec!["02", "04", "03", "01", "05"]);
}

#[test]
fn five_hundred_trades_are_shown() {
    let mut log: TradeLog = Table::new();
    for i in 0..510u64 {
        let mut bytes = [0u8; 32];
        bytes[0] = (i / 256) as u8;
        bytes[1] = (i % 256) as u8;
        let key = TxHash { bytes };
        log.insert(key, submitted_trade(i, key, key, n(1), n(1), "a", "b", 1));
    }
    let shown = api_trades(&log);
    assert_eq!(shown.len(), 500);
    assert_eq!(shown[0].timestamp, 509);
    assert_eq!(shown[499].timestamp, 10);
}
