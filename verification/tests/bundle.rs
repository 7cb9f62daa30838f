use backrun::address::Address;
use backrun::bundle::{
    authorisation, bundle_blocks, is_accepted, price_bundle, transaction_text, BundlePrice,
};
use backrun::opportunity::DropReason;
use backrun::pool::MarketState;
use backrun::registry::PairRegistry;
use backrun::resolve::wmatic;
use backrun::simulation::SimulationResult;
use backrun::table::Table;
use backrun::u256::U256;

fn n(x: u128) -> U256 {
    U256::from_u128(x)
}

fn price(
    sim: &SimulationResult,
    base_fee: U256,
    bribe_bps: u64,
    token: Address,
) -> Result<BundlePrice, DropReason> {
    let registry: PairRegistry = Table::new();
    let state: MarketState = Table::new();
    price_bundle(sim, base_fee, bribe_bps, &registry, &state, token)
}

fn sim(profit: u128, gas_used: u64) -> SimulationResult {
    SimulationResult { is_profitable: profit > 0, expected_profit: n(profit), gas_used }
}

#[test]
fn bundle_shares_its_profit() {
    let p = match price(&sim(10_000_000, 100_001), n(30), 9000, wmatic()) {
        Ok(p) => p,
        Err(_) => panic!("the bundle is worth sending"),
    };
    assert_eq!(p.base_gas_cost, n(3_000_030));
    assert_eq!(p.net_profit, n(6_999_970));
    assert_eq!(p.miner_bribe, n(6_299_973));
    assert_eq!(p.priority_fee_per_gas, n(62));
    assert_eq!(p.max_fee_per_gas, n(92));
    assert_eq!(p.gas_limit, 120_001);
    assert!(p.miner_bribe.less_than(&p.net_profit));
}

#[test]
fn bundles_that_do_not_pay_are_dropped() {
    let reason = |r: Result<BundlePrice, DropReason>| r.err();
    let token = Address { bytes: [5; 20] };
    assert_eq!(reason(price(&sim(0, 100), n(1), 9000, wmatic())), Some(DropReason::Unprofitable));
    assert_eq!(reason(price(&sim(100, 100), n(1), 9000, wmatic())), Some(DropReason::Unprofitable));
    assert_eq!(reason(price(&sim(101, 100), n(1), 9000, token)), Some(DropReason::NoGasPrice));
    assert_eq!(reason(price(&sim(5, 0), n(1), 9000, wmatic())), Some(DropReason::NoGasUsed));
    assert!(price(&sim(101, 100), n(1), 9000, wmatic()).is_ok());
}

#[test]
fn share_that_does_not_fit_is_nothing() {
    let most = U256 { l0: u64::MAX, l1: u64::MAX, l2: u64::MAX, l3: u64::MAX };
    let huge = SimulationResult { is_profitable: true, expected_profit: most, gas_used: 1 };
    let p = match price(&huge, n(1), 9000, wmatic()) {
        Ok(p) => p,
        Err(_) => panic!("the bundle is worth sending"),
    };
    assert_eq!(p.miner_bribe, n(0));
    assert_eq!(p.max_fee_per_gas, n(1));
    let long = SimulationResult { is_profitable: true, expected_profit: most, gas_used: u64::MAX };
    match price(&long, n(0), 0, wmatic()) {
        Ok(p) => assert_eq!(p.gas_limit, u64::MAX / 100),
        Err(_) => panic!("the bundle is worth sending"),
    }
}

#[test]
fn bundle_may_run_in_the_next_blocks() {
    let (first, last) = bundle_blocks(255, 3);
    assert_eq!((first.as_str(), last.as_str()), ("0x100", "0x102"));
}

#[test]
fn transactions_are_written_in_hexadecimal() {
    assert_eq!(transaction_text(&[0x02, 0xf8, 0x0a]), "0x02f80a");
    assert_eq!(transaction_text(&[]), "0x");
}

#[test]
fn one_builder_gets_the_authorisation() {
    let key = || Some("key".to_string());
    assert_eq!(authorisation("https://polygon.api.blxrbdn.com", key()), key());
    assert_eq!(authorisation("https://polygon.api.blxrbdn.com", None), None);
    assert_eq!(authorisation("https://rpc.fastlane.finance", key()), None);
}

#[test]
fn replies_with_an_error_are_refusals() {
    assert!(is_accepted(true, "{\"result\":\"0x1\"}"));
    assert!(!is_accepted(true, "{\"error\":{\"code\":-32000}}"));
    assert!(!is_accepted(false, "{\"result\":\"0x1\"}"));
    assert!(is_accepted(true, "error"));
}
