use alloy::primitives::{Address as ChainAddress, U256 as Wide};
use alloy::sol_types::{sol_data, SolType};
use backrun::abi::SWAP_EXACT_TOKENS_FOR_TOKENS;
use backrun::address::Address;
use backrun::calldata::build_calldata;
use backrun::opportunity::{
    deadline_after, find_opportunity, is_watched, latest_gas, swap_to_follow, worth_following,
    write_call, DropReason, Opportunity,
};
use backrun::pool::{MarketState, PoolState, VictimSwap};
use backrun::registry::{AddressSet, DexFactoryMap, PairBook, RouterDexMap};
use backrun::resolve::{wmatic, ResolveError};
use backrun::table::Table;
use backrun::u256::U256;

fn n(x: u128) -> U256 {
    U256::from_u128(x)
}

fn addr(b: u8) -> Address {
    Address { bytes: [b; 20] }
}

fn pool(reserve0: u128, reserve1: u128) -> PoolState {
    PoolState {
        reserve0: n(reserve0),
        reserve1: n(reserve1),
        fee_bps: 30,
        token0: wmatic(),
        token1: addr(2),
    }
}

fn swap(paid: u128) -> VictimSwap {
    VictimSwap { amount_in: n(paid), path: vec![wmatic(), addr(2)] }
}

fn book() -> PairBook {
    let mut book = PairBook::new();
    book.add(addr(10), wmatic(), addr(2), "quick".to_string());
    book.add(addr(11), wmatic(), addr(2), "sushi".to_string());
    book
}

fn factories(names: &[&str]) -> DexFactoryMap {
    let mut map: DexFactoryMap = Table::new();
    for name in names {
        let first = name.as_bytes()[0];
        map.insert(name.to_string(), addr(first));
    }
    map
}

fn market() -> MarketState {
    let mut state: MarketState = Table::new();
    state.insert(addr(10), pool(1_000_000, 1_000_000));
    state.insert(addr(11), pool(1_000_000, 1_000_001));
    state
}

fn find(names: &[&str], to: u8, paid: u128) -> Result<Opportunity, DropReason> {
    let b = book();
    let routers: RouterDexMap = Table::new();
    find_opportunity(
        &b.registry,
        &b.dex,
        &routers,
        &factories(names),
        &market(),
        addr(to),
        &swap(paid),
    )
}

#[test]
fn known_addresses_are_watched() {
    let mut routers: RouterDexMap = Table::new();
    routers.insert(addr(1), "quick".to_string());
    let mut pairs: AddressSet = Table::new();
    pairs.insert(addr(2), ());
    assert!(is_watched(&addr(1), &routers, &pairs));
    assert!(is_watched(&addr(2), &routers, &pairs));
    assert!(!is_watched(&addr(3), &routers, &pairs));
}

#[test]
fn empty_swaps_are_not_followed() {
    assert!(worth_following(Some(swap(1))).is_some());
    assert!(worth_following(Some(swap(0))).is_none());
    assert!(worth_following(None).is_none());
    let short = VictimSwap { amount_in: n(1), path: vec![addr(1)] };
    assert!(worth_following(Some(short)).is_none());
}

#[test]
fn swap_of_a_transaction_is_followed() {
    let mut input = SWAP_EXACT_TOKENS_FOR_TOKENS.to_be_bytes().to_vec();
    let path = vec![ChainAddress::from([1; 20]), ChainAddress::from([2; 20])];
    input.extend(
        <(
            sol_data::Uint<256>,
            sol_data::Uint<256>,
            sol_data::Array<sol_data::Address>,
            sol_data::Address,
            sol_data::Uint<256>,
        )>::abi_encode_sequence(&(
            Wide::from(5u64),
            Wide::from(1u64),
            path,
            ChainAddress::from([9; 20]),
            Wide::from(99u64),
        )),
    );
    let found = swap_to_follow(&input, n(0)).unwrap();
    assert_eq!(found.amount_in, n(5));
    assert_eq!(found.path.len(), 2);
    assert!(swap_to_follow(&input[..3], n(0)).is_none());
}

#[test]
fn last_base_fee_counts() {
    let gas = latest_gas(&vec![3, 4], Some(9)).unwrap();
    assert_eq!((gas.base_fee, gas.current_block), (n(4), 9));
    assert!(latest_gas(&vec![], Some(9)).is_none());
    assert!(latest_gas(&vec![3], None).is_none());
}

#[test]
fn loan_comes_from_the_other_pool() {
    let o = match find(&["quick", "sushi"], 10, 200_000) {
        Ok(o) => o,
        Err(_) => panic!("there is an opportunity"),
    };
    assert_eq!((o.pair1.bytes[0], o.pair2.bytes[0]), (11, 10));
    assert_eq!((o.dex1.as_str(), o.dex2.as_str()), ("sushi", "quick"));
    assert_eq!((o.factory1.bytes[0], o.factory2.bytes[0]), (b's', b'q'));
    assert_eq!((o.snap1.reserve1, o.snap2.reserve1), (n(1_000_001), n(1_000_000)));
    assert!(!o.optimal_borrow.is_zero());
}

#[test]
fn missing_parts_of_an_opportunity_are_told() {
    let reason = |r: Result<Opportunity, DropReason>| r.err();
    assert_eq!(
        reason(find(&["quick", "sushi"], 77, 200_000)),
        Some(DropReason::Unresolved(ResolveError::UnknownExchange))
    );
    assert_eq!(reason(find(&["quick"], 10, 200_000)), Some(DropReason::NoLenderFactory));
    assert_eq!(reason(find(&["sushi"], 10, 200_000)), Some(DropReason::NoSaleFactory));
    assert_eq!(reason(find(&["quick", "sushi"], 10, 0)), Some(DropReason::NoLoan));
}

#[test]
fn call_is_valid_for_fifteen_seconds() {
    assert_eq!(deadline_after(100), n(115));
    assert_eq!(deadline_after(u64::MAX), n(u64::MAX as u128 + 15));
}

#[test]
fn call_is_written_where_it_pays_for_gas() {
    let o = match find(&["quick", "sushi"], 10, 200_000) {
        Ok(o) => o,
        Err(_) => panic!("there is an opportunity"),
    };
    let b = book();
    let state = market();
    let write = |fee: u128| write_call(&o, n(7), &swap(200_000), &b.registry, &state, n(fee));
    let expected = build_calldata(
        o.pair1,
        o.pair2,
        o.factory1,
        o.factory2,
        n(7),
        &swap(200_000),
        o.optimal_borrow,
        &o.snap1,
        &o.snap2,
    );
    assert_eq!(write(0).ok(), expected);
    assert!(expected.is_some());
    assert_eq!(write(1).err(), Some(DropReason::Unprofitable));
}

#[test]
fn call_needs_a_loan_and_a_price_of_gas() {
    let mut o = match find(&["quick", "sushi"], 10, 200_000) {
        Ok(o) => o,
        Err(_) => panic!("there is an opportunity"),
    };
    let empty = PairBook::new();
    let state = market();
    assert_eq!(
        write_call(&o, n(7), &swap(0), &empty.registry, &state, n(1)).err(),
        Some(DropReason::NoCall)
    );
    o.snap1 = pool(1_000_000, 2_000_000);
    o.snap1.token0 = addr(3);
    o.snap2.token0 = addr(3);
    let mut foreign = swap(200_000);
    foreign.path = vec![addr(3), addr(2)];
    assert_eq!(
        write_call(&o, n(7), &foreign, &empty.registry, &state, n(1)).err(),
        Some(DropReason::NoGasPrice)
    );
    foreign.path = vec![addr(3)];
    assert_eq!(
        write_call(&o, n(7), &foreign, &empty.registry, &state, n(1)).err(),
        Some(DropReason::NoCall)
    );
}
