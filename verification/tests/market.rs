use alloy::primitives::{Bytes, U256 as Wide};
use alloy::sol_types::{sol_data, SolType};
use backrun::abi::{CallResult, AGGREGATE3, GET_RESERVES};
use backrun::address::Address;
use backrun::market::{
    bootstrap_call, bootstrap_reserves, invert, load_reserves, update_reserve_from_log,
    warm_code_cache, watched_contracts, CodeCache, FetchedCode,
};
use backrun::pool::{MarketState, PoolState};
use backrun::registry::{PairBook, RouterDexMap};
use backrun::table::Table;
use backrun::u256::U256;

fn n(x: u128) -> U256 {
    U256::from_u128(x)
}

fn addr(b: u8) -> Address {
    Address { bytes: [b; 20] }
}

fn words(list: &[u64]) -> Vec<u8> {
    list.iter().flat_map(|x| Wide::from(*x).to_be_bytes::<32>()).collect()
}

fn facts(state: &MarketState, pair: u8) -> Option<(U256, U256, u32, u8, u8)> {
    state
        .get(&addr(pair))
        .map(|p| (p.reserve0, p.reserve1, p.fee_bps, p.token0.bytes[0], p.token1.bytes[0]))
}

fn book() -> PairBook {
    let mut book = PairBook::new();
    book.add(addr(10), addr(1), addr(2), "quick".to_string());
    book.add(addr(11), addr(2), addr(1), "sushi".to_string());
    book.add(addr(12), addr(3), addr(2), "quick".to_string());
    book
}

#[test]
fn event_sets_the_reserves() {
    let mut state: MarketState = Table::new();
    update_reserve_from_log(&mut state, addr(10), &words(&[5, 6]));
    assert_eq!(facts(&state, 10), Some((n(5), n(6), 30, 0, 0)));
    let known = PoolState {
        reserve0: n(1),
        reserve1: n(1),
        fee_bps: 25,
        token0: addr(1),
        token1: addr(2),
    };
    state.insert(addr(11), known);
    update_reserve_from_log(&mut state, addr(11), &words(&[7, 8, 9]));
    assert_eq!(facts(&state, 11), Some((n(7), n(8), 25, 1, 2)));
    assert_eq!(facts(&state, 10), Some((n(5), n(6), 30, 0, 0)));
}

#[test]
fn written_reserves_are_read_again() {
    let book = book();
    let replies = vec![CallResult { success: true, return_data: words(&[u64::MAX, 1, 9]) }];
    let mut state: MarketState = Table::new();
    load_reserves(&mut state, &book.known, &book.registry, &replies);
    assert_eq!(facts(&state, 10), Some((n(u64::MAX as u128), n(1), 30, 1, 2)));
}

#[test]
fn short_event_changes_nothing() {
    let mut state: MarketState = Table::new();
    update_reserve_from_log(&mut state, addr(10), &words(&[5, 6])[..63]);
    assert_eq!(state.len(), 0);
    update_reserve_from_log(&mut state, addr(10), &[0xff; 64]);
    let most = U256 { l0: u64::MAX, l1: u64::MAX, l2: u64::MAX, l3: u64::MAX };
    assert_eq!(facts(&state, 10), Some((most, most, 30, 0, 0)));
}

#[test]
fn tokens_of_a_pool_are_found() {
    let tokens = invert(&book().registry);
    assert_eq!(tokens.len(), 3);
    let pair = tokens.get(&addr(12)).unwrap();
    assert_eq!((pair.first.bytes[0], pair.second.bytes[0]), (2, 3));
    assert!(tokens.get(&addr(13)).is_none());
}

#[test]
fn reserves_are_asked_for_in_one_batch() {
    let call = bootstrap_call(&book().known);
    assert_eq!(call[..4], AGGREGATE3.to_be_bytes());
    let selector = GET_RESERVES.to_be_bytes();
    let asked = (4..call.len() - 4).filter(|i| call[*i..*i + 4] == selector).count();
    assert_eq!(asked, 3);
}

#[test]
fn replies_fill_the_market() {
    let mut book = book();
    book.known.insert(addr(13), ());
    book.known.insert(addr(14), ());
    let reply = |success: bool, return_data: Vec<u8>| CallResult { success, return_data };
    let replies = vec![
        reply(true, words(&[100, 200, 1])),
        reply(false, words(&[100, 200, 1])),
        reply(true, words(&[100, 200])),
        reply(true, words(&[300, 400, 1])),
    ];
    let mut state: MarketState = Table::new();
    load_reserves(&mut state, &book.known, &book.registry, &replies);
    assert_eq!(facts(&state, 10), Some((n(100), n(200), 30, 1, 2)));
    assert_eq!(facts(&state, 11), None);
    assert_eq!(facts(&state, 12), None);
    assert_eq!(facts(&state, 13), Some((n(300), n(400), 30, 0, 0)));
    assert_eq!(facts(&state, 14), None);
}

#[test]
fn batch_reply_fills_the_market() {
    let book = book();
    let tuples: Vec<(bool, Bytes)> = vec![
        (true, Bytes::from(words(&[1, 2, 3]))),
        (true, Bytes::from([vec![0xffu8; 32], words(&[9, 9])].concat())),
    ];
    let data =
        <(sol_data::Array<(sol_data::Bool, sol_data::Bytes)>,)>::abi_encode_sequence(&(tuples,));
    let mut state: MarketState = Table::new();
    bootstrap_reserves(&mut state, &book.known, &book.registry, &data);
    assert_eq!(facts(&state, 10), Some((n(1), n(2), 30, 1, 2)));
    assert_eq!(facts(&state, 11), Some((n((1 << 112) - 1), n(9), 30, 1, 2)));
    assert_eq!(facts(&state, 12), None);
    bootstrap_reserves(&mut state, &book.known, &book.registry, &[1, 2, 3]);
    assert_eq!(state.len(), 2);
}

#[test]
fn code_of_all_contracts_is_watched() {
    let book = book();
    let mut routers: RouterDexMap = Table::new();
    routers.insert(addr(90), "quick".to_string());
    let set = watched_contracts(addr(99), &routers, &book.known, &book.registry);
    assert_eq!(set.len(), 8);
    for b in [99, 90, 10, 11, 12, 1, 2, 3] {
        assert!(set.contains_key(&addr(b)));
    }
}

#[test]
fn empty_codes_are_not_kept() {
    let mut cache: CodeCache = Table::new();
    let fetched = |b: u8, code: Option<Vec<u8>>| FetchedCode { address: addr(b), code };
    let kept = warm_code_cache(
        &mut cache,
        vec![
            fetched(1, Some(vec![1, 2])),
            fetched(2, Some(vec![])),
            fetched(3, None),
            fetched(1, Some(vec![3])),
        ],
    );
    assert_eq!(kept, 2);
    assert_eq!(cache.len(), 1);
    assert_eq!(cache.get(&addr(1)), Some(&vec![3]));
}
