use alloy::primitives::Bytes;
use alloy::sol_types::{sol_data, SolType};
use backrun::abi::{get_pair_call, CallResult, AGGREGATE3};
use backrun::address::{sorted_pair, Address};
use backrun::config::{DEFAULT_FACTORIES_RAW, DEFAULT_TOKEN_LIST_RAW};
use backrun::discovery::{
    book_from_replies, discovered_pairs, discovery_call, multicall3, plan_discovery,
};
use backrun::registry::{parse_dex_factories, parse_token_list, DexFactoryMap};
use backrun::table::Table;

fn addr(b: u8) -> Address {
    Address { bytes: [b; 20] }
}

fn factories() -> DexFactoryMap {
    let mut map: DexFactoryMap = Table::new();
    map.insert("quick".to_string(), addr(0x51));
    map.insert("sushi".to_string(), addr(0x52));
    map
}

fn word(b: u8) -> Vec<u8> {
    let mut w = vec![0u8; 12];
    w.extend([b; 20]);
    w
}

fn batch_reply(list: Vec<(bool, Vec<u8>)>) -> Vec<u8> {
    let tuples: Vec<(bool, Bytes)> = list.into_iter().map(|(s, d)| (s, Bytes::from(d))).collect();
    <(sol_data::Array<(sol_data::Bool, sol_data::Bytes)>,)>::abi_encode_sequence(&(tuples,))
}

#[test]
fn batches_go_to_one_contract() {
    assert_eq!(multicall3().bytes[..3], [0xca, 0x11, 0xbd]);
    assert_eq!(multicall3().bytes[17..], [0x76, 0xca, 0x11]);
}

#[test]
fn every_two_tokens_are_asked_about_once() {
    let tokens = vec![addr(3), addr(1), addr(2)];
    let plan = plan_discovery(&tokens, &factories());
    let asked: Vec<(u8, u8, u8, String)> = plan
        .iter()
        .map(|q| (q.factory.bytes[0], q.token0.bytes[0], q.token1.bytes[0], q.dex.clone()))
        .collect();
    let mut expected = vec![];
    for (factory, dex) in [(0x51, "quick"), (0x52, "sushi")] {
        for (a, b) in [(1, 3), (2, 3), (1, 2)] {
            expected.push((factory, a, b, dex.to_string()));
        }
    }
    assert_eq!(asked, expected);
}

#[test]
fn six_tokens_on_three_exchanges_make_45_questions() {
    let tokens = parse_token_list(DEFAULT_TOKEN_LIST_RAW);
    let plan = plan_discovery(&tokens, &parse_dex_factories(DEFAULT_FACTORIES_RAW));
    assert_eq!(plan.len(), 45);
}

#[test]
fn nothing_is_asked_of_one_token_or_no_exchange() {
    assert!(plan_discovery(&vec![addr(1)], &factories()).is_empty());
    assert!(plan_discovery(&vec![], &factories()).is_empty());
    assert!(plan_discovery(&vec![addr(1), addr(2)], &Table::new()).is_empty());
}

#[test]
fn discovery_asks_for_pools_in_one_batch() {
    let plan = plan_discovery(&vec![addr(2), addr(1)], &factories());
    let call = discovery_call(&plan);
    assert_eq!(call[..4], AGGREGATE3.to_be_bytes());
    let question = get_pair_call(&addr(1), &addr(2));
    let found = (0..call.len() - question.len())
        .filter(|i| call[*i..*i + question.len()] == question[..])
        .count();
    assert_eq!(found, 2);
}

#[test]
fn replies_become_pools() {
    let plan = plan_discovery(&vec![addr(2), addr(1), addr(3)], &factories());
    let reply = |success: bool, return_data: Vec<u8>| CallResult { success, return_data };
    let replies = vec![
        reply(true, word(0x61)),
        reply(false, word(0x62)),
        reply(true, word(0)),
        reply(true, word(0x63)[..31].to_vec()),
        reply(true, word(0x64)),
    ];
    let book = book_from_replies(&plan, &replies);
    assert_eq!(book.known.len(), 2);
    assert_eq!(book.dex.get(&addr(0x61)), Some(&"quick".to_string()));
    assert_eq!(book.dex.get(&addr(0x64)), Some(&"sushi".to_string()));
    let list = book.registry.get(&sorted_pair(addr(2), addr(3))).unwrap();
    assert_eq!((list[0].pair.bytes[0], list[0].dex.as_str()), (0x64, "sushi"));
    assert_eq!(book.registry.len(), 2);
}

#[test]
fn replies_are_read_from_the_batch() {
    let plan = plan_discovery(&vec![addr(1), addr(2)], &factories());
    let data = batch_reply(vec![(true, word(0x61)), (true, word(0x62)), (true, word(0x63))]);
    let book = discovered_pairs(&plan, Some(&data));
    assert_eq!(book.known.len(), 2);
    assert!(book.known.contains_key(&addr(0x62)));
    assert_eq!(discovered_pairs(&plan, Some(&vec![1, 2, 3])).known.len(), 0);
    assert_eq!(discovered_pairs(&plan, None).known.len(), 0);
}
