use alloy::primitives::{keccak256, Address as ChainAddress, Bytes, U256 as Wide};
use alloy::sol_types::{sol_data, SolType};
use backrun::abi::{
    aggregate3_call, balance_from_reply, balance_of_call, get_pair_call, get_reserves_call,
    owner_call, read_selector, Call3, AGGREGATE3, BALANCE_OF, EXECUTE_FLASH_ARBITRAGE, GET_PAIR,
    GET_RESERVES, OWNER, SWAP_EXACT_ETH_FOR_TOKENS, SWAP_EXACT_TOKENS_FOR_ETH,
    SWAP_EXACT_TOKENS_FOR_TOKENS, SWAP_EXACT_TOKENS_FOR_TOKENS_WITH_FEE,
};
use backrun::address::Address;
use backrun::u256::U256;

fn addr(b: u8) -> Address {
    Address { bytes: [b; 20] }
}

fn chain(b: u8) -> ChainAddress {
    ChainAddress::from([b; 20])
}

fn selector(signature: &str) -> u32 {
    let hash = keccak256(signature.as_bytes());
    u32::from_be_bytes([hash[0], hash[1], hash[2], hash[3]])
}

#[test]
fn selectors_are_those_of_the_signatures() {
    let swap = "(uint256,uint256,address[],address,uint256)";
    for (name, expected) in [
        ("swapExactTokensForTokens", SWAP_EXACT_TOKENS_FOR_TOKENS),
        ("swapExactTokensForETH", SWAP_EXACT_TOKENS_FOR_ETH),
        (
            "swapExactTokensForTokensSupportingFeeOnTransferTokens",
            SWAP_EXACT_TOKENS_FOR_TOKENS_WITH_FEE,
        ),
    ] {
        assert_eq!(selector(&format!("{name}{swap}")), expected);
    }
    assert_eq!(
        selector("swapExactETHForTokens(uint256,address[],address,uint256)"),
        SWAP_EXACT_ETH_FOR_TOKENS
    );
    assert_eq!(selector("aggregate3((address,bool,bytes)[])"), AGGREGATE3);
    assert_eq!(selector("getReserves()"), GET_RESERVES);
    assert_eq!(selector("getPair(address,address)"), GET_PAIR);
    assert_eq!(selector("balanceOf(address)"), BALANCE_OF);
    assert_eq!(selector("owner()"), OWNER);
    let params = "(address,address,address,address,address,uint256,uint256,uint256,address,uint256,address,uint256,uint256)";
    assert_eq!(
        selector(&format!("executeFlashArbitrage({params},uint256,uint256)")),
        EXECUTE_FLASH_ARBITRAGE
    );
}

#[test]
fn selector_is_the_first_four_bytes() {
    assert_eq!(read_selector(&[0xe6, 0xa4, 0x39, 0x05, 0xff]), Some(GET_PAIR));
    assert_eq!(read_selector(&[0xe6, 0xa4, 0x39]), None);
    assert_eq!(read_selector(&[]), None);
}

#[test]
fn short_calls_are_a_selector_and_words() {
    assert_eq!(get_reserves_call(), GET_RESERVES.to_be_bytes().to_vec());
    assert_eq!(owner_call(), OWNER.to_be_bytes().to_vec());
    let mut pair = GET_PAIR.to_be_bytes().to_vec();
    pair.extend(<(sol_data::Address, sol_data::Address)>::abi_encode_sequence(&(
        chain(3),
        chain(4),
    )));
    assert_eq!(get_pair_call(&addr(3), &addr(4)), pair);
    let mut balance = BALANCE_OF.to_be_bytes().to_vec();
    balance.extend([0u8; 12]);
    balance.extend([9u8; 20]);
    assert_eq!(balance_of_call(&addr(9)), balance);
}

#[test]
fn batch_holds_every_call() {
    let list = vec![
        Call3 { target: addr(1), allow_failure: true, call_data: vec![1, 2, 3] },
        Call3 { target: addr(2), allow_failure: false, call_data: vec![] },
    ];
    let mut expected = AGGREGATE3.to_be_bytes().to_vec();
    let tuples: Vec<(ChainAddress, bool, Bytes)> =
        vec![(chain(1), true, Bytes::from(vec![1, 2, 3])), (chain(2), false, Bytes::new())];
    expected.extend(
        <(sol_data::Array<(sol_data::Address, sol_data::Bool, sol_data::Bytes)>,)>::abi_encode_sequence(
            &(tuples,),
        ),
    );
    assert_eq!(aggregate3_call(&list), expected);
    assert_eq!(expected.len(), 4 + 32 * 13);
}

#[test]
fn balance_is_the_first_word() {
    let word = Wide::from(123_456_789u64).to_be_bytes::<32>();
    assert_eq!(balance_from_reply(&word), U256::from_u64(123_456_789));
    let mut longer = word.to_vec();
    longer.push(7);
    assert_eq!(balance_from_reply(&longer), U256::from_u64(123_456_789));
    assert_eq!(balance_from_reply(&word[..31]), U256::zero());
    assert_eq!(balance_from_reply(&[]), U256::zero());
    assert_eq!(
        balance_from_reply(&[0xff; 32]),
        U256 { l0: u64::MAX, l1: u64::MAX, l2: u64::MAX, l3: u64::MAX }
    );
}
