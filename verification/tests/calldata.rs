use alloy::primitives::{Address as ChainAddress, U256 as Wide};
use alloy::sol_types::{sol_data, SolType};
use backrun::abi::{
    EXECUTE_FLASH_ARBITRAGE, SWAP_EXACT_ETH_FOR_TOKENS, SWAP_EXACT_TOKENS_FOR_ETH,
    SWAP_EXACT_TOKENS_FOR_TOKENS, SWAP_EXACT_TOKENS_FOR_TOKENS_WITH_FEE,
};
use backrun::address::Address;
use backrun::calldata::{
    build_calldata, coin_swap, decode_victim_swap, plan_arbitrage, swap_form, token_swap, SwapForm,
    Venue,
};
use backrun::pool::{PoolState, VictimSwap};
use backrun::u256::U256;

fn n(x: u128) -> U256 {
    U256::from_u128(x)
}

fn addr(b: u8) -> Address {
    Address { bytes: [b; 20] }
}

fn chain(b: u8) -> ChainAddress {
    ChainAddress::from([b; 20])
}

fn pool(reserve0: u128, reserve1: u128, token0: u8, token1: u8) -> PoolState {
    PoolState {
        reserve0: n(reserve0),
        reserve1: n(reserve1),
        fee_bps: 30,
        token0: addr(token0),
        token1: addr(token1),
    }
}

fn swap(paid: u128) -> VictimSwap {
    VictimSwap { amount_in: n(paid), path: vec![addr(1), addr(2)] }
}

fn token_input(selector: u32, paid: u64, path: &[u8]) -> Vec<u8> {
    let mut input = selector.to_be_bytes().to_vec();
    let path: Vec<ChainAddress> = path.iter().map(|b| chain(*b)).collect();
    input.extend(
        <(
            sol_data::Uint<256>,
            sol_data::Uint<256>,
            sol_data::Array<sol_data::Address>,
            sol_data::Address,
            sol_data::Uint<256>,
        )>::abi_encode_sequence(&(
            Wide::from(paid),
            Wide::from(1u64),
            path,
            chain(9),
            Wide::from(99u64),
        )),
    );
    input
}

fn coin_input(path: &[u8]) -> Vec<u8> {
    let mut input = SWAP_EXACT_ETH_FOR_TOKENS.to_be_bytes().to_vec();
    let path: Vec<ChainAddress> = path.iter().map(|b| chain(*b)).collect();
    input.extend(
        <(
            sol_data::Uint<256>,
            sol_data::Array<sol_data::Address>,
            sol_data::Address,
            sol_data::Uint<256>,
        )>::abi_encode_sequence(&(Wide::from(1u64), path, chain(9), Wide::from(99u64))),
    );
    input
}

fn path_of(swap: &VictimSwap) -> Vec<u8> {
    swap.path.iter().map(|a| a.bytes[0]).collect()
}

#[test]
fn swaps_of_tokens_name_their_amount() {
    for selector in [
        SWAP_EXACT_TOKENS_FOR_TOKENS,
        SWAP_EXACT_TOKENS_FOR_ETH,
        SWAP_EXACT_TOKENS_FOR_TOKENS_WITH_FEE,
    ] {
        let input = token_input(selector, 777, &[1, 2, 3]);
        let found = decode_victim_swap(&input, n(5)).unwrap();
        assert_eq!(found.amount_in, n(777));
        assert_eq!(path_of(&found), vec![1, 2, 3]);
        assert!(decode_victim_swap(&input[..input.len() - 32], n(5)).is_none());
        assert!(decode_victim_swap(&input[..4], n(5)).is_none());
    }
}

#[test]
fn swaps_of_the_coin_carry_their_amount() {
    let found = decode_victim_swap(&coin_input(&[1, 2]), n(5)).unwrap();
    assert_eq!(found.amount_in, n(5));
    assert_eq!(path_of(&found), vec![1, 2]);
    assert!(decode_victim_swap(&SWAP_EXACT_ETH_FOR_TOKENS.to_be_bytes(), n(5)).is_none());
}

#[test]
fn other_calls_are_no_swaps() {
    assert!(decode_victim_swap(&[], n(5)).is_none());
    assert!(decode_victim_swap(&[0x38, 0xed, 0x17], n(5)).is_none());
    let mut input = token_input(SWAP_EXACT_TOKENS_FOR_TOKENS, 777, &[1, 2]);
    input[0] = 0;
    assert!(decode_victim_swap(&input, n(5)).is_none());
    assert_eq!(swap_form(SWAP_EXACT_TOKENS_FOR_ETH), Some(SwapForm::Tokens));
    assert_eq!(swap_form(SWAP_EXACT_ETH_FOR_TOKENS), Some(SwapForm::Coin));
    assert_eq!(swap_form(0), None);
}

#[test]
fn decoded_parts_make_a_swap() {
    let tokens = token_swap(Some((n(3), vec![addr(1)]))).unwrap();
    assert_eq!((tokens.amount_in, path_of(&tokens)), (n(3), vec![1]));
    assert!(token_swap(None).is_none());
    let coin = coin_swap(Some(vec![addr(4)]), n(6)).unwrap();
    assert_eq!((coin.amount_in, path_of(&coin)), (n(6), vec![4]));
    assert!(coin_swap(None, n(6)).is_none());
}

fn expected_call(
    outs2: (u64, u64),
    repay: u64,
    least: u64,
    outs1: (u64, u64),
) -> Vec<u8> {
    let w = |x: u64| Wide::from(x);
    let mut call = EXECUTE_FLASH_ARBITRAGE.to_be_bytes().to_vec();
    let params = (
        chain(10),
        chain(11),
        chain(20),
        chain(21),
        chain(2),
        w(81_648),
        w(outs2.0),
        w(outs2.1),
        chain(1),
        w(repay),
        chain(1),
        w(least),
        w(1234),
    );
    call.extend(
        <(
            (
                sol_data::Address,
                sol_data::Address,
                sol_data::Address,
                sol_data::Address,
                sol_data::Address,
                sol_data::Uint<256>,
                sol_data::Uint<256>,
                sol_data::Uint<256>,
                sol_data::Address,
                sol_data::Uint<256>,
                sol_data::Address,
                sol_data::Uint<256>,
                sol_data::Uint<256>,
            ),
            sol_data::Uint<256>,
            sol_data::Uint<256>,
        )>::abi_encode_sequence(&(params, w(outs1.0), w(outs1.1))),
    );
    call
}

#[test]
fn call_holds_the_terms_of_the_arbitrage() {
    let straight = pool(1_000_000, 1_000_000, 1, 2);
    let reversed = pool(1_000_000, 1_000_000, 2, 1);
    let call = |p1: &PoolState, p2: &PoolState| {
        build_calldata(
            addr(10),
            addr(11),
            addr(20),
            addr(21),
            n(1234),
            &swap(200_000),
            n(81_648),
            p1,
            p2,
        )
    };
    assert_eq!(
        call(&straight, &straight),
        Some(expected_call((106_740, 0), 89_175, 1756, (0, 81_648)))
    );
    assert_eq!(
        call(&reversed, &reversed),
        Some(expected_call((0, 106_740), 89_175, 1756, (81_648, 0)))
    );
    assert_eq!(call(&straight, &straight).unwrap().len(), 4 + 15 * 32);
}

#[test]
fn call_needs_a_sale_that_covers_the_loan() {
    let p = pool(1_000_000, 1_000_000, 1, 2);
    let venue = Venue {
        pair1: addr(10),
        pair2: addr(11),
        factory1: addr(20),
        factory2: addr(21),
        deadline: n(1234),
    };
    assert!(plan_arbitrage(&venue, &swap(0), n(81_648), &p, &p).is_none());
    assert!(plan_arbitrage(&venue, &swap(200_000), n(1_000_000), &p, &p).is_none());
    let short = VictimSwap { amount_in: n(5), path: vec![addr(1)] };
    assert!(plan_arbitrage(&venue, &short, n(1), &p, &p).is_none());
    let foreign = pool(1_000_000, 1_000_000, 1, 3);
    assert!(plan_arbitrage(&venue, &swap(200_000), n(5), &p, &foreign).is_none());
    assert!(plan_arbitrage(&venue, &swap(200_000), n(5), &foreign, &p).is_none());
}

#[test]
fn call_asks_for_one_unit_at_least() {
    let p = pool(1_000_000, 1_000_000, 1, 2);
    let venue = Venue {
        pair1: addr(10),
        pair2: addr(11),
        factory1: addr(20),
        factory2: addr(21),
        deadline: n(1234),
    };
    let plan = plan_arbitrage(&venue, &swap(200_000), n(0), &p, &p).unwrap();
    assert_eq!(plan.repay_amount, n(0));
    assert_eq!(plan.min_profit, n(1));
    assert_eq!(plan.encode().len(), 4 + 15 * 32);
}
