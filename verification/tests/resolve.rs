use backrun::address::Address;
use backrun::pool::{MarketState, PoolState, VictimSwap};
use backrun::registry::{PairBook, RouterDexMap};
use backrun::resolve::{gas_cost_in_token, resolve_pair_pair, wmatic, ResolveError};
use backrun::table::Table;
use backrun::u256::U256;

fn n(x: u128) -> U256 {
    U256::from_u128(x)
}

fn addr(b: u8) -> Address {
    Address { bytes: [b; 20] }
}

fn pool(reserve0: u128, reserve1: u128, token0: Address, token1: Address) -> PoolState {
    PoolState { reserve0: n(reserve0), reserve1: n(reserve1), fee_bps: 30, token0, token1 }
}

fn swap(path: &[u8]) -> VictimSwap {
    VictimSwap { amount_in: n(1), path: path.iter().map(|b| addr(*b)).collect() }
}

fn book() -> PairBook {
    let mut book = PairBook::new();
    book.add(addr(10), addr(1), addr(2), "quick".to_string());
    book.add(addr(11), addr(1), addr(2), "sushi".to_string());
    book.add(addr(12), addr(2), addr(1), "ape".to_string());
    book.add(addr(13), addr(1), addr(3), "quick".to_string());
    book
}

fn routers() -> RouterDexMap {
    let mut map: RouterDexMap = Table::new();
    map.insert(addr(90), "sushi".to_string());
    map.insert(addr(91), "dfyn".to_string());
    map
}

fn market(prices: &[(u8, u128, u128)]) -> MarketState {
    let mut state: MarketState = Table::new();
    for (pair, r0, r1) in prices {
        state.insert(addr(*pair), pool(*r0, *r1, addr(1), addr(2)));
    }
    state
}

fn resolve(
    state: &MarketState,
    to: u8,
    path: &[u8],
) -> Result<(u8, String, u8, String), ResolveError> {
    let b = book();
    resolve_pair_pair(&b.registry, &b.dex, &routers(), state, addr(to), &swap(path))
        .map(|(p1, d1, p2, d2)| (p1.bytes[0], d1, p2.bytes[0], d2))
}

#[test]
fn farthest_pool_is_chosen() {
    let state = market(&[(10, 100, 130), (11, 100, 100), (12, 100, 60)]);
    let expected = Ok((11, "sushi".to_string(), 12, "ape".to_string()));
    assert_eq!(resolve(&state, 90, &[1, 2]), expected);
    assert_eq!(resolve(&state, 90, &[2, 1]), expected);
    assert_eq!(
        resolve(&state, 10, &[1, 2]),
        Ok((10, "quick".to_string(), 12, "ape".to_string()))
    );
}

#[test]
fn last_of_equally_far_pools_is_chosen() {
    let state = market(&[(10, 100, 130), (11, 100, 100), (12, 100, 70)]);
    assert_eq!(
        resolve(&state, 90, &[1, 2]),
        Ok((11, "sushi".to_string(), 12, "ape".to_string()))
    );
}

#[test]
fn pools_without_a_price_are_passed_over() {
    let state = market(&[(10, 100, 130), (11, 100, 100), (12, 0, 60)]);
    assert_eq!(
        resolve(&state, 90, &[1, 2]),
        Ok((11, "sushi".to_string(), 10, "quick".to_string()))
    );
}

#[test]
fn every_reason_not_to_resolve_is_told() {
    let full = market(&[(10, 100, 130), (11, 100, 100), (12, 100, 70)]);
    assert_eq!(resolve(&full, 90, &[1]), Err(ResolveError::PathTooShort));
    assert_eq!(resolve(&full, 90, &[1, 4]), Err(ResolveError::UnknownTokens));
    assert_eq!(resolve(&full, 90, &[1, 3]), Err(ResolveError::SinglePool));
    assert_eq!(resolve(&full, 92, &[1, 2]), Err(ResolveError::UnknownExchange));
    assert_eq!(resolve(&full, 91, &[1, 2]), Err(ResolveError::NoPoolOnExchange));
    assert_eq!(resolve(&market(&[(10, 1, 1)]), 90, &[1, 2]), Err(ResolveError::PoolNotLoaded));
    assert_eq!(resolve(&market(&[(11, 0, 1)]), 90, &[1, 2]), Err(ResolveError::PoolNotPriced));
    assert_eq!(resolve(&market(&[(11, 1, 1)]), 90, &[1, 2]), Err(ResolveError::NoOtherPool));
}

#[test]
fn reasons_have_words() {
    assert_eq!(ResolveError::PathTooShort.message(), "victim path too short");
    assert_eq!(ResolveError::UnknownTokens.message(), "token pair not in registry");
    assert_eq!(
        ResolveError::SinglePool.message(),
        "only one DEX known for this pair, no cross-dex arb possible"
    );
    assert_eq!(
        ResolveError::UnknownExchange.message(),
        "to_address not mapped to a known dex id"
    );
    assert_eq!(
        ResolveError::NoPoolOnExchange.message(),
        "no registered pair matches victim's dex id for this token pair"
    );
    assert_eq!(
        ResolveError::PoolNotLoaded.message(),
        "pair1 reserves not loaded in market state yet"
    );
    assert_eq!(
        ResolveError::PoolNotPriced.message(),
        "pair1 price calc failed (zero reserve?)"
    );
    assert_eq!(
        ResolveError::NoOtherPool.message(),
        "no other candidate pair has loaded reserves yet"
    );
}

#[test]
fn gas_is_paid_in_the_wrapped_coin() {
    let coin = wmatic();
    assert_eq!(coin.bytes[..2], [0x0d, 0x50]);
    assert_eq!(coin.bytes[18..], [0x12, 0x70]);
    let b = book();
    let empty: MarketState = Table::new();
    assert_eq!(gas_cost_in_token(&b.registry, &empty, coin, n(55)), Some(n(55)));
}

#[test]
fn gas_is_converted_by_the_first_pool() {
    let coin = wmatic();
    let mut b = PairBook::new();
    b.add(addr(30), coin, addr(1), "quick".to_string());
    b.add(addr(31), coin, addr(1), "sushi".to_string());
    b.add(addr(32), coin, addr(2), "quick".to_string());
    b.add(addr(33), coin, addr(3), "quick".to_string());
    b.add(addr(34), coin, addr(4), "quick".to_string());
    let mut state: MarketState = Table::new();
    state.insert(addr(30), pool(10_000, 10_000, coin, addr(1)));
    state.insert(addr(31), pool(1, 1, coin, addr(1)));
    state.insert(addr(32), pool(20_000, 10_000, addr(2), coin));
    state.insert(addr(33), pool(10_000, 10_000, addr(3), addr(4)));
    let cost = |token: u8| gas_cost_in_token(&b.registry, &state, addr(token), n(1000));
    assert_eq!(cost(1), Some(n(906)));
    assert_eq!(cost(2), Some(n(1813)));
    assert_eq!(cost(3), None);
    assert_eq!(cost(4), None);
    assert_eq!(cost(5), None);
}

#[test]
fn second_pool_lies_on_another_exchange() {
    let mut b = PairBook::new();
    b.add(addr(10), addr(1), addr(2), "quick".to_string());
    b.add(addr(11), addr(1), addr(2), "quick".to_string());
    let state = market(&[(10, 100, 130), (11, 100, 10), (12, 100, 120)]);
    let find = |b: &PairBook| {
        resolve_pair_pair(&b.registry, &b.dex, &routers(), &state, addr(10), &swap(&[1, 2]))
            .map(|(p1, d1, p2, d2)| (p1.bytes[0], d1, p2.bytes[0], d2))
    };
    assert_eq!(find(&b), Err(ResolveError::NoOtherPool));
    b.add(addr(10), addr(1), addr(2), "sushi".to_string());
    b.add(addr(10), addr(1), addr(2), "quick".to_string());
    assert_eq!(find(&b), Err(ResolveError::NoOtherPool));
    b.add(addr(12), addr(1), addr(2), "ape".to_string());
    assert_eq!(find(&b), Ok((10, "quick".to_string(), 12, "ape".to_string())));
}
