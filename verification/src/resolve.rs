//! Which two pools an opportunity is between, and what gas costs in a token.
use vstd::prelude::*;

use crate::address::{hex_value, in_order, sorted_pair, spelled_address, Address};
use crate::amm::{amount_out, get_amount_out, implied_price, implied_price_1e18};
use crate::pool::{MarketState, PoolState, VictimSwap};
use crate::registry::{
    listings, named, registered, Listing, PairDexMap, PairRegistry, RouterDexMap,
};
use crate::table::Key;
use crate::u256::{amount, modulus, U256};

verus! {

/// The address of the wrapped native coin.
pub open spec fn wrapped_coin() -> Seq<u8> {
    seq![
        0x0d, 0x50, 0x0b, 0x1d, 0x8e, 0x8e, 0xf3, 0x1e, 0x21, 0xc9,
        0x9d, 0x1d, 0xb9, 0xa6, 0x44, 0x4d, 0x3a, 0xdf, 0x12, 0x70,
    ]
}

/// The address of the wrapped native coin.
pub fn wmatic() -> (r: Address)
    ensures
        r@ == wrapped_coin(),
{
    let r = Address {
        bytes: [
            0x0d, 0x50, 0x0b, 0x1d, 0x8e, 0x8e, 0xf3, 0x1e, 0x21, 0xc9,
            0x9d, 0x1d, 0xb9, 0xa6, 0x44, 0x4d, 0x3a, 0xdf, 0x12, 0x70,
        ],
    };
    assert(r@ =~= wrapped_coin());
    r
}

/// Why no two pools were found for a pending swap.
#[derive(Clone, Copy, Debug, PartialEq, Eq, Structural)]
pub enum ResolveError {
    /// The swap names less than two tokens.
    PathTooShort,
    /// No pool of the two tokens is registered.
    UnknownTokens,
    /// Less than two pools of the two tokens are registered.
    SinglePool,
    /// The address that the transaction calls belongs to no known exchange.
    UnknownExchange,
    /// The exchange has no registered pool of the two tokens.
    NoPoolOnExchange,
    /// The reserves of the pool on the exchange are not known.
    PoolNotLoaded,
    /// The pool on the exchange has no price.
    PoolNotPriced,
    /// No pool of the two tokens on another exchange has a price.
    NoOtherPool,
}

impl ResolveError {
    /// The reason in words.
    pub fn message(&self) -> (r: &'static str)
        ensures
            r@ == (match *self {
                ResolveError::PathTooShort => "victim path too short"@,
                ResolveError::UnknownTokens => "token pair not in registry"@,
                ResolveError::SinglePool =>
                    "only one DEX known for this pair, no cross-dex arb possible"@,
                ResolveError::UnknownExchange => "to_address not mapped to a known dex id"@,
                ResolveError::NoPoolOnExchange =>
                    "no registered pair matches victim's dex id for this token pair"@,
                ResolveError::PoolNotLoaded => "pair1 reserves not loaded in market state yet"@,
                ResolveError::PoolNotPriced => "pair1 price calc failed (zero reserve?)"@,
                ResolveError::NoOtherPool => "no other candidate pair has loaded reserves yet"@,
            }),
    {
        match *self {
            ResolveError::PathTooShort => "victim path too short",
            ResolveError::UnknownTokens => "token pair not in registry",
            ResolveError::SinglePool =>
                "only one DEX known for this pair, no cross-dex arb possible",
            ResolveError::UnknownExchange => "to_address not mapped to a known dex id",
            ResolveError::NoPoolOnExchange =>
                "no registered pair matches victim's dex id for this token pair",
            ResolveError::PoolNotLoaded => "pair1 reserves not loaded in market state yet",
            ResolveError::PoolNotPriced => "pair1 price calc failed (zero reserve?)",
            ResolveError::NoOtherPool => "no other candidate pair has loaded reserves yet",
        }
    }
}

/// The exchange that an address belongs to: as a pool, or else as a router.
pub open spec fn exchange_of(
    pools: Map<Seq<u8>, Seq<char>>,
    routers: Map<Seq<u8>, Seq<char>>,
    to: Seq<u8>,
) -> Option<Seq<char>> {
    if pools.dom().contains(to) {
        Some(pools[to])
    } else if routers.dom().contains(to) {
        Some(routers[to])
    } else {
        None
    }
}

/// The first pool of a list that belongs to an exchange.
pub open spec fn first_on(list: Seq<(Seq<u8>, Seq<char>)>, dex: Seq<char>) -> Option<Seq<u8>>
    decreases list.len(),
{
    if list.len() == 0 {
        None
    } else if list.first().1 == dex {
        Some(list.first().0)
    } else {
        first_on(list.drop_first(), dex)
    }
}

/// The price of a pool whose reserves are known.
pub open spec fn price_of(market: Map<Seq<u8>, PoolState>, pair: Seq<u8>) -> Option<nat> {
    if market.dom().contains(pair) {
        implied_price(market[pair].reserve0@, market[pair].reserve1@)
    } else {
        None
    }
}

/// How far the price of a pool lies from a given price. Nothing is said of `pair1`
/// itself, nor of a pool on the exchange `dex1`: an arbitrage is between two
/// exchanges.
pub open spec fn deviation(
    market: Map<Seq<u8>, PoolState>,
    listing: (Seq<u8>, Seq<char>),
    pair1: Seq<u8>,
    dex1: Seq<char>,
    price1: nat,
) -> Option<nat> {
    match price_of(market, listing.0) {
        Some(price) => if listing.0 == pair1 || listing.1 == dex1 {
            None
        } else if price1 <= price {
            Some((price - price1) as nat)
        } else {
            Some((price1 - price) as nat)
        },
        None => None,
    }
}

/// The place in a list of the pool on another exchange whose price lies farthest
/// from a given one, the last of them where there are several.
pub open spec fn farthest(
    market: Map<Seq<u8>, PoolState>,
    list: Seq<(Seq<u8>, Seq<char>)>,
    pair1: Seq<u8>,
    dex1: Seq<char>,
    price1: nat,
) -> Option<int>
    decreases list.len(),
{
    if list.len() == 0 {
        None
    } else {
        let before = farthest(market, list.drop_last(), pair1, dex1, price1);
        match (deviation(market, list.last(), pair1, dex1, price1), before) {
            (Some(gap), Some(i)) => if gap < deviation(market, list[i], pair1, dex1, price1)->0 {
                before
            } else {
                Some(list.len() - 1)
            },
            (Some(_), None) => Some(list.len() - 1),
            (None, _) => before,
        }
    }
}

/// The two pools of an opportunity, each with its exchange.
pub ghost struct PoolChoice {
    pub pair1: Seq<u8>,
    pub dex1: Seq<char>,
    pub pair2: Seq<u8>,
    pub dex2: Seq<char>,
}

/// The pool that a pending swap goes through, and the pool of the same tokens on
/// another exchange whose price lies farthest from that one's.
pub open spec fn resolved(
    registry: Map<(Seq<u8>, Seq<u8>), Seq<(Seq<u8>, Seq<char>)>>,
    pools: Map<Seq<u8>, Seq<char>>,
    routers: Map<Seq<u8>, Seq<char>>,
    market: Map<Seq<u8>, PoolState>,
    to: Seq<u8>,
    path: Seq<Address>,
) -> Result<PoolChoice, ResolveError> {
    if path.len() < 2 {
        Err(ResolveError::PathTooShort)
    } else if !registry.dom().contains(in_order(path[0]@, path[1]@)) {
        Err(ResolveError::UnknownTokens)
    } else if registry[in_order(path[0]@, path[1]@)].len() < 2 {
        Err(ResolveError::SinglePool)
    } else {
        let list = registry[in_order(path[0]@, path[1]@)];
        match exchange_of(pools, routers, to) {
            None => Err(ResolveError::UnknownExchange),
            Some(dex1) => match first_on(list, dex1) {
                None => Err(ResolveError::NoPoolOnExchange),
                Some(pair1) => if !market.dom().contains(pair1) {
                    Err(ResolveError::PoolNotLoaded)
                } else {
                    match price_of(market, pair1) {
                        None => Err(ResolveError::PoolNotPriced),
                        Some(price1) => match farthest(market, list, pair1, dex1, price1) {
                            None => Err(ResolveError::NoOtherPool),
                            Some(i) => Ok(
                                PoolChoice { pair1, dex1, pair2: list[i].0, dex2: list[i].1 },
                            ),
                        },
                    }
                },
            },
        }
    }
}

/// The values of two pools with their exchanges.
pub open spec fn choice_of(
    x: Result<(Address, String, Address, String), ResolveError>,
) -> Result<PoolChoice, ResolveError> {
    match x {
        Ok((pair1, dex1, pair2, dex2)) => Ok(
            PoolChoice { pair1: pair1@, dex1: dex1@, pair2: pair2@, dex2: dex2@ },
        ),
        Err(reason) => Err(reason),
    }
}

fn find_on(list: &Vec<Listing>, dex: &String) -> (r: Option<Address>)
    ensures
        (match r {
            Some(pair) => Some(pair@),
            None => None,
        }) == first_on(listings(list@), dex@),
{
    let ghost all = listings(list@);
    let mut i: usize = 0;
    assert(all.skip(0) =~= all);
    while i < list.len()
        invariant
            i <= list.len(),
            all == listings(list@),
            first_on(all.skip(i as int), dex@) == first_on(all, dex@),
        decreases list.len() - i,
    {
        assert(all.skip(i as int).first() == list@[i as int]@);
        assert(all.skip(i as int).drop_first() =~= all.skip(i + 1));
        if list[i].dex == *dex {
            return Some(list[i].pair);
        }
        i = i + 1;
    }
    None
}

fn market_price(state: &MarketState, pair: &Address) -> (r: Option<U256>)
    ensures
        amount(r) == price_of(state@, pair@),
{
    let pool = state.get(pair)?;
    implied_price_1e18(pool.reserve0, pool.reserve1)
}

fn find_farthest(
    state: &MarketState,
    list: &Vec<Listing>,
    pair1: &Address,
    dex1: &String,
    price1: U256,
) -> (r: Option<usize>)
    ensures
        (match r {
            Some(i) => Some(i as int),
            None => None,
        }) == farthest(state@, listings(list@), pair1@, dex1@, price1@),
        r matches Some(i) ==> i < list@.len(),
{
    let ghost all = listings(list@);
    let mut best: Option<usize> = None;
    let mut gap = U256::zero();
    let mut i: usize = 0;
    assert(all.take(0) =~= Seq::empty());
    while i < list.len()
        invariant
            i <= list.len(),
            all == listings(list@),
            (match best {
                Some(k) => Some(k as int),
                None => None,
            }) == farthest(state@, all.take(i as int), pair1@, dex1@, price1@),
            best matches Some(k) ==> k < i && deviation(
                state@,
                all[k as int],
                pair1@,
                dex1@,
                price1@,
            ) == Some(gap@),
        decreases list.len() - i,
    {
        proof {
            assert(all.take(i + 1).drop_last() =~= all.take(i as int));
            assert(all.take(i + 1).last() == list@[i as int]@);
        }
        if !list[i].pair.same(pair1) && list[i].dex != *dex1 {
            match market_price(state, &list[i].pair) {
                Some(price) => {
                    let diff = price.abs_diff(price1);
                    if best.is_none() || !diff.less_than(&gap) {
                        best = Some(i);
                        gap = diff;
                    }
                },
                None => {},
            }
        }
        i = i + 1;
    }
    assert(all.take(i as int) =~= all);
    best
}

/// Finds the pool that a pending swap goes through, by the exchange that the
/// transaction calls, and the pool of the same tokens on another exchange whose
/// price lies farthest from that one's.
pub fn resolve_pair_pair(
    registry: &PairRegistry,
    pair_dex: &PairDexMap,
    router_dex: &RouterDexMap,
    state: &MarketState,
    to_address: Address,
    victim: &VictimSwap,
) -> (r: Result<(Address, String, Address, String), ResolveError>)
    ensures
        choice_of(r) == resolved(
            registered(registry@),
            named(pair_dex@),
            named(router_dex@),
            state@,
            to_address@,
            victim.path@,
        ),
{
    if victim.path.len() < 2 {
        return Err(ResolveError::PathTooShort);
    }
    let tokens = sorted_pair(victim.path[0], victim.path[1]);
    let candidates = match registry.get(&tokens) {
        Some(list) => list,
        None => {
            return Err(ResolveError::UnknownTokens);
        },
    };
    if candidates.len() < 2 {
        return Err(ResolveError::SinglePool);
    }
    let dex1 = match pair_dex.get(&to_address) {
        Some(dex) => dex,
        None => match router_dex.get(&to_address) {
            Some(dex) => dex,
            None => {
                return Err(ResolveError::UnknownExchange);
            },
        },
    };
    let pair1 = match find_on(candidates, dex1) {
        Some(pair) => pair,
        None => {
            return Err(ResolveError::NoPoolOnExchange);
        },
    };
    if !state.contains_key(&pair1) {
        return Err(ResolveError::PoolNotLoaded);
    }
    let price1 = match market_price(state, &pair1) {
        Some(price) => price,
        None => {
            return Err(ResolveError::PoolNotPriced);
        },
    };
    match find_farthest(state, candidates, &pair1, dex1, price1) {
        Some(i) => {
            assert(listings(candidates@)[i as int] == candidates@[i as int]@);
            Ok((pair1, dex1.clone(), candidates[i].pair, candidates[i].dex.clone()))
        },
        None => Err(ResolveError::NoOtherPool),
    }
}

/// What an amount of the native coin is worth in a token: as much for the
/// wrapped coin; for another token, what the first registered pool of the two
/// pays out for it.
pub open spec fn cost_in_token(
    registry: Map<(Seq<u8>, Seq<u8>), Seq<(Seq<u8>, Seq<char>)>>,
    market: Map<Seq<u8>, PoolState>,
    token: Seq<u8>,
    cost: nat,
) -> Option<nat> {
    let tokens = in_order(wrapped_coin(), token);
    if token == wrapped_coin() {
        Some(cost)
    } else if registry.dom().contains(tokens) && registry[tokens].len() > 0
        && market.dom().contains(registry[tokens][0].0) {
        let pool = market[registry[tokens][0].0];
        if pool.token0@ == wrapped_coin() {
            amount_out(cost, pool.reserve0@, pool.reserve1@, pool.gamma())
        } else if pool.token1@ == wrapped_coin() {
            amount_out(cost, pool.reserve1@, pool.reserve0@, pool.gamma())
        } else {
            None
        }
    } else {
        None
    }
}

/// Converts a cost of gas to a token.
pub fn gas_cost_in_token(
    registry: &PairRegistry,
    state: &MarketState,
    token: Address,
    gas_cost_wei: U256,
) -> (r: Option<U256>)
    ensures
        amount(r) == cost_in_token(registered(registry@), state@, token@, gas_cost_wei@),
{
    let coin = wmatic();
    if token.same(&coin) {
        return Some(gas_cost_wei);
    }
    let candidates = registry.get(&sorted_pair(coin, token))?;
    if candidates.len() == 0 {
        return None;
    }
    assert(listings(candidates@)[0] == candidates@[0]@);
    let pool = state.get(&candidates[0].pair)?;
    let (reserve_coin, reserve_token) = if pool.token0.same(&coin) {
        (pool.reserve0, pool.reserve1)
    } else if pool.token1.same(&coin) {
        (pool.reserve1, pool.reserve0)
    } else {
        return None;
    };
    get_amount_out(gas_cost_wei, reserve_coin, reserve_token, pool.gamma_num())
}

proof fn lemma_farthest(
    market: Map<Seq<u8>, PoolState>,
    list: Seq<(Seq<u8>, Seq<char>)>,
    pair1: Seq<u8>,
    dex1: Seq<char>,
    price1: nat,
)
    ensures
        match farthest(market, list, pair1, dex1, price1) {
            Some(i) => {
                &&& 0 <= i < list.len()
                &&& deviation(market, list[i], pair1, dex1, price1) is Some
                &&& forall|k: int|
                    0 <= k < list.len() && deviation(
                        market,
                        #[trigger] list[k],
                        pair1,
                        dex1,
                        price1,
                    ) is Some ==> deviation(market, list[k], pair1, dex1, price1)->0 <= deviation(
                        market,
                        list[i],
                        pair1,
                        dex1,
                        price1,
                    )->0
            },
            None => forall|k: int|
                0 <= k < list.len() ==> deviation(
                    market,
                    #[trigger] list[k],
                    pair1,
                    dex1,
                    price1,
                ) is None,
        },
    decreases list.len(),
{
    if list.len() > 0 {
        let rest = list.drop_last();
        lemma_farthest(market, rest, pair1, dex1, price1);
        assert forall|k: int| 0 <= k < rest.len() implies rest[k] == #[trigger] list[k] by {}
    }
}

proof fn lemma_first_on(list: Seq<(Seq<u8>, Seq<char>)>, dex: Seq<char>)
    ensures
        match first_on(list, dex) {
            Some(pair) => list.contains((pair, dex)),
            None => forall|k: int| 0 <= k < list.len() ==> (#[trigger] list[k]).1 != dex,
        },
    decreases list.len(),
{
    if list.len() > 0 {
        let rest = list.drop_first();
        lemma_first_on(rest, dex);
        if list.first().1 == dex {
            assert(list[0] == (list.first().0, dex));
        } else {
            match first_on(rest, dex) {
                Some(pair) => {
                    let k = rest.index_of((pair, dex));
                    assert(list[k + 1] == (pair, dex));
                },
                None => {
                    assert forall|k: int| 0 <= k < list.len() implies (#[trigger] list[k]).1
                        != dex by {
                        if k > 0 {
                            assert(rest[k - 1] == list[k]);
                        }
                    }
                },
            }
        }
    }
}

/// The two pools of an opportunity are different registered pools of the same
/// tokens, on different exchanges and with known prices; the first one belongs to
/// the exchange that the transaction calls.
pub proof fn resolved_pools_are_registered(
    registry: Map<(Seq<u8>, Seq<u8>), Seq<(Seq<u8>, Seq<char>)>>,
    pools: Map<Seq<u8>, Seq<char>>,
    routers: Map<Seq<u8>, Seq<char>>,
    market: Map<Seq<u8>, PoolState>,
    to: Seq<u8>,
    path: Seq<Address>,
)
    ensures
        resolved(registry, pools, routers, market, to, path) matches Ok(choice) ==> {
            let list = registry[in_order(path[0]@, path[1]@)];
            &&& choice.pair1 != choice.pair2
            &&& choice.dex1 != choice.dex2
            &&& list.contains((choice.pair1, choice.dex1))
            &&& list.contains((choice.pair2, choice.dex2))
            &&& exchange_of(pools, routers, to) == Some(choice.dex1)
            &&& price_of(market, choice.pair1) is Some
            &&& price_of(market, choice.pair2) is Some
        },
{
    match resolved(registry, pools, routers, market, to, path) {
        Ok(choice) => {
            let list = registry[in_order(path[0]@, path[1]@)];
            let price1 = price_of(market, choice.pair1)->0;
            lemma_first_on(list, choice.dex1);
            lemma_farthest(market, list, choice.pair1, choice.dex1, price1);
        },
        Err(_) => {},
    }
}

/// No other registered pool of the same tokens, on another exchange than the first
/// pool's, lies farther in price from the first pool than the second one does.
pub proof fn resolved_pool_lies_farthest(
    registry: Map<(Seq<u8>, Seq<u8>), Seq<(Seq<u8>, Seq<char>)>>,
    pools: Map<Seq<u8>, Seq<char>>,
    routers: Map<Seq<u8>, Seq<char>>,
    market: Map<Seq<u8>, PoolState>,
    to: Seq<u8>,
    path: Seq<Address>,
    k: int,
)
    requires
        path.len() >= 2,
        0 <= k < registry[in_order(path[0]@, path[1]@)].len(),
    ensures
        resolved(registry, pools, routers, market, to, path) matches Ok(choice) ==> {
            let price1 = price_of(market, choice.pair1)->0;
            let other = deviation(
                market,
                registry[in_order(path[0]@, path[1]@)][k],
                choice.pair1,
                choice.dex1,
                price1,
            );
            let chosen = deviation(
                market,
                (choice.pair2, choice.dex2),
                choice.pair1,
                choice.dex1,
                price1,
            );
            &&& chosen is Some
            &&& other is Some ==> other->0 <= chosen->0
        },
{
    match resolved(registry, pools, routers, market, to, path) {
        Ok(choice) => {
            let list = registry[in_order(path[0]@, path[1]@)];
            let price1 = price_of(market, choice.pair1)->0;
            lemma_farthest(market, list, choice.pair1, choice.dex1, price1);
        },
        Err(_) => {},
    }
}

/// The exchange of an address is that of the pool there, or else that of the router
/// there; an address that is neither has none.
pub proof fn pools_come_before_routers(
    pools: Map<Seq<u8>, Seq<char>>,
    routers: Map<Seq<u8>, Seq<char>>,
    to: Seq<u8>,
    dex: Seq<char>,
)
    ensures
        exchange_of(pools.insert(to, dex), routers, to) == Some(dex),
        exchange_of(pools.remove(to), routers.insert(to, dex), to) == Some(dex),
        exchange_of(pools.remove(to), routers.remove(to), to) is None,
        pools.dom().contains(to) || routers.dom().contains(to) <==> exchange_of(pools, routers, to)
            is Some,
        pools.dom().contains(to) ==> exchange_of(pools, routers, to) == Some(pools[to]),
        !pools.dom().contains(to) && routers.dom().contains(to) ==> exchange_of(
            pools,
            routers,
            to,
        ) == Some(routers[to]),
{
}

/// Whether the price of a pool can be told from its reserves: they are known, the
/// first one holds something, and the second one times ten to the power of 18 fits
/// into 256 bits.
pub open spec fn can_be_priced(market: Map<Seq<u8>, PoolState>, pair: Seq<u8>) -> bool {
    &&& market.dom().contains(pair)
    &&& market[pair].reserve0@ > 0
    &&& market[pair].reserve1@ * 1_000_000_000_000_000_000 < modulus()
}

/// The second reserve of a pool over its first one, times ten to the power of 18,
/// rounded down.
pub open spec fn scaled_ratio(market: Map<Seq<u8>, PoolState>, pair: Seq<u8>) -> int {
    (market[pair].reserve1@ * 1_000_000_000_000_000_000) as int / market[pair].reserve0@ as int
}

/// The second pool is priced, and no priced pool of the same tokens on another
/// exchange than the first pool's lies farther from the first one, above it or below
/// it: neither the amount by which its price exceeds the first price, nor the amount
/// by which it stays below it, is more than the distance of the second pool's price
/// from the first one. Where a later pool in the list lies as far, the later one is
/// chosen.
pub proof fn second_price_is_farthest_on_either_side(
    registry: Map<(Seq<u8>, Seq<u8>), Seq<(Seq<u8>, Seq<char>)>>,
    pools: Map<Seq<u8>, Seq<char>>,
    routers: Map<Seq<u8>, Seq<char>>,
    market: Map<Seq<u8>, PoolState>,
    to: Seq<u8>,
    path: Seq<Address>,
)
    requires
        path.len() >= 2,
    ensures
        resolved(registry, pools, routers, market, to, path) matches Ok(choice) ==> {
            let list = registry[in_order(path[0]@, path[1]@)];
            let first = scaled_ratio(market, choice.pair1);
            let second = scaled_ratio(market, choice.pair2);
            let far = if second > first {
                second - first
            } else {
                first - second
            };
            &&& can_be_priced(market, choice.pair1)
            &&& can_be_priced(market, choice.pair2)
            &&& forall|k: int|
                0 <= k < list.len() && (#[trigger] list[k]).1 != choice.dex1 && list[k].0
                    != choice.pair1 && can_be_priced(market, list[k].0) ==> {
                    &&& scaled_ratio(market, list[k].0) - first <= far
                    &&& first - scaled_ratio(market, list[k].0) <= far
                }
            &&& exists|i: int|
                0 <= i < list.len() && #[trigger] list[i] == (choice.pair2, choice.dex2) && forall|
                    k: int,
                |
                    i < k < list.len() && (#[trigger] list[k]).1 != choice.dex1 && list[k].0
                        != choice.pair1 && can_be_priced(market, list[k].0) ==> {
                        &&& scaled_ratio(market, list[k].0) - first < far
                        &&& first - scaled_ratio(market, list[k].0) < far
                    }
        },
{
    match resolved(registry, pools, routers, market, to, path) {
        Ok(choice) => {
            let list = registry[in_order(path[0]@, path[1]@)];
            let price1 = price_of(market, choice.pair1)->0;
            lemma_farthest(market, list, choice.pair1, choice.dex1, price1);
            lemma_last_farthest(market, list, choice.pair1, choice.dex1, price1);
            let i = farthest(market, list, choice.pair1, choice.dex1, price1)->0;
            assert(list[i] == (choice.pair2, choice.dex2));
        },
        Err(_) => {},
    }
}

proof fn lemma_last_farthest(
    market: Map<Seq<u8>, PoolState>,
    list: Seq<(Seq<u8>, Seq<char>)>,
    pair1: Seq<u8>,
    dex1: Seq<char>,
    price1: nat,
)
    ensures
        farthest(market, list, pair1, dex1, price1) matches Some(i) ==> forall|k: int|
            i < k < list.len() && deviation(market, #[trigger] list[k], pair1, dex1, price1) is Some
                ==> deviation(market, list[k], pair1, dex1, price1)->0 < deviation(
                market,
                list[i],
                pair1,
                dex1,
                price1,
            )->0,
    decreases list.len(),
{
    if list.len() > 0 {
        let rest = list.drop_last();
        lemma_farthest(market, rest, pair1, dex1, price1);
        lemma_last_farthest(market, rest, pair1, dex1, price1);
        assert forall|k: int| 0 <= k < rest.len() implies rest[k] == #[trigger] list[k] by {}
    }
}

/// Two pools are found exactly where the swap names two tokens, two pools of them or
/// more are registered, the transaction calls a known exchange, the first registered
/// pool of that exchange is loaded and priced, and a pool on another exchange is
/// priced. The first pool is that first one. Where none are found, the reason is the
/// first of these that fails.
pub proof fn pools_are_found_where_two_can_be_compared(
    registry: Map<(Seq<u8>, Seq<u8>), Seq<(Seq<u8>, Seq<char>)>>,
    pools: Map<Seq<u8>, Seq<char>>,
    routers: Map<Seq<u8>, Seq<char>>,
    market: Map<Seq<u8>, PoolState>,
    to: Seq<u8>,
    path: Seq<Address>,
    dex: Seq<char>,
    i: int,
)
    requires
        path.len() >= 2,
        registry.dom().contains(in_order(path[0]@, path[1]@)),
        registry[in_order(path[0]@, path[1]@)].len() >= 2,
        exchange_of(pools, routers, to) == Some(dex),
        0 <= i < registry[in_order(path[0]@, path[1]@)].len(),
        registry[in_order(path[0]@, path[1]@)][i].1 == dex,
        forall|k: int| 0 <= k < i ==> (#[trigger] registry[in_order(path[0]@, path[1]@)][k]).1 != dex,
    ensures
        ({
            let list = registry[in_order(path[0]@, path[1]@)];
            let pair = list[i].0;
            let outcome = resolved(registry, pools, routers, market, to, path);
            let others = exists|k: int|
                0 <= k < list.len() && (#[trigger] list[k]).1 != dex && list[k].0 != pair
                    && can_be_priced(market, list[k].0);
            &&& outcome is Ok <==> can_be_priced(market, pair) && others
            &&& outcome matches Ok(choice) ==> choice.pair1 == pair && choice.dex1 == dex
            &&& outcome == Err::<PoolChoice, ResolveError>(ResolveError::PoolNotLoaded)
                <==> !market.dom().contains(pair)
            &&& outcome == Err::<PoolChoice, ResolveError>(ResolveError::PoolNotPriced)
                <==> market.dom().contains(pair) && !can_be_priced(market, pair)
            &&& outcome == Err::<PoolChoice, ResolveError>(ResolveError::NoOtherPool)
                <==> can_be_priced(market, pair) && !others
        }),
{
    let list = registry[in_order(path[0]@, path[1]@)];
    lemma_first_place(list, dex, i);
    let pair = list[i].0;
    if let Some(price1) = price_of(market, pair) {
        lemma_farthest(market, list, pair, dex, price1);
    }
}

proof fn lemma_first_place(list: Seq<(Seq<u8>, Seq<char>)>, dex: Seq<char>, i: int)
    requires
        0 <= i < list.len(),
        list[i].1 == dex,
        forall|k: int| 0 <= k < i ==> (#[trigger] list[k]).1 != dex,
    ensures
        first_on(list, dex) == Some(list[i].0),
    decreases list.len(),
{
    if i > 0 {
        let rest = list.drop_first();
        assert(list[0].1 != dex);
        assert forall|k: int| 0 <= k < i - 1 implies (#[trigger] rest[k]).1 != dex by {
            assert(rest[k] == list[k + 1]);
        }
        lemma_first_place(rest, dex, i - 1);
    }
}

/// No pools are found for a swap that names fewer than two tokens, for tokens without
/// a registered pool, for tokens with a single one, for an address of no exchange,
/// and for an exchange without a registered pool of the tokens; each has its own
/// reason, and comes before those that follow it here.
pub proof fn missing_pools_are_told_apart(
    registry: Map<(Seq<u8>, Seq<u8>), Seq<(Seq<u8>, Seq<char>)>>,
    pools: Map<Seq<u8>, Seq<char>>,
    routers: Map<Seq<u8>, Seq<char>>,
    market: Map<Seq<u8>, PoolState>,
    to: Seq<u8>,
    path: Seq<Address>,
)
    ensures
        ({
            let outcome = resolved(registry, pools, routers, market, to, path);
            let tokens = in_order(path[0]@, path[1]@);
            let named = path.len() > 1;
            let known = named && registry.dom().contains(tokens);
            let several = known && registry[tokens].len() > 1;
            let dex = exchange_of(pools, routers, to);
            let there = several && dex is Some;
            let absent = forall|k: int|
                0 <= k < registry[tokens].len() ==> (#[trigger] registry[tokens][k]).1 != dex->0;
            &&& outcome == Err::<PoolChoice, ResolveError>(ResolveError::PathTooShort) <==> !named
            &&& outcome == Err::<PoolChoice, ResolveError>(ResolveError::UnknownTokens)
                <==> named && !known
            &&& outcome == Err::<PoolChoice, ResolveError>(ResolveError::SinglePool) <==> known
                && !several
            &&& outcome == Err::<PoolChoice, ResolveError>(ResolveError::UnknownExchange)
                <==> several && dex is None
            &&& outcome == Err::<PoolChoice, ResolveError>(ResolveError::NoPoolOnExchange)
                <==> there && absent
        }),
{
    let tokens = in_order(path[0]@, path[1]@);
    if path.len() > 1 && registry.dom().contains(tokens) {
        if let Some(dex) = exchange_of(pools, routers, to) {
            let list = registry[tokens];
            lemma_first_on(list, dex);
            if let Some(pair) = first_on(list, dex) {
                let k = list.index_of((pair, dex));
                assert(list[k].1 == dex);
            }
        }
    }
}

/// A cost in the native coin stays as it is in the wrapped coin. In another token it
/// is what the first registered pool of the two pays out for it, into the reserve of
/// the coin and out of that of the token, on whichever side each is.
pub proof fn cost_is_what_the_first_pool_pays(
    registry: Map<(Seq<u8>, Seq<u8>), Seq<(Seq<u8>, Seq<char>)>>,
    market: Map<Seq<u8>, PoolState>,
    token: Seq<u8>,
    cost: nat,
)
    ensures
        cost_in_token(registry, market, wrapped_coin(), cost) == Some(cost),
        token != wrapped_coin() ==> {
            let tokens = in_order(wrapped_coin(), token);
            let converted = cost_in_token(registry, market, token, cost);
            let first = registry[tokens].first().0;
            let pool = market[first];
            let loaded = registry.dom().contains(tokens) && registry[tokens].len() != 0
                && market.dom().contains(first);
            &&& !loaded ==> converted is None
            &&& loaded && pool.token0@ == wrapped_coin() ==> converted == amount_out(
                cost,
                pool.reserve0@,
                pool.reserve1@,
                pool.gamma(),
            )
            &&& loaded && pool.token1@ == wrapped_coin() && pool.token0@ != wrapped_coin()
                ==> converted == amount_out(
                cost,
                pool.reserve1@,
                pool.reserve0@,
                pool.gamma(),
            )
            &&& loaded && pool.token0@ != wrapped_coin() && pool.token1@ != wrapped_coin()
                ==> converted is None
        },
{
}

/// What `resolve_pair_pair` finds: of the pools of the two tokens, the first one of the
/// exchange that the transaction calls, and one of another exchange from whose price
/// no priced pool of another exchange lies farther from the first one's, above it or
/// below it.
pub proof fn computed_pools_lie_farthest_apart(
    registry: PairRegistry,
    pair_dex: PairDexMap,
    router_dex: RouterDexMap,
    state: MarketState,
    to: Address,
    victim: VictimSwap,
    pair1: Address,
    dex1: String,
    pair2: Address,
    dex2: String,
    k: int,
)
    requires
        victim.path@.len() >= 2,
        call_ensures(
            resolve_pair_pair,
            (&registry, &pair_dex, &router_dex, &state, to, &victim),
            Ok((pair1, dex1, pair2, dex2)),
        ),
        0 <= k < registered(registry@)[in_order(victim.path@[0]@, victim.path@[1]@)].len(),
    ensures
        ({
            let list = registered(registry@)[in_order(victim.path@[0]@, victim.path@[1]@)];
            let first = scaled_ratio(state@, pair1@);
            let second = scaled_ratio(state@, pair2@);
            let other = scaled_ratio(state@, list[k].0);
            let far = if second > first {
                second - first
            } else {
                first - second
            };
            &&& dex1@ != dex2@
            &&& pair1@ != pair2@
            &&& list.contains((pair1@, dex1@))
            &&& list.contains((pair2@, dex2@))
            &&& can_be_priced(state@, pair1@)
            &&& can_be_priced(state@, pair2@)
            &&& list[k].1 != dex1@ && list[k].0 != pair1@ && can_be_priced(state@, list[k].0)
                ==> other - first <= far && first - other <= far
            &&& pair_dex@.dom().contains(to@) ==> dex1@ == pair_dex@[to@]@
            &&& !pair_dex@.dom().contains(to@) ==> router_dex@.dom().contains(to@) && dex1@
                == router_dex@[to@]@
        }),
{
    let (r, p, q) = (registered(registry@), named(pair_dex@), named(router_dex@));
    resolved_pools_are_registered(r, p, q, state@, to@, victim.path@);
    second_price_is_farthest_on_either_side(r, p, q, state@, to@, victim.path@);
    pools_come_before_routers(p, q, to@, dex1@);
}

/// A cost of gas that `gas_cost_in_token` converts stays as it is for the wrapped
/// coin; for another token it is what the first registered pool of the two pays out
/// for it.
pub proof fn computed_cost_is_what_the_pool_pays(
    registry: PairRegistry,
    state: MarketState,
    token: Address,
    cost: U256,
    r: Option<U256>,
)
    requires
        call_ensures(gas_cost_in_token, (&registry, &state, token, cost), r),
    ensures
        token@ == wrapped_coin() ==> r is Some && r->0@ == cost@,
        token@ != wrapped_coin() ==> {
            let tokens = in_order(wrapped_coin(), token@);
            let list = registered(registry@)[tokens];
            let pool = state@[list[0].0];
            let loaded = registered(registry@).dom().contains(tokens) && list.len() > 0
                && state@.dom().contains(list[0].0);
            &&& r is Some ==> loaded
            &&& loaded && pool.token0@ == wrapped_coin() ==> amount(r) == amount_out(
                cost@,
                pool.reserve0@,
                pool.reserve1@,
                pool.gamma(),
            )
            &&& loaded && pool.token0@ != wrapped_coin() && pool.token1@ == wrapped_coin()
                ==> amount(r) == amount_out(
                cost@,
                pool.reserve1@,
                pool.reserve0@,
                pool.gamma(),
            )
        },
{
    cost_is_what_the_first_pool_pays(registered(registry@), state@, token@, cost@);
}

/// The address of the wrapped native coin is
/// `0x0d500b1d8e8ef31e21c99d1db9a6444d3adf1270`.
pub proof fn wrapped_coin_is_spelled_out()
    ensures
        spelled_address("0x0d500b1d8e8ef31e21c99d1db9a6444d3adf1270"@) == Some(wrapped_coin()),
{
    reveal_strlit("0x0d500b1d8e8ef31e21c99d1db9a6444d3adf1270");
    let s = "0x0d500b1d8e8ef31e21c99d1db9a6444d3adf1270"@;
    let digits = s.skip(2);
    assert forall|i: int| 0 <= i < 40 implies hex_value(#[trigger] digits[i]) is Some by {
        assert(digits[i] == s[i + 2]);
    }
    assert(spelled_address(s)->0 =~= wrapped_coin());
}

} // verus!
