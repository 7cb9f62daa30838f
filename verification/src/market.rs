//! Keeping the reserves of pools and the code of contracts up to date.
use vstd::prelude::*;
use vstd::slice::slice_subrange;

use crate::abi::{
    aggregate3_call, answered, calls, decode_reserves, decode_results, decoded_results,
    encoded_calls, get_reserves_call, number_word, reserves_in, results, selector_bytes,
    written_reserves_are_read_back, Call3, CallResult, AGGREGATE3, GET_RESERVES,
};
use crate::address::{Address, TokenPair};
use crate::pool::{MarketState, PoolFacts, PoolState};
use crate::registry::{lemma_one_more, listings, AddressSet, Listing, PairRegistry, RouterDexMap};
use crate::table::Table;
use crate::u256::{
    big_endian, big_endian_value, lemma_below_modulus, lemma_byte_powers, lemma_bytes_spell_the_number,
    lemma_last_bytes, U256,
};

verus! {

/// The fee of a pool, in ten-thousandths, where nothing else is known of it.
pub const STANDARD_FEE_BPS: u32 = 30;

/// What is known of each pool.
pub open spec fn facts(market: Map<Seq<u8>, PoolState>) -> Map<Seq<u8>, PoolFacts> {
    market.map_values(|pool: PoolState| pool@)
}

/// The address whose bytes are all zero.
pub open spec fn zero_address() -> Seq<u8> {
    Seq::new(20, |i: int| 0u8)
}

/// What is known of a pool after its reserves changed: the rest stays as it was;
/// of a new pool, the standard fee and no tokens.
pub open spec fn with_reserves(
    market: Map<Seq<u8>, PoolFacts>,
    pool: Seq<u8>,
    reserve0: nat,
    reserve1: nat,
) -> PoolFacts {
    if market.dom().contains(pool) {
        PoolFacts { reserve0, reserve1, ..market[pool] }
    } else {
        PoolFacts {
            reserve0,
            reserve1,
            fee_bps: STANDARD_FEE_BPS,
            token0: zero_address(),
            token1: zero_address(),
        }
    }
}

/// The market after an event of a pool whose data starts with its two reserves,
/// a word each. Shorter data changes nothing.
pub open spec fn synced(
    market: Map<Seq<u8>, PoolFacts>,
    pool: Seq<u8>,
    data: Seq<u8>,
) -> Map<Seq<u8>, PoolFacts> {
    if data.len() >= 64 {
        market.insert(
            pool,
            with_reserves(
                market,
                pool,
                big_endian_value(data.subrange(0, 32)),
                big_endian_value(data.subrange(32, 64)),
            ),
        )
    } else {
        market
    }
}

/// Takes the reserves of a pool from the data of its event.
pub fn update_reserve_from_log(state: &mut MarketState, pool_address: Address, data: &[u8])
    ensures
        facts(final(state)@) == synced(facts(old(state)@), pool_address@, data@),
{
    if data.len() < 64 {
        return;
    }
    let reserve0 = U256::from_be_slice(slice_subrange(data, 0, 32));
    let reserve1 = U256::from_be_slice(slice_subrange(data, 32, 64));
    let ghost before = facts(state@);
    let pool = match state.get(&pool_address) {
        Some(known) => PoolState { reserve0, reserve1, ..*known },
        None => PoolState {
            reserve0,
            reserve1,
            fee_bps: STANDARD_FEE_BPS,
            token0: Address::zero(),
            token1: Address::zero(),
        },
    };
    state.insert(pool_address, pool);
    assert(facts(state@) =~= before.insert(pool_address@, pool@));
}

/// The tokens of each pool, after those of a list.
pub open spec fn with_tokens(
    map: Map<Seq<u8>, (Seq<u8>, Seq<u8>)>,
    tokens: (Seq<u8>, Seq<u8>),
    list: Seq<(Seq<u8>, Seq<char>)>,
) -> Map<Seq<u8>, (Seq<u8>, Seq<u8>)>
    decreases list.len(),
{
    if list.len() == 0 {
        map
    } else {
        with_tokens(map, tokens, list.drop_last()).insert(list.last().0, tokens)
    }
}

/// The tokens of each pool that the first `count` entries of a registry list.
pub open spec fn inverted(
    keys: Seq<(Seq<u8>, Seq<u8>)>,
    lists: Seq<Vec<Listing>>,
    count: nat,
) -> Map<Seq<u8>, (Seq<u8>, Seq<u8>)>
    decreases count,
{
    if count == 0 {
        Map::empty()
    } else {
        with_tokens(
            inverted(keys, lists, (count - 1) as nat),
            keys[count - 1],
            listings(lists[count - 1]@),
        )
    }
}

/// The tokens of each pool that a registry lists, those of its last entry where
/// several list the pool.
pub open spec fn tokens_by_pool(registry: PairRegistry) -> Map<Seq<u8>, (Seq<u8>, Seq<u8>)> {
    inverted(registry.key_list(), registry.value_list(), registry.key_list().len())
}

/// The addresses of each pair of tokens.
pub open spec fn token_pairs(
    map: Map<Seq<u8>, TokenPair>,
) -> Map<Seq<u8>, (Seq<u8>, Seq<u8>)> {
    map.map_values(|tokens: TokenPair| tokens@)
}

/// Finds the tokens of each pool that a registry lists.
pub fn invert(registry: &PairRegistry) -> (r: Table<Address, TokenPair>)
    ensures
        token_pairs(r@) == tokens_by_pool(*registry),
{
    let ghost keys = registry.key_list();
    let ghost lists = registry.value_list();
    let mut map: Table<Address, TokenPair> = Table::new();
    assert(token_pairs(map@) =~= Map::empty());
    let mut k: usize = 0;
    while k < registry.len()
        invariant
            keys == registry.key_list(),
            lists == registry.value_list(),
            k <= keys.len(),
            token_pairs(map@) == inverted(keys, lists, k as nat),
        decreases keys.len() - k,
    {
        let tokens = *registry.key_at(k);
        let list = registry.value_at(k);
        let ghost start = token_pairs(map@);
        let ghost all = listings(list@);
        let mut i: usize = 0;
        assert(all.take(0) =~= Seq::empty());
        while i < list.len()
            invariant
                i <= list.len(),
                all == listings(list@),
                token_pairs(map@) == with_tokens(start, tokens@, all.take(i as int)),
            decreases list.len() - i,
        {
            let ghost before = token_pairs(map@);
            let pair = list[i].pair;
            map.insert(pair, tokens);
            proof {
                assert(all.take(i + 1).drop_last() =~= all.take(i as int));
                assert(all.take(i + 1).last() == list@[i as int]@);
                assert(token_pairs(map@) =~= before.insert(pair@, tokens@));
            }
            i = i + 1;
        }
        assert(all.take(i as int) =~= all);
        k = k + 1;
    }
    map
}

/// The call that asks each pool for its reserves.
pub open spec fn reserve_calls(pairs: Seq<Seq<u8>>) -> Seq<(Seq<u8>, bool, Seq<u8>)> {
    pairs.map_values(|pair: Seq<u8>| (pair, true, selector_bytes(GET_RESERVES)))
}

/// Writes the batch of calls that asks the known pools for their reserves.
pub fn bootstrap_call(known_pairs: &AddressSet) -> (r: Vec<u8>)
    ensures
        r@ == selector_bytes(AGGREGATE3) + encoded_calls(reserve_calls(known_pairs.key_list())),
{
    let mut list: Vec<Call3> = Vec::new();
    let ghost all = reserve_calls(known_pairs.key_list());
    let mut i: usize = 0;
    while i < known_pairs.len()
        invariant
            all == reserve_calls(known_pairs.key_list()),
            i <= all.len(),
            calls(list@) =~= all.take(i as int),
        decreases all.len() - i,
    {
        let call = Call3 {
            target: *known_pairs.key_at(i),
            allow_failure: true,
            call_data: get_reserves_call(),
        };
        let ghost before = calls(list@);
        list.push(call);
        proof {
            assert(calls(list@) =~= before.push(call@));
            assert(all[i as int] == call@);
        }
        i = i + 1;
    }
    assert(calls(list@) =~= all);
    aggregate3_call(&list)
}

/// What a reply says of the reserves of a pool: nothing where the call failed or
/// the reply cannot be read.
pub open spec fn reported_reserves(reply: (bool, Seq<u8>)) -> Option<(nat, nat)> {
    if reply.0 {
        reserves_in(reply.1)
    } else {
        None
    }
}

/// The market with the reserves that the first `count` replies report, at the
/// standard fee; pools that no entry of the registry lists have no tokens.
pub open spec fn loaded(
    market: Map<Seq<u8>, PoolFacts>,
    pairs: Seq<Seq<u8>>,
    tokens: Map<Seq<u8>, (Seq<u8>, Seq<u8>)>,
    replies: Seq<(bool, Seq<u8>)>,
    count: nat,
) -> Map<Seq<u8>, PoolFacts>
    decreases count,
{
    if count == 0 {
        market
    } else {
        let before = loaded(market, pairs, tokens, replies, (count - 1) as nat);
        let pair = pairs[count - 1];
        match reported_reserves(replies[count - 1]) {
            Some((reserve0, reserve1)) => before.insert(
                pair,
                PoolFacts {
                    reserve0,
                    reserve1,
                    fee_bps: STANDARD_FEE_BPS,
                    token0: if tokens.dom().contains(pair) {
                        tokens[pair].0
                    } else {
                        zero_address()
                    },
                    token1: if tokens.dom().contains(pair) {
                        tokens[pair].1
                    } else {
                        zero_address()
                    },
                },
            ),
            None => before,
        }
    }
}

/// Takes the reserves of the known pools from the replies to a batch.
pub fn load_reserves(
    state: &mut MarketState,
    known_pairs: &AddressSet,
    registry: &PairRegistry,
    replies: &Vec<CallResult>,
)
    ensures
        facts(final(state)@) == loaded(
            facts(old(state)@),
            known_pairs.key_list(),
            tokens_by_pool(*registry),
            results(replies@),
            answered(known_pairs.key_list().len(), results(replies@).len()),
        ),
{
    let tokens = invert(registry);
    let ghost start = facts(state@);
    let ghost pairs = known_pairs.key_list();
    let ghost map = tokens_by_pool(*registry);
    let ghost all = results(replies@);
    let mut i: usize = 0;
    while i < known_pairs.len() && i < replies.len()
        invariant
            pairs == known_pairs.key_list(),
            all == results(replies@),
            i <= pairs.len(),
            i <= replies.len(),
            token_pairs(tokens@) == map,
            facts(state@) == loaded(start, pairs, map, all, i as nat),
        decreases replies.len() - i,
    {
        let ghost before = facts(state@);
        let pair = *known_pairs.key_at(i);
        let reply = &replies[i];
        assert(all[i as int] == reply@);
        if reply.success {
            match decode_reserves(reply.return_data.as_slice()) {
                Some((reserve0, reserve1)) => {
                    let (token0, token1) = match tokens.get(&pair) {
                        Some(known) => (known.first, known.second),
                        None => (Address::zero(), Address::zero()),
                    };
                    let pool = PoolState {
                        reserve0,
                        reserve1,
                        fee_bps: STANDARD_FEE_BPS,
                        token0,
                        token1,
                    };
                    state.insert(pair, pool);
                    proof {
                        assert(token_pairs(tokens@).dom().contains(pair@)
                            == tokens@.dom().contains(pair@));
                        assert(facts(state@) =~= before.insert(pair@, pool@));
                    }
                },
                None => {},
            }
        }
        i = i + 1;
    }
}

/// Takes the reserves of the known pools from the reply to the batch that asked
/// for them. A reply that cannot be read changes nothing.
pub fn bootstrap_reserves(
    state: &mut MarketState,
    known_pairs: &AddressSet,
    registry: &PairRegistry,
    reply: &[u8],
)
    ensures
        facts(final(state)@) == (match decoded_results(reply@) {
            Some(replies) => loaded(
                facts(old(state)@),
                known_pairs.key_list(),
                tokens_by_pool(*registry),
                replies,
                answered(known_pairs.key_list().len(), replies.len()),
            ),
            None => facts(old(state)@),
        }),
{
    match decode_results(reply) {
        Some(replies) => load_reserves(state, known_pairs, registry, &replies),
        None => {},
    }
}

/// The code of contracts, by address.
pub type CodeCache = Table<Address, Vec<u8>>;

/// The code of each contract.
pub open spec fn codes(cache: Map<Seq<u8>, Vec<u8>>) -> Map<Seq<u8>, Seq<u8>> {
    cache.map_values(|code: Vec<u8>| code@)
}

/// Whether one of the pairs of tokens holds the token.
pub open spec fn trades(keys: Seq<(Seq<u8>, Seq<u8>)>, token: Seq<u8>) -> bool {
    exists|i: int|
        0 <= i < keys.len() && ((#[trigger] keys[i]).0 == token || keys[i].1 == token)
}

/// The contracts whose code is kept: the arbitrage contract, the routers, the
/// known pools and their tokens.
pub fn watched_contracts(
    my_contract: Address,
    routers: &RouterDexMap,
    known_pairs: &AddressSet,
    registry: &PairRegistry,
) -> (r: AddressSet)
    ensures
        forall|a: Seq<u8>| #[trigger]
            r@.dom().contains(a) <==> {
                ||| a == my_contract@
                ||| routers@.dom().contains(a)
                ||| known_pairs@.dom().contains(a)
                ||| trades(registry.key_list(), a)
            },
{
    let mut set: AddressSet = Table::new();
    set.insert(my_contract, ());
    let mut i: usize = 0;
    while i < routers.len()
        invariant
            i <= routers.key_list().len(),
            forall|a: Seq<u8>| #[trigger]
                set@.dom().contains(a) <==> (a == my_contract@ || routers.key_list().take(
                    i as int,
                ).contains(a)),
        decreases routers.key_list().len() - i,
    {
        proof {
            lemma_one_more(routers.key_list(), i as int);
        }
        set.insert(*routers.key_at(i), ());
        i = i + 1;
    }
    assert(routers.key_list().take(i as int) =~= routers.key_list());
    i = 0;
    while i < known_pairs.len()
        invariant
            i <= known_pairs.key_list().len(),
            forall|a: Seq<u8>| #[trigger]
                set@.dom().contains(a) <==> (a == my_contract@ || routers@.dom().contains(a)
                    || known_pairs.key_list().take(i as int).contains(a)),
        decreases known_pairs.key_list().len() - i,
    {
        proof {
            lemma_one_more(known_pairs.key_list(), i as int);
        }
        set.insert(*known_pairs.key_at(i), ());
        i = i + 1;
    }
    assert(known_pairs.key_list().take(i as int) =~= known_pairs.key_list());
    i = 0;
    let ghost keys = registry.key_list();
    while i < registry.len()
        invariant
            keys == registry.key_list(),
            i <= keys.len(),
            forall|a: Seq<u8>| #[trigger]
                set@.dom().contains(a) <==> (a == my_contract@ || routers@.dom().contains(a)
                    || known_pairs@.dom().contains(a) || trades(keys.take(i as int), a)),
        decreases keys.len() - i,
    {
        let tokens = *registry.key_at(i);
        proof {
            assert forall|a: Seq<u8>| #[trigger] trades(keys.take(i + 1), a) <==> (trades(
                keys.take(i as int),
                a,
            ) || a == tokens.first@ || a == tokens.second@) by {
                lemma_trades_one_more(keys, i as int, a);
            }
        }
        set.insert(tokens.first, ());
        set.insert(tokens.second, ());
        i = i + 1;
    }
    assert(keys.take(i as int) =~= keys);
    set
}

proof fn lemma_trades_one_more(keys: Seq<(Seq<u8>, Seq<u8>)>, i: int, a: Seq<u8>)
    requires
        0 <= i < keys.len(),
    ensures
        trades(keys.take(i + 1), a) <==> (trades(keys.take(i), a) || a == keys[i].0 || a
            == keys[i].1),
{
    let less = keys.take(i);
    let more = keys.take(i + 1);
    if trades(less, a) {
        let k = choose|k: int|
            0 <= k < less.len() && ((#[trigger] less[k]).0 == a || less[k].1 == a);
        assert(more[k] == less[k]);
    }
    if trades(more, a) {
        let k = choose|k: int|
            0 <= k < more.len() && ((#[trigger] more[k]).0 == a || more[k].1 == a);
        if k < i {
            assert(less[k] == more[k]);
        }
    }
    assert(more[i] == keys[i]);
}

/// The code of a contract, as it was fetched; nothing where fetching it failed.
pub struct FetchedCode {
    pub address: Address,
    pub code: Option<Vec<u8>>,
}

impl View for FetchedCode {
    type V = (Seq<u8>, Option<Seq<u8>>);

    open spec fn view(&self) -> (Seq<u8>, Option<Seq<u8>>) {
        (
            self.address@,
            match self.code {
                Some(code) => Some(code@),
                None => None,
            },
        )
    }
}

/// The values of a list of fetched codes.
pub open spec fn fetched(list: Seq<FetchedCode>) -> Seq<(Seq<u8>, Option<Seq<u8>>)> {
    list.map_values(|f: FetchedCode| f@)
}

/// Whether code was fetched and is not empty.
pub open spec fn has_code(f: (Seq<u8>, Option<Seq<u8>>)) -> bool {
    match f.1 {
        Some(code) => code.len() > 0,
        None => false,
    }
}

/// The cache with the codes of a list that are not empty.
pub open spec fn with_codes(
    cache: Map<Seq<u8>, Seq<u8>>,
    list: Seq<(Seq<u8>, Option<Seq<u8>>)>,
) -> Map<Seq<u8>, Seq<u8>>
    decreases list.len(),
{
    if list.len() == 0 {
        cache
    } else {
        let before = with_codes(cache, list.drop_last());
        if has_code(list.last()) {
            before.insert(list.last().0, list.last().1->0)
        } else {
            before
        }
    }
}

/// Keeps the codes that were fetched and are not empty, and counts them.
pub fn warm_code_cache(cache: &mut CodeCache, list: Vec<FetchedCode>) -> (r: usize)
    ensures
        codes(final(cache)@) == with_codes(codes(old(cache)@), fetched(list@)),
        r == fetched(list@).filter(|f: (Seq<u8>, Option<Seq<u8>>)| has_code(f)).len(),
{
    let ghost start = codes(cache@);
    let ghost all = fetched(list@);
    let ghost kept = |f: (Seq<u8>, Option<Seq<u8>>)| has_code(f);
    let mut count: usize = 0;
    let mut i: usize = 0;
    assert(all.take(0) =~= Seq::empty());
    assert(all.take(0).filter(kept).len() == 0) by {
        reveal(Seq::filter);
    }
    while i < list.len()
        invariant
            i <= list.len(),
            count <= i,
            all == fetched(list@),
            kept == (|f: (Seq<u8>, Option<Seq<u8>>)| has_code(f)),
            codes(cache@) == with_codes(start, all.take(i as int)),
            count == all.take(i as int).filter(kept).len(),
        decreases list.len() - i,
    {
        let ghost before = codes(cache@);
        proof {
            assert(all.take(i + 1).drop_last() =~= all.take(i as int));
            assert(all.take(i + 1).last() == list@[i as int]@);
            reveal(Seq::filter);
        }
        match &list[i].code {
            Some(code) => {
                if code.len() > 0 {
                    let copy = code.clone();
                    assert(copy@ =~= code@);
                    let address = list[i].address;
                    cache.insert(address, copy);
                    assert(codes(cache@) =~= before.insert(address@, code@));
                    count = count + 1;
                }
            },
            None => {},
        }
        i = i + 1;
    }
    assert(all.take(i as int) =~= all);
    count
}

proof fn lemma_with_tokens(
    map: Map<Seq<u8>, (Seq<u8>, Seq<u8>)>,
    tokens: (Seq<u8>, Seq<u8>),
    list: Seq<(Seq<u8>, Seq<char>)>,
    pair: Seq<u8>,
)
    ensures
        ({
            let listed = exists|i: int| 0 <= i < list.len() && (#[trigger] list[i]).0 == pair;
            let after = with_tokens(map, tokens, list);
            &&& after.dom().contains(pair) <==> (map.dom().contains(pair) || listed)
            &&& listed ==> after[pair] == tokens
            &&& !listed && map.dom().contains(pair) ==> after[pair] == map[pair]
        }),
    decreases list.len(),
{
    if list.len() > 0 {
        let rest = list.drop_last();
        lemma_with_tokens(map, tokens, rest, pair);
        if exists|i: int| 0 <= i < rest.len() && (#[trigger] rest[i]).0 == pair {
            let i = choose|i: int| 0 <= i < rest.len() && (#[trigger] rest[i]).0 == pair;
            assert(list[i].0 == pair);
        }
        assert(list[list.len() - 1] == list.last());
        if exists|i: int| 0 <= i < list.len() && (#[trigger] list[i]).0 == pair {
            let i = choose|i: int| 0 <= i < list.len() && (#[trigger] list[i]).0 == pair;
            if i < rest.len() {
                assert(rest[i].0 == pair);
            }
        }
    }
}

/// The pools that have tokens are those that the registry lists, and the tokens
/// of a pool are a pair under which it is listed.
pub proof fn tokens_come_from_the_registry(registry: PairRegistry, pair: Seq<u8>)
    ensures
        tokens_by_pool(registry).dom().contains(pair) <==> (exists|k: int, i: int|
            0 <= k < registry.key_list().len() && 0 <= i < registry.value_list()[k]@.len() && (
            #[trigger] registry.value_list()[k]@[i]).pair@ == pair),
        tokens_by_pool(registry).dom().contains(pair) ==> exists|k: int, i: int|
            0 <= k < registry.key_list().len() && 0 <= i < registry.value_list()[k]@.len() && (
            #[trigger] registry.value_list()[k]@[i]).pair@ == pair && registry.key_list()[k]
                == tokens_by_pool(registry)[pair],
{
    lemma_inverted(
        registry.key_list(),
        registry.value_list(),
        registry.key_list().len(),
        pair,
    );
}

proof fn lemma_inverted(
    keys: Seq<(Seq<u8>, Seq<u8>)>,
    lists: Seq<Vec<Listing>>,
    count: nat,
    pair: Seq<u8>,
)
    ensures
        inverted(keys, lists, count).dom().contains(pair) <==> (exists|k: int, i: int|
            0 <= k < count && 0 <= i < lists[k]@.len() && (#[trigger] lists[k]@[i]).pair@ == pair),
        inverted(keys, lists, count).dom().contains(pair) ==> exists|k: int, i: int|
            0 <= k < count && 0 <= i < lists[k]@.len() && (#[trigger] lists[k]@[i]).pair@ == pair
                && keys[k] == inverted(keys, lists, count)[pair],
    decreases count,
{
    if count > 0 {
        let n = count - 1;
        let before = inverted(keys, lists, n as nat);
        let list = listings(lists[n]@);
        lemma_inverted(keys, lists, n as nat, pair);
        lemma_with_tokens(before, keys[n], list, pair);
        if exists|i: int| 0 <= i < list.len() && (#[trigger] list[i]).0 == pair {
            let i = choose|i: int| 0 <= i < list.len() && (#[trigger] list[i]).0 == pair;
            assert(lists[n]@[i].pair@ == pair);
        }
        if exists|k: int, i: int|
            0 <= k < count && 0 <= i < lists[k]@.len() && (#[trigger] lists[k]@[i]).pair@
                == pair {
            let (k, i) = choose|k: int, i: int|
                0 <= k < count && 0 <= i < lists[k]@.len() && (#[trigger] lists[k]@[i]).pair@
                    == pair;
            if k == n {
                assert(list[i].0 == pair);
            }
        }
    }
}

/// An event of a pool changes its reserves alone: the fee and the tokens of a
/// known pool stay, and so does every other pool.
pub proof fn event_changes_reserves_only(
    market: Map<Seq<u8>, PoolFacts>,
    pool: Seq<u8>,
    data: Seq<u8>,
    other: Seq<u8>,
)
    requires
        market.dom().contains(other),
    ensures
        synced(market, pool, data).dom().contains(other),
        synced(market, pool, data)[other].fee_bps == market[other].fee_bps,
        synced(market, pool, data)[other].token0 == market[other].token0,
        synced(market, pool, data)[other].token1 == market[other].token1,
        other != pool ==> synced(market, pool, data)[other] == market[other],
{
}

/// An event that reports two reserves sets them.
pub proof fn event_sets_the_reported_reserves(
    market: Map<Seq<u8>, PoolFacts>,
    pool: Seq<u8>,
    reserve0: U256,
    reserve1: U256,
)
    ensures
        ({
            let after = synced(market, pool, number_word(reserve0@) + number_word(reserve1@));
            &&& after.dom().contains(pool)
            &&& after[pool].reserve0 == reserve0@
            &&& after[pool].reserve1 == reserve1@
        }),
{
    let data = number_word(reserve0@) + number_word(reserve1@);
    lemma_last_bytes(reserve0@, 32, 32);
    lemma_last_bytes(reserve1@, 32, 32);
    lemma_byte_powers();
    lemma_below_modulus(reserve0);
    lemma_below_modulus(reserve1);
    lemma_bytes_spell_the_number(reserve0@, 32);
    lemma_bytes_spell_the_number(reserve1@, 32);
    assert(data.subrange(0, 32) =~= number_word(reserve0@));
    assert(data.subrange(32, 64) =~= number_word(reserve1@));
}

/// An event that reports two reserves sets them, whatever follows them in its data,
/// and nothing else changes: not its pool's fee and tokens, not another pool. A pool
/// that was not known gets a fee of thirty ten-thousandths and no tokens. Data of less
/// than two words changes nothing.
pub proof fn event_reports_the_reserves_of_its_pool(
    market: Map<Seq<u8>, PoolFacts>,
    pool: Seq<u8>,
    reserve0: U256,
    reserve1: U256,
    tail: Seq<u8>,
    short: Seq<u8>,
)
    requires
        short.len() < 64,
    ensures
        ({
            let data = number_word(reserve0@) + number_word(reserve1@) + tail;
            let after = synced(market, pool, data);
            let seen = after[pool];
            &&& after.dom() =~= market.dom().insert(pool)
            &&& after.remove(pool) =~= market.remove(pool)
            &&& seen.reserve0 == reserve0@ && seen.reserve1 == reserve1@
            &&& market.dom().contains(pool) ==> seen.fee_bps == market[pool].fee_bps && seen.token0
                == market[pool].token0 && seen.token1 == market[pool].token1
            &&& !market.dom().contains(pool) ==> seen.fee_bps == 30 && seen.token0 =~= Seq::new(
                20,
                |i: int| 0u8,
            ) && seen.token1 =~= Seq::new(20, |i: int| 0u8)
        }),
        synced(market, pool, short) == market,
{
    let data = number_word(reserve0@) + number_word(reserve1@) + tail;
    lemma_last_bytes(reserve0@, 32, 32);
    lemma_last_bytes(reserve1@, 32, 32);
    lemma_byte_powers();
    lemma_below_modulus(reserve0);
    lemma_below_modulus(reserve1);
    lemma_bytes_spell_the_number(reserve0@, 32);
    lemma_bytes_spell_the_number(reserve1@, 32);
    assert(data.subrange(0, 32) =~= number_word(reserve0@));
    assert(data.subrange(32, 64) =~= number_word(reserve1@));
}

/// A reply tells reserves exactly where the call succeeded and its output has three
/// words; reserves below two to the power of 112 are told as they were written.
pub proof fn successful_reply_tells_reserves(
    reply: (bool, Seq<u8>),
    reserve0: nat,
    reserve1: nat,
    time: nat,
)
    requires
        reserve0 < 0x1_0000_0000_0000_0000_0000_0000_0000,
        reserve1 < 0x1_0000_0000_0000_0000_0000_0000_0000,
    ensures
        reported_reserves(reply) is Some <==> reply.0 && reply.1.len() >= 96,
        reported_reserves(
            (true, number_word(reserve0) + number_word(reserve1) + number_word(time)),
        ) == Some((reserve0, reserve1)),
{
    written_reserves_are_read_back(reserve0, reserve1, time);
}

/// Each known pool whose reply tells reserves is loaded with them, at a fee of thirty
/// ten-thousandths and with the tokens of the registry; a pool without a reply that
/// tells any stays as it was, and so does every other one.
pub proof fn replies_load_their_pools(
    market: Map<Seq<u8>, PoolFacts>,
    pairs: Seq<Seq<u8>>,
    tokens: Map<Seq<u8>, (Seq<u8>, Seq<u8>)>,
    replies: Seq<(bool, Seq<u8>)>,
    count: nat,
    i: int,
    other: Seq<u8>,
)
    requires
        pairs.no_duplicates(),
        count <= pairs.len(),
        count <= replies.len(),
        0 <= i < count,
        !pairs.take(count as int).contains(other),
    ensures
        ({
            let after = loaded(market, pairs, tokens, replies, count);
            let pair = pairs[i];
            &&& reported_reserves(replies[i]) matches Some((reserve0, reserve1)) ==> {
                &&& after.dom().contains(pair)
                &&& after[pair].reserve0 == reserve0 && after[pair].reserve1 == reserve1
                &&& after[pair].fee_bps == 30
                &&& tokens.dom().contains(pair) ==> (after[pair].token0, after[pair].token1)
                    == tokens[pair]
                &&& !tokens.dom().contains(pair) ==> after[pair].token0 =~= Seq::new(
                    20,
                    |k: int| 0u8,
                ) && after[pair].token1 =~= Seq::new(20, |k: int| 0u8)
            }
            &&& reported_reserves(replies[i]) is None ==> {
                &&& after.dom().contains(pair) <==> market.dom().contains(pair)
                &&& market.dom().contains(pair) ==> after[pair] == market[pair]
            }
            &&& after.dom().contains(other) <==> market.dom().contains(other)
            &&& market.dom().contains(other) ==> after[other] == market[other]
        }),
    decreases count,
{
    let n = count - 1;
    let pair = pairs[i];
    assert(!pairs.take(n).contains(other)) by {
        if pairs.take(n).contains(other) {
            let k = pairs.take(n).index_of(other);
            assert(pairs.take(count as int)[k] == other);
        }
    }
    assert(pairs.take(count as int)[n] == pairs[n]);
    if i < n {
        replies_load_their_pools(market, pairs, tokens, replies, n as nat, i, other);
        assert(pairs[n] != pair);
    } else {
        lemma_loading_leaves(market, pairs, tokens, replies, n as nat, pair);
        assert forall|k: int| 0 <= k < n implies #[trigger] pairs[k] != other by {
            assert(pairs.take(n)[k] == pairs[k]);
        }
        lemma_loading_leaves(market, pairs, tokens, replies, n as nat, other);
    }
}

proof fn lemma_loading_leaves(
    market: Map<Seq<u8>, PoolFacts>,
    pairs: Seq<Seq<u8>>,
    tokens: Map<Seq<u8>, (Seq<u8>, Seq<u8>)>,
    replies: Seq<(bool, Seq<u8>)>,
    count: nat,
    other: Seq<u8>,
)
    requires
        count <= pairs.len(),
        forall|k: int| 0 <= k < count ==> #[trigger] pairs[k] != other,
    ensures
        ({
            let after = loaded(market, pairs, tokens, replies, count);
            &&& after.dom().contains(other) <==> market.dom().contains(other)
            &&& market.dom().contains(other) ==> after[other] == market[other]
        }),
    decreases count,
{
    if count > 0 {
        lemma_loading_leaves(market, pairs, tokens, replies, (count - 1) as nat, other);
    }
}

/// The calls that ask for reserves go to each known pool in turn, may fail, and hold
/// the selector `0x0902f1ac` alone.
pub proof fn each_pool_is_asked_for_reserves(pairs: Seq<Seq<u8>>, i: int)
    requires
        0 <= i < pairs.len(),
    ensures
        reserve_calls(pairs).len() == pairs.len(),
        reserve_calls(pairs)[i].0 == pairs[i],
        reserve_calls(pairs)[i].1,
        reserve_calls(pairs)[i].2 =~= seq![0x09u8, 0x02, 0xf1, 0xac],
{
    reveal_with_fuel(big_endian, 5);
}

/// A contract of which no code, or only empty code, was fetched keeps what the cache
/// held of it.
pub proof fn missing_code_changes_nothing(
    cache: Map<Seq<u8>, Seq<u8>>,
    list: Seq<(Seq<u8>, Option<Seq<u8>>)>,
    address: Seq<u8>,
)
    requires
        forall|k: int|
            0 <= k < list.len() && (#[trigger] list[k]).0 == address ==> list[k].1 is None
                || list[k].1->0.len() == 0,
    ensures
        with_codes(cache, list).dom().contains(address) <==> cache.dom().contains(address),
        cache.dom().contains(address) ==> with_codes(cache, list)[address] == cache[address],
    decreases list.len(),
{
    if list.len() > 0 {
        let rest = list.drop_last();
        assert forall|k: int| 0 <= k < rest.len() && (#[trigger] rest[k]).0
            == address implies rest[k].1 is None || rest[k].1->0.len() == 0 by {
            assert(list[k] == rest[k]);
        }
        missing_code_changes_nothing(cache, rest, address);
        assert(list[list.len() - 1] == list.last());
    }
}

/// The cache holds the last code of a contract that was fetched and is not empty.
pub proof fn last_fetched_code_is_kept(
    cache: Map<Seq<u8>, Seq<u8>>,
    list: Seq<(Seq<u8>, Option<Seq<u8>>)>,
    i: int,
)
    requires
        0 <= i < list.len(),
        list[i].1 is Some,
        list[i].1->0.len() > 0,
        forall|k: int|
            i < k < list.len() && (#[trigger] list[k]).0 == list[i].0 ==> list[k].1 is None
                || list[k].1->0.len() == 0,
    ensures
        with_codes(cache, list).dom().contains(list[i].0),
        Some(with_codes(cache, list)[list[i].0]) == list[i].1,
    decreases list.len(),
{
    let n = list.len() - 1;
    assert(list[n] == list.last());
    if i < n {
        let rest = list.drop_last();
        assert(rest[i] == list[i]);
        assert forall|k: int| i < k < rest.len() && (#[trigger] rest[k]).0
            == rest[i].0 implies rest[k].1 is None || rest[k].1->0.len() == 0 by {
            assert(list[k] == rest[k]);
        }
        last_fetched_code_is_kept(cache, rest, i);
    }
}

/// The tokens that `invert` finds for a pool are those of an entry of the registry
/// that lists the pool; it finds some for every listed pool and for no other.
pub proof fn found_tokens_list_the_pool(
    registry: PairRegistry,
    r: Table<Address, TokenPair>,
    pair: Address,
)
    requires
        call_ensures(invert, (&registry,), r),
    ensures
        r@.dom().contains(pair@) <==> (exists|k: int, i: int|
            0 <= k < registry.key_list().len() && 0 <= i < registry.value_list()[k]@.len() && (
            #[trigger] registry.value_list()[k]@[i]).pair@ == pair@),
        r@.dom().contains(pair@) ==> exists|k: int, i: int|
            0 <= k < registry.key_list().len() && 0 <= i < registry.value_list()[k]@.len() && (
            #[trigger] registry.value_list()[k]@[i]).pair@ == pair@ && registry.key_list()[k]
                == r@[pair@]@,
{
    tokens_come_from_the_registry(registry, pair@);
    assert(token_pairs(r@).dom().contains(pair@) == r@.dom().contains(pair@));
}

/// The contracts that `watched_contracts` lists are our contract, the routers, the
/// pools and the tokens of the registry, and no others.
pub proof fn watched_contracts_are_those_of_a_trade(
    my_contract: Address,
    routers: RouterDexMap,
    pairs: AddressSet,
    registry: PairRegistry,
    r: AddressSet,
    k: int,
    a: Address,
)
    requires
        call_ensures(watched_contracts, (my_contract, &routers, &pairs, &registry), r),
        0 <= k < registry.key_list().len(),
    ensures
        r@.dom().contains(my_contract@),
        routers@.dom().contains(a@) ==> r@.dom().contains(a@),
        pairs@.dom().contains(a@) ==> r@.dom().contains(a@),
        r@.dom().contains(registry.key_list()[k].0),
        r@.dom().contains(registry.key_list()[k].1),
        r@.dom().contains(a@) && a@ != my_contract@ && !routers@.dom().contains(a@)
            && !pairs@.dom().contains(a@) ==> exists|j: int|
            0 <= j < registry.key_list().len() && ((#[trigger] registry.key_list()[j]).0 == a@
                || registry.key_list()[j].1 == a@),
{
    assert(trades(registry.key_list(), registry.key_list()[k].0));
    assert(trades(registry.key_list(), registry.key_list()[k].1));
}

} // verus!
