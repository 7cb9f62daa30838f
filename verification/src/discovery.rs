//! Finding the pools of a list of tokens through the factories of exchanges.
use vstd::prelude::*;

use crate::abi::{
    address_in, address_word, aggregate3_call, answered, calls, decode_address, decode_results,
    decoded_results, encoded_calls, get_pair_call, results, selector_bytes, Call3, CallResult,
    AGGREGATE3, GET_PAIR,
};
use crate::address::{
    addresses, hex_value, in_order, pair_holds_both_tokens, pair_ignores_order, sorted_pair,
    spelled_address, Address,
};
use crate::registry::{
    book_lists_nothing_else, book_lists_what_was_added, BookModel, DexFactoryMap, PairBook,
    PairEntry,
};
use crate::table::Key;
use crate::u256::{big_endian, big_endian_value};

verus! {

/// The address of the contract that makes batches of calls.
pub open spec fn batch_contract() -> Seq<u8> {
    seq![
        0xca, 0x11, 0xbd, 0xe0, 0x59, 0x77, 0xb3, 0x63, 0x11, 0x67,
        0x02, 0x88, 0x62, 0xbe, 0x2a, 0x17, 0x39, 0x76, 0xca, 0x11,
    ]
}

/// The address of the contract that makes batches of calls.
pub fn multicall3() -> (r: Address)
    ensures
        r@ == batch_contract(),
{
    let r = Address {
        bytes: [
            0xca, 0x11, 0xbd, 0xe0, 0x59, 0x77, 0xb3, 0x63, 0x11, 0x67,
            0x02, 0x88, 0x62, 0xbe, 0x2a, 0x17, 0x39, 0x76, 0xca, 0x11,
        ],
    };
    assert(r@ =~= batch_contract());
    r
}

/// A question to the factory of an exchange: which pool trades two tokens.
pub struct PairQuery {
    pub factory: Address,
    pub token0: Address,
    pub token1: Address,
    pub dex: String,
}

/// The values of a question to a factory.
pub ghost struct Query {
    pub factory: Seq<u8>,
    pub token0: Seq<u8>,
    pub token1: Seq<u8>,
    pub dex: Seq<char>,
}

impl View for PairQuery {
    type V = Query;

    open spec fn view(&self) -> Query {
        Query {
            factory: self.factory@,
            token0: self.token0@,
            token1: self.token1@,
            dex: self.dex@,
        }
    }
}

/// The values of a list of questions.
pub open spec fn queries(list: Seq<PairQuery>) -> Seq<Query> {
    list.map_values(|q: PairQuery| q@)
}

/// The question about two tokens, the smaller address first.
pub open spec fn query(factory: Seq<u8>, dex: Seq<char>, a: Seq<u8>, b: Seq<u8>) -> Query {
    Query { factory, token0: in_order(a, b).0, token1: in_order(a, b).1, dex }
}

/// The questions about the token at place `i` with each of those after it and
/// before place `end`.
pub open spec fn row(
    factory: Seq<u8>,
    dex: Seq<char>,
    tokens: Seq<Seq<u8>>,
    i: nat,
    end: nat,
) -> Seq<Query>
    decreases end,
{
    if end <= i + 1 {
        Seq::empty()
    } else {
        row(factory, dex, tokens, i, (end - 1) as nat).push(
            query(factory, dex, tokens[i as int], tokens[end - 1]),
        )
    }
}

/// The questions about each of the first `count` tokens with those after it.
pub open spec fn rows(
    factory: Seq<u8>,
    dex: Seq<char>,
    tokens: Seq<Seq<u8>>,
    count: nat,
) -> Seq<Query>
    decreases count,
{
    if count == 0 {
        Seq::empty()
    } else {
        rows(factory, dex, tokens, (count - 1) as nat) + row(
            factory,
            dex,
            tokens,
            (count - 1) as nat,
            tokens.len(),
        )
    }
}

/// The questions to each factory about every two tokens.
pub open spec fn all_queries(
    exchanges: Seq<(Seq<char>, Seq<u8>)>,
    tokens: Seq<Seq<u8>>,
) -> Seq<Query>
    decreases exchanges.len(),
{
    if exchanges.len() == 0 {
        Seq::empty()
    } else {
        all_queries(exchanges.drop_last(), tokens) + rows(
            exchanges.last().1,
            exchanges.last().0,
            tokens,
            tokens.len(),
        )
    }
}

/// The exchanges of a table with their factories, in the order of the table.
pub open spec fn exchanges(factories: DexFactoryMap) -> Seq<(Seq<char>, Seq<u8>)> {
    Seq::new(
        factories.key_list().len(),
        |i: int| (factories.key_list()[i], factories.value_list()[i]@),
    )
}

/// Lists the questions to each factory about every two tokens.
pub fn plan_discovery(tokens: &Vec<Address>, dex_factories: &DexFactoryMap) -> (r: Vec<PairQuery>)
    ensures
        queries(r@) == all_queries(exchanges(*dex_factories), addresses(tokens@)),
{
    let ghost list = exchanges(*dex_factories);
    let ghost all = addresses(tokens@);
    let mut plan: Vec<PairQuery> = Vec::new();
    let mut k: usize = 0;
    assert(list.take(0) =~= Seq::empty());
    assert(queries(plan@) =~= Seq::empty());
    while k < dex_factories.len()
        invariant
            k <= list.len(),
            list == exchanges(*dex_factories),
            all == addresses(tokens@),
            queries(plan@) == all_queries(list.take(k as int), all),
        decreases list.len() - k,
    {
        let dex = dex_factories.key_at(k);
        let factory = *dex_factories.value_at(k);
        let ghost start = queries(plan@);
        assert(start + rows(factory@, dex@, all, 0) =~= start);
        let mut i: usize = 0;
        while i < tokens.len()
            invariant
                i <= tokens.len(),
                all == addresses(tokens@),
                queries(plan@) == start + rows(factory@, dex@, all, i as nat),
            decreases tokens.len() - i,
        {
            let ghost before = queries(plan@);
            let mut j: usize = i + 1;
            assert(before + row(factory@, dex@, all, i as nat, j as nat) =~= before);
            while j < tokens.len()
                invariant
                    i < j <= tokens.len(),
                    all == addresses(tokens@),
                    queries(plan@) == before + row(factory@, dex@, all, i as nat, j as nat),
                decreases tokens.len() - j,
            {
                let ghost now = plan@;
                let pair = sorted_pair(tokens[i], tokens[j]);
                let next = PairQuery {
                    factory,
                    token0: pair.first,
                    token1: pair.second,
                    dex: dex.clone(),
                };
                plan.push(next);
                proof {
                    assert(queries(plan@) =~= queries(now).push(next@));
                    assert(next@ == query(factory@, dex@, all[i as int], all[j as int]));
                    assert(queries(plan@) =~= before + row(
                        factory@,
                        dex@,
                        all,
                        i as nat,
                        (j + 1) as nat,
                    ));
                }
                j = j + 1;
            }
            assert(queries(plan@) =~= start + rows(factory@, dex@, all, (i + 1) as nat));
            i = i + 1;
        }
        proof {
            assert(list.take(k + 1).drop_last() =~= list.take(k as int));
            assert(list.take(k + 1).last() == (dex@, factory@));
        }
        k = k + 1;
    }
    assert(list.take(k as int) =~= list);
    plan
}

/// The call of each question: one that may fail, to the factory.
pub open spec fn query_calls(list: Seq<Query>) -> Seq<(Seq<u8>, bool, Seq<u8>)> {
    list.map_values(
        |q: Query|
            (
                q.factory,
                true,
                selector_bytes(GET_PAIR) + address_word(q.token0) + address_word(q.token1),
            ),
    )
}

/// Writes the batch of calls that asks all questions.
pub fn discovery_call(plan: &Vec<PairQuery>) -> (r: Vec<u8>)
    ensures
        r@ == selector_bytes(AGGREGATE3) + encoded_calls(query_calls(queries(plan@))),
{
    let mut list: Vec<Call3> = Vec::new();
    let mut i: usize = 0;
    while i < plan.len()
        invariant
            i <= plan.len(),
            calls(list@) =~= query_calls(queries(plan@)).take(i as int),
        decreases plan.len() - i,
    {
        let q = &plan[i];
        let call = Call3 {
            target: q.factory,
            allow_failure: true,
            call_data: get_pair_call(&q.token0, &q.token1),
        };
        let ghost before = calls(list@);
        list.push(call);
        proof {
            assert(calls(list@) =~= before.push(call@));
            assert(queries(plan@)[i as int] == q@);
            assert(query_calls(queries(plan@))[i as int] == call@);
        }
        i = i + 1;
    }
    assert(calls(list@) =~= query_calls(queries(plan@)));
    aggregate3_call(&list)
}

/// The pool that a reply names: that of a successful call, with an address that
/// is not all zero.
pub open spec fn found_pool(reply: (bool, Seq<u8>)) -> Option<Seq<u8>> {
    match address_in(reply.1) {
        Some(pair) => if reply.0 && pair != Seq::new(20, |i: int| 0u8) {
            Some(pair)
        } else {
            None
        },
        None => None,
    }
}

/// The pools that the first `count` replies name, each with the tokens and the
/// exchange that its question was about.
pub open spec fn found_pools(
    list: Seq<Query>,
    replies: Seq<(bool, Seq<u8>)>,
    count: nat,
) -> Seq<PairEntry>
    decreases count,
{
    if count == 0 {
        Seq::empty()
    } else {
        let before = found_pools(list, replies, (count - 1) as nat);
        let asked = list[count - 1];
        match found_pool(replies[count - 1]) {
            Some(pair) => before.push(
                PairEntry { pair, token0: asked.token0, token1: asked.token1, dex: asked.dex },
            ),
            None => before,
        }
    }
}

/// The book of the pools that the replies to some questions name. Questions
/// without a reply and replies without a question count for nothing.
pub open spec fn discovered(list: Seq<Query>, replies: Seq<(bool, Seq<u8>)>) -> BookModel {
    BookModel::empty().with_all(found_pools(list, replies, answered(list.len(), replies.len())))
}

/// Collects the pools that the replies to some questions name.
pub fn book_from_replies(plan: &Vec<PairQuery>, replies: &Vec<CallResult>) -> (r: PairBook)
    ensures
        r.model() == discovered(queries(plan@), results(replies@)),
{
    let ghost list = queries(plan@);
    let ghost all = results(replies@);
    let mut book = PairBook::new();
    let mut i: usize = 0;
    while i < plan.len() && i < replies.len()
        invariant
            i <= plan.len(),
            i <= replies.len(),
            list == queries(plan@),
            all == results(replies@),
            book.model() == BookModel::empty().with_all(found_pools(list, all, i as nat)),
        decreases plan.len() - i,
    {
        let ghost before = found_pools(list, all, i as nat);
        let q = &plan[i];
        let reply = &replies[i];
        assert(all[i as int] == reply@);
        assert(list[i as int] == q@);
        if reply.success {
            match decode_address(reply.return_data.as_slice()) {
                Some(pair) => {
                    if !pair.same(&Address::zero()) {
                        book.add(pair, q.token0, q.token1, q.dex.clone());
                        proof {
                            let entry = PairEntry {
                                pair: pair@,
                                token0: q.token0@,
                                token1: q.token1@,
                                dex: q.dex@,
                            };
                            assert(before.push(entry).drop_last() =~= before);
                        }
                    }
                },
                None => {},
            }
        }
        i = i + 1;
    }
    book
}

/// Collects the pools that the reply to the batch of some questions names; no
/// pool where there is no reply or where it cannot be read.
pub fn discovered_pairs(plan: &Vec<PairQuery>, reply: Option<&Vec<u8>>) -> (r: PairBook)
    ensures
        r.model() == (match reply {
            Some(data) => match decoded_results(data@) {
                Some(replies) => discovered(queries(plan@), replies),
                None => BookModel::empty(),
            },
            None => BookModel::empty(),
        }),
{
    match reply {
        Some(data) => match decode_results(data.as_slice()) {
            Some(replies) => book_from_replies(plan, &replies),
            None => PairBook::new(),
        },
        None => PairBook::new(),
    }
}

proof fn lemma_row_length(
    factory: Seq<u8>,
    dex: Seq<char>,
    tokens: Seq<Seq<u8>>,
    i: nat,
    end: nat,
)
    requires
        i < end,
    ensures
        row(factory, dex, tokens, i, end).len() == end - i - 1,
    decreases end,
{
    if end > i + 1 {
        lemma_row_length(factory, dex, tokens, i, (end - 1) as nat);
    }
}

proof fn lemma_rows_length(factory: Seq<u8>, dex: Seq<char>, tokens: Seq<Seq<u8>>, count: nat)
    requires
        count <= tokens.len(),
    ensures
        2 * rows(factory, dex, tokens, count).len() == count * (2 * tokens.len() - count - 1),
    decreases count,
{
    let n = tokens.len() as int;
    let c = count as int;
    if count == 0 {
        assert(c * (2 * n - c - 1) == 0) by (nonlinear_arith)
            requires
                c == 0,
        ;
    } else {
        lemma_rows_length(factory, dex, tokens, (count - 1) as nat);
        lemma_row_length(factory, dex, tokens, (count - 1) as nat, tokens.len());
        assert((c - 1) * (2 * n - (c - 1) - 1) + 2 * (n - (c - 1) - 1) == c * (2 * n - c - 1))
            by (nonlinear_arith);
    }
}

/// Discovery asks each exchange once about every two tokens: `n * (n - 1) / 2`
/// questions for `n` tokens, times the number of exchanges.
pub proof fn every_two_tokens_are_asked_about(
    exchanges: Seq<(Seq<char>, Seq<u8>)>,
    tokens: Seq<Seq<u8>>,
)
    ensures
        2 * all_queries(exchanges, tokens).len() == exchanges.len() * (tokens.len() * (tokens.len()
            - 1)),
        forall|k: int, i: int, j: int|
            #![trigger exchanges[k], tokens[i], tokens[j]]
            0 <= k < exchanges.len() && 0 <= i < j < tokens.len() ==> all_queries(
                exchanges,
                tokens,
            ).contains(query(exchanges[k].1, exchanges[k].0, tokens[i], tokens[j])),
    decreases exchanges.len(),
{
    let n = tokens.len() as int;
    if exchanges.len() > 0 {
        let rest = exchanges.drop_last();
        let last = exchanges.last();
        let m = exchanges.len() as int;
        every_two_tokens_are_asked_about(rest, tokens);
        lemma_rows_length(last.1, last.0, tokens, tokens.len());
        assert(n * (2 * n - n - 1) == n * (n - 1)) by (nonlinear_arith);
        assert((m - 1) * (n * (n - 1)) + n * (n - 1) == m * (n * (n - 1))) by (nonlinear_arith);
        let before = all_queries(rest, tokens);
        let more = rows(last.1, last.0, tokens, tokens.len());
        assert forall|k: int, i: int, j: int|
            #![trigger exchanges[k], tokens[i], tokens[j]]
            0 <= k < exchanges.len() && 0 <= i < j < tokens.len() implies all_queries(
            exchanges,
            tokens,
        ).contains(query(exchanges[k].1, exchanges[k].0, tokens[i], tokens[j])) by {
            let q = query(exchanges[k].1, exchanges[k].0, tokens[i], tokens[j]);
            if k < rest.len() {
                assert(rest[k] == exchanges[k]);
                assert(before.contains(q));
                let p = before.index_of(q);
                assert((before + more)[p] == q);
            } else {
                lemma_rows_hold(last.1, last.0, tokens, tokens.len(), i, j);
                let p = more.index_of(q);
                assert((before + more)[before.len() + p] == q);
            }
        }
    } else {
        assert(0 * (n * (n - 1)) == 0) by (nonlinear_arith);
    }
}

proof fn lemma_row_holds(
    factory: Seq<u8>,
    dex: Seq<char>,
    tokens: Seq<Seq<u8>>,
    i: nat,
    end: nat,
    j: int,
)
    requires
        i < j < end,
    ensures
        row(factory, dex, tokens, i, end).contains(
            query(factory, dex, tokens[i as int], tokens[j]),
        ),
    decreases end,
{
    let q = query(factory, dex, tokens[i as int], tokens[j]);
    let before = row(factory, dex, tokens, i, (end - 1) as nat);
    let whole = row(factory, dex, tokens, i, end);
    if j == end - 1 {
        assert(whole[before.len() as int] == q);
    } else {
        lemma_row_holds(factory, dex, tokens, i, (end - 1) as nat, j);
        let p = before.index_of(q);
        assert(whole[p] == q);
    }
}

proof fn lemma_rows_hold(
    factory: Seq<u8>,
    dex: Seq<char>,
    tokens: Seq<Seq<u8>>,
    count: nat,
    i: int,
    j: int,
)
    requires
        0 <= i < j < tokens.len(),
        i < count,
    ensures
        rows(factory, dex, tokens, count).contains(query(factory, dex, tokens[i], tokens[j])),
    decreases count,
{
    let q = query(factory, dex, tokens[i], tokens[j]);
    let before = rows(factory, dex, tokens, (count - 1) as nat);
    let more = row(factory, dex, tokens, (count - 1) as nat, tokens.len());
    if i == count - 1 {
        lemma_row_holds(factory, dex, tokens, i as nat, tokens.len(), j);
        let p = more.index_of(q);
        assert((before + more)[before.len() + p] == q);
    } else {
        lemma_rows_hold(factory, dex, tokens, (count - 1) as nat, i, j);
        let p = before.index_of(q);
        assert((before + more)[p] == q);
    }
}

/// A question names both tokens, the one with the smaller number first, and goes to
/// the given factory for the given exchange; the order of the tokens makes no
/// difference.
pub proof fn question_names_both_tokens(factory: Seq<u8>, dex: Seq<char>, a: Address, b: Address)
    ensures
        ({
            let q = query(factory, dex, a@, b@);
            &&& q.factory == factory && q.dex == dex
            &&& q.token0 == a@ && q.token1 == b@ || q.token0 == b@ && q.token1 == a@
            &&& big_endian_value(q.token0) <= big_endian_value(q.token1)
            &&& q == query(factory, dex, b@, a@)
        }),
{
    pair_holds_both_tokens(a@, b@);
    pair_ignores_order(a, b);
}

/// Every question of a plan is one to the factory of an exchange about two of the
/// tokens at different places.
pub proof fn only_two_tokens_are_asked_about(
    exchanges: Seq<(Seq<char>, Seq<u8>)>,
    tokens: Seq<Seq<u8>>,
    q: Query,
)
    requires
        all_queries(exchanges, tokens).contains(q),
    ensures
        exists|k: int, i: int, j: int|
            #![trigger exchanges[k], tokens[i], tokens[j]]
            0 <= k < exchanges.len() && 0 <= i < j < tokens.len() && q == query(
                exchanges[k].1,
                exchanges[k].0,
                tokens[i],
                tokens[j],
            ),
    decreases exchanges.len(),
{
    if exchanges.len() > 0 {
        let rest = exchanges.drop_last();
        let last = exchanges.last();
        let before = all_queries(rest, tokens);
        let more = rows(last.1, last.0, tokens, tokens.len());
        let p = all_queries(exchanges, tokens).index_of(q);
        if p < before.len() {
            assert(before[p] == q);
            only_two_tokens_are_asked_about(rest, tokens, q);
            let (k, i, j) = choose|k: int, i: int, j: int|
                #![trigger rest[k], tokens[i], tokens[j]]
                0 <= k < rest.len() && 0 <= i < j < tokens.len() && q == query(
                    rest[k].1,
                    rest[k].0,
                    tokens[i],
                    tokens[j],
                );
            assert(exchanges[k] == rest[k]);
        } else {
            assert(more[p - before.len()] == q);
            let (i, j) = lemma_rows_source(
                last.1,
                last.0,
                tokens,
                tokens.len(),
                p - before.len(),
            );
            assert(exchanges[exchanges.len() - 1] == last);
            assert(tokens[i] == tokens[i] && tokens[j] == tokens[j]);
        }
    }
}

proof fn lemma_rows_source(
    factory: Seq<u8>,
    dex: Seq<char>,
    tokens: Seq<Seq<u8>>,
    count: nat,
    p: int,
) -> (places: (int, int))
    requires
        count <= tokens.len(),
        0 <= p < rows(factory, dex, tokens, count).len(),
    ensures
        0 <= places.0 < places.1 < tokens.len(),
        rows(factory, dex, tokens, count)[p] == query(
            factory,
            dex,
            tokens[places.0],
            tokens[places.1],
        ),
    decreases count,
{
    let i = (count - 1) as nat;
    let before = rows(factory, dex, tokens, i);
    if p < before.len() {
        lemma_rows_source(factory, dex, tokens, i, p)
    } else {
        let j = lemma_row_source(factory, dex, tokens, i, tokens.len(), p - before.len());
        (i as int, j)
    }
}

proof fn lemma_row_source(
    factory: Seq<u8>,
    dex: Seq<char>,
    tokens: Seq<Seq<u8>>,
    i: nat,
    end: nat,
    p: int,
) -> (j: int)
    requires
        0 <= p < row(factory, dex, tokens, i, end).len(),
    ensures
        i < j < end,
        row(factory, dex, tokens, i, end)[p] == query(factory, dex, tokens[i as int], tokens[j]),
    decreases end,
{
    let before = row(factory, dex, tokens, i, (end - 1) as nat);
    if p < before.len() {
        lemma_row_source(factory, dex, tokens, i, (end - 1) as nat, p)
    } else {
        end - 1
    }
}

/// Each question becomes one call, in the same place: to its factory, one that may
/// fail, with the selector `0xe6a43905` and its two tokens, which can be read back.
pub proof fn each_question_is_one_call(list: Seq<Query>, i: int)
    requires
        0 <= i < list.len(),
        list[i].token0.len() == 20,
        list[i].token1.len() == 20,
    ensures
        query_calls(list).len() == list.len(),
        query_calls(list)[i].0 == list[i].factory,
        query_calls(list)[i].1,
        query_calls(list)[i].2.len() == 68,
        query_calls(list)[i].2.take(4) =~= seq![0xe6u8, 0xa4, 0x39, 0x05],
        address_in(query_calls(list)[i].2.subrange(4, 36)) == Some(list[i].token0),
        address_in(query_calls(list)[i].2.subrange(36, 68)) == Some(list[i].token1),
{
    reveal_with_fuel(big_endian, 5);
    let data = query_calls(list)[i].2;
    assert(data.subrange(4, 36).subrange(12, 32) =~= list[i].token0);
    assert(data.subrange(36, 68).subrange(12, 32) =~= list[i].token1);
}

/// A reply names a pool exactly where the call succeeded, its output has a whole word,
/// and the address in that word is not all zero.
pub proof fn reply_names_a_pool(reply: (bool, Seq<u8>), pair: Address)
    ensures
        found_pool(reply) is Some <==> reply.0 && reply.1.len() >= 32 && exists|k: int|
            12 <= k < 32 && #[trigger] reply.1[k] != 0,
        found_pool(reply) matches Some(found) ==> found =~= reply.1.subrange(12, 32),
        found_pool((false, address_word(pair@))) is None,
{
    let zero = Seq::new(20, |i: int| 0u8);
    if reply.1.len() >= 32 {
        let found = reply.1.subrange(12, 32);
        if found == zero {
            assert forall|k: int| 12 <= k < 32 implies #[trigger] reply.1[k] == 0 by {
                assert(found[k - 12] == zero[k - 12]);
            }
        } else if forall|k: int| 12 <= k < 32 ==> #[trigger] reply.1[k] == 0 {
            assert(found =~= zero);
        }
    }
}

/// Each reply that names a pool adds it with the tokens and the exchange of the
/// question in the same place; every pool that is found comes from such a reply.
pub proof fn replies_belong_to_their_questions(
    list: Seq<Query>,
    replies: Seq<(bool, Seq<u8>)>,
    count: nat,
    i: int,
    entry: PairEntry,
)
    requires
        0 <= i < count,
        count <= list.len(),
        count <= replies.len(),
    ensures
        found_pool(replies[i]) matches Some(pair) ==> found_pools(list, replies, count).contains(
            PairEntry { pair, token0: list[i].token0, token1: list[i].token1, dex: list[i].dex },
        ),
        found_pools(list, replies, count).contains(entry) ==> exists|k: int|
            #![trigger replies[k]]
            0 <= k < count && found_pool(replies[k]) == Some(entry.pair) && list[k].token0
                == entry.token0 && list[k].token1 == entry.token1 && list[k].dex == entry.dex,
        found_pools(list, replies, count).len() <= count,
    decreases count,
{
    let n = count - 1;
    let before = found_pools(list, replies, n as nat);
    let after = found_pools(list, replies, count);
    lemma_found_pools(list, replies, n as nat, entry);
    if i < n {
        replies_belong_to_their_questions(list, replies, n as nat, i, entry);
        if let Some(pair) = found_pool(replies[i]) {
            let e = PairEntry {
                pair,
                token0: list[i].token0,
                token1: list[i].token1,
                dex: list[i].dex,
            };
            let k = before.index_of(e);
            assert(after[k] == e);
        }
    } else if let Some(pair) = found_pool(replies[i]) {
        assert(after[before.len() as int] == (PairEntry {
            pair,
            token0: list[i].token0,
            token1: list[i].token1,
            dex: list[i].dex,
        }));
    }
    lemma_found_pools(list, replies, count, entry);
}

proof fn lemma_found_pools(
    list: Seq<Query>,
    replies: Seq<(bool, Seq<u8>)>,
    count: nat,
    entry: PairEntry,
)
    ensures
        found_pools(list, replies, count).contains(entry) ==> exists|k: int|
            #![trigger replies[k]]
            0 <= k < count && found_pool(replies[k]) == Some(entry.pair) && list[k].token0
                == entry.token0 && list[k].token1 == entry.token1 && list[k].dex == entry.dex,
        found_pools(list, replies, count).len() <= count,
    decreases count,
{
    if count > 0 {
        let n = count - 1;
        let before = found_pools(list, replies, n as nat);
        let after = found_pools(list, replies, count);
        lemma_found_pools(list, replies, n as nat, entry);
        if after.contains(entry) {
            let k = after.index_of(entry);
            if k < before.len() {
                assert(before[k] == entry);
            } else {
                assert(found_pool(replies[n]) == Some(entry.pair));
            }
        }
    }
}

/// The book that `book_from_replies` collects lists the pool of every reply that names
/// one, under the tokens and the exchange of the question in the same place, and no
/// other pool.
pub proof fn collected_pools_answer_their_questions(
    plan: Vec<PairQuery>,
    replies: Vec<CallResult>,
    r: PairBook,
    i: int,
    tokens: (Seq<u8>, Seq<u8>),
    listing: (Seq<u8>, Seq<char>),
)
    requires
        call_ensures(book_from_replies, (&plan, &replies), r),
        0 <= i < plan@.len(),
        i < replies@.len(),
    ensures
        found_pool(replies@[i]@) matches Some(pair) ==> {
            &&& r.model().known.contains(pair)
            &&& r.model().dex.dom().contains(pair)
            &&& r.model().pools(in_order(plan@[i].token0@, plan@[i].token1@)).contains(
                (pair, plan@[i].dex@),
            )
        },
        r.model().pools(tokens).contains(listing) ==> exists|k: int|
            0 <= k < plan@.len() && k < replies@.len() && found_pool((#[trigger] replies@[k])@)
                == Some(listing.0) && plan@[k].dex@ == listing.1 && in_order(
                plan@[k].token0@,
                plan@[k].token1@,
            ) == tokens,
{
    let (list, all) = (queries(plan@), results(replies@));
    let count = answered(list.len(), all.len());
    let entries = found_pools(list, all, count);
    assert(all[i] == replies@[i]@);
    assert(list[i] == plan@[i]@);
    if let Some(pair) = found_pool(all[i]) {
        let e = PairEntry {
            pair,
            token0: list[i].token0,
            token1: list[i].token1,
            dex: list[i].dex,
        };
        replies_belong_to_their_questions(list, all, count, i, e);
        let k = entries.index_of(e);
        book_lists_what_was_added(entries, k);
    }
    if r.model().pools(tokens).contains(listing) {
        book_lists_nothing_else(entries, tokens, listing);
        let n = choose|n: int|
            0 <= n < entries.len() && (#[trigger] entries[n]).pair == listing.0 && entries[n].dex
                == listing.1 && in_order(entries[n].token0, entries[n].token1) == tokens;
        let e = entries[n];
        replies_belong_to_their_questions(list, all, count, i, e);
        let k = choose|k: int|
            #![trigger all[k]]
            0 <= k < count && found_pool(all[k]) == Some(e.pair) && list[k].token0 == e.token0
                && list[k].token1 == e.token1 && list[k].dex == e.dex;
        assert(all[k] == replies@[k]@);
        assert(list[k] == plan@[k]@);
    }
}

/// The plan of `plan_discovery` asks the factory of every exchange once about every two
/// tokens.
pub proof fn planned_questions_cover_every_pair(
    tokens: Vec<Address>,
    factories: DexFactoryMap,
    r: Vec<PairQuery>,
    k: int,
    i: int,
    j: int,
)
    requires
        factories.wf(),
        call_ensures(plan_discovery, (&tokens, &factories), r),
        0 <= k < factories.key_list().len(),
        0 <= i < j < tokens@.len(),
    ensures
        2 * r@.len() == factories.key_list().len() * (tokens@.len() * (tokens@.len() - 1)),
        exists|p: int|
            0 <= p < r@.len() && ({
                let q = (#[trigger] r@[p])@;
                let dex = factories.key_list()[k];
                &&& q.dex == dex && q.factory == factories@[dex]@
                &&& q.token0 == tokens@[i]@ && q.token1 == tokens@[j]@ || q.token0 == tokens@[j]@
                    && q.token1 == tokens@[i]@
            }),
{
    let all = addresses(tokens@);
    let list = exchanges(factories);
    every_two_tokens_are_asked_about(list, all);
    factories.lemma_entry(k);
    assert(list[k] == (factories.key_list()[k], factories.value_list()[k]@));
    assert(all[i] == tokens@[i]@ && all[j] == tokens@[j]@);
    let q = query(list[k].1, list[k].0, all[i], all[j]);
    assert(queries(r@).contains(q));
    let p = queries(r@).index_of(q);
    assert(r@[p]@ == q);
    question_names_both_tokens(list[k].1, list[k].0, tokens@[i], tokens@[j]);
}

/// No reply, or one that cannot be read, makes an empty book.
pub proof fn unread_replies_find_nothing(plan: Vec<PairQuery>, r: PairBook, pair: Seq<u8>)
    requires
        call_ensures(discovered_pairs, (&plan, None::<&Vec<u8>>), r),
    ensures
        !r.model().known.contains(pair),
        !r.model().dex.dom().contains(pair),
        r.model().registry.dom() =~= Set::empty(),
{
}

/// The address of the contract that makes batches of calls is
/// `0xca11bde05977b3631167028862be2a173976ca11`.
pub proof fn batch_contract_is_spelled_out()
    ensures
        spelled_address("0xca11bde05977b3631167028862be2a173976ca11"@) == Some(batch_contract()),
{
    reveal_strlit("0xca11bde05977b3631167028862be2a173976ca11");
    let s = "0xca11bde05977b3631167028862be2a173976ca11"@;
    let digits = s.skip(2);
    assert forall|i: int| 0 <= i < 40 implies hex_value(#[trigger] digits[i]) is Some by {
        assert(digits[i] == s[i + 2]);
    }
    assert(spelled_address(s)->0 =~= batch_contract());
}

} // verus!
