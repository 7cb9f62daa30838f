//! Which pools exist, on which exchange, and for which tokens.
use vstd::prelude::*;

use crate::address::{
    addresses, in_order, only_forty_digits_are_an_address, sorted_pair, spelled_address,
    written_address_is_spelled, Address, TokenPair,
};
use crate::table::{Key, Table};
use crate::text::{
    hex_bytes, last_piece_follows_the_last_separator, pieces, split, texts, trim, trimmed,
};

verus! {

/// A set of addresses.
pub type AddressSet = Table<Address, ()>;

/// A pool and the exchange that it belongs to.
pub struct Listing {
    pub pair: Address,
    pub dex: String,
}

impl View for Listing {
    type V = (Seq<u8>, Seq<char>);

    open spec fn view(&self) -> (Seq<u8>, Seq<char>) {
        (self.pair@, self.dex@)
    }
}

impl Listing {
    fn same(&self, other: &Listing) -> (r: bool)
        ensures
            r == (self@ == other@),
    {
        self.pair.same(&other.pair) && self.dex == other.dex
    }

    fn copy(&self) -> (r: Listing)
        ensures
            r@ == self@,
    {
        Listing { pair: self.pair, dex: self.dex.clone() }
    }
}

/// The pools of each pair of tokens.
pub type PairRegistry = Table<TokenPair, Vec<Listing>>;

/// The exchange of each pool.
pub type PairDexMap = Table<Address, String>;

/// The exchange of each router.
pub type RouterDexMap = Table<Address, String>;

/// The factory of each exchange.
pub type DexFactoryMap = Table<String, Address>;

/// The pools and exchanges of a list.
pub open spec fn listings(list: Seq<Listing>) -> Seq<(Seq<u8>, Seq<char>)> {
    list.map_values(|l: Listing| l@)
}

/// The pools of each pair of tokens.
pub open spec fn registered(
    registry: Map<(Seq<u8>, Seq<u8>), Vec<Listing>>,
) -> Map<(Seq<u8>, Seq<u8>), Seq<(Seq<u8>, Seq<char>)>> {
    registry.map_values(|list: Vec<Listing>| listings(list@))
}

/// The text of each value.
pub open spec fn named(map: Map<Seq<u8>, String>) -> Map<Seq<u8>, Seq<char>> {
    map.map_values(|s: String| s@)
}

/// The address of each value.
pub open spec fn located(map: Map<Seq<char>, Address>) -> Map<Seq<char>, Seq<u8>> {
    map.map_values(|a: Address| a@)
}

/// What a book of pools holds: the pools, those of each pair of tokens in the
/// order in which they came, and the exchange of each pool.
#[verifier::ext_equal]
pub ghost struct BookModel {
    pub known: Set<Seq<u8>>,
    pub registry: Map<(Seq<u8>, Seq<u8>), Seq<(Seq<u8>, Seq<char>)>>,
    pub dex: Map<Seq<u8>, Seq<char>>,
}

/// A list followed by those items of another one that it does not hold yet.
pub open spec fn joined<T>(list: Seq<T>, more: Seq<T>) -> Seq<T>
    decreases more.len(),
{
    if more.len() == 0 {
        list
    } else {
        let before = joined(list, more.drop_last());
        if before.contains(more.last()) {
            before
        } else {
            before.push(more.last())
        }
    }
}

/// A pool, its two tokens and its exchange.
pub ghost struct PairEntry {
    pub pair: Seq<u8>,
    pub token0: Seq<u8>,
    pub token1: Seq<u8>,
    pub dex: Seq<char>,
}

impl BookModel {
    /// A book without pools.
    pub open spec fn empty() -> BookModel {
        BookModel { known: Set::empty(), registry: Map::empty(), dex: Map::empty() }
    }

    /// The pools of a pair of tokens.
    pub open spec fn pools(self, tokens: (Seq<u8>, Seq<u8>)) -> Seq<(Seq<u8>, Seq<char>)> {
        if self.registry.dom().contains(tokens) {
            self.registry[tokens]
        } else {
            Seq::empty()
        }
    }

    /// The book with one more pool: it comes last among those of its tokens, and
    /// its exchange replaces the one it had.
    pub open spec fn with(self, entry: PairEntry) -> BookModel {
        let tokens = in_order(entry.token0, entry.token1);
        BookModel {
            known: self.known.insert(entry.pair),
            registry: self.registry.insert(
                tokens,
                self.pools(tokens).push((entry.pair, entry.dex)),
            ),
            dex: self.dex.insert(entry.pair, entry.dex),
        }
    }

    /// The book with more pools, one after the other.
    pub open spec fn with_all(self, entries: Seq<PairEntry>) -> BookModel
        decreases entries.len(),
    {
        if entries.len() == 0 {
            self
        } else {
            self.with_all(entries.drop_last()).with(entries.last())
        }
    }

    /// The book with all that another one holds. A pool that its tokens already
    /// list under the same exchange is not listed again; where both books know
    /// the exchange of a pool, the other one's holds.
    pub open spec fn merged(self, other: BookModel) -> BookModel {
        BookModel {
            known: self.known.union(other.known),
            registry: Map::new(
                |tokens: (Seq<u8>, Seq<u8>)|
                    self.registry.dom().contains(tokens) || other.registry.dom().contains(tokens),
                |tokens: (Seq<u8>, Seq<u8>)| joined(self.pools(tokens), other.pools(tokens)),
            ),
            dex: self.dex.union_prefer_right(other.dex),
        }
    }

    /// Whether some pair of tokens lists the pool.
    pub open spec fn lists(self, pair: Seq<u8>) -> bool {
        exists|tokens: (Seq<u8>, Seq<u8>), i: int|
            self.registry.dom().contains(tokens) && 0 <= i < self.registry[tokens].len() && (
            #[trigger] self.registry[tokens][i]).0 == pair
    }

    /// The pools that are known are those that have an exchange and those that
    /// some pair of tokens lists.
    pub open spec fn consistent(self) -> bool {
        &&& self.known == self.dex.dom()
        &&& forall|pair: Seq<u8>| #[trigger] self.known.contains(pair) <==> self.lists(pair)
    }
}

/// The known pools.
pub struct PairBook {
    pub known: AddressSet,
    pub registry: PairRegistry,
    pub dex: PairDexMap,
}

impl PairBook {
    /// What the book holds.
    pub open spec fn model(&self) -> BookModel {
        BookModel {
            known: self.known@.dom(),
            registry: registered(self.registry@),
            dex: named(self.dex@),
        }
    }

    /// A book without pools.
    pub fn new() -> (r: PairBook)
        ensures
            r.model() == BookModel::empty(),
    {
        let r = PairBook { known: Table::new(), registry: Table::new(), dex: Table::new() };
        assert(r.model() =~= BookModel::empty());
        r
    }

    /// Adds a pool.
    pub fn add(&mut self, pair: Address, token0: Address, token1: Address, dex: String)
        ensures
            final(self).model() == old(self).model().with(
                PairEntry { pair: pair@, token0: token0@, token1: token1@, dex: dex@ },
            ),
    {
        let ghost before = self.model();
        let ghost entry = PairEntry { pair: pair@, token0: token0@, token1: token1@, dex: dex@ };
        self.known.insert(pair, ());
        self.dex.insert(pair, dex.clone());
        let ghost registry = self.registry@;
        let ghost tokens = in_order(token0@, token1@);
        let listing = Listing { pair, dex };
        self.registry.push_to(sorted_pair(token0, token1), listing);
        proof {
            assert(self.model().known =~= before.with(entry).known);
            assert(self.model().dex =~= before.with(entry).dex);
            let after = self.model().registry;
            assert(after.dom() =~= before.with(entry).registry.dom());
            assert forall|k: (Seq<u8>, Seq<u8>)| after.dom().contains(k) implies after[k]
                == before.with(entry).registry[k] by {
                if k == tokens {
                    assert(after[k] =~= before.pools(tokens).push((pair@, listing.dex@)));
                } else {
                    assert(registry.dom().contains(k));
                }
            }
            assert(after =~= before.with(entry).registry);
        }
    }
}

/// The pool that a text names as `pair:token0:token1:exchange`.
pub open spec fn pair_entry(text: Seq<char>) -> Option<PairEntry> {
    let parts = pieces(text, ':');
    if parts.len() == 4 && parts[3].len() > 0 {
        match (
            spelled_address(parts[0]),
            spelled_address(parts[1]),
            spelled_address(parts[2]),
        ) {
            (Some(pair), Some(token0), Some(token1)) => Some(
                PairEntry { pair, token0, token1, dex: parts[3] },
            ),
            _ => None,
        }
    } else {
        None
    }
}

/// The pools that a list of texts names; the other texts count for nothing.
pub open spec fn pair_entries(list: Seq<Seq<char>>) -> Seq<PairEntry>
    decreases list.len(),
{
    if list.len() == 0 {
        Seq::empty()
    } else {
        let before = pair_entries(list.drop_last());
        match pair_entry(list.last()) {
            Some(entry) => before.push(entry),
            None => before,
        }
    }
}

/// Reads a list of pools, `pair:token0:token1:exchange` separated by commas.
pub fn parse_known_pairs(raw: &str) -> (r: PairBook)
    ensures
        r.model() == BookModel::empty().with_all(pair_entries(pieces(raw@, ','))),
{
    let list = split(raw, ',');
    let mut book = PairBook::new();
    let ghost all = pieces(raw@, ',');
    assert(all.take(0) =~= Seq::empty());
    let mut i: usize = 0;
    while i < list.len()
        invariant
            texts(list@) == all,
            i <= list.len(),
            book.model() == BookModel::empty().with_all(pair_entries(all.take(i as int))),
        decreases list.len() - i,
    {
        let ghost before = pair_entries(all.take(i as int));
        proof {
            assert(all.take(i + 1).drop_last() =~= all.take(i as int));
            assert(all.take(i + 1).last() == texts(list@)[i as int]);
        }
        let parts = split(list[i].as_str(), ':');
        assert(texts(parts@) == pieces(all[i as int], ':'));
        if parts.len() == 4 {
            let pair = Address::from_text(parts[0].as_str());
            let token0 = Address::from_text(parts[1].as_str());
            let token1 = Address::from_text(parts[2].as_str());
            assert(texts(parts@)[0] == parts@[0]@);
            assert(texts(parts@)[1] == parts@[1]@);
            assert(texts(parts@)[2] == parts@[2]@);
            assert(texts(parts@)[3] == parts@[3]@);
            match (pair, token0, token1) {
                (Some(pair), Some(token0), Some(token1)) => {
                    if !parts[3].as_str().is_empty() {
                        let ghost entry = PairEntry {
                            pair: pair@,
                            token0: token0@,
                            token1: token1@,
                            dex: parts@[3]@,
                        };
                        book.add(pair, token0, token1, parts[3].clone());
                        assert(before.push(entry).drop_last() =~= before);
                    }
                },
                _ => {},
            }
        }
        i = i + 1;
    }
    assert(all.take(i as int) =~= all);
    book
}

/// The router and exchange that a text names as `router:exchange`.
pub open spec fn router_entry(text: Seq<char>) -> Option<(Seq<u8>, Seq<char>)> {
    let parts = pieces(text, ':');
    if parts.len() == 2 && parts[1].len() > 0 {
        match spelled_address(parts[0]) {
            Some(router) => Some((router, parts[1])),
            None => None,
        }
    } else {
        None
    }
}

/// The exchange of each router that a list of texts names, the last one where
/// a router is named more than once.
pub open spec fn router_entries(list: Seq<Seq<char>>) -> Map<Seq<u8>, Seq<char>>
    decreases list.len(),
{
    if list.len() == 0 {
        Map::empty()
    } else {
        let before = router_entries(list.drop_last());
        match router_entry(list.last()) {
            Some((router, dex)) => before.insert(router, dex),
            None => before,
        }
    }
}

/// Reads a list of routers, `router:exchange` separated by commas.
pub fn parse_known_routers(raw: &str) -> (r: RouterDexMap)
    ensures
        named(r@) == router_entries(pieces(raw@, ',')),
{
    let list = split(raw, ',');
    let mut map: RouterDexMap = Table::new();
    let ghost all = pieces(raw@, ',');
    assert(all.take(0) =~= Seq::empty());
    assert(named(map@) =~= Map::empty());
    let mut i: usize = 0;
    while i < list.len()
        invariant
            texts(list@) == all,
            i <= list.len(),
            named(map@) == router_entries(all.take(i as int)),
        decreases list.len() - i,
    {
        let ghost before = map@;
        proof {
            assert(all.take(i + 1).drop_last() =~= all.take(i as int));
            assert(all.take(i + 1).last() == texts(list@)[i as int]);
        }
        let parts = split(list[i].as_str(), ':');
        assert(texts(parts@) == pieces(all[i as int], ':'));
        if parts.len() == 2 {
            assert(texts(parts@)[0] == parts@[0]@);
            assert(texts(parts@)[1] == parts@[1]@);
            match Address::from_text(parts[0].as_str()) {
                Some(router) => {
                    if !parts[1].as_str().is_empty() {
                        map.insert(router, parts[1].clone());
                        assert(named(map@) =~= named(before).insert(router@, parts@[1]@));
                    }
                },
                None => {},
            }
        }
        i = i + 1;
    }
    assert(all.take(i as int) =~= all);
    map
}

/// The exchange and factory that a text names as `exchange:factory`.
pub open spec fn factory_entry(text: Seq<char>) -> Option<(Seq<char>, Seq<u8>)> {
    let parts = pieces(text, ':');
    if parts.len() == 2 && parts[0].len() > 0 {
        match spelled_address(parts[1]) {
            Some(factory) => Some((parts[0], factory)),
            None => None,
        }
    } else {
        None
    }
}

/// The factory of each exchange that a list of texts names, the last one where
/// an exchange is named more than once.
pub open spec fn factory_entries(list: Seq<Seq<char>>) -> Map<Seq<char>, Seq<u8>>
    decreases list.len(),
{
    if list.len() == 0 {
        Map::empty()
    } else {
        let before = factory_entries(list.drop_last());
        match factory_entry(list.last()) {
            Some((dex, factory)) => before.insert(dex, factory),
            None => before,
        }
    }
}

/// Reads a list of factories, `exchange:factory` separated by commas.
pub fn parse_dex_factories(raw: &str) -> (r: DexFactoryMap)
    ensures
        located(r@) == factory_entries(pieces(raw@, ',')),
{
    let list = split(raw, ',');
    let mut map: DexFactoryMap = Table::new();
    let ghost all = pieces(raw@, ',');
    assert(all.take(0) =~= Seq::empty());
    assert(located(map@) =~= Map::empty());
    let mut i: usize = 0;
    while i < list.len()
        invariant
            texts(list@) == all,
            i <= list.len(),
            located(map@) == factory_entries(all.take(i as int)),
        decreases list.len() - i,
    {
        let ghost before = map@;
        proof {
            assert(all.take(i + 1).drop_last() =~= all.take(i as int));
            assert(all.take(i + 1).last() == texts(list@)[i as int]);
        }
        let parts = split(list[i].as_str(), ':');
        assert(texts(parts@) == pieces(all[i as int], ':'));
        if parts.len() == 2 {
            assert(texts(parts@)[0] == parts@[0]@);
            assert(texts(parts@)[1] == parts@[1]@);
            match Address::from_text(parts[1].as_str()) {
                Some(factory) => {
                    if !parts[0].as_str().is_empty() {
                        map.insert(parts[0].clone(), factory);
                        assert(located(map@) =~= located(before).insert(parts@[0]@, factory@));
                    }
                },
                None => {},
            }
        }
        i = i + 1;
    }
    assert(all.take(i as int) =~= all);
    map
}

/// The addresses that a list of texts spells, blanks around them aside; the
/// other texts count for nothing.
pub open spec fn token_entries(list: Seq<Seq<char>>) -> Seq<Seq<u8>>
    decreases list.len(),
{
    if list.len() == 0 {
        Seq::empty()
    } else {
        let before = token_entries(list.drop_last());
        match spelled_address(trimmed(list.last())) {
            Some(token) => before.push(token),
            None => before,
        }
    }
}

/// Reads a list of tokens separated by commas.
pub fn parse_token_list(raw: &str) -> (r: Vec<Address>)
    ensures
        addresses(r@) == token_entries(pieces(raw@, ',')),
{
    let list = split(raw, ',');
    let mut tokens: Vec<Address> = Vec::new();
    let ghost all = pieces(raw@, ',');
    assert(all.take(0) =~= Seq::empty());
    assert(addresses(tokens@) =~= Seq::empty());
    let mut i: usize = 0;
    while i < list.len()
        invariant
            texts(list@) == all,
            i <= list.len(),
            addresses(tokens@) == token_entries(all.take(i as int)),
        decreases list.len() - i,
    {
        let ghost before = tokens@;
        proof {
            assert(all.take(i + 1).drop_last() =~= all.take(i as int));
            assert(all.take(i + 1).last() == texts(list@)[i as int]);
        }
        match Address::from_text(trim(list[i].as_str()).as_str()) {
            Some(token) => {
                tokens.push(token);
                assert(addresses(tokens@) =~= addresses(before).push(token@));
            },
            None => {},
        }
        i = i + 1;
    }
    assert(all.take(i as int) =~= all);
    tokens
}

/// The registry after the pools of some pairs of tokens were joined to it.
spec fn absorbed(
    registry: Map<(Seq<u8>, Seq<u8>), Seq<(Seq<u8>, Seq<char>)>>,
    keys: Seq<(Seq<u8>, Seq<u8>)>,
    more: Map<(Seq<u8>, Seq<u8>), Seq<(Seq<u8>, Seq<char>)>>,
) -> Map<(Seq<u8>, Seq<u8>), Seq<(Seq<u8>, Seq<char>)>> {
    Map::new(
        |tokens: (Seq<u8>, Seq<u8>)| registry.dom().contains(tokens) || keys.contains(tokens),
        |tokens: (Seq<u8>, Seq<u8>)|
            if keys.contains(tokens) {
                joined(list_of(registry, tokens), more[tokens])
            } else {
                registry[tokens]
            },
    )
}

/// The pools of a pair of tokens.
spec fn list_of(
    registry: Map<(Seq<u8>, Seq<u8>), Seq<(Seq<u8>, Seq<char>)>>,
    tokens: (Seq<u8>, Seq<u8>),
) -> Seq<(Seq<u8>, Seq<char>)> {
    if registry.dom().contains(tokens) {
        registry[tokens]
    } else {
        Seq::empty()
    }
}

fn lists(list: &Vec<Listing>, listing: &Listing) -> (r: bool)
    ensures
        r == listings(list@).contains(listing@),
{
    let mut i: usize = 0;
    while i < list.len()
        invariant
            i <= list.len(),
            forall|k: int| 0 <= k < i ==> listings(list@)[k] != listing@,
        decreases list.len() - i,
    {
        if list[i].same(listing) {
            assert(listings(list@)[i as int] == listing@);
            return true;
        }
        i = i + 1;
    }
    false
}

/// Joins more pools to those of a pair of tokens.
fn join_pools(registry: &mut PairRegistry, tokens: TokenPair, more: &Vec<Listing>)
    ensures
        registered(final(registry)@) == registered(old(registry)@).insert(
            tokens@,
            joined(list_of(registered(old(registry)@), tokens@), listings(more@)),
        ),
{
    let ghost start = list_of(registered(registry@), tokens@);
    let ghost all = listings(more@);
    registry.open_list(tokens);
    assert(all.take(0) =~= Seq::empty());
    assert(listings(registry@[tokens@]@) =~= start);
    let mut i: usize = 0;
    while i < more.len()
        invariant
            i <= more.len(),
            all == listings(more@),
            registry@.dom() == old(registry)@.dom().insert(tokens@),
            listings(registry@[tokens@]@) == joined(start, all.take(i as int)),
            forall|k: (Seq<u8>, Seq<u8>)|
                k != tokens@ && #[trigger] old(registry)@.dom().contains(k) ==> registry@[k] == old(
                    registry,
                )@[k],
        decreases more.len() - i,
    {
        let ghost before = registry@[tokens@]@;
        proof {
            assert(all.take(i + 1).drop_last() =~= all.take(i as int));
            assert(all.take(i + 1).last() == more@[i as int]@);
        }
        let present = match registry.get(&tokens) {
            Some(list) => lists(list, &more[i]),
            None => false,
        };
        if !present {
            let copy = more[i].copy();
            registry.push_to(tokens, copy);
            assert(listings(registry@[tokens@]@) =~= listings(before).push(copy@));
        }
        assert(registry@.dom() =~= old(registry)@.dom().insert(tokens@));
        i = i + 1;
    }
    assert(all.take(i as int) =~= all);
    assert(registered(registry@) =~= registered(old(registry)@).insert(
        tokens@,
        joined(start, all),
    ));
}

/// Merges the pools of another book into a book.
pub fn merge_pair_registry(book: &mut PairBook, extra: PairBook)
    ensures
        final(book).model() == old(book).model().merged(extra.model()),
{
    let ghost before = book.model();
    let ghost other = extra.model();
    let mut i: usize = 0;
    while i < extra.known.len()
        invariant
            i <= extra.known.key_list().len(),
            book.registry == old(book).registry,
            book.dex == old(book).dex,
            forall|a: Seq<u8>| #[trigger]
                book.known@.dom().contains(a) <==> (old(book).known@.dom().contains(a)
                    || extra.known.key_list().take(i as int).contains(a)),
        decreases extra.known.key_list().len() - i,
    {
        let pair = *extra.known.key_at(i);
        let ghost keys = extra.known.key_list();
        proof {
            lemma_one_more(keys, i as int);
        }
        book.known.insert(pair, ());
        i = i + 1;
    }
    assert(extra.known.key_list().take(i as int) =~= extra.known.key_list());
    assert(book.known@.dom() =~= before.known.union(other.known));
    i = 0;
    while i < extra.dex.len()
        invariant
            i <= extra.dex.key_list().len(),
            book.registry == old(book).registry,
            book.known@.dom() == before.known.union(other.known),
            forall|a: Seq<u8>| #[trigger]
                book.dex@.dom().contains(a) <==> (old(book).dex@.dom().contains(a)
                    || extra.dex.key_list().take(i as int).contains(a)),
            forall|a: Seq<u8>| #[trigger]
                book.dex@.dom().contains(a) ==> book.dex@[a]@ == (
                if extra.dex.key_list().take(i as int).contains(a) {
                    extra.dex@[a]@
                } else {
                    old(book).dex@[a]@
                }),
        decreases extra.dex.key_list().len() - i,
    {
        let pair = *extra.dex.key_at(i);
        let dex = extra.dex.value_at(i).clone();
        proof {
            use_type_invariant(&extra.dex);
            extra.dex.lemma_entry(i as int);
            lemma_one_more(extra.dex.key_list(), i as int);
        }
        book.dex.insert(pair, dex);
        i = i + 1;
    }
    assert(extra.dex.key_list().take(i as int) =~= extra.dex.key_list());
    assert(named(book.dex@) =~= before.dex.union_prefer_right(other.dex));
    i = 0;
    let ghost keys = extra.registry.key_list();
    assert(registered(book.registry@) =~= absorbed(before.registry, keys.take(0), other.registry));
    while i < extra.registry.len()
        invariant
            i <= keys.len(),
            keys == extra.registry.key_list(),
            other == extra.model(),
            book.known@.dom() == before.known.union(other.known),
            named(book.dex@) == before.dex.union_prefer_right(other.dex),
            registered(book.registry@) == absorbed(
                before.registry,
                keys.take(i as int),
                other.registry,
            ),
        decreases keys.len() - i,
    {
        let tokens = *extra.registry.key_at(i);
        proof {
            use_type_invariant(&extra.registry);
            extra.registry.lemma_entry(i as int);
            lemma_one_more(keys, i as int);
            assert(!keys.take(i as int).contains(tokens@));
        }
        let ghost now = registered(book.registry@);
        join_pools(&mut book.registry, tokens, extra.registry.value_at(i));
        proof {
            assert(list_of(now, tokens@) == list_of(before.registry, tokens@));
            assert(registered(book.registry@) =~= absorbed(
                before.registry,
                keys.take(i + 1),
                other.registry,
            ));
        }
        i = i + 1;
    }
    proof {
        assert(keys.take(i as int) =~= keys);
        let whole = before.merged(other).registry;
        let done = absorbed(before.registry, keys, other.registry);
        assert(done.dom() =~= whole.dom());
        assert forall|tokens: (Seq<u8>, Seq<u8>)| done.dom().contains(tokens) implies done[tokens]
            == whole[tokens] by {
            if !keys.contains(tokens) {
                assert(joined(before.pools(tokens), Seq::empty()) == before.pools(tokens));
            }
        }
        assert(done =~= whole);
    }
}

proof fn lemma_joined<T>(list: Seq<T>, more: Seq<T>)
    ensures
        forall|x: T| #[trigger]
            joined(list, more).contains(x) <==> (list.contains(x) || more.contains(x)),
        list.no_duplicates() ==> joined(list, more).no_duplicates(),
        list.len() <= joined(list, more).len(),
        joined(list, more).take(list.len() as int) == list,
    decreases more.len(),
{
    if more.len() == 0 {
        assert(list.take(list.len() as int) =~= list);
    } else {
        let rest = more.drop_last();
        lemma_joined(list, rest);
        let before = joined(list, rest);
        assert(more =~= rest.push(more.last()));
        assert forall|x: T| #[trigger] more.contains(x) <==> (rest.contains(x) || x
            == more.last()) by {
            lemma_pushed(rest, more.last(), x);
        }
        if !before.contains(more.last()) {
            let after = before.push(more.last());
            assert forall|x: T| #[trigger] after.contains(x) <==> (before.contains(x) || x
                == more.last()) by {
                lemma_pushed(before, more.last(), x);
            }
            assert(after.take(list.len() as int) =~= before.take(list.len() as int));
        }
    }
}

proof fn lemma_pushed<T>(list: Seq<T>, item: T, x: T)
    ensures
        list.push(item).contains(x) <==> (list.contains(x) || x == item),
{
    if list.contains(x) {
        let i = list.index_of(x);
        assert(list.push(item)[i] == x);
    }
    assert(list.push(item)[list.len() as int] == item);
}

/// A book stays consistent when a pool is added to it.
pub proof fn adding_keeps_consistency(book: BookModel, entry: PairEntry)
    requires
        book.consistent(),
    ensures
        book.with(entry).consistent(),
{
    let after = book.with(entry);
    let key = in_order(entry.token0, entry.token1);
    assert(after.known =~= after.dex.dom());
    assert forall|pair: Seq<u8>| #[trigger] after.known.contains(pair) <==> after.lists(pair) by {
        if after.known.contains(pair) {
            if pair == entry.pair {
                assert(after.registry[key][book.pools(key).len() as int].0 == pair);
            } else {
                assert(book.known.contains(pair));
                let (tokens, i) = choose|tokens: (Seq<u8>, Seq<u8>), i: int|
                    book.registry.dom().contains(tokens) && 0 <= i < book.registry[tokens].len()
                        && (#[trigger] book.registry[tokens][i]).0 == pair;
                assert(after.registry[tokens][i] == book.registry[tokens][i]);
            }
        }
        if after.lists(pair) && pair != entry.pair {
            let (tokens, i) = choose|tokens: (Seq<u8>, Seq<u8>), i: int|
                after.registry.dom().contains(tokens) && 0 <= i < after.registry[tokens].len() && (
                #[trigger] after.registry[tokens][i]).0 == pair;
            assert(book.registry[tokens][i].0 == pair);
            assert(book.known.contains(pair));
        }
    }
}

/// Any list of pools makes a consistent book: every pool that is known has an
/// exchange and is listed under its tokens, and no other pool is.
pub proof fn listed_pools_are_consistent(entries: Seq<PairEntry>)
    ensures
        BookModel::empty().with_all(entries).consistent(),
    decreases entries.len(),
{
    if entries.len() == 0 {
        assert(BookModel::empty().known =~= BookModel::empty().dex.dom());
    } else {
        listed_pools_are_consistent(entries.drop_last());
        adding_keeps_consistency(
            BookModel::empty().with_all(entries.drop_last()),
            entries.last(),
        );
    }
}

/// Two consistent books merge into a consistent one.
pub proof fn merging_keeps_consistency(book: BookModel, extra: BookModel)
    requires
        book.consistent(),
        extra.consistent(),
    ensures
        book.merged(extra).consistent(),
{
    let after = book.merged(extra);
    assert(after.known =~= after.dex.dom());
    assert forall|pair: Seq<u8>| #[trigger] after.known.contains(pair) <==> after.lists(pair) by {
        if after.known.contains(pair) {
            if book.known.contains(pair) {
                let (tokens, i) = choose|tokens: (Seq<u8>, Seq<u8>), i: int|
                    book.registry.dom().contains(tokens) && 0 <= i < book.registry[tokens].len()
                        && (#[trigger] book.registry[tokens][i]).0 == pair;
                merging_loses_nothing(book, extra, tokens, book.registry[tokens][i]);
            } else {
                assert(extra.known.contains(pair));
                let (tokens, i) = choose|tokens: (Seq<u8>, Seq<u8>), i: int|
                    extra.registry.dom().contains(tokens) && 0 <= i < extra.registry[tokens].len()
                        && (#[trigger] extra.registry[tokens][i]).0 == pair;
                merging_loses_nothing(book, extra, tokens, extra.registry[tokens][i]);
            }
        }
        if after.lists(pair) {
            let (tokens, i) = choose|tokens: (Seq<u8>, Seq<u8>), i: int|
                after.registry.dom().contains(tokens) && 0 <= i < after.registry[tokens].len() && (
                #[trigger] after.registry[tokens][i]).0 == pair;
            let listing = after.registry[tokens][i];
            merging_loses_nothing(book, extra, tokens, listing);
            if book.pools(tokens).contains(listing) {
                let j = book.pools(tokens).index_of(listing);
                assert(book.registry[tokens][j].0 == pair);
                assert(book.known.contains(pair));
            } else {
                let j = extra.pools(tokens).index_of(listing);
                assert(extra.registry[tokens][j].0 == pair);
                assert(extra.known.contains(pair));
            }
        }
    }
}

/// A merged book lists what either book lists, and nothing else; the pools of
/// the first book keep their places.
pub proof fn merging_loses_nothing(
    book: BookModel,
    extra: BookModel,
    tokens: (Seq<u8>, Seq<u8>),
    listing: (Seq<u8>, Seq<char>),
)
    ensures
        book.merged(extra).pools(tokens).contains(listing) <==> (book.pools(tokens).contains(
            listing,
        ) || extra.pools(tokens).contains(listing)),
        book.pools(tokens).is_prefix_of(book.merged(extra).pools(tokens)),
{
    lemma_joined(book.pools(tokens), extra.pools(tokens));
    let after = book.merged(extra).pools(tokens);
    if after.contains(listing) {
        let i = after.index_of(listing);
        assert(book.merged(extra).registry.dom().contains(tokens));
        assert(book.merged(extra).registry[tokens][i].0 == listing.0);
    }
}

/// Merging repeats no pool under the same exchange.
pub proof fn merging_repeats_nothing(
    book: BookModel,
    extra: BookModel,
    tokens: (Seq<u8>, Seq<u8>),
)
    requires
        book.pools(tokens).no_duplicates(),
    ensures
        book.merged(extra).pools(tokens).no_duplicates(),
{
    lemma_joined(book.pools(tokens), extra.pools(tokens));
}

pub(crate) proof fn lemma_one_more<T>(list: Seq<T>, i: int)
    requires
        0 <= i < list.len(),
    ensures
        forall|x: T| #[trigger]
            list.take(i + 1).contains(x) <==> (list.take(i).contains(x) || x == list[i]),
        list.no_duplicates() ==> !list.take(i).contains(list[i]),
{
    assert(list.take(i + 1) =~= list.take(i).push(list[i]));
    assert forall|x: T| list.take(i).contains(x) || x == list[i] implies #[trigger] list.take(
        i + 1,
    ).contains(x) by {
        if x == list[i] {
            assert(list.take(i + 1)[i] == x);
        } else {
            let j = list.take(i).index_of(x);
            assert(list.take(i + 1)[j] == x);
        }
    }
}

/// An added pool is known, has its exchange, and comes last among the pools of its
/// tokens, in whichever order they are named; the pools of other tokens and the
/// exchanges of other pools stay.
pub proof fn added_pool_comes_last(
    book: BookModel,
    entry: PairEntry,
    tokens: (Seq<u8>, Seq<u8>),
    other: Seq<u8>,
)
    ensures
        ({
            let after = book.with(entry);
            let key = in_order(entry.token0, entry.token1);
            &&& after.known.contains(entry.pair)
            &&& after.dex.dom().contains(entry.pair) && after.dex[entry.pair] == entry.dex
            &&& after.pools(key).len() == book.pools(key).len() + 1
            &&& after.pools(key).last() == (entry.pair, entry.dex)
            &&& after.pools(key).drop_last() =~= book.pools(key)
            &&& after.registry.dom() =~= book.registry.dom().insert(key)
            &&& tokens != key ==> after.pools(tokens) == book.pools(tokens)
            &&& other != entry.pair ==> {
                &&& after.known.contains(other) <==> book.known.contains(other)
                &&& after.dex.dom().contains(other) <==> book.dex.dom().contains(other)
                &&& book.dex.dom().contains(other) ==> after.dex[other] == book.dex[other]
            }
        }),
{
}

/// A book of pools that were added one after the other lists each of them under its
/// tokens, and nothing else; a pool has the exchange that it was last added with.
pub proof fn book_lists_what_was_added(entries: Seq<PairEntry>, i: int)
    requires
        0 <= i < entries.len(),
    ensures
        ({
            let book = BookModel::empty().with_all(entries);
            let e = entries[i];
            &&& book.known.contains(e.pair)
            &&& book.pools(in_order(e.token0, e.token1)).contains((e.pair, e.dex))
            &&& book.dex.dom().contains(e.pair)
            &&& (forall|k: int| i < k < entries.len() ==> (#[trigger] entries[k]).pair != e.pair)
                ==> book.dex[e.pair] == e.dex
        }),
    decreases entries.len(),
{
    let n = entries.len() - 1;
    let rest = entries.drop_last();
    let before = BookModel::empty().with_all(rest);
    let book = before.with(entries.last());
    let e = entries[i];
    let key = in_order(e.token0, e.token1);
    let last_key = in_order(entries.last().token0, entries.last().token1);
    if i < n {
        assert(rest[i] == e);
        book_lists_what_was_added(rest, i);
        let k = before.pools(key).index_of((e.pair, e.dex));
        assert(book.pools(key)[k] == (e.pair, e.dex));
        if forall|k: int| i < k < entries.len() ==> (#[trigger] entries[k]).pair != e.pair {
            assert(entries[n].pair != e.pair);
            assert forall|k: int| i < k < rest.len() implies (#[trigger] rest[k]).pair
                != e.pair by {
                assert(rest[k] == entries[k]);
            }
        }
    } else {
        assert(book.pools(key)[before.pools(key).len() as int] == (e.pair, e.dex));
    }
}

/// Every pool that a book lists under some tokens, or knows, was added to it.
pub proof fn book_lists_nothing_else(
    entries: Seq<PairEntry>,
    tokens: (Seq<u8>, Seq<u8>),
    listing: (Seq<u8>, Seq<char>),
)
    ensures
        BookModel::empty().with_all(entries).pools(tokens).contains(listing) ==> exists|i: int|
            0 <= i < entries.len() && (#[trigger] entries[i]).pair == listing.0 && entries[i].dex
                == listing.1 && in_order(entries[i].token0, entries[i].token1) == tokens,
        BookModel::empty().with_all(entries).known.contains(listing.0) ==> exists|i: int|
            0 <= i < entries.len() && (#[trigger] entries[i]).pair == listing.0,
    decreases entries.len(),
{
    if entries.len() > 0 {
        let rest = entries.drop_last();
        let before = BookModel::empty().with_all(rest);
        let n = entries.len() - 1;
        book_lists_nothing_else(rest, tokens, listing);
        assert(entries[n] == entries.last());
        let key = in_order(entries[n].token0, entries[n].token1);
        if before.pools(tokens).contains(listing) {
            let i = choose|i: int|
                0 <= i < rest.len() && (#[trigger] rest[i]).pair == listing.0 && rest[i].dex
                    == listing.1 && in_order(rest[i].token0, rest[i].token1) == tokens;
            assert(entries[i] == rest[i]);
        } else if BookModel::empty().with_all(entries).pools(tokens).contains(listing) {
            if tokens == key {
                lemma_pushed(before.pools(key), (entries[n].pair, entries[n].dex), listing);
            }
        }
        if before.known.contains(listing.0) {
            let i = choose|i: int| 0 <= i < rest.len() && (#[trigger] rest[i]).pair == listing.0;
            assert(entries[i] == rest[i]);
        }
    }
}

/// The pools of a pair of tokens come in the order in which they were added: one that
/// is added earlier comes first.
pub proof fn pools_keep_the_order_of_adding(
    book: BookModel,
    entries: Seq<PairEntry>,
    tokens: (Seq<u8>, Seq<u8>),
)
    ensures
        book.pools(tokens).is_prefix_of(book.with_all(entries).pools(tokens)),
    decreases entries.len(),
{
    if entries.len() == 0 {
        assert(book.pools(tokens).is_prefix_of(book.pools(tokens)));
    } else {
        pools_keep_the_order_of_adding(book, entries.drop_last(), tokens);
        let before = book.with_all(entries.drop_last());
        let key = in_order(entries.last().token0, entries.last().token1);
        let (a, b) = (before.pools(tokens), before.with(entries.last()).pools(tokens));
        assert(b =~= a || b =~= a.push((entries.last().pair, entries.last().dex)));
        assert(book.pools(tokens) =~= b.subrange(0, book.pools(tokens).len() as int));
    }
}

/// A merged book knows the pools of both, and has of each pool the exchange that the
/// other book has, or else the one that the first book had.
pub proof fn other_exchange_holds(book: BookModel, extra: BookModel, pair: Seq<u8>)
    ensures
        ({
            let after = book.merged(extra);
            &&& after.known.contains(pair) <==> book.known.contains(pair) || extra.known.contains(
                pair,
            )
            &&& after.dex.dom().contains(pair) <==> book.dex.dom().contains(pair)
                || extra.dex.dom().contains(pair)
            &&& extra.dex.dom().contains(pair) ==> after.dex[pair] == extra.dex[pair]
            &&& !extra.dex.dom().contains(pair) && book.dex.dom().contains(pair)
                ==> after.dex[pair] == book.dex[pair]
        }),
{
}

/// Merging a book into one of other tokens keeps the lists of both as they are, and
/// merging a book into itself or into one that holds it changes no list.
pub proof fn merging_is_no_reordering(
    book: BookModel,
    extra: BookModel,
    tokens: (Seq<u8>, Seq<u8>),
)
    ensures
        !extra.registry.dom().contains(tokens) ==> book.merged(extra).pools(tokens) == book.pools(
            tokens,
        ),
        !book.registry.dom().contains(tokens) && extra.pools(tokens).no_duplicates()
            ==> book.merged(extra).pools(tokens) == extra.pools(tokens),
        (forall|k: int|
            0 <= k < extra.pools(tokens).len() ==> book.pools(tokens).contains(
                #[trigger] extra.pools(tokens)[k],
            )) ==> book.merged(extra).pools(tokens) == book.pools(tokens),
{
    lemma_joined_nothing(book.pools(tokens), extra.pools(tokens));
    lemma_joined_fresh(extra.pools(tokens));
}

proof fn lemma_joined_nothing<T>(list: Seq<T>, more: Seq<T>)
    ensures
        (forall|k: int| 0 <= k < more.len() ==> list.contains(#[trigger] more[k])) ==> joined(
            list,
            more,
        ) == list,
    decreases more.len(),
{
    if more.len() > 0 && forall|k: int| 0 <= k < more.len() ==> list.contains(#[trigger] more[k]) {
        let rest = more.drop_last();
        assert forall|k: int| 0 <= k < rest.len() implies list.contains(#[trigger] rest[k]) by {
            assert(rest[k] == more[k]);
        }
        lemma_joined_nothing(list, rest);
        assert(list.contains(more[more.len() - 1]));
    }
}

proof fn lemma_joined_fresh<T>(more: Seq<T>)
    ensures
        more.no_duplicates() ==> joined(Seq::empty(), more) == more,
    decreases more.len(),
{
    if more.len() == 0 {
        assert(more =~= Seq::empty());
    } else if more.no_duplicates() {
        let rest = more.drop_last();
        lemma_joined_fresh(rest);
        if rest.contains(more.last()) {
            let k = rest.index_of(more.last());
            assert(more[k] == more[more.len() - 1]);
        }
        assert(rest.push(more.last()) =~= more);
    }
}

/// A pool that is written as its address, its two tokens and its exchange, with colons
/// between them, is read as that pool.
pub proof fn written_pool_is_read(pair: Address, token0: Address, token1: Address, dex: Seq<char>)
    requires
        dex.len() > 0,
        !dex.contains(':'),
    ensures
        ({
            let text = (hex_bytes(pair@).push(':') + hex_bytes(token0@).push(':') + hex_bytes(
                token1@,
            ).push(':')) + dex;
            pair_entry(text) == Some(
                PairEntry { pair: pair@, token0: token0@, token1: token1@, dex },
            )
        }),
{
    let (a, b, c) = (hex_bytes(pair@), hex_bytes(token0@), hex_bytes(token1@));
    let text = (a.push(':') + b.push(':') + c.push(':')) + dex;
    lemma_no_colon(pair);
    lemma_no_colon(token0);
    lemma_no_colon(token1);
    last_piece_follows_the_last_separator(a, a, ':');
    last_piece_follows_the_last_separator(a, b, ':');
    last_piece_follows_the_last_separator(a.push(':') + b, c, ':');
    last_piece_follows_the_last_separator((a.push(':') + b).push(':') + c, dex, ':');
    assert(((a.push(':') + b).push(':') + c).push(':') + dex =~= text);
    assert(pieces(text, ':') =~= seq![a, b, c, dex]);
    written_address_is_spelled(pair);
    written_address_is_spelled(token0);
    written_address_is_spelled(token1);
}

/// A router is read from its address and its exchange, and a factory from its exchange
/// and its address, each with a colon between them.
pub proof fn written_router_and_factory_are_read(address: Address, dex: Seq<char>)
    requires
        dex.len() > 0,
        !dex.contains(':'),
    ensures
        router_entry(hex_bytes(address@).push(':') + dex) == Some((address@, dex)),
        factory_entry(dex.push(':') + hex_bytes(address@)) == Some((dex, address@)),
{
    let a = hex_bytes(address@);
    lemma_no_colon(address);
    last_piece_follows_the_last_separator(a, a, ':');
    last_piece_follows_the_last_separator(dex, dex, ':');
    last_piece_follows_the_last_separator(a, dex, ':');
    last_piece_follows_the_last_separator(dex, a, ':');
    written_address_is_spelled(address);
    assert(pieces(a.push(':') + dex, ':') =~= seq![a, dex]);
    assert(pieces(dex.push(':') + a, ':') =~= seq![dex, a]);
}

proof fn lemma_no_colon(a: Address)
    ensures
        !hex_bytes(a@).contains(':'),
{
    let digits = hex_bytes(a@);
    written_address_is_spelled(a);
    only_forty_digits_are_an_address(digits);
    if digits.contains(':') {
        let k = digits.index_of(':');
        assert(digits[k] == ':');
    }
}

/// A text with another number of parts, without an exchange, or with a part in the
/// place of an address that is none, names no pool, no router and no factory.
pub proof fn malformed_entries_are_ignored(text: Seq<char>)
    ensures
        ({
            let parts = pieces(text, ':');
            &&& pair_entry(text) is Some <==> parts.len() == 4 && parts[3].len() != 0
                && spelled_address(parts[0]) is Some && spelled_address(parts[1]) is Some
                && spelled_address(parts[2]) is Some
            &&& router_entry(text) is Some <==> parts.len() == 2 && parts[1].len() != 0
                && spelled_address(parts[0]) is Some
            &&& factory_entry(text) is Some <==> parts.len() == 2 && parts[0].len() != 0
                && spelled_address(parts[1]) is Some
        }),
{
}

/// The pools of a list of texts are those that each of them names, in order: what two
/// lists name is what the one and then the other one names.
pub proof fn each_text_names_its_pool(first: Seq<Seq<char>>, second: Seq<Seq<char>>, text: Seq<char>)
    ensures
        pair_entries(first + second) == pair_entries(first) + pair_entries(second),
        pair_entry(text) matches Some(entry) ==> pair_entries(seq![text]) == seq![entry],
        pair_entry(text) is None ==> pair_entries(seq![text]).len() == 0,
    decreases second.len(),
{
    reveal_with_fuel(pair_entries, 2);
    assert(seq![text].drop_last() =~= Seq::empty());
    if let Some(entry) = pair_entry(text) {
        assert(pair_entries(seq![text]) =~= seq![entry]);
    }
    if second.len() == 0 {
        assert(first + second =~= first);
        assert(pair_entries(first) + pair_entries(second) =~= pair_entries(first));
    } else {
        each_text_names_its_pool(first, second.drop_last(), text);
        assert((first + second).drop_last() =~= first + second.drop_last());
        assert((first + second).last() == second.last());
        assert(pair_entries(first + second) =~= pair_entries(first) + pair_entries(second));
    }
}

/// The tokens of a list of texts are those that each of them spells, blanks aside, in
/// order.
pub proof fn each_text_spells_its_token(
    first: Seq<Seq<char>>,
    second: Seq<Seq<char>>,
    text: Seq<char>,
)
    ensures
        token_entries(first + second) == token_entries(first) + token_entries(second),
        spelled_address(trimmed(text)) matches Some(token) ==> token_entries(seq![text])
            == seq![token],
        spelled_address(trimmed(text)) is None ==> token_entries(seq![text]).len() == 0,
    decreases second.len(),
{
    reveal_with_fuel(token_entries, 2);
    assert(seq![text].drop_last() =~= Seq::empty());
    if let Some(token) = spelled_address(trimmed(text)) {
        assert(token_entries(seq![text]) =~= seq![token]);
    }
    if second.len() == 0 {
        assert(first + second =~= first);
        assert(token_entries(first) + token_entries(second) =~= token_entries(first));
    } else {
        each_text_spells_its_token(first, second.drop_last(), text);
        assert((first + second).drop_last() =~= first + second.drop_last());
        assert((first + second).last() == second.last());
        assert(token_entries(first + second) =~= token_entries(first) + token_entries(second));
    }
}

/// A router has the exchange that the last text which names it gives it; one that no
/// text names has none.
pub proof fn last_named_exchange_holds(list: Seq<Seq<char>>, router: Seq<u8>, i: int)
    requires
        0 <= i < list.len(),
        router_entry(list[i]) matches Some(entry) && entry.0 == router,
        forall|k: int|
            i < k < list.len() ==> !(router_entry(#[trigger] list[k]) matches Some(entry) && entry.0
                == router),
    ensures
        router_entries(list).dom().contains(router),
        router_entry(list[i]) == Some((router, router_entries(list)[router])),
    decreases list.len(),
{
    let n = list.len() - 1;
    assert(list[n] == list.last());
    if i < n {
        let rest = list.drop_last();
        assert(rest[i] == list[i]);
        assert forall|k: int| i < k < rest.len() implies !(router_entry(
            #[trigger] rest[k],
        ) matches Some(entry) && entry.0 == router) by {
            assert(rest[k] == list[k]);
        }
        last_named_exchange_holds(rest, router, i);
    }
}

/// An exchange has the factory that the last text which names it gives it.
pub proof fn last_named_factory_holds(list: Seq<Seq<char>>, dex: Seq<char>, i: int)
    requires
        0 <= i < list.len(),
        factory_entry(list[i]) matches Some(entry) && entry.0 == dex,
        forall|k: int|
            i < k < list.len() ==> !(factory_entry(#[trigger] list[k]) matches Some(entry)
                && entry.0 == dex),
    ensures
        factory_entries(list).dom().contains(dex),
        factory_entry(list[i]) == Some((dex, factory_entries(list)[dex])),
    decreases list.len(),
{
    let n = list.len() - 1;
    assert(list[n] == list.last());
    if i < n {
        let rest = list.drop_last();
        assert(rest[i] == list[i]);
        assert forall|k: int| i < k < rest.len() implies !(factory_entry(
            #[trigger] rest[k],
        ) matches Some(entry) && entry.0 == dex) by {
            assert(rest[k] == list[k]);
        }
        last_named_factory_holds(rest, dex, i);
    }
}

/// Only routers and exchanges that some text names are known.
pub proof fn only_named_ones_are_known(list: Seq<Seq<char>>, router: Seq<u8>, dex: Seq<char>)
    ensures
        router_entries(list).dom().contains(router) ==> exists|i: int|
            0 <= i < list.len() && (router_entry(#[trigger] list[i]) matches Some(entry) && entry.0
                == router),
        factory_entries(list).dom().contains(dex) ==> exists|i: int|
            0 <= i < list.len() && (factory_entry(#[trigger] list[i]) matches Some(entry)
                && entry.0 == dex),
    decreases list.len(),
{
    if list.len() > 0 {
        let rest = list.drop_last();
        only_named_ones_are_known(rest, router, dex);
        assert(list[list.len() - 1] == list.last());
        if router_entries(rest).dom().contains(router) {
            let i = choose|i: int|
                0 <= i < rest.len() && (router_entry(#[trigger] rest[i]) matches Some(entry)
                    && entry.0 == router);
            assert(list[i] == rest[i]);
        }
        if factory_entries(rest).dom().contains(dex) {
            let i = choose|i: int|
                0 <= i < rest.len() && (factory_entry(#[trigger] rest[i]) matches Some(entry)
                    && entry.0 == dex);
            assert(list[i] == rest[i]);
        }
    }
}

/// `parse_known_pairs` reads each text between commas that names a pool: the pool is
/// known, listed under its tokens and has its exchange. Every pool that is listed comes
/// from such a text.
pub proof fn parsed_pools_are_those_named(
    raw: &str,
    r: PairBook,
    i: int,
    tokens: (Seq<u8>, Seq<u8>),
    listing: (Seq<u8>, Seq<char>),
)
    requires
        call_ensures(parse_known_pairs, (raw,), r),
        0 <= i < pieces(raw@, ',').len(),
    ensures
        pair_entry(pieces(raw@, ',')[i]) matches Some(e) ==> {
            &&& r.model().known.contains(e.pair)
            &&& r.model().dex.dom().contains(e.pair)
            &&& r.model().pools(in_order(e.token0, e.token1)).contains((e.pair, e.dex))
        },
        r.model().pools(tokens).contains(listing) ==> exists|k: int|
            0 <= k < pieces(raw@, ',').len() && (pair_entry(
                #[trigger] pieces(raw@, ',')[k],
            ) matches Some(e) && e.pair == listing.0 && e.dex == listing.1 && in_order(
                e.token0,
                e.token1,
            ) == tokens),
{
    let list = pieces(raw@, ',');
    let entries = pair_entries(list);
    if let Some(e) = pair_entry(list[i]) {
        let k = lemma_entry_is_kept(list, i);
        book_lists_what_was_added(entries, k);
    }
    if r.model().pools(tokens).contains(listing) {
        book_lists_nothing_else(entries, tokens, listing);
        let k = choose|k: int|
            0 <= k < entries.len() && (#[trigger] entries[k]).pair == listing.0 && entries[k].dex
                == listing.1 && in_order(entries[k].token0, entries[k].token1) == tokens;
        let j = lemma_entry_comes_from(list, k);
        assert(pair_entry(list[j]) == Some(entries[k]));
    }
}

proof fn lemma_entry_is_kept(list: Seq<Seq<char>>, i: int) -> (k: int)
    requires
        0 <= i < list.len(),
        pair_entry(list[i]) is Some,
    ensures
        0 <= k < pair_entries(list).len(),
        Some(pair_entries(list)[k]) == pair_entry(list[i]),
    decreases list.len(),
{
    let rest = list.drop_last();
    if i == list.len() - 1 {
        pair_entries(rest).len() as int
    } else {
        assert(rest[i] == list[i]);
        lemma_entry_is_kept(rest, i)
    }
}

proof fn lemma_entry_comes_from(list: Seq<Seq<char>>, k: int) -> (i: int)
    requires
        0 <= k < pair_entries(list).len(),
    ensures
        0 <= i < list.len(),
        pair_entry(list[i]) == Some(pair_entries(list)[k]),
    decreases list.len(),
{
    let rest = list.drop_last();
    if k < pair_entries(rest).len() {
        let i = lemma_entry_comes_from(rest, k);
        assert(rest[i] == list[i]);
        i
    } else {
        list.len() - 1
    }
}

/// `parse_known_routers` and `parse_dex_factories` read each text between commas; the
/// last one that names a router or an exchange holds.
pub proof fn parsed_routers_and_factories_are_those_named(
    raw: &str,
    routers: RouterDexMap,
    factories: DexFactoryMap,
    i: int,
    router: Seq<u8>,
    dex: Seq<char>,
)
    requires
        call_ensures(parse_known_routers, (raw,), routers),
        call_ensures(parse_dex_factories, (raw,), factories),
        0 <= i < pieces(raw@, ',').len(),
    ensures
        ({
            let list = pieces(raw@, ',');
            &&& (router_entry(list[i]) matches Some(e) && e.0 == router) && (forall|k: int|
                i < k < list.len() ==> !(router_entry(#[trigger] list[k]) matches Some(e) && e.0
                    == router)) ==> routers@.dom().contains(router) && router_entry(list[i])
                == Some((router, routers@[router]@))
            &&& (factory_entry(list[i]) matches Some(e) && e.0 == dex) && (forall|k: int|
                i < k < list.len() ==> !(factory_entry(#[trigger] list[k]) matches Some(e) && e.0
                    == dex)) ==> factories@.dom().contains(dex) && factory_entry(list[i]) == Some(
                (dex, factories@[dex]@),
            )
        }),
{
    let list = pieces(raw@, ',');
    if (router_entry(list[i]) matches Some(e) && e.0 == router) && (forall|k: int|
        i < k < list.len() ==> !(router_entry(#[trigger] list[k]) matches Some(e) && e.0
            == router)) {
        last_named_exchange_holds(list, router, i);
        assert(named(routers@).dom().contains(router));
    }
    if (factory_entry(list[i]) matches Some(e) && e.0 == dex) && (forall|k: int|
        i < k < list.len() ==> !(factory_entry(#[trigger] list[k]) matches Some(e) && e.0
            == dex)) {
        last_named_factory_holds(list, dex, i);
        assert(located(factories@).dom().contains(dex));
    }
}

/// `parse_token_list` reads each text between commas that spells an address, blanks
/// aside, and nothing else.
pub proof fn parsed_tokens_are_those_spelled(raw: &str, r: Vec<Address>, i: int, token: Address)
    requires
        call_ensures(parse_token_list, (raw,), r),
        0 <= i < pieces(raw@, ',').len(),
    ensures
        spelled_address(trimmed(pieces(raw@, ',')[i])) matches Some(a) ==> addresses(r@).contains(
            a,
        ),
        addresses(r@).contains(token@) ==> exists|k: int|
            0 <= k < pieces(raw@, ',').len() && spelled_address(
                trimmed(#[trigger] pieces(raw@, ',')[k]),
            ) == Some(token@),
        r@.len() <= pieces(raw@, ',').len(),
{
    let list = pieces(raw@, ',');
    lemma_token_entries(list, i, token@);
}

proof fn lemma_token_entries(list: Seq<Seq<char>>, i: int, token: Seq<u8>)
    ensures
        0 <= i < list.len() ==> (spelled_address(trimmed(list[i])) matches Some(a)
            ==> token_entries(list).contains(a)),
        token_entries(list).contains(token) ==> exists|k: int|
            0 <= k < list.len() && spelled_address(trimmed(#[trigger] list[k])) == Some(token),
        token_entries(list).len() <= list.len(),
    decreases list.len(),
{
    if list.len() > 0 {
        let rest = list.drop_last();
        let n = list.len() - 1;
        lemma_token_entries(rest, i, token);
        assert(list[n] == list.last());
        let before = token_entries(rest);
        if 0 <= i < list.len() {
            if let Some(a) = spelled_address(trimmed(list[i])) {
                if i < n {
                    assert(rest[i] == list[i]);
                    let k = before.index_of(a);
                    assert(token_entries(list)[k] == a);
                } else {
                    assert(token_entries(list)[before.len() as int] == a);
                }
            }
        }
        if token_entries(list).contains(token) {
            let k = token_entries(list).index_of(token);
            if k < before.len() {
                assert(before[k] == token);
                let j = choose|j: int|
                    0 <= j < rest.len() && spelled_address(trimmed(#[trigger] rest[j])) == Some(
                        token,
                    );
                assert(list[j] == rest[j]);
            } else {
                assert(spelled_address(trimmed(list[n])) == Some(token));
            }
        }
    }
}

} // verus!
