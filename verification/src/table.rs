//! Associative tables.
use vstd::prelude::*;

verus! {

/// A key of a table: values that can be compared for equality.
pub trait Key: View + Sized {
    /// Whether two keys are the same.
    fn same(&self, other: &Self) -> (r: bool)
        ensures
            r == (self@ == other@),
    ;
}

impl Key for String {
    fn same(&self, other: &String) -> (r: bool) {
        *self == *other
    }
}

/// The map that gives each key the value at its place.
pub open spec fn entries_map<K, V>(keys: Seq<K>, values: Seq<V>) -> Map<K, V> {
    Map::new(|k: K| keys.contains(k), |k: K| values[keys.index_of(k)])
}

/// A table from keys to values, in the order in which the keys first came.
pub struct Table<K: Key, V> {
    keys: Vec<K>,
    values: Vec<V>,
}

impl<K: Key, V> View for Table<K, V> {
    type V = Map<K::V, V>;

    open spec fn view(&self) -> Map<K::V, V> {
        entries_map(self.key_list(), self.value_list())
    }
}

impl<K: Key, V> Table<K, V> {
    /// The keys, in order.
    pub closed spec fn key_list(&self) -> Seq<K::V> {
        self.keys@.map_values(|k: K| k@)
    }

    /// The values, in the order of their keys.
    pub closed spec fn value_list(&self) -> Seq<V> {
        self.values@
    }

    /// No key occurs twice, and each has one value.
    #[verifier::type_invariant]
    pub open spec fn wf(&self) -> bool {
        &&& self.key_list().len() == self.value_list().len()
        &&& self.key_list().no_duplicates()
    }

    /// The entry at a place of the table is an entry of its map.
    pub proof fn lemma_entry(&self, i: int)
        requires
            self.wf(),
            0 <= i < self.key_list().len(),
        ensures
            self@.dom().contains(self.key_list()[i]),
            self@[self.key_list()[i]] == self.value_list()[i],
    {
        let k = self.key_list()[i];
        assert(self.key_list().contains(k));
        assert(self.key_list().index_of(k) == i);
    }

    /// A table without entries.
    pub fn new() -> (r: Table<K, V>)
        ensures
            r.key_list() == Seq::<K::V>::empty(),
            r.value_list() == Seq::<V>::empty(),
            r@ == Map::<K::V, V>::empty(),
    {
        let keys: Vec<K> = Vec::new();
        assert(keys@.map_values(|k: K| k@) =~= Seq::empty());
        let r = Table { keys, values: Vec::new() };
        assert(r@ =~= Map::empty());
        r
    }

    /// The number of entries.
    pub fn len(&self) -> (r: usize)
        ensures
            r == self.key_list().len(),
            r == self.value_list().len(),
    {
        proof {
            use_type_invariant(self);
        }
        self.keys.len()
    }

    /// The key at a place.
    pub fn key_at(&self, i: usize) -> (r: &K)
        requires
            i < self.key_list().len(),
        ensures
            r@ == self.key_list()[i as int],
    {
        &self.keys[i]
    }

    /// The value at a place.
    pub fn value_at(&self, i: usize) -> (r: &V)
        requires
            i < self.key_list().len(),
        ensures
            *r == self.value_list()[i as int],
    {
        proof {
            use_type_invariant(self);
        }
        &self.values[i]
    }

    fn find(&self, key: &K) -> (r: Option<usize>)
        ensures
            match r {
                Some(i) => i < self.key_list().len() && self.key_list()[i as int] == key@,
                None => !self.key_list().contains(key@),
            },
    {
        let mut i: usize = 0;
        while i < self.keys.len()
            invariant
                i <= self.keys@.len(),
                forall|j: int| 0 <= j < i ==> self.key_list()[j] != key@,
            decreases self.keys@.len() - i,
        {
            if self.keys[i].same(key) {
                return Some(i);
            }
            i = i + 1;
        }
        None
    }

    /// The value of a key.
    pub fn get(&self, key: &K) -> (r: Option<&V>)
        ensures
            match r {
                Some(v) => self@.dom().contains(key@) && *v == self@[key@],
                None => !self@.dom().contains(key@),
            },
    {
        match self.find(key) {
            Some(i) => {
                proof {
                    use_type_invariant(self);
                    self.lemma_entry(i as int);
                }
                Some(&self.values[i])
            },
            None => None,
        }
    }

    /// Whether the table has the key.
    pub fn contains_key(&self, key: &K) -> (r: bool)
        ensures
            r == self@.dom().contains(key@),
    {
        self.find(key).is_some()
    }

    /// Gives the key a value, in place of the one it had.
    pub fn insert(&mut self, key: K, value: V)
        ensures
            final(self)@ == old(self)@.insert(key@, value),
            final(self).key_list() == (if old(self)@.dom().contains(key@) {
                old(self).key_list()
            } else {
                old(self).key_list().push(key@)
            }),
            final(self).value_list() == (if old(self)@.dom().contains(key@) {
                old(self).value_list().update(old(self).key_list().index_of(key@), value)
            } else {
                old(self).value_list().push(value)
            }),
    {
        let ghost before = *self;
        let ghost k = key@;
        proof {
            use_type_invariant(&*self);
        }
        let found = self.find(&key);
        let (mut keys, mut values) = self.take();
        match found {
            Some(i) => {
                values.set(i, value);
                assert(before.key_list().index_of(k) == i);
            },
            None => {
                keys.push(key);
                values.push(value);
                assert(keys@.map_values(|k: K| k@) =~= before.key_list().push(k));
            },
        }
        *self = Table { keys, values };
        proof {
            lemma_entry_added(before.key_list(), before.value_list(), k, value);
        }
    }

    fn take(&mut self) -> (r: (Vec<K>, Vec<V>))
        ensures
            r.0@.map_values(|k: K| k@) == old(self).key_list(),
            r.1@ == old(self).value_list(),
    {
        let mut whole: Table<K, V> = Table::new();
        std::mem::swap(self, &mut whole);
        let Table { keys, values } = whole;
        (keys, values)
    }
}

/// An entry that is put into the lists of a table is put into its map.
proof fn lemma_entry_added<K, V>(keys: Seq<K>, values: Seq<V>, k: K, value: V)
    requires
        keys.len() == values.len(),
        keys.no_duplicates(),
    ensures
        entries_map(keys, values).insert(k, value) == (if keys.contains(k) {
            entries_map(keys, values.update(keys.index_of(k), value))
        } else {
            entries_map(keys.push(k), values.push(value))
        }),
{
    let before = entries_map(keys, values);
    if keys.contains(k) {
        assert(before.insert(k, value) =~= entries_map(
            keys,
            values.update(keys.index_of(k), value),
        ));
    } else {
        let longer = keys.push(k);
        let after = entries_map(longer, values.push(value));
        assert(longer[keys.len() as int] == k);
        assert forall|x: K| after.dom().contains(x) == before.insert(k, value).dom().contains(
            x,
        ) by {
            if longer.contains(x) {
                let j = longer.index_of(x);
                if j < keys.len() {
                    assert(keys[j] == x);
                }
            }
            if keys.contains(x) {
                assert(longer[keys.index_of(x)] == x);
            }
        }
        assert forall|x: K| after.dom().contains(x) implies after[x] == before.insert(
            k,
            value,
        )[x] by {
            if x != k {
                assert(longer[keys.index_of(x)] == x);
            }
        }
        assert(after =~= before.insert(k, value));
    }
}

impl<K: Key, T> Table<K, Vec<T>> {
    /// Gives the key an empty list where it has none.
    pub fn open_list(&mut self, key: K)
        ensures
            final(self)@.dom() == old(self)@.dom().insert(key@),
            final(self)@[key@]@ == (if old(self)@.dom().contains(key@) {
                old(self)@[key@]@
            } else {
                Seq::empty()
            }),
            forall|k: K::V|
                k != key@ && #[trigger] old(self)@.dom().contains(k) ==> final(self)@[k] == old(
                    self,
                )@[k],
            final(self).key_list() == (if old(self)@.dom().contains(key@) {
                old(self).key_list()
            } else {
                old(self).key_list().push(key@)
            }),
    {
        if !self.contains_key(&key) {
            let list: Vec<T> = Vec::new();
            self.insert(key, list);
        } else {
            assert(self@.dom() =~= self@.dom().insert(key@));
        }
    }

    /// Appends an item to the list of the key, which starts empty.
    pub fn push_to(&mut self, key: K, item: T)
        ensures
            final(self)@.dom() == old(self)@.dom().insert(key@),
            final(self)@[key@]@ == (if old(self)@.dom().contains(key@) {
                old(self)@[key@]@.push(item)
            } else {
                seq![item]
            }),
            forall|k: K::V|
                k != key@ && #[trigger] old(self)@.dom().contains(k) ==> final(self)@[k] == old(
                    self,
                )@[k],
            final(self).key_list() == (if old(self)@.dom().contains(key@) {
                old(self).key_list()
            } else {
                old(self).key_list().push(key@)
            }),
    {
        let ghost before = *self;
        let ghost k = key@;
        proof {
            use_type_invariant(&*self);
        }
        match self.find(&key) {
            Some(i) => {
                proof {
                    before.lemma_entry(i as int);
                }
                let (keys, mut values) = self.take();
                let list = &mut values[i];
                list.push(item);
                *self = Table { keys, values };
                assert(before.key_list().index_of(k) == i);
                assert(self@.dom() =~= before@.dom().insert(k));
            },
            None => {
                let mut list: Vec<T> = Vec::new();
                list.push(item);
                self.insert(key, list);
            },
        }
    }
}

} // verus!
