//! Small maps and sets kept in vectors, for keys that can only be compared.
use vstd::prelude::*;
use vstd::std_specs::cmp::PartialEqSpecImpl;
use crate::assoc::{distinct_keys, has_key, to_map, lemma_to_map_dom, lemma_to_map_entry, lemma_to_map_len, lemma_to_map_push, lemma_to_map_remove, lemma_to_map_update, lemma_distinct_push};
use crate::util::EncSysType;

verus! {

/// A key with its value.
#[derive(Debug)]
pub struct Entry<K, V> {
    pub key: K,
    pub value: V,
}

/// The entries of a sequence as pairs of a key's view and a value.
pub open spec fn entry_pairs<K: View, V>(entries: Seq<Entry<K, V>>) -> Seq<(K::V, V)> {
    entries.map_values(|e: Entry<K, V>| (e.key@, e.value))
}

/// A map from keys to values, in which each key has at most one value.
#[derive(Debug)]
pub struct VecMap<K: EncSysType, V> {
    entries: Vec<Entry<K, V>>,
}

impl<K: EncSysType, V> View for VecMap<K, V> {
    type V = Map<K::V, V>;

    closed spec fn view(&self) -> Map<K::V, V> {
        to_map(entry_pairs(self.entries@))
    }
}

impl<K: EncSysType, V> VecMap<K, V> {
    #[verifier::type_invariant]
    spec fn inv(&self) -> bool {
        distinct_keys(entry_pairs(self.entries@))
    }

    /// The entries of the map in the order in which it keeps them: each
    /// key once, with its value.
    pub closed spec fn pairs(&self) -> Seq<(K::V, V)> {
        entry_pairs(self.entries@)
    }

    /// Creates an empty map.
    pub fn new() -> (r: Self)
        ensures
            r@ == Map::<K::V, V>::empty(),
            r.pairs() == Seq::<(K::V, V)>::empty(),
    {
        VecMap { entries: Vec::new() }
    }

    /// The position of the entry of the given key, if there is one.
    fn find(&self, key: &K) -> (r: Option<usize>)
        ensures
            match r {
                Some(i) => i < self.entries@.len() && self.entries@[i as int].key@ == key@
                    && self@.contains_key(key@) && self@[key@] == self.entries@[i as int].value,
                None => !self@.contains_key(key@) && !has_key(self.pairs(), key@),
            },
    {
        proof {
            use_type_invariant(self);
            lemma_to_map_dom(entry_pairs(self.entries@), key@);
        }
        let mut k: usize = 0;
        while k < self.entries.len()
            invariant
                k <= self.entries@.len(),
                forall|i: int| 0 <= i < k ==> (#[trigger] entry_pairs(self.entries@)[i]).0 != key@,
            decreases self.entries@.len() - k,
        {
            if self.entries[k].key.same(key) {
                proof {
                    use_type_invariant(self);
                    lemma_to_map_entry(entry_pairs(self.entries@), k as int);
                }
                return Some(k);
            }
            k += 1;
        }
        None
    }

    /// Sets the value of a key.
    pub fn insert(&mut self, key: K, value: V)
        ensures
            final(self)@ == old(self)@.insert(key@, value),
    {
        proof {
            use_type_invariant(&*self);
        }
        let ghost pairs = entry_pairs(self.entries@);
        let found = self.find(&key);
        let mut entries: Vec<Entry<K, V>> = Vec::new();
        core::mem::swap(&mut self.entries, &mut entries);
        match found {
            Some(i) => {
                proof {
                    lemma_to_map_update(pairs, i as int, value);
                }
                entries.set(i, Entry { key, value });
                assert(entry_pairs(entries@) == pairs.update(i as int, (key@, value)));
            },
            None => {
                proof {
                    lemma_to_map_push(pairs, key@, value);
                    lemma_distinct_push(pairs, key@, value);
                }
                entries.push(Entry { key, value });
                assert(entry_pairs(entries@) == pairs.push((key@, value)));
            },
        }
        core::mem::swap(&mut self.entries, &mut entries);
    }

    /// Returns the value of a key, if it has one.
    pub fn get(&self, key: &K) -> (r: Option<&V>)
        ensures
            match r {
                Some(v) => self@.contains_key(key@) && *v == self@[key@],
                None => !self@.contains_key(key@),
            },
    {
        match self.find(key) {
            Some(i) => Some(&self.entries[i].value),
            None => None,
        }
    }

    /// Tells whether a key has a value.
    pub fn contains_key(&self, key: &K) -> (r: bool)
        ensures
            r == self@.contains_key(key@),
    {
        self.find(key).is_some()
    }

    /// Takes a key and its value out of the map.
    pub fn remove(&mut self, key: &K)
        ensures
            final(self)@ == old(self)@.remove(key@),
    {
        proof {
            use_type_invariant(&*self);
        }
        let ghost pairs = entry_pairs(self.entries@);
        match self.find(key) {
            Some(i) => {
                let mut entries: Vec<Entry<K, V>> = Vec::new();
                core::mem::swap(&mut self.entries, &mut entries);
                proof {
                    lemma_to_map_remove(pairs, i as int);
                }
                entries.remove(i);
                assert(entry_pairs(entries@) == pairs.remove(i as int));
                core::mem::swap(&mut self.entries, &mut entries);
            },
            None => {},
        }
    }

    /// Returns the number of keys. The entries hold each key once, and
    /// the map is the map of its entries.
    pub fn len(&self) -> (r: usize)
        ensures
            r == self@.len(),
            r == self.pairs().len(),
            distinct_keys(self.pairs()),
            self@ == to_map(self.pairs()),
    {
        proof {
            use_type_invariant(self);
            lemma_to_map_len(entry_pairs(self.entries@));
        }
        self.entries.len()
    }

    /// Tells whether the map has no keys.
    pub fn is_empty(&self) -> (r: bool)
        ensures
            r == (self@.len() == 0),
            r == (self@ == Map::<K::V, V>::empty()),
    {
        proof {
            use_type_invariant(self);
            lemma_to_map_len(entry_pairs(self.entries@));
        }
        self.entries.len() == 0
    }

    /// Returns the entry at a position in the order in which the map keeps
    /// its entries.
    pub fn entry_at(&self, i: usize) -> (r: &Entry<K, V>)
        requires
            i < self.pairs().len(),
        ensures
            (r.key@, r.value) == self.pairs()[i as int],
            self@.contains_key(r.key@),
            self@[r.key@] == r.value,
    {
        proof {
            use_type_invariant(self);
            lemma_to_map_entry(entry_pairs(self.entries@), i as int);
        }
        &self.entries[i]
    }
}

impl<K: EncSysType, V> VecMap<K, V> {
    /// Returns a cursor over the entries of the map, which yields each
    /// entry once.
    pub fn iter(&self) -> (r: VecMapIter<'_, K, V>)
        ensures
            r.order() == self.pairs(),
            distinct_keys(r.order()),
            to_map(r.order()) == self@,
            r.order().len() == self@.len(),
            r.position() == 0,
    {
        proof {
            use_type_invariant(self);
            lemma_to_map_len(entry_pairs(self.entries@));
        }
        VecMapIter { map: self, index: 0 }
    }
}

/// A cursor that goes through the entries of a map, each once.
pub struct VecMapIter<'a, K: EncSysType, V> {
    map: &'a VecMap<K, V>,
    index: usize,
}

impl<'a, K: EncSysType, V> VecMapIter<'a, K, V> {
    #[verifier::type_invariant]
    spec fn inv(&self) -> bool {
        self.index <= self.map.pairs().len()
    }

    /// The entries in the order in which the cursor yields them.
    pub closed spec fn order(&self) -> Seq<(K::V, V)> {
        self.map.pairs()
    }

    /// The number of entries that the cursor has yielded.
    pub closed spec fn position(&self) -> int {
        self.index as int
    }

    /// Returns the next entry, or `None` where all were yielded.
    pub fn next(&mut self) -> (r: Option<&'a Entry<K, V>>)
        ensures
            final(self).order() == old(self).order(),
            0 <= old(self).position() <= old(self).order().len(),
            match r {
                Some(e) => {
                    &&& old(self).position() < old(self).order().len()
                    &&& (e.key@, e.value) == old(self).order()[old(self).position()]
                    &&& final(self).position() == old(self).position() + 1
                },
                None => {
                    &&& old(self).position() == old(self).order().len()
                    &&& final(self).position() == old(self).position()
                },
            },
    {
        proof {
            use_type_invariant(&*self);
        }
        if self.index < self.map.len() {
            let e = self.map.entry_at(self.index);
            self.index = self.index + 1;
            Some(e)
        } else {
            None
        }
    }
}

/// A set of items, in which each item occurs at most once.
#[derive(Debug)]
pub struct VecSet<T: EncSysType> {
    map: VecMap<T, ()>,
}

impl<T: EncSysType> View for VecSet<T> {
    type V = Set<T::V>;

    closed spec fn view(&self) -> Set<T::V> {
        self.map@.dom()
    }
}

impl<T: EncSysType> VecSet<T> {
    /// The items of the set in the order in which it keeps them, each once.
    pub closed spec fn items(&self) -> Seq<T::V> {
        self.map.pairs().map_values(|p: (T::V, ())| p.0)
    }

    /// Creates an empty set.
    pub fn new() -> (r: Self)
        ensures
            r@ == Set::<T::V>::empty(),
    {
        VecSet { map: VecMap::new() }
    }

    /// Creates a set of the items of a vector.
    pub fn from_vec(items: Vec<T>) -> (r: Self)
        ensures
            r@ == items@.map_values(|t: T| t@).to_set(),
    {
        let ghost all = items@.map_values(|t: T| t@);
        let mut set = VecSet::new();
        for item in it: items
            invariant
                it.seq().map_values(|t: T| t@) == all,
                set@ == all.subrange(0, it.index() as int).to_set(),
        {
            proof {
                let n = it.index() as int;
                assert(all.subrange(0, n + 1) == all.subrange(0, n).push(item@));
                all.subrange(0, n).lemma_push_to_set_commute(item@);
            }
            set.insert(item);
        }
        proof {
            assert(all.subrange(0, all.len() as int) == all);
        }
        set
    }

    /// Adds an item to the set.
    pub fn insert(&mut self, item: T)
        ensures
            final(self)@ == old(self)@.insert(item@),
    {
        self.map.insert(item, ());
    }

    /// Tells whether an item is in the set.
    pub fn contains(&self, item: &T) -> (r: bool)
        ensures
            r == self@.contains(item@),
    {
        self.map.contains_key(item)
    }

    /// Returns the item of the set that equals the given one, if there is one.
    pub fn get(&self, item: &T) -> (r: Option<&T>)
        ensures
            match r {
                Some(t) => self@.contains(item@) && t@ == item@,
                None => !self@.contains(item@),
            },
    {
        let n = self.map.len();
        let mut k: usize = 0;
        while k < n
            invariant
                k <= n,
                n == self.map.pairs().len(),
                self.map@ == to_map(self.map.pairs()),
                forall|i: int| 0 <= i < k ==> (#[trigger] self.map.pairs()[i]).0 != item@,
            decreases n - k,
        {
            let e = self.map.entry_at(k);
            if e.key.same(item) {
                return Some(&e.key);
            }
            k += 1;
        }
        proof {
            lemma_to_map_dom(self.map.pairs(), item@);
        }
        None
    }

    /// Takes an item out of the set.
    pub fn remove(&mut self, item: &T)
        ensures
            final(self)@ == old(self)@.remove(item@),
    {
        self.map.remove(item);
    }

    /// Returns the number of items. The set is finite, and it holds the
    /// items that it keeps, each once.
    pub fn len(&self) -> (r: usize)
        ensures
            r == self@.len(),
            r == self.items().len(),
            self@.finite(),
            self.items().no_duplicates(),
            self@ == self.items().to_set(),
    {
        let r = self.map.len();
        proof {
            let pairs = self.map.pairs();
            assert forall|x: T::V| self@.contains(x) <==> self.items().contains(x) by {
                lemma_to_map_dom(pairs, x);
                if has_key(pairs, x) {
                    let i = choose|i: int| 0 <= i < pairs.len() && #[trigger] pairs[i].0 == x;
                    assert(self.items()[i] == x);
                }
                if self.items().contains(x) {
                    let i = choose|i: int| 0 <= i < self.items().len() && self.items()[i] == x;
                }
            }
            assert(self@ =~= self.items().to_set());
            assert forall|i: int, j: int|
                0 <= i < self.items().len() && 0 <= j < self.items().len() && i
                    != j implies self.items()[i] != self.items()[j] by {}
        }
        r
    }

    /// Tells whether the set has no items.
    pub fn is_empty(&self) -> (r: bool)
        ensures
            r == (self@.len() == 0),
            r == (self@ == Set::<T::V>::empty()),
    {
        self.map.is_empty()
    }

    /// Returns the item at a position in the order in which the set keeps
    /// its items.
    pub fn item_at(&self, i: usize) -> (r: &T)
        requires
            i < self.items().len(),
        ensures
            r@ == self.items()[i as int],
            self@.contains(r@),
    {
        &self.map.entry_at(i).key
    }

    /// Tells whether every item of `self` is an item of `other`.
    pub fn subset_of(&self, other: &Self) -> (r: bool)
        ensures
            r == self@.subset_of(other@),
    {
        let n = self.len();
        let mut k: usize = 0;
        while k < n
            invariant
                k <= n,
                n == self.items().len(),
                self@ == self.items().to_set(),
                forall|i: int| 0 <= i < k ==> other@.contains(#[trigger] self.items()[i]),
            decreases n - k,
        {
            if !other.contains(self.item_at(k)) {
                return false;
            }
            k += 1;
        }
        proof {
            assert forall|x: T::V| self@.contains(x) implies other@.contains(x) by {
                let i = choose|i: int| 0 <= i < self.items().len() && self.items()[i] == x;
                assert(other@.contains(self.items()[i]));
            }
        }
        true
    }
}

impl<T: EncSysType> EncSysType for VecSet<T> {
    fn same(&self, other: &Self) -> (r: bool) {
        let r = self.subset_of(other) && other.subset_of(self);
        proof {
            if r {
                assert(self@ =~= other@);
            }
        }
        r
    }

    fn duplicate(&self) -> (r: Self) {
        let n = self.len();
        let mut copy = VecSet::new();
        let mut k: usize = 0;
        while k < n
            invariant
                k <= n,
                n == self.items().len(),
                copy@ == self.items().subrange(0, k as int).to_set(),
            decreases n - k,
        {
            proof {
                let a = self.items().subrange(0, k as int);
                let x = self.items()[k as int];
                assert(self.items().subrange(0, k + 1) == a.push(x));
                a.lemma_push_to_set_commute(x);
            }
            copy.insert(self.item_at(k).duplicate());
            k += 1;
        }
        proof {
            assert(self.items().subrange(0, n as int) == self.items());
        }
        copy
    }
}

impl<T: EncSysType> PartialEq for VecSet<T> {
    fn eq(&self, other: &Self) -> (r: bool) {
        self.same(other)
    }
}

impl<T: EncSysType> PartialEqSpecImpl for VecSet<T> {
    open spec fn obeys_eq_spec() -> bool {
        true
    }

    open spec fn eq_spec(&self, other: &Self) -> bool {
        self@ == other@
    }
}

} // verus!
