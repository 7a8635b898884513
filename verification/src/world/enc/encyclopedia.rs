//! An encyclopedia that keeps words by their names.
use vstd::prelude::*;
use crate::assoc::lemma_to_map_entry;
use crate::collections::{VecMap, VecMapIter, VecSet};
use crate::util::EncSysType;
use crate::world::enc::word::{Word, WordView};

verus! {

/// A word manager that stores the tags associated with words, by their names.
#[derive(Debug)]
pub struct Encyclopedia<N: EncSysType, T: EncSysType> {
    word_map: VecMap<N, VecSet<T>>,
}

impl<N: EncSysType, T: EncSysType> View for Encyclopedia<N, T> {
    type V = Map<N::V, Set<T::V>>;

    closed spec fn view(&self) -> Map<N::V, Set<T::V>> {
        self.word_map@.map_values(|s: VecSet<T>| s@)
    }
}

impl<N: EncSysType, T: EncSysType> Encyclopedia<N, T> {
    /// Creates a new empty encyclopedia.
    pub fn new() -> (r: Self)
        ensures
            r@ == Map::<N::V, Set<T::V>>::empty(),
    {
        Encyclopedia { word_map: VecMap::new() }
    }

    /// Adds a word; it replaces a word of the same name.
    pub fn add(&mut self, w: Word<N, T>)
        ensures
            final(self)@ == old(self)@.insert(w@.name, w@.tags),
    {
        let (name, tags) = w.into_map_entry();
        self.word_map.insert(name, tags);
    }

    /// Returns the word with the given name; `None` if there is no such word.
    pub fn get(&self, name: &N) -> (r: Option<Word<N, T>>)
        ensures
            match r {
                Some(w) => self@.contains_key(name@) && w@ == (WordView {
                    name: name@,
                    tags: self@[name@],
                }),
                None => !self@.contains_key(name@),
            },
    {
        match self.word_map.get(name) {
            Some(set) => Some(Word::new(name.duplicate(), set.duplicate())),
            None => None,
        }
    }

    /// Removes the word with the given name.
    pub fn remove(&mut self, name: &N)
        ensures
            final(self)@ == old(self)@.remove(name@),
    {
        self.word_map.remove(name);
    }

    /// Returns a cursor over the words, which yields each word once.
    pub fn iter(&self) -> (r: WordIter<'_, N, T>)
        ensures
            yields_each_once(r.order(), self@),
            r.position() == 0,
    {
        let inner = self.word_map.iter();
        proof {
            let pairs = inner.order();
            let order = pairs.map_values(|p: (N::V, VecSet<T>)| WordView { name: p.0, tags: p.1@ });
            assert forall|k: int| 0 <= k < order.len() implies self@.contains_key(
                (#[trigger] order[k]).name,
            ) && self@[order[k].name] == order[k].tags by {
                lemma_to_map_entry(pairs, k);
            }
            assert forall|i: int, j: int| 0 <= i < j < order.len() implies (#[trigger] order[i]).name
                != (#[trigger] order[j]).name by {
                assert(pairs[i].0 != pairs[j].0);
            }
            assert(self@.dom() =~= self.word_map@.dom());
        }
        WordIter { inner }
    }

    /// Returns the number of words.
    pub fn amount(&self) -> (r: usize)
        ensures
            r == self@.len(),
    {
        let r = self.word_map.len();
        proof {
            assert(self@.dom() =~= self.word_map@.dom());
        }
        r
    }

    /// Tells whether the encyclopedia has no words.
    pub fn is_empty(&self) -> (r: bool)
        ensures
            r == (self@.len() == 0),
            r == (self@ == Map::<N::V, Set<T::V>>::empty()),
    {
        let r = self.word_map.is_empty();
        proof {
            assert(self@.dom() =~= self.word_map@.dom());
            if r {
                assert(self@ =~= Map::<N::V, Set<T::V>>::empty());
            }
        }
        r
    }
}

/// The words of a sequence are the words of an encyclopedia, each once.
pub open spec fn yields_each_once<N, T>(order: Seq<WordView<N, T>>, words: Map<N, Set<T>>) -> bool {
    &&& order.len() == words.len()
    &&& forall|k: int|
        0 <= k < order.len() ==> words.contains_key((#[trigger] order[k]).name)
            && words[order[k].name] == order[k].tags
    &&& forall|i: int, j: int|
        0 <= i < j < order.len() ==> (#[trigger] order[i]).name != (#[trigger] order[j]).name
}

/// A cursor that goes through the words of an encyclopedia, each once.
pub struct WordIter<'a, N: EncSysType, T: EncSysType> {
    inner: VecMapIter<'a, N, VecSet<T>>,
}

impl<'a, N: EncSysType, T: EncSysType> WordIter<'a, N, T> {
    /// The words in the order in which the cursor yields them.
    pub closed spec fn order(&self) -> Seq<WordView<N::V, T::V>> {
        self.inner.order().map_values(|p: (N::V, VecSet<T>)| WordView { name: p.0, tags: p.1@ })
    }

    /// The number of words that the cursor has yielded.
    pub closed spec fn position(&self) -> int {
        self.inner.position()
    }

    /// Returns the next word, or `None` where all were yielded.
    pub fn next(&mut self) -> (r: Option<Word<N, T>>)
        ensures
            final(self).order() == old(self).order(),
            0 <= old(self).position() <= old(self).order().len(),
            match r {
                Some(w) => {
                    &&& old(self).position() < old(self).order().len()
                    &&& w@ == old(self).order()[old(self).position()]
                    &&& final(self).position() == old(self).position() + 1
                },
                None => {
                    &&& old(self).position() == old(self).order().len()
                    &&& final(self).position() == old(self).position()
                },
            },
    {
        let ghost at = self.inner.position();
        match self.inner.next() {
            Some(e) => {
                let w = Word::new(e.key.duplicate(), e.value.duplicate());
                proof {
                    assert(self.order()[at] == (WordView { name: e.key@, tags: e.value@ }));
                }
                Some(w)
            },
            None => None,
        }
    }
}

} // verus!
