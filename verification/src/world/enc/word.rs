//! A word with a set of tags.
use vstd::prelude::*;
use vstd::std_specs::cmp::PartialEqSpecImpl;
use crate::collections::VecSet;
use crate::util::EncSysType;

verus! {

/// What a word is: its name and the set of its tags.
#[verifier::reject_recursive_types(T)]
pub struct WordView<N, T> {
    pub name: N,
    pub tags: Set<T>,
}

/// A word that has a name and associated tags.
#[derive(Debug)]
pub struct Word<N: EncSysType, T: EncSysType> {
    name: N,
    tags: VecSet<T>,
}

impl<N: EncSysType, T: EncSysType> View for Word<N, T> {
    type V = WordView<N::V, T::V>;

    closed spec fn view(&self) -> WordView<N::V, T::V> {
        WordView { name: self.name@, tags: self.tags@ }
    }
}

impl<N: EncSysType, T: EncSysType> Word<N, T> {
    /// Creates a word with the given tags.
    pub fn new(name: N, tags: VecSet<T>) -> (r: Self)
        ensures
            r@.name == name@,
            r@.tags == tags@,
    {
        Word { name, tags }
    }

    /// Creates a new word without tags.
    pub fn new_empty(name: N) -> (r: Self)
        ensures
            r@.name == name@,
            r@.tags == Set::<T::V>::empty(),
    {
        Word { name, tags: VecSet::new() }
    }

    /// Creates a word with the tags of a collection.
    pub fn from_collection(name: N, coll: Vec<T>) -> (r: Self)
        ensures
            r@.name == name@,
            r@.tags == coll@.map_values(|t: T| t@).to_set(),
    {
        Word { name, tags: VecSet::from_vec(coll) }
    }

    /// Returns the name of the word.
    pub fn get_name(&self) -> (r: &N)
        ensures
            r@ == self@.name,
    {
        &self.name
    }

    /// Returns the tags of the word.
    pub fn get_tags(&self) -> (r: &VecSet<T>)
        ensures
            r@ == self@.tags,
    {
        &self.tags
    }

    /// Adds the given tag to the word.
    pub fn add_tag(&mut self, tag: T)
        ensures
            final(self)@.name == old(self)@.name,
            final(self)@.tags == old(self)@.tags.insert(tag@),
    {
        self.tags.insert(tag);
    }

    /// Tells whether the word has the given tag.
    pub fn has_tag(&self, tag: &T) -> (r: bool)
        ensures
            r == self@.tags.contains(tag@),
    {
        self.tags.contains(tag)
    }

    /// Returns the number of tags.
    pub fn tag_amount(&self) -> (r: usize)
        ensures
            r == self@.tags.len(),
    {
        self.tags.len()
    }

    /// Tells whether the word has no tags.
    pub fn is_empty(&self) -> (r: bool)
        ensures
            r == (self@.tags.len() == 0),
            r == (self@.tags == Set::<T::V>::empty()),
    {
        self.tags.is_empty()
    }

    /// Returns a cursor over the tags of the word, which yields each tag
    /// once.
    pub fn iter(&self) -> (r: TagIter<'_, T>)
        ensures
            r.order().no_duplicates(),
            r.order().to_set() == self@.tags,
            r.position() == 0,
    {
        TagIter::over(&self.tags)
    }

    /// Consumes the word and returns its name and its tags.
    pub fn into_map_entry(self) -> (r: (N, VecSet<T>))
        ensures
            r.0@ == self@.name,
            r.1@ == self@.tags,
    {
        (self.name, self.tags)
    }
}

impl<N: EncSysType, T: EncSysType> EncSysType for Word<N, T> {
    fn same(&self, other: &Self) -> (r: bool) {
        self.name.same(&other.name) && self.tags.same(&other.tags)
    }

    fn duplicate(&self) -> (r: Self) {
        Word { name: self.name.duplicate(), tags: self.tags.duplicate() }
    }
}

impl<N: EncSysType, T: EncSysType> Clone for Word<N, T> {
    fn clone(&self) -> (r: Self)
        ensures
            r@ == self@,
    {
        self.duplicate()
    }
}

impl<N: EncSysType, T: EncSysType> PartialEq for Word<N, T> {
    fn eq(&self, other: &Self) -> (r: bool) {
        self.same(other)
    }
}

impl<N: EncSysType, T: EncSysType> PartialEqSpecImpl for Word<N, T> {
    open spec fn obeys_eq_spec() -> bool {
        true
    }

    open spec fn eq_spec(&self, other: &Self) -> bool {
        self@ == other@
    }
}

/// A cursor that goes through the tags of a word, each once.
pub struct TagIter<'a, T: EncSysType> {
    set: &'a VecSet<T>,
    index: usize,
}

impl<'a, T: EncSysType> TagIter<'a, T> {
    #[verifier::type_invariant]
    spec fn inv(&self) -> bool {
        self.index <= self.set.items().len()
    }

    /// The tags in the order in which the cursor yields them.
    pub closed spec fn order(&self) -> Seq<T::V> {
        self.set.items()
    }

    /// The number of tags that the cursor has yielded.
    pub closed spec fn position(&self) -> int {
        self.index as int
    }

    /// Makes a cursor that goes through the items of a set, each once.
    pub(crate) fn over(set: &'a VecSet<T>) -> (r: Self)
        ensures
            r.order().no_duplicates(),
            r.order().to_set() == set@,
            r.position() == 0,
    {
        // Counting the items tells that each is kept once.
        let _ = set.len();
        TagIter { set, index: 0 }
    }

    /// Returns the next tag, or `None` where all were yielded.
    pub fn next(&mut self) -> (r: Option<&'a T>)
        ensures
            final(self).order() == old(self).order(),
            0 <= old(self).position() <= old(self).order().len(),
            match r {
                Some(t) => {
                    &&& old(self).position() < old(self).order().len()
                    &&& t@ == old(self).order()[old(self).position()]
                    &&& final(self).position() == old(self).position() + 1
                },
                None => {
                    &&& old(self).position() == old(self).order().len()
                    &&& final(self).position() == old(self).position()
                },
            },
    {
        proof {
            use_type_invariant(&*self);
        }
        if self.index < self.set.len() {
            let t = self.set.item_at(self.index);
            self.index = self.index + 1;
            Some(t)
        } else {
            None
        }
    }
}

} // verus!
