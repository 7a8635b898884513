//! A word of a language: a name with a set of lexicographical tags.
use vstd::prelude::*;
use vstd::std_specs::cmp::PartialEqSpecImpl;
use crate::collections::VecSet;
use crate::enc::ling::tag::{LingTag, LingTagView};
use crate::util::EncSysType;
use crate::world::enc::word::{TagIter, WordView};

verus! {

/// The views of the tags of a sequence.
pub open spec fn ling_tag_views(tags: Seq<LingTag>) -> Seq<LingTagView> {
    tags.map_values(|t: LingTag| t@)
}

/// A word that has a name and a set of tags.
#[derive(Debug)]
pub struct Word {
    name: String,
    tags: VecSet<LingTag>,
}

impl View for Word {
    type V = WordView<Seq<char>, LingTagView>;

    closed spec fn view(&self) -> WordView<Seq<char>, LingTagView> {
        WordView { name: self.name@, tags: self.tags@ }
    }
}

impl Word {
    /// Creates a new word without tags.
    pub fn new(name: String) -> (r: Self)
        ensures
            r@.name == name@,
            r@.tags == Set::<LingTagView>::empty(),
    {
        Word { name, tags: VecSet::new() }
    }

    /// Creates a word from a name and a collection of tags.
    pub fn new_from_collection(name: String, coll: Vec<LingTag>) -> (r: Self)
        ensures
            r@.name == name@,
            r@.tags == ling_tag_views(coll@).to_set(),
    {
        Word { name, tags: VecSet::from_vec(coll) }
    }

    /// Makes a word of a name and a set of tags.
    pub(crate) fn from_parts(name: String, tags: VecSet<LingTag>) -> (r: Self)
        ensures
            r@.name == name@,
            r@.tags == tags@,
    {
        Word { name, tags }
    }

    /// Returns the name of the word.
    pub fn get_name(&self) -> (r: &String)
        ensures
            r@ == self@.name,
    {
        &self.name
    }

    /// Returns the tags of the word.
    pub fn get_tags(&self) -> (r: &VecSet<LingTag>)
        ensures
            r@ == self@.tags,
    {
        &self.tags
    }

    /// Adds the given tag to the word.
    pub fn add_tag(&mut self, tag: LingTag)
        ensures
            final(self)@.name == old(self)@.name,
            final(self)@.tags == old(self)@.tags.insert(tag@),
    {
        self.tags.insert(tag);
    }

    /// Tells whether the word has the given tag.
    pub fn has_tag(&self, tag: &LingTag) -> (r: bool)
        ensures
            r == self@.tags.contains(tag@),
    {
        self.tags.contains(tag)
    }

    /// Returns the number of tags.
    pub fn tag_amount(&self) -> (r: usize)
        ensures
            r == self@.tags.len(),
    {
        self.tags.len()
    }

    /// Tells whether the word has no tags.
    pub fn is_empty(&self) -> (r: bool)
        ensures
            r == (self@.tags.len() == 0),
            r == (self@.tags == Set::<LingTagView>::empty()),
    {
        self.tags.is_empty()
    }

    /// Returns a cursor over the tags of the word, which yields each tag
    /// once.
    pub fn iter(&self) -> (r: TagIter<'_, LingTag>)
        ensures
            r.order().no_duplicates(),
            r.order().to_set() == self@.tags,
            r.position() == 0,
    {
        TagIter::over(&self.tags)
    }

    /// Consumes the word and returns its name and its tags, as they are
    /// stored in a map.
    pub fn into_map_entry(self) -> (r: (String, VecSet<LingTag>))
        ensures
            r.0@ == self@.name,
            r.1@ == self@.tags,
    {
        (self.name, self.tags)
    }
}

impl EncSysType for Word {
    fn same(&self, other: &Self) -> (r: bool) {
        self.name.same(&other.name) && self.tags.same(&other.tags)
    }

    fn duplicate(&self) -> (r: Self) {
        Word { name: self.name.duplicate(), tags: self.tags.duplicate() }
    }
}

impl Clone for Word {
    fn clone(&self) -> (r: Self)
        ensures
            r@ == self@,
    {
        self.duplicate()
    }
}

impl PartialEq for Word {
    fn eq(&self, other: &Self) -> (r: bool) {
        self.same(other)
    }
}

impl PartialEqSpecImpl for Word {
    open spec fn obeys_eq_spec() -> bool {
        true
    }

    open spec fn eq_spec(&self, other: &Self) -> bool {
        self@ == other@
    }
}

} // verus!
