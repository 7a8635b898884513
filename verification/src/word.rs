//! Words: named entries with the tags that describe them.
use vstd::prelude::*;
use vstd::std_specs::cmp::PartialEqSpecImpl;
use crate::assoc::{distinct_keys, has_key, to_map, lemma_to_map_dom, lemma_to_map_entry, lemma_to_map_len, lemma_to_map_push, lemma_to_map_update, lemma_distinct_push};
use crate::tag::{Tag, TagData};
use crate::util::EncSysType;

verus! {

/// What a word is: its name, and what it holds under each of its tag names.
#[verifier::reject_recursive_types(N)]
pub struct WordView<W, N, I> {
    pub name: W,
    pub tags: Map<N, TagData<I>>,
}

/// The name and the content of each tag of a sequence, as pairs.
pub open spec fn tag_pairs<N: View, I: View>(tags: Seq<Tag<N, I>>) -> Seq<(N::V, TagData<I::V>)> {
    tags.map_values(|t: Tag<N, I>| (t.name@, t.data@))
}

/// The map from tag names to contents that a sequence of tags stands for; a
/// later tag overrides an earlier one of the same name.
pub open spec fn tag_map<N: View, I: View>(tags: Seq<Tag<N, I>>) -> Map<N::V, TagData<I::V>> {
    to_map(tag_pairs(tags))
}

/// No two tags of the sequence have the same name.
pub open spec fn distinct_tags<N: View, I: View>(tags: Seq<Tag<N, I>>) -> bool {
    distinct_keys(tag_pairs(tags))
}

/// A word that has a name and associated tags, at most one for each tag name.
#[derive(Debug)]
pub struct Word<W: EncSysType, N: EncSysType, I: EncSysType> {
    name: W,
    tags: Vec<Tag<N, I>>,
}

impl<W: EncSysType, N: EncSysType, I: EncSysType> View for Word<W, N, I> {
    type V = WordView<W::V, N::V, I::V>;

    closed spec fn view(&self) -> WordView<W::V, N::V, I::V> {
        WordView { name: self.name@, tags: tag_map(self.tags@) }
    }
}

impl<W: EncSysType, N: EncSysType, I: EncSysType> Word<W, N, I> {
    #[verifier::type_invariant]
    spec fn inv(&self) -> bool {
        distinct_tags(self.tags@)
    }

    /// Creates a new word without tags.
    pub fn new(name: W) -> (r: Self)
        ensures
            r@.name == name@,
            r@.tags == Map::<N::V, TagData<I::V>>::empty(),
    {
        Word { name, tags: Vec::new() }
    }

    /// Creates a new word without tags.
    pub fn new_empty(name: W) -> (r: Self)
        ensures
            r@.name == name@,
            r@.tags == Map::<N::V, TagData<I::V>>::empty(),
    {
        Word::new(name)
    }

    /// Creates a word from a name and a vector of tags. Where two tags have
    /// the same name, the later one stays.
    pub fn from_tag_vec(name: W, vec: Vec<Tag<N, I>>) -> (r: Self)
        ensures
            r@.name == name@,
            r@.tags == tag_map(vec@),
    {
        let mut word = Word::new(name);
        word.extend(vec);
        word
    }

    /// Creates a word from a name and a collection of tags. Where two tags
    /// have the same name, the later one stays.
    pub fn from_collection(name: W, coll: Vec<Tag<N, I>>) -> (r: Self)
        ensures
            r@.name == name@,
            r@.tags == tag_map(coll@),
    {
        Word::from_tag_vec(name, coll)
    }

    /// Creates a word from a name and a collection of tags. Where two tags
    /// have the same name, the later one stays.
    pub fn new_from_collection(name: W, coll: Vec<Tag<N, I>>) -> (r: Self)
        ensures
            r@.name == name@,
            r@.tags == tag_map(coll@),
    {
        Word::from_tag_vec(name, coll)
    }

    /// Returns the name of the word.
    pub fn get_name(&self) -> (r: &W)
        ensures
            r@ == self@.name,
    {
        &self.name
    }

    /// Returns the tags of the word, each tag name once, in no particular order.
    pub fn get_tags(&self) -> (r: &Vec<Tag<N, I>>)
        ensures
            distinct_tags(r@),
            tag_map(r@) == self@.tags,
            r@.len() == self@.tags.len(),
    {
        proof {
            use_type_invariant(self);
            lemma_to_map_len(tag_pairs(self.tags@));
        }
        &self.tags
    }

    /// Transforms the word into a vector of its tags, each tag name once, in
    /// no particular order.
    pub fn to_tag_vec(self) -> (r: Vec<Tag<N, I>>)
        ensures
            distinct_tags(r@),
            tag_map(r@) == self@.tags,
            r@.len() == self@.tags.len(),
    {
        proof {
            use_type_invariant(&self);
            lemma_to_map_len(tag_pairs(self.tags@));
        }
        self.tags
    }

    /// Consumes the word and returns its name and its tags, each tag name
    /// once, in no particular order.
    pub fn into_map_entry(self) -> (r: (W, Vec<Tag<N, I>>))
        ensures
            r.0@ == self@.name,
            distinct_tags(r.1@),
            tag_map(r.1@) == self@.tags,
            r.1@.len() == self@.tags.len(),
    {
        proof {
            use_type_invariant(&self);
            lemma_to_map_len(tag_pairs(self.tags@));
        }
        (self.name, self.tags)
    }

    /// The position of the tag with the given name, if there is one.
    fn find(&self, name: &N) -> (r: Option<usize>)
        ensures
            match r {
                Some(i) => i < self.tags@.len() && self.tags@[i as int].name@ == name@
                    && self@.tags.contains_key(name@)
                    && self@.tags[name@] == self.tags@[i as int].data@,
                None => !self@.tags.contains_key(name@) && !has_key(tag_pairs(self.tags@), name@),
            },
    {
        proof {
            use_type_invariant(self);
            lemma_to_map_dom(tag_pairs(self.tags@), name@);
        }
        let mut k: usize = 0;
        while k < self.tags.len()
            invariant
                k <= self.tags@.len(),
                forall|i: int| 0 <= i < k ==> (#[trigger] tag_pairs(self.tags@)[i]).0 != name@,
            decreases self.tags@.len() - k,
        {
            if self.tags[k].name.same(name) {
                proof {
                    use_type_invariant(self);
                    lemma_to_map_dom(tag_pairs(self.tags@), name@);
                    lemma_to_map_entry(tag_pairs(self.tags@), k as int);
                }
                return Some(k);
            }
            k += 1;
        }
        None
    }

    /// Adds the given tag to the word; it replaces a tag of the same name.
    pub fn add_tag(&mut self, t: Tag<N, I>)
        ensures
            final(self)@.name == old(self)@.name,
            final(self)@.tags == old(self)@.tags.insert(t.name@, t.data@),
    {
        proof {
            use_type_invariant(&*self);
        }
        let ghost pairs = tag_pairs(self.tags@);
        let found = self.find(&t.name);
        let mut tags: Vec<Tag<N, I>> = Vec::new();
        core::mem::swap(&mut self.tags, &mut tags);
        match found {
            Some(i) => {
                proof {
                    lemma_to_map_update(pairs, i as int, t.data@);
                }
                tags.set(i, t);
                assert(tag_pairs(tags@) == pairs.update(i as int, (t.name@, t.data@)));
            },
            None => {
                proof {
                    lemma_to_map_push(pairs, t.name@, t.data@);
                    lemma_distinct_push(pairs, t.name@, t.data@);
                }
                tags.push(t);
                assert(tag_pairs(tags@) == pairs.push((t.name@, t.data@)));
            },
        }
        core::mem::swap(&mut self.tags, &mut tags);
    }

    /// Adds the given tag to the word unless the word has a tag of that name.
    pub fn add_missing_tag(&mut self, t: Tag<N, I>)
        ensures
            final(self)@.name == old(self)@.name,
            final(self)@.tags == if old(self)@.tags.contains_key(t.name@) {
                old(self)@.tags
            } else {
                old(self)@.tags.insert(t.name@, t.data@)
            },
    {
        if !self.has_tag(&t.name) {
            self.add_tag(t);
        }
    }

    /// Adds the given tags to the word in their order; each replaces a tag of
    /// the same name.
    pub fn extend(&mut self, tags: Vec<Tag<N, I>>)
        ensures
            final(self)@.name == old(self)@.name,
            final(self)@.tags == old(self)@.tags.union_prefer_right(tag_map(tags@)),
    {
        let ghost all = tags@;
        for t in it: tags
            invariant
                it.seq() == all,
                self@.name == old(self)@.name,
                self@.tags == old(self)@.tags.union_prefer_right(
                    tag_map(all.subrange(0, it.index() as int)),
                ),
        {
            proof {
                let n = it.index() as int;
                let done = all.subrange(0, n);
                let next = all.subrange(0, n + 1);
                assert(tag_pairs(next) == tag_pairs(done).push((t.name@, t.data@)));
                lemma_to_map_push(tag_pairs(done), t.name@, t.data@);
                assert(old(self)@.tags.union_prefer_right(tag_map(next)) =~= old(
                    self,
                )@.tags.union_prefer_right(tag_map(done)).insert(t.name@, t.data@));
            }
            self.add_tag(t);
        }
        proof {
            assert(all.subrange(0, all.len() as int) == all);
        }
    }

    /// Returns what the word holds under the given tag name, if it has such a tag.
    pub fn get_tag_data(&self, name: &N) -> (r: Option<&TagData<I>>)
        ensures
            match r {
                Some(d) => self@.tags.contains_key(name@) && d@ == self@.tags[name@],
                None => !self@.tags.contains_key(name@),
            },
    {
        match self.find(name) {
            Some(i) => Some(&self.tags[i].data),
            None => None,
        }
    }

    /// Returns the information held under the given tag name; `None` if the
    /// word has no such tag or the tag carries no information.
    pub fn get_tag_info(&self, name: &N) -> (r: Option<&I>)
        ensures
            match r {
                Some(i) => self@.tags.contains_key(name@) && self@.tags[name@] == TagData::Info(
                    i@,
                ),
                None => !(self@.tags.contains_key(name@) && self@.tags[name@] is Info),
            },
    {
        match self.find(name) {
            Some(i) => self.tags[i].data.get_info(),
            None => None,
        }
    }

    /// Tells whether the word has the given tag as a nullary tag.
    pub fn has_nullary(&self, name: &N) -> (r: bool)
        ensures
            r == (self@.tags.contains_key(name@) && self@.tags[name@] is Exists),
    {
        match self.find(name) {
            Some(i) => match self.tags[i].data {
                TagData::Exists => true,
                _ => false,
            },
            None => false,
        }
    }

    /// Tells whether the word has a tag with the given name.
    pub fn has_tag(&self, name: &N) -> (r: bool)
        ensures
            r == self@.tags.contains_key(name@),
    {
        self.find(name).is_some()
    }

    /// Returns the number of tags of the word.
    pub fn tag_amount(&self) -> (r: usize)
        ensures
            r == self@.tags.len(),
    {
        proof {
            use_type_invariant(self);
            lemma_to_map_len(tag_pairs(self.tags@));
        }
        self.tags.len()
    }

    /// Tells whether the word has no tags.
    pub fn is_empty(&self) -> (r: bool)
        ensures
            r == (self@.tags.len() == 0),
            r == (self@.tags == Map::<N::V, TagData<I::V>>::empty()),
    {
        proof {
            use_type_invariant(self);
            lemma_to_map_len(tag_pairs(self.tags@));
        }
        self.tags.len() == 0
    }

    /// Tells whether every tag of `self` is a tag of `other` with the same content.
    fn covered_by(&self, other: &Self) -> (r: bool)
        ensures
            r == self@.tags.submap_of(other@.tags),
    {
        let mut k: usize = 0;
        while k < self.tags.len()
            invariant
                k <= self.tags@.len(),
                forall|i: int|
                    0 <= i < k ==> {
                        &&& other@.tags.contains_key((#[trigger] tag_pairs(self.tags@)[i]).0)
                        &&& other@.tags[tag_pairs(self.tags@)[i].0] == tag_pairs(self.tags@)[i].1
                    },
            decreases self.tags@.len() - k,
        {
            proof {
                use_type_invariant(self);
                lemma_to_map_entry(tag_pairs(self.tags@), k as int);
            }
            let t = &self.tags[k];
            let agrees = match other.find(&t.name) {
                Some(j) => other.tags[j].data.same(&t.data),
                None => false,
            };
            if !agrees {
                return false;
            }
            k += 1;
        }
        proof {
            use_type_invariant(self);
            assert forall|key: N::V| #[trigger]
                self@.tags.dom().contains(key) implies other@.tags.dom().contains(key)
                && self@.tags[key] == other@.tags[key] by {
                lemma_to_map_dom(tag_pairs(self.tags@), key);
                let i = choose|i: int|
                    0 <= i < tag_pairs(self.tags@).len() && #[trigger] tag_pairs(self.tags@)[i].0
                        == key;
                lemma_to_map_entry(tag_pairs(self.tags@), i);
            }
        }
        true
    }
}

impl<W: EncSysType, N: EncSysType, I: EncSysType> EncSysType for Word<W, N, I> {
    fn same(&self, other: &Self) -> (r: bool) {
        let r = self.name.same(&other.name) && self.covered_by(other) && other.covered_by(self);
        proof {
            if r {
                assert forall|k: N::V|
                    self@.tags.dom().contains(k) == other@.tags.dom().contains(k) && (
                    self@.tags.dom().contains(k) ==> self@.tags[k] == other@.tags[k]) by {}
                assert(self@.tags =~= other@.tags);
            }
        }
        r
    }

    fn duplicate(&self) -> (r: Self) {
        proof {
            use_type_invariant(self);
        }
        let mut tags: Vec<Tag<N, I>> = Vec::new();
        let mut k: usize = 0;
        while k < self.tags.len()
            invariant
                k <= self.tags@.len(),
                tags@.len() == k,
                forall|i: int| 0 <= i < k ==> (#[trigger] tags@[i])@ == self.tags@[i]@,
            decreases self.tags@.len() - k,
        {
            tags.push(self.tags[k].duplicate());
            k += 1;
        }
        proof {
            assert(tag_pairs(tags@) =~= tag_pairs(self.tags@));
        }
        Word { name: self.name.duplicate(), tags }
    }
}

impl<W: EncSysType, N: EncSysType, I: EncSysType> Clone for Word<W, N, I> {
    fn clone(&self) -> (r: Self)
        ensures
            r@ == self@,
    {
        self.duplicate()
    }
}

impl<W: EncSysType, N: EncSysType, I: EncSysType> PartialEq for Word<W, N, I> {
    fn eq(&self, other: &Self) -> (r: bool) {
        self.same(other)
    }
}

impl<W: EncSysType, N: EncSysType, I: EncSysType> PartialEqSpecImpl for Word<W, N, I> {
    open spec fn obeys_eq_spec() -> bool {
        true
    }

    open spec fn eq_spec(&self, other: &Self) -> bool {
        self@ == other@
    }
}

} // verus!
