//! The encyclopedia: words stored under ids, with their tags in columns.
use vstd::prelude::*;
use crate::assoc::{has_key, lemma_has_key_prefix, lemma_to_map_dom};
use crate::columns::TagColumns;
use crate::groups::TagGroups;
use crate::laws::{law_add_group_valid, law_empty_valid, law_insert_valid, law_remove_valid};
use crate::model::{EncyclopediaView, splice};
use crate::registry::Registry;
use crate::tag::{Tag, TagData, tag_views};
use crate::util::EncSysType;
use crate::word::{Word, WordView};

verus! {

/// The tags that an id holds by itself under the tag names of the first `c` columns.
spec fn direct_below<W, N, I>(
    v: EncyclopediaView<W, N, I>,
    pairs: Seq<(N, Seq<TagData<I>>)>,
    id: int,
    c: int,
) -> Map<N, TagData<I>> {
    Map::new(
        |t: N| has_key(pairs.subrange(0, c), t) && !v.is_group(t) && !(v.cell(t, id) is Empty),
        |t: N| v.cell(t, id),
    )
}

/// Merges the tags of a group into a word, in their order: a tag is added
/// unless it is empty or the word already has a tag of that name.
fn merge_tags<W: EncSysType, N: EncSysType, I: EncSysType>(
    word: &mut Word<W, N, I>,
    tags: &Vec<Tag<N, I>>,
)
    ensures
        final(word)@.name == old(word)@.name,
        final(word)@.tags == splice(old(word)@.tags, tag_views(tags@)),
{
    let ghost all = tag_views(tags@);
    let mut k: usize = 0;
    while k < tags.len()
        invariant
            k <= tags@.len(),
            all == tag_views(tags@),
            word@.name == old(word)@.name,
            word@.tags == splice(old(word)@.tags, all.subrange(0, k as int)),
        decreases tags@.len() - k,
    {
        let t = &tags[k];
        proof {
            let next = all.subrange(0, k + 1);
            assert(next.drop_last() == all.subrange(0, k as int));
        }
        if !t.data.is_empty() {
            word.add_missing_tag(t.duplicate());
        }
        k += 1;
    }
    proof {
        assert(all.subrange(0, all.len() as int) == all);
    }
}

/// A store of words.
///
/// Each word is kept under an id. The ids in use run from 0 to the end id;
/// some of them may be vacant, because a word that is removed frees its id
/// only if it is the last one.
#[derive(Debug)]
pub struct Encyclopedia<W: EncSysType, N: EncSysType, I: EncSysType> {
    parts: Parts<W, N, I>,
}

/// The three parts of a store.
#[derive(Debug)]
struct Parts<W: EncSysType, N: EncSysType, I: EncSysType> {
    /// The name of the word under each id.
    registry: Registry<W>,
    /// For each tag name that was ever written, the cells stored under it.
    tags: TagColumns<N, I>,
    /// The declared tag groups.
    tag_groups: TagGroups<N, I>,
}

impl<W: EncSysType, N: EncSysType, I: EncSysType> View for Parts<W, N, I> {
    type V = EncyclopediaView<W::V, N::V, I::V>;

    closed spec fn view(&self) -> EncyclopediaView<W::V, N::V, I::V> {
        EncyclopediaView { names: self.registry@, columns: self.tags@, groups: self.tag_groups@ }
    }
}

impl<W: EncSysType, N: EncSysType, I: EncSysType> Parts<W, N, I> {
    /// Makes the parts of a store without words, tags and groups.
    fn new() -> (r: Self)
        ensures
            r@ == EncyclopediaView::<W::V, N::V, I::V>::empty(),
    {
        Parts { registry: Registry::new(), tags: TagColumns::new(), tag_groups: TagGroups::new() }
    }
}

impl<W: EncSysType, N: EncSysType, I: EncSysType> View for Encyclopedia<W, N, I> {
    type V = EncyclopediaView<W::V, N::V, I::V>;

    closed spec fn view(&self) -> EncyclopediaView<W::V, N::V, I::V> {
        self.parts@
    }
}

impl<W: EncSysType, N: EncSysType, I: EncSysType> Encyclopedia<W, N, I> {
    /// What holds of every encyclopedia: it is valid.
    #[verifier::type_invariant]
    pub open spec fn inv(&self) -> bool {
        self@.valid()
    }

    /// Takes the parts out and leaves an empty store behind.
    fn take(&mut self) -> (r: Parts<W, N, I>)
        ensures
            r == old(self).parts,
            r@.valid(),
    {
        proof {
            use_type_invariant(&*self);
            law_empty_valid::<W::V, N::V, I::V>();
        }
        let mut parts = Parts::new();
        core::mem::swap(&mut self.parts, &mut parts);
        parts
    }

    /// Creates a new empty encyclopedia.
    pub fn new() -> (r: Self)
        ensures
            r@ == EncyclopediaView::<W::V, N::V, I::V>::empty(),
            r@.valid(),
    {
        proof {
            law_empty_valid::<W::V, N::V, I::V>();
        }
        Encyclopedia { parts: Parts::new() }
    }

    /// Returns the one after the last id in use.
    pub fn get_end_id(&self) -> (r: usize)
        ensures
            r == self@.end_id(),
    {
        self.parts.registry.end_id()
    }

    /// Returns the number of words in the encyclopedia; there are no more
    /// words than ids.
    pub fn get_word_count(&self) -> (r: usize)
        ensures
            r == self@.count(),
            r <= self@.end_id(),
    {
        self.parts.registry.live_count()
    }

    /// Tells whether the encyclopedia has no words; there are no more
    /// words than ids.
    pub fn is_empty(&self) -> (r: bool)
        ensures
            r == (self@.count() == 0),
            self@.count() <= self@.end_id(),
    {
        self.parts.registry.live_count() == 0
    }

    /// Declares a tag group with the given name and tags; it replaces a group
    /// of the same name.
    pub fn add_tag_group(&mut self, group_name: N, tags: Vec<Tag<N, I>>)
        ensures
            final(self)@ == old(self)@.add_group(group_name@, tag_views(tags@)),
            final(self)@.valid(),
    {
        let ghost before = self@;
        let mut parts = self.take();
        parts.tag_groups.add_group(group_name, tags);
        proof {
            law_add_group_valid(before, group_name@, tag_views(tags@));
        }
        self.parts = parts;
    }

    /// Returns the id of the word of the given name, if one is recorded.
    pub fn id_of(&self, name: &W) -> (r: Option<usize>)
        ensures
            match r {
                Some(id) => self@.has_name(name@) && id == self@.id_of(name@) && self@.is_live(
                    id as int,
                ) && self@.names[id as int] == Some(name@),
                None => !self@.has_name(name@),
            },
    {
        self.parts.registry.id_of(name)
    }

    /// Returns the name of the word under the given id; `None` if the id
    /// is vacant or out of range.
    pub fn name_of(&self, id: usize) -> (r: Option<&W>)
        ensures
            match r {
                Some(name) => self@.is_live(id as int) && self@.names[id as int] == Some(name@),
                None => !self@.is_live(id as int),
            },
    {
        self.parts.registry.name_of(id)
    }

    /// Returns the tags of the tag group of the given name; `None` if no
    /// such group is declared.
    pub fn expand(&self, group_name: &N) -> (r: Option<&Vec<Tag<N, I>>>)
        ensures
            match r {
                Some(tags) => self@.is_group(group_name@) && tag_views(tags@)
                    == self@.groups[self@.group_index(group_name@)].1,
                None => !self@.is_group(group_name@),
            },
    {
        self.parts.tag_groups.expand(group_name)
    }

    /// Gets the word with the given id; `None` if the id is vacant or out of
    /// range.
    pub fn get_word_by_id(&self, id: usize) -> (r: Option<Word<W, N, I>>)
        ensures
            match r {
                Some(w) => self@.word(id as int) == Some(w@),
                None => self@.word(id as int) is None,
            },
    {
        let name = match self.parts.registry.name_of(id) {
            Some(name) => name,
            None => {
                return None;
            },
        };
        let mut word: Word<W, N, I> = Word::new(name.duplicate());
        let ghost v = self@;
        let ghost pairs = self.parts.tags.pairs();
        let ghost i = id as int;

        let columns = self.parts.tags.len();
        let mut c: usize = 0;
        proof {
            assert(word@.tags =~= direct_below(v, pairs, i, 0));
        }
        while c < columns
            invariant
                v == self@,
                pairs == self.parts.tags.pairs(),
                columns == pairs.len(),
                i == id as int,
                c <= columns,
                word@.name == name@,
                word@.tags == direct_below(v, pairs, i, c as int),
            decreases columns - c,
        {
            let col_name = self.parts.tags.name_at(c);
            if !self.parts.tag_groups.is_group(col_name) {
                match self.parts.tags.cell_at(c, id) {
                    Some(cell) => {
                        word.add_tag(Tag::reconstruct(col_name, cell));
                    },
                    None => {},
                }
            }
            proof {
                let prev = direct_below(v, pairs, i, c as int);
                let next = direct_below(v, pairs, i, c + 1);
                let t = col_name@;
                if !v.is_group(t) && !(v.cell(t, i) is Empty) {
                    let ins = prev.insert(t, v.cell(t, i));
                    assert forall|k: N::V| next.dom().contains(k) == ins.dom().contains(k) by {
                        lemma_has_key_prefix(pairs, c as int, k);
                    }
                    assert forall|k: N::V| next.dom().contains(k) implies next[k] == ins[k] by {
                        lemma_has_key_prefix(pairs, c as int, k);
                    }
                } else {
                    assert forall|k: N::V| next.dom().contains(k) == prev.dom().contains(k) by {
                        lemma_has_key_prefix(pairs, c as int, k);
                    }
                }
            }
            c += 1;
        }
        proof {
            assert(pairs.subrange(0, pairs.len() as int) == pairs);
            assert(word@.tags =~= v.direct_tags(i)) by {
                assert forall|t: N::V| has_key(pairs, t) <==> v.columns.contains_key(t) by {
                    lemma_to_map_dom(pairs, t);
                }
            }
        }

        let groups = self.parts.tag_groups.len();
        let mut g: usize = 0;
        while g < groups
            invariant
                v == self@,
                i == id as int,
                groups == v.groups.len(),
                g <= groups,
                word@.name == name@,
                word@.tags == v.expanded(i, g as int),
            decreases groups - g,
        {
            if self.parts.tags.read(self.parts.tag_groups.name_at(g), id).is_some() {
                merge_tags(&mut word, self.parts.tag_groups.tags_at(g));
            }
            g += 1;
        }
        Some(word)
    }

    /// Adds the given word and returns its id. A word of a new name gets the
    /// next new id. A word of a name that is already recorded keeps its id:
    /// its tags are written over what is stored for that id, and what is
    /// stored under other tag names stays.
    pub fn insert_word(&mut self, word: Word<W, N, I>) -> (id: usize)
        ensures
            id == old(self)@.slot_of(word@.name),
            final(self)@ == old(self)@.insert(word@),
            final(self)@.valid(),
    {
        let ghost before = self@;
        let mut parts = self.take();
        let (name, tags) = word.into_map_entry();
        let id = parts.registry.add(name);
        proof {
            law_insert_valid(before, word@);
        }
        let len = parts.registry.end_id();
        parts.tags.write_all(tags, id, len);
        self.parts = parts;
        id
    }

    /// Removes the last id, live or vacant, and frees its slot. Nothing
    /// happens where the encyclopedia has no words.
    pub fn remove_last_word(&mut self)
        ensures
            final(self)@ == if old(self)@.count() == 0 {
                old(self)@
            } else {
                old(self)@.pop_last()
            },
            final(self)@.valid(),
    {
        if self.is_empty() {
            proof {
                use_type_invariant(&*self);
            }
            return ;
        }
        let ghost before = self@;
        let mut parts = self.take();
        let len = parts.registry.end_id();
        parts.registry.pop_last();
        parts.tags.shrink_row(len);
        proof {
            assert(parts@ == before.remove(len - 1));
            law_remove_valid(before, len - 1);
        }
        self.parts = parts;
    }

    /// Removes the word with the given id. The last id is given up and its
    /// slot freed, as by `remove_last_word`; any other id stays in use and is
    /// left vacant. Nothing happens for an id that is vacant or out of range.
    pub fn remove_word_by_id(&mut self, id: usize)
        ensures
            final(self)@ == old(self)@.remove(id as int),
            final(self)@.valid(),
    {
        proof {
            use_type_invariant(&*self);
        }
        if self.is_empty() {
            return ;
        }
        let ghost before = self@;
        if id == self.parts.registry.end_id() - 1 {
            self.remove_last_word();
            return ;
        }
        if self.parts.registry.name_of(id).is_none() {
            return ;
        }
        let mut parts = self.take();
        parts.registry.tombstone(id);
        parts.tags.tombstone_row(id);
        proof {
            assert(parts@ == before.remove(id as int));
            law_remove_valid(before, id as int);
        }
        self.parts = parts;
    }

    /// Returns the word with the given name; `None` if there is no such word.
    pub fn get_word_by_name(&self, name: &W) -> (r: Option<Word<W, N, I>>)
        ensures
            match r {
                Some(w) => self@.has_name(name@) && self@.word(self@.id_of(name@)) == Some(w@),
                None => !self@.has_name(name@),
            },
    {
        match self.parts.registry.id_of(name) {
            Some(id) => self.get_word_by_id(id),
            None => None,
        }
    }

    /// Removes the word with the given name, as `remove_word_by_id` removes
    /// the word with its id. Nothing happens where there is no such word.
    pub fn remove_word_by_name(&mut self, name: &W)
        ensures
            final(self)@.valid(),
            final(self)@ == if old(self)@.has_name(name@) {
                old(self)@.remove(old(self)@.id_of(name@))
            } else {
                old(self)@
            },
    {
        proof {
            use_type_invariant(&*self);
        }
        match self.parts.registry.id_of(name) {
            Some(id) => {
                self.remove_word_by_id(id);
            },
            None => {},
        }
    }

    /// Returns a cursor over the words, which starts before the first id.
    pub fn iter(&self) -> (r: WordIter<'_, W, N, I>)
        ensures
            r.store() == self@,
            r.position() == 0,
    {
        WordIter { enc_ref: self, index: 0 }
    }
}

/// A cursor that goes through the words of an encyclopedia in ascending
/// order of their ids, and passes over vacant ids.
pub struct WordIter<'a, W: EncSysType, N: EncSysType, I: EncSysType> {
    enc_ref: &'a Encyclopedia<W, N, I>,
    index: usize,
}

/// The views of the words of a sequence.
pub open spec fn word_views<W: EncSysType, N: EncSysType, I: EncSysType>(
    words: Seq<Word<W, N, I>>,
) -> Seq<WordView<W::V, N::V, I::V>> {
    words.map_values(|w: Word<W, N, I>| w@)
}

impl<'a, W: EncSysType, N: EncSysType, I: EncSysType> WordIter<'a, W, N, I> {
    /// The encyclopedia that the cursor goes through.
    pub closed spec fn store(&self) -> EncyclopediaView<W::V, N::V, I::V> {
        self.enc_ref@
    }

    /// The id that the cursor looks at next.
    pub closed spec fn position(&self) -> int {
        self.index as int
    }

    #[verifier::type_invariant]
    spec fn inv(&self) -> bool {
        self.index <= self.enc_ref@.end_id()
    }

    /// Returns the word under the next live id and moves behind it; returns
    /// `None` and moves to the end where no live id is left.
    pub fn next(&mut self) -> (r: Option<Word<W, N, I>>)
        ensures
            final(self).store() == old(self).store(),
            0 <= old(self).position() <= final(self).position() <= old(self).store().end_id(),
            match r {
                Some(w) => {
                    let id = old(self).store().next_live(old(self).position());
                    &&& id < old(self).store().end_id()
                    &&& old(self).store().word(id) == Some(w@)
                    &&& final(self).position() == id + 1
                },
                None => {
                    &&& old(self).store().next_live(old(self).position()) == old(
                        self,
                    ).store().end_id()
                    &&& final(self).position() == old(self).store().end_id()
                },
            },
    {
        let ghost v = self.enc_ref@;
        proof {
            use_type_invariant(&*self);
        }
        while self.index < self.enc_ref.get_end_id()
            invariant
                self.index <= v.end_id(),
                self.enc_ref == old(self).enc_ref,
                v == self.enc_ref@,
                old(self).index <= self.index,
                v.next_live(old(self).index as int) == v.next_live(self.index as int),
            decreases self.enc_ref@.end_id() - self.index,
        {
            let found = self.enc_ref.get_word_by_id(self.index);
            self.index = self.index + 1;
            if found.is_some() {
                return found;
            }
        }
        None
    }

    /// Returns the words under the live ids that are left, in ascending
    /// order of their ids, and moves to the end.
    pub fn collect(&mut self) -> (r: Vec<Word<W, N, I>>)
        ensures
            final(self).store() == old(self).store(),
            final(self).position() == old(self).store().end_id(),
            word_views(r@) == old(self).store().words_from(old(self).position()),
    {
        let ghost v = self.enc_ref@;
        let ghost start = self.index as int;
        let mut words: Vec<Word<W, N, I>> = Vec::new();
        proof {
            use_type_invariant(&*self);
        }
        loop
            invariant
                0 <= self.index <= v.end_id(),
                v == self.store(),
                v == old(self).store(),
                start == old(self).position(),
                v.words_from(start) == word_views(words@) + v.words_from(self.index as int),
            decreases v.end_id() - self.index,
        {
            let ghost from = self.index as int;
            let ghost done = words@;
            proof {
                lemma_words_from_next_live(v, from);
            }
            match self.next() {
                Some(w) => {
                    words.push(w);
                    proof {
                        assert(word_views(done) + (seq![w@] + v.words_from(self.index as int))
                            =~= word_views(words@) + v.words_from(self.index as int));
                    }
                },
                None => {
                    return words;
                },
            }
        }
    }
}

/// The words from an id on are the word under the next live id, if there is
/// one, and then the words behind it.
pub proof fn lemma_words_from_next_live<W, N, I>(v: EncyclopediaView<W, N, I>, from: int)
    requires
        0 <= from,
    ensures
        from <= v.next_live(from) <= v.end_id() || v.end_id() < from,
        v.next_live(from) < v.end_id() ==> v.is_live(v.next_live(from)),
        v.words_from(from) == if v.next_live(from) < v.end_id() {
            seq![v.word(v.next_live(from))->0] + v.words_from(v.next_live(from) + 1)
        } else {
            Seq::empty()
        },
    decreases v.end_id() - from,
{
    if from < v.end_id() && !v.is_live(from) {
        lemma_words_from_next_live(v, from + 1);
    }
}

} // verus!
