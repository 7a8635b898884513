//! The word manager: the tags of words that have ids and no names.
use vstd::prelude::*;
use crate::assoc::{has_key, lemma_has_key_prefix, lemma_to_map_dom};
use crate::columns::TagColumns;
use crate::model::{cell_of, lemma_written_all_cells, present_tags};
use crate::tag::{Tag, TagData};
use crate::util::EncSysType;
use crate::word::{distinct_tags, tag_map, tag_pairs};

verus! {

/// The tags that the columns hold for an id: what is held for it under each
/// tag name, where that is not empty.
pub open spec fn tags_at<N, I>(columns: Map<N, Seq<TagData<I>>>, id: int) -> Map<N, TagData<I>> {
    Map::new(|t: N| !(cell_of(columns, t, id) is Empty), |t: N| cell_of(columns, t, id))
}

/// The tags that the columns hold for an id under the names of the first
/// `c` columns.
spec fn tags_below<N, I>(
    columns: Map<N, Seq<TagData<I>>>,
    pairs: Seq<(N, Seq<TagData<I>>)>,
    id: int,
    c: int,
) -> Map<N, TagData<I>> {
    Map::new(
        |t: N| has_key(pairs.subrange(0, c), t) && !(cell_of(columns, t, id) is Empty),
        |t: N| cell_of(columns, t, id),
    )
}

/// What a word manager keeps.
#[derive(Debug)]
struct Rows<N: EncSysType, I: EncSysType> {
    /// For each tag name, what each word holds under it.
    tags: TagColumns<N, I>,
    /// The id that the next word gets.
    next_id: usize,
}

impl<N: EncSysType, I: EncSysType> View for Rows<N, I> {
    type V = Seq<Map<N::V, TagData<I::V>>>;

    closed spec fn view(&self) -> Seq<Map<N::V, TagData<I::V>>> {
        Seq::new(self.next_id as nat, |id: int| tags_at(self.tags@, id))
    }
}

impl<N: EncSysType, I: EncSysType> Rows<N, I> {
    /// The manager is well formed: no column is longer than the id space.
    spec fn wf(&self) -> bool {
        forall|t: N::V| #[trigger] self.tags@.contains_key(t) ==> self.tags@[t].len() <= self.next_id
    }

    /// Creates a word manager without words.
    fn new() -> (r: Self)
        ensures
            r.wf(),
            r@ == Seq::<Map<N::V, TagData<I::V>>>::empty(),
    {
        Rows { tags: TagColumns::new(), next_id: 0 }
    }

    /// Adds a word with the given tags under the next id. Of two tags of
    /// the same name the later one stays, and an empty tag is no tag.
    fn add_word(&mut self, word_tags: Vec<Tag<N, I>>)
        requires
            old(self).wf(),
            old(self)@.len() < usize::MAX,
        ensures
            final(self).wf(),
            final(self)@ == old(self)@.push(present_tags(tag_map(word_tags@))),
    {
        let ghost before = self.tags@;
        let current_id = self.next_id;
        self.next_id = self.next_id + 1;
        let len = self.next_id;
        self.tags.write_all(word_tags, current_id, len);
        proof {
            let after = self.tags@;
            let tags = tag_map(word_tags@);
            assert forall|t: N::V, i: int| #[trigger]
                cell_of(after, t, i) == if i == current_id && tags.contains_key(t) {
                    tags[t]
                } else {
                    cell_of(before, t, i)
                } by {
                lemma_written_all_cells(before, tags, current_id as int, len as int, t, i);
            }
            assert forall|i: int| 0 <= i < current_id implies tags_at(after, i) == tags_at(
                before,
                i,
            ) by {}
            assert(tags_at(after, current_id as int) =~= present_tags(tags)) by {
                assert forall|t: N::V| cell_of(before, t, current_id as int) is Empty by {}
            }
            assert forall|t: N::V| #[trigger] after.contains_key(t) implies after[t].len()
                <= len by {}
        }
    }

    /// Returns the tags of the word with the given id, each tag name once
    /// and none of them empty, in no particular order; no tags for an id
    /// that no word has.
    fn get_word_by_id(&self, id: usize) -> (r: Vec<Tag<N, I>>)
        requires
            self.wf(),
        ensures
            distinct_tags(r@),
            tag_map(r@) == if id < self@.len() {
                self@[id as int]
            } else {
                Map::<N::V, TagData<I::V>>::empty()
            },
    {
        let mut word_tags: Vec<Tag<N, I>> = Vec::new();
        let ghost columns = self.tags@;
        let ghost pairs = self.tags.pairs();
        let ghost i = id as int;
        let n = self.tags.len();
        let mut c: usize = 0;
        while c < n
            invariant
                columns == self.tags@,
                pairs == self.tags.pairs(),
                crate::assoc::distinct_keys(pairs),
                n == pairs.len(),
                i == id as int,
                c <= n,
                distinct_tags(word_tags@),
                tag_map(word_tags@) == tags_below(columns, pairs, i, c as int),
            decreases n - c,
        {
            let name = self.tags.name_at(c);
            let ghost prev = tags_below(columns, pairs, i, c as int);
            let ghost next = tags_below(columns, pairs, i, c + 1);
            let ghost t = name@;
            match self.tags.cell_at(c, id) {
                Some(cell) => {
                    proof {
                        let done = tag_pairs(word_tags@);
                        lemma_to_map_dom(done, t);
                        assert(!prev.contains_key(t)) by {
                            if has_key(pairs.subrange(0, c as int), t) {
                                let j = choose|j: int|
                                    0 <= j < c && #[trigger] pairs.subrange(0, c as int)[j].0 == t;
                            }
                        }
                        crate::assoc::lemma_distinct_push(done, t, cell@);
                        crate::assoc::lemma_to_map_push(done, t, cell@);
                    }
                    let ghost before_push = word_tags@;
                    word_tags.push(Tag::reconstruct(name, cell));
                    proof {
                        assert(tag_pairs(word_tags@) =~= tag_pairs(before_push).push((t, cell@)));
                        let ins = prev.insert(t, cell_of(columns, t, i));
                        assert forall|k: N::V| next.dom().contains(k) == ins.dom().contains(k) by {
                            lemma_has_key_prefix(pairs, c as int, k);
                        }
                        assert forall|k: N::V| next.dom().contains(k) implies next[k]
                            == ins[k] by {
                            lemma_has_key_prefix(pairs, c as int, k);
                        }
                    }
                },
                None => {
                    proof {
                        assert forall|k: N::V| next.dom().contains(k) == prev.dom().contains(k) by {
                            lemma_has_key_prefix(pairs, c as int, k);
                        }
                    }
                },
            }
            c += 1;
        }
        proof {
            assert(pairs.subrange(0, pairs.len() as int) == pairs);
            assert(tag_map(word_tags@) =~= tags_at(columns, i)) by {
                assert forall|t: N::V| has_key(pairs, t) <==> columns.contains_key(t) by {
                    lemma_to_map_dom(pairs, t);
                }
            }
        }
        word_tags
    }
}

/// The word manager stores the tags associated with words.
///
/// Each word that is added gets the next id. The view of a manager is the
/// sequence of its words: under each id the tags of the word, by their
/// names.
#[derive(Debug)]
pub struct WordManager<N: EncSysType, I: EncSysType> {
    rows: Rows<N, I>,
}

impl<N: EncSysType, I: EncSysType> View for WordManager<N, I> {
    type V = Seq<Map<N::V, TagData<I::V>>>;

    closed spec fn view(&self) -> Seq<Map<N::V, TagData<I::V>>> {
        self.rows@
    }
}

impl<N: EncSysType, I: EncSysType> WordManager<N, I> {
    #[verifier::type_invariant]
    spec fn inv(&self) -> bool {
        self.rows.wf()
    }

    /// Creates a word manager without words.
    pub fn new() -> (r: Self)
        ensures
            r@ == Seq::<Map<N::V, TagData<I::V>>>::empty(),
    {
        WordManager { rows: Rows::new() }
    }

    /// Returns the number of words, which is the id that the next word gets.
    pub fn len(&self) -> (r: usize)
        ensures
            r == self@.len(),
    {
        self.rows.next_id
    }

    /// Adds a word with the given tags under the next id. Of two tags of
    /// the same name the later one stays, and an empty tag is no tag.
    pub fn add_word(&mut self, word_tags: Vec<Tag<N, I>>)
        requires
            old(self)@.len() < usize::MAX,
        ensures
            final(self)@ == old(self)@.push(present_tags(tag_map(word_tags@))),
    {
        proof {
            use_type_invariant(&*self);
        }
        let mut rows = Rows::new();
        core::mem::swap(&mut self.rows, &mut rows);
        rows.add_word(word_tags);
        self.rows = rows;
    }

    /// Returns the tags of the word with the given id, each tag name once
    /// and none of them empty, in no particular order; no tags for an id
    /// that no word has.
    pub fn get_word_by_id(&self, id: usize) -> (r: Vec<Tag<N, I>>)
        ensures
            distinct_tags(r@),
            tag_map(r@) == if id < self@.len() {
                self@[id as int]
            } else {
                Map::<N::V, TagData<I::V>>::empty()
            },
    {
        proof {
            use_type_invariant(self);
        }
        self.rows.get_word_by_id(id)
    }
}

} // verus!
