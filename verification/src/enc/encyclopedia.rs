//! The encyclopedia of a language, and the cursors over what it holds.
use vstd::prelude::*;
use crate::assoc::lemma_to_map_entry;
use crate::collections::{VecMap, VecMapIter, VecSet};
use crate::enc::ling::error::{LingError, LingErrorView};
use crate::enc::ling::grammeme::{GrammCategory, GrammCategoryView, Grammeme, GrammemeView};
use crate::enc::ling::tag::{LingTag, LingTagView};
use crate::enc::word::Word;
use crate::util::EncSysType;
use crate::world::enc::encyclopedia::yields_each_once;
use crate::world::enc::word::WordView;

verus! {

/// What an encyclopedia of a language is: the tags of its words, and its
/// grammatical categories, both by their names.
pub struct EncyclopediaView {
    pub words: Map<Seq<char>, Set<LingTagView>>,
    pub gramm_cats: Map<Seq<char>, GrammCategoryView>,
}

impl EncyclopediaView {
    /// The grammeme that a category name and a value stand for. Without a
    /// value it is the default value of the category. It is an error where
    /// there is no such category, where the value is not one of the
    /// category, and where no value is given and the category has no
    /// default value.
    pub open spec fn grammeme(self, categ_name: Seq<char>, value: Option<Seq<char>>) -> Result<
        GrammemeView,
        LingErrorView,
    > {
        if !self.gramm_cats.contains_key(categ_name) {
            Err(LingErrorView::NoSuchGrammCat(categ_name))
        } else {
            let cat = self.gramm_cats[categ_name];
            match value {
                Some(v) => if cat.values.contains(v) {
                    Ok(GrammemeView { cat_name: categ_name, value: v })
                } else {
                    Err(LingErrorView::NoSuchGrammeme(v))
                },
                None => match cat.default_value {
                    Some(d) => Ok(GrammemeView { cat_name: categ_name, value: d }),
                    None => Err(LingErrorView::NoDefaultOrValue(categ_name)),
                },
            }
        }
    }
}

/// The view of the outcome of making a grammeme.
pub open spec fn grammeme_result_view(r: Result<Grammeme, LingError>) -> Result<
    GrammemeView,
    LingErrorView,
> {
    match r {
        Ok(g) => Ok(g@),
        Err(e) => Err(e@),
    }
}

/// A word manager that stores the tags associated with words, and the
/// grammatical categories of the language.
#[derive(Debug)]
pub struct Encyclopedia {
    /// The tags of each word, by its name.
    word_map: VecMap<String, VecSet<LingTag>>,
    /// The grammatical categories, by their names.
    gramm_cats: VecMap<String, GrammCategory>,
}

impl View for Encyclopedia {
    type V = EncyclopediaView;

    closed spec fn view(&self) -> EncyclopediaView {
        EncyclopediaView {
            words: self.word_map@.map_values(|s: VecSet<LingTag>| s@),
            gramm_cats: self.gramm_cats@.map_values(|c: GrammCategory| c@),
        }
    }
}

impl Encyclopedia {
    /// Creates a new empty encyclopedia.
    pub fn new() -> (r: Self)
        ensures
            r@.words == Map::<Seq<char>, Set<LingTagView>>::empty(),
            r@.gramm_cats == Map::<Seq<char>, GrammCategoryView>::empty(),
    {
        Encyclopedia { word_map: VecMap::new(), gramm_cats: VecMap::new() }
    }

    /// Adds a word; it replaces a word of the same name.
    pub fn add_word(&mut self, word: Word)
        ensures
            final(self)@.words == old(self)@.words.insert(word@.name, word@.tags),
            final(self)@.gramm_cats == old(self)@.gramm_cats,
    {
        let (name, tags) = word.into_map_entry();
        self.word_map.insert(name, tags);
    }

    /// Returns the word with the given name; `None` if there is no such word.
    pub fn get_word(&self, name: &String) -> (r: Option<Word>)
        ensures
            match r {
                Some(w) => self@.words.contains_key(name@) && w@ == (WordView {
                    name: name@,
                    tags: self@.words[name@],
                }),
                None => !self@.words.contains_key(name@),
            },
    {
        match self.word_map.get(name) {
            Some(set) => Some(Word::from_parts(name.duplicate(), set.duplicate())),
            None => None,
        }
    }

    /// Removes the word with the given name.
    pub fn remove_word(&mut self, name: &String)
        ensures
            final(self)@.words == old(self)@.words.remove(name@),
            final(self)@.gramm_cats == old(self)@.gramm_cats,
    {
        self.word_map.remove(name);
    }

    /// Returns the number of words.
    pub fn word_amount(&self) -> (r: usize)
        ensures
            r == self@.words.len(),
    {
        let r = self.word_map.len();
        proof {
            assert(self@.words.dom() =~= self.word_map@.dom());
        }
        r
    }

    /// Returns a cursor over the words, which yields each word once.
    pub fn iter_words(&self) -> (r: WordIter<'_>)
        ensures
            yields_each_once(r.order(), self@.words),
            r.position() == 0,
    {
        let inner = self.word_map.iter();
        proof {
            let pairs = inner.order();
            let order = pairs.map_values(
                |p: (Seq<char>, VecSet<LingTag>)| WordView { name: p.0, tags: p.1@ },
            );
            assert forall|k: int| 0 <= k < order.len() implies self@.words.contains_key(
                (#[trigger] order[k]).name,
            ) && self@.words[order[k].name] == order[k].tags by {
                lemma_to_map_entry(pairs, k);
            }
            assert forall|i: int, j: int| 0 <= i < j < order.len() implies (#[trigger] order[i]).name
                != (#[trigger] order[j]).name by {
                assert(pairs[i].0 != pairs[j].0);
            }
            assert(self@.words.dom() =~= self.word_map@.dom());
        }
        WordIter { inner }
    }

    /// Adds a grammatical category; it replaces a category of the same name.
    pub fn add_gramm_cat(&mut self, categ: GrammCategory)
        ensures
            final(self)@.words == old(self)@.words,
            final(self)@.gramm_cats == old(self)@.gramm_cats.insert(categ@.name, categ@),
    {
        let name = categ.get_name().duplicate();
        self.gramm_cats.insert(name, categ);
    }

    /// Returns the category with the given name, if there is one.
    pub fn get_gramm_cat(&self, name: &String) -> (r: Option<GrammCategory>)
        ensures
            match r {
                Some(c) => self@.gramm_cats.contains_key(name@) && c@ == self@.gramm_cats[name@],
                None => !self@.gramm_cats.contains_key(name@),
            },
    {
        match self.gramm_cats.get(name) {
            Some(c) => Some(c.duplicate()),
            None => None,
        }
    }

    /// Returns the number of grammatical categories.
    pub fn gramm_cat_amount(&self) -> (r: usize)
        ensures
            r == self@.gramm_cats.len(),
    {
        let r = self.gramm_cats.len();
        proof {
            assert(self@.gramm_cats.dom() =~= self.gramm_cats@.dom());
        }
        r
    }

    /// Returns a cursor over the grammatical categories, which yields
    /// each category once.
    pub fn iter_gramm_cats(&self) -> (r: GrammCatIter<'_>)
        ensures
            r.order().len() == self@.gramm_cats.len(),
            forall|k: int|
                0 <= k < r.order().len() ==> self@.gramm_cats.contains_key(
                    (#[trigger] r.order()[k]).0,
                ) && self@.gramm_cats[r.order()[k].0] == r.order()[k].1,
            forall|i: int, j: int|
                0 <= i < j < r.order().len() ==> (#[trigger] r.order()[i]).0 != (
                #[trigger] r.order()[j]).0,
            r.position() == 0,
    {
        let inner = self.gramm_cats.iter();
        proof {
            let pairs = inner.order();
            let order = pairs.map_values(|p: (Seq<char>, GrammCategory)| (p.0, p.1@));
            assert forall|k: int| 0 <= k < order.len() implies self@.gramm_cats.contains_key(
                (#[trigger] order[k]).0,
            ) && self@.gramm_cats[order[k].0] == order[k].1 by {
                lemma_to_map_entry(pairs, k);
            }
            assert forall|i: int, j: int| 0 <= i < j < order.len() implies (#[trigger] order[i]).0
                != (#[trigger] order[j]).0 by {
                assert(pairs[i].0 != pairs[j].0);
            }
            assert(self@.gramm_cats.dom() =~= self.gramm_cats@.dom());
        }
        GrammCatIter { inner }
    }

    /// Makes a grammeme of a category name and a value, after checking that
    /// they make up a valid one. Without a value the grammeme is the
    /// default value of the category.
    pub fn create_grammeme(&self, categ_name: &String, value: Option<&String>) -> (r: Result<
        Grammeme,
        LingError,
    >)
        ensures
            grammeme_result_view(r) == self@.grammeme(
                categ_name@,
                match value {
                    Some(v) => Some(v@),
                    None => None,
                },
            ),
    {
        match self.gramm_cats.get(categ_name) {
            Some(cat) => {
                let val = match value {
                    Some(v) => match cat.get_value(v) {
                        Some(found) => Ok(found.duplicate()),
                        None => Err(LingError::NoSuchGrammeme(v.duplicate())),
                    },
                    None => match cat.get_default_value() {
                        Some(d) => Ok(d.duplicate()),
                        None => Err(LingError::NoDefaultOrValue(categ_name.duplicate())),
                    },
                };
                match val {
                    Ok(v) => Ok(Grammeme::new(categ_name.duplicate(), v)),
                    Err(e) => Err(e),
                }
            },
            None => Err(LingError::NoSuchGrammCat(categ_name.duplicate())),
        }
    }

    /// Tells whether the encyclopedia has neither words nor grammatical
    /// categories.
    pub fn is_empty(&self) -> (r: bool)
        ensures
            r == (self@.words.len() == 0 && self@.gramm_cats.len() == 0),
    {
        let r = self.word_map.is_empty() && self.gramm_cats.is_empty();
        proof {
            assert(self@.words.dom() =~= self.word_map@.dom());
            assert(self@.gramm_cats.dom() =~= self.gramm_cats@.dom());
        }
        r
    }
}

/// A cursor that goes through the words of an encyclopedia, each once.
pub struct WordIter<'a> {
    inner: VecMapIter<'a, String, VecSet<LingTag>>,
}

impl<'a> WordIter<'a> {
    /// The words in the order in which the cursor yields them.
    pub closed spec fn order(&self) -> Seq<WordView<Seq<char>, LingTagView>> {
        self.inner.order().map_values(
            |p: (Seq<char>, VecSet<LingTag>)| WordView { name: p.0, tags: p.1@ },
        )
    }

    /// The number of words that the cursor has yielded.
    pub closed spec fn position(&self) -> int {
        self.inner.position()
    }

    /// Returns the next word, or `None` where all were yielded.
    pub fn next(&mut self) -> (r: Option<Word>)
        ensures
            final(self).order() == old(self).order(),
            0 <= old(self).position() <= old(self).order().len(),
            match r {
                Some(w) => {
                    &&& old(self).position() < old(self).order().len()
                    &&& w@ == old(self).order()[old(self).position()]
                    &&& final(self).position() == old(self).position() + 1
                },
                None => {
                    &&& old(self).position() == old(self).order().len()
                    &&& final(self).position() == old(self).position()
                },
            },
    {
        let ghost at = self.inner.position();
        match self.inner.next() {
            Some(e) => {
                let w = Word::from_parts(e.key.duplicate(), e.value.duplicate());
                proof {
                    assert(self.order()[at] == (WordView { name: e.key@, tags: e.value@ }));
                }
                Some(w)
            },
            None => None,
        }
    }
}

/// A cursor that goes through the grammatical categories of an
/// encyclopedia, each once.
pub struct GrammCatIter<'a> {
    inner: VecMapIter<'a, String, GrammCategory>,
}

impl<'a> GrammCatIter<'a> {
    /// The categories in the order in which the cursor yields them, each
    /// with the name under which it is kept.
    pub closed spec fn order(&self) -> Seq<(Seq<char>, GrammCategoryView)> {
        self.inner.order().map_values(|p: (Seq<char>, GrammCategory)| (p.0, p.1@))
    }

    /// The number of categories that the cursor has yielded.
    pub closed spec fn position(&self) -> int {
        self.inner.position()
    }

    /// Returns the next category, or `None` where all were yielded.
    pub fn next(&mut self) -> (r: Option<GrammCategory>)
        ensures
            final(self).order() == old(self).order(),
            0 <= old(self).position() <= old(self).order().len(),
            match r {
                Some(c) => {
                    &&& old(self).position() < old(self).order().len()
                    &&& c@ == old(self).order()[old(self).position()].1
                    &&& final(self).position() == old(self).position() + 1
                },
                None => {
                    &&& old(self).position() == old(self).order().len()
                    &&& final(self).position() == old(self).position()
                },
            },
    {
        let ghost at = self.inner.position();
        match self.inner.next() {
            Some(e) => {
                let c = e.value.duplicate();
                proof {
                    assert(self.order()[at] == (e.key@, e.value@));
                }
                Some(c)
            },
            None => None,
        }
    }
}

} // verus!
