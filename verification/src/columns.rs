//! The tag columns: for each tag name, what each id holds under it.
use vstd::prelude::*;
use crate::assoc::{distinct_keys, has_key, to_map, lemma_to_map_dom, lemma_to_map_entry, lemma_to_map_pointwise, lemma_to_map_push, lemma_to_map_update, lemma_distinct_push};
use crate::model::{cell_of, cleared, column_of, pad, shrunk, written_all, written_one, lemma_written_all_step};
use crate::word::{tag_map, tag_pairs};
use crate::tag::{Tag, TagData};
use crate::util::EncSysType;

verus! {

/// The cells stored under one tag name, one for each id up to the length of
/// the column.
#[derive(Debug)]
struct Column<N, I> {
    name: N,
    cells: Vec<TagData<I>>,
}

/// The views of the cells of a column.
spec fn cell_views<I: View>(cells: Seq<TagData<I>>) -> Seq<TagData<I::V>> {
    cells.map_values(|d: TagData<I>| d@)
}

/// The columns as pairs of a tag name and its cells.
spec fn column_pairs<N: View, I: View>(cols: Seq<Column<N, I>>) -> Seq<(N::V, Seq<TagData<I::V>>)> {
    cols.map_values(|c: Column<N, I>| (c.name@, cell_views(c.cells@)))
}

/// Grows a column to `len` cells with empty ones and stores `data` in its
/// cell for `id`.
fn grow_and_set<I: EncSysType>(cells: &mut Vec<TagData<I>>, len: usize, id: usize, data: TagData<I>)
    requires
        id < len,
    ensures
        cell_views(final(cells)@) == pad(cell_views(old(cells)@), len as int).update(
            id as int,
            data@,
        ),
{
    while cells.len() < len
        invariant
            old(cells)@.len() <= cells@.len(),
            cells@.len() <= len || cells@.len() == old(cells)@.len(),
            forall|i: int| 0 <= i < old(cells)@.len() ==> cells@[i] == old(cells)@[i],
            forall|i: int| old(cells)@.len() <= i < cells@.len() ==> cells@[i] is Empty,
        decreases len - cells@.len(),
    {
        cells.push(TagData::Empty);
    }
    cells[id] = data;
    proof {
        assert(cell_views(cells@) =~= pad(cell_views(old(cells)@), len as int).update(
            id as int,
            data@,
        ));
    }
}

/// The columns of a store: one column for each tag name that was ever
/// written, with one cell for each id up to the column's length.
#[derive(Debug)]
pub struct TagColumns<N: EncSysType, I: EncSysType> {
    cols: Vec<Column<N, I>>,
}

impl<N: EncSysType, I: EncSysType> View for TagColumns<N, I> {
    type V = Map<N::V, Seq<TagData<I::V>>>;

    closed spec fn view(&self) -> Map<N::V, Seq<TagData<I::V>>> {
        to_map(column_pairs(self.cols@))
    }
}

impl<N: EncSysType, I: EncSysType> TagColumns<N, I> {
    #[verifier::type_invariant]
    spec fn inv(&self) -> bool {
        distinct_keys(column_pairs(self.cols@))
    }

    /// The columns in the order in which they are kept: each tag name
    /// once, with its cells.
    pub closed spec fn pairs(&self) -> Seq<(N::V, Seq<TagData<I::V>>)> {
        column_pairs(self.cols@)
    }

    /// Creates columns for no tag name.
    pub fn new() -> (r: Self)
        ensures
            r@ == Map::<N::V, Seq<TagData<I::V>>>::empty(),
    {
        TagColumns { cols: Vec::new() }
    }

    /// Returns the number of columns. The columns hold each tag name once,
    /// and they are the map of their pairs.
    pub fn len(&self) -> (r: usize)
        ensures
            r == self.pairs().len(),
            distinct_keys(self.pairs()),
            self@ == to_map(self.pairs()),
    {
        proof {
            use_type_invariant(self);
        }
        self.cols.len()
    }

    /// Returns the tag name of the column at a position.
    pub fn name_at(&self, c: usize) -> (r: &N)
        requires
            c < self.pairs().len(),
        ensures
            r@ == self.pairs()[c as int].0,
            self@.contains_key(r@),
            self@[r@] == self.pairs()[c as int].1,
    {
        proof {
            use_type_invariant(self);
            lemma_to_map_entry(column_pairs(self.cols@), c as int);
        }
        &self.cols[c].name
    }

    /// Returns what the column at a position holds for an id, unless it is
    /// empty.
    pub fn cell_at(&self, c: usize, id: usize) -> (r: Option<&TagData<I>>)
        requires
            c < self.pairs().len(),
        ensures
            match r {
                Some(d) => d@ == cell_of(self@, self.pairs()[c as int].0, id as int) && !(d@ is Empty),
                None => cell_of(self@, self.pairs()[c as int].0, id as int) is Empty,
            },
    {
        proof {
            use_type_invariant(self);
            lemma_to_map_entry(column_pairs(self.cols@), c as int);
        }
        let cells = &self.cols[c].cells;
        if id < cells.len() && !cells[id].is_empty() {
            Some(&cells[id])
        } else {
            None
        }
    }

    /// The position of the column of the given tag name, if there is one.
    fn find(&self, name: &N) -> (r: Option<usize>)
        ensures
            match r {
                Some(c) => c < self.cols@.len() && self.pairs()[c as int].0 == name@
                    && self@.contains_key(name@) && self@[name@] == self.pairs()[c as int].1,
                None => !self@.contains_key(name@) && !has_key(self.pairs(), name@),
            },
    {
        let ghost pairs = column_pairs(self.cols@);
        proof {
            use_type_invariant(self);
            lemma_to_map_dom(pairs, name@);
        }
        let mut k: usize = 0;
        while k < self.cols.len()
            invariant
                pairs == column_pairs(self.cols@),
                k <= self.cols@.len(),
                forall|i: int| 0 <= i < k ==> (#[trigger] pairs[i]).0 != name@,
            decreases self.cols@.len() - k,
        {
            if self.cols[k].name.same(name) {
                proof {
                    use_type_invariant(self);
                    lemma_to_map_entry(pairs, k as int);
                }
                return Some(k);
            }
            k += 1;
        }
        None
    }

    /// Returns what is held for an id under a tag name, unless it is empty:
    /// nothing is held where there is no column of that name, or where the
    /// column does not reach the id.
    pub fn read(&self, name: &N, id: usize) -> (r: Option<&TagData<I>>)
        ensures
            match r {
                Some(d) => d@ == cell_of(self@, name@, id as int) && !(d@ is Empty),
                None => cell_of(self@, name@, id as int) is Empty,
            },
    {
        match self.find(name) {
            Some(c) => self.cell_at(c, id),
            None => None,
        }
    }

    /// Stores a tag for an id in an id space of `len` ids: the column of
    /// the tag's name is made if there is none, it is grown to `len` cells
    /// with empty ones, and its cell for the id is set.
    pub fn write(&mut self, tag: Tag<N, I>, id: usize, len: usize)
        requires
            id < len,
        ensures
            final(self)@ == written_one(old(self)@, tag.name@, tag.data@, id as int, len as int),
    {
        proof {
            use_type_invariant(&*self);
        }
        let ghost before = self@;
        let ghost key = tag.name@;
        let ghost old_pairs = column_pairs(self.cols@);
        let Tag { name, data } = tag;
        let found = self.find(&name);
        let mut cols: Vec<Column<N, I>> = Vec::new();
        core::mem::swap(&mut self.cols, &mut cols);
        let c = match found {
            Some(c) => c,
            None => {
                proof {
                    lemma_distinct_push(old_pairs, key, Seq::empty());
                    lemma_to_map_push(old_pairs, key, Seq::empty());
                    assert(cell_views(Seq::<TagData<I>>::empty()) =~= Seq::empty());
                }
                cols.push(Column { name, cells: Vec::new() });
                proof {
                    assert(column_pairs(cols@) =~= old_pairs.push((key, Seq::empty())));
                }
                cols.len() - 1
            },
        };
        let ghost mid_pairs = column_pairs(cols@);
        proof {
            lemma_to_map_entry(mid_pairs, c as int);
        }
        grow_and_set(&mut cols[c].cells, len, id, data);
        proof {
            let cells = pad(column_of(before, key), len as int).update(id as int, data@);
            assert(column_pairs(cols@) =~= mid_pairs.update(c as int, (key, cells)));
            lemma_to_map_update(mid_pairs, c as int, cells);
        }
        core::mem::swap(&mut self.cols, &mut cols);
    }

    /// Stores tags for an id in an id space of `len` ids, one after the
    /// other; of two tags of the same name the later one stays.
    pub fn write_all(&mut self, tags: Vec<Tag<N, I>>, id: usize, len: usize)
        requires
            id < len,
        ensures
            final(self)@ == written_all(old(self)@, tag_map(tags@), id as int, len as int),
    {
        let ghost before = self@;
        let ghost all = tags@;
        proof {
            assert(before =~= written_all(
                before,
                tag_map(all.subrange(0, 0)),
                id as int,
                len as int,
            ));
        }
        for tag in it: tags
            invariant
                it.seq() == all,
                id < len,
                self@ == written_all(
                    before,
                    tag_map(all.subrange(0, it.index() as int)),
                    id as int,
                    len as int,
                ),
        {
            proof {
                let n = it.index() as int;
                let done = all.subrange(0, n);
                let next = all.subrange(0, n + 1);
                assert(tag_pairs(next) == tag_pairs(done).push((tag.name@, tag.data@)));
                lemma_to_map_push(tag_pairs(done), tag.name@, tag.data@);
                lemma_written_all_step(
                    before,
                    tag_map(done),
                    tag.name@,
                    tag.data@,
                    id as int,
                    len as int,
                );
            }
            self.write(tag, id, len);
        }
        proof {
            assert(all.subrange(0, all.len() as int) == all);
        }
    }

    /// Shrinks the columns after the id space lost the last of its `len`
    /// ids: each column that reached that id loses its last cell, and a
    /// shorter column stays as it is.
    pub fn shrink_row(&mut self, len: usize)
        ensures
            final(self)@ == old(self)@.map_values(
                |cells: Seq<TagData<I::V>>| shrunk(cells, len as int),
            ),
    {
        proof {
            use_type_invariant(&*self);
        }
        let ghost old_pairs = column_pairs(self.cols@);
        let mut cols: Vec<Column<N, I>> = Vec::new();
        core::mem::swap(&mut self.cols, &mut cols);
        let ghost old_cols = cols@;
        let mut c: usize = 0;
        while c < cols.len()
            invariant
                c <= cols@.len(),
                cols@.len() == old_cols.len(),
                old_pairs == column_pairs(old_cols),
                forall|j: int|
                    0 <= j < c ==> #[trigger] column_pairs(cols@)[j] == (
                        old_pairs[j].0,
                        shrunk(old_pairs[j].1, len as int),
                    ),
                forall|j: int| c <= j < old_cols.len() ==> cols@[j] == old_cols[j],
            decreases cols@.len() - c,
        {
            let ghost prev = cols@;
            let ghost cells = cols@[c as int].cells@;
            if len > 0 && cols[c].cells.len() == len {
                cols[c].cells.pop();
            }
            proof {
                assert(column_pairs(cols@)[c as int] == (
                    old_pairs[c as int].0,
                    shrunk(old_pairs[c as int].1, len as int),
                ));
                assert forall|j: int| 0 <= j < c implies #[trigger] column_pairs(cols@)[j] == (
                    old_pairs[j].0,
                    shrunk(old_pairs[j].1, len as int),
                ) by {
                    assert(column_pairs(prev)[j] == (
                        old_pairs[j].0,
                        shrunk(old_pairs[j].1, len as int),
                    ));
                }
            }
            c += 1;
        }
        proof {
            lemma_to_map_pointwise(
                old_pairs,
                column_pairs(cols@),
                |cells: Seq<TagData<I::V>>| shrunk(cells, len as int),
            );
            assert(to_map(column_pairs(cols@)) =~= to_map(old_pairs).map_values(
                |cells: Seq<TagData<I::V>>| shrunk(cells, len as int),
            ));
        }
        core::mem::swap(&mut self.cols, &mut cols);
    }

    /// Empties the cell for an id in every column that reaches it; the
    /// length of each column stays.
    pub fn tombstone_row(&mut self, id: usize)
        ensures
            final(self)@ == old(self)@.map_values(
                |cells: Seq<TagData<I::V>>| cleared(cells, id as int),
            ),
    {
        proof {
            use_type_invariant(&*self);
        }
        let ghost old_pairs = column_pairs(self.cols@);
        let mut cols: Vec<Column<N, I>> = Vec::new();
        core::mem::swap(&mut self.cols, &mut cols);
        let ghost old_cols = cols@;
        let mut c: usize = 0;
        while c < cols.len()
            invariant
                c <= cols@.len(),
                cols@.len() == old_cols.len(),
                old_pairs == column_pairs(old_cols),
                forall|j: int|
                    0 <= j < c ==> #[trigger] column_pairs(cols@)[j] == (
                        old_pairs[j].0,
                        cleared(old_pairs[j].1, id as int),
                    ),
                forall|j: int| c <= j < old_cols.len() ==> cols@[j] == old_cols[j],
            decreases cols@.len() - c,
        {
            let ghost prev = cols@;
            let ghost cells = cols@[c as int].cells@;
            if id < cols[c].cells.len() {
                cols[c].cells[id] = TagData::Empty;
                proof {
                    assert(cell_views(cols@[c as int].cells@) =~= cell_views(cells).update(
                        id as int,
                        TagData::Empty,
                    ));
                }
            }
            proof {
                assert(column_pairs(cols@)[c as int] == (
                    old_pairs[c as int].0,
                    cleared(old_pairs[c as int].1, id as int),
                ));
                assert forall|j: int| 0 <= j < c implies #[trigger] column_pairs(cols@)[j] == (
                    old_pairs[j].0,
                    cleared(old_pairs[j].1, id as int),
                ) by {
                    assert(column_pairs(prev)[j] == (
                        old_pairs[j].0,
                        cleared(old_pairs[j].1, id as int),
                    ));
                }
            }
            c += 1;
        }
        proof {
            lemma_to_map_pointwise(
                old_pairs,
                column_pairs(cols@),
                |cells: Seq<TagData<I::V>>| cleared(cells, id as int),
            );
            assert(to_map(column_pairs(cols@)) =~= to_map(old_pairs).map_values(
                |cells: Seq<TagData<I::V>>| cleared(cells, id as int),
            ));
        }
        core::mem::swap(&mut self.cols, &mut cols);
    }
}

} // verus!
