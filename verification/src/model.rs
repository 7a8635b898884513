//! The mathematical model of an encyclopedia, over which its contracts are stated.
use vstd::prelude::*;
use vstd::set_lib::{set_int_range, lemma_int_range, lemma_len_subset};
use crate::assoc::{distinct_keys, has_key};
use crate::tag::{Tag, TagData};
use crate::word::WordView;

verus! {

/// A column of cells grown to `len` cells with empty ones; a column that is
/// already as long stays as it is.
pub open spec fn pad<I>(cells: Seq<TagData<I>>, len: int) -> Seq<TagData<I>> {
    Seq::new(
        if len > cells.len() {
            len as nat
        } else {
            cells.len()
        },
        |i: int|
            if i < cells.len() {
                cells[i]
            } else {
                TagData::Empty
            },
    )
}

/// The cells of the column of a tag name; none where nothing was ever
/// written under it.
pub open spec fn column_of<N, I>(columns: Map<N, Seq<TagData<I>>>, t: N) -> Seq<TagData<I>> {
    if columns.contains_key(t) {
        columns[t]
    } else {
        Seq::empty()
    }
}

/// What the columns hold for an id under a tag name: the cell of the column
/// for that id, and nothing where there is no such column or it does not
/// reach the id.
pub open spec fn cell_of<N, I>(columns: Map<N, Seq<TagData<I>>>, t: N, id: int) -> TagData<I> {
    if 0 <= id < column_of(columns, t).len() {
        column_of(columns, t)[id]
    } else {
        TagData::Empty
    }
}

/// The columns after a tag was written for `id` in an id space of `len`
/// ids: the column of the tag's name is grown to `len` cells, and its cell
/// for `id` is set.
pub open spec fn written_one<N, I>(
    columns: Map<N, Seq<TagData<I>>>,
    t: N,
    data: TagData<I>,
    id: int,
    len: int,
) -> Map<N, Seq<TagData<I>>> {
    columns.insert(t, pad(column_of(columns, t), len).update(id, data))
}

/// The columns after `tags` were written for `id` in an id space of `len`
/// ids: the column of each of the tags is grown to `len` cells, and its
/// cell for `id` is set.
pub open spec fn written_all<N, I>(
    columns: Map<N, Seq<TagData<I>>>,
    tags: Map<N, TagData<I>>,
    id: int,
    len: int,
) -> Map<N, Seq<TagData<I>>> {
    Map::new(
        |t: N| columns.contains_key(t) || tags.contains_key(t),
        |t: N|
            if tags.contains_key(t) {
                pad(column_of(columns, t), len).update(id, tags[t])
            } else {
                columns[t]
            },
    )
}

/// After tags were written for an id, the columns hold the tags for that
/// id under their names, and what they held before for it under any other
/// name and for any other id.
pub proof fn lemma_written_all_cells<N, I>(
    columns: Map<N, Seq<TagData<I>>>,
    tags: Map<N, TagData<I>>,
    id: int,
    len: int,
    t: N,
    i: int,
)
    requires
        0 <= id < len,
    ensures
        cell_of(written_all(columns, tags, id, len), t, i) == if i == id && tags.contains_key(t) {
            tags[t]
        } else {
            cell_of(columns, t, i)
        },
{
    if tags.contains_key(t) {
        assert(written_all(columns, tags, id, len)[t] == pad(column_of(columns, t), len).update(
            id,
            tags[t],
        ));
    }
}

/// Writing one more tag after others is writing them all at once.
pub proof fn lemma_written_all_step<N, I>(
    columns: Map<N, Seq<TagData<I>>>,
    tags: Map<N, TagData<I>>,
    t: N,
    data: TagData<I>,
    id: int,
    len: int,
)
    requires
        0 <= id < len,
    ensures
        written_one(written_all(columns, tags, id, len), t, data, id, len) == written_all(
            columns,
            tags.insert(t, data),
            id,
            len,
        ),
{
    let before = written_all(columns, tags, id, len);
    let one = written_one(before, t, data, id, len);
    let all = written_all(columns, tags.insert(t, data), id, len);
    assert forall|k: N| one.contains_key(k) implies one[k] == all[k] by {}
}

/// A column after the id space shrank from `len` ids by one: a column that
/// reached the last id loses its last cell.
pub open spec fn shrunk<I>(cells: Seq<TagData<I>>, len: int) -> Seq<TagData<I>> {
    if cells.len() == len && len > 0 {
        cells.drop_last()
    } else {
        cells
    }
}

/// A column after its cell for `id` was emptied, if it reaches that id.
pub open spec fn cleared<I>(cells: Seq<TagData<I>>, id: int) -> Seq<TagData<I>> {
    if 0 <= id < cells.len() {
        cells.update(id, TagData::Empty)
    } else {
        cells
    }
}

/// The tags of a word after the tags of a group were merged into them, in
/// their order: a tag of the group is added unless it is empty or the word
/// already has a tag of that name.
pub open spec fn splice<N, I>(m: Map<N, TagData<I>>, tags: Seq<Tag<N, I>>) -> Map<N, TagData<I>>
    decreases tags.len(),
{
    if tags.len() == 0 {
        m
    } else {
        let before = splice(m, tags.drop_last());
        let t = tags.last();
        if before.contains_key(t.name) || t.data is Empty {
            before
        } else {
            before.insert(t.name, t.data)
        }
    }
}

/// The positions of a sequence of names at which a name is recorded.
pub open spec fn live_set<W>(names: Seq<Option<W>>) -> Set<int> {
    Set::new(|id: int| 0 <= id < names.len() && names[id] is Some)
}

/// There are finitely many live positions, at most one for each position.
pub proof fn lemma_live_set_bounds<W>(names: Seq<Option<W>>)
    ensures
        live_set(names).finite(),
        live_set(names).len() <= names.len(),
{
    let range = set_int_range(0, names.len() as int);
    lemma_int_range(0, names.len() as int);
    lemma_len_subset(live_set(names), range);
}

/// Appending a name adds its position to the live ones; appending no name
/// leaves them as they are.
pub proof fn lemma_live_set_push<W>(names: Seq<Option<W>>, x: Option<W>)
    ensures
        x is Some ==> live_set(names.push(x)) == live_set(names).insert(names.len() as int),
        x is Some ==> live_set(names.push(x)).len() == live_set(names).len() + 1,
        x is None ==> live_set(names.push(x)) == live_set(names),
{
    lemma_live_set_bounds(names);
    if x is Some {
        assert(live_set(names.push(x)) =~= live_set(names).insert(names.len() as int));
    } else {
        assert(live_set(names.push(x)) =~= live_set(names));
    }
}

/// Clearing a position takes it from the live ones.
pub proof fn lemma_live_set_clear<W>(names: Seq<Option<W>>, id: int)
    requires
        0 <= id < names.len(),
    ensures
        live_set(names.update(id, None)) == live_set(names).remove(id),
        names[id] is Some ==> live_set(names.update(id, None)).len() == live_set(names).len() - 1,
        names[id] is None ==> live_set(names.update(id, None)) == live_set(names),
{
    lemma_live_set_bounds(names);
}

/// Dropping the last position takes it from the live ones.
pub proof fn lemma_live_set_drop_last<W>(names: Seq<Option<W>>)
    requires
        names.len() > 0,
    ensures
        live_set(names.drop_last()) == live_set(names).remove(names.len() - 1),
        names.last() is Some ==> live_set(names.drop_last()).len() == live_set(names).len() - 1,
        names.last() is None ==> live_set(names.drop_last()) == live_set(names),
{
    lemma_live_set_bounds(names);
}

/// No name is recorded at two positions.
pub open spec fn distinct_names<W>(names: Seq<Option<W>>) -> bool {
    forall|i: int, j: int|
        0 <= i < j < names.len() && (#[trigger] names[i]) is Some ==> names[i] != #[trigger] names[j]
}

/// The name is recorded at some position.
pub open spec fn recorded<W>(names: Seq<Option<W>>, name: W) -> bool {
    exists|id: int| 0 <= id < names.len() && #[trigger] names[id] == Some(name)
}

/// The position at which the name is recorded, where `recorded(names, name)`.
pub open spec fn position_of<W>(names: Seq<Option<W>>, name: W) -> int {
    choose|id: int| 0 <= id < names.len() && #[trigger] names[id] == Some(name)
}

/// The position that the name has after it was added: the one at which it
/// is recorded, or else the next new one.
pub open spec fn slot_for<W>(names: Seq<Option<W>>, name: W) -> int {
    if recorded(names, name) {
        position_of(names, name)
    } else {
        names.len() as int
    }
}

/// The names after a name was added: a new name is recorded at the next
/// new position, and a recorded one changes nothing.
pub open spec fn with_name<W>(names: Seq<Option<W>>, name: W) -> Seq<Option<W>> {
    if recorded(names, name) {
        names
    } else {
        names.push(Some(name))
    }
}

/// The names after a position was cleared; nothing changes for a position
/// out of range.
pub open spec fn without_name_at<W>(names: Seq<Option<W>>, id: int) -> Seq<Option<W>> {
    if 0 <= id < names.len() {
        names.update(id, None)
    } else {
        names
    }
}

/// The names after the last position was given up; nothing changes where
/// there is no position.
pub open spec fn without_last<W>(names: Seq<Option<W>>) -> Seq<Option<W>> {
    if names.len() > 0 {
        names.drop_last()
    } else {
        names
    }
}

/// Where no name is recorded twice, a name is recorded at one position only.
pub proof fn lemma_position_unique<W>(names: Seq<Option<W>>, id: int, name: W)
    requires
        distinct_names(names),
        0 <= id < names.len(),
        names[id] == Some(name),
    ensures
        recorded(names, name),
        position_of(names, name) == id,
{
    let at = position_of(names, name);
    if at < id {
        assert(names[at] != names[id]);
    } else if id < at {
        assert(names[id] != names[at]);
    }
}

/// The position of the group of the given name, where there is one.
pub open spec fn group_position<N, I>(groups: Seq<(N, Seq<Tag<N, I>>)>, g: N) -> int {
    choose|i: int| 0 <= i < groups.len() && #[trigger] groups[i].0 == g
}

/// The groups after a group was declared: a group of the same name is
/// replaced where it stands, a new one comes last.
pub open spec fn with_group<N, I>(
    groups: Seq<(N, Seq<Tag<N, I>>)>,
    name: N,
    tags: Seq<Tag<N, I>>,
) -> Seq<(N, Seq<Tag<N, I>>)> {
    if has_key(groups, name) {
        groups.update(group_position(groups, name), (name, tags))
    } else {
        groups.push((name, tags))
    }
}

/// Where no two groups have the same name, a name is that of one group only.
pub proof fn lemma_group_unique<N, I>(groups: Seq<(N, Seq<Tag<N, I>>)>, g: int, name: N)
    requires
        distinct_keys(groups),
        0 <= g < groups.len(),
        groups[g].0 == name,
    ensures
        has_key(groups, name),
        group_position(groups, name) == g,
{
    let at = group_position(groups, name);
    if at < g {
        assert(groups[at].0 != groups[g].0);
    } else if g < at {
        assert(groups[g].0 != groups[at].0);
    }
}

/// The tags of a word without those that are empty.
pub open spec fn present_tags<N, I>(tags: Map<N, TagData<I>>) -> Map<N, TagData<I>> {
    Map::new(|t: N| tags.contains_key(t) && !(tags[t] is Empty), |t: N| tags[t])
}

/// What an encyclopedia is.
///
/// Ids are the positions of `names`: an id is live where a name is recorded
/// for it, and vacant where none is. Each tag name that was ever written has
/// a column of cells, one for each id up to the column's length; ids beyond
/// it hold nothing under that tag name. The tag groups keep the order in
/// which their names were first declared.
#[verifier::reject_recursive_types(N)]
pub struct EncyclopediaView<W, N, I> {
    pub names: Seq<Option<W>>,
    pub columns: Map<N, Seq<TagData<I>>>,
    pub groups: Seq<(N, Seq<Tag<N, I>>)>,
}

impl<W, N, I> EncyclopediaView<W, N, I> {
    /// The encyclopedia without words, tags and groups.
    pub open spec fn empty() -> Self {
        EncyclopediaView { names: Seq::empty(), columns: Map::empty(), groups: Seq::empty() }
    }

    /// One past the highest id in use.
    pub open spec fn end_id(self) -> int {
        self.names.len() as int
    }

    /// A word is recorded under `id`.
    pub open spec fn is_live(self, id: int) -> bool {
        0 <= id < self.names.len() && self.names[id] is Some
    }

    /// The ids under which a word is recorded.
    pub open spec fn live_ids(self) -> Set<int> {
        live_set(self.names)
    }

    /// The number of words.
    pub open spec fn count(self) -> nat {
        self.live_ids().len()
    }

    /// A word of the given name is recorded.
    pub open spec fn has_name(self, name: W) -> bool {
        recorded(self.names, name)
    }

    /// The id of the word of the given name, where `has_name(name)`.
    pub open spec fn id_of(self, name: W) -> int {
        position_of(self.names, name)
    }

    /// The id that an insertion under the given name uses: that of the word
    /// of this name, or else the next new id.
    pub open spec fn slot_of(self, name: W) -> int {
        slot_for(self.names, name)
    }

    /// The cells of the column of a tag name; none where nothing was ever
    /// written under it.
    pub open spec fn column(self, t: N) -> Seq<TagData<I>> {
        column_of(self.columns, t)
    }

    /// What is stored for an id under a tag name.
    pub open spec fn cell(self, t: N, id: int) -> TagData<I> {
        cell_of(self.columns, t, id)
    }

    /// A tag group of the given name is declared.
    pub open spec fn is_group(self, g: N) -> bool {
        has_key(self.groups, g)
    }

    /// The position of the tag group of the given name, where `is_group(g)`.
    pub open spec fn group_index(self, g: N) -> int {
        group_position(self.groups, g)
    }

    /// The tags that an id holds by itself: what is stored for it under each
    /// tag name that is not the name of a group.
    pub open spec fn direct_tags(self, id: int) -> Map<N, TagData<I>> {
        Map::new(|t: N| !self.is_group(t) && !(self.cell(t, id) is Empty), |t: N| self.cell(t, id))
    }

    /// The id makes use of the group at position `g`: something is stored
    /// for it under the group's name.
    pub open spec fn activates(self, id: int, g: int) -> bool {
        !(self.cell(self.groups[g].0, id) is Empty)
    }

    /// The tags of an id after the first `k` groups were merged into its own
    /// tags, each group that the id makes use of in turn.
    pub open spec fn expanded(self, id: int, k: int) -> Map<N, TagData<I>>
        decreases k,
    {
        if k <= 0 {
            self.direct_tags(id)
        } else {
            let before = self.expanded(id, k - 1);
            if self.activates(id, k - 1) {
                splice(before, self.groups[k - 1].1)
            } else {
                before
            }
        }
    }

    /// The tags of the word under an id: its own tags, and those of the
    /// groups that it makes use of.
    pub open spec fn tags_of(self, id: int) -> Map<N, TagData<I>> {
        self.expanded(id, self.groups.len() as int)
    }

    /// The word under an id, if one is recorded there.
    pub open spec fn word(self, id: int) -> Option<WordView<W, N, I>> {
        if self.is_live(id) {
            Some(WordView { name: self.names[id]->0, tags: self.tags_of(id) })
        } else {
            None
        }
    }

    /// The words under the ids from `from` on, in ascending order of their ids.
    pub open spec fn words_from(self, from: int) -> Seq<WordView<W, N, I>>
        decreases self.names.len() - from,
    {
        if from < 0 || from >= self.names.len() {
            Seq::empty()
        } else if self.is_live(from) {
            seq![self.word(from)->0] + self.words_from(from + 1)
        } else {
            self.words_from(from + 1)
        }
    }

    /// All words, in ascending order of their ids.
    pub open spec fn words(self) -> Seq<WordView<W, N, I>> {
        self.words_from(0)
    }

    /// The least live id from `from` on, or the end id if there is none.
    pub open spec fn next_live(self, from: int) -> int
        decreases self.names.len() - from,
    {
        if from < 0 || from >= self.names.len() {
            self.names.len() as int
        } else if self.names[from] is Some {
            from
        } else {
            self.next_live(from + 1)
        }
    }

    /// What holds of every encyclopedia: no name is recorded under two ids,
    /// no column is longer than the id space, a vacant id holds nothing, and
    /// no two groups have the same name.
    pub open spec fn valid(self) -> bool {
        &&& distinct_names(self.names)
        &&& forall|t: N| #[trigger]
            self.columns.contains_key(t) ==> self.columns[t].len() <= self.names.len()
        &&& forall|t: N, id: int|
            0 <= id < self.names.len() && self.names[id] is None ==> (#[trigger] self.cell(
                t,
                id,
            )) is Empty
        &&& distinct_keys(self.groups)
    }

    /// The columns after `tags` were written for `id` in an id space of `len`
    /// ids: the column of each of the tags is grown to `len` cells, and its
    /// cell for `id` is set.
    pub open spec fn written(self, tags: Map<N, TagData<I>>, id: int, len: int) -> Map<
        N,
        Seq<TagData<I>>,
    > {
        written_all(self.columns, tags, id, len)
    }

    /// The encyclopedia after a word was inserted: a word of a new name gets
    /// the next new id, one of a recorded name keeps its id; the tags of the
    /// word are written for that id, and what was stored for it under other
    /// tag names stays.
    pub open spec fn insert(self, w: WordView<W, N, I>) -> Self {
        let names = with_name(self.names, w.name);
        EncyclopediaView {
            names,
            columns: self.written(w.tags, self.slot_of(w.name), names.len() as int),
            groups: self.groups,
        }
    }

    /// The encyclopedia after its last id was given up: the id space ends one
    /// id earlier, and each column that reached the last id loses its last cell.
    pub open spec fn pop_last(self) -> Self {
        EncyclopediaView {
            names: self.names.drop_last(),
            columns: self.columns.map_values(
                |cells: Seq<TagData<I>>| shrunk(cells, self.names.len() as int),
            ),
            groups: self.groups,
        }
    }

    /// The encyclopedia after the word under `id` was removed in place: the
    /// id becomes vacant, every cell for it is emptied, and the id space
    /// stays as it is.
    pub open spec fn tombstone(self, id: int) -> Self {
        EncyclopediaView {
            names: self.names.update(id, None),
            columns: self.columns.map_values(|cells: Seq<TagData<I>>| cleared(cells, id)),
            groups: self.groups,
        }
    }

    /// The encyclopedia after the removal of `id`: nothing changes where
    /// there is no word at all; the last id is given up, live or vacant; the
    /// word under another live id is removed in place; and nothing changes
    /// for any other id.
    pub open spec fn remove(self, id: int) -> Self {
        if self.count() == 0 {
            self
        } else if id == self.names.len() - 1 {
            self.pop_last()
        } else if self.is_live(id) {
            self.tombstone(id)
        } else {
            self
        }
    }

    /// The encyclopedia after a tag group was declared: a group of the same
    /// name is replaced where it stands, a new one comes last.
    pub open spec fn add_group(self, name: N, tags: Seq<Tag<N, I>>) -> Self {
        EncyclopediaView {
            names: self.names,
            columns: self.columns,
            groups: with_group(self.groups, name, tags),
        }
    }
}

/// A change of an encyclopedia.
#[verifier::reject_recursive_types(N)]
pub enum Change<W, N, I> {
    /// A word is inserted.
    Insert(WordView<W, N, I>),
    /// An id is removed.
    Remove(int),
    /// A tag group is declared.
    AddGroup(N, Seq<Tag<N, I>>),
}

impl<W, N, I> EncyclopediaView<W, N, I> {
    /// The encyclopedia after a change.
    pub open spec fn changed(self, change: Change<W, N, I>) -> Self {
        match change {
            Change::Insert(w) => self.insert(w),
            Change::Remove(id) => self.remove(id),
            Change::AddGroup(name, tags) => self.add_group(name, tags),
        }
    }

    /// The encyclopedia after a sequence of changes, the first one first.
    pub open spec fn changed_by(self, changes: Seq<Change<W, N, I>>) -> Self
        decreases changes.len(),
    {
        if changes.len() == 0 {
            self
        } else {
            self.changed_by(changes.drop_last()).changed(changes.last())
        }
    }
}

} // verus!
