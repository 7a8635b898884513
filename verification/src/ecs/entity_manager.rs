//! The entity manager: entities stored under ids, with their components
//! in columns.
use vstd::prelude::*;
use crate::assoc::{distinct_keys, has_key, to_map, lemma_has_key_prefix, lemma_to_map_dom, lemma_to_map_entry, lemma_to_map_push};
use crate::columns::TagColumns;
use crate::ecs::component::Comp;
use crate::ecs::entity::{Entity, EntityView};
use crate::model::{cell_of, column_of, live_set, lemma_live_set_bounds, lemma_live_set_clear, lemma_live_set_drop_last, lemma_live_set_push, pad, written_all, written_one};
use crate::tag::{Tag, TagData};
use crate::util::EncSysType;

verus! {

/// The components that the columns hold for an id: the data of each
/// component name under which they hold data for it.
pub open spec fn comps_at<C, D>(columns: Map<C, Seq<TagData<D>>>, id: int) -> Map<C, D> {
    Map::new(|t: C| cell_of(columns, t, id) is Info, |t: C| cell_of(columns, t, id)->Info_0)
}

/// The components of an entity as what is written into the columns.
pub open spec fn comp_cells<C, D>(comps: Map<C, D>) -> Map<C, TagData<D>> {
    comps.map_values(|d: D| TagData::Info(d))
}

/// The number of entities among the slots of a manager.
pub open spec fn entity_count<C, D>(slots: Seq<Option<EntityView<C, D>>>) -> nat {
    live_set(slots).len()
}

/// The slots of a manager after the removal of `id`: nothing changes for an
/// id out of range; the last id is given up, live or vacant; any other id
/// stays in use and is left vacant.
pub open spec fn slots_after_removal<C, D>(slots: Seq<Option<EntityView<C, D>>>, id: int) -> Seq<
    Option<EntityView<C, D>>,
> {
    if id < 0 || id >= slots.len() {
        slots
    } else if id == slots.len() - 1 {
        slots.drop_last()
    } else {
        slots.update(id, None)
    }
}

/// The entities under the ids from `from` on, in ascending order of their ids.
pub open spec fn entities_from<C, D>(slots: Seq<Option<EntityView<C, D>>>, from: int) -> Seq<
    EntityView<C, D>,
>
    decreases slots.len() - from,
{
    if from < 0 || from >= slots.len() {
        Seq::empty()
    } else if slots[from] is Some {
        seq![slots[from]->0] + entities_from(slots, from + 1)
    } else {
        entities_from(slots, from + 1)
    }
}

/// The least id from `from` on under which there is an entity, or the end
/// id if there is none.
pub open spec fn next_entity<C, D>(slots: Seq<Option<EntityView<C, D>>>, from: int) -> int
    decreases slots.len() - from,
{
    if from < 0 || from >= slots.len() {
        slots.len() as int
    } else if slots[from] is Some {
        from
    } else {
        next_entity(slots, from + 1)
    }
}

/// What an entity manager keeps.
#[derive(Debug)]
struct Slots<C: EncSysType, D: EncSysType> {
    /// For each component name, the data of each entity under it.
    comps: TagColumns<C, D>,
    /// The id of the word that the entity under each id is derived from;
    /// `None` for a vacant id.
    assoc_word_ids: Vec<Option<usize>>,
    /// The id that the next entity gets.
    next_id: usize,
    /// The number of entities.
    count: usize,
}

/// The slot of an id, made of the word id recorded for it and of what the
/// columns hold for it.
spec fn slot<C, D>(word_ids: Seq<Option<usize>>, columns: Map<C, Seq<TagData<D>>>, id: int) -> Option<
    EntityView<C, D>,
> {
    match word_ids[id] {
        Some(w) => Some(EntityView { word_id: w, comps: comps_at(columns, id) }),
        None => None,
    }
}

/// The components that the columns hold for an id under the names of the
/// first `c` columns.
spec fn comps_below<C, D>(
    columns: Map<C, Seq<TagData<D>>>,
    pairs: Seq<(C, Seq<TagData<D>>)>,
    id: int,
    c: int,
) -> Map<C, D> {
    Map::new(
        |t: C| has_key(pairs.subrange(0, c), t) && cell_of(columns, t, id) is Info,
        |t: C| cell_of(columns, t, id)->Info_0,
    )
}

impl<C: EncSysType, D: EncSysType> View for Slots<C, D> {
    type V = Seq<Option<EntityView<C::V, D::V>>>;

    closed spec fn view(&self) -> Seq<Option<EntityView<C::V, D::V>>> {
        Seq::new(
            self.assoc_word_ids@.len(),
            |id: int| slot(self.assoc_word_ids@, self.comps@, id),
        )
    }
}

impl<C: EncSysType, D: EncSysType> Slots<C, D> {
    /// The manager is well formed: its counters agree with what it stores,
    /// no column is longer than the id space, and nothing is stored for a
    /// vacant id.
    spec fn wf(&self) -> bool {
        &&& self.next_id == self.assoc_word_ids@.len()
        &&& self.count == live_set(self.assoc_word_ids@).len()
        &&& forall|t: C::V| #[trigger]
            self.comps@.contains_key(t) ==> self.comps@[t].len() <= self.assoc_word_ids@.len()
        &&& forall|t: C::V, id: int|
            0 <= id < self.assoc_word_ids@.len() && self.assoc_word_ids@[id] is None ==> (
            #[trigger] cell_of(self.comps@, t, id)) is Empty
    }

    /// The live ids are those for which a word id is recorded.
    proof fn lemma_live(&self)
        ensures
            live_set(self@) == live_set(self.assoc_word_ids@),
    {
    }

    /// Creates an empty entity manager.
    fn new() -> (r: Self)
        ensures
            r.wf(),
            r@ == Seq::<Option<EntityView<C::V, D::V>>>::empty(),
    {
        let r = Slots { comps: TagColumns::new(), assoc_word_ids: Vec::new(), next_id: 0, count: 0 };
        proof {
            assert(live_set(r.assoc_word_ids@) =~= Set::empty());
        }
        r
    }

    /// Adds an entity under the next new id, and returns that id.
    fn add(&mut self, e: Entity<C, D>) -> (id: usize)
        requires
            old(self).wf(),
        ensures
            final(self).wf(),
            id == old(self)@.len(),
            final(self)@ == old(self)@.push(Some(e@)),
    {
        let ghost before_ids = self.assoc_word_ids@;
        let ghost before = self.comps@;
        proof {
            lemma_live_set_bounds(before_ids);
            lemma_live_set_push(before_ids, Some(e@.word_id));
        }
        let id = self.next_id;
        self.assoc_word_ids.push(Some(e.get_word_id()));
        self.next_id = self.assoc_word_ids.len();
        self.count = self.count + 1;
        let len = self.next_id;

        let n = e.comp_amount();
        let ghost all = e.order();
        let ghost cells = all.map_values(|p: (C::V, D::V)| (p.0, TagData::Info(p.1)));
        let mut k: usize = 0;
        proof {
            assert(cells.subrange(0, 0) =~= Seq::empty());
            assert(before =~= written_all(before, to_map(cells.subrange(0, 0)), id as int, len as int));
        }
        while k < n
            invariant
                k <= n,
                n == all.len(),
                all == e.order(),
                distinct_keys(all),
                cells == all.map_values(|p: (C::V, D::V)| (p.0, TagData::Info(p.1))),
                id < len,
                self.next_id == len,
                self.assoc_word_ids@ == before_ids.push(Some(e@.word_id)),
                self.count == old(self).count + 1,
                self.comps@ == written_all(
                    before,
                    to_map(cells.subrange(0, k as int)),
                    id as int,
                    len as int,
                ),
            decreases n - k,
        {
            let (name, data) = e.comp_at(k);
            proof {
                let done = cells.subrange(0, k as int);
                let next = cells.subrange(0, k + 1);
                assert(next == done.push((name@, TagData::Info(data@))));
                lemma_to_map_push(done, name@, TagData::Info(data@));
                lemma_to_map_dom(done, name@);
                if has_key(done, name@) {
                    let j = choose|j: int| 0 <= j < done.len() && #[trigger] done[j].0 == name@;
                    assert(all[j].0 != all[k as int].0);
                }
                assert(column_of(self.comps@, name@) == column_of(before, name@));
                assert(written_all(before, to_map(next), id as int, len as int) =~= written_one(
                    written_all(before, to_map(done), id as int, len as int),
                    name@,
                    TagData::Info(data@),
                    id as int,
                    len as int,
                ));
            }
            self.comps.write(Tag::new_w_data(name.duplicate(), data.duplicate()), id, len);
            k += 1;
        }
        proof {
            assert(cells.subrange(0, n as int) == cells);
            let after = self.comps@;
            let tags = to_map(cells);
            assert forall|t: C::V| tags.contains_key(t) == e@.comps.contains_key(t) && (
            tags.contains_key(t) ==> tags[t] == TagData::Info(e@.comps[t])) by {
                lemma_to_map_dom(cells, t);
                lemma_to_map_dom(all, t);
                if has_key(cells, t) {
                    let i = choose|i: int| 0 <= i < cells.len() && #[trigger] cells[i].0 == t;
                    assert(all[i].0 == t);
                    assert(distinct_keys(cells)) by {
                        assert forall|a: int, b: int| 0 <= a < b < cells.len() implies cells[a].0
                            != cells[b].0 by {
                            assert(all[a].0 != all[b].0);
                        }
                    }
                    lemma_to_map_entry(cells, i);
                    lemma_to_map_entry(all, i);
                }
                if has_key(all, t) {
                    let i = choose|i: int| 0 <= i < all.len() && #[trigger] all[i].0 == t;
                    assert(cells[i].0 == t);
                }
            }
            assert forall|t: C::V, i: int| 0 <= i < len implies #[trigger] cell_of(after, t, i) == (
            if i == id && tags.contains_key(t) {
                tags[t]
            } else {
                cell_of(before, t, i)
            }) by {
                if tags.contains_key(t) {
                    assert(after[t] == pad(column_of(before, t), len as int).update(
                        id as int,
                        tags[t],
                    ));
                }
            }
            assert forall|i: int| 0 <= i < id implies comps_at(after, i) == comps_at(before, i) by {
                assert(comps_at(after, i) =~= comps_at(before, i));
            }
            assert(comps_at(after, id as int) =~= e@.comps) by {
                assert forall|t: C::V| cell_of(before, t, id as int) is Empty by {}
            }
            assert(self@ =~= old(self)@.push(Some(e@)));
        }
        id
    }

    /// Gets the entity with the given id; `None` if the id is vacant or out
    /// of range.
    fn get_by_id(&self, id: usize) -> (r: Option<Entity<C, D>>)
        requires
            self.wf(),
        ensures
            match r {
                Some(e) => id < self@.len() && self@[id as int] == Some(e@),
                None => id >= self@.len() || self@[id as int] is None,
            },
    {
        if id >= self.next_id {
            return None;
        }
        let word_id = match self.assoc_word_ids[id] {
            Some(x) => x,
            None => {
                return None;
            },
        };
        let mut ent: Entity<C, D> = Entity::new(word_id);
        let ghost columns = self.comps@;
        let ghost pairs = self.comps.pairs();
        let ghost i = id as int;
        let n = self.comps.len();
        let mut c: usize = 0;
        while c < n
            invariant
                columns == self.comps@,
                pairs == self.comps.pairs(),
                n == pairs.len(),
                i == id as int,
                c <= n,
                ent@.word_id == word_id,
                ent@.comps == comps_below(columns, pairs, i, c as int),
            decreases n - c,
        {
            let name = self.comps.name_at(c);
            match self.comps.cell_at(c, id) {
                Some(TagData::Info(data)) => {
                    ent.insert_comp(Comp::new(name.duplicate(), data.duplicate()));
                },
                _ => {},
            }
            proof {
                let prev = comps_below(columns, pairs, i, c as int);
                let next = comps_below(columns, pairs, i, c + 1);
                let t = name@;
                if cell_of(columns, t, i) is Info {
                    let ins = prev.insert(t, cell_of(columns, t, i)->Info_0);
                    assert forall|k: C::V| next.dom().contains(k) == ins.dom().contains(k) by {
                        lemma_has_key_prefix(pairs, c as int, k);
                    }
                    assert forall|k: C::V| next.dom().contains(k) implies next[k] == ins[k] by {
                        lemma_has_key_prefix(pairs, c as int, k);
                    }
                } else {
                    assert forall|k: C::V| next.dom().contains(k) == prev.dom().contains(k) by {
                        lemma_has_key_prefix(pairs, c as int, k);
                    }
                }
            }
            c += 1;
        }
        proof {
            assert(pairs.subrange(0, pairs.len() as int) == pairs);
            assert(ent@.comps =~= comps_at(columns, i)) by {
                assert forall|t: C::V| has_key(pairs, t) <==> columns.contains_key(t) by {
                    lemma_to_map_dom(pairs, t);
                }
            }
        }
        Some(ent)
    }

    /// Removes the last id, live or vacant, and frees its slot. Nothing
    /// happens where no id is in use.
    fn remove_last_id(&mut self)
        requires
            old(self).wf(),
        ensures
            final(self).wf(),
            final(self)@ == if old(self)@.len() == 0 {
                old(self)@
            } else {
                old(self)@.drop_last()
            },
    {
        if self.next_id == 0 {
            return ;
        }
        let ghost before_ids = self.assoc_word_ids@;
        let ghost before = self.comps@;
        proof {
            lemma_live_set_bounds(before_ids);
            lemma_live_set_drop_last(before_ids);
        }
        let len = self.next_id;
        match self.assoc_word_ids.pop() {
            Some(Some(_)) => {
                self.count = self.count - 1;
            },
            _ => {},
        }
        self.comps.shrink_row(len);
        self.next_id = len - 1;
        proof {
            let after = self.comps@;
            assert forall|t: C::V, i: int| 0 <= i < len - 1 implies #[trigger] cell_of(after, t, i)
                == cell_of(before, t, i) by {}
            assert forall|t: C::V| #[trigger] after.contains_key(t) implies after[t].len() <= len
                - 1 by {}
            assert forall|i: int| 0 <= i < len - 1 implies comps_at(after, i) == comps_at(
                before,
                i,
            ) by {}
        }
    }

    /// Removes the entity with the given id. The last id is given up and
    /// its slot freed; any other id stays in use and is left vacant.
    /// Nothing happens for an id out of range.
    fn remove_by_id(&mut self, id: usize)
        requires
            old(self).wf(),
        ensures
            final(self).wf(),
            final(self)@ == slots_after_removal(old(self)@, id as int),
    {
        if id >= self.next_id {
            return ;
        }
        if id == self.next_id - 1 {
            self.remove_last_id();
            return ;
        }
        let ghost before_ids = self.assoc_word_ids@;
        let ghost before = self.comps@;
        proof {
            lemma_live_set_bounds(before_ids);
            lemma_live_set_clear(before_ids, id as int);
        }
        if self.assoc_word_ids[id].is_some() {
            self.count = self.count - 1;
        }
        self.assoc_word_ids[id] = None;
        self.comps.tombstone_row(id);
        proof {
            let after = self.comps@;
            let len = before_ids.len();
            assert forall|t: C::V, i: int| 0 <= i < len implies #[trigger] cell_of(after, t, i) == (
            if i == id {
                TagData::Empty
            } else {
                cell_of(before, t, i)
            }) by {}
            assert forall|t: C::V| #[trigger] after.contains_key(t) implies after[t].len()
                <= len by {}
            assert forall|i: int| 0 <= i < len && i != id implies comps_at(after, i) == comps_at(
                before,
                i,
            ) by {}
        }
    }

    /// Returns the one after the last id in use.
    fn get_end_id(&self) -> (r: usize)
        requires
            self.wf(),
        ensures
            r == self@.len(),
    {
        self.next_id
    }

    /// Returns the number of entities.
    fn get_count(&self) -> (r: usize)
        requires
            self.wf(),
        ensures
            r == entity_count(self@),
    {
        proof {
            self.lemma_live();
        }
        self.count
    }

    /// Tells whether the manager has no entities.
    fn is_empty(&self) -> (r: bool)
        requires
            self.wf(),
        ensures
            r == (entity_count(self@) == 0),
    {
        proof {
            self.lemma_live();
        }
        self.count == 0
    }
}

/// An entity manager creates and manages entities.
///
/// Each entity is kept under an id. The ids in use run from 0 to the end
/// id; some of them may be vacant, because an entity that is removed frees
/// its id only if it is the last one. The view of a manager is the
/// sequence of its slots: under each id an entity, or nothing.
#[derive(Debug)]
pub struct EntMan<C: EncSysType, D: EncSysType> {
    slots: Slots<C, D>,
}

impl<C: EncSysType, D: EncSysType> View for EntMan<C, D> {
    type V = Seq<Option<EntityView<C::V, D::V>>>;

    closed spec fn view(&self) -> Seq<Option<EntityView<C::V, D::V>>> {
        self.slots@
    }
}

impl<C: EncSysType, D: EncSysType> EntMan<C, D> {
    #[verifier::type_invariant]
    spec fn inv(&self) -> bool {
        self.slots.wf()
    }

    /// Takes the slots out and leaves an empty manager behind.
    fn take(&mut self) -> (r: Slots<C, D>)
        ensures
            r == old(self).slots,
            r.wf(),
    {
        proof {
            use_type_invariant(&*self);
        }
        let mut slots = Slots::new();
        core::mem::swap(&mut self.slots, &mut slots);
        slots
    }

    /// Creates an empty entity manager.
    pub fn new() -> (r: Self)
        ensures
            r@ == Seq::<Option<EntityView<C::V, D::V>>>::empty(),
    {
        EntMan { slots: Slots::new() }
    }

    /// Adds an entity under the next new id, and returns that id.
    pub fn add(&mut self, e: Entity<C, D>) -> (id: usize)
        ensures
            id == old(self)@.len(),
            final(self)@ == old(self)@.push(Some(e@)),
    {
        let mut slots = self.take();
        let id = slots.add(e);
        self.slots = slots;
        id
    }

    /// Gets the entity with the given id; `None` if the id is vacant or out
    /// of range.
    pub fn get_by_id(&self, id: usize) -> (r: Option<Entity<C, D>>)
        ensures
            match r {
                Some(e) => id < self@.len() && self@[id as int] == Some(e@),
                None => id >= self@.len() || self@[id as int] is None,
            },
    {
        proof {
            use_type_invariant(self);
        }
        self.slots.get_by_id(id)
    }

    /// Removes the last id, live or vacant, and frees its slot. Nothing
    /// happens where no id is in use.
    pub fn remove_last_id(&mut self)
        ensures
            final(self)@ == if old(self)@.len() == 0 {
                old(self)@
            } else {
                old(self)@.drop_last()
            },
    {
        let mut slots = self.take();
        slots.remove_last_id();
        self.slots = slots;
    }

    /// Removes the entity with the given id. The last id is given up and
    /// its slot freed; any other id stays in use and is left vacant.
    /// Nothing happens for an id out of range.
    pub fn remove_by_id(&mut self, id: usize)
        ensures
            final(self)@ == slots_after_removal(old(self)@, id as int),
    {
        let mut slots = self.take();
        slots.remove_by_id(id);
        self.slots = slots;
    }

    /// Returns the one after the last id in use.
    pub fn get_end_id(&self) -> (r: usize)
        ensures
            r == self@.len(),
    {
        proof {
            use_type_invariant(self);
        }
        self.slots.get_end_id()
    }

    /// Returns the number of entities; there are no more entities than ids.
    pub fn get_count(&self) -> (r: usize)
        ensures
            r == entity_count(self@),
            r <= self@.len(),
    {
        proof {
            use_type_invariant(self);
            lemma_live_set_bounds(self@);
        }
        self.slots.get_count()
    }

    /// Tells whether the manager has no entities.
    pub fn is_empty(&self) -> (r: bool)
        ensures
            r == (entity_count(self@) == 0),
    {
        proof {
            use_type_invariant(self);
        }
        self.slots.is_empty()
    }

    /// Returns a cursor over the entities, which starts before the first id.
    pub fn iter(&self) -> (r: EntIter<'_, C, D>)
        ensures
            r.slots() == self@,
            r.position() == 0,
    {
        EntIter { entman_ref: self, index: 0 }
    }
}

/// A cursor that goes through the entities of an entity manager in
/// ascending order of their ids, and passes over vacant ids.
pub struct EntIter<'a, C: EncSysType, D: EncSysType> {
    entman_ref: &'a EntMan<C, D>,
    index: usize,
}

impl<'a, C: EncSysType, D: EncSysType> EntIter<'a, C, D> {
    /// The slots of the manager that the cursor goes through.
    pub closed spec fn slots(&self) -> Seq<Option<EntityView<C::V, D::V>>> {
        self.entman_ref@
    }

    /// The id that the cursor looks at next.
    pub closed spec fn position(&self) -> int {
        self.index as int
    }

    #[verifier::type_invariant]
    spec fn inv(&self) -> bool {
        self.index <= self.entman_ref@.len()
    }

    /// Returns the entity under the next live id and moves behind it;
    /// returns `None` and moves to the end where no live id is left.
    pub fn next(&mut self) -> (r: Option<Entity<C, D>>)
        ensures
            final(self).slots() == old(self).slots(),
            0 <= old(self).position() <= final(self).position() <= old(self).slots().len(),
            match r {
                Some(e) => {
                    let id = next_entity(old(self).slots(), old(self).position());
                    &&& id < old(self).slots().len()
                    &&& old(self).slots()[id] == Some(e@)
                    &&& final(self).position() == id + 1
                },
                None => {
                    &&& next_entity(old(self).slots(), old(self).position()) == old(
                        self,
                    ).slots().len()
                    &&& final(self).position() == old(self).slots().len()
                },
            },
    {
        let ghost v = self.entman_ref@;
        proof {
            use_type_invariant(&*self);
        }
        while self.index < self.entman_ref.get_end_id()
            invariant
                self.index <= v.len(),
                self.entman_ref == old(self).entman_ref,
                v == self.entman_ref@,
                old(self).index <= self.index,
                next_entity(v, old(self).index as int) == next_entity(v, self.index as int),
            decreases self.entman_ref@.len() - self.index,
        {
            let found = self.entman_ref.get_by_id(self.index);
            self.index = self.index + 1;
            if found.is_some() {
                return found;
            }
        }
        None
    }
}

} // verus!
