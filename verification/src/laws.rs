//! What holds of every encyclopedia, proved over its model.
use vstd::prelude::*;
use crate::assoc::{lemma_to_map_update, lemma_distinct_push};
use crate::model::{Change, EncyclopediaView, lemma_live_set_bounds, lemma_live_set_clear, lemma_live_set_drop_last, lemma_live_set_push, lemma_position_unique, lemma_written_all_cells, live_set, pad, present_tags, splice};
use crate::tag::{Tag, TagData};
use crate::word::WordView;

verus! {

/// Merging the tags of a group into the tags of a word keeps every tag that
/// the word already has.
pub proof fn lemma_splice_keeps<N, I>(m: Map<N, TagData<I>>, tags: Seq<Tag<N, I>>, t: N)
    requires
        m.contains_key(t),
    ensures
        splice(m, tags).contains_key(t),
        splice(m, tags)[t] == m[t],
    decreases tags.len(),
{
    if tags.len() > 0 {
        lemma_splice_keeps(m, tags.drop_last(), t);
    }
}

/// Merging the tags of a group into tags of which none is empty leaves none empty.
pub proof fn lemma_splice_no_empty<N, I>(m: Map<N, TagData<I>>, tags: Seq<Tag<N, I>>)
    requires
        forall|t: N| m.contains_key(t) ==> !(#[trigger] m[t] is Empty),
    ensures
        forall|t: N| splice(m, tags).contains_key(t) ==> !(#[trigger] splice(m, tags)[t] is Empty),
    decreases tags.len(),
{
    if tags.len() > 0 {
        lemma_splice_no_empty(m, tags.drop_last());
    }
}

/// The tags of a word depend only on the cells of its id and on the groups:
/// two ids of two encyclopedias that hold the same under every tag name, with
/// the same groups declared, have the same tags.
pub proof fn lemma_tags_follow_cells<W, N, I>(
    a: EncyclopediaView<W, N, I>,
    ida: int,
    b: EncyclopediaView<W, N, I>,
    idb: int,
)
    requires
        a.groups == b.groups,
        forall|t: N| a.cell(t, ida) == b.cell(t, idb),
    ensures
        a.tags_of(ida) == b.tags_of(idb),
{
    lemma_expanded_follows_cells(a, ida, b, idb, a.groups.len() as int);
}

proof fn lemma_expanded_follows_cells<W, N, I>(
    a: EncyclopediaView<W, N, I>,
    ida: int,
    b: EncyclopediaView<W, N, I>,
    idb: int,
    k: int,
)
    requires
        a.groups == b.groups,
        forall|t: N| a.cell(t, ida) == b.cell(t, idb),
    ensures
        a.expanded(ida, k) == b.expanded(idb, k),
    decreases k,
{
    if k > 0 {
        lemma_expanded_follows_cells(a, ida, b, idb, k - 1);
    }
}

/// No tag of a word is empty.
pub proof fn law_no_empty_tag<W, N, I>(v: EncyclopediaView<W, N, I>, id: int, t: N)
    requires
        v.tags_of(id).contains_key(t),
    ensures
        !(v.tags_of(id)[t] is Empty),
{
    lemma_expanded_no_empty(v, id, v.groups.len() as int);
}

proof fn lemma_expanded_no_empty<W, N, I>(v: EncyclopediaView<W, N, I>, id: int, k: int)
    ensures
        forall|t: N|
            v.expanded(id, k).contains_key(t) ==> !(#[trigger] v.expanded(id, k)[t] is Empty),
    decreases k,
{
    if k > 0 {
        lemma_expanded_no_empty(v, id, k - 1);
        if v.activates(id, k - 1) {
            lemma_splice_no_empty(v.expanded(id, k - 1), v.groups[k - 1].1);
        }
    }
}

/// The number of words is the number of ids under which a word is found,
/// and it is at most the end id.
pub proof fn law_count<W, N, I>(v: EncyclopediaView<W, N, I>)
    ensures
        v.count() == Set::new(|id: int| v.word(id) is Some).len(),
        v.count() <= v.end_id(),
{
    assert(Set::new(|id: int| v.word(id) is Some) =~= v.live_ids());
    lemma_live_set_bounds(v.names);
}

/// A tag that a word holds by itself wins over a tag of the same name that
/// a group brings: where something is stored for an id under a tag name
/// that is no group's name, the word has exactly that under this tag name,
/// whatever groups it makes use of.
pub proof fn law_explicit_tag_wins<W, N, I>(v: EncyclopediaView<W, N, I>, id: int, t: N)
    requires
        !v.is_group(t),
        !(v.cell(t, id) is Empty),
    ensures
        v.tags_of(id).contains_key(t),
        v.tags_of(id)[t] == v.cell(t, id),
{
    lemma_expanded_keeps_direct(v, id, t, v.groups.len() as int);
}

proof fn lemma_expanded_keeps_direct<W, N, I>(v: EncyclopediaView<W, N, I>, id: int, t: N, k: int)
    requires
        !v.is_group(t),
        !(v.cell(t, id) is Empty),
    ensures
        v.expanded(id, k).contains_key(t),
        v.expanded(id, k)[t] == v.cell(t, id),
    decreases k,
{
    if k > 0 {
        lemma_expanded_keeps_direct(v, id, t, k - 1);
        if v.activates(id, k - 1) {
            lemma_splice_keeps(v.expanded(id, k - 1), v.groups[k - 1].1, t);
        }
    }
}

/// Removing an id that is vacant or out of range, and not the last id,
/// changes nothing.
pub proof fn law_removal_idempotent<W, N, I>(v: EncyclopediaView<W, N, I>, id: int)
    requires
        !v.is_live(id),
        id != v.end_id() - 1,
    ensures
        v.remove(id) == v,
{
}

/// Removing a word twice is the same as removing it once, where its id is
/// not the last one.
pub proof fn law_removal_twice<W, N, I>(v: EncyclopediaView<W, N, I>, id: int)
    requires
        id != v.end_id() - 1,
    ensures
        v.remove(id).remove(id) == v.remove(id),
{
    let once = v.remove(id);
    if v.count() != 0 && v.is_live(id) {
        assert(once == v.tombstone(id));
        assert(!once.is_live(id));
    }
}

/// Removing the last id of an encyclopedia that has a word makes the end
/// id one less; removing any other id leaves the end id as it is.
pub proof fn law_recycling<W, N, I>(v: EncyclopediaView<W, N, I>, id: int)
    ensures
        id == v.end_id() - 1 && v.count() > 0 ==> v.remove(id).end_id() == v.end_id() - 1,
        id != v.end_id() - 1 ==> v.remove(id).end_id() == v.end_id(),
{
    lemma_live_set_bounds(v.names);
}

/// Removing an id that is not the last one changes no other id: every other
/// word stays under its id, with its name and its tags.
pub proof fn law_id_stability<W, N, I>(v: EncyclopediaView<W, N, I>, id: int, other: int)
    requires
        id != v.end_id() - 1,
        other != id,
    ensures
        v.remove(id).end_id() == v.end_id(),
        v.remove(id).word(other) == v.word(other),
{
    let after = v.remove(id);
    if after != v {
        assert forall|t: N| after.cell(t, other) == v.cell(t, other) by {}
        lemma_tags_follow_cells(after, other, v, other);
    }
}

/// Removing an id that is not the last one changes the id of no other
/// word: a name that is recorded under another id stays recorded under it.
pub proof fn law_id_of_stable<W, N, I>(v: EncyclopediaView<W, N, I>, id: int, name: W)
    requires
        v.valid(),
        id != v.end_id() - 1,
        v.has_name(name),
        v.id_of(name) != id,
    ensures
        v.remove(id).has_name(name),
        v.remove(id).id_of(name) == v.id_of(name),
{
    let after = v.remove(id);
    let at = v.id_of(name);
    law_remove_valid(v, id);
    assert(after.names[at] == Some(name));
    lemma_position_unique(after.names, at, name);
}

/// After a word was inserted, its name is recorded under the id of the
/// insertion.
pub proof fn law_insert_id<W, N, I>(v: EncyclopediaView<W, N, I>, w: WordView<W, N, I>)
    requires
        v.valid(),
    ensures
        v.insert(w).has_name(w.name),
        v.insert(w).id_of(w.name) == v.slot_of(w.name),
{
    law_insert_valid(v, w);
    lemma_position_unique(v.insert(w).names, v.slot_of(w.name), w.name);
}

/// Removing the last id changes no other id either: every other word stays
/// under its id, with its name and its tags.
pub proof fn law_pop_keeps_others<W, N, I>(v: EncyclopediaView<W, N, I>, other: int)
    requires
        v.valid(),
        other != v.end_id() - 1,
    ensures
        v.remove(v.end_id() - 1).word(other) == v.word(other),
{
    let after = v.remove(v.end_id() - 1);
    if after != v {
        lemma_live_set_bounds(v.names);
        assert forall|t: N| after.cell(t, other) == v.cell(t, other) by {}
        lemma_tags_follow_cells(after, other, v, other);
    }
}

/// What is stored after a word was inserted: under its id, the word's tags
/// under their names, and what was there before under every other tag name;
/// under any other id, what was there before.
pub proof fn law_insert_cells<W, N, I>(
    v: EncyclopediaView<W, N, I>,
    w: WordView<W, N, I>,
    t: N,
    id: int,
)
    ensures
        v.insert(w).cell(t, id) == if id == v.slot_of(w.name) && w.tags.contains_key(t) {
            w.tags[t]
        } else {
            v.cell(t, id)
        },
{
    let after = v.insert(w);
    let slot = v.slot_of(w.name);
    if w.tags.contains_key(t) {
        assert(after.columns[t] == pad(v.column(t), after.names.len() as int).update(
            slot,
            w.tags[t],
        ));
    }
}

/// Inserting a word leaves every other word as it was, under its id.
pub proof fn law_insert_keeps_others<W, N, I>(
    v: EncyclopediaView<W, N, I>,
    w: WordView<W, N, I>,
    other: int,
)
    requires
        other != v.slot_of(w.name),
    ensures
        v.insert(w).word(other) == v.word(other),
{
    let after = v.insert(w);
    assert forall|t: N| after.cell(t, other) == v.cell(t, other) by {
        law_insert_cells(v, w, t, other);
    }
    lemma_tags_follow_cells(after, other, v, other);
}

/// A word comes back as it was inserted, with its name and with its tags
/// that are not empty, where none of its tags has the name of a group and
/// nothing else is stored for its id.
pub proof fn law_round_trip<W, N, I>(v: EncyclopediaView<W, N, I>, w: WordView<W, N, I>)
    requires
        v.valid(),
        forall|t: N| w.tags.contains_key(t) ==> !v.is_group(t),
        forall|t: N| !w.tags.contains_key(t) ==> v.cell(t, v.slot_of(w.name)) is Empty,
    ensures
        v.insert(w).word(v.slot_of(w.name)) == Some(
            WordView { name: w.name, tags: present_tags(w.tags) },
        ),
{
    let after = v.insert(w);
    let id = v.slot_of(w.name);
    law_insert_valid(v, w);
    assert forall|t: N| #[trigger]
        after.cell(t, id) == if w.tags.contains_key(t) {
            w.tags[t]
        } else {
            TagData::Empty
        } by {
        law_insert_cells(v, w, t, id);
    }
    assert forall|t: N| after.is_group(t) implies after.cell(t, id) is Empty by {
        assert(v.is_group(t));
    }
    assert(after.direct_tags(id) =~= present_tags(w.tags));
    lemma_expanded_is_direct(after, id, after.groups.len() as int);
}

/// A word of a new name, none of whose tags has the name of a group, comes
/// back as it was inserted: nothing else is stored for a new id.
pub proof fn law_round_trip_new<W, N, I>(v: EncyclopediaView<W, N, I>, w: WordView<W, N, I>)
    requires
        v.valid(),
        !v.has_name(w.name),
        forall|t: N| w.tags.contains_key(t) ==> !v.is_group(t),
    ensures
        v.insert(w).word(v.slot_of(w.name)) == Some(
            WordView { name: w.name, tags: present_tags(w.tags) },
        ),
{
    law_round_trip(v, w);
}

/// An id under which nothing is stored under the name of any group has no
/// tags but its own.
proof fn lemma_expanded_is_direct<W, N, I>(v: EncyclopediaView<W, N, I>, id: int, k: int)
    requires
        forall|t: N| v.is_group(t) ==> v.cell(t, id) is Empty,
        k <= v.groups.len(),
    ensures
        v.expanded(id, k) == v.direct_tags(id),
    decreases k,
{
    if k > 0 {
        lemma_expanded_is_direct(v, id, k - 1);
        assert(v.is_group(v.groups[k - 1].0));
    }
}

/// The live ids from `from` on, in ascending order.
pub open spec fn live_ids_from<W>(names: Seq<Option<W>>, from: int) -> Seq<int>
    decreases names.len() - from,
{
    if from < 0 || from >= names.len() {
        Seq::empty()
    } else if names[from] is Some {
        seq![from] + live_ids_from(names, from + 1)
    } else {
        live_ids_from(names, from + 1)
    }
}

/// Going through the words yields exactly the words under the live ids, in
/// ascending order of their ids: the ids of the words from `from` on
/// ascend, each live id from `from` on is among them and no other id, and
/// the words are the words under these ids, in this order.
pub proof fn law_iteration<W, N, I>(v: EncyclopediaView<W, N, I>, from: int)
    requires
        0 <= from,
    ensures
        forall|a: int, b: int|
            #![trigger live_ids_from(v.names, from)[a], live_ids_from(v.names, from)[b]]
            0 <= a < b < live_ids_from(v.names, from).len() ==> live_ids_from(v.names, from)[a]
                < live_ids_from(v.names, from)[b],
        forall|id: int| #[trigger]
            live_ids_from(v.names, from).contains(id) <==> from <= id && v.is_live(id),
        v.words_from(from).len() == live_ids_from(v.names, from).len(),
        forall|k: int|
            0 <= k < live_ids_from(v.names, from).len() ==> Some(#[trigger] v.words_from(from)[k])
                == v.word(live_ids_from(v.names, from)[k]),
    decreases v.names.len() - from,
{
    let ids = live_ids_from(v.names, from);
    let words = v.words_from(from);
    if from < v.names.len() {
        law_iteration(v, from + 1);
        let rest = live_ids_from(v.names, from + 1);
        let rest_words = v.words_from(from + 1);
        if v.is_live(from) {
            assert(ids[0] == from);
            assert forall|k: int| 1 <= k < ids.len() implies ids[k] == rest[k - 1] && words[k]
                == rest_words[k - 1] by {}
            assert forall|k: int| 0 <= k < rest.len() implies from < #[trigger] rest[k] by {
                assert(rest.contains(rest[k]));
            }
            assert forall|id: int| ids.contains(id) <==> from <= id && v.is_live(id) by {
                if from < id && v.is_live(id) {
                    assert(rest.contains(id));
                    let k = choose|k: int| 0 <= k < rest.len() && rest[k] == id;
                    assert(ids[k + 1] == id);
                }
            }
            assert forall|a: int, b: int| 0 <= a < b < ids.len() implies ids[a] < ids[b] by {}
            assert forall|k: int| 0 <= k < ids.len() implies Some(#[trigger] words[k]) == v.word(
                ids[k],
            ) by {}
        } else {
            assert forall|id: int| ids.contains(id) <==> from <= id && v.is_live(id) by {}
        }
    } else {
        assert forall|id: int| !(from <= id && v.is_live(id)) by {}
    }
}

/// All the words, from the first id on, are as many as the count says.
pub proof fn law_iteration_count<W, N, I>(v: EncyclopediaView<W, N, I>)
    ensures
        v.words().len() == v.count(),
{
    lemma_live_ids_len(v.names, 0);
    law_iteration(v, 0);
    assert(live_set(v.names).filter(|id: int| id >= 0) =~= live_set(v.names));
}

proof fn lemma_live_ids_len<W>(names: Seq<Option<W>>, from: int)
    requires
        0 <= from,
    ensures
        live_ids_from(names, from).len() == live_set(names).filter(|id: int| id >= from).len(),
    decreases names.len() - from,
{
    let here = live_set(names).filter(|id: int| id >= from);
    lemma_live_set_bounds(names);
    if from >= names.len() {
        assert(here =~= Set::empty());
    } else {
        lemma_live_ids_len(names, from + 1);
        let rest = live_set(names).filter(|id: int| id >= from + 1);
        if names[from] is Some {
            assert(here =~= rest.insert(from));
            assert(rest.finite()) by {
                vstd::set_lib::lemma_len_subset(rest, live_set(names));
            }
        } else {
            assert(here =~= rest);
        }
    }
}

/// The empty encyclopedia is valid, and it has no ids and no words.
pub proof fn law_empty_valid<W, N, I>()
    ensures
        EncyclopediaView::<W, N, I>::empty().valid(),
        EncyclopediaView::<W, N, I>::empty().end_id() == 0,
        EncyclopediaView::<W, N, I>::empty().count() == 0,
{
    assert(live_set(EncyclopediaView::<W, N, I>::empty().names) =~= Set::empty());
}

/// Inserting a word keeps the encyclopedia valid. The word is then live
/// under its id, and there is one more word if the name was new, and as
/// many as before if it was not.
pub proof fn law_insert_valid<W, N, I>(v: EncyclopediaView<W, N, I>, w: WordView<W, N, I>)
    requires
        v.valid(),
    ensures
        v.insert(w).valid(),
        v.insert(w).is_live(v.slot_of(w.name)),
        v.insert(w).names[v.slot_of(w.name)] == Some(w.name),
        v.insert(w).count() == if v.has_name(w.name) {
            v.count()
        } else {
            v.count() + 1
        },
{
    let after = v.insert(w);
    let slot = v.slot_of(w.name);
    let len = after.names.len() as int;
    lemma_live_set_push(v.names, Some(w.name));
    assert forall|t: N, i: int| #[trigger]
        after.cell(t, i) == if i == slot && w.tags.contains_key(t) {
            w.tags[t]
        } else {
            v.cell(t, i)
        } by {
        lemma_written_all_cells(v.columns, w.tags, slot, len, t, i);
    }
    assert forall|t: N, i: int|
        0 <= i < after.names.len() && after.names[i] is None implies (#[trigger] after.cell(
        t,
        i,
    )) is Empty by {}
    assert forall|t: N| #[trigger] after.columns.contains_key(t) implies after.columns[t].len()
        <= after.names.len() by {}
}

/// Removing an id keeps the encyclopedia valid, and there is one word
/// less if there was a word under the id, and as many as before if there
/// was none.
pub proof fn law_remove_valid<W, N, I>(v: EncyclopediaView<W, N, I>, id: int)
    requires
        v.valid(),
    ensures
        v.remove(id).valid(),
        v.remove(id).count() == if v.is_live(id) {
            v.count() - 1
        } else {
            v.count() as int
        },
        !v.remove(id).is_live(id),
{
    let after = v.remove(id);
    lemma_live_set_bounds(v.names);
    if v.count() == 0 {
        if v.is_live(id) {
            assert(v.live_ids().contains(id));
        }
    } else if id == v.names.len() - 1 {
        lemma_live_set_drop_last(v.names);
        assert forall|t: N, i: int| 0 <= i < after.names.len() implies #[trigger] after.cell(t, i)
            == v.cell(t, i) by {}
        assert forall|t: N, i: int|
            0 <= i < after.names.len() && after.names[i] is None implies (#[trigger] after.cell(
            t,
            i,
        )) is Empty by {}
        assert forall|t: N| #[trigger] after.columns.contains_key(t) implies after.columns[t].len()
            <= after.names.len() by {}
    } else if v.is_live(id) {
        lemma_live_set_clear(v.names, id);
        assert forall|t: N, i: int| #[trigger]
            after.cell(t, i) == if i == id {
                TagData::Empty
            } else {
                v.cell(t, i)
            } by {}
        assert forall|t: N, i: int|
            0 <= i < after.names.len() && after.names[i] is None implies (#[trigger] after.cell(
            t,
            i,
        )) is Empty by {}
        assert forall|t: N| #[trigger] after.columns.contains_key(t) implies after.columns[t].len()
            <= after.names.len() by {}
    }
}

/// Declaring a tag group keeps the encyclopedia valid, and changes
/// neither the ids nor what is stored for them.
pub proof fn law_add_group_valid<W, N, I>(
    v: EncyclopediaView<W, N, I>,
    name: N,
    tags: Seq<Tag<N, I>>,
)
    requires
        v.valid(),
    ensures
        v.add_group(name, tags).valid(),
        v.add_group(name, tags).is_group(name),
        v.add_group(name, tags).names == v.names,
        v.add_group(name, tags).columns == v.columns,
{
    let after = v.add_group(name, tags);
    if v.is_group(name) {
        let g = v.group_index(name);
        lemma_to_map_update(v.groups, g, tags);
        assert(after.groups[g].0 == name);
    } else {
        lemma_distinct_push(v.groups, name, tags);
        assert(after.groups[v.groups.len() as int].0 == name);
    }
    assert forall|t: N, i: int|
        0 <= i < after.names.len() && after.names[i] is None implies (#[trigger] after.cell(
        t,
        i,
    )) is Empty by {
        assert(v.cell(t, i) is Empty);
    }
}

/// After any sequence of insertions, removals and declarations of groups,
/// begun with the empty encyclopedia, the encyclopedia is valid, and its
/// count is the number of ids under which a word is found.
pub proof fn law_every_state<W, N, I>(changes: Seq<Change<W, N, I>>)
    ensures
        EncyclopediaView::<W, N, I>::empty().changed_by(changes).valid(),
        EncyclopediaView::<W, N, I>::empty().changed_by(changes).count() == Set::new(
            |id: int| EncyclopediaView::<W, N, I>::empty().changed_by(changes).word(id) is Some,
        ).len(),
    decreases changes.len(),
{
    law_count(EncyclopediaView::<W, N, I>::empty().changed_by(changes));
    if changes.len() == 0 {
        law_empty_valid::<W, N, I>();
    } else {
        law_every_state(changes.drop_last());
        let before = EncyclopediaView::<W, N, I>::empty().changed_by(changes.drop_last());
        match changes.last() {
            Change::Insert(w) => {
                law_insert_valid(before, w);
            },
            Change::Remove(id) => {
                law_remove_valid(before, id);
            },
            Change::AddGroup(name, tags) => {
                law_add_group_valid(before, name, tags);
            },
        }
    }
}

} // verus!
