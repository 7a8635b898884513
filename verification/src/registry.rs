//! The registry of names: which word name is recorded under which id.
use vstd::prelude::*;
use crate::model::{distinct_names, lemma_live_set_bounds, lemma_live_set_clear, lemma_live_set_drop_last, lemma_live_set_push, lemma_position_unique, live_set, position_of, recorded, slot_for, with_name, without_last, without_name_at};
use crate::util::EncSysType;

verus! {

/// The names with the counters that go with them.
#[derive(Debug)]
struct Slots<W> {
    /// The name recorded under each id; `None` for a vacant id.
    names: Vec<Option<W>>,
    /// The id that the next new name gets.
    next_id: usize,
    /// The number of names that are recorded.
    live_count: usize,
}

/// The views of the recorded names.
spec fn name_views<W: View>(names: Seq<Option<W>>) -> Seq<Option<W::V>> {
    names.map_values(
        |o: Option<W>|
            match o {
                Some(w) => Some(w@),
                None => None,
            },
    )
}

/// The registry of names: under each id a name, or nothing.
///
/// A name is recorded under one id only. An id whose name was cleared stays
/// in use and is vacant; only the last id can be given up.
#[derive(Debug)]
pub struct Registry<W: EncSysType> {
    slots: Slots<W>,
}

impl<W: EncSysType> View for Registry<W> {
    type V = Seq<Option<W::V>>;

    closed spec fn view(&self) -> Seq<Option<W::V>> {
        name_views(self.slots.names@)
    }
}

impl<W: EncSysType> Registry<W> {
    #[verifier::type_invariant]
    spec fn inv(&self) -> bool {
        &&& self.slots.next_id == self.slots.names@.len()
        &&& self.slots.live_count == live_set(name_views(self.slots.names@)).len()
        &&& distinct_names(name_views(self.slots.names@))
    }

    /// Creates a registry without ids.
    pub fn new() -> (r: Self)
        ensures
            r@ == Seq::<Option<W::V>>::empty(),
    {
        proof {
            assert(live_set(name_views(Seq::<Option<W>>::empty())) =~= Set::empty());
        }
        Registry { slots: Slots { names: Vec::new(), next_id: 0, live_count: 0 } }
    }

    /// Takes the names and counters out and leaves none behind.
    fn take(&mut self) -> (r: Slots<W>)
        ensures
            r == old(self).slots,
            final(self)@ == Seq::<Option<W::V>>::empty(),
    {
        proof {
            assert(live_set(name_views(Seq::<Option<W>>::empty())) =~= Set::empty());
        }
        let mut slots = Slots { names: Vec::new(), next_id: 0, live_count: 0 };
        core::mem::swap(&mut self.slots, &mut slots);
        slots
    }

    /// Returns the one after the last id in use. No name is recorded under
    /// two ids.
    pub fn end_id(&self) -> (r: usize)
        ensures
            r == self@.len(),
            distinct_names(self@),
    {
        proof {
            use_type_invariant(self);
        }
        self.slots.next_id
    }

    /// Returns the number of names that are recorded.
    pub fn live_count(&self) -> (r: usize)
        ensures
            r == live_set(self@).len(),
            r <= self@.len(),
    {
        proof {
            use_type_invariant(self);
            lemma_live_set_bounds(self@);
        }
        self.slots.live_count
    }

    /// Returns the id under which the given name is recorded, if it is.
    pub fn id_of(&self, name: &W) -> (r: Option<usize>)
        ensures
            match r {
                Some(id) => recorded(self@, name@) && id == position_of(self@, name@) && id
                    < self@.len() && self@[id as int] == Some(name@),
                None => !recorded(self@, name@),
            },
    {
        let mut k: usize = 0;
        while k < self.slots.names.len()
            invariant
                k <= self.slots.names@.len(),
                forall|i: int| 0 <= i < k ==> (#[trigger] self@[i]) != Some(name@),
            decreases self.slots.names@.len() - k,
        {
            let found = match &self.slots.names[k] {
                Some(n) => n.same(name),
                None => false,
            };
            if found {
                proof {
                    use_type_invariant(self);
                    lemma_position_unique(self@, k as int, name@);
                }
                return Some(k);
            }
            k += 1;
        }
        None
    }

    /// Returns the name recorded under the given id; `None` if the id is
    /// vacant or out of range.
    pub fn name_of(&self, id: usize) -> (r: Option<&W>)
        ensures
            match r {
                Some(name) => id < self@.len() && self@[id as int] == Some(name@),
                None => id >= self@.len() || self@[id as int] is None,
            },
    {
        if id >= self.slots.names.len() {
            return None;
        }
        match &self.slots.names[id] {
            Some(name) => Some(name),
            None => None,
        }
    }

    /// Records a name and returns its id: the id under which it is recorded
    /// already, or else the next new id.
    pub fn add(&mut self, name: W) -> (id: usize)
        ensures
            id == slot_for(old(self)@, name@),
            final(self)@ == with_name(old(self)@, name@),
    {
        match self.id_of(&name) {
            Some(id) => id,
            None => {
                proof {
                    use_type_invariant(&*self);
                    lemma_live_set_bounds(self@);
                    lemma_live_set_push(self@, Some(name@));
                }
                let ghost before = self@;
                let mut slots = self.take();
                let id = slots.next_id;
                slots.names.push(Some(name));
                slots.next_id = slots.names.len();
                slots.live_count = slots.live_count + 1;
                proof {
                    assert(name_views(slots.names@) =~= before.push(Some(name@)));
                    assert(distinct_names(before.push(Some(name@))));
                }
                self.slots = slots;
                id
            },
        }
    }

    /// Clears the name recorded under an id; the id stays in use and is
    /// vacant. Nothing happens for an id that is vacant or out of range.
    pub fn tombstone(&mut self, id: usize)
        ensures
            final(self)@ == without_name_at(old(self)@, id as int),
    {
        proof {
            use_type_invariant(&*self);
        }
        if id >= self.slots.names.len() {
            return ;
        }
        let ghost before = self@;
        proof {
            lemma_live_set_bounds(before);
            lemma_live_set_clear(before, id as int);
        }
        let mut slots = self.take();
        if slots.names[id].is_some() {
            slots.live_count = slots.live_count - 1;
        }
        slots.names[id] = None;
        proof {
            assert(name_views(slots.names@) =~= before.update(id as int, None));
            assert(distinct_names(before.update(id as int, None)));
        }
        self.slots = slots;
    }

    /// Gives up the last id, live or vacant. Nothing happens where no id
    /// is in use.
    pub fn pop_last(&mut self)
        ensures
            final(self)@ == without_last(old(self)@),
    {
        proof {
            use_type_invariant(&*self);
        }
        if self.slots.names.len() == 0 {
            return ;
        }
        let ghost before = self@;
        proof {
            lemma_live_set_bounds(before);
            lemma_live_set_drop_last(before);
        }
        let mut slots = self.take();
        match slots.names.pop() {
            Some(Some(_)) => {
                slots.live_count = slots.live_count - 1;
            },
            _ => {},
        }
        slots.next_id = slots.names.len();
        proof {
            assert(name_views(slots.names@) =~= before.drop_last());
            assert(distinct_names(before.drop_last()));
        }
        self.slots = slots;
    }
}

} // verus!
