//! An entity: what was derived from a word, described by components.
use vstd::prelude::*;
use vstd::std_specs::cmp::PartialEqSpecImpl;
use crate::assoc::{distinct_keys, has_key, to_map, lemma_to_map_dom, lemma_to_map_entry};
use crate::collections::VecMap;
use crate::ecs::component::Comp;
use crate::util::EncSysType;

verus! {

/// What an entity is: the id of the word that it is derived from, and the
/// data of each of its components, by the component's name.
#[verifier::reject_recursive_types(C)]
pub struct EntityView<C, D> {
    pub word_id: usize,
    pub comps: Map<C, D>,
}

/// An entity derived from a word, with the components that describe it.
#[derive(Debug)]
pub struct Entity<C: EncSysType, D: EncSysType> {
    assoc_word_id: usize,
    comps: VecMap<C, D>,
}

impl<C: EncSysType, D: EncSysType> View for Entity<C, D> {
    type V = EntityView<C::V, D::V>;

    closed spec fn view(&self) -> EntityView<C::V, D::V> {
        EntityView { word_id: self.assoc_word_id, comps: self.comps@.map_values(|d: D| d@) }
    }
}

impl<C: EncSysType, D: EncSysType> Entity<C, D> {
    /// The components in the order in which the entity keeps them: each
    /// name once, with its data.
    pub closed spec fn order(&self) -> Seq<(C::V, D::V)> {
        self.comps.pairs().map_values(|p: (C::V, D)| (p.0, p.1@))
    }

    /// Creates a new entity without components, derived from the word with
    /// the given id.
    pub fn new(word_id: usize) -> (r: Self)
        ensures
            r@.word_id == word_id,
            r@.comps == Map::<C::V, D::V>::empty(),
    {
        Entity { assoc_word_id: word_id, comps: VecMap::new() }
    }

    /// Returns the id of the word that the entity is derived from.
    pub fn get_word_id(&self) -> (r: usize)
        ensures
            r == self@.word_id,
    {
        self.assoc_word_id
    }

    /// Inserts the given component; it replaces a component of the same name.
    pub fn insert_comp(&mut self, c: Comp<C, D>)
        ensures
            final(self)@.word_id == old(self)@.word_id,
            final(self)@.comps == old(self)@.comps.insert(c.name@, c.data@),
    {
        let (name, data) = c.into_tuple();
        self.comps.insert(name, data);
    }

    /// Returns the data of the component with the given name; `None` if the
    /// entity has no such component.
    pub fn get_comp_data(&self, comp_name: &C) -> (r: Option<&D>)
        ensures
            match r {
                Some(d) => self@.comps.contains_key(comp_name@) && d@ == self@.comps[comp_name@],
                None => !self@.comps.contains_key(comp_name@),
            },
    {
        self.comps.get(comp_name)
    }

    /// Tells whether the entity has a component with the given name.
    pub fn has_comp(&self, comp_name: &C) -> (r: bool)
        ensures
            r == self@.comps.contains_key(comp_name@),
    {
        self.comps.contains_key(comp_name)
    }

    /// Returns the number of components of the entity. The entity keeps
    /// each component once, and its components are those that it keeps.
    pub fn comp_amount(&self) -> (r: usize)
        ensures
            r == self@.comps.len(),
            r == self.order().len(),
            distinct_keys(self.order()),
            self@.comps == to_map(self.order()),
    {
        let r = self.comps.len();
        proof {
            assert(self@.comps.dom() =~= self.comps@.dom());
            let pairs = self.comps.pairs();
            let order = self.order();
            assert forall|a: int, b: int| 0 <= a < b < order.len() implies order[a].0
                != order[b].0 by {}
            assert forall|k: C::V| self@.comps.contains_key(k) <==> to_map(order).contains_key(
                k,
            ) by {
                lemma_to_map_dom(pairs, k);
                lemma_to_map_dom(order, k);
                if has_key(pairs, k) {
                    let i = choose|i: int| 0 <= i < pairs.len() && #[trigger] pairs[i].0 == k;
                    assert(order[i].0 == k);
                }
                if has_key(order, k) {
                    let i = choose|i: int| 0 <= i < order.len() && #[trigger] order[i].0 == k;
                }
            }
            assert forall|k: C::V| self@.comps.contains_key(k) implies self@.comps[k] == to_map(
                order,
            )[k] by {
                lemma_to_map_dom(pairs, k);
                let i = choose|i: int| 0 <= i < pairs.len() && #[trigger] pairs[i].0 == k;
                lemma_to_map_entry(pairs, i);
                lemma_to_map_entry(order, i);
            }
        }
        r
    }

    /// Tells whether the entity has no components.
    pub fn is_empty(&self) -> (r: bool)
        ensures
            r == (self@.comps.len() == 0),
    {
        let r = self.comps.is_empty();
        proof {
            assert(self@.comps.dom() =~= self.comps@.dom());
        }
        r
    }

    /// Returns the name and the data of the component at a position in the
    /// order in which the entity keeps its components.
    pub fn comp_at(&self, i: usize) -> (r: (&C, &D))
        requires
            i < self.order().len(),
        ensures
            (r.0@, r.1@) == self.order()[i as int],
    {
        let e = self.comps.entry_at(i);
        (&e.key, &e.value)
    }

    /// Returns a cursor over the components of the entity, which yields
    /// each component once.
    pub fn iter(&self) -> (r: EntCompIter<'_, C, D>)
        ensures
            r.order() == self.order(),
            distinct_keys(r.order()),
            to_map(r.order()) == self@.comps,
            r.position() == 0,
    {
        // Counting the components tells that each is kept once.
        let _ = self.comp_amount();
        EntCompIter { entity: self, index: 0 }
    }
}

impl<C: EncSysType, D: EncSysType> EncSysType for Entity<C, D> {
    fn same(&self, other: &Self) -> (r: bool) {
        if self.assoc_word_id != other.assoc_word_id {
            return false;
        }
        let r = self.covered_by(other) && other.covered_by(self);
        proof {
            if r {
                assert forall|k: C::V|
                    self@.comps.dom().contains(k) == other@.comps.dom().contains(k) && (
                    self@.comps.dom().contains(k) ==> self@.comps[k] == other@.comps[k]) by {}
                assert(self@.comps =~= other@.comps);
            }
        }
        r
    }

    fn duplicate(&self) -> (r: Self) {
        let n = self.comp_amount();
        let mut copy: Entity<C, D> = Entity::new(self.assoc_word_id);
        let mut k: usize = 0;
        while k < n
            invariant
                k <= n,
                n == self.order().len(),
                copy@.word_id == self@.word_id,
                copy@.comps == to_map(self.order().subrange(0, k as int)),
            decreases n - k,
        {
            let (name, data) = self.comp_at(k);
            proof {
                let done = self.order().subrange(0, k as int);
                assert(self.order().subrange(0, k + 1) == done.push((name@, data@)));
                crate::assoc::lemma_to_map_push(done, name@, data@);
            }
            copy.insert_comp(Comp::new(name.duplicate(), data.duplicate()));
            k += 1;
        }
        proof {
            assert(self.order().subrange(0, n as int) == self.order());
        }
        copy
    }
}

impl<C: EncSysType, D: EncSysType> Entity<C, D> {
    /// Tells whether every component of `self` is a component of `other`
    /// with the same data.
    fn covered_by(&self, other: &Self) -> (r: bool)
        ensures
            r == self@.comps.submap_of(other@.comps),
    {
        let n = self.comp_amount();
        let mut k: usize = 0;
        while k < n
            invariant
                k <= n,
                n == self.order().len(),
                distinct_keys(self.order()),
                self@.comps == to_map(self.order()),
                forall|i: int|
                    0 <= i < k ==> {
                        &&& other@.comps.contains_key((#[trigger] self.order()[i]).0)
                        &&& other@.comps[self.order()[i].0] == self.order()[i].1
                    },
            decreases n - k,
        {
            let (name, data) = self.comp_at(k);
            proof {
                lemma_to_map_entry(self.order(), k as int);
            }
            let agrees = match other.get_comp_data(name) {
                Some(d) => d.same(data),
                None => false,
            };
            if !agrees {
                return false;
            }
            k += 1;
        }
        proof {
            assert forall|key: C::V| #[trigger]
                self@.comps.dom().contains(key) implies other@.comps.dom().contains(key)
                && self@.comps[key] == other@.comps[key] by {
                lemma_to_map_dom(self.order(), key);
                let i = choose|i: int|
                    0 <= i < self.order().len() && #[trigger] self.order()[i].0 == key;
                lemma_to_map_entry(self.order(), i);
            }
        }
        true
    }
}

impl<C: EncSysType, D: EncSysType> Clone for Entity<C, D> {
    fn clone(&self) -> (r: Self)
        ensures
            r@ == self@,
    {
        self.duplicate()
    }
}

impl<C: EncSysType, D: EncSysType> PartialEq for Entity<C, D> {
    fn eq(&self, other: &Self) -> (r: bool) {
        self.same(other)
    }
}

impl<C: EncSysType, D: EncSysType> PartialEqSpecImpl for Entity<C, D> {
    open spec fn obeys_eq_spec() -> bool {
        true
    }

    open spec fn eq_spec(&self, other: &Self) -> bool {
        self@ == other@
    }
}

/// A cursor that goes through the components of an entity, each once.
pub struct EntCompIter<'a, C: EncSysType, D: EncSysType> {
    entity: &'a Entity<C, D>,
    index: usize,
}

impl<'a, C: EncSysType, D: EncSysType> EntCompIter<'a, C, D> {
    /// The components in the order in which the cursor yields them: each
    /// name once, with its data.
    pub closed spec fn order(&self) -> Seq<(C::V, D::V)> {
        self.entity.order()
    }

    /// The number of components that the cursor has yielded.
    pub closed spec fn position(&self) -> int {
        self.index as int
    }

    #[verifier::type_invariant]
    spec fn inv(&self) -> bool {
        self.index <= self.entity.order().len()
    }

    /// Returns the next component, or `None` where all were yielded.
    pub fn next(&mut self) -> (r: Option<Comp<C, D>>)
        ensures
            final(self).order() == old(self).order(),
            0 <= old(self).position() <= old(self).order().len(),
            match r {
                Some(c) => {
                    &&& old(self).position() < old(self).order().len()
                    &&& (c.name@, c.data@) == old(self).order()[old(self).position()]
                    &&& final(self).position() == old(self).position() + 1
                },
                None => {
                    &&& old(self).position() == old(self).order().len()
                    &&& final(self).position() == old(self).position()
                },
            },
    {
        proof {
            use_type_invariant(&*self);
        }
        if self.index < self.entity.comp_amount() {
            let (name, data) = self.entity.comp_at(self.index);
            self.index = self.index + 1;
            Some(Comp::new(name.duplicate(), data.duplicate()))
        } else {
            None
        }
    }
}

} // verus!
