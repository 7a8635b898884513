//! The registry of tag groups: named bundles of tags.
use vstd::prelude::*;
use crate::assoc::{distinct_keys, has_key, lemma_distinct_push, lemma_to_map_update};
use crate::model::{group_position, lemma_group_unique, with_group};
use crate::tag::{Tag, tag_views};
use crate::util::EncSysType;

verus! {

/// A named group of tags.
#[derive(Debug)]
struct Group<N, I> {
    name: N,
    tags: Vec<Tag<N, I>>,
}

/// The groups as pairs of a name and its tags.
spec fn group_pairs<N: View, I: View>(groups: Seq<Group<N, I>>) -> Seq<
    (N::V, Seq<Tag<N::V, I::V>>),
> {
    groups.map_values(|g: Group<N, I>| (g.name@, tag_views(g.tags@)))
}

/// The declared tag groups, each name once, in the order in which the
/// names were first declared.
#[derive(Debug)]
pub struct TagGroups<N: EncSysType, I: EncSysType> {
    groups: Vec<Group<N, I>>,
}

impl<N: EncSysType, I: EncSysType> View for TagGroups<N, I> {
    type V = Seq<(N::V, Seq<Tag<N::V, I::V>>)>;

    closed spec fn view(&self) -> Seq<(N::V, Seq<Tag<N::V, I::V>>)> {
        group_pairs(self.groups@)
    }
}

impl<N: EncSysType, I: EncSysType> TagGroups<N, I> {
    #[verifier::type_invariant]
    spec fn inv(&self) -> bool {
        distinct_keys(group_pairs(self.groups@))
    }

    /// Creates a registry without groups.
    pub fn new() -> (r: Self)
        ensures
            r@ == Seq::<(N::V, Seq<Tag<N::V, I::V>>)>::empty(),
    {
        TagGroups { groups: Vec::new() }
    }

    /// Returns the number of groups. No two groups have the same name.
    pub fn len(&self) -> (r: usize)
        ensures
            r == self@.len(),
            distinct_keys(self@),
    {
        proof {
            use_type_invariant(self);
        }
        self.groups.len()
    }

    /// Returns the name of the group at a position.
    pub fn name_at(&self, g: usize) -> (r: &N)
        requires
            g < self@.len(),
        ensures
            r@ == self@[g as int].0,
    {
        &self.groups[g].name
    }

    /// Returns the tags of the group at a position.
    pub fn tags_at(&self, g: usize) -> (r: &Vec<Tag<N, I>>)
        requires
            g < self@.len(),
        ensures
            tag_views(r@) == self@[g as int].1,
    {
        &self.groups[g].tags
    }

    /// The position of the group of the given name, if it is declared.
    fn find(&self, name: &N) -> (r: Option<usize>)
        ensures
            match r {
                Some(g) => g < self@.len() && self@[g as int].0 == name@ && has_key(self@, name@)
                    && group_position(self@, name@) == g,
                None => !has_key(self@, name@),
            },
    {
        let mut k: usize = 0;
        while k < self.groups.len()
            invariant
                k <= self.groups@.len(),
                forall|i: int| 0 <= i < k ==> (#[trigger] self@[i]).0 != name@,
            decreases self.groups@.len() - k,
        {
            if self.groups[k].name.same(name) {
                proof {
                    use_type_invariant(self);
                    lemma_group_unique(self@, k as int, name@);
                }
                return Some(k);
            }
            k += 1;
        }
        None
    }

    /// Tells whether a group of the given name is declared.
    pub fn is_group(&self, name: &N) -> (r: bool)
        ensures
            r == has_key(self@, name@),
    {
        self.find(name).is_some()
    }

    /// Returns the tags of the group of the given name; `None` if no such
    /// group is declared.
    pub fn expand(&self, name: &N) -> (r: Option<&Vec<Tag<N, I>>>)
        ensures
            match r {
                Some(tags) => has_key(self@, name@) && tag_views(tags@) == self@[group_position(
                    self@,
                    name@,
                )].1,
                None => !has_key(self@, name@),
            },
    {
        match self.find(name) {
            Some(g) => Some(&self.groups[g].tags),
            None => None,
        }
    }

    /// Declares a group with the given name and tags; it replaces a group
    /// of the same name where that stands, and else comes last.
    pub fn add_group(&mut self, name: N, tags: Vec<Tag<N, I>>)
        ensures
            final(self)@ == with_group(old(self)@, name@, tag_views(tags@)),
    {
        proof {
            use_type_invariant(&*self);
        }
        let ghost before = self@;
        let found = self.find(&name);
        let mut groups: Vec<Group<N, I>> = Vec::new();
        core::mem::swap(&mut self.groups, &mut groups);
        match found {
            Some(g) => {
                proof {
                    lemma_to_map_update(before, g as int, tag_views(tags@));
                }
                groups.set(g, Group { name, tags });
                proof {
                    assert(group_pairs(groups@) =~= before.update(
                        g as int,
                        (name@, tag_views(tags@)),
                    ));
                }
            },
            None => {
                proof {
                    lemma_distinct_push(before, name@, tag_views(tags@));
                }
                groups.push(Group { name, tags });
                proof {
                    assert(group_pairs(groups@) =~= before.push((name@, tag_views(tags@))));
                }
            },
        }
        core::mem::swap(&mut self.groups, &mut groups);
    }
}

} // verus!
