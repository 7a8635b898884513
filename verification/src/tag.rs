//! Tags: the named annotations that describe a word.
use vstd::prelude::*;
use vstd::std_specs::cmp::PartialEqSpecImpl;
use crate::util::EncSysType;

verus! {

/// What a word holds under one tag name: information, the bare fact that the
/// tag is there, or nothing.
#[derive(Clone, Debug)]
pub enum TagData<I> {
    /// The tag is present and carries information.
    Info(I),
    /// The tag is present and carries nothing (a nullary tag).
    Exists,
    /// The tag is absent.
    Empty,
}

impl<I: View> View for TagData<I> {
    type V = TagData<I::V>;

    open spec fn view(&self) -> TagData<I::V> {
        match *self {
            TagData::Info(i) => TagData::Info(i@),
            TagData::Exists => TagData::Exists,
            TagData::Empty => TagData::Empty,
        }
    }
}

impl<I: EncSysType> TagData<I> {
    /// Returns the information of the tag, if it carries any.
    pub fn get_info(&self) -> (r: Option<&I>)
        ensures
            match *self {
                TagData::Info(i) => r == Some(&i),
                _ => r is None,
            },
    {
        match self {
            TagData::Info(i) => Some(i),
            _ => None,
        }
    }

    /// Tells whether the tag is absent.
    pub fn is_empty(&self) -> (r: bool)
        ensures
            r == (*self is Empty),
    {
        match self {
            TagData::Empty => true,
            _ => false,
        }
    }
}

impl<I: EncSysType> EncSysType for TagData<I> {
    fn same(&self, other: &Self) -> (r: bool) {
        match (self, other) {
            (TagData::Info(a), TagData::Info(b)) => a.same(b),
            (TagData::Exists, TagData::Exists) => true,
            (TagData::Empty, TagData::Empty) => true,
            _ => false,
        }
    }

    fn duplicate(&self) -> (r: Self) {
        match self {
            TagData::Info(i) => TagData::Info(i.duplicate()),
            TagData::Exists => TagData::Exists,
            TagData::Empty => TagData::Empty,
        }
    }
}

impl<I: EncSysType> PartialEq for TagData<I> {
    fn eq(&self, other: &Self) -> (r: bool) {
        self.same(other)
    }
}

impl<I: EncSysType> PartialEqSpecImpl for TagData<I> {
    open spec fn obeys_eq_spec() -> bool {
        true
    }

    open spec fn eq_spec(&self, other: &Self) -> bool {
        self@ == other@
    }
}

/// A tag: a name together with what is held under it.
#[derive(Clone, Debug)]
pub struct Tag<N, I> {
    pub name: N,
    pub data: TagData<I>,
}

impl<N: View, I: View> View for Tag<N, I> {
    type V = Tag<N::V, I::V>;

    open spec fn view(&self) -> Tag<N::V, I::V> {
        Tag { name: self.name@, data: self.data@ }
    }
}

/// The views of the tags of a sequence.
pub open spec fn tag_views<N: View, I: View>(tags: Seq<Tag<N, I>>) -> Seq<Tag<N::V, I::V>> {
    tags.map_values(|t: Tag<N, I>| t@)
}

impl<N: EncSysType, I: EncSysType> Tag<N, I> {
    /// Creates a tag that carries no information.
    pub fn new_nullary(name: N) -> (r: Self)
        ensures
            r.name == name,
            r.data is Exists,
    {
        Tag { name, data: TagData::Exists }
    }

    /// Creates a tag that carries `data`.
    pub fn new_w_data(name: N, data: I) -> (r: Self)
        ensures
            r.name == name,
            r.data == TagData::Info(data),
    {
        Tag { name, data: TagData::Info(data) }
    }

    /// Creates a tag that carries `info`.
    pub fn new_with_info(name: N, info: I) -> (r: Self)
        ensures
            r.name == name,
            r.data == TagData::Info(info),
    {
        Tag { name, data: TagData::Info(info) }
    }

    /// Builds a tag from copies of a name and of what is held under it.
    pub fn reconstruct(name: &N, data: &TagData<I>) -> (r: Self)
        ensures
            r@ == (Tag { name: name@, data: data@ }),
    {
        Tag { name: name.duplicate(), data: data.duplicate() }
    }

    /// Returns the name of the tag.
    pub fn get_name(&self) -> (r: &N)
        ensures
            *r == self.name,
    {
        &self.name
    }

    /// Returns the information of the tag, if it carries any.
    pub fn get_data(&self) -> (r: Option<&I>)
        ensures
            match self.data {
                TagData::Info(i) => r == Some(&i),
                _ => r is None,
            },
    {
        self.data.get_info()
    }

    /// Tells whether the tag carries information.
    pub fn has_data(&self) -> (r: bool)
        ensures
            r == (self.data is Info),
    {
        match self.data {
            TagData::Info(_) => true,
            _ => false,
        }
    }
}

impl<N: EncSysType, I: EncSysType> EncSysType for Tag<N, I> {
    fn same(&self, other: &Self) -> (r: bool) {
        self.name.same(&other.name) && self.data.same(&other.data)
    }

    fn duplicate(&self) -> (r: Self) {
        Tag { name: self.name.duplicate(), data: self.data.duplicate() }
    }
}

impl<N: EncSysType, I: EncSysType> PartialEq for Tag<N, I> {
    fn eq(&self, other: &Self) -> (r: bool) {
        self.same(other)
    }
}

impl<N: EncSysType, I: EncSysType> PartialEqSpecImpl for Tag<N, I> {
    open spec fn obeys_eq_spec() -> bool {
        true
    }

    open spec fn eq_spec(&self, other: &Self) -> bool {
        self@ == other@
    }
}

} // verus!
