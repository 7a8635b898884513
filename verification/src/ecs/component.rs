//! A component of an entity.
use vstd::prelude::*;
use vstd::std_specs::convert::FromSpecImpl;
use crate::util::EncSysType;

verus! {

/// A component with a name and data.
#[derive(Debug)]
pub struct Comp<C, D> {
    pub name: C,
    pub data: D,
}

impl<C: View, D: View> View for Comp<C, D> {
    type V = Comp<C::V, D::V>;

    open spec fn view(&self) -> Comp<C::V, D::V> {
        Comp { name: self.name@, data: self.data@ }
    }
}

impl<C, D> Comp<C, D> {
    /// Creates a new component.
    pub fn new(name: C, data: D) -> (r: Self)
        ensures
            r.name == name,
            r.data == data,
    {
        Comp { name, data }
    }

    /// Takes the component apart into its name and its data.
    pub fn into_tuple(self) -> (r: (C, D))
        ensures
            r.0 == self.name,
            r.1 == self.data,
    {
        (self.name, self.data)
    }
}

impl<C, D> From<(C, D)> for Comp<C, D> {
    fn from(t: (C, D)) -> (r: Self) {
        Comp::new(t.0, t.1)
    }
}

impl<C, D> FromSpecImpl<(C, D)> for Comp<C, D> {
    open spec fn obeys_from_spec() -> bool {
        true
    }

    open spec fn from_spec(t: (C, D)) -> Self {
        Comp { name: t.0, data: t.1 }
    }
}

impl<C: EncSysType, D: EncSysType> EncSysType for Comp<C, D> {
    fn same(&self, other: &Self) -> (r: bool) {
        self.name.same(&other.name) && self.data.same(&other.data)
    }

    fn duplicate(&self) -> (r: Self) {
        Comp { name: self.name.duplicate(), data: self.data.duplicate() }
    }
}

} // verus!
