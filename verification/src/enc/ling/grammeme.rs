//! Grammatical categories and their values, the grammemes.
use vstd::prelude::*;
use crate::collections::VecSet;
use crate::enc::ling::tag::{duplicate_opt_string, opt_string_view, string_views};
use crate::util::EncSysType;

verus! {

/// What a grammatical category is: its name, its default value if it has
/// one, and its values, the default value among them.
pub struct GrammCategoryView {
    pub name: Seq<char>,
    pub default_value: Option<Seq<char>>,
    pub values: Set<Seq<char>>,
}

/// The values of a category that is made of a default value and of further
/// values: these values, and the default value where there is one.
pub open spec fn category_values(default_value: Option<Seq<char>>, values: Seq<Seq<char>>) -> Set<
    Seq<char>,
> {
    match default_value {
        Some(d) => values.to_set().insert(d),
        None => values.to_set(),
    }
}

/// A grammatical category, like case, person or verb tense.
///
/// The values of a grammatical category are called grammemes.
#[derive(Debug)]
pub struct GrammCategory {
    name: String,
    default_value: Option<String>,
    values: VecSet<String>,
}

impl View for GrammCategory {
    type V = GrammCategoryView;

    closed spec fn view(&self) -> GrammCategoryView {
        GrammCategoryView {
            name: self.name@,
            default_value: opt_string_view(self.default_value),
            values: self.values@,
        }
    }
}

impl GrammCategory {
    #[verifier::type_invariant]
    spec fn inv(&self) -> bool {
        match self.default_value {
            Some(d) => self.values@.contains(d@),
            None => true,
        }
    }

    /// Creates a new grammatical category. Its values are the given values
    /// and the default value, where one is given.
    pub fn new(name: String, default_value: Option<String>, values: Vec<String>) -> (r: Self)
        ensures
            r@.name == name@,
            r@.default_value == opt_string_view(default_value),
            r@.values == category_values(opt_string_view(default_value), string_views(values@)),
    {
        let mut set = VecSet::from_vec(values);
        match &default_value {
            Some(d) => {
                set.insert(d.duplicate());
            },
            None => {},
        }
        GrammCategory { name, default_value, values: set }
    }

    /// Returns the name of the category.
    pub fn get_name(&self) -> (r: &String)
        ensures
            r@ == self@.name,
    {
        &self.name
    }

    /// Tells whether the category has a default value.
    pub fn has_default_value(&self) -> (r: bool)
        ensures
            r == (self@.default_value is Some),
    {
        self.default_value.is_some()
    }

    /// Returns the default grammeme of the category, if it has one; it is
    /// one of the values of the category.
    pub fn get_default_value(&self) -> (r: Option<&String>)
        ensures
            match r {
                Some(d) => self@.default_value == Some(d@) && self@.values.contains(d@),
                None => self@.default_value is None,
            },
    {
        proof {
            use_type_invariant(self);
        }
        match &self.default_value {
            Some(d) => Some(d),
            None => None,
        }
    }

    /// Returns all of the grammemes of the category.
    pub fn get_values(&self) -> (r: &VecSet<String>)
        ensures
            r@ == self@.values,
    {
        &self.values
    }

    /// Tells whether the given grammeme is a value of the category.
    pub fn is_value_valid(&self, value: &String) -> (r: bool)
        ensures
            r == self@.values.contains(value@),
    {
        self.values.contains(value)
    }

    /// Returns the given grammeme as the category holds it; `None` if it
    /// is not a value of the category.
    pub fn get_value(&self, value: &String) -> (r: Option<&String>)
        ensures
            match r {
                Some(v) => self@.values.contains(value@) && v@ == value@,
                None => !self@.values.contains(value@),
            },
    {
        self.values.get(value)
    }

    /// Consumes the category and returns its name, and with it its default
    /// value and its values.
    pub fn into_map_entry(self) -> (r: (String, (Option<String>, VecSet<String>)))
        ensures
            r.0@ == self@.name,
            opt_string_view(r.1.0) == self@.default_value,
            r.1.1@ == self@.values,
    {
        (self.name, (self.default_value, self.values))
    }
}

impl EncSysType for GrammCategory {
    fn same(&self, other: &Self) -> (r: bool) {
        self.name.same(&other.name) && crate::enc::ling::tag::same_opt_string(
            &self.default_value,
            &other.default_value,
        ) && self.values.same(&other.values)
    }

    fn duplicate(&self) -> (r: Self) {
        proof {
            use_type_invariant(self);
        }
        GrammCategory {
            name: self.name.duplicate(),
            default_value: duplicate_opt_string(&self.default_value),
            values: self.values.duplicate(),
        }
    }
}

/// What a grammeme is: the name of its category, and its value.
pub struct GrammemeView {
    pub cat_name: Seq<char>,
    pub value: Seq<char>,
}

/// A valid grammeme, with the name of the category that it is in.
#[derive(Debug)]
pub struct Grammeme {
    cat_name: String,
    value: String,
}

impl View for Grammeme {
    type V = GrammemeView;

    closed spec fn view(&self) -> GrammemeView {
        GrammemeView { cat_name: self.cat_name@, value: self.value@ }
    }
}

impl Grammeme {
    /// Makes a grammeme of a category's name and one of its values.
    pub(crate) fn new(cat_name: String, value: String) -> (r: Self)
        ensures
            r@.cat_name == cat_name@,
            r@.value == value@,
    {
        Grammeme { cat_name, value }
    }

    /// Returns the name of the category.
    pub fn get_category_name(&self) -> (r: &String)
        ensures
            r@ == self@.cat_name,
    {
        &self.cat_name
    }

    /// Returns the value: the text of the grammeme.
    pub fn get_value(&self) -> (r: &String)
        ensures
            r@ == self@.value,
    {
        &self.value
    }
}

} // verus!
