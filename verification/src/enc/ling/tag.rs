//! The tag that stores a word's encyclopedic and lexicographical information.
use vstd::prelude::*;
use vstd::std_specs::cmp::PartialEqSpecImpl;
use crate::collections::VecSet;
use crate::util::EncSysType;

verus! {

/// The views of the strings of a sequence.
pub open spec fn string_views(strings: Seq<String>) -> Seq<Seq<char>> {
    strings.map_values(|s: String| s@)
}

/// The view of a string that may be missing.
pub open spec fn opt_string_view(s: Option<String>) -> Option<Seq<char>> {
    match s {
        Some(s) => Some(s@),
        None => None,
    }
}

/// Tells whether two vectors hold the same strings in the same order.
pub fn same_strings(a: &Vec<String>, b: &Vec<String>) -> (r: bool)
    ensures
        r == (string_views(a@) == string_views(b@)),
{
    if a.len() != b.len() {
        return false;
    }
    let mut k: usize = 0;
    while k < a.len()
        invariant
            k <= a@.len(),
            a@.len() == b@.len(),
            forall|i: int| 0 <= i < k ==> (#[trigger] a@[i])@ == b@[i]@,
        decreases a@.len() - k,
    {
        if !a[k].same(&b[k]) {
            proof {
                assert(string_views(a@)[k as int] != string_views(b@)[k as int]);
            }
            return false;
        }
        k += 1;
    }
    proof {
        assert(string_views(a@) =~= string_views(b@));
    }
    true
}

/// Returns a copy of a vector of strings.
pub fn duplicate_strings(a: &Vec<String>) -> (r: Vec<String>)
    ensures
        string_views(r@) == string_views(a@),
{
    let mut copy: Vec<String> = Vec::new();
    let mut k: usize = 0;
    while k < a.len()
        invariant
            k <= a@.len(),
            copy@.len() == k,
            forall|i: int| 0 <= i < k ==> (#[trigger] copy@[i])@ == a@[i]@,
        decreases a@.len() - k,
    {
        copy.push(a[k].duplicate());
        k += 1;
    }
    copy
}

/// Tells whether two strings that may be missing are the same.
pub fn same_opt_string(a: &Option<String>, b: &Option<String>) -> (r: bool)
    ensures
        r == (opt_string_view(*a) == opt_string_view(*b)),
{
    match (a, b) {
        (Some(x), Some(y)) => x.same(y),
        (None, None) => true,
        _ => false,
    }
}

/// Returns a copy of a string that may be missing.
pub fn duplicate_opt_string(a: &Option<String>) -> (r: Option<String>)
    ensures
        opt_string_view(r) == opt_string_view(*a),
{
    match a {
        Some(x) => Some(x.duplicate()),
        None => None,
    }
}

/// A word tag with encyclopedic and lexicographical information.
///
/// It takes as few assumptions about the language as possible.
#[derive(Debug)]
pub enum LingTag {
    Type(String),
    UseTagGroup(String),
    Parent(String),
    HasWords(Vec<String>),
    Synonym(String),
    Custom(String),
    CustomStr(String, Option<String>),
    CustomVec(String, Vec<String>),
    CustomSet(String, VecSet<String>),
}

/// What a tag is.
pub enum LingTagView {
    Type(Seq<char>),
    UseTagGroup(Seq<char>),
    Parent(Seq<char>),
    HasWords(Seq<Seq<char>>),
    Synonym(Seq<char>),
    Custom(Seq<char>),
    CustomStr(Seq<char>, Option<Seq<char>>),
    CustomVec(Seq<char>, Seq<Seq<char>>),
    CustomSet(Seq<char>, Set<Seq<char>>),
}

impl View for LingTag {
    type V = LingTagView;

    open spec fn view(&self) -> LingTagView {
        match *self {
            LingTag::Type(s) => LingTagView::Type(s@),
            LingTag::UseTagGroup(s) => LingTagView::UseTagGroup(s@),
            LingTag::Parent(s) => LingTagView::Parent(s@),
            LingTag::HasWords(v) => LingTagView::HasWords(string_views(v@)),
            LingTag::Synonym(s) => LingTagView::Synonym(s@),
            LingTag::Custom(s) => LingTagView::Custom(s@),
            LingTag::CustomStr(s, o) => LingTagView::CustomStr(s@, opt_string_view(o)),
            LingTag::CustomVec(s, v) => LingTagView::CustomVec(s@, string_views(v@)),
            LingTag::CustomSet(s, set) => LingTagView::CustomSet(s@, set@),
        }
    }
}

impl EncSysType for LingTag {
    fn same(&self, other: &Self) -> (r: bool) {
        match (self, other) {
            (LingTag::Type(a), LingTag::Type(b)) => a.same(b),
            (LingTag::UseTagGroup(a), LingTag::UseTagGroup(b)) => a.same(b),
            (LingTag::Parent(a), LingTag::Parent(b)) => a.same(b),
            (LingTag::HasWords(a), LingTag::HasWords(b)) => same_strings(a, b),
            (LingTag::Synonym(a), LingTag::Synonym(b)) => a.same(b),
            (LingTag::Custom(a), LingTag::Custom(b)) => a.same(b),
            (LingTag::CustomStr(a, x), LingTag::CustomStr(b, y)) => a.same(b) && same_opt_string(
                x,
                y,
            ),
            (LingTag::CustomVec(a, x), LingTag::CustomVec(b, y)) => a.same(b) && same_strings(x, y),
            (LingTag::CustomSet(a, x), LingTag::CustomSet(b, y)) => a.same(b) && x.same(y),
            _ => false,
        }
    }

    fn duplicate(&self) -> (r: Self) {
        match self {
            LingTag::Type(s) => LingTag::Type(s.duplicate()),
            LingTag::UseTagGroup(s) => LingTag::UseTagGroup(s.duplicate()),
            LingTag::Parent(s) => LingTag::Parent(s.duplicate()),
            LingTag::HasWords(v) => LingTag::HasWords(duplicate_strings(v)),
            LingTag::Synonym(s) => LingTag::Synonym(s.duplicate()),
            LingTag::Custom(s) => LingTag::Custom(s.duplicate()),
            LingTag::CustomStr(s, o) => LingTag::CustomStr(s.duplicate(), duplicate_opt_string(o)),
            LingTag::CustomVec(s, v) => LingTag::CustomVec(s.duplicate(), duplicate_strings(v)),
            LingTag::CustomSet(s, set) => LingTag::CustomSet(s.duplicate(), set.duplicate()),
        }
    }
}

impl Clone for LingTag {
    fn clone(&self) -> (r: Self)
        ensures
            r@ == self@,
    {
        self.duplicate()
    }
}

impl PartialEq for LingTag {
    fn eq(&self, other: &Self) -> (r: bool) {
        self.same(other)
    }
}

impl PartialEqSpecImpl for LingTag {
    open spec fn obeys_eq_spec() -> bool {
        true
    }

    open spec fn eq_spec(&self, other: &Self) -> bool {
        self@ == other@
    }
}

} // verus!
