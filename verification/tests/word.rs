use encsys::tag::{Tag, TagData};
use encsys::util::EncSysType;
use encsys::word::Word;

type W = Word<String, String, u32>;

fn s(text: &str) -> String {
    text.to_string()
}

#[test]
fn tags_and_their_data() {
    let t: Tag<String, u32> = Tag::new_nullary(s("a"));
    assert_eq!(t.get_name(), "a");
    assert_eq!(t.get_data(), None);
    assert!(!t.has_data());
    assert!(!t.data.is_empty());

    let u = Tag::new_w_data(s("b"), 4u32);
    assert_eq!(u.get_data(), Some(&4));
    assert!(u.has_data());
    assert_eq!(u, Tag::new_with_info(s("b"), 4));
    assert!(u != Tag::new_w_data(s("b"), 5));
    assert!(u != Tag::new_w_data(s("c"), 4));
    assert!(u != Tag::new_nullary(s("b")));

    let copy = Tag::reconstruct(&s("b"), &TagData::Info(4u32));
    assert_eq!(copy, u);
    assert_eq!(u.duplicate(), u);

    assert!(TagData::<u32>::Empty.is_empty());
    assert!(!TagData::<u32>::Exists.is_empty());
    assert_eq!(TagData::Info(3u32).get_info(), Some(&3));
    assert_eq!(TagData::<u32>::Exists.get_info(), None);
    assert!(TagData::Info(3u32) != TagData::Info(4u32));
    assert!(TagData::<u32>::Exists != TagData::Empty);
}

#[test]
fn word_tags_are_a_map() {
    let mut w = W::new(s("w"));
    assert!(w.is_empty());
    assert_eq!(w.get_name(), "w");
    w.add_tag(Tag::new_w_data(s("a"), 1));
    w.add_tag(Tag::new_nullary(s("b")));
    w.add_tag(Tag::new_w_data(s("a"), 2));
    assert!(!w.is_empty());
    assert_eq!(w.tag_amount(), 2);
    assert!(w.has_tag(&s("a")));
    assert!(!w.has_tag(&s("c")));
    assert!(w.has_nullary(&s("b")));
    assert!(!w.has_nullary(&s("a")));
    assert!(!w.has_nullary(&s("c")));
    assert_eq!(w.get_tag_info(&s("a")), Some(&2));
    assert_eq!(w.get_tag_info(&s("b")), None);
    assert_eq!(w.get_tag_info(&s("c")), None);
    assert_eq!(w.get_tag_data(&s("b")), Some(&TagData::Exists));
    assert_eq!(w.get_tag_data(&s("c")), None);

    w.add_missing_tag(Tag::new_w_data(s("a"), 9));
    w.add_missing_tag(Tag::new_w_data(s("c"), 9));
    assert_eq!(w.get_tag_info(&s("a")), Some(&2));
    assert_eq!(w.get_tag_info(&s("c")), Some(&9));

    w.extend(vec![Tag::new_w_data(s("c"), 1), Tag::new_w_data(s("c"), 3)]);
    assert_eq!(w.get_tag_info(&s("c")), Some(&3));
    assert_eq!(w.get_tags().len(), 3);
}

#[test]
fn words_compare_without_order() {
    let a = W::from_tag_vec(s("w"), vec![Tag::new_w_data(s("a"), 1), Tag::new_nullary(s("b"))]);
    let b = W::from_collection(s("w"), vec![Tag::new_nullary(s("b")), Tag::new_w_data(s("a"), 1)]);
    assert_eq!(a, b);
    assert_eq!(a, a.clone());
    assert!(a != W::new_from_collection(s("v"), vec![Tag::new_w_data(s("a"), 1), Tag::new_nullary(s("b"))]));
    assert!(a != W::from_tag_vec(s("w"), vec![Tag::new_w_data(s("a"), 1)]));
    assert!(a != W::from_tag_vec(s("w"), vec![Tag::new_w_data(s("a"), 2), Tag::new_nullary(s("b"))]));
    assert_eq!(W::new(s("x")), W::new_empty(s("x")));

    // of two tags of one name the later stays
    let c = W::from_tag_vec(s("w"), vec![Tag::new_w_data(s("a"), 7), Tag::new_w_data(s("a"), 1), Tag::new_nullary(s("b"))]);
    assert_eq!(a, c);
    assert_eq!(c.tag_amount(), 2);

    let (name, tags) = c.into_map_entry();
    assert_eq!(name, "w");
    assert_eq!(W::from_tag_vec(name, tags), a);
    assert_eq!(W::from_tag_vec(s("w"), b.to_tag_vec()), a);
}

#[test]
fn values_compare_and_copy() {
    assert!(s("a").same(&s("a")));
    assert!(!s("a").same(&s("b")));
    assert_eq!(s("a").duplicate(), "a");
    assert!(3usize.same(&3));
    assert!(!3u64.same(&4));
    assert_eq!(5u32.duplicate(), 5);
    assert!((-1i32).same(&-1));
    assert!(!(-1i64).same(&1));
    assert!(true.same(&true) && !true.same(&false));
    assert!('a'.same(&'a') && !'a'.same(&'b'));
    assert!(().same(&()));
}
