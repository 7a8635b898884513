use encsys::encyclopedia::Encyclopedia;
use encsys::tag::{Tag, TagData};
use encsys::word::Word;

type Enc = Encyclopedia<String, String, String>;
type W = Word<String, String, String>;

fn s(text: &str) -> String {
    text.to_string()
}

fn info(name: &str, data: &str) -> Tag<String, String> {
    Tag::new_w_data(s(name), s(data))
}

fn nullary(name: &str) -> Tag<String, String> {
    Tag::new_nullary(s(name))
}

fn word(name: &str, tags: Vec<Tag<String, String>>) -> W {
    Word::from_tag_vec(s(name), tags)
}

fn names(enc: &Enc) -> Vec<String> {
    enc.iter().collect().iter().map(|w| w.get_name().clone()).collect()
}

fn found(enc: &Enc) -> usize {
    (0..enc.get_end_id() + 3).filter(|id| enc.get_word_by_id(*id).is_some()).count()
}

#[test]
fn remove_last_frees_the_slot() {
    let mut enc = Enc::new();
    let word1 = word("word1", vec![info("tagA", "x")]);
    assert_eq!(enc.insert_word(word1.clone()), 0);
    assert_eq!(enc.insert_word(word("word2", vec![nullary("tagB")])), 1);
    enc.remove_word_by_id(1);

    assert_eq!(enc.get_end_id(), 1);
    assert_eq!(enc.get_word_count(), 1);
    assert_eq!(enc.get_word_by_id(0), Some(word1));
    assert_eq!(enc.get_word_by_id(1), None);
}

#[test]
fn iteration_follows_insertion() {
    let mut enc = Enc::new();
    let w1 = word("w1", vec![info("a", "1")]);
    let w2 = word("w2", vec![nullary("b")]);
    let w3 = word("w3", vec![info("c", "3")]);
    enc.insert_word(w1.clone());
    enc.insert_word(w2.clone());
    enc.insert_word(w3.clone());

    assert_eq!(enc.iter().collect(), vec![w1, w2, w3]);
}

#[test]
fn group_is_expanded() {
    let mut enc = Enc::new();
    enc.add_tag_group(s("grp"), vec![info("tagA", "x"), nullary("tagB")]);
    enc.insert_word(word("w", vec![info("tagC", "y"), nullary("grp")]));

    let w = enc.get_word_by_name(&s("w")).unwrap();
    assert_eq!(w, word("w", vec![info("tagA", "x"), nullary("tagB"), info("tagC", "y")]));
    assert_eq!(w.tag_amount(), 3);
    assert!(!w.has_tag(&s("grp")));
    assert!(w.has_nullary(&s("tagB")));
    assert_eq!(w.get_tag_info(&s("tagA")), Some(&s("x")));
}

#[test]
fn hundred_words_with_one_tag_each() {
    let mut enc = Encyclopedia::<usize, usize, ()>::new();
    for w in 0..100 {
        assert_eq!(enc.insert_word(Word::from_tag_vec(w, vec![Tag::new_nullary(w)])), w);
    }
    assert_eq!(enc.get_word_count(), 100);
    for id in 0..100 {
        let w = enc.get_word_by_id(id).unwrap();
        assert_eq!(w.tag_amount(), 1);
        assert!(w.has_nullary(&id));
    }
}

#[test]
fn insert_under_a_recorded_name_keeps_the_id() {
    let mut enc = Enc::new();
    let first = enc.insert_word(word("w1", vec![info("tagA", "1")]));
    let second = enc.insert_word(word("w1", vec![info("tagB", "2")]));
    assert_eq!(first, second);
    assert_eq!(enc.get_word_count(), 1);
    assert_eq!(enc.get_end_id(), 1);

    // the tags of the second word are written over what was there; what was
    // stored under other tag names stays
    assert_eq!(
        enc.get_word_by_name(&s("w1")),
        Some(word("w1", vec![info("tagA", "1"), info("tagB", "2")]))
    );

    enc.insert_word(word("w1", vec![info("tagA", "3")]));
    assert_eq!(
        enc.get_word_by_name(&s("w1")),
        Some(word("w1", vec![info("tagA", "3"), info("tagB", "2")]))
    );

    // an empty tag clears what was stored under its name
    enc.insert_word(word("w1", vec![Tag { name: s("tagB"), data: TagData::Empty }]));
    assert_eq!(enc.get_word_by_name(&s("w1")), Some(word("w1", vec![info("tagA", "3")])));
}

#[test]
fn round_trip() {
    let mut enc = Enc::new();
    enc.insert_word(word("other", vec![info("a", "0"), nullary("z")]));
    let w = word("w", vec![info("a", "1"), nullary("b"), info("c", "3")]);
    let id = enc.insert_word(w.clone());
    assert_eq!(id, 1);
    assert_eq!(enc.get_word_by_id(id), Some(w.clone()));
    assert_eq!(enc.get_word_by_name(&s("w")), Some(w));

    // a word without tags is a word
    let bare = W::new(s("bare"));
    let id = enc.insert_word(bare.clone());
    assert_eq!(enc.get_word_by_id(id), Some(bare));
}

#[test]
fn count_is_the_number_of_words_found() {
    let mut enc = Enc::new();
    assert!(enc.is_empty());
    assert_eq!(found(&enc), 0);
    for name in ["a", "b", "c", "d", "e"] {
        enc.insert_word(word(name, vec![nullary(name)]));
        assert_eq!(enc.get_word_count(), found(&enc));
    }
    for id in [1, 3, 1, 9, 4, 0, 3, 2, 2] {
        enc.remove_word_by_id(id);
        assert_eq!(enc.get_word_count(), found(&enc));
        assert_eq!(enc.is_empty(), found(&enc) == 0);
    }
    enc.insert_word(word("f", vec![]));
    assert_eq!(enc.get_word_count(), found(&enc));
    assert_eq!(enc.get_word_count(), 1);
}

#[test]
fn removal_in_place_keeps_the_other_ids() {
    let mut enc = Enc::new();
    let a = word("a", vec![info("t", "1")]);
    let b = word("b", vec![info("t", "2"), nullary("u")]);
    let c = word("c", vec![info("t", "3")]);
    enc.insert_word(a.clone());
    enc.insert_word(b);
    enc.insert_word(c.clone());

    enc.remove_word_by_id(1);
    assert_eq!(enc.get_end_id(), 3);
    assert_eq!(enc.get_word_count(), 2);
    assert_eq!(enc.get_word_by_id(0), Some(a));
    assert_eq!(enc.get_word_by_id(1), None);
    assert_eq!(enc.get_word_by_id(2), Some(c));
    assert_eq!(enc.get_word_by_name(&s("b")), None);
    assert_eq!(names(&enc), vec![s("a"), s("c")]);

    // the vacant id is not given to a new word
    assert_eq!(enc.insert_word(word("d", vec![nullary("u")])), 3);
    assert_eq!(enc.get_word_by_id(1), None);

    // the name that was removed is new again
    assert_eq!(enc.insert_word(word("b", vec![nullary("v")])), 4);
    assert_eq!(enc.get_word_by_id(4), Some(word("b", vec![nullary("v")])));
}

#[test]
fn recycling() {
    let mut enc = Enc::new();
    for name in ["a", "b", "c"] {
        enc.insert_word(word(name, vec![info("t", name)]));
    }
    // an id that is not the last leaves the end id as it is
    enc.remove_word_by_id(0);
    assert_eq!(enc.get_end_id(), 3);
    enc.remove_word_by_id(7);
    assert_eq!(enc.get_end_id(), 3);
    // the last id makes it one less, and no more than one
    enc.remove_word_by_id(2);
    assert_eq!(enc.get_end_id(), 2);
    enc.remove_last_word();
    assert_eq!(enc.get_end_id(), 1);
    assert_eq!(enc.get_word_count(), 0);

    // the slot that was freed is used again, and holds nothing of the old word
    assert_eq!(enc.insert_word(word("d", vec![nullary("u")])), 1);
    assert_eq!(enc.get_word_by_id(1), Some(word("d", vec![nullary("u")])));
}

#[test]
fn removal_where_there_is_no_word() {
    let mut enc = Enc::new();
    enc.remove_word_by_id(0);
    enc.remove_last_word();
    enc.remove_word_by_name(&s("none"));
    assert_eq!(enc.get_end_id(), 0);
    assert!(enc.is_empty());

    // with no word left, a vacant last id stays
    enc.insert_word(word("a", vec![]));
    enc.insert_word(word("b", vec![]));
    enc.remove_word_by_id(0);
    enc.remove_word_by_id(1);
    assert_eq!(enc.get_end_id(), 1);
    assert!(enc.is_empty());
    enc.remove_word_by_id(0);
    enc.remove_last_word();
    assert_eq!(enc.get_end_id(), 1);
    assert_eq!(enc.insert_word(word("c", vec![])), 1);
}

#[test]
fn removal_is_idempotent() {
    let mut enc = Enc::new();
    for name in ["a", "b", "c"] {
        enc.insert_word(word(name, vec![info("t", name)]));
    }
    enc.remove_word_by_id(1);
    let before = enc.iter().collect();
    for id in [1, 1, 3, 100, usize::MAX] {
        enc.remove_word_by_id(id);
        assert_eq!(enc.get_end_id(), 3);
        assert_eq!(enc.get_word_count(), 2);
        assert_eq!(enc.iter().collect(), before);
    }
    enc.remove_word_by_name(&s("b"));
    assert_eq!(enc.iter().collect(), before);
}

#[test]
fn a_vacant_last_id_is_given_up() {
    let mut enc = Enc::new();
    for name in ["a", "b", "c"] {
        enc.insert_word(word(name, vec![]));
    }
    enc.remove_word_by_id(1);
    enc.remove_word_by_id(2);
    assert_eq!(enc.get_end_id(), 2);
    // id 1 is vacant and the last one: removing it again frees its slot
    enc.remove_word_by_id(1);
    assert_eq!(enc.get_end_id(), 1);
    assert_eq!(enc.get_word_count(), 1);
}

#[test]
fn removal_by_name() {
    let mut enc = Enc::new();
    for name in ["a", "b", "c"] {
        enc.insert_word(word(name, vec![info("t", name)]));
    }
    enc.remove_word_by_name(&s("a"));
    assert_eq!(enc.get_end_id(), 3);
    assert_eq!(enc.get_word_by_name(&s("a")), None);
    enc.remove_word_by_name(&s("c"));
    assert_eq!(enc.get_end_id(), 2);
    assert_eq!(names(&enc), vec![s("b")]);
}

#[test]
fn iteration_passes_over_vacant_ids() {
    let mut enc = Enc::new();
    for name in ["a", "b", "c", "d", "e"] {
        enc.insert_word(word(name, vec![]));
    }
    enc.remove_word_by_id(0);
    enc.remove_word_by_id(2);
    enc.remove_word_by_id(3);
    assert_eq!(names(&enc), vec![s("b"), s("e")]);

    let mut it = enc.iter();
    assert_eq!(it.next().map(|w| w.get_name().clone()), Some(s("b")));
    assert_eq!(it.collect().len(), 1);
    assert_eq!(it.next(), None);
    assert_eq!(it.next(), None);

    // a new cursor starts again
    assert_eq!(enc.iter().collect().len(), 2);
    assert_eq!(Enc::new().iter().next(), None);
}

#[test]
fn explicit_tag_wins_over_group() {
    let mut enc = Enc::new();
    enc.add_tag_group(s("grp"), vec![info("t", "v2"), info("u", "g")]);
    enc.insert_word(word("w", vec![info("t", "v"), nullary("grp")]));
    assert_eq!(
        enc.get_word_by_name(&s("w")),
        Some(word("w", vec![info("t", "v"), info("u", "g")]))
    );
}

#[test]
fn groups_merge_in_order_of_declaration() {
    let mut enc = Enc::new();
    enc.add_tag_group(s("g1"), vec![info("t", "one"), info("t", "again"), info("a", "1")]);
    enc.add_tag_group(s("g2"), vec![info("t", "two"), info("b", "2")]);
    // the word names the groups in the other order
    enc.insert_word(word("w", vec![info("g2", "payload"), nullary("g1")]));
    assert_eq!(
        enc.get_word_by_name(&s("w")),
        Some(word("w", vec![info("t", "one"), info("a", "1"), info("b", "2")]))
    );

    // a group that is declared again is replaced where it stands
    enc.add_tag_group(s("g1"), vec![info("a", "new")]);
    assert_eq!(
        enc.get_word_by_name(&s("w")),
        Some(word("w", vec![info("a", "new"), info("t", "two"), info("b", "2")]))
    );
}

#[test]
fn group_details() {
    let mut enc = Enc::new();
    // a group that is not declared is no group: its tag is a tag like others
    enc.insert_word(word("w", vec![nullary("later"), info("x", "1")]));
    assert_eq!(
        enc.get_word_by_id(0),
        Some(word("w", vec![nullary("later"), info("x", "1")]))
    );
    // once it is declared, the tag stands for the group's tags
    enc.add_tag_group(
        s("later"),
        vec![info("y", "2"), Tag { name: s("z"), data: TagData::Empty }],
    );
    assert_eq!(enc.get_word_by_id(0), Some(word("w", vec![info("x", "1"), info("y", "2")])));
    // a word that does not name the group has none of its tags
    enc.insert_word(word("v", vec![info("x", "1")]));
    assert_eq!(enc.get_word_by_id(1), Some(word("v", vec![info("x", "1")])));
    // an empty group adds nothing
    enc.add_tag_group(s("later"), vec![]);
    assert_eq!(enc.get_word_by_id(0), Some(word("w", vec![info("x", "1")])));
}

#[test]
fn words_read_are_copies() {
    let mut enc = Enc::new();
    enc.insert_word(word("w", vec![info("t", "1")]));
    let mut copy = enc.get_word_by_id(0).unwrap();
    copy.add_tag(info("u", "2"));
    assert_eq!(enc.get_word_by_id(0), Some(word("w", vec![info("t", "1")])));
    enc.remove_word_by_id(0);
    assert_eq!(copy, word("w", vec![info("t", "1"), info("u", "2")]));
}
