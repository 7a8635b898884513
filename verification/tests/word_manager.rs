use encsys::tag::{Tag, TagData};
use encsys::word_manager::WordManager;

fn sorted(mut tags: Vec<Tag<String, u32>>) -> Vec<(String, Option<u32>)> {
    let mut out: Vec<(String, Option<u32>)> =
        tags.drain(..).map(|t| (t.name.clone(), t.get_data().copied())).collect();
    out.sort();
    out
}

#[test]
fn words_get_their_tags_back() {
    let mut man = WordManager::new();
    man.add_word(vec![Tag::new_w_data("a".to_string(), 1), Tag::new_nullary("b".to_string())]);
    man.add_word(vec![Tag::new_w_data("b".to_string(), 2)]);
    man.add_word(vec![]);

    assert_eq!(
        sorted(man.get_word_by_id(0)),
        vec![("a".to_string(), Some(1)), ("b".to_string(), None)]
    );
    assert_eq!(sorted(man.get_word_by_id(1)), vec![("b".to_string(), Some(2))]);
    assert_eq!(sorted(man.get_word_by_id(2)), vec![]);
    assert_eq!(sorted(man.get_word_by_id(3)), vec![]);
}

#[test]
fn later_tag_of_a_name_stays_and_empty_is_no_tag() {
    let mut man = WordManager::new();
    man.add_word(vec![
        Tag::new_w_data("a".to_string(), 1),
        Tag::new_w_data("a".to_string(), 5),
        Tag { name: "c".to_string(), data: TagData::Empty },
    ]);
    assert_eq!(sorted(man.get_word_by_id(0)), vec![("a".to_string(), Some(5))]);
}
