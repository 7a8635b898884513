use encsys::collections::{VecMap, VecSet};
use encsys::columns::TagColumns;
use encsys::encling::EncLingError;
use encsys::encyclopedia::Encyclopedia;
use encsys::tag::{Tag, TagData};
use encsys::util::EncSysType;
use encsys::word::Word;

fn s(text: &str) -> String {
    text.to_string()
}

#[test]
fn columns_grow_on_write() {
    let mut cols: TagColumns<String, u32> = TagColumns::new();
    assert_eq!(cols.len(), 0);
    assert_eq!(cols.read(&s("a"), 0), None);

    cols.write(Tag::new_w_data(s("a"), 1), 0, 1);
    cols.write(Tag::new_nullary(s("b")), 2, 3);
    assert_eq!(cols.len(), 2);
    assert_eq!(cols.name_at(0), "a");
    assert_eq!(cols.name_at(1), "b");
    assert_eq!(cols.read(&s("a"), 0), Some(&TagData::Info(1)));
    assert_eq!(cols.read(&s("a"), 1), None);
    assert_eq!(cols.read(&s("b"), 0), None);
    assert_eq!(cols.read(&s("b"), 2), Some(&TagData::Exists));
    assert_eq!(cols.read(&s("b"), 3), None);
    assert_eq!(cols.read(&s("c"), 0), None);
    assert_eq!(cols.cell_at(1, 2), Some(&TagData::Exists));
    assert_eq!(cols.cell_at(1, 1), None);

    // a later write under the same name and id stays
    cols.write_all(vec![Tag::new_w_data(s("a"), 5), Tag::new_w_data(s("a"), 6)], 0, 3);
    assert_eq!(cols.read(&s("a"), 0), Some(&TagData::Info(6)));
    assert_eq!(cols.len(), 2);
}

#[test]
fn columns_shrink_and_clear() {
    let mut cols: TagColumns<String, u32> = TagColumns::new();
    cols.write(Tag::new_w_data(s("short"), 1), 0, 1);
    cols.write(Tag::new_w_data(s("long"), 2), 1, 3);
    cols.write(Tag::new_w_data(s("long"), 3), 2, 3);

    // only the column that reaches the last id loses a cell
    cols.shrink_row(3);
    assert_eq!(cols.read(&s("long"), 2), None);
    assert_eq!(cols.read(&s("long"), 1), Some(&TagData::Info(2)));
    assert_eq!(cols.read(&s("short"), 0), Some(&TagData::Info(1)));
    // and it loses no more than one
    cols.shrink_row(3);
    assert_eq!(cols.read(&s("long"), 1), Some(&TagData::Info(2)));
    cols.shrink_row(0);
    assert_eq!(cols.read(&s("short"), 0), Some(&TagData::Info(1)));

    cols.write(Tag::new_w_data(s("short"), 7), 1, 2);
    cols.tombstone_row(1);
    assert_eq!(cols.read(&s("long"), 1), None);
    assert_eq!(cols.read(&s("short"), 1), None);
    assert_eq!(cols.read(&s("short"), 0), Some(&TagData::Info(1)));
    cols.tombstone_row(9);
    assert_eq!(cols.read(&s("short"), 0), Some(&TagData::Info(1)));
}

#[test]
fn maps_in_vectors() {
    let mut map: VecMap<String, u32> = VecMap::new();
    assert!(map.is_empty());
    map.insert(s("a"), 1);
    map.insert(s("b"), 2);
    map.insert(s("a"), 3);
    assert_eq!(map.len(), 2);
    assert!(!map.is_empty());
    assert_eq!(map.get(&s("a")), Some(&3));
    assert_eq!(map.get(&s("c")), None);
    assert!(map.contains_key(&s("b")));
    let first = map.entry_at(0);
    assert_eq!((first.key.as_str(), first.value), ("a", 3));
    map.remove(&s("a"));
    map.remove(&s("zz"));
    assert_eq!(map.len(), 1);
    assert_eq!(map.get(&s("a")), None);
    assert_eq!(map.entry_at(0).key, "b");
}

#[test]
fn sets_in_vectors() {
    let mut set = VecSet::from_vec(vec![3u32, 1, 3, 2]);
    assert_eq!(set.len(), 3);
    assert!(set.contains(&1) && set.contains(&2) && set.contains(&3));
    assert!(!set.contains(&4));
    assert_eq!(set.get(&2), Some(&2));
    assert_eq!(set.get(&9), None);
    assert_eq!(*set.item_at(0), 3);

    let other = VecSet::from_vec(vec![1u32, 2, 3]);
    assert!(set.same(&other));
    assert_eq!(set, other);
    assert!(set.subset_of(&other));
    set.remove(&3);
    assert!(set.subset_of(&other));
    assert!(!other.subset_of(&set));
    assert!(set != other);
    assert_eq!(set.duplicate(), set);
    set.insert(3);
    assert_eq!(set, other);
    assert!(VecSet::<u32>::new().is_empty());
    assert!(!set.is_empty());
}

#[test]
fn names_ids_and_groups() {
    let mut enc: Encyclopedia<String, String, u32> = Encyclopedia::new();
    enc.insert_word(Word::new(s("a")));
    enc.insert_word(Word::new(s("b")));
    enc.insert_word(Word::new(s("c")));
    enc.remove_word_by_id(1);

    assert_eq!(enc.id_of(&s("a")), Some(0));
    assert_eq!(enc.id_of(&s("b")), None);
    assert_eq!(enc.id_of(&s("c")), Some(2));
    assert_eq!(enc.name_of(0), Some(&s("a")));
    assert_eq!(enc.name_of(1), None);
    assert_eq!(enc.name_of(2), Some(&s("c")));
    assert_eq!(enc.name_of(3), None);

    assert_eq!(enc.expand(&s("g")), None);
    enc.add_tag_group(s("g"), vec![Tag::new_w_data(s("t"), 1)]);
    enc.add_tag_group(s("h"), vec![]);
    assert_eq!(enc.expand(&s("g")), Some(&vec![Tag::new_w_data(s("t"), 1)]));
    enc.add_tag_group(s("g"), vec![Tag::new_nullary(s("u")), Tag::new_nullary(s("v"))]);
    assert_eq!(enc.expand(&s("g")).map(|tags| tags.len()), Some(2));
    assert_eq!(enc.expand(&s("h")), Some(&vec![]));
}

#[test]
fn formatting_errors() {
    assert_eq!(EncLingError::FmtError.description(), "format error");
    assert_eq!(EncLingError::InvalidTags.description(), "invalid word tags");
    assert_eq!(EncLingError::InvalidTags.message(), "invalid word tags");
    assert!(EncLingError::FmtError != EncLingError::InvalidTags);
}

#[test]
fn registry_of_names() {
    let mut reg: encsys::registry::Registry<String> = encsys::registry::Registry::new();
    assert_eq!(reg.end_id(), 0);
    assert_eq!(reg.live_count(), 0);
    reg.pop_last();
    reg.tombstone(0);
    assert_eq!(reg.end_id(), 0);

    assert_eq!(reg.add(s("a")), 0);
    assert_eq!(reg.add(s("b")), 1);
    assert_eq!(reg.add(s("a")), 0);
    assert_eq!(reg.add(s("c")), 2);
    assert_eq!(reg.end_id(), 3);
    assert_eq!(reg.live_count(), 3);
    assert_eq!(reg.id_of(&s("b")), Some(1));
    assert_eq!(reg.id_of(&s("d")), None);
    assert_eq!(reg.name_of(2), Some(&s("c")));
    assert_eq!(reg.name_of(3), None);

    // a cleared id stays in use
    reg.tombstone(1);
    reg.tombstone(1);
    reg.tombstone(5);
    assert_eq!(reg.end_id(), 3);
    assert_eq!(reg.live_count(), 2);
    assert_eq!(reg.id_of(&s("b")), None);
    assert_eq!(reg.name_of(1), None);
    assert_eq!(reg.add(s("b")), 3);

    // the last id is given up, live or vacant
    reg.pop_last();
    reg.pop_last();
    assert_eq!(reg.end_id(), 2);
    assert_eq!(reg.live_count(), 1);
    reg.pop_last();
    assert_eq!(reg.end_id(), 1);
    assert_eq!(reg.live_count(), 1);
    assert_eq!(reg.add(s("z")), 1);
}

#[test]
fn registry_of_groups() {
    let mut groups: encsys::groups::TagGroups<String, u32> = encsys::groups::TagGroups::new();
    assert_eq!(groups.len(), 0);
    assert!(!groups.is_group(&s("g")));
    assert_eq!(groups.expand(&s("g")), None);

    groups.add_group(s("g"), vec![Tag::new_w_data(s("t"), 1)]);
    groups.add_group(s("h"), vec![]);
    groups.add_group(s("g"), vec![Tag::new_nullary(s("u"))]);
    assert_eq!(groups.len(), 2);
    assert!(groups.is_group(&s("g")) && groups.is_group(&s("h")));
    assert_eq!(groups.name_at(0), "g");
    assert_eq!(groups.name_at(1), "h");
    assert_eq!(groups.tags_at(0), &vec![Tag::new_nullary(s("u"))]);
    assert_eq!(groups.expand(&s("g")), Some(&vec![Tag::new_nullary(s("u"))]));
    assert_eq!(groups.expand(&s("h")), Some(&vec![]));
}
