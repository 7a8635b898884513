use encsys::ecs::component::Comp;
use encsys::ecs::entity::Entity;
use encsys::ecs::entity_manager::EntMan;

#[test]
fn add_then_remove_ent() {
    let mut entman = EntMan::<(), ()>::new();
    assert!(entman.is_empty());

    let ent = Entity::new(123);

    let id = entman.add(ent.clone());

    assert_eq!(entman.get_count(), 1);
    assert_eq!(entman.get_by_id(id), Some(ent));

    entman.remove_by_id(id);
    assert!(entman.is_empty());
}

#[test]
fn add_many_empty_entities() {
    let mut entman = EntMan::<(), ()>::new();

    let ent_am = 100;
    let foo = |x| 2 * x + 1;

    let id_vec: Vec<usize> = (0..ent_am).map(|x| entman.add(Entity::new(foo(x)))).collect();

    let mut id_vec_clone = id_vec.clone();
    id_vec_clone.sort();
    id_vec_clone.dedup();

    assert_eq!(entman.get_end_id(), ent_am);
    assert_eq!(entman.get_count(), ent_am);

    assert_eq!(id_vec, id_vec_clone);
    assert_eq!(id_vec, Vec::from_iter(0..ent_am));

    // assert that we are iterating in the order of the id's
    let mut i = 0;
    let mut it = entman.iter();
    while let Some(ent) = it.next() {
        assert_eq!(ent.get_word_id(), foo(i));
        i += 1;
    }
    assert_eq!(i, ent_am);
}

fn entity(word_id: usize, comps: &[(&str, u32)]) -> Entity<String, u32> {
    let mut e = Entity::new(word_id);
    for (name, data) in comps {
        e.insert_comp(Comp::new(name.to_string(), *data));
    }
    e
}

#[test]
fn entity_components() {
    let mut e = entity(7, &[("hp", 10), ("mp", 3)]);
    assert_eq!(e.get_word_id(), 7);
    assert_eq!(e.comp_amount(), 2);
    assert!(!e.is_empty());
    assert!(e.has_comp(&"hp".to_string()));
    assert!(!e.has_comp(&"xp".to_string()));
    assert_eq!(e.get_comp_data(&"mp".to_string()), Some(&3));
    assert_eq!(e.get_comp_data(&"xp".to_string()), None);

    e.insert_comp(Comp::from(("hp".to_string(), 12)));
    assert_eq!(e.comp_amount(), 2);
    assert_eq!(e.get_comp_data(&"hp".to_string()), Some(&12));

    let mut seen = Vec::new();
    let mut it = e.iter();
    while let Some(c) = it.next() {
        seen.push(c.into_tuple());
    }
    seen.sort();
    assert_eq!(seen, vec![("hp".to_string(), 12), ("mp".to_string(), 3)]);
}

#[test]
fn entities_compare_by_word_and_components() {
    let a = entity(1, &[("hp", 10), ("mp", 3)]);
    let b = entity(1, &[("mp", 3), ("hp", 10)]);
    assert_eq!(a, b);
    assert!(a != entity(2, &[("hp", 10), ("mp", 3)]));
    assert!(a != entity(1, &[("hp", 10)]));
    assert!(a != entity(1, &[("hp", 10), ("mp", 4)]));
    assert!(Entity::<String, u32>::new(1).is_empty());
}

#[test]
fn manager_keeps_components_apart() {
    let mut man = EntMan::new();
    let a = entity(1, &[("hp", 10)]);
    let b = entity(2, &[("mp", 3)]);
    let c = entity(3, &[("hp", 5), ("mp", 6)]);
    assert_eq!(man.add(a.clone()), 0);
    assert_eq!(man.add(b.clone()), 1);
    assert_eq!(man.add(c.clone()), 2);

    assert_eq!(man.get_by_id(0), Some(a.clone()));
    assert_eq!(man.get_by_id(1), Some(b));
    assert_eq!(man.get_by_id(2), Some(c.clone()));
    assert_eq!(man.get_by_id(3), None);

    // an id that is not the last one stays in use, and is vacant
    man.remove_by_id(1);
    assert_eq!(man.get_end_id(), 3);
    assert_eq!(man.get_count(), 2);
    assert_eq!(man.get_by_id(1), None);
    assert_eq!(man.get_by_id(0), Some(a.clone()));
    assert_eq!(man.get_by_id(2), Some(c.clone()));

    // removing it again, or an id out of range, changes nothing
    man.remove_by_id(1);
    man.remove_by_id(17);
    assert_eq!(man.get_end_id(), 3);
    assert_eq!(man.get_count(), 2);

    let mut ids = Vec::new();
    let mut it = man.iter();
    while let Some(e) = it.next() {
        ids.push(e.get_word_id());
    }
    assert_eq!(ids, vec![1, 3]);

    // the last id is given up
    man.remove_by_id(2);
    assert_eq!(man.get_end_id(), 2);
    assert_eq!(man.get_count(), 1);
    man.remove_last_id();
    assert_eq!(man.get_end_id(), 1);
    assert_eq!(man.get_count(), 1);

    // a new entity gets the id that was given up, and none of what was there
    assert_eq!(man.add(entity(9, &[("xp", 1)])), 1);
    assert_eq!(man.get_by_id(1), Some(entity(9, &[("xp", 1)])));
    assert_eq!(man.get_by_id(0), Some(a));
}

#[test]
fn removing_from_an_empty_manager() {
    let mut man = EntMan::<String, u32>::new();
    man.remove_last_id();
    man.remove_by_id(0);
    assert_eq!(man.get_end_id(), 0);
    assert!(man.is_empty());
    assert!(man.iter().next().is_none());
}
