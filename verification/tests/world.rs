use encsys::world::enc::encyclopedia::Encyclopedia;
use encsys::world::enc::word::Word;

#[test]
fn world_add_then_check_word() {
    let mut enc = Encyclopedia::new();

    let word = Word::from_collection("word".to_string(), vec!["tag".to_string()]);
    enc.add(word.clone());

    assert_eq!(Some(word), enc.get(&"word".to_string()));
}

#[test]
fn add2_remove_one() {
    let mut enc = Encyclopedia::new();

    let word1 = Word::from_collection("word1".to_string(), vec!["a".to_string()]);
    let word2 = Word::from_collection("word2".to_string(), vec!["b".to_string()]);

    enc.add(word1);
    enc.add(word2);
    enc.remove(&"word2".to_string());

    assert_eq!(enc.amount(), 1);
}

#[test]
fn world_iterate_over_n() {
    let mut enc = Encyclopedia::<usize, usize>::new();

    let words = 100;

    for w in 0..words {
        enc.add(Word::from_collection(w, vec![10]));
    }

    assert_eq!(words, enc.amount());

    let mut seen = 0;
    let mut it = enc.iter();
    while let Some(word) = it.next() {
        assert_eq!(word.tag_amount(), 1);
        seen += 1;
    }
    assert_eq!(seen, words);
}

#[test]
fn test_get() {
    let mut enc = Encyclopedia::<String, ()>::new();
    let word1 = Word::new_empty("word1".to_string());
    let word2 = Word::new_empty("word2".to_string());
    let word3 = Word::new_empty("word3".to_string());

    enc.add(word1.clone());
    enc.add(word2.clone());
    enc.add(word3.clone());

    assert_eq!(enc.amount(), 3);

    assert_eq!(Some(word1.clone()), enc.get(&"word1".to_string()));
    assert_eq!(Some(word2.clone()), enc.get(&"word2".to_string()));
    assert_eq!(Some(word3.clone()), enc.get(&"word3".to_string()));
    assert_eq!(None, enc.get(&"none".to_string()));
    assert!(Some(word1.clone()) != enc.get(&"word3".to_string()));

    enc.remove(&"word2".to_string());

    assert_eq!(enc.amount(), 2);
    assert_eq!(Some(word1), enc.get(&"word1".to_string()));
    assert_eq!(None, enc.get(&"word2".to_string()));
    assert_eq!(Some(word3), enc.get(&"word3".to_string()));
}
