use encsys::encyclopedia::Encyclopedia;
use encsys::tag::Tag;
use encsys::word::Word;

fn s(text: &str) -> String {
    text.to_string()
}

#[test]
fn add_then_check_word() {
    let mut enc = Encyclopedia::new();

    let word = Word::from_tag_vec(s("word"), vec![Tag::new_w_data(s("a"), s("x"))]);
    enc.insert_word(word.clone());

    assert_eq!(Some(word), enc.get_word_by_id(0));
}

#[test]
fn add2_remove_last() {
    let mut enc = Encyclopedia::new();

    let word1 = Word::from_tag_vec(s("word1"), vec![Tag::new_w_data(s("a"), s("x"))]);
    let word2 = Word::from_tag_vec(s("word2"), vec![Tag::new_nullary(s("b"))]);

    enc.insert_word(word1);
    enc.insert_word(word2);
    enc.remove_word_by_id(1);

    // since we removed the last id, its id slot should be freed.
    assert_eq!(enc.get_end_id(), 1);
}

#[test]
fn add2_remove_first() {
    let mut enc = Encyclopedia::new();

    let word1 = Word::from_tag_vec(s("word1"), vec![Tag::new_w_data(s("a"), s("x"))]);
    let word2 = Word::from_tag_vec(s("word2"), vec![Tag::new_nullary(s("b"))]);

    enc.insert_word(word1);
    enc.insert_word(word2.clone());

    enc.remove_word_by_id(0);

    assert_eq!(enc.get_word_count(), 1);
    assert_eq!(Some(word2), enc.get_word_by_id(1));
}

#[test]
fn iterate_over_3() {
    let mut enc = Encyclopedia::new();

    let word1 = Word::from_tag_vec(s("word1"), vec![Tag::new_w_data(s("a"), s("x"))]);
    let word2 = Word::from_tag_vec(s("word2"), vec![Tag::new_nullary(s("b"))]);
    let word3 = Word::from_tag_vec(s("word3"), vec![Tag::new_w_data(s("c"), s("y"))]);

    enc.insert_word(word1.clone());
    enc.insert_word(word2.clone());
    enc.insert_word(word3.clone());

    let mut i = enc.iter();

    assert_eq!(Some(word1), i.next());
    assert_eq!(Some(word2), i.next());
    assert_eq!(Some(word3), i.next());
    assert_eq!(None, i.next());
}

#[test]
fn iterate_over_n() {
    let mut enc = Encyclopedia::<usize, usize, ()>::new();

    let words = 100;

    for w in 0..words {
        enc.insert_word(Word::from_tag_vec(w, vec![Tag::new_nullary(w)]));
    }

    assert_eq!(words, enc.get_word_count());

    let mut seen = 0;
    for (w, word) in enc.iter().collect().into_iter().enumerate() {
        let word_tags = word.to_tag_vec();
        assert_eq!(word_tags.len(), 1);
        assert_eq!(word_tags[0], Tag::new_nullary(w));
        seen += 1;
    }
    assert_eq!(seen, words);
}

#[test]
fn test_tag_group() {
    let mut enc = Encyclopedia::new();

    let tag1 = Tag::new_w_data(s("a"), s("x"));
    let tag2 = Tag::new_nullary(s("b"));
    let tag3 = Tag::new_w_data(s("c"), s("y"));

    // let's add our group of tags 1 and 2
    enc.add_tag_group(s("group"), vec![tag1.clone(), tag2.clone()]);

    // let's create our word consisting of tag 3 and our group
    let word = Word::from_tag_vec(s("word"), vec![tag3.clone(), Tag::new_nullary(s("group"))]);

    // add the word
    enc.insert_word(word);

    // the expected tag output
    let tags = vec![tag1, tag2, tag3];

    // check if we can find all three tags
    let mut found = 0;
    let mut it = enc.iter();
    while let Some(w) = it.next() {
        for i in tags.iter() {
            if w.has_tag(i.get_name()) {
                assert_eq!(w.get_tag_info(i.get_name()), i.get_data());
                found += 1;
            }
        }
    }
    assert_eq!(found, 3);
}
