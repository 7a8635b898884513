use encsys::collections::VecSet;
use encsys::enc::encyclopedia::Encyclopedia;
use encsys::enc::ling::error::LingError;
use encsys::enc::ling::grammeme::GrammCategory;
use encsys::enc::ling::tag::LingTag;
use encsys::enc::word::Word;

#[test]
fn test_add_then_check_word() {
    let mut enc = Encyclopedia::new();

    let word = Word::new_from_collection("word".to_owned(), vec![LingTag::Custom("tag".to_owned())]);

    enc.add_word(word.clone());

    assert_eq!(Some(word), enc.get_word(&"word".to_owned()));
}

#[test]
fn test_add2_remove_one() {
    let mut enc = Encyclopedia::new();

    let word1 = Word::new_from_collection("word1".to_owned(), vec![LingTag::Custom("a".to_owned())]);
    let word2 = Word::new_from_collection("word2".to_owned(), vec![LingTag::Custom("b".to_owned())]);

    enc.add_word(word1);
    enc.add_word(word2);
    enc.remove_word(&"word2".to_string());

    assert_eq!(enc.word_amount(), 1);
}

#[test]
fn test_iterate_over_n() {
    let mut enc = Encyclopedia::new();

    let words = 100;

    for w in 0..words {
        enc.add_word(Word::new_from_collection(
            w.to_string(),
            vec![LingTag::Custom(10.to_string())],
        ));
    }

    assert_eq!(words, enc.word_amount());

    let mut seen = 0;
    let mut it = enc.iter_words();
    while let Some(word) = it.next() {
        assert_eq!(word.tag_amount(), 1);
        seen += 1;
    }
    assert_eq!(seen, words);
}

#[test]
fn test_test_get() {
    let mut enc = Encyclopedia::new();
    let word1 = Word::new("word1".to_string());
    let word2 = Word::new("word2".to_string());
    let word3 = Word::new("word3".to_string());

    enc.add_word(word1.clone());
    enc.add_word(word2.clone());
    enc.add_word(word3.clone());

    assert_eq!(enc.word_amount(), 3);

    assert_eq!(Some(word1.clone()), enc.get_word(&"word1".to_string()));
    assert_eq!(Some(word2.clone()), enc.get_word(&"word2".to_string()));
    assert_eq!(Some(word3.clone()), enc.get_word(&"word3".to_string()));
    assert_eq!(None, enc.get_word(&"none".to_string()));
    assert!(Some(word1.clone()) != enc.get_word(&"word3".to_string()));

    enc.remove_word(&"word2".to_string());

    assert_eq!(enc.word_amount(), 2);
    assert_eq!(Some(word1), enc.get_word(&"word1".to_string()));
    assert_eq!(None, enc.get_word(&"word2".to_string()));
    assert_eq!(Some(word3), enc.get_word(&"word3".to_string()));
}

#[test]
fn test_gramm_category() {
    let name = "cat";
    let vals = &["def", "val2", "val3", "val4"];
    let categ = GrammCategory::new(
        name.to_string(),
        Some(vals[0].to_string()),
        vals[1..].iter().map(|x| x.to_string()).collect(),
    );

    assert_eq!(categ.get_default_value(), Some(&vals[0].to_string()));

    // check if the values match
    assert_eq!(
        categ.get_values(),
        &VecSet::from_vec(vals.iter().map(|x| x.to_string()).collect())
    );

    for val in vals {
        assert!(categ.is_value_valid(&val.to_string()));
    }
}

fn case_category() -> GrammCategory {
    GrammCategory::new(
        "case".to_string(),
        Some("nominative".to_string()),
        vec!["genitive".to_string(), "dative".to_string()],
    )
}

#[test]
fn grammeme_of_a_given_value() {
    let mut enc = Encyclopedia::new();
    enc.add_gramm_cat(case_category());

    let g = enc.create_grammeme(&"case".to_string(), Some(&"dative".to_string())).unwrap();
    assert_eq!(g.get_category_name(), "case");
    assert_eq!(g.get_value(), "dative");
}

#[test]
fn grammeme_of_the_default_value() {
    let mut enc = Encyclopedia::new();
    enc.add_gramm_cat(case_category());

    let g = enc.create_grammeme(&"case".to_string(), None).unwrap();
    assert_eq!(g.get_category_name(), "case");
    assert_eq!(g.get_value(), "nominative");
}

#[test]
fn grammeme_errors() {
    let mut enc = Encyclopedia::new();
    enc.add_gramm_cat(case_category());
    enc.add_gramm_cat(GrammCategory::new("tense".to_string(), None, vec!["past".to_string()]));

    match enc.create_grammeme(&"mood".to_string(), None) {
        Err(LingError::NoSuchGrammCat(name)) => assert_eq!(name, "mood"),
        _ => panic!("a category that does not exist was accepted"),
    }
    match enc.create_grammeme(&"case".to_string(), Some(&"past".to_string())) {
        Err(LingError::NoSuchGrammeme(value)) => assert_eq!(value, "past"),
        _ => panic!("a value of another category was accepted"),
    }
    match enc.create_grammeme(&"tense".to_string(), None) {
        Err(LingError::NoDefaultOrValue(name)) => assert_eq!(name, "tense"),
        _ => panic!("a default value was found where there is none"),
    }
}

#[test]
fn error_messages() {
    assert_eq!(LingError::FmtError.description(), "format error");
    assert_eq!(LingError::InvalidTags.message(), "invalid word tags");
    assert_eq!(
        LingError::NoSuchGrammCat("mood".to_string()).message(),
        "grammatical category not found: mood"
    );
    assert_eq!(
        LingError::NoSuchGrammeme("past".to_string()).message(),
        "grammeme value not found: past"
    );
    assert_eq!(
        LingError::NoDefaultOrValue("tense".to_string()).message(),
        "no grammeme value was given and there is no default value for the category: tense"
    );
}

#[test]
fn categories_are_kept_by_name() {
    let mut enc = Encyclopedia::new();
    assert!(enc.is_empty());
    enc.add_gramm_cat(case_category());
    enc.add_gramm_cat(GrammCategory::new("tense".to_string(), None, vec!["past".to_string()]));
    enc.add_gramm_cat(GrammCategory::new("tense".to_string(), None, vec!["future".to_string()]));
    assert!(!enc.is_empty());
    assert_eq!(enc.gramm_cat_amount(), 2);

    let tense = enc.get_gramm_cat(&"tense".to_string()).unwrap();
    assert!(!tense.has_default_value());
    assert!(tense.is_value_valid(&"future".to_string()));
    assert!(!tense.is_value_valid(&"past".to_string()));
    assert!(enc.get_gramm_cat(&"mood".to_string()).is_none());

    let mut names = Vec::new();
    let mut it = enc.iter_gramm_cats();
    while let Some(c) = it.next() {
        names.push(c.get_name().clone());
    }
    names.sort();
    assert_eq!(names, vec!["case".to_string(), "tense".to_string()]);
}

#[test]
fn words_compare_as_sets_of_tags() {
    let a = Word::new_from_collection(
        "w".to_string(),
        vec![LingTag::Type("noun".to_string()), LingTag::Parent("thing".to_string())],
    );
    let mut b = Word::new("w".to_string());
    b.add_tag(LingTag::Parent("thing".to_string()));
    assert!(a != b);
    b.add_tag(LingTag::Type("noun".to_string()));
    b.add_tag(LingTag::Type("noun".to_string()));
    assert_eq!(a, b);
    assert_eq!(b.tag_amount(), 2);
    assert!(b.has_tag(&LingTag::Type("noun".to_string())));
    assert!(!b.has_tag(&LingTag::Synonym("noun".to_string())));

    let mut seen = 0;
    let mut it = b.iter();
    while let Some(tag) = it.next() {
        assert!(a.has_tag(tag));
        seen += 1;
    }
    assert_eq!(seen, 2);
}
