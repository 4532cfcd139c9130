use text_dataset::vocab::{Vocabulary, UNKNOWN_ID};

fn texts_of(items: &[&str]) -> Vec<String> {
    items.iter().map(|s| s.to_string()).collect()
}

#[test]
fn an_empty_vocabulary_knows_nothing() {
    let vocabulary = Vocabulary::new();
    assert_eq!(vocabulary.len(), 0);
    assert!(vocabulary.chars().is_empty());
    assert_eq!(vocabulary.id_of('a'), 0);
    assert_eq!(UNKNOWN_ID, 0);
}

#[test]
fn ids_follow_first_seen_order() {
    let vocabulary = Vocabulary::from_texts(&texts_of(&["ab", "ba"]));
    assert_eq!(vocabulary.chars(), &vec!['a', 'b']);
    assert_eq!(vocabulary.id_of('a'), 1);
    assert_eq!(vocabulary.id_of('b'), 2);
    assert_eq!(vocabulary.id_of('c'), 0);
    assert_eq!(vocabulary.len(), 2);
}

#[test]
fn ids_are_not_ordered_by_frequency_or_by_value() {
    let vocabulary = Vocabulary::from_texts(&texts_of(&["zaaaa", "aaaab"]));
    assert_eq!(vocabulary.id_of('z'), 1);
    assert_eq!(vocabulary.id_of('a'), 2);
    assert_eq!(vocabulary.id_of('b'), 3);
}

#[test]
fn a_repeated_character_keeps_its_first_id() {
    let mut vocabulary = Vocabulary::new();
    vocabulary.observe("abca");
    assert_eq!(vocabulary.chars(), &vec!['a', 'b', 'c']);
    vocabulary.observe("cad");
    assert_eq!(vocabulary.chars(), &vec!['a', 'b', 'c', 'd']);
    assert_eq!(vocabulary.id_of('a'), 1);
    assert_eq!(vocabulary.id_of('d'), 4);
}

#[test]
fn ids_are_dense_from_one() {
    let corpus = texts_of(&["the quick brown fox", "jumps over", "the lazy dog", "体育新闻", ""]);
    let vocabulary = Vocabulary::from_texts(&corpus);
    let mut distinct: Vec<char> = corpus.iter().flat_map(|t| t.chars()).collect();
    distinct.sort();
    distinct.dedup();
    assert_eq!(vocabulary.len(), distinct.len());
    let mut ids: Vec<usize> = distinct.iter().map(|c| vocabulary.id_of(*c)).collect();
    ids.sort();
    let expected: Vec<usize> = (1..=distinct.len()).collect();
    assert_eq!(ids, expected);
    for (position, c) in vocabulary.chars().iter().enumerate() {
        assert_eq!(vocabulary.id_of(*c), position + 1);
    }
}

#[test]
fn cutting_the_corpus_differently_gives_the_same_vocabulary() {
    let one = Vocabulary::from_texts(&texts_of(&["abc", "bcd", "de"]));
    let other = Vocabulary::from_texts(&texts_of(&["abcbcdde"]));
    let mut third = Vocabulary::new();
    for text in ["a", "bcb", "", "cdd", "e"] {
        third.observe(text);
    }
    assert_eq!(one.chars(), other.chars());
    assert_eq!(one.chars(), third.chars());
}

#[test]
fn whitespace_and_tabs_are_characters_like_any_other() {
    let vocabulary = Vocabulary::from_texts(&texts_of(&["a b\tc"]));
    assert_eq!(vocabulary.chars(), &vec!['a', ' ', 'b', '\t', 'c']);
}

#[test]
fn encode_maps_each_character_and_unknown_ones_to_zero() {
    let vocabulary = Vocabulary::from_texts(&texts_of(&["abcd"]));
    assert_eq!(vocabulary.encode("abcd"), vec![1, 2, 3, 4]);
    assert_eq!(vocabulary.encode("dxa"), vec![4, 0, 1]);
    assert_eq!(vocabulary.encode(""), Vec::<usize>::new());
    assert_eq!(vocabulary.encode("体"), vec![0]);
}

#[test]
fn from_texts_of_nothing_is_empty() {
    assert_eq!(Vocabulary::from_texts(&Vec::new()).len(), 0);
    assert_eq!(Vocabulary::from_texts(&texts_of(&["", ""])).len(), 0);
}
