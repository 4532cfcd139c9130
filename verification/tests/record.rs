use text_dataset::classes::ClassIndex;
use text_dataset::number::ParseFailure;
use text_dataset::record::{encode_sample, resolve_label, ClassifierRecord};
use text_dataset::sample::ClassifierSample;
use text_dataset::vocab::Vocabulary;

fn class_index(items: &[&str]) -> ClassIndex {
    ClassIndex::new(items.iter().map(|s| s.to_string()).collect())
}

fn vocabulary_abcd() -> Vocabulary {
    Vocabulary::from_texts(&vec!["abcd".to_string()])
}

#[test]
fn a_short_sequence_is_padded_with_zero_on_the_right() {
    let record = ClassifierRecord::new(vec![1, 2], 9, 3);
    assert_eq!(record.word_ids(), &vec![1, 2, 0]);
    assert_eq!(record.label_id(), 9);
    let record = ClassifierRecord::new(vec![], 0, 4);
    assert_eq!(record.word_ids(), &vec![0, 0, 0, 0]);
}

#[test]
fn a_long_sequence_keeps_its_first_entries() {
    let record = ClassifierRecord::new(vec![1, 2, 3, 4], 0, 3);
    assert_eq!(record.word_ids(), &vec![1, 2, 3]);
    let record = ClassifierRecord::new(vec![5, 6, 7, 8, 9], 0, 1);
    assert_eq!(record.word_ids(), &vec![5]);
}

#[test]
fn a_sequence_of_the_right_length_is_kept() {
    let record = ClassifierRecord::new(vec![3, 1, 2], 4, 3);
    assert_eq!(record.word_ids(), &vec![3, 1, 2]);
    assert_eq!(record.label_id(), 4);
}

#[test]
fn every_length_is_met_exactly() {
    for given in 0..6usize {
        for length in 0..6usize {
            let ids: Vec<usize> = (1..=given).collect();
            let record = ClassifierRecord::new(ids.clone(), 0, length);
            assert_eq!(record.word_ids().len(), length);
            for (i, id) in record.word_ids().iter().enumerate() {
                assert_eq!(*id, if i < given { ids[i] } else { 0 });
            }
        }
    }
}

#[test]
fn a_numeric_label_is_its_own_number() {
    let classes = class_index(&["a", "b"]);
    assert_eq!(resolve_label("0", &classes), Ok(0));
    assert_eq!(resolve_label("17", &classes), Ok(17));
    assert_eq!(resolve_label("+3", &classes), Ok(3));
    assert_eq!(resolve_label("0012", &classes), Ok(12));
}

#[test]
fn a_numeric_label_wins_over_a_class_of_the_same_name() {
    let classes = class_index(&["5", "1", "0"]);
    assert_eq!(classes.get("5"), Some(0));
    assert_eq!(resolve_label("5", &classes), Ok(5));
    assert_eq!(resolve_label("1", &classes), Ok(1));
    assert_eq!(resolve_label("0", &classes), Ok(0));
}

#[test]
fn a_label_that_is_no_number_is_looked_up_in_the_class_list() {
    let classes = class_index(&["c", "d", "-1", ""]);
    assert_eq!(resolve_label("c", &classes), Ok(0));
    assert_eq!(resolve_label("d", &classes), Ok(1));
    assert_eq!(resolve_label("-1", &classes), Ok(2));
    assert_eq!(resolve_label("", &classes), Ok(3));
}

#[test]
fn a_number_too_large_falls_back_to_the_class_list() {
    let classes = class_index(&["99999999999999999999999999"]);
    assert_eq!(resolve_label("99999999999999999999999999", &classes), Ok(0));
    assert_eq!(resolve_label("99999999999999999999999998", &classes), Err(ParseFailure::Overflow));
}

#[test]
fn an_unknown_label_fails_with_the_reason_it_is_no_number() {
    let classes = class_index(&["c"]);
    assert_eq!(resolve_label("d", &classes), Err(ParseFailure::InvalidDigit));
    assert_eq!(resolve_label("", &classes), Err(ParseFailure::Empty));
    assert_eq!(resolve_label("C", &classes), Err(ParseFailure::InvalidDigit));
    assert_eq!(resolve_label("1.5", &classes), Err(ParseFailure::InvalidDigit));
}

#[test]
fn encode_sample_truncates_a_long_text() {
    let sample = ClassifierSample::new("abcd".to_string(), "2".to_string());
    let record = encode_sample(&sample, &vocabulary_abcd(), &class_index(&[]), 3).unwrap();
    assert_eq!(record.word_ids(), &vec![1, 2, 3]);
    assert_eq!(record.label_id(), 2);
}

#[test]
fn encode_sample_pads_a_short_text_and_zeroes_unknown_characters() {
    let sample = ClassifierSample::new("dxa".to_string(), "sports".to_string());
    let record = encode_sample(&sample, &vocabulary_abcd(), &class_index(&["news", "sports"]), 5).unwrap();
    assert_eq!(record.word_ids(), &vec![4, 0, 1, 0, 0]);
    assert_eq!(record.label_id(), 1);
}

#[test]
fn encode_sample_fails_on_an_unknown_label() {
    let sample = ClassifierSample::new("ab".to_string(), "weather".to_string());
    let result = encode_sample(&sample, &vocabulary_abcd(), &class_index(&["news"]), 5);
    assert_eq!(result.err(), Some(ParseFailure::InvalidDigit));
}
