use text_dataset::classes::ClassIndex;
use text_dataset::classifier::{ClassifierDataset, CLASS_FILE, DEV_FILE, TEST_FILE, TRAIN_FILE};
use text_dataset::config::{DataConfig, VocabularySource};
use text_dataset::error::{BuildError, DatasetError, Split};
use text_dataset::number::ParseFailure;
use text_dataset::record::ClassifierRecord;
use text_dataset::sample::ClassifierSample;
use text_dataset::vocab::Vocabulary;

fn split_lines(items: &[&str]) -> Vec<String> {
    items.iter().map(|s| s.to_string()).collect()
}

fn dataset_of_length(length: usize) -> ClassifierDataset<'static> {
    let config = DataConfig::new("<UNK>".to_string(), "<PAD>".to_string(), length).unwrap();
    ClassifierDataset::with_config("data", config)
}

fn plain(records: &[ClassifierRecord]) -> Vec<(Vec<usize>, usize)> {
    records.iter().map(|r| (r.word_ids().clone(), r.label_id())).collect()
}

#[test]
fn a_new_dataset_names_its_files_and_takes_the_defaults() {
    let dataset = ClassifierDataset::new("data/classifier/news");
    assert_eq!(dataset.path(), "data/classifier/news");
    assert_eq!(dataset.train_file(), "train.txt");
    assert_eq!(dataset.dev_file(), "dev.txt");
    assert_eq!(dataset.test_file(), "test.txt");
    assert_eq!(dataset.class_file(), "class.txt");
    assert_eq!(dataset.vocab_file(), None);
    assert_eq!(dataset.config().max_length(), 32);
    assert_eq!(dataset.config().unk(), "<UNK>");
    assert_eq!(dataset.config().pad(), "<PAD>");
    assert_eq!((TRAIN_FILE, DEV_FILE, TEST_FILE, CLASS_FILE), ("train.txt", "dev.txt", "test.txt", "class.txt"));
}

#[test]
fn a_dataset_with_a_configuration_keeps_it() {
    let config = DataConfig::new("?".to_string(), "_".to_string(), 8).unwrap();
    let dataset = ClassifierDataset::with_config("corpus", config);
    assert_eq!(dataset.path(), "corpus");
    assert_eq!(dataset.train_file(), "train.txt");
    assert_eq!(dataset.config().max_length(), 8);
    assert_eq!(dataset.config().unk(), "?");
    assert_eq!(dataset.config().pad(), "_");
    assert!(matches!(dataset.config().vocab_source(), VocabularySource::Empty));
    assert_eq!(dataset.vocab_file(), None);
}

#[test]
fn two_training_lines_with_class_labels() {
    let dataset = dataset_of_length(3);
    let (train, dev, test, vocabulary) = dataset
        .build_dataset(
            split_lines(&["c", "d"]),
            &split_lines(&["ab\tc\n", "ba\td\n"]),
            &Vec::new(),
            &Vec::new(),
        )
        .unwrap();
    assert_eq!(vocabulary.chars(), &vec!['a', 'b']);
    assert_eq!(vocabulary.id_of('a'), 1);
    assert_eq!(vocabulary.id_of('b'), 2);
    assert_eq!(vocabulary.id_of('c'), 0);
    assert_eq!(vocabulary.id_of('d'), 0);
    assert_eq!(plain(&train), vec![(vec![1, 2, 0], 0), (vec![2, 1, 0], 1)]);
    assert!(dev.is_empty());
    assert!(test.is_empty());
}

#[test]
fn a_text_longer_than_the_length_is_cut_on_the_right() {
    let dataset = dataset_of_length(3);
    let (train, _, _, vocabulary) = dataset
        .build_dataset(Vec::new(), &split_lines(&["abcd\t0\n"]), &Vec::new(), &Vec::new())
        .unwrap();
    assert_eq!(vocabulary.chars(), &vec!['a', 'b', 'c', 'd']);
    assert_eq!(plain(&train), vec![(vec![1, 2, 3], 0)]);
}

#[test]
fn the_vocabulary_comes_from_the_training_split_alone() {
    let dataset = dataset_of_length(4);
    let (train, dev, test, vocabulary) = dataset
        .build_dataset(
            split_lines(&["x", "y"]),
            &split_lines(&["ab\t0\n", "bc\t1\n"]),
            &split_lines(&["cxa\ty\n"]),
            &split_lines(&["zzzzzz\tx\n", "a\t7\n"]),
        )
        .unwrap();
    assert_eq!(vocabulary.chars(), &vec!['a', 'b', 'c']);
    assert_eq!(vocabulary.id_of('x'), 0);
    assert_eq!(vocabulary.id_of('z'), 0);
    assert_eq!(plain(&train), vec![(vec![1, 2, 0, 0], 0), (vec![2, 3, 0, 0], 1)]);
    assert_eq!(plain(&dev), vec![(vec![3, 0, 1, 0], 1)]);
    assert_eq!(plain(&test), vec![(vec![0, 0, 0, 0], 0), (vec![1, 0, 0, 0], 7)]);
}

#[test]
fn labels_add_nothing_to_the_vocabulary() {
    let dataset = dataset_of_length(2);
    let (_, _, _, vocabulary) = dataset
        .build_dataset(split_lines(&["sports"]), &split_lines(&["ab\tsports\n"]), &Vec::new(), &Vec::new())
        .unwrap();
    assert_eq!(vocabulary.chars(), &vec!['a', 'b']);
}

#[test]
fn every_record_has_the_configured_length() {
    for length in 1..6usize {
        let dataset = dataset_of_length(length);
        let (train, dev, test, _) = dataset
            .build_dataset(
                Vec::new(),
                &split_lines(&["\t0\n", "a\t1\n", "abcdefgh\t2\n"]),
                &split_lines(&["abc\t3\n"]),
                &split_lines(&["hgfedcba\t4\n"]),
            )
            .unwrap();
        for record in train.iter().chain(dev.iter()).chain(test.iter()) {
            assert_eq!(record.word_ids().len(), length);
        }
        assert_eq!((train.len(), dev.len(), test.len()), (3, 1, 1));
    }
}

#[test]
fn the_default_length_is_32() {
    let dataset = ClassifierDataset::new("data");
    let (train, _, _, _) = dataset
        .build_dataset(Vec::new(), &split_lines(&["ab\t1\n"]), &Vec::new(), &Vec::new())
        .unwrap();
    let mut expected = vec![0usize; 32];
    expected[0] = 1;
    expected[1] = 2;
    assert_eq!(plain(&train), vec![(expected, 1)]);
}

#[test]
fn building_twice_gives_the_same_result() {
    let classes = split_lines(&["news", "sports"]);
    let train = split_lines(&["the cat\tnews\n", "the dog\tsports\n", "a cat\t1\n"]);
    let dev = split_lines(&["dog and cat\t0\n"]);
    let test = split_lines(&["zebra\tsports\n"]);
    let dataset = dataset_of_length(6);
    let first = dataset.build_dataset(classes.clone(), &train, &dev, &test).unwrap();
    let second = dataset.build_dataset(classes.clone(), &train, &dev, &test).unwrap();
    assert_eq!(first.3.chars(), second.3.chars());
    assert_eq!(plain(&first.0), plain(&second.0));
    assert_eq!(plain(&first.1), plain(&second.1));
    assert_eq!(plain(&first.2), plain(&second.2));
    assert_eq!(plain(&first.0)[0], (vec![1, 2, 3, 4, 5, 6], 0));
}

#[test]
fn a_numeric_label_wins_over_a_class_of_that_name_in_a_build() {
    let dataset = dataset_of_length(1);
    let (train, _, _, _) = dataset
        .build_dataset(split_lines(&["3", "2"]), &split_lines(&["a\t3\n", "a\t2\n"]), &Vec::new(), &Vec::new())
        .unwrap();
    assert_eq!(plain(&train), vec![(vec![1], 3), (vec![1], 2)]);
}

#[test]
fn an_unknown_label_ends_the_build() {
    let dataset = dataset_of_length(3);
    let result = dataset.build_dataset(
        split_lines(&["c"]),
        &split_lines(&["ab\tc\n", "ba\td\n"]),
        &Vec::new(),
        &Vec::new(),
    );
    assert_eq!(
        result.err(),
        Some(BuildError {
            split: Split::Train,
            error: DatasetError::InvalidLabel { line: 1, cause: ParseFailure::InvalidDigit },
        })
    );
}

#[test]
fn a_line_without_a_tab_ends_the_build() {
    let dataset = dataset_of_length(3);
    let result = dataset.build_dataset(Vec::new(), &split_lines(&["ab\t1\n", "ba 2\n"]), &Vec::new(), &Vec::new());
    assert_eq!(
        result.err(),
        Some(BuildError { split: Split::Train, error: DatasetError::MalformedRecord { line: 1 } })
    );
}

#[test]
fn a_malformed_line_is_found_before_an_unknown_label_of_the_same_split() {
    let dataset = dataset_of_length(3);
    let result = dataset.build_dataset(Vec::new(), &split_lines(&["ab\tx\n", "ba 2\n"]), &Vec::new(), &Vec::new());
    assert_eq!(
        result.err(),
        Some(BuildError { split: Split::Train, error: DatasetError::MalformedRecord { line: 1 } })
    );
}

#[test]
fn the_splits_are_taken_in_order() {
    let dataset = dataset_of_length(3);
    let good = split_lines(&["ab\t1\n"]);
    let bad_label = split_lines(&["ab\t1\n", "ab\t\n", "ab\tq\n"]);
    let no_tab = split_lines(&["ab"]);
    let result = dataset.build_dataset(Vec::new(), &bad_label, &no_tab, &no_tab);
    assert_eq!(
        result.err(),
        Some(BuildError { split: Split::Train, error: DatasetError::MalformedRecord { line: 1 } })
    );
    let result = dataset.build_dataset(Vec::new(), &good, &no_tab, &bad_label);
    assert_eq!(
        result.err(),
        Some(BuildError { split: Split::Dev, error: DatasetError::MalformedRecord { line: 0 } })
    );
    let result = dataset.build_dataset(Vec::new(), &good, &good, &split_lines(&["a\t1", "b\t", "c"]));
    assert_eq!(
        result.err(),
        Some(BuildError { split: Split::Test, error: DatasetError::MalformedRecord { line: 1 } })
    );
    let result = dataset.build_dataset(Vec::new(), &good, &split_lines(&["ab\t1", "ab\t \tq"]), &no_tab);
    assert_eq!(
        result.err(),
        Some(BuildError {
            split: Split::Dev,
            error: DatasetError::InvalidLabel { line: 1, cause: ParseFailure::InvalidDigit },
        })
    );
}

#[test]
fn an_empty_build_is_empty() {
    let dataset = ClassifierDataset::new("data");
    let (train, dev, test, vocabulary) =
        dataset.build_dataset(Vec::new(), &Vec::new(), &Vec::new(), &Vec::new()).unwrap();
    assert!(train.is_empty() && dev.is_empty() && test.is_empty());
    assert_eq!(vocabulary.len(), 0);
}

#[test]
fn samples_to_records_encodes_one_for_one() {
    let vocabulary = Vocabulary::from_texts(&split_lines(&["abc"]));
    let classes = ClassIndex::new(split_lines(&["x", "y"]));
    let samples = vec![
        ClassifierSample::new("cab".to_string(), "y".to_string()),
        ClassifierSample::new("".to_string(), "5".to_string()),
    ];
    let records = ClassifierDataset::samples_to_records(samples, &vocabulary, &classes, 2).unwrap();
    assert_eq!(plain(&records), vec![(vec![3, 1], 1), (vec![0, 0], 5)]);
}

#[test]
fn samples_to_records_reports_the_first_unknown_label() {
    let vocabulary = Vocabulary::new();
    let classes = ClassIndex::new(split_lines(&["x"]));
    let samples = vec![
        ClassifierSample::new("a".to_string(), "x".to_string()),
        ClassifierSample::new("b".to_string(), "".to_string()),
        ClassifierSample::new("c".to_string(), "zz".to_string()),
    ];
    let result = ClassifierDataset::samples_to_records(samples, &vocabulary, &classes, 2);
    assert_eq!(result.err(), Some(DatasetError::InvalidLabel { line: 1, cause: ParseFailure::Empty }));
}

#[test]
fn vocabulary_of_samples_reads_texts_only() {
    let samples = vec![
        ClassifierSample::new("ba".to_string(), "q".to_string()),
        ClassifierSample::new("ac".to_string(), "r".to_string()),
    ];
    let vocabulary = ClassifierDataset::vocabulary_of_samples(&samples);
    assert_eq!(vocabulary.chars(), &vec!['b', 'a', 'c']);
}
