//! Laws of the dataset build, stated over the models of its parts.

use vstd::prelude::*;
use crate::classes::class_map;
use crate::classifier::{dataset_of, split_records, training_vocabulary, DatasetView};
use crate::error::{BuildError, Split};
use crate::number::{parse_unsigned, ParseFailure};
use crate::record::{label_id, lemma_records_of, record_of, records_of};
use crate::sample::{
    lemma_samples_of_lines, sample_of_line, sample_texts, samples_of_lines, SampleView,
};
use crate::vocab::{char_id, lemma_vocabulary_dense};

verus! {

/// The lines of one of the three splits.
pub open spec fn lines_of(
    split: Split,
    train: Seq<Seq<char>>,
    dev: Seq<Seq<char>>,
    test: Seq<Seq<char>>,
) -> Seq<Seq<char>> {
    match split {
        Split::Train => train,
        Split::Dev => dev,
        Split::Test => test,
    }
}

/// Every record has exactly the length asked for, whatever the length of its
/// text: the ids of the first characters stand in front, in the order of the
/// characters, and 0 stands wherever the text has no character left.
pub proof fn lemma_record_word_ids(
    order: Seq<char>,
    classes: Map<Seq<char>, nat>,
    n: nat,
    sample: SampleView,
)
    ensures
        record_of(order, classes, n, sample) matches Ok(record) ==> {
            &&& record.word_ids.len() == n
            &&& forall|i: int|
                0 <= i < n && i < sample.text.len() ==> #[trigger] record.word_ids[i] == char_id(
                    order,
                    sample.text[i],
                )
            &&& forall|i: int| sample.text.len() <= i < n ==> #[trigger] record.word_ids[i] == 0
        },
{
}

/// A label that is an unsigned decimal number gives that number as the
/// record's label, whether or not a class bears the same name.
pub proof fn lemma_numeric_label_wins(
    order: Seq<char>,
    classes: Map<Seq<char>, nat>,
    n: nat,
    sample: SampleView,
    value: nat,
)
    requires
        parse_unsigned(sample.label, usize::MAX as nat) == Ok::<nat, ParseFailure>(value),
    ensures
        record_of(order, classes, n, sample) matches Ok(record) && record.label_id == value,
{
}

/// A build yields one record per line of each split, and every record has
/// the configured length.
pub proof fn lemma_build_record_lengths(
    class_names: Seq<Seq<char>>,
    train: Seq<Seq<char>>,
    dev: Seq<Seq<char>>,
    test: Seq<Seq<char>>,
    n: nat,
)
    ensures
        dataset_of(class_names, train, dev, test, n) matches Ok(dataset) ==> {
            &&& dataset.train.len() == train.len()
            &&& dataset.dev.len() == dev.len()
            &&& dataset.test.len() == test.len()
            &&& forall|i: int|
                0 <= i < dataset.train.len() ==> (#[trigger] dataset.train[i]).word_ids.len() == n
            &&& forall|i: int|
                0 <= i < dataset.dev.len() ==> (#[trigger] dataset.dev[i]).word_ids.len() == n
            &&& forall|i: int|
                0 <= i < dataset.test.len() ==> (#[trigger] dataset.test[i]).word_ids.len() == n
        },
{
    let classes = class_map(class_names);
    let order = training_vocabulary(train);
    lemma_split_lengths(order, classes, n, train);
    lemma_split_lengths(order, classes, n, dev);
    lemma_split_lengths(order, classes, n, test);
}

/// The records of one split: one per line, each of the length asked for.
pub proof fn lemma_split_lengths(
    order: Seq<char>,
    classes: Map<Seq<char>, nat>,
    n: nat,
    lines: Seq<Seq<char>>,
)
    ensures
        split_records(order, classes, n, lines) matches Ok(records) ==> {
            &&& records.len() == lines.len()
            &&& forall|i: int| 0 <= i < records.len() ==> (#[trigger] records[i]).word_ids.len() == n
        },
{
    lemma_samples_of_lines(lines);
    match samples_of_lines(lines) {
        Ok(samples) => {
            lemma_records_of(order, classes, n, samples);
        },
        Err(_) => {},
    }
}

/// Whether every line of a split holds a sample whose label stands for a number.
pub open spec fn split_is_sound(classes: Map<Seq<char>, nat>, lines: Seq<Seq<char>>) -> bool {
    forall|i: int|
        0 <= i < lines.len() ==> match #[trigger] sample_of_line(lines[i]) {
            Some(sample) => label_id(classes, sample.label) is Ok,
            None => false,
        }
}

/// A split yields records exactly if each of its lines has a tab and a label
/// that is an unsigned decimal number or a class name.
pub proof fn lemma_split_succeeds(
    order: Seq<char>,
    classes: Map<Seq<char>, nat>,
    n: nat,
    lines: Seq<Seq<char>>,
)
    ensures
        split_records(order, classes, n, lines) is Ok <==> split_is_sound(classes, lines),
{
    lemma_samples_of_lines(lines);
    match samples_of_lines(lines) {
        Ok(samples) => {
            lemma_records_of(order, classes, n, samples);
            if split_is_sound(classes, lines) {
                assert forall|i: int| 0 <= i < samples.len() implies (#[trigger] label_id(
                    classes,
                    samples[i].label,
                )) is Ok by {
                    assert(sample_of_line(lines[i]) == Some(samples[i]));
                }
            }
            if records_of(order, classes, n, samples) is Ok {
                assert forall|i: int| 0 <= i < lines.len() implies match #[trigger] sample_of_line(
                    lines[i],
                ) {
                    Some(sample) => label_id(classes, sample.label) is Ok,
                    None => false,
                } by {
                    assert(label_id(classes, samples[i].label) is Ok);
                }
            }
        },
        Err(_) => {},
    }
}

/// A build succeeds exactly if every line of the three splits has a tab and a
/// label that is an unsigned decimal number or a class name.
pub proof fn lemma_build_succeeds(
    class_names: Seq<Seq<char>>,
    train: Seq<Seq<char>>,
    dev: Seq<Seq<char>>,
    test: Seq<Seq<char>>,
    n: nat,
)
    ensures
        dataset_of(class_names, train, dev, test, n) is Ok <==> {
            let classes = class_map(class_names);
            &&& split_is_sound(classes, train)
            &&& split_is_sound(classes, dev)
            &&& split_is_sound(classes, test)
        },
{
    let classes = class_map(class_names);
    let order = training_vocabulary(train);
    lemma_split_succeeds(order, classes, n, train);
    lemma_split_succeeds(order, classes, n, dev);
    lemma_split_succeeds(order, classes, n, test);
}

/// The vocabulary of a build holds the distinct characters of the training
/// texts and nothing else; its ids run from 1 to the number of these
/// characters without a gap; a character that no training text holds has the
/// id 0, whatever the dev and test splits hold.
pub proof fn lemma_build_vocabulary(
    class_names: Seq<Seq<char>>,
    train: Seq<Seq<char>>,
    dev: Seq<Seq<char>>,
    test: Seq<Seq<char>>,
    n: nat,
)
    ensures
        dataset_of(class_names, train, dev, test, n) matches Ok(dataset) ==> {
            let order = dataset.vocabulary;
            let all = sample_texts(samples_of_lines(train)->Ok_0).flatten();
            &&& samples_of_lines(train) is Ok
            &&& order == training_vocabulary(train)
            &&& order.no_duplicates()
            &&& order.len() == all.to_set().len()
            &&& forall|c: char| order.contains(c) <==> all.contains(c)
            &&& forall|c: char| all.contains(c) ==> 1 <= #[trigger] char_id(order, c) <= order.len()
            &&& forall|c: char| !all.contains(c) ==> #[trigger] char_id(order, c) == 0
            &&& forall|k: int| 1 <= k <= order.len() ==> char_id(order, #[trigger] order[k - 1]) == k
        },
{
    match samples_of_lines(train) {
        Ok(samples) => {
            lemma_vocabulary_dense(sample_texts(samples));
        },
        Err(_) => {},
    }
}

/// The vocabulary and the training records of a build do not depend on the
/// dev and test splits.
pub proof fn lemma_vocabulary_from_training_only(
    class_names: Seq<Seq<char>>,
    train: Seq<Seq<char>>,
    dev: Seq<Seq<char>>,
    test: Seq<Seq<char>>,
    other_dev: Seq<Seq<char>>,
    other_test: Seq<Seq<char>>,
    n: nat,
)
    ensures
        dataset_of(class_names, train, dev, test, n) matches Ok(first) ==> (dataset_of(
            class_names,
            train,
            other_dev,
            other_test,
            n,
        ) matches Ok(second) ==> first.vocabulary == second.vocabulary && first.train
            == second.train),
{
}

/// Building twice from the same lines gives the same vocabulary and the same
/// records, or the same failure.
pub proof fn lemma_build_deterministic(
    class_names: Seq<Seq<char>>,
    train: Seq<Seq<char>>,
    dev: Seq<Seq<char>>,
    test: Seq<Seq<char>>,
    n: nat,
    first: Result<DatasetView, BuildError>,
    second: Result<DatasetView, BuildError>,
)
    requires
        first == dataset_of(class_names, train, dev, test, n),
        second == dataset_of(class_names, train, dev, test, n),
    ensures
        first == second,
{
}

/// A build fails if any line of any split, in a split whose lines all hold a
/// sample, bears a label that is neither an unsigned decimal number nor a
/// class name.
pub proof fn lemma_unknown_label_fails_build(
    class_names: Seq<Seq<char>>,
    train: Seq<Seq<char>>,
    dev: Seq<Seq<char>>,
    test: Seq<Seq<char>>,
    n: nat,
    split: Split,
    i: int,
)
    requires
        samples_of_lines(lines_of(split, train, dev, test)) matches Ok(samples) && (0 <= i
            < samples.len() && parse_unsigned(samples[i].label, usize::MAX as nat) is Err
            && !class_map(class_names).contains_key(samples[i].label)),
    ensures
        dataset_of(class_names, train, dev, test, n) is Err,
{
    let classes = class_map(class_names);
    let order = training_vocabulary(train);
    let samples = samples_of_lines(lines_of(split, train, dev, test))->Ok_0;
    lemma_records_of(order, classes, n, samples);
    assert(label_id(classes, samples[i].label) is Err);
    assert(records_of(order, classes, n, samples) is Err);
}

} // verus!
