//! The classification dataset builder: from the lines of a class list and of
//! three splits to three sequences of records and the vocabulary.

use vstd::prelude::*;
use crate::classes::{class_map, ClassIndex};
use crate::config::{default_config, DataConfig, DataConfigView, VocabularySource};
use crate::error::{BuildError, DatasetError, Split};
use crate::record::{
    encode_sample, lemma_records_prefix_err, record_views, records_of, ClassifierRecord, RecordView,
};
use crate::sample::{sample_texts, sample_views, samples_of_lines, ClassifierSample};
use crate::vocab::{observe_texts, vocabulary_of, Vocabulary};

verus! {

/// Name of the file of the training split in a dataset directory.
pub const TRAIN_FILE: &'static str = "train.txt";

/// Name of the file of the dev split in a dataset directory.
pub const DEV_FILE: &'static str = "dev.txt";

/// Name of the file of the test split in a dataset directory.
pub const TEST_FILE: &'static str = "test.txt";

/// Name of the file of the class list in a dataset directory.
pub const CLASS_FILE: &'static str = "class.txt";

/// The mathematical content of a `ClassifierDataset`.
pub struct ClassifierDatasetView {
    pub path: Seq<char>,
    pub train_file: Seq<char>,
    pub dev_file: Seq<char>,
    pub test_file: Seq<char>,
    pub class_file: Seq<char>,
    pub vocab_file: Option<Seq<char>>,
    pub config: DataConfigView,
}

/// The dataset of a directory under a configuration: the four files have
/// fixed names, and the vocabulary file is the one that the configuration
/// names, if it names one.
pub open spec fn dataset_layout(path: Seq<char>, config: DataConfigView) -> ClassifierDatasetView {
    ClassifierDatasetView {
        path,
        train_file: TRAIN_FILE@,
        dev_file: DEV_FILE@,
        test_file: TEST_FILE@,
        class_file: CLASS_FILE@,
        vocab_file: config.vocab_source.file(),
        config,
    }
}

/// What a dataset build yields.
pub struct DatasetView {
    pub train: Seq<RecordView>,
    pub dev: Seq<RecordView>,
    pub test: Seq<RecordView>,
    pub vocabulary: Seq<char>,
}

/// The records of the lines of one split under a finished vocabulary.
pub open spec fn split_records(
    order: Seq<char>,
    classes: Map<Seq<char>, nat>,
    n: nat,
    lines: Seq<Seq<char>>,
) -> Result<Seq<RecordView>, DatasetError> {
    match samples_of_lines(lines) {
        Err(e) => Err(e),
        Ok(samples) => records_of(order, classes, n, samples),
    }
}

/// The vocabulary of the lines of a training split: that of the texts of its
/// samples. Labels add nothing to it.
pub open spec fn training_vocabulary(train: Seq<Seq<char>>) -> Seq<char> {
    match samples_of_lines(train) {
        Ok(samples) => vocabulary_of(sample_texts(samples)),
        Err(_) => Seq::empty(),
    }
}

/// The whole build. The training split is read and encoded first, then the
/// dev split, then the test split; the first failure ends the build and names
/// its split. The vocabulary comes from the training split alone.
pub open spec fn dataset_of(
    class_names: Seq<Seq<char>>,
    train: Seq<Seq<char>>,
    dev: Seq<Seq<char>>,
    test: Seq<Seq<char>>,
    n: nat,
) -> Result<DatasetView, BuildError> {
    let classes = class_map(class_names);
    let order = training_vocabulary(train);
    match split_records(order, classes, n, train) {
        Err(error) => Err(BuildError { split: Split::Train, error }),
        Ok(train_records) => match split_records(order, classes, n, dev) {
            Err(error) => Err(BuildError { split: Split::Dev, error }),
            Ok(dev_records) => match split_records(order, classes, n, test) {
                Err(error) => Err(BuildError { split: Split::Test, error }),
                Ok(test_records) => Ok(
                    DatasetView {
                        train: train_records,
                        dev: dev_records,
                        test: test_records,
                        vocabulary: order,
                    },
                ),
            },
        },
    }
}

/// A classification dataset: a directory, the names of its files, and the
/// configuration of the build.
#[derive(Debug)]
pub struct ClassifierDataset<'a> {
    path: &'a str,
    train_file: String,
    dev_file: String,
    test_file: String,
    class_file: String,
    vocab_file: Option<String>,
    config: DataConfig,
}

impl<'a> View for ClassifierDataset<'a> {
    type V = ClassifierDatasetView;

    closed spec fn view(&self) -> ClassifierDatasetView {
        ClassifierDatasetView {
            path: self.path@,
            train_file: self.train_file@,
            dev_file: self.dev_file@,
            test_file: self.test_file@,
            class_file: self.class_file@,
            vocab_file: match self.vocab_file {
                Some(file) => Some(file@),
                None => None,
            },
            config: self.config@,
        }
    }
}

impl<'a> ClassifierDataset<'a> {
    /// The dataset of the directory `path` under the default configuration.
    pub fn new(path: &'a str) -> (r: Self)
        ensures
            r@ == dataset_layout(path@, default_config()),
    {
        ClassifierDataset::with_config(path, DataConfig::default())
    }

    /// The dataset of the directory `path` under `config`.
    pub fn with_config(path: &'a str, config: DataConfig) -> (r: Self)
        ensures
            r@ == dataset_layout(path@, config@),
    {
        let vocab_file = match config.vocab_source() {
            VocabularySource::Vocab(file) => Some(file.clone()),
            VocabularySource::Embedding(file) => Some(file.clone()),
            VocabularySource::Empty => None,
        };
        ClassifierDataset {
            path,
            train_file: TRAIN_FILE.to_owned(),
            dev_file: DEV_FILE.to_owned(),
            test_file: TEST_FILE.to_owned(),
            class_file: CLASS_FILE.to_owned(),
            vocab_file,
            config,
        }
    }

    /// The dataset directory.
    pub fn path(&self) -> (r: &'a str)
        ensures
            r@ == self@.path,
    {
        self.path
    }

    /// Name of the file of the training split.
    pub fn train_file(&self) -> (r: &str)
        ensures
            r@ == self@.train_file,
    {
        self.train_file.as_str()
    }

    /// Name of the file of the dev split.
    pub fn dev_file(&self) -> (r: &str)
        ensures
            r@ == self@.dev_file,
    {
        self.dev_file.as_str()
    }

    /// Name of the file of the test split.
    pub fn test_file(&self) -> (r: &str)
        ensures
            r@ == self@.test_file,
    {
        self.test_file.as_str()
    }

    /// Name of the file of the class list.
    pub fn class_file(&self) -> (r: &str)
        ensures
            r@ == self@.class_file,
    {
        self.class_file.as_str()
    }

    /// Name of the vocabulary file, where the configuration names one.
    pub fn vocab_file(&self) -> (r: Option<&str>)
        ensures
            match r {
                Some(file) => self@.vocab_file == Some(file@),
                None => self@.vocab_file is None,
            },
    {
        match &self.vocab_file {
            Some(file) => Some(file.as_str()),
            None => None,
        }
    }

    /// The configuration of the build.
    pub fn config(&self) -> (r: &DataConfig)
        ensures
            r@ == self@.config,
    {
        &self.config
    }

    /// The vocabulary of the texts of `samples`, in first-seen order.
    pub fn vocabulary_of_samples(samples: &Vec<ClassifierSample>) -> (r: Vocabulary)
        ensures
            r@ == vocabulary_of(sample_texts(sample_views(samples@))),
    {
        let mut vocabulary = Vocabulary::new();
        let ghost texts = sample_texts(sample_views(samples@));
        for i in 0..samples.len()
            invariant
                texts == sample_texts(sample_views(samples@)),
                vocabulary@ == observe_texts(Seq::empty(), texts.take(i as int)),
        {
            proof {
                assert(texts.take(i + 1).drop_last() =~= texts.take(i as int));
            }
            vocabulary.observe(samples[i].text());
        }
        proof {
            assert(texts.take(samples.len() as int) =~= texts);
        }
        vocabulary
    }

    /// Encodes `samples` one for one into records of `length` ids and stops
    /// at the first sample whose label stands for no number.
    pub fn samples_to_records(
        samples: Vec<ClassifierSample>,
        vocab: &Vocabulary,
        class2id: &ClassIndex,
        length: usize,
    ) -> (r: Result<Vec<ClassifierRecord>, DatasetError>)
        ensures
            match r {
                Ok(records) => records_of(
                    vocab@,
                    class2id@,
                    length as nat,
                    sample_views(samples@),
                ) == Ok::<Seq<RecordView>, DatasetError>(record_views(records@)),
                Err(e) => records_of(vocab@, class2id@, length as nat, sample_views(samples@))
                    == Err::<Seq<RecordView>, DatasetError>(e),
            },
            r matches Ok(records) ==> {
                &&& records@.len() == samples@.len()
                &&& forall|i: int|
                    0 <= i < records@.len() ==> (#[trigger] records@[i])@.word_ids.len() == length
            },
    {
        let ghost all = sample_views(samples@);
        let mut records: Vec<ClassifierRecord> = Vec::new();
        proof {
            assert(record_views(records@) =~= Seq::<RecordView>::empty());
        }
        for i in 0..samples.len()
            invariant
                all == sample_views(samples@),
                records@.len() == i,
                records_of(vocab@, class2id@, length as nat, all.take(i as int)) == Ok::<
                    Seq<RecordView>,
                    DatasetError,
                >(record_views(records@)),
                forall|j: int| 0 <= j < records@.len() ==> (#[trigger] records@[j])@.word_ids.len() == length,
        {
            proof {
                assert(all.take(i + 1).drop_last() =~= all.take(i as int));
            }
            let ghost before = records@;
            match encode_sample(&samples[i], vocab, class2id, length) {
                Ok(record) => {
                    records.push(record);
                    proof {
                        assert(record_views(records@) =~= record_views(before).push(record@));
                        assert forall|j: int| 0 <= j < records@.len() implies (
                        #[trigger] records@[j])@.word_ids.len() == length by {
                            if j < before.len() {
                                assert(records@[j] == before[j]);
                            }
                        }
                    }
                },
                Err(cause) => {
                    proof {
                        lemma_records_prefix_err(vocab@, class2id@, length as nat, all, i + 1);
                    }
                    return Err(DatasetError::InvalidLabel { line: i, cause });
                },
            }
        }
        proof {
            assert(all.take(samples.len() as int) =~= all);
        }
        Ok(records)
    }

    /// Reads the lines of one split and encodes them under a finished
    /// vocabulary.
    fn encode_split(
        lines: &Vec<String>,
        vocab: &Vocabulary,
        class2id: &ClassIndex,
        length: usize,
    ) -> (r: Result<Vec<ClassifierRecord>, DatasetError>)
        ensures
            match r {
                Ok(records) => split_records(vocab@, class2id@, length as nat, lines.deep_view())
                    == Ok::<Seq<RecordView>, DatasetError>(record_views(records@)),
                Err(e) => split_records(vocab@, class2id@, length as nat, lines.deep_view())
                    == Err::<Seq<RecordView>, DatasetError>(e),
            },
            r matches Ok(records) ==> {
                &&& records@.len() == lines@.len()
                &&& forall|i: int|
                    0 <= i < records@.len() ==> (#[trigger] records@[i])@.word_ids.len() == length
            },
    {
        match ClassifierSample::from_lines(lines) {
            Err(e) => Err(e),
            Ok(samples) => ClassifierDataset::samples_to_records(samples, vocab, class2id, length),
        }
    }

    /// Builds the dataset from the lines of its four files: the class names
    /// in the order of the class list, and the raw lines of the training, dev
    /// and test splits. The vocabulary is made from the texts of the training
    /// split alone and used for all three splits; every record has as many ids
    /// as the configuration says. The first line without a tab, or with a
    /// label that stands for no number, ends the build.
    pub fn build_dataset(
        &self,
        class_names: Vec<String>,
        train: &Vec<String>,
        dev: &Vec<String>,
        test: &Vec<String>,
    ) -> (r: Result<
        (Vec<ClassifierRecord>, Vec<ClassifierRecord>, Vec<ClassifierRecord>, Vocabulary),
        BuildError,
    >)
        ensures
            match r {
                Ok((train_records, dev_records, test_records, vocabulary)) => dataset_of(
                    class_names.deep_view(),
                    train.deep_view(),
                    dev.deep_view(),
                    test.deep_view(),
                    self@.config.max_length,
                ) == Ok::<DatasetView, BuildError>(
                    DatasetView {
                        train: record_views(train_records@),
                        dev: record_views(dev_records@),
                        test: record_views(test_records@),
                        vocabulary: vocabulary@,
                    },
                ),
                Err(e) => dataset_of(
                    class_names.deep_view(),
                    train.deep_view(),
                    dev.deep_view(),
                    test.deep_view(),
                    self@.config.max_length,
                ) == Err::<DatasetView, BuildError>(e),
            },
            r matches Ok((train_records, dev_records, test_records, vocabulary)) ==> {
                &&& train_records@.len() == train@.len()
                &&& dev_records@.len() == dev@.len()
                &&& test_records@.len() == test@.len()
                &&& vocabulary@ == training_vocabulary(train.deep_view())
                &&& forall|i: int|
                    0 <= i < train_records@.len() ==> (#[trigger] train_records@[i])@.word_ids.len()
                        == self@.config.max_length
                &&& forall|i: int|
                    0 <= i < dev_records@.len() ==> (#[trigger] dev_records@[i])@.word_ids.len()
                        == self@.config.max_length
                &&& forall|i: int|
                    0 <= i < test_records@.len() ==> (#[trigger] test_records@[i])@.word_ids.len()
                        == self@.config.max_length
            },
    {
        let length = self.config.max_length();
        let class2id = ClassIndex::new(class_names);
        let train_samples = match ClassifierSample::from_lines(train) {
            Ok(samples) => samples,
            Err(error) => {
                return Err(BuildError { split: Split::Train, error });
            },
        };
        let vocab = ClassifierDataset::vocabulary_of_samples(&train_samples);
        let train_records = match ClassifierDataset::samples_to_records(
            train_samples,
            &vocab,
            &class2id,
            length,
        ) {
            Ok(records) => records,
            Err(error) => {
                return Err(BuildError { split: Split::Train, error });
            },
        };
        let dev_records = match ClassifierDataset::encode_split(dev, &vocab, &class2id, length) {
            Ok(records) => records,
            Err(error) => {
                return Err(BuildError { split: Split::Dev, error });
            },
        };
        let test_records = match ClassifierDataset::encode_split(test, &vocab, &class2id, length) {
            Ok(records) => records,
            Err(error) => {
                return Err(BuildError { split: Split::Test, error });
            },
        };
        Ok((train_records, dev_records, test_records, vocab))
    }
}

} // verus!
