//! Turns line-oriented labelled text corpora into fixed-shape numeric records.
//!
//! The centre of the crate is the classification dataset builder in
//! [`classifier`]: it derives a character vocabulary from the training split and
//! encodes the train, dev and test splits into fixed-length sequences of
//! character ids paired with integer class labels. Reading files is left to the
//! caller; every function here works on lines that are already in memory.
//!
//! Each module states what its functions compute as functions on sequences of
//! characters, and the executable code is proved against these statements:
//!
//! - [`text`]: trailing whitespace and tab-separated fields of a line;
//! - [`number`]: unsigned decimal numbers, with the reason of each failure;
//! - [`vocab`]: the vocabulary, with dense ids in first-seen order;
//! - [`classes`]: the class list, looked up by name;
//! - [`sample`] and [`record`]: classification samples and their encoding;
//! - [`classifier`]: the build of a whole dataset;
//! - [`tagging`] and [`similarity`]: the samples of the two other formats;
//! - [`laws`]: what holds of every build.

pub mod text;
pub mod number;
pub mod error;
pub mod config;
pub mod vocab;
pub mod classes;
pub mod sample;
pub mod record;
pub mod classifier;
pub mod tagging;
pub mod similarity;
pub mod laws;

pub use crate::classes::ClassIndex;
pub use crate::classifier::ClassifierDataset;
pub use crate::config::{DataConfig, VocabularySource};
pub use crate::error::{BuildError, DatasetError, RecordError, Split};
pub use crate::number::ParseFailure;
pub use crate::record::ClassifierRecord;
pub use crate::sample::ClassifierSample;
pub use crate::similarity::{SimilarityDataset, SimilaritySample};
pub use crate::tagging::{TaggingDataset, TaggingSample};
pub use crate::vocab::Vocabulary;
