//! The configuration shared by the dataset builders.

use vstd::prelude::*;

verus! {

/// Where a vocabulary comes from, besides the training text.
#[derive(Debug)]
pub enum VocabularySource {
    /// A vocabulary file of the dataset directory, by name.
    Vocab(String),
    /// An embedding file of the dataset directory, by name.
    Embedding(String),
    /// Nothing but the training text.
    Empty,
}

/// The mathematical content of a `VocabularySource`.
pub enum VocabularySourceView {
    Vocab(Seq<char>),
    Embedding(Seq<char>),
    Empty,
}

impl View for VocabularySource {
    type V = VocabularySourceView;

    open spec fn view(&self) -> VocabularySourceView {
        match *self {
            VocabularySource::Vocab(file) => VocabularySourceView::Vocab(file@),
            VocabularySource::Embedding(file) => VocabularySourceView::Embedding(file@),
            VocabularySource::Empty => VocabularySourceView::Empty,
        }
    }
}

impl VocabularySourceView {
    /// The file that the source names, if it names one.
    pub open spec fn file(self) -> Option<Seq<char>> {
        match self {
            VocabularySourceView::Vocab(file) => Some(file),
            VocabularySourceView::Embedding(file) => Some(file),
            VocabularySourceView::Empty => None,
        }
    }
}

/// The mathematical content of a `DataConfig`.
pub struct DataConfigView {
    pub unk: Seq<char>,
    pub pad: Seq<char>,
    pub vocab_source: VocabularySourceView,
    pub max_length: nat,
}

/// The defaults: the tokens `<UNK>` and `<PAD>`, no outside vocabulary, and
/// sequences of 32 ids.
pub open spec fn default_config() -> DataConfigView {
    DataConfigView {
        unk: "<UNK>"@,
        pad: "<PAD>"@,
        vocab_source: VocabularySourceView::Empty,
        max_length: 32,
    }
}

/// Settings of one dataset build. The sequence length is at least 1 and
/// applies to every record of the build.
#[derive(Debug)]
pub struct DataConfig {
    unk: String,
    pad: String,
    vocab_source: VocabularySource,
    max_length: usize,
}

impl View for DataConfig {
    type V = DataConfigView;

    closed spec fn view(&self) -> DataConfigView {
        DataConfigView {
            unk: self.unk@,
            pad: self.pad@,
            vocab_source: self.vocab_source@,
            max_length: self.max_length as nat,
        }
    }
}

impl DataConfig {
    #[verifier::type_invariant]
    spec fn positive_length(self) -> bool {
        self.max_length >= 1
    }

    /// A configuration with the given tokens and sequence length and no
    /// outside vocabulary; `None` where the length is 0.
    pub fn new(unk_token: String, pad_token: String, max_length: usize) -> (r: Option<Self>)
        ensures
            r is None <==> max_length == 0,
            r matches Some(config) ==> config@ == (DataConfigView {
                unk: unk_token@,
                pad: pad_token@,
                vocab_source: VocabularySourceView::Empty,
                max_length: max_length as nat,
            }),
    {
        if max_length == 0 {
            None
        } else {
            Some(
                DataConfig {
                    unk: unk_token,
                    pad: pad_token,
                    vocab_source: VocabularySource::Empty,
                    max_length,
                },
            )
        }
    }

    /// The label of the unknown token.
    pub fn unk(&self) -> (r: &str)
        ensures
            r@ == self@.unk,
    {
        self.unk.as_str()
    }

    /// The label of the padding token.
    pub fn pad(&self) -> (r: &str)
        ensures
            r@ == self@.pad,
    {
        self.pad.as_str()
    }

    /// Where the vocabulary comes from.
    pub fn vocab_source(&self) -> (r: &VocabularySource)
        ensures
            r@ == self@.vocab_source,
    {
        &self.vocab_source
    }

    /// The length of every encoded sequence.
    pub fn max_length(&self) -> (r: usize)
        ensures
            r == self@.max_length,
            r >= 1,
    {
        proof {
            use_type_invariant(self);
        }
        self.max_length
    }
}

impl Default for DataConfig {
    fn default() -> (r: Self)
        ensures
            r@ == default_config(),
    {
        DataConfig {
            unk: "<UNK>".to_owned(),
            pad: "<PAD>".to_owned(),
            vocab_source: VocabularySource::Empty,
            max_length: 32,
        }
    }
}

} // verus!
