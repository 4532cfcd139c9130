//! Sentence-pair similarity datasets: two texts and a flag per line.

use vstd::prelude::*;
use crate::config::{default_config, DataConfig, DataConfigView};
use crate::error::{DatasetError, RecordError};
use crate::number::{parse_u8, parse_unsigned};
use crate::text::{split_at_tab, split_once_tab, trim_end, trim_line};

verus! {

/// The mathematical content of a `SimilaritySample`.
pub struct SimilaritySampleView {
    pub text_a: Seq<char>,
    pub text_b: Seq<char>,
    pub similar: bool,
}

/// The sample that `content` holds: its first two tabs cut it into two texts
/// and a tag, and the pair counts as similar where the tag, an unsigned
/// decimal number of at most 255, is not 0.
pub open spec fn similarity_of(content: Seq<char>) -> Result<SimilaritySampleView, RecordError> {
    match split_at_tab(content) {
        None => Err(RecordError::Malformed),
        Some((text_a, rest)) => match split_at_tab(rest) {
            None => Err(RecordError::Malformed),
            Some((text_b, tag)) => match parse_unsigned(tag, u8::MAX as nat) {
                Err(cause) => Err(RecordError::InvalidLabel(cause)),
                Ok(value) => Ok(SimilaritySampleView { text_a, text_b, similar: value != 0 }),
            },
        },
    }
}

/// The samples of a split, one per raw line, each line trimmed at its end;
/// the first line that holds no sample makes the whole split fail.
pub open spec fn similarities_of_lines(lines: Seq<Seq<char>>) -> Result<
    Seq<SimilaritySampleView>,
    DatasetError,
>
    decreases lines.len(),
{
    if lines.len() == 0 {
        Ok(Seq::empty())
    } else {
        match similarities_of_lines(lines.drop_last()) {
            Err(e) => Err(e),
            Ok(front) => match similarity_of(trim_end(lines.last())) {
                Err(e) => Err(e.at_line((lines.len() - 1) as usize)),
                Ok(sample) => Ok(front.push(sample)),
            },
        }
    }
}

/// The contents of a sequence of samples.
pub open spec fn similarity_views(samples: Seq<SimilaritySample>) -> Seq<SimilaritySampleView> {
    Seq::new(samples.len(), |i: int| samples[i]@)
}

/// A split that fails on some of its first lines fails in the same way as a whole.
pub proof fn lemma_similarities_prefix_err(lines: Seq<Seq<char>>, k: int)
    requires
        0 <= k <= lines.len(),
        similarities_of_lines(lines.take(k)) is Err,
    ensures
        similarities_of_lines(lines) == similarities_of_lines(lines.take(k)),
    decreases lines.len() - k,
{
    if k == lines.len() {
        assert(lines.take(k) =~= lines);
    } else {
        assert(lines.take(k + 1).drop_last() =~= lines.take(k));
        lemma_similarities_prefix_err(lines, k + 1);
    }
}

/// Two texts and whether they count as similar.
#[derive(Debug)]
pub struct SimilaritySample {
    text_a: String,
    text_b: String,
    similar: bool,
}

impl View for SimilaritySample {
    type V = SimilaritySampleView;

    closed spec fn view(&self) -> SimilaritySampleView {
        SimilaritySampleView { text_a: self.text_a@, text_b: self.text_b@, similar: self.similar }
    }
}

impl SimilaritySample {
    /// The sample of two texts and a flag.
    pub fn new(text_a: String, text_b: String, similar: bool) -> (r: Self)
        ensures
            r@ == (SimilaritySampleView { text_a: text_a@, text_b: text_b@, similar }),
    {
        SimilaritySample { text_a, text_b, similar }
    }

    /// The first text.
    pub fn text_a(&self) -> (r: &str)
        ensures
            r@ == self@.text_a,
    {
        self.text_a.as_str()
    }

    /// The second text.
    pub fn text_b(&self) -> (r: &str)
        ensures
            r@ == self@.text_b,
    {
        self.text_b.as_str()
    }

    /// Whether the two texts count as similar.
    pub fn similar(&self) -> (r: bool)
        ensures
            r == self@.similar,
    {
        self.similar
    }

    /// Reads a sample from `content`, taken as it stands: two texts and a
    /// tag, separated by the first two tabs.
    pub fn parse(content: &str) -> (r: Result<Self, RecordError>)
        ensures
            match r {
                Ok(sample) => similarity_of(content@) == Ok::<SimilaritySampleView, RecordError>(
                    sample@,
                ),
                Err(e) => similarity_of(content@) == Err::<SimilaritySampleView, RecordError>(e),
            },
    {
        match split_once_tab(content) {
            None => Err(RecordError::Malformed),
            Some((text_a, rest)) => match split_once_tab(rest.as_str()) {
                None => Err(RecordError::Malformed),
                Some((text_b, tag)) => match parse_u8(tag.as_str()) {
                    Err(cause) => Err(RecordError::InvalidLabel(cause)),
                    Ok(value) => Ok(SimilaritySample { text_a, text_b, similar: value != 0 }),
                },
            },
        }
    }

    /// Reads the sample of one raw line: the line is trimmed at its end, then
    /// cut at its first two tabs.
    pub fn from_line(line: &str) -> (r: Result<Self, RecordError>)
        ensures
            match r {
                Ok(sample) => similarity_of(trim_end(line@)) == Ok::<
                    SimilaritySampleView,
                    RecordError,
                >(sample@),
                Err(e) => similarity_of(trim_end(line@)) == Err::<SimilaritySampleView, RecordError>(
                    e,
                ),
            },
    {
        SimilaritySample::parse(trim_line(line))
    }

    /// Reads the samples of a split, one per line, and stops at the first
    /// line that holds none.
    pub fn from_lines(lines: &Vec<String>) -> (r: Result<Vec<Self>, DatasetError>)
        ensures
            match r {
                Ok(samples) => similarities_of_lines(lines.deep_view()) == Ok::<
                    Seq<SimilaritySampleView>,
                    DatasetError,
                >(similarity_views(samples@)),
                Err(e) => similarities_of_lines(lines.deep_view()) == Err::<
                    Seq<SimilaritySampleView>,
                    DatasetError,
                >(e),
            },
            r matches Ok(samples) ==> samples@.len() == lines@.len(),
    {
        let ghost all = lines.deep_view();
        let mut samples: Vec<SimilaritySample> = Vec::new();
        proof {
            assert(similarity_views(samples@) =~= Seq::<SimilaritySampleView>::empty());
        }
        for i in 0..lines.len()
            invariant
                all == lines.deep_view(),
                samples@.len() == i,
                similarities_of_lines(all.take(i as int)) == Ok::<
                    Seq<SimilaritySampleView>,
                    DatasetError,
                >(similarity_views(samples@)),
        {
            proof {
                assert(all.take(i + 1).drop_last() =~= all.take(i as int));
            }
            let ghost before = samples@;
            match SimilaritySample::from_line(lines[i].as_str()) {
                Ok(sample) => {
                    samples.push(sample);
                    proof {
                        assert(similarity_views(samples@) =~= similarity_views(before).push(
                            sample@,
                        ));
                    }
                },
                Err(e) => {
                    proof {
                        lemma_similarities_prefix_err(all, i + 1);
                    }
                    return Err(e.locate(i));
                },
            }
        }
        proof {
            assert(all.take(lines.len() as int) =~= all);
        }
        Ok(samples)
    }
}

/// The mathematical content of a `SimilarityDataset`.
pub struct SimilarityDatasetView {
    pub path: Seq<char>,
    pub config: DataConfigView,
}

/// A similarity dataset: a directory and the configuration of the build.
#[derive(Debug)]
pub struct SimilarityDataset<'a> {
    path: &'a str,
    config: DataConfig,
}

impl<'a> View for SimilarityDataset<'a> {
    type V = SimilarityDatasetView;

    closed spec fn view(&self) -> SimilarityDatasetView {
        SimilarityDatasetView { path: self.path@, config: self.config@ }
    }
}

impl<'a> SimilarityDataset<'a> {
    /// The dataset of the directory `path` under the default configuration.
    pub fn new(path: &'a str) -> (r: Self)
        ensures
            r@ == (SimilarityDatasetView { path: path@, config: default_config() }),
    {
        SimilarityDataset { path, config: DataConfig::default() }
    }

    /// The dataset of the directory `path` under `config`.
    pub fn with_config(path: &'a str, config: DataConfig) -> (r: Self)
        ensures
            r@ == (SimilarityDatasetView { path: path@, config: config@ }),
    {
        SimilarityDataset { path, config }
    }

    /// The dataset directory.
    pub fn path(&self) -> (r: &'a str)
        ensures
            r@ == self@.path,
    {
        self.path
    }

    /// The configuration of the build.
    pub fn config(&self) -> (r: &DataConfig)
        ensures
            r@ == self@.config,
    {
        &self.config
    }
}

} // verus!
