//! Classification samples: a text and its raw label, read from one line.

use vstd::prelude::*;
use crate::error::DatasetError;
use crate::text::{split_at_tab, split_once_tab, trim_end, trim_line};

verus! {

/// The mathematical content of a `ClassifierSample`.
pub struct SampleView {
    pub text: Seq<char>,
    pub label: Seq<char>,
}

/// The sample that a raw line holds: the line is trimmed at its end and cut
/// at its first tab into text and label. A line without a tab holds none.
pub open spec fn sample_of_line(line: Seq<char>) -> Option<SampleView> {
    match split_at_tab(trim_end(line)) {
        Some((text, label)) => Some(SampleView { text, label }),
        None => None,
    }
}

/// The samples of a split, line for line; the first line that holds no sample
/// makes the whole split malformed.
pub open spec fn samples_of_lines(lines: Seq<Seq<char>>) -> Result<Seq<SampleView>, DatasetError>
    decreases lines.len(),
{
    if lines.len() == 0 {
        Ok(Seq::empty())
    } else {
        match samples_of_lines(lines.drop_last()) {
            Err(e) => Err(e),
            Ok(front) => match sample_of_line(lines.last()) {
                None => Err(DatasetError::MalformedRecord { line: (lines.len() - 1) as usize }),
                Some(sample) => Ok(front.push(sample)),
            },
        }
    }
}

/// The texts of a sequence of samples.
pub open spec fn sample_texts(samples: Seq<SampleView>) -> Seq<Seq<char>> {
    Seq::new(samples.len(), |i: int| samples[i].text)
}

/// The contents of a sequence of samples.
pub open spec fn sample_views(samples: Seq<ClassifierSample>) -> Seq<SampleView> {
    Seq::new(samples.len(), |i: int| samples[i]@)
}

/// A split that fails on some of its first lines fails in the same way as a whole.
pub proof fn lemma_samples_prefix_err(lines: Seq<Seq<char>>, k: int)
    requires
        0 <= k <= lines.len(),
        samples_of_lines(lines.take(k)) is Err,
    ensures
        samples_of_lines(lines) == samples_of_lines(lines.take(k)),
    decreases lines.len() - k,
{
    if k == lines.len() {
        assert(lines.take(k) =~= lines);
    } else {
        assert(lines.take(k + 1).drop_last() =~= lines.take(k));
        lemma_samples_prefix_err(lines, k + 1);
    }
}

/// A split yields samples exactly if each of its lines holds one, and then
/// one sample per line, in order.
pub proof fn lemma_samples_of_lines(lines: Seq<Seq<char>>)
    ensures
        samples_of_lines(lines) is Ok <==> forall|i: int|
            0 <= i < lines.len() ==> (#[trigger] sample_of_line(lines[i])) is Some,
        samples_of_lines(lines) matches Ok(samples) ==> {
            &&& samples.len() == lines.len()
            &&& forall|i: int|
                0 <= i < lines.len() ==> sample_of_line(lines[i]) == Some(#[trigger] samples[i])
        },
    decreases lines.len(),
{
    if lines.len() > 0 {
        let front = lines.drop_last();
        lemma_samples_of_lines(front);
        assert forall|i: int| 0 <= i < front.len() implies front[i] == lines[i] by {}
        if samples_of_lines(front) is Err {
            let i = choose|i: int|
                0 <= i < front.len() && !((#[trigger] sample_of_line(front[i])) is Some);
            assert(sample_of_line(lines[i]) is None);
        }
    }
}

/// A split that yields no samples fails at its first line that holds none.
pub proof fn lemma_samples_failure(lines: Seq<Seq<char>>)
    requires
        lines.len() <= usize::MAX,
    ensures
        samples_of_lines(lines) matches Err(e) ==> {
            &&& e matches DatasetError::MalformedRecord { line }
            &&& line < lines.len()
            &&& sample_of_line(lines[line as int]) is None
            &&& forall|i: int| 0 <= i < line ==> (#[trigger] sample_of_line(lines[i])) is Some
        },
    decreases lines.len(),
{
    if lines.len() > 0 {
        let front = lines.drop_last();
        lemma_samples_failure(front);
        lemma_samples_of_lines(front);
        assert forall|i: int| 0 <= i < front.len() implies front[i] == lines[i] by {}
    }
}

/// A text with its label as it stands in the corpus.
#[derive(Debug)]
pub struct ClassifierSample {
    text: String,
    label: String,
}

impl View for ClassifierSample {
    type V = SampleView;

    closed spec fn view(&self) -> SampleView {
        SampleView { text: self.text@, label: self.label@ }
    }
}

impl ClassifierSample {
    /// The sample of a text and a label.
    pub fn new(text: String, label: String) -> (r: Self)
        ensures
            r@ == (SampleView { text: text@, label: label@ }),
    {
        ClassifierSample { text, label }
    }

    /// The text of the sample.
    pub fn text(&self) -> (r: &str)
        ensures
            r@ == self@.text,
    {
        self.text.as_str()
    }

    /// The label of the sample, as read.
    pub fn label(&self) -> (r: &str)
        ensures
            r@ == self@.label,
    {
        self.label.as_str()
    }

    /// Cuts `content` at its first tab into text and label, both taken as
    /// they stand; `None` where `content` has no tab.
    pub fn parse(content: &str) -> (r: Option<Self>)
        ensures
            r is Some <==> content@.contains('\t'),
            match r {
                Some(sample) => {
                    &&& split_at_tab(content@) == Some((sample@.text, sample@.label))
                    &&& content@ == sample@.text.push('\t') + sample@.label
                    &&& !sample@.text.contains('\t')
                },
                None => split_at_tab(content@) is None,
            },
    {
        match split_once_tab(content) {
            Some((text, label)) => Some(ClassifierSample { text, label }),
            None => None,
        }
    }

    /// Reads the sample of one raw line: the line is trimmed at its end, then
    /// cut at its first tab.
    pub fn from_line(line: &str) -> (r: Option<Self>)
        ensures
            r is Some <==> trim_end(line@).contains('\t'),
            match r {
                Some(sample) => sample_of_line(line@) == Some(sample@),
                None => sample_of_line(line@) is None,
            },
    {
        ClassifierSample::parse(trim_line(line))
    }

    /// Reads the samples of a split, one per line, and stops at the first
    /// line without a tab.
    pub fn from_lines(lines: &Vec<String>) -> (r: Result<Vec<Self>, DatasetError>)
        ensures
            match r {
                Ok(samples) => samples_of_lines(lines.deep_view()) == Ok::<
                    Seq<SampleView>,
                    DatasetError,
                >(sample_views(samples@)),
                Err(e) => samples_of_lines(lines.deep_view()) == Err::<
                    Seq<SampleView>,
                    DatasetError,
                >(e),
            },
            r matches Ok(samples) ==> samples@.len() == lines@.len(),
    {
        let ghost all = lines.deep_view();
        let mut samples: Vec<ClassifierSample> = Vec::new();
        proof {
            assert(sample_views(samples@) =~= Seq::<SampleView>::empty());
        }
        for i in 0..lines.len()
            invariant
                all == lines.deep_view(),
                samples@.len() == i,
                samples_of_lines(all.take(i as int)) == Ok::<Seq<SampleView>, DatasetError>(
                    sample_views(samples@),
                ),
        {
            proof {
                assert(all.take(i + 1).drop_last() =~= all.take(i as int));
            }
            let ghost before = samples@;
            match ClassifierSample::from_line(lines[i].as_str()) {
                Some(sample) => {
                    samples.push(sample);
                    proof {
                        assert(sample_views(samples@) =~= sample_views(before).push(sample@));
                    }
                },
                None => {
                    proof {
                        lemma_samples_prefix_err(all, i + 1);
                    }
                    return Err(DatasetError::MalformedRecord { line: i });
                },
            }
        }
        proof {
            assert(all.take(lines.len() as int) =~= all);
        }
        Ok(samples)
    }
}

} // verus!
