//! Fixed-width records: a sample's text as a sequence of character ids of a
//! set length, and its label as a number.

use vstd::prelude::*;
use crate::classes::ClassIndex;
use crate::error::DatasetError;
use crate::number::{parse_unsigned, parse_usize, ParseFailure};
use crate::sample::{ClassifierSample, SampleView};
use crate::vocab::{encode_text, ids_view, Vocabulary};

verus! {

/// The mathematical content of a `ClassifierRecord`.
pub struct RecordView {
    pub word_ids: Seq<nat>,
    pub label_id: nat,
}

/// `ids` brought to the length `n`: cut behind its first `n` entries where it
/// is longer, filled up with 0 at its end where it is shorter.
pub open spec fn fit_to_length(ids: Seq<nat>, n: nat) -> Seq<nat> {
    Seq::new(
        n,
        |i: int|
            if i < ids.len() {
                ids[i]
            } else {
                0
            },
    )
}

/// The number that a label stands for: its value where it is an unsigned
/// decimal number that fits a `usize`, else its position in the class list.
/// A label that is neither fails for the reason that it is no such number.
pub open spec fn label_id(classes: Map<Seq<char>, nat>, label: Seq<char>) -> Result<
    nat,
    ParseFailure,
> {
    match parse_unsigned(label, usize::MAX as nat) {
        Ok(value) => Ok(value),
        Err(cause) => if classes.contains_key(label) {
            Ok(classes[label])
        } else {
            Err(cause)
        },
    }
}

/// The record of a sample under a vocabulary, a class map and a length.
pub open spec fn record_of(
    order: Seq<char>,
    classes: Map<Seq<char>, nat>,
    n: nat,
    sample: SampleView,
) -> Result<RecordView, ParseFailure> {
    match label_id(classes, sample.label) {
        Ok(id) => Ok(
            RecordView { word_ids: fit_to_length(encode_text(order, sample.text), n), label_id: id },
        ),
        Err(cause) => Err(cause),
    }
}

/// The records of a sequence of samples, one for one; the first sample whose
/// label stands for no number makes the whole sequence fail.
pub open spec fn records_of(
    order: Seq<char>,
    classes: Map<Seq<char>, nat>,
    n: nat,
    samples: Seq<SampleView>,
) -> Result<Seq<RecordView>, DatasetError>
    decreases samples.len(),
{
    if samples.len() == 0 {
        Ok(Seq::empty())
    } else {
        match records_of(order, classes, n, samples.drop_last()) {
            Err(e) => Err(e),
            Ok(front) => match record_of(order, classes, n, samples.last()) {
                Err(cause) => Err(
                    DatasetError::InvalidLabel { line: (samples.len() - 1) as usize, cause },
                ),
                Ok(record) => Ok(front.push(record)),
            },
        }
    }
}

/// The contents of a sequence of records.
pub open spec fn record_views(records: Seq<ClassifierRecord>) -> Seq<RecordView> {
    Seq::new(records.len(), |i: int| records[i]@)
}

/// Fitting gives exactly the length asked for, keeps the front of the
/// sequence in place and fills with 0 only.
pub proof fn lemma_fit_to_length(ids: Seq<nat>, n: nat)
    ensures
        fit_to_length(ids, n).len() == n,
        forall|i: int| 0 <= i < n && i < ids.len() ==> fit_to_length(ids, n)[i] == ids[i],
        forall|i: int| ids.len() <= i < n ==> fit_to_length(ids, n)[i] == 0,
        ids.len() >= n ==> fit_to_length(ids, n) == ids.take(n as int),
        ids.len() <= n ==> fit_to_length(ids, n).take(ids.len() as int) == ids,
{
}

/// A label that is a number stands for that number, whatever the class list
/// holds under its name.
pub proof fn lemma_number_before_class(classes: Map<Seq<char>, nat>, label: Seq<char>, value: nat)
    requires
        parse_unsigned(label, usize::MAX as nat) == Ok::<nat, ParseFailure>(value),
    ensures
        label_id(classes, label) == Ok::<nat, ParseFailure>(value),
{
}

/// A label that is no number and no class name stands for nothing.
pub proof fn lemma_unknown_label(classes: Map<Seq<char>, nat>, label: Seq<char>)
    requires
        parse_unsigned(label, usize::MAX as nat) is Err,
        !classes.contains_key(label),
    ensures
        label_id(classes, label) is Err,
        label_id(classes, label) == Err::<nat, ParseFailure>(
            parse_unsigned(label, usize::MAX as nat)->Err_0,
        ),
{
}

/// A sequence of samples that fails on some of its first samples fails in
/// the same way as a whole.
pub proof fn lemma_records_prefix_err(
    order: Seq<char>,
    classes: Map<Seq<char>, nat>,
    n: nat,
    samples: Seq<SampleView>,
    k: int,
)
    requires
        0 <= k <= samples.len(),
        records_of(order, classes, n, samples.take(k)) is Err,
    ensures
        records_of(order, classes, n, samples) == records_of(order, classes, n, samples.take(k)),
    decreases samples.len() - k,
{
    if k == samples.len() {
        assert(samples.take(k) =~= samples);
    } else {
        assert(samples.take(k + 1).drop_last() =~= samples.take(k));
        lemma_records_prefix_err(order, classes, n, samples, k + 1);
    }
}

/// Samples yield records exactly if each label stands for a number, and then
/// one record per sample, in order, each of the length asked for.
pub proof fn lemma_records_of(
    order: Seq<char>,
    classes: Map<Seq<char>, nat>,
    n: nat,
    samples: Seq<SampleView>,
)
    ensures
        records_of(order, classes, n, samples) is Ok <==> forall|i: int|
            0 <= i < samples.len() ==> (#[trigger] label_id(classes, samples[i].label)) is Ok,
        records_of(order, classes, n, samples) matches Ok(records) ==> {
            &&& records.len() == samples.len()
            &&& forall|i: int|
                0 <= i < samples.len() ==> record_of(order, classes, n, samples[i]) == Ok::<
                    RecordView,
                    ParseFailure,
                >(#[trigger] records[i])
            &&& forall|i: int| 0 <= i < samples.len() ==> (#[trigger] records[i]).word_ids.len() == n
        },
    decreases samples.len(),
{
    if samples.len() > 0 {
        let front = samples.drop_last();
        lemma_records_of(order, classes, n, front);
        assert forall|i: int| 0 <= i < front.len() implies front[i] == samples[i] by {}
        if records_of(order, classes, n, front) is Err {
            let i = choose|i: int|
                0 <= i < front.len() && !((#[trigger] label_id(classes, front[i].label)) is Ok);
            assert(label_id(classes, samples[i].label) is Err);
        }
    }
}

/// Samples that yield no records fail at the first sample whose label stands
/// for no number, for the reason why that label is no number.
pub proof fn lemma_records_failure(
    order: Seq<char>,
    classes: Map<Seq<char>, nat>,
    n: nat,
    samples: Seq<SampleView>,
)
    requires
        samples.len() <= usize::MAX,
    ensures
        records_of(order, classes, n, samples) matches Err(e) ==> {
            &&& e matches DatasetError::InvalidLabel { line, cause }
            &&& line < samples.len()
            &&& label_id(classes, samples[line as int].label) == Err::<nat, ParseFailure>(cause)
            &&& forall|i: int|
                0 <= i < line ==> (#[trigger] label_id(classes, samples[i].label)) is Ok
        },
    decreases samples.len(),
{
    if samples.len() > 0 {
        let front = samples.drop_last();
        lemma_records_failure(order, classes, n, front);
        lemma_records_of(order, classes, n, front);
        assert forall|i: int| 0 <= i < front.len() implies front[i] == samples[i] by {}
    }
}

/// A sequence of character ids of a set length, with the number of a class.
#[derive(Debug)]
pub struct ClassifierRecord {
    word_ids: Vec<usize>,
    label_id: usize,
}

impl View for ClassifierRecord {
    type V = RecordView;

    closed spec fn view(&self) -> RecordView {
        RecordView { word_ids: ids_view(self.word_ids@), label_id: self.label_id as nat }
    }
}

impl ClassifierRecord {
    /// The record of `word_ids`, brought to `length` entries, and `label_id`:
    /// a longer sequence loses what lies behind its first `length` entries, a
    /// shorter one is filled up with 0 at its end.
    pub fn new(word_ids: Vec<usize>, label_id: usize, length: usize) -> (r: Self)
        ensures
            r@ == (RecordView {
                word_ids: fit_to_length(ids_view(word_ids@), length as nat),
                label_id: label_id as nat,
            }),
            r@.word_ids.len() == length,
    {
        let ghost given = word_ids@;
        let mut word_ids = word_ids;
        if word_ids.len() > length {
            word_ids.truncate(length);
        }
        while word_ids.len() < length
            invariant
                word_ids@.len() <= length || given.len() > length,
                given.len() > length ==> word_ids@ == given.take(length as int),
                given.len() <= length ==> {
                    &&& given.len() <= word_ids@.len()
                    &&& word_ids@.take(given.len() as int) == given
                    &&& forall|i: int| given.len() <= i < word_ids@.len() ==> word_ids@[i] == 0
                },
            decreases length - word_ids@.len(),
        {
            word_ids.push(0);
        }
        proof {
            assert(ids_view(word_ids@) =~= fit_to_length(ids_view(given), length as nat));
        }
        ClassifierRecord { word_ids, label_id }
    }

    /// The character ids of the record.
    pub fn word_ids(&self) -> (r: &Vec<usize>)
        ensures
            ids_view(r@) == self@.word_ids,
    {
        &self.word_ids
    }

    /// The number of the record's class.
    pub fn label_id(&self) -> (r: usize)
        ensures
            r == self@.label_id,
    {
        self.label_id
    }
}

/// Turns a label into a number: the label's own value where it is an unsigned
/// decimal number, else its position in the class list.
pub fn resolve_label(label: &str, classes: &ClassIndex) -> (r: Result<usize, ParseFailure>)
    ensures
        match r {
            Ok(id) => label_id(classes@, label@) == Ok::<nat, ParseFailure>(id as nat),
            Err(cause) => label_id(classes@, label@) == Err::<nat, ParseFailure>(cause),
        },
        r is Err <==> parse_unsigned(label@, usize::MAX as nat) is Err && !classes@.contains_key(
            label@,
        ),
{
    match parse_usize(label) {
        Ok(value) => Ok(value),
        Err(cause) => match classes.get(label) {
            Some(position) => Ok(position),
            None => Err(cause),
        },
    }
}

/// Encodes one sample: its text as character ids, brought to `length`
/// entries, and its label as a number. Fails exactly where the label stands
/// for no number.
pub fn encode_sample(
    sample: &ClassifierSample,
    vocabulary: &Vocabulary,
    classes: &ClassIndex,
    length: usize,
) -> (r: Result<ClassifierRecord, ParseFailure>)
    ensures
        match r {
            Ok(record) => record_of(vocabulary@, classes@, length as nat, sample@) == Ok::<
                RecordView,
                ParseFailure,
            >(record@),
            Err(cause) => record_of(vocabulary@, classes@, length as nat, sample@) == Err::<
                RecordView,
                ParseFailure,
            >(cause),
        },
        r matches Ok(record) ==> record@.word_ids.len() == length,
{
    let word_ids = vocabulary.encode(sample.text());
    match resolve_label(sample.label(), classes) {
        Ok(id) => Ok(ClassifierRecord::new(word_ids, id, length)),
        Err(cause) => Err(cause),
    }
}

} // verus!
