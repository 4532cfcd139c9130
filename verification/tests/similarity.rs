use text_dataset::config::DataConfig;
use text_dataset::error::{DatasetError, RecordError};
use text_dataset::number::ParseFailure;
use text_dataset::similarity::{SimilarityDataset, SimilaritySample};

fn pair_lines(items: &[&str]) -> Vec<String> {
    items.iter().map(|s| s.to_string()).collect()
}

#[test]
fn a_similarity_sample_keeps_its_parts() {
    let sample = SimilaritySample::new("a".to_string(), "b".to_string(), true);
    assert_eq!(sample.text_a(), "a");
    assert_eq!(sample.text_b(), "b");
    assert!(sample.similar());
}

#[test]
fn a_line_holds_two_texts_and_a_flag() {
    let sample = SimilaritySample::parse("how are you\thow do you do\t1").unwrap();
    assert_eq!(sample.text_a(), "how are you");
    assert_eq!(sample.text_b(), "how do you do");
    assert!(sample.similar());
    let sample = SimilaritySample::parse("x\ty\t0").unwrap();
    assert!(!sample.similar());
}

#[test]
fn any_tag_but_zero_counts_as_similar() {
    assert!(SimilaritySample::parse("x\ty\t2").unwrap().similar());
    assert!(SimilaritySample::parse("x\ty\t255").unwrap().similar());
    assert!(SimilaritySample::parse("x\ty\t+1").unwrap().similar());
    assert!(!SimilaritySample::parse("x\ty\t000").unwrap().similar());
}

#[test]
fn texts_may_be_empty() {
    let sample = SimilaritySample::parse("\t\t1").unwrap();
    assert_eq!(sample.text_a(), "");
    assert_eq!(sample.text_b(), "");
}

#[test]
fn fewer_than_two_tabs_is_malformed() {
    assert_eq!(SimilaritySample::parse("x\ty").err(), Some(RecordError::Malformed));
    assert_eq!(SimilaritySample::parse("x").err(), Some(RecordError::Malformed));
    assert_eq!(SimilaritySample::parse("").err(), Some(RecordError::Malformed));
}

#[test]
fn a_tag_that_is_no_small_number_is_refused() {
    assert_eq!(
        SimilaritySample::parse("x\ty\tyes").err(),
        Some(RecordError::InvalidLabel(ParseFailure::InvalidDigit))
    );
    assert_eq!(
        SimilaritySample::parse("x\ty\t").err(),
        Some(RecordError::InvalidLabel(ParseFailure::Empty))
    );
    assert_eq!(
        SimilaritySample::parse("x\ty\t256").err(),
        Some(RecordError::InvalidLabel(ParseFailure::Overflow))
    );
    assert_eq!(
        SimilaritySample::parse("x\ty\t1\t1").err(),
        Some(RecordError::InvalidLabel(ParseFailure::InvalidDigit))
    );
    assert_eq!(
        SimilaritySample::parse("x\ty\t1\n").err(),
        Some(RecordError::InvalidLabel(ParseFailure::InvalidDigit))
    );
}

#[test]
fn from_line_trims_the_end_of_the_line() {
    let sample = SimilaritySample::from_line("x\ty\t1\n").unwrap();
    assert_eq!(sample.text_a(), "x");
    assert_eq!(sample.text_b(), "y");
    assert!(sample.similar());
    assert_eq!(SimilaritySample::from_line("x\ty\t\n").err(), Some(RecordError::Malformed));
}

#[test]
fn from_lines_reads_one_pair_per_line() {
    let samples = SimilaritySample::from_lines(&pair_lines(&["a\tb\t1\n", "c\td\t0\n"])).unwrap();
    assert_eq!(samples.len(), 2);
    assert_eq!((samples[0].text_a(), samples[0].text_b(), samples[0].similar()), ("a", "b", true));
    assert_eq!((samples[1].text_a(), samples[1].text_b(), samples[1].similar()), ("c", "d", false));
}

#[test]
fn from_lines_reports_the_first_failing_line() {
    let result = SimilaritySample::from_lines(&pair_lines(&["a\tb\t1\n", "c\td\tx\n", "e\n"]));
    assert_eq!(
        result.err(),
        Some(DatasetError::InvalidLabel { line: 1, cause: ParseFailure::InvalidDigit })
    );
    let result = SimilaritySample::from_lines(&pair_lines(&["a\tb\t1\n", "e\tf\n", "c\td\tx\n"]));
    assert_eq!(result.err(), Some(DatasetError::MalformedRecord { line: 1 }));
}

#[test]
fn a_similarity_dataset_keeps_its_directory_and_configuration() {
    let dataset = SimilarityDataset::new("data/similarity");
    assert_eq!(dataset.path(), "data/similarity");
    assert_eq!(dataset.config().max_length(), 32);
    let config = DataConfig::new("u".to_string(), "p".to_string(), 5).unwrap();
    let dataset = SimilarityDataset::with_config("elsewhere", config);
    assert_eq!(dataset.path(), "elsewhere");
    assert_eq!(dataset.config().max_length(), 5);
    assert_eq!(dataset.config().unk(), "u");
}
