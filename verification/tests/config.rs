use text_dataset::config::{DataConfig, VocabularySource};
use text_dataset::error::{DatasetError, RecordError};
use text_dataset::number::ParseFailure;

#[test]
fn a_configuration_keeps_its_tokens_and_length() {
    let config = DataConfig::new("[unk]".to_string(), "[pad]".to_string(), 16).unwrap();
    assert_eq!(config.unk(), "[unk]");
    assert_eq!(config.pad(), "[pad]");
    assert_eq!(config.max_length(), 16);
    assert!(matches!(config.vocab_source(), VocabularySource::Empty));
}

#[test]
fn a_length_of_zero_is_refused() {
    assert!(DataConfig::new("<UNK>".to_string(), "<PAD>".to_string(), 0).is_none());
    assert!(DataConfig::new("<UNK>".to_string(), "<PAD>".to_string(), 1).is_some());
    assert!(DataConfig::new(String::new(), String::new(), usize::MAX).is_some());
}

#[test]
fn the_default_configuration() {
    let config = DataConfig::default();
    assert_eq!(config.unk(), "<UNK>");
    assert_eq!(config.pad(), "<PAD>");
    assert_eq!(config.max_length(), 32);
    assert!(matches!(config.vocab_source(), VocabularySource::Empty));
}

#[test]
fn a_line_failure_takes_the_position_of_its_line() {
    assert_eq!(RecordError::Malformed.locate(4), DatasetError::MalformedRecord { line: 4 });
    assert_eq!(
        RecordError::InvalidLabel(ParseFailure::Overflow).locate(0),
        DatasetError::InvalidLabel { line: 0, cause: ParseFailure::Overflow }
    );
}
