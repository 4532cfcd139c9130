use text_dataset::error::DatasetError;
use text_dataset::sample::ClassifierSample;

fn raw_lines(items: &[&str]) -> Vec<String> {
    items.iter().map(|s| s.to_string()).collect()
}

#[test]
fn a_sample_keeps_its_text_and_label() {
    let sample = ClassifierSample::new("some text".to_string(), "7".to_string());
    assert_eq!(sample.text(), "some text");
    assert_eq!(sample.label(), "7");
}

#[test]
fn parse_cuts_at_the_first_tab() {
    let sample = ClassifierSample::parse("ab\tc").unwrap();
    assert_eq!(sample.text(), "ab");
    assert_eq!(sample.label(), "c");
    let sample = ClassifierSample::parse("a\tb\tc").unwrap();
    assert_eq!(sample.text(), "a");
    assert_eq!(sample.label(), "b\tc");
}

#[test]
fn parse_takes_the_fields_as_they_stand() {
    let sample = ClassifierSample::parse(" a b \t 3 \n").unwrap();
    assert_eq!(sample.text(), " a b ");
    assert_eq!(sample.label(), " 3 \n");
    let sample = ClassifierSample::parse("\t").unwrap();
    assert_eq!(sample.text(), "");
    assert_eq!(sample.label(), "");
}

#[test]
fn parse_without_a_tab_yields_nothing() {
    assert!(ClassifierSample::parse("no tab").is_none());
    assert!(ClassifierSample::parse("").is_none());
}

#[test]
fn from_line_trims_the_end_of_the_line_first() {
    let sample = ClassifierSample::from_line("ab\tc\n").unwrap();
    assert_eq!(sample.text(), "ab");
    assert_eq!(sample.label(), "c");
    let sample = ClassifierSample::from_line("  ab \t 3 \r\n").unwrap();
    assert_eq!(sample.text(), "  ab ");
    assert_eq!(sample.label(), " 3");
}

#[test]
fn from_line_loses_a_tab_at_the_end_of_the_line() {
    // The tab is whitespace at the end of the line, so trimming removes it.
    assert!(ClassifierSample::from_line("ab\t\n").is_none());
    assert!(ClassifierSample::from_line("\n").is_none());
    assert!(ClassifierSample::from_line("").is_none());
    let sample = ClassifierSample::from_line("\tc\n").unwrap();
    assert_eq!(sample.text(), "");
    assert_eq!(sample.label(), "c");
}

#[test]
fn from_lines_reads_one_sample_per_line() {
    let samples = ClassifierSample::from_lines(&raw_lines(&["ab\tc\n", "ba\td\n", "体育\t3"])).unwrap();
    assert_eq!(samples.len(), 3);
    assert_eq!(samples[0].text(), "ab");
    assert_eq!(samples[0].label(), "c");
    assert_eq!(samples[1].text(), "ba");
    assert_eq!(samples[1].label(), "d");
    assert_eq!(samples[2].text(), "体育");
    assert_eq!(samples[2].label(), "3");
}

#[test]
fn from_lines_of_nothing_is_empty() {
    assert!(ClassifierSample::from_lines(&Vec::new()).unwrap().is_empty());
}

#[test]
fn from_lines_reports_the_first_line_without_a_tab() {
    let result = ClassifierSample::from_lines(&raw_lines(&["a\t1\n", "b 2\n", "c\t3\n", "d 4\n"]));
    assert_eq!(result.err(), Some(DatasetError::MalformedRecord { line: 1 }));
    let result = ClassifierSample::from_lines(&raw_lines(&["a\t1\n", "\n"]));
    assert_eq!(result.err(), Some(DatasetError::MalformedRecord { line: 1 }));
    let result = ClassifierSample::from_lines(&raw_lines(&["a"]));
    assert_eq!(result.err(), Some(DatasetError::MalformedRecord { line: 0 }));
}
