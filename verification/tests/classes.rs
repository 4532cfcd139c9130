use text_dataset::classes::ClassIndex;

fn names_of(items: &[&str]) -> Vec<String> {
    items.iter().map(|s| s.to_string()).collect()
}

#[test]
fn class_names_map_to_their_position() {
    let index = ClassIndex::new(names_of(&["finance", "sports", "science"]));
    assert_eq!(index.get("finance"), Some(0));
    assert_eq!(index.get("sports"), Some(1));
    assert_eq!(index.get("science"), Some(2));
    assert_eq!(index.len(), 3);
}

#[test]
fn an_unknown_name_has_no_position() {
    let index = ClassIndex::new(names_of(&["finance", "sports"]));
    assert_eq!(index.get("politics"), None);
    assert_eq!(index.get("Finance"), None);
    assert_eq!(index.get("finance "), None);
    assert_eq!(index.get(""), None);
}

#[test]
fn a_repeated_name_takes_its_last_position() {
    let index = ClassIndex::new(names_of(&["a", "b", "a", "c", "b"]));
    assert_eq!(index.get("a"), Some(2));
    assert_eq!(index.get("b"), Some(4));
    assert_eq!(index.get("c"), Some(3));
    assert_eq!(index.len(), 5);
}

#[test]
fn an_empty_class_list_holds_nothing() {
    let index = ClassIndex::new(Vec::new());
    assert_eq!(index.get("a"), None);
    assert_eq!(index.len(), 0);
}

#[test]
fn an_empty_line_is_a_class_name_too() {
    let index = ClassIndex::new(names_of(&["a", ""]));
    assert_eq!(index.get(""), Some(1));
}
