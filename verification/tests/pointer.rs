use chisel_json::pointer::JsonPointer;

#[test]
fn an_empty_pointer_should_be_represented_by_an_empty_string() {
    let s = JsonPointer::default().as_str();
    assert_eq!(s, "")
}

#[test]
fn pointers_should_serialise_correctly() {
    let mut s = JsonPointer::default();
    s.push_names(&vec!["a", "b"]);
    assert_eq!("/a/b", s.as_str())
}

#[test]
fn pointers_should_serialise_with_escapes_correctly() {
    let mut s = JsonPointer::default();
    s.push_names(&vec!["a/b", "c~d"]);
    s.push_index(3);
    assert_eq!("/a~1b/c~0d/3", s.as_str())
}

#[test]
fn popping_should_shorten_pointers_correctly() {
    let mut s = JsonPointer::default();
    s.push_names(&vec!["a", "b", "c"]);
    assert_eq!("/a/b/c", s.as_str());
    s.pop();
    assert_eq!("/a/b", s.as_str())
}

#[test]
fn popping_all_components_should_result_in_empty_pointer() {
    let mut s = JsonPointer::default();
    s.push_names(&vec!["a", "b", "c"]);
    s.pop();
    s.pop();
    s.pop();
    assert_eq!("", s.as_str())
}

#[test]
fn pointers_should_serialise_indices_correctly() {
    let mut s = JsonPointer::default();
    s.push_index(0);
    s.push_index(3);
    s.push_index(2);
    assert_eq!("/0/3/2", s.as_str())
}

#[test]
fn pointers_should_match() {
    let mut s = JsonPointer::default();
    let mut t = JsonPointer::default();
    s.push_name("b".to_string());
    s.push_index(9);
    t.push_name("b".to_string());
    t.push_index(9);
    assert!(s.matches(&t))
}

#[test]
fn quotes_are_stripped_from_serialised_names() {
    let mut s = JsonPointer::default();
    s.push_name("\"a\"".to_string());
    assert_eq!("/a", s.as_str())
}

#[test]
fn pointer_length_counts_the_root_sentinel() {
    let mut s = JsonPointer::default();
    assert!(s.is_empty());
    assert_eq!(s.len(), 0);
    s.push_name("a".to_string());
    assert!(!s.is_empty());
    assert_eq!(s.len(), 2);
}
