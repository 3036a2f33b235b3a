use chisel_json::paths::{JsonPath, JsonPathComponent};

#[test]
fn a_new_partial_path_should_be_partial() {
    let path = JsonPath::new_partial();
    assert!(path.is_partial())
}

#[test]
fn a_new_partial_path_should_have_an_empty_representation() {
    let path = JsonPath::new_partial();
    assert_eq!("".to_string(), path.as_string())
}

#[test]
fn a_new_partial_path_should_be_empty() {
    let path = JsonPath::new_partial();
    assert!(path.is_empty())
}

#[test]
fn a_new_rooted_path_should_not_be_partial() {
    let path = JsonPath::new();
    assert!(!path.is_partial())
}

#[test]
fn a_new_rooted_path_should_have_the_correct_representation() {
    let path = JsonPath::new();
    assert_eq!("$".to_string(), path.as_string())
}

#[test]
fn a_new_rooted_path_should_not_be_empty() {
    let path = JsonPath::new();
    assert!(!path.is_empty())
}

#[test]
fn simple_paths_should_have_correct_representations() {
    let mut path = JsonPath::new();
    path.push_str_selector("a");
    path.push_str_selector("b");
    path.push_str_selector("c");
    path.push_str_selector("d");
    assert_eq!(&path.as_string(), "$.['a'].['b'].['c'].['d']")
}

#[test]
fn complex_paths_should_have_correct_representations() {
    let mut path = JsonPath::new();
    path.push_str_selector("array");
    path.push_wildcard_selector();
    path.push_index_select(4);
    path.push_range_selector(6, 7);
    assert_eq!(path.as_string(), "$.['array'].[*].[4].[6..7]")
}

#[test]
fn popping_elements_should_correctly_alter_representation() {
    let mut path = JsonPath::new();
    path.push_str_selector("a");
    path.push_str_selector("b");
    path.push_str_selector("c");
    path.push_str_selector("d");
    path.pop();
    path.pop();
    assert_eq!(&path.as_string(), "$.['a'].['b']")
}

#[test]
fn array_paths_should_be_identified_as_such() {
    let mut path = JsonPath::new();
    path.push_str_selector("a");
    path.push_index_select(4);
    assert!(path.is_array_path())
}

#[test]
fn root_and_partial_paths_can_be_concatenated_correctly() {
    let root = JsonPath::new();
    let mut partial = JsonPath::new_partial();
    partial.push_str_selector("a");
    let combined = root.concat(partial);
    assert_eq!(combined.as_string(), "$.['a']")
}

#[test]
fn empty_paths_should_strictly_match() {
    let left = JsonPath::new();
    let right = JsonPath::new();
    assert!(left.matches_strict(&right))
}

#[test]
fn complex_paths_should_strictly_match() {
    let mut left = JsonPath::new();
    let mut right = JsonPath::new();
    left.push_str_selector("a");
    right.push_str_selector("a");
    left.push_index_select(6);
    right.push_index_select(6);
    left.push_range_selector(4, 5);
    right.push_range_selector(4, 5);
    assert!(left.matches_strict(&right));
    assert_eq!(left.as_string(), right.as_string())
}

#[test]
fn slightly_different_complex_paths_should_not_strictly_match() {
    let mut left = JsonPath::new();
    let mut right = JsonPath::new();
    left.push_str_selector("a");
    right.push_str_selector("a");
    left.push_index_select(6);
    right.push_index_select(6);
    left.push_range_selector(4, 5);
    right.push_range_selector(3, 5);
    assert!(!left.matches_strict(&right));
    assert_ne!(left.as_string(), right.as_string())
}

#[test]
fn partial_paths_should_match_strictly() {
    let mut left = JsonPath::new_partial();
    let mut right = JsonPath::new_partial();
    left.push_str_selector("a");
    right.push_str_selector("a");
    left.push_wildcard_selector();
    right.push_wildcard_selector();
    assert!(left.matches(&right));
    assert_eq!(left.as_string(), right.as_string())
}

#[test]
fn indexes_should_match_on_ranges() {
    let left = {
        let mut p = JsonPath::new();
        p.push_range_selector(0, 4);
        p
    };
    let right = {
        let mut p = JsonPath::new();
        p.push_index_select(3);
        p
    };
    assert!(left.matches(&right));
    assert!(right.matches(&left))
}

#[test]
fn indexes_should_not_match_outside_of_ranges() {
    let left = {
        let mut p = JsonPath::new();
        p.push_range_selector(0, 4);
        p
    };
    let right = {
        let mut p = JsonPath::new();
        p.push_index_select(6);
        p
    };
    assert!(!left.matches(&right));
    assert!(!right.matches(&left))
}

#[test]
fn should_correctly_return_the_head() {
    let mut path = JsonPath::new();
    let head = path.head();
    assert!(head.is_some())
}

#[test]
fn should_correctly_return_a_tail() {
    let mut path = JsonPath::new();
    path.push_str_selector("a");
    let tail = path.tail();
    assert!(tail.is_some());
    assert_eq!(tail.unwrap().len(), 1)
}

/// Simple example function for recursing a path
fn recurse_path(acc: &mut Vec<JsonPathComponent>, path: &mut JsonPath) {
    match path.head() {
        Some(component) => {
            acc.push(component);
            recurse_path(acc, path)
        }
        None => (),
    }
}

#[test]
fn should_be_able_to_recurse_over_paths() {
    let mut path = JsonPath::new();
    path.push_str_selector("a");
    path.push_str_selector("b");
    path.push_str_selector("c");
    path.push_str_selector("d");
    path.push_str_selector("e");
    assert_eq!(path.len(), 6);

    let mut acc = vec![];
    recurse_path(&mut acc, &mut path);
    assert_eq!(acc.len(), 6);
}

#[test]
fn tail_should_return_the_correct_elements() {
    let mut path = JsonPath::new();
    path.push_str_selector("a");
    path.push_str_selector("b");
    path.push_str_selector("c");
    path.push_str_selector("d");
    path.push_str_selector("e");
    let tail = path.tail().unwrap().tail().unwrap();
    assert_eq!(tail.len(), 4);
}

#[test]
fn recursing_over_paths_should_consume_original() {
    let mut path = JsonPath::new();
    path.push_str_selector("a");
    path.push_str_selector("b");
    path.push_str_selector("c");
    path.push_str_selector("d");
    path.push_str_selector("e");
    assert_eq!(path.len(), 6);
    let mut acc = vec![];
    recurse_path(&mut acc, &mut path);
    assert_eq!(path.len(), 0)
}
