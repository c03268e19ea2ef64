use color_sort::{sort_color_strings, sortable_value_by_option, stable_order, ParseError, SortOption, PRECISION_I32};

fn strings(v: &[&str]) -> Vec<String> {
    v.iter().map(|s| s.to_string()).collect()
}

#[test]
fn sorts_by_key() {
    let mut v = strings(&["c", "a", "b"]);
    let keys = vec![Ok((3, 0, 0)), Ok((1, 0, 0)), Ok((2, 0, 0))];
    assert_eq!(sort_color_strings(&mut v, &keys), Ok(()));
    assert_eq!(v, strings(&["a", "b", "c"]));
}

#[test]
fn sort_compares_keys_lexicographically() {
    let mut v = strings(&["x", "y", "z", "w"]);
    let keys = vec![Ok((1, 5, 0)), Ok((1, 2, 9)), Ok((0, 9, 9)), Ok((1, 2, 1))];
    assert_eq!(sort_color_strings(&mut v, &keys), Ok(()));
    assert_eq!(v, strings(&["z", "w", "y", "x"]));
}

#[test]
fn sort_is_stable() {
    let mut v = strings(&["first", "second", "low", "third"]);
    let keys = vec![Ok((5, 5, 5)), Ok((5, 5, 5)), Ok((-1, 0, 0)), Ok((5, 5, 5))];
    assert_eq!(sort_color_strings(&mut v, &keys), Ok(()));
    assert_eq!(v, strings(&["low", "first", "second", "third"]));
}

#[test]
fn sort_of_sorted_list_changes_nothing() {
    let mut v = strings(&["a", "b", "c"]);
    let keys = vec![Ok((1, 0, 0)), Ok((1, 0, 0)), Ok((2, 0, 0))];
    assert_eq!(sort_color_strings(&mut v, &keys), Ok(()));
    assert_eq!(v, strings(&["a", "b", "c"]));
}

#[test]
fn sort_reports_first_error_and_keeps_order() {
    let mut v = strings(&["b", "bad", "a", "worse"]);
    let keys = vec![Ok((2, 0, 0)), Err(ParseError::InvalidHex), Ok((1, 0, 0)), Err(ParseError::InvalidRgb)];
    assert_eq!(sort_color_strings(&mut v, &keys), Err(ParseError::InvalidHex));
    assert_eq!(v, strings(&["b", "bad", "a", "worse"]));
}

#[test]
fn sort_of_empty_list() {
    let mut v: Vec<String> = Vec::new();
    assert_eq!(sort_color_strings(&mut v, &[]), Ok(()));
    assert!(v.is_empty());
}

#[test]
fn stable_order_lists_positions() {
    assert_eq!(stable_order(&vec![(2, 0, 0), (1, 0, 0), (2, 0, 0), (0, 0, 0)]), vec![3, 1, 0, 2]);
}

#[test]
fn sort_keys_per_option() {
    assert_eq!(PRECISION_I32, 1000);
    assert_eq!(sortable_value_by_option(SortOption::Spectrum, 120000, 500, 1000), (120000, 500, 0));
    assert_eq!(sortable_value_by_option(SortOption::Luminance, 120000, 250, 1000), (750, 0, 0));
    assert_eq!(sortable_value_by_option(SortOption::Opacity, 120000, 250, 400), (600, 0, 0));
}
