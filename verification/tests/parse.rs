use dheap::parse::{list_pattern_verdict, nodes_from_text, parse_nodes};
use dheap::HeapError;

#[test]
fn parse_plain_list() {
    assert_eq!(parse_nodes("1,2,3"), Ok(vec![1, 2, 3]));
    assert_eq!(parse_nodes("42"), Ok(vec![42]));
    assert_eq!(parse_nodes("3,1,6,5,2,4"), Ok(vec![3, 1, 6, 5, 2, 4]));
}

#[test]
fn parse_leading_zeros_and_zero() {
    assert_eq!(parse_nodes("007,0,00"), Ok(vec![7, 0, 0]));
}

#[test]
fn parse_largest_key() {
    assert_eq!(parse_nodes("2147483647"), Ok(vec![i32::MAX]));
    assert_eq!(parse_nodes("5,02147483647"), Ok(vec![5, i32::MAX]));
}

#[test]
fn parse_refuses_numbers_that_do_not_fit() {
    assert_eq!(parse_nodes("2147483648"), Err(HeapError::ConstructionError));
    assert_eq!(parse_nodes("1,99999999999999999999,2"), Err(HeapError::ConstructionError));
}

#[test]
fn parse_refuses_malformed_lists() {
    for text in ["", ",", "1,", ",1", "1,,2", "1, 2", "1,2\n", " 1", "a", "-1", "+1", "1.5", "1;2", "\u{ff11}", "1,\u{663}"] {
        assert_eq!(parse_nodes(text), Err(HeapError::ConstructionError));
    }
}

#[test]
fn pattern_verdict_follows_the_pattern() {
    assert_eq!(list_pattern_verdict("1,2,3"), Some(true));
    assert_eq!(list_pattern_verdict("99999999999999999999"), Some(true));
    assert_eq!(list_pattern_verdict("1,,2"), Some(false));
    assert_eq!(list_pattern_verdict("1,2\n"), Some(false));
    assert_eq!(list_pattern_verdict(""), Some(false));
    assert_eq!(list_pattern_verdict("x1,2"), Some(false));
}

#[test]
fn nodes_from_text_needs_a_match() {
    assert_eq!(nodes_from_text("1,2", Some(true)), Ok(vec![1, 2]));
    assert_eq!(nodes_from_text("1,2", Some(false)), Err(HeapError::ConstructionError));
    assert_eq!(nodes_from_text("1,2", None), Err(HeapError::ConstructionError));
}

#[test]
fn nodes_from_text_checks_the_text_itself() {
    assert_eq!(nodes_from_text("1,,2", Some(true)), Err(HeapError::ConstructionError));
    assert_eq!(nodes_from_text("", Some(true)), Err(HeapError::ConstructionError));
    assert_eq!(nodes_from_text("12a", Some(true)), Err(HeapError::ConstructionError));
    assert_eq!(nodes_from_text("4294967296", Some(true)), Err(HeapError::ConstructionError));
}
