use chart_relative::columns::{
    chart_height, largest_value, parse_u32, series, split_items, SeriesError,
};
use chart_relative::{ColumnsError, StdinColumns};

fn lines(v: &[&str]) -> Vec<String> {
    v.iter().map(|s| s.to_string()).collect()
}

#[test]
fn three_columns_are_read() {
    let cols = StdinColumns::from_lines(&lines(&["1 2 x", "3 4 y"])).unwrap();
    assert_eq!(cols.try_integers(0), Ok(vec![1, 3]));
    assert_eq!(cols.try_integers(1), Ok(vec![2, 4]));
    assert_eq!(cols.strings(2), vec!["x", "y"]);
    assert_eq!(cols.try_integers(2), Err(0));
}

#[test]
fn labels_in_second_column() {
    let cols = StdinColumns::from_lines(&lines(&["5 five", "6 six"])).unwrap();
    assert_eq!(cols.try_integers(0), Ok(vec![5, 6]));
    assert_eq!(cols.try_integers(1), Err(0));
    assert_eq!(cols.strings(1), vec!["five", "six"]);
    assert!(cols.strings(2).is_empty());
}

#[test]
fn too_many_items_are_refused() {
    let r = StdinColumns::from_lines(&lines(&["1 2 3 4", "5"]));
    assert!(matches!(
        r,
        Err(ColumnsError::TooManyItems { line: 0, count: 4 })
    ));
}

#[test]
fn item_count_must_match_first_line() {
    let r = StdinColumns::from_lines(&lines(&["1 2", "3 4", "5"]));
    assert!(matches!(
        r,
        Err(ColumnsError::ItemCountMismatch {
            line: 2,
            expected: 2
        })
    ));
}

#[test]
fn only_first_hundred_lines_are_read() {
    let mut input: Vec<String> = (0..150).map(|i| i.to_string()).collect();
    input[120] = "1 2 3 4 5".to_string();
    let cols = StdinColumns::from_lines(&input).unwrap();
    let ints = cols.try_integers(0).unwrap();
    assert_eq!(ints.len(), 100);
    assert_eq!(ints[99], 99);
}

#[test]
fn items_are_trimmed() {
    let items = split_items("7\r");
    assert_eq!(items, vec!["7".to_string()]);
    let items = split_items("a\tb c");
    assert_eq!(items, vec!["a\tb".to_string(), "c".to_string()]);
    let items = split_items("1  2");
    assert_eq!(
        items,
        vec!["1".to_string(), "".to_string(), "2".to_string()]
    );
}

#[test]
fn integers_are_parsed() {
    assert_eq!(parse_u32("0"), Some(0));
    assert_eq!(parse_u32("+17"), Some(17));
    assert_eq!(parse_u32("4294967295"), Some(4294967295));
    assert_eq!(parse_u32("4294967296"), None);
    assert_eq!(parse_u32(""), None);
    assert_eq!(parse_u32("+"), None);
    assert_eq!(parse_u32("-1"), None);
    assert_eq!(parse_u32("1x"), None);
}

#[test]
fn height_is_clamped() {
    assert_eq!(chart_height(1000, None), 16);
    assert_eq!(chart_height(5, None), 5);
    assert_eq!(chart_height(1000, Some(30)), 30);
    assert_eq!(chart_height(0, Some(30)), 1);
}

#[test]
fn series_with_comparison_and_labels() {
    let cols = StdinColumns::from_lines(&lines(&["1 2 a", "3 4 b"])).unwrap();
    let s = series(&cols).unwrap();
    assert_eq!(s.data, vec![1, 3]);
    assert_eq!(s.compare, vec![2, 4]);
    assert_eq!(s.labels, vec!["a", "b"]);
}

#[test]
fn series_with_labels_only() {
    let cols = StdinColumns::from_lines(&lines(&["1 a", "3 b"])).unwrap();
    let s = series(&cols).unwrap();
    assert_eq!(s.data, vec![1, 3]);
    assert!(s.compare.is_empty());
    assert_eq!(s.labels, vec!["a", "b"]);
}

#[test]
fn series_errors() {
    let cols = StdinColumns::from_lines(&lines(&["x 1"])).unwrap();
    assert!(matches!(series(&cols), Err(SeriesError::NotIntegers)));
    let cols = StdinColumns::from_lines(&lines(&["1 a b"])).unwrap();
    assert!(matches!(
        series(&cols),
        Err(SeriesError::LabelsBeforeThirdColumn)
    ));
}

#[test]
fn largest_value_of_both_series() {
    assert_eq!(largest_value(&vec![3, 9, 2], &vec![4, 12]), 12);
    assert_eq!(largest_value(&vec![3, 9, 2], &vec![]), 9);
    assert_eq!(largest_value(&vec![0], &vec![]), 0);
}

#[test]
fn padded_integers_are_read() {
    let cols = StdinColumns::from_lines(&lines(&["\u{a0}5\t", "6\r"])).unwrap();
    assert_eq!(cols.try_integers(0), Ok(vec![5, 6]));
}
