use chestlog::records::build_like_pattern;
use chestlog::records::group_rows;

#[test]
fn like_pattern_escapes_metacharacters() {
    assert_eq!(build_like_pattern("plain"), "plain%");
    assert_eq!(build_like_pattern(""), "%");
    assert_eq!(build_like_pattern("a%b_c\\"), "a\\%b\\_c\\\\%");
    assert_eq!(build_like_pattern("%%"), "\\%\\%%");
}

#[test]
fn groups_rows_by_key_in_first_seen_order() {
    let rows: Vec<(String, String)> = vec![
        ("a".into(), "1".into()),
        ("b".into(), "2".into()),
        ("a".into(), "3".into()),
        ("c".into(), "4".into()),
        ("b".into(), "5".into()),
    ];
    let grouped = group_rows(&rows);
    assert_eq!(
        grouped,
        vec![
            ("a".to_string(), vec!["1".to_string(), "3".to_string()]),
            ("b".to_string(), vec!["2".to_string(), "5".to_string()]),
            ("c".to_string(), vec!["4".to_string()]),
        ]
    );
}

#[test]
fn grouping_nothing_yields_nothing() {
    let rows: Vec<(String, String)> = Vec::new();
    assert!(group_rows(&rows).is_empty());
}
