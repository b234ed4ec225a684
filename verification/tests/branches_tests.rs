use ci_web::branches::branches_to_test;

#[test]
fn first_words_sorted_without_repeats() {
    let lines: Vec<String> = vec![
        "master fstests".to_string(),
        "".to_string(),
        "   ".to_string(),
        "bcachefs-testing\ttests/a.ktest".to_string(),
        "  master other".to_string(),
        "alpha".to_string(),
    ];
    assert_eq!(branches_to_test(&lines), vec!["alpha", "bcachefs-testing", "master"]);
}

#[test]
fn matches_hash_set_then_sort() {
    let lines: Vec<String> = ["b x", "a", "B", "b", "\u{e9}t\u{e9}", "a y", "Z"]
        .iter()
        .map(|s| s.to_string())
        .collect();
    let set: std::collections::HashSet<String> =
        lines.iter().filter_map(|l| l.split_whitespace().next().map(String::from)).collect();
    let mut expect: Vec<String> = set.into_iter().collect();
    expect.sort();
    assert_eq!(branches_to_test(&lines), expect);
}

#[test]
fn no_lines_no_branches() {
    assert!(branches_to_test(&Vec::new()).is_empty());
}
