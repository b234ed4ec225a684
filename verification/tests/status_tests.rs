use ci_web::status::{parse_usize, test_result_from, TestStatus};

#[test]
fn empty_status_is_in_progress() {
    assert_eq!(TestStatus::from_str(""), TestStatus::InProgress);
}

#[test]
fn status_markers() {
    assert_eq!(TestStatus::from_str("IN PROGRESS"), TestStatus::InProgress);
    assert_eq!(TestStatus::from_str("TEST PASSED\n"), TestStatus::Passed);
    assert_eq!(TestStatus::from_str("TEST FAILED\n"), TestStatus::Failed);
    assert_eq!(TestStatus::from_str("NOTRUN"), TestStatus::NotRun);
    assert_eq!(TestStatus::from_str("NOT STARTED"), TestStatus::NotStarted);
    assert_eq!(TestStatus::from_str("something else"), TestStatus::Unknown);
}

#[test]
fn first_marker_in_order_of_checks_wins() {
    // "IN PROGRESS" is checked before "PASSED", whatever their position.
    assert_eq!(TestStatus::from_str("PASSED IN PROGRESS"), TestStatus::InProgress);
    assert_eq!(TestStatus::from_str("FAILED then PASSED"), TestStatus::Passed);
    // markers are case sensitive
    assert_eq!(TestStatus::from_str("passed"), TestStatus::Unknown);
    // a single space is not empty
    assert_eq!(TestStatus::from_str(" "), TestStatus::Unknown);
}

#[test]
fn labels() {
    assert_eq!(TestStatus::InProgress.to_str(), "In progress");
    assert_eq!(TestStatus::Passed.to_str(), "Passed");
    assert_eq!(TestStatus::Failed.to_str(), "Failed");
    assert_eq!(TestStatus::NotRun.to_str(), "Not run");
    assert_eq!(TestStatus::NotStarted.to_str(), "Not started");
    assert_eq!(TestStatus::Unknown.to_str(), "Unknown");
}

#[test]
fn table_classes() {
    assert_eq!(TestStatus::Passed.table_class(), "table-success");
    assert_eq!(TestStatus::Failed.table_class(), "table-danger");
    assert_eq!(TestStatus::InProgress.table_class(), "table-secondary");
    assert_eq!(TestStatus::NotRun.table_class(), "table-secondary");
    assert_eq!(TestStatus::NotStarted.table_class(), "table-secondary");
    assert_eq!(TestStatus::Unknown.table_class(), "table-secondary");
}

#[test]
fn parse_usize_accepts_what_std_accepts() {
    let cases = ["", "+", "-", "-5", "5", "+5", "007", "12\n", " 12", "1_000", "18446744073709551615",
        "18446744073709551616", "99999999999999999999999", "٣"];
    for c in cases.iter() {
        assert_eq!(parse_usize(c), c.parse::<usize>().ok(), "input {:?}", c);
    }
}

#[test]
fn parse_usize_values() {
    assert_eq!(parse_usize("42"), Some(42));
    assert_eq!(parse_usize("+42"), Some(42));
    assert_eq!(parse_usize("0"), Some(0));
    assert_eq!(parse_usize("42\n"), None);
    assert_eq!(parse_usize(""), None);
    assert_eq!(parse_usize("4a"), None);
}

#[test]
fn result_needs_a_status_file() {
    assert!(test_result_from("t".to_string(), None, Some("3".to_string())).is_none());
}

#[test]
fn result_from_files() {
    let r = test_result_from("xfstests".to_string(), Some("TEST PASSED".to_string()), Some("+17".to_string())).unwrap();
    assert_eq!(r.name, "xfstests");
    assert_eq!(r.status, TestStatus::Passed);
    assert_eq!(r.duration, 17);
}

#[test]
fn unreadable_or_bad_duration_is_zero() {
    let r = test_result_from("a".to_string(), Some(String::new()), None).unwrap();
    assert_eq!(r.status, TestStatus::InProgress);
    assert_eq!(r.duration, 0);
    let r = test_result_from("a".to_string(), Some("FAILED".to_string()), Some("12\n".to_string())).unwrap();
    assert_eq!(r.status, TestStatus::Failed);
    assert_eq!(r.duration, 0);
}

#[test]
fn white_space_around_status_does_not_matter() {
    let texts = ["TEST PASSED\n", "\n\tFAILED  ", " NOTRUN\r\n", "\u{3000}NOT STARTED", "IN PROGRESS\n", "odd\n"];
    for t in texts.iter() {
        assert!(!t.trim().is_empty());
        assert_eq!(TestStatus::from_str(t), TestStatus::from_str(t.trim()), "{:?}", t);
    }
    // all white space: the trimmed text is empty, which reads as in progress
    assert_eq!(TestStatus::from_str("\n"), TestStatus::Unknown);
    assert_eq!(TestStatus::from_str("\n".trim()), TestStatus::InProgress);
}
