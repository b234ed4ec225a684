use ci_web::filter::{commit_results, TestDir, TestFilter};
use ci_web::status::TestStatus;

fn dir(name: &str, status: Option<&str>, duration: Option<&str>) -> TestDir {
    TestDir {
        name: name.to_string(),
        status: status.map(|s| s.to_string()),
        duration: duration.map(|s| s.to_string()),
    }
}

#[test]
fn invalid_pattern_is_refused() {
    assert!(TestFilter::new("(").is_none());
    assert!(TestFilter::new("^xfs").is_some());
}

#[test]
fn filter_matches_like_regex() {
    let f = TestFilter::new("^xfs.*generic$").unwrap();
    assert!(f.matches("xfs.generic"));
    assert!(!f.matches("bcachefs.xfs.generic"));
    let f = TestFilter::new("").unwrap();
    assert!(f.matches(""));
    assert!(f.matches("anything"));
}

#[test]
fn invalid_query_pattern_matches_everything() {
    let f = TestFilter::from_query("[");
    assert!(f.matches("anything"));
    assert!(f.matches(""));
    let f = TestFilter::from_query("single");
    assert!(f.matches("tests.single_device"));
    assert!(!f.matches("tests.multi"));
}

#[test]
fn results_are_filtered_and_sorted() {
    let dirs = vec![
        dir("zeta", Some("PASSED"), Some("5")),
        dir("alpha", Some("FAILED"), None),
        dir("beta", None, Some("1")),
        dir("gamma-skip", Some("PASSED"), Some("2")),
        dir("Beta", Some(""), Some("x")),
    ];
    let f = TestFilter::new("^[^g]").unwrap();
    let res = commit_results(&dirs, &f);
    let names: Vec<&str> = res.iter().map(|r| r.name.as_str()).collect();
    assert_eq!(names, vec!["Beta", "alpha", "zeta"]);
    assert_eq!(res[0].status, TestStatus::InProgress);
    assert_eq!(res[0].duration, 0);
    assert_eq!(res[1].status, TestStatus::Failed);
    assert_eq!(res[2].status, TestStatus::Passed);
    assert_eq!(res[2].duration, 5);
}

#[test]
fn no_dirs_no_results() {
    let f = TestFilter::from_query("");
    assert!(commit_results(&Vec::new(), &f).is_empty());
}

#[test]
fn a_narrower_filter_only_removes_results() {
    let dirs = vec![
        dir("xfs.generic", Some("PASSED"), Some("5")),
        dir("btrfs.a", Some("FAILED"), None),
        dir("xfs.a", Some("PASSED"), Some("1")),
        dir("xfs.b", None, Some("1")),
        dir("ext4", Some("NOTRUN"), Some("2")),
    ];
    let all = commit_results(&dirs, &TestFilter::from_query(""));
    let some = commit_results(&dirs, &TestFilter::from_query("^xfs"));
    let kept: Vec<String> = all.iter().filter(|r| r.name.starts_with("xfs")).map(|r| r.name.clone()).collect();
    let got: Vec<String> = some.iter().map(|r| r.name.clone()).collect();
    assert_eq!(got, kept);
    assert_eq!(got, vec!["xfs.a", "xfs.generic"]);
}
