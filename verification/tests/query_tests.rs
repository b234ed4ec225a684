use ci_web::query::{PageKind, QueryParams};

#[test]
fn empty_query_lists_branches() {
    let q = QueryParams::parse("");
    assert_eq!(q.test, "");
    assert_eq!(q.branch, None);
    assert_eq!(q.commit, None);
    assert_eq!(q.page(), PageKind::BranchList);
}

#[test]
fn branch_query_shows_log() {
    let q = QueryParams::parse("branch=bcachefs-testing&test=^xfs");
    assert_eq!(q.branch.as_deref(), Some("bcachefs-testing"));
    assert_eq!(q.test, "^xfs");
    assert_eq!(q.page(), PageKind::Log);
}

#[test]
fn commit_wins_over_branch() {
    let q = QueryParams::parse("branch=master&commit=0123456789abcdef");
    assert_eq!(q.commit.as_deref(), Some("0123456789abcdef"));
    assert_eq!(q.page(), PageKind::Commit);
}

#[test]
fn later_pair_overrides_earlier() {
    let q = QueryParams::parse("branch=a&branch=b&x=1");
    assert_eq!(q.branch.as_deref(), Some("b"));
}

#[test]
fn pieces_are_read_like_querify() {
    // a piece without '=' is skipped; only the text up to a second '=' is the value
    let q = QueryParams::parse("branch&commit=a=b&test=");
    assert_eq!(q.branch, None);
    assert_eq!(q.commit.as_deref(), Some("a"));
    assert_eq!(q.test, "");
    let q = QueryParams::parse("&&branch=x&");
    assert_eq!(q.branch.as_deref(), Some("x"));
}

#[test]
fn values_are_not_decoded() {
    let q = QueryParams::parse("branch=a%20b+c");
    assert_eq!(q.branch.as_deref(), Some("a%20b+c"));
}
