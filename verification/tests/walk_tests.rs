use ci_web::status::{TestResult, TestStatus};
use ci_web::walk::{BranchWalk, CommitResults, MAX_UNTESTED_RUN};

fn commit(id: &str, tested: bool) -> CommitResults {
    let tests = if tested {
        vec![TestResult { name: "t".to_string(), status: TestStatus::Passed, duration: 1 }]
    } else {
        Vec::new()
    };
    CommitResults { id: id.to_string(), message: "m".to_string(), tests }
}

#[test]
fn walk_keeps_everything_without_long_gaps() {
    let mut w = BranchWalk::new();
    assert!(w.offer(commit("a", true)));
    assert!(w.offer(commit("b", false)));
    assert!(w.offer(commit("c", true)));
    let kept = w.finish();
    let ids: Vec<&str> = kept.iter().map(|c| c.id.as_str()).collect();
    assert_eq!(ids, vec!["a", "b", "c"]);
}

#[test]
fn walk_stops_at_the_101st_untested_commit() {
    let mut w = BranchWalk::new();
    assert!(w.offer(commit("head", true)));
    for i in 0..MAX_UNTESTED_RUN {
        assert!(w.offer(commit(&format!("u{}", i), false)));
    }
    assert!(!w.offer(commit("one-too-many", false)));
    // a stopped walk ignores later commits
    assert!(!w.offer(commit("later", true)));
    let kept = w.finish();
    // the untested tail is trimmed
    assert_eq!(kept.len(), 1);
    assert_eq!(kept[0].id, "head");
}

#[test]
fn a_tested_commit_resets_the_run() {
    let mut w = BranchWalk::new();
    for i in 0..MAX_UNTESTED_RUN {
        assert!(w.offer(commit(&format!("u{}", i), false)));
    }
    assert!(w.offer(commit("tested", true)));
    for i in 0..MAX_UNTESTED_RUN {
        assert!(w.offer(commit(&format!("v{}", i), false)));
    }
    let kept = w.finish();
    assert_eq!(kept.len(), MAX_UNTESTED_RUN + 1);
    assert_eq!(kept[MAX_UNTESTED_RUN].id, "tested");
}

#[test]
fn untested_only_history_lists_nothing() {
    let mut w = BranchWalk::new();
    for i in 0..5 {
        assert!(w.offer(commit(&format!("u{}", i), false)));
    }
    assert!(w.finish().is_empty());
}

#[test]
fn one_untested_commit_lists_nothing() {
    let mut w = BranchWalk::new();
    assert!(w.offer(commit("u", false)));
    assert!(w.finish().is_empty());
}

#[test]
fn listed_commits_are_a_prefix_of_the_walk() {
    let mut w = BranchWalk::new();
    let ids = ["a", "b", "c", "d"];
    let tested = [false, true, false, false];
    for (id, t) in ids.iter().zip(tested.iter()) {
        assert!(w.offer(commit(id, *t)));
    }
    let listed: Vec<String> = w.finish().into_iter().map(|c| c.id).collect();
    assert_eq!(listed, vec!["a", "b"]);
}
