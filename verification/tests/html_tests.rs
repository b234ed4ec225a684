use ci_web::html::{count_with_status, render_branch_list, render_commit, render_log, sum_durations};
use ci_web::status::{TestResult, TestStatus};
use ci_web::walk::CommitResults;

fn line(out: &mut String, s: &str) {
    out.push_str(s);
    out.push('\n');
}

fn result(name: &str, status: TestStatus, duration: usize) -> TestResult {
    TestResult { name: name.to_string(), status, duration }
}

fn commit(id: &str, message: &str, tests: Vec<TestResult>) -> CommitResults {
    CommitResults { id: id.to_string(), message: message.to_string(), tests }
}

/// The log page written line by line with `format!`.
fn expected_log(branch: &str, stylesheet: &str, script_name: &str, commits: &[CommitResults]) -> String {
    let mut out = String::new();
    let multiple = commits.iter().any(|r| r.tests.len() > 1);
    line(&mut out, &format!("<!DOCTYPE HTML>"));
    line(&mut out, &format!("<html><head><title>{}</title></head>", branch));
    line(&mut out, &format!("<link href=\"{}\" rel=\"stylesheet\">", stylesheet));
    line(&mut out, &format!("<body>"));
    line(&mut out, &format!("<div class=\"container\">"));
    line(&mut out, &format!("<table class=\"table\">"));
    if multiple {
        line(&mut out, &format!("<tr>"));
        for h in ["Commit      ", "Description ", "Passed      ", "Failed      ", "Not started ",
            "Not run     ", "In progress ", "Unknown     ", "Total       ", "Duration    "].iter() {
            line(&mut out, &format!("<th> {}</th>", h));
        }
        line(&mut out, &format!("</tr>"));
    } else {
        line(&mut out, &format!("<tr>"));
        for h in ["Commit      ", "Description ", "Status      ", "Duration    "].iter() {
            line(&mut out, &format!("<th> {}</th>", h));
        }
        line(&mut out, &format!("</tr>"));
    }
    let mut nr_empty = 0;
    for r in commits {
        if r.tests.is_empty() {
            nr_empty += 1;
            continue;
        }
        if nr_empty != 0 {
            line(&mut out, &format!("<tr> <td> ({} untested commits) </td> </tr>", nr_empty));
            nr_empty = 0;
        }
        let subject_len = r.message.find('\n').unwrap_or(r.message.len());
        let link = format!("<td> <a href=\"{}?branch={}&commit={}\">{}</a> </td>", script_name, branch, r.id, &r.id[..14]);
        if multiple {
            let count = |t: TestStatus| r.tests.iter().filter(|x| x.status == t).count();
            let duration: usize = r.tests.iter().map(|x| x.duration).sum();
            line(&mut out, &format!("<tr>"));
            line(&mut out, &format!("{}", link));
            line(&mut out, &format!("<td> {} </td>", &r.message[..subject_len]));
            for t in [TestStatus::Passed, TestStatus::Failed, TestStatus::NotStarted, TestStatus::NotRun,
                TestStatus::InProgress, TestStatus::Unknown].iter() {
                line(&mut out, &format!("<td> {} </td>", count(*t)));
            }
            line(&mut out, &format!("<td> {} </td>", r.tests.len()));
            line(&mut out, &format!("<td> {}s </td>", duration));
            line(&mut out, &format!("</tr>"));
        } else {
            let t = &r.tests[0];
            line(&mut out, &format!("<tr class={}>", t.status.table_class()));
            line(&mut out, &format!("{}", link));
            line(&mut out, &format!("<td> {} </td>", &r.message[..subject_len]));
            line(&mut out, &format!("<td> {} </td>", t.status.to_str()));
            line(&mut out, &format!("<td> {}s </td>", t.duration));
            line(&mut out, &format!("<td> <a href=c/{}/{}/log.br>        log                 </a> </td>", &r.id, t.name));
            line(&mut out, &format!("<td> <a href=c/{}/{}/full_log.br>   full log            </a> </td>", &r.id, t.name));
            line(&mut out, &format!("<td> <a href=c/{}/{}>\t\t        output directory    </a> </td>", &r.id, t.name));
            line(&mut out, &format!("</tr>"));
        }
    }
    line(&mut out, &format!("</table>"));
    line(&mut out, &format!("</div>"));
    line(&mut out, &format!("</body>"));
    line(&mut out, &format!("</html>"));
    out
}

const ID1: &str = "0123456789abcdef0123456789abcdef01234567";
const ID2: &str = "fedcba9876543210fedcba9876543210fedcba98";
const ID3: &str = "00000000001111111111222222222233333333334";

#[test]
fn single_test_log() {
    let commits = vec![
        commit(ID1, "fix things\n\nlong body", vec![result("all", TestStatus::Passed, 120)]),
        commit("untested-1", "x", vec![]),
        commit("untested-2", "y", vec![]),
        commit(ID2, "older", vec![result("all", TestStatus::Failed, 7)]),
        commit("untested-3", "z", vec![]),
    ];
    let page = render_log("master", "bootstrap.min.css", "/cgi-bin/ci", &commits);
    assert_eq!(page, expected_log("master", "bootstrap.min.css", "/cgi-bin/ci", &commits));
    assert!(page.contains("<tr> <td> (2 untested commits) </td> </tr>\n"));
    assert!(page.contains("<tr class=table-danger>\n"));
    assert!(page.contains(">0123456789abcd</a>"));
    assert!(!page.contains("(1 untested commits)"));
}

#[test]
fn multiple_test_log() {
    let commits = vec![
        commit("untested-0", "x", vec![]),
        commit(ID1, "subject", vec![
            result("a", TestStatus::Passed, 10),
            result("b", TestStatus::Failed, 20),
            result("c", TestStatus::Unknown, 5),
            result("d", TestStatus::Passed, 0),
        ]),
        commit(ID3, "one\r\ntwo", vec![result("a", TestStatus::InProgress, 3)]),
    ];
    let page = render_log("b", "s.css", "ci", &commits);
    assert_eq!(page, expected_log("b", "s.css", "ci", &commits));
    assert!(page.contains("<td> 35s </td>\n"));
    assert!(page.contains("<td> 4 </td>\n"));
    assert!(page.contains("<tr> <td> (1 untested commits) </td> </tr>\n"));
}

#[test]
fn empty_log() {
    let page = render_log("b", "s.css", "ci", &Vec::new());
    assert_eq!(page, expected_log("b", "s.css", "ci", &[]));
}

#[test]
fn status_counts_add_up() {
    let tests = vec![
        result("a", TestStatus::Passed, 1),
        result("b", TestStatus::Passed, 2),
        result("c", TestStatus::NotRun, 3),
        result("d", TestStatus::NotStarted, 4),
    ];
    assert_eq!(count_with_status(&tests, TestStatus::Passed), 2);
    assert_eq!(count_with_status(&tests, TestStatus::NotRun), 1);
    assert_eq!(count_with_status(&tests, TestStatus::Failed), 0);
    let all: usize = [TestStatus::Passed, TestStatus::Failed, TestStatus::NotStarted, TestStatus::NotRun,
        TestStatus::InProgress, TestStatus::Unknown].iter().map(|s| count_with_status(&tests, *s)).sum();
    assert_eq!(all, tests.len());
    assert_eq!(sum_durations(&tests), 10);
}

fn expected_commit(commit_id: &str, message: &str, stylesheet: &str, filter: &str,
    results: &[TestResult], branch: Option<&str>, script_name: &str) -> String {
    let mut out = String::new();
    let subject_len = message.find('\n').unwrap_or(message.len());
    line(&mut out, &format!("<!DOCTYPE HTML>"));
    line(&mut out, &format!("<html><head><title>{}</title></head>", &message[..subject_len]));
    line(&mut out, &format!("<link href=\"{}\" rel=\"stylesheet\">", stylesheet));
    line(&mut out, &format!("<body>"));
    line(&mut out, &format!("<div class=\"container\">"));
    line(&mut out, &format!("<h3><th>{}</th></h3>", &message[..subject_len]));
    out.push_str(filter);
    line(&mut out, &format!("<table class=\"table\">"));
    for result in results {
        line(&mut out, &format!("<tr class={}>", result.status.table_class()));
        line(&mut out, &format!("<td> {} </td>", result.name));
        line(&mut out, &format!("<td> {} </td>", result.status.to_str()));
        line(&mut out, &format!("<td> {}s </td>", result.duration));
        line(&mut out, &format!("<td> <a href=c/{}/{}/log.br>        log                 </a> </td>", commit_id, result.name));
        line(&mut out, &format!("<td> <a href=c/{}/{}/full_log.br>   full log            </a> </td>", commit_id, result.name));
        line(&mut out, &format!("<td> <a href=c/{}/{}>\t\t        output directory    </a> </td>", commit_id, result.name));
        if let Some(branch) = branch {
            line(&mut out, &format!("<td> <a href={}?branch={}&test=^{}$> git log        </a> </td>", script_name, branch, result.name));
        }
        line(&mut out, &format!("</tr>"));
    }
    line(&mut out, &format!("</table>"));
    line(&mut out, &format!("</div>"));
    line(&mut out, &format!("</body>"));
    line(&mut out, &format!("</html>"));
    out
}

#[test]
fn commit_page_with_branch() {
    let results = vec![result("fs.a", TestStatus::Passed, 12), result("fs.b", TestStatus::NotRun, 0)];
    let branch = Some("master".to_string());
    let page = render_commit("abc", "subject\nbody", "s.css", "<form>filter</form>\n", &results, &branch, "/ci");
    assert_eq!(page, expected_commit("abc", "subject\nbody", "s.css", "<form>filter</form>\n", &results, Some("master"), "/ci"));
    assert!(page.contains("<td> <a href=/ci?branch=master&test=^fs.a$> git log        </a> </td>\n"));
}

#[test]
fn commit_page_without_branch() {
    let results = vec![result("x", TestStatus::Failed, 3)];
    let page = render_commit("abc", "only subject", "s.css", "", &results, &None, "/ci");
    assert_eq!(page, expected_commit("abc", "only subject", "s.css", "", &results, None, "/ci"));
    assert!(!page.contains("git log"));
}

#[test]
fn branch_list_page() {
    let branches = vec!["alpha".to_string(), "master".to_string()];
    let page = render_branch_list("s.css", "/ci", &branches);
    let expected = "<!DOCTYPE HTML>\n<html><head><title>CI branch list</title></head>\n\
<link href=\"s.css\" rel=\"stylesheet\">\n<body>\n<table class=\"table\">\n\
<tr> <th> <a href=/ci?branch=alpha>alpha</a> </th> </tr>\n\
<tr> <th> <a href=/ci?branch=master>master</a> </th> </tr>\n\
</table>\n</div>\n</body>\n</html>\n";
    assert_eq!(page, expected);
}
