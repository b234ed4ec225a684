//! The HTML pages: the list of branches, the log of a branch and the
//! results of one commit.
use vstd::prelude::*;
use crate::status::{TestResult, TestStatus};
use crate::walk::{untested, CommitResults};
use vstd::string::StringSliceAdditionalSpecFns;
use vstd::utf8::{decode_utf8, encode_utf8, is_char_boundary};
use crate::text::{decimal, first_line, lemma_concat_regroup, push_decimal, push_first_line, push_str};

verus! {

broadcast use lemma_concat_regroup;

/// The opening of every page, up to and including `<body>`.
pub open spec fn page_start(title: Seq<char>, stylesheet: Seq<char>) -> Seq<char> {
    "<!DOCTYPE HTML>\n"@ + ("<html><head><title>"@ + title + "</title></head>\n"@) + (
    "<link href=\""@ + stylesheet + "\" rel=\"stylesheet\">\n"@) + "<body>\n"@
}

/// The closing of every page.
pub open spec fn page_end() -> Seq<char> {
    "</table>\n"@ + "</div>\n"@ + "</body>\n"@ + "</html>\n"@
}

fn push_page_start(out: &mut String, title: &str, stylesheet: &str)
    ensures
        final(out)@ == old(out)@ + page_start(title@, stylesheet@),
{
    push_str(out, "<!DOCTYPE HTML>\n");
    push_str(out, "<html><head><title>");
    push_str(out, title);
    push_str(out, "</title></head>\n");
    push_str(out, "<link href=\"");
    push_str(out, stylesheet);
    push_str(out, "\" rel=\"stylesheet\">\n");
    push_str(out, "<body>\n");
}

fn push_page_end(out: &mut String)
    ensures
        final(out)@ == old(out)@ + page_end(),
{
    push_str(out, "</table>\n");
    push_str(out, "</div>\n");
    push_str(out, "</body>\n");
    push_str(out, "</html>\n");
}

/// The row of the branch list that links to the log of `branch`.
pub open spec fn branch_row(script_name: Seq<char>, branch: Seq<char>) -> Seq<char> {
    "<tr> <th> <a href="@ + script_name + "?branch="@ + branch + ">"@ + branch
        + "</a> </th> </tr>\n"@
}

/// The rows of the branch list.
pub open spec fn branch_rows(script_name: Seq<char>, branches: Seq<String>) -> Seq<char>
    decreases branches.len(),
{
    if branches.len() == 0 {
        Seq::empty()
    } else {
        branch_rows(script_name, branches.drop_last()) + branch_row(script_name, branches.last()@)
    }
}

/// The page that lists the branches under test.
pub open spec fn branch_list_page(stylesheet: Seq<char>, script_name: Seq<char>, branches: Seq<String>) -> Seq<char> {
    page_start("CI branch list"@, stylesheet) + "<table class=\"table\">\n"@ + branch_rows(
        script_name,
        branches,
    ) + page_end()
}

/// The page that lists the branches under test, each linking to its log.
pub fn render_branch_list(stylesheet: &str, script_name: &str, branches: &Vec<String>) -> (res:
    String)
    ensures
        res@ == branch_list_page(stylesheet@, script_name@, branches@),
{
    let mut out = String::new();
    push_page_start(&mut out, "CI branch list", stylesheet);
    push_str(&mut out, "<table class=\"table\">\n");
    let ghost head = out@;
    assert(branches@.take(0) =~= Seq::<String>::empty());
    assert(head + Seq::<char>::empty() =~= head);
    for i in 0..branches.len()
        invariant
            out@ == head + branch_rows(script_name@, branches@.take(i as int)),
    {
        let b = branches[i].as_str();
        push_str(&mut out, "<tr> <th> <a href=");
        push_str(&mut out, script_name);
        push_str(&mut out, "?branch=");
        push_str(&mut out, b);
        push_str(&mut out, ">");
        push_str(&mut out, b);
        push_str(&mut out, "</a> </th> </tr>\n");
        assert(branches@.take(i + 1).drop_last() =~= branches@.take(i as int));
    }
    assert(branches@.take(branches@.len() as int) =~= branches@);
    push_page_end(&mut out);
    out
}


/// The links to the logs and output directory of test `name` of a commit.
pub open spec fn test_links(commit_id: Seq<char>, name: Seq<char>) -> Seq<char> {
    "<td> <a href=c/"@ + commit_id + "/"@ + name
        + "/log.br>        log                 </a> </td>\n"@ + ("<td> <a href=c/"@ + commit_id
        + "/"@ + name + "/full_log.br>   full log            </a> </td>\n"@) + (
    "<td> <a href=c/"@ + commit_id + "/"@ + name
        + ">\t\t        output directory    </a> </td>\n"@)
}

fn push_test_links(out: &mut String, commit_id: &str, name: &str)
    ensures
        final(out)@ == old(out)@ + test_links(commit_id@, name@),
{
    push_str(out, "<td> <a href=c/");
    push_str(out, commit_id);
    push_str(out, "/");
    push_str(out, name);
    push_str(out, "/log.br>        log                 </a> </td>\n");
    push_str(out, "<td> <a href=c/");
    push_str(out, commit_id);
    push_str(out, "/");
    push_str(out, name);
    push_str(out, "/full_log.br>   full log            </a> </td>\n");
    push_str(out, "<td> <a href=c/");
    push_str(out, commit_id);
    push_str(out, "/");
    push_str(out, name);
    push_str(out, ">\t\t        output directory    </a> </td>\n");
}

/// The cell linking to the branch log restricted to test `name`.
pub open spec fn git_log_cell(script_name: Seq<char>, branch: Seq<char>, name: Seq<char>) -> Seq<char> {
    "<td> <a href="@ + script_name + "?branch="@ + branch + "&test=^"@ + name
        + "$> git log        </a> </td>\n"@
}

pub open spec fn opt_git_log_cell(script_name: Seq<char>, branch: Option<Seq<char>>, name: Seq<char>) -> Seq<char> {
    match branch {
        Some(b) => git_log_cell(script_name, b, name),
        None => Seq::empty(),
    }
}

/// The row of the commit page for one test result.
#[verifier::opaque]
pub open spec fn result_row(
    commit_id: Seq<char>,
    branch: Option<Seq<char>>,
    script_name: Seq<char>,
    r: TestResult,
) -> Seq<char> {
    "<tr class="@ + r.status.row_class() + ">\n"@ + ("<td> "@ + r.name@ + " </td>\n"@) + (
    "<td> "@ + r.status.label() + " </td>\n"@) + ("<td> "@ + decimal(r.duration as nat)
        + "s </td>\n"@) + test_links(commit_id, r.name@) + opt_git_log_cell(
        script_name,
        branch,
        r.name@,
    ) + "</tr>\n"@
}

/// The rows of the commit page.
pub open spec fn result_rows(
    commit_id: Seq<char>,
    branch: Option<Seq<char>>,
    script_name: Seq<char>,
    results: Seq<TestResult>,
) -> Seq<char>
    decreases results.len(),
{
    if results.len() == 0 {
        Seq::empty()
    } else {
        result_rows(commit_id, branch, script_name, results.drop_last()) + result_row(
            commit_id,
            branch,
            script_name,
            results.last(),
        )
    }
}

/// The page with the results of one commit.
pub open spec fn commit_page(
    commit_id: Seq<char>,
    message: Seq<char>,
    stylesheet: Seq<char>,
    filter_html: Seq<char>,
    results: Seq<TestResult>,
    branch: Option<Seq<char>>,
    script_name: Seq<char>,
) -> Seq<char> {
    page_start(first_line(message), stylesheet) + "<div class=\"container\">\n"@ + (
    "<h3><th>"@ + first_line(message) + "</th></h3>\n"@) + filter_html
        + "<table class=\"table\">\n"@ + result_rows(commit_id, branch, script_name, results)
        + page_end()
}

fn push_result_row(
    out: &mut String,
    commit_id: &str,
    branch: &Option<String>,
    script_name: &str,
    r: &TestResult,
)
    ensures
        final(out)@ == old(out)@ + result_row(
            commit_id@,
            crate::query::opt_seq(*branch),
            script_name@,
            *r,
        ),
{
    reveal(result_row);
    push_str(out, "<tr class=");
    push_str(out, r.status.table_class());
    push_str(out, ">\n");
    push_str(out, "<td> ");
    push_str(out, r.name.as_str());
    push_str(out, " </td>\n");
    push_str(out, "<td> ");
    push_str(out, r.status.to_str());
    push_str(out, " </td>\n");
    push_str(out, "<td> ");
    push_decimal(out, r.duration);
    push_str(out, "s </td>\n");
    push_test_links(out, commit_id, r.name.as_str());
    match branch {
        Some(b) => {
            push_str(out, "<td> <a href=");
            push_str(out, script_name);
            push_str(out, "?branch=");
            push_str(out, b.as_str());
            push_str(out, "&test=^");
            push_str(out, r.name.as_str());
            push_str(out, "$> git log        </a> </td>\n");
        },
        None => {
            assert(out@ + Seq::<char>::empty() =~= out@);
        },
    }
    push_str(out, "</tr>\n");
}

/// The page with the results of one commit: its subject line, the test
/// filter form `filter_html`, and a row per test result, each with links to
/// its logs and, when a branch is given, to the branch log of that test.
pub fn render_commit(
    commit_id: &str,
    message: &str,
    stylesheet: &str,
    filter_html: &str,
    results: &Vec<TestResult>,
    branch: &Option<String>,
    script_name: &str,
) -> (res: String)
    ensures
        res@ == commit_page(
            commit_id@,
            message@,
            stylesheet@,
            filter_html@,
            results@,
            crate::query::opt_seq(*branch),
            script_name@,
        ),
{
    let mut out = String::new();
    push_str(&mut out, "<!DOCTYPE HTML>\n");
    push_str(&mut out, "<html><head><title>");
    push_first_line(&mut out, message);
    push_str(&mut out, "</title></head>\n");
    push_str(&mut out, "<link href=\"");
    push_str(&mut out, stylesheet);
    push_str(&mut out, "\" rel=\"stylesheet\">\n");
    push_str(&mut out, "<body>\n");
    push_str(&mut out, "<div class=\"container\">\n");
    push_str(&mut out, "<h3><th>");
    push_first_line(&mut out, message);
    push_str(&mut out, "</th></h3>\n");
    push_str(&mut out, filter_html);
    push_str(&mut out, "<table class=\"table\">\n");
    let ghost head = out@;
    let ghost b = crate::query::opt_seq(*branch);
    assert(results@.take(0) =~= Seq::<TestResult>::empty());
    assert(head + Seq::<char>::empty() =~= head);
    for i in 0..results.len()
        invariant
            b == crate::query::opt_seq(*branch),
            out@ == head + result_rows(commit_id@, b, script_name@, results@.take(i as int)),
    {
        push_result_row(&mut out, commit_id, branch, script_name, &results[i]);
        assert(results@.take(i + 1).drop_last() =~= results@.take(i as int));
    }
    assert(results@.take(results@.len() as int) =~= results@);
    push_page_end(&mut out);
    out
}


/// The log page shows one column per status when some commit has results
/// of more than one test.
pub open spec fn multiple_view(commits: Seq<CommitResults>) -> bool {
    exists|i: int| 0 <= i < commits.len() && #[trigger] commits[i].tests@.len() > 1
}

/// The number of bytes of a commit id that the log shows.
pub const SHORT_ID_LEN: usize = 14;

/// The first `SHORT_ID_LEN` bytes of a commit id, as text.
pub open spec fn short_id(id: Seq<char>) -> Seq<char> {
    decode_utf8(encode_utf8(id).take(SHORT_ID_LEN as int))
}

/// The first `SHORT_ID_LEN` bytes of `id` end at a character boundary.
pub open spec fn has_short_id(id: Seq<char>) -> bool {
    is_char_boundary(encode_utf8(id), SHORT_ID_LEN as int)
}

/// The test of having status `st`.
pub open spec fn has_status(st: TestStatus) -> spec_fn(TestResult) -> bool {
    |t: TestResult| t.status == st
}

/// The number of results with status `st`.
pub open spec fn count_status(tests: Seq<TestResult>, st: TestStatus) -> nat {
    tests.filter(has_status(st)).len()
}

/// Every result has exactly one of the six statuses, so the six status
/// columns of a commit's row add up to its total.
pub proof fn lemma_status_columns_sum(tests: Seq<TestResult>)
    ensures
        count_status(tests, TestStatus::Passed) + count_status(tests, TestStatus::Failed)
            + count_status(tests, TestStatus::NotStarted) + count_status(
            tests,
            TestStatus::NotRun,
        ) + count_status(tests, TestStatus::InProgress) + count_status(
            tests,
            TestStatus::Unknown,
        ) == tests.len(),
    decreases tests.len(),
{
    if tests.len() > 0 {
        let rest = tests.drop_last();
        let t = tests.last();
        lemma_status_columns_sum(rest);
        assert(tests =~= rest.push(t));
        rest.lemma_filter_push(t, has_status(TestStatus::Passed));
        rest.lemma_filter_push(t, has_status(TestStatus::Failed));
        rest.lemma_filter_push(t, has_status(TestStatus::NotStarted));
        rest.lemma_filter_push(t, has_status(TestStatus::NotRun));
        rest.lemma_filter_push(t, has_status(TestStatus::InProgress));
        rest.lemma_filter_push(t, has_status(TestStatus::Unknown));
    } else {
        reveal(Seq::filter);
    }
}

/// The sum of the durations of the results.
pub open spec fn total_duration(tests: Seq<TestResult>) -> nat
    decreases tests.len(),
{
    if tests.len() == 0 {
        0
    } else {
        total_duration(tests.drop_last()) + tests.last().duration as nat
    }
}

pub open spec fn commit_cell(script_name: Seq<char>, branch: Seq<char>, id: Seq<char>) -> Seq<char> {
    "<td> <a href=\""@ + script_name + "?branch="@ + branch + "&commit="@ + id + "\">"@
        + short_id(id) + "</a> </td>\n"@
}

pub open spec fn subject_cell(message: Seq<char>) -> Seq<char> {
    "<td> "@ + first_line(message) + " </td>\n"@
}

pub open spec fn number_cell(n: nat) -> Seq<char> {
    "<td> "@ + decimal(n) + " </td>\n"@
}

pub open spec fn seconds_cell(n: nat) -> Seq<char> {
    "<td> "@ + decimal(n) + "s </td>\n"@
}

/// The row for a run of `n` untested commits (nothing when `n` is 0).
pub open spec fn gap_row(n: nat) -> Seq<char> {
    if n == 0 {
        Seq::empty()
    } else {
        "<tr> <td> ("@ + decimal(n) + " untested commits) </td> </tr>\n"@
    }
}

/// A commit's row in the view with one column per status.
#[verifier::opaque]
pub open spec fn multi_row(script_name: Seq<char>, branch: Seq<char>, c: CommitResults) -> Seq<char> {
    "<tr>\n"@ + commit_cell(script_name, branch, c.id@) + subject_cell(c.message@) + number_cell(
        count_status(c.tests@, TestStatus::Passed),
    ) + number_cell(count_status(c.tests@, TestStatus::Failed)) + number_cell(
        count_status(c.tests@, TestStatus::NotStarted),
    ) + number_cell(count_status(c.tests@, TestStatus::NotRun)) + number_cell(
        count_status(c.tests@, TestStatus::InProgress),
    ) + number_cell(count_status(c.tests@, TestStatus::Unknown)) + number_cell(c.tests@.len())
        + seconds_cell(total_duration(c.tests@)) + "</tr>\n"@
}

/// A commit's row in the view of its first test.
#[verifier::opaque]
pub open spec fn single_row(script_name: Seq<char>, branch: Seq<char>, c: CommitResults) -> Seq<char> {
    let t = c.tests@[0];
    "<tr class="@ + t.status.row_class() + ">\n"@ + commit_cell(script_name, branch, c.id@)
        + subject_cell(c.message@) + ("<td> "@ + t.status.label() + " </td>\n"@) + seconds_cell(
        t.duration as nat,
    ) + test_links(c.id@, t.name@) + "</tr>\n"@
}

/// The rows of the log for `commits`, after `gap` untested commits not yet
/// reported: a tested commit first reports the untested ones before it.
pub open spec fn log_rows(
    multi: bool,
    script_name: Seq<char>,
    branch: Seq<char>,
    commits: Seq<CommitResults>,
    gap: nat,
) -> Seq<char>
    decreases commits.len(),
{
    if commits.len() == 0 {
        Seq::empty()
    } else if untested(commits[0]) {
        log_rows(multi, script_name, branch, commits.drop_first(), gap + 1)
    } else {
        gap_row(gap) + (if multi {
            multi_row(script_name, branch, commits[0])
        } else {
            single_row(script_name, branch, commits[0])
        }) + log_rows(multi, script_name, branch, commits.drop_first(), 0)
    }
}

pub open spec fn multi_header() -> Seq<char> {
    "<tr>\n"@ + "<th> Commit      </th>\n"@ + "<th> Description </th>\n"@
        + "<th> Passed      </th>\n"@ + "<th> Failed      </th>\n"@ + "<th> Not started </th>\n"@
        + "<th> Not run     </th>\n"@ + "<th> In progress </th>\n"@ + "<th> Unknown     </th>\n"@
        + "<th> Total       </th>\n"@ + "<th> Duration    </th>\n"@ + "</tr>\n"@
}

pub open spec fn single_header() -> Seq<char> {
    "<tr>\n"@ + "<th> Commit      </th>\n"@ + "<th> Description </th>\n"@
        + "<th> Status      </th>\n"@ + "<th> Duration    </th>\n"@ + "</tr>\n"@
}

/// The log page of a branch.
pub open spec fn log_page(
    branch: Seq<char>,
    stylesheet: Seq<char>,
    script_name: Seq<char>,
    commits: Seq<CommitResults>,
) -> Seq<char> {
    let multi = multiple_view(commits);
    page_start(branch, stylesheet) + "<div class=\"container\">\n"@ + "<table class=\"table\">\n"@
        + (if multi { multi_header() } else { single_header() }) + log_rows(
        multi,
        script_name,
        branch,
        commits,
        0,
    ) + page_end()
}

/// What the log page needs of the commits: the id of each tested commit
/// has a prefix of `SHORT_ID_LEN` bytes, and in the view by status the durations of each
/// tested commit sum to a `usize`.
pub open spec fn log_renderable(commits: Seq<CommitResults>) -> bool {
    &&& forall|i: int| 0 <= i < commits.len() && !untested(#[trigger] commits[i]) ==> has_short_id(commits[i].id@)
    &&& multiple_view(commits) ==> forall|i: int| 0 <= i < commits.len() && !untested(#[trigger] commits[i])
        ==> total_duration(commits[i].tests@) <= usize::MAX
}

fn push_short_id(out: &mut String, id: &str)
    requires
        has_short_id(id@),
    ensures
        final(out)@ == old(out)@ + short_id(id@),
{
    let (head, _tail) = id.split_at(SHORT_ID_LEN);
    proof {
        vstd::utf8::encode_utf8_decode_utf8(head@);
        assert(encode_utf8(id@).take(SHORT_ID_LEN as int) =~= id.spec_bytes().subrange(
            0,
            SHORT_ID_LEN as int,
        ));
    }
    push_str(out, head);
}

fn push_commit_cell(out: &mut String, script_name: &str, branch: &str, id: &str)
    requires
        has_short_id(id@),
    ensures
        final(out)@ == old(out)@ + commit_cell(script_name@, branch@, id@),
{
    push_str(out, "<td> <a href=\"");
    push_str(out, script_name);
    push_str(out, "?branch=");
    push_str(out, branch);
    push_str(out, "&commit=");
    push_str(out, id);
    push_str(out, "\">");
    push_short_id(out, id);
    push_str(out, "</a> </td>\n");
}

fn push_subject_cell(out: &mut String, message: &str)
    ensures
        final(out)@ == old(out)@ + subject_cell(message@),
{
    push_str(out, "<td> ");
    push_first_line(out, message);
    push_str(out, " </td>\n");
}

fn push_number_cell(out: &mut String, n: usize)
    ensures
        final(out)@ == old(out)@ + number_cell(n as nat),
{
    push_str(out, "<td> ");
    push_decimal(out, n);
    push_str(out, " </td>\n");
}

fn push_seconds_cell(out: &mut String, n: usize)
    ensures
        final(out)@ == old(out)@ + seconds_cell(n as nat),
{
    push_str(out, "<td> ");
    push_decimal(out, n);
    push_str(out, "s </td>\n");
}

/// The number of results with status `st`.
pub fn count_with_status(tests: &Vec<TestResult>, st: TestStatus) -> (res: usize)
    ensures
        res == count_status(tests@, st),
{
    let ghost pred = has_status(st);
    let mut n: usize = 0;
    assert(tests@.take(0).filter(pred) =~= Seq::<TestResult>::empty()) by {
        reveal(Seq::filter);
    }
    for i in 0..tests.len()
        invariant
            pred == has_status(st),
            n == tests@.take(i as int).filter(pred).len(),
            n <= i,
    {
        assert(tests@.take(i + 1) =~= tests@.take(i as int).push(tests@[i as int]));
        proof {
            tests@.take(i as int).lemma_filter_push(tests@[i as int], pred);
        }
        if tests[i].status == st {
            n = n + 1;
        }
    }
    assert(tests@.take(tests@.len() as int) =~= tests@);
    n
}

proof fn lemma_total_duration_prefix(tests: Seq<TestResult>, k: int)
    requires
        0 <= k <= tests.len(),
    ensures
        total_duration(tests.take(k)) <= total_duration(tests),
    decreases tests.len(),
{
    if k == tests.len() {
        assert(tests.take(k) =~= tests);
    } else {
        lemma_total_duration_prefix(tests.drop_last(), k);
        assert(tests.drop_last().take(k) =~= tests.take(k));
    }
}

/// The sum of the durations of the results.
pub fn sum_durations(tests: &Vec<TestResult>) -> (res: usize)
    requires
        total_duration(tests@) <= usize::MAX,
    ensures
        res == total_duration(tests@),
{
    let mut sum: usize = 0;
    assert(tests@.take(0) =~= Seq::<TestResult>::empty());
    for i in 0..tests.len()
        invariant
            total_duration(tests@) <= usize::MAX,
            sum == total_duration(tests@.take(i as int)),
    {
        assert(tests@.take(i + 1).drop_last() =~= tests@.take(i as int));
        proof {
            lemma_total_duration_prefix(tests@, i + 1);
        }
        sum = sum + tests[i].duration;
    }
    assert(tests@.take(tests@.len() as int) =~= tests@);
    sum
}

fn push_multi_row(out: &mut String, script_name: &str, branch: &str, c: &CommitResults)
    requires
        has_short_id(c.id@),
        total_duration(c.tests@) <= usize::MAX,
    ensures
        final(out)@ == old(out)@ + multi_row(script_name@, branch@, *c),
{
    reveal(multi_row);
    push_str(out, "<tr>\n");
    push_commit_cell(out, script_name, branch, c.id.as_str());
    push_subject_cell(out, c.message.as_str());
    push_number_cell(out, count_with_status(&c.tests, TestStatus::Passed));
    push_number_cell(out, count_with_status(&c.tests, TestStatus::Failed));
    push_number_cell(out, count_with_status(&c.tests, TestStatus::NotStarted));
    push_number_cell(out, count_with_status(&c.tests, TestStatus::NotRun));
    push_number_cell(out, count_with_status(&c.tests, TestStatus::InProgress));
    push_number_cell(out, count_with_status(&c.tests, TestStatus::Unknown));
    push_number_cell(out, c.tests.len());
    push_seconds_cell(out, sum_durations(&c.tests));
    push_str(out, "</tr>\n");
}

fn push_single_row(out: &mut String, script_name: &str, branch: &str, c: &CommitResults)
    requires
        has_short_id(c.id@),
        c.tests@.len() > 0,
    ensures
        final(out)@ == old(out)@ + single_row(script_name@, branch@, *c),
{
    reveal(single_row);
    let t = &c.tests[0];
    push_str(out, "<tr class=");
    push_str(out, t.status.table_class());
    push_str(out, ">\n");
    push_commit_cell(out, script_name, branch, c.id.as_str());
    push_subject_cell(out, c.message.as_str());
    push_str(out, "<td> ");
    push_str(out, t.status.to_str());
    push_str(out, " </td>\n");
    push_seconds_cell(out, t.duration);
    push_test_links(out, c.id.as_str(), t.name.as_str());
    push_str(out, "</tr>\n");
}

fn push_gap_row(out: &mut String, n: usize)
    ensures
        final(out)@ == old(out)@ + gap_row(n as nat),
{
    if n != 0 {
        push_str(out, "<tr> <td> (");
        push_decimal(out, n);
        push_str(out, " untested commits) </td> </tr>\n");
    } else {
        assert(out@ + Seq::<char>::empty() =~= out@);
    }
}

fn has_multiple_tests(commits: &Vec<CommitResults>) -> (res: bool)
    ensures
        res == multiple_view(commits@),
{
    for i in 0..commits.len()
        invariant
            forall|k: int| 0 <= k < i ==> commits@[k].tests@.len() <= 1,
    {
        if commits[i].tests.len() > 1 {
            return true;
        }
    }
    false
}

/// The log page of a branch: one row per commit with results (in the view
/// by status when some commit has results of more than one test, else in
/// the view of each commit's first test), with a row counting each run of
/// untested commits that precedes a tested one.
pub fn render_log(branch: &str, stylesheet: &str, script_name: &str, commits: &Vec<CommitResults>) -> (res: String)
    requires
        log_renderable(commits@),
    ensures
        res@ == log_page(branch@, stylesheet@, script_name@, commits@),
{
    let multi = has_multiple_tests(commits);
    let mut out = String::new();
    push_page_start(&mut out, branch, stylesheet);
    push_str(&mut out, "<div class=\"container\">\n");
    push_str(&mut out, "<table class=\"table\">\n");
    if multi {
        push_str(&mut out, "<tr>\n");
        push_str(&mut out, "<th> Commit      </th>\n");
        push_str(&mut out, "<th> Description </th>\n");
        push_str(&mut out, "<th> Passed      </th>\n");
        push_str(&mut out, "<th> Failed      </th>\n");
        push_str(&mut out, "<th> Not started </th>\n");
        push_str(&mut out, "<th> Not run     </th>\n");
        push_str(&mut out, "<th> In progress </th>\n");
        push_str(&mut out, "<th> Unknown     </th>\n");
        push_str(&mut out, "<th> Total       </th>\n");
        push_str(&mut out, "<th> Duration    </th>\n");
        push_str(&mut out, "</tr>\n");
    } else {
        push_str(&mut out, "<tr>\n");
        push_str(&mut out, "<th> Commit      </th>\n");
        push_str(&mut out, "<th> Description </th>\n");
        push_str(&mut out, "<th> Status      </th>\n");
        push_str(&mut out, "<th> Duration    </th>\n");
        push_str(&mut out, "</tr>\n");
    }
    let ghost head = out@;
    let ghost all = commits@;
    let mut gap: usize = 0;
    assert(all.skip(0) =~= all);
    for i in 0..commits.len()
        invariant
            all == commits@,
            log_renderable(all),
            multi == multiple_view(all),
            gap <= i,
            head + log_rows(multi, script_name@, branch@, all, 0) == out@ + log_rows(
                multi,
                script_name@,
                branch@,
                all.skip(i as int),
                gap as nat,
            ),
    {
        let c = &commits[i];
        assert(all.skip(i as int)[0] == all[i as int]);
        assert(all.skip(i as int).drop_first() =~= all.skip(i + 1));
        if c.tests.len() == 0 {
            gap = gap + 1;
        } else {
            assert(!untested(all[i as int]));
            push_gap_row(&mut out, gap);
            if multi {
                push_multi_row(&mut out, script_name, branch, c);
            } else {
                push_single_row(&mut out, script_name, branch, c);
            }
            gap = 0;
        }
    }
    assert(all.skip(all.len() as int) =~= Seq::<CommitResults>::empty());
    assert(out@ + Seq::<char>::empty() =~= out@);
    push_page_end(&mut out);
    out
}


/// The status columns of the log's per-status view, left to right.
pub open spec fn status_columns() -> Seq<TestStatus> {
    seq![
        TestStatus::Passed,
        TestStatus::Failed,
        TestStatus::NotStarted,
        TestStatus::NotRun,
        TestStatus::InProgress,
        TestStatus::Unknown,
    ]
}

/// `n` spaces.
pub open spec fn spaces(n: nat) -> Seq<char> {
    Seq::new(n, |i: int| ' ')
}

/// A header cell whose title is padded with spaces to twelve characters.
pub open spec fn header_cell(title: Seq<char>) -> Seq<char> {
    "<th> "@ + title + spaces((12 - title.len()) as nat) + "</th>\n"@
}

/// The cell that counts the tests of `tests` whose status is `st`.
pub open spec fn count_cell(tests: Seq<TestResult>, st: TestStatus) -> Seq<char> {
    "<td> "@ + decimal(tests.filter(|t: TestResult| t.status == st).len()) + " </td>\n"@
}

/// No two statuses have the same label.
pub proof fn lemma_labels_distinct(a: TestStatus, b: TestStatus)
    ensures
        a.label() == b.label() ==> a == b,
{
    reveal_strlit("In progress");
    reveal_strlit("Passed");
    reveal_strlit("Failed");
    reveal_strlit("Not run");
    reveal_strlit("Not started");
    reveal_strlit("Unknown");
    if a != b {
        assert(a.label() != b.label()) by {
            if a.label().len() == b.label().len() {
                assert(a.label()[0] != b.label()[0] || a.label()[4] != b.label()[4]);
            }
        }
    }
}

/// The per-status view's columns: its header titles each status column with
/// that status's label, in the order of `status_columns`, and each tested
/// commit's row has, in the same order, one cell per column counting the
/// commit's tests with exactly that status, then the number of tests and
/// their total duration.
pub proof fn lemma_status_columns_follow_header(script_name: Seq<char>, branch: Seq<char>, c: CommitResults)
    ensures
        multi_header() == "<tr>\n"@ + header_cell("Commit"@) + header_cell("Description"@)
            + header_cell(status_columns()[0].label()) + header_cell(status_columns()[1].label())
            + header_cell(status_columns()[2].label()) + header_cell(status_columns()[3].label())
            + header_cell(status_columns()[4].label()) + header_cell(status_columns()[5].label())
            + header_cell("Total"@) + header_cell("Duration"@) + "</tr>\n"@,
        multi_row(script_name, branch, c) == "<tr>\n"@ + commit_cell(script_name, branch, c.id@)
            + subject_cell(c.message@) + count_cell(c.tests@, status_columns()[0]) + count_cell(
            c.tests@,
            status_columns()[1],
        ) + count_cell(c.tests@, status_columns()[2]) + count_cell(c.tests@, status_columns()[3])
            + count_cell(c.tests@, status_columns()[4]) + count_cell(c.tests@, status_columns()[5])
            + ("<td> "@ + decimal(c.tests@.len()) + " </td>\n"@) + ("<td> "@ + decimal(
            total_duration(c.tests@),
        ) + "s </td>\n"@) + "</tr>\n"@,
{
    reveal(multi_row);
    reveal_strlit("<th> ");
    reveal_strlit("</th>\n");
    reveal_strlit("Commit");
    reveal_strlit("Description");
    reveal_strlit("Passed");
    reveal_strlit("Failed");
    reveal_strlit("Not started");
    reveal_strlit("Not run");
    reveal_strlit("In progress");
    reveal_strlit("Unknown");
    reveal_strlit("Total");
    reveal_strlit("Duration");
    reveal_strlit("<th> Commit      </th>\n");
    reveal_strlit("<th> Description </th>\n");
    reveal_strlit("<th> Passed      </th>\n");
    reveal_strlit("<th> Failed      </th>\n");
    reveal_strlit("<th> Not started </th>\n");
    reveal_strlit("<th> Not run     </th>\n");
    reveal_strlit("<th> In progress </th>\n");
    reveal_strlit("<th> Unknown     </th>\n");
    reveal_strlit("<th> Total       </th>\n");
    reveal_strlit("<th> Duration    </th>\n");
    assert(header_cell("Commit"@) =~= "<th> Commit      </th>\n"@);
    assert(header_cell("Description"@) =~= "<th> Description </th>\n"@);
    assert(header_cell("Passed"@) =~= "<th> Passed      </th>\n"@);
    assert(header_cell("Failed"@) =~= "<th> Failed      </th>\n"@);
    assert(header_cell("Not started"@) =~= "<th> Not started </th>\n"@);
    assert(header_cell("Not run"@) =~= "<th> Not run     </th>\n"@);
    assert(header_cell("In progress"@) =~= "<th> In progress </th>\n"@);
    assert(header_cell("Unknown"@) =~= "<th> Unknown     </th>\n"@);
    assert(header_cell("Total"@) =~= "<th> Total       </th>\n"@);
    assert(header_cell("Duration"@) =~= "<th> Duration    </th>\n"@);
    assert forall|st: TestStatus| has_status(st) =~= (|t: TestResult| t.status == st) by {}
    assert(count_cell(c.tests@, TestStatus::Passed) == number_cell(count_status(c.tests@, TestStatus::Passed)));
    assert(count_cell(c.tests@, TestStatus::Failed) == number_cell(count_status(c.tests@, TestStatus::Failed)));
    assert(count_cell(c.tests@, TestStatus::NotStarted) == number_cell(count_status(c.tests@, TestStatus::NotStarted)));
    assert(count_cell(c.tests@, TestStatus::NotRun) == number_cell(count_status(c.tests@, TestStatus::NotRun)));
    assert(count_cell(c.tests@, TestStatus::InProgress) == number_cell(count_status(c.tests@, TestStatus::InProgress)));
    assert(count_cell(c.tests@, TestStatus::Unknown) == number_cell(count_status(c.tests@, TestStatus::Unknown)));
}

/// The log page uses the per-status view exactly when some listed commit
/// has results of two or more tests, and the view of each commit's first
/// test otherwise.
pub proof fn lemma_log_view_choice(
    branch: Seq<char>,
    stylesheet: Seq<char>,
    script_name: Seq<char>,
    commits: Seq<CommitResults>,
)
    ensures
        (exists|i: int| 0 <= i < commits.len() && #[trigger] commits[i].tests@.len() >= 2)
            ==> log_page(branch, stylesheet, script_name, commits) == page_start(branch, stylesheet)
            + "<div class=\"container\">\n"@ + "<table class=\"table\">\n"@ + multi_header()
            + log_rows(true, script_name, branch, commits, 0) + page_end(),
        !(exists|i: int| 0 <= i < commits.len() && #[trigger] commits[i].tests@.len() >= 2)
            ==> log_page(branch, stylesheet, script_name, commits) == page_start(branch, stylesheet)
            + "<div class=\"container\">\n"@ + "<table class=\"table\">\n"@ + single_header()
            + log_rows(false, script_name, branch, commits, 0) + page_end(),
{
    if exists|i: int| 0 <= i < commits.len() && #[trigger] commits[i].tests@.len() >= 2 {
        let i = choose|i: int| 0 <= i < commits.len() && #[trigger] commits[i].tests@.len() >= 2;
        assert(commits[i].tests@.len() > 1);
    } else {
        assert forall|i: int| 0 <= i < commits.len() implies !(#[trigger] commits[i].tests@.len() > 1) by {
            assert(!(commits[i].tests@.len() >= 2));
        }
    }
}

/// A test's row on the commit page shows, after the cell with the test's
/// name, the label of the test's own status.
pub proof fn lemma_result_row_shows_own_status(
    commit_id: Seq<char>,
    branch: Option<Seq<char>>,
    script_name: Seq<char>,
    r: TestResult,
)
    ensures
        ({
            let head = "<tr class="@ + r.status.row_class() + ">\n"@ + ("<td> "@ + r.name@ + " </td>\n"@)
                + ("<td> "@ + r.status.label() + " </td>\n"@);
            &&& head.len() <= result_row(commit_id, branch, script_name, r).len()
            &&& result_row(commit_id, branch, script_name, r).take(head.len() as int) == head
        }),
{
    reveal(result_row);
    let head = "<tr class="@ + r.status.row_class() + ">\n"@ + ("<td> "@ + r.name@ + " </td>\n"@)
        + ("<td> "@ + r.status.label() + " </td>\n"@);
    let row = result_row(commit_id, branch, script_name, r);
    let rest = ("<td> "@ + decimal(r.duration as nat) + "s </td>\n"@) + test_links(commit_id, r.name@)
        + opt_git_log_cell(script_name, branch, r.name@) + "</tr>\n"@;
    assert(row =~= head + rest);
    assert((head + rest).take(head.len() as int) =~= head);
}

/// A commit's row in the log's view of its first test shows, after the
/// commit and description cells, the label of that test's own status.
pub proof fn lemma_single_row_shows_own_status(script_name: Seq<char>, branch: Seq<char>, c: CommitResults)
    ensures
        ({
            let t = c.tests@[0];
            let head = "<tr class="@ + t.status.row_class() + ">\n"@ + commit_cell(script_name, branch, c.id@)
                + subject_cell(c.message@) + ("<td> "@ + t.status.label() + " </td>\n"@);
            &&& head.len() <= single_row(script_name, branch, c).len()
            &&& single_row(script_name, branch, c).take(head.len() as int) == head
        }),
{
    reveal(single_row);
    let t = c.tests@[0];
    let head = "<tr class="@ + t.status.row_class() + ">\n"@ + commit_cell(script_name, branch, c.id@)
        + subject_cell(c.message@) + ("<td> "@ + t.status.label() + " </td>\n"@);
    let rest = seconds_cell(t.duration as nat) + test_links(c.id@, t.name@) + "</tr>\n"@;
    assert(single_row(script_name, branch, c) =~= head + rest);
    assert((head + rest).take(head.len() as int) =~= head);
}

} // verus!
