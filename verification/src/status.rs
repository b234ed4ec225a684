//! Test outcomes as recorded by the CI job server, and the reading of one
//! test's result from the contents of its status and duration files.
use vstd::prelude::*;
use crate::text::{
    decimal, digit_char, chars_of, has_substring, is_white, lemma_substring_ignores_surrounding_white, str_contains,
    trim_white,
};

verus! {

/// The outcome of one test run.
#[derive(Clone, Copy, Debug, PartialEq, Eq, Structural)]
pub enum TestStatus {
    InProgress,
    Passed,
    Failed,
    NotRun,
    NotStarted,
    Unknown,
}

/// The status named by the text of a status file: an empty file means the
/// test is still running; otherwise the first of the known markers that
/// occurs in the text decides.
pub open spec fn status_of(s: Seq<char>) -> TestStatus {
    if s.len() == 0 {
        TestStatus::InProgress
    } else if has_substring(s, "IN PROGRESS"@) {
        TestStatus::InProgress
    } else if has_substring(s, "PASSED"@) {
        TestStatus::Passed
    } else if has_substring(s, "FAILED"@) {
        TestStatus::Failed
    } else if has_substring(s, "NOTRUN"@) {
        TestStatus::NotRun
    } else if has_substring(s, "NOT STARTED"@) {
        TestStatus::NotStarted
    } else {
        TestStatus::Unknown
    }
}

/// Which marker decides the status: "IN PROGRESS" wins over every other
/// marker, "PASSED" over the rest, and so on; text with none of them is of
/// unknown status, and empty text means the test is still running.
pub proof fn lemma_status_priority(s: Seq<char>)
    ensures
        s.len() == 0 ==> status_of(s) == TestStatus::InProgress,
        has_substring(s, "IN PROGRESS"@) ==> status_of(s) == TestStatus::InProgress,
        status_of(s) == TestStatus::Passed <==> (s.len() > 0 && !has_substring(s, "IN PROGRESS"@)
            && has_substring(s, "PASSED"@)),
        status_of(s) == TestStatus::Failed <==> (s.len() > 0 && !has_substring(s, "IN PROGRESS"@)
            && !has_substring(s, "PASSED"@) && has_substring(s, "FAILED"@)),
        status_of(s) == TestStatus::NotRun <==> (s.len() > 0 && !has_substring(s, "IN PROGRESS"@)
            && !has_substring(s, "PASSED"@) && !has_substring(s, "FAILED"@) && has_substring(
            s,
            "NOTRUN"@,
        )),
        status_of(s) == TestStatus::NotStarted <==> (s.len() > 0 && !has_substring(
            s,
            "IN PROGRESS"@,
        ) && !has_substring(s, "PASSED"@) && !has_substring(s, "FAILED"@) && !has_substring(
            s,
            "NOTRUN"@,
        ) && has_substring(s, "NOT STARTED"@)),
        status_of(s) == TestStatus::Unknown <==> (s.len() > 0 && !has_substring(s, "IN PROGRESS"@)
            && !has_substring(s, "PASSED"@) && !has_substring(s, "FAILED"@) && !has_substring(
            s,
            "NOTRUN"@,
        ) && !has_substring(s, "NOT STARTED"@)),
{
}

/// A row is marked as a success exactly for a passed test and as a danger
/// exactly for a failed one; every other status gets the neutral class.
pub proof fn lemma_row_classes(st: TestStatus)
    ensures
        st.row_class() == "table-success"@ <==> st == TestStatus::Passed,
        st.row_class() == "table-danger"@ <==> st == TestStatus::Failed,
        st.row_class() == "table-secondary"@ <==> (st != TestStatus::Passed && st
            != TestStatus::Failed),
{
    reveal_strlit("table-success");
    reveal_strlit("table-danger");
    reveal_strlit("table-secondary");
    assert("table-success"@ != "table-danger"@ && "table-success"@ != "table-secondary"@
        && "table-danger"@ != "table-secondary"@) by {
        assert("table-success"@[6] != "table-danger"@[6]);
        assert("table-success"@[7] != "table-secondary"@[7]);
        assert("table-danger"@[6] != "table-secondary"@[6]);
    }
}

/// Reading a number back from its decimal text gives the number.
pub proof fn lemma_parse_decimal(n: usize)
    ensures
        parsed_usize(decimal(n as nat)) == Some(n),
{
    lemma_digits_of_decimal(n as nat);
    let d = decimal(n as nat);
    assert(unsigned_digits(d) == d);
}

proof fn lemma_digit_char(k: nat)
    requires
        k < 10,
    ensures
        is_digit(digit_char(k)),
        digit_value(digit_char(k)) == k,
{
}

proof fn lemma_digits_of_decimal(n: nat)
    ensures
        decimal(n).len() > 0,
        forall|i: int| 0 <= i < decimal(n).len() ==> is_digit(#[trigger] decimal(n)[i]),
        digits_value(decimal(n)) == n,
    decreases n,
{
    if n < 10 {
        lemma_digit_char(n);
        assert(decimal(n) =~= seq![digit_char(n)]);
        assert(decimal(n).drop_last() =~= Seq::<char>::empty());
        assert(digits_value(Seq::<char>::empty()) == 0);
        assert(digits_value(decimal(n)) == digits_value(decimal(n).drop_last()) * 10 + digit_value(
            decimal(n).last(),
        ));
    } else {
        lemma_digits_of_decimal(n / 10);
        lemma_digit_char(n % 10);
        let d = decimal(n);
        assert(d.last() == digit_char(n % 10));
        assert(d.drop_last() =~= decimal(n / 10));
        assert(forall|i: int| 0 <= i < d.len() - 1 ==> d[i] == decimal(n / 10)[i]);
        assert(n == (n / 10) * 10 + n % 10);
        assert(digits_value(d) == digits_value(d.drop_last()) * 10 + digit_value(d.last()));
    }
}

/// White space around the text of a status file (such as the line break
/// that ends it) never changes the status, unless the text is nothing but
/// white space.
pub proof fn lemma_status_ignores_surrounding_white(s: Seq<char>)
    requires
        trim_white(s).len() > 0,
    ensures
        status_of(s) == status_of(trim_white(s)),
{
    reveal_strlit("IN PROGRESS");
    reveal_strlit("PASSED");
    reveal_strlit("FAILED");
    reveal_strlit("NOTRUN");
    reveal_strlit("NOT STARTED");
    assert(!is_white('I') && !is_white('S') && !is_white('P') && !is_white('D') && !is_white('F')
        && !is_white('N') && !is_white('T') && !is_white('E'));
    lemma_substring_ignores_surrounding_white(s, "IN PROGRESS"@);
    lemma_substring_ignores_surrounding_white(s, "PASSED"@);
    lemma_substring_ignores_surrounding_white(s, "FAILED"@);
    lemma_substring_ignores_surrounding_white(s, "NOTRUN"@);
    lemma_substring_ignores_surrounding_white(s, "NOT STARTED"@);
    if s.len() == 0 {
        assert(trim_white(s).len() == 0);
    }
}

impl TestStatus {
    /// Human-readable label of a status.
    pub open spec fn label(self) -> Seq<char> {
        match self {
            TestStatus::InProgress => "In progress"@,
            TestStatus::Passed => "Passed"@,
            TestStatus::Failed => "Failed"@,
            TestStatus::NotRun => "Not run"@,
            TestStatus::NotStarted => "Not started"@,
            TestStatus::Unknown => "Unknown"@,
        }
    }

    /// CSS class of a table row showing a test with this status.
    pub open spec fn row_class(self) -> Seq<char> {
        match self {
            TestStatus::Passed => "table-success"@,
            TestStatus::Failed => "table-danger"@,
            _ => "table-secondary"@,
        }
    }

    /// Reads a status from the text of a status file.
    pub fn from_str(status: &str) -> (res: TestStatus)
        ensures
            res == status_of(status@),
    {
        if status.is_empty() {
            TestStatus::InProgress
        } else if str_contains(status, "IN PROGRESS") {
            TestStatus::InProgress
        } else if str_contains(status, "PASSED") {
            TestStatus::Passed
        } else if str_contains(status, "FAILED") {
            TestStatus::Failed
        } else if str_contains(status, "NOTRUN") {
            TestStatus::NotRun
        } else if str_contains(status, "NOT STARTED") {
            TestStatus::NotStarted
        } else {
            TestStatus::Unknown
        }
    }

    /// Human-readable label of the status.
    pub fn to_str(&self) -> (res: &'static str)
        ensures
            res@ == self.label(),
    {
        match self {
            TestStatus::InProgress => "In progress",
            TestStatus::Passed => "Passed",
            TestStatus::Failed => "Failed",
            TestStatus::NotRun => "Not run",
            TestStatus::NotStarted => "Not started",
            TestStatus::Unknown => "Unknown",
        }
    }

    /// CSS class of a table row showing a test with this status.
    pub fn table_class(&self) -> (res: &'static str)
        ensures
            res@ == self.row_class(),
    {
        match self {
            TestStatus::InProgress => "table-secondary",
            TestStatus::Passed => "table-success",
            TestStatus::Failed => "table-danger",
            TestStatus::NotRun => "table-secondary",
            TestStatus::NotStarted => "table-secondary",
            TestStatus::Unknown => "table-secondary",
        }
    }
}


/// An ASCII decimal digit.
pub open spec fn is_digit(c: char) -> bool {
    '0' <= c <= '9'
}

/// The value of a decimal digit character.
pub open spec fn digit_value(c: char) -> nat {
    (c as int - '0' as int) as nat
}

/// The value of a sequence of decimal digits, most significant first.
pub open spec fn digits_value(s: Seq<char>) -> nat
    decreases s.len(),
{
    if s.len() == 0 {
        0
    } else {
        digits_value(s.drop_last()) * 10 + digit_value(s.last())
    }
}

/// The digits of an unsigned decimal number: a leading `+` is allowed.
pub open spec fn unsigned_digits(s: Seq<char>) -> Seq<char> {
    if s.len() > 0 && s[0] == '+' {
        s.drop_first()
    } else {
        s
    }
}

/// What `str::parse::<usize>` yields: the value of an optional `+` followed
/// by at least one decimal digit and nothing else, when it fits in `usize`.
pub open spec fn parsed_usize(s: Seq<char>) -> Option<usize> {
    let d = unsigned_digits(s);
    if d.len() > 0 && (forall|i: int| 0 <= i < d.len() ==> is_digit(#[trigger] d[i]))
        && digits_value(d) <= usize::MAX {
        Some(digits_value(d) as usize)
    } else {
        None
    }
}

proof fn lemma_digits_value_prefix(d: Seq<char>, k: int)
    requires
        0 <= k <= d.len(),
    ensures
        digits_value(d.take(k)) <= digits_value(d),
    decreases d.len(),
{
    if k == d.len() {
        assert(d.take(k) =~= d);
    } else {
        lemma_digits_value_prefix(d.drop_last(), k);
        assert(d.drop_last().take(k) =~= d.take(k));
    }
}

/// Reads an unsigned decimal number as `str::parse::<usize>` does.
pub fn parse_usize(s: &str) -> (res: Option<usize>)
    ensures
        res == parsed_usize(s@),
{
    let cs = chars_of(s);
    let n = cs.len();
    let start: usize = if n > 0 && cs[0] == '+' { 1 } else { 0 };
    let ghost d = unsigned_digits(s@);
    assert(d =~= cs@.skip(start as int));
    if start == n {
        return None;
    }
    let mut acc: usize = 0;
    let mut i: usize = start;
    assert(d.take(0) =~= Seq::<char>::empty());
    while i < n
        invariant
            cs@ == s@,
            n == cs@.len(),
            start <= i <= n,
            d == cs@.skip(start as int),
            d == unsigned_digits(s@),
            d.len() > 0,
            forall|k: int| 0 <= k < i - start ==> is_digit(#[trigger] d[k]),
            acc == digits_value(d.take(i - start)),
        decreases n - i,
    {
        let c = cs[i];
        assert(d[i - start] == c);
        if !('0' <= c && c <= '9') {
            assert(!is_digit(d[i - start]));
            return None;
        }
        let v = (c as u32 - '0' as u32) as usize;
        assert(d.take(i - start + 1).drop_last() =~= d.take(i - start));
        assert(d.take(i - start + 1).last() == c);
        assert(digit_value(c) == v);
        assert(digits_value(d.take(i - start + 1)) == acc * 10 + v);
        let next = match acc.checked_mul(10) {
            Some(m) => m.checked_add(v),
            None => None,
        };
        match next {
            Some(x) => {
                acc = x;
            },
            None => {
                proof {
                    if forall|k: int| 0 <= k < d.len() ==> is_digit(#[trigger] d[k]) {
                        lemma_digits_value_prefix(d, i - start + 1);
                    }
                }
                return None;
            },
        }
        i = i + 1;
    }
    assert(d.take(d.len() as int) =~= d);
    Some(acc)
}

/// The result of one test in one commit.
pub struct TestResult {
    pub name: String,
    pub status: TestStatus,
    pub duration: usize,
}

impl View for TestResult {
    type V = (Seq<char>, TestStatus, usize);

    open spec fn view(&self) -> (Seq<char>, TestStatus, usize) {
        (self.name@, self.status, self.duration)
    }
}

/// The duration recorded by the text of a duration file: a missing file
/// counts as "0", and text that is not a number counts as 0.
pub open spec fn duration_of(text: Option<Seq<char>>) -> usize {
    match text {
        Some(t) => match parsed_usize(t) {
            Some(v) => v,
            None => 0,
        },
        None => 0,
    }
}

/// The view of an optional string.
pub open spec fn opt_view(o: Option<String>) -> Option<Seq<char>> {
    match o {
        Some(s) => Some(s@),
        None => None,
    }
}

/// A copy of an optional string.
pub fn copy_opt(o: &Option<String>) -> (res: Option<String>)
    ensures
        opt_view(res) == opt_view(*o),
{
    match o {
        Some(s) => Some(s.clone()),
        None => None,
    }
}

/// The result of the test named `name`, from the contents of its status and
/// duration files (`None` where a file could not be read). A test without a
/// readable status file has no result.
pub fn test_result_from(name: String, status: Option<String>, duration: Option<String>) -> (res:
    Option<TestResult>)
    ensures
        match res {
            Some(r) => status is Some && r.name@ == name@ && r.status == status_of(
                status->0@,
            ) && r.duration == duration_of(opt_view(duration)),
            None => status is None,
        },
{
    match status {
        None => None,
        Some(st) => {
            let duration = match duration {
                Some(d) => match parse_usize(d.as_str()) {
                    Some(v) => v,
                    None => 0,
                },
                None => 0,
            };
            Some(TestResult { name, status: TestStatus::from_str(st.as_str()), duration })
        },
    }
}

} // verus!
