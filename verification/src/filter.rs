//! Choosing which tests of a commit to show: the test-name filter of the
//! query (a regular expression), and the sorted results of the tests kept.
use vstd::prelude::*;
use crate::status::{copy_opt, duration_of, opt_view, status_of, test_result_from, TestResult, TestStatus};
use crate::text::{chars_le, lemma_chars_le_total, lemma_chars_le_transitive, str_le};
use crate::pattern::{compile_regex, regex_compiles, regex_finds, CompiledRegex};

verus! {

/// A test-name filter: a regular expression compiled from the filter's text.
pub struct TestFilter {
    regex: CompiledRegex,
}

impl View for TestFilter {
    type V = Seq<char>;

    /// The text the filter's regular expression was compiled from.
    closed spec fn view(&self) -> Seq<char> {
        self.regex.source()
    }
}

impl TestFilter {
    /// Whether the filter's regular expression matches somewhere in `text`.
    pub fn matches(&self, text: &str) -> (res: bool)
        ensures
            res == regex_finds(self@, text@),
            self@.len() == 0 ==> res,
    {
        self.regex.is_match(text)
    }

    /// The filter for `pattern`, or `None` where `pattern` is not a valid
    /// regular expression.
    pub fn new(pattern: &str) -> (res: Option<TestFilter>)
        ensures
            res is Some <==> regex_compiles(pattern@),
            res matches Some(f) ==> f@ == pattern@,
    {
        match compile_regex(pattern) {
            Ok(regex) => Some(TestFilter { regex }),
            Err(_) => None,
        }
    }

    /// The filter that the query's test pattern selects: the pattern itself
    /// where it is a valid regular expression, else the empty pattern, which
    /// matches every name. Under it a commit's results are those it has with
    /// no filter (the empty pattern), less the ones whose name the filter
    /// does not match, in the same order.
    pub fn from_query(pattern: &str) -> (res: TestFilter)
        ensures
            res@ == (if regex_compiles(pattern@) { pattern@ } else { Seq::<char>::empty() }),
            forall|x: Seq<char>| #[trigger] regex_finds(Seq::<char>::empty(), x),
            forall|dirs: Seq<TestDir>|
                #[trigger] sort_by_name(shown_results(dirs, res@)) == sort_by_name(
                    shown_results(dirs, Seq::<char>::empty()),
                ).filter(name_found(res@)),
    {
        let compiled = compile_regex(pattern);
        let empty = String::new();
        let fallback = compile_regex(empty.as_str());
        let res = match compiled {
            Ok(regex) => TestFilter { regex },
            Err(_) => TestFilter { regex: fallback.ok().unwrap() },
        };
        proof {
            assert forall|dirs: Seq<TestDir>|
                #[trigger] sort_by_name(shown_results(dirs, res@)) == sort_by_name(
                    shown_results(dirs, Seq::<char>::empty()),
                ).filter(name_found(res@)) by {
                lemma_filter_only_removes(dirs, res@, Seq::<char>::empty());
            }
        }
        res
    }
}

/// What the job server left for one test of one commit: the name of the
/// test's directory and the contents of its status and duration files
/// (`None` where a file could not be read).
pub struct TestDir {
    pub name: String,
    pub status: Option<String>,
    pub duration: Option<String>,
}

/// A test is shown when its name matches the filter and it has a status.
pub open spec fn shown(pattern: Seq<char>, d: TestDir) -> bool {
    regex_finds(pattern, d.name@) && d.status is Some
}

/// The result that a shown test directory yields.
pub open spec fn dir_result(d: TestDir) -> (Seq<char>, TestStatus, usize) {
    (d.name@, status_of(d.status->0@), duration_of(opt_view(d.duration)))
}

pub open spec fn result_views(s: Seq<TestResult>) -> Seq<(Seq<char>, TestStatus, usize)> {
    s.map_values(|r: TestResult| r@)
}

/// Results in order of their names.
pub open spec fn sorted_by_name(s: Seq<(Seq<char>, TestStatus, usize)>) -> bool {
    forall|i: int, j: int| 0 <= i < j < s.len() ==> chars_le(s[i].0, s[j].0)
}

/// The results that a commit's test directories yield under a filter, in the order of the directories.
pub open spec fn shown_results(dirs: Seq<TestDir>, pattern: Seq<char>) -> Seq<
    (Seq<char>, TestStatus, usize),
> {
    dirs.filter(|d: TestDir| shown(pattern, d)).map_values(|d: TestDir| dir_result(d))
}

/// Where a result goes among results sorted by name: after every leading
/// result whose name is not later than its own.
pub open spec fn insert_pos(s: Seq<(Seq<char>, TestStatus, usize)>, x: (Seq<char>, TestStatus, usize)) -> int
    decreases s.len(),
{
    if s.len() == 0 || !chars_le(s[0].0, x.0) {
        0
    } else {
        1 + insert_pos(s.drop_first(), x)
    }
}

/// Results stably sorted by name: each result in turn goes in after the
/// earlier ones whose name is not later than its own.
pub open spec fn sort_by_name(s: Seq<(Seq<char>, TestStatus, usize)>) -> Seq<(Seq<char>, TestStatus, usize)>
    decreases s.len(),
{
    if s.len() == 0 {
        s
    } else {
        let r = sort_by_name(s.drop_last());
        r.insert(insert_pos(r, s.last()), s.last())
    }
}

proof fn lemma_insert_sorted(s: Seq<(Seq<char>, TestStatus, usize)>, pos: int, x: (Seq<char>, TestStatus, usize))
    requires
        sorted_by_name(s),
        0 <= pos <= s.len(),
        forall|k: int| 0 <= k < pos ==> chars_le(#[trigger] s[k].0, x.0),
        pos < s.len() ==> !chars_le(s[pos].0, x.0),
    ensures
        sorted_by_name(s.insert(pos, x)),
{
    let t = s.insert(pos, x);
    assert forall|k: int| pos <= k < s.len() implies chars_le(x.0, #[trigger] s[k].0) by {
        lemma_chars_le_total(s[pos].0, x.0);
        if k > pos {
            lemma_chars_le_transitive(x.0, s[pos].0, s[k].0);
        }
    }
    assert forall|i: int, j: int| 0 <= i < j < t.len() implies chars_le(t[i].0, t[j].0) by {
        if j < pos {
            assert(t[i] == s[i] && t[j] == s[j]);
        } else if j == pos {
            assert(t[i] == s[i]);
        } else if i < pos {
            assert(t[i] == s[i] && t[j] == s[j - 1]);
            lemma_chars_le_transitive(s[i].0, x.0, s[j - 1].0);
        } else if i == pos {
            assert(t[j] == s[j - 1]);
        } else {
            assert(t[i] == s[i - 1] && t[j] == s[j - 1]);
        }
    }
}

/// The results of a commit's tests: those whose directory name matches the
/// filter and that have a status file, ordered by test name.
pub fn commit_results(dirs: &Vec<TestDir>, filter: &TestFilter) -> (res: Vec<TestResult>)
    ensures
        result_views(res@) == sort_by_name(shown_results(dirs@, filter@)),
        sorted_by_name(result_views(res@)),
        result_views(res@).to_multiset() == shown_results(dirs@, filter@).to_multiset(),
        res@.len() == dirs@.filter(
            |d: TestDir| regex_finds(filter@, d.name@) && d.status is Some,
        ).len(),
        forall|i: int|
            0 <= i < dirs@.len() && regex_finds(filter@, dirs@[i].name@) && dirs@[i].status is Some
                ==> result_views(res@).contains(
                (
                    #[trigger] dirs@[i].name@,
                    status_of(dirs@[i].status->0@),
                    duration_of(opt_view(dirs@[i].duration)),
                ),
            ),
{
    let mut out: Vec<TestResult> = Vec::new();
    let ghost pred = |d: TestDir| shown(filter@, d);
    let ghost f = |d: TestDir| dir_result(d);
    assert(dirs@.take(0) =~= Seq::<TestDir>::empty());
    assert(result_views(out@) =~= Seq::<(Seq<char>, TestStatus, usize)>::empty());
    assert(dirs@.take(0).filter(pred) =~= Seq::<TestDir>::empty()) by {
        reveal(Seq::filter);
    }
    assert(dirs@.take(0).filter(pred).map_values(f) =~= result_views(out@));
    for i in 0..dirs.len()
        invariant
            pred == (|d: TestDir| shown(filter@, d)),
            f == (|d: TestDir| dir_result(d)),
            sorted_by_name(result_views(out@)),
            result_views(out@) == sort_by_name(dirs@.take(i as int).filter(pred).map_values(f)),
            result_views(out@).to_multiset() == dirs@.take(i as int).filter(pred).map_values(
                f,
            ).to_multiset(),
    {
        let d = &dirs[i];
        let ghost before = dirs@.take(i as int).filter(pred);
        assert(dirs@.take(i + 1) =~= dirs@.take(i as int).push(*d));
        proof {
            dirs@.take(i as int).lemma_filter_push(*d, pred);
        }
        if filter.matches(d.name.as_str()) {
            match test_result_from(d.name.clone(), copy_opt(&d.status), copy_opt(&d.duration)) {
                Some(r) => {
                    let ghost old_views = result_views(out@);
                    let mut pos: usize = 0;
                    assert(old_views.skip(0) =~= old_views);
                    while pos < out.len() && str_le(out[pos].name.as_str(), r.name.as_str())
                        invariant
                            old_views == result_views(out@),
                            pos <= out@.len(),
                            forall|k: int| 0 <= k < pos ==> chars_le(#[trigger] old_views[k].0, r@.0),
                            insert_pos(old_views, r@) == pos + insert_pos(old_views.skip(pos as int), r@),
                        decreases out@.len() - pos,
                    {
                        assert(old_views.skip(pos as int).drop_first() =~= old_views.skip(pos + 1));
                        assert(old_views.skip(pos as int)[0] == old_views[pos as int]);
                        pos = pos + 1;
                    }
                    proof {
                        if pos < out@.len() {
                            assert(old_views.skip(pos as int)[0] == old_views[pos as int]);
                        }
                    }
                    assert(insert_pos(old_views, r@) == pos);
                    let ghost rv = r@;
                    out.insert(pos, r);
                    assert(result_views(out@) =~= old_views.insert(pos as int, rv));
                    proof {
                        lemma_insert_sorted(old_views, pos as int, rv);
                    }
                    assert(pred(*d));
                    assert(dir_result(*d) == rv);
                    assert(dirs@.take(i + 1).filter(pred) == before.push(*d));
                    assert(before.push(*d).map_values(f) =~= before.map_values(f).push(rv));
                    assert(before.map_values(f).push(rv).drop_last() =~= before.map_values(f));
                    proof {
                        vstd::seq_lib::to_multiset_insert(old_views, pos as int, rv);
                        vstd::seq_lib::to_multiset_build(before.map_values(f), rv);
                    }
                },
                None => {
                    assert(!pred(*d));
                    assert(dirs@.take(i + 1).filter(pred) == before);
                },
            }
        } else {
            assert(!pred(*d));
            assert(dirs@.take(i + 1).filter(pred) == before);
        }
    }
    assert(dirs@.take(dirs@.len() as int) =~= dirs@);
    proof {
        lemma_every_selected_test_reported(dirs@, filter@);
    }
    out
}


/// The results whose test name the regex built from `pattern` matches.
pub open spec fn name_found(pattern: Seq<char>) -> spec_fn((Seq<char>, TestStatus, usize)) -> bool {
    |v: (Seq<char>, TestStatus, usize)| regex_finds(pattern, v.0)
}

proof fn lemma_filter_keeps(s: Seq<(Seq<char>, TestStatus, usize)>, p: spec_fn((Seq<char>, TestStatus, usize)) -> bool, q: spec_fn((Seq<char>, TestStatus, usize)) -> bool)
    requires
        forall|i: int| 0 <= i < s.len() ==> q(#[trigger] s[i]),
    ensures
        forall|i: int| 0 <= i < s.filter(p).len() ==> q(#[trigger] s.filter(p)[i]),
    decreases s.len(),
{
    reveal(Seq::filter);
    if s.len() > 0 {
        let r = s.drop_last();
        assert forall|i: int| 0 <= i < r.len() implies q(#[trigger] r[i]) by {
            assert(r[i] == s[i]);
        }
        lemma_filter_keeps(r, p, q);
        assert forall|i: int| 0 <= i < s.filter(p).len() implies q(#[trigger] s.filter(p)[i]) by {
            if i < r.filter(p).len() {
                assert(s.filter(p)[i] == r.filter(p)[i]);
            }
        }
    }
}

proof fn lemma_insert_pos_bounds(s: Seq<(Seq<char>, TestStatus, usize)>, x: (Seq<char>, TestStatus, usize))
    ensures
        0 <= insert_pos(s, x) <= s.len(),
        forall|k: int| 0 <= k < insert_pos(s, x) ==> chars_le(#[trigger] s[k].0, x.0),
        insert_pos(s, x) < s.len() ==> !chars_le(s[insert_pos(s, x)].0, x.0),
    decreases s.len(),
{
    if s.len() > 0 && chars_le(s[0].0, x.0) {
        lemma_insert_pos_bounds(s.drop_first(), x);
        assert forall|k: int| 0 <= k < insert_pos(s, x) implies chars_le(#[trigger] s[k].0, x.0) by {
            if k > 0 {
                assert(s[k] == s.drop_first()[k - 1]);
            }
        }
    }
}

proof fn lemma_insert_pos_split(a: Seq<(Seq<char>, TestStatus, usize)>, b: Seq<(Seq<char>, TestStatus, usize)>, x: (Seq<char>, TestStatus, usize))
    requires
        forall|k: int| 0 <= k < a.len() ==> chars_le(#[trigger] a[k].0, x.0),
        b.len() > 0 ==> !chars_le(b[0].0, x.0),
    ensures
        insert_pos(a + b, x) == a.len(),
    decreases a.len(),
{
    if a.len() > 0 {
        assert((a + b)[0] == a[0]);
        assert((a + b).drop_first() =~= a.drop_first() + b);
        assert forall|k: int| 0 <= k < a.drop_first().len() implies chars_le(#[trigger] a.drop_first()[k].0, x.0) by {
            assert(a.drop_first()[k] == a[k + 1]);
        }
        lemma_insert_pos_split(a.drop_first(), b, x);
    } else {
        assert(a + b =~= b);
    }
}

/// Stable sorting by name orders results by name.
pub proof fn lemma_sort_by_name_sorted(s: Seq<(Seq<char>, TestStatus, usize)>)
    ensures
        sorted_by_name(sort_by_name(s)),
        sort_by_name(s).len() == s.len(),
    decreases s.len(),
{
    if s.len() > 0 {
        let r = sort_by_name(s.drop_last());
        lemma_sort_by_name_sorted(s.drop_last());
        lemma_insert_pos_bounds(r, s.last());
        lemma_insert_sorted(r, insert_pos(r, s.last()), s.last());
    }
}

proof fn lemma_insert_filter(r: Seq<(Seq<char>, TestStatus, usize)>, x: (Seq<char>, TestStatus, usize), p: spec_fn((Seq<char>, TestStatus, usize)) -> bool)
    requires
        sorted_by_name(r),
    ensures
        p(x) ==> r.insert(insert_pos(r, x), x).filter(p) == r.filter(p).insert(insert_pos(r.filter(p), x), x),
        !p(x) ==> r.insert(insert_pos(r, x), x).filter(p) == r.filter(p),
{
    broadcast use Seq::filter_distributes_over_add;

    let k = insert_pos(r, x);
    lemma_insert_pos_bounds(r, x);
    let a = r.take(k);
    let b = r.skip(k);
    assert(r =~= a + b);
    assert(r.insert(k, x) =~= a + (seq![x] + b));
    assert forall|j: int| 0 <= j < b.len() implies !chars_le(#[trigger] b[j].0, x.0) by {
        assert(b[j] == r[k + j]);
        if j > 0 && chars_le(b[j].0, x.0) {
            assert(chars_le(r[k].0, r[k + j].0));
            crate::text::lemma_chars_le_transitive(r[k].0, r[k + j].0, x.0);
        }
    }
    let q_le = |v: (Seq<char>, TestStatus, usize)| chars_le(v.0, x.0);
    let q_gt = |v: (Seq<char>, TestStatus, usize)| !chars_le(v.0, x.0);
    assert forall|j: int| 0 <= j < a.len() implies q_le(#[trigger] a[j]) by {
        assert(a[j] == r[j]);
    }
    assert forall|j: int| 0 <= j < b.len() implies q_gt(#[trigger] b[j]) by {}
    lemma_filter_keeps(a, p, q_le);
    lemma_filter_keeps(b, p, q_gt);
    let e = Seq::<(Seq<char>, TestStatus, usize)>::empty();
    assert(seq![x] =~= e.push(x));
    e.lemma_filter_push(x, p);
    assert(e.filter(p) =~= e) by {
        reveal(Seq::filter);
    }
    assert(seq![x].filter(p) == (if p(x) { seq![x] } else { e }));
    if p(x) {
        let fa = a.filter(p);
        let fb = b.filter(p);
        assert forall|j: int| 0 <= j < fa.len() implies chars_le(#[trigger] fa[j].0, x.0) by {
            assert(q_le(fa[j]));
        }
        if fb.len() > 0 {
            assert(q_gt(fb[0]));
        }
        lemma_insert_pos_split(fa, fb, x);
        assert(r.filter(p) == fa + fb);
        assert((fa + fb).insert(fa.len() as int, x) =~= fa + (seq![x] + fb));
    } else {
        assert(seq![x] + b =~= b.insert(0, x));
    }
}

/// Stable sorting by name keeps every result, as often as it occurs.
pub proof fn lemma_sort_by_name_permutes(s: Seq<(Seq<char>, TestStatus, usize)>)
    ensures
        sort_by_name(s).to_multiset() == s.to_multiset(),
    decreases s.len(),
{
    if s.len() > 0 {
        let r = sort_by_name(s.drop_last());
        lemma_sort_by_name_permutes(s.drop_last());
        lemma_sort_by_name_sorted(s.drop_last());
        lemma_insert_pos_bounds(r, s.last());
        vstd::seq_lib::to_multiset_insert(r, insert_pos(r, s.last()), s.last());
        vstd::seq_lib::to_multiset_build(s.drop_last(), s.last());
        assert(s.drop_last().push(s.last()) =~= s);
    }
}

/// Every test directory whose name the filter's pattern matches and that has
/// a status file yields exactly one result, whatever its status: there are
/// as many results as such directories, and each one's name, status and
/// duration is among them.
pub proof fn lemma_every_selected_test_reported(dirs: Seq<TestDir>, p: Seq<char>)
    ensures
        sort_by_name(shown_results(dirs, p)).len() == dirs.filter(
            |d: TestDir| regex_finds(p, d.name@) && d.status is Some,
        ).len(),
        forall|i: int|
            0 <= i < dirs.len() && regex_finds(p, dirs[i].name@) && dirs[i].status is Some
                ==> sort_by_name(shown_results(dirs, p)).contains(
                (
                    #[trigger] dirs[i].name@,
                    status_of(dirs[i].status->0@),
                    duration_of(opt_view(dirs[i].duration)),
                ),
            ),
{
    broadcast use vstd::seq_lib::group_to_multiset_ensures, vstd::seq_lib::group_filter_ensures;

    let sel = |d: TestDir| regex_finds(p, d.name@) && d.status is Some;
    let sp = |d: TestDir| shown(p, d);
    assert(sp =~= sel);
    let f = dirs.filter(sel);
    let m = f.map_values(|d: TestDir| dir_result(d));
    assert(shown_results(dirs, p) == m);
    lemma_sort_by_name_sorted(m);
    lemma_sort_by_name_permutes(m);
    assert forall|i: int|
        0 <= i < dirs.len() && regex_finds(p, dirs[i].name@) && dirs[i].status is Some
            implies sort_by_name(m).contains(
            (
                #[trigger] dirs[i].name@,
                status_of(dirs[i].status->0@),
                duration_of(opt_view(dirs[i].duration)),
            ),
        ) by {
        assert(sel(dirs[i]));
        assert(f.contains(dirs[i]));
        let j = choose|j: int| 0 <= j < f.len() && f[j] == dirs[i];
        assert(m[j] == dir_result(dirs[i]));
        assert(m.contains(dir_result(dirs[i])));
        assert(m.to_multiset().count(dir_result(dirs[i])) > 0);
        assert(sort_by_name(m).to_multiset().count(dir_result(dirs[i])) > 0);
    }
}

/// Filtering commutes with stable sorting by name.
pub proof fn lemma_sort_filter_commute(s: Seq<(Seq<char>, TestStatus, usize)>, p: spec_fn((Seq<char>, TestStatus, usize)) -> bool)
    ensures
        sort_by_name(s.filter(p)) == sort_by_name(s).filter(p),
    decreases s.len(),
{
    reveal(Seq::filter);
    if s.len() == 0 {
        assert(s.filter(p) =~= s);
    } else {
        let r = s.drop_last();
        let x = s.last();
        lemma_sort_filter_commute(r, p);
        lemma_sort_by_name_sorted(r);
        lemma_insert_filter(sort_by_name(r), x, p);
        if p(x) {
            assert(s.filter(p) == r.filter(p).push(x));
            assert(r.filter(p).push(x).drop_last() =~= r.filter(p));
        }
    }
}

proof fn lemma_shown_results_narrow(dirs: Seq<TestDir>, p: Seq<char>, q: Seq<char>)
    requires
        forall|x: Seq<char>| regex_finds(p, x) ==> regex_finds(q, x),
    ensures
        shown_results(dirs, p) == shown_results(dirs, q).filter(name_found(p)),
    decreases dirs.len(),
{
    reveal(Seq::filter);
    let sp = |d: TestDir| shown(p, d);
    let sq = |d: TestDir| shown(q, d);
    let f = |d: TestDir| dir_result(d);
    if dirs.len() == 0 {
        assert(dirs.filter(sp) =~= dirs);
        assert(dirs.filter(sq) =~= dirs);
        assert(shown_results(dirs, p) =~= Seq::<(Seq<char>, TestStatus, usize)>::empty());
        assert(shown_results(dirs, q) =~= Seq::<(Seq<char>, TestStatus, usize)>::empty());
    } else {
        let r = dirs.drop_last();
        let d = dirs.last();
        lemma_shown_results_narrow(r, p, q);
        assert(dirs =~= r.push(d));
        r.lemma_filter_push(d, sp);
        r.lemma_filter_push(d, sq);
        if sq(d) {
            assert(r.filter(sq).push(d).map_values(f) =~= r.filter(sq).map_values(f).push(dir_result(d)));
            assert(r.filter(sq).map_values(f).push(dir_result(d)).drop_last() =~= r.filter(sq).map_values(f));
        }
        if sp(d) {
            assert(r.filter(sp).push(d).map_values(f) =~= r.filter(sp).map_values(f).push(dir_result(d)));
        }
    }
}

/// Narrowing the test filter only removes results: the results under a
/// pattern `p` are those under a pattern `q` that matches every name `p`
/// matches, less the ones whose name `p` does not match, in the same order.
/// (`TestFilter::from_query` states the case where `q` is the empty pattern.)
pub proof fn lemma_filter_only_removes(dirs: Seq<TestDir>, p: Seq<char>, q: Seq<char>)
    requires
        forall|x: Seq<char>| regex_finds(p, x) ==> regex_finds(q, x),
    ensures
        sort_by_name(shown_results(dirs, p)) == sort_by_name(shown_results(dirs, q)).filter(
            name_found(p),
        ),
{
    lemma_shown_results_narrow(dirs, p, q);
    lemma_sort_filter_commute(shown_results(dirs, q), name_found(p));
}

} // verus!
