//! Walking the history of a branch: which commits a branch page lists.
//!
//! The walk goes back from the branch head one commit at a time. It gives up
//! once more than 100 commits in a row have no test results, and the commits
//! without results at the old end of what it kept are not listed.
use vstd::prelude::*;
use crate::status::TestResult;

verus! {

/// The results of the tests run on one commit.
pub struct CommitResults {
    pub id: String,
    pub message: String,
    pub tests: Vec<TestResult>,
}

/// The longest run of consecutive untested commits that a walk accepts.
pub const MAX_UNTESTED_RUN: usize = 100;

/// A commit on which no test has a result.
pub open spec fn untested(c: CommitResults) -> bool {
    c.tests@.len() == 0
}

/// The `MAX_UNTESTED_RUN + 1` commits of `s` from position `i` on exist and are untested.
pub open spec fn gap_at(s: Seq<CommitResults>, i: int) -> bool {
    0 <= i && i + MAX_UNTESTED_RUN + 1 <= s.len() && forall|j: int|
        i <= j < i + MAX_UNTESTED_RUN + 1 ==> #[trigger] untested(s[j])
}

/// `s` holds more than `MAX_UNTESTED_RUN` untested commits in a row.
pub open spec fn has_long_gap(s: Seq<CommitResults>) -> bool {
    exists|i: int| #[trigger] gap_at(s, i)
}

/// The number of untested commits at the end of `s`.
pub open spec fn trailing_untested(s: Seq<CommitResults>) -> nat
    decreases s.len(),
{
    if s.len() == 0 || !untested(s.last()) {
        0
    } else {
        trailing_untested(s.drop_last()) + 1
    }
}

/// The state of a walk over a branch's history.
pub struct BranchWalk {
    kept: Vec<CommitResults>,
    run: usize,
    stopped: bool,
    offered: Ghost<Seq<CommitResults>>,
}

impl BranchWalk {
    /// The commits kept so far, newest first.
    pub closed spec fn kept(&self) -> Seq<CommitResults> {
        self.kept@
    }

    /// Whether the walk has given up.
    pub closed spec fn stopped(&self) -> bool {
        self.stopped
    }

    /// Every commit offered to the walk so far, newest first.
    pub closed spec fn offered(&self) -> Seq<CommitResults> {
        self.offered@
    }

    /// The walk's internal state agrees with what it has been offered.
    pub closed spec fn wf(&self) -> bool {
        &&& self.run == trailing_untested(self.kept@)
        &&& self.run <= MAX_UNTESTED_RUN
        &&& !has_long_gap(self.kept@)
        &&& self.kept@ == self.offered@.take(self.kept@.len() as int)
        &&& self.kept@.len() <= self.offered@.len()
        &&& !self.stopped ==> self.kept@ == self.offered@
        &&& self.stopped ==> self.kept@.len() < self.offered@.len()
        &&& self.stopped ==> has_long_gap(self.offered@.take(self.kept@.len() + 1 as int))
    }

    /// A walk that has seen nothing yet.
    pub fn new() -> (res: BranchWalk)
        ensures
            res.wf(),
            res.kept() == Seq::<CommitResults>::empty(),
            res.offered() == Seq::<CommitResults>::empty(),
            !res.stopped(),
    {
        let res = BranchWalk {
            kept: Vec::new(),
            run: 0,
            stopped: false,
            offered: Ghost(Seq::empty()),
        };
        assert(res.offered@.take(0) =~= res.kept@);
        res
    }

    /// Offers the walk the next older commit. Returns whether the walk goes
    /// on: it keeps the commit unless the commit would end a run of more than
    /// `MAX_UNTESTED_RUN` untested commits, in which case the walk stops and
    /// drops it. A stopped walk ignores what it is offered.
    pub fn offer(&mut self, c: CommitResults) -> (go_on: bool)
        requires
            old(self).wf(),
        ensures
            final(self).wf(),
            old(self).stopped() ==> final(self).kept() == old(self).kept() && final(self).stopped()
                && !go_on,
            !old(self).stopped() ==> final(self).offered() == old(self).offered().push(c),
            !old(self).stopped() && !has_long_gap(old(self).kept().push(c)) ==> final(self).kept()
                == old(self).kept().push(c) && !final(self).stopped() && go_on,
            !old(self).stopped() && has_long_gap(old(self).kept().push(c)) ==> final(self).kept()
                == old(self).kept() && final(self).stopped() && !go_on,
    {
        if self.stopped {
            return false;
        }
        let ghost old_kept = self.kept@;
        let ghost pushed = old_kept.push(c);
        let ghost offered = self.offered@.push(c);
        assert(pushed.drop_last() =~= old_kept);
        assert(offered.take(old_kept.len() + 1 as int) =~= pushed);
        assert(offered.take(old_kept.len() as int) =~= old_kept);
        if c.tests.len() == 0 {
            if self.run == MAX_UNTESTED_RUN {
                proof {
                    lemma_trailing_run(pushed);
                }
                self.stopped = true;
                self.offered = Ghost(offered);
                return false;
            }
            proof {
                lemma_no_gap_push(old_kept, c);
            }
            self.run = self.run + 1;
        } else {
            proof {
                lemma_no_gap_push(old_kept, c);
            }
            self.run = 0;
        }
        self.kept.push(c);
        self.offered = Ghost(offered);
        true
    }

    /// The commits that the branch page lists: those kept, without the
    /// untested ones at the old end. They are a prefix of the commits offered,
    /// in the order offered, with no run of more than `MAX_UNTESTED_RUN`
    /// untested commits.
    pub fn finish(self) -> (res: Vec<CommitResults>)
        requires
            self.wf(),
        ensures
            res@.len() <= self.kept().len(),
            res@ == self.kept().take(res@.len() as int),
            res@.len() == 0 || !untested(res@.last()),
            forall|j: int| res@.len() <= j < self.kept().len() ==> untested(#[trigger] self.kept()[j]),
            res@.len() <= self.offered().len(),
            res@ == self.offered().take(res@.len() as int),
            res@.len() > 0 ==> !untested(self.offered()[res@.len() - 1]),
            !has_long_gap(res@),
    {
        let ghost kept = self.kept@;
        let ghost offered = self.offered@;
        let mut v = self.kept;
        let ghost all = v@;
        while v.len() > 0 && v[v.len() - 1].tests.len() == 0
            invariant
                v@ == all.take(v@.len() as int),
                v@.len() <= all.len(),
                forall|j: int| v@.len() <= j < all.len() ==> untested(#[trigger] all[j]),
            decreases v@.len(),
        {
            v.pop();
            assert(v@ =~= all.take(v@.len() as int));
        }
        proof {
            assert(v@ =~= offered.take(v@.len() as int));
            if v@.len() > 0 {
                assert(v@.last() == offered[v@.len() - 1]);
            }
            if has_long_gap(v@) {
                let i = choose|i: int| #[trigger] gap_at(v@, i);
                assert forall|j: int| i <= j < i + MAX_UNTESTED_RUN + 1 implies #[trigger] untested(
                    kept[j],
                ) by {
                    assert(untested(v@[j]));
                }
                assert(gap_at(kept, i));
            }
        }
        v
    }
}

/// What a walk keeps is the longest prefix of the commits offered to it that
/// holds no run of more than `MAX_UNTESTED_RUN` untested commits; while that
/// is all of them, the walk goes on.
pub proof fn lemma_walk_keeps_longest_prefix(w: &BranchWalk)
    requires
        w.wf(),
    ensures
        w.kept().len() <= w.offered().len(),
        w.kept() == w.offered().take(w.kept().len() as int),
        !has_long_gap(w.kept()),
        forall|k: int|
            w.kept().len() < k <= w.offered().len() ==> has_long_gap(
                #[trigger] w.offered().take(k),
            ),
        !w.stopped() <==> w.kept() == w.offered(),
{
    let kept = w.kept();
    let offered = w.offered();
    assert forall|k: int| kept.len() < k <= offered.len() implies has_long_gap(
        #[trigger] offered.take(k),
    ) by {
        let short = offered.take(kept.len() + 1 as int);
        let i = choose|i: int| #[trigger] gap_at(short, i);
        assert forall|j: int| i <= j < i + MAX_UNTESTED_RUN + 1 implies #[trigger] untested(
            offered.take(k)[j],
        ) by {
            assert(untested(short[j]));
        }
        assert(gap_at(offered.take(k), i));
    }
}

/// A run that ends a sequence is as long as its trailing count says.
proof fn lemma_trailing_run(s: Seq<CommitResults>)
    requires
        trailing_untested(s) >= MAX_UNTESTED_RUN + 1,
    ensures
        has_long_gap(s),
{
    lemma_trailing_all_untested(s);
    let i = s.len() - (MAX_UNTESTED_RUN + 1);
    assert forall|j: int| i <= j < i + MAX_UNTESTED_RUN + 1 implies #[trigger] untested(s[j]) by {}
    assert(gap_at(s, i));
}

proof fn lemma_trailing_all_untested(s: Seq<CommitResults>)
    ensures
        trailing_untested(s) <= s.len(),
        forall|j: int| s.len() - trailing_untested(s) <= j < s.len() ==> #[trigger] untested(s[j]),
    decreases s.len(),
{
    if s.len() > 0 && untested(s.last()) {
        lemma_trailing_all_untested(s.drop_last());
        assert forall|j: int| s.len() - trailing_untested(s) <= j < s.len() implies #[trigger] untested(s[j]) by {
            if j < s.len() - 1 {
                assert(s[j] == s.drop_last()[j]);
            }
        }
    }
}

/// Appending a commit makes no long gap when the new trailing run is short.
proof fn lemma_no_gap_push(s: Seq<CommitResults>, c: CommitResults)
    requires
        !has_long_gap(s),
        trailing_untested(s.push(c)) <= MAX_UNTESTED_RUN,
    ensures
        !has_long_gap(s.push(c)),
{
    let t = s.push(c);
    assert(t.drop_last() =~= s);
    if has_long_gap(t) {
        let i = choose|i: int| #[trigger] gap_at(t, i);
        if i + MAX_UNTESTED_RUN + 1 < t.len() {
            assert forall|j: int| i <= j < i + MAX_UNTESTED_RUN + 1 implies #[trigger] untested(s[j]) by {
                assert(untested(t[j]));
            }
            assert(gap_at(s, i));
        } else {
            lemma_run_counts(t, (MAX_UNTESTED_RUN + 1) as nat);
        }
    }
}

/// A sequence ending in `k` untested commits has a trailing count of at least `k`.
proof fn lemma_run_counts(t: Seq<CommitResults>, k: nat)
    requires
        k <= t.len(),
        forall|j: int| t.len() - k <= j < t.len() ==> #[trigger] untested(t[j]),
    ensures
        trailing_untested(t) >= k,
    decreases k,
{
    if k > 0 {
        assert(untested(t[t.len() - 1]));
        assert forall|j: int| t.drop_last().len() - (k - 1) <= j < t.drop_last().len() implies #[trigger] untested(t.drop_last()[j]) by {
            assert(untested(t[j]));
        }
        lemma_run_counts(t.drop_last(), (k - 1) as nat);
    }
}

} // verus!
