//! The request's query string: which branch, commit and tests to show, and
//! which page that asks for.
use vstd::prelude::*;
use crate::text::str_eq;
use vstd::string::*;

verus! {

/// The pieces of `s` between occurrences of `sep`, as `str::split` with a
/// character yields them: empty pieces included, and at least one piece.
pub open spec fn split_on(s: Seq<char>, sep: char) -> Seq<Seq<char>>
    decreases s.len(),
{
    if s.len() == 0 {
        seq![Seq::empty()]
    } else {
        let rest = split_on(s.drop_first(), sep);
        if s[0] == sep {
            seq![Seq::<char>::empty()] + rest
        } else {
            rest.update(0, seq![s[0]] + rest[0])
        }
    }
}

/// The key and value that one `&`-separated piece of a query string holds:
/// the text before its first `=` and the text between that `=` and the next
/// `=` (or the end); a piece without `=` holds none.
pub open spec fn query_pair(piece: Seq<char>) -> Option<(Seq<char>, Seq<char>)> {
    let parts = split_on(piece, '=');
    if parts.len() >= 2 {
        Some((parts[0], parts[1]))
    } else {
        None
    }
}

/// The key-value pairs of a query string, in order (what
/// `querystring::querify` returns).
pub open spec fn query_pairs(q: Seq<char>) -> Seq<(Seq<char>, Seq<char>)> {
    split_on(q, '&').filter_map(|p: Seq<char>| query_pair(p))
}

pub open spec fn pair_views(s: Seq<(String, String)>) -> Seq<(Seq<char>, Seq<char>)> {
    s.map_values(|p: (String, String)| (p.0@, p.1@))
}

/// `querystring::querify`, with each key and value copied into a `String`.
/// Claimed: the pairs are those of `query_pairs`, in order, which is what
/// its source computes (split on `&`, then take the first two parts of each
/// piece split on `=`, skipping pieces with fewer than two).
#[verifier::external_body]
fn querify(q: &str) -> (res: Vec<(String, String)>)
    ensures
        pair_views(res@) == query_pairs(q@),
{
    querystring::querify(q).into_iter().map(|(k, v)| (k.to_string(), v.to_string())).collect()
}

/// The value of the last pair whose key is `key`: a later pair overrides an
/// earlier one.
pub open spec fn lookup(pairs: Seq<(Seq<char>, Seq<char>)>, key: Seq<char>) -> Option<Seq<char>>
    decreases pairs.len(),
{
    if pairs.len() == 0 {
        None
    } else if pairs.last().0 == key {
        Some(pairs.last().1)
    } else {
        lookup(pairs.drop_last(), key)
    }
}

/// A key's value is that of its last pair: the key has no value exactly when
/// no pair has it, and otherwise its value is the value of a pair with that
/// key after which no pair has the key.
pub proof fn lemma_last_pair_wins(pairs: Seq<(Seq<char>, Seq<char>)>, key: Seq<char>)
    ensures
        lookup(pairs, key) is None <==> (forall|i: int| 0 <= i < pairs.len() ==> (#[trigger] pairs[i]).0 != key),
        lookup(pairs, key) matches Some(v) ==> exists|i: int|
            0 <= i < pairs.len() && #[trigger] pairs[i] == (key, v) && forall|j: int|
                i < j < pairs.len() ==> (#[trigger] pairs[j]).0 != key,
    decreases pairs.len(),
{
    if pairs.len() > 0 {
        let r = pairs.drop_last();
        lemma_last_pair_wins(r, key);
        assert forall|i: int| 0 <= i < r.len() implies r[i] == pairs[i] by {}
        if pairs.last().0 == key {
            assert(pairs[pairs.len() - 1] == (key, pairs.last().1));
        } else {
            if lookup(r, key) is None {
                assert forall|i: int| 0 <= i < pairs.len() implies (#[trigger] pairs[i]).0 != key by {
                    if i < r.len() {
                        assert(pairs[i] == r[i]);
                    }
                }
            } else {
                let v = lookup(r, key)->0;
                let i = choose|i: int|
                    0 <= i < r.len() && #[trigger] r[i] == (key, v) && forall|j: int|
                        i < j < r.len() ==> (#[trigger] r[j]).0 != key;
                assert(pairs[i] == (key, v));
                assert forall|j: int| i < j < pairs.len() implies (#[trigger] pairs[j]).0 != key by {
                    if j < r.len() {
                        assert(pairs[j] == r[j]);
                    }
                }
                assert(r[i].0 == key);
            }
        }
    }
}

fn find_last(pairs: &Vec<(String, String)>, key: &str) -> (res: Option<String>)
    ensures
        match res {
            Some(v) => lookup(pair_views(pairs@), key@) == Some(v@),
            None => lookup(pair_views(pairs@), key@) is None,
        },
{
    let mut found: Option<String> = None;
    let ghost views = pair_views(pairs@);
    for i in 0..pairs.len()
        invariant
            views == pair_views(pairs@),
            match found {
                Some(v) => lookup(views.take(i as int), key@) == Some(v@),
                None => lookup(views.take(i as int), key@) is None,
            },
    {
        assert(views.take(i + 1).drop_last() =~= views.take(i as int));
        assert(views.take(i + 1).last() == views[i as int]);
        if str_eq(pairs[i].0.as_str(), key) {
            found = Some(pairs[i].1.clone());
        }
    }
    assert(views.take(pairs@.len() as int) =~= views);
    found
}

/// What the query string asks for.
pub struct QueryParams {
    /// The pattern of test names to show; empty when not given.
    pub test: String,
    pub branch: Option<String>,
    pub commit: Option<String>,
}

/// The page a query asks for.
#[derive(Clone, Copy, Debug, PartialEq, Eq, Structural)]
pub enum PageKind {
    /// The results of one commit.
    Commit,
    /// The log of a branch.
    Log,
    /// The list of branches under test.
    BranchList,
}

pub open spec fn opt_seq(o: Option<String>) -> Option<Seq<char>> {
    match o {
        Some(s) => Some(s@),
        None => None,
    }
}

impl QueryParams {
    /// Reads the parameters `test`, `branch` and `commit` from a query string.
    pub fn parse(query: &str) -> (res: QueryParams)
        ensures
            res.test@ == (match lookup(query_pairs(query@), "test"@) {
                Some(v) => v,
                None => Seq::<char>::empty(),
            }),
            opt_seq(res.branch) == lookup(query_pairs(query@), "branch"@),
            opt_seq(res.commit) == lookup(query_pairs(query@), "commit"@),
    {
        let pairs = querify(query);
        let test = match find_last(&pairs, "test") {
            Some(t) => t,
            None => String::new(),
        };
        let branch = find_last(&pairs, "branch");
        let commit = find_last(&pairs, "commit");
        QueryParams { test, branch, commit }
    }

    /// The page the parameters ask for: a commit when one is named, else the
    /// log of the named branch, else the list of branches.
    pub fn page(&self) -> (res: PageKind)
        ensures
            res == (if self.commit is Some {
                PageKind::Commit
            } else if self.branch is Some {
                PageKind::Log
            } else {
                PageKind::BranchList
            }),
    {
        if self.commit.is_some() {
            PageKind::Commit
        } else if self.branch.is_some() {
            PageKind::Log
        } else {
            PageKind::BranchList
        }
    }
}

} // verus!
