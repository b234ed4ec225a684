//! The branches to list: the first word of each line of the list of
//! branches under test, without repeats, in lexicographic order.
use vstd::prelude::*;
use crate::text::{
    chars_le, chars_lt, first_word, first_word_of, lemma_chars_le_antisymmetric,
    lemma_chars_le_total, lemma_chars_le_transitive, str_eq, str_le,
};

verus! {

/// The views of a sequence of strings.
pub open spec fn string_views(s: Seq<String>) -> Seq<Seq<char>> {
    s.map_values(|x: String| x@)
}

/// Each name comes strictly before the next.
pub open spec fn strictly_sorted(s: Seq<Seq<char>>) -> bool {
    forall|i: int, j: int| 0 <= i < j < s.len() ==> chars_lt(s[i], s[j])
}

/// The branch names that the lines name: the first word of each line that holds one.
pub open spec fn named_branches(lines: Seq<String>) -> Set<Seq<char>> {
    Set::new(|w: Seq<char>| exists|i: int| 0 <= i < lines.len() && first_word(#[trigger] lines[i]@) == Some(w))
}

proof fn lemma_insert_strict(s: Seq<Seq<char>>, pos: int, x: Seq<char>)
    requires
        strictly_sorted(s),
        0 <= pos <= s.len(),
        forall|k: int| 0 <= k < pos ==> chars_lt(#[trigger] s[k], x),
        pos < s.len() ==> chars_lt(x, s[pos]),
    ensures
        strictly_sorted(s.insert(pos, x)),
{
    let t = s.insert(pos, x);
    assert forall|k: int| pos <= k < s.len() implies chars_lt(x, #[trigger] s[k]) by {
        if k > pos {
            assert(chars_lt(s[pos], s[k]));
            lemma_chars_le_transitive(x, s[pos], s[k]);
            if x == s[k] {
                lemma_chars_le_antisymmetric(s[pos], s[k]);
            }
        }
    }
    assert forall|i: int, j: int| 0 <= i < j < t.len() implies chars_lt(t[i], t[j]) by {
        if j < pos {
            assert(t[i] == s[i] && t[j] == s[j]);
        } else if j == pos {
            assert(t[i] == s[i]);
        } else if i < pos {
            assert(t[i] == s[i] && t[j] == s[j - 1]);
            lemma_chars_le_transitive(s[i], x, s[j - 1]);
            if s[i] == s[j - 1] {
                lemma_chars_le_antisymmetric(s[i], x);
            }
        } else if i == pos {
            assert(t[j] == s[j - 1]);
        } else {
            assert(t[i] == s[i - 1] && t[j] == s[j - 1]);
        }
    }
}

/// The branches to list, from the lines of the list of branches under test.
pub fn branches_to_test(lines: &Vec<String>) -> (res: Vec<String>)
    ensures
        strictly_sorted(string_views(res@)),
        string_views(res@).to_set() == named_branches(lines@),
{
    let mut out: Vec<String> = Vec::new();
    assert(string_views(out@).to_set() =~= named_branches(lines@.take(0)));
    for i in 0..lines.len()
        invariant
            strictly_sorted(string_views(out@)),
            string_views(out@).to_set() == named_branches(lines@.take(i as int)),
    {
        let ghost before = string_views(out@);
        let ghost names_before = named_branches(lines@.take(i as int));
        assert(lines@.take(i + 1) =~= lines@.take(i as int).push(lines@[i as int]));
        match first_word_of(lines[i].as_str()) {
            None => {
                assert(named_branches(lines@.take(i + 1)) =~= names_before) by {
                    assert forall|w: Seq<char>| named_branches(lines@.take(i + 1)).contains(w)
                        implies names_before.contains(w) by {
                        let k = choose|k: int|
                            0 <= k < lines@.take(i + 1).len() && first_word(
                                #[trigger] lines@.take(i + 1)[k]@,
                            ) == Some(w);
                        assert(lines@.take(i + 1)[k] == lines@.take(i as int)[k]);
                    }
                    assert forall|w: Seq<char>| names_before.contains(w)
                        implies named_branches(lines@.take(i + 1)).contains(w) by {
                        let k = choose|k: int|
                            0 <= k < lines@.take(i as int).len() && first_word(
                                #[trigger] lines@.take(i as int)[k]@,
                            ) == Some(w);
                        assert(lines@.take(i + 1)[k] == lines@.take(i as int)[k]);
                    }
                }
            },
            Some(w) => {
                let ghost wv = w@;
                assert(named_branches(lines@.take(i + 1)) =~= names_before.insert(wv)) by {
                    assert forall|x: Seq<char>| named_branches(lines@.take(i + 1)).contains(x)
                        implies names_before.insert(wv).contains(x) by {
                        let k = choose|k: int|
                            0 <= k < lines@.take(i + 1).len() && first_word(
                                #[trigger] lines@.take(i + 1)[k]@,
                            ) == Some(x);
                        if k < i {
                            assert(lines@.take(i + 1)[k] == lines@.take(i as int)[k]);
                        }
                    }
                    assert forall|x: Seq<char>| names_before.insert(wv).contains(x)
                        implies named_branches(lines@.take(i + 1)).contains(x) by {
                        if x == wv {
                            assert(lines@.take(i + 1)[i as int] == lines@[i as int]);
                        } else {
                            let k = choose|k: int|
                                0 <= k < lines@.take(i as int).len() && first_word(
                                    #[trigger] lines@.take(i as int)[k]@,
                                ) == Some(x);
                            assert(lines@.take(i + 1)[k] == lines@.take(i as int)[k]);
                        }
                    }
                }
                let mut pos: usize = 0;
                while pos < out.len() && str_le(out[pos].as_str(), w.as_str()) && !str_eq(
                    out[pos].as_str(),
                    w.as_str(),
                )
                    invariant
                        before == string_views(out@),
                        wv == w@,
                        pos <= out@.len(),
                        forall|k: int| 0 <= k < pos ==> chars_lt(#[trigger] before[k], wv),
                    decreases out@.len() - pos,
                {
                    assert(before[pos as int] == out@[pos as int]@);
                    pos = pos + 1;
                }
                proof {
                    if pos < out@.len() {
                        assert(before[pos as int] == out@[pos as int]@);
                    }
                }
                if pos < out.len() && str_eq(out[pos].as_str(), w.as_str()) {
                    assert(before.contains(wv)) by {
                        assert(before[pos as int] == wv);
                    }
                    assert(names_before.insert(wv) =~= names_before);
                } else {
                    proof {
                        if pos < out@.len() {
                            lemma_chars_le_total(before[pos as int], wv);
                        }
                    }
                    out.insert(pos, w);
                    assert(string_views(out@) =~= before.insert(pos as int, wv));
                    proof {
                        lemma_insert_strict(before, pos as int, wv);
                        assert(before.insert(pos as int, wv).to_set() =~= before.to_set().insert(wv)) by {
                            assert forall|x: Seq<char>| before.insert(pos as int, wv).contains(x)
                                implies before.to_set().insert(wv).contains(x) by {
                                let k = choose|k: int| 0 <= k < before.insert(pos as int, wv).len()
                                    && before.insert(pos as int, wv)[k] == x;
                                if k < pos {
                                    assert(before[k] == x);
                                } else if k > pos {
                                    assert(before[k - 1] == x);
                                }
                            }
                            assert forall|x: Seq<char>| before.to_set().insert(wv).contains(x)
                                implies before.insert(pos as int, wv).contains(x) by {
                                if x == wv {
                                    assert(before.insert(pos as int, wv)[pos as int] == wv);
                                } else {
                                    let k = choose|k: int| 0 <= k < before.len() && before[k] == x;
                                    if k < pos {
                                        assert(before.insert(pos as int, wv)[k] == x);
                                    } else {
                                        assert(before.insert(pos as int, wv)[k + 1] == x);
                                    }
                                }
                            }
                        }
                    }
                }
            },
        }
    }
    assert(lines@.take(lines@.len() as int) =~= lines@);
    out
}

} // verus!
