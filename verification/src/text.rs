//! Character-level helpers on strings: decoding into characters, appending,
//! decimal rendering, substring search and lexicographic order.
use vstd::prelude::*;
use vstd::string::*;
use vstd::std_specs::iter::IteratorSpec;

verus! {

broadcast use vstd::string::group_string_axioms;

/// The characters of `s`, in order.
pub fn chars_of(s: &str) -> (res: Vec<char>)
    ensures
        res@ == s@,
{
    let mut out: Vec<char> = Vec::new();
    let mut it = s.chars();
    loop
        invariant
            out@ + it.remaining() == s@,
            it.obeys_prophetic_iter_laws(),
            it.decrease() is Some,
        decreases it.decrease()->0,
    {
        let ghost before = it.remaining();
        match it.next() {
            Some(c) => {
                out.push(c);
                assert(out@ + it.remaining() =~= s@);
            },
            None => {
                assert(it.remaining() == before);
                assert(before.len() == 0);
                assert(out@ =~= s@);
                return out;
            },
        }
    }
}


/// `String::push` from std: appends one character.
#[verifier::external_body]
fn push_char(s: &mut String, c: char)
    ensures
        final(s)@ == old(s)@.push(c),
{
    s.push(c);
}

/// Appends the characters of `cs` to `s`.
pub fn push_chars(s: &mut String, cs: &[char])
    ensures
        final(s)@ == old(s)@ + cs@,
{
    let ghost start = s@;
    for i in 0..cs.len()
        invariant
            s@ == start + cs@.take(i as int),
    {
        push_char(s, cs[i]);
        assert(cs@.take(i + 1) =~= cs@.take(i as int).push(cs@[i as int]));
    }
    assert(cs@.take(cs@.len() as int) =~= cs@);
}

/// Appends `t` to `s`.
pub fn push_str(s: &mut String, t: &str)
    ensures
        final(s)@ == old(s)@ + t@,
{
    s.append(t);
}

/// The characters of `cs` as a new string.
pub fn string_of(cs: &[char]) -> (res: String)
    ensures
        res@ == cs@,
{
    let mut s = String::new();
    push_chars(&mut s, cs);
    s
}

/// The decimal digit character for `d` (0 <= d < 10).
pub open spec fn digit_char(d: nat) -> char {
    if d == 0 { '0' } else if d == 1 { '1' } else if d == 2 { '2' } else if d == 3 { '3' }
    else if d == 4 { '4' } else if d == 5 { '5' } else if d == 6 { '6' } else if d == 7 { '7' }
    else if d == 8 { '8' } else { '9' }
}

/// The decimal representation of `n`, without sign or leading zeros
/// (`0` is written as a single `'0'`).
pub open spec fn decimal(n: nat) -> Seq<char>
    decreases n,
{
    if n < 10 {
        seq![digit_char(n)]
    } else {
        decimal(n / 10).push(digit_char(n % 10))
    }
}

fn digit_of(d: usize) -> (c: char)
    requires
        d < 10,
    ensures
        c == digit_char(d as nat),
{
    if d == 0 { '0' } else if d == 1 { '1' } else if d == 2 { '2' } else if d == 3 { '3' }
    else if d == 4 { '4' } else if d == 5 { '5' } else if d == 6 { '6' } else if d == 7 { '7' }
    else if d == 8 { '8' } else { '9' }
}

/// Appends the decimal representation of `n` to `s`.
pub fn push_decimal(s: &mut String, n: usize)
    ensures
        final(s)@ == old(s)@ + decimal(n as nat),
    decreases n,
{
    if n < 10 {
        push_char(s, digit_of(n));
        assert(decimal(n as nat) =~= seq![digit_char(n as nat)]);
    } else {
        push_decimal(s, n / 10);
        push_char(s, digit_of(n % 10));
    }
}

/// `needle` occurs in `hay` as a contiguous run of characters.
pub open spec fn has_substring(hay: Seq<char>, needle: Seq<char>) -> bool {
    exists|i: int|
        0 <= i && i + needle.len() <= hay.len() && #[trigger] hay.subrange(i, i + needle.len())
            == needle
}

/// Whether `needle` occurs in `hay` starting at position `at`.
fn matches_at(hay: &[char], needle: &[char], at: usize) -> (res: bool)
    requires
        at + needle@.len() <= hay@.len(),
    ensures
        res == (hay@.subrange(at as int, at + needle@.len()) == needle@),
{
    let hay_len = hay.len();
    for j in 0..needle.len()
        invariant
            at + needle@.len() <= hay@.len(),
            hay_len == hay@.len(),
            forall|k: int| 0 <= k < j ==> hay@[at + k] == needle@[k],
    {
        if hay[at + j] != needle[j] {
            assert(hay@.subrange(at as int, at + needle@.len())[j as int] != needle@[j as int]);
            return false;
        }
    }
    assert(hay@.subrange(at as int, at + needle@.len()) =~= needle@);
    true
}

/// Whether `needle` occurs in `hay`.
pub fn contains_chars(hay: &[char], needle: &[char]) -> (res: bool)
    ensures
        res == has_substring(hay@, needle@),
{
    if needle.len() > hay.len() {
        return false;
    }
    let last = hay.len() - needle.len();
    let mut i: usize = 0;
    while i <= last
        invariant
            last + needle@.len() == hay@.len(),
            i <= last + 1,
            forall|k: int|
                0 <= k < i ==> #[trigger] hay@.subrange(k, k + needle@.len()) != needle@,
        decreases last + 1 - i,
    {
        if matches_at(hay, needle, i) {
            return true;
        }
        if i == last {
            return false;
        }
        i = i + 1;
    }
    false
}

/// Whether `needle` occurs in `hay`.
pub fn str_contains(hay: &str, needle: &str) -> (res: bool)
    ensures
        res == has_substring(hay@, needle@),
{
    let h = chars_of(hay);
    let n = chars_of(needle);
    contains_chars(h.as_slice(), n.as_slice())
}


/// Lexicographic order on character sequences, comparing characters by
/// code point (the order of `str`'s `Ord`, since UTF-8 preserves code point order).
pub open spec fn chars_le(a: Seq<char>, b: Seq<char>) -> bool
    decreases a.len(),
{
    if a.len() == 0 {
        true
    } else if b.len() == 0 {
        false
    } else if a[0] != b[0] {
        a[0] < b[0]
    } else {
        chars_le(a.drop_first(), b.drop_first())
    }
}

/// Strict lexicographic order.
pub open spec fn chars_lt(a: Seq<char>, b: Seq<char>) -> bool {
    chars_le(a, b) && a != b
}

pub proof fn lemma_chars_le_total(a: Seq<char>, b: Seq<char>)
    ensures
        chars_le(a, b) || chars_le(b, a),
    decreases a.len(),
{
    if a.len() > 0 && b.len() > 0 && a[0] == b[0] {
        lemma_chars_le_total(a.drop_first(), b.drop_first());
    }
}

pub proof fn lemma_chars_le_antisymmetric(a: Seq<char>, b: Seq<char>)
    requires
        chars_le(a, b),
        chars_le(b, a),
    ensures
        a == b,
    decreases a.len(),
{
    if a.len() == 0 {
        assert(b.len() == 0);
        assert(a =~= b);
    } else {
        assert(b.len() > 0);
        assert(a[0] == b[0]);
        lemma_chars_le_antisymmetric(a.drop_first(), b.drop_first());
        assert(a =~= seq![a[0]] + a.drop_first());
        assert(b =~= seq![b[0]] + b.drop_first());
    }
}

pub proof fn lemma_chars_le_transitive(a: Seq<char>, b: Seq<char>, c: Seq<char>)
    requires
        chars_le(a, b),
        chars_le(b, c),
    ensures
        chars_le(a, c),
    decreases a.len(),
{
    if a.len() > 0 && b.len() > 0 && c.len() > 0 && a[0] == b[0] && b[0] == c[0] {
        lemma_chars_le_transitive(a.drop_first(), b.drop_first(), c.drop_first());
    }
}

pub proof fn lemma_chars_le_reflexive(a: Seq<char>)
    ensures
        chars_le(a, a),
    decreases a.len(),
{
    if a.len() > 0 {
        lemma_chars_le_reflexive(a.drop_first());
    }
}

/// What the order means: a prefix comes first, and otherwise the first
/// character where two texts differ decides, by code point.
pub proof fn lemma_chars_le_meaning(a: Seq<char>, b: Seq<char>, i: int)
    requires
        0 <= i <= a.len(),
        i <= b.len(),
        a.take(i) == b.take(i),
    ensures
        i == a.len() ==> chars_le(a, b),
        i < a.len() && i < b.len() && a[i] < b[i] ==> chars_le(a, b) && !chars_le(b, a),
    decreases i,
{
    if i > 0 {
        assert(a[0] == a.take(i)[0] && b[0] == b.take(i)[0]);
        assert(a.drop_first().take(i - 1) =~= a.take(i).drop_first());
        assert(b.drop_first().take(i - 1) =~= b.take(i).drop_first());
        lemma_chars_le_meaning(a.drop_first(), b.drop_first(), i - 1);
    }
}

/// Whether `a` comes no later than `b` in lexicographic order.
pub fn le_chars(a: &[char], b: &[char]) -> (res: bool)
    ensures
        res == chars_le(a@, b@),
{
    let mut i: usize = 0;
    let alen = a.len();
    let blen = b.len();
    assert(a@.skip(0) =~= a@);
    assert(b@.skip(0) =~= b@);
    while i < alen && i < blen
        invariant
            alen == a@.len(),
            blen == b@.len(),
            i <= alen,
            i <= blen,
            chars_le(a@, b@) == chars_le(a@.skip(i as int), b@.skip(i as int)),
        decreases alen - i,
    {
        if a[i] != b[i] {
            return a[i] < b[i];
        }
        assert(a@.skip(i as int).drop_first() =~= a@.skip(i + 1));
        assert(b@.skip(i as int).drop_first() =~= b@.skip(i + 1));
        i = i + 1;
    }
    i == alen
}

/// Whether `a` comes no later than `b` in lexicographic order.
pub fn str_le(a: &str, b: &str) -> (res: bool)
    ensures
        res == chars_le(a@, b@),
{
    let x = chars_of(a);
    let y = chars_of(b);
    le_chars(x.as_slice(), y.as_slice())
}

/// Whether two strings hold the same characters.
pub fn str_eq(a: &str, b: &str) -> (res: bool)
    ensures
        res == (a@ == b@),
{
    let x = chars_of(a);
    let y = chars_of(b);
    if x.len() != y.len() {
        return false;
    }
    for i in 0..x.len()
        invariant
            x@ == a@,
            y@ == b@,
            x@.len() == y@.len(),
            forall|k: int| 0 <= k < i ==> x@[k] == y@[k],
    {
        if x[i] != y[i] {
            return false;
        }
    }
    assert(x@ =~= y@);
    true
}

/// Unicode `White_Space`, the property that `char::is_whitespace` tests.
pub open spec fn is_white(c: char) -> bool {
    let v = c as u32;
    ||| 0x09 <= v <= 0x0d
    ||| v == 0x20
    ||| v == 0x85
    ||| v == 0xa0
    ||| v == 0x1680
    ||| 0x2000 <= v <= 0x200a
    ||| v == 0x2028
    ||| v == 0x2029
    ||| v == 0x202f
    ||| v == 0x205f
    ||| v == 0x3000
}

/// Whether `c` is Unicode white space.
pub fn white(c: char) -> (res: bool)
    ensures
        res == is_white(c),
{
    let v = c as u32;
    (0x09 <= v && v <= 0x0d) || v == 0x20 || v == 0x85 || v == 0xa0 || v == 0x1680 || (0x2000
        <= v && v <= 0x200a) || v == 0x2028 || v == 0x2029 || v == 0x202f || v == 0x205f || v
        == 0x3000
}

/// The number of white-space characters that `s` starts with.
pub open spec fn leading_white(s: Seq<char>) -> nat
    decreases s.len(),
{
    if s.len() > 0 && is_white(s[0]) {
        1 + leading_white(s.drop_first())
    } else {
        0
    }
}

/// The number of white-space characters that `s` ends with.
pub open spec fn trailing_white(s: Seq<char>) -> nat
    decreases s.len(),
{
    if s.len() > 0 && is_white(s.last()) {
        1 + trailing_white(s.drop_last())
    } else {
        0
    }
}

/// `s` without white space at either end (what `str::trim` yields).
pub open spec fn trim_white(s: Seq<char>) -> Seq<char> {
    let t = s.skip(leading_white(s) as int);
    t.take(t.len() - trailing_white(t))
}

proof fn lemma_leading_white(s: Seq<char>)
    ensures
        leading_white(s) <= s.len(),
        forall|i: int| 0 <= i < leading_white(s) ==> is_white(#[trigger] s[i]),
    decreases s.len(),
{
    if s.len() > 0 && is_white(s[0]) {
        lemma_leading_white(s.drop_first());
        assert forall|i: int| 0 <= i < leading_white(s) implies is_white(#[trigger] s[i]) by {
            if i > 0 {
                assert(s[i] == s.drop_first()[i - 1]);
            }
        }
    }
}

proof fn lemma_trailing_white(s: Seq<char>)
    ensures
        trailing_white(s) <= s.len(),
        forall|i: int| s.len() - trailing_white(s) <= i < s.len() ==> is_white(#[trigger] s[i]),
    decreases s.len(),
{
    if s.len() > 0 && is_white(s.last()) {
        lemma_trailing_white(s.drop_last());
        assert forall|i: int| s.len() - trailing_white(s) <= i < s.len() implies is_white(
            #[trigger] s[i],
        ) by {
            if i < s.len() - 1 {
                assert(s[i] == s.drop_last()[i]);
            }
        }
    }
}

/// A text that starts and ends with non-white-space characters occurs in
/// `s` exactly when it occurs in `s` with the white space at its ends removed.
pub proof fn lemma_substring_ignores_surrounding_white(s: Seq<char>, m: Seq<char>)
    requires
        m.len() > 0,
        !is_white(m[0]),
        !is_white(m.last()),
    ensures
        has_substring(s, m) == has_substring(trim_white(s), m),
{
    let a = leading_white(s) as int;
    let t = s.skip(a);
    let b = t.len() - trailing_white(t);
    lemma_leading_white(s);
    lemma_trailing_white(t);
    let r = trim_white(s);
    assert(r == t.take(b));
    if has_substring(s, m) {
        let i = choose|i: int|
            0 <= i && i + m.len() <= s.len() && #[trigger] s.subrange(i, i + m.len()) == m;
        assert(s[i] == s.subrange(i, i + m.len())[0]);
        assert(s[i + m.len() - 1] == s.subrange(i, i + m.len())[m.len() - 1]);
        assert(i >= a);
        if i + m.len() - 1 >= a + b {
            assert(t[i + m.len() - 1 - a] == s[i + m.len() - 1]);
        }
        assert(r.subrange(i - a, i - a + m.len()) =~= s.subrange(i, i + m.len()));
    }
    if has_substring(r, m) {
        let j = choose|j: int|
            0 <= j && j + m.len() <= r.len() && #[trigger] r.subrange(j, j + m.len()) == m;
        assert(s.subrange(j + a, j + a + m.len()) =~= r.subrange(j, j + m.len()));
    }
}

/// The leading run of non-white-space characters of `s`.
pub open spec fn word_prefix(s: Seq<char>) -> Seq<char>
    decreases s.len(),
{
    if s.len() == 0 || is_white(s[0]) {
        Seq::empty()
    } else {
        seq![s[0]] + word_prefix(s.drop_first())
    }
}

/// The first white-space-separated word of `s`, if `s` holds one.
pub open spec fn first_word(s: Seq<char>) -> Option<Seq<char>>
    decreases s.len(),
{
    if s.len() == 0 {
        None
    } else if is_white(s[0]) {
        first_word(s.drop_first())
    } else {
        Some(word_prefix(s))
    }
}

proof fn lemma_word_prefix_shape(s: Seq<char>)
    ensures
        word_prefix(s).len() <= s.len(),
        s.take(word_prefix(s).len() as int) == word_prefix(s),
        forall|i: int| 0 <= i < word_prefix(s).len() ==> !is_white(#[trigger] word_prefix(s)[i]),
        word_prefix(s).len() == s.len() || is_white(s[word_prefix(s).len() as int]),
    decreases s.len(),
{
    if s.len() == 0 || is_white(s[0]) {
        assert(s.take(0) =~= Seq::<char>::empty());
    } else {
        let r = s.drop_first();
        lemma_word_prefix_shape(r);
        let w = word_prefix(s);
        assert(w == seq![s[0]] + word_prefix(r));
        assert(s.take(w.len() as int) =~= w) by {
            assert forall|i: int| 0 <= i < w.len() implies s.take(w.len() as int)[i] == w[i] by {
                if i > 0 {
                    assert(r.take(word_prefix(r).len() as int)[i - 1] == word_prefix(r)[i - 1]);
                }
            }
        }
        assert forall|i: int| 0 <= i < w.len() implies !is_white(#[trigger] w[i]) by {
            if i > 0 {
                assert(w[i] == word_prefix(r)[i - 1]);
            }
        }
        if w.len() < s.len() {
            assert(s[w.len() as int] == r[word_prefix(r).len() as int]);
        }
    }
}

/// A line's first word starts at its first character that is not white
/// space and runs up to the next white-space character or the end of the
/// line; a line holds no word exactly when it is all white space.
pub proof fn lemma_first_word_shape(s: Seq<char>)
    ensures
        first_word(s) is None <==> (forall|i: int| 0 <= i < s.len() ==> is_white(#[trigger] s[i])),
        first_word(s) matches Some(w) ==> {
            &&& w.len() > 0
            &&& forall|i: int| 0 <= i < w.len() ==> !is_white(#[trigger] w[i])
            &&& exists|a: int|
                0 <= a && a + w.len() <= s.len() && (forall|i: int|
                    0 <= i < a ==> is_white(#[trigger] s[i])) && #[trigger] s.subrange(a, a + w.len())
                    == w && (a + w.len() == s.len() || is_white(s[a + w.len()]))
        },
    decreases s.len(),
{
    if s.len() == 0 {
    } else if is_white(s[0]) {
        let r = s.drop_first();
        lemma_first_word_shape(r);
        assert((forall|i: int| 0 <= i < s.len() ==> is_white(#[trigger] s[i])) <==> (forall|i: int|
            0 <= i < r.len() ==> is_white(#[trigger] r[i]))) by {
            if forall|i: int| 0 <= i < r.len() ==> is_white(#[trigger] r[i]) {
                assert forall|i: int| 0 <= i < s.len() implies is_white(#[trigger] s[i]) by {
                    if i > 0 {
                        assert(s[i] == r[i - 1]);
                    }
                }
            }
            if forall|i: int| 0 <= i < s.len() ==> is_white(#[trigger] s[i]) {
                assert forall|i: int| 0 <= i < r.len() implies is_white(#[trigger] r[i]) by {
                    assert(r[i] == s[i + 1]);
                }
            }
        }
        if first_word(r) is Some {
            let w = first_word(r)->0;
            let a = choose|a: int|
                0 <= a && a + w.len() <= r.len() && (forall|i: int|
                    0 <= i < a ==> is_white(#[trigger] r[i])) && #[trigger] r.subrange(a, a + w.len())
                    == w && (a + w.len() == r.len() || is_white(r[a + w.len()]));
            assert forall|i: int| 0 <= i < a + 1 implies is_white(#[trigger] s[i]) by {
                if i > 0 {
                    assert(s[i] == r[i - 1]);
                }
            }
            assert(s.subrange(a + 1, a + 1 + w.len()) =~= r.subrange(a, a + w.len()));
            if a + w.len() < r.len() {
                assert(s[a + 1 + w.len()] == r[a + w.len()]);
            }
        }
    } else {
        let w = word_prefix(s);
        lemma_word_prefix_shape(s);
        assert(w.len() > 0) by {
            assert(w == seq![s[0]] + word_prefix(s.drop_first()));
        }
        assert(s.subrange(0int, 0int + w.len()) =~= s.take(w.len() as int));
        assert(!is_white(s[0]));
    }
}

/// The first white-space-separated word of `line`, if it holds one.
pub fn first_word_of(line: &str) -> (res: Option<String>)
    ensures
        match res {
            Some(w) => first_word(line@) == Some(w@),
            None => first_word(line@) is None,
        },
{
    let cs = chars_of(line);
    let n = cs.len();
    let mut i: usize = 0;
    assert(cs@.skip(0) =~= cs@);
    while i < n && white(cs[i])
        invariant
            cs@ == line@,
            n == cs@.len(),
            i <= n,
            first_word(line@) == first_word(cs@.skip(i as int)),
        decreases n - i,
    {
        assert(cs@.skip(i as int).drop_first() =~= cs@.skip(i + 1));
        i = i + 1;
    }
    if i == n {
        assert(cs@.skip(i as int).len() == 0);
        return None;
    }
    let mut j: usize = i;
    let mut word: Vec<char> = Vec::new();
    assert(cs@.skip(i as int).subrange(0, 0) =~= Seq::<char>::empty());
    while j < n && !white(cs[j])
        invariant
            cs@ == line@,
            n == cs@.len(),
            i <= j <= n,
            word@ == cs@.subrange(i as int, j as int),
            word_prefix(cs@.skip(i as int)) == word@ + word_prefix(cs@.skip(j as int)),
        decreases n - j,
    {
        assert(cs@.skip(j as int).drop_first() =~= cs@.skip(j + 1));
        word.push(cs[j]);
        assert(word@ =~= cs@.subrange(i as int, j + 1));
        j = j + 1;
    }
    assert(word_prefix(cs@.skip(j as int)) =~= Seq::<char>::empty());
    assert(word@ + Seq::<char>::empty() =~= word@);
    Some(string_of(word.as_slice()))
}


/// The text of `s` up to its first line break (all of `s` when it has none).
pub open spec fn first_line(s: Seq<char>) -> Seq<char>
    decreases s.len(),
{
    if s.len() == 0 || s[0] == '\n' {
        Seq::empty()
    } else {
        seq![s[0]] + first_line(s.drop_first())
    }
}

/// The first line of `s` is the text before its first line break, or all of
/// `s` when it has none.
pub proof fn lemma_first_line_shape(s: Seq<char>)
    ensures
        first_line(s).len() <= s.len(),
        s.take(first_line(s).len() as int) == first_line(s),
        forall|i: int| 0 <= i < first_line(s).len() ==> #[trigger] first_line(s)[i] != '\n',
        first_line(s).len() == s.len() || s[first_line(s).len() as int] == '\n',
    decreases s.len(),
{
    if s.len() == 0 || s[0] == '\n' {
        assert(s.take(0) =~= Seq::<char>::empty());
    } else {
        let r = s.drop_first();
        lemma_first_line_shape(r);
        let w = first_line(s);
        assert(w == seq![s[0]] + first_line(r));
        assert(s.take(w.len() as int) =~= w) by {
            assert forall|i: int| 0 <= i < w.len() implies s.take(w.len() as int)[i] == w[i] by {
                if i > 0 {
                    assert(r.take(first_line(r).len() as int)[i - 1] == first_line(r)[i - 1]);
                }
            }
        }
        assert forall|i: int| 0 <= i < w.len() implies #[trigger] w[i] != '\n' by {
            if i > 0 {
                assert(w[i] == first_line(r)[i - 1]);
            }
        }
        if w.len() < s.len() {
            assert(s[w.len() as int] == r[first_line(r).len() as int]);
        }
    }
}

/// Appends the first line of `s` to `out`.
pub fn push_first_line(out: &mut String, s: &str)
    ensures
        final(out)@ == old(out)@ + first_line(s@),
{
    let cs = chars_of(s);
    let n = cs.len();
    let ghost start = out@;
    let mut i: usize = 0;
    assert(cs@.skip(0) =~= cs@);
    assert(start =~= start + Seq::<char>::empty());
    while i < n && cs[i] != '\n'
        invariant
            cs@ == s@,
            n == cs@.len(),
            i <= n,
            start + first_line(s@) == out@ + first_line(cs@.skip(i as int)),
        decreases n - i,
    {
        assert(cs@.skip(i as int).drop_first() =~= cs@.skip(i + 1));
        let ghost before = out@;
        push_char(out, cs[i]);
        assert(before + (seq![cs@[i as int]] + first_line(cs@.skip(i + 1))) =~= out@ + first_line(
            cs@.skip(i + 1),
        ));
        i = i + 1;
    }
    assert(first_line(cs@.skip(i as int)) =~= Seq::<char>::empty());
    assert(out@ + Seq::<char>::empty() =~= out@);
}

/// Concatenation regroups freely.
pub broadcast proof fn lemma_concat_regroup(a: Seq<char>, b: Seq<char>, c: Seq<char>)
    ensures
        #[trigger] (a + (b + c)) == (a + b) + c,
{
    assert(a + (b + c) =~= (a + b) + c);
}

} // verus!
