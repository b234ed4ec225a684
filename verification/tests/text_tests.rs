use ci_web::text::{first_word_of, push_decimal, push_first_line, str_contains, str_eq, str_le};

fn decimal(n: usize) -> String {
    let mut s = String::new();
    push_decimal(&mut s, n);
    s
}

#[test]
fn decimal_matches_display() {
    for n in [0usize, 1, 9, 10, 11, 99, 100, 105, 4096, 123456789, usize::MAX].iter() {
        assert_eq!(decimal(*n), n.to_string());
    }
    let mut s = String::from("x=");
    push_decimal(&mut s, 300);
    assert_eq!(s, "x=300");
}

#[test]
fn substring_search() {
    assert!(str_contains("abcabd", "abd"));
    assert!(str_contains("abc", ""));
    assert!(str_contains("", ""));
    assert!(!str_contains("ab", "abc"));
    assert!(!str_contains("aXbXc", "abc"));
    assert!(str_contains("héllo wörld", "ö"));
}

#[test]
fn lexicographic_order_is_that_of_str() {
    let words = ["", "a", "ab", "b", "B", "Ä", "é", "z", "master", "main", "for-next", "for_next"];
    for a in words.iter() {
        for b in words.iter() {
            assert_eq!(str_le(a, b), a <= b, "{:?} {:?}", a, b);
            assert_eq!(str_eq(a, b), a == b);
        }
    }
}

#[test]
fn first_word_is_that_of_split_whitespace() {
    let lines = ["", "   ", "master", "  master extra", "\tfoo\tbar", "a\u{3000}b", "\u{a0}x y", "x\u{85}"];
    for l in lines.iter() {
        let expect = l.split_whitespace().next().map(|w| w.to_string());
        assert_eq!(first_word_of(l), expect, "{:?}", l);
    }
}

#[test]
fn first_line_stops_at_newline() {
    let mut s = String::new();
    push_first_line(&mut s, "subject\n\nbody");
    assert_eq!(s, "subject");
    let mut s = String::new();
    push_first_line(&mut s, "no newline\r");
    assert_eq!(s, "no newline\r");
    let mut s = String::new();
    push_first_line(&mut s, "\nbody");
    assert_eq!(s, "");
}
