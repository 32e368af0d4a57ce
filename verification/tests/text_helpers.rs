use tui_suite::text::{chars_of, contains_chars, decimal_string, find_in, joined, lex_less};

#[test]
fn decimal_strings() {
    assert_eq!(decimal_string(0), "0");
    assert_eq!(decimal_string(7), "7");
    assert_eq!(decimal_string(10), "10");
    assert_eq!(decimal_string(1234), "1234");
}

#[test]
fn lexicographic_order() {
    let v = |s: &str| chars_of(s);
    assert!(lex_less(&v("abc"), &v("abd")));
    assert!(lex_less(&v("ab"), &v("abc")));
    assert!(!lex_less(&v("abc"), &v("abc")));
    assert!(!lex_less(&v("b"), &v("abc")));
    assert!(lex_less(&v("Z"), &v("a")));
}

#[test]
fn join_and_find() {
    assert_eq!(joined("ab", "cd"), "abcd");
    assert!(contains_chars(&chars_of("awesome rust"), &chars_of("some")));
    assert!(!contains_chars(&chars_of("rust"), &chars_of("Rust")));
    assert_eq!(find_in(&chars_of("abcabc"), &chars_of("ca")), Some(2));
    assert_eq!(find_in(&chars_of("ab"), &chars_of("abc")), None);
}
