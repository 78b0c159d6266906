use pymodtest::add_two;
use pymodtest::split_string;

#[test]
fn add_two_zero() {
    assert_eq!(add_two(0), 2);
}

#[test]
fn add_two_negative() {
    assert_eq!(add_two(-5), -3);
    assert_eq!(add_two(-2), 0);
}

#[test]
fn add_two_near_boundaries() {
    assert_eq!(add_two(i64::MIN), i64::MIN + 2);
    assert_eq!(add_two(i64::MAX - 2), i64::MAX);
}

#[test]
fn split_empty() {
    assert_eq!(split_string(""), Vec::<String>::new());
}

#[test]
fn split_all_whitespace() {
    assert_eq!(split_string(" \t\n\r  "), Vec::<String>::new());
}

#[test]
fn split_mixed_whitespace() {
    assert_eq!(split_string("  a   b\tc\n"), vec!["a", "b", "c"]);
}

#[test]
fn split_single_token() {
    assert_eq!(split_string("single"), vec!["single"]);
}

#[test]
fn split_keeps_duplicates_in_order() {
    assert_eq!(split_string("b a b a"), vec!["b", "a", "b", "a"]);
}

#[test]
fn split_unicode_whitespace() {
    assert_eq!(split_string("a\u{a0}b\u{2003}c"), vec!["a", "b", "c"]);
    assert_eq!(split_string("h\u{e9}llo w\u{f6}rld"), vec!["h\u{e9}llo", "w\u{f6}rld"]);
}

#[test]
fn resplit_of_rejoined_output_is_unchanged() {
    for input in ["  a   b\tc\n", "", "single", " x  \u{2028}y z ", "a\tb"] {
        let tokens = split_string(input);
        let rejoined = tokens.join(" ");
        assert_eq!(split_string(&rejoined), tokens);
    }
}
